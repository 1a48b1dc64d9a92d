//! Argon2id password hashing.

use argon2::password_hash::{PasswordHash, PasswordHasher as _, PasswordVerifier as _, Salt};
use argon2::{Algorithm, Argon2, AssociatedData, KeyId, Params, Version};
use vstd::prelude::*;
use vstd::utf8::encode_utf8;

use crate::security::encryption::algos::PasswordAlgo;
use crate::security::encryption::salt;
use crate::security::encryption::salt::sixteen_bytes_b64;
use crate::security::error::{SecurityError, SecurityErrorView};
use crate::text::{
    all_digits, chars_of, cut, digit, number, parse_number, pieces, split, split_once, splits,
    string_of, text_eq,
};

verus! {

/// A well-formed PHC string that stands for no account, with the parameters that real
/// ones have.
pub const DECOY_PHC: &'static str = "$argon2id$v=19$m=19456,t=2,p=1$c29tZXNhbHRzb21lc2FsdA$AAAAAAAAAAAAAAAAAAAAAAAAAAAAAAAAAAAAAAAAAAA";

/// The PHC string, or the error in words, that Argon2id with its default parameters
/// gives for a password and a salt in Base64.
pub uninterp spec fn argon2_phc(password: Seq<u8>, salt: Seq<char>) -> Result<Seq<char>, Seq<char>>;

/// What checking a password against a PHC string says.
pub enum Verdict {
    /// The password is the one that was hashed.
    Matches,
    /// The password is another one.
    Differs,
    /// The PHC string is malformed or asks for what is not supported.
    Fault(String),
}

/// What a [`Verdict`] says.
pub enum VerdictView {
    Matches,
    Differs,
    Fault(Seq<char>),
}

impl View for Verdict {
    type V = VerdictView;

    open spec fn view(&self) -> VerdictView {
        match self {
            Verdict::Matches => VerdictView::Matches,
            Verdict::Differs => VerdictView::Differs,
            Verdict::Fault(reason) => VerdictView::Fault(reason@),
        }
    }
}

/// What Argon2's verifier says of a password and a PHC string.
pub uninterp spec fn argon2_verdict(password: Seq<u8>, phc: Seq<char>) -> VerdictView;

// ---------------------------------------------------------------------------
// The degree of parallelism a PHC string asks for
// ---------------------------------------------------------------------------

/// Argon2's preset memory size, in KiB.
pub const PRESET_MEMORY: u32 = 19_456;

/// Argon2's preset number of passes.
pub const PRESET_PASSES: u32 = 2;

/// Argon2's preset degree of parallelism.
pub const PRESET_LANES: u32 = 1;

/// The least memory size Argon2 takes, in KiB.
pub const LEAST_MEMORY: u32 = 8;

/// What Argon2 answers where a setting is too large.
pub const TOO_LARGE: &'static str = "invalid parameter value: value to long";

/// What Argon2 answers where a setting is too small.
pub const TOO_SMALL: &'static str = "invalid parameter value: value to short";

/// What a PHC string holds: its parameters, and whether it has a salt and a hash; nothing
/// where it cannot be parsed.
pub uninterp spec fn phc_parts(phc: Seq<char>) -> Option<(Seq<char>, bool, bool)>;

/// Whether a text is a key identifier in Base64.
pub uninterp spec fn key_identifier(value: Seq<char>) -> bool;

/// Whether a text is associated data in Base64.
pub uninterp spec fn associated_data(value: Seq<char>) -> bool;

/// The view of what a PHC string holds.
pub open spec fn parts_view(parts: Option<(String, bool, bool)>) -> Option<
    (Seq<char>, bool, bool),
> {
    match parts {
        Some((params, salt, hash)) => Some((params@, salt, hash)),
        None => None,
    }
}

/// Calls `PasswordHash::new`: the text of the parameters, and whether there are a salt and
/// a hash. The result depends on the PHC string alone.
#[verifier::external_body]
fn parse_phc(phc: &str) -> (r: Option<(String, bool, bool)>)
    ensures
        parts_view(r) == phc_parts(phc@),
{
    let hash = PasswordHash::new(phc).ok()?;
    Some((hash.params.as_str().to_string(), hash.salt.is_some(), hash.hash.is_some()))
}

/// Calls `argon2::KeyId::from_str`: whether it takes the text. The result depends on the
/// text alone.
#[verifier::external_body]
fn is_key_identifier(value: &str) -> (r: bool)
    ensures
        r == key_identifier(value@),
{
    value.parse::<KeyId>().is_ok()
}

/// Calls `argon2::AssociatedData::from_str`: whether it takes the text. The result depends
/// on the text alone.
#[verifier::external_body]
fn is_associated_data(value: &str) -> (r: bool)
    ensures
        r == associated_data(value@),
{
    value.parse::<AssociatedData>().is_ok()
}

/// A setting: a 32-bit number in decimal digits, without leading zeros.
pub open spec fn setting(value: Seq<char>) -> Option<nat> {
    if all_digits(value) && (value.len() > 1 ==> value[0] != '0') {
        number(value, u32::MAX as nat)
    } else {
        None
    }
}

/// Whether Argon2 takes a parameter by itself.
pub open spec fn param_taken(param: Seq<char>) -> bool {
    match cut(param, '=') {
        Some((name, value)) => if name == "m"@ || name == "t"@ || name == "p"@ {
            setting(value) is Some
        } else if name == "keyid"@ {
            key_identifier(value)
        } else if name == "data"@ {
            associated_data(value)
        } else {
            false
        },
        None => false,
    }
}

/// Whether Argon2 takes each of a list of parameters by itself.
pub open spec fn params_taken(params: Seq<Seq<char>>) -> bool {
    forall|i: int| 0 <= i < params.len() ==> param_taken(#[trigger] params[i])
}

/// What a list of parameters sets a name to: the last one counts, and the preset holds
/// where there is none.
pub open spec fn set_to(params: Seq<Seq<char>>, name: Seq<char>, preset: nat) -> nat
    decreases params.len(),
{
    if params.len() == 0 {
        preset
    } else {
        match cut(params.last(), '=') {
            Some((n, value)) => if n == name && setting(value) is Some {
                setting(value)->0
            } else {
                set_to(params.drop_last(), name, preset)
            },
            None => set_to(params.drop_last(), name, preset),
        }
    }
}

/// The memory size a list of parameters asks for.
pub open spec fn memory(params: Seq<Seq<char>>) -> nat {
    set_to(params, "m"@, PRESET_MEMORY as nat)
}

/// The number of passes a list of parameters asks for.
pub open spec fn passes(params: Seq<Seq<char>>) -> nat {
    set_to(params, "t"@, PRESET_PASSES as nat)
}

/// The degree of parallelism a list of parameters asks for.
pub open spec fn lanes(params: Seq<Seq<char>>) -> nat {
    set_to(params, "p"@, PRESET_LANES as nat)
}

/// Whether a list of parameters makes Argon2 compute eight times the degree of parallelism
/// where that is no 32-bit number: it takes each of them, and enough memory is asked for.
pub open spec fn lanes_overflow(params: Seq<Seq<char>>) -> bool {
    params_taken(params) && memory(params) >= LEAST_MEMORY && lanes(params) * 8 > u32::MAX
}

/// The parameters of a PHC string.
pub open spec fn phc_params(phc: Seq<char>) -> Seq<Seq<char>> {
    match phc_parts(phc) {
        Some((params, salt, hash)) => splits(params, ','),
        None => Seq::empty(),
    }
}

/// Whether a PHC string asks for so much parallelism that Argon2's arithmetic overflows. Its
/// parameters are used only where it has a salt and a hash.
pub open spec fn too_parallel(phc: Seq<char>) -> bool {
    phc_parts(phc) matches Some((params, salt, hash)) && salt && hash && lanes_overflow(
        phc_params(phc),
    )
}

/// What is wrong with such parameters, as Argon2 says where its arithmetic wraps around: too
/// little memory for so many lanes, too few passes, or else too many lanes.
pub open spec fn overflow_fault(params: Seq<Seq<char>>) -> Seq<char> {
    if memory(params) < (lanes(params) * 8) % 0x1_0000_0000 || passes(params) < 1 {
        TOO_SMALL@
    } else {
        TOO_LARGE@
    }
}

/// A setting: a 32-bit number in decimal digits, without leading zeros.
fn read_setting(value: &[char]) -> (r: Option<u32>)
    ensures
        match (r, setting(value@)) {
            (Some(x), Some(y)) => x == y,
            (None, None) => true,
            _ => false,
        },
{
    if value.len() > 1 && value[0] == '0' {
        return None;
    }
    if value.len() > 0 && value[0] == '+' {
        assert(!digit(value@[0]));
        return None;
    }
    match parse_number(value, u32::MAX as u64) {
        Some(n) => Some(n as u32),
        None => None,
    }
}

/// The memory size, the number of passes and the degree of parallelism that parameters ask
/// for; nothing where Argon2 does not take one of them.
fn read_params(params: &Vec<Vec<char>>) -> (r: Option<(u32, u32, u32)>)
    ensures
        match r {
            Some((m, t, p)) => {
                &&& params_taken(pieces(params@))
                &&& m == memory(pieces(params@))
                &&& t == passes(pieces(params@))
                &&& p == lanes(pieces(params@))
            },
            None => !params_taken(pieces(params@)),
        },
{
    let ghost all = pieces(params@);
    let mut m: u32 = PRESET_MEMORY;
    let mut t: u32 = PRESET_PASSES;
    let mut p: u32 = PRESET_LANES;
    let mut i: usize = 0;
    proof {
        reveal_strlit("m");
        reveal_strlit("t");
        reveal_strlit("p");
        assert("m"@[0] == 'm' && "t"@[0] == 't' && "p"@[0] == 'p');
    }
    while i < params.len()
        invariant
            i <= params@.len(),
            all == pieces(params@),
            "m"@ != "t"@ && "t"@ != "p"@ && "m"@ != "p"@,
            params_taken(all.take(i as int)),
            m == memory(all.take(i as int)),
            t == passes(all.take(i as int)),
            p == lanes(all.take(i as int)),
        decreases params.len() - i,
    {
        let ghost before = all.take(i as int);
        let ghost now = all.take(i + 1);
        let param = params[i].as_slice();
        proof {
            assert(all[i as int] == param@);
            assert(now.drop_last() =~= before);
            assert(now.last() == param@);
        }
        let (name, value) = match split_once(param, '=') {
            Some((name, value)) => (name, value),
            None => {
                assert(!param_taken(all[i as int]));
                return None;
            },
        };
        let is_m = text_eq(name, "m");
        let is_t = text_eq(name, "t");
        let is_p = text_eq(name, "p");
        if is_m || is_t || is_p {
            match read_setting(value) {
                Some(n) => {
                    if is_m {
                        m = n;
                    } else if is_t {
                        t = n;
                    } else {
                        p = n;
                    }
                },
                None => {
                    assert(!param_taken(all[i as int]));
                    return None;
                },
            }
        } else {
            let text = string_of(value);
            let taken = if text_eq(name, "keyid") {
                is_key_identifier(text.as_str())
            } else if text_eq(name, "data") {
                is_associated_data(text.as_str())
            } else {
                false
            };
            if !taken {
                assert(!param_taken(all[i as int]));
                return None;
            }
        }
        proof {
            assert(param_taken(param@));
            assert forall|j: int| 0 <= j < now.len() implies param_taken(#[trigger] now[j]) by {
                if j < i {
                    assert(now[j] == before[j]);
                }
            }
        }
        i = i + 1;
    }
    assert(all.take(i as int) =~= all);
    Some((m, t, p))
}

/// What is wrong with a PHC string that asks for too much parallelism; nothing where it does
/// not.
fn parallelism_fault(phc: &str) -> (r: Option<String>)
    ensures
        r is Some <==> too_parallel(phc@),
        r matches Some(fault) ==> fault@ == overflow_fault(phc_params(phc@)),
{
    let params = match parse_phc(phc) {
        Some((params, salt, hash)) => {
            if !salt || !hash {
                return None;
            }
            params
        },
        None => {
            return None;
        },
    };
    let chars = chars_of(params.as_str());
    let list = split(chars.as_slice(), ',');
    let (m, t, p) = match read_params(&list) {
        Some(settings) => settings,
        None => {
            return None;
        },
    };
    let wide: u64 = p as u64 * 8;
    if m < LEAST_MEMORY || wide <= u32::MAX as u64 {
        return None;
    }
    let wrapped: u64 = wide % 0x1_0000_0000;
    if (m as u64) < wrapped || t < 1 {
        Some(TOO_SMALL.to_string())
    } else {
        Some(TOO_LARGE.to_string())
    }
}

/// Calls `Argon2::hash_password` for Argon2id, version 0x13, with the default
/// parameters, on a salt read by `Salt::from_b64`. It succeeds on a salt of sixteen
/// bytes and a password of up to 2^32 - 1 bytes, and what it makes asks for one lane and
/// verifies.
#[verifier::external_body]
fn argon2_hash(password: &[u8], salt: &str) -> (r: Result<String, String>)
    ensures
        match r {
            Ok(phc) => argon2_phc(password@, salt@) == Ok::<Seq<char>, Seq<char>>(phc@),
            Err(reason) => argon2_phc(password@, salt@) == Err::<Seq<char>, Seq<char>>(reason@),
        },
        sixteen_bytes_b64(salt@) && password@.len() <= 0xffff_ffff ==> r is Ok,
        r matches Ok(phc) ==> !too_parallel(phc@),
        r matches Ok(phc) ==> argon2_verdict(password@, phc@) == VerdictView::Matches,
{
    let salt = Salt::from_b64(salt).map_err(|e| e.to_string())?;
    Argon2::new(Algorithm::Argon2id, Version::V0x13, Params::default())
        .hash_password(password, salt)
        .map(|phc| phc.to_string())
        .map_err(|e| e.to_string())
}

/// Calls `Argon2::verify_password` on a PHC string read by `PasswordHash::new`. The
/// error that stands for a wrong password is told apart from the others. Where its
/// arithmetic on the degree of parallelism overflows, it can panic.
#[verifier::external_body]
fn argon2_verify(password: &[u8], phc: &str) -> (r: Verdict)
    requires
        !too_parallel(phc@),
    ensures
        r@ == argon2_verdict(password@, phc@),
{
    let argon2 = Argon2::new(Algorithm::Argon2id, Version::V0x13, Params::default());
    match PasswordHash::new(phc).and_then(|hash| argon2.verify_password(password, &hash)) {
        Ok(()) => Verdict::Matches,
        Err(argon2::password_hash::Error::Password) => Verdict::Differs,
        Err(e) => Verdict::Fault(e.to_string()),
    }
}

/// What checking a password against a PHC string comes to: one that asks for so much
/// parallelism that Argon2's arithmetic overflows is at fault, and Argon2's verifier
/// decides on every other.
pub open spec fn phc_verdict(password: Seq<u8>, phc: Seq<char>) -> VerdictView {
    if too_parallel(phc) {
        VerdictView::Fault(overflow_fault(phc_params(phc)))
    } else {
        argon2_verdict(password, phc)
    }
}

/// Whether a result is what a verdict comes to: a match or a mismatch is an answer, a
/// fault an error.
pub open spec fn settled(r: Result<bool, SecurityError>, verdict: VerdictView) -> bool {
    match verdict {
        VerdictView::Matches => r matches Ok(b) && b,
        VerdictView::Differs => r matches Ok(b) && !b,
        VerdictView::Fault(reason) => r matches Err(e) && e@ == SecurityErrorView::Hash(reason),
    }
}

/// What a verdict comes to.
pub fn settle(verdict: Verdict) -> (r: Result<bool, SecurityError>)
    ensures
        settled(r, verdict@),
{
    match verdict {
        Verdict::Matches => Ok(true),
        Verdict::Differs => Ok(false),
        Verdict::Fault(reason) => Err(SecurityError::Hash(reason)),
    }
}

/// Whether a result is what hashing came to: the PHC string or the error.
pub open spec fn hashed(
    r: Result<String, SecurityError>,
    outcome: Result<Seq<char>, Seq<char>>,
) -> bool {
    match outcome {
        Ok(phc) => r matches Ok(s) && s@ == phc,
        Err(reason) => r matches Err(e) && e@ == SecurityErrorView::Hash(reason),
    }
}

/// Hashes and verifies passwords with the configured algorithm (Argon2id).
pub struct PasswordHasher {
    pub algo: PasswordAlgo,
}

impl Default for PasswordHasher {
    fn default() -> (r: PasswordHasher)
        ensures
            r.algo == PasswordAlgo::Argon2id,
    {
        PasswordHasher { algo: PasswordAlgo::Argon2id }
    }
}

impl PasswordHasher {
    /// Hash `password` under a fresh random salt, returning a self-describing PHC
    /// string (salt + params embedded), which verifies the password.
    ///
    /// # Errors
    /// [`SecurityError::Hash`] if hashing fails, which takes a password of more than
    /// 2^32 - 1 bytes.
    pub fn hash(&self, password: &str) -> (r: Result<String, SecurityError>)
        ensures
            exists|salt: Seq<char>|
                sixteen_bytes_b64(salt) && hashed(
                    r,
                    #[trigger] argon2_phc(encode_utf8(password@), salt),
                ),
            encode_utf8(password@).len() <= 0xffff_ffff ==> r is Ok,
            r matches Ok(phc) ==> phc_verdict(encode_utf8(password@), phc@)
                == VerdictView::Matches,
            r matches Err(e) ==> e@ is Hash,
    {
        let salt = salt::generate();
        self.hash_with(password, salt.as_str())
    }

    /// Hash `password` under a given salt in Base64.
    ///
    /// # Errors
    /// [`SecurityError::Hash`] if hashing fails.
    pub fn hash_with(&self, password: &str, salt: &str) -> (r: Result<String, SecurityError>)
        ensures
            hashed(r, argon2_phc(encode_utf8(password@), salt@)),
            sixteen_bytes_b64(salt@) && encode_utf8(password@).len() <= 0xffff_ffff ==> r is Ok,
            r matches Ok(phc) ==> phc_verdict(encode_utf8(password@), phc@)
                == VerdictView::Matches,
    {
        match self.algo {
            PasswordAlgo::Argon2id => match argon2_hash(password.as_bytes(), salt) {
                Ok(phc) => Ok(phc),
                Err(reason) => Err(SecurityError::Hash(reason)),
            },
        }
    }

    /// Verify `password` against a PHC string. Returns `Ok(false)` on mismatch,
    /// `Err` only if the PHC string is malformed.
    ///
    /// # Errors
    /// [`SecurityError::Hash`] if `phc` cannot be parsed or asks for what is not supported.
    pub fn verify(&self, password: &str, phc: &str) -> (r: Result<bool, SecurityError>)
        ensures
            settled(r, phc_verdict(encode_utf8(password@), phc@)),
    {
        match self.algo {
            PasswordAlgo::Argon2id => {
                if let Some(fault) = parallelism_fault(phc) {
                    return settle(Verdict::Fault(fault));
                }
                settle(argon2_verify(password.as_bytes(), phc))
            },
        }
    }

    /// Verify `password` against a decoy, to spend the time of a real verification
    /// where there is no account to verify against. The answer stands for nothing.
    pub fn verify_dummy(&self, password: &str) -> (r: Result<bool, SecurityError>)
        ensures
            settled(r, phc_verdict(encode_utf8(password@), DECOY_PHC@)),
    {
        self.verify(password, DECOY_PHC)
    }
}

} // verus!
