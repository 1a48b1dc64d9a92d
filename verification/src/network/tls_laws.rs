//! What PEM material makes of a configuration.

use vstd::prelude::*;

use crate::network::tls::{
    certificate_anchor, chain_of, pem_certificates, pem_private_key, roots_of, server_fault,
};

verus! {

/// A chain is every certificate of the sections, in order, where each section was read; else
/// the first that was not is the fault.
pub proof fn law_chain_is_every_certificate(sections: Seq<Result<Seq<u8>, Seq<char>>>, k: int)
    ensures
        chain_of(sections) is Ok <==> forall|i: int|
            0 <= i < sections.len() ==> #[trigger] sections[i] is Ok,
        chain_of(sections) matches Ok(chain) ==> chain.len() == sections.len() && forall|i: int|
            0 <= i < sections.len() ==> #[trigger] sections[i] == Ok::<_, Seq<char>>(chain[i]),
        0 <= k < sections.len() && sections[k] is Err && (forall|i: int|
            0 <= i < k ==> #[trigger] sections[i] is Ok) ==> chain_of(sections) == Err::<
            Seq<Seq<u8>>,
            _,
        >(sections[k]->Err_0),
    decreases sections.len(),
{
    if sections.len() > 0 {
        let front = sections.drop_last();
        law_chain_is_every_certificate(front, k);
        assert(forall|i: int| 0 <= i < front.len() ==> front[i] == sections[i]);
        assert(sections[sections.len() - 1] == sections.last());
        if chain_of(sections) is Ok {
            assert forall|i: int| 0 <= i < sections.len() implies #[trigger] sections[i] is Ok by {
                if i < front.len() {
                    assert(front[i] is Ok);
                }
            }
            let chain = chain_of(sections)->Ok_0;
            assert forall|i: int| 0 <= i < sections.len() implies #[trigger] sections[i] == Ok::<
                _,
                Seq<char>,
            >(chain[i]) by {
                if i < front.len() {
                    assert(front[i] == sections[i]);
                }
            }
        }
        if forall|i: int| 0 <= i < sections.len() ==> #[trigger] sections[i] is Ok {
            assert forall|i: int| 0 <= i < front.len() implies #[trigger] front[i] is Ok by {
                assert(sections[i] is Ok);
            }
        }
        if 0 <= k < sections.len() && sections[k] is Err && (forall|i: int|
            0 <= i < k ==> #[trigger] sections[i] is Ok) {
            if k < front.len() {
                assert(front[k] == sections[k]);
                assert forall|i: int| 0 <= i < k implies #[trigger] front[i] is Ok by {
                    assert(sections[i] is Ok);
                }
            } else {
                assert forall|i: int| 0 <= i < front.len() implies #[trigger] front[i] is Ok by {
                    assert(sections[i] is Ok);
                }
            }
        }
    }
}

/// The trust anchors of sections are those of every certificate, in order, where each section
/// was read and makes one; otherwise there are none.
pub proof fn law_roots_are_every_anchor(sections: Seq<Result<Seq<u8>, Seq<char>>>)
    ensures
        roots_of(sections) is Ok <==> forall|i: int|
            0 <= i < sections.len() ==> #[trigger] sections[i] is Ok && certificate_anchor(
                sections[i]->Ok_0,
            ) is Ok,
        roots_of(sections) matches Ok(roots) ==> roots.len() == sections.len() && forall|i: int|
            0 <= i < sections.len() ==> certificate_anchor((#[trigger] sections[i])->Ok_0)
                == Ok::<_, Seq<char>>(roots[i]),
    decreases sections.len(),
{
    if sections.len() > 0 {
        let front = sections.drop_last();
        law_roots_are_every_anchor(front);
        assert(forall|i: int| 0 <= i < front.len() ==> front[i] == sections[i]);
        assert(sections[sections.len() - 1] == sections.last());
        if roots_of(sections) is Ok {
            assert forall|i: int| 0 <= i < sections.len() implies #[trigger] sections[i] is Ok
                && certificate_anchor(sections[i]->Ok_0) is Ok by {
                if i < front.len() {
                    assert(front[i] is Ok);
                }
            }
            let roots = roots_of(sections)->Ok_0;
            assert forall|i: int| 0 <= i < sections.len() implies certificate_anchor(
                (#[trigger] sections[i])->Ok_0,
            ) == Ok::<_, Seq<char>>(roots[i]) by {
                if i < front.len() {
                    assert(front[i] == sections[i]);
                }
            }
        }
        if forall|i: int|
            0 <= i < sections.len() ==> #[trigger] sections[i] is Ok && certificate_anchor(
                sections[i]->Ok_0,
            ) is Ok {
            assert forall|i: int| 0 <= i < front.len() implies #[trigger] front[i] is Ok
                && certificate_anchor(front[i]->Ok_0) is Ok by {
                assert(sections[i] is Ok);
            }
        }
    }
}

/// Server material is without fault exactly where every certificate was read and there is a
/// private key.
pub proof fn law_server_needs_certificates_and_a_key(cert_pem: Seq<char>, key_pem: Seq<char>)
    ensures
        server_fault(cert_pem, key_pem) is None <==> (forall|i: int|
            0 <= i < pem_certificates(cert_pem).len() ==> #[trigger] pem_certificates(
                cert_pem,
            )[i] is Ok) && (pem_private_key(key_pem) matches Ok(key) && key is Some),
{
    law_chain_is_every_certificate(pem_certificates(cert_pem), 0);
}

} // verus!
