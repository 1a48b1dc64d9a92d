//! The HTTPS GET of an MTA-STS policy file (RFC 8461 §3.3): what is asked, and
//! what an answer must look like.
//!
//! Deliberately minimal. The few rules that matter for MTA-STS security are
//! enforced explicitly: HTTP redirects are not followed (a 3xx is an error), a
//! `Content-Length` is required (chunked and other `Transfer-Encoding` responses
//! are refused), and the response is size-bounded so a hostile policy host cannot
//! stall the relay worker. The connection itself, its PKIX authentication and its
//! time limit are the caller's.

use vstd::prelude::*;
use vstd::slice::{slice_subrange, slice_to_vec};
use vstd::utf8::{decode_utf8, valid_utf8};

use crate::bytes::{
    blank_line, find_in, find_subslice, lemma_find_in, lemma_find_in_is, occurs_at, split_on,
    utf8_text,
};
use crate::network::error::{NetworkError, NetworkErrorView};
use crate::network::mta_sts::policy::sts_record_error;
use crate::text::{
    chars_of, concat3, cut, decimal, eq_ignore_case, number, parse_number, pieces, push_bytes,
    same_ignoring_case, split_once, split_words, string_of, to_decimal, trim, trimmed, words,
};

verus! {

/// Overall budget for a fetch, in seconds: TCP connect, TLS handshake, request
/// and response.
pub const FETCH_TIMEOUT_SECS: u64 = 10;

/// Largest policy body that is accepted (real policies are a few hundred bytes).
pub const MAX_BODY: usize = 65_536;

/// Largest header section that is buffered before the body.
pub const MAX_HEADERS: usize = 16_384;

/// The error of a fetch from a host.
pub open spec fn fetch_error(host: Seq<char>, reason: Seq<char>) -> NetworkErrorView {
    sts_record_error("fetch from "@ + host + ": "@ + reason)
}

/// The error of a fetch from a host.
pub fn sts_err(host: &str, reason: &str) -> (r: NetworkError)
    ensures
        r@ == fetch_error(host@, reason@),
{
    let mut text = concat3("fetch from ", host, ": ");
    text.append(reason);
    NetworkError::record("MTA-STS", text.as_str())
}

/// The host that serves a domain's policy.
pub fn policy_host(domain: &str) -> (r: String)
    ensures
        r@ == "mta-sts."@ + domain@,
{
    let mut host = "mta-sts.".to_string();
    host.append(domain);
    host
}

/// The error where the policy host has no address.
pub fn no_address(host: &str) -> (r: NetworkError)
    ensures
        r@ == (NetworkErrorView::Resolve {
            name: host@,
            reason: "no address for MTA-STS policy host"@,
        }),
{
    NetworkError::Resolve {
        name: host.to_string(),
        reason: "no address for MTA-STS policy host".to_string(),
    }
}

/// The request for a policy. `Connection: close` lets the server end the stream
/// so it is read to its end, but the body length is still taken from
/// Content-Length.
pub fn request(host: &str) -> (r: String)
    ensures
        r@ == "GET /.well-known/mta-sts.txt HTTP/1.1\r\nHost: "@ + host@
            + "\r\nUser-Agent: snail-mta-sts\r\nAccept: text/plain\r\nConnection: close\r\n\r\n"@,
{
    concat3(
        "GET /.well-known/mta-sts.txt HTTP/1.1\r\nHost: ",
        host,
        "\r\nUser-Agent: snail-mta-sts\r\nAccept: text/plain\r\nConnection: close\r\n\r\n",
    )
}

/// Append a chunk of the response to what has been read, or refuse it once the
/// whole is larger than the header and body limits together, 80 KiB.
pub fn buffer_chunk(buf: &mut Vec<u8>, chunk: &[u8], host: &str) -> (r: Result<(), NetworkError>)
    ensures
        final(buf)@ == old(buf)@ + chunk@,
        r is Ok <==> final(buf)@.len() <= MAX_HEADERS + MAX_BODY,
        r is Ok <==> final(buf)@.len() <= 80 * 1024,
        r matches Err(e) ==> e@ == fetch_error(host@, "response exceeds the size cap"@),
{
    push_bytes(buf, chunk);
    if buf.len() > MAX_HEADERS + MAX_BODY {
        return Err(sts_err(host, "response exceeds the size cap"));
    }
    Ok(())
}

/// Carriage return, line feed.
pub open spec fn line_end() -> Seq<char> {
    seq!['\r', '\n']
}

/// The content length that header lines declare, or why they are refused: any
/// `Transfer-Encoding`, or a `Content-Length` that is no number. Of several
/// lengths the last counts.
pub open spec fn content_length(headers: Seq<Seq<char>>) -> Result<Option<nat>, Seq<char>>
    decreases headers.len(),
{
    if headers.len() == 0 {
        Ok(None)
    } else {
        match content_length(headers.drop_last()) {
            Err(reason) => Err(reason),
            Ok(before) => match cut(headers.last(), ':') {
                None => Ok(before),
                Some((key, value)) => if same_ignoring_case(
                    trimmed(key),
                    "transfer-encoding"@,
                ) {
                    Err("transfer-encoded responses are not accepted"@)
                } else if same_ignoring_case(trimmed(key), "content-length"@) {
                    match number(trimmed(value), usize::MAX as nat) {
                        Some(n) => Ok(Some(n)),
                        None => Err("invalid Content-Length"@),
                    }
                } else {
                    Ok(before)
                },
            },
        }
    }
}

/// What is wrong with a status line, if anything: a protocol other than HTTP/1.1
/// and HTTP/1.0, no status code, or a code other than 200.
pub open spec fn status_fault(status: Seq<char>) -> Option<Seq<char>> {
    let parts = words(status);
    let proto = if parts.len() > 0 {
        parts[0]
    } else {
        Seq::empty()
    };
    let code = if parts.len() > 1 {
        number(parts[1], u16::MAX as nat)
    } else {
        None
    };
    if !same_ignoring_case(proto, "HTTP/1.1"@) && !same_ignoring_case(proto, "HTTP/1.0"@) {
        Some("unexpected protocol `"@ + proto + "`"@)
    } else if code is None {
        Some("missing status code"@)
    } else if code->0 != 200 {
        Some("status "@ + decimal(code->0) + " (redirects are not followed)"@)
    } else {
        None
    }
}

/// The policy body of an HTTP/1.x response, or why it is refused.
pub open spec fn response_body(raw: Seq<u8>) -> Result<Seq<char>, Seq<char>> {
    match find_in(raw, blank_line()) {
        None => Err("no header/body separator"@),
        Some(sep) => {
            let head = raw.take(sep);
            let body = raw.skip(sep + 4);
            let lines = split_on(decode_utf8(head), line_end());
            let length = content_length(lines.drop_first());
            if !valid_utf8(head) {
                Err("non-UTF-8 headers"@)
            } else if status_fault(lines[0]) is Some {
                Err(status_fault(lines[0])->0)
            } else if length is Err {
                Err(length->Err_0)
            } else if length->Ok_0 is None {
                Err("missing Content-Length"@)
            } else if length->Ok_0->0 > MAX_BODY {
                Err("Content-Length exceeds the size cap"@)
            } else if body.len() < length->Ok_0->0 {
                Err("body shorter than Content-Length"@)
            } else if !valid_utf8(body.take(length->Ok_0->0 as int)) {
                Err("non-UTF-8 policy body"@)
            } else {
                Ok(decode_utf8(body.take(length->Ok_0->0 as int)))
            }
        },
    }
}

/// Split text on CRLF.
fn split_lines(s: &[char]) -> (r: Vec<Vec<char>>)
    ensures
        pieces(r@) == split_on(s@, line_end()),
        r@.len() > 0,
{
    let mut out: Vec<Vec<char>> = Vec::new();
    let mut start: usize = 0;
    let mut i: usize = 0;
    let n = s.len();
    let ghost sep = line_end();
    assert(s@.skip(0) =~= s@);
    assert(pieces(out@) + split_on(s@, sep) =~= split_on(s@, sep));
    while i < n && i + 1 < n
        invariant
            n == s@.len(),
            start <= i <= n,
            sep == line_end(),
            forall|j: int| 0 <= j < i - start ==> !occurs_at(s@.skip(start as int), sep, j),
            pieces(out@) + split_on(s@.skip(start as int), sep) == split_on(s@, sep),
        decreases n - i,
    {
        let ghost t = s@.skip(start as int);
        let ghost k = i - start;
        assert(t.subrange(k, k + 2) =~= seq![s@[i as int], s@[i + 1]]);
        if s[i] == '\r' && s[i + 1] == '\n' {
            let ghost before = out@;
            let piece = slice_to_vec(slice_subrange(s, start, i));
            proof {
                assert(occurs_at(t, sep, k));
                lemma_find_in_is(t, sep, k);
                assert(t.take(k) =~= piece@);
                assert(t.skip(k + 2) =~= s@.skip(i + 2));
                assert(pieces(before.push(piece)) =~= pieces(before).push(piece@));
                assert(pieces(before) + (seq![piece@] + split_on(s@.skip(i + 2), sep)) =~= pieces(
                    before,
                ).push(piece@) + split_on(s@.skip(i + 2), sep));
            }
            out.push(piece);
            i = i + 2;
            start = i;
        } else {
            proof {
                assert(!occurs_at(t, sep, k)) by {
                    if occurs_at(t, sep, k) {
                        assert(seq![s@[i as int], s@[i + 1]][0] == sep[0]);
                        assert(seq![s@[i as int], s@[i + 1]][1] == sep[1]);
                    }
                }
            }
            i = i + 1;
        }
    }
    let ghost t = s@.skip(start as int);
    let ghost before = out@;
    let last = slice_to_vec(slice_subrange(s, start, n));
    proof {
        lemma_find_in(t, sep);
        assert(find_in(t, sep) is None) by {
            if find_in(t, sep) is Some {
                let j = find_in(t, sep)->0;
                assert(occurs_at(t, sep, j));
            }
        }
        assert(last@ =~= t);
        assert(pieces(before.push(last)) =~= pieces(before) + seq![last@]);
    }
    out.push(last);
    out
}

proof fn lemma_refused_header_stays(headers: Seq<Seq<char>>, i: int)
    requires
        0 <= i <= headers.len(),
        content_length(headers.take(i)) is Err,
    ensures
        content_length(headers) == content_length(headers.take(i)),
    decreases headers.len(),
{
    if i == headers.len() {
        assert(headers.take(i) =~= headers);
    } else {
        assert(headers.drop_last().take(i) =~= headers.take(i));
        lemma_refused_header_stays(headers.drop_last(), i);
    }
}

/// Check a status line.
fn check_status(status: &[char], host: &str) -> (r: Result<(), NetworkError>)
    ensures
        match (r, status_fault(status@)) {
            (Ok(_), None) => true,
            (Err(e), Some(reason)) => e@ == fetch_error(host@, reason),
            _ => false,
        },
{
    let parts = split_words(status);
    assert(pieces(parts@).len() == parts@.len());
    let proto: Vec<char> = if parts.len() > 0 {
        assert(pieces(parts@)[0] == parts@[0]@);
        slice_to_vec(parts[0].as_slice())
    } else {
        Vec::new()
    };
    assert(parts@.len() == 0 ==> proto@ =~= Seq::empty());
    if !eq_ignore_case(proto.as_slice(), "HTTP/1.1") && !eq_ignore_case(
        proto.as_slice(),
        "HTTP/1.0",
    ) {
        let proto = string_of(proto.as_slice());
        let reason = concat3("unexpected protocol `", proto.as_str(), "`");
        return Err(sts_err(host, reason.as_str()));
    }
    let code: Option<u64> = if parts.len() > 1 {
        assert(pieces(parts@)[1] == parts@[1]@);
        parse_number(parts[1].as_slice(), u16::MAX as u64)
    } else {
        None
    };
    match code {
        None => Err(sts_err(host, "missing status code")),
        Some(code) => {
            if code != 200 {
                let digits = to_decimal(code);
                let digits = string_of(digits.as_slice());
                let reason = concat3("status ", digits.as_str(), " (redirects are not followed)");
                return Err(sts_err(host, reason.as_str()));
            }
            Ok(())
        },
    }
}

/// Find the content length in a response's lines, the first of which is the status
/// line.
fn find_content_length(lines: &Vec<Vec<char>>, host: &str) -> (r: Result<
    Option<usize>,
    NetworkError,
>)
    requires
        lines@.len() > 0,
    ensures
        match (r, content_length(pieces(lines@).drop_first())) {
            (Ok(Some(n)), Ok(Some(m))) => n == m,
            (Ok(None), Ok(None)) => true,
            (Err(e), Err(reason)) => e@ == fetch_error(host@, reason),
            _ => false,
        },
{
    let ghost headers = pieces(lines@).drop_first();
    let mut found: Option<usize> = None;
    let mut i: usize = 1;
    while i < lines.len()
        invariant
            1 <= i <= lines@.len(),
            headers == pieces(lines@).drop_first(),
            content_length(headers.take(i - 1)) == Ok::<Option<nat>, Seq<char>>(
                match found {
                    Some(n) => Some(n as nat),
                    None => None,
                },
            ),
        decreases lines.len() - i,
    {
        proof {
            assert(headers.take(i as int).drop_last() =~= headers.take(i - 1));
            assert(headers.take(i as int).last() == lines@[i as int]@);
            if content_length(headers.take(i as int)) is Err {
                lemma_refused_header_stays(headers, i as int);
            }
        }
        if let Some((key, value)) = split_once(lines[i].as_slice(), ':') {
            let key = trim(key);
            if eq_ignore_case(key, "transfer-encoding") {
                return Err(sts_err(host, "transfer-encoded responses are not accepted"));
            }
            if eq_ignore_case(key, "content-length") {
                match parse_number(trim(value), usize::MAX as u64) {
                    Some(n) => {
                        found = Some(n as usize);
                    },
                    None => {
                        return Err(sts_err(host, "invalid Content-Length"));
                    },
                }
            }
        }
        i = i + 1;
    }
    assert(headers.take(headers.len() as int) =~= headers);
    Ok(found)
}

/// Parse a buffered HTTP/1.x response into the policy body. Enforces the
/// MTA-STS-relevant rules: status `200` only (no redirect-following), a present
/// and in-range `Content-Length`, and no `Transfer-Encoding`.
///
/// # Errors
/// [`NetworkError::Record`] if the response breaks one of them.
pub fn parse_http_response(raw: &[u8], host: &str) -> (r: Result<String, NetworkError>)
    ensures
        match (r, response_body(raw@)) {
            (Ok(body), Ok(text)) => body@ == text,
            (Err(e), Err(reason)) => e@ == fetch_error(host@, reason),
            _ => false,
        },
{
    let n = raw.len();
    let pattern: [u8; 4] = [0x0d, 0x0a, 0x0d, 0x0a];
    assert(pattern@ =~= blank_line());
    let sep = match find_subslice(raw, &pattern) {
        Some(sep) => sep,
        None => {
            return Err(sts_err(host, "no header/body separator"));
        },
    };
    let head = match utf8_text(slice_subrange(raw, 0, sep)) {
        Some(head) => head,
        None => {
            return Err(sts_err(host, "non-UTF-8 headers"));
        },
    };
    let body = slice_subrange(raw, sep + 4, n);
    let head = chars_of(head.as_str());
    let lines = split_lines(head.as_slice());
    assert(pieces(lines@)[0] == lines@[0]@);
    if let Err(e) = check_status(lines[0].as_slice(), host) {
        return Err(e);
    }
    let len = match find_content_length(&lines, host) {
        Ok(Some(len)) => len,
        Ok(None) => {
            return Err(sts_err(host, "missing Content-Length"));
        },
        Err(e) => {
            return Err(e);
        },
    };
    if len > MAX_BODY {
        return Err(sts_err(host, "Content-Length exceeds the size cap"));
    }
    if body.len() < len {
        return Err(sts_err(host, "body shorter than Content-Length"));
    }
    match utf8_text(slice_subrange(body, 0, len)) {
        Some(text) => Ok(text),
        None => Err(sts_err(host, "non-UTF-8 policy body")),
    }
}

} // verus!
