//! The header validator: reads `Content-Length`, `Transfer-Encoding` and
//! `Connection` across the whole header list and decides the framing of
//! the body and whether the connection is kept alive.
use crate::payload::{ChunkedPayload, EmptyPayload, LengthedPayload, PayloadType};
use crate::text::{
    eq_ignore_case, eq_ignore_case_at, lemma_split_commas_nonempty, parse_u64, parse_u64_at,
    split_commas, trim, trim_range,
};
use vstd::prelude::*;
use vstd::string::StringSliceAdditionalSpecFns;
use vstd::utf8::valid_utf8;

verus! {

/// What the `Connection` header asked for.
#[derive(Debug, Clone, Copy, PartialEq, Eq, Structural)]
pub enum KeepAlive {
    KeepAlive,
    Close,
    /// No `Connection` header, or one with another value.
    Unspecified,
}

/// HTTP/1.1 keeps the connection unless `close` was asked for.
pub open spec fn keeps_alive(k: KeepAlive) -> bool {
    k != KeepAlive::Close
}

impl KeepAlive {
    /// HTTP/1.1 keeps the connection unless `close` was asked for.
    pub fn should_keep_alive(&self) -> (r: bool)
        ensures
            r == keeps_alive(*self),
    {
        match self {
            KeepAlive::Close => false,
            _ => true,
        }
    }
}

/// The header that a `HeaderError` is about.
#[derive(Debug, Clone, Copy, PartialEq, Eq, Structural)]
pub enum HeaderName {
    ContentLength,
    TransferEncoding,
    /// A header value that is not valid UTF-8, whatever its name.
    Value,
}

impl HeaderName {
    pub fn as_str(&self) -> (r: &'static str)
        ensures
            *self == HeaderName::ContentLength ==> r@ == "Content-Length"@,
            *self == HeaderName::TransferEncoding ==> r@ == "Transfer-Encoding"@,
            *self == HeaderName::Value ==> r@ == ":value:"@,
    {
        match self {
            HeaderName::ContentLength => "Content-Length",
            HeaderName::TransferEncoding => "Transfer-Encoding",
            HeaderName::Value => ":value:",
        }
    }
}

#[derive(Debug, Clone, Copy, PartialEq, Eq, Structural)]
pub enum HeaderError {
    Duplicate(HeaderName),
    InvalidValue(HeaderName),
}

/// The validated framing of one request.
#[derive(Debug, Clone, Copy, PartialEq, Eq, Structural)]
pub struct ConnectionInfo {
    pub keep_alive: KeepAlive,
    pub payload_type: PayloadType,
}

/// What the validator has learnt after some of the headers.
pub struct Framing {
    pub content_length: Option<u64>,
    pub handled_te: bool,
    pub chunked: bool,
    pub keep_alive: KeepAlive,
}

pub open spec fn initial_framing() -> Framing {
    Framing { content_length: None, handled_te: false, chunked: false, keep_alive: KeepAlive::Unspecified }
}

/// The meaning of a trimmed `Connection` value.
pub open spec fn connection_option(v: Seq<u8>) -> KeepAlive {
    if eq_ignore_case(v, "keep-alive".spec_bytes()) {
        KeepAlive::KeepAlive
    } else if eq_ignore_case(v, "close".spec_bytes()) {
        KeepAlive::Close
    } else {
        KeepAlive::Unspecified
    }
}

pub open spec fn is_chunked_item(t: Seq<u8>) -> bool {
    eq_ignore_case(trim(t), "chunked".spec_bytes())
}

pub open spec fn is_known_coding(t: Seq<u8>) -> bool {
    is_chunked_item(t) || eq_ignore_case(trim(t), "identity".spec_bytes())
}

/// Every item of the `Transfer-Encoding` list is `chunked` or `identity`.
pub open spec fn all_codings_known(v: Seq<u8>) -> bool {
    forall|k: int| 0 <= k < split_commas(v).len() ==> is_known_coding(#[trigger] split_commas(v)[k])
}

/// Some item of the `Transfer-Encoding` list is `chunked`.
pub open spec fn names_chunked(v: Seq<u8>) -> bool {
    exists|k: int| 0 <= k < split_commas(v).len() && is_chunked_item(#[trigger] split_commas(v)[k])
}

pub open spec fn positive_length(f: Framing) -> bool {
    match f.content_length {
        Some(n) => n > 0,
        None => false,
    }
}

/// The validator's step on one header.
pub open spec fn scan_header(f: Framing, name: Seq<u8>, value: Seq<u8>) -> Result<Framing, HeaderError> {
    let v = trim(value);
    if !valid_utf8(value) {
        Err(HeaderError::InvalidValue(HeaderName::Value))
    } else if eq_ignore_case(name, "Content-Length".spec_bytes()) {
        if f.chunked {
            Err(HeaderError::InvalidValue(HeaderName::ContentLength))
        } else if f.content_length.is_some() {
            Err(HeaderError::Duplicate(HeaderName::ContentLength))
        } else {
            match parse_u64(v) {
                Some(n) => Ok(Framing { content_length: Some(n), ..f }),
                None => Err(HeaderError::InvalidValue(HeaderName::ContentLength)),
            }
        }
    } else if eq_ignore_case(name, "Transfer-Encoding".spec_bytes()) {
        if f.handled_te {
            Err(HeaderError::Duplicate(HeaderName::TransferEncoding))
        } else if !all_codings_known(v) || (names_chunked(v) && positive_length(f)) {
            Err(HeaderError::InvalidValue(HeaderName::TransferEncoding))
        } else {
            Ok(Framing { handled_te: true, chunked: f.chunked || names_chunked(v), ..f })
        }
    } else if eq_ignore_case(name, "Connection".spec_bytes()) {
        Ok(Framing { keep_alive: connection_option(v), ..f })
    } else {
        Ok(f)
    }
}

/// The validator over a whole header list, first header first.
pub open spec fn scan_headers(hs: Seq<(Seq<u8>, Seq<u8>)>) -> Result<Framing, HeaderError>
    decreases hs.len(),
{
    if hs.len() == 0 {
        Ok(initial_framing())
    } else {
        match scan_headers(hs.drop_last()) {
            Ok(f) => scan_header(f, hs.last().0, hs.last().1),
            Err(e) => Err(e),
        }
    }
}

/// The body framing: a positive `Content-Length`, else chunked if named,
/// else none.
pub open spec fn payload_of(f: Framing) -> PayloadType {
    if positive_length(f) {
        PayloadType::LengthedPayload(LengthedPayload { remaining: f.content_length.unwrap() })
    } else if f.chunked {
        PayloadType::ChunkedPayload(ChunkedPayload {})
    } else {
        PayloadType::Empty(EmptyPayload {})
    }
}

/// The validated framing of a header list, or the first error in it.
pub open spec fn validate(hs: Seq<(Seq<u8>, Seq<u8>)>) -> Result<ConnectionInfo, HeaderError> {
    match scan_headers(hs) {
        Ok(f) => Ok(ConnectionInfo { keep_alive: f.keep_alive, payload_type: payload_of(f) }),
        Err(e) => Err(e),
    }
}

/// A header list as sequences of bytes.
pub open spec fn header_seqs(hs: Seq<(Vec<u8>, Vec<u8>)>) -> Seq<(Seq<u8>, Seq<u8>)> {
    hs.map_values(|h: (Vec<u8>, Vec<u8>)| (h.0@, h.1@))
}

/// Relies on `std::str::from_utf8`: it succeeds exactly on valid UTF-8.
#[verifier::external_body]
fn is_utf8(v: &[u8]) -> (r: bool)
    ensures
        r == valid_utf8(v@),
{
    std::str::from_utf8(v).is_ok()
}

spec fn known_before(parts: Seq<Seq<u8>>, n: int) -> bool {
    forall|k: int| 0 <= k < n ==> is_known_coding(#[trigger] parts[k])
}

spec fn chunked_before(parts: Seq<Seq<u8>>, n: int) -> bool {
    exists|k: int| 0 <= k < n && is_chunked_item(#[trigger] parts[k])
}

proof fn lemma_before_extend(p: Seq<Seq<u8>>, q: Seq<Seq<u8>>, n: int)
    requires
        0 <= n < q.len(),
        n <= p.len(),
        forall|k: int| 0 <= k < n ==> #[trigger] q[k] == p[k],
    ensures
        known_before(q, n + 1) == (known_before(p, n) && is_known_coding(q[n])),
        chunked_before(q, n + 1) == (chunked_before(p, n) || is_chunked_item(q[n])),
{
    if known_before(p, n) && is_known_coding(q[n]) {
        assert forall|k: int| 0 <= k < n + 1 implies is_known_coding(#[trigger] q[k]) by {
            if k < n {
                assert(q[k] == p[k]);
            }
        }
    }
    if known_before(q, n + 1) {
        assert forall|k: int| 0 <= k < n implies is_known_coding(#[trigger] p[k]) by {
            assert(q[k] == p[k]);
        }
    }
    if chunked_before(p, n) {
        let k = choose|k: int| 0 <= k < n && is_chunked_item(#[trigger] p[k]);
        assert(q[k] == p[k]);
    }
    if chunked_before(q, n + 1) && !is_chunked_item(q[n]) {
        let k = choose|k: int| 0 <= k < n + 1 && is_chunked_item(#[trigger] q[k]);
        assert(q[k] == p[k]);
    }
}

proof fn lemma_before_same(p: Seq<Seq<u8>>, q: Seq<Seq<u8>>, n: int)
    requires
        0 <= n <= q.len(),
        n <= p.len(),
        forall|k: int| 0 <= k < n ==> #[trigger] q[k] == p[k],
    ensures
        known_before(q, n) == known_before(p, n),
        chunked_before(q, n) == chunked_before(p, n),
{
    if known_before(p, n) {
        assert forall|k: int| 0 <= k < n implies is_known_coding(#[trigger] q[k]) by {
            assert(q[k] == p[k]);
        }
    }
    if known_before(q, n) {
        assert forall|k: int| 0 <= k < n implies is_known_coding(#[trigger] p[k]) by {
            assert(q[k] == p[k]);
        }
    }
    if chunked_before(p, n) {
        let k = choose|k: int| 0 <= k < n && is_chunked_item(#[trigger] p[k]);
        assert(q[k] == p[k]);
    }
    if chunked_before(q, n) {
        let k = choose|k: int| 0 <= k < n && is_chunked_item(#[trigger] q[k]);
        assert(q[k] == p[k]);
    }
}

/// Reads the `Transfer-Encoding` list `s[lo..hi]`: whether every item is a
/// known coding, and whether one of them is `chunked`.
fn transfer_codings(s: &[u8], lo: usize, hi: usize) -> (r: (bool, bool))
    requires
        lo <= hi <= s@.len(),
    ensures
        r.0 == all_codings_known(s@.subrange(lo as int, hi as int)),
        r.1 == names_chunked(s@.subrange(lo as int, hi as int)),
{
    let mut all_known = true;
    let mut any_chunked = false;
    let mut start = lo;
    let mut i = lo;
    proof {
        lemma_split_commas_nonempty(s@.subrange(lo as int, lo as int));
        assert(s@.subrange(lo as int, lo as int) =~= Seq::<u8>::empty());
    }
    while i < hi
        invariant
            lo <= start <= i <= hi <= s@.len(),
            split_commas(s@.subrange(lo as int, i as int)).len() >= 1,
            split_commas(s@.subrange(lo as int, i as int)).last() == s@.subrange(start as int, i as int),
            all_known == known_before(
                split_commas(s@.subrange(lo as int, i as int)),
                split_commas(s@.subrange(lo as int, i as int)).len() - 1,
            ),
            any_chunked == chunked_before(
                split_commas(s@.subrange(lo as int, i as int)),
                split_commas(s@.subrange(lo as int, i as int)).len() - 1,
            ),
        decreases hi - i,
    {
        let ghost cur = s@.subrange(lo as int, i as int);
        let ghost nxt = s@.subrange(lo as int, i + 1);
        let ghost p = split_commas(cur);
        assert(nxt.drop_last() =~= cur);
        assert(nxt.last() == s@[i as int]);
        if s[i] == 0x2c {
            let (a, b) = trim_range(s, start, i);
            let chunked = eq_ignore_case_at(s, a, b, "chunked".as_bytes());
            let identity = eq_ignore_case_at(s, a, b, "identity".as_bytes());
            let ghost q = split_commas(nxt);
            assert(q == p.push(Seq::<u8>::empty()));
            proof {
                lemma_before_extend(p, q, p.len() - 1);
            }
            all_known = all_known && (chunked || identity);
            any_chunked = any_chunked || chunked;
            start = i + 1;
            assert(q.last() =~= s@.subrange(start as int, i + 1));
        } else {
            let ghost q = split_commas(nxt);
            assert(q == p.update(p.len() - 1, p.last().push(s@[i as int])));
            proof {
                lemma_before_same(p, q, p.len() - 1);
            }
            assert(q.last() =~= s@.subrange(start as int, i + 1));
        }
        i = i + 1;
    }
    let (a, b) = trim_range(s, start, hi);
    let chunked = eq_ignore_case_at(s, a, b, "chunked".as_bytes());
    let identity = eq_ignore_case_at(s, a, b, "identity".as_bytes());
    let ghost whole = s@.subrange(lo as int, hi as int);
    let ghost p = split_commas(whole);
    proof {
        lemma_before_extend(p, p, p.len() - 1);
    }
    (all_known && (chunked || identity), any_chunked || chunked)
}

proof fn lemma_scan_error_stays(hs: Seq<(Seq<u8>, Seq<u8>)>, k: int)
    requires
        0 <= k <= hs.len(),
        scan_headers(hs.subrange(0, k)).is_err(),
    ensures
        scan_headers(hs) == scan_headers(hs.subrange(0, k)),
    decreases hs.len(),
{
    if k == hs.len() {
        assert(hs.subrange(0, k) =~= hs);
    } else {
        let t = hs.drop_last();
        assert(t.subrange(0, k) =~= hs.subrange(0, k));
        lemma_scan_error_stays(t, k);
    }
}

/// The header validator: one pass over the headers, in order, that stops at
/// the first error.
pub fn validate_headers(headers: &Vec<(Vec<u8>, Vec<u8>)>) -> (r: Result<ConnectionInfo, HeaderError>)
    ensures
        r == validate(header_seqs(headers@)),
{
    let ghost hs = header_seqs(headers@);
    let mut content_length: Option<u64> = None;
    let mut handled_te = false;
    let mut chunked = false;
    let mut keep_alive = KeepAlive::Unspecified;
    let mut i: usize = 0;
    assert(hs.subrange(0, 0) =~= Seq::<(Seq<u8>, Seq<u8>)>::empty());
    while i < headers.len()
        invariant
            0 <= i <= headers@.len(),
            hs == header_seqs(headers@),
            scan_headers(hs.subrange(0, i as int)) == Ok::<Framing, HeaderError>(
                Framing { content_length, handled_te, chunked, keep_alive },
            ),
        decreases headers@.len() - i,
    {
        let ghost f = Framing { content_length, handled_te, chunked, keep_alive };
        let h = &headers[i];
        let name = h.0.as_slice();
        let value = h.1.as_slice();
        let ghost next = hs.subrange(0, i + 1);
        assert(next.drop_last() =~= hs.subrange(0, i as int));
        assert(next.last() == (name@, value@));
        assert(scan_headers(next) == scan_header(f, name@, value@));
        if !is_utf8(value) {
            proof {
                lemma_scan_error_stays(hs, i + 1);
            }
            return Err(HeaderError::InvalidValue(HeaderName::Value));
        }
        let (lo, hi) = trim_range(value, 0, value.len());
        assert(value@.subrange(0, value@.len() as int) =~= value@);
        if eq_ignore_case_at(name, 0, name.len(), "Content-Length".as_bytes()) {
            assert(name@.subrange(0, name@.len() as int) =~= name@);
            if chunked {
                proof {
                    lemma_scan_error_stays(hs, i + 1);
                }
                return Err(HeaderError::InvalidValue(HeaderName::ContentLength));
            }
            if content_length.is_some() {
                proof {
                    lemma_scan_error_stays(hs, i + 1);
                }
                return Err(HeaderError::Duplicate(HeaderName::ContentLength));
            }
            match parse_u64_at(value, lo, hi) {
                Some(n) => {
                    content_length = Some(n);
                },
                None => {
                    proof {
                        lemma_scan_error_stays(hs, i + 1);
                    }
                    return Err(HeaderError::InvalidValue(HeaderName::ContentLength));
                },
            }
        } else if eq_ignore_case_at(name, 0, name.len(), "Transfer-Encoding".as_bytes()) {
            assert(name@.subrange(0, name@.len() as int) =~= name@);
            if handled_te {
                proof {
                    lemma_scan_error_stays(hs, i + 1);
                }
                return Err(HeaderError::Duplicate(HeaderName::TransferEncoding));
            }
            let (known, names_chunk) = transfer_codings(value, lo, hi);
            let positive = match content_length {
                Some(n) => n > 0,
                None => false,
            };
            if !known || (names_chunk && positive) {
                proof {
                    lemma_scan_error_stays(hs, i + 1);
                }
                return Err(HeaderError::InvalidValue(HeaderName::TransferEncoding));
            }
            handled_te = true;
            chunked = chunked || names_chunk;
        } else if eq_ignore_case_at(name, 0, name.len(), "Connection".as_bytes()) {
            assert(name@.subrange(0, name@.len() as int) =~= name@);
            keep_alive = if eq_ignore_case_at(value, lo, hi, "keep-alive".as_bytes()) {
                KeepAlive::KeepAlive
            } else if eq_ignore_case_at(value, lo, hi, "close".as_bytes()) {
                KeepAlive::Close
            } else {
                KeepAlive::Unspecified
            };
        } else {
            assert(name@.subrange(0, name@.len() as int) =~= name@);
        }
        i = i + 1;
    }
    assert(hs.subrange(0, i as int) =~= hs);
    let payload_type = match content_length {
        Some(n) if n > 0 => PayloadType::LengthedPayload(LengthedPayload { remaining: n }),
        _ => if chunked {
            PayloadType::ChunkedPayload(ChunkedPayload {})
        } else {
            PayloadType::Empty(EmptyPayload {})
        },
    };
    Ok(ConnectionInfo { keep_alive, payload_type })
}

pub open spec fn is_content_length(name: Seq<u8>) -> bool {
    eq_ignore_case(name, "Content-Length".spec_bytes())
}

pub open spec fn is_transfer_encoding(name: Seq<u8>) -> bool {
    eq_ignore_case(name, "Transfer-Encoding".spec_bytes())
}

pub open spec fn is_connection(name: Seq<u8>) -> bool {
    eq_ignore_case(name, "Connection".spec_bytes())
}

/// The three special header names are told apart by their lengths.
proof fn lemma_special_names_differ(name: Seq<u8>)
    ensures
        is_content_length(name) ==> !is_transfer_encoding(name) && !is_connection(name),
        is_transfer_encoding(name) ==> !is_connection(name),
{
    reveal_strlit("Content-Length");
    reveal_strlit("Transfer-Encoding");
    reveal_strlit("Connection");
    vstd::string::is_ascii_spec_bytes("Content-Length");
    vstd::string::is_ascii_spec_bytes("Transfer-Encoding");
    vstd::string::is_ascii_spec_bytes("Connection");
}

/// The trimmed value of the last `Connection` header, if there is one.
pub open spec fn last_connection_value(hs: Seq<(Seq<u8>, Seq<u8>)>) -> Option<Seq<u8>>
    decreases hs.len(),
{
    if hs.len() == 0 {
        None
    } else if is_connection(hs.last().0) {
        Some(trim(hs.last().1))
    } else {
        last_connection_value(hs.drop_last())
    }
}

/// Once read, a `Content-Length` and a `chunked` coding stay; the keep-alive
/// decision is that of the last `Connection` header so far.
proof fn lemma_scan_prefix(hs: Seq<(Seq<u8>, Seq<u8>)>, k1: int, k2: int)
    requires
        0 <= k1 <= k2 <= hs.len(),
        scan_headers(hs.subrange(0, k2)).is_ok(),
    ensures
        scan_headers(hs.subrange(0, k1)).is_ok(),
        scan_headers(hs.subrange(0, k1)).unwrap().content_length.is_some()
            ==> scan_headers(hs.subrange(0, k2)).unwrap().content_length
            == scan_headers(hs.subrange(0, k1)).unwrap().content_length,
        scan_headers(hs.subrange(0, k1)).unwrap().chunked ==> scan_headers(hs.subrange(0, k2)).unwrap().chunked,
        scan_headers(hs.subrange(0, k2)).unwrap().keep_alive == match last_connection_value(hs.subrange(0, k2)) {
            Some(v) => connection_option(v),
            None => KeepAlive::Unspecified,
        },
    decreases k2,
{
    let cur = hs.subrange(0, k2);
    if k2 > 0 {
        let prev = hs.subrange(0, k2 - 1);
        assert(cur.drop_last() =~= prev);
        lemma_special_names_differ(cur.last().0);
        if scan_headers(prev).is_err() {
            assert(scan_headers(cur) == scan_headers(prev));
        }
        lemma_scan_prefix(hs, if k1 < k2 { k1 } else { k2 - 1 }, k2 - 1);
    } else {
        assert(cur =~= Seq::<(Seq<u8>, Seq<u8>)>::empty());
    }
}

/// The `Content-Length` read from header `i`, once the scan has passed it.
proof fn lemma_scan_saw_length(hs: Seq<(Seq<u8>, Seq<u8>)>, i: int, k: int)
    requires
        0 <= i < k <= hs.len(),
        is_content_length(hs[i].0),
        scan_headers(hs.subrange(0, k)).is_ok(),
    ensures
        scan_headers(hs.subrange(0, k)).unwrap().content_length == parse_u64(trim(hs[i].1)),
        scan_headers(hs.subrange(0, k)).unwrap().content_length.is_some(),
{
    lemma_scan_prefix(hs, i, k);
    lemma_scan_prefix(hs, i + 1, k);
    let pre = hs.subrange(0, i);
    let upto = hs.subrange(0, i + 1);
    assert(upto.drop_last() =~= pre);
    assert(upto.last() == hs[i]);
}

/// A `chunked` coding read from header `j`, once the scan has passed it.
proof fn lemma_scan_saw_chunked(hs: Seq<(Seq<u8>, Seq<u8>)>, j: int, k: int)
    requires
        0 <= j < k <= hs.len(),
        is_transfer_encoding(hs[j].0),
        !is_content_length(hs[j].0),
        names_chunked(trim(hs[j].1)),
        scan_headers(hs.subrange(0, k)).is_ok(),
    ensures
        scan_headers(hs.subrange(0, k)).unwrap().chunked,
{
    lemma_scan_prefix(hs, j, k);
    lemma_scan_prefix(hs, j + 1, k);
    let pre = hs.subrange(0, j);
    let upto = hs.subrange(0, j + 1);
    assert(upto.drop_last() =~= pre);
    assert(upto.last() == hs[j]);
}

/// Two `Content-Length` headers: the header list is rejected.
pub proof fn law_duplicate_content_length(hs: Seq<(Seq<u8>, Seq<u8>)>, i: int, j: int)
    requires
        0 <= i < j < hs.len(),
        is_content_length(hs[i].0),
        is_content_length(hs[j].0),
    ensures
        validate(hs).is_err(),
{
    let upto = hs.subrange(0, j + 1);
    let pre = hs.subrange(0, j);
    assert(upto.drop_last() =~= pre);
    assert(upto.last() == hs[j]);
    if scan_headers(hs).is_ok() {
        assert(hs.subrange(0, hs.len() as int) =~= hs);
        lemma_scan_prefix(hs, j + 1, hs.len() as int);
        lemma_scan_prefix(hs, j, j + 1);
        lemma_scan_saw_length(hs, i, j);
        assert(scan_headers(upto).is_err());
    }
}

/// `Content-Length` together with a `chunked` coding is rejected, in either
/// order; the one exception is a `Content-Length` of zero that comes first,
/// which declares no body and leaves the framing to the coding.
pub proof fn law_length_with_chunked(hs: Seq<(Seq<u8>, Seq<u8>)>, i: int, j: int)
    requires
        0 <= i < hs.len(),
        0 <= j < hs.len(),
        i != j,
        is_content_length(hs[i].0),
        is_transfer_encoding(hs[j].0),
        names_chunked(trim(hs[j].1)),
        j < i || parse_u64(trim(hs[i].1)) != Some(0u64),
    ensures
        validate(hs).is_err(),
{
    if scan_headers(hs).is_ok() {
        assert(hs.subrange(0, hs.len() as int) =~= hs);
        let k = if i < j { j } else { i };
        let upto = hs.subrange(0, k + 1);
        let pre = hs.subrange(0, k);
        assert(upto.drop_last() =~= pre);
        assert(upto.last() == hs[k]);
        lemma_scan_prefix(hs, k + 1, hs.len() as int);
        lemma_scan_prefix(hs, k, k + 1);
        if j < i {
            lemma_special_names_differ(hs[j].0);
            lemma_scan_saw_chunked(hs, j, i);
        } else {
            lemma_scan_saw_length(hs, i, j);
            lemma_special_names_differ(hs[j].0);
        }
        assert(scan_headers(upto).is_err());
    }
}

/// Keep-alive: a valid request keeps the connection unless its last
/// `Connection` header says `close`; without a `Connection` header, or with
/// `keep-alive`, it is kept.
pub proof fn law_keep_alive(hs: Seq<(Seq<u8>, Seq<u8>)>)
    ensures
        validate(hs).is_ok() && last_connection_value(hs).is_none() ==> keeps_alive(validate(hs).unwrap().keep_alive),
        validate(hs).is_ok() && last_connection_value(hs).is_some()
            && eq_ignore_case(last_connection_value(hs).unwrap(), "close".spec_bytes())
            ==> !keeps_alive(validate(hs).unwrap().keep_alive),
        validate(hs).is_ok() && last_connection_value(hs).is_some()
            && eq_ignore_case(last_connection_value(hs).unwrap(), "keep-alive".spec_bytes())
            ==> keeps_alive(validate(hs).unwrap().keep_alive),
{
    if scan_headers(hs).is_ok() {
        assert(hs.subrange(0, hs.len() as int) =~= hs);
        lemma_scan_prefix(hs, hs.len() as int, hs.len() as int);
        if let Some(v) = last_connection_value(hs) {
            if eq_ignore_case(v, "close".spec_bytes()) && eq_ignore_case(v, "keep-alive".spec_bytes()) {
                reveal_strlit("close");
                reveal_strlit("keep-alive");
                vstd::string::is_ascii_spec_bytes("close");
                vstd::string::is_ascii_spec_bytes("keep-alive");
                assert(v.len() == 5);
                assert(v.len() == 10);
            }
        }
    }
}

} // verus!
