//! The request parser: turns the buffered bytes of a connection into a
//! `Request` or a classified error, consuming the bytes incrementally and
//! with bounded resource use.

use vstd::prelude::*;

use crate::errors::HttpError;
use crate::errors::HttpErrorView;
use crate::http::Header;
use crate::http::HeaderId;
use crate::http::Headers;
use crate::http::HttpProtocolVersion;
use crate::http::Method;
use crate::http::entry_value;
use crate::http::put_entry;
use crate::stream::ByteStream;
use crate::stream::find_from;
use crate::stream::lemma_find_from;
use crate::stream::read_until_limited;
use crate::stream::spec_line_at;
use crate::target::Target;
use crate::target::TargetView;
use crate::target::first_pair_value;
use crate::target::resolved_target;

verus! {

/// The parser accepts at most this many distinct header names.
pub const MAX_HEADERS: usize = 100;

/// A header line is rejected once it exceeds this many bytes.
pub const MAX_HEADER_LINE: usize = 1000;

/// An entity body larger than this is rejected before it is read.
pub const MAX_BODY: u64 = 10000;

/// Whether `b` is ASCII whitespace: space, tab, line feed, form feed or
/// carriage return.
pub open spec fn is_ws_byte(b: u8) -> bool {
    b == 32 || b == 9 || b == 10 || b == 12 || b == 13
}

/// Whether every byte of `s` is ASCII whitespace.
pub open spec fn all_ws_bytes(s: Seq<u8>) -> bool {
    forall|i: int| 0 <= i < s.len() ==> is_ws_byte(#[trigger] s[i])
}

/// `b` with an ASCII upper-case letter folded to lower case.
pub open spec fn lower_byte(b: u8) -> u8 {
    if 65 <= b && b <= 90 {
        (b + 32) as u8
    } else {
        b
    }
}

/// `s` with ASCII upper-case letters folded to lower case.
pub open spec fn lower_bytes(s: Seq<u8>) -> Seq<u8> {
    s.map_values(|b: u8| lower_byte(b))
}

/// "host"
pub open spec fn lit_host() -> Seq<u8> {
    seq![104u8, 111u8, 115u8, 116u8]
}

/// "accept"
pub open spec fn lit_accept() -> Seq<u8> {
    seq![97u8, 99u8, 99u8, 101u8, 112u8, 116u8]
}

/// "content-type"
pub open spec fn lit_content_type() -> Seq<u8> {
    seq![99u8, 111u8, 110u8, 116u8, 101u8, 110u8, 116u8, 45u8, 116u8, 121u8, 112u8, 101u8]
}

/// "content-length"
pub open spec fn lit_content_length() -> Seq<u8> {
    seq![
        99u8, 111u8, 110u8, 116u8, 101u8, 110u8, 116u8, 45u8, 108u8, 101u8, 110u8, 103u8, 116u8,
        104u8,
    ]
}

/// "authorization"
pub open spec fn lit_authorization() -> Seq<u8> {
    seq![97u8, 117u8, 116u8, 104u8, 111u8, 114u8, 105u8, 122u8, 97u8, 116u8, 105u8, 111u8, 110u8]
}

/// "user-agent"
pub open spec fn lit_user_agent() -> Seq<u8> {
    seq![117u8, 115u8, 101u8, 114u8, 45u8, 97u8, 103u8, 101u8, 110u8, 116u8]
}

/// "cache-control"
pub open spec fn lit_cache_control() -> Seq<u8> {
    seq![99u8, 97u8, 99u8, 104u8, 101u8, 45u8, 99u8, 111u8, 110u8, 116u8, 114u8, 111u8, 108u8]
}

/// The header name a raw key denotes: matched case-insensitively against the
/// closed set of well-known names, anything else kept verbatim.
pub open spec fn classify_header_name(key: Seq<u8>) -> HeaderId {
    let lk = lower_bytes(key);
    if lk == lit_host() {
        HeaderId::Host
    } else if lk == lit_accept() {
        HeaderId::Accept
    } else if lk == lit_content_type() {
        HeaderId::ContentType
    } else if lk == lit_content_length() {
        HeaderId::ContentLength
    } else if lk == lit_authorization() {
        HeaderId::Authorization
    } else if lk == lit_user_agent() {
        HeaderId::UserAgent
    } else if lk == lit_cache_control() {
        HeaderId::CacheControl
    } else {
        HeaderId::Other(key)
    }
}

/// The first index at or after `i` holding a byte that is not whitespace,
/// or the length if none is.
pub open spec fn skip_ws_idx(s: Seq<u8>, i: int) -> int
    decreases s.len() - i,
{
    if i < 0 || i >= s.len() {
        s.len() as int
    } else if is_ws_byte(s[i]) {
        skip_ws_idx(s, i + 1)
    } else {
        i
    }
}

/// The index bounding the trailing whitespace of `s.subrange(0, i)`: the
/// position just past the last non-whitespace byte.
pub open spec fn trim_end_idx(s: Seq<u8>, i: int) -> int
    decreases i,
{
    if i <= 0 {
        0
    } else if is_ws_byte(s[i - 1]) {
        trim_end_idx(s, i - 1)
    } else {
        i
    }
}

/// `s` without leading and trailing ASCII whitespace.
pub open spec fn trim_ws(s: Seq<u8>) -> Seq<u8> {
    let a = skip_ws_idx(s, 0);
    let b = trim_end_idx(s, s.len() as int);
    if a < b {
        s.subrange(a, b)
    } else {
        Seq::empty()
    }
}

proof fn lemma_skip_ws_idx(s: Seq<u8>, i: int)
    requires
        0 <= i <= s.len(),
    ensures
        i <= skip_ws_idx(s, i) <= s.len(),
        forall|j: int| i <= j < skip_ws_idx(s, i) ==> is_ws_byte(#[trigger] s[j]),
        skip_ws_idx(s, i) < s.len() ==> !is_ws_byte(s[skip_ws_idx(s, i)]),
    decreases s.len() - i,
{
    if i < s.len() && is_ws_byte(s[i]) {
        lemma_skip_ws_idx(s, i + 1);
    }
}

proof fn lemma_trim_end_idx(s: Seq<u8>, i: int)
    requires
        0 <= i <= s.len(),
    ensures
        0 <= trim_end_idx(s, i) <= i,
        forall|j: int| trim_end_idx(s, i) <= j < i ==> is_ws_byte(#[trigger] s[j]),
        trim_end_idx(s, i) > 0 ==> !is_ws_byte(s[trim_end_idx(s, i) - 1]),
    decreases i,
{
    if i > 0 && is_ws_byte(s[i - 1]) {
        lemma_trim_end_idx(s, i - 1);
    }
}

/// The first index at or after `from` holding ASCII whitespace.
pub open spec fn find_ws_from(s: Seq<u8>, from: int) -> Option<int>
    decreases s.len() - from,
{
    if from >= s.len() {
        None
    } else if is_ws_byte(s[from]) {
        Some(from)
    } else {
        find_ws_from(s, from + 1)
    }
}

proof fn lemma_find_ws_from(s: Seq<u8>, from: int)
    requires
        0 <= from <= s.len(),
    ensures
        match find_ws_from(s, from) {
            Some(idx) => from <= idx < s.len() && is_ws_byte(s[idx]) && forall|j: int|
                from <= j < idx ==> !is_ws_byte(#[trigger] s[j]),
            None => forall|j: int| from <= j < s.len() ==> !is_ws_byte(#[trigger] s[j]),
        },
    decreases s.len() - from,
{
    if from < s.len() && !is_ws_byte(s[from]) {
        lemma_find_ws_from(s, from + 1);
    }
}

/// Whether `b` is an ASCII decimal digit.
pub open spec fn is_digit(b: u8) -> bool {
    48 <= b && b <= 57
}

/// The number denoted by a sequence of decimal digit bytes.
pub open spec fn digits_val(s: Seq<u8>) -> int
    decreases s.len(),
{
    if s.len() == 0 {
        0int
    } else {
        digits_val(s.drop_last()) * 10 + (s.last() - 48)
    }
}

/// `s` without one leading plus sign.
pub open spec fn sign_stripped(s: Seq<u8>) -> Seq<u8> {
    if s.len() > 0 && s[0] == 43 {
        s.drop_first()
    } else {
        s
    }
}

/// The number a Content-Length value denotes, if it is one: an optional plus
/// sign, then one or more decimal digits, denoting a value that fits in 64
/// bits.
pub open spec fn spec_parse_u64(s: Seq<u8>) -> Option<u64> {
    let t = sign_stripped(s);
    if t.len() == 0 {
        None
    } else if exists|i: int| 0 <= i < t.len() && !is_digit(#[trigger] t[i]) {
        None
    } else if digits_val(t) > u64::MAX {
        None
    } else {
        Some(digits_val(t) as u64)
    }
}

/// The method a request line's three-byte prefix denotes, with the fixed
/// offset that skips the method token and its separating space.
pub open spec fn spec_method_at(s: Seq<u8>, pos: int) -> Option<(Method, int)> {
    if pos < 0 || pos + 3 > s.len() {
        None
    } else {
        let b0 = s[pos];
        let b1 = s[pos + 1];
        let b2 = s[pos + 2];
        // "GET"
        if b0 == 71 && b1 == 69 && b2 == 84 {
            Some((Method::GET, 4int))
        } else if b0 == 80 && b1 == 85 && b2 == 84 {
            // "PUT"
            Some((Method::PUT, 4int))
        } else if b0 == 80 && b1 == 79 && b2 == 83 {
            // "POS"
            Some((Method::POST, 5int))
        } else if b0 == 68 && b1 == 69 && b2 == 76 {
            // "DEL"
            Some((Method::DELETE, 7int))
        } else if b0 == 79 && b1 == 80 && b2 == 84 {
            // "OPT"
            Some((Method::OPTIONS, 7int))
        } else {
            None
        }
    }
}

/// A position advanced by `n` bytes, stopped at the end of the data.
pub open spec fn advanced(pos: int, n: int, len: int) -> int {
    if pos + n <= len {
        pos + n
    } else {
        len
    }
}

/// "HTTP/1.0"
pub open spec fn lit_http10() -> Seq<u8> {
    seq![72u8, 84u8, 84u8, 80u8, 47u8, 49u8, 46u8, 48u8]
}

/// "HTTP/1.1"
pub open spec fn lit_http11() -> Seq<u8> {
    seq![72u8, 84u8, 84u8, 80u8, 47u8, 49u8, 46u8, 49u8]
}

/// The version token read at `pos`: the bytes up to the next whitespace must
/// spell one of the two recognized versions; the following whitespace is
/// consumed.
pub open spec fn spec_version_at(s: Seq<u8>, pos: int) -> Result<
    (HttpProtocolVersion, int),
    HttpErrorView,
> {
    match find_ws_from(s, pos) {
        None => Err(HttpErrorView::Client(400, "Http version not specified"@)),
        Some(w) => {
            let tok = s.subrange(pos, w);
            if tok == lit_http10() {
                Ok((HttpProtocolVersion::H1_0, skip_ws_idx(s, w)))
            } else if tok == lit_http11() {
                Ok((HttpProtocolVersion::H1_1, skip_ws_idx(s, w)))
            } else {
                Err(HttpErrorView::Client(400, "Unrecognized HTTP version"@))
            }
        },
    }
}

/// What one header line denotes: its name and its trimmed value, or the
/// client error that rejects it. The name is the part before the first
/// colon (the whole line if there is none) and may hold no whitespace; the
/// value is the rest, trimmed, and may not be empty.
/// The name part of a header line: the bytes before the first colon, or the
/// whole line if there is none.
pub open spec fn spec_header_key(line: Seq<u8>) -> Seq<u8> {
    match find_from(line, 0, 58) {
        Some(c) => line.subrange(0, c),
        None => line,
    }
}

pub open spec fn spec_header_line(line: Seq<u8>) -> Result<(HeaderId, Seq<u8>), HttpErrorView> {
    let key = spec_header_key(line);
    if exists|i: int| 0 <= i < key.len() && is_ws_byte(#[trigger] key[i]) {
        Err(HttpErrorView::Client(400, "Whitespace found in header name"@))
    } else {
        match find_from(line, 0, 58) {
            None => Err(HttpErrorView::Client(400, "Bad header value"@)),
            Some(c) => {
                let v = trim_ws(line.subrange(c + 1, line.len() as int));
                if v.len() == 0 {
                    Err(HttpErrorView::Client(400, "Empty header value"@))
                } else {
                    Ok((classify_header_name(key), v))
                }
            },
        }
    }
}

/// The header block read from `pos` with `acc` names already collected: the
/// collected entries and the position just past the blank line, or the error
/// that stopped the loop with the position of the offending line.
pub open spec fn spec_parse_headers(s: Seq<u8>, pos: int, acc: Seq<(HeaderId, Seq<u8>)>) -> Result<
    (Seq<(HeaderId, Seq<u8>)>, int),
    (HttpErrorView, int),
>
    decreases s.len() - pos,
    when 0 <= pos <= s.len()
    via spec_parse_headers_decreases
{
    if acc.len() > MAX_HEADERS {
        Err((HttpErrorView::Client(400, "Too many headers"@), pos))
    } else {
        match spec_line_at(s, pos, 10, MAX_HEADER_LINE as int) {
            None => Err((HttpErrorView::Client(400, "Header line too long"@), pos)),
            Some((line, p2)) => {
                if line.len() == 0 || all_ws_bytes(line) {
                    Ok((acc, p2))
                } else {
                    match spec_header_line(line) {
                        Err(e) => Err((e, p2)),
                        Ok((k, v)) => spec_parse_headers(s, p2, put_entry(acc, k, v)),
                    }
                }
            },
        }
    }
}

#[via_fn]
proof fn spec_parse_headers_decreases(s: Seq<u8>, pos: int, acc: Seq<(HeaderId, Seq<u8>)>) {
    if 0 <= pos <= s.len() {
        lemma_find_from(s, pos, 10);
    }
}

fn is_ws(b: u8) -> (r: bool)
    ensures
        r == is_ws_byte(b),
{
    b == 32 || b == 9 || b == 10 || b == 12 || b == 13
}

fn all_ws_vec(v: &Vec<u8>) -> (r: bool)
    ensures
        r == all_ws_bytes(v@),
{
    let n = v.len();
    let mut i: usize = 0;
    while i < n
        invariant
            n == v@.len(),
            0 <= i <= n,
            forall|j: int| 0 <= j < i ==> is_ws_byte(#[trigger] v@[j]),
        decreases n - i,
    {
        if !is_ws(v[i]) {
            return false;
        }
        i += 1;
    }
    true
}

/// Whether the first `k` bytes hold any ASCII whitespace.
fn ws_in_prefix(v: &Vec<u8>, k: usize) -> (r: bool)
    requires
        k <= v@.len(),
    ensures
        r == exists|i: int| 0 <= i < k && is_ws_byte(#[trigger] v@[i]),
{
    let mut i: usize = 0;
    while i < k
        invariant
            k <= v@.len(),
            0 <= i <= k,
            forall|j: int| 0 <= j < i ==> !is_ws_byte(#[trigger] v@[j]),
        decreases k - i,
    {
        if is_ws(v[i]) {
            return true;
        }
        i += 1;
    }
    false
}

fn to_lower(v: &Vec<u8>) -> (r: Vec<u8>)
    ensures
        r@ == lower_bytes(v@),
{
    let n = v.len();
    let mut r: Vec<u8> = Vec::new();
    let mut i: usize = 0;
    while i < n
        invariant
            n == v@.len(),
            0 <= i <= n,
            r@.len() == i,
            forall|j: int| 0 <= j < i ==> r@[j] == lower_byte(#[trigger] v@[j]),
        decreases n - i,
    {
        let b = v[i];
        if 65 <= b && b <= 90 {
            r.push(b + 32);
        } else {
            r.push(b);
        }
        i += 1;
    }
    proof {
        assert(r@ =~= lower_bytes(v@));
    }
    r
}

/// A fresh copy of `v[from..to]`.
fn sub_vec(v: &Vec<u8>, from: usize, to: usize) -> (r: Vec<u8>)
    requires
        from <= to <= v@.len(),
    ensures
        r@ == v@.subrange(from as int, to as int),
{
    let mut r: Vec<u8> = Vec::new();
    let mut i: usize = from;
    while i < to
        invariant
            from <= i <= to <= v@.len(),
            r@ =~= v@.subrange(from as int, i as int),
        decreases to - i,
    {
        r.push(v[i]);
        i += 1;
    }
    proof {
        assert(r@ =~= v@.subrange(from as int, to as int));
    }
    r
}

/// The index of the first `b` at or after `from`, if any.
fn find_byte_in_vec(v: &Vec<u8>, from: usize, b: u8) -> (r: Option<usize>)
    requires
        from <= v@.len(),
    ensures
        match r {
            Some(i) => find_from(v@, from as int, b) == Some(i as int) && from <= i < v@.len(),
            None => find_from(v@, from as int, b) is None,
        },
{
    let n = v.len();
    let mut i: usize = from;
    while i < n
        invariant
            n == v@.len(),
            from <= i <= n,
            forall|j: int| from <= j < i ==> v@[j] != b,
        decreases n - i,
    {
        if v[i] == b {
            proof {
                lemma_find_from(v@, from as int, b);
            }
            return Some(i);
        }
        i += 1;
    }
    proof {
        lemma_find_from(v@, from as int, b);
    }
    None
}

fn eq_lit_host(v: &Vec<u8>) -> (r: bool)
    ensures
        r == (v@ == lit_host()),
{
    let r = v.len() == 4 && v[0] == 104 && v[1] == 111 && v[2] == 115 && v[3] == 116;
    proof {
        if r {
            assert(v@ =~= lit_host());
        }
    }
    r
}

fn eq_lit_accept(v: &Vec<u8>) -> (r: bool)
    ensures
        r == (v@ == lit_accept()),
{
    let r = v.len() == 6 && v[0] == 97 && v[1] == 99 && v[2] == 99 && v[3] == 101 && v[4] == 112
        && v[5] == 116;
    proof {
        if r {
            assert(v@ =~= lit_accept());
        }
    }
    r
}

fn eq_lit_content_type(v: &Vec<u8>) -> (r: bool)
    ensures
        r == (v@ == lit_content_type()),
{
    let r = v.len() == 12 && v[0] == 99 && v[1] == 111 && v[2] == 110 && v[3] == 116 && v[4] == 101
        && v[5] == 110 && v[6] == 116 && v[7] == 45 && v[8] == 116 && v[9] == 121 && v[10] == 112
        && v[11] == 101;
    proof {
        if r {
            assert(v@ =~= lit_content_type());
        }
    }
    r
}

fn eq_lit_content_length(v: &Vec<u8>) -> (r: bool)
    ensures
        r == (v@ == lit_content_length()),
{
    let r = v.len() == 14 && v[0] == 99 && v[1] == 111 && v[2] == 110 && v[3] == 116 && v[4] == 101
        && v[5] == 110 && v[6] == 116 && v[7] == 45 && v[8] == 108 && v[9] == 101 && v[10] == 110
        && v[11] == 103 && v[12] == 116 && v[13] == 104;
    proof {
        if r {
            assert(v@ =~= lit_content_length());
        }
    }
    r
}

fn eq_lit_authorization(v: &Vec<u8>) -> (r: bool)
    ensures
        r == (v@ == lit_authorization()),
{
    let r = v.len() == 13 && v[0] == 97 && v[1] == 117 && v[2] == 116 && v[3] == 104 && v[4] == 111
        && v[5] == 114 && v[6] == 105 && v[7] == 122 && v[8] == 97 && v[9] == 116 && v[10] == 105
        && v[11] == 111 && v[12] == 110;
    proof {
        if r {
            assert(v@ =~= lit_authorization());
        }
    }
    r
}

fn eq_lit_user_agent(v: &Vec<u8>) -> (r: bool)
    ensures
        r == (v@ == lit_user_agent()),
{
    let r = v.len() == 10 && v[0] == 117 && v[1] == 115 && v[2] == 101 && v[3] == 114 && v[4] == 45
        && v[5] == 97 && v[6] == 103 && v[7] == 101 && v[8] == 110 && v[9] == 116;
    proof {
        if r {
            assert(v@ =~= lit_user_agent());
        }
    }
    r
}

fn eq_lit_cache_control(v: &Vec<u8>) -> (r: bool)
    ensures
        r == (v@ == lit_cache_control()),
{
    let r = v.len() == 13 && v[0] == 99 && v[1] == 97 && v[2] == 99 && v[3] == 104 && v[4] == 101
        && v[5] == 45 && v[6] == 99 && v[7] == 111 && v[8] == 110 && v[9] == 116 && v[10] == 114
        && v[11] == 111 && v[12] == 108;
    proof {
        if r {
            assert(v@ =~= lit_cache_control());
        }
    }
    r
}

/// Classifies a raw header name, case-insensitively, against the well-known
/// names; any other name is kept verbatim.
fn classify_header(key: Vec<u8>) -> (h: Header)
    ensures
        h@ == classify_header_name(key@),
{
    let lk = to_lower(&key);
    if eq_lit_host(&lk) {
        Header::Host
    } else if eq_lit_accept(&lk) {
        Header::Accept
    } else if eq_lit_content_type(&lk) {
        Header::ContentType
    } else if eq_lit_content_length(&lk) {
        Header::ContentLength
    } else if eq_lit_authorization(&lk) {
        Header::Authorization
    } else if eq_lit_user_agent(&lk) {
        Header::UserAgent
    } else if eq_lit_cache_control(&lk) {
        Header::CacheControl
    } else {
        Header::Other(key)
    }
}

/// Trims leading and trailing ASCII whitespace.
fn trim_ws_vec(v: &Vec<u8>) -> (r: Vec<u8>)
    ensures
        r@ == trim_ws(v@),
{
    let n = v.len();
    let mut lo: usize = 0;
    while lo < n && is_ws(v[lo])
        invariant
            n == v@.len(),
            0 <= lo <= n,
            skip_ws_idx(v@, 0) == skip_ws_idx(v@, lo as int),
        decreases n - lo,
    {
        lo += 1;
    }
    let mut hi: usize = n;
    while hi > 0 && is_ws(v[hi - 1])
        invariant
            n == v@.len(),
            0 <= hi <= n,
            trim_end_idx(v@, n as int) == trim_end_idx(v@, hi as int),
        decreases hi,
    {
        hi -= 1;
    }
    proof {
        assert(skip_ws_idx(v@, lo as int) == lo as int);
        assert(trim_end_idx(v@, hi as int) == hi as int);
    }
    if lo < hi {
        sub_vec(v, lo, hi)
    } else {
        let r: Vec<u8> = Vec::new();
        proof {
            assert(r@ =~= trim_ws(v@));
        }
        r
    }
}

proof fn lemma_digits_val_nonneg(t: Seq<u8>)
    requires
        forall|j: int| 0 <= j < t.len() ==> is_digit(#[trigger] t[j]),
    ensures
        digits_val(t) >= 0,
    decreases t.len(),
{
    if t.len() > 0 {
        assert(forall|j: int|
            0 <= j < t.drop_last().len() ==> is_digit(#[trigger] t.drop_last()[j]));
        lemma_digits_val_nonneg(t.drop_last());
    }
}

proof fn lemma_digits_val_step(t: Seq<u8>, i: int)
    requires
        0 <= i < t.len(),
    ensures
        digits_val(t.subrange(0, i + 1)) == digits_val(t.subrange(0, i)) * 10 + (t[i] - 48),
{
    assert(t.subrange(0, i + 1).drop_last() =~= t.subrange(0, i));
    assert(t.subrange(0, i + 1).last() == t[i]);
}

proof fn lemma_digits_val_mono(t: Seq<u8>, i: int)
    requires
        0 <= i <= t.len(),
        forall|j: int| 0 <= j < t.len() ==> is_digit(#[trigger] t[j]),
    ensures
        digits_val(t.subrange(0, i)) <= digits_val(t),
    decreases t.len() - i,
{
    if i == t.len() {
        assert(t.subrange(0, i) =~= t);
    } else {
        lemma_digits_val_step(t, i);
        assert(forall|j: int|
            0 <= j < t.subrange(0, i).len() ==> is_digit(#[trigger] t.subrange(0, i)[j]));
        lemma_digits_val_nonneg(t.subrange(0, i));
        lemma_digits_val_mono(t, i + 1);
    }
}

/// Reads a Content-Length value: an optional plus sign and decimal digits,
/// rejecting anything else and any value that does not fit in 64 bits.
pub fn parse_content_length(v: &Vec<u8>) -> (r: Option<u64>)
    ensures
        r == spec_parse_u64(v@),
{
    let n = v.len();
    let start: usize = if n > 0 && v[0] == 43 {
        1
    } else {
        0
    };
    let ghost t = sign_stripped(v@);
    proof {
        assert(t =~= v@.subrange(start as int, n as int));
    }
    if start >= n {
        return None;
    }
    let mut acc: u64 = 0;
    let mut i: usize = start;
    while i < n
        invariant
            start <= i <= n,
            n == v@.len(),
            start < n,
            t == sign_stripped(v@),
            t =~= v@.subrange(start as int, n as int),
            forall|j: int| 0 <= j < i - start ==> is_digit(#[trigger] t[j]),
            acc == digits_val(t.subrange(0, i - start)),
        decreases n - i,
    {
        let b = v[i];
        if b < 48 || b > 57 {
            proof {
                assert(t[i - start] == v@[i as int]);
                assert(!is_digit(t[i - start]));
            }
            return None;
        }
        let d = (b - 48) as u64;
        proof {
            assert(t[i - start] == v@[i as int]);
            lemma_digits_val_step(t, i - start);
        }
        if acc > (u64::MAX - d) / 10 {
            proof {
                assert(digits_val(t.subrange(0, i - start + 1)) > u64::MAX);
                if forall|j: int| 0 <= j < t.len() ==> is_digit(#[trigger] t[j]) {
                    lemma_digits_val_mono(t, i - start + 1);
                    assert(digits_val(t) > u64::MAX);
                }
            }
            return None;
        }
        acc = acc * 10 + d;
        i += 1;
    }
    proof {
        assert(t.subrange(0, (i - start) as int) =~= t);
    }
    Some(acc)
}

/// The mathematical content of a parsed request.
pub struct RequestView {
    pub method: Method,
    pub headers: Seq<(HeaderId, Seq<u8>)>,
    pub target: TargetView,
    pub body: Option<Seq<u8>>,
}

/// Body resolution and target resolution, after the header block: a
/// Content-Length must denote a number of at most `MAX_BODY`, and the raw
/// target must resolve against the base authority.
pub open spec fn spec_finish_request(
    base: Seq<char>,
    s: Seq<u8>,
    m: Method,
    raw_target: Seq<u8>,
    entries: Seq<(HeaderId, Seq<u8>)>,
    pos: int,
) -> Result<(RequestView, int), (HttpErrorView, int)> {
    let body = match entry_value(entries, HeaderId::ContentLength) {
        None => Ok(None),
        Some(clb) => match spec_parse_u64(clb) {
            None => Err(HttpErrorView::Client(400, "Bad Content-Length"@)),
            Some(n) => if n > MAX_BODY {
                Err(HttpErrorView::Client(400, "Oversized Entity Body"@))
            } else {
                Ok(Some(s.subrange(pos, advanced(pos, n as int, s.len() as int))))
            },
        },
    };
    match body {
        Err(e) => Err((e, pos)),
        Ok(body) => match resolved_target(base, raw_target) {
            None => Err((HttpErrorView::Client(400, "Invalid path"@), pos)),
            Some(t) => Ok(
                (
                    RequestView { method: m, headers: entries, target: t, body },
                    match body {
                        None => pos,
                        Some(b) => pos + b.len(),
                    },
                ),
            ),
        },
    }
}

/// What parsing the connection bytes from `pos` yields: a request and the
/// position just past what it consumed, or a classified error and the
/// position where parsing stopped.
pub open spec fn spec_parse_request(base: Seq<char>, s: Seq<u8>, pos: int) -> Result<
    (RequestView, int),
    (HttpErrorView, int),
> {
    match spec_method_at(s, pos) {
        None => Err((HttpErrorView::Server("Unable to parse method"@), pos)),
        Some((m, off)) => {
            let p1 = advanced(pos, off, s.len() as int);
            match find_from(s, p1, 32) {
                None => Err(
                    (HttpErrorView::Client(400, "Not enough data in first line - no path"@), p1),
                ),
                Some(sp) => {
                    let raw_target = s.subrange(p1, sp);
                    let p2 = sp + 1;
                    match spec_version_at(s, p2) {
                        Err(e) => Err((e, p2)),
                        Ok((_version, p3)) => match spec_parse_headers(
                            s,
                            p3,
                            Seq::<(HeaderId, Seq<u8>)>::empty(),
                        ) {
                            Err(ep) => Err(ep),
                            Ok((entries, p4)) => spec_finish_request(
                                base,
                                s,
                                m,
                                raw_target,
                                entries,
                                p4,
                            ),
                        },
                    }
                },
            }
        },
    }
}

fn eq_lit_http10(v: &Vec<u8>) -> (r: bool)
    ensures
        r == (v@ == lit_http10()),
{
    let r = v.len() == 8 && v[0] == 72 && v[1] == 84 && v[2] == 84 && v[3] == 80 && v[4] == 47
        && v[5] == 49 && v[6] == 46 && v[7] == 48;
    proof {
        if r {
            assert(v@ =~= lit_http10());
        }
    }
    r
}

fn eq_lit_http11(v: &Vec<u8>) -> (r: bool)
    ensures
        r == (v@ == lit_http11()),
{
    let r = v.len() == 8 && v[0] == 72 && v[1] == 84 && v[2] == 84 && v[3] == 80 && v[4] == 47
        && v[5] == 49 && v[6] == 46 && v[7] == 49;
    proof {
        if r {
            assert(v@ =~= lit_http11());
        }
    }
    r
}

/// Splits one header line into its name and trimmed value, or rejects it.
fn parse_header_line_exec(line: Vec<u8>) -> (r: Result<(Header, Vec<u8>), HttpError>)
    ensures
        match r {
            Ok((h, v)) => spec_header_line(line@) == Ok::<(HeaderId, Seq<u8>), HttpErrorView>(
                (h@, v@),
            ),
            Err(e) => spec_header_line(line@) == Err::<(HeaderId, Seq<u8>), HttpErrorView>(e@),
        },
{
    let n = line.len();
    let col = find_byte_in_vec(&line, 0, 58);
    let klen: usize = match col {
        Some(c) => c,
        None => n,
    };
    let ghost key = spec_header_key(line@);
    proof {
        assert(key.len() == klen);
        assert(forall|i: int| 0 <= i < key.len() ==> key[i] == #[trigger] line@[i]);
    }
    if ws_in_prefix(&line, klen) {
        proof {
            let k = choose|i: int| 0 <= i < klen && is_ws_byte(#[trigger] line@[i]);
            assert(is_ws_byte(key[k]));
            assert(exists|i: int| 0 <= i < key.len() && is_ws_byte(#[trigger] key[i]));
            assert(spec_header_line(line@) == Err::<(HeaderId, Seq<u8>), HttpErrorView>(
                HttpErrorView::Client(400, "Whitespace found in header name"@),
            ));
        }
        return Err(HttpError::ClientError(400, "Whitespace found in header name"));
    }
    proof {
        assert(forall|i: int| 0 <= i < key.len() ==> !is_ws_byte(#[trigger] key[i]));
    }
    match col {
        None => Err(HttpError::ClientError(400, "Bad header value")),
        Some(c) => {
            let raw_v = sub_vec(&line, c + 1, n);
            let value = trim_ws_vec(&raw_v);
            if value.len() == 0 {
                Err(HttpError::ClientError(400, "Empty header value"))
            } else {
                let key = sub_vec(&line, 0, c);
                let h = classify_header(key);
                Ok((h, value))
            }
        },
    }
}

/// The index of the first occurrence of `b` in the unconsumed bytes.
fn find_in_stream(stream: &ByteStream, b: u8) -> (r: Option<usize>)
    requires
        stream.wf(),
    ensures
        match r {
            Some(i) => find_from(stream.data(), stream.pos(), b) == Some(i as int) && stream.pos()
                <= i < stream.data().len(),
            None => find_from(stream.data(), stream.pos(), b) is None,
        },
{
    let n = stream.total_len();
    let mut i: usize = stream.position();
    while i < n
        invariant
            stream.wf(),
            n == stream.data().len(),
            stream.pos() <= i <= n,
            forall|j: int| stream.pos() <= j < i ==> stream.data()[j] != b,
        decreases n - i,
    {
        if stream.byte_at(i) == b {
            proof {
                lemma_find_from(stream.data(), stream.pos(), b);
            }
            return Some(i);
        }
        i += 1;
    }
    proof {
        lemma_find_from(stream.data(), stream.pos(), b);
    }
    None
}

/// The index of the first whitespace byte among the unconsumed bytes.
fn find_ws_in_stream(stream: &ByteStream) -> (r: Option<usize>)
    requires
        stream.wf(),
    ensures
        match r {
            Some(i) => find_ws_from(stream.data(), stream.pos()) == Some(i as int) && stream.pos()
                <= i < stream.data().len(),
            None => find_ws_from(stream.data(), stream.pos()) is None,
        },
{
    let n = stream.total_len();
    let mut i: usize = stream.position();
    while i < n
        invariant
            stream.wf(),
            n == stream.data().len(),
            stream.pos() <= i <= n,
            forall|j: int| stream.pos() <= j < i ==> !is_ws_byte(#[trigger] stream.data()[j]),
        decreases n - i,
    {
        if is_ws(stream.byte_at(i)) {
            proof {
                lemma_find_ws_from(stream.data(), stream.pos());
            }
            return Some(i);
        }
        i += 1;
    }
    proof {
        lemma_find_ws_from(stream.data(), stream.pos());
    }
    None
}

/// Consumes whitespace until the next non-whitespace byte or the end.
fn skip_ws_in_stream(stream: &mut ByteStream)
    requires
        old(stream).wf(),
    ensures
        final(stream).wf(),
        final(stream).data() == old(stream).data(),
        final(stream).pos() == skip_ws_idx(old(stream).data(), old(stream).pos()),
{
    let n = stream.total_len();
    loop
        invariant
            stream.wf(),
            stream.data() == old(stream).data(),
            n == stream.data().len(),
            skip_ws_idx(stream.data(), old(stream).pos()) == skip_ws_idx(
                stream.data(),
                stream.pos(),
            ),
        decreases n - stream.pos(),
    {
        let p = stream.position();
        if p >= n {
            return ;
        }
        if !is_ws(stream.byte_at(p)) {
            return ;
        }
        stream.advance(1);
    }
}

/// Reads the method from the three-byte prefix and skips its fixed offset.
fn parse_method_stage(stream: &mut ByteStream) -> (r: Result<Method, HttpError>)
    requires
        old(stream).wf(),
    ensures
        final(stream).wf(),
        final(stream).data() == old(stream).data(),
        match r {
            Ok(m) => spec_method_at(old(stream).data(), old(stream).pos()) matches Some(pr)
                && pr.0 == m && final(stream).pos() == advanced(
                old(stream).pos(),
                pr.1,
                old(stream).data().len() as int,
            ),
            Err(e) => spec_method_at(old(stream).data(), old(stream).pos()) is None && e@
                == HttpErrorView::Server("Unable to parse method"@) && final(stream).pos() == old(stream).pos(),
        },
{
    let p = stream.position();
    let n = stream.total_len();
    if n - p < 3 {
        return Err(HttpError::ServerError("Unable to parse method".to_owned()));
    }
    let b0 = stream.byte_at(p);
    let b1 = stream.byte_at(p + 1);
    let b2 = stream.byte_at(p + 2);
    if b0 == 71 && b1 == 69 && b2 == 84 {
        stream.advance(4);
        Ok(Method::GET)
    } else if b0 == 80 && b1 == 85 && b2 == 84 {
        stream.advance(4);
        Ok(Method::PUT)
    } else if b0 == 80 && b1 == 79 && b2 == 83 {
        stream.advance(5);
        Ok(Method::POST)
    } else if b0 == 68 && b1 == 69 && b2 == 76 {
        stream.advance(7);
        Ok(Method::DELETE)
    } else if b0 == 79 && b1 == 80 && b2 == 84 {
        stream.advance(7);
        Ok(Method::OPTIONS)
    } else {
        Err(HttpError::ServerError("Unable to parse method".to_owned()))
    }
}

/// Reads the raw target: the bytes up to the next space, consuming the space
/// too.
fn parse_target_stage(stream: &mut ByteStream) -> (r: Result<Vec<u8>, HttpError>)
    requires
        old(stream).wf(),
    ensures
        final(stream).wf(),
        final(stream).data() == old(stream).data(),
        match r {
            Ok(raw) => find_from(old(stream).data(), old(stream).pos(), 32) matches Some(sp)
                && raw@ == old(stream).data().subrange(old(stream).pos(), sp) && final(stream).pos() == sp + 1,
            Err(e) => find_from(old(stream).data(), old(stream).pos(), 32) is None && e@
                == HttpErrorView::Client(400, "Not enough data in first line - no path"@) && final(stream).pos() == old(stream).pos(),
        },
{
    match find_in_stream(stream, 32) {
        None => Err(HttpError::ClientError(400, "Not enough data in first line - no path")),
        Some(sp) => {
            let p = stream.position();
            let raw = stream.take(sp - p);
            stream.advance(1);
            Ok(raw)
        },
    }
}

/// Reads and checks the version token, then skips the whitespace after it.
/// The skip is greedy: a blank line that follows the request line with no
/// header between them is consumed here, so a request with an empty header
/// block reads past its own terminator and is rejected in the header stage.
fn parse_version_stage(stream: &mut ByteStream) -> (r: Result<HttpProtocolVersion, HttpError>)
    requires
        old(stream).wf(),
    ensures
        final(stream).wf(),
        final(stream).data() == old(stream).data(),
        match r {
            Ok(ver) => spec_version_at(old(stream).data(), old(stream).pos()) == Ok::<
                (HttpProtocolVersion, int),
                HttpErrorView,
            >((ver, final(stream).pos())),
            Err(e) => spec_version_at(old(stream).data(), old(stream).pos()) matches Err(ev) && ev
                == e@ && final(stream).pos() == old(stream).pos(),
        },
{
    match find_ws_in_stream(stream) {
        None => Err(HttpError::ClientError(400, "Http version not specified")),
        Some(w) => {
            let p = stream.position();
            let tok = stream.copy_range(p, w);
            let ver = if eq_lit_http10(&tok) {
                Some(HttpProtocolVersion::H1_0)
            } else if eq_lit_http11(&tok) {
                Some(HttpProtocolVersion::H1_1)
            } else {
                None
            };
            match ver {
                None => Err(HttpError::ClientError(400, "Unrecognized HTTP version")),
                Some(ver) => {
                    stream.advance(w - p);
                    skip_ws_in_stream(stream);
                    Ok(ver)
                },
            }
        },
    }
}

/// Reads the header block: lines up to the first blank one, each at most
/// `MAX_HEADER_LINE` bytes, at most `MAX_HEADERS` distinct names.
fn parse_headers_stage(stream: &mut ByteStream) -> (r: Result<Headers, HttpError>)
    requires
        old(stream).wf(),
    ensures
        final(stream).wf(),
        final(stream).data() == old(stream).data(),
        match r {
            Ok(hs) => spec_parse_headers(
                old(stream).data(),
                old(stream).pos(),
                Seq::<(HeaderId, Seq<u8>)>::empty(),
            ) == Ok::<(Seq<(HeaderId, Seq<u8>)>, int), (HttpErrorView, int)>(
                (hs@, final(stream).pos()),
            ) && hs.wf() && hs@.len() <= MAX_HEADERS,
            Err(e) => spec_parse_headers(
                old(stream).data(),
                old(stream).pos(),
                Seq::<(HeaderId, Seq<u8>)>::empty(),
            ) matches Err(ep) && ep.0 == e@ && ep.1 == final(stream).pos(),
        },
{
    let mut headers = Headers::new();
    loop
        invariant
            stream.wf(),
            stream.data() == old(stream).data(),
            headers.wf(),
            spec_parse_headers(
                stream.data(),
                old(stream).pos(),
                Seq::<(HeaderId, Seq<u8>)>::empty(),
            ) == spec_parse_headers(stream.data(), stream.pos(), headers@),
        decreases stream.data().len() - stream.pos(),
    {
        let ghost pre = stream.pos();
        let ghost acc = headers@;
        if headers.len() > MAX_HEADERS {
            return Err(HttpError::ClientError(400, "Too many headers"));
        }
        match read_until_limited(stream, 10, MAX_HEADER_LINE) {
            Err(e) => {
                return Err(e);
            },
            Ok(line) => {
                proof {
                    lemma_find_from(stream.data(), pre, 10);
                }
                if line.len() == 0 || all_ws_vec(&line) {
                    return Ok(headers);
                }
                match parse_header_line_exec(line) {
                    Err(e) => {
                        return Err(e);
                    },
                    Ok((h, v)) => {
                        headers.set(h, v);
                        proof {
                            assert(spec_parse_headers(stream.data(), pre, acc)
                                == spec_parse_headers(stream.data(), stream.pos(), headers@));
                        }
                    },
                }
            },
        }
    }
}

/// However many header lines a request carries, a header block that parses
/// successfully holds at most `MAX_HEADERS` names beyond those already
/// collected: a count above the cap fails with a client error instead.
pub proof fn lemma_header_count_bounded(s: Seq<u8>, pos: int, acc: Seq<(HeaderId, Seq<u8>)>)
    requires
        0 <= pos <= s.len(),
        acc.len() <= MAX_HEADERS,
    ensures
        spec_parse_headers(s, pos, acc) matches Ok(pr) ==> pr.0.len() <= MAX_HEADERS,
    decreases s.len() - pos,
{
    lemma_find_from(s, pos, 10);
    match spec_line_at(s, pos, 10, MAX_HEADER_LINE as int) {
        None => {},
        Some((line, p2)) => {
            if !(line.len() == 0 || all_ws_bytes(line)) {
                match spec_header_line(line) {
                    Err(_) => {},
                    Ok((k, v)) => {
                        if put_entry(acc, k, v).len() <= MAX_HEADERS {
                            lemma_header_count_bounded(s, p2, put_entry(acc, k, v));
                        }
                    },
                }
            }
        },
    }
}

/// Once more than `MAX_HEADERS` distinct names have accumulated before any
/// blank line, the header stage rejects the request at once: a client error
/// with status 400 and reason "Too many headers", at the current position,
/// and no further line is read.
pub proof fn lemma_too_many_headers_rejected(s: Seq<u8>, pos: int, acc: Seq<(HeaderId, Seq<u8>)>)
    requires
        0 <= pos <= s.len(),
        acc.len() > MAX_HEADERS,
    ensures
        spec_parse_headers(s, pos, acc) == Err::<
            (Seq<(HeaderId, Seq<u8>)>, int),
            (HttpErrorView, int),
        >((HttpErrorView::Client(400, "Too many headers"@), pos)),
{
}

/// An oversized entity body is rejected before any body byte is consumed:
/// when the header block ends at `pos` and declares a Content-Length above
/// `MAX_BODY`, the parse fails with status 400 and stops exactly at `pos`.
pub proof fn lemma_oversized_body_rejected(
    base: Seq<char>,
    s: Seq<u8>,
    m: Method,
    raw_target: Seq<u8>,
    entries: Seq<(HeaderId, Seq<u8>)>,
    pos: int,
    clb: Seq<u8>,
    n: u64,
)
    requires
        entry_value(entries, HeaderId::ContentLength) == Some(clb),
        spec_parse_u64(clb) == Some(n),
        n > MAX_BODY,
    ensures
        spec_finish_request(base, s, m, raw_target, entries, pos) == Err::<
            (RequestView, int),
            (HttpErrorView, int),
        >((HttpErrorView::Client(400, "Oversized Entity Body"@), pos)),
{
}

/// A parsed request: its method, its headers, its resolved target, and its
/// entity body if the request declared one.
pub struct Request {
    method: Method,
    headers: Headers,
    target: Target,
    body: Option<Vec<u8>>,
}

impl View for Request {
    type V = RequestView;

    closed spec fn view(&self) -> RequestView {
        RequestView {
            method: self.method,
            headers: self.headers@,
            target: self.target@,
            body: match &self.body {
                Some(b) => Some(b@),
                None => None,
            },
        }
    }
}

impl Request {
    /// The request's method.
    pub fn method(&self) -> (r: Method)
        ensures
            r == self@.method,
    {
        self.method
    }

    /// The resolved path.
    pub fn path(&self) -> (r: &str)
        ensures
            r@ == self@.target.path,
    {
        self.target.path()
    }

    /// The raw query string, if the target carried one.
    pub fn query_string(&self) -> (r: Option<&str>)
        ensures
            match r {
                Some(q) => self@.target.query == Some(q@),
                None => self@.target.query is None,
            },
    {
        self.target.query()
    }

    /// The decoded query pairs, in order, duplicates preserved.
    pub fn query_pairs(&self) -> (r: Vec<(String, String)>)
        ensures
            r@.len() == self@.target.pairs.len(),
            forall|i: int|
                0 <= i < r@.len() ==> (#[trigger] r@[i].0@, r@[i].1@) == self@.target.pairs[i],
    {
        self.target.pairs()
    }

    /// The first query value under `key`, if any.
    pub fn query_first_value(&self, key: &str) -> (r: Option<String>)
        ensures
            match r {
                Some(v) => first_pair_value(self@.target.pairs, key@) == Some(v@),
                None => first_pair_value(self@.target.pairs, key@) is None,
            },
    {
        self.target.first_value(key)
    }

    /// The request's headers.
    pub fn headers(&self) -> (r: &Headers)
        ensures
            r@ == self@.headers,
    {
        &self.headers
    }

    /// Takes the entity body, if one was declared and not yet taken. The
    /// in-memory body cannot fail to read.
    pub fn body(&mut self) -> (r: Result<Option<Vec<u8>>, std::io::Error>)
        ensures
            match r {
                Ok(b) => match b {
                    Some(v) => old(self)@.body == Some(v@),
                    None => old(self)@.body is None,
                },
                Err(_) => false,
            },
            final(self)@.body is None,
            final(self)@.method == old(self)@.method,
            final(self)@.headers == old(self)@.headers,
            final(self)@.target == old(self)@.target,
    {
        Ok(self.body.take())
    }

    /// Whether the delivered body covers what the headers declare: with no
    /// (or no readable) Content-Length nothing is owed, and otherwise the
    /// body must hold the declared count of bytes, bounded by `MAX_BODY`.
    /// This is the framing decision an embedding read loop consults after a
    /// parse: while it is false, more connection bytes are owed and the
    /// request should be reparsed once they arrive.
    pub fn body_complete(&self) -> (r: bool)
        ensures
            r == match entry_value(self@.headers, HeaderId::ContentLength) {
                None => true,
                Some(clb) => match spec_parse_u64(clb) {
                    None => true,
                    Some(n) => {
                        let owed = if n > MAX_BODY {
                            MAX_BODY as int
                        } else {
                            n as int
                        };
                        let have = match self@.body {
                            Some(b) => b.len() as int,
                            None => 0int,
                        };
                        have >= owed
                    },
                },
            },
    {
        match self.headers.get(Header::ContentLength) {
            None => true,
            Some(clb) => match parse_content_length(clb) {
                None => true,
                Some(n) => {
                    let owed = if n > MAX_BODY {
                        MAX_BODY
                    } else {
                        n
                    };
                    let have: u64 = match &self.body {
                        Some(b) => b.len() as u64,
                        None => 0,
                    };
                    have >= owed
                },
            },
        }
    }

    /// Takes the entity body, handing it to exactly one consumer.
    pub fn take_body(&mut self) -> (r: Option<Vec<u8>>)
        ensures
            match r {
                Some(v) => old(self)@.body == Some(v@),
                None => old(self)@.body is None,
            },
            final(self)@.body is None,
            final(self)@.method == old(self)@.method,
            final(self)@.headers == old(self)@.headers,
            final(self)@.target == old(self)@.target,
    {
        self.body.take()
    }
}

/// Parses one request from the connection bytes: the request line, the
/// header block, body resolution bounded by `MAX_BODY`, and target
/// resolution against `base_url`. On success at most `MAX_HEADERS` header
/// names were accepted; a failure is the classified error of the stage that
/// rejected the input, and the stream stands where parsing stopped.
pub fn parse_request(base_url: &str, stream: &mut ByteStream) -> (r: Result<Request, HttpError>)
    requires
        old(stream).wf(),
    ensures
        final(stream).wf(),
        final(stream).data() == old(stream).data(),
        match r {
            Ok(req) => spec_parse_request(base_url@, old(stream).data(), old(stream).pos())
                == Ok::<(RequestView, int), (HttpErrorView, int)>((req@, final(stream).pos()))
                && req@.headers.len() <= MAX_HEADERS,
            Err(e) => spec_parse_request(base_url@, old(stream).data(), old(stream).pos())
                matches Err(ep) && ep.0 == e@ && ep.1 == final(stream).pos(),
        },
{
    let m = match parse_method_stage(stream) {
        Err(e) => {
            return Err(e);
        },
        Ok(m) => m,
    };
    let raw_target = match parse_target_stage(stream) {
        Err(e) => {
            return Err(e);
        },
        Ok(raw) => raw,
    };
    match parse_version_stage(stream) {
        Err(e) => {
            return Err(e);
        },
        Ok(_ver) => {},
    };
    let headers = match parse_headers_stage(stream) {
        Err(e) => {
            return Err(e);
        },
        Ok(hs) => hs,
    };
    let ghost p4 = stream.pos();
    let content_len: Option<u64> = match headers.get(Header::ContentLength) {
        None => None,
        Some(clb) => match parse_content_length(clb) {
            None => {
                return Err(HttpError::ClientError(400, "Bad Content-Length"));
            },
            Some(n) => {
                if n > MAX_BODY {
                    return Err(HttpError::ClientError(400, "Oversized Entity Body"));
                }
                Some(n)
            },
        },
    };
    let target = match Target::resolve(base_url, raw_target.as_slice()) {
        None => {
            return Err(HttpError::ClientError(400, "Invalid path"));
        },
        Some(t) => t,
    };
    let body: Option<Vec<u8>> = match content_len {
        None => None,
        Some(n) => Some(stream.take(n as usize)),
    };
    Ok(Request { method: m, headers, target, body })
}

} // verus!
