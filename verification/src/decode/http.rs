//! HTTP/1.x request and response heads.
use vstd::prelude::*;
use vstd::utf8::{decode_utf8, valid_utf8};
use crate::text::{ascii_lower, chars_to_string, exec_ascii_lower, lower_seq, string_chars, utf8_decode};
use super::tls::opt_view;
use super::HttpInfo;

verus! {

broadcast use vstd::string::group_string_axioms;

/// Mathematical model of an [`HttpInfo`].
pub struct HttpInfoV {
    pub is_request: bool,
    pub method: Option<Seq<char>>,
    pub uri: Option<Seq<char>>,
    pub version: Option<Seq<char>>,
    pub status_code: Option<u16>,
    pub headers: Seq<(Seq<char>, Seq<char>)>,
    pub host: Option<Seq<char>>,
    pub content_length: Option<u64>,
    pub chunked: bool,
    pub header_range: (usize, usize),
}

pub open spec fn pairs_view(v: Seq<(String, String)>) -> Seq<(Seq<char>, Seq<char>)> {
    v.map_values(|p: (String, String)| (p.0@, p.1@))
}

impl View for HttpInfo {
    type V = HttpInfoV;

    open spec fn view(&self) -> HttpInfoV {
        HttpInfoV {
            is_request: self.is_request,
            method: opt_view(self.method),
            uri: opt_view(self.uri),
            version: opt_view(self.version),
            status_code: self.status_code,
            headers: pairs_view(self.headers@),
            host: opt_view(self.host),
            content_length: self.content_length,
            chunked: self.chunked,
            header_range: self.header_range,
        }
    }
}

// ---------------------------------------------------------------------------
// Characters and words
// ---------------------------------------------------------------------------

/// Unicode `White_Space`, the set that `str::trim` removes.
pub open spec fn is_ws(c: char) -> bool {
    ||| ('\u{9}' <= c && c <= '\u{d}')
    ||| c == ' '
    ||| c == '\u{85}'
    ||| c == '\u{a0}'
    ||| c == '\u{1680}'
    ||| ('\u{2000}' <= c && c <= '\u{200a}')
    ||| c == '\u{2028}'
    ||| c == '\u{2029}'
    ||| c == '\u{202f}'
    ||| c == '\u{205f}'
    ||| c == '\u{3000}'
}

/// Index of the first character at or after `i` that is not white space.
pub open spec fn lead(s: Seq<char>, i: int) -> int
    decreases s.len() - i,
{
    if 0 <= i < s.len() && is_ws(s[i]) {
        lead(s, i + 1)
    } else {
        i
    }
}

/// End of `s[lo..j]` once trailing white space is dropped.
pub open spec fn back(s: Seq<char>, lo: int, j: int) -> int
    decreases j - lo,
{
    if lo < j <= s.len() && is_ws(s[j - 1]) {
        back(s, lo, j - 1)
    } else {
        j
    }
}

/// `str::trim`: the sequence without leading and trailing white space.
pub open spec fn trim(s: Seq<char>) -> Seq<char> {
    let a = lead(s, 0);
    s.subrange(a, back(s, a, s.len() as int))
}

/// First index at or after `i` holding `c`.
pub open spec fn find_char_from(s: Seq<char>, c: char, i: int) -> Option<int>
    decreases s.len() - i,
{
    if i < 0 || i >= s.len() {
        None
    } else if s[i] == c {
        Some(i)
    } else {
        find_char_from(s, c, i + 1)
    }
}

pub open spec fn find_char(s: Seq<char>, c: char) -> Option<int> {
    find_char_from(s, c, 0)
}

pub open spec fn is_digit(c: char) -> bool {
    '0' <= c && c <= '9'
}

pub open spec fn all_digits(s: Seq<char>) -> bool {
    forall|k: int| 0 <= k < s.len() ==> is_digit(#[trigger] s[k])
}

/// Value of a string of decimal digits.
pub open spec fn digits_value(s: Seq<char>) -> nat
    decreases s.len(),
{
    if s.len() == 0 {
        0
    } else {
        digits_value(s.drop_last()) * 10 + ((s.last() as int) - 48) as nat
    }
}

/// Unsigned integer parsing as `str::parse` does it: an optional `+`, then at
/// least one decimal digit, and a value not above `max`.
pub open spec fn parse_uint(s: Seq<char>, max: nat) -> Option<nat> {
    let d = if s.len() > 0 && s[0] == '+' { s.drop_first() } else { s };
    if d.len() > 0 && all_digits(d) && digits_value(d) <= max {
        Some(digits_value(d))
    } else {
        None
    }
}

pub open spec fn parse_u64(s: Seq<char>) -> Option<u64> {
    match parse_uint(s, u64::MAX as nat) {
        Some(n) => Some(n as u64),
        None => None,
    }
}

pub open spec fn parse_u16(s: Seq<char>) -> Option<u16> {
    match parse_uint(s, u16::MAX as nat) {
        Some(n) => Some(n as u16),
        None => None,
    }
}

pub open spec fn http_prefix() -> Seq<char> {
    seq!['H', 'T', 'T', 'P', '/']
}

pub open spec fn starts_http(s: Seq<char>) -> bool {
    s.len() >= 5 && s.take(5) == http_prefix()
}

/// The request methods that mark a request line.
pub open spec fn spec_is_http_method(m: Seq<char>) -> bool {
    ||| m == seq!['G', 'E', 'T']
    ||| m == seq!['P', 'O', 'S', 'T']
    ||| m == seq!['P', 'U', 'T']
    ||| m == seq!['D', 'E', 'L', 'E', 'T', 'E']
    ||| m == seq!['H', 'E', 'A', 'D']
    ||| m == seq!['O', 'P', 'T', 'I', 'O', 'N', 'S']
    ||| m == seq!['P', 'A', 'T', 'C', 'H']
    ||| m == seq!['T', 'R', 'A', 'C', 'E']
    ||| m == seq!['C', 'O', 'N', 'N', 'E', 'C', 'T']
}

// ---------------------------------------------------------------------------
// Executable helpers
// ---------------------------------------------------------------------------

pub fn is_ws_exec(c: char) -> (r: bool)
    ensures
        r == is_ws(c),
{
    ('\u{9}' <= c && c <= '\u{d}') || c == ' ' || c == '\u{85}' || c == '\u{a0}' || c
        == '\u{1680}' || ('\u{2000}' <= c && c <= '\u{200a}') || c == '\u{2028}' || c
        == '\u{2029}' || c == '\u{202f}' || c == '\u{205f}' || c == '\u{3000}'
}

/// Bounds of `s` with leading and trailing white space removed.
pub fn trim_bounds(s: &[char]) -> (r: (usize, usize))
    ensures
        r.0 == lead(s@, 0),
        r.1 == back(s@, r.0 as int, s@.len() as int),
        r.0 <= r.1 <= s@.len(),
        s@.subrange(r.0 as int, r.1 as int) == trim(s@),
{
    let mut a: usize = 0;
    while a < s.len() && is_ws_exec(s[a])
        invariant
            a <= s@.len(),
            lead(s@, 0) == lead(s@, a as int),
        decreases s@.len() - a,
    {
        a = a + 1;
    }
    let mut b: usize = s.len();
    while a < b && is_ws_exec(s[b - 1])
        invariant
            a <= b <= s@.len(),
            back(s@, a as int, s@.len() as int) == back(s@, a as int, b as int),
        decreases b - a,
    {
        b = b - 1;
    }
    (a, b)
}

/// First index of `c` in `s`.
pub fn find_char_exec(s: &[char], c: char) -> (r: Option<usize>)
    ensures
        match r {
            Some(i) => find_char(s@, c) == Some(i as int) && i < s@.len(),
            None => find_char(s@, c) is None,
        },
{
    let mut i: usize = 0;
    while i < s.len()
        invariant
            i <= s@.len(),
            find_char(s@, c) == find_char_from(s@, c, i as int),
        decreases s@.len() - i,
    {
        if s[i] == c {
            return Some(i);
        }
        i = i + 1;
    }
    None
}

proof fn lemma_digits_mono(d: Seq<char>, i: int)
    requires
        0 <= i <= d.len(),
    ensures
        digits_value(d.take(i)) <= digits_value(d),
    decreases d.len(),
{
    if i < d.len() {
        lemma_digits_mono(d.drop_last(), i);
        assert(d.drop_last().take(i) =~= d.take(i));
    } else {
        assert(d.take(i) =~= d);
    }
}

/// `str::parse` of an unsigned integer no larger than `max`.
pub fn parse_uint_exec(s: &[char], max: u64) -> (r: Option<u64>)
    requires
        max >= 9,
    ensures
        match r {
            Some(v) => parse_uint(s@, max as nat) == Some(v as nat),
            None => parse_uint(s@, max as nat) is None,
        },
{
    let start: usize = if s.len() > 0 && s[0] == '+' { 1 } else { 0 };
    let ghost d = if s@.len() > 0 && s@[0] == '+' { s@.drop_first() } else { s@ };
    assert(d =~= s@.skip(start as int));
    if start == s.len() {
        return None;
    }
    let mut i: usize = start;
    while i < s.len()
        invariant
            start <= i <= s@.len(),
            d =~= s@.skip(start as int),
            d == (if s@.len() > 0 && s@[0] == '+' { s@.drop_first() } else { s@ }),
            forall|k: int| start <= k < i ==> is_digit(#[trigger] s@[k]),
        decreases s@.len() - i,
    {
        if !('0' <= s[i] && s[i] <= '9') {
            assert(!is_digit(d[i - start]));
            return None;
        }
        i = i + 1;
    }
    assert(all_digits(d));
    let mut v: u64 = 0;
    let mut j: usize = start;
    while j < s.len()
        invariant
            start <= j <= s@.len(),
            d =~= s@.skip(start as int),
            d == (if s@.len() > 0 && s@[0] == '+' { s@.drop_first() } else { s@ }),
            all_digits(d),
            max >= 9,
            v as nat == digits_value(d.take(j - start)),
            v <= max,
        decreases s@.len() - j,
    {
        let c = s[j];
        assert(c == d[j - start]);
        assert(is_digit(d[j - start]));
        let dg: u64 = ((c as u32) - 48) as u64;
        assert(d.take(j + 1 - start).drop_last() =~= d.take(j - start));
        if v > (max - dg) / 10 {
            assert(v * 10 + dg > max) by (nonlinear_arith)
                requires
                    v > (max - dg) / 10,
                    dg <= 9,
                    max >= 9,
            ;
            proof {
                lemma_digits_mono(d, j + 1 - start);
            }
            return None;
        }
        assert(v * 10 + dg <= max) by (nonlinear_arith)
            requires
                v <= (max - dg) / 10,
                dg <= 9,
                max >= 9,
        ;
        v = v * 10 + dg;
        j = j + 1;
    }
    assert(d.take(j - start) =~= d);
    Some(v)
}

/// Equality of two character slices.
pub fn chars_eq(a: &[char], b: &[char]) -> (r: bool)
    ensures
        r == (a@ == b@),
{
    if a.len() != b.len() {
        return false;
    }
    let mut i: usize = 0;
    while i < a.len()
        invariant
            i <= a@.len() == b@.len(),
            a@.take(i as int) =~= b@.take(i as int),
        decreases a@.len() - i,
    {
        if a[i] != b[i] {
            return false;
        }
        assert(a@.take(i + 1) =~= a@.take(i as int).push(a@[i as int]));
        assert(b@.take(i + 1) =~= b@.take(i as int).push(b@[i as int]));
        i = i + 1;
    }
    assert(a@.take(i as int) =~= a@);
    assert(b@.take(i as int) =~= b@);
    true
}

/// Whether the ASCII lower-casing of `a` equals `b`.
pub fn chars_eq_lower(a: &[char], b: &[char]) -> (r: bool)
    ensures
        r == (lower_seq(a@) == b@),
{
    if a.len() != b.len() {
        return false;
    }
    let mut i: usize = 0;
    while i < a.len()
        invariant
            i <= a@.len() == b@.len(),
            lower_seq(a@).take(i as int) =~= b@.take(i as int),
        decreases a@.len() - i,
    {
        if exec_ascii_lower(a[i]) != b[i] {
            assert(lower_seq(a@)[i as int] != b@[i as int]);
            return false;
        }
        assert(lower_seq(a@).take(i + 1) =~= lower_seq(a@).take(i as int).push(
            lower_seq(a@)[i as int],
        ));
        assert(b@.take(i + 1) =~= b@.take(i as int).push(b@[i as int]));
        i = i + 1;
    }
    assert(lower_seq(a@).take(i as int) =~= lower_seq(a@));
    assert(b@.take(i as int) =~= b@);
    true
}

pub fn starts_http_exec(s: &[char]) -> (r: bool)
    ensures
        r == starts_http(s@),
{
    if s.len() < 5 {
        return false;
    }
    let p = ['H', 'T', 'T', 'P', '/'];
    assert(p@ =~= http_prefix());
    chars_eq(&s[0..5], &p)
}


// ---------------------------------------------------------------------------
// Lines and the head
// ---------------------------------------------------------------------------

pub open spec fn blank_at(s: Seq<u8>, i: int) -> bool {
    s[i] == 13 && s[i + 1] == 10 && s[i + 2] == 13 && s[i + 3] == 10
}

/// First index at or after `i` where `\r\n\r\n` starts.
pub open spec fn find_blank_from(s: Seq<u8>, i: int) -> Option<int>
    decreases s.len() - i,
{
    if i < 0 || i + 4 > s.len() {
        None
    } else if blank_at(s, i) {
        Some(i)
    } else {
        find_blank_from(s, i + 1)
    }
}

/// End of the head: just past the `\r\n` that closes the last header line, or,
/// with no blank line, the whole input capped at 8192 bytes.
pub open spec fn head_end(s: Seq<u8>) -> int {
    match find_blank_from(s, 0) {
        Some(i) => i + 2,
        None => if s.len() < 8192 {
            s.len() as int
        } else {
            8192
        },
    }
}

/// First index at or after `i` where `\r\n` starts.
pub open spec fn find_crlf(s: Seq<char>, i: int) -> Option<int>
    decreases s.len() - i,
{
    if i < 0 || i + 2 > s.len() {
        None
    } else if s[i] == '\r' && s[i + 1] == '\n' {
        Some(i)
    } else {
        find_crlf(s, i + 1)
    }
}

/// End of the line that starts at `i`.
pub open spec fn line_end(s: Seq<char>, i: int) -> int {
    match find_crlf(s, i) {
        Some(e) => e,
        None => s.len() as int,
    }
}

pub proof fn lemma_find_crlf(s: Seq<char>, i: int)
    requires
        0 <= i,
    ensures
        find_crlf(s, i) matches Some(e) ==> i <= e && e + 2 <= s.len(),
    decreases s.len() - i,
{
    if i + 2 <= s.len() && !(s[i] == '\r' && s[i + 1] == '\n') {
        lemma_find_crlf(s, i + 1);
    }
}

pub open spec fn host_word() -> Seq<char> {
    seq!['h', 'o', 's', 't']
}

pub open spec fn content_length_word() -> Seq<char> {
    seq!['c', 'o', 'n', 't', 'e', 'n', 't', '-', 'l', 'e', 'n', 'g', 't', 'h']
}

pub open spec fn transfer_encoding_word() -> Seq<char> {
    seq![
        't', 'r', 'a', 'n', 's', 'f', 'e', 'r', '-', 'e', 'n', 'c', 'o', 'd', 'i', 'n', 'g'
    ]
}

pub open spec fn chunked_word() -> Seq<char> {
    seq!['c', 'h', 'u', 'n', 'k', 'e', 'd']
}

/// One header line folded into the head: lines without `:` are skipped;
/// otherwise the trimmed name and value are recorded, and `Host`,
/// `Content-Length` and `Transfer-Encoding: chunked` (names and the value
/// `chunked` compared without ASCII case) fill their fields.
pub open spec fn apply_header(info: HttpInfoV, line: Seq<char>) -> HttpInfoV {
    match find_char(line, ':') {
        None => info,
        Some(c) => {
            let k = trim(line.take(c));
            let v = trim(line.skip(c + 1));
            let lk = lower_seq(k);
            let i1 = if lk == host_word() {
                HttpInfoV { host: Some(v), ..info }
            } else if lk == content_length_word() {
                HttpInfoV { content_length: parse_u64(v), ..info }
            } else if lk == transfer_encoding_word() && lower_seq(v) == chunked_word() {
                HttpInfoV { chunked: true, ..info }
            } else {
                info
            };
            HttpInfoV { headers: i1.headers.push((k, v)), ..i1 }
        },
    }
}

/// The header lines from position `p` of the head text up to the first empty
/// line, folded into `info`.
pub open spec fn headers_from(t: Seq<char>, p: int, info: HttpInfoV) -> HttpInfoV
    decreases t.len() - p,
{
    if p < 0 || p > t.len() {
        info
    } else {
        let e = line_end(t, p);
        if e == p {
            info
        } else {
            let i2 = apply_header(info, t.subrange(p, e));
            proof {
                lemma_find_crlf(t, p);
            }
            match find_crlf(t, p) {
                Some(c) => headers_from(t, c + 2, i2),
                None => i2,
            }
        }
    }
}

pub open spec fn empty_info(he: usize) -> HttpInfoV {
    HttpInfoV {
        is_request: false,
        method: None,
        uri: None,
        version: None,
        status_code: None,
        headers: Seq::empty(),
        host: None,
        content_length: None,
        chunked: false,
        header_range: (0, he),
    }
}

/// The start line: `HTTP/x.y CODE ...` for a response (a numeric code is
/// needed), or `METHOD URI HTTP/...` for a request with a known method.
pub open spec fn start_line(f: Seq<char>, he: usize) -> Option<HttpInfoV> {
    let base = empty_info(he);
    if f.len() == 0 {
        None
    } else if starts_http(f) {
        let rest = f.skip(5);
        match find_char(rest, ' ') {
            None => None,
            Some(a) => {
                let after = rest.skip(a + 1);
                let ce = match find_char(after, ' ') {
                    Some(b) => b,
                    None => after.len() as int,
                };
                match parse_u16(after.take(ce)) {
                    None => None,
                    Some(code) => Some(
                        HttpInfoV { version: Some(f.take(5 + a)), status_code: Some(code), ..base },
                    ),
                }
            },
        }
    } else {
        match find_char(f, ' ') {
            None => None,
            Some(a) => {
                let m = f.take(a);
                let r1 = f.skip(a + 1);
                if !spec_is_http_method(m) {
                    None
                } else {
                    match find_char(r1, ' ') {
                        None => None,
                        Some(b) => {
                            let ver = r1.skip(b + 1);
                            if !starts_http(ver) {
                                None
                            } else {
                                Some(
                                    HttpInfoV {
                                        is_request: true,
                                        method: Some(m),
                                        uri: Some(r1.take(b)),
                                        version: Some(ver),
                                        ..base
                                    },
                                )
                            }
                        },
                    }
                }
            },
        }
    }
}

/// The request methods of RFC 9110 (section 9) and RFC 5789 (PATCH).
pub open spec fn standard_request_method(m: Seq<char>) -> bool {
    ||| m =~= seq!['G', 'E', 'T']
    ||| m =~= seq!['H', 'E', 'A', 'D']
    ||| m =~= seq!['P', 'O', 'S', 'T']
    ||| m =~= seq!['P', 'U', 'T']
    ||| m =~= seq!['D', 'E', 'L', 'E', 'T', 'E']
    ||| m =~= seq!['C', 'O', 'N', 'N', 'E', 'C', 'T']
    ||| m =~= seq!['O', 'P', 'T', 'I', 'O', 'N', 'S']
    ||| m =~= seq!['T', 'R', 'A', 'C', 'E']
    ||| m =~= seq!['P', 'A', 'T', 'C', 'H']
}

proof fn lemma_find_char_first(s: Seq<char>, c: char, i: int, j: int)
    requires
        0 <= i <= j < s.len(),
        s[j] == c,
        forall|k: int| i <= k < j ==> s[k] != c,
    ensures
        find_char_from(s, c, i) == Some(j),
    decreases j - i,
{
    if i < j {
        lemma_find_char_first(s, c, i + 1, j);
    }
}

proof fn lemma_standard_method_shape(m: Seq<char>)
    requires
        standard_request_method(m),
    ensures
        m.len() >= 3,
        m[1] != 'T',
        forall|k: int| 0 <= k < m.len() ==> m[k] != ' ',
{
}

/// Every standard request method is one that marks a request line.
pub proof fn law_standard_methods_are_requests(m: Seq<char>)
    requires
        standard_request_method(m),
    ensures
        spec_is_http_method(m),
{
}

/// A request line `METHOD URI VERSION` with a standard method, a URI without
/// spaces and an `HTTP/` version reads as a request with exactly that method,
/// URI and version.
pub proof fn law_request_line_reads_method_uri_version(
    m: Seq<char>,
    uri: Seq<char>,
    ver: Seq<char>,
    he: usize,
)
    requires
        standard_request_method(m),
        forall|k: int| 0 <= k < uri.len() ==> uri[k] != ' ',
        starts_http(ver),
    ensures
        start_line(m + seq![' '] + uri + seq![' '] + ver, he) == Some(
            HttpInfoV {
                is_request: true,
                method: Some(m),
                uri: Some(uri),
                version: Some(ver),
                ..empty_info(he)
            },
        ),
{
    lemma_standard_method_shape(m);
    let f = m + seq![' '] + uri + seq![' '] + ver;
    let a = m.len() as int;
    assert(f[1] == m[1]);
    assert(http_prefix()[1] == 'T');
    if starts_http(f) {
        assert(f.take(5)[1] == f[1]);
    }
    assert forall|k: int| 0 <= k < a implies f[k] != ' ' by {
        assert(f[k] == m[k]);
    }
    assert(f[a] == ' ');
    lemma_find_char_first(f, ' ', 0, a);
    assert(f.take(a) =~= m);
    let r1 = f.skip(a + 1);
    assert(r1 =~= uri + seq![' '] + ver);
    let b = uri.len() as int;
    assert forall|k: int| 0 <= k < b implies r1[k] != ' ' by {
        assert(r1[k] == uri[k]);
    }
    assert(r1[b] == ' ');
    lemma_find_char_first(r1, ' ', 0, b);
    assert(r1.take(b) =~= uri);
    assert(r1.skip(b + 1) =~= ver);
    assert(spec_is_http_method(m));
}

/// A status line `VERSION CODE[ REASON]` with an `HTTP/` version free of
/// spaces and a decimal code that fits 16 bits reads as a response with
/// exactly that version and code, whatever the reason phrase.
pub proof fn law_status_line_reads_version_and_code(
    ver: Seq<char>,
    code: Seq<char>,
    reason: Seq<char>,
    he: usize,
)
    requires
        starts_http(ver),
        forall|k: int| 0 <= k < ver.len() ==> ver[k] != ' ',
        code.len() > 0,
        all_digits(code),
        digits_value(code) <= 65535,
    ensures
        start_line(ver + seq![' '] + code + seq![' '] + reason, he) == Some(
            HttpInfoV { version: Some(ver), status_code: Some(digits_value(code) as u16), ..empty_info(he) },
        ),
        start_line(ver + seq![' '] + code, he) == Some(
            HttpInfoV { version: Some(ver), status_code: Some(digits_value(code) as u16), ..empty_info(he) },
        ),
{
    assert(code[0] != '+');
    let f1 = ver + seq![' '] + code + seq![' '] + reason;
    let f2 = ver + seq![' '] + code;
    let v = ver.len() as int;
    let c = code.len() as int;
    assert forall|k: int| 0 <= k < c implies code[k] != ' ' by {
        assert(is_digit(code[k]));
    }
    // Both start with the version.
    assert(f1.take(5) =~= ver.take(5));
    assert(f2.take(5) =~= ver.take(5));
    let r1 = f1.skip(5);
    let r2 = f2.skip(5);
    assert forall|k: int| 0 <= k < v - 5 implies r1[k] != ' ' && r2[k] != ' ' by {
        assert(r1[k] == ver[k + 5]);
        assert(r2[k] == ver[k + 5]);
    }
    assert(r1[v - 5] == ' ');
    assert(r2[v - 5] == ' ');
    lemma_find_char_first(r1, ' ', 0, v - 5);
    lemma_find_char_first(r2, ' ', 0, v - 5);
    assert(f1.take(v) =~= ver);
    assert(f2.take(v) =~= ver);
    let a1 = r1.skip(v - 4);
    let a2 = r2.skip(v - 4);
    assert(a1 =~= code + seq![' '] + reason);
    assert(a2 =~= code);
    assert forall|k: int| 0 <= k < c implies a1[k] != ' ' by {
        assert(a1[k] == code[k]);
    }
    assert(a1[c] == ' ');
    lemma_find_char_first(a1, ' ', 0, c);
    assert(a1.take(c) =~= code);
    assert(a2.take(c) =~= code);
    if find_char(a2, ' ') is Some {
        let j = find_char(a2, ' ')->0;
        lemma_find_char_from_found(a2, ' ', 0);
        assert(a2[j] == code[j]);
    }
}

proof fn lemma_find_char_from_found(s: Seq<char>, c: char, i: int)
    ensures
        find_char_from(s, c, i) matches Some(j) ==> i <= j < s.len() && s[j] == c,
    decreases s.len() - i,
{
    if 0 <= i < s.len() && s[i] != c {
        lemma_find_char_from_found(s, c, i + 1);
    }
}

/// What [`try_decode_http`] gives for a byte stream.
pub open spec fn spec_try_decode_http(stream: Seq<u8>) -> Option<HttpInfoV> {
    let he = head_end(stream);
    let head = stream.take(he);
    if !valid_utf8(head) {
        None
    } else {
        let t = decode_utf8(head);
        match start_line(t.take(line_end(t, 0)), he as usize) {
            None => None,
            Some(info) => Some(
                match find_crlf(t, 0) {
                    Some(c) => headers_from(t, c + 2, info),
                    None => info,
                },
            ),
        }
    }
}


fn find_blank_exec(s: &[u8]) -> (r: Option<usize>)
    ensures
        match r {
            Some(i) => find_blank_from(s@, 0) == Some(i as int) && i + 4 <= s@.len(),
            None => find_blank_from(s@, 0) is None,
        },
{
    let mut i: usize = 0;
    while s.len() >= 4 && i <= s.len() - 4
        invariant
            i <= s@.len(),
            find_blank_from(s@, 0) == find_blank_from(s@, i as int),
        decreases s@.len() - i,
    {
        if s[i] == 13 && s[i + 1] == 10 && s[i + 2] == 13 && s[i + 3] == 10 {
            return Some(i);
        }
        i = i + 1;
    }
    None
}

fn find_crlf_exec(t: &[char], p: usize) -> (r: Option<usize>)
    requires
        p <= t@.len(),
    ensures
        match r {
            Some(e) => find_crlf(t@, p as int) == Some(e as int) && p <= e && e + 2 <= t@.len(),
            None => find_crlf(t@, p as int) is None,
        },
{
    let mut i: usize = p;
    while t.len() >= 2 && i <= t.len() - 2
        invariant
            p <= i <= t@.len(),
            find_crlf(t@, p as int) == find_crlf(t@, i as int),
        decreases t@.len() - i,
    {
        if t[i] == '\r' && t[i + 1] == '\n' {
            return Some(i);
        }
        i = i + 1;
    }
    None
}

/// Whether `m` is one of the request methods.
pub fn is_http_method(m: &[char]) -> (r: bool)
    ensures
        r == spec_is_http_method(m@),
{
    let get = ['G', 'E', 'T'];
    let post = ['P', 'O', 'S', 'T'];
    let put = ['P', 'U', 'T'];
    let delete = ['D', 'E', 'L', 'E', 'T', 'E'];
    let head = ['H', 'E', 'A', 'D'];
    let options = ['O', 'P', 'T', 'I', 'O', 'N', 'S'];
    let patch = ['P', 'A', 'T', 'C', 'H'];
    let trace = ['T', 'R', 'A', 'C', 'E'];
    let connect = ['C', 'O', 'N', 'N', 'E', 'C', 'T'];
    assert(get@ =~= seq!['G', 'E', 'T']);
    assert(post@ =~= seq!['P', 'O', 'S', 'T']);
    assert(put@ =~= seq!['P', 'U', 'T']);
    assert(delete@ =~= seq!['D', 'E', 'L', 'E', 'T', 'E']);
    assert(head@ =~= seq!['H', 'E', 'A', 'D']);
    assert(options@ =~= seq!['O', 'P', 'T', 'I', 'O', 'N', 'S']);
    assert(patch@ =~= seq!['P', 'A', 'T', 'C', 'H']);
    assert(trace@ =~= seq!['T', 'R', 'A', 'C', 'E']);
    assert(connect@ =~= seq!['C', 'O', 'N', 'N', 'E', 'C', 'T']);
    chars_eq(m, &get) || chars_eq(m, &post) || chars_eq(m, &put) || chars_eq(m, &delete)
        || chars_eq(m, &head) || chars_eq(m, &options) || chars_eq(m, &patch) || chars_eq(
        m,
        &trace,
    ) || chars_eq(m, &connect)
}

fn empty_info_exec(he: usize) -> (r: HttpInfo)
    ensures
        r@ == empty_info(he),
{
    let r = HttpInfo {
        is_request: false,
        method: None,
        uri: None,
        version: None,
        status_code: None,
        headers: Vec::new(),
        host: None,
        content_length: None,
        chunked: false,
        header_range: (0, he),
    };
    assert(r@.headers =~= Seq::<(Seq<char>, Seq<char>)>::empty());
    r
}

/// Parses the start line `f` of a head that ends at `he`.
fn parse_start_line(f: &[char], he: usize) -> (r: Option<HttpInfo>)
    ensures
        match r {
            Some(x) => start_line(f@, he) == Some(x@),
            None => start_line(f@, he) is None,
        },
{
    if f.len() == 0 {
        return None;
    }
    if starts_http_exec(f) {
        let rest = &f[5..f.len()];
        assert(rest@ =~= f@.skip(5));
        let a = match find_char_exec(rest, ' ') {
            Some(a) => a,
            None => return None,
        };
        let after = &rest[a + 1..rest.len()];
        assert(after@ =~= rest@.skip(a + 1));
        let ce = match find_char_exec(after, ' ') {
            Some(b) => b,
            None => after.len(),
        };
        let code_chars = &after[0..ce];
        assert(code_chars@ =~= after@.take(ce as int));
        let code = match parse_uint_exec(code_chars, 65535) {
            Some(c) => c,
            None => return None,
        };
        let mut info = empty_info_exec(he);
        let vchars = &f[0..5 + a];
        assert(vchars@ =~= f@.take(5 + a));
        info.version = Some(chars_to_string(vchars));
        info.status_code = Some(code as u16);
        Some(info)
    } else {
        let a = match find_char_exec(f, ' ') {
            Some(a) => a,
            None => return None,
        };
        let m = &f[0..a];
        assert(m@ =~= f@.take(a as int));
        if !is_http_method(m) {
            return None;
        }
        let r1 = &f[a + 1..f.len()];
        assert(r1@ =~= f@.skip(a + 1));
        let b = match find_char_exec(r1, ' ') {
            Some(b) => b,
            None => return None,
        };
        let ver = &r1[b + 1..r1.len()];
        assert(ver@ =~= r1@.skip(b + 1));
        if !starts_http_exec(ver) {
            return None;
        }
        let uri = &r1[0..b];
        assert(uri@ =~= r1@.take(b as int));
        let mut info = empty_info_exec(he);
        info.is_request = true;
        info.method = Some(chars_to_string(m));
        info.uri = Some(chars_to_string(uri));
        info.version = Some(chars_to_string(ver));
        Some(info)
    }
}

/// Folds one header line into `info`.
fn apply_header_exec(info: &mut HttpInfo, line: &[char])
    ensures
        final(info)@ == apply_header(old(info)@, line@),
{
    let c = match find_char_exec(line, ':') {
        Some(c) => c,
        None => return ,
    };
    let n = line.len();
    let kpart = &line[0..c];
    assert(kpart@ =~= line@.take(c as int));
    let vpart = &line[c + 1..n];
    assert(vpart@ =~= line@.skip(c + 1));
    let (ka, kb) = trim_bounds(kpart);
    let (va, vb) = trim_bounds(vpart);
    let k = &kpart[ka..kb];
    let v = &vpart[va..vb];
    assert(k@ =~= trim(line@.take(c as int)));
    assert(v@ =~= trim(line@.skip(c + 1)));
    let host_w = ['h', 'o', 's', 't'];
    let cl_w = ['c', 'o', 'n', 't', 'e', 'n', 't', '-', 'l', 'e', 'n', 'g', 't', 'h'];
    let te_w = [
        't', 'r', 'a', 'n', 's', 'f', 'e', 'r', '-', 'e', 'n', 'c', 'o', 'd', 'i', 'n', 'g',
    ];
    let ch_w = ['c', 'h', 'u', 'n', 'k', 'e', 'd'];
    assert(host_w@ =~= host_word());
    assert(cl_w@ =~= content_length_word());
    assert(te_w@ =~= transfer_encoding_word());
    assert(ch_w@ =~= chunked_word());
    let ghost before = info@;
    if chars_eq_lower(k, &host_w) {
        info.host = Some(chars_to_string(v));
    } else if chars_eq_lower(k, &cl_w) {
        info.content_length = parse_uint_exec(v, u64::MAX);
    } else if chars_eq_lower(k, &te_w) && chars_eq_lower(v, &ch_w) {
        info.chunked = true;
    }
    let ghost mid = info@;
    let pair = (chars_to_string(k), chars_to_string(v));
    info.headers.push(pair);
    assert(pairs_view(info.headers@) =~= mid.headers.push((k@, v@)));
}

/// Decodes an HTTP/1.x request or response head from the start of a byte
/// stream. Only the head is read: it ends after the first blank line or, with
/// none, after at most 8192 bytes, and must be valid UTF-8.
pub fn try_decode_http(stream: &[u8]) -> (r: Option<HttpInfo>)
    ensures
        match r {
            Some(x) => spec_try_decode_http(stream@) == Some(x@),
            None => spec_try_decode_http(stream@) is None,
        },
{
    let sl = stream.len();
    let he: usize = match find_blank_exec(stream) {
        Some(i) => i + 2,
        None => if stream.len() < 8192 {
            stream.len()
        } else {
            8192
        },
    };
    let head = &stream[0..he];
    assert(head@ =~= stream@.take(he as int));
    let text = match utf8_decode(head) {
        Some(t) => t,
        None => return None,
    };
    let tv = string_chars(text.as_str());
    let ts: &[char] = tv.as_slice();
    let ghost t = ts@;
    assert(t == decode_utf8(stream@.take(he as int)));
    let first_crlf = find_crlf_exec(ts, 0);
    let e0 = match first_crlf {
        Some(e) => e,
        None => ts.len(),
    };
    let f = &ts[0..e0];
    assert(f@ =~= t.take(line_end(t, 0)));
    let mut info = match parse_start_line(f, he) {
        Some(i) => i,
        None => return None,
    };
    let mut p: usize = match first_crlf {
        Some(c) => c + 2,
        None => return Some(info),
    };
    let ghost target = headers_from(t, p as int, info@);
    loop
        invariant_except_break
            p <= ts@.len(),
            ts@ == t,
            target == headers_from(t, p as int, info@),
        ensures
            target == info@,
        decreases ts@.len() - p,
    {
        let tl = ts.len();
        let fc = find_crlf_exec(ts, p);
        let e = match fc {
            Some(e) => e,
            None => ts.len(),
        };
        if e == p {
            break ;
        }
        let line = &ts[p..e];
        assert(line@ =~= t.subrange(p as int, e as int));
        apply_header_exec(&mut info, line);
        match fc {
            Some(c) => {
                p = c + 2;
            },
            None => {
                break ;
            },
        }
    }
    Some(info)
}

} // verus!
