//! Text building blocks shared by the decoders: character-level views of
//! strings, UTF-8 conversion, and decimal / hexadecimal rendering of integers.
use vstd::prelude::*;
use vstd::string::*;
use vstd::utf8::*;

verus! {

broadcast use vstd::string::group_string_axioms;

// ---------------------------------------------------------------------------
// Trusted conversions between `String`, `&str`, bytes and characters.
// ---------------------------------------------------------------------------

/// `String::push`: appends one character at the end of the string.
#[verifier::external_body]
pub fn push_char(s: &mut String, c: char)
    ensures
        final(s)@ == old(s)@.push(c),
{
    s.push(c);
}

/// Collects a slice of characters into a `String` (`FromIterator<char>`):
/// the string holds exactly those characters, in order.
#[verifier::external_body]
pub fn chars_to_string(v: &[char]) -> (s: String)
    ensures
        s@ == v@,
{
    v.iter().collect()
}

/// `str::chars` collected into a vector: the characters of the string, in order.
#[verifier::external_body]
pub fn string_chars(s: &str) -> (v: Vec<char>)
    ensures
        v@ == s@,
{
    s.chars().collect()
}

/// `String::from_utf8(..).ok()`: a string exactly when the bytes are valid
/// UTF-8, holding the decoded characters.
#[verifier::external_body]
pub fn utf8_decode(b: &[u8]) -> (r: Option<String>)
    ensures
        r is Some <==> valid_utf8(b@),
        r matches Some(s) ==> s@ == decode_utf8(b@),
{
    String::from_utf8(b.to_vec()).ok()
}

/// What `String::from_utf8_lossy` yields for a byte sequence.
pub uninterp spec fn spec_utf8_lossy(b: Seq<u8>) -> Seq<char>;

/// `String::from_utf8_lossy(..).into_owned()`: the result is named
/// `spec_utf8_lossy` of the bytes; on valid UTF-8 input it is the plain
/// decoding. How invalid sequences are replaced is left unsaid here.
#[verifier::external_body]
pub fn utf8_lossy(b: &[u8]) -> (s: String)
    ensures
        s@ == spec_utf8_lossy(b@),
        valid_utf8(b@) ==> s@ == decode_utf8(b@),
{
    String::from_utf8_lossy(b).into_owned()
}

/// What std's `str::to_lowercase` yields for a character sequence (full
/// Unicode lower-casing).
pub uninterp spec fn spec_to_lowercase(s: Seq<char>) -> Seq<char>;

/// `str::to_lowercase`: the result is named `spec_to_lowercase` of the
/// characters; which characters map to which is left to std's tables.
#[verifier::external_body]
pub fn to_lowercase(s: &str) -> (r: String)
    ensures
        r@ == spec_to_lowercase(s@),
{
    s.to_lowercase()
}

/// A character sequence is empty exactly when its UTF-8 encoding is.
pub proof fn lemma_encode_utf8_empty_iff(s: Seq<char>)
    ensures
        (s.len() == 0) == (encode_utf8(s).len() == 0),
{
    if s.len() > 0 {
        assert(encode_utf8(s) == encode_scalar(s[0] as u32) + encode_utf8(s.drop_first()));
        assert(encode_scalar(s[0] as u32).len() >= 1);
    }
}

/// Characters of a `&str` viewed as a `String` (`str::to_string`).
pub fn str_to_string(a: &str) -> (r: String)
    ensures
        r@ == a@,
{
    a.to_string()
}

/// Equality of two string slices by their characters.
pub fn str_eq(a: &str, b: &str) -> (r: bool)
    ensures
        r == (a@ == b@),
{
    let x = a.to_string();
    let y = b.to_string();
    x == y
}

/// Appends the characters of `v[from..to]` to `s`.
pub fn push_chars(s: &mut String, v: &[char], from: usize, to: usize)
    requires
        from <= to <= v@.len(),
    ensures
        final(s)@ == old(s)@ + v@.subrange(from as int, to as int),
{
    let mut i = from;
    while i < to
        invariant
            from <= i <= to <= v@.len(),
            s@ == old(s)@ + v@.subrange(from as int, i as int),
        decreases to - i,
    {
        push_char(s, v[i]);
        i = i + 1;
        assert(v@.subrange(from as int, i as int) =~= v@.subrange(from as int, i - 1).push(
            v@[i - 1],
        ));
    }
}

/// The parts joined with `sep` between consecutive parts.
pub open spec fn join_sep(parts: Seq<Seq<char>>, sep: Seq<char>) -> Seq<char>
    decreases parts.len(),
{
    if parts.len() == 0 {
        seq![]
    } else if parts.len() == 1 {
        parts[0]
    } else {
        join_sep(parts.drop_last(), sep) + sep + parts.last()
    }
}

/// Appends `item` as the next part of a `sep`-joined list that already holds
/// `n` parts (`names`) after `prefix`.
pub fn push_sep_item(
    s: &mut String,
    n: usize,
    sep: &str,
    item: &str,
    Ghost(prefix): Ghost<Seq<char>>,
    Ghost(names): Ghost<Seq<Seq<char>>>,
)
    requires
        old(s)@ == prefix + join_sep(names, sep@),
        n == names.len(),
    ensures
        final(s)@ == prefix + join_sep(names.push(item@), sep@),
{
    if n > 0 {
        s.append(sep);
    }
    s.append(item);
    assert(names.push(item@).drop_last() =~= names);
    assert(final(s)@ =~= prefix + join_sep(names.push(item@), sep@));
}

/// Appends the string `item` as the next part, like `push_sep_item`.
pub fn push_sep_string(
    s: &mut String,
    n: usize,
    sep: &str,
    item: &String,
    Ghost(prefix): Ghost<Seq<char>>,
    Ghost(names): Ghost<Seq<Seq<char>>>,
)
    requires
        old(s)@ == prefix + join_sep(names, sep@),
        n == names.len(),
    ensures
        final(s)@ == prefix + join_sep(names.push(item@), sep@),
{
    push_sep_item(s, n, sep, item.as_str(), Ghost(prefix), Ghost(names));
}

// ---------------------------------------------------------------------------
// Digits.
// ---------------------------------------------------------------------------

/// The lower-case hexadecimal digit for `d` (decimal digits for `d < 10`).
pub open spec fn digit(d: int) -> char {
    if d == 0 {
        '0'
    } else if d == 1 {
        '1'
    } else if d == 2 {
        '2'
    } else if d == 3 {
        '3'
    } else if d == 4 {
        '4'
    } else if d == 5 {
        '5'
    } else if d == 6 {
        '6'
    } else if d == 7 {
        '7'
    } else if d == 8 {
        '8'
    } else if d == 9 {
        '9'
    } else if d == 10 {
        'a'
    } else if d == 11 {
        'b'
    } else if d == 12 {
        'c'
    } else if d == 13 {
        'd'
    } else if d == 14 {
        'e'
    } else {
        'f'
    }
}

pub fn exec_digit(d: u64) -> (c: char)
    requires
        d < 16,
    ensures
        c == digit(d as int),
{
    if d == 0 {
        '0'
    } else if d == 1 {
        '1'
    } else if d == 2 {
        '2'
    } else if d == 3 {
        '3'
    } else if d == 4 {
        '4'
    } else if d == 5 {
        '5'
    } else if d == 6 {
        '6'
    } else if d == 7 {
        '7'
    } else if d == 8 {
        '8'
    } else if d == 9 {
        '9'
    } else if d == 10 {
        'a'
    } else if d == 11 {
        'b'
    } else if d == 12 {
        'c'
    } else if d == 13 {
        'd'
    } else if d == 14 {
        'e'
    } else {
        'f'
    }
}

/// Decimal rendering of `n` (as `{}` formats an unsigned integer).
pub open spec fn dec(n: nat) -> Seq<char>
    decreases n,
{
    if n < 10 {
        seq![digit(n as int)]
    } else {
        dec(n / 10).push(digit((n % 10) as int))
    }
}

/// Lower-case hexadecimal rendering of `n` without padding (as `{:x}`).
pub open spec fn hex(n: nat) -> Seq<char>
    decreases n,
{
    if n < 16 {
        seq![digit(n as int)]
    } else {
        hex(n / 16).push(digit((n % 16) as int))
    }
}

/// Two hexadecimal digits of a byte (as `{:02x}`).
pub open spec fn hex2(b: u8) -> Seq<char> {
    seq![digit((b / 16) as int), digit((b % 16) as int)]
}

/// Four hexadecimal digits of a 16-bit value (as `{:04x}`).
pub open spec fn hex4(v: u16) -> Seq<char> {
    seq![digit((v / 4096) as int), digit(((v / 256) % 16) as int), digit(((v / 16) % 16) as int), digit((v % 16) as int)]
}

/// Decimal rendering padded with zeros to at least two digits (as `{:02}`).
pub open spec fn dec2(n: nat) -> Seq<char> {
    if n < 10 {
        seq!['0', digit(n as int)]
    } else {
        dec(n)
    }
}

/// Appends `dec(n)` to `s`.
pub fn push_dec(s: &mut String, n: u64)
    ensures
        final(s)@ == old(s)@ + dec(n as nat),
    decreases n,
{
    if n >= 10 {
        push_dec(s, n / 10);
    }
    push_char(s, exec_digit(n % 10));
    assert(final(s)@ == old(s)@ + dec(n as nat));
}

/// Appends `hex(n)` to `s`.
pub fn push_hex(s: &mut String, n: u64)
    ensures
        final(s)@ == old(s)@ + hex(n as nat),
    decreases n,
{
    if n >= 16 {
        push_hex(s, n / 16);
    }
    push_char(s, exec_digit(n % 16));
    assert(final(s)@ == old(s)@ + hex(n as nat));
}

/// Appends `hex2(b)` to `s`.
pub fn push_hex2(s: &mut String, b: u8)
    ensures
        final(s)@ == old(s)@ + hex2(b),
{
    push_char(s, exec_digit((b / 16) as u64));
    push_char(s, exec_digit((b % 16) as u64));
    assert(final(s)@ =~= old(s)@ + hex2(b));
}

/// Appends `hex4(v)` to `s`.
pub fn push_hex4(s: &mut String, v: u16)
    ensures
        final(s)@ == old(s)@ + hex4(v),
{
    push_char(s, exec_digit((v / 4096) as u64));
    push_char(s, exec_digit(((v / 256) % 16) as u64));
    push_char(s, exec_digit(((v / 16) % 16) as u64));
    push_char(s, exec_digit((v % 16) as u64));
    assert(final(s)@ =~= old(s)@ + hex4(v));
}

/// Appends `dec2(n)` to `s`.
pub fn push_dec2(s: &mut String, n: u64)
    ensures
        final(s)@ == old(s)@ + dec2(n as nat),
{
    if n < 10 {
        push_char(s, '0');
        push_char(s, exec_digit(n));
        assert(final(s)@ =~= old(s)@ + dec2(n as nat));
    } else {
        push_dec(s, n);
    }
}

/// Decimal rendering of `n` as a new `String`.
pub fn dec_string(n: u64) -> (s: String)
    ensures
        s@ == dec(n as nat),
{
    let mut s = String::new();
    push_dec(&mut s, n);
    assert(s@ =~= dec(n as nat));
    s
}

/// Lower-case hexadecimal rendering of every byte, two digits each.
pub open spec fn hex_bytes(b: Seq<u8>) -> Seq<char>
    decreases b.len(),
{
    if b.len() == 0 {
        seq![]
    } else {
        hex_bytes(b.drop_last()) + hex2(b.last())
    }
}

pub proof fn lemma_hex_bytes_len(b: Seq<u8>)
    ensures
        hex_bytes(b).len() == 2 * b.len(),
    decreases b.len(),
{
    if b.len() > 0 {
        lemma_hex_bytes_len(b.drop_last());
    }
}

/// Lower-case hexadecimal string of a byte sequence (`{:02x}` per byte).
pub fn hex_string(b: &[u8]) -> (s: String)
    ensures
        s@ == hex_bytes(b@),
        s@.len() == 2 * b@.len(),
{
    let mut s = String::new();
    let mut i: usize = 0;
    while i < b.len()
        invariant
            i <= b@.len(),
            s@ == hex_bytes(b@.take(i as int)),
        decreases b.len() - i,
    {
        push_hex2(&mut s, b[i]);
        i = i + 1;
        assert(b@.take(i as int).drop_last() =~= b@.take(i - 1));
    }
    assert(b@.take(i as int) =~= b@);
    proof {
        lemma_hex_bytes_len(b@);
    }
    s
}

/// ASCII lower-casing of one character (other characters unchanged).
pub open spec fn ascii_lower(c: char) -> char {
    if 'A' <= c && c <= 'Z' {
        ((c as u8) + 32) as char
    } else {
        c
    }
}

pub fn exec_ascii_lower(c: char) -> (r: char)
    ensures
        r == ascii_lower(c),
{
    if 'A' <= c && c <= 'Z' {
        let u: u8 = (c as u8) + 32;
        u as char
    } else {
        c
    }
}

/// ASCII lower-casing of a character sequence.
pub open spec fn lower_seq(s: Seq<char>) -> Seq<char> {
    s.map_values(|c: char| ascii_lower(c))
}

} // verus!
