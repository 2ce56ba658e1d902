//! Conversions between `str`/`String` and character vectors, lossy UTF-8
//! decoding, decimal rendering of integers and the wall clock.
use vstd::prelude::*;

verus! {

/// What `String::from_utf8_lossy` yields for `bytes`.
pub uninterp spec fn utf8_lossy(bytes: Seq<u8>) -> Seq<char>;

/// The characters of `s`, in order.
pub(crate) fn chars_of(s: &str) -> (r: Vec<char>)
    ensures
        r@ == s@,
{
    let mut out: Vec<char> = Vec::new();
    for c in iter: s.chars()
        invariant
            out@ == iter.seq().take(iter.index() as int),
    {
        out.push(c);
        assert(out@ =~= iter.seq().take(iter.index() + 1));
    }
    assert(out@ =~= s@);
    out
}

/// A `String` built from characters (`FromIterator<char>`).
///
/// Trusted: claims that collecting characters into a `String` keeps them in
/// order, as its documentation states.
#[verifier::external_body]
pub(crate) fn string_from_chars(v: &[char]) -> (r: String)
    ensures
        r@ == v@,
{
    v.iter().collect()
}

/// `String::from_utf8_lossy`, owned.
///
/// Trusted: the decoded characters are named by `utf8_lossy`; the one fact
/// stated of them is the documented one, that valid UTF-8 decodes unchanged.
/// How invalid sequences are replaced is left unsaid.
#[verifier::external_body]
pub(crate) fn lossy_chars(bytes: &[u8]) -> (r: Vec<char>)
    ensures
        r@ == utf8_lossy(bytes@),
        vstd::utf8::valid_utf8(bytes@) ==> r@ == vstd::utf8::decode_utf8(bytes@),
{
    String::from_utf8_lossy(bytes).chars().collect()
}

/// Milliseconds since the Unix epoch, `0` when the clock reads before it.
///
/// Trusted: calls std's `SystemTime::now`, `duration_since(UNIX_EPOCH)` and
/// `Duration::as_millis`; nothing is claimed of the value, which depends on
/// the clock.
#[verifier::external_body]
pub(crate) fn clock_unix_ms() -> (r: u128) {
    std::time::SystemTime::now().duration_since(std::time::UNIX_EPOCH).unwrap_or_default().as_millis()
}

/// The clock in milliseconds, cut to its low 64 bits as the server
/// bookkeeping stores it.
pub(crate) fn now_unix_ms() -> (r: u64) {
    let ms = clock_unix_ms();
    ms as u64
}

/// Appends the characters of `s`.
pub fn push_str(v: &mut Vec<char>, s: &str)
    ensures
        final(v)@ == old(v)@ + s@,
{
    let mut extra = chars_of(s);
    v.append(&mut extra);
}

/// Appends the characters of `s`.
pub fn push_chars(v: &mut Vec<char>, s: &[char])
    ensures
        final(v)@ == old(v)@ + s@,
{
    let mut i: usize = 0;
    let ghost start = v@;
    while i < s.len()
        invariant
            i <= s@.len(),
            v@ == start + s@.subrange(0, i as int),
        decreases s@.len() - i,
    {
        v.push(s[i]);
        i = i + 1;
        assert(s@.subrange(0, i as int) == s@.subrange(0, i - 1).push(s@[i - 1]));
    }
    assert(s@.subrange(0, s@.len() as int) == s@);
}

pub open spec fn digit_char(d: nat) -> char {
    ((d + 48) as u32) as char
}

/// Decimal rendering of `n`, as `to_string` gives it for unsigned integers.
pub open spec fn decimal(n: nat) -> Seq<char>
    decreases n,
{
    if n < 10 {
        seq![digit_char(n)]
    } else {
        decimal(n / 10).push(digit_char(n % 10))
    }
}

pub fn decimal_chars(n: u64) -> (r: Vec<char>)
    ensures
        r@ == decimal(n as nat),
    decreases n,
{
    let d: u32 = (n % 10) as u32;
    let c = crate::text::char_from_ascii(d + 48);
    if n < 10 {
        let mut r: Vec<char> = Vec::new();
        r.push(c);
        assert(r@ == seq![c]);
        r
    } else {
        let mut r = decimal_chars(n / 10);
        r.push(c);
        r
    }
}

/// Whether `s` holds `c`.
pub fn contains_char(s: &str, c: char) -> (r: bool)
    ensures
        r == s@.contains(c),
{
    let v = chars_of(s);
    let mut i: usize = 0;
    while i < v.len()
        invariant
            v@ == s@,
            i <= v@.len(),
            forall|k: int| 0 <= k < i ==> v@[k] != c,
        decreases v@.len() - i,
    {
        if v[i] == c {
            assert(s@[i as int] == c);
            return true;
        }
        i = i + 1;
    }
    false
}


/// What `format!("{:?}", s)` writes for a string: the text quoted, with
/// the escapes of `str::escape_debug`.
pub uninterp spec fn debug_quoted(s: Seq<char>) -> Seq<char>;

/// `format!("{:?}", s)` for a string.
///
/// Trusted: the result is named by `debug_quoted`, a function of the text
/// alone; the escaping rules of `Debug for str` are not restated.
#[verifier::external_body]
pub(crate) fn debug_str(s: &str) -> (r: String)
    ensures
        r@ == debug_quoted(s@),
{
    format!("{:?}", s)
}

/// A signed integer in decimal.
pub open spec fn signed_decimal(v: int) -> Seq<char> {
    if v < 0 {
        seq!['-'] + decimal((-v) as nat)
    } else {
        decimal(v as nat)
    }
}

/// Renders a signed integer in decimal.
pub fn signed_decimal_chars(v: i64) -> (r: Vec<char>)
    ensures
        r@ == signed_decimal(v as int),
{
    if v < 0 {
        let magnitude: u64 = (0i128 - (v as i128)) as u64;
        let digits = decimal_chars(magnitude);
        let mut out: Vec<char> = vec!['-'];
        push_chars(&mut out, digits.as_slice());
        assert(out@ =~= seq!['-'] + decimal((-(v as int)) as nat));
        out
    } else {
        decimal_chars(v as u64)
    }
}

} // verus!
