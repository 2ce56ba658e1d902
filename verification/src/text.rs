//! Character-level scanning used by the HTTP header readers and the CLI
//! help readers: whitespace, line splitting, trimming and unsigned decimal
//! parsing, each stated as a left-to-right scan over a `Seq<char>`.
use vstd::prelude::*;

verus! {

/// Unicode `White_Space`, the set that `char::is_whitespace` tests.
pub open spec fn is_ws(c: char) -> bool {
    let u = c as u32;
    ||| u == 0x20
    ||| (0x09 <= u && u <= 0x0d)
    ||| u == 0x85
    ||| u == 0xa0
    ||| u == 0x1680
    ||| (0x2000 <= u && u <= 0x200a)
    ||| u == 0x2028
    ||| u == 0x2029
    ||| u == 0x202f
    ||| u == 0x205f
    ||| u == 0x3000
}

pub fn is_whitespace_char(c: char) -> (r: bool)
    ensures
        r == is_ws(c),
{
    let u = c as u32;
    u == 0x20 || (0x09 <= u && u <= 0x0d) || u == 0x85 || u == 0xa0 || u == 0x1680 || (0x2000
        <= u && u <= 0x200a) || u == 0x2028 || u == 0x2029 || u == 0x202f || u == 0x205f || u
        == 0x3000
}

/// ASCII lower-casing of one character; other characters are unchanged.
pub open spec fn ascii_lower(c: char) -> char {
    if 'A' <= c && c <= 'Z' {
        ((c as u32) + 32) as char
    } else {
        c
    }
}

pub fn to_ascii_lower(c: char) -> (r: char)
    ensures
        r == ascii_lower(c),
{
    if 'A' <= c && c <= 'Z' {
        let u: u32 = (c as u32) + 32;
        assert(0x61 <= u <= 0x7a);
        // SAFETY of the cast is a range fact: 'a'..='z' are scalar values
        char_from_ascii(u)
    } else {
        c
    }
}

/// The character with a code point in the ASCII range.
pub fn char_from_ascii(u: u32) -> (c: char)
    requires
        u < 128,
    ensures
        c as u32 == u,
        c == u as char,
{
    let b: u8 = u as u8;
    b as char
}

/// First index at or after `i` that does not hold whitespace.
pub open spec fn skip_ws(s: Seq<char>, i: int) -> int
    decreases s.len() - i,
{
    if i < 0 || i >= s.len() {
        if i < 0 { 0 } else { s.len() as int }
    } else if is_ws(s[i]) {
        skip_ws(s, i + 1)
    } else {
        i
    }
}

/// First index at or after `i` that holds whitespace.
pub open spec fn token_end(s: Seq<char>, i: int) -> int
    decreases s.len() - i,
{
    if i < 0 || i >= s.len() {
        if i < 0 { 0 } else { s.len() as int }
    } else if is_ws(s[i]) {
        i
    } else {
        token_end(s, i + 1)
    }
}

/// End of `s[..j]` once its trailing whitespace is dropped.
pub open spec fn rtrim_end(s: Seq<char>, j: int) -> int
    decreases j,
{
    if j <= 0 {
        0
    } else if j > s.len() {
        rtrim_end(s, s.len() as int)
    } else if is_ws(s[j - 1]) {
        rtrim_end(s, j - 1)
    } else {
        j
    }
}

/// `str::trim`: leading and trailing whitespace removed.
pub open spec fn trim(s: Seq<char>) -> Seq<char> {
    let a = skip_ws(s, 0);
    let b = rtrim_end(s, s.len() as int);
    if a < b {
        s.subrange(a, b)
    } else {
        Seq::empty()
    }
}

pub proof fn lemma_skip_ws_bounds(s: Seq<char>, i: int)
    requires
        0 <= i <= s.len(),
    ensures
        i <= skip_ws(s, i) <= s.len(),
        skip_ws(s, i) < s.len() ==> !is_ws(s[skip_ws(s, i)]),
        forall|k: int| i <= k < skip_ws(s, i) ==> is_ws(#[trigger] s[k]),
    decreases s.len() - i,
{
    if i < s.len() && is_ws(s[i]) {
        lemma_skip_ws_bounds(s, i + 1);
    }
}

pub proof fn lemma_token_end_bounds(s: Seq<char>, i: int)
    requires
        0 <= i <= s.len(),
    ensures
        i <= token_end(s, i) <= s.len(),
        token_end(s, i) < s.len() ==> is_ws(s[token_end(s, i)]),
        forall|k: int| i <= k < token_end(s, i) ==> !is_ws(#[trigger] s[k]),
    decreases s.len() - i,
{
    if i < s.len() && !is_ws(s[i]) {
        lemma_token_end_bounds(s, i + 1);
    }
}

pub proof fn lemma_rtrim_bounds(s: Seq<char>, j: int)
    requires
        0 <= j <= s.len(),
    ensures
        0 <= rtrim_end(s, j) <= j,
        rtrim_end(s, j) > 0 ==> !is_ws(s[rtrim_end(s, j) - 1]),
        forall|k: int| rtrim_end(s, j) <= k < j ==> is_ws(#[trigger] s[k]),
    decreases j,
{
    if j > 0 && is_ws(s[j - 1]) {
        lemma_rtrim_bounds(s, j - 1);
    }
}

/// Index of the first whitespace-free character in `s[from..to]`, scanning
/// forward; `to` when there is none.
pub fn scan_skip_ws(s: &[char], from: usize, to: usize) -> (r: usize)
    requires
        from <= to == s@.len(),
    ensures
        r == skip_ws(s@, from as int),
{
    let mut i = from;
    while i < to
        invariant
            from <= i <= to == s@.len(),
            skip_ws(s@, from as int) == skip_ws(s@, i as int),
        decreases to - i,
    {
        if !is_whitespace_char(s[i]) {
            return i;
        }
        i = i + 1;
    }
    i
}

/// Index of the first whitespace character at or after `from`.
pub fn scan_token_end(s: &[char], from: usize, to: usize) -> (r: usize)
    requires
        from <= to == s@.len(),
    ensures
        r == token_end(s@, from as int),
{
    let mut i = from;
    while i < to
        invariant
            from <= i <= to == s@.len(),
            token_end(s@, from as int) == token_end(s@, i as int),
        decreases to - i,
    {
        if is_whitespace_char(s[i]) {
            return i;
        }
        i = i + 1;
    }
    i
}

/// End index of `s[..to]` with trailing whitespace dropped.
pub fn scan_rtrim(s: &[char], to: usize) -> (r: usize)
    requires
        to <= s@.len(),
    ensures
        r == rtrim_end(s@, to as int),
{
    let mut j = to;
    while j > 0
        invariant
            j <= to <= s@.len(),
            rtrim_end(s@, to as int) == rtrim_end(s@, j as int),
        decreases j,
    {
        if !is_whitespace_char(s[j - 1]) {
            return j;
        }
        j = j - 1;
    }
    j
}

/// Copy of `s[a..b]`.
pub fn copy_range(s: &[char], a: usize, b: usize) -> (r: Vec<char>)
    requires
        a <= b <= s@.len(),
    ensures
        r@ == s@.subrange(a as int, b as int),
{
    let mut r: Vec<char> = Vec::new();
    let mut i = a;
    while i < b
        invariant
            a <= i <= b <= s@.len(),
            r@ == s@.subrange(a as int, i as int),
        decreases b - i,
    {
        r.push(s[i]);
        i = i + 1;
    }
    r
}

/// `str::trim`.
pub fn trim_chars(s: &[char]) -> (r: Vec<char>)
    ensures
        r@ == trim(s@),
{
    proof {
        lemma_skip_ws_bounds(s@, 0);
        lemma_rtrim_bounds(s@, s@.len() as int);
    }
    let a = scan_skip_ws(s, 0, s.len());
    let b = scan_rtrim(s, s.len());
    if a < b {
        copy_range(s, a, b)
    } else {
        Vec::new()
    }
}

/// Numeric value of one ASCII decimal digit.
pub open spec fn digit_value(c: char) -> int {
    (c as u32) - ('0' as u32)
}

pub open spec fn is_digit(c: char) -> bool {
    '0' <= c && c <= '9'
}

/// Decimal value of a run of digits.
pub open spec fn digits_value(s: Seq<char>) -> nat
    decreases s.len(),
{
    if s.len() == 0 {
        0
    } else {
        (digits_value(s.drop_last()) * 10 + digit_value(s.last())) as nat
    }
}

pub open spec fn all_digits(s: Seq<char>) -> bool {
    forall|i: int| 0 <= i < s.len() ==> is_digit(#[trigger] s[i])
}

/// The digits that `str::parse` reads for an unsigned type: an optional
/// leading `+` is dropped.
pub open spec fn unsigned_digits(s: Seq<char>) -> Seq<char> {
    if s.len() > 0 && s[0] == '+' {
        s.subrange(1, s.len() as int)
    } else {
        s
    }
}

/// `str::parse` for an unsigned integer type whose largest value is `max`.
pub open spec fn parse_unsigned(s: Seq<char>, max: nat) -> Option<nat> {
    let d = unsigned_digits(s);
    if d.len() > 0 && all_digits(d) && digits_value(d) <= max {
        Some(digits_value(d))
    } else {
        None
    }
}

pub open spec fn cap(n: nat, max: nat) -> nat {
    if n > max {
        (max + 1) as nat
    } else {
        n
    }
}

proof fn lemma_cap_step(x: nat, d: int, max: nat)
    requires
        0 <= d <= 9,
    ensures
        cap((cap(x, max) * 10 + d) as nat, max) == cap((x * 10 + d) as nat, max),
{
    if x > max {
        assert(cap(x, max) == max + 1);
        assert((max + 1) * 10 + d > max) by (nonlinear_arith)
            requires
                d >= 0,
        ;
        assert(x * 10 + d > max) by (nonlinear_arith)
            requires
                x > max,
                d >= 0,
        ;
    }
}

/// `str::parse::<T>()` over characters `s`, for an unsigned `T` whose largest
/// value is `max`.
pub fn parse_unsigned_chars(s: &[char], max: u64) -> (r: Option<u64>)
    ensures
        match parse_unsigned(s@, max as nat) {
            Some(v) => r == Some(v as u64),
            None => r is None,
        },
{
    let mut start: usize = 0;
    if s.len() > 0 && s[0] == '+' {
        start = 1;
    }
    let ghost d = unsigned_digits(s@);
    assert(d == s@.subrange(start as int, s@.len() as int));
    if start >= s.len() {
        return None;
    }
    let mut value: u128 = 0;
    let mut i = start;
    while i < s.len()
        invariant
            start <= i <= s@.len(),
            start < s@.len(),
            d == s@.subrange(start as int, s@.len() as int),
            d == unsigned_digits(s@),
            all_digits(s@.subrange(start as int, i as int)),
            value == cap(digits_value(s@.subrange(start as int, i as int)), max as nat),
        decreases s@.len() - i,
    {
        let c = s[i];
        if !('0' <= c && c <= '9') {
            assert(d[i - start] == c);
            assert(!is_digit(d[i - start]));
            assert(!all_digits(d));
            assert(parse_unsigned(s@, max as nat) is None);
            return None;
        }
        let dv: u128 = ((c as u32) - ('0' as u32)) as u128;
        let ghost prev = s@.subrange(start as int, i as int);
        let ghost next = s@.subrange(start as int, i + 1);
        assert(next.drop_last() == prev);
        assert(next.last() == c);
        proof {
            lemma_cap_step(digits_value(prev), dv as int, max as nat);
        }
        value = value * 10 + dv;
        if value > (max as u128) {
            value = (max as u128) + 1;
        }
        i = i + 1;
        assert(all_digits(next)) by {
            assert forall|k: int| 0 <= k < next.len() implies is_digit(#[trigger] next[k]) by {
                if k < prev.len() {
                    assert(next[k] == prev[k]);
                }
            }
        }
    }
    assert(s@.subrange(start as int, s@.len() as int) == d);
    if value > (max as u128) {
        None
    } else {
        Some(value as u64)
    }
}

/// Position of the first `'\n'` at or after `i`, or the length.
pub open spec fn newline_at(s: Seq<char>, i: int) -> int
    decreases s.len() - i,
{
    if i < 0 || i >= s.len() {
        if i < 0 { 0 } else { s.len() as int }
    } else if s[i] == '\n' {
        i
    } else {
        newline_at(s, i + 1)
    }
}

pub proof fn lemma_newline_bounds(s: Seq<char>, i: int)
    requires
        0 <= i <= s.len(),
    ensures
        i <= newline_at(s, i) <= s.len(),
        newline_at(s, i) < s.len() ==> s[newline_at(s, i)] == '\n',
        forall|k: int| i <= k < newline_at(s, i) ==> #[trigger] s[k] != '\n',
    decreases s.len() - i,
{
    if i < s.len() && s[i] != '\n' {
        lemma_newline_bounds(s, i + 1);
    }
}

pub fn scan_newline(s: &[char], from: usize) -> (r: usize)
    requires
        from <= s@.len(),
    ensures
        r == newline_at(s@, from as int),
{
    let mut i = from;
    while i < s.len()
        invariant
            from <= i <= s@.len(),
            newline_at(s@, from as int) == newline_at(s@, i as int),
        decreases s@.len() - i,
    {
        if s[i] == '\n' {
            return i;
        }
        i = i + 1;
    }
    i
}

/// The line of `str::lines` that starts at `i` ends at `line_end(s, i)`: the
/// newline is excluded and so is one `'\r'` directly before it.
pub open spec fn line_end(s: Seq<char>, i: int) -> int {
    let n = newline_at(s, i);
    if n < s.len() && n > i && s[n - 1] == '\r' {
        n - 1
    } else {
        n
    }
}

/// Where the line after the one that starts at `i` begins.
pub open spec fn next_line_start(s: Seq<char>, i: int) -> int {
    let n = newline_at(s, i);
    if n < s.len() {
        n + 1
    } else {
        s.len() as int
    }
}

/// `str::lines().next()`: no line for an empty text.
pub open spec fn first_line(s: Seq<char>) -> Option<Seq<char>> {
    if s.len() == 0 {
        None
    } else {
        Some(s.subrange(0, line_end(s, 0)))
    }
}

pub fn line_end_exec(s: &[char], from: usize) -> (r: (usize, usize))
    requires
        from <= s@.len(),
    ensures
        r.0 == line_end(s@, from as int),
        r.1 == next_line_start(s@, from as int),
        from <= r.0 <= s@.len(),
        r.0 < r.1 || r.1 == s@.len(),
{
    proof {
        lemma_newline_bounds(s@, from as int);
    }
    let n = scan_newline(s, from);
    let next = if n < s.len() {
        n + 1
    } else {
        s.len()
    };
    if n < s.len() && n > from && s[n - 1] == '\r' {
        (n - 1, next)
    } else {
        (n, next)
    }
}

/// `split_whitespace().nth(1)`: the second whitespace-separated token.
pub open spec fn second_token(s: Seq<char>) -> Option<Seq<char>> {
    let a0 = skip_ws(s, 0);
    let b0 = token_end(s, a0);
    let a1 = skip_ws(s, b0);
    let b1 = token_end(s, a1);
    if a0 < s.len() && a1 < s.len() {
        Some(s.subrange(a1, b1))
    } else {
        None
    }
}

pub fn second_token_exec(s: &[char]) -> (r: Option<Vec<char>>)
    ensures
        match second_token(s@) {
            Some(t) => r is Some && r->0@ == t,
            None => r is None,
        },
{
    proof {
        lemma_skip_ws_bounds(s@, 0);
    }
    let a0 = scan_skip_ws(s, 0, s.len());
    proof {
        lemma_token_end_bounds(s@, a0 as int);
    }
    let b0 = scan_token_end(s, a0, s.len());
    proof {
        lemma_skip_ws_bounds(s@, b0 as int);
    }
    let a1 = scan_skip_ws(s, b0, s.len());
    proof {
        lemma_token_end_bounds(s@, a1 as int);
    }
    let b1 = scan_token_end(s, a1, s.len());
    if a0 < s.len() && a1 < s.len() {
        Some(copy_range(s, a1, b1))
    } else {
        None
    }
}

/// The status code of an HTTP response head: the second token of its first
/// line, read as a `u16`.
pub open spec fn status_code_of(text: Seq<char>) -> Option<u16> {
    match first_line(text) {
        None => None,
        Some(line) => match second_token(line) {
            None => None,
            Some(tok) => match parse_unsigned(tok, 65535) {
                None => None,
                Some(v) => Some(v as u16),
            },
        },
    }
}

/// Reads the status code of a decoded HTTP response head.
pub fn status_code_from_text(text: &[char]) -> (r: Option<u16>)
    ensures
        r == status_code_of(text@),
{
    if text.len() == 0 {
        return None;
    }
    let (end, _next) = line_end_exec(text, 0);
    let line = copy_range(text, 0, end);
    assert(line@ == text@.subrange(0, line_end(text@, 0)));
    match second_token_exec(line.as_slice()) {
        None => None,
        Some(tok) => match parse_unsigned_chars(tok.as_slice(), 65535) {
            None => None,
            Some(v) => Some(v as u16),
        },
    }
}

/// `eq_ignore_ascii_case` against an ASCII `target`.
pub open spec fn eq_ignore_ascii_case(s: Seq<char>, target: Seq<char>) -> bool {
    s.len() == target.len() && forall|i: int|
        0 <= i < s.len() ==> ascii_lower(#[trigger] s[i]) == ascii_lower(target[i])
}

pub fn eq_ignore_ascii_case_exec(s: &[char], target: &[char]) -> (r: bool)
    ensures
        r == eq_ignore_ascii_case(s@, target@),
{
    if s.len() != target.len() {
        return false;
    }
    let mut i: usize = 0;
    while i < s.len()
        invariant
            s@.len() == target@.len(),
            i <= s@.len(),
            forall|k: int| 0 <= k < i ==> ascii_lower(#[trigger] s@[k]) == ascii_lower(target@[k]),
        decreases s@.len() - i,
    {
        if to_ascii_lower(s[i]) != to_ascii_lower(target[i]) {
            return false;
        }
        i = i + 1;
    }
    true
}

/// Whether two character runs are equal.
pub fn chars_equal(a: &[char], b: &[char]) -> (r: bool)
    ensures
        r == (a@ == b@),
{
    if a.len() != b.len() {
        return false;
    }
    let mut i: usize = 0;
    while i < a.len()
        invariant
            a@.len() == b@.len(),
            i <= a@.len(),
            forall|k: int| 0 <= k < i ==> a@[k] == b@[k],
        decreases a@.len() - i,
    {
        if a[i] != b[i] {
            return false;
        }
        i = i + 1;
    }
    assert(a@ =~= b@);
    true
}

/// Position of the first `c` in `s`, or `None`.
pub open spec fn first_index_of(s: Seq<char>, c: char, i: int) -> Option<int>
    decreases s.len() - i,
{
    if i < 0 || i >= s.len() {
        None
    } else if s[i] == c {
        Some(i)
    } else {
        first_index_of(s, c, i + 1)
    }
}

pub fn find_char(s: &[char], c: char) -> (r: Option<usize>)
    ensures
        r is Some <==> first_index_of(s@, c, 0) is Some,
        r is Some ==> first_index_of(s@, c, 0) == Some(r->0 as int),
{
    let mut i: usize = 0;
    while i < s.len()
        invariant
            i <= s@.len(),
            first_index_of(s@, c, 0) == first_index_of(s@, c, i as int),
        decreases s@.len() - i,
    {
        if s[i] == c {
            return Some(i);
        }
        i = i + 1;
    }
    None
}

pub proof fn lemma_first_index_bounds(s: Seq<char>, c: char, i: int)
    requires
        0 <= i,
    ensures
        first_index_of(s, c, i) matches Some(k) ==> i <= k < s.len() && s[k] == c,
    decreases s.len() - i,
{
    if i < s.len() && s[i] != c {
        lemma_first_index_bounds(s, c, i + 1);
    }
}

/// `Content-Length` read from one header line: the text before the first
/// `':'`, trimmed, names the header; the trimmed rest is the value.
pub open spec fn header_content_length(line: Seq<char>, max: nat) -> Option<nat> {
    match first_index_of(line, ':', 0) {
        None => None,
        Some(k) => if eq_ignore_ascii_case(
            trim(line.subrange(0, k)),
            seq!['c', 'o', 'n', 't', 'e', 'n', 't', '-', 'l', 'e', 'n', 'g', 't', 'h'],
        ) {
            parse_unsigned(trim(line.subrange(k + 1, line.len() as int)), max)
        } else {
            None
        },
    }
}

/// `lines().find_map(header_content_length)` over the lines from `i` on.
pub open spec fn content_length_from(s: Seq<char>, i: int, max: nat) -> Option<nat>
    decreases s.len() - i,
{
    if i < 0 || i >= s.len() {
        None
    } else {
        match header_content_length(s.subrange(i, line_end(s, i)), max) {
            Some(v) => Some(v),
            None => if next_line_start(s, i) > i {
                content_length_from(s, next_line_start(s, i), max)
            } else {
                None
            },
        }
    }
}

pub proof fn lemma_content_length_bound(s: Seq<char>, i: int, max: nat)
    ensures
        content_length_from(s, i, max) matches Some(v) ==> v <= max,
    decreases s.len() - i,
{
    if 0 <= i < s.len() {
        if header_content_length(s.subrange(i, line_end(s, i)), max) is None && next_line_start(s, i) > i {
            lemma_content_length_bound(s, next_line_start(s, i), max);
        }
    }
}

/// The lower-case header name that carries a body length.
pub fn content_length_name() -> (r: Vec<char>)
    ensures
        r@ == seq!['c', 'o', 'n', 't', 'e', 'n', 't', '-', 'l', 'e', 'n', 'g', 't', 'h'],
{
    let r: Vec<char> = vec!['c', 'o', 'n', 't', 'e', 'n', 't', '-', 'l', 'e', 'n', 'g', 't', 'h'];
    r
}

fn header_content_length_exec(line: &[char], max: u64) -> (r: Option<u64>)
    ensures
        match header_content_length(line@, max as nat) {
            Some(v) => r == Some(v as u64),
            None => r is None,
        },
{
    proof {
        lemma_first_index_bounds(line@, ':', 0);
    }
    match find_char(line, ':') {
        None => None,
        Some(k) => {
            let ghost fi = first_index_of(line@, ':', 0);
            assert(fi is Some);
            assert(fi->0 < line@.len());
            assert(fi->0 == k as int);
            assert(k < line.len());
            let name_raw = copy_range(line, 0, k);
            let name = trim_chars(name_raw.as_slice());
            let target = content_length_name();
            if eq_ignore_ascii_case_exec(name.as_slice(), target.as_slice()) {
                let value_raw = copy_range(line, k + 1, line.len());
                let value = trim_chars(value_raw.as_slice());
                parse_unsigned_chars(value.as_slice(), max)
            } else {
                None
            }
        },
    }
}

/// `Content-Length` of a decoded HTTP response head, read as an unsigned
/// value no larger than `max`.
pub fn content_length_from_text(text: &[char], max: u64) -> (r: Option<u64>)
    ensures
        match content_length_from(text@, 0, max as nat) {
            Some(v) => r == Some(v as u64),
            None => r is None,
        },
{
    let mut i: usize = 0;
    while i < text.len()
        invariant
            i <= text@.len(),
            content_length_from(text@, 0, max as nat) == content_length_from(
                text@,
                i as int,
                max as nat,
            ),
        decreases text@.len() - i,
    {
        let (end, next) = line_end_exec(text, i);
        let line = copy_range(text, i, end);
        match header_content_length_exec(line.as_slice(), max) {
            Some(v) => {
                return Some(v);
            },
            None => {},
        }
        if next <= i {
            return None;
        }
        i = next;
    }
    None
}

/// Punctuation that `trim_matches` strips from CLI help tokens; `angle`
/// adds `<` and `>`.
pub open spec fn is_trim_punct(c: char, angle: bool) -> bool {
    c == ',' || c == ';' || c == ':' || c == '[' || c == ']' || c == '(' || c == ')' || c == '`'
        || (angle && (c == '<' || c == '>'))
}

pub fn is_trim_punct_exec(c: char, angle: bool) -> (r: bool)
    ensures
        r == is_trim_punct(c, angle),
{
    c == ',' || c == ';' || c == ':' || c == '[' || c == ']' || c == '(' || c == ')' || c == '`'
        || (angle && (c == '<' || c == '>'))
}

pub open spec fn punct_start(s: Seq<char>, i: int, angle: bool) -> int
    decreases s.len() - i,
{
    if i < 0 || i >= s.len() {
        if i < 0 { 0 } else { s.len() as int }
    } else if is_trim_punct(s[i], angle) {
        punct_start(s, i + 1, angle)
    } else {
        i
    }
}

pub open spec fn punct_end(s: Seq<char>, j: int, angle: bool) -> int
    decreases j,
{
    if j <= 0 {
        0
    } else if j > s.len() {
        punct_end(s, s.len() as int, angle)
    } else if is_trim_punct(s[j - 1], angle) {
        punct_end(s, j - 1, angle)
    } else {
        j
    }
}

/// `trim_matches` of the punctuation set.
pub open spec fn trim_punct(s: Seq<char>, angle: bool) -> Seq<char> {
    let a = punct_start(s, 0, angle);
    let b = punct_end(s, s.len() as int, angle);
    if a < b {
        s.subrange(a, b)
    } else {
        Seq::empty()
    }
}

proof fn lemma_punct_bounds(s: Seq<char>, i: int, j: int, angle: bool)
    requires
        0 <= i <= s.len(),
        0 <= j <= s.len(),
    ensures
        i <= punct_start(s, i, angle) <= s.len(),
        0 <= punct_end(s, j, angle) <= j,
    decreases s.len() - i + j,
{
    if i < s.len() && is_trim_punct(s[i], angle) {
        lemma_punct_bounds(s, i + 1, j, angle);
    }
    if j > 0 && is_trim_punct(s[j - 1], angle) {
        lemma_punct_bounds(s, i, j - 1, angle);
    }
}

pub fn trim_punct_exec(s: &[char], angle: bool) -> (r: Vec<char>)
    ensures
        r@ == trim_punct(s@, angle),
{
    proof {
        lemma_punct_bounds(s@, 0, s@.len() as int, angle);
    }
    let mut a: usize = 0;
    while a < s.len() && is_trim_punct_exec(s[a], angle)
        invariant
            a <= s@.len(),
            punct_start(s@, 0, angle) == punct_start(s@, a as int, angle),
        decreases s@.len() - a,
    {
        a = a + 1;
    }
    let mut b: usize = s.len();
    while b > 0 && is_trim_punct_exec(s[b - 1], angle)
        invariant
            b <= s@.len(),
            punct_end(s@, s@.len() as int, angle) == punct_end(s@, b as int, angle),
        decreases b,
    {
        b = b - 1;
    }
    assert(a as int == punct_start(s@, 0, angle));
    assert(b as int == punct_end(s@, s@.len() as int, angle));
    if a < b {
        copy_range(s, a, b)
    } else {
        Vec::new()
    }
}

/// The whitespace-separated tokens of `s` from index `i` on, each with the
/// punctuation set trimmed from both ends.
pub open spec fn trimmed_tokens(s: Seq<char>, i: int, angle: bool) -> Seq<Seq<char>>
    decreases s.len() - i,
{
    if i < 0 || i >= s.len() {
        Seq::empty()
    } else {
        let a = skip_ws(s, i);
        if a >= s.len() {
            Seq::empty()
        } else {
            proof {
                lemma_skip_ws_bounds(s, i);
                lemma_token_end_bounds(s, a);
            }
            let b = token_end(s, a);
            if b <= i {
                Seq::empty()
            } else {
                seq![trim_punct(s.subrange(a, b), angle)] + trimmed_tokens(s, b, angle)
            }
        }
    }
}

pub fn trimmed_tokens_exec(s: &[char], angle: bool) -> (r: Vec<Vec<char>>)
    ensures
        r@.len() == trimmed_tokens(s@, 0, angle).len(),
        forall|k: int| 0 <= k < r@.len() ==> (#[trigger] r@[k])@ == trimmed_tokens(s@, 0, angle)[k],
{
    let mut out: Vec<Vec<char>> = Vec::new();
    let mut i: usize = 0;
    let ghost mut done: Seq<Seq<char>> = Seq::empty();
    while i < s.len()
        invariant
            i <= s@.len(),
            out@.len() == done.len(),
            forall|k: int| 0 <= k < out@.len() ==> (#[trigger] out@[k])@ == done[k],
            done + trimmed_tokens(s@, i as int, angle) == trimmed_tokens(s@, 0, angle),
        decreases s@.len() - i,
    {
        proof {
            lemma_skip_ws_bounds(s@, i as int);
        }
        let a = scan_skip_ws(s, i, s.len());
        if a >= s.len() {
            assert(trimmed_tokens(s@, i as int, angle) == Seq::<Seq<char>>::empty());
            assert(trimmed_tokens(s@, s@.len() as int, angle) == Seq::<Seq<char>>::empty());
            i = s.len();
        } else {
            proof {
                lemma_token_end_bounds(s@, a as int);
            }
            let b = scan_token_end(s, a, s.len());
            let raw = copy_range(s, a, b);
            let tok = trim_punct_exec(raw.as_slice(), angle);
            let ghost t = tok@;
            out.push(tok);
            proof {
                assert(trimmed_tokens(s@, i as int, angle) == seq![t] + trimmed_tokens(
                    s@,
                    b as int,
                    angle,
                ));
                assert(done + (seq![t] + trimmed_tokens(s@, b as int, angle)) == (done + seq![t])
                    + trimmed_tokens(s@, b as int, angle));
                done = done + seq![t];
            }
            i = b;
        }
    }
    proof {
        if i >= s.len() {
            assert(trimmed_tokens(s@, i as int, angle) == Seq::<Seq<char>>::empty());
        }
        assert(done + Seq::<Seq<char>>::empty() == done);
    }
    out
}

/// Whether `tokens` holds `target`.
pub fn tokens_contain(tokens: &Vec<Vec<char>>, target: &[char]) -> (r: bool)
    ensures
        r == exists|k: int| 0 <= k < tokens@.len() && (#[trigger] tokens@[k])@ == target@,
{
    let mut k: usize = 0;
    while k < tokens.len()
        invariant
            k <= tokens@.len(),
            forall|m: int| 0 <= m < k ==> (#[trigger] tokens@[m])@ != target@,
        decreases tokens@.len() - k,
    {
        if chars_equal(tokens[k].as_slice(), target) {
            return true;
        }
        k = k + 1;
    }
    false
}


/// Lexicographic order of texts by code point, the order of `str`'s `Ord`.
pub open spec fn text_less(a: Seq<char>, b: Seq<char>) -> bool
    decreases a.len(),
{
    if a.len() == 0 {
        b.len() > 0
    } else if b.len() == 0 {
        false
    } else if a[0] != b[0] {
        (a[0] as int) < (b[0] as int)
    } else {
        text_less(a.drop_first(), b.drop_first())
    }
}

/// Two distinct texts are ordered one way or the other.
pub proof fn lemma_text_less_total(a: Seq<char>, b: Seq<char>)
    requires
        a != b,
    ensures
        text_less(a, b) || text_less(b, a),
    decreases a.len(),
{
    if a.len() == 0 && b.len() == 0 {
        assert(a =~= b);
    } else if a.len() > 0 && b.len() > 0 && a[0] == b[0] {
        if a.drop_first() == b.drop_first() {
            assert(a =~= seq![a[0]] + a.drop_first());
            assert(b =~= seq![b[0]] + b.drop_first());
        }
        lemma_text_less_total(a.drop_first(), b.drop_first());
    } else if a.len() > 0 && b.len() > 0 {
        assert((a[0] as int) != (b[0] as int));
    }
}

/// A text is never below itself.
pub proof fn lemma_text_less_irreflexive(a: Seq<char>)
    ensures
        !text_less(a, a),
    decreases a.len(),
{
    if a.len() > 0 {
        lemma_text_less_irreflexive(a.drop_first());
    }
}

/// The order of texts is transitive.
pub proof fn lemma_text_less_transitive(a: Seq<char>, b: Seq<char>, c: Seq<char>)
    requires
        text_less(a, b),
        text_less(b, c),
    ensures
        text_less(a, c),
    decreases a.len(),
{
    if a.len() > 0 && a[0] == b[0] && b[0] == c[0] {
        lemma_text_less_transitive(a.drop_first(), b.drop_first(), c.drop_first());
    }
}

/// Whether `a` sorts before `b`.
pub fn text_less_exec(a: &[char], b: &[char]) -> (r: bool)
    ensures
        r == text_less(a@, b@),
{
    let mut i: usize = 0;
    assert(a@.subrange(0, a@.len() as int) =~= a@);
    assert(b@.subrange(0, b@.len() as int) =~= b@);
    while i < a.len() && i < b.len() && a[i] == b[i]
        invariant
            i <= a@.len(),
            i <= b@.len(),
            text_less(a@, b@) == text_less(a@.subrange(i as int, a@.len() as int), b@.subrange(i as int, b@.len() as int)),
        decreases a@.len() - i,
    {
        let ghost x = a@.subrange(i as int, a@.len() as int);
        let ghost y = b@.subrange(i as int, b@.len() as int);
        assert(x.drop_first() =~= a@.subrange(i + 1, a@.len() as int));
        assert(y.drop_first() =~= b@.subrange(i + 1, b@.len() as int));
        i = i + 1;
    }
    let ghost x = a@.subrange(i as int, a@.len() as int);
    let ghost y = b@.subrange(i as int, b@.len() as int);
    if i == a.len() {
        i < b.len()
    } else if i == b.len() {
        false
    } else {
        assert(x[0] == a@[i as int] && y[0] == b@[i as int]);
        a[i] < b[i]
    }
}

/// Texts in strictly ascending order, as a `BTreeSet` of strings yields them.
pub open spec fn strictly_ascending(s: Seq<Seq<char>>) -> bool {
    &&& forall|k: int| 0 <= k < s.len() - 1 ==> text_less(#[trigger] s[k], s[k + 1])
    &&& forall|i: int, j: int| 0 <= i < j < s.len() ==> #[trigger] s[i] != #[trigger] s[j]
}

/// Adds `t` to an ascending set of texts: nothing changes if it is there.
pub fn insert_text(set: &mut Vec<String>, t: String)
    requires
        strictly_ascending(old(set)@.map_values(|s: String| s@)),
    ensures
        strictly_ascending(final(set)@.map_values(|s: String| s@)),
        final(set)@.map_values(|s: String| s@).to_set() == old(set)@.map_values(|s: String| s@).to_set().insert(t@),
{
    let ghost old_v = set@.map_values(|s: String| s@);
    let mut k: usize = 0;
    while k < set.len()
        invariant
            set@.map_values(|s: String| s@) == old_v,
            strictly_ascending(old_v),
            k <= set@.len(),
            forall|m: int| 0 <= m < k ==> old_v[m] != t@,
        decreases set@.len() - k,
    {
        if set[k] == t {
            proof {
                assert(old_v[k as int] == t@);
                assert(old_v.to_set().insert(t@) =~= old_v.to_set());
            }
            return;
        }
        k = k + 1;
    }
    let tc = chars_of_string(&t);
    let mut i: usize = 0;
    while i < set.len() && string_less(&set[i], tc.as_slice())
        invariant
            set@.map_values(|s: String| s@) == old_v,
            strictly_ascending(old_v),
            tc@ == t@,
            i <= set@.len(),
            forall|m: int| 0 <= m < old_v.len() ==> old_v[m] != t@,
            i > 0 ==> text_less(old_v[i - 1], t@),
        decreases set@.len() - i,
    {
        i = i + 1;
    }
    proof {
        if i < old_v.len() {
            assert(!text_less(old_v[i as int], t@));
            lemma_text_less_total(old_v[i as int], t@);
            assert(text_less(t@, old_v[i as int]));
        }
    }
    let ghost tv = t@;
    set.insert(i, t);
    proof {
        let nv = set@.map_values(|s: String| s@);
        assert(nv =~= old_v.insert(i as int, tv));
        lemma_insert_ascending(old_v, i as int, tv);
    }
}

proof fn lemma_insert_ascending(old_v: Seq<Seq<char>>, i: int, tv: Seq<char>)
    requires
        strictly_ascending(old_v),
        0 <= i <= old_v.len(),
        forall|m: int| 0 <= m < old_v.len() ==> old_v[m] != tv,
        i > 0 ==> text_less(old_v[i - 1], tv),
        i < old_v.len() ==> text_less(tv, old_v[i]),
    ensures
        strictly_ascending(old_v.insert(i, tv)),
        old_v.insert(i, tv).to_set() == old_v.to_set().insert(tv),
{
    lemma_insert_adjacent(old_v, i, tv);
    lemma_insert_distinct(old_v, i, tv);
    lemma_insert_set(old_v, i, tv);
}

proof fn lemma_insert_adjacent(old_v: Seq<Seq<char>>, i: int, tv: Seq<char>)
    requires
        forall|k: int| 0 <= k < old_v.len() - 1 ==> text_less(#[trigger] old_v[k], old_v[k + 1]),
        0 <= i <= old_v.len(),
        i > 0 ==> text_less(old_v[i - 1], tv),
        i < old_v.len() ==> text_less(tv, old_v[i]),
    ensures
        forall|k: int| 0 <= k < old_v.insert(i, tv).len() - 1 ==> text_less(#[trigger] old_v.insert(i, tv)[k], old_v.insert(i, tv)[k + 1]),
{
    let nv = old_v.insert(i, tv);
    assert forall|k: int| 0 <= k < nv.len() - 1 implies text_less(#[trigger] nv[k], nv[k + 1]) by {
        if k < i - 1 {
            assert(nv[k] == old_v[k] && nv[k + 1] == old_v[k + 1]);
        } else if k == i - 1 {
            assert(nv[k] == old_v[k] && nv[k + 1] == tv);
        } else if k == i {
            assert(nv[k] == tv && nv[k + 1] == old_v[k]);
        } else {
            assert(nv[k] == old_v[k - 1] && nv[k + 1] == old_v[k]);
        }
    }
}

proof fn lemma_insert_distinct(old_v: Seq<Seq<char>>, i: int, tv: Seq<char>)
    requires
        forall|a: int, b: int| 0 <= a < b < old_v.len() ==> #[trigger] old_v[a] != #[trigger] old_v[b],
        0 <= i <= old_v.len(),
        forall|m: int| 0 <= m < old_v.len() ==> old_v[m] != tv,
    ensures
        forall|a: int, b: int| 0 <= a < b < old_v.insert(i, tv).len() ==> #[trigger] old_v.insert(i, tv)[a] != #[trigger] old_v.insert(i, tv)[b],
{
    let nv = old_v.insert(i, tv);
    assert forall|a: int, b: int| 0 <= a < b < nv.len() implies #[trigger] nv[a] != #[trigger] nv[b] by {
        if a < i && b < i {
            assert(nv[a] == old_v[a] && nv[b] == old_v[b]);
        } else if a < i && b == i {
            assert(nv[a] == old_v[a] && nv[b] == tv);
        } else if a < i {
            assert(nv[a] == old_v[a] && nv[b] == old_v[b - 1]);
        } else if a == i {
            assert(nv[a] == tv && nv[b] == old_v[b - 1]);
        } else {
            assert(nv[a] == old_v[a - 1] && nv[b] == old_v[b - 1]);
        }
    }
}

proof fn lemma_insert_set(old_v: Seq<Seq<char>>, i: int, tv: Seq<char>)
    requires
        0 <= i <= old_v.len(),
    ensures
        old_v.insert(i, tv).to_set() == old_v.to_set().insert(tv),
{
    let nv = old_v.insert(i, tv);
    assert forall|x: Seq<char>| nv.to_set().contains(x) <==> old_v.to_set().insert(tv).contains(x) by {
        if nv.to_set().contains(x) {
            let j = choose|j: int| 0 <= j < nv.len() && nv[j] == x;
            if j < i {
                assert(old_v[j] == x);
            } else if j > i {
                assert(old_v[j - 1] == x);
            }
        }
        if old_v.to_set().contains(x) {
            let j = choose|j: int| 0 <= j < old_v.len() && old_v[j] == x;
            if j < i {
                assert(nv[j] == x);
            } else {
                assert(nv[j + 1] == x);
            }
        }
        if x == tv {
            assert(nv[i] == x);
        }
    }
    assert(nv.to_set() =~= old_v.to_set().insert(tv));
}

/// Whether `a` sorts before the text `b`.
pub fn string_less(a: &String, b: &[char]) -> (r: bool)
    ensures
        r == text_less(a@, b@),
{
    let ac = chars_of_string(a);
    text_less_exec(ac.as_slice(), b)
}

/// The characters of a `String`.
pub fn chars_of_string(s: &String) -> (r: Vec<char>)
    ensures
        r@ == s@,
{
    crate::strings::chars_of(s.as_str())
}


/// First position at or after `i` where the text `needle` occurs in `hay`.
pub open spec fn text_match(hay: Seq<char>, needle: Seq<char>, i: int) -> Option<int>
    decreases hay.len() + 1 - i,
{
    if i < 0 || i + needle.len() > hay.len() {
        None
    } else if hay.subrange(i, i + needle.len()) == needle {
        Some(i)
    } else {
        text_match(hay, needle, i + 1)
    }
}

/// Where `needle` first occurs in `haystack` (`str::find`).
pub fn find_text(haystack: &[char], needle: &[char]) -> (r: Option<usize>)
    requires
        needle@.len() > 0,
    ensures
        r is Some <==> text_match(haystack@, needle@, 0) is Some,
        r is Some ==> text_match(haystack@, needle@, 0) == Some(r->0 as int),
        r is Some ==> r->0 + needle@.len() <= haystack@.len(),
{
    let n = needle.len();
    if n > haystack.len() {
        return None;
    }
    let mut i: usize = 0;
    let last = haystack.len() - n;
    while i <= last
        invariant
            n == needle@.len() > 0,
            last + n == haystack@.len(),
            i <= last + 1,
            text_match(haystack@, needle@, 0) == text_match(haystack@, needle@, i as int),
        decreases last + 1 - i,
    {
        let mut k: usize = 0;
        let mut same = true;
        while k < n
            invariant
                n == needle@.len(),
                i + n <= haystack@.len(),
                haystack@.len() == haystack.len(),
                k <= n,
                same == (forall|m: int| 0 <= m < k ==> haystack@[i + m] == needle@[m]),
            decreases n - k,
        {
            if haystack[i + k] != needle[k] {
                same = false;
            }
            k = k + 1;
        }
        if same {
            assert(haystack@.subrange(i as int, i + n) =~= needle@);
            return Some(i);
        } else {
            let ghost w = choose|m: int| 0 <= m < n && haystack@[i + m] != needle@[m];
            assert(haystack@.subrange(i as int, i + n)[w] != needle@[w]);
        }
        assert(i < last + 1);
        i = i + 1;
    }
    None
}

/// The text after the first blank line (`\r\n\r\n`), or nothing.
pub open spec fn body_after_head(text: Seq<char>) -> Seq<char> {
    match text_match(text, seq!['\r', '\n', '\r', '\n'], 0) {
        Some(i) => text.subrange(i + 4, text.len() as int),
        None => Seq::empty(),
    }
}

/// `split_once("\r\n\r\n").map(|(_, body)| body).unwrap_or("")`.
pub fn body_after_head_exec(text: &[char]) -> (r: Vec<char>)
    ensures
        r@ == body_after_head(text@),
{
    let sep: Vec<char> = vec!['\r', '\n', '\r', '\n'];
    assert(sep@ =~= seq!['\r', '\n', '\r', '\n']);
    let ss = sep.as_slice();
    assert(ss@.len() == 4);
    let n = text.len();
    match find_text(text, ss) {
        Some(i) => copy_range(text, i + 4, n),
        None => Vec::new(),
    }
}

} // verus!
