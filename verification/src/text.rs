//! Character and string helpers shared by the assembler, the memory cells
//! and the error renderer.
use vstd::prelude::*;

use crate::pattern::is_ascii_letter;

verus! {

/// Number of bytes that the UTF-8 encoding of `c` takes.
pub open spec fn utf8_width(c: char) -> nat {
    if (c as u32) < 0x80 {
        1
    } else if (c as u32) < 0x800 {
        2
    } else if (c as u32) < 0x10000 {
        3
    } else {
        4
    }
}

/// Number of bytes of the UTF-8 encoding of `s`.
pub open spec fn byte_len(s: Seq<char>) -> nat
    decreases s.len(),
{
    if s.len() == 0 {
        0
    } else {
        utf8_width(s[0]) + byte_len(s.drop_first())
    }
}

pub proof fn lemma_byte_len_concat(a: Seq<char>, b: Seq<char>)
    ensures
        byte_len(a + b) == byte_len(a) + byte_len(b),
    decreases a.len(),
{
    if a.len() == 0 {
        assert(a + b =~= b);
    } else {
        assert((a + b).drop_first() =~= a.drop_first() + b);
        lemma_byte_len_concat(a.drop_first(), b);
    }
}

/// `byte_len` of a prefix grows by the width of the next character.
pub proof fn lemma_byte_len_take(s: Seq<char>, i: int)
    requires
        0 <= i < s.len(),
    ensures
        byte_len(s.take(i + 1)) == byte_len(s.take(i)) + utf8_width(s[i]),
{
    assert(s.take(i + 1) =~= s.take(i) + seq![s[i]]);
    lemma_byte_len_concat(s.take(i), seq![s[i]]);
    assert(seq![s[i]].drop_first() =~= Seq::<char>::empty());
    assert(byte_len(Seq::<char>::empty()) == 0);
    assert(byte_len(seq![s[i]]) == utf8_width(s[i]) + byte_len(seq![s[i]].drop_first()));
}

/// `byte_len` of a prefix is at most that of the whole.
pub proof fn lemma_byte_len_prefix(s: Seq<char>, i: int)
    requires
        0 <= i <= s.len(),
    ensures
        byte_len(s.take(i)) <= byte_len(s),
        byte_len(s) == byte_len(s.take(i)) + byte_len(s.skip(i)),
{
    assert(s =~= s.take(i) + s.skip(i));
    lemma_byte_len_concat(s.take(i), s.skip(i));
}

/// `byte_len` of prefixes grows with the prefix.
pub proof fn lemma_byte_len_mono(s: Seq<char>, a: int, b: int)
    requires
        0 <= a <= b <= s.len(),
    ensures
        byte_len(s.take(a)) <= byte_len(s.take(b)),
        byte_len(s.take(b)) == byte_len(s.take(a)) + byte_len(s.subrange(a, b)),
{
    assert(s.take(b) =~= s.take(a) + s.subrange(a, b));
    lemma_byte_len_concat(s.take(a), s.subrange(a, b));
}

/// The byte length of a text is that of its UTF-8 encoding.
pub proof fn lemma_byte_len_encoding(s: Seq<char>)
    ensures
        byte_len(s) == vstd::utf8::encode_utf8(s).len(),
    decreases s.len(),
{
    if s.len() > 0 {
        vstd::utf8::char_is_scalar(s[0]);
        lemma_byte_len_encoding(s.drop_first());
    }
}

/// The number of bytes of `s` (`str::len`).
pub fn str_byte_len(s: &str) -> (r: usize)
    ensures
        r == byte_len(s@),
{
    proof {
        lemma_byte_len_encoding(s@);
    }
    let b = s.as_bytes();
    b.len()
}

/// Same as `char::len_utf8`.
pub fn char_utf8_len(c: char) -> (r: usize)
    ensures
        r == utf8_width(c),
{
    let v: u32 = c as u32;
    if v < 0x80 {
        1
    } else if v < 0x800 {
        2
    } else if v < 0x10000 {
        3
    } else {
        4
    }
}

pub open spec fn is_ascii_digit(c: char) -> bool {
    '0' <= c && c <= '9'
}

pub fn char_is_ascii_digit(c: char) -> (r: bool)
    ensures
        r == is_ascii_digit(c),
{
    '0' <= c && c <= '9'
}

/// The characters of `s`, in order.
pub fn chars_of(s: &str) -> (r: Vec<char>)
    ensures
        r@ == s@,
{
    broadcast use vstd::string::group_string_axioms;
    let mut v: Vec<char> = Vec::new();
    for c in it: s.chars()
        invariant
            it.seq() == s@,
            v@ == s@.take(it.index() as int),
    {
        v.push(c);
    }
    v
}

/// The `White_Space` property of Unicode, which `char::is_whitespace` tests.
pub open spec fn is_whitespace(c: char) -> bool {
    let v = c as u32;
    ||| 0x09 <= v <= 0x0d
    ||| v == 0x20
    ||| v == 0x85
    ||| v == 0xa0
    ||| v == 0x1680
    ||| 0x2000 <= v <= 0x200a
    ||| v == 0x2028
    ||| v == 0x2029
    ||| v == 0x202f
    ||| v == 0x205f
    ||| v == 0x3000
}

/// Same as `char::is_whitespace`.
pub fn char_is_whitespace(c: char) -> (r: bool)
    ensures
        r == is_whitespace(c),
{
    let v: u32 = c as u32;
    (0x09 <= v && v <= 0x0d) || v == 0x20 || v == 0x85 || v == 0xa0 || v == 0x1680 || (0x2000 <= v
        && v <= 0x200a) || v == 0x2028 || v == 0x2029 || v == 0x202f || v == 0x205f || v == 0x3000
}

/// Whether `c` has the Unicode `Alphabetic` property (what `char::is_alphabetic` returns).
pub uninterp spec fn char_alphabetic(c: char) -> bool;

/// Whether `c` is alphabetic or numeric in the Unicode sense (what
/// `char::is_alphanumeric` returns).
pub uninterp spec fn char_alphanumeric(c: char) -> bool;

/// Whether `c` is alphabetic: among ASCII characters exactly the letters,
/// elsewhere as the Unicode tables say.
pub open spec fn alphabetic(c: char) -> bool {
    if (c as u32) < 0x80 {
        is_ascii_letter(c)
    } else {
        char_alphabetic(c)
    }
}

/// Whether `c` is alphabetic or numeric: among ASCII characters exactly the
/// letters and digits, elsewhere as the Unicode tables say.
pub open spec fn alphanumeric(c: char) -> bool {
    if (c as u32) < 0x80 {
        is_ascii_letter(c) || is_ascii_digit(c)
    } else {
        char_alphanumeric(c)
    }
}

/// `char::is_alphabetic`.  The contract names the answer, which depends on
/// the character alone, and states the ASCII case that the standard
/// library's source spells out (`'a'..='z' | 'A'..='Z'`, and no other
/// character below `0x80`); the Unicode tables behind the rest are not
/// restated here.
#[verifier::external_body]
pub(crate) fn char_is_alphabetic(c: char) -> (r: bool)
    ensures
        r == char_alphabetic(c),
        (c as u32) < 0x80 ==> (r <==> is_ascii_letter(c)),
{
    c.is_alphabetic()
}

/// `char::is_alphanumeric`: alphabetic or numeric.  The contract names the
/// answer and states the ASCII case that the standard library's source
/// spells out (the ASCII letters and `'0'..='9'`, and no other character
/// below `0x80`); the Unicode tables behind the rest are not restated here.
#[verifier::external_body]
pub(crate) fn char_is_alphanumeric(c: char) -> (r: bool)
    ensures
        r == char_alphanumeric(c),
        (c as u32) < 0x80 ==> (r <==> (is_ascii_letter(c) || is_ascii_digit(c))),
{
    c.is_alphanumeric()
}

/// `String::push`: appends one character.
#[verifier::external_body]
pub(crate) fn push_char(s: &mut String, c: char)
    ensures
        final(s)@ == old(s)@.push(c),
{
    s.push(c);
}

/// The characters `cs[a..b]`.
pub fn sub_chars(cs: &[char], a: usize, b: usize) -> (r: Vec<char>)
    requires
        a <= b <= cs@.len(),
    ensures
        r@ == cs@.subrange(a as int, b as int),
{
    let mut r: Vec<char> = Vec::new();
    let mut i: usize = a;
    while i < b
        invariant
            a <= i <= b <= cs@.len(),
            r@ == cs@.subrange(a as int, i as int),
        decreases b - i,
    {
        r.push(cs[i]);
        i += 1;
        assert(r@ =~= cs@.subrange(a as int, i as int));
    }
    r
}

/// A `String` holding exactly the characters of `cs`.
pub fn string_from_chars(cs: &[char]) -> (r: String)
    ensures
        r@ == cs@,
{
    let mut r = String::new();
    let mut i: usize = 0;
    while i < cs.len()
        invariant
            i <= cs@.len(),
            r@ == cs@.take(i as int),
        decreases cs@.len() - i,
    {
        push_char(&mut r, cs[i]);
        i += 1;
        assert(r@ =~= cs@.take(i as int));
    }
    assert(cs@.take(i as int) =~= cs@);
    r
}

/// A `String` holding the characters of `s`.
pub fn string_of(s: &str) -> (r: String)
    ensures
        r@ == s@,
{
    s.to_owned()
}

/// Appends the characters of `t` to `s`.
pub(crate) fn push_chars(s: &mut String, cs: &[char])
    ensures
        final(s)@ == old(s)@ + cs@,
{
    let ghost start = s@;
    let ghost t = cs@;
    let mut i: usize = 0;
    while i < cs.len()
        invariant
            i <= cs@.len(),
            cs@ == t,
            s@ == start + t.take(i as int),
        decreases cs@.len() - i,
    {
        push_char(s, cs[i]);
        i += 1;
        assert(s@ =~= start + t.take(i as int));
    }
    assert(t.take(i as int) =~= t);
}

/// Appends the characters of `t` to `s`.
pub fn push_str(s: &mut String, t: &str)
    ensures
        final(s)@ == old(s)@ + t@,
{
    let cs = chars_of(t);
    push_chars(s, cs.as_slice());
}

/// Whether two strings hold the same characters.
pub fn str_eq(a: &str, b: &str) -> (r: bool)
    ensures
        r == (a@ == b@),
{
    let x = string_of(a);
    let y = string_of(b);
    x == y
}

// ---------------------------------------------------------------------------
// Numbers as text
// ---------------------------------------------------------------------------

/// The digit characters `0-9a-f`.
pub open spec fn digit_char(d: int) -> char {
    if d == 0 { '0' }
    else if d == 1 { '1' }
    else if d == 2 { '2' }
    else if d == 3 { '3' }
    else if d == 4 { '4' }
    else if d == 5 { '5' }
    else if d == 6 { '6' }
    else if d == 7 { '7' }
    else if d == 8 { '8' }
    else if d == 9 { '9' }
    else if d == 10 { 'a' }
    else if d == 11 { 'b' }
    else if d == 12 { 'c' }
    else if d == 13 { 'd' }
    else if d == 14 { 'e' }
    else { 'f' }
}

fn digit_char_exec(d: u64) -> (r: char)
    requires
        d < 16,
    ensures
        r == digit_char(d as int),
{
    if d == 0 { '0' }
    else if d == 1 { '1' }
    else if d == 2 { '2' }
    else if d == 3 { '3' }
    else if d == 4 { '4' }
    else if d == 5 { '5' }
    else if d == 6 { '6' }
    else if d == 7 { '7' }
    else if d == 8 { '8' }
    else if d == 9 { '9' }
    else if d == 10 { 'a' }
    else if d == 11 { 'b' }
    else if d == 12 { 'c' }
    else if d == 13 { 'd' }
    else if d == 14 { 'e' }
    else { 'f' }
}

/// Decimal digits of `n`, most significant first, no leading zeros.
pub open spec fn decimal(n: nat) -> Seq<char>
    decreases n,
{
    if n < 10 {
        seq![digit_char(n as int)]
    } else {
        decimal(n / 10).push(digit_char((n % 10) as int))
    }
}

/// Lowercase hexadecimal digits of `n`, most significant first, no leading zeros.
pub open spec fn hexadecimal(n: nat) -> Seq<char>
    decreases n,
{
    if n < 16 {
        seq![digit_char(n as int)]
    } else {
        hexadecimal(n / 16).push(digit_char((n % 16) as int))
    }
}

/// How `i64`'s `Display` writes a number: a minus sign for negatives, then
/// the decimal digits of the magnitude.
pub open spec fn int_text(n: int) -> Seq<char> {
    if n < 0 {
        seq!['-'] + decimal((-n) as nat)
    } else {
        decimal(n as nat)
    }
}

/// Decimal text of `n` (what `u64`'s `Display` writes).
pub fn u64_to_decimal(n: u64) -> (r: String)
    ensures
        r@ == decimal(n as nat),
{
    let mut m: u64 = n;
    let mut acc: Vec<char> = Vec::new();
    while m >= 10
        invariant
            decimal(n as nat) == decimal(m as nat) + acc@,
        decreases m,
    {
        let d = digit_char_exec(m % 10);
        acc.insert(0, d);
        proof {
            assert(decimal(m as nat) == decimal((m / 10) as nat).push(d));
        }
        m = m / 10;
        assert(decimal(n as nat) =~= decimal(m as nat) + acc@);
    }
    let d = digit_char_exec(m);
    acc.insert(0, d);
    assert(acc@ =~= decimal(n as nat));
    string_from_chars(acc.as_slice())
}

/// Lowercase hexadecimal text of `n` (what `format!("{:x}", n)` writes).
pub fn u64_to_hex(n: u64) -> (r: String)
    ensures
        r@ == hexadecimal(n as nat),
{
    let mut m: u64 = n;
    let mut acc: Vec<char> = Vec::new();
    while m >= 16
        invariant
            hexadecimal(n as nat) == hexadecimal(m as nat) + acc@,
        decreases m,
    {
        let d = digit_char_exec(m % 16);
        acc.insert(0, d);
        proof {
            assert(hexadecimal(m as nat) == hexadecimal((m / 16) as nat).push(d));
        }
        m = m / 16;
        assert(hexadecimal(n as nat) =~= hexadecimal(m as nat) + acc@);
    }
    let d = digit_char_exec(m);
    acc.insert(0, d);
    assert(acc@ =~= hexadecimal(n as nat));
    string_from_chars(acc.as_slice())
}

/// Decimal text of `n` (what `usize`'s `Display` writes).
pub fn usize_to_decimal(n: usize) -> (r: String)
    ensures
        r@ == decimal(n as nat),
{
    u64_to_decimal(n as u64)
}

/// Decimal text of `n` (what `i64`'s `Display` writes).
pub fn i64_to_decimal(n: i64) -> (r: String)
    ensures
        r@ == int_text(n as int),
{
    if n < 0 {
        let mag: u64 = ((-(n + 1)) as u64) + 1;
        let digits = u64_to_decimal(mag);
        let mut r = string_of("-");
        proof { reveal_strlit("-"); }
        push_str(&mut r, digits.as_str());
        assert(r@ =~= int_text(n as int));
        r
    } else {
        u64_to_decimal(n as u64)
    }
}

// ---------------------------------------------------------------------------
// Text as numbers
// ---------------------------------------------------------------------------

/// Why a text is not an integer of the wanted type (the kinds that
/// `std::num::ParseIntError` reports).
#[derive(Copy, Clone, Debug, PartialEq, Eq, Structural)]
pub enum IntErrorKind {
    Empty,
    InvalidDigit,
    PosOverflow,
    NegOverflow,
}

impl IntErrorKind {
    /// The message that `ParseIntError` displays for this kind.
    pub fn message(&self) -> (r: String)
        ensures
            r@ == self.spec_message(),
    {
        match self {
            IntErrorKind::Empty => string_of("cannot parse integer from empty string"),
            IntErrorKind::InvalidDigit => string_of("invalid digit found in string"),
            IntErrorKind::PosOverflow => string_of("number too large to fit in target type"),
            IntErrorKind::NegOverflow => string_of("number too small to fit in target type"),
        }
    }

    pub open spec fn spec_message(&self) -> Seq<char> {
        match self {
            IntErrorKind::Empty => "cannot parse integer from empty string"@,
            IntErrorKind::InvalidDigit => "invalid digit found in string"@,
            IntErrorKind::PosOverflow => "number too large to fit in target type"@,
            IntErrorKind::NegOverflow => "number too small to fit in target type"@,
        }
    }
}

pub open spec fn digit_value(c: char) -> int {
    (c as u32) - ('0' as u32)
}

/// Folds the digits of `ds` into `acc` from the left, as the standard
/// library's integer parsing does, failing on the first non-digit or on the
/// first step that leaves `[lo, hi]`.
pub open spec fn accumulate_digits(ds: Seq<char>, acc: int, neg: bool, lo: int, hi: int) -> Result<
    int,
    IntErrorKind,
>
    decreases ds.len(),
{
    if ds.len() == 0 {
        Ok(acc)
    } else if !is_ascii_digit(ds[0]) {
        Err(IntErrorKind::InvalidDigit)
    } else {
        let next = if neg {
            acc * 10 - digit_value(ds[0])
        } else {
            acc * 10 + digit_value(ds[0])
        };
        if next < lo || next > hi {
            Err(if neg { IntErrorKind::NegOverflow } else { IntErrorKind::PosOverflow })
        } else {
            accumulate_digits(ds.drop_first(), next, neg, lo, hi)
        }
    }
}

/// What `str::parse` gives for an integer type whose range is `[lo, hi]`
/// (`signed` tells whether a leading `-` is a sign).
pub open spec fn parse_int(s: Seq<char>, signed: bool, lo: int, hi: int) -> Result<int, IntErrorKind> {
    if s.len() == 0 {
        Err(IntErrorKind::Empty)
    } else if (s[0] == '+' || s[0] == '-') && s.len() == 1 {
        Err(IntErrorKind::InvalidDigit)
    } else if s[0] == '+' {
        accumulate_digits(s.drop_first(), 0, false, lo, hi)
    } else if s[0] == '-' && signed {
        accumulate_digits(s.drop_first(), 0, true, lo, hi)
    } else {
        accumulate_digits(s, 0, false, lo, hi)
    }
}

/// What `s.parse::<i64>()` gives.
pub open spec fn parse_i64_spec(s: Seq<char>) -> Result<int, IntErrorKind> {
    parse_int(s, true, i64::MIN as int, i64::MAX as int)
}

/// What `s.parse::<usize>()` gives.
pub open spec fn parse_usize_spec(s: Seq<char>) -> Result<int, IntErrorKind> {
    parse_int(s, false, 0, usize::MAX as int)
}

proof fn lemma_accumulate_in_range(ds: Seq<char>, acc: int, neg: bool, lo: int, hi: int)
    requires
        lo <= acc <= hi,
    ensures
        accumulate_digits(ds, acc, neg, lo, hi) matches Ok(v) ==> lo <= v <= hi,
    decreases ds.len(),
{
    if ds.len() > 0 && is_ascii_digit(ds[0]) {
        let next = if neg {
            acc * 10 - digit_value(ds[0])
        } else {
            acc * 10 + digit_value(ds[0])
        };
        if lo <= next <= hi {
            lemma_accumulate_in_range(ds.drop_first(), next, neg, lo, hi);
        }
    }
}

/// Parses `cs[start..]` as the digits of an `i64`.
fn accumulate_i64(cs: &[char], start: usize, neg: bool) -> (r: Result<i64, IntErrorKind>)
    requires
        start <= cs@.len(),
    ensures
        r matches Ok(v) ==> accumulate_digits(cs@.skip(start as int), 0, neg, i64::MIN as int, i64::MAX as int) == Ok::<int, IntErrorKind>(v as int),
        r matches Err(e) ==> accumulate_digits(cs@.skip(start as int), 0, neg, i64::MIN as int, i64::MAX as int) == Err::<int, IntErrorKind>(e),
{
    let mut acc: i64 = 0;
    let mut i: usize = start;
    while i < cs.len()
        invariant
            start <= i <= cs@.len(),
            accumulate_digits(cs@.skip(start as int), 0, neg, i64::MIN as int, i64::MAX as int)
                == accumulate_digits(cs@.skip(i as int), acc as int, neg, i64::MIN as int, i64::MAX as int),
            neg ==> acc <= 0,
            !neg ==> acc >= 0,
        decreases cs@.len() - i,
    {
        let c = cs[i];
        assert(cs@.skip(i as int)[0] == c);
        assert(cs@.skip(i as int).drop_first() =~= cs@.skip(i + 1));
        if !char_is_ascii_digit(c) {
            return Err(IntErrorKind::InvalidDigit);
        }
        let d: i64 = ((c as u32) - ('0' as u32)) as i64;
        if neg {
            match acc.checked_mul(10) {
                Some(m) => match m.checked_sub(d) {
                    Some(n) => { acc = n; }
                    None => { return Err(IntErrorKind::NegOverflow); }
                },
                None => {
                    return Err(IntErrorKind::NegOverflow);
                }
            }
        } else {
            match acc.checked_mul(10) {
                Some(m) => match m.checked_add(d) {
                    Some(n) => { acc = n; }
                    None => { return Err(IntErrorKind::PosOverflow); }
                },
                None => {
                    return Err(IntErrorKind::PosOverflow);
                }
            }
        }
        i += 1;
    }
    assert(cs@.skip(i as int).len() == 0);
    Ok(acc)
}

/// Parses `cs[start..]` as the digits of a `usize`.
fn accumulate_usize(cs: &[char], start: usize) -> (r: Result<usize, IntErrorKind>)
    requires
        start <= cs@.len(),
    ensures
        r matches Ok(v) ==> accumulate_digits(cs@.skip(start as int), 0, false, 0, usize::MAX as int) == Ok::<int, IntErrorKind>(v as int),
        r matches Err(e) ==> accumulate_digits(cs@.skip(start as int), 0, false, 0, usize::MAX as int) == Err::<int, IntErrorKind>(e),
{
    let mut acc: usize = 0;
    let mut i: usize = start;
    while i < cs.len()
        invariant
            start <= i <= cs@.len(),
            accumulate_digits(cs@.skip(start as int), 0, false, 0, usize::MAX as int)
                == accumulate_digits(cs@.skip(i as int), acc as int, false, 0, usize::MAX as int),
        decreases cs@.len() - i,
    {
        let c = cs[i];
        assert(cs@.skip(i as int)[0] == c);
        assert(cs@.skip(i as int).drop_first() =~= cs@.skip(i + 1));
        if !char_is_ascii_digit(c) {
            return Err(IntErrorKind::InvalidDigit);
        }
        let d: usize = ((c as u32) - ('0' as u32)) as usize;
        match acc.checked_mul(10) {
            Some(m) => match m.checked_add(d) {
                Some(n) => { acc = n; }
                None => { return Err(IntErrorKind::PosOverflow); }
            },
            None => {
                return Err(IntErrorKind::PosOverflow);
            }
        }
        i += 1;
    }
    assert(cs@.skip(i as int).len() == 0);
    Ok(acc)
}

/// `str::parse::<i64>` on the characters `cs`.
pub fn parse_i64_chars(cs: &[char]) -> (r: Result<i64, IntErrorKind>)
    ensures
        r matches Ok(v) ==> parse_i64_spec(cs@) == Ok::<int, IntErrorKind>(v as int),
        r matches Err(e) ==> parse_i64_spec(cs@) == Err::<int, IntErrorKind>(e),
{
    if cs.len() == 0 {
        return Err(IntErrorKind::Empty);
    }
    let first = cs[0];
    if (first == '+' || first == '-') && cs.len() == 1 {
        return Err(IntErrorKind::InvalidDigit);
    }
    assert(cs@.skip(0) =~= cs@);
    assert(cs@.skip(1) =~= cs@.drop_first());
    if first == '+' {
        accumulate_i64(cs, 1, false)
    } else if first == '-' {
        accumulate_i64(cs, 1, true)
    } else {
        accumulate_i64(cs, 0, false)
    }
}

/// `str::parse::<usize>` on the characters `cs`.
pub fn parse_usize_chars(cs: &[char]) -> (r: Result<usize, IntErrorKind>)
    ensures
        r matches Ok(v) ==> parse_usize_spec(cs@) == Ok::<int, IntErrorKind>(v as int),
        r matches Err(e) ==> parse_usize_spec(cs@) == Err::<int, IntErrorKind>(e),
{
    if cs.len() == 0 {
        return Err(IntErrorKind::Empty);
    }
    let first = cs[0];
    if (first == '+' || first == '-') && cs.len() == 1 {
        return Err(IntErrorKind::InvalidDigit);
    }
    assert(cs@.skip(0) =~= cs@);
    assert(cs@.skip(1) =~= cs@.drop_first());
    if first == '+' {
        accumulate_usize(cs, 1)
    } else {
        accumulate_usize(cs, 0)
    }
}

/// `str::parse::<i64>`.
pub fn parse_i64(s: &str) -> (r: Result<i64, IntErrorKind>)
    ensures
        r matches Ok(v) ==> parse_i64_spec(s@) == Ok::<int, IntErrorKind>(v as int),
        r matches Err(e) ==> parse_i64_spec(s@) == Err::<int, IntErrorKind>(e),
{
    let cs = chars_of(s);
    parse_i64_chars(cs.as_slice())
}

/// `str::parse::<usize>`.
pub fn parse_usize(s: &str) -> (r: Result<usize, IntErrorKind>)
    ensures
        r matches Ok(v) ==> parse_usize_spec(s@) == Ok::<int, IntErrorKind>(v as int),
        r matches Err(e) ==> parse_usize_spec(s@) == Err::<int, IntErrorKind>(e),
{
    let cs = chars_of(s);
    parse_usize_chars(cs.as_slice())
}

// ---------------------------------------------------------------------------
// Trimming and case
// ---------------------------------------------------------------------------

/// What `str::trim` leaves: `s` without its leading and trailing white space.
pub open spec fn trim(s: Seq<char>) -> Seq<char>
    decreases s.len(),
{
    if s.len() > 0 && is_whitespace(s[0]) {
        trim(s.drop_first())
    } else if s.len() > 0 && is_whitespace(s.last()) {
        trim(s.drop_last())
    } else {
        s
    }
}

/// `str::trim` on the characters `cs`.
pub fn trim_chars(cs: &[char]) -> (r: Vec<char>)
    ensures
        r@ == trim(cs@),
{
    let mut a: usize = 0;
    let mut b: usize = cs.len();
    assert(cs@.subrange(0, cs@.len() as int) =~= cs@);
    while a < b && char_is_whitespace(cs[a])
        invariant
            a <= b == cs@.len(),
            trim(cs@) == trim(cs@.subrange(a as int, b as int)),
        decreases b - a,
    {
        assert(cs@.subrange(a as int, b as int).drop_first() =~= cs@.subrange(a + 1, b as int));
        a += 1;
    }
    while a < b && char_is_whitespace(cs[b - 1])
        invariant
            a <= b <= cs@.len(),
            trim(cs@) == trim(cs@.subrange(a as int, b as int)),
            a < b ==> !is_whitespace(cs@[a as int]),
        decreases b - a,
    {
        assert(cs@.subrange(a as int, b as int).drop_last() =~= cs@.subrange(a as int, b - 1));
        b -= 1;
    }
    let mut r: Vec<char> = Vec::new();
    let mut i: usize = a;
    while i < b
        invariant
            a <= i <= b <= cs@.len(),
            r@ == cs@.subrange(a as int, i as int),
        decreases b - i,
    {
        r.push(cs[i]);
        i += 1;
        assert(r@ =~= cs@.subrange(a as int, i as int));
    }
    r
}

/// `c` with ASCII upper case letters turned to lower case.
pub open spec fn ascii_lower(c: char) -> u32 {
    if 'A' <= c && c <= 'Z' {
        (c as u32 + 32) as u32
    } else {
        c as u32
    }
}

/// Whether `s` equals the lower case ASCII word `word` once its ASCII upper
/// case letters are lowered.  For words made of ASCII letters this is what
/// `s.to_lowercase() == word` decides: no other character lowers to an ASCII
/// letter.
pub open spec fn eq_ignore_ascii_case(s: Seq<char>, word: Seq<char>) -> bool {
    &&& s.len() == word.len()
    &&& forall|i: int| 0 <= i < s.len() ==> ascii_lower(#[trigger] s[i]) == word[i] as u32
}

pub fn chars_eq_ignore_ascii_case(s: &[char], word: &str) -> (r: bool)
    ensures
        r == eq_ignore_ascii_case(s@, word@),
{
    let w = chars_of(word);
    if s.len() != w.len() {
        return false;
    }
    let mut i: usize = 0;
    while i < s.len()
        invariant
            i <= s@.len() == w@.len(),
            w@ == word@,
            forall|k: int| 0 <= k < i ==> ascii_lower(#[trigger] s@[k]) == w@[k] as u32,
        decreases s@.len() - i,
    {
        let c = s[i];
        let lower: u32 = if 'A' <= c && c <= 'Z' {
            (c as u32) + 32
        } else {
            c as u32
        };
        if lower != (w[i] as u32) {
            return false;
        }
        i += 1;
    }
    true
}

// ---------------------------------------------------------------------------
// Reading back what was written
// ---------------------------------------------------------------------------

/// Accumulating the digits of `a + b` is accumulating those of `a`, then
/// those of `b`.
pub proof fn lemma_accumulate_concat(a: Seq<char>, b: Seq<char>, acc: int, neg: bool, lo: int, hi: int)
    ensures
        accumulate_digits(a + b, acc, neg, lo, hi) == match accumulate_digits(a, acc, neg, lo, hi) {
            Ok(x) => accumulate_digits(b, x, neg, lo, hi),
            Err(e) => Err(e),
        },
    decreases a.len(),
{
    if a.len() == 0 {
        assert(a + b =~= b);
    } else {
        assert((a + b)[0] == a[0]);
        assert((a + b).drop_first() =~= a.drop_first() + b);
        if is_ascii_digit(a[0]) {
            let next = if neg {
                acc * 10 - digit_value(a[0])
            } else {
                acc * 10 + digit_value(a[0])
            };
            lemma_accumulate_concat(a.drop_first(), b, next, neg, lo, hi);
        }
    }
}

/// The digit characters are ASCII digits of the right value.
pub proof fn lemma_digit_char(d: int)
    requires
        0 <= d < 10,
    ensures
        is_ascii_digit(digit_char(d)),
        digit_value(digit_char(d)) == d,
{
}

/// Decimal text is made of ASCII digits, at least one.
pub proof fn lemma_decimal_digits(m: nat)
    ensures
        decimal(m).len() >= 1,
        forall|i: int| 0 <= i < decimal(m).len() ==> is_ascii_digit(#[trigger] decimal(m)[i]),
    decreases m,
{
    if m < 10 {
        lemma_digit_char(m as int);
    } else {
        lemma_decimal_digits(m / 10);
        lemma_digit_char((m % 10) as int);
    }
}

/// Accumulating the decimal digits of `m` gives `m` (or `-m`).
pub proof fn lemma_accumulate_decimal(m: nat, neg: bool, lo: int, hi: int)
    requires
        lo <= 0 <= hi,
        neg ==> lo <= -(m as int),
        !neg ==> m <= hi,
    ensures
        accumulate_digits(decimal(m), 0, neg, lo, hi) == Ok::<int, IntErrorKind>(if neg { -(m as int) } else { m as int }),
    decreases m,
{
    reveal_with_fuel(accumulate_digits, 2);
    if m < 10 {
        lemma_digit_char(m as int);
        let d = decimal(m);
        assert(d.drop_first() =~= Seq::<char>::empty());
    } else {
        let q = m / 10;
        let c = digit_char((m % 10) as int);
        lemma_accumulate_decimal(q, neg, lo, hi);
        lemma_digit_char((m % 10) as int);
        assert(decimal(m) =~= decimal(q) + seq![c]);
        lemma_accumulate_concat(decimal(q), seq![c], 0, neg, lo, hi);
        assert(seq![c].drop_first() =~= Seq::<char>::empty());
    }
}

/// Reading an `i64` back from its text gives the number.
pub proof fn lemma_parse_int_text(n: i64)
    ensures
        parse_i64_spec(int_text(n as int)) == Ok::<int, IntErrorKind>(n as int),
{
    if n >= 0 {
        lemma_decimal_digits(n as nat);
        lemma_accumulate_decimal(n as nat, false, i64::MIN as int, i64::MAX as int);
    } else {
        let m = (-(n as int)) as nat;
        lemma_decimal_digits(m);
        lemma_accumulate_decimal(m, true, i64::MIN as int, i64::MAX as int);
        assert((seq!['-'] + decimal(m)).drop_first() =~= decimal(m));
    }
}

/// The text of a number has no white space at its ends.
pub proof fn lemma_trim_int_text(n: int)
    ensures
        trim(int_text(n)) == int_text(n),
{
    let t = int_text(n);
    let m: nat = if n < 0 { (-n) as nat } else { n as nat };
    lemma_decimal_digits(m);
    if n < 0 {
        assert(t[0] == '-');
        assert(t.last() == decimal(m).last());
    }
}

} // verus!
