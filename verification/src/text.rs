//! Text built piece by piece.
use vstd::prelude::*;

verus! {

/// `String::push` appends one character to the end of the string.
pub assume_specification[ String::push ](s: &mut String, ch: char)
    ensures
        final(s)@ == old(s)@.push(ch),
;

/// What a byte string reads as in UTF-8, with replacement characters where it
/// is not valid.
pub uninterp spec fn utf8_lossy(bytes: Seq<u8>) -> Seq<char>;

/// `String::from_utf8_lossy`, as an owned string: valid UTF-8 is decoded as it
/// is, and what is invalid is replaced in a way that depends on the bytes alone.
#[verifier::external_body]
pub(crate) fn lossy_text(bytes: &[u8]) -> (r: String)
    ensures
        r@ == utf8_lossy(bytes@),
        vstd::utf8::valid_utf8(bytes@) ==> r@ == vstd::utf8::decode_utf8(bytes@),
{
    String::from_utf8_lossy(bytes).into_owned()
}

/// A text in quotes, with its special characters escaped.
pub uninterp spec fn quoted_text(s: Seq<char>) -> Seq<char>;

/// `format!` with the `{:?}` of `str`: the text in double quotes, with the escapes
/// that the formatting of `str` for debugging writes, which depend on the text
/// alone.
#[verifier::external_body]
pub(crate) fn debug_text(s: &str) -> (r: String)
    ensures
        r@ == quoted_text(s@),
{
    format!("{s:?}")
}

/// The decimal digit `d`.
pub open spec fn digit(d: nat) -> char {
    (48 + d) as char
}

/// The lower-case hexadecimal digit `d`.
pub open spec fn hex_digit(d: nat) -> char {
    if d < 10 { (48 + d) as char } else { (87 + d) as char }
}

/// `n` in decimal, without leading zeros.
pub open spec fn decimal(n: nat) -> Seq<char>
    decreases n,
{
    if n < 10 { seq![digit(n)] } else { decimal(n / 10).push(digit(n % 10)) }
}

/// `n` in hexadecimal, without leading zeros.
pub open spec fn hexadecimal(n: nat) -> Seq<char>
    decreases n,
{
    if n < 16 { seq![hex_digit(n)] } else { hexadecimal(n / 16).push(hex_digit(n % 16)) }
}

/// `count` times the character `c`.
pub open spec fn fill(c: char, count: nat) -> Seq<char> {
    Seq::new(count, |i: int| c)
}

/// `s` with `c` in front up to the width `w`.
pub open spec fn padded(s: Seq<char>, c: char, w: nat) -> Seq<char> {
    if s.len() >= w { s } else { fill(c, (w - s.len()) as nat) + s }
}

/// `n` in decimal.
pub open spec fn number(n: u64) -> Seq<char> {
    decimal(n as nat)
}

/// A count in decimal.
pub open spec fn count(n: usize) -> Seq<char> {
    decimal(n as nat)
}

/// A number of 16 bits as `0x` and four hexadecimal digits.
pub open spec fn hex16(n: u16) -> Seq<char> {
    "0x"@ + padded(hexadecimal(n as nat), '0', 4)
}

/// A byte as two hexadecimal digits.
pub open spec fn hex8(n: u8) -> Seq<char> {
    padded(hexadecimal(n as nat), '0', 2)
}

fn digit_char(d: u8) -> (r: char)
    requires
        d < 10,
    ensures
        r == digit(d as nat),
{
    (48 + d) as char
}

fn hex_digit_char(d: u8) -> (r: char)
    requires
        d < 16,
    ensures
        r == hex_digit(d as nat),
{
    if d < 10 { (48 + d) as char } else { (87 + d) as char }
}

/// Appends `t`.
pub fn push_text(s: &mut String, t: &str)
    ensures
        final(s)@ == old(s)@ + t@,
{
    s.append(t);
}

/// Appends `n` in decimal.
pub fn push_decimal(s: &mut String, n: u64)
    ensures
        final(s)@ == old(s)@ + decimal(n as nat),
    decreases n,
{
    if n >= 10 {
        push_decimal(s, n / 10);
    }
    s.push(digit_char((n % 10) as u8));
    assert(s@ =~= old(s)@ + decimal(n as nat));
}

/// Appends `n` in hexadecimal.
pub fn push_hexadecimal(s: &mut String, n: u64)
    ensures
        final(s)@ == old(s)@ + hexadecimal(n as nat),
    decreases n,
{
    if n >= 16 {
        push_hexadecimal(s, n / 16);
    }
    s.push(hex_digit_char((n % 16) as u8));
    assert(s@ =~= old(s)@ + hexadecimal(n as nat));
}

/// Digits of `n` in decimal.
fn decimal_len(n: u64) -> (r: u64)
    ensures
        r == decimal(n as nat).len(),
        r <= n / 2 + 1,
    decreases n,
{
    if n < 10 { 1 } else { decimal_len(n / 10) + 1 }
}

/// Digits of `n` in hexadecimal.
fn hexadecimal_len(n: u64) -> (r: u64)
    ensures
        r == hexadecimal(n as nat).len(),
        r <= n / 2 + 1,
    decreases n,
{
    if n < 16 { 1 } else { hexadecimal_len(n / 16) + 1 }
}

/// Appends `c`, `count` times.
pub fn push_fill(s: &mut String, c: char, count: usize)
    ensures
        final(s)@ == old(s)@ + fill(c, count as nat),
{
    let mut i: usize = 0;
    while i < count
        invariant
            i <= count,
            s@ == old(s)@ + fill(c, i as nat),
        decreases count - i,
    {
        s.push(c);
        i += 1;
        assert(s@ =~= old(s)@ + fill(c, i as nat));
    }
    assert(s@ =~= old(s)@ + fill(c, count as nat));
}

/// Appends `n` in decimal, with `c` in front up to the width `w`.
pub fn push_decimal_padded(s: &mut String, n: u64, c: char, w: usize)
    ensures
        final(s)@ == old(s)@ + padded(decimal(n as nat), c, w as nat),
{
    let d: u64 = decimal_len(n);
    if d < w as u64 {
        push_fill(s, c, w - d as usize);
    }
    push_decimal(s, n);
    assert(s@ =~= old(s)@ + padded(decimal(n as nat), c, w as nat));
}

/// Appends `n` in hexadecimal, with zeros in front up to the width `w`.
pub fn push_hexadecimal_padded(s: &mut String, n: u64, w: usize)
    ensures
        final(s)@ == old(s)@ + padded(hexadecimal(n as nat), '0', w as nat),
{
    let d: u64 = hexadecimal_len(n);
    if d < w as u64 {
        push_fill(s, '0', w - d as usize);
    }
    push_hexadecimal(s, n);
    assert(s@ =~= old(s)@ + padded(hexadecimal(n as nat), '0', w as nat));
}

/// Appends a number.
pub fn push_number(s: &mut String, n: u64)
    ensures
        final(s)@ == old(s)@ + number(n),
{
    push_decimal(s, n);
}

/// Appends a count.
pub fn push_count(s: &mut String, n: usize)
    ensures
        final(s)@ == old(s)@ + count(n),
{
    push_decimal(s, n as u64);
}

/// Appends a number of 16 bits as `0x` and four hexadecimal digits.
pub fn push_hex16(s: &mut String, n: u16)
    ensures
        final(s)@ == old(s)@ + hex16(n),
{
    push_text(s, "0x");
    push_hexadecimal_padded(s, n as u64, 4);
    assert(s@ =~= old(s)@ + hex16(n));
}

/// Appends a byte as two hexadecimal digits.
pub fn push_hex8(s: &mut String, n: u8)
    ensures
        final(s)@ == old(s)@ + hex8(n),
{
    push_hexadecimal_padded(s, n as u64, 2);
}

/// Numbers of the same text are the same number.
pub proof fn law_decimal_is_injective(a: nat, b: nat)
    ensures
        decimal(a) == decimal(b) ==> a == b,
    decreases a + b,
{
    if decimal(a) == decimal(b) {
        lemma_decimal_len(a);
        lemma_decimal_len(b);
        assert(digit(a % 10) == decimal(a).last());
        assert(digit(b % 10) == decimal(b).last());
        if a >= 10 && b >= 10 {
            assert(decimal(a / 10) =~= decimal(a).drop_last());
            assert(decimal(b / 10) =~= decimal(b).drop_last());
            law_decimal_is_injective(a / 10, b / 10);
        }
    }
}

proof fn lemma_decimal_len(a: nat)
    ensures
        decimal(a).len() >= 1,
        a >= 10 ==> decimal(a).len() >= 2,
    decreases a,
{
    if a >= 10 {
        lemma_decimal_len(a / 10);
    }
}

} // verus!
