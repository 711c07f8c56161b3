//! Text helpers shared by the grammar, the graph and the layout pass.

use vstd::prelude::*;
use vstd::string::*;
use vstd::utf8::*;

verus! {

/// The error of `String::from_utf8`, carried through but never inspected.
#[verifier::external_type_specification]
#[verifier::external_body]
pub struct ExFromUtf8Error(std::string::FromUtf8Error);

/// `String::from_utf8` succeeds exactly on well-formed UTF-8, and the string it
/// returns holds the characters that the bytes encode.
pub assume_specification[ String::from_utf8 ](vec: Vec<u8>) -> (r: Result<
    String,
    std::string::FromUtf8Error,
>)
    ensures
        r is Ok <==> valid_utf8(vec@),
        r matches Ok(s) ==> s@ == decode_utf8(vec@),
;

/// `pom::char_class::digit` accepts the ASCII decimal digits and nothing else.
pub assume_specification[ pom::char_class::digit ](term: u8) -> (r: bool)
    ensures
        r == (0x30 <= term <= 0x39),
;

/// `pom::char_class::alphanum` accepts the ASCII letters and decimal digits and
/// nothing else.
pub assume_specification[ pom::char_class::alphanum ](term: u8) -> (r: bool)
    ensures
        r == ((0x30 <= term <= 0x39) || (0x41 <= term <= 0x5a) || (0x61 <= term <= 0x7a)),
;

/// `pom::char_class::hex_digit` accepts `0-9`, `A-F` and `a-f` and nothing else.
pub assume_specification[ pom::char_class::hex_digit ](term: u8) -> (r: bool)
    ensures
        r == ((0x30 <= term <= 0x39) || (0x41 <= term <= 0x46) || (0x61 <= term <= 0x66)),
;

/// Whether `c` is an ASCII decimal digit.
pub open spec fn is_digit(c: char) -> bool {
    '0' <= c <= '9'
}

/// Whether `c` is an ASCII letter or decimal digit.
pub open spec fn is_alphanum(c: char) -> bool {
    ('0' <= c <= '9') || ('A' <= c <= 'Z') || ('a' <= c <= 'z')
}

/// Whether `c` is a hexadecimal digit of either case.
pub open spec fn is_hex_digit(c: char) -> bool {
    ('0' <= c <= '9') || ('A' <= c <= 'F') || ('a' <= c <= 'f')
}

/// The value of a hexadecimal digit; 0 for any other character.
pub open spec fn hex_digit_value(c: char) -> int {
    if '0' <= c <= '9' {
        c as int - '0' as int
    } else if 'A' <= c <= 'F' {
        c as int - 'A' as int + 10
    } else if 'a' <= c <= 'f' {
        c as int - 'a' as int + 10
    } else {
        0
    }
}

/// The number that a run of hexadecimal digits writes, most significant first.
pub open spec fn hex_value(s: Seq<char>) -> int
    decreases s.len(),
{
    if s.len() == 0 {
        0
    } else {
        16 * hex_value(s.drop_last()) + hex_digit_value(s.last())
    }
}

/// The digits of a base-16 number text: the text itself, less one leading `+`.
pub open spec fn radix16_digits(s: Seq<char>) -> Seq<char> {
    if s.len() > 0 && s[0] == '+' {
        s.drop_first()
    } else {
        s
    }
}

/// Whether `s` writes a 32-bit number in base 16: an optional `+`, then at least
/// one hexadecimal digit, the whole not above `u32::MAX`.
pub open spec fn is_radix16_u32(s: Seq<char>) -> bool {
    let d = radix16_digits(s);
    &&& d.len() > 0
    &&& forall|i: int| 0 <= i < d.len() ==> is_hex_digit(#[trigger] d[i])
    &&& hex_value(d) <= u32::MAX
}

/// The three low bytes of `bits`, most significant first.
pub open spec fn rgb_of_bits(bits: int) -> (u8, u8, u8) {
    (((bits / 0x10000) % 0x100) as u8, ((bits / 0x100) % 0x100) as u8, (bits % 0x100) as u8)
}

pub fn char_is_digit(c: char) -> (r: bool)
    ensures
        r == is_digit(c),
{
    let n: u32 = c as u32;
    n < 128 && pom::char_class::digit(n as u8)
}

pub fn char_is_alphanum(c: char) -> (r: bool)
    ensures
        r == is_alphanum(c),
{
    let n: u32 = c as u32;
    n < 128 && pom::char_class::alphanum(n as u8)
}

pub fn char_is_hex_digit(c: char) -> (r: bool)
    ensures
        r == is_hex_digit(c),
{
    let n: u32 = c as u32;
    n < 128 && pom::char_class::hex_digit(n as u8)
}

/// The value of the hexadecimal digit `c`.
pub fn hex_digit_of(c: char) -> (v: u32)
    requires
        is_hex_digit(c),
    ensures
        v == hex_digit_value(c),
        v < 16,
{
    let n: u32 = c as u32;
    if n <= 0x39 {
        n - 0x30
    } else if n <= 0x46 {
        n - 0x41 + 10
    } else {
        n - 0x61 + 10
    }
}

/// The characters of `s`, in order.
pub fn chars_of(s: &str) -> (v: Vec<char>)
    ensures
        v@ == s@,
{
    let mut v: Vec<char> = Vec::new();
    for c in it: s.chars()
        invariant
            v@ == it.seq().take(it.index() as int),
            it.seq() == s@,
    {
        v.push(c);
    }
    v
}

/// Two texts are equal when they hold the same characters.
pub fn str_eq(a: &str, b: &str) -> (r: bool)
    ensures
        r == (a@ == b@),
{
    let x = a.as_bytes();
    let y = b.as_bytes();
    proof {
        encode_utf8_decode_utf8(a@);
        encode_utf8_decode_utf8(b@);
    }
    if x.len() != y.len() {
        return false;
    }
    let mut i: usize = 0;
    while i < x.len()
        invariant
            i <= x.len(),
            x.len() == y.len(),
            forall|j: int| 0 <= j < i ==> x@[j] == y@[j],
            x@ == encode_utf8(a@),
            y@ == encode_utf8(b@),
            decode_utf8(encode_utf8(a@)) == a@,
            decode_utf8(encode_utf8(b@)) == b@,
        decreases x.len() - i,
    {
        if x[i] != y[i] {
            return false;
        }
        i += 1;
    }
    assert(x@ =~= y@);
    true
}

/// The text that `bytes` encode.
pub fn assume_string(bytes: Vec<u8>) -> (s: String)
    requires
        valid_utf8(bytes@),
    ensures
        s@ == decode_utf8(bytes@),
{
    match String::from_utf8(bytes) {
        Ok(s) => s,
        Err(_) => {
            proof {
                assert(false);
            }
            String::new()
        },
    }
}

/// Reads `s` as a base-16 number, if it writes one that fits 32 bits.
pub fn parse_radix16(s: &str) -> (r: Option<u32>)
    ensures
        r is Some <==> is_radix16_u32(s@),
        r matches Some(v) ==> v == hex_value(radix16_digits(s@)),
{
    let cs = chars_of(s);
    let start: usize = if cs.len() > 0 && cs[0] == '+' {
        1
    } else {
        0
    };
    let ghost d = radix16_digits(s@);
    assert(d =~= cs@.subrange(start as int, cs@.len() as int));
    if start == cs.len() {
        return None;
    }
    let mut acc: u32 = 0;
    let mut i: usize = start;
    while i < cs.len()
        invariant
            start <= i <= cs.len(),
            d == cs@.subrange(start as int, cs@.len() as int),
            d == radix16_digits(s@),
            forall|j: int| 0 <= j < i - start ==> is_hex_digit(#[trigger] d[j]),
            acc == hex_value(d.take(i - start)),
        decreases cs.len() - i,
    {
        let c = cs[i];
        assert(c == d[i - start]);
        if !char_is_hex_digit(c) {
            assert(!is_hex_digit(d[i - start]));
            return None;
        }
        let v = hex_digit_of(c);
        proof {
            let t = d.take(i - start + 1);
            assert(t.drop_last() =~= d.take(i - start));
            assert(t.last() == c);
            assert(hex_value(t) == 16 * acc + v);
            lemma_hex_value_monotone(t, d);
        }
        if acc > (u32::MAX - v) / 16 {
            assert(hex_value(d) > u32::MAX);
            return None;
        }
        acc = acc * 16 + v;
        i += 1;
    }
    assert(d.take(i - start) =~= d);
    Some(acc)
}

/// A prefix of a digit run never writes a larger number than the run.
pub proof fn lemma_hex_value_monotone(t: Seq<char>, d: Seq<char>)
    requires
        t.len() <= d.len(),
        t =~= d.take(t.len() as int),
    ensures
        0 <= hex_value(t) <= hex_value(d),
    decreases d.len(),
{
    lemma_hex_value_nonneg(t);
    if t.len() < d.len() {
        assert(t =~= d.drop_last().take(t.len() as int));
        lemma_hex_value_monotone(t, d.drop_last());
        lemma_hex_value_nonneg(d.drop_last());
    } else {
        assert(t =~= d);
    }
}

pub proof fn lemma_hex_value_nonneg(s: Seq<char>)
    ensures
        0 <= hex_value(s),
    decreases s.len(),
{
    if s.len() > 0 {
        lemma_hex_value_nonneg(s.drop_last());
    }
}

/// The colour that a base-16 number text writes: its three low bytes. The text
/// must write a 32-bit number.
pub fn parse_rgb(s: &str) -> (rgb: (u8, u8, u8))
    requires
        is_radix16_u32(s@),
    ensures
        rgb == rgb_of_bits(hex_value(radix16_digits(s@))),
{
    match parse_radix16(s) {
        Some(bits) => rgb_from_bits(bits),
        None => (0, 0, 0),
    }
}

/// The colour that `s` writes, or `None` where `s` writes no 32-bit number in
/// base 16.
pub fn try_parse_rgb(s: &str) -> (r: Option<(u8, u8, u8)>)
    ensures
        r is Some <==> is_radix16_u32(s@),
        r matches Some(rgb) ==> rgb == rgb_of_bits(hex_value(radix16_digits(s@))),
{
    match parse_radix16(s) {
        Some(bits) => Some(rgb_from_bits(bits)),
        None => None,
    }
}

/// `String::push` appends the character to the end of the text.
#[verifier::external_body]
pub(crate) fn push_char(s: &mut String, c: char)
    ensures
        final(s)@ == old(s)@.push(c),
{
    s.push(c);
}

/// `s` without its last character; `s` itself where it is empty.
pub fn without_last(s: &str) -> (r: String)
    ensures
        r@ == if s@.len() > 0 {
            s@.drop_last()
        } else {
            s@
        },
{
    let n = s.unicode_len();
    if n == 0 {
        s.to_owned()
    } else {
        let r = s.substring_char(0, n - 1).to_owned();
        assert(r@ =~= s@.drop_last());
        r
    }
}

/// `a` followed by `b`.
pub fn joined(a: &str, b: &str) -> (r: String)
    ensures
        r@ == a@ + b@,
{
    let mut r = a.to_owned();
    r.append(b);
    r
}

/// The character that writes the digit `d` in base 10 or, in upper case, 16.
pub open spec fn digit_char(d: int) -> char {
    if d == 0 {
        '0'
    } else if d == 1 {
        '1'
    } else if d == 2 {
        '2'
    } else if d == 3 {
        '3'
    } else if d == 4 {
        '4'
    } else if d == 5 {
        '5'
    } else if d == 6 {
        '6'
    } else if d == 7 {
        '7'
    } else if d == 8 {
        '8'
    } else if d == 9 {
        '9'
    } else if d == 10 {
        'A'
    } else if d == 11 {
        'B'
    } else if d == 12 {
        'C'
    } else if d == 13 {
        'D'
    } else if d == 14 {
        'E'
    } else {
        'F'
    }
}

/// `n` written in base 10, without leading zeros.
pub open spec fn decimal_text(n: nat) -> Seq<char>
    decreases n,
{
    if n < 10 {
        seq![digit_char(n as int)]
    } else {
        decimal_text(n / 10).push(digit_char((n % 10) as int))
    }
}

/// `v` written as two upper-case digits of base 16.
pub open spec fn hex_upper_text(v: u8) -> Seq<char> {
    seq![digit_char(v as int / 16), digit_char(v as int % 16)]
}

/// The colour `(r, g, b)` as a field holds it: `#`, then two upper-case
/// digits of base 16 for each part.
pub open spec fn rgb_text(rgb: (u8, u8, u8)) -> Seq<char> {
    seq!['#'] + hex_upper_text(rgb.0) + hex_upper_text(rgb.1) + hex_upper_text(rgb.2)
}

/// A digit of base 16 is a hexadecimal digit of its own value.
pub proof fn lemma_digit_char(d: int)
    requires
        0 <= d < 16,
    ensures
        is_hex_digit(digit_char(d)),
        hex_digit_value(digit_char(d)) == d,
{
}

/// The text of a colour has seven characters, `#` first, and what follows
/// the `#` reads back as the colour.
pub proof fn lemma_rgb_text_reads_back(rgb: (u8, u8, u8))
    ensures
        rgb_text(rgb).len() == 7,
        rgb_text(rgb)[0] == '#',
        is_radix16_u32(rgb_text(rgb).skip(1)),
        rgb_of_bits(hex_value(radix16_digits(rgb_text(rgb).skip(1)))) == rgb,
{
    let t = rgb_text(rgb).skip(1);
    let r = rgb.0 as int;
    let g = rgb.1 as int;
    let b = rgb.2 as int;
    lemma_digit_char(r / 16);
    lemma_digit_char(r % 16);
    lemma_digit_char(g / 16);
    lemma_digit_char(g % 16);
    lemma_digit_char(b / 16);
    lemma_digit_char(b % 16);
    assert(t =~= seq![
        digit_char(r / 16),
        digit_char(r % 16),
        digit_char(g / 16),
        digit_char(g % 16),
        digit_char(b / 16),
        digit_char(b % 16),
    ]);
    assert(t[0] != '+');
    assert(radix16_digits(t) == t);
    let t5 = t.drop_last();
    let t4 = t5.drop_last();
    let t3 = t4.drop_last();
    let t2 = t3.drop_last();
    let t1 = t2.drop_last();
    let t0 = t1.drop_last();
    assert(t0.len() == 0);
    assert(hex_value(t0) == 0);
    assert(hex_value(t1) == r / 16);
    assert(hex_value(t2) == r);
    assert(hex_value(t3) == 16 * r + g / 16);
    assert(hex_value(t4) == 256 * r + g);
    assert(hex_value(t5) == 16 * (256 * r + g) + b / 16);
    assert(hex_value(t) == 65536 * r + 256 * g + b);
}

/// The one-character text of the digit `d`.
pub fn digit_str(d: usize) -> (s: &'static str)
    requires
        d < 16,
    ensures
        s@ == seq![digit_char(d as int)],
{
    proof {
        reveal_strlit("0");
        reveal_strlit("1");
        reveal_strlit("2");
        reveal_strlit("3");
        reveal_strlit("4");
        reveal_strlit("5");
        reveal_strlit("6");
        reveal_strlit("7");
        reveal_strlit("8");
        reveal_strlit("9");
        reveal_strlit("A");
        reveal_strlit("B");
        reveal_strlit("C");
        reveal_strlit("D");
        reveal_strlit("E");
        reveal_strlit("F");
    }
    let s = if d == 0 {
        "0"
    } else if d == 1 {
        "1"
    } else if d == 2 {
        "2"
    } else if d == 3 {
        "3"
    } else if d == 4 {
        "4"
    } else if d == 5 {
        "5"
    } else if d == 6 {
        "6"
    } else if d == 7 {
        "7"
    } else if d == 8 {
        "8"
    } else if d == 9 {
        "9"
    } else if d == 10 {
        "A"
    } else if d == 11 {
        "B"
    } else if d == 12 {
        "C"
    } else if d == 13 {
        "D"
    } else if d == 14 {
        "E"
    } else {
        "F"
    };
    assert(s@ =~= seq![digit_char(d as int)]);
    s
}

/// `n` written in base 10.
pub fn decimal_string(n: usize) -> (s: String)
    ensures
        s@ == decimal_text(n as nat),
    decreases n,
{
    if n < 10 {
        digit_str(n).to_owned()
    } else {
        let mut s = decimal_string(n / 10);
        s.append(digit_str(n % 10));
        assert(s@ =~= decimal_text(n as nat));
        s
    }
}

/// The colour `rgb` as a field holds it.
pub fn rgb_string(rgb: (u8, u8, u8)) -> (s: String)
    ensures
        s@ == rgb_text(rgb),
{
    proof {
        reveal_strlit("#");
    }
    let mut s = "#".to_owned();
    append_hex_upper(&mut s, rgb.0);
    append_hex_upper(&mut s, rgb.1);
    append_hex_upper(&mut s, rgb.2);
    assert(s@ =~= rgb_text(rgb));
    s
}

fn append_hex_upper(s: &mut String, v: u8)
    ensures
        final(s)@ == old(s)@ + hex_upper_text(v),
{
    s.append(digit_str((v / 16) as usize));
    s.append(digit_str((v % 16) as usize));
    assert(final(s)@ =~= old(s)@ + hex_upper_text(v));
}

fn rgb_from_bits(bits: u32) -> (rgb: (u8, u8, u8))
    ensures
        rgb == rgb_of_bits(bits as int),
{
    let r: u8 = ((bits / 0x10000) % 0x100) as u8;
    let g: u8 = ((bits / 0x100) % 0x100) as u8;
    let b: u8 = (bits % 0x100) as u8;
    (r, g, b)
}

} // verus!
