//! Character-level text forms used by identifiers: decimal numbers,
//! hexadecimal byte strings, and splitting a text on a separator.
use vstd::prelude::*;

verus! {

// ---------------------------------------------------------------------------
// Characters
// ---------------------------------------------------------------------------

/// The decimal digit character for `d` (meaningful for `d < 10`).
pub open spec fn digit_char(d: nat) -> char {
    ((48 + d) as u8) as char
}

/// The lowercase hex digit character for `d` (meaningful for `d < 16`).
pub open spec fn hex_char(d: nat) -> char {
    if d < 10 {
        digit_char(d)
    } else {
        ((87 + d) as u8) as char
    }
}

pub open spec fn is_digit(c: char) -> bool {
    '0' <= c <= '9'
}

pub open spec fn digit_value(c: char) -> nat {
    (c as u32 - '0' as u32) as nat
}

pub open spec fn is_hex_digit(c: char) -> bool {
    is_digit(c) || ('a' <= c <= 'f') || ('A' <= c <= 'F')
}

pub open spec fn hex_value(c: char) -> nat {
    if is_digit(c) {
        digit_value(c)
    } else if 'a' <= c <= 'f' {
        (c as u32 - 'a' as u32 + 10) as nat
    } else {
        (c as u32 - 'A' as u32 + 10) as nat
    }
}

// ---------------------------------------------------------------------------
// Decimal numbers
// ---------------------------------------------------------------------------

/// The number that a string of decimal digits denotes, most significant first.
pub open spec fn decimal_value(s: Seq<char>) -> nat
    decreases s.len(),
{
    if s.len() == 0 {
        0
    } else {
        decimal_value(s.drop_last()) * 10 + digit_value(s.last())
    }
}

/// The canonical decimal text of `n`: no sign and no leading zeros.
pub open spec fn decimal_text(n: nat) -> Seq<char>
    decreases n,
{
    if n < 10 {
        seq![digit_char(n)]
    } else {
        decimal_text(n / 10).push(digit_char(n % 10))
    }
}

pub open spec fn all_digits(s: Seq<char>) -> bool {
    forall|i: int| 0 <= i < s.len() ==> is_digit(#[trigger] s[i])
}

/// The digits of an unsigned number's text, after its optional `+` sign.
pub open spec fn unsigned_digits(s: Seq<char>) -> Seq<char> {
    if s.len() > 0 && s[0] == '+' {
        s.drop_first()
    } else {
        s
    }
}

/// `s` is the text of a `u32`: an optional `+`, then one or more decimal
/// digits whose value fits in 32 bits.
pub open spec fn is_u32_text(s: Seq<char>) -> bool {
    let d = unsigned_digits(s);
    &&& d.len() > 0
    &&& all_digits(d)
    &&& decimal_value(d) <= u32::MAX
}

/// The value of a `u32` text.
pub open spec fn u32_text_value(s: Seq<char>) -> nat {
    decimal_value(unsigned_digits(s))
}

#[verifier::external_type_specification]
#[verifier::external_body]
pub struct ExParseIntError(std::num::ParseIntError);

/// Relies on `u32`'s `FromStr` (`str::parse::<u32>`): it accepts exactly an
/// optional `+` followed by decimal digits whose value fits in a `u32`, and
/// returns that value; any other text is an error.
#[verifier::external_body]
pub(crate) fn parse_u32(text: &str) -> (r: Result<u32, std::num::ParseIntError>)
    ensures
        r is Ok <==> is_u32_text(text@),
        r matches Ok(n) ==> n == u32_text_value(text@),
{
    text.parse::<u32>()
}

// ---------------------------------------------------------------------------
// Hexadecimal
// ---------------------------------------------------------------------------

/// Lowercase hex text of `b`: two digits per byte, high nibble first.
pub open spec fn hex_text(b: Seq<u8>) -> Seq<char> {
    Seq::new(
        2 * b.len(),
        |i: int|
            if i % 2 == 0 {
                hex_char((b[i / 2] / 16) as nat)
            } else {
                hex_char((b[i / 2] % 16) as nat)
            },
    )
}

/// `s` is an even number of hex digits, of either case.
pub open spec fn is_hex_text(s: Seq<char>) -> bool {
    &&& s.len() % 2 == 0
    &&& forall|i: int| 0 <= i < s.len() ==> is_hex_digit(#[trigger] s[i])
}

/// The bytes that a hex text denotes, two digits per byte, high nibble first.
pub open spec fn hex_bytes(s: Seq<char>) -> Seq<u8> {
    Seq::new(s.len() / 2, |i: int| (hex_value(s[2 * i]) * 16 + hex_value(s[2 * i + 1])) as u8)
}

/// Relies on `hex::encode`: each byte becomes two lowercase hex digits,
/// high nibble first.
#[verifier::external_body]
pub(crate) fn encode_hex(bytes: &Vec<u8>) -> (r: String)
    ensures
        r@ == hex_text(bytes@),
{
    hex::encode(bytes)
}

#[verifier::external_type_specification]
#[verifier::external_body]
pub struct ExFromHexError(hex::FromHexError);

/// Relies on `hex::decode`: a text of an even number of hex digits (either
/// case) decodes to one byte per pair of digits, high nibble first; an odd
/// length or any other character is an error.
#[verifier::external_body]
pub(crate) fn decode_hex(text: &str) -> (r: Result<Vec<u8>, hex::FromHexError>)
    ensures
        r is Ok <==> is_hex_text(text@),
        r matches Ok(b) ==> b@ == hex_bytes(text@),
{
    hex::decode(text)
}

// ---------------------------------------------------------------------------
// Building and splitting text
// ---------------------------------------------------------------------------

/// Relies on `String::push`: appends one character.
#[verifier::external_body]
pub(crate) fn push_char(s: &mut String, c: char)
    ensures
        final(s)@ == old(s)@.push(c),
{
    s.push(c)
}

/// The characters of `s`, in order.
pub(crate) fn chars_of(s: &str) -> (r: Vec<char>)
    ensures
        r@ == s@,
{
    let mut out: Vec<char> = Vec::new();
    for c in it: s.chars()
        invariant
            out@ == it.seq().take(it.index() as int),
    {
        out.push(c);
    }
    out
}

fn decimal_digit(d: u32) -> (c: char)
    requires
        d < 10,
    ensures
        c == digit_char(d as nat),
{
    ((48 + d) as u8) as char
}

/// Appends the decimal text of `n`.
pub(crate) fn push_decimal(s: &mut String, n: u32)
    ensures
        final(s)@ == old(s)@ + decimal_text(n as nat),
    decreases n,
{
    if n >= 10 {
        push_decimal(s, n / 10);
    }
    push_char(s, decimal_digit(n % 10));
    assert(final(s)@ =~= old(s)@ + decimal_text(n as nat));
}

/// The pieces of `s` between occurrences of `sep`, as `str::split` gives
/// them: one more piece than there are separators, empty ones included.
pub open spec fn split_pieces(s: Seq<char>, sep: char) -> Seq<Seq<char>>
    decreases s.len(),
{
    if s.len() == 0 {
        seq![Seq::empty()]
    } else {
        let p = split_pieces(s.drop_last(), sep);
        if s.last() == sep {
            p.push(Seq::empty())
        } else {
            p.update(p.len() - 1, p.last().push(s.last()))
        }
    }
}

pub open spec fn texts(v: Seq<String>) -> Seq<Seq<char>> {
    v.map_values(|s: String| s@)
}

pub proof fn lemma_split_pieces_nonempty(s: Seq<char>, sep: char)
    ensures
        split_pieces(s, sep).len() >= 1,
    decreases s.len(),
{
    if s.len() > 0 {
        lemma_split_pieces_nonempty(s.drop_last(), sep);
    }
}

/// Splits `chars[start..]` on `sep`, keeping empty pieces.
pub(crate) fn split_chars(chars: &Vec<char>, start: usize, sep: char) -> (r: Vec<String>)
    requires
        start <= chars.len(),
    ensures
        texts(r@) == split_pieces(chars@.subrange(start as int, chars.len() as int), sep),
{
    let mut parts: Vec<String> = Vec::new();
    let mut cur = String::new();
    let mut i = start;
    while i < chars.len()
        invariant
            start <= i <= chars.len(),
            texts(parts@).push(cur@) == split_pieces(chars@.subrange(start as int, i as int), sep),
        decreases chars.len() - i,
    {
        let c = chars[i];
        let ghost before = chars@.subrange(start as int, i as int);
        assert(chars@.subrange(start as int, i + 1).drop_last() =~= before);
        proof {
            lemma_split_pieces_nonempty(before, sep);
        }
        if c == sep {
            parts.push(cur);
            cur = String::new();
            assert(texts(parts@).push(cur@) =~= split_pieces(
                chars@.subrange(start as int, i + 1),
                sep,
            ));
        } else {
            push_char(&mut cur, c);
            assert(texts(parts@).push(cur@) =~= split_pieces(
                chars@.subrange(start as int, i + 1),
                sep,
            ));
        }
        i = i + 1;
    }
    parts.push(cur);
    parts
}

// ---------------------------------------------------------------------------
// Round trips
// ---------------------------------------------------------------------------

/// The canonical decimal text of `n` is a `u32` text of value `n`.
pub proof fn lemma_decimal_round_trip(n: nat)
    ensures
        decimal_text(n).len() > 0,
        all_digits(decimal_text(n)),
        decimal_value(decimal_text(n)) == n,
    decreases n,
{
    let t = decimal_text(n);
    assert(digit_value(digit_char(n % 10)) == n % 10);
    if n >= 10 {
        lemma_decimal_round_trip(n / 10);
        assert(t.drop_last() =~= decimal_text(n / 10));
        assert(decimal_value(t) == (n / 10) * 10 + n % 10);
    } else {
        assert(t.drop_last() =~= Seq::<char>::empty());
        assert(decimal_value(t.drop_last()) == 0);
        assert(decimal_value(t) == n);
    }
    assert forall|i: int| 0 <= i < t.len() implies is_digit(#[trigger] t[i]) by {
        if n >= 10 && i < t.len() - 1 {
            assert(t[i] == decimal_text(n / 10)[i]);
        }
    }
}

pub proof fn lemma_u32_text_round_trip(n: u32)
    ensures
        is_u32_text(decimal_text(n as nat)),
        u32_text_value(decimal_text(n as nat)) == n,
        all_digits(decimal_text(n as nat)),
{
    lemma_decimal_round_trip(n as nat);
    let t = decimal_text(n as nat);
    assert(is_digit(t[0]));
    assert(unsigned_digits(t) == t);
}

pub open spec fn free_of(s: Seq<char>, c: char) -> bool {
    forall|i: int| 0 <= i < s.len() ==> #[trigger] s[i] != c
}

pub proof fn lemma_digits_free_of(s: Seq<char>, c: char)
    requires
        all_digits(s),
        !is_digit(c),
    ensures
        free_of(s, c),
{
    assert forall|i: int| 0 <= i < s.len() implies #[trigger] s[i] != c by {
        assert(is_digit(s[i]));
    }
}

/// Hex text decodes back to the bytes it was made from.
pub proof fn lemma_hex_round_trip(b: Seq<u8>)
    ensures
        is_hex_text(hex_text(b)),
        hex_bytes(hex_text(b)) == b,
        hex_text(b).len() == 2 * b.len(),
        free_of(hex_text(b), '-'),
{
    let t = hex_text(b);
    assert forall|i: int| 0 <= i < t.len() implies is_hex_digit(#[trigger] t[i]) && t[i] != '-' by {
        let x = b[i / 2];
        assert(x / 16 < 16 && x % 16 < 16);
    }
    assert forall|i: int| 0 <= i < b.len() implies #[trigger] hex_bytes(t)[i] == b[i] by {
        let x = b[i];
        assert((2 * i) / 2 == i && (2 * i) % 2 == 0);
        assert((2 * i + 1) / 2 == i && (2 * i + 1) % 2 == 1);
        assert(hex_value(hex_char((x / 16) as nat)) == x / 16);
        assert(hex_value(hex_char((x % 16) as nat)) == x % 16);
        assert((x / 16) * 16 + x % 16 == x);
    }
    assert(hex_bytes(t) =~= b);
}

/// A text without the separator is a single piece.
pub proof fn lemma_split_single(t: Seq<char>, sep: char)
    requires
        free_of(t, sep),
    ensures
        split_pieces(t, sep) == seq![t],
    decreases t.len(),
{
    if t.len() > 0 {
        assert(free_of(t.drop_last(), sep));
        lemma_split_single(t.drop_last(), sep);
        assert(t.drop_last().push(t.last()) =~= t);
        assert(split_pieces(t, sep) =~= seq![t]);
    } else {
        assert(t =~= Seq::<char>::empty());
    }
}

/// A separator followed by a text without separators adds one last piece.
pub proof fn lemma_split_join(s: Seq<char>, t: Seq<char>, sep: char)
    requires
        free_of(t, sep),
    ensures
        split_pieces(s + seq![sep] + t, sep) == split_pieces(s, sep).push(t),
    decreases t.len(),
{
    let x = s + seq![sep] + t;
    if t.len() == 0 {
        assert(x.drop_last() =~= s);
        assert(t =~= Seq::<char>::empty());
    } else {
        let t0 = t.drop_last();
        assert(free_of(t0, sep));
        lemma_split_join(s, t0, sep);
        assert(x.drop_last() =~= s + seq![sep] + t0);
        assert(t0.push(t.last()) =~= t);
        assert(split_pieces(x, sep) =~= split_pieces(s, sep).push(t));
    }
}

} // verus!
