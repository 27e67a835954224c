//! The mathematical model of the rendered text.
//!
//! A control sequence is `ESC [ a ; b ; ... ; z m`, every parameter the
//! canonical decimal form of one code. Everything here is ghost code over
//! `Seq<u8>`; the executable renderers are specified against it.
use vstd::prelude::*;

verus! {

/// The escape byte that opens a control sequence.
pub const ESC: u8 = 0x1b;

/// `[`, the second byte of the control sequence introducer.
pub const BRACKET: u8 = 0x5b;

/// `;`, between two parameters.
pub const SEPARATOR: u8 = 0x3b;

/// `m`, the byte that ends a graphics sequence.
pub const TERMINATOR: u8 = 0x6d;

/// `"`, around the diagnostic form.
pub const QUOTE: u8 = 0x22;

/// `\`, which starts the readable spelling of the escape byte.
pub const BACKSLASH: u8 = 0x5c;

/// `0`, the first of the ten ASCII digits.
pub const ZERO: u8 = 0x30;

/// The ASCII digit for `d`, meant for `d < 10`.
pub open spec fn digit(d: nat) -> u8 {
    (ZERO + d) as u8
}

/// Whether `b` is one of the ASCII digits `0` to `9`.
pub open spec fn is_digit(b: u8) -> bool {
    ZERO <= b <= ZERO + 9
}

/// Canonical decimal form of `n`, most significant digit first: no leading
/// zero, and `0` itself is the single digit `0`.
pub open spec fn decimal(n: nat) -> Seq<u8>
    decreases n,
{
    if n < 10 {
        seq![digit(n)]
    } else {
        decimal(n / 10).push(digit(n % 10))
    }
}

/// The number that a sequence of ASCII digits spells, read as decimal.
pub open spec fn decimal_value(digits: Seq<u8>) -> nat
    decreases digits.len(),
{
    if digits.len() == 0 {
        0
    } else {
        (10 * decimal_value(digits.drop_last()) + (digits.last() - ZERO)) as nat
    }
}

/// The parameter list of a sequence: the decimal form of every code, in
/// order, with one separator between neighbours and none at either end.
pub open spec fn parameters(codes: Seq<u8>) -> Seq<u8>
    decreases codes.len(),
{
    if codes.len() == 0 {
        seq![]
    } else if codes.len() == 1 {
        decimal(codes[0] as nat)
    } else {
        parameters(codes.drop_last()) + seq![SEPARATOR] + decimal(codes.last() as nat)
    }
}

/// The text that applies `codes` on a terminal. No codes give no text at
/// all, not the empty-parameter sequence `ESC [ m`.
pub open spec fn escape(codes: Seq<u8>) -> Seq<u8> {
    if codes.len() == 0 {
        seq![]
    } else {
        seq![ESC, BRACKET] + parameters(codes) + seq![TERMINATOR]
    }
}

/// The diagnostic text for `codes`: the escape text as a quoted literal in
/// which the escape byte is spelled `\x1b`. No codes give no text.
pub open spec fn debug_text(codes: Seq<u8>) -> Seq<u8> {
    if codes.len() == 0 {
        seq![]
    } else {
        seq![QUOTE, BACKSLASH, 0x78u8, 0x31u8, 0x62u8, BRACKET] + parameters(codes) + seq![
            TERMINATOR,
            QUOTE,
        ]
    }
}

/// Whether every byte is ASCII.
pub open spec fn is_ascii(bytes: Seq<u8>) -> bool {
    forall|i: int| 0 <= i < bytes.len() ==> #[trigger] bytes[i] < 0x80
}

/// Whether every byte is printable ASCII, from space to `~`.
pub open spec fn is_printable(bytes: Seq<u8>) -> bool {
    forall|i: int| 0 <= i < bytes.len() ==> 0x20 <= #[trigger] bytes[i] <= 0x7e
}

/// Whether every byte is a digit or a separator.
pub open spec fn is_parameter_text(bytes: Seq<u8>) -> bool {
    forall|i: int| 0 <= i < bytes.len() ==> is_digit(#[trigger] bytes[i]) || bytes[i] == SEPARATOR
}

/// The characters that ASCII bytes stand for, one per byte.
pub open spec fn chars_of(bytes: Seq<u8>) -> Seq<char> {
    Seq::new(bytes.len(), |i: int| bytes[i] as char)
}

/// The decimal form of a byte, written out by its number of digits.
pub proof fn lemma_decimal_of_byte(code: u8)
    ensures
        code < 10 ==> decimal(code as nat) == seq![digit(code as nat)],
        10 <= code < 100 ==> decimal(code as nat) == seq![
            digit((code / 10) as nat),
            digit((code % 10) as nat),
        ],
        100 <= code ==> decimal(code as nat) == seq![
            digit((code / 100) as nat),
            digit((code / 10 % 10) as nat),
            digit((code % 10) as nat),
        ],
        1 <= decimal(code as nat).len() <= 3,
        forall|i: int| 0 <= i < decimal(code as nat).len() ==> is_digit(#[trigger] decimal(code as nat)[i]),
{
    reveal_with_fuel(decimal, 3);
    let n = code as nat;
    if code < 10 {
    } else if code < 100 {
        assert(decimal(n) =~= seq![digit(n / 10), digit(n % 10)]);
    } else {
        assert(n / 10 / 10 == n / 100);
        assert(decimal(n) =~= seq![digit(n / 100), digit(n / 10 % 10), digit(n % 10)]);
    }
}

/// A byte's decimal form has no leading zero and spells the byte.
pub proof fn lemma_decimal_canonical(code: u8)
    ensures
        decimal(code as nat)[0] == ZERO ==> code == 0,
        decimal_value(decimal(code as nat)) == code,
{
    lemma_decimal_of_byte(code);
    reveal_with_fuel(decimal_value, 4);
    let d = decimal(code as nat);
    if code < 10 {
        assert(d.drop_last() =~= seq![]);
    } else if code < 100 {
        assert(d.drop_last() =~= seq![d[0]]);
        assert(d.drop_last().drop_last() =~= seq![]);
    } else {
        assert(d.drop_last() =~= seq![d[0], d[1]]);
        assert(d.drop_last().drop_last() =~= seq![d[0]]);
        assert(d.drop_last().drop_last().drop_last() =~= seq![]);
    }
}

/// Two bytes with the same decimal form are the same byte.
pub proof fn lemma_decimal_injective(a: u8, b: u8)
    requires
        decimal(a as nat) == decimal(b as nat),
    ensures
        a == b,
{
    lemma_decimal_canonical(a);
    lemma_decimal_canonical(b);
}

/// The parameter list holds digits and separators only, and is not empty
/// unless there are no codes.
pub proof fn lemma_parameters_shape(codes: Seq<u8>)
    ensures
        is_parameter_text(parameters(codes)),
        codes.len() > 0 ==> parameters(codes).len() >= codes.len(),
        parameters(codes).len() <= 4 * codes.len(),
        codes.len() > 0 ==> parameters(codes).len() + 1 <= 4 * codes.len(),
    decreases codes.len(),
{
    if codes.len() == 0 {
    } else if codes.len() == 1 {
        lemma_decimal_of_byte(codes[0]);
    } else {
        lemma_parameters_shape(codes.drop_last());
        lemma_decimal_of_byte(codes.last());
    }
}

/// The escape text is ASCII, and its length is within the worst case of
/// two bytes for the introducer and four for every code.
pub proof fn lemma_escape_shape(codes: Seq<u8>)
    ensures
        is_ascii(escape(codes)),
        escape(codes).len() <= 2 + 4 * codes.len(),
        codes.len() > 0 ==> escape(codes).len() == parameters(codes).len() + 3,
        codes.len() > 0 ==> escape(codes).len() >= 4,
{
    lemma_parameters_shape(codes);
}

/// The diagnostic text is printable ASCII, eight bytes longer than the
/// parameter list.
pub proof fn lemma_debug_text_shape(codes: Seq<u8>)
    ensures
        is_printable(debug_text(codes)),
        is_ascii(debug_text(codes)),
        codes.len() > 0 ==> debug_text(codes).len() == parameters(codes).len() + 8,
{
    lemma_parameters_shape(codes);
}

/// ASCII bytes are valid UTF-8, and the only string with those bytes has
/// one character per byte.
pub proof fn lemma_ascii_text(bytes: Seq<u8>, chars: Seq<char>)
    requires
        is_ascii(bytes),
    ensures
        vstd::utf8::valid_utf8(bytes),
        vstd::utf8::encode_utf8(chars) == bytes ==> chars == chars_of(bytes),
{
    let model = chars_of(bytes);
    assert(vstd::utf8::is_ascii_chars(model));
    vstd::utf8::is_ascii_chars_encode_utf8(model);
    assert(vstd::utf8::encode_utf8(model) =~= bytes);
    vstd::utf8::encode_utf8_valid_utf8(model);
    if vstd::utf8::encode_utf8(chars) == bytes {
        vstd::utf8::encode_utf8_decode_utf8(chars);
        vstd::utf8::encode_utf8_decode_utf8(model);
    }
}

} // verus!
