//! What holds of the rendered text, for every code and every sequence.
use crate::print::TEXT_CAPACITY;
use crate::text::{
    debug_text, decimal, decimal_value, escape, is_digit, is_printable, lemma_debug_text_shape,
    lemma_decimal_canonical, lemma_decimal_injective, lemma_decimal_of_byte, lemma_escape_shape,
    lemma_parameters_shape, parameters, BACKSLASH, BRACKET, ESC, QUOTE, SEPARATOR, TERMINATOR,
    ZERO,
};
use vstd::prelude::*;

verus! {

/// A single code renders as the escape byte, `[`, the decimal form of its
/// number, and `m`; the decimal form has one to three digits, no leading
/// zero, and spells the number.
pub proof fn lemma_single_code(code: u8)
    ensures
        escape(seq![code]) == seq![ESC, BRACKET] + decimal(code as nat) + seq![TERMINATOR],
        1 <= decimal(code as nat).len() <= 3,
        forall|i: int|
            0 <= i < decimal(code as nat).len() ==> is_digit(#[trigger] decimal(code as nat)[i]),
        code != 0 ==> decimal(code as nat)[0] != ZERO,
        decimal_value(decimal(code as nat)) == code,
{
    lemma_decimal_of_byte(code);
    lemma_decimal_canonical(code);
}

/// The escape text takes at most two bytes and four more for every code:
/// six bytes hold any single code, and a buffer of [`TEXT_CAPACITY`] bytes
/// holds any sequence of up to fifteen.
pub proof fn lemma_worst_case_size(codes: Seq<u8>)
    ensures
        escape(codes).len() <= 2 + 4 * codes.len(),
        codes.len() == 1 ==> 4 <= escape(codes).len() <= 6,
        codes.len() <= 15 ==> escape(codes).len() <= TEXT_CAPACITY,
{
    lemma_escape_shape(codes);
}

/// The diagnostic text of a single code is its escape text in quotes,
/// with `\x1b` spelled out where the escape byte stands.
pub proof fn lemma_single_code_debug(code: u8)
    ensures
        debug_text(seq![code]) == seq![QUOTE, BACKSLASH, 0x78u8, 0x31u8, 0x62u8, BRACKET]
            + decimal(code as nat) + seq![TERMINATOR, QUOTE],
{
}

/// The diagnostic text of a sequence is its escape text between quotes
/// with the escape byte replaced by the four characters `\x1b`; it is
/// printable throughout, so it is never the escape text itself.
pub proof fn lemma_debug_quotes_escape(codes: Seq<u8>)
    requires
        codes.len() > 0,
    ensures
        debug_text(codes) == seq![QUOTE, BACKSLASH, 0x78u8, 0x31u8, 0x62u8] + escape(codes).skip(1)
            + seq![QUOTE],
        is_printable(debug_text(codes)),
        debug_text(codes) != escape(codes),
{
    lemma_debug_text_shape(codes);
    assert(debug_text(codes) =~= seq![QUOTE, BACKSLASH, 0x78u8, 0x31u8, 0x62u8] + escape(
        codes,
    ).skip(1) + seq![QUOTE]);
    assert(debug_text(codes)[0] == QUOTE);
    assert(escape(codes)[0] == ESC);
}

/// The parameter list of a sequence, split before the digits of its last
/// code: what stands there is empty for a single code, and otherwise the
/// parameter list of the codes before with a separator behind it.
spec fn before_last(codes: Seq<u8>) -> Seq<u8> {
    if codes.len() == 1 {
        seq![]
    } else {
        parameters(codes.drop_last()) + seq![SEPARATOR]
    }
}

proof fn lemma_split_last(codes: Seq<u8>)
    requires
        codes.len() > 0,
    ensures
        parameters(codes) == before_last(codes) + decimal(codes.last() as nat),
        codes.len() == 1 <==> before_last(codes).len() == 0,
        codes.len() > 1 ==> before_last(codes).last() == SEPARATOR,
{
    if codes.len() == 1 {
        assert(parameters(codes) =~= before_last(codes) + decimal(codes.last() as nat));
    }
}

/// When two parameter lists are equal, the digits of their last codes
/// have the same length: a longer one would hold a separator.
proof fn lemma_last_digits_align(a: Seq<u8>, b: Seq<u8>)
    requires
        a.len() > 0,
        b.len() > 0,
        parameters(a) == parameters(b),
    ensures
        decimal(a.last() as nat).len() <= decimal(b.last() as nat).len(),
{
    lemma_split_last(a);
    lemma_split_last(b);
    lemma_decimal_of_byte(a.last());
    lemma_decimal_of_byte(b.last());
    let da = decimal(a.last() as nat);
    let db = decimal(b.last() as nat);
    let pa = before_last(a);
    let pb = before_last(b);
    if da.len() > db.len() {
        // The separator that ends `pb` would stand among the digits of `da`.
        let at = pb.len() - 1;
        assert(pa + da == pb + db);
        assert((pa + da).len() == pa.len() + da.len());
        assert((pb + db).len() == pb.len() + db.len());
        assert((pb + db)[at] == SEPARATOR);
        assert((pa + da)[at] == da[at - pa.len()]);
        assert(is_digit(da[at - pa.len()]));
    }
}

/// Two sequences with the same parameter list are the same sequence.
pub proof fn lemma_parameters_injective(a: Seq<u8>, b: Seq<u8>)
    requires
        parameters(a) == parameters(b),
    ensures
        a == b,
    decreases a.len(),
{
    lemma_parameters_shape(a);
    lemma_parameters_shape(b);
    if a.len() == 0 || b.len() == 0 {
        assert(a =~= b);
    } else {
        lemma_split_last(a);
        lemma_split_last(b);
        lemma_last_digits_align(a, b);
        lemma_last_digits_align(b, a);
        let da = decimal(a.last() as nat);
        let db = decimal(b.last() as nat);
        let pa = before_last(a);
        let pb = before_last(b);
        let whole = parameters(a);
        assert(pa =~= whole.subrange(0, pa.len() as int));
        assert(pb =~= whole.subrange(0, pb.len() as int));
        assert(da =~= whole.subrange(pa.len() as int, whole.len() as int));
        assert(db =~= whole.subrange(pb.len() as int, whole.len() as int));
        lemma_decimal_injective(a.last(), b.last());
        if a.len() > 1 {
            let ra = parameters(a.drop_last());
            let rb = parameters(b.drop_last());
            assert(ra =~= pa.drop_last());
            assert(rb =~= pb.drop_last());
            lemma_parameters_injective(a.drop_last(), b.drop_last());
        }
        assert(a =~= a.drop_last().push(a.last()));
        assert(b =~= b.drop_last().push(b.last()));
    }
}

/// Two sequences with the same escape text are the same sequence: the
/// text tells every code and its place.
pub proof fn lemma_escape_injective(a: Seq<u8>, b: Seq<u8>)
    requires
        escape(a) == escape(b),
    ensures
        a == b,
{
    if a.len() == 0 || b.len() == 0 {
        assert(a =~= b);
    } else {
        let whole = escape(a);
        assert(parameters(a) =~= whole.subrange(2, whole.len() - 1));
        assert(parameters(b) =~= whole.subrange(2, whole.len() - 1));
        lemma_parameters_injective(a, b);
    }
}

/// Two sequences with the same diagnostic text are the same sequence.
pub proof fn lemma_debug_text_injective(a: Seq<u8>, b: Seq<u8>)
    requires
        debug_text(a) == debug_text(b),
    ensures
        a == b,
{
    if a.len() == 0 || b.len() == 0 {
        assert(a =~= b);
    } else {
        let whole = debug_text(a);
        assert(parameters(a) =~= whole.subrange(6, whole.len() - 2));
        assert(parameters(b) =~= whole.subrange(6, whole.len() - 2));
        lemma_parameters_injective(a, b);
    }
}

/// Rendering keeps the order of the codes: two different orderings of
/// the same codes give different escape texts and different diagnostic
/// texts.
pub proof fn lemma_order_matters(a: Seq<u8>, b: Seq<u8>)
    requires
        a.to_multiset() == b.to_multiset(),
        a != b,
    ensures
        escape(a) != escape(b),
        debug_text(a) != debug_text(b),
{
    if escape(a) == escape(b) {
        lemma_escape_injective(a, b);
    }
    if debug_text(a) == debug_text(b) {
        lemma_debug_text_injective(a, b);
    }
}

} // verus!
