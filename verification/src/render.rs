//! The renderers: escape text into a caller's buffer, and the diagnostic
//! text into a string.
use crate::text::{
    chars_of, debug_text, decimal, escape, is_ascii, lemma_ascii_text, lemma_debug_text_shape,
    lemma_decimal_of_byte, lemma_escape_shape, parameters, BACKSLASH, BRACKET, ESC, QUOTE,
    SEPARATOR, TERMINATOR, ZERO,
};
use vstd::prelude::*;
use vstd::slice::slice_subrange;
use vstd::string::StringSliceAdditionalSpecFns;

verus! {

/// Reads bytes as text, by `core::str::from_utf8`.
///
/// Taken on trust from the standard library: the call succeeds exactly on
/// valid UTF-8, and the string it gives is made of the very bytes it was
/// given.
#[verifier::external_body]
fn str_from_utf8<'a>(bytes: &'a [u8]) -> (res: Option<&'a str>)
    ensures
        res is Some <==> vstd::utf8::valid_utf8(bytes@),
        res matches Some(s) ==> s.spec_bytes() == bytes@,
{
    match core::str::from_utf8(bytes) {
        Ok(s) => Some(s),
        Err(_) => None,
    }
}

/// ASCII bytes as text: one character per byte.
fn ascii_str<'a>(bytes: &'a [u8]) -> (s: &'a str)
    requires
        is_ascii(bytes@),
    ensures
        s@ == chars_of(bytes@),
{
    proof {
        lemma_ascii_text(bytes@, Seq::empty());
    }
    let s = str_from_utf8(bytes).unwrap();
    proof {
        lemma_ascii_text(bytes@, s@);
    }
    s
}

/// The byte that follows the code at `index` in a sequence of `count`
/// codes: the terminator after the last one, a separator after any other.
spec fn suffix_at(count: int, index: int) -> u8 {
    if index + 1 == count {
        TERMINATOR
    } else {
        SEPARATOR
    }
}

/// The escape text as it stands once the first `done` codes are written:
/// the introducer, then each of those codes followed by its suffix.
spec fn emitted(codes: Seq<u8>, done: nat) -> Seq<u8>
    decreases done,
{
    if done == 0 {
        seq![ESC, BRACKET]
    } else {
        emitted(codes, (done - 1) as nat) + decimal(codes[done - 1] as nat) + seq![
            suffix_at(codes.len() as int, done - 1),
        ]
    }
}

/// Each step of the writing adds one code and its suffix.
proof fn lemma_emitted_step(codes: Seq<u8>, done: nat)
    requires
        done < codes.len(),
    ensures
        emitted(codes, done + 1) == emitted(codes, done) + decimal(codes[done as int] as nat)
            + seq![suffix_at(codes.len() as int, done as int)],
        emitted(codes, done + 1).len() == emitted(codes, done).len() + decimal(
            codes[done as int] as nat,
        ).len() + 1,
        emitted(codes, done).len() >= 2,
    decreases done,
{
    if done > 0 {
        lemma_emitted_step(codes, (done - 1) as nat);
    }
}

/// The text written so far never shrinks.
proof fn lemma_emitted_grows(codes: Seq<u8>, done: nat, later: nat)
    requires
        done <= later <= codes.len(),
    ensures
        emitted(codes, done).len() <= emitted(codes, later).len(),
    decreases later - done,
{
    if done < later {
        lemma_emitted_step(codes, (later - 1) as nat);
        lemma_emitted_grows(codes, done, (later - 1) as nat);
    }
}

/// After `done` codes, what is written is the introducer, the parameter
/// list of those codes, and the suffix of the last of them.
proof fn lemma_emitted_prefix(codes: Seq<u8>, done: nat)
    requires
        1 <= done <= codes.len(),
    ensures
        emitted(codes, done) == seq![ESC, BRACKET] + parameters(codes.take(done as int)) + seq![
            suffix_at(codes.len() as int, done - 1),
        ],
    decreases done,
{
    let head = seq![ESC, BRACKET];
    let now = codes.take(done as int);
    let last = decimal(codes[done - 1] as nat);
    let tail = seq![suffix_at(codes.len() as int, done - 1)];
    if done == 1 {
        assert(emitted(codes, 0) == head);
        assert(emitted(codes, 1) == emitted(codes, 0) + last + tail);
        assert(now.len() == 1 && now[0] == codes[0]);
    } else {
        let before = codes.take(done - 1);
        lemma_emitted_prefix(codes, (done - 1) as nat);
        assert(now.drop_last() =~= before);
        assert(now.last() == codes[done - 1]);
        assert(parameters(now) == parameters(before) + seq![SEPARATOR] + last);
        assert(emitted(codes, done) =~= head + parameters(now) + tail);
    }
}

/// Once every code is written, what is written is the escape text.
proof fn lemma_emitted_all(codes: Seq<u8>)
    requires
        codes.len() > 0,
    ensures
        emitted(codes, codes.len()) == escape(codes),
{
    lemma_emitted_prefix(codes, codes.len());
    assert(codes.take(codes.len() as int) =~= codes);
}

/// Number of decimal digits of `code`.
fn width(code: u8) -> (n: usize)
    ensures
        n == decimal(code as nat).len(),
        1 <= n <= 3,
{
    proof {
        lemma_decimal_of_byte(code);
    }
    if code >= 100 {
        3
    } else if code >= 10 {
        2
    } else {
        1
    }
}

/// Writes the decimal digits of `code`, then `suffix`, at the start of
/// `buf`, and returns the number of bytes written.
///
/// The hundreds digit is written from 100 on, the tens digit from 10 on,
/// the units digit always: the canonical decimal form, without a leading
/// zero. Returns 0, and writes nothing, when `buf` is too short for the
/// digits and the suffix.
pub fn display_code(code: u8, suffix: u8, buf: &mut [u8]) -> (written: usize)
    ensures
        written == 0 <==> old(buf)@.len() < decimal(code as nat).len() + 1,
        written == 0 ==> final(buf)@ == old(buf)@,
        written != 0 ==> written == decimal(code as nat).len() + 1,
        written != 0 ==> final(buf)@ == decimal(code as nat).push(suffix) + old(buf)@.skip(
            written as int,
        ),
{
    let need: usize = width(code) + 1;
    if buf.len() < need {
        return 0;
    }
    proof {
        lemma_decimal_of_byte(code);
    }
    let mut rest: u8 = code;
    let mut i: usize = 0;
    if code >= 100 {
        buf[i] = ZERO + rest / 100;
        rest = rest % 100;
        i += 1;
    }
    if code >= 10 {
        buf[i] = ZERO + rest / 10;
        rest = rest % 10;
        i += 1;
    }
    buf[i] = ZERO + rest;
    i += 1;
    buf[i] = suffix;
    i += 1;
    proof {
        assert(buf@ =~= decimal(code as nat).push(suffix) + old(buf)@.skip(i as int));
    }
    i
}

/// Whether the escape text for `codes` fits in `capacity` bytes.
fn fits(codes: &[u8], capacity: usize) -> (ok: bool)
    ensures
        ok <==> escape(codes@).len() <= capacity,
{
    let n: usize = codes.len();
    if n == 0 {
        return true;
    }
    proof {
        lemma_escape_shape(codes@);
        lemma_emitted_all(codes@);
    }
    if capacity < 2 {
        return false;
    }
    let mut total: usize = 2;
    let mut i: usize = 0;
    while i < n
        invariant
            n == codes@.len(),
            i <= n,
            total == emitted(codes@, i as nat).len(),
            total <= capacity,
            emitted(codes@, n as nat) == escape(codes@),
        decreases n - i,
    {
        let need: usize = width(codes[i]) + 1;
        proof {
            lemma_emitted_step(codes@, i as nat);
            lemma_emitted_grows(codes@, (i + 1) as nat, n as nat);
        }
        if capacity - total < need {
            return false;
        }
        total += need;
        i += 1;
    }
    true
}

/// Renders `codes` as escape text at the start of `buf` and returns it.
///
/// No codes give the empty text. Returns `None`, and leaves `buf` as it
/// was, when the text is longer than `buf`.
pub fn display<'a>(codes: &[u8], buf: &'a mut [u8]) -> (res: Option<&'a str>)
    ensures
        res is Some <==> escape(codes@).len() <= old(buf)@.len(),
        res matches Some(s) ==> s@ == chars_of(escape(codes@)),
        res is Some ==> final(buf)@ == escape(codes@) + old(buf)@.skip(
            escape(codes@).len() as int,
        ),
        res is None ==> final(buf)@ == old(buf)@,
{
    let ghost start = buf@;
    let n: usize = codes.len();
    let capacity: usize = buf.len();
    if !fits(codes, capacity) {
        return None;
    }
    let mut total: usize = 0;
    if n > 0 {
        proof {
            lemma_escape_shape(codes@);
            lemma_emitted_all(codes@);
        }
        buf[0] = ESC;
        buf[1] = BRACKET;
        total = 2;
        assert(buf@.subrange(0, 2) =~= emitted(codes@, 0));
        assert(buf@.skip(2) =~= start.skip(2));
        let mut i: usize = 0;
        while i < n
            invariant
                n == codes@.len(),
                i <= n,
                buf@.len() == start.len() == capacity,
                total == emitted(codes@, i as nat).len(),
                emitted(codes@, n as nat) == escape(codes@),
                escape(codes@).len() <= capacity,
                total <= capacity,
                buf@.subrange(0, total as int) == emitted(codes@, i as nat),
                buf@.skip(total as int) == start.skip(total as int),
            decreases n - i,
        {
            let suffix: u8 = if i + 1 == n {
                TERMINATOR
            } else {
                SEPARATOR
            };
            proof {
                lemma_emitted_step(codes@, i as nat);
                lemma_emitted_grows(codes@, (i + 1) as nat, n as nat);
            }
            let ghost before = buf@;
            let (_, rest) = buf.split_at_mut(total);
            let written: usize = display_code(codes[i], suffix, rest);
            proof {
                let chunk = decimal(codes@[i as int] as nat).push(suffix);
                assert(suffix == suffix_at(n as int, i as int));
                assert(buf@ =~= before.subrange(0, total as int) + chunk + before.skip(
                    total + written,
                ));
                assert(buf@.subrange(0, total + written) =~= emitted(codes@, (i + 1) as nat));
                assert(buf@.skip(total + written) =~= start.skip(total + written));
            }
            total += written;
            i += 1;
        }
    }
    proof {
        lemma_escape_shape(codes@);
        assert(buf@.subrange(0, total as int) =~= escape(codes@));
        assert(buf@ =~= escape(codes@) + start.skip(total as int));
    }
    let whole: &'a [u8] = buf;
    Some(ascii_str(slice_subrange(whole, 0, total)))
}

/// Renders `codes` as diagnostic text: the escape text in quotes, with the
/// escape byte spelled `\x1b`. No codes give the empty text.
pub fn debug(codes: &[u8]) -> (s: String)
    ensures
        s@ == chars_of(debug_text(codes@)),
{
    let n: usize = codes.len();
    let mut out: Vec<u8> = Vec::new();
    if n > 0 {
        out.push(QUOTE);
        out.push(BACKSLASH);
        out.push(0x78);
        out.push(0x31);
        out.push(0x62);
        out.push(BRACKET);
        let ghost head = out@;
        proof {
            lemma_emitted_all(codes@);
            assert(out@ =~= head + emitted(codes@, 0).skip(2));
        }
        let mut i: usize = 0;
        while i < n
            invariant
                n == codes@.len(),
                i <= n,
                head == seq![QUOTE, BACKSLASH, 0x78u8, 0x31u8, 0x62u8, BRACKET],
                out@ == head + emitted(codes@, i as nat).skip(2),
            decreases n - i,
        {
            let suffix: u8 = if i + 1 == n {
                TERMINATOR
            } else {
                SEPARATOR
            };
            let mut chunk: [u8; 4] = [0u8; 4];
            let written: usize = display_code(codes[i], suffix, &mut chunk);
            let ghost before = out@;
            proof {
                lemma_decimal_of_byte(codes@[i as int]);
            }
            let mut j: usize = 0;
            while j < written
                invariant
                    j <= written <= 4,
                    out@ == before + chunk@.take(j as int),
                decreases written - j,
            {
                out.push(chunk[j]);
                proof {
                    assert(chunk@.take(j + 1) =~= chunk@.take(j as int).push(chunk@[j as int]));
                }
                j += 1;
            }
            proof {
                lemma_emitted_step(codes@, i as nat);
                assert(suffix == suffix_at(n as int, i as int));
                let piece = decimal(codes@[i as int] as nat).push(suffix);
                assert(chunk@.take(written as int) =~= piece);
                assert(out@ =~= head + emitted(codes@, (i + 1) as nat).skip(2));
            }
            i += 1;
        }
        out.push(QUOTE);
        proof {
            assert(out@ =~= debug_text(codes@));
        }
    }
    proof {
        lemma_debug_text_shape(codes@);
        assert(out@ =~= debug_text(codes@));
    }
    ascii_str(out.as_slice()).to_owned()
}

} // verus!
