//! Composing a sequence from plain codes and color requests.
use crate::code::Code;
use crate::codes::{BG, FG, PAL, RGB};
use crate::print::{AsCodes, Print};
use vstd::prelude::*;

verus! {

/// What an extended color paints.
#[derive(Copy, Clone, PartialEq, Eq, Structural)]
pub enum Ground {
    /// The text itself.
    Fg,
    /// What lies behind the text.
    Bg,
}

impl Ground {
    /// The selector code of this ground.
    pub open spec fn spec_selector(self) -> u8 {
        match self {
            Ground::Fg => FG,
            Ground::Bg => BG,
        }
    }

    /// The selector code of this ground.
    #[verifier::when_used_as_spec(spec_selector)]
    pub fn selector(self) -> (code: u8)
        ensures
            code == self.spec_selector(),
    {
        match self {
            Ground::Fg => FG,
            Ground::Bg => BG,
        }
    }
}

/// One part of a composed sequence.
#[derive(Copy, Clone, PartialEq, Eq, Structural)]
pub enum Item {
    /// A code as it is, from the catalog or computed.
    Plain(Code),
    /// A color of the 256-color palette, by index.
    Palette(Ground, u8),
    /// A color by red, green and blue.
    Rgb(Ground, u8, u8, u8),
}

/// The codes that one item stands for.
pub open spec fn expansion(item: Item) -> Seq<u8> {
    match item {
        Item::Plain(code) => seq![code.byte],
        Item::Palette(ground, index) => seq![ground.spec_selector(), PAL, index],
        Item::Rgb(ground, red, green, blue) => seq![ground.spec_selector(), RGB, red, green, blue],
    }
}

/// The codes that a list of items stands for: the expansions of the
/// items, one after another in the order of the list.
pub open spec fn expand(items: Seq<Item>) -> Seq<u8>
    decreases items.len(),
{
    if items.len() == 0 {
        seq![]
    } else {
        expand(items.drop_last()) + expansion(items.last())
    }
}

/// A list of one item stands for the codes of that item.
pub proof fn lemma_expand_single(item: Item)
    ensures
        expand(seq![item]) == expansion(item),
{
    reveal_with_fuel(expand, 2);
    let items = seq![item];
    assert(items.drop_last() =~= Seq::<Item>::empty());
    assert(items.last() == item);
    assert(expand(items) =~= expansion(item));
}

/// Two lists of items joined stand for their two expansions joined: a
/// sequence is the concatenation of its parts, in their order.
pub proof fn lemma_expand_concat(first: Seq<Item>, second: Seq<Item>)
    ensures
        expand(first + second) == expand(first) + expand(second),
    decreases second.len(),
{
    if second.len() == 0 {
        assert(first + second =~= first);
    } else {
        lemma_expand_concat(first, second.drop_last());
        assert((first + second).drop_last() =~= first + second.drop_last());
        assert(expand(first + second) =~= expand(first) + expand(second));
    }
}

/// The expansion of the first items of a list is no longer than that of
/// the whole list.
pub proof fn lemma_expand_grows(items: Seq<Item>, count: int)
    requires
        0 <= count <= items.len(),
    ensures
        expand(items.take(count)).len() <= expand(items).len(),
{
    lemma_expand_concat(items.take(count), items.skip(count));
    assert(items.take(count) + items.skip(count) =~= items);
}

/// A list of at most `N` codes, held in place without allocation.
pub struct CodeBuf<const N: usize> {
    bytes: [u8; N],
    len: usize,
}

impl<const N: usize> View for CodeBuf<N> {
    type V = Seq<u8>;

    closed spec fn view(&self) -> Seq<u8> {
        self.bytes@.take(self.len as int)
    }
}

impl<const N: usize> CodeBuf<N> {
    #[verifier::type_invariant]
    spec fn well_formed(&self) -> bool {
        self.len <= N
    }

    /// The empty list.
    pub fn new() -> (out: Self)
        ensures
            out@ == Seq::<u8>::empty(),
    {
        CodeBuf { bytes: [0u8; N], len: 0 }
    }

    /// Number of codes held.
    pub fn len(&self) -> (n: usize)
        ensures
            n == self@.len(),
            n <= N,
    {
        proof {
            use_type_invariant(self);
        }
        self.len
    }

    /// Appends the codes of `item`, all of them or none.
    ///
    /// Returns `false`, and leaves the list as it was, when they would
    /// take it over `N` codes.
    pub fn try_push(&mut self, item: Item) -> (ok: bool)
        ensures
            ok <==> old(self)@.len() + expansion(item).len() <= N,
            ok ==> final(self)@ == old(self)@ + expansion(item),
            !ok ==> final(self)@ == old(self)@,
    {
        proof {
            use_type_invariant(&*self);
        }
        let at: usize = self.len;
        let room: usize = N - at;
        match item {
            Item::Plain(code) => {
                if room < 1 {
                    return false;
                }
                self.bytes[at] = code.byte;
                self.len = at + 1;
            },
            Item::Palette(ground, index) => {
                if room < 3 {
                    return false;
                }
                self.bytes[at] = ground.selector();
                self.bytes[at + 1] = PAL;
                self.bytes[at + 2] = index;
                self.len = at + 3;
            },
            Item::Rgb(ground, red, green, blue) => {
                if room < 5 {
                    return false;
                }
                self.bytes[at] = ground.selector();
                self.bytes[at + 1] = RGB;
                self.bytes[at + 2] = red;
                self.bytes[at + 3] = green;
                self.bytes[at + 4] = blue;
                self.len = at + 5;
            },
        }
        proof {
            assert(self@ =~= old(self)@ + expansion(item));
        }
        true
    }
}

impl<const N: usize> AsCodes for CodeBuf<N> {
    open spec fn codes(&self) -> Seq<u8> {
        self@
    }

    fn as_codes(&self) -> (out: &[u8]) {
        proof {
            use_type_invariant(self);
        }
        vstd::slice::slice_subrange(self.bytes.as_slice(), 0, self.len)
    }
}

/// Composes a sequence of at most `N` codes from `items`, in their order.
///
/// Returns `None` when the items stand for more than `N` codes.
pub fn mode<const N: usize>(items: &[Item]) -> (res: Option<Print<CodeBuf<N>>>)
    ensures
        res is Some <==> expand(items@).len() <= N,
        res matches Some(print) ==> print@ == expand(items@),
{
    let mut buf: CodeBuf<N> = CodeBuf::new();
    let n: usize = items.len();
    let mut i: usize = 0;
    while i < n
        invariant
            n == items@.len(),
            i <= n,
            buf@ == expand(items@.take(i as int)),
        decreases n - i,
    {
        proof {
            assert(items@.take(i + 1).drop_last() =~= items@.take(i as int));
            lemma_expand_grows(items@, i + 1);
        }
        if !buf.try_push(items[i]) {
            return None;
        }
        i += 1;
    }
    proof {
        use_type_invariant(&buf);
        assert(items@.take(n as int) =~= items@);
    }
    Some(Print { codes: buf })
}

} // verus!
