//! Lists as JSON text: values that show themselves, one after another.

use crate::text::{comma_joined, decimal, push_decimal};
use vstd::prelude::*;
use vstd::string::*;

verus! {

/// A value with a JSON text, given what the text refers to.
pub trait Shown<C> {
    /// Its text.
    spec fn shown(&self, c: C) -> Seq<char>;

    /// It has one.
    spec fn showable(&self, c: C) -> bool;

    /// Appends the text.
    fn show(&self, c: &C, out: &mut String)
        requires
            self.showable(*c),
        ensures
            final(out)@ == old(out)@ + self.shown(*c),
    ;
}

pub open spec fn texts_of<C, T: Shown<C>>(s: Seq<T>, c: C) -> Seq<Seq<char>> {
    Seq::new(s.len(), |i: int| s[i].shown(c))
}

/// The items between brackets, separated by commas.
pub open spec fn listed(parts: Seq<Seq<char>>) -> Seq<char> {
    seq!['['] + comma_joined(parts) + seq![']']
}

/// One more item behind a comma, or the first.
pub proof fn lemma_joined_push(parts: Seq<Seq<char>>, p: Seq<char>)
    ensures
        comma_joined(parts.push(p)) == if parts.len() == 0 {
            p
        } else {
            comma_joined(parts) + seq![','] + p
        },
{
    let all = parts.push(p);
    assert(all.drop_last() =~= parts);
}

/// Appends the items between brackets.
pub fn push_list<C, T: Shown<C>>(items: &Vec<T>, c: &C, out: &mut String)
    requires
        forall|i: int| 0 <= i < items@.len() ==> (#[trigger] items@[i]).showable(*c),
    ensures
        final(out)@ == old(out)@ + listed(texts_of(items@, *c)),
{
    let ghost base = out@ + seq!['['];
    let ghost want = texts_of(items@, *c);
    out.push('[');
    let mut i: usize = 0;
    assert(want.take(0) =~= Seq::<Seq<char>>::empty());
    assert(out@ =~= base + comma_joined(want.take(0)));
    while i < items.len()
        invariant
            i <= items@.len(),
            forall|k: int| 0 <= k < items@.len() ==> (#[trigger] items@[k]).showable(*c),
            want == texts_of(items@, *c),
            out@ == base + comma_joined(want.take(i as int)),
        decreases items.len() - i,
    {
        proof {
            lemma_joined_push(want.take(i as int), want[i as int]);
            assert(want.take(i as int + 1) =~= want.take(i as int).push(want[i as int]));
        }
        if i > 0 {
            out.push(',');
        }
        items[i].show(c, out);
        assert(out@ =~= base + comma_joined(want.take(i as int + 1)));
        i = i + 1;
    }
    assert(want.take(i as int) =~= want);
    out.push(']');
    assert(out@ =~= old(out)@ + listed(want));
}

/// A tile as `[x,y]`.
impl Shown<()> for (u8, u8) {
    open spec fn shown(&self, c: ()) -> Seq<char> {
        seq!['['] + decimal(self.0 as nat) + seq![','] + decimal(self.1 as nat) + seq![']']
    }

    open spec fn showable(&self, c: ()) -> bool {
        true
    }

    fn show(&self, c: &(), out: &mut String) {
        let ghost before = out@;
        out.push('[');
        push_decimal(out, self.0 as u64);
        out.push(',');
        push_decimal(out, self.1 as u64);
        out.push(']');
        assert(out@ =~= before + self.shown(*c));
    }
}

/// A text that is JSON already.
impl Shown<()> for String {
    open spec fn shown(&self, c: ()) -> Seq<char> {
        self@
    }

    open spec fn showable(&self, c: ()) -> bool {
        true
    }

    fn show(&self, c: &(), out: &mut String) {
        out.append(self.as_str());
    }
}

/// A list stands between brackets; an empty one is both brackets alone.
pub proof fn a_list_stands_between_brackets(parts: Seq<Seq<char>>, p: Seq<char>)
    ensures
        listed(seq![]) == seq!['[', ']'],
        listed(parts)[0] == '[' && listed(parts).last() == ']',
        listed(seq![p]) == seq!['['] + p + seq![']'],
        parts.len() > 0 ==> listed(parts.push(p)) == listed(parts).drop_last() + seq![','] + p
            + seq![']'],
{
    lemma_joined_push(parts, p);
    assert(comma_joined(seq![]) =~= Seq::<char>::empty());
    assert(listed(seq![]) =~= seq!['[', ']']);
    assert(seq![p][0] == p);
    if parts.len() > 0 {
        assert(listed(parts).drop_last() =~= seq!['['] + comma_joined(parts));
        assert(listed(parts.push(p)) =~= listed(parts).drop_last() + seq![','] + p + seq![']']);
    }
}

/// A tile is shown as a list of its two coordinates.
pub proof fn a_tile_is_a_list_of_two(t: (u8, u8))
    ensures
        t.shown(()) == listed(seq![decimal(t.0 as nat), decimal(t.1 as nat)]),
{
    let (a, b) = (decimal(t.0 as nat), decimal(t.1 as nat));
    lemma_joined_push(seq![a], b);
    assert(seq![a].push(b) =~= seq![a, b]);
    assert(seq![a][0] == a);
    assert(t.shown(()) =~= listed(seq![a, b]));
}

} // verus!
