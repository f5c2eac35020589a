//! A set of strings kept sorted, with lookups by binary search.

use vstd::prelude::*;

verus! {

/// Lexicographic order of character sequences (as `str` orders them).
pub open spec fn precedes(a: Seq<char>, b: Seq<char>) -> bool
    decreases a.len(),
{
    if a.len() == 0 {
        b.len() > 0
    } else if b.len() == 0 {
        false
    } else if a[0] != b[0] {
        (a[0] as int) < (b[0] as int)
    } else {
        precedes(a.drop_first(), b.drop_first())
    }
}

pub proof fn lemma_precedes_irreflexive(a: Seq<char>)
    ensures
        !precedes(a, a),
    decreases a.len(),
{
    if a.len() > 0 {
        lemma_precedes_irreflexive(a.drop_first());
    }
}

pub proof fn lemma_precedes_total(a: Seq<char>, b: Seq<char>)
    ensures
        a == b || precedes(a, b) || precedes(b, a),
        !(precedes(a, b) && precedes(b, a)),
    decreases a.len(),
{
    if a.len() > 0 && b.len() > 0 && a[0] == b[0] {
        lemma_precedes_total(a.drop_first(), b.drop_first());
        if a.drop_first() == b.drop_first() {
            assert(a =~= seq![a[0]] + a.drop_first());
            assert(b =~= seq![b[0]] + b.drop_first());
        }
    } else if a.len() == 0 && b.len() == 0 {
        assert(a =~= b);
    } else if a.len() > 0 && b.len() > 0 {
        assert((a[0] as int) != (b[0] as int));
    }
}

pub proof fn lemma_precedes_transitive(a: Seq<char>, b: Seq<char>, c: Seq<char>)
    requires
        precedes(a, b),
        precedes(b, c),
    ensures
        precedes(a, c),
    decreases a.len(),
{
    if a.len() > 0 && b.len() > 0 && c.len() > 0 && a[0] == b[0] && b[0] == c[0] {
        lemma_precedes_transitive(a.drop_first(), b.drop_first(), c.drop_first());
    }
}

proof fn lemma_precedes_skip(a: Seq<char>, b: Seq<char>, i: int)
    requires
        0 <= i <= a.len(),
        i <= b.len(),
        a.take(i) == b.take(i),
    ensures
        precedes(a, b) == precedes(a.skip(i), b.skip(i)),
    decreases i,
{
    if i == 0 {
        assert(a.skip(0) =~= a);
        assert(b.skip(0) =~= b);
    } else {
        assert(a[0] == a.take(i)[0]);
        assert(b[0] == b.take(i)[0]);
        assert(a.drop_first().take(i - 1) =~= a.take(i).drop_first());
        assert(b.drop_first().take(i - 1) =~= b.take(i).drop_first());
        lemma_precedes_skip(a.drop_first(), b.drop_first(), i - 1);
        assert(a.drop_first().skip(i - 1) =~= a.skip(i));
        assert(b.drop_first().skip(i - 1) =~= b.skip(i));
    }
}

/// Where two texts stand in lexicographic order.
#[derive(Clone, Copy, PartialEq, Eq, Debug, Structural)]
pub enum TextOrder {
    Before,
    Same,
    After,
}

/// Compares two texts character by character.
pub fn compare_texts(a: &str, b: &str) -> (order: TextOrder)
    ensures
        order == TextOrder::Before <==> precedes(a@, b@),
        order == TextOrder::Same <==> a@ == b@,
        order == TextOrder::After <==> precedes(b@, a@),
{
    let a_length = a.unicode_len();
    let b_length = b.unicode_len();
    let mut i: usize = 0;
    while i < a_length && i < b_length
        invariant
            a_length == a@.len(),
            b_length == b@.len(),
            i <= a_length,
            i <= b_length,
            a@.take(i as int) == b@.take(i as int),
        decreases a_length - i,
    {
        let x = a.get_char(i);
        let y = b.get_char(i);
        if x != y {
            proof {
                lemma_precedes_skip(a@, b@, i as int);
                lemma_precedes_skip(b@, a@, i as int);
                assert(a@.skip(i as int)[0] == x);
                assert(b@.skip(i as int)[0] == y);
                if a@ == b@ {
                    assert(a@[i as int] == b@[i as int]);
                }
            }
            if (x as u32) < (y as u32) {
                return TextOrder::Before;
            } else {
                return TextOrder::After;
            }
        }
        assert(a@.take(i + 1) =~= a@.take(i as int).push(x));
        assert(b@.take(i + 1) =~= b@.take(i as int).push(y));
        i += 1;
    }
    proof {
        lemma_precedes_skip(a@, b@, i as int);
        lemma_precedes_skip(b@, a@, i as int);
        if a_length == b_length {
            assert(a@ =~= a@.take(i as int));
            assert(b@ =~= b@.take(i as int));
        }
    }
    if a_length == b_length {
        TextOrder::Same
    } else if a_length < b_length {
        TextOrder::Before
    } else {
        TextOrder::After
    }
}

/// A set of strings, held in increasing order without repeats.
pub struct TextSet {
    items: Vec<String>,
}

impl View for TextSet {
    type V = Set<Seq<char>>;

    closed spec fn view(&self) -> Set<Seq<char>> {
        Set::new(|t: Seq<char>| exists|i: int| 0 <= i < self.items@.len() && self.items@[i]@ == t)
    }
}

impl TextSet {
    /// The items are in strictly increasing order.
    pub closed spec fn wf(&self) -> bool {
        forall|i: int, j: int|
            0 <= i < j < self.items@.len() ==> precedes(#[trigger] self.items@[i]@, #[trigger] self.items@[j]@)
    }

    /// The empty set.
    pub fn new() -> (set: TextSet)
        ensures
            set.wf(),
            set@ == Set::<Seq<char>>::empty(),
    {
        let set = TextSet { items: Vec::new() };
        assert(set@ =~= Set::<Seq<char>>::empty());
        set
    }

    /// The first position whose item does not precede `text`.
    fn position(&self, text: &str) -> (index: usize)
        requires
            self.wf(),
        ensures
            index <= self.items@.len(),
            forall|i: int| 0 <= i < index ==> precedes(#[trigger] self.items@[i]@, text@),
            forall|i: int| index <= i < self.items@.len() ==> !precedes(#[trigger] self.items@[i]@, text@),
    {
        let mut low: usize = 0;
        let mut high: usize = self.items.len();
        while low < high
            invariant
                self.wf(),
                low <= high <= self.items@.len(),
                forall|i: int| 0 <= i < low ==> precedes(#[trigger] self.items@[i]@, text@),
                forall|i: int| high <= i < self.items@.len() ==> !precedes(#[trigger] self.items@[i]@, text@),
            decreases high - low,
        {
            let middle = low + (high - low) / 2;
            let order = compare_texts(self.items[middle].as_str(), text);
            if order == TextOrder::Before {
                assert forall|i: int| 0 <= i < middle + 1 implies precedes(#[trigger] self.items@[i]@, text@) by {
                    if i < middle {
                        lemma_precedes_transitive(self.items@[i]@, self.items@[middle as int]@, text@);
                    }
                }
                low = middle + 1;
            } else {
                assert forall|i: int| middle <= i < self.items@.len() implies !precedes(#[trigger] self.items@[i]@, text@) by {
                    if i > middle && precedes(self.items@[i]@, text@) {
                        lemma_precedes_transitive(self.items@[middle as int]@, self.items@[i]@, text@);
                    }
                }
                high = middle;
            }
        }
        low
    }

    proof fn lemma_absent_beyond(&self, text: Seq<char>, index: int)
        requires
            self.wf(),
            0 <= index <= self.items@.len(),
            forall|i: int| 0 <= i < index ==> precedes(#[trigger] self.items@[i]@, text),
            forall|i: int| index <= i < self.items@.len() ==> !precedes(#[trigger] self.items@[i]@, text),
            index == self.items@.len() || self.items@[index]@ != text,
        ensures
            !self@.contains(text),
    {
        if self@.contains(text) {
            let k = choose|k: int| 0 <= k < self.items@.len() && self.items@[k]@ == text;
            if k < index {
                assert(precedes(self.items@[k]@, text));
                lemma_precedes_irreflexive(text);
            } else {
                assert(!precedes(self.items@[index]@, text));
                lemma_precedes_total(self.items@[index]@, text);
                if k > index {
                    assert(precedes(self.items@[index]@, self.items@[k]@));
                }
            }
        }
    }

    /// Whether `text` is in the set.
    pub fn contains(&self, text: &str) -> (found: bool)
        requires
            self.wf(),
        ensures
            found == self@.contains(text@),
    {
        let index = self.position(text);
        if index < self.items.len() && compare_texts(self.items[index].as_str(), text) == TextOrder::Same {
            assert(self@.contains(text@) <==> exists|i: int|
                0 <= i < self.items@.len() && self.items@[i]@ == text@);
            assert(self.items@[index as int]@ == text@);
            true
        } else {
            proof {
                self.lemma_absent_beyond(text@, index as int);
            }
            false
        }
    }

    /// Adds `text` to the set.
    pub fn insert(&mut self, text: String)
        requires
            old(self).wf(),
        ensures
            final(self).wf(),
            final(self)@ == old(self)@.insert(text@),
    {
        let index = self.position(text.as_str());
        if index < self.items.len() && compare_texts(self.items[index].as_str(), text.as_str()) == TextOrder::Same {
            assert(self@ =~= old(self)@.insert(text@)) by {
                assert(self.items@[index as int]@ == text@);
            }
            return;
        }
        proof {
            if index < self.items@.len() {
                lemma_precedes_total(self.items@[index as int]@, text@);
            }
        }
        let ghost before = self.items@;
        let ghost text_view = text@;
        self.items.insert(index, text);
        proof {
            assert(self.items@ =~= before.subrange(0, index as int).push(self.items@[index as int]).add(
                before.subrange(index as int, before.len() as int),
            ));
            assert forall|i: int, j: int| 0 <= i < j < self.items@.len() implies precedes(
                #[trigger] self.items@[i]@,
                #[trigger] self.items@[j]@,
            ) by {
                if j < index {
                } else if j == index {
                } else if i == index {
                    if j - 1 > index {
                        lemma_precedes_transitive(text_view, before[index as int]@, before[j - 1]@);
                    }
                } else if i < index {
                } else {
                }
            }
            assert forall|t: Seq<char>| #[trigger] self@.contains(t) == old(self)@.insert(text_view).contains(t) by {
                if t == text_view {
                    assert(self.items@[index as int]@ == t);
                } else if old(self)@.contains(t) {
                    let k = choose|k: int| 0 <= k < before.len() && before[k]@ == t;
                    if k < index {
                        assert(self.items@[k]@ == t);
                    } else {
                        assert(self.items@[k + 1]@ == t);
                    }
                }
                if self@.contains(t) {
                    let k = choose|k: int| 0 <= k < self.items@.len() && self.items@[k]@ == t;
                    if k < index {
                        assert(before[k]@ == t);
                    } else if k > index {
                        assert(before[k - 1]@ == t);
                    }
                }
            }
            assert(self@ =~= old(self)@.insert(text_view));
        }
    }
}

} // verus!
