//! Sorting by name: the order that fix mode gives to a list, and the proof
//! that it is sorted, holds the same items and leaves a sorted list alone.

use vstd::prelude::*;
use crate::text::{lemma_name_le_transitive, name_le, str_lt};
use crate::types::{views, SourceFont, SourceFontView, SourceGroup, SourceGroupView};

verus! {

/// A mathematical value that is sorted by a name.
pub trait Keyed {
    /// The name that the value is sorted by.
    spec fn key(self) -> Seq<char>;
}

impl Keyed for Seq<char> {
    open spec fn key(self) -> Seq<char> {
        self
    }
}

impl Keyed for SourceGroupView {
    open spec fn key(self) -> Seq<char> {
        self.name
    }
}

impl Keyed for SourceFontView {
    open spec fn key(self) -> Seq<char> {
        self.name
    }
}

/// An item of a list that can be sorted by name.
pub trait Named: View where Self::V: Keyed {
    /// The name that the item is sorted by.
    fn sort_name(&self) -> (r: &str)
        ensures
            r@ == self@.key(),
    ;
}

impl Named for String {
    fn sort_name(&self) -> (r: &str) {
        self.as_str()
    }
}

impl Named for SourceGroup {
    fn sort_name(&self) -> (r: &str) {
        self.name.as_str()
    }
}

impl Named for SourceFont {
    fn sort_name(&self) -> (r: &str) {
        self.name.as_str()
    }
}

/// No item stands before one with a smaller name.
pub open spec fn is_sorted<A: Keyed>(s: Seq<A>) -> bool {
    forall|i: int, j: int| 0 <= i < j < s.len() ==> name_le(#[trigger] s[i].key(), #[trigger] s[j].key())
}

/// No item stands directly before one with a smaller name.
pub open spec fn neighbours_in_order<A: Keyed>(s: Seq<A>) -> bool {
    forall|i: int| #![trigger s[i]] 0 <= i < s.len() - 1 ==> name_le(s[i].key(), s[i + 1].key())
}

/// In a list whose neighbours are in order, each item is in order with every
/// later one.
pub proof fn lemma_neighbours_reach<A: Keyed>(s: Seq<A>, i: int, j: int)
    requires
        neighbours_in_order(s),
        0 <= i < j < s.len(),
    ensures
        name_le(s[i].key(), s[j].key()),
    decreases j - i,
{
    if j > i + 1 {
        lemma_neighbours_reach(s, i, j - 1);
        assert(name_le(s[j - 1].key(), s[j - 1 + 1].key()));
        lemma_name_le_transitive(s[i].key(), s[j - 1].key(), s[j].key());
    } else {
        assert(name_le(s[i].key(), s[i + 1].key()));
    }
}

/// A list is sorted exactly if its neighbours are in order.
pub proof fn lemma_sorted_by_neighbours<A: Keyed>(s: Seq<A>)
    ensures
        is_sorted(s) == neighbours_in_order(s),
{
    if neighbours_in_order(s) {
        assert forall|i: int, j: int| 0 <= i < j < s.len() implies name_le(
            #[trigger] s[i].key(),
            #[trigger] s[j].key(),
        ) by {
            lemma_neighbours_reach(s, i, j);
        }
    }
}

/// The first position at or after `i` whose item is not before `name`; the
/// length of the list if there is none.
pub open spec fn insert_position<A: Keyed>(s: Seq<A>, name: Seq<char>, i: int) -> int
    decreases s.len() - i,
{
    if i < 0 || i >= s.len() {
        s.len() as int
    } else if name_le(name, s[i].key()) {
        i
    } else {
        insert_position(s, name, i + 1)
    }
}

/// The list sorted by name, items of equal name in their original order.
pub open spec fn stable_sort<A: Keyed>(s: Seq<A>) -> Seq<A>
    decreases s.len(),
{
    if s.len() == 0 {
        s
    } else {
        let rest = stable_sort(s.drop_first());
        rest.insert(insert_position(rest, s[0].key(), 0), s[0])
    }
}

/// Where `insert_position` points: within the list, after `i`, at an item that
/// is not before `name`, and past only items that are before it.
pub proof fn lemma_insert_position<A: Keyed>(s: Seq<A>, name: Seq<char>, i: int)
    requires
        0 <= i <= s.len(),
    ensures
        i <= insert_position(s, name, i) <= s.len(),
        insert_position(s, name, i) < s.len() ==> name_le(
            name,
            s[insert_position(s, name, i)].key(),
        ),
        forall|k: int| i <= k < insert_position(s, name, i) ==> !name_le(name, #[trigger] s[k].key()),
    decreases s.len() - i,
{
    if i < s.len() && !name_le(name, s[i].key()) {
        lemma_insert_position(s, name, i + 1);
    }
}

/// Sorting keeps the length of the list.
pub proof fn lemma_stable_sort_len<A: Keyed>(s: Seq<A>)
    ensures
        stable_sort(s).len() == s.len(),
    decreases s.len(),
{
    if s.len() > 0 {
        let rest = stable_sort(s.drop_first());
        lemma_stable_sort_len(s.drop_first());
        lemma_insert_position(rest, s[0].key(), 0);
    }
}

/// Inserting an item at its position into a sorted list gives a sorted list.
pub proof fn lemma_insert_keeps_sorted<A: Keyed>(s: Seq<A>, x: A)
    requires
        is_sorted(s),
    ensures
        is_sorted(s.insert(insert_position(s, x.key(), 0), x)),
{
    let p = insert_position(s, x.key(), 0);
    lemma_insert_position(s, x.key(), 0);
    let t = s.insert(p, x);
    s.insert_ensures(p, x);
    assert forall|i: int, j: int| 0 <= i < j < t.len() implies name_le(
        #[trigger] t[i].key(),
        #[trigger] t[j].key(),
    ) by {
        if j < p {
            assert(t[i] == s[i] && t[j] == s[j]);
        } else if j == p {
            assert(t[i] == s[i]);
            assert(!name_le(x.key(), s[i].key()));
            crate::text::lemma_bytes_lt_asymmetric(
                vstd::utf8::encode_utf8(s[i].key()),
                vstd::utf8::encode_utf8(x.key()),
                0,
            );
        } else if i < p {
            assert(name_le(s[i].key(), s[j - 1].key()));
            assert(t[i] == s[i] && t[j] == s[j - 1]);
        } else if i == p {
            assert(t[j] == s[j - 1]);
            if j - 1 > p {
                assert(name_le(s[p].key(), s[j - 1].key()));
                lemma_name_le_transitive(x.key(), s[p].key(), s[j - 1].key());
            }
        } else {
            assert(t[i] == s[i - 1] && t[j] == s[j - 1]);
        }
    }
}

/// A sorted list is sorted.
pub proof fn lemma_stable_sort_sorted<A: Keyed>(s: Seq<A>)
    ensures
        is_sorted(stable_sort(s)),
    decreases s.len(),
{
    if s.len() > 0 {
        lemma_stable_sort_sorted(s.drop_first());
        lemma_insert_keeps_sorted(stable_sort(s.drop_first()), s[0]);
    }
}

/// Sorting neither adds, drops nor repeats an item.
pub proof fn lemma_stable_sort_permutes<A: Keyed>(s: Seq<A>)
    ensures
        stable_sort(s).to_multiset() == s.to_multiset(),
    decreases s.len(),
{
    broadcast use vstd::seq_lib::group_to_multiset_ensures;

    if s.len() > 0 {
        let rest = stable_sort(s.drop_first());
        let p = insert_position(rest, s[0].key(), 0);
        lemma_stable_sort_permutes(s.drop_first());
        lemma_stable_sort_len(s.drop_first());
        lemma_insert_position(rest, s[0].key(), 0);
        assert(s =~= s.drop_first().insert(0, s[0]));
        assert(rest.insert(p, s[0]).to_multiset() == rest.to_multiset().insert(s[0]));
        assert(s.drop_first().insert(0, s[0]).to_multiset() == s.drop_first().to_multiset().insert(
            s[0],
        ));
    }
}

/// Sorting a sorted list changes nothing.
pub proof fn lemma_stable_sort_fixes_sorted<A: Keyed>(s: Seq<A>)
    requires
        is_sorted(s),
    ensures
        stable_sort(s) == s,
    decreases s.len(),
{
    if s.len() > 0 {
        let rest = s.drop_first();
        assert(is_sorted(rest)) by {
            assert forall|i: int, j: int| 0 <= i < j < rest.len() implies name_le(
                #[trigger] rest[i].key(),
                #[trigger] rest[j].key(),
            ) by {
                assert(rest[i] == s[i + 1] && rest[j] == s[j + 1]);
            }
        }
        lemma_stable_sort_fixes_sorted(rest);
        if rest.len() > 0 {
            assert(rest[0] == s[1]);
            assert(name_le(s[0].key(), s[1].key()));
        }
        assert(insert_position(rest, s[0].key(), 0) == 0);
        assert(rest.insert(0, s[0]) =~= s);
    }
}

/// Sorts the list by name, items of equal name staying in their order.
pub fn sort_by_name<T: Named>(list: &mut Vec<T>) where T::V: Keyed
    ensures
        views(final(list)@) == stable_sort(views(old(list)@)),
{
    let ghost original = views(list@);
    let mut out: Vec<T> = Vec::new();
    assert(views(out@) =~= stable_sort(original.subrange(list.len() as int, original.len() as int)));
    while list.len() > 0
        invariant
            list.len() <= original.len(),
            views(list@) == original.subrange(0, list.len() as int),
            views(out@) == stable_sort(
                original.subrange(list.len() as int, original.len() as int),
            ),
        decreases list.len(),
    {
        let ghost before = list@;
        let ghost sorted = views(out@);
        let ghost tail = original.subrange(list.len() as int, original.len() as int);
        let item = list.pop().unwrap();
        let mut position: usize = 0;
        proof {
            lemma_stable_sort_len(tail);
        }
        while position < out.len() && str_lt(out[position].sort_name(), item.sort_name())
            invariant
                position <= out.len(),
                views(out@) == sorted,
                insert_position(sorted, item@.key(), 0) == insert_position(
                    sorted,
                    item@.key(),
                    position as int,
                ),
            decreases out.len() - position,
        {
            position += 1;
        }
        out.insert(position, item);
        proof {
            let longer = original.subrange(list.len() as int, original.len() as int);
            assert(item@ == original[list.len() as int]) by {
                assert(views(before)[list.len() as int] == before[list.len() as int]@);
            }
            assert(longer.drop_first() =~= tail);
            assert(longer[0] == item@);
            assert(views(out@) =~= sorted.insert(position as int, item@));
            assert(views(list@) =~= original.subrange(0, list.len() as int));
        }
    }
    proof {
        assert(original.subrange(0, original.len() as int) =~= original);
    }
    *list = out;
}

} // verus!
