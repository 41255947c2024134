//! The order of texts by their characters' code points, and lists of texts
//! kept in that order without repetition.

use vstd::prelude::*;
use vstd::hash_set::StringHashSet;
use crate::text::chars_of;

verus! {

/// `a` comes before `b`: at the first place where they differ `a` has the
/// smaller code point, or `a` ends there and `b` goes on.
pub open spec fn precedes(a: Seq<char>, b: Seq<char>) -> bool
    decreases a.len(),
{
    if b.len() == 0 {
        false
    } else if a.len() == 0 {
        true
    } else if a[0] != b[0] {
        (a[0] as int) < (b[0] as int)
    } else {
        precedes(a.drop_first(), b.drop_first())
    }
}

/// Each text of the list comes before the next.
pub open spec fn ascending(list: Seq<Seq<char>>) -> bool {
    forall|i: int, j: int| 0 <= i < j < list.len() ==> precedes(list[i], list[j])
}

/// The texts that a vector of strings holds.
pub open spec fn texts(v: Seq<String>) -> Seq<Seq<char>> {
    Seq::new(v.len(), |i: int| v[i]@)
}

/// The place of `item` in an ascending list: the number of texts that come
/// before it.
pub open spec fn rank(list: Seq<Seq<char>>, item: Seq<char>) -> nat
    decreases list.len(),
{
    if list.len() == 0 {
        0
    } else if precedes(list[0], item) {
        1 + rank(list.drop_first(), item)
    } else {
        0
    }
}

/// The ascending list with `item` put at its place; the list as it is where
/// it holds `item` already.
pub open spec fn inserted(list: Seq<Seq<char>>, item: Seq<char>) -> Seq<Seq<char>> {
    if list.contains(item) {
        list
    } else {
        list.insert(rank(list, item) as int, item)
    }
}

/// No text comes before itself.
pub proof fn lemma_precedes_irreflexive(a: Seq<char>)
    ensures
        !precedes(a, a),
    decreases a.len(),
{
    if a.len() > 0 {
        lemma_precedes_irreflexive(a.drop_first());
    }
}

/// Of two different texts one comes before the other.
pub proof fn lemma_precedes_total(a: Seq<char>, b: Seq<char>)
    ensures
        a == b || precedes(a, b) || precedes(b, a),
    decreases a.len(),
{
    if a.len() > 0 && b.len() > 0 && a[0] == b[0] {
        lemma_precedes_total(a.drop_first(), b.drop_first());
        if a.drop_first() == b.drop_first() {
            assert(a =~= seq![a[0]] + a.drop_first());
            assert(b =~= seq![b[0]] + b.drop_first());
        }
    } else if a.len() == 0 && b.len() == 0 {
        assert(a =~= b);
    }
}

/// What comes before a text comes before all that the text comes before.
pub proof fn lemma_precedes_transitive(a: Seq<char>, b: Seq<char>, c: Seq<char>)
    requires
        precedes(a, b),
        precedes(b, c),
    ensures
        precedes(a, c),
    decreases a.len(),
{
    if a.len() > 0 && a[0] == b[0] && b[0] == c[0] {
        lemma_precedes_transitive(a.drop_first(), b.drop_first(), c.drop_first());
    }
}

/// An ascending list holds no text twice.
pub proof fn lemma_ascending_distinct(list: Seq<Seq<char>>)
    requires
        ascending(list),
    ensures
        forall|i: int, j: int| 0 <= i < j < list.len() ==> list[i] != list[j],
{
    assert forall|i: int, j: int| 0 <= i < j < list.len() implies list[i] != list[j] by {
        lemma_precedes_irreflexive(list[i]);
    }
}

/// In an ascending list the rank of a text is the place where the texts
/// before it end.
pub proof fn lemma_rank(list: Seq<Seq<char>>, item: Seq<char>, k: int)
    requires
        0 <= k <= list.len(),
        forall|i: int| 0 <= i < k ==> precedes(#[trigger] list[i], item),
        k < list.len() ==> !precedes(list[k], item),
    ensures
        rank(list, item) == k,
    decreases k,
{
    if k > 0 {
        let rest = list.drop_first();
        assert forall|i: int| 0 <= i < k - 1 implies precedes(#[trigger] rest[i], item) by {
            assert(rest[i] == list[i + 1]);
        }
        if k - 1 < rest.len() {
            assert(rest[k - 1] == list[k]);
        }
        lemma_rank(rest, item, k - 1);
    }
}

/// The set of a list with one more text is the set of the list with that
/// text put in.
pub proof fn lemma_to_set_push(list: Seq<Seq<char>>, item: Seq<char>)
    ensures
        list.push(item).to_set() == list.to_set().insert(item),
{
    let after = list.push(item);
    assert forall|x: Seq<char>| after.to_set().contains(x) implies list.to_set().insert(
        item,
    ).contains(x) by {
        let w = choose|w: int| 0 <= w < after.len() && after[w] == x;
        if w < list.len() {
            assert(list[w] == x);
        }
    }
    assert forall|x: Seq<char>| list.to_set().insert(item).contains(
        x,
    ) implies after.to_set().contains(x) by {
        if list.to_set().contains(x) {
            let w = choose|w: int| 0 <= w < list.len() && list[w] == x;
            assert(after[w] == x);
        } else {
            assert(after[list.len() as int] == x);
        }
    }
    assert(after.to_set() =~= list.to_set().insert(item));
}

/// Whether `a` comes before `b`.
pub fn comes_before(a: &Vec<char>, b: &Vec<char>) -> (before: bool)
    ensures
        before == precedes(a@, b@),
{
    let mut i: usize = 0;
    assert(a@.skip(0) == a@ && b@.skip(0) == b@);
    while i < a.len() && i < b.len()
        invariant
            i <= a.len(),
            i <= b.len(),
            precedes(a@, b@) == precedes(a@.skip(i as int), b@.skip(i as int)),
        decreases a.len() - i,
    {
        let ghost x = a@.skip(i as int);
        let ghost y = b@.skip(i as int);
        assert(x.drop_first() == a@.skip(i + 1));
        assert(y.drop_first() == b@.skip(i + 1));
        let x: char = a[i];
        let y: char = b[i];
        if x != y {
            return x < y;
        }
        i += 1;
    }
    i < b.len()
}

/// Puts `item` at its place in the ascending list `list`, unless the list
/// holds it already.
pub fn insert_sorted(list: &mut Vec<String>, item: String)
    requires
        ascending(texts(old(list)@)),
    ensures
        texts(final(list)@) == inserted(texts(old(list)@), item@),
        ascending(texts(final(list)@)),
        final(list)@.len() == old(list)@.len() + if texts(old(list)@).contains(item@) {
            0int
        } else {
            1int
        },
{
    let key = chars_of(item.as_str());
    let ghost before = texts(list@);
    let mut k: usize = 0;
    while k < list.len()
        invariant
            k <= list.len(),
            list@ == old(list)@,
            before == texts(list@),
            key@ == item@,
            forall|i: int| 0 <= i < k ==> precedes(#[trigger] before[i], item@),
        ensures
            k <= list.len(),
            list@ == old(list)@,
            forall|i: int| 0 <= i < k ==> precedes(#[trigger] before[i], item@),
            k < list.len() ==> !precedes(before[k as int], item@),
        decreases list.len() - k,
    {
        let other = chars_of(list[k].as_str());
        assert(before[k as int] == other@);
        if !comes_before(&other, &key) {
            break;
        }
        k += 1;
    }
    proof {
        lemma_rank(before, item@, k as int);
        assert forall|i: int| 0 <= i < k implies before[i] != item@ by {
            lemma_precedes_irreflexive(item@);
        }
    }
    if k < list.len() {
        let other = chars_of(list[k].as_str());
        assert(before[k as int] == other@);
        if !comes_before(&key, &other) {
            proof {
                lemma_precedes_total(key@, other@);
                assert(before.contains(item@));
            }
            return;
        }
        proof {
            assert forall|i: int| k <= i < before.len() implies before[i] != item@ && precedes(
                item@,
                #[trigger] before[i],
            ) by {
                if i > k {
                    lemma_precedes_transitive(item@, before[k as int], before[i]);
                }
                lemma_precedes_irreflexive(item@);
            }
        }
    }
    assert(!before.contains(item@));
    list.insert(k, item);
    assert(texts(list@) =~= before.insert(k as int, item@));
}

/// The set of the texts of a list.
pub fn text_set(list: &Vec<String>) -> (set: StringHashSet)
    ensures
        set@ == texts(list@).to_set(),
{
    let mut set = StringHashSet::new();
    let mut i: usize = 0;
    assert(texts(list@).take(0).to_set() =~= Set::<Seq<char>>::empty());
    while i < list.len()
        invariant
            i <= list.len(),
            set@ == texts(list@).take(i as int).to_set(),
        decreases list.len() - i,
    {
        let item = list[i].clone();
        proof {
            let before = texts(list@).take(i as int);
            assert(texts(list@).take(i + 1) == before.push(item@));
            lemma_to_set_push(before, item@);
        }
        set.insert(item);
        i += 1;
    }
    assert(texts(list@).take(i as int) == texts(list@));
    set
}

} // verus!
