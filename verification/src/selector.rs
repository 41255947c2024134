//! The selector: takes from the candidates of one text those that pass the
//! predicate and were not emitted before, at most as many as the cap allows,
//! drawn at random without drawing a candidate twice.

use rand::rngs::StdRng;
use rand::Rng;
use vstd::prelude::*;
use vstd::hash_set::StringHashSet;
use vstd::set_lib::*;
use crate::checker::{accepts, check, lemma_accepts_trimmed};
use crate::order::{ascending, insert_sorted, inserted, rank, texts};
use crate::rules::{Profile, Rules};
use crate::text::{chars_of, string_of};
use crate::trim::{trim, trimmed};

verus! {

/// The random generator that draws the indexes.
#[verifier::external_type_specification]
#[verifier::external_body]
pub struct ExStdRng(StdRng);

/// Calls `rand::Rng::gen_range` on the closed range from 0 to `max_index`.
/// Which index comes back is left open; it lies in the range.
#[verifier::external_body]
pub(crate) fn random_index(rng: &mut StdRng, max_index: usize) -> (index: usize)
    ensures
        index <= max_index,
{
    rng.gen_range(0..=max_index)
}

/// The predicate may answer `true` on the text.
pub open spec fn may_accept<F: Fn(&Rules, &str) -> bool>(
    predicate: F,
    rules: &Rules,
    text: Seq<char>,
) -> bool {
    exists|s: &str| s@ == text && call_ensures(predicate, (rules, s), true)
}

/// The predicate may answer `false` on the text.
pub open spec fn may_reject<F: Fn(&Rules, &str) -> bool>(
    predicate: F,
    rules: &Rules,
    text: Seq<char>,
) -> bool {
    exists|s: &str| s@ == text && call_ensures(predicate, (rules, s), false)
}

/// The trimmed candidates that are kept when every candidate is looked at in
/// order: those with a `true` verdict that were not seen before.
pub open spec fn kept(candidates: Seq<Seq<char>>, seen: Set<Seq<char>>, verdicts: Seq<bool>) -> Seq<
    Seq<char>,
>
    decreases candidates.len(),
{
    if candidates.len() == 0 || verdicts.len() != candidates.len() {
        Seq::empty()
    } else {
        let front = kept(candidates.drop_last(), seen, verdicts.drop_last());
        let text = trimmed(candidates.last());
        if verdicts.last() && !seen.contains(text) {
            front.push(text)
        } else {
            front
        }
    }
}

/// The ascending list of the indexes up to `max_index` that `used` does not
/// hold.
pub fn unused_indexes(max_index: usize, used: &Vec<usize>) -> (free: Vec<usize>)
    requires
        max_index < usize::MAX,
    ensures
        forall|k: int| 0 <= k < free@.len() ==> free@[k] <= max_index && !used@.contains(free@[k]),
        forall|i: usize| i <= max_index && !used@.contains(i) ==> free@.contains(i),
        forall|k: int, m: int| 0 <= k < m < free@.len() ==> free@[k] < free@[m],
{
    let mut taken: Vec<bool> = Vec::new();
    let mut i: usize = 0;
    while i <= max_index
        invariant
            i <= max_index + 1,
            max_index < usize::MAX,
            taken@.len() == i,
            forall|j: int| 0 <= j < i ==> !taken@[j],
        decreases max_index + 1 - i,
    {
        taken.push(false);
        i += 1;
    }
    let mut k: usize = 0;
    while k < used.len()
        invariant
            k <= used.len(),
            taken@.len() == max_index + 1,
            forall|j: int| 0 <= j <= max_index ==> taken@[j] == used@.take(k as int).contains(
                j as usize,
            ),
        decreases used.len() - k,
    {
        let index = used[k];
        let ghost before = used@.take(k as int);
        let ghost after = used@.take(k + 1);
        assert(after == before.push(index));
        if index <= max_index {
            taken.set(index, true);
        }
        assert forall|j: int| 0 <= j <= max_index implies taken@[j] == after.contains(
            j as usize,
        ) by {
            if before.contains(j as usize) {
                let w = choose|w: int| 0 <= w < before.len() && before[w] == j as usize;
                assert(after[w] == j as usize);
            }
            if j == index {
                assert(after[k as int] == index);
            }
            if after.contains(j as usize) && j != index {
                let w = choose|w: int| 0 <= w < after.len() && after[w] == j as usize;
                assert(before[w] == j as usize);
            }
        }
        k += 1;
    }
    assert(used@.take(k as int) == used@);
    let mut free: Vec<usize> = Vec::new();
    let mut i: usize = 0;
    while i <= max_index
        invariant
            i <= max_index + 1,
            max_index < usize::MAX,
            taken@.len() == max_index + 1,
            forall|j: int| 0 <= j <= max_index ==> taken@[j] == used@.contains(j as usize),
            forall|k: int| 0 <= k < free@.len() ==> free@[k] < i && !used@.contains(free@[k]),
            forall|j: usize| j < i && !used@.contains(j) ==> free@.contains(j),
            forall|k: int, m: int| 0 <= k < m < free@.len() ==> free@[k] < free@[m],
        decreases max_index + 1 - i,
    {
        if !taken[i] {
            let ghost before = free@;
            free.push(i);
            assert forall|j: usize| j < i + 1 && !used@.contains(j) implies free@.contains(j) by {
                if j < i {
                    let w = choose|w: int| 0 <= w < before.len() && before[w] == j;
                    assert(free@[w] == j);
                } else {
                    assert(free@[before.len() as int] == j);
                }
            }
        }
        i += 1;
    }
    free
}

/// Draws an index up to `max_index` that `used_indexes` does not hold. Each
/// such index is as likely as any other.
pub fn get_not_yet_used_index(rng: &mut StdRng, max_index: usize, used_indexes: &Vec<usize>) -> (index:
    usize)
    requires
        max_index < usize::MAX,
        exists|i: usize| i <= max_index && !used_indexes@.contains(i),
    ensures
        index <= max_index,
        !used_indexes@.contains(index),
{
    let free = unused_indexes(max_index, used_indexes);
    let at = random_index(rng, free.len() - 1);
    free[at]
}

/// Indexes below `total` without repetition are at most `total`; fewer leave
/// an index out, and `total` of them leave none out.
pub proof fn lemma_drawn_indexes(used: Seq<usize>, total: usize)
    requires
        used.no_duplicates(),
        forall|k: int| 0 <= k < used.len() ==> used[k] < total,
    ensures
        used.len() <= total,
        used.len() < total ==> exists|i: usize| i < total && !used.contains(i),
        used.len() == total ==> forall|i: usize| i < total ==> used.contains(i),
{
    let drawn = used.to_set();
    let all = Set::new(|i: usize| i < total);
    lemma_range_of_usize(total as nat);
    used.unique_seq_to_set();
    assert(drawn.subset_of(all)) by {
        assert forall|i: usize| drawn.contains(i) implies all.contains(i) by {
            let w = choose|w: int| 0 <= w < used.len() && used[w] == i;
        }
    }
    lemma_len_subset(drawn, all);
    if used.len() == total {
        lemma_set_subset_finite(all, drawn);
        lemma_subset_equality(drawn, all);
        assert forall|i: usize| i < total implies used.contains(i) by {
            assert(all.contains(i));
            assert(drawn.contains(i));
        }
    }
    if used.len() < total {
        if forall|i: usize| i < total ==> used.contains(i) {
            assert(all.subset_of(drawn)) by {
                assert forall|i: usize| all.contains(i) implies drawn.contains(i) by {
                    assert(used.contains(i));
                }
            }
            lemma_len_subset(all, drawn);
        }
    }
}

/// The machine indexes below `total` are finitely many: `total` of them.
pub proof fn lemma_range_of_usize(total: nat)
    ensures
        total <= usize::MAX + 1 ==> Set::new(|i: usize| i < total).finite() && Set::new(
            |i: usize| i < total,
        ).len() == total,
    decreases total,
{
    let all = Set::new(|i: usize| i < total);
    if total == 0 {
        assert(all =~= Set::empty());
    } else if total <= usize::MAX + 1 {
        lemma_range_of_usize((total - 1) as nat);
        let fewer = Set::new(|i: usize| i < total - 1);
        assert(all =~= fewer.insert((total - 1) as usize));
    }
}

/// The list after one candidate was looked at: with its trimmed form put in
/// where the verdict is `true` and the text was not seen before.
pub open spec fn considered(
    list: Seq<Seq<char>>,
    candidate: Seq<char>,
    accepted: bool,
    seen: Set<Seq<char>>,
) -> Seq<Seq<char>> {
    if accepted && !seen.contains(trimmed(candidate)) {
        inserted(list, trimmed(candidate))
    } else {
        list
    }
}

/// The text may be emitted: it is the trimmed form of a candidate on which
/// the predicate may answer `true`, and it was not seen before.
pub open spec fn eligible<F: Fn(&Rules, &str) -> bool>(
    predicate: F,
    rules: &Rules,
    pool: Seq<Seq<char>>,
    seen: Set<Seq<char>>,
    text: Seq<char>,
) -> bool {
    exists|j: int|
        0 <= j < pool.len() && text == trimmed(#[trigger] pool[j]) && !seen.contains(text)
            && may_accept(predicate, rules, pool[j])
}

/// The candidate has to be emitted once it is drawn: the predicate cannot
/// answer `false` on it, and its trimmed form was not seen before.
pub open spec fn must_take<F: Fn(&Rules, &str) -> bool>(
    predicate: F,
    rules: &Rules,
    seen: Set<Seq<char>>,
    candidate: Seq<char>,
) -> bool {
    !may_reject(predicate, rules, candidate) && !seen.contains(trimmed(candidate))
}

/// The verdicts are answers that the predicate may give on the candidates.
pub open spec fn possible_verdicts<F: Fn(&Rules, &str) -> bool>(
    predicate: F,
    rules: &Rules,
    pool: Seq<Seq<char>>,
    verdicts: Seq<bool>,
) -> bool {
    &&& verdicts.len() == pool.len()
    &&& forall|j: int|
        0 <= j < pool.len() ==> if #[trigger] verdicts[j] {
            may_accept(predicate, rules, pool[j])
        } else {
            may_reject(predicate, rules, pool[j])
        }
}

/// The rank of a text is a place of the list.
pub proof fn lemma_rank_bound(list: Seq<Seq<char>>, item: Seq<char>)
    ensures
        rank(list, item) <= list.len(),
    decreases list.len(),
{
    if list.len() > 0 {
        lemma_rank_bound(list.drop_first(), item);
    }
}

/// A list with a text put in holds that text and what it held before, and
/// grows by one at most.
pub proof fn lemma_inserted_members(list: Seq<Seq<char>>, item: Seq<char>)
    ensures
        forall|x: Seq<char>|
            #[trigger] inserted(list, item).contains(x) <==> (list.contains(x) || x == item),
        list.len() <= inserted(list, item).len() <= list.len() + 1,
{
    let after = inserted(list, item);
    lemma_rank_bound(list, item);
    let r = rank(list, item) as int;
    assert forall|x: Seq<char>| #[trigger] after.contains(x) <==> (list.contains(x) || x
        == item) by {
        if !list.contains(item) {
            if after.contains(x) {
                let w = choose|w: int| 0 <= w < after.len() && after[w] == x;
                if w < r {
                    assert(list[w] == x);
                } else if w > r {
                    assert(list[w - 1] == x);
                }
            }
            if list.contains(x) {
                let w = choose|w: int| 0 <= w < list.len() && list[w] == x;
                if w < r {
                    assert(after[w] == x);
                } else {
                    assert(after[w + 1] == x);
                }
            }
            assert(after[r] == item);
        }
    }
}

/// Looks at one candidate: puts its trimmed form at its place in `chosen`
/// where `accepted` is `true` and the text was not emitted before.
pub fn consider(chosen: &mut Vec<String>, candidate: &str, accepted: bool, existing: &StringHashSet)
    requires
        ascending(texts(old(chosen)@)),
    ensures
        texts(final(chosen)@) == considered(
            texts(old(chosen)@),
            candidate@,
            accepted,
            existing@,
        ),
        ascending(texts(final(chosen)@)),
        old(chosen)@.len() <= final(chosen)@.len() <= old(chosen)@.len() + 1,
{
    if accepted {
        let sentence = string_of(&trim(&chars_of(candidate)));
        if !existing.contains(sentence.as_str()) {
            insert_sorted(chosen, sentence);
        }
    }
}

/// Every candidate that passes the predicate and was not emitted before,
/// trimmed, in the order of the pool.
pub fn pick_all<F: Fn(&Rules, &str) -> bool>(
    rules: &Rules,
    sentences_pool: &Vec<String>,
    existing_sentences: &StringHashSet,
    predicate: &F,
) -> (chosen: Vec<String>)
    requires
        forall|s: &str| call_requires(*predicate, (rules, s)),
    ensures
        exists|verdicts: Seq<bool>|
            possible_verdicts(*predicate, rules, texts(sentences_pool@), verdicts) && texts(chosen@)
                == kept(texts(sentences_pool@), existing_sentences@, verdicts),
        forall|i: int|
            0 <= i < chosen@.len() ==> eligible(
                *predicate,
                rules,
                texts(sentences_pool@),
                existing_sentences@,
                #[trigger] texts(chosen@)[i],
            ),
        chosen@.len() <= sentences_pool@.len(),
{
    let ghost pool = texts(sentences_pool@);
    let ghost mut verdicts: Seq<bool> = Seq::empty();
    let mut chosen: Vec<String> = Vec::new();
    let mut j: usize = 0;
    assert(pool.take(0) == Seq::<Seq<char>>::empty());
    assert(texts(chosen@) == Seq::<Seq<char>>::empty());
    while j < sentences_pool.len()
        invariant
            j <= sentences_pool.len(),
            pool == texts(sentences_pool@),
            chosen@.len() <= j,
            forall|s: &str| call_requires(*predicate, (rules, s)),
            possible_verdicts(*predicate, rules, pool.take(j as int), verdicts),
            texts(chosen@) == kept(pool.take(j as int), existing_sentences@, verdicts),
            forall|i: int|
                0 <= i < chosen@.len() ==> eligible(
                    *predicate,
                    rules,
                    pool,
                    existing_sentences@,
                    #[trigger] texts(chosen@)[i],
                ),
        decreases sentences_pool.len() - j,
    {
        let candidate = sentences_pool[j].as_str();
        let accepted = predicate(rules, candidate);
        let sentence = string_of(&trim(&chars_of(candidate)));
        let ghost before = texts(chosen@);
        let ghost old_verdicts = verdicts;
        proof {
            verdicts = verdicts.push(accepted);
            assert(pool.take(j + 1).drop_last() == pool.take(j as int));
            assert(verdicts.drop_last() == old_verdicts);
            assert(pool[j as int] == candidate@);
            assert forall|m: int| 0 <= m < j + 1 implies if #[trigger] verdicts[m] {
                may_accept(*predicate, rules, pool.take(j + 1)[m])
            } else {
                may_reject(*predicate, rules, pool.take(j + 1)[m])
            } by {
                if m < j {
                    assert(verdicts[m] == old_verdicts[m]);
                    assert(pool.take(j + 1)[m] == pool.take(j as int)[m]);
                }
            }
        }
        if accepted && !existing_sentences.contains(sentence.as_str()) {
            chosen.push(sentence);
            assert(texts(chosen@) == before.push(trimmed(candidate@)));
            assert forall|i: int| 0 <= i < chosen@.len() implies eligible(
                *predicate,
                rules,
                pool,
                existing_sentences@,
                #[trigger] texts(chosen@)[i],
            ) by {
                if i < before.len() {
                    assert(texts(chosen@)[i] == before[i]);
                } else {
                    assert(may_accept(*predicate, rules, pool[j as int]));
                }
            }
        }
        j += 1;
    }
    assert(pool.take(j as int) == pool);
    chosen
}

/// The sentences taken from the candidates of one text.
///
/// Where `amount` is `usize::MAX`, every candidate that passes the predicate
/// and was not emitted before is taken, in the order of the pool. Else
/// nothing is taken from a pool of at most `amount` candidates, and from a
/// larger pool candidates are drawn at random, none of them twice, until
/// `amount` sentences are found or every candidate was drawn; the sentences
/// come in ascending order, none of them twice.
pub fn pick_sentences<F: Fn(&Rules, &str) -> bool>(
    rules: &Rules,
    sentences_pool: Vec<String>,
    existing_sentences: &StringHashSet,
    amount: usize,
    predicate: F,
    rng: &mut StdRng,
) -> (chosen: Vec<String>)
    requires
        forall|s: &str| call_requires(predicate, (rules, s)),
    ensures
        forall|i: int|
            0 <= i < chosen@.len() ==> eligible(
                predicate,
                rules,
                texts(sentences_pool@),
                existing_sentences@,
                #[trigger] texts(chosen@)[i],
            ),
        amount == usize::MAX ==> exists|verdicts: Seq<bool>|
            possible_verdicts(predicate, rules, texts(sentences_pool@), verdicts) && texts(chosen@)
                == kept(texts(sentences_pool@), existing_sentences@, verdicts),
        amount != usize::MAX ==> chosen@.len() <= amount && ascending(texts(chosen@)),
        amount != usize::MAX && sentences_pool@.len() <= amount ==> chosen@.len() == 0,
        sentences_pool@.len() == 0 ==> chosen@.len() == 0,
        amount != usize::MAX && sentences_pool@.len() > amount && chosen@.len() < amount
            ==> forall|j: int|
            0 <= j < sentences_pool@.len() && must_take(
                predicate,
                rules,
                existing_sentences@,
                #[trigger] texts(sentences_pool@)[j],
            ) ==> texts(chosen@).contains(trimmed(texts(sentences_pool@)[j])),
{
    let total_in_pool = sentences_pool.len();
    if total_in_pool <= amount && amount != usize::MAX {
        return Vec::new();
    }
    if amount == usize::MAX {
        return pick_all(rules, &sentences_pool, existing_sentences, &predicate);
    }
    let ghost pool = texts(sentences_pool@);
    let ghost seen = existing_sentences@;
    let mut chosen: Vec<String> = Vec::new();
    let mut used_indexes: Vec<usize> = Vec::new();
    while chosen.len() < amount && used_indexes.len() < total_in_pool
        invariant
            total_in_pool == sentences_pool@.len(),
            pool == texts(sentences_pool@),
            seen == existing_sentences@,
            forall|s: &str| call_requires(predicate, (rules, s)),
            used_indexes@.len() <= total_in_pool,
            used_indexes@.no_duplicates(),
            forall|k: int| 0 <= k < used_indexes@.len() ==> used_indexes@[k] < total_in_pool,
            chosen@.len() <= amount,
            ascending(texts(chosen@)),
            forall|x: Seq<char>|
                #[trigger] texts(chosen@).contains(x) ==> eligible(predicate, rules, pool, seen, x),
            forall|k: int|
                0 <= k < used_indexes@.len() && must_take(
                    predicate,
                    rules,
                    seen,
                    pool[(#[trigger] used_indexes@[k]) as int],
                ) ==> texts(chosen@).contains(trimmed(pool[used_indexes@[k] as int])),
        decreases total_in_pool - used_indexes@.len(),
    {
        proof {
            lemma_drawn_indexes(used_indexes@, total_in_pool);
        }
        let random_index = get_not_yet_used_index(rng, total_in_pool - 1, &used_indexes);
        let ghost drawn_before = used_indexes@;
        used_indexes.push(random_index);
        let candidate = sentences_pool[random_index].as_str();
        assert(pool[random_index as int] == candidate@);
        let accepted = predicate(rules, candidate);
        let ghost before = texts(chosen@);
        consider(&mut chosen, candidate, accepted, existing_sentences);
        proof {
            lemma_inserted_members(before, trimmed(candidate@));
            let after = texts(chosen@);
            assert forall|x: Seq<char>| #[trigger] after.contains(x) implies eligible(
                predicate,
                rules,
                pool,
                seen,
                x,
            ) by {
                if !before.contains(x) {
                    assert(x == trimmed(pool[random_index as int]));
                    assert(may_accept(predicate, rules, pool[random_index as int]));
                }
            }
            assert forall|k: int|
                0 <= k < used_indexes@.len() && must_take(
                    predicate,
                    rules,
                    seen,
                    pool[(#[trigger] used_indexes@[k]) as int],
                ) implies after.contains(trimmed(pool[used_indexes@[k] as int])) by {
                if k < drawn_before.len() {
                    assert(used_indexes@[k] == drawn_before[k]);
                    assert(before.contains(trimmed(pool[drawn_before[k] as int])));
                } else {
                    assert(used_indexes@[k] == random_index);
                    if !accepted {
                        assert(may_reject(predicate, rules, pool[random_index as int]));
                    }
                }
            }
        }
    }
    proof {
        lemma_drawn_indexes(used_indexes@, total_in_pool);
        if chosen@.len() < amount {
            assert forall|j: int|
                0 <= j < sentences_pool@.len() && must_take(
                    predicate,
                    rules,
                    seen,
                    #[trigger] pool[j],
                ) implies texts(chosen@).contains(trimmed(pool[j])) by {
                assert(used_indexes@.contains(j as usize));
                let k = choose|k: int| 0 <= k < used_indexes@.len() && used_indexes@[k] == j as usize;
                assert(pool[used_indexes@[k] as int] == pool[j]);
            }
        }
        assert forall|i: int| 0 <= i < chosen@.len() implies eligible(
            predicate,
            rules,
            pool,
            seen,
            #[trigger] texts(chosen@)[i],
        ) by {
            assert(texts(chosen@).contains(texts(chosen@)[i]));
        }
    }
    chosen
}

/// The checker's verdict on each candidate.
pub open spec fn checker_verdicts(p: Profile, pool: Seq<Seq<char>>) -> Seq<bool> {
    Seq::new(pool.len(), |j: int| accepts(p, pool[j]))
}

/// The text may be emitted under the checker: it is the trimmed form of an
/// accepted candidate and was not seen before.
pub open spec fn selectable(p: Profile, pool: Seq<Seq<char>>, seen: Set<Seq<char>>, text: Seq<char>) -> bool {
    exists|j: int|
        0 <= j < pool.len() && text == trimmed(#[trigger] pool[j]) && !seen.contains(text)
            && accepts(p, pool[j])
}

/// The texts `part` are a selection from the candidates `pool` of one text
/// under the profile, given what was seen before: each of them may be
/// emitted; without a cap they are all the candidates that may be kept, in
/// their order; with a cap they are at most as many as the cap, in ascending
/// order, none from a pool that is no larger than the cap, and where fewer
/// than the cap came out, every accepted candidate that was not seen before
/// is among them.
pub open spec fn selected_from(
    p: Profile,
    pool: Seq<Seq<char>>,
    seen: Set<Seq<char>>,
    part: Seq<Seq<char>>,
) -> bool {
    &&& forall|i: int| 0 <= i < part.len() ==> selectable(p, pool, seen, #[trigger] part[i])
    &&& p.max_sentences_per_text == usize::MAX ==> part == kept(
        pool,
        seen,
        checker_verdicts(p, pool),
    )
    &&& p.max_sentences_per_text != usize::MAX ==> part.len() <= p.max_sentences_per_text
        && ascending(part)
    &&& p.max_sentences_per_text != usize::MAX && pool.len() <= p.max_sentences_per_text
        ==> part.len() == 0
    &&& p.max_sentences_per_text != usize::MAX && pool.len() > p.max_sentences_per_text
        && part.len() < p.max_sentences_per_text ==> forall|j: int|
        0 <= j < pool.len() && accepts(p, #[trigger] pool[j]) && !seen.contains(trimmed(pool[j]))
            ==> part.contains(trimmed(pool[j]))
}

/// The selector: `pick_sentences` with the checker as predicate and the
/// profile's cap.
pub fn select(
    rules: &Rules,
    candidates: Vec<String>,
    seen: &StringHashSet,
    rng: &mut StdRng,
) -> (emitted: Vec<String>)
    requires
        rules.valid(),
    ensures
        selected_from(rules@, texts(candidates@), seen@, texts(emitted@)),
        forall|i: int|
            0 <= i < emitted@.len() ==> selectable(
                rules@,
                texts(candidates@),
                seen@,
                #[trigger] texts(emitted@)[i],
            ) && accepts(rules@, texts(emitted@)[i]),
        rules.max_sentences_per_text == usize::MAX ==> texts(emitted@) == kept(
            texts(candidates@),
            seen@,
            checker_verdicts(rules@, texts(candidates@)),
        ),
        rules.max_sentences_per_text != usize::MAX ==> emitted@.len()
            <= rules.max_sentences_per_text && ascending(texts(emitted@)),
        rules.max_sentences_per_text != usize::MAX && candidates@.len()
            <= rules.max_sentences_per_text ==> emitted@.len() == 0,
        candidates@.len() == 0 ==> emitted@.len() == 0,
        rules.max_sentences_per_text != usize::MAX && candidates@.len()
            > rules.max_sentences_per_text && emitted@.len() < rules.max_sentences_per_text
            ==> forall|j: int|
            0 <= j < candidates@.len() && accepts(rules@, #[trigger] texts(candidates@)[j])
                && !seen@.contains(trimmed(texts(candidates@)[j])) ==> texts(emitted@).contains(
                trimmed(texts(candidates@)[j]),
            ),
{
    let ghost pool = texts(candidates@);
    let emitted = pick_sentences(
        rules,
        candidates,
        seen,
        rules.max_sentences_per_text,
        check,
        rng,
    );
    proof {
        assert forall|i: int| 0 <= i < emitted@.len() implies selectable(
            rules@,
            pool,
            seen@,
            #[trigger] texts(emitted@)[i],
        ) && accepts(rules@, texts(emitted@)[i]) by {
            let text = texts(emitted@)[i];
            assert(eligible(check, rules, pool, seen@, text));
            let j = choose|j: int|
                0 <= j < pool.len() && text == trimmed(#[trigger] pool[j]) && !seen@.contains(text)
                    && may_accept(check, rules, pool[j]);
            lemma_accepts_trimmed(rules@, pool[j]);
        }
        if rules.max_sentences_per_text == usize::MAX {
            let verdicts = choose|verdicts: Seq<bool>|
                possible_verdicts(check, rules, pool, verdicts) && texts(emitted@) == kept(
                    pool,
                    seen@,
                    verdicts,
                );
            assert(verdicts =~= checker_verdicts(rules@, pool));
        } else if pool.len() > rules.max_sentences_per_text && emitted@.len()
            < rules.max_sentences_per_text {
            assert forall|j: int|
                0 <= j < pool.len() && accepts(rules@, #[trigger] pool[j]) && !seen@.contains(
                    trimmed(pool[j]),
                ) implies texts(emitted@).contains(trimmed(pool[j])) by {
                assert(must_take(check, rules, seen@, pool[j]));
            }
        }
    }
    emitted
}

/// The sentences that one text contributes: its candidates as they are where
/// `no_check` is set, else what the selector takes from them.
pub fn get_sentences(
    rules: &Rules,
    sentences_pool: Vec<String>,
    existing_sentences: &StringHashSet,
    no_check: bool,
    rng: &mut StdRng,
) -> (sentences: Vec<String>)
    requires
        !no_check ==> rules.valid(),
    ensures
        no_check ==> sentences@ == sentences_pool@,
        !no_check ==> selected_from(
            rules@,
            texts(sentences_pool@),
            existing_sentences@,
            texts(sentences@),
        ),
        !no_check ==> forall|i: int|
            0 <= i < sentences@.len() ==> selectable(
                rules@,
                texts(sentences_pool@),
                existing_sentences@,
                #[trigger] texts(sentences@)[i],
            ) && accepts(rules@, texts(sentences@)[i]),
        !no_check && rules.max_sentences_per_text == usize::MAX ==> texts(sentences@) == kept(
            texts(sentences_pool@),
            existing_sentences@,
            checker_verdicts(rules@, texts(sentences_pool@)),
        ),
        !no_check && rules.max_sentences_per_text != usize::MAX ==> sentences@.len()
            <= rules.max_sentences_per_text && ascending(texts(sentences@)),
        !no_check && rules.max_sentences_per_text != usize::MAX && sentences_pool@.len()
            <= rules.max_sentences_per_text ==> sentences@.len() == 0,
        !no_check && rules.max_sentences_per_text != usize::MAX && sentences_pool@.len()
            > rules.max_sentences_per_text && sentences@.len() < rules.max_sentences_per_text
            ==> forall|j: int|
            0 <= j < sentences_pool@.len() && accepts(rules@, #[trigger] texts(sentences_pool@)[j])
                && !existing_sentences@.contains(trimmed(texts(sentences_pool@)[j])) ==> texts(
                sentences@,
            ).contains(trimmed(texts(sentences_pool@)[j])),
{
    if no_check {
        sentences_pool
    } else {
        select(rules, sentences_pool, existing_sentences, rng)
    }
}

} // verus!
