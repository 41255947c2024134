//! The driver's state: what a run has emitted so far, and what each text
//! adds to it.

use rand::rngs::StdRng;
use vstd::prelude::*;
use vstd::hash_set::StringHashSet;
use vstd::seq_lib::lemma_no_dup_in_concat;
use crate::checker::accepts;
use crate::order::{ascending, lemma_ascending_distinct, lemma_to_set_push, texts};
use crate::rules::{Profile, Rules, RulesError};
use crate::selector::{checker_verdicts, get_sentences, kept, selectable, selected_from};
use crate::trim::trimmed;

verus! {

/// The trimmed forms of the candidates differ from each other.
pub open spec fn distinct_trimmed(pool: Seq<Seq<char>>) -> bool {
    forall|i: int, j: int| 0 <= i < j < pool.len() ==> trimmed(pool[i]) != trimmed(pool[j])
}

/// Selection from this pool cannot take a sentence twice: the cap is
/// bounded, or the trimmed candidates differ from each other.
pub open spec fn selects_once(rules: &Rules, pool: Seq<Seq<char>>) -> bool {
    rules.max_sentences_per_text != usize::MAX || distinct_trimmed(pool)
}

/// What is kept of a pool are trimmed candidates that were not seen before;
/// where the trimmed candidates differ from each other, none is kept twice.
pub proof fn lemma_kept(pool: Seq<Seq<char>>, seen: Set<Seq<char>>, verdicts: Seq<bool>)
    ensures
        forall|i: int|
            0 <= i < kept(pool, seen, verdicts).len() ==> !seen.contains(
                #[trigger] kept(pool, seen, verdicts)[i],
            ) && exists|j: int|
                0 <= j < pool.len() && kept(pool, seen, verdicts)[i] == trimmed(#[trigger] pool[j]),
        distinct_trimmed(pool) ==> kept(pool, seen, verdicts).no_duplicates(),
        kept(pool, seen, verdicts).len() <= pool.len(),
    decreases pool.len(),
{
    if pool.len() > 0 && verdicts.len() == pool.len() {
        let front = kept(pool.drop_last(), seen, verdicts.drop_last());
        lemma_kept(pool.drop_last(), seen, verdicts.drop_last());
        let all = kept(pool, seen, verdicts);
        assert forall|i: int| 0 <= i < all.len() implies !seen.contains(#[trigger] all[i])
            && exists|j: int| 0 <= j < pool.len() && all[i] == trimmed(#[trigger] pool[j]) by {
            if i < front.len() {
                assert(all[i] == front[i]);
                let j = choose|j: int|
                    0 <= j < pool.drop_last().len() && front[i] == trimmed(
                        #[trigger] pool.drop_last()[j],
                    );
                assert(pool.drop_last()[j] == pool[j]);
            } else {
                assert(all[i] == trimmed(pool[pool.len() - 1]));
            }
        }
        if distinct_trimmed(pool) {
            assert(distinct_trimmed(pool.drop_last())) by {
                assert forall|i: int, j: int| 0 <= i < j < pool.drop_last().len() implies trimmed(
                    pool.drop_last()[i],
                ) != trimmed(pool.drop_last()[j]) by {
                    assert(pool.drop_last()[i] == pool[i]);
                    assert(pool.drop_last()[j] == pool[j]);
                }
            }
            assert forall|i: int, k: int| 0 <= i < k < all.len() implies all[i] != all[k] by {
                if k < front.len() {
                    assert(all[i] == front[i] && all[k] == front[k]);
                } else {
                    assert(all[i] == front[i]);
                    let j = choose|j: int|
                        0 <= j < pool.drop_last().len() && front[i] == trimmed(
                            #[trigger] pool.drop_last()[j],
                        );
                    assert(pool.drop_last()[j] == pool[j]);
                }
            }
        }
    }
}

/// The number of characters of all the texts of a list.
pub open spec fn total_chars(list: Seq<Seq<char>>) -> nat
    decreases list.len(),
{
    if list.len() == 0 {
        0
    } else {
        total_chars(list.drop_last()) + list.last().len()
    }
}

/// A count as the machine holds it: it stops at `usize::MAX`.
pub open spec fn capped(count: nat) -> nat {
    if count > usize::MAX {
        usize::MAX as nat
    } else {
        count
    }
}

/// The state of a run: the sentences emitted so far and their count.
pub struct Run {
    seen: StringHashSet,
    sentence_count: usize,
    char_count: usize,
    history: Ghost<Seq<Seq<char>>>,
}

impl Run {
    /// The sentences that the run has emitted, in order.
    pub closed spec fn emitted(&self) -> Seq<Seq<char>> {
        self.history@
    }

    /// The set of sentences that later texts may not repeat.
    pub closed spec fn seen(&self) -> Set<Seq<char>> {
        self.seen@
    }

    /// The state's invariant: the seen set holds what was emitted.
    pub closed spec fn wf(&self) -> bool {
        self.seen@ == self.history@.to_set()
    }

    /// The number of sentences emitted, as far as the machine counts.
    pub closed spec fn counted(&self) -> nat {
        self.sentence_count as nat
    }

    /// The number of characters emitted, as far as the machine counts.
    pub closed spec fn chars_counted(&self) -> nat {
        self.char_count as nat
    }

    /// The seen set of a state that meets its invariant holds exactly what
    /// was emitted.
    pub proof fn lemma_seen_is_emitted(&self)
        requires
            self.wf(),
        ensures
            self.seen() == self.emitted().to_set(),
    {
    }

    /// The state at the start of a run: nothing was emitted.
    pub fn new() -> (run: Run)
        ensures
            run.wf(),
            run.emitted() == Seq::<Seq<char>>::empty(),
            run.seen() == Set::<Seq<char>>::empty(),
            run.counted() == 0,
            run.chars_counted() == 0,
    {
        let run = Run {
            seen: StringHashSet::new(),
            sentence_count: 0,
            char_count: 0,
            history: Ghost(Seq::empty()),
        };
        assert(run.history@.to_set() =~= Set::<Seq<char>>::empty());
        run
    }

    /// The number of sentences emitted; it stops at `usize::MAX`.
    pub fn sentence_count(&self) -> (count: usize)
        ensures
            count == self.counted(),
    {
        self.sentence_count
    }

    /// The number of characters emitted; it stops at `usize::MAX`.
    pub fn char_count(&self) -> (count: usize)
        ensures
            count == self.chars_counted(),
    {
        self.char_count
    }

    /// Whether the run has emitted `sentence`.
    pub fn has_emitted(&self, sentence: &str) -> (yes: bool)
        ensures
            yes == self.seen().contains(sentence@),
    {
        self.seen.contains(sentence)
    }

    /// Takes the sentences of one text from its candidates and adds them to
    /// what the run has emitted.
    pub fn process(
        &mut self,
        rules: &Rules,
        candidates: Vec<String>,
        no_check: bool,
        rng: &mut StdRng,
    ) -> (sentences: Vec<String>)
        requires
            old(self).wf(),
            !no_check ==> rules.valid(),
        ensures
            final(self).wf(),
            final(self).emitted() == old(self).emitted() + texts(sentences@),
            final(self).seen() == old(self).seen().union(texts(sentences@).to_set()),
            final(self).counted() == capped(old(self).counted() + sentences@.len() as nat),
            final(self).chars_counted() == capped(
                old(self).chars_counted() + total_chars(texts(sentences@)),
            ),
            no_check ==> sentences@ == candidates@,
            !no_check ==> selected_from(
                rules@,
                texts(candidates@),
                old(self).seen(),
                texts(sentences@),
            ),
            !no_check ==> forall|i: int|
                0 <= i < sentences@.len() ==> selectable(
                    rules@,
                    texts(candidates@),
                    old(self).seen(),
                    #[trigger] texts(sentences@)[i],
                ) && accepts(rules@, texts(sentences@)[i]),
            !no_check && rules.max_sentences_per_text == usize::MAX ==> texts(sentences@) == kept(
                texts(candidates@),
                old(self).seen(),
                checker_verdicts(rules@, texts(candidates@)),
            ),
            !no_check && rules.max_sentences_per_text != usize::MAX ==> sentences@.len()
                <= rules.max_sentences_per_text && ascending(texts(sentences@)),
            !no_check && rules.max_sentences_per_text != usize::MAX && candidates@.len()
                <= rules.max_sentences_per_text ==> sentences@.len() == 0,
            !no_check && rules.max_sentences_per_text != usize::MAX && candidates@.len()
                > rules.max_sentences_per_text && sentences@.len() < rules.max_sentences_per_text
                ==> forall|j: int|
                0 <= j < candidates@.len() && accepts(rules@, #[trigger] texts(candidates@)[j])
                    && !old(self).seen().contains(trimmed(texts(candidates@)[j])) ==> texts(
                    sentences@,
                ).contains(trimmed(texts(candidates@)[j])),
            !no_check && selects_once(rules, texts(candidates@)) && old(
                self,
            ).emitted().no_duplicates() ==> final(self).emitted().no_duplicates(),
    {
        let ghost pool = texts(candidates@);
        let ghost seen_before = self.seen@;
        let ghost emitted_before = self.history@;
        let sentences = get_sentences(rules, candidates, &self.seen, no_check, rng);
        let ghost added = texts(sentences@);
        proof {
            if !no_check && selects_once(rules, pool) && emitted_before.no_duplicates() {
                if rules.max_sentences_per_text == usize::MAX {
                    lemma_kept(pool, seen_before, checker_verdicts(rules@, pool));
                } else {
                    lemma_ascending_distinct(added);
                }
                assert forall|i: int, j: int|
                    0 <= i < emitted_before.len() && 0 <= j < added.len() implies emitted_before[i]
                    != added[j] by {
                    assert(selectable(rules@, pool, seen_before, added[j]));
                    assert(emitted_before.to_set().contains(emitted_before[i]));
                }
                lemma_no_dup_in_concat(emitted_before, added);
            }
        }
        let mut i: usize = 0;
        let ghost count_before = self.sentence_count as nat;
        let ghost chars_before = self.char_count as nat;
        assert(added.take(0) == Seq::<Seq<char>>::empty());
        assert(emitted_before + added.take(0) == emitted_before);
        assert(seen_before.union(added.take(0).to_set()) =~= seen_before);
        while i < sentences.len()
            invariant
                i <= sentences.len(),
                added == texts(sentences@),
                self.sentence_count == capped(count_before + i as nat),
                self.char_count == capped(chars_before + total_chars(added.take(i as int))),
                self.history@ == emitted_before + added.take(i as int),
                self.seen@ == self.history@.to_set(),
                self.seen@ == seen_before.union(added.take(i as int).to_set()),
            decreases sentences.len() - i,
        {
            let sentence = sentences[i].clone();
            let length = sentence.as_str().unicode_len();
            self.char_count = self.char_count.saturating_add(length);
            self.sentence_count = self.sentence_count.saturating_add(1);
            proof {
                lemma_to_set_push(self.history@, sentence@);
                lemma_to_set_push(added.take(i as int), sentence@);
                assert(added.take(i + 1) == added.take(i as int).push(sentence@));
                assert(added.take(i + 1).drop_last() == added.take(i as int));
                assert(emitted_before + added.take(i + 1) == self.history@.push(sentence@));
                self.history@ = self.history@.push(sentence@);
            }
            self.seen.insert(sentence);
            assert(self.seen@ =~= seen_before.union(added.take(i + 1).to_set()));
            i += 1;
        }
        assert(added.take(i as int) == added);
        sentences
    }
}

/// The candidates of each text of a run.
pub open spec fn pools_of(pools: Seq<Vec<String>>) -> Seq<Seq<Seq<char>>> {
    Seq::new(pools.len(), |k: int| texts(pools[k]@))
}

/// All the candidates of a run, text after text.
pub open spec fn all_candidates(pools: Seq<Seq<Seq<char>>>) -> Seq<Seq<char>>
    decreases pools.len(),
{
    if pools.len() == 0 {
        Seq::empty()
    } else {
        all_candidates(pools.drop_last()) + pools.last()
    }
}

/// What a run without cap emits, text after text: of each text the trimmed
/// candidates that the profile accepts and that the run has not emitted
/// before that text.
pub open spec fn all_kept(p: Profile, pools: Seq<Seq<Seq<char>>>) -> Seq<Seq<char>>
    decreases pools.len(),
{
    if pools.len() == 0 {
        Seq::empty()
    } else {
        let before = all_kept(p, pools.drop_last());
        before + kept(pools.last(), before.to_set(), checker_verdicts(p, pools.last()))
    }
}

/// The texts `parts` are what a run with check takes from the candidates of
/// each text, in the order of the texts: each part is a selection from the
/// candidates of its text, given what the parts before it hold.
pub open spec fn run_of_selections(
    p: Profile,
    pools: Seq<Seq<Seq<char>>>,
    parts: Seq<Seq<Seq<char>>>,
) -> bool {
    &&& parts.len() == pools.len()
    &&& forall|k: int|
        0 <= k < parts.len() ==> selected_from(
            p,
            pools[k],
            all_candidates(parts.take(k)).to_set(),
            #[trigger] parts[k],
        )
}

/// A whole run over the candidates of each text, in the order of the texts:
/// the sentences that it emits, or the first fault of the profile. A run
/// without check does not look at the profile.
pub fn collect(rules: &Rules, pools: Vec<Vec<String>>, no_check: bool, rng: &mut StdRng) -> (result:
    Result<Vec<String>, RulesError>)
    ensures
        result is Ok <==> no_check || rules.valid(),
        result matches Err(e) ==> rules.fault() == Some(e),
        result matches Ok(sentences) ==> {
            &&& no_check ==> texts(sentences@) == all_candidates(pools_of(pools@))
            &&& !no_check ==> exists|parts: Seq<Seq<Seq<char>>>|
                texts(sentences@) == all_candidates(parts) && #[trigger] run_of_selections(
                    rules@,
                    pools_of(pools@),
                    parts,
                )
            &&& !no_check && rules.max_sentences_per_text == usize::MAX ==> texts(sentences@)
                == all_kept(rules@, pools_of(pools@))
            &&& !no_check ==> forall|i: int|
                0 <= i < sentences@.len() ==> accepts(rules@, #[trigger] texts(sentences@)[i])
            &&& !no_check && (forall|k: int|
                0 <= k < pools@.len() ==> selects_once(rules, texts((#[trigger] pools@[k])@)))
                ==> texts(sentences@).no_duplicates()
            &&& !no_check && rules.max_sentences_per_text != usize::MAX ==> sentences@.len()
                <= pools@.len() * rules.max_sentences_per_text
        },
{
    if !no_check {
        match rules.validate() {
            Ok(()) => {},
            Err(e) => {
                return Err(e);
            },
        }
    }
    let mut run = Run::new();
    let mut all: Vec<String> = Vec::new();
    let mut k: usize = 0;
    let ghost every = pools_of(pools@);
    let ghost mut parts: Seq<Seq<Seq<char>>> = Seq::empty();
    assert(texts(all@) == Seq::<Seq<char>>::empty());
    assert(every.take(0) == Seq::<Seq<Seq<char>>>::empty());
    while k < pools.len()
        invariant
            k <= pools.len(),
            every == pools_of(pools@),
            !no_check ==> rules.valid(),
            run.wf(),
            run.emitted() == texts(all@),
            !no_check ==> texts(all@) == all_candidates(parts) && run_of_selections(
                rules@,
                every.take(k as int),
                parts,
            ),
            no_check ==> texts(all@) == all_candidates(every.take(k as int)),
            !no_check && rules.max_sentences_per_text == usize::MAX ==> texts(all@) == all_kept(
                rules@,
                every.take(k as int),
            ),
            !no_check ==> forall|i: int|
                0 <= i < all@.len() ==> accepts(rules@, #[trigger] texts(all@)[i]),
            !no_check && (forall|m: int|
                0 <= m < pools@.len() ==> selects_once(rules, texts((#[trigger] pools@[m])@)))
                ==> texts(all@).no_duplicates(),
            !no_check && rules.max_sentences_per_text != usize::MAX ==> all@.len() <= k
                * rules.max_sentences_per_text,
        decreases pools.len() - k,
    {
        let ghost before = texts(all@);
        let ghost pool = texts(pools@[k as int]@);
        proof {
            run.lemma_seen_is_emitted();
            assert(every.take(k + 1).drop_last() == every.take(k as int));
            assert(every.take(k + 1).last() == pool);
        }
        let candidates = pools[k].clone();
        assert(texts(candidates@) == pool);
        let sentences = run.process(rules, candidates, no_check, rng);
        let ghost added = texts(sentences@);
        proof {
            assert((k + 1) * rules.max_sentences_per_text == k * rules.max_sentences_per_text
                + rules.max_sentences_per_text) by (nonlinear_arith);
        }
        let mut i: usize = 0;
        assert(added.take(0) == Seq::<Seq<char>>::empty());
        assert(before + added.take(0) == before);
        while i < sentences.len()
            invariant
                i <= sentences.len(),
                added == texts(sentences@),
                texts(all@) == before + added.take(i as int),
            decreases sentences.len() - i,
        {
            let ghost listed = texts(all@);
            let sentence = sentences[i].clone();
            all.push(sentence);
            assert(texts(all@) == listed.push(sentence@));
            assert(added.take(i + 1) == added.take(i as int).push(sentence@));
            assert(before + added.take(i + 1) == listed.push(sentence@));
            i += 1;
        }
        assert(added.take(i as int) == added);
        proof {
            if !no_check {
                let more = parts.push(added);
                assert(more.drop_last() == parts);
                assert(more.take(k as int) == parts);
                assert forall|j: int| 0 <= j < more.len() implies selected_from(
                    rules@,
                    every.take(k + 1)[j],
                    all_candidates(more.take(j)).to_set(),
                    #[trigger] more[j],
                ) by {
                    if j < k {
                        assert(more.take(j) == parts.take(j));
                        assert(more[j] == parts[j]);
                        assert(every.take(k + 1)[j] == every.take(k as int)[j]);
                    }
                }
                parts = more;
            }
        }
        assert(!no_check ==> forall|i: int|
            0 <= i < all@.len() ==> accepts(rules@, #[trigger] texts(all@)[i])) by {
            if !no_check {
                assert forall|i: int| 0 <= i < all@.len() implies accepts(
                    rules@,
                    #[trigger] texts(all@)[i],
                ) by {
                    if i < before.len() {
                        assert(texts(all@)[i] == before[i]);
                    } else {
                        assert(texts(all@)[i] == added[i - before.len()]);
                    }
                }
            }
        }
        k += 1;
    }
    assert(every.take(k as int) == every);
    Ok(all)
}

} // verus!
