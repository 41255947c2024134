use common_voice_sentence_collector::checker::check;
use common_voice_sentence_collector::driver::{collect, Run};
use common_voice_sentence_collector::rules::{Rules, RulesError};
use rand::rngs::StdRng;
use rand::SeedableRng;

fn strings(list: &[&str]) -> Vec<String> {
    list.iter().map(|s| (*s).to_string()).collect()
}

#[test]
fn test_run_starts_empty() {
    let run = Run::new();

    assert_eq!(run.sentence_count(), 0);
    assert_eq!(run.char_count(), 0);
    assert!(!run.has_emitted("Anything"));
}

#[test]
fn test_run_does_not_emit_a_sentence_twice() {
    let rules = Rules {
        max_sentences_per_text: 2,
        ..Default::default()
    };
    let mut rng = StdRng::seed_from_u64(5);
    let mut run = Run::new();

    let first = run.process(&rules, strings(&["Alpha one", "Bravo two", "No 1"]), false, &mut rng);
    assert_eq!(first, strings(&["Alpha one", "Bravo two"]));
    assert!(run.has_emitted("Alpha one"));
    assert_eq!(run.sentence_count(), 2);
    assert_eq!(run.char_count(), 18);

    let second = run.process(&rules, strings(&["Bravo two", "Alpha one", "Charlie"]), false, &mut rng);
    assert_eq!(second, strings(&["Charlie"]));
    assert_eq!(run.sentence_count(), 3);
    assert_eq!(run.char_count(), 25);

    let third = run.process(&rules, strings(&["Bravo two", " Alpha one ", "Charlie"]), false, &mut rng);
    assert_eq!(third.len(), 0);
    assert_eq!(run.sentence_count(), 3);
}

#[test]
fn test_run_counts_characters_not_bytes() {
    let rules = Rules {
        max_sentences_per_text: usize::MAX,
        ..Default::default()
    };
    let mut rng = StdRng::seed_from_u64(5);
    let mut run = Run::new();
    run.process(&rules, strings(&["\u{c9}t\u{e9}"]), false, &mut rng);

    assert_eq!(run.sentence_count(), 1);
    assert_eq!(run.char_count(), 3);
}

#[test]
fn test_run_without_check_emits_the_candidates() {
    let rules = Rules::default();
    let mut rng = StdRng::seed_from_u64(5);
    let mut run = Run::new();
    let pool = strings(&["1 number", "same", "same"]);

    assert_eq!(run.process(&rules, pool.clone(), true, &mut rng), pool);
    assert_eq!(run.sentence_count(), 3);
    assert!(run.has_emitted("same"));
}

#[test]
fn test_collect_emits_accepted_sentences_once() {
    let rules = Rules {
        max_sentences_per_text: 2,
        ..Default::default()
    };
    for seed in 0..20 {
        let mut rng = StdRng::seed_from_u64(seed);
        let pools = vec![
            strings(&["One fine sentence", "Another fine sentence", "A third sentence", "Has 1 number"]),
            strings(&["One fine sentence", "Another fine sentence", "A third sentence", "A fourth one"]),
            strings(&["Too few", "Candidates"]),
            vec![],
        ];
        let emitted = collect(&rules, pools, false, &mut rng).unwrap();

        assert!(emitted.len() <= 4);
        for (i, sentence) in emitted.iter().enumerate() {
            assert!(check(&rules, sentence));
            assert!(!emitted[..i].contains(sentence));
        }
        assert!(emitted.len() >= 3);
    }
}

#[test]
fn test_collect_unbounded_keeps_the_order_of_the_texts() {
    let rules = Rules {
        max_sentences_per_text: usize::MAX,
        ..Default::default()
    };
    let mut rng = StdRng::seed_from_u64(9);
    let pools = vec![strings(&["Zulu", "Has 1 number", "Yankee"]), strings(&["Yankee", "Xray"])];

    assert_eq!(collect(&rules, pools, false, &mut rng).unwrap(), strings(&["Zulu", "Yankee", "Xray"]));
}

#[test]
fn test_collect_reports_a_fault_of_the_profile() {
    let rules = Rules {
        other_patterns: vec![String::from("(")],
        ..Default::default()
    };
    let mut rng = StdRng::seed_from_u64(9);

    assert_eq!(
        collect(&rules, vec![strings(&["Zulu"])], false, &mut rng),
        Err(RulesError::OtherPattern(0))
    );
    assert_eq!(
        collect(&rules, vec![strings(&["Zulu"])], true, &mut rng),
        Ok(strings(&["Zulu"]))
    );
}

#[test]
fn test_collect_without_texts() {
    let rules = Rules::default();
    let mut rng = StdRng::seed_from_u64(9);

    assert_eq!(collect(&rules, vec![], false, &mut rng), Ok(vec![]));
    assert_eq!(collect(&rules, vec![vec![]], false, &mut rng), Ok(vec![]));
}
