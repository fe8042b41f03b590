use typing_test::{Corpus, CorpusError, LengthGroup, Quote};

fn quote(id: u32, length: u32) -> Quote {
    Quote {
        id,
        text: "q".repeat(length as usize),
        source: format!("s{}", id),
        length,
    }
}

fn sample() -> Corpus {
    Corpus {
        language: "english".to_string(),
        groups: vec![LengthGroup { min: 10, max: 20 }, LengthGroup { min: 20, max: 30 }],
        quotes: vec![quote(0, 10), quote(1, 15), quote(2, 19), quote(3, 20), quote(4, 25), quote(5, 30)],
    }
}

#[test]
fn candidates_exclude_bounds() {
    let c = sample();
    assert_eq!(c.candidates(0), vec![1, 2]);
    assert_eq!(c.candidates(1), vec![4]);
}

#[test]
fn candidates_out_of_range_use_first_group() {
    let c = sample();
    assert_eq!(c.candidates(9), vec![1, 2]);
}

#[test]
fn select_picks_within_group() {
    let c = sample();
    for _ in 0..50 {
        let i = c.select(0).unwrap();
        assert!(i == 1 || i == 2);
        let q = &c.quotes[i];
        assert!(10 < q.length && q.length < 20);
        assert_eq!(c.select(1), Ok(4));
    }
}

#[test]
fn select_reaches_every_candidate() {
    let c = sample();
    let mut seen = [false; 2];
    for _ in 0..200 {
        let i = c.select(0).unwrap();
        seen[i - 1] = true;
    }
    assert!(seen[0] && seen[1]);
}

#[test]
fn select_empty_group_fails() {
    let c = Corpus {
        language: "english".to_string(),
        groups: vec![LengthGroup { min: 15, max: 16 }],
        quotes: vec![quote(0, 15), quote(1, 16)],
    };
    assert_eq!(c.select(0), Err(CorpusError::EmptySelection));
}

#[test]
fn select_without_groups_fails() {
    let c = Corpus {
        language: "english".to_string(),
        groups: vec![],
        quotes: vec![quote(0, 15)],
    };
    assert_eq!(c.select(0), Err(CorpusError::EmptySelection));
    assert!(c.candidates(0).is_empty());
}
