use typing_test::{App, Corpus, CorpusError, Key, LengthGroup, Quote};

fn quote(id: u32, text: &str, source: &str) -> Quote {
    Quote {
        id,
        text: text.to_string(),
        source: source.to_string(),
        length: text.chars().count() as u32,
    }
}

fn corpus(groups: &[(u32, u32)], quotes: Vec<Quote>) -> Corpus {
    Corpus {
        language: "english".to_string(),
        groups: groups.iter().map(|&(min, max)| LengthGroup { min, max }).collect(),
        quotes,
    }
}

fn cat_corpus() -> Corpus {
    corpus(&[(0, 100)], vec![quote(1, "the cat sat", "a book")])
}

fn two_line_corpus() -> Corpus {
    let text = "aaaaaaaaaa bbbbbbbbbb cccccccccc dddddddddd eeeeeeeeee ffff";
    corpus(&[(0, 100)], vec![quote(7, text, "somewhere")])
}

fn ready(c: &Corpus) -> App {
    let mut app = App::new(0);
    app.new_quote(c).unwrap();
    app
}

fn type_str(app: &mut App, c: &Corpus, s: &str, now: u64) {
    for ch in s.chars() {
        app.handle_key_event(c, Key::Char(ch), now).unwrap();
    }
}

fn line_strings(app: &App) -> Vec<String> {
    app.sentence.iter().map(|l| l.iter().collect()).collect()
}

#[test]
fn typing_whole_quote_finishes() {
    let c = cat_corpus();
    let mut app = ready(&c);
    assert_eq!(line_strings(&app), vec!["the cat sat".to_string()]);
    assert_eq!(app.sentence_source, "a book");
    type_str(&mut app, &c, "the cat sat", 5_000);
    assert_eq!(app.correct, 11);
    assert_eq!(app.incorrect, 0);
    assert_eq!(app.words, 2);
    assert_eq!(app.current_line, 1);
    assert_eq!(app.done, Some(5_000));
    assert_eq!(app.start, 5_000);
    let typed: String = app.typed[0].iter().collect();
    assert_eq!(typed, "the cat sat");
}

#[test]
fn wrong_letter_advances_buffer_and_counts_at_commit() {
    let c = cat_corpus();
    let mut app = ready(&c);
    type_str(&mut app, &c, "the c", 1);
    app.handle_key_event(&c, Key::Char('x'), 2).unwrap();
    assert_eq!(app.typing, vec!['t', 'h', 'e', ' ', 'c', 'x']);
    assert_eq!(app.correct, 0);
    assert_eq!(app.incorrect, 0);
    assert_eq!(app.preview(), (5, 1));
    type_str(&mut app, &c, "t sat", 3);
    assert_eq!(app.correct, 10);
    assert_eq!(app.incorrect, 1);
    assert!(app.done.is_some());
}

#[test]
fn letter_where_space_expected_is_rejected() {
    let c = cat_corpus();
    let mut app = ready(&c);
    type_str(&mut app, &c, "the", 1);
    app.handle_key_event(&c, Key::Char('x'), 2).unwrap();
    assert_eq!(app.typing, vec!['t', 'h', 'e']);
    assert_eq!(app.words, 0);
}

#[test]
fn space_where_letter_expected_is_rejected() {
    let c = cat_corpus();
    let mut app = ready(&c);
    type_str(&mut app, &c, "th", 1);
    app.handle_key_event(&c, Key::Char(' '), 2).unwrap();
    assert_eq!(app.typing, vec!['t', 'h']);
    assert_eq!(app.words, 0);
}

#[test]
fn tab_character_counts_as_whitespace() {
    let c = cat_corpus();
    let mut app = ready(&c);
    type_str(&mut app, &c, "the", 1);
    app.handle_key_event(&c, Key::Char('\t'), 2).unwrap();
    assert_eq!(app.typing.len(), 4);
    assert_eq!(app.words, 1);
}

#[test]
fn first_key_records_start() {
    let c = cat_corpus();
    let mut app = ready(&c);
    app.handle_key_event(&c, Key::Char('t'), 1_234).unwrap();
    app.handle_key_event(&c, Key::Char('h'), 9_999).unwrap();
    assert_eq!(app.start, 1_234);
}

#[test]
fn backspace_removes_and_takes_word_back() {
    let c = cat_corpus();
    let mut app = ready(&c);
    type_str(&mut app, &c, "the ", 1);
    assert_eq!(app.words, 1);
    app.handle_key_event(&c, Key::Backspace, 2).unwrap();
    assert_eq!(app.words, 0);
    assert_eq!(app.typing, vec!['t', 'h', 'e']);
    app.handle_key_event(&c, Key::Backspace, 2).unwrap();
    assert_eq!(app.typing, vec!['t', 'h']);
    assert_eq!(app.words, 0);
}

#[test]
fn backspace_cannot_reach_committed_line() {
    let c = two_line_corpus();
    let mut app = ready(&c);
    assert_eq!(app.sentence.len(), 2);
    let first: String = app.sentence[0].iter().collect();
    assert_eq!(first, "aaaaaaaaaa bbbbbbbbbb cccccccccc dddddddddd ");
    type_str(&mut app, &c, &first, 1);
    assert_eq!(app.current_line, 1);
    assert_eq!(app.correct + app.incorrect, first.chars().count());
    let words = app.words;
    app.handle_key_event(&c, Key::Backspace, 2).unwrap();
    assert_eq!(app.current_line, 1);
    assert!(app.typing.is_empty());
    assert_eq!(app.typed.len(), 1);
    assert_eq!(app.words, words);
    assert_eq!(words, 4);
}

#[test]
fn two_lines_finish_with_totals() {
    let c = two_line_corpus();
    let mut app = ready(&c);
    type_str(&mut app, &c, "aaaaaaaaaa bbbbbbbbbb cccccccccc dddddddddd ", 1);
    assert!(app.done.is_none());
    type_str(&mut app, &c, "eeeeeeeeee ffff", 7);
    assert_eq!(app.correct, 59);
    assert_eq!(app.incorrect, 0);
    assert_eq!(app.words, 5);
    assert_eq!(app.done, Some(7));
}

#[test]
fn keys_after_finish_are_ignored() {
    let c = cat_corpus();
    let mut app = ready(&c);
    type_str(&mut app, &c, "the cat sat", 1);
    app.handle_key_event(&c, Key::Char('z'), 2).unwrap();
    app.handle_key_event(&c, Key::Backspace, 2).unwrap();
    app.handle_key_event(&c, Key::Left, 2).unwrap();
    assert_eq!(app.correct, 11);
    assert_eq!(app.current_line, 1);
    assert_eq!(app.done, Some(1));
}

#[test]
fn tab_after_finish_resets() {
    let c = cat_corpus();
    let mut app = ready(&c);
    type_str(&mut app, &c, "the cxt sat", 1);
    assert_eq!(app.incorrect, 1);
    app.handle_key_event(&c, Key::Tab, 2).unwrap();
    assert_eq!(app.correct, 0);
    assert_eq!(app.incorrect, 0);
    assert_eq!(app.words, 0);
    assert_eq!(app.current_line, 0);
    assert!(app.typed.is_empty());
    assert!(app.done.is_none());
    assert_eq!(line_strings(&app), vec!["the cat sat".to_string()]);
}

#[test]
fn tab_while_typing_does_nothing() {
    let c = cat_corpus();
    let mut app = ready(&c);
    type_str(&mut app, &c, "th", 1);
    app.handle_key_event(&c, Key::Tab, 2).unwrap();
    assert_eq!(app.typing, vec!['t', 'h']);
}

#[test]
fn esc_sets_exit() {
    let c = cat_corpus();
    let mut app = ready(&c);
    assert!(!app.exit);
    app.handle_key_event(&c, Key::Esc, 1).unwrap();
    assert!(app.exit);
}

fn three_group_corpus() -> Corpus {
    corpus(
        &[(0, 10), (10, 20), (20, 40)],
        vec![
            quote(1, "short one", "s"),
            quote(2, "a middle quote", "m"),
            quote(3, "a rather longer quote here", "l"),
        ],
    )
}

#[test]
fn navigation_wraps_both_ways() {
    let c = three_group_corpus();
    let mut app = ready(&c);
    assert_eq!(app.selected_group, 0);
    assert_eq!(app.sentence_source, "s");
    app.handle_key_event(&c, Key::Left, 1).unwrap();
    assert_eq!(app.selected_group, 2);
    assert_eq!(app.sentence_source, "l");
    app.handle_key_event(&c, Key::Right, 1).unwrap();
    assert_eq!(app.selected_group, 0);
    app.handle_key_event(&c, Key::Right, 1).unwrap();
    assert_eq!(app.selected_group, 1);
    assert_eq!(app.sentence_source, "m");
}

#[test]
fn navigation_ignored_while_typing() {
    let c = three_group_corpus();
    let mut app = ready(&c);
    app.handle_key_event(&c, Key::Char('s'), 1).unwrap();
    app.handle_key_event(&c, Key::Right, 1).unwrap();
    assert_eq!(app.selected_group, 0);
    assert_eq!(app.typing, vec!['s']);
}

#[test]
fn empty_group_reports_empty_selection() {
    let c = corpus(&[(0, 100), (200, 300)], vec![quote(1, "the cat sat", "a")]);
    let mut app = ready(&c);
    assert_eq!(
        app.handle_key_event(&c, Key::Right, 1),
        Err(CorpusError::EmptySelection)
    );
    assert_eq!(app.selected_group, 1);
    assert!(app.sentence.is_empty());
    app.handle_key_event(&c, Key::Char('t'), 1).unwrap();
    assert!(app.typing.is_empty());
    app.handle_key_event(&c, Key::Left, 1).unwrap();
    assert_eq!(app.selected_group, 0);
    assert_eq!(line_strings(&app), vec!["the cat sat".to_string()]);
}

#[test]
fn out_of_range_selection_is_clamped() {
    let wide = three_group_corpus();
    let narrow = cat_corpus();
    let mut app = ready(&wide);
    app.handle_key_event(&wide, Key::Left, 1).unwrap();
    assert_eq!(app.selected_group, 2);
    app.new_quote(&narrow).unwrap();
    assert_eq!(app.selected_group, 0);
    assert_eq!(app.groups, narrow.groups);
    assert_eq!(line_strings(&app), vec!["the cat sat".to_string()]);
}

#[test]
fn empty_last_line_is_committed_with_the_line_before() {
    let text = format!("{} ", "y".repeat(50));
    let c = corpus(&[(0, 100)], vec![quote(1, &text, "x")]);
    let mut app = ready(&c);
    assert_eq!(line_strings(&app), vec![text.clone(), String::new()]);
    type_str(&mut app, &c, &text, 4);
    assert_eq!(app.current_line, 2);
    assert_eq!(app.typed.len(), 2);
    assert!(app.typed[1].is_empty());
    assert_eq!(app.correct, 51);
    assert_eq!(app.incorrect, 0);
    assert_eq!(app.words, 1);
    assert_eq!(app.done, Some(4));
}

#[test]
fn quote_without_text_is_refused() {
    let c = corpus(&[(0, 100)], vec![Quote { id: 1, text: String::new(), source: "x".to_string(), length: 5 }]);
    let mut app = App::new(0);
    assert_eq!(app.new_quote(&c), Err(CorpusError::EmptyQuote));
    assert!(app.sentence.is_empty());
    app.handle_key_event(&c, Key::Char('a'), 1).unwrap();
    assert!(app.typing.is_empty());
    assert!(app.done.is_none());
}

#[test]
fn start_quote_wraps_text() {
    let mut app = App::new(0);
    assert_eq!(app.start_quote(&quote(3, "the cat sat", "src")), Ok(()));
    assert_eq!(line_strings(&app), vec!["the cat sat".to_string()]);
    assert_eq!(app.sentence_source, "src");
    let mut other = App::new(0);
    assert_eq!(other.start_quote(&quote(4, "", "src")), Err(CorpusError::EmptyQuote));
}

#[test]
fn count_mistakes_tallies_buffer() {
    let c = cat_corpus();
    let mut app = ready(&c);
    app.typing = vec!['t', 'o', 'e'];
    app.count_mistakes();
    assert_eq!(app.correct, 2);
    assert_eq!(app.incorrect, 1);
}

#[test]
fn correctness_mask_marks_positions() {
    let mask = typing_test::session::correctness_mask(&vec!['a', 'b', 'c'], &vec!['a', 'x', 'c', ' ']);
    assert_eq!(mask, vec![true, false, true, true]);
}
