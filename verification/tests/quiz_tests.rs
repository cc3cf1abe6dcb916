use vocab_trainer::quiz::GameState;
use vocab_trainer::record::parse_entries;
use vocab_trainer::score::Score;
use vocab_trainer::session::classify_input;
use vocab_trainer::session::play_round;
use vocab_trainer::session::RoundOutcome;
use vocab_trainer::session::UIResponse;
use vocab_trainer::table::ScoreTable;

fn two_entry_state() -> GameState {
    let lines = vec![String::from("dog / an animal /"), String::from("cat / a feline /")];
    GameState::new(parse_entries(&lines), ScoreTable::new())
}

#[test]
fn next_question_walks_the_list_then_stops() {
    let mut state = two_entry_state();
    let q1 = state.next_question().unwrap();
    assert_eq!(q1.index, 0);
    let q2 = state.next_question().unwrap();
    assert_eq!(q2.index, 1);
    assert!(state.next_question().is_none());
    assert!(state.next_question().is_none());
    assert_eq!(state.progress, 2);
}

#[test]
fn next_question_resets_mistakes() {
    let mut state = two_entry_state();
    let q1 = state.next_question().unwrap();
    assert!(!state.answer_question(&q1, String::from("wrong")));
    assert_eq!(state.mistakes, 1);
    state.next_question().unwrap();
    assert_eq!(state.mistakes, 0);
}

#[test]
fn correct_answer_keeps_mistakes_and_scores_first_try() {
    let mut state = two_entry_state();
    let q1 = state.next_question().unwrap();
    assert!(state.answer_question(&q1, String::from("dog")));
    assert_eq!(state.mistakes, 0);
    assert_eq!(state.get_score("dog"), Some(Score { correct: 1, incorrect: 0 }));
}

#[test]
fn wrong_answer_only_counts_a_mistake() {
    let mut state = two_entry_state();
    let q1 = state.next_question().unwrap();
    assert!(!state.answer_question(&q1, String::from("Dog")));
    assert_eq!(state.mistakes, 1);
    assert_eq!(state.get_score("dog"), None);
    assert!(!state.answer_question(&q1, String::from("do")));
    assert_eq!(state.mistakes, 2);
    assert!(state.answer_question(&q1, String::from("dog")));
    assert_eq!(state.mistakes, 2);
    assert_eq!(state.get_score("dog"), Some(Score { correct: 0, incorrect: 1 }));
}

#[test]
fn classify_quit_prefixes() {
    assert!(matches!(classify_input(String::from(":")), UIResponse::Quit));
    assert!(matches!(classify_input(String::from(":q")), UIResponse::Quit));
    assert!(matches!(classify_input(String::from(":qu")), UIResponse::Quit));
    assert!(matches!(classify_input(String::from(":quit")), UIResponse::Quit));
}

#[test]
fn classify_other_input_passes_through() {
    match classify_input(String::from(":quitx")) {
        UIResponse::Return(s) => assert_eq!(s, ":quitx"),
        UIResponse::Quit => panic!("a non-command was swallowed"),
    }
    match classify_input(String::from(":x")) {
        UIResponse::Return(s) => assert_eq!(s, ":x"),
        UIResponse::Quit => panic!("a non-command was swallowed"),
    }
    match classify_input(String::from("dog")) {
        UIResponse::Return(s) => assert_eq!(s, "dog"),
        UIResponse::Quit => panic!("a plain answer was swallowed"),
    }
    match classify_input(String::from("")) {
        UIResponse::Return(s) => assert_eq!(s, ""),
        UIResponse::Quit => panic!("an empty answer was swallowed"),
    }
}

#[test]
fn full_session_records_both_terms() {
    let mut state = two_entry_state();
    let q1 = state.next_question().unwrap();
    assert_eq!(
        play_round(&mut state, &q1, UIResponse::Return(String::from("dog"))),
        RoundOutcome::Advance
    );
    let q2 = state.next_question().unwrap();
    assert_eq!(
        play_round(&mut state, &q2, UIResponse::Return(String::from("wrong"))),
        RoundOutcome::Retry
    );
    assert_eq!(
        play_round(&mut state, &q2, UIResponse::Return(String::from("cat"))),
        RoundOutcome::Advance
    );
    assert!(state.next_question().is_none());
    let lines = vocab_trainer::persist::format_scores(&state.scores);
    assert_eq!(lines, vec!["dog\t1\t0", "cat\t0\t1"]);
}

#[test]
fn quit_aborts_without_touching_state() {
    let mut state = two_entry_state();
    let q1 = state.next_question().unwrap();
    assert_eq!(play_round(&mut state, &q1, UIResponse::Quit), RoundOutcome::Abort);
    assert_eq!(state.mistakes, 0);
    assert!(state.scores.items.is_empty());
}

#[test]
fn question_entry_lookup() {
    let mut state = two_entry_state();
    let q1 = state.next_question().unwrap();
    assert_eq!(state.entry(&q1).term, "dog");
    assert_eq!(state.entry(&q1).phrases[0].body, " an animal ");
}
