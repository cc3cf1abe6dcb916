use vocab_trainer::numfmt::format_i64;
use vocab_trainer::numfmt::format_u32;
use vocab_trainer::numfmt::parse_i64;
use vocab_trainer::numfmt::parse_u32;
use vocab_trainer::persist::format_scores;
use vocab_trainer::persist::format_scores_signed;
use vocab_trainer::persist::parse_score_line;
use vocab_trainer::persist::parse_scores;
use vocab_trainer::persist::parse_scores_signed;
use vocab_trainer::score::Score;
use vocab_trainer::table::ScoreTable;

#[test]
fn score_increments() {
    let s = Score::default();
    assert_eq!(s, Score { correct: 0, incorrect: 0 });
    let s = s.increment_correct();
    assert_eq!(s, Score { correct: 1, incorrect: 0 });
    let s = s.increment_incorrect();
    assert_eq!(s, Score { correct: 1, incorrect: 1 });
    assert_eq!(s.total_tries(), 2);
}

#[test]
fn numerals_format() {
    assert_eq!(format_u32(0), "0");
    assert_eq!(format_u32(42), "42");
    assert_eq!(format_u32(4294967295), "4294967295");
    assert_eq!(format_i64(-3), "-3");
    assert_eq!(format_i64(0), "0");
    assert_eq!(format_i64(i64::MIN), "-9223372036854775808");
}

#[test]
fn numerals_parse() {
    assert_eq!(parse_u32("0"), Some(0));
    assert_eq!(parse_u32("007"), Some(7));
    assert_eq!(parse_u32("+12"), Some(12));
    assert_eq!(parse_u32(""), None);
    assert_eq!(parse_u32("4294967295"), Some(4294967295));
    assert_eq!(parse_u32("4294967296"), None);
    assert_eq!(parse_u32("12x"), None);
    assert_eq!(parse_u32("-1"), None);
    assert_eq!(parse_i64("-9223372036854775808"), Some(i64::MIN));
    assert_eq!(parse_i64("-9223372036854775809"), None);
    assert_eq!(parse_i64("+-3"), None);
    assert_eq!(parse_i64("15"), Some(15));
}

#[test]
fn score_line_fields() {
    let (term, sc) = parse_score_line("dog\t2\t1");
    assert_eq!(term, "dog");
    assert_eq!(sc, Score { correct: 2, incorrect: 1 });
    let (term, sc) = parse_score_line("dog");
    assert_eq!(term, "dog");
    assert_eq!(sc, Score { correct: 0, incorrect: 0 });
    let (term, sc) = parse_score_line("dog\tx\t4");
    assert_eq!(term, "dog");
    assert_eq!(sc, Score { correct: 0, incorrect: 4 });
    let (term, sc) = parse_score_line("dog\t5");
    assert_eq!(term, "dog");
    assert_eq!(sc, Score { correct: 5, incorrect: 0 });
    let (term, sc) = parse_score_line("dog\t1\t2\t3");
    assert_eq!(term, "dog");
    assert_eq!(sc, Score { correct: 1, incorrect: 2 });
}

#[test]
fn scores_round_trip_pair_layout() {
    let mut t: ScoreTable<Score> = ScoreTable::new();
    t.insert(String::from("dog"), Score { correct: 3, incorrect: 1 });
    t.insert(String::from("ice cream"), Score { correct: 0, incorrect: 7 });
    t.insert(String::from("cat"), Score { correct: 2, incorrect: 0 });
    let lines = format_scores(&t);
    assert_eq!(lines, vec!["dog\t3\t1", "ice cream\t0\t7", "cat\t2\t0"]);
    let back = parse_scores(&lines);
    assert_eq!(back.items, t.items);
}

#[test]
fn scores_round_trip_signed_layout() {
    let mut t: ScoreTable<i64> = ScoreTable::new();
    t.insert(String::from("dog"), 4);
    t.insert(String::from("cat"), -2);
    t.insert(String::from("mouse"), 0);
    let lines = format_scores_signed(&t);
    assert_eq!(lines, vec!["dog\t4", "cat\t-2", "mouse\t0"]);
    let back = parse_scores_signed(&lines);
    assert_eq!(back.items, t.items);
}

#[test]
fn parse_scores_later_duplicate_wins() {
    let lines = vec![String::from("dog\t1\t0"), String::from("dog\t5\t5")];
    let t = parse_scores(&lines);
    assert_eq!(t.items.len(), 1);
    assert_eq!(t.get("dog"), Some(Score { correct: 5, incorrect: 5 }));
}

#[test]
fn table_insert_and_get() {
    let mut t: ScoreTable<Score> = ScoreTable::new();
    assert_eq!(t.get("dog"), None);
    t.insert(String::from("dog"), Score { correct: 1, incorrect: 0 });
    assert_eq!(t.get("dog"), Some(Score { correct: 1, incorrect: 0 }));
    t.insert(String::from("dog"), Score { correct: 9, incorrect: 9 });
    assert_eq!(t.get("dog"), Some(Score { correct: 9, incorrect: 9 }));
    assert_eq!(t.items.len(), 1);
    assert_eq!(t.get("cat"), None);
}

#[test]
fn ordinal_strings() {
    assert_eq!(vocab_trainer::numfmt::ordinal_string(1), "1st");
    assert_eq!(vocab_trainer::numfmt::ordinal_string(2), "2nd");
    assert_eq!(vocab_trainer::numfmt::ordinal_string(3), "3rd");
    assert_eq!(vocab_trainer::numfmt::ordinal_string(4), "4th");
    assert_eq!(vocab_trainer::numfmt::ordinal_string(12), "12th");
}
