use vocab_trainer::hint::hint;

#[test]
fn hint_zero_mistakes_masks_every_letter() {
    assert_eq!(hint("cat", 0, 0), "___");
    assert_eq!(hint("ice cream", 0, 0), "___ _____");
}

#[test]
fn hint_reveals_letters_by_mistake_count() {
    assert_eq!(hint("cat", 1, 0), "c__");
    assert_eq!(hint("cat", 2, 0), "ca_");
    assert_eq!(hint("cat", 3, 0), "cat");
    assert_eq!(hint("cat", 9, 0), "cat");
}

#[test]
fn hint_skips_non_letters_when_counting() {
    assert_eq!(hint("a-b", 1, 0), "a-_");
    assert_eq!(hint("a-b", 2, 0), "a-b");
    assert_eq!(hint("x 1y", 2, 0), "x 1y");
}

#[test]
fn hint_shows_non_ascii_characters() {
    assert_eq!(hint("caf\u{e9}", 0, 0), "___\u{e9}");
    assert_eq!(hint("caf\u{e9}", 1, 0), "c__\u{e9}");
}

#[test]
fn hint_drops_typed_prefix() {
    assert_eq!(hint("cat", 2, 1), "a_");
    assert_eq!(hint("cat", 0, 2), "_");
    assert_eq!(hint("cat", 0, 3), "");
    assert_eq!(hint("cat", 0, 7), "");
}

#[test]
fn hint_more_mistakes_never_remask() {
    let terms = ["cat", "ice cream", "a-b c", "x_1"];
    for term in terms {
        for m1 in 0..6usize {
            let h1 = hint(term, m1, 0);
            let h2 = hint(term, m1 + 1, 0);
            for (i, (c1, c2)) in h1.chars().zip(h2.chars()).enumerate() {
                let orig = term.chars().nth(i).unwrap();
                if c1 == orig {
                    assert_eq!(c2, orig);
                }
            }
        }
    }
}
