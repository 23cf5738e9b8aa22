use vidsum::utils::break_text_into_chunks;
use vidsum::youtube::part_label;

#[test]
fn chunk_small_text_is_single_chunk() {
    let r = break_text_into_chunks(String::from("hello world"), 4096);
    assert_eq!(r, vec![String::from("hello world")]);
}

#[test]
fn chunk_empty_input_is_one_empty_chunk() {
    let r = break_text_into_chunks(String::new(), 10);
    assert_eq!(r, vec![String::new()]);
}

#[test]
fn chunk_joins_paragraphs_with_blank_line() {
    let r = break_text_into_chunks(String::from("a\nb"), 4096);
    assert_eq!(r, vec![String::from("a\n\nb")]);
}

#[test]
fn chunk_trims_paragraphs() {
    let r = break_text_into_chunks(String::from("  a  \n  b  "), 4096);
    assert_eq!(r, vec![String::from("a\n\nb")]);
}

#[test]
fn chunk_collapses_newline_runs() {
    let r = break_text_into_chunks(String::from("a\n\n\nb"), 100);
    assert_eq!(r, vec![String::from("a\n\nb")]);
}

#[test]
fn chunk_oversized_paragraph_splits_on_words() {
    let r = break_text_into_chunks(String::from("aa bb cc"), 4);
    assert_eq!(r, vec![String::from("aabb"), String::from("cc")]);
}

#[test]
fn chunk_single_word_over_budget_overflows() {
    let r = break_text_into_chunks(String::from("aaaaaaaaaa"), 3);
    assert_eq!(r, vec![String::from("aaaaaaaaaa")]);
    assert!(r[0].chars().count() > 3);
    assert!(!r[0].contains(' '));
}

#[test]
fn chunk_budget_holds_for_every_chunk() {
    let text = "alpha beta gamma delta epsilon zeta eta theta iota kappa".repeat(20);
    let r = break_text_into_chunks(text.clone(), 50);
    for c in &r {
        assert!(c.chars().count() <= 50 || !c.contains(' '));
    }
    let glued: String = r.concat().chars().filter(|c| !c.is_whitespace()).collect();
    let original: String = text.chars().filter(|c| !c.is_whitespace()).collect();
    assert_eq!(glued, original);
}

#[test]
fn chunk_nine_thousand_chars_gives_two_parts() {
    let mut text = String::new();
    text.push_str(&" ".repeat(452));
    text.push_str(&"A".repeat(4000));
    text.push_str(&" ".repeat(452));
    text.push('\n');
    text.push_str(&"B".repeat(4095));
    assert_eq!(text.chars().count(), 9000);
    let r = break_text_into_chunks(text, 4096);
    assert_eq!(r.len(), 2);
    assert_eq!(r[0], "A".repeat(4000));
    assert_eq!(r[1], "B".repeat(4095));
    assert!(r[0].chars().count() <= 4096);
    assert!(r[1].chars().count() <= 4096);
    assert_eq!(part_label(0, 2), String::from(" (part 1/2)"));
    assert_eq!(part_label(1, 2), String::from(" (part 2/2)"));
}

#[test]
fn part_label_is_empty_for_single_segment() {
    assert_eq!(part_label(0, 1), String::new());
}
