use vidsum::selector::{CleanSelector, SummarizeSelector};

#[test]
fn summarize_tier_rejects_just_over_the_limit() {
    let sel = SummarizeSelector::standard();
    let r = sel.select(13_001);
    assert_eq!(
        r.err().unwrap(),
        String::from("Transcript too long to summarize. (13001 tokens)")
    );
}

#[test]
fn summarize_tier_accepts_exactly_the_limit() {
    let sel = SummarizeSelector::standard();
    let tier = sel.select(13_000).unwrap();
    assert_eq!(tier.name, "gpt-4-32k");
    assert!(13_000 <= tier.ceiling);
}

#[test]
fn summarize_tier_premium_below_three_thousand() {
    let sel = SummarizeSelector::standard();
    assert_eq!(sel.select(2_999).unwrap().name, "gpt-4");
    assert_eq!(sel.select(3_000).unwrap().name, "gpt-4-32k");
    assert_eq!(sel.select(0).unwrap().name, "gpt-4");
}

#[test]
fn clean_tier_is_single_up_to_ceiling() {
    let sel = CleanSelector::standard();
    let tier = sel.select(75_000).unwrap();
    assert_eq!(tier.name, "gpt-4-1106-preview");
    let r = sel.select(75_001);
    assert_eq!(
        r.err().unwrap(),
        String::from("Transcript too long to clean up. (75001 tokens)")
    );
}
