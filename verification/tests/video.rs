use vidsum::youtube::{
    plan_clean_transcript, plan_summarize, stitch_clean_responses, video_id,
};
use vidsum::text::u64_to_string;

#[test]
fn video_id_of_watch_url() {
    let r = video_id("https://www.youtube.com/watch?v=dQw4w9WgXcQ");
    assert_eq!(r.unwrap(), String::from("dQw4w9WgXcQ"));
}

#[test]
fn video_id_of_short_link() {
    assert_eq!(video_id("https://youtu.be/abc_-123").unwrap(), String::from("abc_-123"));
}

#[test]
fn video_id_of_shorts_url() {
    assert_eq!(
        video_id("https://www.youtube.com/shorts/XyZ09").unwrap(),
        String::from("XyZ09")
    );
}

#[test]
fn video_id_stops_at_query_parameters() {
    assert_eq!(
        video_id("https://www.youtube.com/watch?v=abc&t=10s").unwrap(),
        String::from("abc")
    );
}

#[test]
fn video_id_found_inside_surrounding_text() {
    assert_eq!(
        video_id("look at this https://youtu.be/xyz now").unwrap(),
        String::from("xyz")
    );
}

#[test]
fn video_id_absent_without_recognized_prefix() {
    assert_eq!(video_id("https://example.com/watch?v=abc"), None);
    assert_eq!(video_id("no links here"), None);
}

#[test]
fn video_id_needs_at_least_one_identifier_character() {
    assert_eq!(video_id("https://youtu.be/"), None);
    assert_eq!(video_id("https://youtu.be/ and text"), None);
}

#[test]
fn plan_summarize_picks_a_model_and_keeps_messages() {
    let text = vec!["hello"; 300].join(" ");
    let req = plan_summarize(text, Some(String::from("T")), Some(String::from("C"))).unwrap();
    assert_eq!(req.model, "gpt-4");
    assert_eq!(req.messages.len(), 2);
    assert_eq!(req.messages[0].role, "system");
    assert_eq!(req.messages[1].role, "user");
}

#[test]
fn plan_summarize_propagates_too_short() {
    let r = plan_summarize(String::from("tiny input"), None, None);
    assert_eq!(
        r.err().unwrap(),
        String::from("Transcript too short to summarize. (2 words in transcript)")
    );
}

#[test]
fn plan_clean_uses_the_single_cleanup_tier() {
    let text = vec!["hello"; 40].join(" ");
    let reqs = plan_clean_transcript(text, None, None).unwrap();
    assert_eq!(reqs.len(), 1);
    assert_eq!(reqs[0].model, "gpt-4-1106-preview");
    assert_eq!(reqs[0].messages.len(), 2);
}

#[test]
fn plan_clean_propagates_too_short() {
    let r = plan_clean_transcript(String::from("a b c"), None, None);
    assert_eq!(
        r.err().unwrap(),
        String::from("Transcript too short to clean up. (3 words in transcript)")
    );
}

#[test]
fn stitch_joins_and_reparagraphs() {
    let parts = vec![String::from("First. Second."), String::from("Third here.")];
    assert_eq!(
        stitch_clean_responses(&parts),
        String::from("First.\n\nSecond.\n\nThird here.")
    );
}

#[test]
fn stitch_breaks_even_on_abbreviations() {
    let parts = vec![String::from("The U.S. economy grew.")];
    assert_eq!(
        stitch_clean_responses(&parts),
        String::from("The U.S.\n\neconomy grew.")
    );
}

#[test]
fn decimal_rendering_is_exact() {
    assert_eq!(u64_to_string(0), String::from("0"));
    assert_eq!(u64_to_string(7), String::from("7"));
    assert_eq!(u64_to_string(120_000), String::from("120000"));
    assert_eq!(u64_to_string(u64::MAX), String::from("18446744073709551615"));
}
