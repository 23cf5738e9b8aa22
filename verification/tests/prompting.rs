use vidsum::openai::count_tokens;
use vidsum::prompts::{clean_transcript, summarize};
use vidsum::selector::SummarizeSelector;

fn words(n: usize) -> String {
    let mut out = String::new();
    let mut i = 0;
    while i < n {
        if i > 0 {
            out.push(' ');
        }
        out.push_str("hello");
        i += 1;
    }
    out
}

#[test]
fn summarize_rejects_fifty_words() {
    let r = summarize(words(50), None, None);
    assert_eq!(
        r.err().unwrap(),
        String::from("Transcript too short to summarize. (50 words in transcript)")
    );
}

#[test]
fn summarize_rejects_exactly_two_hundred_words() {
    let r = summarize(words(200), None, None);
    assert!(r.is_err());
}

#[test]
fn summarize_accepts_two_hundred_one_words() {
    let r = summarize(words(201), None, None);
    assert!(r.is_ok());
}

#[test]
fn summarize_thousand_words_states_goal_and_gets_premium_tier() {
    let r = summarize(words(1000), None, None);
    let (msgs, tokens) = r.unwrap();
    assert_eq!(msgs.len(), 2);
    assert_eq!(msgs[0].role, "system");
    assert!(msgs[0].content.contains("should be about 200 words."));
    assert_eq!(msgs[1].role, "user");
    assert!(msgs[1].content.contains("\n\nTranscript: hello hello"));
    assert!(msgs[1].content.contains("about 200 words."));
    assert!(tokens < 13000);
    let sel = SummarizeSelector::standard();
    let tier = sel.select(tokens).unwrap();
    assert!(tokens < 3000);
    assert_eq!(tier.name, "gpt-4");
}

#[test]
fn summarize_renders_title_channel_and_speaker() {
    let r = summarize(
        words(300),
        Some(String::from("A Title")),
        Some(String::from("A Channel")),
    );
    let (msgs, _) = r.unwrap();
    assert!(msgs[1].content.starts_with("Title: A Title\nChannel: A Channel\n\nTranscript: "));
    assert!(msgs[1].content.contains("fluff like 'A Channel says'"));
}

#[test]
fn summarize_without_channel_uses_generic_speaker() {
    let (msgs, _) = summarize(words(300), None, None).unwrap();
    assert!(msgs[1].content.contains("fluff like 'the speaker says'"));
}

#[test]
fn summarize_goal_is_capped_at_two_thousand() {
    let (msgs, _) = summarize(words(15000), None, None).unwrap();
    assert!(msgs[0].content.contains("should be about 2000 words."));
}

#[test]
fn clean_rejects_twenty_words() {
    let r = clean_transcript(words(20), None, None);
    assert_eq!(
        r.err().unwrap(),
        String::from("Transcript too short to clean up. (20 words in transcript)")
    );
}

#[test]
fn clean_small_transcript_is_single_message_set() {
    let text = words(30);
    let (prompts, _) = clean_transcript(text.clone(), None, None).unwrap();
    assert_eq!(prompts.len(), 1);
    assert_eq!(prompts[0].len(), 2);
    assert_eq!(prompts[0][0].role, "system");
    assert_eq!(prompts[0][1].role, "user");
    let fragment = extract_fragment(&prompts[0][1].content);
    assert_eq!(fragment, text);
}

fn extract_fragment(content: &str) -> String {
    let prefix = "\n\nTranscript: ";
    let start = content.find(prefix).unwrap() + prefix.len();
    let rest = &content[start..];
    let end = rest.find("\n\n\nClean up the transcript above").unwrap();
    rest[..end].to_string()
}

#[test]
fn clean_huge_transcript_splits_into_three_lossless_sets() {
    let text = words(120_000);
    let (prompts, _) = clean_transcript(text.clone(), None, None).unwrap();
    assert_eq!(prompts.len(), 3);
    let mut fragments = Vec::new();
    for set in &prompts {
        assert_eq!(set.len(), 2);
        fragments.push(extract_fragment(&set[1].content));
    }
    assert_eq!(fragments.join(" "), text);
}

#[test]
fn count_tokens_grows_with_content() {
    let short = vec![vidsum::openai::ChatMessage {
        role: "user",
        content: String::from("hello"),
    }];
    let long = vec![vidsum::openai::ChatMessage {
        role: "user",
        content: words(100),
    }];
    let a = count_tokens(&short);
    let b = count_tokens(&long);
    assert!(a > 0);
    assert!(b > a);
    assert_eq!(b, count_tokens(&long));
}
