//! Prompt construction for the two operations: summarize and
//! clean-transcript. A summarize request is a single message set; a
//! clean-transcript request is split into several message sets when its token
//! estimate exceeds a fixed per-call budget, partitioning the transcript's
//! words into equal-sized contiguous groups.

use vstd::prelude::*;
use crate::openai::{count_tokens, msgs_view, token_estimate, ChatMessage};
use crate::text::{
    chars_to_vec, cloned_chars, digits_spec, join_chars, join_with, lemma_join_split, split_chars,
    split_on, string_from_chars, u64_to_string,
};

verus! {

/// The per-call token budget above which a clean-transcript request is split.
pub const MAX_TOKENS_PER_INVOCATION: usize = 50_000;

/// The word-count view of an option of text.
pub open spec fn opt_view(o: Option<String>) -> Option<Seq<char>> {
    match o {
        Some(s) => Some(s@),
        None => None,
    }
}

/// The number of words of a transcript: pieces of a split on single spaces.
pub open spec fn word_count(s: Seq<char>) -> nat {
    split_chars(s, ' ').len()
}

/// The stated target length of a summary, in words.
pub open spec fn summarize_goal(wc: nat) -> nat {
    if wc / 5 < 2000 {
        wc / 5
    } else {
        2000
    }
}

/// The "Title: ..." line of a prompt, when a title is present.
pub open spec fn title_part(title: Option<Seq<char>>) -> Seq<char> {
    match title {
        Some(t) => "Title: "@ + t,
        None => Seq::<char>::empty(),
    }
}

/// The "Channel: ..." line of a prompt, when a channel name is present.
pub open spec fn channel_part(channel: Option<Seq<char>>) -> Seq<char> {
    match channel {
        Some(c) => "\nChannel: "@ + c,
        None => Seq::<char>::empty(),
    }
}

/// The name used to personalize the anti-filler instruction: the channel
/// name, or a generic fallback.
pub open spec fn speaker_name(channel: Option<Seq<char>>) -> Seq<char> {
    match channel {
        Some(c) => c,
        None => "the speaker"@,
    }
}

/// The system message of a summarize request.
pub open spec fn summarize_system_content(goal: nat) -> Seq<char> {
    "You are a summarization assistant. When the user gives you a message, you respond with a summary of the information inside. Just summarize the information without saying \"the speaker says\" or similar. The message will be an autogenerated transcript of a youtube video, and may have transcription errors and improperly separated speakers. Your summary should be about "@
        + digits_spec(goal) + " words."@
}

/// The user message of a summarize request.
pub open spec fn summarize_user_content(
    transcript: Seq<char>,
    title: Option<Seq<char>>,
    channel: Option<Seq<char>>,
    goal: nat,
) -> Seq<char> {
    title_part(title) + channel_part(channel) + "\n\nTranscript: "@ + transcript
        + "\n\n\nBe as concise as possible in your summary. Repeat the information as without extra fluff like '"@
        + speaker_name(channel)
        + " says'. Use full markdown syntax, and break the summary into paragraphs. Emphasize the most important information in **bold**. Remember that your summary should be about "@
        + digits_spec(goal)
        + " words. Just return the summary without repeating the Title or Channel, and don't write `Summary:`"@
}

/// The rejection message for a transcript too short to summarize.
pub open spec fn too_short_summarize_msg(wc: nat) -> Seq<char> {
    "Transcript too short to summarize. ("@ + digits_spec(wc) + " words in transcript)"@
}

/// The system message of a clean-transcript request.
pub open spec fn clean_system_content() -> Seq<char> {
    "You are a transcription assistant. The user will send an autogenerated transcript of a youtube video, which may have transcription errors, punctuation errors, and improperly separated speakers. You respond with a cleaned-up version of the transcript. The channel name and video title will be included in the message for additional context, but you should not include them in your response"@
}

/// The user message of a clean-transcript request.
pub open spec fn clean_user_content(
    transcript: Seq<char>,
    title: Option<Seq<char>>,
    channel: Option<Seq<char>>,
) -> Seq<char> {
    title_part(title) + channel_part(channel) + "\n\nTranscript: "@ + transcript
        + "\n\n\nClean up the transcript above, fixing punctuation, transcription errors, and improperly separated speakers. Use full markdown syntax, and break it into paragraphs. Emphasize the most important information in **bold**. Just return the transcript without repeating the Title or Channel, and don't write `Transcript:`."@
}

/// The rejection message for a transcript too short to clean up.
pub open spec fn too_short_clean_msg(wc: nat) -> Seq<char> {
    "Transcript too short to clean up. ("@ + digits_spec(wc) + " words in transcript)"@
}

/// The role/content view of a clean-transcript message pair.
pub open spec fn clean_pair_view(
    transcript: Seq<char>,
    title: Option<Seq<char>>,
    channel: Option<Seq<char>>,
) -> Seq<(Seq<char>, Seq<char>)> {
    seq![
        ("system"@, clean_system_content()),
        ("user"@, clean_user_content(transcript, title, channel)),
    ]
}

/// The contiguous word groups of size `k` (the last group may be smaller).
pub open spec fn word_groups(ws: Seq<Seq<char>>, k: nat) -> Seq<Seq<Seq<char>>>
    decreases ws.len(),
{
    if k == 0 || ws.len() == 0 {
        Seq::<Seq<Seq<char>>>::empty()
    } else if ws.len() <= k {
        seq![ws]
    } else {
        seq![ws.take(k as int)] + word_groups(ws.skip(k as int), k)
    }
}

/// Saturating 64-bit addition, as a mathematical function.
pub open spec fn sat_add64(a: nat, b: nat) -> nat {
    if a + b > u64::MAX {
        u64::MAX as nat
    } else {
        a + b
    }
}

/// The total token estimate of the message sets built for the given word
/// groups, saturating at the 64-bit limit.
pub open spec fn clean_sets_cost(
    groups: Seq<Seq<Seq<char>>>,
    title: Option<Seq<char>>,
    channel: Option<Seq<char>>,
) -> nat
    decreases groups.len(),
{
    if groups.len() == 0 {
        0
    } else {
        sat_add64(
            clean_sets_cost(groups.drop_last(), title, channel),
            token_estimate(clean_pair_view(join_chars(groups.last(), ' '), title, channel)),
        )
    }
}

/// Each word group joined into one transcript piece with single spaces.
pub open spec fn joined_groups(gs: Seq<Seq<Seq<char>>>) -> Seq<Seq<char>> {
    gs.map_values(|g: Seq<Seq<char>>| join_chars(g, ' '))
}

proof fn lemma_word_groups_nonempty(ws: Seq<Seq<char>>, k: nat)
    requires
        k > 0,
        ws.len() > 0,
    ensures
        word_groups(ws, k).len() >= 1,
{
}

proof fn lemma_join_chars_split(ws: Seq<Seq<char>>, sep: char, k: int)
    requires
        0 < k < ws.len(),
    ensures
        join_chars(ws, sep) == join_chars(ws.take(k), sep) + seq![sep] + join_chars(
            ws.skip(k),
            sep,
        ),
    decreases k,
{
    if k == 1 {
        assert(ws.take(1) =~~= seq![ws[0]]);
        assert(join_chars(seq![ws[0]], sep) == ws[0]);
        assert(ws.skip(1) =~~= ws.drop_first());
        assert(join_chars(ws, sep) == ws[0] + seq![sep] + join_chars(ws.drop_first(), sep));
    } else {
        let df = ws.drop_first();
        lemma_join_chars_split(df, sep, k - 1);
        assert(ws.take(k).len() >= 2);
        assert(ws.take(k)[0] == ws[0]);
        assert(ws.take(k).drop_first() =~~= df.take(k - 1));
        assert(join_chars(ws.take(k), sep) == ws[0] + seq![sep] + join_chars(
            df.take(k - 1),
            sep,
        ));
        assert(ws.skip(k) =~~= df.skip(k - 1));
        assert(join_chars(ws, sep) == ws[0] + seq![sep] + join_chars(df, sep));
        assert(ws[0] + seq![sep] + (join_chars(df.take(k - 1), sep) + seq![sep] + join_chars(
            df.skip(k - 1),
            sep,
        )) =~= (ws[0] + seq![sep] + join_chars(df.take(k - 1), sep)) + seq![sep] + join_chars(
            df.skip(k - 1),
            sep,
        ));
    }
}

proof fn lemma_grouped_join(ws: Seq<Seq<char>>, k: nat)
    requires
        k > 0,
        ws.len() > 0,
    ensures
        join_chars(joined_groups(word_groups(ws, k)), ' ') == join_chars(ws, ' '),
    decreases ws.len(),
{
    if ws.len() <= k {
        assert(word_groups(ws, k) == seq![ws]);
        assert(joined_groups(seq![ws]) =~~= seq![join_chars(ws, ' ')]);
        assert(join_chars(seq![join_chars(ws, ' ')], ' ') == join_chars(ws, ' '));
    } else {
        let head = ws.take(k as int);
        let tail = ws.skip(k as int);
        assert(tail.len() > 0);
        lemma_grouped_join(tail, k);
        lemma_word_groups_nonempty(tail, k);
        assert(word_groups(ws, k) == seq![head] + word_groups(tail, k));
        assert(joined_groups(seq![head] + word_groups(tail, k)) =~~= seq![
            join_chars(head, ' '),
        ] + joined_groups(word_groups(tail, k)));
        let rest = joined_groups(word_groups(tail, k));
        assert(rest.len() >= 1);
        let whole = seq![join_chars(head, ' ')] + rest;
        assert(whole.len() >= 2);
        assert(whole[0] == join_chars(head, ' '));
        assert(whole.drop_first() =~~= rest);
        assert(join_chars(whole, ' ') == join_chars(head, ' ') + seq![' '] + join_chars(
            rest,
            ' ',
        ));
        lemma_join_chars_split(ws, ' ', k as int);
    }
}

/// Word-split losslessness: for any transcript and any positive group size,
/// joining each group's words with single spaces and the groups themselves
/// with single spaces restores the transcript text exactly.
pub proof fn lemma_partition_lossless(transcript: Seq<char>, k: nat)
    requires
        k > 0,
    ensures
        join_chars(joined_groups(word_groups(split_chars(transcript, ' '), k)), ' ')
            == transcript,
{
    crate::text::lemma_split_chars_nonempty(transcript, ' ');
    lemma_grouped_join(split_chars(transcript, ' '), k);
    lemma_join_split(transcript, ' ');
}

fn count_words(s: &String) -> (n: usize)
    ensures
        n == word_count(s@),
{
    let cv = chars_to_vec(s.as_str());
    let parts = split_on(&cv, ' ');
    parts.len()
}

fn clone_opt(o: &Option<String>) -> (r: Option<String>)
    ensures
        r == *o,
{
    match o {
        Some(s) => Some(s.clone()),
        None => None,
    }
}

/// Builds the single summarize message set, or rejects a transcript of 200
/// words or fewer. On success the pair of system and user messages states
/// the target summary length, and the returned count is the token estimate
/// of the pair.
pub fn summarize(raw_transcript: String, title: Option<String>, channel_name: Option<String>) -> (r:
    Result<(Vec<ChatMessage>, u64), String>)
    ensures
        ({
            let wc = word_count(raw_transcript@);
            let goal = summarize_goal(wc);
            match r {
                Err(e) => wc <= 200 && e@ == too_short_summarize_msg(wc),
                Ok((msgs, tokens)) => {
                    &&& wc > 200
                    &&& msgs@.len() == 2
                    &&& msgs@[0].role@ == "system"@
                    &&& msgs@[0].content@ == summarize_system_content(goal)
                    &&& msgs@[1].role@ == "user"@
                    &&& msgs@[1].content@ == summarize_user_content(
                        raw_transcript@,
                        opt_view(title),
                        opt_view(channel_name),
                        goal,
                    )
                    &&& tokens as nat == token_estimate(msgs_view(msgs@))
                },
            }
        }),
{
    let words: usize = count_words(&raw_transcript);
    if words <= 200 {
        let mut e = String::from_str("Transcript too short to summarize. (");
        let d = u64_to_string(words as u64);
        e.append(d.as_str());
        e.append(" words in transcript)");
        proof {
            assert(words as u64 as nat == words as nat);
            assert(e@ =~= too_short_summarize_msg(word_count(raw_transcript@)));
        }
        return Err(e);
    }
    let goal_length: usize = {
        let g = words / 5;
        if g < 2000 {
            g
        } else {
            2000
        }
    };
    proof {
        assert(goal_length as u64 as nat == goal_length as nat);
        assert(goal_length as nat == summarize_goal(word_count(raw_transcript@)));
    }

    let mut sys = String::from_str(
        "You are a summarization assistant. When the user gives you a message, you respond with a summary of the information inside. Just summarize the information without saying \"the speaker says\" or similar. The message will be an autogenerated transcript of a youtube video, and may have transcription errors and improperly separated speakers. Your summary should be about ",
    );
    let d = u64_to_string(goal_length as u64);
    sys.append(d.as_str());
    sys.append(" words.");
    proof {
        assert(sys@ =~= summarize_system_content(summarize_goal(word_count(raw_transcript@))));
    }

    let mut user = String::new();
    match &title {
        Some(t) => {
            user.append("Title: ");
            user.append(t.as_str());
        },
        None => {},
    }
    match &channel_name {
        Some(c) => {
            user.append("\nChannel: ");
            user.append(c.as_str());
        },
        None => {},
    }
    user.append("\n\nTranscript: ");
    user.append(raw_transcript.as_str());
    user.append(
        "\n\n\nBe as concise as possible in your summary. Repeat the information as without extra fluff like '",
    );
    match &channel_name {
        Some(c) => {
            user.append(c.as_str());
        },
        None => {
            user.append("the speaker");
        },
    }
    user.append(
        " says'. Use full markdown syntax, and break the summary into paragraphs. Emphasize the most important information in **bold**. Remember that your summary should be about ",
    );
    let d2 = u64_to_string(goal_length as u64);
    user.append(d2.as_str());
    user.append(
        " words. Just return the summary without repeating the Title or Channel, and don't write `Summary:`",
    );
    proof {
        assert(user@ =~= summarize_user_content(
            raw_transcript@,
            opt_view(title),
            opt_view(channel_name),
            summarize_goal(word_count(raw_transcript@)),
        ));
    }

    let mut messages: Vec<ChatMessage> = Vec::new();
    messages.push(ChatMessage { role: "system", content: sys });
    messages.push(ChatMessage { role: "user", content: user });
    let chat_tokens = count_tokens(messages.as_slice());
    proof {
        assert(chat_tokens as u64 as nat == chat_tokens as nat);
    }
    Ok((messages, chat_tokens as u64))
}

/// Builds the clean-transcript message pair for one transcript piece.
pub fn clean_transcript_one_prompt(
    raw_transcript: String,
    title: Option<String>,
    channel_name: Option<String>,
) -> (r: Vec<ChatMessage>)
    ensures
        r@.len() == 2,
        r@[0].role@ == "system"@,
        r@[0].content@ == clean_system_content(),
        r@[1].role@ == "user"@,
        r@[1].content@ == clean_user_content(
            raw_transcript@,
            opt_view(title),
            opt_view(channel_name),
        ),
{
    let sys = String::from_str(
        "You are a transcription assistant. The user will send an autogenerated transcript of a youtube video, which may have transcription errors, punctuation errors, and improperly separated speakers. You respond with a cleaned-up version of the transcript. The channel name and video title will be included in the message for additional context, but you should not include them in your response",
    );

    let mut user = String::new();
    match &title {
        Some(t) => {
            user.append("Title: ");
            user.append(t.as_str());
        },
        None => {},
    }
    match &channel_name {
        Some(c) => {
            user.append("\nChannel: ");
            user.append(c.as_str());
        },
        None => {},
    }
    user.append("\n\nTranscript: ");
    user.append(raw_transcript.as_str());
    user.append(
        "\n\n\nClean up the transcript above, fixing punctuation, transcription errors, and improperly separated speakers. Use full markdown syntax, and break it into paragraphs. Emphasize the most important information in **bold**. Just return the transcript without repeating the Title or Channel, and don't write `Transcript:`.",
    );
    proof {
        assert(user@ =~= clean_user_content(
            raw_transcript@,
            opt_view(title),
            opt_view(channel_name),
        ));
    }

    let mut messages: Vec<ChatMessage> = Vec::new();
    messages.push(ChatMessage { role: "system", content: sys });
    messages.push(ChatMessage { role: "user", content: user });
    messages
}

fn group_words(ws: &Vec<Vec<char>>, k: usize) -> (r: Vec<Vec<Vec<char>>>)
    requires
        k > 0,
    ensures
        r.deep_view() == word_groups(ws.deep_view(), k as nat),
{
    let mut r: Vec<Vec<Vec<char>>> = Vec::new();
    let mut i: usize = 0;
    proof {
        let wv = ws.deep_view();
        assert(wv.skip(0) =~~= wv);
        assert(r.deep_view() =~~= Seq::<Seq<Seq<char>>>::empty());
        assert(Seq::<Seq<Seq<char>>>::empty() + word_groups(wv, k as nat) =~~= word_groups(
            wv,
            k as nat,
        ));
    }
    while i < ws.len()
        invariant
            k > 0,
            0 <= i <= ws.len(),
            word_groups(ws.deep_view(), k as nat) == r.deep_view() + word_groups(
                ws.deep_view().skip(i as int),
                k as nat,
            ),
        decreases ws.len() - i,
    {
        let ghost wv = ws.deep_view();
        let ghost old_r = r.deep_view();
        let j: usize = if ws.len() - i < k {
            ws.len()
        } else {
            i + k
        };
        let mut group: Vec<Vec<char>> = Vec::new();
        let mut m: usize = i;
        while m < j
            invariant
                i <= m <= j <= ws.len(),
                group.deep_view() == ws.deep_view().subrange(i as int, m as int),
            decreases j - m,
        {
            proof {
                assert(ws.deep_view()[m as int] =~= ws@[m as int]@);
            }
            let ghost pre = group.deep_view();
            let w = cloned_chars(&ws[m]);
            group.push(w);
            proof {
                assert(group.deep_view() =~~= pre.push(ws.deep_view()[m as int]));
                assert(ws.deep_view().subrange(i as int, m + 1) =~~= ws.deep_view().subrange(
                    i as int,
                    m as int,
                ).push(ws.deep_view()[m as int]));
            }
            m = m + 1;
        }
        r.push(group);
        proof {
            let rest = wv.skip(i as int);
            assert(rest.len() == wv.len() - i);
            if wv.len() - i <= k {
                assert(j == wv.len());
                assert(rest =~~= wv.subrange(i as int, j as int));
                assert(word_groups(rest, k as nat) == seq![rest]);
                assert(r.deep_view() =~~= old_r.push(wv.subrange(i as int, j as int)));
                assert(old_r + seq![rest] =~~= r.deep_view());
                assert(wv.skip(j as int) =~~= Seq::<Seq<char>>::empty());
                assert(word_groups(wv.skip(j as int), k as nat)
                    == Seq::<Seq<Seq<char>>>::empty());
                assert(r.deep_view() + Seq::<Seq<Seq<char>>>::empty() =~~= r.deep_view());
            } else {
                assert(j == i + k);
                assert(rest.take(k as int) =~~= wv.subrange(i as int, j as int));
                assert(rest.skip(k as int) =~~= wv.skip(j as int));
                assert(word_groups(rest, k as nat) == seq![rest.take(k as int)] + word_groups(
                    rest.skip(k as int),
                    k as nat,
                ));
                assert(r.deep_view() =~~= old_r.push(wv.subrange(i as int, j as int)));
                assert(old_r + (seq![rest.take(k as int)] + word_groups(
                    rest.skip(k as int),
                    k as nat,
                )) =~~= r.deep_view() + word_groups(wv.skip(j as int), k as nat));
            }
        }
        i = j;
    }
    proof {
        let wv = ws.deep_view();
        assert(wv.skip(wv.len() as int) =~~= Seq::<Seq<char>>::empty());
        assert(word_groups(Seq::<Seq<char>>::empty(), k as nat)
            == Seq::<Seq<Seq<char>>>::empty());
        assert(r.deep_view() + Seq::<Seq<Seq<char>>>::empty() =~~= r.deep_view());
    }
    r
}

/// Builds the clean-transcript message sets, or rejects a transcript of 20
/// words or fewer. A single candidate message set is estimated first; when
/// its cost exceeds the per-call budget, the transcript's words are
/// partitioned into equal-sized contiguous groups, one message set each. The
/// returned count is the saturating sum of the sets' token estimates.
pub fn clean_transcript(
    raw_transcript: String,
    title: Option<String>,
    channel_name: Option<String>,
) -> (r: Result<(Vec<Vec<ChatMessage>>, u64), String>)
    ensures
        ({
            let wc = word_count(raw_transcript@);
            let ws = split_chars(raw_transcript@, ' ');
            let first_cost = token_estimate(
                clean_pair_view(raw_transcript@, opt_view(title), opt_view(channel_name)),
            );
            let n = first_cost / (MAX_TOKENS_PER_INVOCATION as nat) + 1;
            let k = wc / n + 1;
            let groups = word_groups(ws, k);
            match r {
                Err(e) => wc <= 20 && e@ == too_short_clean_msg(wc),
                Ok((prompts, total)) => {
                    &&& wc > 20
                    &&& prompts@.len() == groups.len()
                    &&& forall|i: int|
                        0 <= i < prompts@.len() ==> {
                            &&& (#[trigger] prompts@[i])@.len() == 2
                            &&& prompts@[i]@[0].role@ == "system"@
                            &&& prompts@[i]@[0].content@ == clean_system_content()
                            &&& prompts@[i]@[1].role@ == "user"@
                            &&& prompts@[i]@[1].content@ == clean_user_content(
                                join_chars(groups[i], ' '),
                                opt_view(title),
                                opt_view(channel_name),
                            )
                        }
                    &&& total as nat == clean_sets_cost(
                        groups,
                        opt_view(title),
                        opt_view(channel_name),
                    )
                },
            }
        }),
{
    let cv = chars_to_vec(raw_transcript.as_str());
    let words = split_on(&cv, ' ');
    let word_cnt = words.len();
    if word_cnt <= 20 {
        let mut e = String::from_str("Transcript too short to clean up. (");
        let d = u64_to_string(word_cnt as u64);
        e.append(d.as_str());
        e.append(" words in transcript)");
        proof {
            assert(word_cnt as u64 as nat == word_cnt as nat);
            assert(e@ =~= too_short_clean_msg(word_count(raw_transcript@)));
        }
        return Err(e);
    }

    let first_try = clean_transcript_one_prompt(
        raw_transcript.clone(),
        clone_opt(&title),
        clone_opt(&channel_name),
    );
    let chat_tokens = count_tokens(first_try.as_slice());
    proof {
        assert(msgs_view(first_try@) =~= clean_pair_view(
            raw_transcript@,
            opt_view(title),
            opt_view(channel_name),
        ));
    }

    let chunks_necessary: usize = chat_tokens / MAX_TOKENS_PER_INVOCATION + 1;
    let cs0: usize = word_cnt / chunks_necessary;
    let chunk_size: usize = if cs0 < usize::MAX {
        cs0 + 1
    } else {
        cs0
    };
    let ghost spec_k: nat = (word_count(raw_transcript@) / (chunks_necessary as nat) + 1) as nat;
    proof {
        let ws = words.deep_view();
        assert(ws == split_chars(raw_transcript@, ' '));
        assert(ws.len() == word_cnt);
        if cs0 == usize::MAX {
            assert(ws.len() <= chunk_size as nat);
            assert(ws.len() <= spec_k);
            assert(ws.len() > 0);
            assert(word_groups(ws, chunk_size as nat) == seq![ws]);
            assert(word_groups(ws, spec_k) == seq![ws]);
        } else {
            assert(chunk_size as nat == spec_k);
        }
        assert(word_groups(ws, chunk_size as nat) == word_groups(ws, spec_k));
    }
    let groups = group_words(&words, chunk_size);

    let mut prompts: Vec<Vec<ChatMessage>> = Vec::new();
    let mut i: usize = 0;
    while i < groups.len()
        invariant
            0 <= i <= groups.len(),
            prompts@.len() == i,
            forall|j: int|
                0 <= j < i ==> {
                    &&& (#[trigger] prompts@[j])@.len() == 2
                    &&& prompts@[j]@[0].role@ == "system"@
                    &&& prompts@[j]@[0].content@ == clean_system_content()
                    &&& prompts@[j]@[1].role@ == "user"@
                    &&& prompts@[j]@[1].content@ == clean_user_content(
                        join_chars(groups.deep_view()[j], ' '),
                        opt_view(title),
                        opt_view(channel_name),
                    )
                },
        decreases groups.len() - i,
    {
        proof {
            assert(groups.deep_view()[i as int] =~~= groups@[i as int].deep_view());
        }
        let joined = join_with(&groups[i], ' ');
        let piece = string_from_chars(joined.as_slice());
        proof {
            assert(piece@ == join_chars(groups@[i as int].deep_view(), ' '));
            assert(join_chars(groups@[i as int].deep_view(), ' ') == join_chars(
                groups.deep_view()[i as int],
                ' ',
            ));
        }
        let msgs = clean_transcript_one_prompt(piece, clone_opt(&title), clone_opt(&channel_name));
        prompts.push(msgs);
        i = i + 1;
    }

    let mut total: u64 = 0;
    let mut t: usize = 0;
    proof {
        assert(groups.deep_view().take(0) =~~= Seq::<Seq<Seq<char>>>::empty());
    }
    while t < prompts.len()
        invariant
            0 <= t <= prompts.len(),
            prompts@.len() == groups.deep_view().len(),
            forall|j: int|
                0 <= j < prompts@.len() ==> {
                    &&& (#[trigger] prompts@[j])@.len() == 2
                    &&& prompts@[j]@[0].role@ == "system"@
                    &&& prompts@[j]@[0].content@ == clean_system_content()
                    &&& prompts@[j]@[1].role@ == "user"@
                    &&& prompts@[j]@[1].content@ == clean_user_content(
                        join_chars(groups.deep_view()[j], ' '),
                        opt_view(title),
                        opt_view(channel_name),
                    )
                },
            total as nat == clean_sets_cost(
                groups.deep_view().take(t as int),
                opt_view(title),
                opt_view(channel_name),
            ),
        decreases prompts.len() - t,
    {
        let c = count_tokens(prompts[t].as_slice());
        proof {
            let gv = groups.deep_view();
            assert(msgs_view(prompts@[t as int]@) =~= clean_pair_view(
                join_chars(gv[t as int], ' '),
                opt_view(title),
                opt_view(channel_name),
            ));
            assert(gv.take(t + 1).drop_last() =~~= gv.take(t as int));
            assert(gv.take(t + 1).last() == gv[t as int]);
            assert(c as u64 as nat == c as nat);
        }
        total = total.saturating_add(c as u64);
        t = t + 1;
    }
    proof {
        let gv = groups.deep_view();
        assert(gv.take(gv.len() as int) =~~= gv);
    }

    Ok((prompts, total))
}

} // verus!
