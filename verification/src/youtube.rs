//! The video-facing orchestration pieces that are pure computation: URL
//! parsing to a video identifier, planning the chat requests for a summary or
//! a transcript clean-up, and stitching the responses back into one document.
//! The network fetches and the chat calls themselves live with the host.

use vstd::prelude::*;
use crate::openai::{msgs_view, token_estimate, ChatApiRequest, ChatMessage};
use crate::prompts::{
    self, clean_pair_view, clean_sets_cost, clean_system_content, clean_user_content, opt_view,
    summarize_goal, summarize_system_content, summarize_user_content, too_short_clean_msg,
    too_short_summarize_msg, word_count, word_groups, MAX_TOKENS_PER_INVOCATION,
};
use crate::selector::{
    too_long_clean_msg, too_long_summarize_msg, CleanSelector, SummarizeSelector,
};
use crate::text::{
    chars_to_vec, digits_spec, join_chars, lemma_join_chars_push, split_chars, string_from_chars,
    u64_to_string,
};

verus! {

/// The title and channel name of a video, fetched once per request and used
/// to decorate prompts and the displayed result.
#[derive(Debug)]
pub struct VideoInfo {
    pub title: String,
    pub channel_name: String,
}

/// A character allowed in a video identifier.
pub open spec fn is_id_char(c: char) -> bool {
    ('a' <= c && c <= 'z') || ('A' <= c && c <= 'Z') || ('0' <= c && c <= '9') || c == '_' || c
        == '-'
}

/// The watch-page URL prefix.
pub open spec fn watch_prefix() -> Seq<char> {
    "https://www.youtube.com/watch?v="@
}

/// The short-link URL prefix.
pub open spec fn short_prefix() -> Seq<char> {
    "https://youtu.be/"@
}

/// The shorts URL prefix.
pub open spec fn shorts_prefix() -> Seq<char> {
    "https://www.youtube.com/shorts/"@
}

/// Whether the pattern occurs in the text at the given position.
pub open spec fn matches_at(s: Seq<char>, i: int, p: Seq<char>) -> bool {
    0 <= i && i + p.len() <= s.len() && s.subrange(i, i + p.len()) == p
}

/// The position just after a recognized URL prefix at `i`, if one occurs.
pub open spec fn hit_end(s: Seq<char>, i: int) -> Option<int> {
    if matches_at(s, i, watch_prefix()) {
        Some(i + watch_prefix().len() as int)
    } else if matches_at(s, i, short_prefix()) {
        Some(i + short_prefix().len() as int)
    } else if matches_at(s, i, shorts_prefix()) {
        Some(i + shorts_prefix().len() as int)
    } else {
        None
    }
}

/// The maximal run of identifier characters starting at `e`.
pub open spec fn id_run(s: Seq<char>, e: int) -> Seq<char>
    decreases s.len() - e,
{
    if e < 0 || e >= s.len() {
        Seq::<char>::empty()
    } else if is_id_char(s[e]) {
        seq![s[e]] + id_run(s, e + 1)
    } else {
        Seq::<char>::empty()
    }
}

/// The identifier of the first recognized video URL at or after position
/// `i`: a recognized prefix must be followed by at least one identifier
/// character, and the identifier is the maximal such run.
pub open spec fn video_id_from(s: Seq<char>, i: int) -> Option<Seq<char>>
    decreases s.len() - i,
{
    if i < 0 || i >= s.len() {
        None
    } else {
        match hit_end(s, i) {
            Some(e) => {
                if e < s.len() && is_id_char(s[e]) {
                    Some(id_run(s, e))
                } else {
                    video_id_from(s, i + 1)
                }
            },
            None => video_id_from(s, i + 1),
        }
    }
}

/// The video identifier of the first recognized video URL in a text.
pub open spec fn video_id_spec(s: Seq<char>) -> Option<Seq<char>> {
    video_id_from(s, 0)
}

fn is_id_char_exec(c: char) -> (r: bool)
    ensures
        r == is_id_char(c),
{
    ('a' <= c && c <= 'z') || ('A' <= c && c <= 'Z') || ('0' <= c && c <= '9') || c == '_' || c
        == '-'
}

fn starts_with_at(s: &Vec<char>, i: usize, p: &Vec<char>) -> (r: bool)
    ensures
        r == matches_at(s@, i as int, p@),
{
    let n = s.len();
    if i > n || n - i < p.len() {
        return false;
    }
    let mut j: usize = 0;
    while j < p.len()
        invariant
            0 <= j <= p@.len(),
            n == s@.len(),
            i + p@.len() <= n,
            forall|m: int| 0 <= m < j ==> s@[i + m] == p@[m],
        decreases p@.len() - j,
    {
        if s[i + j] != p[j] {
            proof {
                assert(s@.subrange(i as int, i + p@.len())[j as int] == s@[i + j]);
            }
            return false;
        }
        j = j + 1;
    }
    proof {
        assert(s@.subrange(i as int, i + p@.len()) =~= p@);
    }
    true
}

fn id_run_exec(s: &Vec<char>, e: usize) -> (r: Vec<char>)
    requires
        e <= s@.len(),
    ensures
        r@ == id_run(s@, e as int),
{
    let mut r: Vec<char> = Vec::new();
    let mut j: usize = e;
    proof {
        assert(Seq::<char>::empty() + id_run(s@, e as int) =~= id_run(s@, e as int));
    }
    while j < s.len() && is_id_char_exec(s[j])
        invariant
            e <= j <= s@.len(),
            id_run(s@, e as int) == r@ + id_run(s@, j as int),
        decreases s@.len() - j,
    {
        let ghost old_r = r@;
        r.push(s[j]);
        proof {
            assert(id_run(s@, j as int) == seq![s@[j as int]] + id_run(s@, j + 1));
            assert(old_r + (seq![s@[j as int]] + id_run(s@, j + 1)) =~= r@ + id_run(s@, j + 1));
        }
        j = j + 1;
    }
    proof {
        assert(id_run(s@, j as int) == Seq::<char>::empty());
        assert(r@ + Seq::<char>::empty() =~= r@);
    }
    r
}

/// Extracts the identifier of the first video URL occurring in the text, if
/// any: one of the recognized prefixes followed by at least one identifier
/// character.
pub fn video_id(url: &str) -> (r: Option<String>)
    ensures
        ({
            match (r, video_id_spec(url@)) {
                (Some(a), Some(b)) => a@ == b,
                (None, None) => true,
                _ => false,
            }
        }),
{
    let cv = chars_to_vec(url);
    let p1 = chars_to_vec("https://www.youtube.com/watch?v=");
    let p2 = chars_to_vec("https://youtu.be/");
    let p3 = chars_to_vec("https://www.youtube.com/shorts/");
    let n = cv.len();
    let mut i: usize = 0;
    while i < n
        invariant
            0 <= i <= n,
            n == cv@.len(),
            cv@ == url@,
            p1@ == watch_prefix(),
            p2@ == short_prefix(),
            p3@ == shorts_prefix(),
            video_id_spec(url@) == video_id_from(cv@, i as int),
        decreases n - i,
    {
        let mut end_opt: Option<usize> = None;
        if starts_with_at(&cv, i, &p1) {
            end_opt = Some(i + p1.len());
        } else if starts_with_at(&cv, i, &p2) {
            end_opt = Some(i + p2.len());
        } else if starts_with_at(&cv, i, &p3) {
            end_opt = Some(i + p3.len());
        }
        proof {
            match end_opt {
                Some(e) => {
                    assert(hit_end(cv@, i as int) == Some(e as int));
                },
                None => {
                    assert(hit_end(cv@, i as int) is None);
                },
            }
        }
        if let Some(e) = end_opt {
            if e < n && is_id_char_exec(cv[e]) {
                let run = id_run_exec(&cv, e);
                let out = string_from_chars(run.as_slice());
                proof {
                    assert(video_id_from(cv@, i as int) == Some(id_run(cv@, e as int)));
                }
                return Some(out);
            }
        }
        i = i + 1;
    }
    None
}

/// The role/content view of a summarize message pair.
pub open spec fn summarize_pair_view(
    transcript: Seq<char>,
    title: Option<Seq<char>>,
    channel: Option<Seq<char>>,
    goal: nat,
) -> Seq<(Seq<char>, Seq<char>)> {
    seq![
        ("system"@, summarize_system_content(goal)),
        ("user"@, summarize_user_content(transcript, title, channel, goal)),
    ]
}

/// Plans the single summarize chat request: builds the message pair, and
/// picks the tier for its token estimate, rejecting a transcript that is too
/// short or an estimate over the hard limit.
pub fn plan_summarize(
    raw_transcript: String,
    title: Option<String>,
    channel_name: Option<String>,
) -> (r: Result<ChatApiRequest, String>)
    ensures
        ({
            let wc = word_count(raw_transcript@);
            let goal = summarize_goal(wc);
            let est = token_estimate(
                summarize_pair_view(raw_transcript@, opt_view(title), opt_view(channel_name), goal),
            );
            match r {
                Err(e) => (wc <= 200 && e@ == too_short_summarize_msg(wc)) || (wc > 200 && est
                    > 13000 && e@ == too_long_summarize_msg(est)),
                Ok(req) => {
                    &&& wc > 200
                    &&& est <= 13000
                    &&& est < 3000 ==> req.model@ == "gpt-4"@
                    &&& est >= 3000 ==> req.model@ == "gpt-4-32k"@
                    &&& req.messages@.len() == 2
                    &&& req.messages@[0].role@ == "system"@
                    &&& req.messages@[0].content@ == summarize_system_content(goal)
                    &&& req.messages@[1].role@ == "user"@
                    &&& req.messages@[1].content@ == summarize_user_content(
                        raw_transcript@,
                        opt_view(title),
                        opt_view(channel_name),
                        goal,
                    )
                },
            }
        }),
{
    let ghost transcript_view = raw_transcript@;
    let ghost title_view = opt_view(title);
    let ghost channel_view = opt_view(channel_name);
    match prompts::summarize(raw_transcript, title, channel_name) {
        Err(e) => Err(e),
        Ok((messages, tokens)) => {
            proof {
                assert(msgs_view(messages@) =~= summarize_pair_view(
                    transcript_view,
                    title_view,
                    channel_view,
                    summarize_goal(word_count(transcript_view)),
                ));
            }
            let sel = SummarizeSelector::standard();
            match sel.select(tokens) {
                Err(e) => Err(e),
                Ok(tier) => Ok(ChatApiRequest { model: tier.name, messages }),
            }
        },
    }
}

/// Plans the clean-transcript chat requests: builds the message sets (one, or
/// several when the estimate exceeds the per-call budget), and puts every set
/// on the single clean-up tier, rejecting a transcript that is too short or a
/// total estimate over that tier's ceiling.
pub fn plan_clean_transcript(
    raw_transcript: String,
    title: Option<String>,
    channel_name: Option<String>,
) -> (r: Result<Vec<ChatApiRequest>, String>)
    ensures
        ({
            let wc = word_count(raw_transcript@);
            let ws = split_chars(raw_transcript@, ' ');
            let first_cost = token_estimate(
                clean_pair_view(raw_transcript@, opt_view(title), opt_view(channel_name)),
            );
            let n = first_cost / (MAX_TOKENS_PER_INVOCATION as nat) + 1;
            let k = wc / n + 1;
            let groups = word_groups(ws, k);
            let cost = clean_sets_cost(groups, opt_view(title), opt_view(channel_name));
            match r {
                Err(e) => (wc <= 20 && e@ == too_short_clean_msg(wc)) || (wc > 20 && cost > 75000
                    && e@ == too_long_clean_msg(cost)),
                Ok(reqs) => {
                    &&& wc > 20
                    &&& cost <= 75000
                    &&& reqs@.len() == groups.len()
                    &&& forall|i: int|
                        0 <= i < reqs@.len() ==> {
                            &&& (#[trigger] reqs@[i]).model@ == "gpt-4-1106-preview"@
                            &&& reqs@[i].messages@.len() == 2
                            &&& reqs@[i].messages@[0].role@ == "system"@
                            &&& reqs@[i].messages@[0].content@ == clean_system_content()
                            &&& reqs@[i].messages@[1].role@ == "user"@
                            &&& reqs@[i].messages@[1].content@ == clean_user_content(
                                join_chars(groups[i], ' '),
                                opt_view(title),
                                opt_view(channel_name),
                            )
                        }
                },
            }
        }),
{
    let ghost transcript_view = raw_transcript@;
    match prompts::clean_transcript(raw_transcript, title, channel_name) {
        Err(e) => Err(e),
        Ok((prompt_sets, tokens)) => {
            let sel = CleanSelector::standard();
            match sel.select(tokens) {
                Err(e) => {
                    proof {
                        assert(tokens as nat > 75000);
                        assert(e@ == too_long_clean_msg(tokens as nat));
                    }
                    Err(e)
                },
                Ok(tier) => {
                    let mut sets = prompt_sets;
                    let ghost orig = sets@;
                    let mut reqs: Vec<ChatApiRequest> = Vec::new();
                    while sets.len() > 0
                        invariant
                            reqs@.len() + sets@.len() == orig.len(),
                            sets@ == orig.skip(reqs@.len() as int),
                            tier.name@ == "gpt-4-1106-preview"@,
                            forall|i: int|
                                0 <= i < reqs@.len() ==> (#[trigger] reqs@[i]).model@
                                    == "gpt-4-1106-preview"@ && reqs@[i].messages == orig[i],
                        decreases sets@.len(),
                    {
                        let ghost pre = sets@;
                        let msgs = sets.remove(0);
                        proof {
                            assert(pre[0] == orig[reqs@.len() as int]);
                            assert(pre.remove(0) =~= orig.skip(reqs@.len() as int + 1));
                        }
                        reqs.push(ChatApiRequest { model: tier.name, messages: msgs });
                    }
                    proof {
                        assert(reqs@.len() == orig.len());
                    }
                    Ok(reqs)
                },
            }
        },
    }
}

/// Joins response texts with a single space between adjacent pairs.
pub fn join_strings_with_space(parts: &Vec<String>) -> (r: String)
    ensures
        r@ == join_chars(parts.deep_view(), ' '),
{
    let mut r = String::new();
    let mut i: usize = 0;
    proof {
        assert(parts.deep_view().take(0) =~~= Seq::<Seq<char>>::empty());
    }
    while i < parts.len()
        invariant
            0 <= i <= parts.len(),
            r@ == join_chars(parts.deep_view().take(i as int), ' '),
        decreases parts.len() - i,
    {
        let ghost taken = parts.deep_view().take(i as int);
        proof {
            lemma_join_chars_push(taken, parts.deep_view()[i as int], ' ');
            assert(parts.deep_view().take(i + 1) =~~= taken.push(parts.deep_view()[i as int]));
        }
        if i > 0 {
            r.push(' ');
        }
        r.append(parts[i].as_str());
        proof {
            assert(parts.deep_view()[i as int] == parts@[i as int]@);
            assert(r@ =~= join_chars(parts.deep_view().take(i + 1), ' '));
        }
        i = i + 1;
    }
    proof {
        assert(parts.deep_view().take(parts.deep_view().len() as int) =~~= parts.deep_view());
    }
    r
}

/// The text with a paragraph break inserted after every period-space pair: a
/// simple readability heuristic, not sentence-boundary detection.
pub open spec fn reparagraph_spec(s: Seq<char>) -> Seq<char>
    decreases s.len(),
{
    if s.len() == 0 {
        Seq::<char>::empty()
    } else if s.len() >= 2 && s[0] == '.' && s[1] == ' ' {
        seq!['.', '\n', '\n'] + reparagraph_spec(s.skip(2))
    } else {
        seq![s[0]] + reparagraph_spec(s.drop_first())
    }
}

/// Replaces every period-space pair with a period and a blank line.
pub fn reparagraph(s: &String) -> (r: String)
    ensures
        r@ == reparagraph_spec(s@),
{
    let cv = chars_to_vec(s.as_str());
    let n = cv.len();
    let mut out: Vec<char> = Vec::new();
    let mut i: usize = 0;
    proof {
        assert(cv@.skip(0) =~= cv@);
        assert(Seq::<char>::empty() + reparagraph_spec(cv@) =~= reparagraph_spec(cv@));
    }
    while i < n
        invariant
            0 <= i <= n,
            n == cv@.len(),
            cv@ == s@,
            reparagraph_spec(s@) == out@ + reparagraph_spec(cv@.skip(i as int)),
        decreases n - i,
    {
        let ghost old_out = out@;
        proof {
            assert(cv@.skip(i as int)[0] == cv@[i as int]);
            assert(cv@.skip(i as int).drop_first() =~= cv@.skip(i + 1));
        }
        if cv[i] == '.' && i + 1 < n && cv[i + 1] == ' ' {
            out.push('.');
            out.push('\n');
            out.push('\n');
            proof {
                assert(cv@.skip(i as int)[1] == cv@[i + 1]);
                assert(cv@.skip(i as int).skip(2) =~= cv@.skip(i + 2));
                assert(old_out + (seq!['.', '\n', '\n'] + reparagraph_spec(cv@.skip(i + 2)))
                    =~= out@ + reparagraph_spec(cv@.skip(i + 2)));
            }
            i = i + 2;
        } else {
            out.push(cv[i]);
            proof {
                if cv@.skip(i as int).len() >= 2 {
                    assert(cv@.skip(i as int)[1] == cv@[i + 1]);
                }
                assert(old_out + (seq![cv@[i as int]] + reparagraph_spec(cv@.skip(i + 1)))
                    =~= out@ + reparagraph_spec(cv@.skip(i + 1)));
            }
            i = i + 1;
        }
    }
    proof {
        assert(cv@.skip(n as int) =~= Seq::<char>::empty());
        assert(out@ + Seq::<char>::empty() =~= out@);
    }
    string_from_chars(out.as_slice())
}

/// Stitches the clean-transcript responses: joined with single spaces, then
/// re-paragraphed after every period-space pair.
pub fn stitch_clean_responses(parts: &Vec<String>) -> (r: String)
    ensures
        r@ == reparagraph_spec(join_chars(parts.deep_view(), ' ')),
{
    let joined = join_strings_with_space(parts);
    reparagraph(&joined)
}

/// The " (part i/n)" suffix for one display segment's title; empty when the
/// text fits a single segment.
pub fn part_label(index: usize, total: usize) -> (r: String)
    requires
        index < total,
    ensures
        total == 1 ==> r@ == Seq::<char>::empty(),
        total != 1 ==> r@ == " (part "@ + digits_spec((index + 1) as nat) + "/"@ + digits_spec(
            total as nat,
        ) + ")"@,
{
    if total == 1 {
        String::new()
    } else {
        let mut r = String::from_str(" (part ");
        let d = u64_to_string((index as u64) + 1);
        r.append(d.as_str());
        r.append("/");
        let t = u64_to_string(total as u64);
        r.append(t.as_str());
        r.append(")");
        proof {
            assert((index as u64) + 1 == (index + 1) as u64);
            assert(((index + 1) as u64) as nat == (index + 1) as nat);
            assert((total as u64) as nat == total as nat);
            assert(r@ =~= " (part "@ + digits_spec((index + 1) as nat) + "/"@ + digits_spec(
                total as nat,
            ) + ")"@);
        }
        r
    }
}

} // verus!
