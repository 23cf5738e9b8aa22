//! Splitting a text into ordered display chunks, each at or below a character
//! budget: paragraphs are trimmed and re-joined with a blank line, oversized
//! paragraphs degrade to word-level pieces, pieces are packed greedily, and
//! runs of three or more newlines collapse to exactly two.

use vstd::prelude::*;
use crate::text::{
    chars_to_vec, cloned_chars, is_space_char, join_chars, lemma_join_split, split_chars,
    split_on, string_from_chars, push_all, trim_end_spec, trim_spec, trim_start_spec, trim_vec,
};

verus! {

/// The separator written between two paragraphs of the normalized text.
pub open spec fn para_sep() -> Seq<char> {
    seq!['\n', '\n']
}

/// Every paragraph trimmed of leading and trailing whitespace.
pub open spec fn trimmed_all(parts: Seq<Seq<char>>) -> Seq<Seq<char>>
    decreases parts.len(),
{
    if parts.len() == 0 {
        Seq::<Seq<char>>::empty()
    } else {
        seq![trim_spec(parts[0])] + trimmed_all(parts.drop_first())
    }
}

/// The paragraphs with the separator inserted between each adjacent pair.
pub open spec fn intersperse(parts: Seq<Seq<char>>, sep: Seq<char>) -> Seq<Seq<char>> {
    if parts.len() == 0 {
        Seq::<Seq<char>>::empty()
    } else {
        Seq::new((2 * parts.len() - 1) as nat, |k: int| if k % 2 == 0 { parts[k / 2] } else { sep })
    }
}

/// A fragment over the budget degrades to its space-separated words.
pub open spec fn word_split(f: Seq<char>, budget: nat) -> Seq<Seq<char>> {
    if f.len() <= budget {
        seq![f]
    } else {
        split_chars(f, ' ')
    }
}

/// Every oversized fragment replaced by its words.
pub open spec fn explode(frags: Seq<Seq<char>>, budget: nat) -> Seq<Seq<char>>
    decreases frags.len(),
{
    if frags.len() == 0 {
        Seq::<Seq<char>>::empty()
    } else {
        word_split(frags[0], budget) + explode(frags.drop_first(), budget)
    }
}

/// Greedy packing: a fragment that would push the running chunk over the
/// budget closes that chunk (trimmed) and starts the next one; the final
/// chunk is pushed as accumulated.
pub open spec fn greedy_rec(
    frags: Seq<Seq<char>>,
    chunks: Seq<Seq<char>>,
    cur: Seq<char>,
    budget: nat,
) -> Seq<Seq<char>>
    decreases frags.len(),
{
    if frags.len() == 0 {
        chunks.push(cur)
    } else {
        let f = frags[0];
        if cur.len() > 0 && cur.len() + f.len() > budget {
            greedy_rec(frags.drop_first(), chunks.push(trim_spec(cur)), f, budget)
        } else {
            greedy_rec(frags.drop_first(), chunks, cur + f, budget)
        }
    }
}

/// Collapsing runs of three or more newlines down to two, scanning from the
/// left with the length of the current newline run.
pub open spec fn collapse_rec(s: Seq<char>, run: nat) -> Seq<char>
    decreases s.len(),
{
    if s.len() == 0 {
        Seq::<char>::empty()
    } else if s[0] == '\n' {
        if run >= 2 {
            collapse_rec(s.drop_first(), run)
        } else {
            seq!['\n'] + collapse_rec(s.drop_first(), run + 1)
        }
    } else {
        seq![s[0]] + collapse_rec(s.drop_first(), 0)
    }
}

/// Runs of three or more newlines collapsed to exactly two.
pub open spec fn collapse_nl(s: Seq<char>) -> Seq<char> {
    collapse_rec(s, 0)
}

/// `collapse_nl` applied to every chunk.
pub open spec fn collapse_all(chunks: Seq<Seq<char>>) -> Seq<Seq<char>>
    decreases chunks.len(),
{
    if chunks.len() == 0 {
        Seq::<Seq<char>>::empty()
    } else {
        seq![collapse_nl(chunks[0])] + collapse_all(chunks.drop_first())
    }
}

/// The normalized fragment stream of a text: paragraphs split on newlines and
/// trimmed, separators inserted, oversized fragments degraded to words.
pub open spec fn normalized_fragments(s: Seq<char>, budget: nat) -> Seq<Seq<char>> {
    explode(intersperse(trimmed_all(split_chars(s, '\n')), para_sep()), budget)
}

/// The chunks of a text for a budget, before newline collapsing.
pub open spec fn raw_chunks(s: Seq<char>, budget: nat) -> Seq<Seq<char>> {
    greedy_rec(normalized_fragments(s, budget), Seq::<Seq<char>>::empty(), Seq::<char>::empty(), budget)
}

/// The chunks of a text for a budget.
pub open spec fn chunks_spec(s: Seq<char>, budget: nat) -> Seq<Seq<char>> {
    collapse_all(raw_chunks(s, budget))
}

fn trimmed_all_exec(parts: &Vec<Vec<char>>) -> (r: Vec<Vec<char>>)
    ensures
        r.deep_view() == trimmed_all(parts.deep_view()),
{
    let mut r: Vec<Vec<char>> = Vec::new();
    let mut i: usize = 0;
    proof {
        let pv = parts.deep_view();
        assert(pv.skip(0) =~~= pv);
        assert(r.deep_view() =~~= Seq::<Seq<char>>::empty());
        assert(Seq::<Seq<char>>::empty() + trimmed_all(pv) =~~= trimmed_all(pv));
    }
    while i < parts.len()
        invariant
            0 <= i <= parts.len(),
            trimmed_all(parts.deep_view()) == r.deep_view() + trimmed_all(
                parts.deep_view().skip(i as int),
            ),
        decreases parts.len() - i,
    {
        let ghost old_r = r.deep_view();
        proof {
            assert(parts.deep_view()[i as int] =~= parts@[i as int]@);
        }
        let t = trim_vec(&parts[i]);
        r.push(t);
        proof {
            let pv = parts.deep_view();
            assert(pv.skip(i as int)[0] == pv[i as int]);
            assert(pv.skip(i as int).drop_first() =~~= pv.skip(i + 1));
            assert(r.deep_view() =~~= old_r.push(trim_spec(pv[i as int])));
            assert(old_r + (seq![trim_spec(pv[i as int])] + trimmed_all(pv.skip(i + 1)))
                =~~= r.deep_view() + trimmed_all(pv.skip(i + 1)));
        }
        i = i + 1;
    }
    proof {
        let pv = parts.deep_view();
        assert(pv.skip(pv.len() as int) =~~= Seq::<Seq<char>>::empty());
        assert(r.deep_view() + trimmed_all(Seq::<Seq<char>>::empty()) =~~= r.deep_view());
    }
    r
}

fn intersperse_exec(parts: &Vec<Vec<char>>) -> (r: Vec<Vec<char>>)
    ensures
        r.deep_view() == intersperse(parts.deep_view(), para_sep()),
{
    let mut r: Vec<Vec<char>> = Vec::new();
    let mut i: usize = 0;
    while i < parts.len()
        invariant
            0 <= i <= parts.len(),
            i == 0 ==> r.len() == 0,
            i > 0 ==> r.len() == 2 * i - 1,
            forall|k: int|
                0 <= k < r.deep_view().len() ==> r.deep_view()[k] == (if k % 2 == 0 {
                    parts.deep_view()[k / 2]
                } else {
                    para_sep()
                }),
        decreases parts.len() - i,
    {
        if i > 0 {
            let ghost pre = r.deep_view();
            let mut sep: Vec<char> = Vec::new();
            sep.push('\n');
            sep.push('\n');
            proof {
                assert(sep@ =~= para_sep());
            }
            r.push(sep);
            proof {
                assert(r.deep_view() =~~= pre.push(para_sep()));
            }
        }
        proof {
            assert(parts.deep_view()[i as int] =~= parts@[i as int]@);
        }
        let ghost pre2 = r.deep_view();
        let p = cloned_chars(&parts[i]);
        r.push(p);
        proof {
            assert(r.deep_view() =~~= pre2.push(parts.deep_view()[i as int]));
        }
        i = i + 1;
    }
    proof {
        assert(r.deep_view() =~~= intersperse(parts.deep_view(), para_sep()));
    }
    r
}

fn explode_exec(frags: &Vec<Vec<char>>, budget: usize) -> (r: Vec<Vec<char>>)
    ensures
        r.deep_view() == explode(frags.deep_view(), budget as nat),
{
    let mut r: Vec<Vec<char>> = Vec::new();
    let mut i: usize = 0;
    proof {
        let fv = frags.deep_view();
        assert(fv.skip(0) =~~= fv);
        assert(r.deep_view() =~~= Seq::<Seq<char>>::empty());
        assert(Seq::<Seq<char>>::empty() + explode(fv, budget as nat)
            =~~= explode(fv, budget as nat));
    }
    while i < frags.len()
        invariant
            0 <= i <= frags.len(),
            explode(frags.deep_view(), budget as nat) == r.deep_view() + explode(
                frags.deep_view().skip(i as int),
                budget as nat,
            ),
        decreases frags.len() - i,
    {
        let ghost old_r = r.deep_view();
        let ghost fv = frags.deep_view();
        proof {
            assert(fv.skip(i as int)[0] == fv[i as int]);
            assert(fv.skip(i as int).drop_first() =~~= fv.skip(i + 1));
            assert(fv[i as int] =~= frags@[i as int]@);
        }
        if frags[i].len() <= budget {
            let p = cloned_chars(&frags[i]);
            r.push(p);
            proof {
                assert(r.deep_view()[r@.len() - 1] =~= fv[i as int]);
                assert(r.deep_view() =~~= old_r + seq![fv[i as int]]);
                assert(word_split(fv[i as int], budget as nat) == seq![fv[i as int]]);
                assert(old_r + (word_split(fv[i as int], budget as nat) + explode(
                    fv.skip(i + 1),
                    budget as nat,
                )) =~~= r.deep_view() + explode(fv.skip(i + 1), budget as nat));
            }
        } else {
            let mut words = split_on(&frags[i], ' ');
            let ghost wv = words.deep_view();
            let mut j: usize = 0;
            while j < words.len()
                invariant
                    0 <= j <= words.len(),
                    words.deep_view() == wv,
                    r.deep_view() == old_r + wv.take(j as int),
                decreases words.len() - j,
            {
                proof {
                    assert(wv[j as int] =~= words@[j as int]@);
                }
                let ghost pre = r.deep_view();
                let w = cloned_chars(&words[j]);
                r.push(w);
                proof {
                    assert(r.deep_view() =~~= pre.push(wv[j as int]));
                    assert(old_r + wv.take(j + 1) =~~= (old_r + wv.take(j as int)).push(
                        wv[j as int],
                    ));
                }
                j = j + 1;
            }
            proof {
                assert(wv.take(wv.len() as int) =~~= wv);
                assert(word_split(fv[i as int], budget as nat) == wv);
                assert(old_r + (word_split(fv[i as int], budget as nat) + explode(
                    fv.skip(i + 1),
                    budget as nat,
                )) =~~= r.deep_view() + explode(fv.skip(i + 1), budget as nat));
            }
        }
        i = i + 1;
    }
    proof {
        let fv = frags.deep_view();
        assert(fv.skip(fv.len() as int) =~~= Seq::<Seq<char>>::empty());
        assert(r.deep_view() + explode(Seq::<Seq<char>>::empty(), budget as nat)
            =~~= r.deep_view());
    }
    r
}

fn greedy_exec(frags: &Vec<Vec<char>>, budget: usize) -> (r: Vec<Vec<char>>)
    ensures
        r.deep_view() == greedy_rec(
            frags.deep_view(),
            Seq::<Seq<char>>::empty(),
            Seq::<char>::empty(),
            budget as nat,
        ),
{
    let mut chunks: Vec<Vec<char>> = Vec::new();
    let mut cur: Vec<char> = Vec::new();
    let mut i: usize = 0;
    proof {
        assert(frags.deep_view().skip(0) =~~= frags.deep_view());
        assert(chunks.deep_view() =~~= Seq::<Seq<char>>::empty());
    }
    while i < frags.len()
        invariant
            0 <= i <= frags.len(),
            greedy_rec(
                frags.deep_view(),
                Seq::<Seq<char>>::empty(),
                Seq::<char>::empty(),
                budget as nat,
            ) == greedy_rec(
                frags.deep_view().skip(i as int),
                chunks.deep_view(),
                cur@,
                budget as nat,
            ),
        decreases frags.len() - i,
    {
        let ghost fv = frags.deep_view();
        let ghost old_chunks = chunks.deep_view();
        let ghost old_cur = cur@;
        proof {
            assert(fv.skip(i as int)[0] == fv[i as int]);
            assert(fv.skip(i as int).drop_first() =~~= fv.skip(i + 1));
            assert(fv[i as int] =~= frags@[i as int]@);
        }
        let f = &frags[i];
        if cur.len() > 0 && cur.len() as u128 + f.len() as u128 > budget as u128 {
            let t = trim_vec(&cur);
            chunks.push(t);
            cur = cloned_chars(f);
            proof {
                assert(chunks.deep_view() =~~= old_chunks.push(trim_spec(old_cur)));
            }
        } else {
            push_all(&mut cur, f);
        }
        i = i + 1;
    }
    proof {
        let fv = frags.deep_view();
        assert(fv.skip(fv.len() as int) =~~= Seq::<Seq<char>>::empty());
    }
    let ghost old_chunks = chunks.deep_view();
    let ghost old_cur = cur@;
    chunks.push(cur);
    proof {
        assert(chunks.deep_view() =~~= old_chunks.push(old_cur));
    }
    chunks
}

fn collapse_exec(s: &Vec<char>) -> (r: Vec<char>)
    ensures
        r@ == collapse_nl(s@),
{
    let mut r: Vec<char> = Vec::new();
    let mut run: usize = 0;
    let mut i: usize = 0;
    proof {
        assert(s@.skip(0) =~= s@);
    }
    while i < s.len()
        invariant
            0 <= i <= s.len(),
            run <= 2,
            collapse_nl(s@) == r@ + collapse_rec(s@.skip(i as int), run as nat),
        decreases s.len() - i,
    {
        let ghost old_r = r@;
        proof {
            assert(s@.skip(i as int)[0] == s@[i as int]);
            assert(s@.skip(i as int).drop_first() =~= s@.skip(i + 1));
        }
        let c = s[i];
        if c == '\n' {
            if run < 2 {
                r.push('\n');
                run = run + 1;
                proof {
                    assert(old_r + (seq!['\n'] + collapse_rec(s@.skip(i + 1), run as nat))
                        =~= r@ + collapse_rec(s@.skip(i + 1), run as nat));
                }
            }
        } else {
            r.push(c);
            run = 0;
            proof {
                assert(old_r + (seq![c] + collapse_rec(s@.skip(i + 1), 0))
                    =~= r@ + collapse_rec(s@.skip(i + 1), 0));
            }
        }
        i = i + 1;
    }
    proof {
        assert(s@.skip(s@.len() as int) =~= Seq::<char>::empty());
    }
    r
}

/// Splits a text into ordered chunks, each at or below the character budget
/// except where a single space-free word alone exceeds it. Paragraph
/// structure is preserved where possible: paragraphs are trimmed and joined
/// with a blank line, and an oversized paragraph degrades to word-level
/// pieces. An empty input yields one (empty) chunk.
pub fn break_text_into_chunks(s: String, max_characters_per_chunk: usize) -> (r: Vec<String>)
    ensures
        r.deep_view() == chunks_spec(s@, max_characters_per_chunk as nat),
        r.len() >= 1,
{
    let cv = chars_to_vec(s.as_str());
    let paras = split_on(&cv, '\n');
    let trimmed = trimmed_all_exec(&paras);
    let inter = intersperse_exec(&trimmed);
    let frags = explode_exec(&inter, max_characters_per_chunk);
    let raw = greedy_exec(&frags, max_characters_per_chunk);
    let mut r: Vec<String> = Vec::new();
    let mut i: usize = 0;
    proof {
        let rv = raw.deep_view();
        assert(rv.skip(0) =~~= rv);
        assert(r.deep_view() =~~= Seq::<Seq<char>>::empty());
        assert(Seq::<Seq<char>>::empty() + collapse_all(rv) =~~= collapse_all(rv));
    }
    while i < raw.len()
        invariant
            0 <= i <= raw.len(),
            collapse_all(raw.deep_view()) == r.deep_view() + collapse_all(
                raw.deep_view().skip(i as int),
            ),
        decreases raw.len() - i,
    {
        let ghost old_r = r.deep_view();
        let ghost rv = raw.deep_view();
        proof {
            assert(rv.skip(i as int)[0] == rv[i as int]);
            assert(rv.skip(i as int).drop_first() =~~= rv.skip(i + 1));
            assert(rv[i as int] =~= raw@[i as int]@);
        }
        let c = collapse_exec(&raw[i]);
        let cs = string_from_chars(c.as_slice());
        r.push(cs);
        proof {
            assert(r.deep_view() =~~= old_r.push(collapse_nl(rv[i as int])));
            assert(old_r + (seq![collapse_nl(rv[i as int])] + collapse_all(rv.skip(i + 1)))
                =~~= r.deep_view() + collapse_all(rv.skip(i + 1)));
        }
        i = i + 1;
    }
    proof {
        let rv = raw.deep_view();
        assert(rv.skip(rv.len() as int) =~~= Seq::<Seq<char>>::empty());
        assert(r.deep_view() + collapse_all(Seq::<Seq<char>>::empty()) =~~= r.deep_view());
        lemma_greedy_len_ge_one(
            normalized_fragments(s@, max_characters_per_chunk as nat),
            Seq::<Seq<char>>::empty(),
            Seq::<char>::empty(),
            max_characters_per_chunk as nat,
        );
        lemma_collapse_all_len(raw.deep_view());
    }
    r
}

proof fn lemma_greedy_len_ge_one(
    frags: Seq<Seq<char>>,
    chunks: Seq<Seq<char>>,
    cur: Seq<char>,
    budget: nat,
)
    ensures
        greedy_rec(frags, chunks, cur, budget).len() > chunks.len(),
    decreases frags.len(),
{
    if frags.len() > 0 {
        let f = frags[0];
        if cur.len() > 0 && cur.len() + f.len() > budget {
            lemma_greedy_len_ge_one(frags.drop_first(), chunks.push(trim_spec(cur)), f, budget);
        } else {
            lemma_greedy_len_ge_one(frags.drop_first(), chunks, cur + f, budget);
        }
    }
}

proof fn lemma_collapse_all_len(chunks: Seq<Seq<char>>)
    ensures
        collapse_all(chunks).len() == chunks.len(),
    decreases chunks.len(),
{
    if chunks.len() > 0 {
        lemma_collapse_all_len(chunks.drop_first());
    }
}

/// The concatenation of a sequence of fragments.
pub open spec fn concat_frags(frags: Seq<Seq<char>>) -> Seq<char>
    decreases frags.len(),
{
    if frags.len() == 0 {
        Seq::<char>::empty()
    } else {
        frags[0] + concat_frags(frags.drop_first())
    }
}

/// The normalized form of a text: paragraphs trimmed and re-joined with a
/// blank line between each adjacent pair.
pub open spec fn normal_text(s: Seq<char>) -> Seq<char> {
    concat_frags(intersperse(trimmed_all(split_chars(s, '\n')), para_sep()))
}

proof fn lemma_concat_frags_push(frags: Seq<Seq<char>>, f: Seq<char>)
    ensures
        concat_frags(frags.push(f)) == concat_frags(frags) + f,
    decreases frags.len(),
{
    if frags.len() == 0 {
        assert(frags.push(f).drop_first() =~~= Seq::<Seq<char>>::empty());
        assert(frags.push(f)[0] == f);
        assert(concat_frags(Seq::<Seq<char>>::empty()) == Seq::<char>::empty());
        assert(concat_frags(frags.push(f)) == frags.push(f)[0] + concat_frags(
            frags.push(f).drop_first(),
        ));
        assert(concat_frags(frags.push(f)) =~= concat_frags(frags) + f);
    } else {
        lemma_concat_frags_push(frags.drop_first(), f);
        assert(frags.push(f).drop_first() =~~= frags.drop_first().push(f));
        assert(frags.push(f)[0] == frags[0]);
        assert(concat_frags(frags.push(f)) == frags.push(f)[0] + concat_frags(
            frags.push(f).drop_first(),
        ));
        assert(concat_frags(frags.push(f)) =~= concat_frags(frags) + f);
    }
}

proof fn lemma_concat_frags_bound(frags: Seq<Seq<char>>, k: int)
    requires
        0 <= k < frags.len(),
    ensures
        frags[k].len() <= concat_frags(frags).len(),
    decreases frags.len(),
{
    if k > 0 {
        lemma_concat_frags_bound(frags.drop_first(), k - 1);
    }
}

proof fn lemma_explode_id(frags: Seq<Seq<char>>, budget: nat)
    requires
        forall|k: int| 0 <= k < frags.len() ==> #[trigger] frags[k].len() <= budget,
    ensures
        explode(frags, budget) == frags,
    decreases frags.len(),
{
    if frags.len() == 0 {
        assert(explode(frags, budget) =~~= frags);
    } else {
        assert(forall|k: int|
            0 <= k < frags.drop_first().len() ==> #[trigger] frags.drop_first()[k].len()
                <= budget);
        lemma_explode_id(frags.drop_first(), budget);
        assert(explode(frags, budget) =~~= frags);
    }
}

proof fn lemma_greedy_all_fits(
    frags: Seq<Seq<char>>,
    chunks: Seq<Seq<char>>,
    cur: Seq<char>,
    budget: nat,
)
    requires
        cur.len() + concat_frags(frags).len() <= budget,
    ensures
        greedy_rec(frags, chunks, cur, budget) == chunks.push(cur + concat_frags(frags)),
    decreases frags.len(),
{
    if frags.len() == 0 {
        assert(chunks.push(cur + concat_frags(frags)) =~~= chunks.push(cur));
    } else {
        let f = frags[0];
        assert(concat_frags(frags) == f + concat_frags(frags.drop_first()));
        lemma_greedy_all_fits(frags.drop_first(), chunks, cur + f, budget);
        assert(cur + f + concat_frags(frags.drop_first()) =~= cur + concat_frags(frags));
        assert(chunks.push(cur + f + concat_frags(frags.drop_first())) =~~= chunks.push(
            cur + concat_frags(frags),
        ));
    }
}

/// Chunking idempotence: a text whose normalized form fits the budget yields
/// exactly one chunk, the normalized text with newline runs collapsed.
pub proof fn lemma_chunk_idempotent(s: Seq<char>, budget: nat)
    requires
        normal_text(s).len() <= budget,
    ensures
        chunks_spec(s, budget) == seq![collapse_nl(normal_text(s))],
{
    let inter = intersperse(trimmed_all(split_chars(s, '\n')), para_sep());
    assert forall|k: int| 0 <= k < inter.len() implies #[trigger] inter[k].len() <= budget by {
        lemma_concat_frags_bound(inter, k);
    }
    lemma_explode_id(inter, budget);
    lemma_greedy_all_fits(inter, Seq::<Seq<char>>::empty(), Seq::<char>::empty(), budget);
    assert(Seq::<char>::empty() + concat_frags(inter) =~= normal_text(s));
    assert(raw_chunks(s, budget) == Seq::<Seq<char>>::empty().push(normal_text(s)));
    let rc = raw_chunks(s, budget);
    assert(rc.len() == 1);
    assert(rc[0] == normal_text(s));
    assert(rc.drop_first() =~~= Seq::<Seq<char>>::empty());
    assert(collapse_all(rc) == seq![collapse_nl(rc[0])] + collapse_all(rc.drop_first()));
    assert(collapse_all(Seq::<Seq<char>>::empty()) =~~= Seq::<Seq<char>>::empty());
    assert(chunks_spec(s, budget) =~~= seq![collapse_nl(normal_text(s))]);
}

/// A sequence of characters containing no space.
pub open spec fn space_free(s: Seq<char>) -> bool {
    forall|j: int| 0 <= j < s.len() ==> s[j] != ' '
}

/// A chunk either fits the budget or is a single space-free word that alone
/// exceeds it.
pub open spec fn chunk_ok(c: Seq<char>, budget: nat) -> bool {
    c.len() <= budget || space_free(c)
}

proof fn lemma_split_chars_space_free(s: Seq<char>, k: int)
    requires
        0 <= k < split_chars(s, ' ').len(),
    ensures
        space_free(split_chars(s, ' ')[k]),
    decreases s.len(),
{
    crate::text::lemma_split_chars_nonempty(s, ' ');
    if s.len() == 0 {
    } else if s[0] == ' ' {
        if k > 0 {
            lemma_split_chars_space_free(s.drop_first(), k - 1);
        }
    } else {
        let rest = split_chars(s.drop_first(), ' ');
        crate::text::lemma_split_chars_nonempty(s.drop_first(), ' ');
        if k == 0 {
            lemma_split_chars_space_free(s.drop_first(), 0);
            assert(forall|j: int|
                0 <= j < (seq![s[0]] + rest[0]).len() ==> (seq![s[0]] + rest[0])[j] != ' ');
        } else {
            lemma_split_chars_space_free(s.drop_first(), k);
            assert(split_chars(s, ' ')[k] == rest[k]);
        }
    }
}

proof fn lemma_trim_start_props(s: Seq<char>)
    ensures
        trim_start_spec(s).len() <= s.len(),
        space_free(s) ==> space_free(trim_start_spec(s)),
    decreases s.len(),
{
    if s.len() > 0 && is_space_char(s[0]) {
        lemma_trim_start_props(s.drop_first());
        assert(space_free(s) ==> space_free(s.drop_first()));
    }
}

proof fn lemma_trim_end_props(s: Seq<char>)
    ensures
        trim_end_spec(s).len() <= s.len(),
        space_free(s) ==> space_free(trim_end_spec(s)),
    decreases s.len(),
{
    if s.len() > 0 && is_space_char(s.last()) {
        lemma_trim_end_props(s.drop_last());
        assert(space_free(s) ==> space_free(s.drop_last()));
    }
}

proof fn lemma_trim_ok(c: Seq<char>, budget: nat)
    requires
        chunk_ok(c, budget),
    ensures
        chunk_ok(trim_spec(c), budget),
{
    lemma_trim_start_props(c);
    lemma_trim_end_props(trim_start_spec(c));
}

proof fn lemma_collapse_props(s: Seq<char>, run: nat)
    ensures
        collapse_rec(s, run).len() <= s.len(),
        space_free(s) ==> space_free(collapse_rec(s, run)),
    decreases s.len(),
{
    if s.len() == 0 {
    } else {
        assert(space_free(s) ==> space_free(s.drop_first()));
        if s[0] == '\n' {
            if run >= 2 {
                lemma_collapse_props(s.drop_first(), run);
            } else {
                lemma_collapse_props(s.drop_first(), run + 1);
                assert(space_free(s) ==> space_free(
                    seq!['\n'] + collapse_rec(s.drop_first(), run + 1),
                ));
            }
        } else {
            lemma_collapse_props(s.drop_first(), 0);
            assert(space_free(s) ==> space_free(seq![s[0]] + collapse_rec(s.drop_first(), 0)));
        }
    }
}

proof fn lemma_explode_ok(frags: Seq<Seq<char>>, budget: nat, k: int)
    requires
        0 <= k < explode(frags, budget).len(),
    ensures
        chunk_ok(explode(frags, budget)[k], budget),
    decreases frags.len(),
{
    if frags.len() > 0 {
        let ws = word_split(frags[0], budget);
        if k < ws.len() {
            if frags[0].len() <= budget {
                assert(explode(frags, budget)[k] == frags[0]);
            } else {
                lemma_split_chars_space_free(frags[0], k);
                assert(explode(frags, budget)[k] == split_chars(frags[0], ' ')[k]);
            }
        } else {
            lemma_explode_ok(frags.drop_first(), budget, k - ws.len());
            assert(explode(frags, budget)[k] == explode(frags.drop_first(), budget)[k - ws.len()]);
        }
    }
}

proof fn lemma_greedy_ok(
    frags: Seq<Seq<char>>,
    chunks: Seq<Seq<char>>,
    cur: Seq<char>,
    budget: nat,
    k: int,
)
    requires
        forall|i: int| 0 <= i < frags.len() ==> chunk_ok(#[trigger] frags[i], budget),
        forall|i: int| 0 <= i < chunks.len() ==> chunk_ok(#[trigger] chunks[i], budget),
        chunk_ok(cur, budget),
        0 <= k < greedy_rec(frags, chunks, cur, budget).len(),
    ensures
        chunk_ok(greedy_rec(frags, chunks, cur, budget)[k], budget),
    decreases frags.len(),
{
    if frags.len() == 0 {
        assert(greedy_rec(frags, chunks, cur, budget) == chunks.push(cur));
    } else {
        let f = frags[0];
        assert(chunk_ok(f, budget));
        assert(forall|i: int|
            0 <= i < frags.drop_first().len() ==> chunk_ok(#[trigger] frags.drop_first()[i], budget));
        if cur.len() > 0 && cur.len() + f.len() > budget {
            lemma_trim_ok(cur, budget);
            assert(forall|i: int|
                0 <= i < chunks.push(trim_spec(cur)).len() ==> chunk_ok(
                    #[trigger] chunks.push(trim_spec(cur))[i],
                    budget,
                ));
            lemma_greedy_ok(frags.drop_first(), chunks.push(trim_spec(cur)), f, budget, k);
        } else {
            if cur.len() == 0 {
                assert(cur + f =~= f);
            }
            lemma_greedy_ok(frags.drop_first(), chunks, cur + f, budget, k);
        }
    }
}

proof fn lemma_collapse_all_index(chunks: Seq<Seq<char>>, k: int)
    requires
        0 <= k < chunks.len(),
    ensures
        collapse_all(chunks).len() == chunks.len(),
        collapse_all(chunks)[k] == collapse_nl(chunks[k]),
    decreases chunks.len(),
{
    lemma_collapse_all_len(chunks);
    if k > 0 {
        lemma_collapse_all_index(chunks.drop_first(), k - 1);
    }
}

/// Chunking budget invariant: every chunk's character count is at or below
/// the budget, except a chunk that is a single space-free word which alone
/// exceeds it.
pub proof fn lemma_chunk_budget(s: Seq<char>, budget: nat)
    ensures
        forall|k: int|
            0 <= k < chunks_spec(s, budget).len() ==> chunk_ok(
                #[trigger] chunks_spec(s, budget)[k],
                budget,
            ),
{
    let frags = normalized_fragments(s, budget);
    let raw = raw_chunks(s, budget);
    assert forall|k: int| 0 <= k < chunks_spec(s, budget).len() implies chunk_ok(
        #[trigger] chunks_spec(s, budget)[k],
        budget,
    ) by {
        lemma_collapse_all_len(raw);
        lemma_collapse_all_index(raw, k);
        assert forall|i: int| 0 <= i < frags.len() implies chunk_ok(
            #[trigger] frags[i],
            budget,
        ) by {
            lemma_explode_ok(
                intersperse(trimmed_all(split_chars(s, '\n')), para_sep()),
                budget,
                i,
            );
        }
        lemma_greedy_ok(frags, Seq::<Seq<char>>::empty(), Seq::<char>::empty(), budget, k);
        lemma_collapse_props(raw[k], 0);
    }
}

/// The non-whitespace content of a text, in order.
pub open spec fn strip_ws(s: Seq<char>) -> Seq<char>
    decreases s.len(),
{
    if s.len() == 0 {
        Seq::<char>::empty()
    } else if is_space_char(s[0]) {
        strip_ws(s.drop_first())
    } else {
        seq![s[0]] + strip_ws(s.drop_first())
    }
}

proof fn lemma_strip_add(a: Seq<char>, b: Seq<char>)
    ensures
        strip_ws(a + b) == strip_ws(a) + strip_ws(b),
    decreases a.len(),
{
    if a.len() == 0 {
        assert(a + b =~= b);
        assert(strip_ws(a) + strip_ws(b) =~= strip_ws(b));
    } else {
        lemma_strip_add(a.drop_first(), b);
        assert((a + b)[0] == a[0]);
        assert((a + b).drop_first() =~= a.drop_first() + b);
        if is_space_char(a[0]) {
            assert(strip_ws(a + b) =~= strip_ws(a) + strip_ws(b));
        } else {
            assert(seq![a[0]] + (strip_ws(a.drop_first()) + strip_ws(b)) =~= (seq![a[0]]
                + strip_ws(a.drop_first())) + strip_ws(b));
            assert(strip_ws(a + b) =~= strip_ws(a) + strip_ws(b));
        }
    }
}

proof fn lemma_concat_cons(a: Seq<char>, rest: Seq<Seq<char>>)
    ensures
        concat_frags(seq![a] + rest) == a + concat_frags(rest),
{
    assert((seq![a] + rest)[0] == a);
    assert((seq![a] + rest).drop_first() =~~= rest);
    assert(concat_frags(seq![a] + rest) == a + concat_frags(rest));
}

proof fn lemma_concat_frags_add(x: Seq<Seq<char>>, y: Seq<Seq<char>>)
    ensures
        concat_frags(x + y) == concat_frags(x) + concat_frags(y),
    decreases x.len(),
{
    if x.len() == 0 {
        assert(x + y =~~= y);
        assert(concat_frags(x) + concat_frags(y) =~= concat_frags(y));
    } else {
        lemma_concat_frags_add(x.drop_first(), y);
        assert((x + y)[0] == x[0]);
        assert((x + y).drop_first() =~~= x.drop_first() + y);
        assert(concat_frags(x + y) == x[0] + concat_frags(x.drop_first() + y));
        assert(x[0] + (concat_frags(x.drop_first()) + concat_frags(y)) =~= (x[0] + concat_frags(
            x.drop_first(),
        )) + concat_frags(y));
    }
}

proof fn lemma_strip_empty_space(c: char)
    requires
        is_space_char(c),
    ensures
        strip_ws(seq![c]) == Seq::<char>::empty(),
{
    assert(seq![c].drop_first() =~= Seq::<char>::empty());
    assert(strip_ws(Seq::<char>::empty()) == Seq::<char>::empty());
}

proof fn lemma_strip_trim_start(s: Seq<char>)
    ensures
        strip_ws(trim_start_spec(s)) == strip_ws(s),
    decreases s.len(),
{
    if s.len() > 0 && is_space_char(s[0]) {
        lemma_strip_trim_start(s.drop_first());
    }
}

proof fn lemma_strip_trim_end(s: Seq<char>)
    ensures
        strip_ws(trim_end_spec(s)) == strip_ws(s),
    decreases s.len(),
{
    if s.len() > 0 && is_space_char(s.last()) {
        lemma_strip_trim_end(s.drop_last());
        assert(s =~= s.drop_last() + seq![s.last()]);
        lemma_strip_add(s.drop_last(), seq![s.last()]);
        lemma_strip_empty_space(s.last());
        assert(strip_ws(s.drop_last()) + Seq::<char>::empty() =~= strip_ws(s.drop_last()));
    }
}

proof fn lemma_strip_trim(s: Seq<char>)
    ensures
        strip_ws(trim_spec(s)) == strip_ws(s),
{
    lemma_strip_trim_start(s);
    lemma_strip_trim_end(trim_start_spec(s));
}

proof fn lemma_strip_join(ps: Seq<Seq<char>>, sep: char)
    requires
        is_space_char(sep),
    ensures
        strip_ws(join_chars(ps, sep)) == strip_ws(concat_frags(ps)),
    decreases ps.len(),
{
    if ps.len() == 0 {
    } else if ps.len() == 1 {
        assert(concat_frags(ps) == ps[0] + concat_frags(ps.drop_first()));
        assert(concat_frags(ps.drop_first()) == Seq::<char>::empty());
        assert(ps[0] + Seq::<char>::empty() =~= ps[0]);
    } else {
        lemma_strip_join(ps.drop_first(), sep);
        lemma_strip_add(ps[0], seq![sep] + join_chars(ps.drop_first(), sep));
        lemma_strip_add(seq![sep], join_chars(ps.drop_first(), sep));
        lemma_strip_empty_space(sep);
        assert(ps[0] + seq![sep] + join_chars(ps.drop_first(), sep) =~= ps[0] + (seq![sep]
            + join_chars(ps.drop_first(), sep)));
        lemma_strip_add(ps[0], concat_frags(ps.drop_first()));
        assert(strip_ws(join_chars(ps, sep)) =~= strip_ws(concat_frags(ps)));
    }
}

proof fn lemma_strip_split(x: Seq<char>, sep: char)
    requires
        is_space_char(sep),
    ensures
        strip_ws(concat_frags(split_chars(x, sep))) == strip_ws(x),
{
    lemma_join_split(x, sep);
    lemma_strip_join(split_chars(x, sep), sep);
}

proof fn lemma_strip_trimmed_all(ps: Seq<Seq<char>>)
    ensures
        strip_ws(concat_frags(trimmed_all(ps))) == strip_ws(concat_frags(ps)),
    decreases ps.len(),
{
    if ps.len() > 0 {
        lemma_strip_trimmed_all(ps.drop_first());
        lemma_concat_cons(trim_spec(ps[0]), trimmed_all(ps.drop_first()));
        lemma_strip_add(trim_spec(ps[0]), concat_frags(trimmed_all(ps.drop_first())));
        lemma_strip_trim(ps[0]);
        lemma_strip_add(ps[0], concat_frags(ps.drop_first()));
    }
}

proof fn lemma_intersperse_unroll(ps: Seq<Seq<char>>, sep: Seq<char>)
    requires
        ps.len() >= 2,
    ensures
        intersperse(ps, sep) == seq![ps[0], sep] + intersperse(ps.drop_first(), sep),
{
    assert(intersperse(ps, sep) =~~= seq![ps[0], sep] + intersperse(ps.drop_first(), sep));
}

proof fn lemma_strip_intersperse(ps: Seq<Seq<char>>)
    ensures
        strip_ws(concat_frags(intersperse(ps, para_sep()))) == strip_ws(concat_frags(ps)),
    decreases ps.len(),
{
    if ps.len() == 0 {
        assert(intersperse(ps, para_sep()) =~~= ps);
    } else if ps.len() == 1 {
        assert(intersperse(ps, para_sep()) =~~= ps);
    } else {
        lemma_strip_intersperse(ps.drop_first());
        lemma_intersperse_unroll(ps, para_sep());
        let rest = intersperse(ps.drop_first(), para_sep());
        assert(seq![ps[0], para_sep()] + rest =~~= seq![ps[0]] + (seq![para_sep()] + rest));
        lemma_concat_cons(ps[0], seq![para_sep()] + rest);
        lemma_concat_cons(para_sep(), rest);
        lemma_strip_add(ps[0], para_sep() + concat_frags(rest));
        lemma_strip_add(para_sep(), concat_frags(rest));
        assert(para_sep().drop_first() =~= seq!['\n']);
        lemma_strip_empty_space('\n');
        assert(strip_ws(para_sep()) == Seq::<char>::empty());
        lemma_strip_add(ps[0], concat_frags(ps.drop_first()));
        assert(strip_ws(concat_frags(intersperse(ps, para_sep())))
            =~= strip_ws(concat_frags(ps)));
    }
}

proof fn lemma_strip_explode(frags: Seq<Seq<char>>, budget: nat)
    ensures
        strip_ws(concat_frags(explode(frags, budget))) == strip_ws(concat_frags(frags)),
    decreases frags.len(),
{
    if frags.len() > 0 {
        lemma_strip_explode(frags.drop_first(), budget);
        let ws = word_split(frags[0], budget);
        lemma_concat_frags_add(ws, explode(frags.drop_first(), budget));
        lemma_strip_add(concat_frags(ws), concat_frags(explode(frags.drop_first(), budget)));
        if frags[0].len() <= budget {
            assert(ws =~~= seq![frags[0]] + Seq::<Seq<char>>::empty());
            lemma_concat_cons(frags[0], Seq::<Seq<char>>::empty());
            assert(concat_frags(Seq::<Seq<char>>::empty()) == Seq::<char>::empty());
            assert(concat_frags(ws) =~= frags[0]);
        } else {
            lemma_strip_split(frags[0], ' ');
        }
        lemma_strip_add(frags[0], concat_frags(frags.drop_first()));
        assert(strip_ws(concat_frags(explode(frags, budget)))
            =~= strip_ws(concat_frags(frags)));
    }
}

proof fn lemma_strip_greedy(
    frags: Seq<Seq<char>>,
    chunks: Seq<Seq<char>>,
    cur: Seq<char>,
    budget: nat,
)
    ensures
        strip_ws(concat_frags(greedy_rec(frags, chunks, cur, budget))) == strip_ws(
            concat_frags(chunks),
        ) + strip_ws(cur) + strip_ws(concat_frags(frags)),
    decreases frags.len(),
{
    if frags.len() == 0 {
        lemma_concat_frags_push(chunks, cur);
        lemma_strip_add(concat_frags(chunks), cur);
        assert(strip_ws(concat_frags(frags)) == Seq::<char>::empty());
        assert(strip_ws(concat_frags(chunks)) + strip_ws(cur) + Seq::<char>::empty()
            =~= strip_ws(concat_frags(chunks)) + strip_ws(cur));
    } else {
        let f = frags[0];
        lemma_strip_add(f, concat_frags(frags.drop_first()));
        if cur.len() > 0 && cur.len() + f.len() > budget {
            lemma_strip_greedy(frags.drop_first(), chunks.push(trim_spec(cur)), f, budget);
            lemma_concat_frags_push(chunks, trim_spec(cur));
            lemma_strip_add(concat_frags(chunks), trim_spec(cur));
            lemma_strip_trim(cur);
            assert((strip_ws(concat_frags(chunks)) + strip_ws(cur)) + strip_ws(f) + strip_ws(
                concat_frags(frags.drop_first()),
            ) =~= strip_ws(concat_frags(chunks)) + strip_ws(cur) + (strip_ws(f) + strip_ws(
                concat_frags(frags.drop_first()),
            )));
        } else {
            lemma_strip_greedy(frags.drop_first(), chunks, cur + f, budget);
            lemma_strip_add(cur, f);
            assert((strip_ws(concat_frags(chunks)) + (strip_ws(cur) + strip_ws(f)) + strip_ws(
                concat_frags(frags.drop_first()),
            )) =~= strip_ws(concat_frags(chunks)) + strip_ws(cur) + (strip_ws(f) + strip_ws(
                concat_frags(frags.drop_first()),
            )));
        }
    }
}

proof fn lemma_strip_collapse(s: Seq<char>, run: nat)
    ensures
        strip_ws(collapse_rec(s, run)) == strip_ws(s),
    decreases s.len(),
{
    if s.len() > 0 {
        if s[0] == '\n' {
            if run >= 2 {
                lemma_strip_collapse(s.drop_first(), run);
            } else {
                lemma_strip_collapse(s.drop_first(), run + 1);
                lemma_strip_add(seq!['\n'], collapse_rec(s.drop_first(), run + 1));
                lemma_strip_empty_space('\n');
                assert(Seq::<char>::empty() + strip_ws(s.drop_first())
                    =~= strip_ws(s.drop_first()));
            }
        } else {
            lemma_strip_collapse(s.drop_first(), 0);
            lemma_strip_add(seq![s[0]], collapse_rec(s.drop_first(), 0));
            if is_space_char(s[0]) {
                lemma_strip_empty_space(s[0]);
                assert(Seq::<char>::empty() + strip_ws(s.drop_first())
                    =~= strip_ws(s.drop_first()));
            } else {
                assert(seq![s[0]].drop_first() =~= Seq::<char>::empty());
                assert(strip_ws(Seq::<char>::empty()) == Seq::<char>::empty());
                assert(strip_ws(seq![s[0]]) =~= seq![s[0]]);
                assert(strip_ws(s) == seq![s[0]] + strip_ws(s.drop_first()));
            }
        }
    }
}

proof fn lemma_strip_collapse_all(chunks: Seq<Seq<char>>)
    ensures
        strip_ws(concat_frags(collapse_all(chunks))) == strip_ws(concat_frags(chunks)),
    decreases chunks.len(),
{
    if chunks.len() > 0 {
        lemma_strip_collapse_all(chunks.drop_first());
        lemma_concat_cons(collapse_nl(chunks[0]), collapse_all(chunks.drop_first()));
        lemma_strip_add(collapse_nl(chunks[0]), concat_frags(collapse_all(chunks.drop_first())));
        lemma_strip_collapse(chunks[0], 0);
        lemma_strip_add(chunks[0], concat_frags(chunks.drop_first()));
    }
}

/// Chunking losslessness: concatenating the chunks reproduces every
/// non-whitespace character of the input, in order, with no duplication.
pub proof fn lemma_chunk_lossless(s: Seq<char>, budget: nat)
    ensures
        strip_ws(concat_frags(chunks_spec(s, budget))) == strip_ws(s),
{
    let paras = split_chars(s, '\n');
    let trimmed = trimmed_all(paras);
    let inter = intersperse(trimmed, para_sep());
    let frags = explode(inter, budget);
    lemma_strip_collapse_all(raw_chunks(s, budget));
    lemma_strip_greedy(frags, Seq::<Seq<char>>::empty(), Seq::<char>::empty(), budget);
    assert(strip_ws(concat_frags(Seq::<Seq<char>>::empty())) == Seq::<char>::empty());
    assert(Seq::<char>::empty() + Seq::<char>::empty() + strip_ws(concat_frags(frags))
        =~= strip_ws(concat_frags(frags)));
    lemma_strip_explode(inter, budget);
    lemma_strip_intersperse(trimmed);
    lemma_strip_trimmed_all(paras);
    lemma_strip_split(s, '\n');
}

} // verus!
