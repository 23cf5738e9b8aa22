//! Character-level text primitives: conversions between `String` and
//! `Vec<char>`, splitting, joining, and trimming, each proved against a
//! spec-level model on `Seq<char>`.

use vstd::prelude::*;

verus! {

/// The whitespace characters that trimming removes.
pub open spec fn is_space_char(c: char) -> bool {
    c == ' ' || c == '\t' || c == '\n' || c == '\r'
}

/// Splitting a character sequence on a separator, keeping empty pieces,
/// as `str::split` does: the result always has at least one piece, and
/// re-joining the pieces with the separator restores the input.
pub open spec fn split_chars(s: Seq<char>, sep: char) -> Seq<Seq<char>>
    decreases s.len(),
{
    if s.len() == 0 {
        seq![Seq::<char>::empty()]
    } else if s[0] == sep {
        seq![Seq::<char>::empty()] + split_chars(s.drop_first(), sep)
    } else {
        let rest = split_chars(s.drop_first(), sep);
        seq![seq![s[0]] + rest[0]] + rest.drop_first()
    }
}

/// Joining pieces with a single separator character between them.
pub open spec fn join_chars(parts: Seq<Seq<char>>, sep: char) -> Seq<char>
    decreases parts.len(),
{
    if parts.len() == 0 {
        Seq::<char>::empty()
    } else if parts.len() == 1 {
        parts[0]
    } else {
        parts[0] + seq![sep] + join_chars(parts.drop_first(), sep)
    }
}

pub proof fn lemma_split_chars_nonempty(s: Seq<char>, sep: char)
    ensures
        split_chars(s, sep).len() >= 1,
    decreases s.len(),
{
    if s.len() != 0 {
        lemma_split_chars_nonempty(s.drop_first(), sep);
    }
}

/// Splitting then joining on the same separator restores the input.
pub proof fn lemma_join_split(s: Seq<char>, sep: char)
    ensures
        join_chars(split_chars(s, sep), sep) == s,
    decreases s.len(),
{
    if s.len() == 0 {
        assert(join_chars(split_chars(s, sep), sep) =~= s);
    } else if s[0] == sep {
        lemma_join_split(s.drop_first(), sep);
        lemma_split_chars_nonempty(s.drop_first(), sep);
        let rest = split_chars(s.drop_first(), sep);
        assert((seq![Seq::<char>::empty()] + rest).drop_first() =~~= rest);
        assert(join_chars(split_chars(s, sep), sep) =~= s);
    } else {
        lemma_join_split(s.drop_first(), sep);
        lemma_split_chars_nonempty(s.drop_first(), sep);
        let rest = split_chars(s.drop_first(), sep);
        if rest.len() == 1 {
            assert(join_chars(rest, sep) == rest[0]);
            assert(join_chars(split_chars(s, sep), sep) =~= s);
        } else {
            assert(join_chars(rest, sep) == rest[0] + seq![sep] + join_chars(
                rest.drop_first(),
                sep,
            ));
            let parts = seq![seq![s[0]] + rest[0]] + rest.drop_first();
            assert(parts.drop_first() =~~= rest.drop_first());
            assert(split_chars(s, sep) == parts);
            assert(parts.len() >= 2);
            assert(join_chars(parts, sep) == parts[0] + seq![sep] + join_chars(
                parts.drop_first(),
                sep,
            ));
            assert(parts[0] == seq![s[0]] + rest[0]);
            assert(join_chars(parts, sep) =~= seq![s[0]] + (rest[0] + seq![sep] + join_chars(
                rest.drop_first(),
                sep,
            )));
            assert(seq![s[0]] + s.drop_first() =~= s);
            assert(join_chars(split_chars(s, sep), sep) =~= s);
        }
    }
}

/// Appending one character extends the last piece of the split, or opens a
/// fresh empty piece when the character is the separator.
pub proof fn lemma_split_chars_push(s: Seq<char>, sep: char, c: char)
    ensures
        split_chars(s, sep).len() >= 1,
        c == sep ==> split_chars(s.push(c), sep) == split_chars(s, sep).push(
            Seq::<char>::empty(),
        ),
        c != sep ==> split_chars(s.push(c), sep) == split_chars(s, sep).update(
            split_chars(s, sep).len() - 1,
            split_chars(s, sep).last().push(c),
        ),
    decreases s.len(),
{
    lemma_split_chars_nonempty(s, sep);
    if s.len() == 0 {
        assert(s =~= Seq::<char>::empty());
        assert(s.push(c).drop_first() =~= Seq::<char>::empty());
        assert(split_chars(Seq::<char>::empty(), sep) == seq![Seq::<char>::empty()]);
        assert(s.push(c)[0] == c);
        if c == sep {
            assert(split_chars(s.push(c), sep) =~~= split_chars(s, sep).push(
                Seq::<char>::empty(),
            ));
        } else {
            assert(split_chars(s.push(c), sep) =~~= split_chars(s, sep).update(
                split_chars(s, sep).len() - 1,
                split_chars(s, sep).last().push(c),
            ));
        }
    } else {
        lemma_split_chars_push(s.drop_first(), sep, c);
        lemma_split_chars_nonempty(s.drop_first(), sep);
        assert(s.push(c).drop_first() =~= s.drop_first().push(c));
        assert(s.push(c)[0] == s[0]);
        let rest = split_chars(s.drop_first(), sep);
        let restp = split_chars(s.drop_first().push(c), sep);
        if s[0] == sep {
            if c == sep {
                assert(split_chars(s.push(c), sep) =~~= split_chars(s, sep).push(
                    Seq::<char>::empty(),
                ));
            } else {
                assert(split_chars(s.push(c), sep) =~~= split_chars(s, sep).update(
                    split_chars(s, sep).len() - 1,
                    split_chars(s, sep).last().push(c),
                ));
            }
        } else {
            if c == sep {
                assert(restp[0] == rest[0]);
                assert(restp.drop_first() =~~= rest.drop_first().push(Seq::<char>::empty()));
                assert(split_chars(s.push(c), sep) =~~= split_chars(s, sep).push(
                    Seq::<char>::empty(),
                ));
            } else {
                if rest.len() == 1 {
                    assert(restp[0] == rest[0].push(c));
                    assert(split_chars(s.push(c), sep) =~~= split_chars(s, sep).update(
                        split_chars(s, sep).len() - 1,
                        split_chars(s, sep).last().push(c),
                    ));
                } else {
                    assert(restp[0] == rest[0]);
                    assert(restp.drop_first() =~~= rest.drop_first().update(
                        rest.len() - 2,
                        rest.last().push(c),
                    ));
                    assert(split_chars(s.push(c), sep) =~~= split_chars(s, sep).update(
                        split_chars(s, sep).len() - 1,
                        split_chars(s, sep).last().push(c),
                    ));
                }
            }
        }
    }
}

/// Leading whitespace removed.
pub open spec fn trim_start_spec(s: Seq<char>) -> Seq<char>
    decreases s.len(),
{
    if s.len() > 0 && is_space_char(s[0]) {
        trim_start_spec(s.drop_first())
    } else {
        s
    }
}

/// Trailing whitespace removed.
pub open spec fn trim_end_spec(s: Seq<char>) -> Seq<char>
    decreases s.len(),
{
    if s.len() > 0 && is_space_char(s.last()) {
        trim_end_spec(s.drop_last())
    } else {
        s
    }
}

/// Leading and trailing whitespace removed.
pub open spec fn trim_spec(s: Seq<char>) -> Seq<char> {
    trim_end_spec(trim_start_spec(s))
}

proof fn lemma_trim_start_skip(s: Seq<char>, a: int)
    requires
        0 <= a <= s.len(),
        forall|j: int| 0 <= j < a ==> is_space_char(s[j]),
        a < s.len() ==> !is_space_char(s[a]),
    ensures
        trim_start_spec(s) == s.skip(a),
    decreases a,
{
    if a == 0 {
        assert(s.skip(0) =~= s);
    } else {
        lemma_trim_start_skip(s.drop_first(), a - 1);
        assert(s.drop_first().skip(a - 1) =~= s.skip(a));
    }
}

proof fn lemma_trim_end_take(s: Seq<char>, b: int)
    requires
        0 <= b <= s.len(),
        forall|j: int| b <= j < s.len() ==> is_space_char(s[j]),
        b > 0 ==> !is_space_char(s[b - 1]),
    ensures
        trim_end_spec(s) == s.take(b),
    decreases s.len() - b,
{
    if b == s.len() {
        assert(s.take(b) =~= s);
    } else {
        lemma_trim_end_take(s.drop_last(), b);
        assert(s.drop_last().take(b) =~= s.take(b));
    }
}

/// Whether a character counts as whitespace for trimming.
pub fn is_space(c: char) -> (r: bool)
    ensures
        r == is_space_char(c),
{
    c == ' ' || c == '\t' || c == '\n' || c == '\r'
}

/// The characters with leading and trailing whitespace removed.
pub fn trim_vec(s: &Vec<char>) -> (r: Vec<char>)
    ensures
        r@ == trim_spec(s@),
{
    let n = s.len();
    let mut a: usize = 0;
    while a < n && is_space(s[a])
        invariant
            0 <= a <= n,
            n == s.len(),
            forall|j: int| 0 <= j < a ==> is_space_char(s@[j]),
        decreases n - a,
    {
        a = a + 1;
    }
    let mut b: usize = n;
    while b > a && is_space(s[b - 1])
        invariant
            a <= b <= n,
            n == s.len(),
            forall|j: int| b <= j < n ==> is_space_char(s@[j]),
        decreases b,
    {
        b = b - 1;
    }
    let mut r: Vec<char> = Vec::new();
    let mut i: usize = a;
    while i < b
        invariant
            a <= i <= b <= n,
            n == s.len(),
            r@ == s@.subrange(a as int, i as int),
        decreases b - i,
    {
        r.push(s[i]);
        proof {
            assert(s@.subrange(a as int, i + 1) =~= s@.subrange(a as int, i as int).push(
                s@[i as int],
            ));
        }
        i = i + 1;
    }
    proof {
        lemma_trim_start_skip(s@, a as int);
        let t = s@.skip(a as int);
        assert(forall|j: int|
            b - a <= j < t.len() ==> is_space_char(#[trigger] t[j]));
        if b > a {
            assert(!is_space_char(t[b - a - 1]));
        }
        lemma_trim_end_take(t, b - a);
        assert(t.take(b - a) =~= s@.subrange(a as int, b as int));
    }
    r
}

/// Appends every character of `src` to `dst`.
pub fn push_all(dst: &mut Vec<char>, src: &Vec<char>)
    ensures
        final(dst)@ == old(dst)@ + src@,
{
    let mut i: usize = 0;
    while i < src.len()
        invariant
            0 <= i <= src.len(),
            dst@ == old(dst)@ + src@.take(i as int),
        decreases src.len() - i,
    {
        dst.push(src[i]);
        proof {
            assert(old(dst)@ + src@.take(i + 1) =~= (old(dst)@ + src@.take(i as int)).push(
                src@[i as int],
            ));
        }
        i = i + 1;
    }
    proof {
        assert(src@.take(src@.len() as int) =~= src@);
    }
}

/// A fresh vector holding the same characters.
pub fn cloned_chars(v: &Vec<char>) -> (r: Vec<char>)
    ensures
        r@ == v@,
{
    let mut r: Vec<char> = Vec::new();
    push_all(&mut r, v);
    r
}

/// Splits on a separator character, keeping empty pieces.
pub fn split_on(s: &Vec<char>, sep: char) -> (r: Vec<Vec<char>>)
    ensures
        r.deep_view() == split_chars(s@, sep),
        r.len() >= 1,
{
    let mut parts: Vec<Vec<char>> = Vec::new();
    let mut cur: Vec<char> = Vec::new();
    let mut i: usize = 0;
    proof {
        assert(s@.take(0) =~= Seq::<char>::empty());
        assert(split_chars(s@.take(0), sep) =~~= parts.deep_view().push(cur@));
    }
    while i < s.len()
        invariant
            0 <= i <= s.len(),
            split_chars(s@.take(i as int), sep) == parts.deep_view().push(cur@),
        decreases s.len() - i,
    {
        let c = s[i];
        proof {
            assert(s@.take(i + 1) =~= s@.take(i as int).push(s@[i as int]));
            lemma_split_chars_push(s@.take(i as int), sep, c);
        }
        if c == sep {
            let ghost old_parts = parts.deep_view();
            let ghost old_cur = cur@;
            parts.push(cur);
            cur = Vec::new();
            proof {
                assert(parts.deep_view() =~~= old_parts.push(old_cur));
                assert(split_chars(s@.take(i + 1), sep) =~~= parts.deep_view().push(cur@));
            }
        } else {
            let ghost old_parts = parts.deep_view();
            let ghost old_cur = cur@;
            cur.push(c);
            proof {
                assert(old_parts.push(old_cur).update(
                    old_parts.push(old_cur).len() - 1,
                    old_parts.push(old_cur).last().push(c),
                ) =~~= old_parts.push(old_cur.push(c)));
                assert(split_chars(s@.take(i + 1), sep) =~~= parts.deep_view().push(cur@));
            }
        }
        i = i + 1;
    }
    let ghost old_parts = parts.deep_view();
    let ghost old_cur = cur@;
    parts.push(cur);
    proof {
        assert(s@.take(s@.len() as int) =~= s@);
        assert(parts.deep_view() =~~= old_parts.push(old_cur));
    }
    parts
}

pub proof fn lemma_join_chars_push(parts: Seq<Seq<char>>, p: Seq<char>, sep: char)
    ensures
        parts.len() == 0 ==> join_chars(parts.push(p), sep) == p,
        parts.len() > 0 ==> join_chars(parts.push(p), sep) == join_chars(parts, sep)
            + seq![sep] + p,
    decreases parts.len(),
{
    if parts.len() == 0 {
        assert(join_chars(parts.push(p), sep) == parts.push(p)[0]);
    } else if parts.len() == 1 {
        assert(parts.push(p).drop_first() =~~= seq![p]);
        assert(join_chars(seq![p], sep) == p);
        assert(join_chars(parts.push(p), sep) =~= join_chars(parts, sep) + seq![sep] + p);
    } else {
        lemma_join_chars_push(parts.drop_first(), p, sep);
        assert(parts.push(p).drop_first() =~~= parts.drop_first().push(p));
        assert(join_chars(parts.push(p), sep) =~= join_chars(parts, sep) + seq![sep] + p);
    }
}

/// Joins pieces with a single separator character between them.
pub fn join_with(parts: &Vec<Vec<char>>, sep: char) -> (r: Vec<char>)
    ensures
        r@ == join_chars(parts.deep_view(), sep),
{
    let mut r: Vec<char> = Vec::new();
    let mut i: usize = 0;
    proof {
        assert(parts.deep_view().take(0) =~~= Seq::<Seq<char>>::empty());
    }
    while i < parts.len()
        invariant
            0 <= i <= parts.len(),
            r@ == join_chars(parts.deep_view().take(i as int), sep),
        decreases parts.len() - i,
    {
        let ghost taken = parts.deep_view().take(i as int);
        proof {
            lemma_join_chars_push(taken, parts.deep_view()[i as int], sep);
            assert(parts.deep_view().take(i + 1) =~~= taken.push(parts.deep_view()[i as int]));
        }
        if i > 0 {
            r.push(sep);
        }
        push_all(&mut r, &parts[i]);
        proof {
            assert(parts.deep_view()[i as int] == parts@[i as int]@);
            assert(r@ =~= join_chars(parts.deep_view().take(i + 1), sep));
        }
        i = i + 1;
    }
    proof {
        assert(parts.deep_view().take(parts.deep_view().len() as int) =~~= parts.deep_view());
    }
    r
}

/// The decimal digit characters of a number, most significant first.
pub open spec fn digits_spec(n: nat) -> Seq<char>
    decreases n,
{
    if n < 10 {
        seq![digit_char(n)]
    } else {
        digits_spec(n / 10).push(digit_char(n % 10))
    }
}

/// The character for a single decimal digit.
pub open spec fn digit_char(d: nat) -> char {
    if d == 0 { '0' }
    else if d == 1 { '1' }
    else if d == 2 { '2' }
    else if d == 3 { '3' }
    else if d == 4 { '4' }
    else if d == 5 { '5' }
    else if d == 6 { '6' }
    else if d == 7 { '7' }
    else if d == 8 { '8' }
    else { '9' }
}

fn digit_char_exec(d: u64) -> (r: char)
    requires
        d < 10,
    ensures
        r == digit_char(d as nat),
{
    if d == 0 { '0' }
    else if d == 1 { '1' }
    else if d == 2 { '2' }
    else if d == 3 { '3' }
    else if d == 4 { '4' }
    else if d == 5 { '5' }
    else if d == 6 { '6' }
    else if d == 7 { '7' }
    else if d == 8 { '8' }
    else { '9' }
}

fn push_digits(n: u64, v: &mut Vec<char>)
    ensures
        final(v)@ == old(v)@ + digits_spec(n as nat),
    decreases n,
{
    if n < 10 {
        v.push(digit_char_exec(n));
    } else {
        push_digits(n / 10, v);
        v.push(digit_char_exec(n % 10));
        proof {
            assert(old(v)@ + digits_spec((n / 10) as nat) + seq![digit_char((n % 10) as nat)]
                =~= old(v)@ + digits_spec(n as nat));
        }
    }
}

/// The decimal rendering of a number, as a string.
pub fn u64_to_string(n: u64) -> (r: String)
    ensures
        r@ == digits_spec(n as nat),
{
    let mut v: Vec<char> = Vec::new();
    push_digits(n, &mut v);
    string_from_chars(v.as_slice())
}

/// The characters of a string, as a vector.
pub fn chars_to_vec(s: &str) -> (r: Vec<char>)
    ensures
        r@ == s@,
{
    let mut r: Vec<char> = Vec::new();
    for c in it: s.chars()
        invariant
            it.seq() == s@,
            r@ == it.seq().take(it.index() as int),
    {
        r.push(c);
    }
    proof {
        assert(r@ =~= s@);
    }
    r
}

/// Relies on `String::push`: appends the given character to the end of the
/// string.
pub assume_specification [ String::push ](s: &mut String, c: char)
    ensures
        final(s)@ == old(s)@.push(c),
;

/// A string holding exactly the given characters.
pub fn string_from_chars(v: &[char]) -> (r: String)
    ensures
        r@ == v@,
{
    let mut r = String::new();
    let mut i: usize = 0;
    while i < v.len()
        invariant
            i <= v.len(),
            r@ == v@.take(i as int),
        decreases v.len() - i,
    {
        r.push(v[i]);
        proof {
            assert(v@.take(i + 1) =~= v@.take(i as int).push(v@[i as int]));
        }
        i = i + 1;
    }
    proof {
        assert(v@.take(v@.len() as int) =~= v@);
    }
    r
}

} // verus!
