use vstd::prelude::*;

verus! {

/// The characters with the Unicode `White_Space` property.
pub open spec fn is_white_space(c: char) -> bool {
    let u = c as u32;
    ||| 0x09 <= u <= 0x0d
    ||| u == 0x20
    ||| u == 0x85
    ||| u == 0xa0
    ||| u == 0x1680
    ||| 0x2000 <= u <= 0x200a
    ||| u == 0x2028
    ||| u == 0x2029
    ||| u == 0x202f
    ||| u == 0x205f
    ||| u == 0x3000
}

/// Whether `c` separates tokens: exactly the Unicode `White_Space` characters.
pub fn is_white_space_char(c: char) -> (r: bool)
    ensures
        r == is_white_space(c),
{
    let u = c as u32;
    (0x09 <= u && u <= 0x0d) || u == 0x20 || u == 0x85 || u == 0xa0 || u == 0x1680
        || (0x2000 <= u && u <= 0x200a) || u == 0x2028 || u == 0x2029 || u == 0x202f
        || u == 0x205f || u == 0x3000
}

/// The separator between the stages of a pipeline.
pub open spec fn is_pipe(c: char) -> bool {
    c == '|'
}

/// The pieces of `s` between pipe characters, left to right; never empty.
pub open spec fn pipe_segments(s: Seq<char>) -> Seq<Seq<char>>
    decreases s.len(),
{
    if s.len() == 0 {
        seq![Seq::empty()]
    } else {
        let prev = pipe_segments(s.drop_last());
        if is_pipe(s.last()) {
            prev.push(Seq::empty())
        } else {
            prev.update(prev.len() - 1, prev.last().push(s.last()))
        }
    }
}

/// The maximal runs of characters of `s` that are not white space, left to right.
pub open spec fn words(s: Seq<char>) -> Seq<Seq<char>>
    decreases s.len(),
{
    if s.len() == 0 {
        Seq::empty()
    } else {
        let prev = words(s.drop_last());
        let c = s.last();
        if is_white_space(c) {
            prev
        } else if s.len() >= 2 && !is_white_space(s[s.len() - 2]) {
            prev.update(prev.len() - 1, prev.last().push(c))
        } else {
            prev.push(seq![c])
        }
    }
}

/// The tokens of each stage of `line`, left to right.
pub open spec fn stage_tokens(line: Seq<char>) -> Seq<Seq<Seq<char>>> {
    pipe_segments(line).map_values(|seg: Seq<char>| words(seg))
}

/// Every stage of `line` holds at least one token.
pub open spec fn well_formed(line: Seq<char>) -> bool {
    forall|i: int| 0 <= i < stage_tokens(line).len() ==> #[trigger] stage_tokens(line)[i].len() > 0
}

/// The tokens written one after another, a single space between two neighbours.
pub open spec fn joined(a: Seq<Seq<char>>) -> Seq<char>
    decreases a.len(),
{
    if a.len() == 0 {
        Seq::empty()
    } else if a.len() == 1 {
        a[0]
    } else {
        joined(a.drop_last()) + seq![' '] + a.last()
    }
}

/// The tokens written one after another, with nothing between them.
pub open spec fn concatenated(a: Seq<Seq<char>>) -> Seq<char>
    decreases a.len(),
{
    if a.len() == 0 {
        Seq::empty()
    } else {
        concatenated(a.drop_last()) + a.last()
    }
}

/// `t` can stand as one token: it is not empty and holds no white space and no pipe.
pub open spec fn is_token(t: Seq<char>) -> bool {
    &&& t.len() > 0
    &&& forall|k: int| 0 <= k < t.len() ==> !is_white_space(#[trigger] t[k]) && !is_pipe(t[k])
}

/// The character sequences that a vector of strings holds.
pub open spec fn texts(v: Seq<String>) -> Seq<Seq<char>> {
    v.map_values(|w: String| w@)
}

/// Splits `line` at every pipe character.
pub fn split_stages(line: &str) -> (r: Vec<String>)
    ensures
        texts(r@) == pipe_segments(line@),
{
    let n = line.unicode_len();
    let mut out: Vec<String> = Vec::new();
    let mut start: usize = 0;
    let mut i: usize = 0;
    proof {
        assert(line@.take(0) == Seq::<char>::empty());
        assert(texts(out@) == Seq::<Seq<char>>::empty());
        assert(texts(out@).push(Seq::<char>::empty()) == seq![Seq::<char>::empty()]);
    }
    while i < n
        invariant
            n == line@.len(),
            start <= i <= n,
            pipe_segments(line@.take(i as int)) == texts(out@).push(line@.subrange(start as int, i as int)),
        decreases n - i,
    {
        let c = line.get_char(i);
        proof {
            assert(line@.take(i + 1).drop_last() == line@.take(i as int));
            assert(line@.take(i + 1).last() == c);
        }
        if c == '|' {
            let piece = line.substring_char(start, i).to_owned();
            let ghost before = out@;
            out.push(piece);
            assert(texts(out@) == texts(before).push(piece@));
            i = i + 1;
            start = i;
            assert(line@.subrange(start as int, i as int) == Seq::<char>::empty());
        } else {
            assert(line@.subrange(start as int, i + 1) == line@.subrange(start as int, i as int).push(c));
            i = i + 1;
        }
    }
    let last = line.substring_char(start, n).to_owned();
    let ghost before = out@;
    out.push(last);
    proof {
        assert(texts(out@) == texts(before).push(last@));
        assert(line@.take(n as int) == line@);
    }
    out
}


/// Splits `segment` into its runs of non-white-space characters.
pub fn split_words(segment: &str) -> (r: Vec<String>)
    ensures
        texts(r@) == words(segment@),
{
    let n = segment.unicode_len();
    let ghost s = segment@;
    let mut out: Vec<String> = Vec::new();
    let mut start: usize = 0;
    let mut in_word = false;
    let mut i: usize = 0;
    proof {
        assert(s.take(0) == Seq::<char>::empty());
        assert(texts(out@) == Seq::<Seq<char>>::empty());
    }
    while i < n
        invariant
            n == s.len(),
            s == segment@,
            start <= i <= n,
            in_word == (i > 0 && !is_white_space(s[i - 1])),
            in_word ==> words(s.take(i as int)) == texts(out@).push(s.subrange(start as int, i as int)),
            !in_word ==> words(s.take(i as int)) == texts(out@),
        decreases n - i,
    {
        let c = segment.get_char(i);
        proof {
            assert(s.take(i + 1).drop_last() == s.take(i as int));
            assert(s.take(i + 1).last() == c);
            if i > 0 {
                assert(s.take(i + 1)[i - 1] == s[i - 1]);
            }
        }
        if is_white_space_char(c) {
            if in_word {
                let w = segment.substring_char(start, i).to_owned();
                let ghost before = out@;
                out.push(w);
                assert(texts(out@) == texts(before).push(w@));
            }
            in_word = false;
        } else if in_word {
            assert(s.subrange(start as int, i + 1) == s.subrange(start as int, i as int).push(c));
        } else {
            start = i;
            assert(s.subrange(start as int, i + 1) == seq![c]);
            in_word = true;
        }
        i = i + 1;
    }
    if in_word {
        let w = segment.substring_char(start, n).to_owned();
        let ghost before = out@;
        out.push(w);
        assert(texts(out@) == texts(before).push(w@));
    }
    assert(s.take(n as int) == s);
    out
}


/// Whether the two strings hold the same characters.
pub fn same_text(a: &str, b: &str) -> (r: bool)
    ensures
        r == (a@ == b@),
{
    let n = a.unicode_len();
    if n != b.unicode_len() {
        return false;
    }
    let mut i: usize = 0;
    while i < n
        invariant
            n == a@.len() == b@.len(),
            i <= n,
            a@.take(i as int) == b@.take(i as int),
        decreases n - i,
    {
        if a.get_char(i) != b.get_char(i) {
            return false;
        }
        assert(a@.take(i + 1) == a@.take(i as int).push(a@[i as int]));
        assert(b@.take(i + 1) == b@.take(i as int).push(b@[i as int]));
        i = i + 1;
    }
    assert(a@.take(n as int) == a@);
    assert(b@.take(n as int) == b@);
    true
}


proof fn lemma_segments_without_pipe(s: Seq<char>)
    requires
        forall|k: int| 0 <= k < s.len() ==> !is_pipe(#[trigger] s[k]),
    ensures
        pipe_segments(s) == seq![s],
    decreases s.len(),
{
    if s.len() > 0 {
        lemma_segments_without_pipe(s.drop_last());
        assert(s.drop_last().push(s.last()) =~= s);
        assert(seq![s.drop_last()].update(0, s) =~= seq![s]);
    } else {
        assert(s =~= Seq::<char>::empty());
    }
}

proof fn lemma_segments_nonempty(s: Seq<char>)
    ensures
        pipe_segments(s).len() >= 1,
    decreases s.len(),
{
    if s.len() > 0 {
        lemma_segments_nonempty(s.drop_last());
    }
}

proof fn lemma_segments_split(p: Seq<char>, q: Seq<char>)
    ensures
        pipe_segments(p + seq!['|'] + q) == pipe_segments(p) + pipe_segments(q),
    decreases q.len(),
{
    let s = p + seq!['|'] + q;
    if q.len() == 0 {
        assert(s.drop_last() =~= p);
        assert(pipe_segments(p).push(Seq::empty()) =~= pipe_segments(p) + seq![Seq::<char>::empty()]);
    } else {
        lemma_segments_split(p, q.drop_last());
        lemma_segments_nonempty(q.drop_last());
        lemma_segments_nonempty(p);
        assert(s.drop_last() =~= p + seq!['|'] + q.drop_last());
        assert(s.last() == q.last());
        let a = pipe_segments(p);
        let b = pipe_segments(q.drop_last());
        if is_pipe(q.last()) {
            assert((a + b).push(Seq::empty()) =~= a + b.push(Seq::empty()));
        } else {
            assert((a + b).update(a.len() + b.len() - 1, b.last().push(q.last())) =~= a + b.update(
                b.len() - 1,
                b.last().push(q.last()),
            ));
        }
    }
}

proof fn lemma_words_of_token(t: Seq<char>)
    requires
        is_token(t),
    ensures
        words(t) == seq![t],
    decreases t.len(),
{
    assert(!is_white_space(t[t.len() - 1]));
    if t.len() == 1 {
        assert(t.drop_last() =~= Seq::<char>::empty());
        assert(words(t.drop_last()) == Seq::<Seq<char>>::empty());
        assert(t =~= seq![t[0]]);
        assert(Seq::<Seq<char>>::empty().push(seq![t[0]]) =~= seq![t]);
    } else {
        assert(!is_white_space(t[t.len() - 2]));
        let u = t.drop_last();
        assert(is_token(u)) by {
            assert forall|k: int| 0 <= k < u.len() implies !is_white_space(#[trigger] u[k]) && !is_pipe(u[k]) by {
                assert(u[k] == t[k]);
            }
        }
        lemma_words_of_token(u);
        assert(t[t.len() - 2] == u.last());
        assert(u.push(t.last()) =~= t);
        assert(seq![u].update(0, t) =~= seq![t]);
    }
}

proof fn lemma_words_after_space(p: Seq<char>, t: Seq<char>)
    requires
        p.len() > 0,
        is_white_space(p.last()),
        is_token(t),
    ensures
        words(p + t) == words(p).push(t),
    decreases t.len(),
{
    let s = p + t;
    if t.len() == 1 {
        assert(s.drop_last() =~= p);
        assert(s[s.len() - 2] == p.last());
        assert(t =~= seq![t[0]]);
    } else {
        let u = t.drop_last();
        assert(is_token(u)) by {
            assert forall|k: int| 0 <= k < u.len() implies !is_white_space(#[trigger] u[k]) && !is_pipe(u[k]) by {
                assert(u[k] == t[k]);
            }
        }
        lemma_words_after_space(p, u);
        assert(s.drop_last() =~= p + u);
        assert(s[s.len() - 2] == t[t.len() - 2]);
        assert(u.push(t.last()) =~= t);
        assert(words(p).push(u).update(words(p).len() as int, t) =~= words(p).push(t));
    }
}

proof fn lemma_joined_no_pipe(a: Seq<Seq<char>>)
    requires
        forall|i: int| 0 <= i < a.len() ==> is_token(#[trigger] a[i]),
    ensures
        forall|k: int| 0 <= k < joined(a).len() ==> !is_pipe(#[trigger] joined(a)[k]),
    decreases a.len(),
{
    if a.len() == 1 {
        assert(is_token(a[0]));
    } else if a.len() > 1 {
        let j = joined(a.drop_last());
        assert forall|i: int| 0 <= i < a.drop_last().len() implies is_token(#[trigger] a.drop_last()[i]) by {
            assert(a.drop_last()[i] == a[i]);
        }
        lemma_joined_no_pipe(a.drop_last());
        assert(is_token(a.last()));
        assert forall|k: int| 0 <= k < joined(a).len() implies !is_pipe(#[trigger] joined(a)[k]) by {
            if k < j.len() {
                assert(joined(a)[k] == j[k]);
            } else if k > j.len() {
                assert(joined(a)[k] == a.last()[k - j.len() - 1]);
            }
        }
    }
}

proof fn lemma_words_of_joined(a: Seq<Seq<char>>)
    requires
        a.len() > 0,
        forall|i: int| 0 <= i < a.len() ==> is_token(#[trigger] a[i]),
    ensures
        words(joined(a)) == a,
    decreases a.len(),
{
    if a.len() == 1 {
        assert(is_token(a[0]));
        lemma_words_of_token(a[0]);
        assert(seq![a[0]] =~= a);
    } else {
        let rest = a.drop_last();
        assert forall|i: int| 0 <= i < rest.len() implies is_token(#[trigger] rest[i]) by {
            assert(rest[i] == a[i]);
        }
        lemma_words_of_joined(rest);
        let p = joined(rest) + seq![' '];
        assert(is_white_space(' '));
        assert(p.drop_last() =~= joined(rest));
        assert(words(p) == words(joined(rest)));
        assert(is_token(a.last()));
        lemma_words_after_space(p, a.last());
        assert(rest.push(a.last()) =~= a);
    }
}

proof fn lemma_words_of_blank(w: Seq<char>)
    requires
        forall|k: int| 0 <= k < w.len() ==> is_white_space(#[trigger] w[k]),
    ensures
        words(w) == Seq::<Seq<char>>::empty(),
    decreases w.len(),
{
    if w.len() > 0 {
        let u = w.drop_last();
        assert forall|k: int| 0 <= k < u.len() implies is_white_space(#[trigger] u[k]) by {
            assert(u[k] == w[k]);
        }
        lemma_words_of_blank(u);
        assert(is_white_space(w[w.len() - 1]));
    }
}

proof fn lemma_segments_have_no_pipe(s: Seq<char>)
    ensures
        forall|i: int, k: int|
            0 <= i < pipe_segments(s).len() && 0 <= k < pipe_segments(s)[i].len() ==> !is_pipe(
                #[trigger] pipe_segments(s)[i][k],
            ),
    decreases s.len(),
{
    if s.len() > 0 {
        lemma_segments_have_no_pipe(s.drop_last());
        lemma_segments_nonempty(s.drop_last());
        let prev = pipe_segments(s.drop_last());
        assert forall|i: int, k: int|
            0 <= i < pipe_segments(s).len() && 0 <= k < pipe_segments(s)[i].len() implies !is_pipe(
                #[trigger] pipe_segments(s)[i][k],
            ) by {
            if !is_pipe(s.last()) && i == prev.len() - 1 && k < prev.last().len() {
                assert(pipe_segments(s)[i][k] == prev[i][k]);
            }
        }
    }
}

proof fn lemma_words_are_tokens(s: Seq<char>)
    requires
        forall|k: int| 0 <= k < s.len() ==> !is_pipe(#[trigger] s[k]),
    ensures
        forall|i: int| 0 <= i < words(s).len() ==> is_token(#[trigger] words(s)[i]),
    decreases s.len(),
{
    if s.len() > 0 {
        let u = s.drop_last();
        assert forall|k: int| 0 <= k < u.len() implies !is_pipe(#[trigger] u[k]) by {
            assert(u[k] == s[k]);
        }
        lemma_words_are_tokens(u);
        let prev = words(u);
        let c = s.last();
        assert(!is_pipe(s[s.len() - 1]));
        if !is_white_space(c) && s.len() >= 2 && !is_white_space(s[s.len() - 2]) {
            lemma_words_end(u);
            assert(u.last() == s[s.len() - 2]);
            let w = prev.last().push(c);
            assert(is_token(prev[prev.len() - 1]));
            assert forall|k: int| 0 <= k < w.len() implies !is_white_space(#[trigger] w[k]) && !is_pipe(w[k]) by {
                if k < w.len() - 1 {
                    assert(w[k] == prev.last()[k]);
                }
            }
        }
    }
}

proof fn lemma_words_end(s: Seq<char>)
    ensures
        s.len() > 0 && !is_white_space(s.last()) ==> words(s).len() >= 1,
    decreases s.len(),
{
    if s.len() > 0 {
        lemma_words_end(s.drop_last());
    }
}

/// Every token of every stage of a line is a token in the sense of `is_token`.
pub proof fn lemma_stage_tokens_are_tokens(line: Seq<char>, i: int)
    requires
        0 <= i < stage_tokens(line).len(),
    ensures
        forall|j: int| 0 <= j < stage_tokens(line)[i].len() ==> is_token(#[trigger] stage_tokens(line)[i][j]),
{
    lemma_segments_have_no_pipe(line);
    let seg = pipe_segments(line)[i];
    assert forall|k: int| 0 <= k < seg.len() implies !is_pipe(#[trigger] seg[k]) by {
        assert(!is_pipe(pipe_segments(line)[i][k]));
    }
    lemma_words_are_tokens(seg);
}

/// A line made of tokens joined by single spaces, with no pipe among them, is one
/// stage whose tokens are exactly those tokens.
pub proof fn lemma_single_stage(a: Seq<Seq<char>>)
    requires
        a.len() > 0,
        forall|i: int| 0 <= i < a.len() ==> is_token(#[trigger] a[i]),
    ensures
        stage_tokens(joined(a)) == seq![a],
        well_formed(joined(a)),
{
    lemma_joined_no_pipe(a);
    lemma_segments_without_pipe(joined(a));
    lemma_words_of_joined(a);
    assert(stage_tokens(joined(a)) =~= seq![a]);
}

/// Two pipe characters with nothing but white space between them leave an empty
/// stage, so the line is malformed.
pub proof fn lemma_empty_stage_rejected(x: Seq<char>, w: Seq<char>, y: Seq<char>)
    requires
        forall|k: int| 0 <= k < w.len() ==> is_white_space(#[trigger] w[k]),
    ensures
        !well_formed(x + seq!['|'] + w + seq!['|'] + y),
{
    let line = x + seq!['|'] + w + seq!['|'] + y;
    assert(line =~= x + seq!['|'] + (w + seq!['|'] + y));
    lemma_segments_split(x, w + seq!['|'] + y);
    lemma_segments_split(w, y);
    assert forall|k: int| 0 <= k < w.len() implies !is_pipe(#[trigger] w[k]) by {
        assert(is_white_space(w[k]));
    }
    lemma_segments_without_pipe(w);
    lemma_words_of_blank(w);
    let i = pipe_segments(x).len() as int;
    assert(pipe_segments(line)[i] == w);
    assert(stage_tokens(line)[i].len() == 0);
}

} // verus!
