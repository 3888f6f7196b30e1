//! Category scores and the figures of the score report: the total, the
//! interpretation band, the score bars and the wrapped reasoning text.
use vstd::prelude::*;

use crate::rubric::{categories, category_name, is_rubric, Category};
use crate::text::{
    byte_len, char_width, utf8_width, chars_of, join_with, lemma_byte_len_concat, lemma_words_proper, no_ws,
    proper_words, push_char, push_chars, lemma_words_of_word, lemma_words_push, split_words, views, words,
};

verus! {

/// The score of one category, with the reasoning given for it.
#[derive(Clone, Debug)]
pub struct CategoryScore {
    pub id: u8,
    pub name: String,
    pub score: u8,
    pub reasoning: String,
}

/// Sum of the scores of `s`.
pub open spec fn score_sum(s: Seq<CategoryScore>) -> int
    decreases s.len(),
{
    if s.len() == 0 {
        0
    } else {
        score_sum(s.drop_last()) + s.last().score
    }
}

/// Whether every score of `s` lies on the rubric's scale `1..=5`.
pub open spec fn on_scale(s: Seq<CategoryScore>) -> bool {
    forall|i: int| 0 <= i < s.len() ==> 1 <= #[trigger] s[i].score <= 5
}

/// Whether `s` is the sheet on which no category has been scored yet: one
/// entry per category in rubric order, each at the lowest score `1` with no
/// reasoning.
pub open spec fn is_blank_sheet(s: Seq<CategoryScore>) -> bool {
    &&& s.len() == 20
    &&& forall|i: int|
        0 <= i < 20 ==> {
            &&& #[trigger] s[i].id == i + 1
            &&& s[i].name@ == category_name(i + 1)
            &&& s[i].score == 1
            &&& s[i].reasoning@ == Seq::<char>::empty()
        }
}

/// A sheet with every category at the lowest score.
pub fn empty_scores() -> (r: Vec<CategoryScore>)
    ensures
        is_blank_sheet(r@),
{
    let cats: Vec<Category> = categories();
    let mut r: Vec<CategoryScore> = Vec::new();
    let mut i: usize = 0;
    while i < cats.len()
        invariant
            is_rubric(cats@),
            i <= cats.len(),
            r.len() == i,
            forall|k: int|
                0 <= k < i ==> {
                    &&& #[trigger] r@[k].id == k + 1
                    &&& r@[k].name@ == category_name(k + 1)
                    &&& r@[k].score == 1
                    &&& r@[k].reasoning@ == Seq::<char>::empty()
                },
        decreases cats.len() - i,
    {
        let cat = &cats[i];
        assert(cats@[i as int].id == i + 1);
        r.push(CategoryScore {
            id: cat.id,
            name: cat.name.to_owned(),
            score: 1,
            reasoning: String::new(),
        });
        i = i + 1;
    }
    r
}

/// The sum of a prefix of a sheet is at most the sum of the whole sheet.
pub proof fn lemma_prefix_sum_le(s: Seq<CategoryScore>, n: int)
    requires
        0 <= n <= s.len(),
    ensures
        0 <= score_sum(s.take(n)) <= score_sum(s),
    decreases s.len() - n,
{
    if n < s.len() {
        lemma_prefix_sum_le(s, n + 1);
        assert(s.take(n + 1).drop_last() == s.take(n));
    } else {
        assert(s.take(n) == s);
    }
    lemma_sum_nonneg(s.take(n));
}

/// A sum of scores is never negative.
pub proof fn lemma_sum_nonneg(s: Seq<CategoryScore>)
    ensures
        score_sum(s) >= 0,
    decreases s.len(),
{
    if s.len() > 0 {
        lemma_sum_nonneg(s.drop_last());
    }
}

/// The total of all scores.
pub fn total_score(scores: &[CategoryScore]) -> (t: u32)
    requires
        score_sum(scores@) <= u32::MAX,
    ensures
        t == score_sum(scores@),
{
    let mut t: u32 = 0;
    let mut i: usize = 0;
    while i < scores.len()
        invariant
            i <= scores.len(),
            score_sum(scores@) <= u32::MAX,
            t == score_sum(scores@.take(i as int)),
        decreases scores.len() - i,
    {
        proof {
            lemma_prefix_sum_le(scores@, i + 1);
            assert(scores@.take(i + 1).drop_last() == scores@.take(i as int));
        }
        t = t + scores[i].score as u32;
        i = i + 1;
    }
    assert(scores@.take(i as int) == scores@);
    t
}

/// A sheet of `n` scores on the scale `1..=5` totals between `n` and `5 * n`.
/// With the twenty categories of the rubric, the total lies in `20..=100`.
pub proof fn lemma_total_range(s: Seq<CategoryScore>)
    requires
        on_scale(s),
    ensures
        s.len() <= score_sum(s) <= 5 * s.len(),
    decreases s.len(),
{
    if s.len() > 0 {
        assert(on_scale(s.drop_last())) by {
            assert forall|i: int| 0 <= i < s.drop_last().len() implies 1 <= #[trigger] s.drop_last()[i].score <= 5 by {
                assert(s.drop_last()[i] == s[i]);
            }
        }
        lemma_total_range(s.drop_last());
        assert(1 <= s[s.len() - 1].score <= 5);
    }
}

/// The four bands into which a total score falls.
#[derive(Clone, Copy, Debug, PartialEq, Eq, Structural)]
pub enum Band {
    Low,
    Moderate,
    Strong,
    Overwhelming,
}

/// The band of a total: `0..=25`, `26..=50`, `51..=75`, above 75.
pub open spec fn band_of(total: int) -> Band {
    if total <= 25 {
        Band::Low
    } else if total <= 50 {
        Band::Moderate
    } else if total <= 75 {
        Band::Strong
    } else {
        Band::Overwhelming
    }
}

/// Classifies a total score.
pub fn band(total: u32) -> (b: Band)
    ensures
        b == band_of(total as int),
        b == Band::Low <==> total <= 25,
        b == Band::Moderate <==> 26 <= total <= 50,
        b == Band::Strong <==> 51 <= total <= 75,
        b == Band::Overwhelming <==> total >= 76,
{
    if total <= 25 {
        Band::Low
    } else if total <= 50 {
        Band::Moderate
    } else if total <= 75 {
        Band::Strong
    } else {
        Band::Overwhelming
    }
}

/// The bands follow the scoring table: a total up to 25 is Low, 26 to 50
/// Moderate, 51 to 75 Strong and 76 or more Overwhelming; and a larger
/// total never falls in a lower band.
pub proof fn lemma_band_thresholds(total: int, other: int)
    ensures
        band_of(total) == Band::Low <==> total <= 25,
        band_of(total) == Band::Moderate <==> 26 <= total <= 50,
        band_of(total) == Band::Strong <==> 51 <= total <= 75,
        band_of(total) == Band::Overwhelming <==> total >= 76,
        total <= other ==> band_rank(band_of(total)) <= band_rank(band_of(other)),
{
}

/// The position of a band, from Low (0) to Overwhelming (3).
pub open spec fn band_rank(b: Band) -> int {
    match b {
        Band::Low => 0,
        Band::Moderate => 1,
        Band::Strong => 2,
        Band::Overwhelming => 3,
    }
}

/// The sentence that reports a band.
pub open spec fn band_sentence(b: Band) -> Seq<char> {
    match b {
        Band::Low => "Low likelihood of a PSYOP"@,
        Band::Moderate => "Moderate likelihood — look deeper"@,
        Band::Strong => "Strong likelihood — manipulation likely"@,
        Band::Overwhelming => "Overwhelming signs of a PSYOP"@,
    }
}

/// The interpretation of a total, as the report and the web service give it.
pub fn interpretation(total: u32) -> (r: &'static str)
    ensures
        r@ == band_sentence(band_of(total as int)),
        total <= 25 ==> r@ == "Low likelihood of a PSYOP"@,
        26 <= total <= 50 ==> r@ == "Moderate likelihood — look deeper"@,
        51 <= total <= 75 ==> r@ == "Strong likelihood — manipulation likely"@,
        total >= 76 ==> r@ == "Overwhelming signs of a PSYOP"@,
{
    match band(total) {
        Band::Low => "Low likelihood of a PSYOP",
        Band::Moderate => "Moderate likelihood — look deeper",
        Band::Strong => "Strong likelihood — manipulation likely",
        Band::Overwhelming => "Overwhelming signs of a PSYOP",
    }
}

/// The bar drawn for a score: one full block per point, then one light
/// block for each point missing to 5.
pub open spec fn bar_text(score: nat) -> Seq<char> {
    Seq::new(score, |i: int| '█') + Seq::new((5 - score) as nat, |i: int| '░')
}

/// Draws the bar of a score on the scale `0..=5`.
pub fn score_bar(score: u8) -> (r: String)
    requires
        score <= 5,
    ensures
        r@ == bar_text(score as nat),
{
    let mut r = String::new();
    let mut i: u8 = 0;
    while i < 5
        invariant
            score <= 5,
            i <= 5,
            r@ == (if i <= score {
                Seq::new(i as nat, |k: int| '█')
            } else {
                Seq::new(score as nat, |k: int| '█') + Seq::new((i - score) as nat, |k: int| '░')
            }),
        decreases 5 - i,
    {
        if i < score {
            push_char(&mut r, '█');
        } else {
            push_char(&mut r, '░');
        }
        i = i + 1;
    }
    r
}

/// `n` capped at the largest `usize`.
pub open spec fn sat(n: int) -> int {
    if n > usize::MAX {
        usize::MAX as int
    } else {
        n
    }
}

/// Whether the line being filled, `cur`, must be closed before `word` is
/// added: the line is not empty and the word, with one space before it,
/// would take it past `max` bytes.
pub open spec fn needs_break(cur: Seq<char>, word: Seq<char>, max: int) -> bool {
    cur.len() > 0 && byte_len(cur) + byte_len(word) + 1 > max
}

/// One step of the greedy wrap: the closed lines and the open line, once
/// `word` is placed.
pub open spec fn wrap_step(st: (Seq<Seq<char>>, Seq<char>), word: Seq<char>, max: int) -> (
    Seq<Seq<char>>,
    Seq<char>,
) {
    if needs_break(st.1, word, max) {
        (st.0.push(st.1), word)
    } else if st.1.len() > 0 {
        (st.0, st.1 + seq![' '] + word)
    } else {
        (st.0, word)
    }
}

/// The closed lines and the open line after placing every word of `ws`.
pub open spec fn wrap_state(ws: Seq<Seq<char>>, max: int) -> (Seq<Seq<char>>, Seq<char>)
    decreases ws.len(),
{
    if ws.len() == 0 {
        (Seq::empty(), Seq::empty())
    } else {
        wrap_step(wrap_state(ws.drop_last(), max), ws.last(), max)
    }
}

/// The lines into which the report wraps `text` for a width of `max` bytes:
/// words are taken in order and a line is closed when the next word, with a
/// space before it, would make it longer than `max`.
pub open spec fn wrap_lines(text: Seq<char>, max: int) -> Seq<Seq<char>> {
    let (lines, cur) = wrap_state(words(text), max);
    if cur.len() > 0 {
        lines.push(cur)
    } else {
        lines
    }
}

/// The views of a vector of strings.
pub open spec fn string_views(v: Seq<String>) -> Seq<Seq<char>> {
    v.map_values(|x: String| x@)
}

/// The UTF-8 length of `v`, capped at the largest `usize`.
fn capped_byte_len(v: &Vec<char>) -> (n: usize)
    ensures
        n == sat(byte_len(v@) as int),
{
    let mut n: usize = 0;
    let mut i: usize = 0;
    while i < v.len()
        invariant
            i <= v.len(),
            n == sat(byte_len(v@.take(i as int)) as int),
        decreases v.len() - i,
    {
        assert(v@.take(i + 1).drop_last() == v@.take(i as int));
        n = n.saturating_add(char_width(v[i]));
        i = i + 1;
    }
    assert(v@.take(i as int) == v@);
    n
}

/// Wraps `text` into lines of at most `max_width` bytes, breaking only
/// between words; a single word longer than the width stands on a line of
/// its own.
pub fn wrap_text(text: &str, max_width: usize) -> (lines: Vec<String>)
    ensures
        string_views(lines@) == wrap_lines(text@, max_width as int),
{
    let v = chars_of(text);
    let ws = split_words(&v);
    let ghost wv = views(ws@);
    let ghost max = max_width as int;
    let mut lines: Vec<String> = Vec::new();
    let mut cur = String::new();
    let mut cur_b: usize = 0;
    let mut cur_empty = true;
    let mut j: usize = 0;
    while j < ws.len()
        invariant
            j <= ws.len(),
            wv == views(ws@),
            wv == words(text@),
            max == max_width as int,
            (string_views(lines@), cur@) == wrap_state(wv.take(j as int), max),
            cur_b == sat(byte_len(cur@) as int),
            cur_empty == (cur@.len() == 0),
        decreases ws.len() - j,
    {
        let w = &ws[j];
        let ghost state = (string_views(lines@), cur@);
        assert(wv.take(j + 1).drop_last() == wv.take(j as int));
        assert(wv.take(j + 1).last() == w@);
        let wb = capped_byte_len(w);
        let brk = !cur_empty && (cur_b >= max_width || wb >= max_width - cur_b);
        assert(brk == needs_break(cur@, w@, max));
        if brk {
            let closed = cur;
            cur = String::new();
            lines.push(closed);
            cur_b = 0;
            cur_empty = true;
            assert(byte_len(cur@) == 0);
            assert(string_views(lines@) == state.0.push(state.1));
        }
        if !cur_empty {
            let ghost before = cur@;
            push_char(&mut cur, ' ');
            proof {
                lemma_byte_len_concat(before, seq![' ']);
                lemma_space_width();
            }
            cur_b = cur_b.saturating_add(1);
            assert(cur@ == before + seq![' ']);
            assert(cur_b == sat(byte_len(cur@) as int));
        }
        assert(cur_b == sat(byte_len(cur@) as int));
        let ghost before = cur@;
        push_chars(&mut cur, w);
        proof {
            lemma_byte_len_concat(before, w@);
        }
        cur_b = cur_b.saturating_add(wb);
        assert(byte_len(cur@) == byte_len(before) + byte_len(w@));
        proof {
            lemma_words_proper(text@);
            assert(wv[j as int] == w@);
            assert(w@.len() > 0);
        }
        cur_empty = false;
        j = j + 1;
    }
    assert(wv.take(j as int) == wv);
    if !cur_empty {
        lines.push(cur);
    }
    lines
}

/// A space takes one byte.
proof fn lemma_space_width()
    ensures
        byte_len(seq![' ']) == 1,
{
    let s = seq![' '];
    assert(s.drop_last() == Seq::<char>::empty());
    assert(s.last() == ' ');
    assert((' ' as u32) == 32);
    assert(utf8_width(' ') == 1);
    assert(byte_len(Seq::<char>::empty()) == 0);
    assert(byte_len(s) == byte_len(s.drop_last()) + utf8_width(s.last()));
}

/// `join_with` of a list whose last item is extended by a space and a word.
proof fn lemma_join_extend(x: Seq<Seq<char>>, a: Seq<char>, w: Seq<char>)
    ensures
        join_with(x.push(a + seq![' '] + w), ' ') == join_with(x.push(a), ' ') + seq![' '] + w,
{
    assert(x.push(a + seq![' '] + w).drop_last() == x);
    assert(x.push(a).drop_last() == x);
    if x.len() == 0 {
        assert(x.push(a)[0] == a);
        assert(x.push(a + seq![' '] + w)[0] == a + seq![' '] + w);
    } else {
        assert(join_with(x, ' ') + seq![' '] + (a + seq![' '] + w) == join_with(x, ' ') + seq![' '] + a
            + seq![' '] + w);
    }
}

/// What holds after placing the words `ws`: the lines, rejoined with single
/// spaces, give back the words joined with single spaces; every line is
/// non-empty and either fits in `max` bytes or holds no whitespace at all.
proof fn lemma_wrap_state(ws: Seq<Seq<char>>, max: int)
    requires
        proper_words(ws),
    ensures
        ({
            let (l, c) = wrap_state(ws, max);
            &&& ws.len() == 0 ==> l.len() == 0 && c.len() == 0
            &&& ws.len() > 0 ==> c.len() > 0 && join_with(l.push(c), ' ') == join_with(ws, ' ')
            &&& forall|k: int|
                0 <= k < l.len() ==> #[trigger] l[k].len() > 0 && (byte_len(l[k]) <= max
                    || no_ws(l[k]))
            &&& byte_len(c) <= max || no_ws(c)
        }),
    decreases ws.len(),
{
    if ws.len() > 0 {
        let prev = ws.drop_last();
        assert(proper_words(prev)) by {
            assert forall|i: int| 0 <= i < prev.len() implies #[trigger] prev[i].len() > 0 && no_ws(
                prev[i],
            ) by {
                assert(prev[i] == ws[i]);
            }
        }
        lemma_wrap_state(prev, max);
        let (l0, c0) = wrap_state(prev, max);
        let w = ws.last();
        assert(w == ws[ws.len() - 1]);
        assert(w.len() > 0 && no_ws(w));
        if needs_break(c0, w, max) {
            let l1 = l0.push(c0);
            assert(l1.push(w).drop_last() == l1);
            assert(ws.drop_last() == prev);
            assert forall|k: int| 0 <= k < l1.len() implies #[trigger] l1[k].len() > 0 && (byte_len(
                l1[k],
            ) <= max || no_ws(l1[k])) by {
                if k < l0.len() {
                    assert(l1[k] == l0[k]);
                }
            }
        } else if c0.len() > 0 {
            lemma_join_extend(l0, c0, w);
            lemma_byte_len_concat(c0, seq![' ']);
            lemma_byte_len_concat(c0 + seq![' '], w);
            lemma_space_width();
        } else {
            assert(prev.len() == 0);
            assert(l0.push(w) == seq![w]);
            assert(ws == seq![w]);
        }
    }
}

/// Wrapping loses, adds and reorders no word: the lines, joined again with
/// single spaces, are the words of the text joined with single spaces.
pub proof fn lemma_wrap_keeps_words(text: Seq<char>, max: int)
    ensures
        join_with(wrap_lines(text, max), ' ') == join_with(words(text), ' '),
{
    lemma_words_proper(text);
    lemma_wrap_state(words(text), max);
}

/// Every wrapped line is non-empty, and it fits in `max` bytes unless it is
/// a single word (a line without whitespace) that is longer on its own.
pub proof fn lemma_wrap_fits(text: Seq<char>, max: int)
    ensures
        forall|k: int|
            0 <= k < wrap_lines(text, max).len() ==> #[trigger] wrap_lines(text, max)[k].len() > 0
                && (byte_len(wrap_lines(text, max)[k]) <= max || no_ws(wrap_lines(text, max)[k])),
{
    lemma_words_proper(text);
    lemma_wrap_state(words(text), max);
    let (l, c) = wrap_state(words(text), max);
    if c.len() > 0 {
        assert forall|k: int| 0 <= k < l.push(c).len() implies #[trigger] l.push(c)[k].len() > 0 && (
        byte_len(l.push(c)[k]) <= max || no_ws(l.push(c)[k])) by {
            if k < l.len() {
                assert(l.push(c)[k] == l[k]);
            }
        }
    }
}

/// Whether `line` is its own words joined by single spaces: it is not
/// empty and has no whitespace but single spaces between words.
pub open spec fn is_spaced_line(line: Seq<char>) -> bool {
    line.len() > 0 && join_with(words(line), ' ') == line
}

/// Every line, closed or open, that the greedy wrap builds is its own words
/// joined by single spaces.
proof fn lemma_wrap_state_spaced(ws: Seq<Seq<char>>, max: int)
    requires
        proper_words(ws),
    ensures
        ({
            let (l, c) = wrap_state(ws, max);
            &&& forall|k: int| 0 <= k < l.len() ==> is_spaced_line(#[trigger] l[k])
            &&& ws.len() > 0 ==> is_spaced_line(c)
            &&& ws.len() == 0 ==> l.len() == 0 && c.len() == 0
        }),
    decreases ws.len(),
{
    if ws.len() > 0 {
        let prev = ws.drop_last();
        assert(proper_words(prev)) by {
            assert forall|i: int| 0 <= i < prev.len() implies #[trigger] prev[i].len() > 0 && no_ws(
                prev[i],
            ) by {
                assert(prev[i] == ws[i]);
            }
        }
        lemma_wrap_state_spaced(prev, max);
        lemma_wrap_state(prev, max);
        let (l0, c0) = wrap_state(prev, max);
        let w = ws.last();
        assert(w == ws[ws.len() - 1]);
        assert(w.len() > 0 && no_ws(w));
        lemma_words_of_word(w);
        assert(join_with(seq![w], ' ') == w);
        if needs_break(c0, w, max) {
            let l1 = l0.push(c0);
            assert forall|k: int| 0 <= k < l1.len() implies is_spaced_line(#[trigger] l1[k]) by {
                if k < l0.len() {
                    assert(l1[k] == l0[k]);
                }
            }
        } else if c0.len() > 0 {
            lemma_words_push(c0, w);
            let g = words(c0);
            assert(g.len() > 0) by {
                if g.len() == 0 {
                    assert(join_with(g, ' ') == Seq::<char>::empty());
                }
            }
            assert(g.push(w).drop_last() == g);
            assert(g.push(w).last() == w);
        }
    }
}

/// Every wrapped line is its own words joined by single spaces: no line is
/// empty, and none starts or ends with whitespace or holds anything but a
/// single space between two words.
pub proof fn lemma_wrap_lines_spaced(text: Seq<char>, max: int)
    ensures
        forall|k: int|
            0 <= k < wrap_lines(text, max).len() ==> is_spaced_line(
                #[trigger] wrap_lines(text, max)[k],
            ),
{
    lemma_words_proper(text);
    lemma_wrap_state_spaced(words(text), max);
    let (l, c) = wrap_state(words(text), max);
    if c.len() > 0 {
        assert forall|k: int| 0 <= k < l.push(c).len() implies is_spaced_line(
            #[trigger] l.push(c)[k],
        ) by {
            if k < l.len() {
                assert(l.push(c)[k] == l[k]);
            }
        }
    }
}

} // verus!
