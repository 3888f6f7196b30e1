//! The manual scoring screen: its state, how each key changes it, and the
//! figures it shows.
use vstd::prelude::*;

use crate::rubric::{categories, category_name, is_rubric, Category};
use crate::score::{band, band_of, is_blank_sheet, score_sum, Band, CategoryScore};
use crate::text::{chars_of, join_first, join_with, push_str, split_lines, text_lines};

verus! {

/// Number of document lines shown beside the rubric.
pub const PREVIEW_LINES: usize = 40;

/// The document preview: the first forty lines of the document, joined
/// again with `'\n'`.
pub open spec fn preview_of(doc: Seq<char>) -> Seq<char> {
    let ls = text_lines(doc);
    join_with(ls.take(if ls.len() < 40 { ls.len() as int } else { 40 }), '\n')
}

/// The state of the manual scoring screen: one score per category, the
/// highlighted category and the document preview.
#[derive(Debug)]
pub struct AppState {
    scores: Vec<u8>,
    selected: usize,
    doc_preview: String,
}

/// A key press, as far as the screen tells keys apart.
#[derive(Clone, Copy, Debug, PartialEq, Eq, Structural)]
pub enum Key {
    /// A character key; `control` is set when Control is the only modifier held.
    Char { c: char, control: bool },
    Esc,
    Enter,
    Up,
    Down,
    Left,
    Right,
    Other,
}

/// Whether the screen goes on or is done after a key.
#[derive(Clone, Copy, Debug, PartialEq, Eq, Structural)]
pub enum Outcome {
    Continue,
    Finish,
}

/// Whether `key` ends the scoring: `q`, Esc, Enter or Control-C.
pub open spec fn finishes(key: Key) -> bool {
    match key {
        Key::Char { c, control } => c == 'q' || (c == 'c' && control),
        Key::Esc => true,
        Key::Enter => true,
        _ => false,
    }
}

/// Whether `key` moves the highlight down: Down or `j`.
pub open spec fn moves_down(key: Key) -> bool {
    key is Down || (key matches Key::Char { c, .. } && c == 'j')
}

/// Whether `key` moves the highlight up: Up or `k`.
pub open spec fn moves_up(key: Key) -> bool {
    key is Up || (key matches Key::Char { c, .. } && c == 'k')
}

/// The score that a digit key `1` to `5` sets, if `key` is one.
pub open spec fn digit_score(key: Key) -> Option<u8> {
    match key {
        Key::Char { c, .. } => if 0x31 <= (c as u32) <= 0x35 {
            Some(((c as u32) - 0x30) as u8)
        } else {
            None
        },
        _ => None,
    }
}

/// Whether `key` raises the highlighted score: `+` or Right.
pub open spec fn raises(key: Key) -> bool {
    key is Right || (key matches Key::Char { c, .. } && c == '+')
}

/// Whether `key` lowers the highlighted score: `-` or Left.
pub open spec fn lowers(key: Key) -> bool {
    key is Left || (key matches Key::Char { c, .. } && c == '-')
}

/// The scores and the highlight after `key`, tried in this order: a key
/// that finishes changes nothing; down and up move within the twenty
/// categories; a digit `1` to `5` sets the highlighted score; `+` and `-`
/// raise or lower it within `1..=5`; any other key changes nothing.
pub open spec fn after_key(scores: Seq<u8>, cursor: int, key: Key) -> (Seq<u8>, int) {
    if finishes(key) {
        (scores, cursor)
    } else if moves_down(key) {
        (scores, if cursor + 1 < 20 { cursor + 1 } else { cursor })
    } else if moves_up(key) {
        (scores, if cursor > 0 { cursor - 1 } else { cursor })
    } else if digit_score(key) is Some {
        (scores.update(cursor, digit_score(key)->0), cursor)
    } else if raises(key) {
        (if scores[cursor] < 5 { scores.update(cursor, (scores[cursor] + 1) as u8) } else { scores }, cursor)
    } else if lowers(key) {
        (if scores[cursor] > 1 { scores.update(cursor, (scores[cursor] - 1) as u8) } else { scores }, cursor)
    } else {
        (scores, cursor)
    }
}

/// What each key does to a valid screen, key by key:
/// `q`, Esc, Enter and Control-C change nothing and finish; Down and `j`
/// move the highlight one category down, Up and `k` one up, never past the
/// first or the twentieth; each digit `1` to `5` sets the highlighted score
/// to that digit's value, while `0` and `6` to `9` change nothing; `+` and
/// Right raise the highlighted score by one up to 5, `-` and Left lower it
/// by one down to 1; and the screen stays valid after any key.
pub proof fn lemma_key_effects(scores: Seq<u8>, cursor: int, ctl: bool, key: Key)
    requires
        scores.len() == 20,
        forall|i: int| 0 <= i < 20 ==> 1 <= #[trigger] scores[i] <= 5,
        0 <= cursor < 20,
    ensures
        ({
            let (ns, nc) = after_key(scores, cursor, key);
            &&& ns.len() == 20
            &&& forall|i: int| 0 <= i < 20 ==> 1 <= #[trigger] ns[i] <= 5
            &&& 0 <= nc < 20
        }),
        finishes(Key::Char { c: 'q', control: ctl }),
        finishes(Key::Esc) && finishes(Key::Enter) && finishes(Key::Char { c: 'c', control: true }),
        !finishes(Key::Char { c: 'c', control: false }),
        after_key(scores, cursor, Key::Char { c: 'q', control: ctl }) == (scores, cursor),
        after_key(scores, cursor, Key::Esc) == (scores, cursor),
        after_key(scores, cursor, Key::Enter) == (scores, cursor),
        after_key(scores, cursor, Key::Down) == (scores, if cursor < 19 { cursor + 1 } else { 19 }),
        after_key(scores, cursor, Key::Char { c: 'j', control: ctl }) == (scores, if cursor < 19 {
            cursor + 1
        } else {
            19
        }),
        after_key(scores, cursor, Key::Up) == (scores, if cursor > 0 { cursor - 1 } else { 0 }),
        after_key(scores, cursor, Key::Char { c: 'k', control: ctl }) == (scores, if cursor > 0 {
            cursor - 1
        } else {
            0
        }),
        after_key(scores, cursor, Key::Char { c: '1', control: ctl }) == (scores.update(cursor, 1u8), cursor),
        after_key(scores, cursor, Key::Char { c: '2', control: ctl }) == (scores.update(cursor, 2u8), cursor),
        after_key(scores, cursor, Key::Char { c: '3', control: ctl }) == (scores.update(cursor, 3u8), cursor),
        after_key(scores, cursor, Key::Char { c: '4', control: ctl }) == (scores.update(cursor, 4u8), cursor),
        after_key(scores, cursor, Key::Char { c: '5', control: ctl }) == (scores.update(cursor, 5u8), cursor),
        after_key(scores, cursor, Key::Char { c: '0', control: ctl }) == (scores, cursor),
        after_key(scores, cursor, Key::Char { c: '6', control: ctl }) == (scores, cursor),
        after_key(scores, cursor, Key::Char { c: '7', control: ctl }) == (scores, cursor),
        after_key(scores, cursor, Key::Char { c: '8', control: ctl }) == (scores, cursor),
        after_key(scores, cursor, Key::Char { c: '9', control: ctl }) == (scores, cursor),
        after_key(scores, cursor, Key::Right).1 == cursor,
        after_key(scores, cursor, Key::Right).0[cursor] == (if scores[cursor] < 5 {
            scores[cursor] + 1
        } else {
            5
        }),
        after_key(scores, cursor, Key::Char { c: '+', control: ctl }) == after_key(
            scores,
            cursor,
            Key::Right,
        ),
        after_key(scores, cursor, Key::Left).1 == cursor,
        after_key(scores, cursor, Key::Left).0[cursor] == (if scores[cursor] > 1 {
            scores[cursor] - 1
        } else {
            1
        }),
        after_key(scores, cursor, Key::Char { c: '-', control: ctl }) == after_key(
            scores,
            cursor,
            Key::Left,
        ),
        forall|i: int|
            0 <= i < 20 && i != cursor ==> #[trigger] after_key(scores, cursor, Key::Right).0[i]
                == scores[i] && after_key(scores, cursor, Key::Left).0[i] == scores[i],
        after_key(scores, cursor, Key::Other) == (scores, cursor),
{
    assert(('0' as u32) == 48 && ('1' as u32) == 49 && ('2' as u32) == 50 && ('3' as u32) == 51
        && ('4' as u32) == 52 && ('5' as u32) == 53 && ('6' as u32) == 54 && ('7' as u32) == 55
        && ('8' as u32) == 56 && ('9' as u32) == 57);
    let (ns, nc) = after_key(scores, cursor, key);
    assert forall|i: int| 0 <= i < 20 implies 1 <= #[trigger] ns[i] <= 5 by {
        if i != cursor {
            assert(ns[i] == scores[i]);
        }
    }
}

/// Sum of a sequence of scores.
pub open spec fn sum_u8(s: Seq<u8>) -> int
    decreases s.len(),
{
    if s.len() == 0 {
        0
    } else {
        sum_u8(s.drop_last()) + s.last()
    }
}

/// Whether `r` is the sheet that the screen hands back for `scores`: one
/// entry per category in rubric order, with the score given on the screen
/// and no reasoning.
pub open spec fn is_sheet_for(r: Seq<CategoryScore>, scores: Seq<u8>) -> bool {
    &&& r.len() == 20
    &&& scores.len() == 20
    &&& forall|i: int|
        0 <= i < 20 ==> {
            &&& #[trigger] r[i].id == i + 1
            &&& r[i].name@ == category_name(i + 1)
            &&& r[i].score == scores[i]
            &&& r[i].reasoning@ == Seq::<char>::empty()
        }
}

/// Scores of `n` categories on the scale `1..=5` total between `n` and `5 * n`.
pub proof fn lemma_sum_u8_range(s: Seq<u8>)
    requires
        forall|i: int| 0 <= i < s.len() ==> 1 <= #[trigger] s[i] <= 5,
    ensures
        s.len() <= sum_u8(s) <= 5 * s.len(),
    decreases s.len(),
{
    if s.len() > 0 {
        assert forall|i: int| 0 <= i < s.drop_last().len() implies 1 <= #[trigger] s.drop_last()[i]
            <= 5 by {
            assert(s.drop_last()[i] == s[i]);
        }
        lemma_sum_u8_range(s.drop_last());
        assert(1 <= s[s.len() - 1] <= 5);
    }
}

/// A copy of `v` with the entry at `i` replaced by `x`.
fn with_score(v: &Vec<u8>, i: usize, x: u8) -> (r: Vec<u8>)
    requires
        i < v.len(),
    ensures
        r@ == v@.update(i as int, x),
{
    let mut r: Vec<u8> = Vec::new();
    let mut k: usize = 0;
    while k < v.len()
        invariant
            k <= v.len(),
            i < v.len(),
            r@ == v@.update(i as int, x).take(k as int),
        decreases v.len() - k,
    {
        if k == i {
            r.push(x);
        } else {
            r.push(v[k]);
        }
        assert(v@.update(i as int, x).take(k + 1) == v@.update(i as int, x).take(k as int).push(
            v@.update(i as int, x)[k as int],
        ));
        k = k + 1;
    }
    assert(v@.update(i as int, x).take(k as int) == v@.update(i as int, x));
    r
}

impl AppState {
    /// The scores, in rubric order.
    pub closed spec fn score_seq(&self) -> Seq<u8> {
        self.scores@
    }

    /// The index of the highlighted category.
    pub closed spec fn cursor(&self) -> int {
        self.selected as int
    }

    /// The document preview.
    pub closed spec fn preview(&self) -> Seq<char> {
        self.doc_preview@
    }

    /// The invariant that every state of the screen keeps.
    #[verifier::type_invariant]
    spec fn inv(&self) -> bool {
        &&& self.scores@.len() == 20
        &&& forall|i: int| 0 <= i < 20 ==> 1 <= #[trigger] self.scores@[i] <= 5
        &&& self.selected < 20
    }

    /// What every state of the screen satisfies: twenty scores on the scale
    /// `1..=5` and a highlight on one of the twenty categories. Every method
    /// that takes a state ensures it of that state.
    pub open spec fn wf(&self) -> bool {
        &&& self.score_seq().len() == 20
        &&& forall|i: int| 0 <= i < 20 ==> 1 <= #[trigger] self.score_seq()[i] <= 5
        &&& 0 <= self.cursor() < 20
    }

    /// The screen as it opens: every category at score 1, the first one
    /// highlighted, and the first forty lines of the document as preview.
    pub fn new(doc_preview: &str) -> (s: Self)
        ensures
            s.wf(),
            s.score_seq() == Seq::new(20, |i: int| 1u8),
            s.cursor() == 0,
            s.preview() == preview_of(doc_preview@),
    {
        let mut scores: Vec<u8> = Vec::new();
        let mut i: usize = 0;
        while i < 20
            invariant
                i <= 20,
                scores@ == Seq::new(i as nat, |k: int| 1u8),
            decreases 20 - i,
        {
            scores.push(1u8);
            i = i + 1;
        }
        let v = chars_of(doc_preview);
        let ls = split_lines(&v);
        let count = if ls.len() < PREVIEW_LINES {
            ls.len()
        } else {
            PREVIEW_LINES
        };
        let text = join_first(&ls, count, '\n');
        AppState { scores, selected: 0, doc_preview: text }
    }

    /// The scores, in rubric order.
    pub fn scores(&self) -> (r: &[u8])
        ensures
            r@ == self.score_seq(),
            self.wf(),
    {
        proof {
            use_type_invariant(self);
        }
        self.scores.as_slice()
    }

    /// The index of the highlighted category.
    pub fn selected(&self) -> (r: usize)
        ensures
            r == self.cursor(),
            self.wf(),
    {
        proof {
            use_type_invariant(self);
        }
        self.selected
    }

    /// Applies one key press and tells whether the scoring is done.
    pub fn handle_key(&mut self, key: Key) -> (o: Outcome)
        ensures
            old(self).wf(),
            final(self).wf(),
            (final(self).score_seq(), final(self).cursor()) == after_key(
                old(self).score_seq(),
                old(self).cursor(),
                key,
            ),
            final(self).preview() == old(self).preview(),
            key is Char && (key->c == '1' || key->c == '2' || key->c == '3' || key->c == '4'
                || key->c == '5') ==> final(self).score_seq() == old(self).score_seq().update(
                old(self).cursor(),
                ((key->c as u32) - ('0' as u32)) as u8,
            ) && final(self).cursor() == old(self).cursor(),
            o == (if finishes(key) {
                Outcome::Finish
            } else {
                Outcome::Continue
            }),
    {
        proof {
            use_type_invariant(&*self);
        }
        let quit = match key {
            Key::Char { c, control } => c == 'q' || (c == 'c' && control),
            Key::Esc => true,
            Key::Enter => true,
            _ => false,
        };
        if quit {
            return Outcome::Finish;
        }
        let down = match key {
            Key::Down => true,
            Key::Char { c, .. } => c == 'j',
            _ => false,
        };
        let up = match key {
            Key::Up => true,
            Key::Char { c, .. } => c == 'k',
            _ => false,
        };
        let digit: Option<u8> = match key {
            Key::Char { c, .. } => {
                let u = c as u32;
                if 0x31 <= u && u <= 0x35 {
                    Some((u - 0x30) as u8)
                } else {
                    None
                }
            },
            _ => None,
        };
        let raise = match key {
            Key::Right => true,
            Key::Char { c, .. } => c == '+',
            _ => false,
        };
        let lower = match key {
            Key::Left => true,
            Key::Char { c, .. } => c == '-',
            _ => false,
        };
        let i = self.selected;
        if down {
            if i + 1 < 20 {
                self.selected = i + 1;
            }
        } else if up {
            if i > 0 {
                self.selected = i - 1;
            }
        } else if let Some(d) = digit {
            self.scores = with_score(&self.scores, i, d);
        } else if raise {
            let v = self.scores[i];
            if v < 5 {
                self.scores = with_score(&self.scores, i, v + 1);
            }
        } else if lower {
            let v = self.scores[i];
            if v > 1 {
                self.scores = with_score(&self.scores, i, v - 1);
            }
        }
        Outcome::Continue
    }

    /// The total of the scores on the screen.
    pub fn total(&self) -> (t: u32)
        ensures
            self.wf(),
            t == sum_u8(self.score_seq()),
            20 <= t <= 100,
    {
        proof {
            use_type_invariant(self);
            lemma_sum_u8_range(self.score_seq());
        }
        let mut t: u32 = 0;
        let mut i: usize = 0;
        while i < 20
            invariant
                self.wf(),
                i <= 20,
                t == sum_u8(self.score_seq().take(i as int)),
                t <= 5 * i,
            decreases 20 - i,
        {
            assert(self.score_seq().take(i + 1).drop_last() == self.score_seq().take(i as int));
            assert(1 <= self.score_seq()[i as int] <= 5);
            t = t + self.scores[i] as u32;
            i = i + 1;
        }
        assert(self.score_seq().take(20) == self.score_seq());
        t
    }

    /// The sheet of category scores that the screen hands back.
    pub fn build_scores(&self) -> (r: Vec<CategoryScore>)
        ensures
            self.wf(),
            is_sheet_for(r@, self.score_seq()),
    {
        proof {
            use_type_invariant(self);
        }
        let cats: Vec<Category> = categories();
        let mut r: Vec<CategoryScore> = Vec::new();
        let mut i: usize = 0;
        while i < 20
            invariant
                self.wf(),
                is_rubric(cats@),
                i <= 20,
                r.len() == i,
                forall|k: int|
                    0 <= k < i ==> {
                        &&& #[trigger] r@[k].id == k + 1
                        &&& r@[k].name@ == category_name(k + 1)
                        &&& r@[k].score == self.score_seq()[k]
                        &&& r@[k].reasoning@ == Seq::<char>::empty()
                    },
            decreases 20 - i,
        {
            let cat = &cats[i];
            assert(cats@[i as int].id == i + 1);
            r.push(CategoryScore {
                id: cat.id,
                name: cat.name.to_owned(),
                score: self.scores[i],
                reasoning: String::new(),
            });
            i = i + 1;
        }
        r
    }

    /// The text of the preview pane: the preview, or a hint when no
    /// document was loaded.
    pub fn preview_text(&self) -> (r: String)
        ensures
            r@ == (if self.preview().len() == 0 {
                "(No document loaded — use: nci manual <file.md>)"@
            } else {
                self.preview()
            }),
    {
        if self.doc_preview.as_str().is_empty() {
            let mut r = String::new();
            push_str(&mut r, "(No document loaded — use: nci manual <file.md>)");
            r
        } else {
            self.doc_preview.clone()
        }
    }
}

/// A sheet that the screen hands back without any key having changed a
/// score is the blank sheet of `empty_scores`.
pub proof fn lemma_untouched_sheet_is_blank(r: Seq<CategoryScore>, scores: Seq<u8>)
    requires
        is_sheet_for(r, scores),
        scores == Seq::new(20, |i: int| 1u8),
    ensures
        is_blank_sheet(r),
{
    assert forall|i: int| 0 <= i < 20 implies #[trigger] r[i].score == 1 by {
        assert(r[i].id == i + 1);
        assert(r[i].score == scores[i]);
    }
    assert forall|i: int| 0 <= i < 20 implies #[trigger] r[i].id == i + 1 && r[i].name@
        == category_name(i + 1) && r[i].score == 1 && r[i].reasoning@ == Seq::<char>::empty() by {
        assert(r[i].id == i + 1);
    }
}

/// The short reading of a total shown under the gauge.
pub open spec fn short_sentence(b: Band) -> Seq<char> {
    match b {
        Band::Low => "Low likelihood"@,
        Band::Moderate => "Moderate — look deeper"@,
        Band::Strong => "Strong — manipulation likely"@,
        Band::Overwhelming => "Overwhelming PSYOP signs"@,
    }
}

/// The short reading of a total.
pub fn interpret(total: u32) -> (r: &'static str)
    ensures
        r@ == short_sentence(band_of(total as int)),
        total <= 25 ==> r@ == "Low likelihood"@,
        26 <= total <= 50 ==> r@ == "Moderate — look deeper"@,
        51 <= total <= 75 ==> r@ == "Strong — manipulation likely"@,
        total >= 76 ==> r@ == "Overwhelming PSYOP signs"@,
{
    match band(total) {
        Band::Low => "Low likelihood",
        Band::Moderate => "Moderate — look deeper",
        Band::Strong => "Strong — manipulation likely",
        Band::Overwhelming => "Overwhelming PSYOP signs",
    }
}

/// The colours in which the screen draws scores and the gauge.
#[derive(Clone, Copy, Debug, PartialEq, Eq, Structural)]
pub enum Tint {
    Green,
    LightGreen,
    Yellow,
    LightRed,
    Red,
}

/// The colour of a band.
pub open spec fn band_tint(b: Band) -> Tint {
    match b {
        Band::Low => Tint::Green,
        Band::Moderate => Tint::Yellow,
        Band::Strong => Tint::LightRed,
        Band::Overwhelming => Tint::Red,
    }
}

/// The colour of the gauge for a total.
pub fn gauge_color(total: u32) -> (t: Tint)
    ensures
        t == band_tint(band_of(total as int)),
        total <= 25 ==> t == Tint::Green,
        26 <= total <= 50 ==> t == Tint::Yellow,
        51 <= total <= 75 ==> t == Tint::LightRed,
        total >= 76 ==> t == Tint::Red,
{
    match band(total) {
        Band::Low => Tint::Green,
        Band::Moderate => Tint::Yellow,
        Band::Strong => Tint::LightRed,
        Band::Overwhelming => Tint::Red,
    }
}

/// The colour of one score.
pub open spec fn score_tint(score: u8) -> Tint {
    if score == 1 {
        Tint::Green
    } else if score == 2 {
        Tint::LightGreen
    } else if score == 3 {
        Tint::Yellow
    } else if score == 4 {
        Tint::LightRed
    } else {
        Tint::Red
    }
}

/// Picks the colour of one score.
pub fn score_color(score: u8) -> (t: Tint)
    ensures
        t == score_tint(score),
        score == 1 ==> t == Tint::Green,
        score == 2 ==> t == Tint::LightGreen,
        score == 3 ==> t == Tint::Yellow,
        score == 4 ==> t == Tint::LightRed,
        score == 0 || score >= 5 ==> t == Tint::Red,
{
    if score == 1 {
        Tint::Green
    } else if score == 2 {
        Tint::LightGreen
    } else if score == 3 {
        Tint::Yellow
    } else if score == 4 {
        Tint::LightRed
    } else {
        Tint::Red
    }
}

/// Sums agree when each entry carries the matching score.
proof fn lemma_sums_agree(r: Seq<CategoryScore>, scores: Seq<u8>)
    requires
        r.len() == scores.len(),
        forall|i: int| 0 <= i < r.len() ==> #[trigger] r[i].score == scores[i],
    ensures
        score_sum(r) == sum_u8(scores),
    decreases r.len(),
{
    if r.len() > 0 {
        assert forall|i: int| 0 <= i < r.drop_last().len() implies #[trigger] r.drop_last()[i].score
            == scores.drop_last()[i] by {
            assert(r.drop_last()[i] == r[i]);
            assert(scores.drop_last()[i] == scores[i]);
        }
        lemma_sums_agree(r.drop_last(), scores.drop_last());
        assert(r[r.len() - 1].score == scores[scores.len() - 1]);
    }
}

/// The total that the screen shows is the total of the sheet it hands
/// back, and so what the report prints for it.
pub proof fn lemma_screen_total_is_sheet_total(r: Seq<CategoryScore>, scores: Seq<u8>)
    requires
        is_sheet_for(r, scores),
    ensures
        score_sum(r) == sum_u8(scores),
{
    assert forall|i: int| 0 <= i < r.len() implies #[trigger] r[i].score == scores[i] by {
        assert(r[i].id == i + 1);
    }
    lemma_sums_agree(r, scores);
}

} // verus!
