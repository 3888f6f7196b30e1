//! The exchange with the language model: where the request goes, what the
//! user message says, and how the reply is turned into category scores.
use vstd::prelude::*;

use crate::rubric::{categories, category_label, category_label_of, is_rubric, Category};
use crate::score::{on_scale, CategoryScore};
use crate::text::{
    chars_of, contains_run, contains_str, push_str, skip_prefix_all, skip_suffix_all,
    skip_ws_back, skip_ws_front, string_of_range, strip_leading, strip_trailing, trim, is_ws,
    lemma_trim_clean, lemma_strip_trailing_clean, lemma_strip_leading_none,
    lemma_strip_leading_once, lemma_strip_trailing_none, lemma_strip_trailing_once,
    lemma_trim_end_noop, lemma_trim_start_noop, lemma_trim_wrapped, trim_end, trim_start,
};

verus! {

/// The chat-completions endpoint under a base URL: the URL without its
/// trailing slashes, then `/chat/completions`.
pub open spec fn completions_url(api_url: Seq<char>) -> Seq<char> {
    strip_trailing(api_url, seq!['/']) + "/chat/completions"@
}

/// Builds the chat-completions endpoint of an OpenAI-compatible API.
pub fn chat_completions_url(api_url: &str) -> (r: String)
    ensures
        r@ == completions_url(api_url@),
{
    let v = chars_of(api_url);
    let mut slash: Vec<char> = Vec::new();
    slash.push('/');
    assert(slash@ == seq!['/']);
    let hi = skip_suffix_all(&v, 0, v.len(), &slash);
    assert(v@.subrange(0, v.len() as int) == v@);
    let mut r = string_of_range(&v, 0, hi);
    push_str(&mut r, "/chat/completions");
    r
}

/// The user message that carries the article.
pub open spec fn user_message_text(document: Seq<char>) -> Seq<char> {
    "Article to analyse:\n\n"@ + document
}

/// Builds the user message that hands the article to the model.
pub fn user_message(document: &str) -> (r: String)
    ensures
        r@ == user_message_text(document@),
        r@ == "Article to analyse:\n\n"@ + document@,
{
    let mut r = String::new();
    push_str(&mut r, "Article to analyse:\n\n");
    push_str(&mut r, document);
    r
}

/// The reply with surrounding whitespace and Markdown code fences removed:
/// trimmed, leading "```json" and "```" fences dropped, trailing "```"
/// fences dropped, trimmed again.
pub open spec fn cleaned_reply(raw: Seq<char>) -> Seq<char> {
    trim(strip_trailing(strip_leading(strip_leading(trim(raw), "```json"@), "```"@), "```"@))
}

/// Removes the whitespace and the code fences that models often put around
/// the JSON array they were asked for.
pub fn clean_llm_output(raw: &str) -> (r: String)
    ensures
        r@ == cleaned_reply(raw@),
{
    let v = chars_of(raw);
    let json_fence = chars_of("```json");
    let fence = chars_of("```");
    proof {
        reveal_strlit("```json");
        reveal_strlit("```");
    }
    let n = v.len();
    assert(v@.subrange(0, n as int) == raw@);
    let lo1 = skip_ws_front(&v, 0, n);
    let hi1 = skip_ws_back(&v, lo1, n);
    let lo2 = skip_prefix_all(&v, lo1, hi1, &json_fence);
    let lo3 = skip_prefix_all(&v, lo2, hi1, &fence);
    let hi2 = skip_suffix_all(&v, lo3, hi1, &fence);
    let lo4 = skip_ws_front(&v, lo3, hi2);
    let hi3 = skip_ws_back(&v, lo4, hi2);
    string_of_range(&v, lo4, hi3)
}

/// One entry of the JSON array that the model returns.
#[derive(Debug)]
pub struct RawScore {
    pub id: u8,
    pub score: u8,
    pub reasoning: String,
}

/// A score brought onto the scale `1..=5`.
pub open spec fn clamped(score: u8) -> u8 {
    if score < 1 {
        1
    } else if score > 5 {
        5
    } else {
        score
    }
}

/// `u8::clamp(score, 1, 5)`.
pub fn clamp_score(score: u8) -> (r: u8)
    ensures
        r == clamped(score),
        1 <= score <= 5 ==> r == score,
        score < 1 ==> r == 1,
        score > 5 ==> r == 5,
{
    if score < 1 {
        1
    } else if score > 5 {
        5
    } else {
        score
    }
}

/// Whether `s` is the score that the report keeps for the model's entry `r`:
/// same category number and reasoning, the category's name, the score
/// clamped to `1..=5`.
pub open spec fn scored_from(s: CategoryScore, r: RawScore) -> bool {
    &&& s.id == r.id
    &&& s.name@ == category_label(r.id)
    &&& s.score == clamped(r.score)
    &&& s.reasoning@ == r.reasoning@
}

/// Turns the model's entries into category scores, one for each entry in
/// the same order.
pub fn scores_from_raw(raw: &Vec<RawScore>) -> (r: Vec<CategoryScore>)
    ensures
        r.len() == raw.len(),
        forall|i: int| 0 <= i < raw.len() ==> scored_from(#[trigger] r@[i], raw@[i]),
        on_scale(r@),
{
    let cats: Vec<Category> = categories();
    let mut r: Vec<CategoryScore> = Vec::new();
    let mut i: usize = 0;
    while i < raw.len()
        invariant
            is_rubric(cats@),
            i <= raw.len(),
            r.len() == i,
            forall|k: int| 0 <= k < i ==> scored_from(#[trigger] r@[k], raw@[k]),
        decreases raw.len() - i,
    {
        let entry = &raw[i];
        let name = category_label_of(&cats, entry.id);
        let score = clamp_score(entry.score);
        r.push(CategoryScore { id: entry.id, name, score, reasoning: entry.reasoning.clone() });
        i = i + 1;
    }
    assert forall|k: int| 0 <= k < r.len() implies 1 <= #[trigger] r@[k].score <= 5 by {
        assert(scored_from(r@[k], raw@[k]));
    }
    r
}

/// The API key to use: the one given on the command line, else the one from
/// the environment, else a placeholder for a server that needs none; `None`
/// when no key is known and the server is OpenAI's own.
pub open spec fn chosen_key(flag: Option<Seq<char>>, env: Option<Seq<char>>, api_url: Seq<char>) -> Option<
    Seq<char>,
> {
    match flag {
        Some(k) => Some(k),
        None => match env {
            Some(k) => Some(k),
            None => if contains_run(api_url, "api.openai.com"@) {
                None
            } else {
                Some("sk-no-key"@)
            },
        },
    }
}

/// The view of an optional string.
pub open spec fn opt_view(o: Option<String>) -> Option<Seq<char>> {
    match o {
        Some(s) => Some(s@),
        None => None,
    }
}

/// Chooses the API key; `None` means the key is missing for OpenAI's API.
pub fn resolve_api_key(flag: Option<String>, env: Option<String>, api_url: &str) -> (r: Option<
    String,
>)
    ensures
        opt_view(r) == chosen_key(opt_view(flag), opt_view(env), api_url@),
        flag is Some ==> opt_view(r) == opt_view(flag),
        flag is None && env is Some ==> opt_view(r) == opt_view(env),
        flag is None && env is None ==> (r is None <==> contains_run(api_url@, "api.openai.com"@)),
        flag is None && env is None && !contains_run(api_url@, "api.openai.com"@) ==> opt_view(r)
            == Some("sk-no-key"@),
{
    match flag {
        Some(k) => Some(k),
        None => match env {
            Some(k) => Some(k),
            None => if contains_str(api_url, "api.openai.com") {
                None
            } else {
                let mut k = String::new();
                push_str(&mut k, "sk-no-key");
                Some(k)
            },
        },
    }
}

/// The text of the model's reply: the content of its first choice, or the
/// empty string when it gave none.
pub fn first_reply(contents: Vec<String>) -> (r: String)
    ensures
        r@ == (if contents.len() > 0 {
            contents@[0]@
        } else {
            Seq::<char>::empty()
        }),
{
    let mut contents = contents;
    if contents.len() > 0 {
        contents.swap_remove(0)
    } else {
        String::new()
    }
}

/// Whether the request carries the key as a bearer token: only when a key
/// is given at all.
pub fn uses_bearer_auth(api_key: &str) -> (b: bool)
    ensures
        b == (api_key@.len() > 0),
{
    !api_key.is_empty()
}

/// The cleaned reply has no whitespace left at either end.
pub proof fn lemma_reply_trimmed(raw: Seq<char>)
    ensures
        cleaned_reply(raw).len() == 0 || (!is_ws(cleaned_reply(raw)[0]) && !is_ws(
            cleaned_reply(raw).last(),
        )),
{
    lemma_trim_clean(strip_trailing(strip_leading(strip_leading(trim(raw), "```json"@), "```"@), "```"@));
}

/// The base URL loses all its trailing slashes, so the endpoint path is
/// joined to it by exactly one slash.
pub proof fn lemma_url_single_slash(api_url: Seq<char>)
    ensures
        ({
            let base = strip_trailing(api_url, seq!['/']);
            &&& completions_url(api_url) == base + "/chat/completions"@
            &&& base.len() == 0 || base.last() != '/'
        }),
{
    let base = strip_trailing(api_url, seq!['/']);
    lemma_strip_trailing_clean(api_url, seq!['/']);
    if base.len() > 0 {
        assert(base.subrange(base.len() - 1, base.len() as int) == seq![base.last()]);
    }
}

/// The colour in which the step-by-step trace shows a score.
#[derive(Clone, Copy, Debug, PartialEq, Eq, Structural)]
pub enum Shade {
    Green,
    Yellow,
    Red,
    White,
}

/// Scores 1 and 2 are green, 3 yellow, 4 and 5 red, anything else white.
pub open spec fn shade_of(score: u8) -> Shade {
    if 1 <= score <= 2 {
        Shade::Green
    } else if score == 3 {
        Shade::Yellow
    } else if 4 <= score <= 5 {
        Shade::Red
    } else {
        Shade::White
    }
}

/// Picks the colour of a score in the step-by-step trace.
pub fn score_shade(score: u8) -> (s: Shade)
    ensures
        s == shade_of(score),
        score == 1 || score == 2 ==> s == Shade::Green,
        score == 3 ==> s == Shade::Yellow,
        score == 4 || score == 5 ==> s == Shade::Red,
        score == 0 || score > 5 ==> s == Shade::White,
{
    if 1 <= score && score <= 2 {
        Shade::Green
    } else if score == 3 {
        Shade::Yellow
    } else if 4 <= score && score <= 5 {
        Shade::Red
    } else {
        Shade::White
    }
}

/// Whether the reply, once trimmed, is a bracketed array: it starts with
/// `[` and ends with `]`.
pub open spec fn is_bracketed(raw: Seq<char>) -> bool {
    let t = trim(raw);
    t.len() > 0 && t[0] == '[' && t.last() == ']'
}

/// Cleaning `"\n" + raw + "\n"` once the leading fence is gone: the
/// trailing fence and the surrounding line breaks go.
proof fn lemma_clean_fenced_body(raw: Seq<char>)
    requires
        is_bracketed(raw),
    ensures
        ({
            let m = seq!['\n'] + raw + seq!['\n'] + "```"@;
            trim(strip_trailing(strip_leading(m, "```"@), "```"@)) == trim(raw)
        }),
{
    reveal_strlit("```");
    let f = "```"@;
    let r = seq!['\n'] + raw + seq!['\n'];
    let m = r + f;
    assert(m[0] == '\n');
    lemma_strip_leading_none(m, f, 0);
    lemma_strip_trailing_once(r, f);
    assert(r.last() == '\n');
    lemma_strip_trailing_none(r, f);
    assert(is_ws('\n')) by {
        assert(('\n' as u32) == 10);
    }
    lemma_trim_wrapped('\n', raw, '\n');
}

/// A bracketed reply cleans to the same text whether the model sent it bare
/// or wrapped in a Markdown fence, tagged `json` or not: fences around the
/// array never change what is parsed.
pub proof fn lemma_fences_ignored(raw: Seq<char>)
    requires
        is_bracketed(raw),
    ensures
        cleaned_reply(raw) == trim(raw),
        cleaned_reply("```json\n"@ + raw + "\n```"@) == trim(raw),
        cleaned_reply("```\n"@ + raw + "\n```"@) == trim(raw),
{
    reveal_strlit("```json");
    reveal_strlit("```");
    reveal_strlit("```json\n");
    reveal_strlit("```\n");
    reveal_strlit("\n```");
    let j = "```json"@;
    let f = "```"@;
    let t = trim(raw);
    assert(('[' as u32) == 91 && (']' as u32) == 93 && ('`' as u32) == 96);
    assert(!is_ws('[') && !is_ws(']') && !is_ws('`'));
    // bare
    lemma_strip_leading_none(t, j, 0);
    lemma_strip_leading_none(t, f, 0);
    lemma_strip_trailing_none(t, f);
    lemma_trim_start_noop(t);
    lemma_trim_end_noop(t);
    // tagged fence
    let m = seq!['\n'] + raw + seq!['\n'] + f;
    let w1 = "```json\n"@ + raw + "\n```"@;
    assert(w1 == j + m);
    assert(w1[0] == '`' && w1.last() == '`');
    lemma_trim_start_noop(w1);
    lemma_trim_end_noop(w1);
    assert(trim(w1) == w1);
    lemma_strip_leading_once(j, m);
    assert(m[0] == '\n');
    lemma_strip_leading_none(m, j, 0);
    lemma_clean_fenced_body(raw);
    // plain fence
    let w2 = "```\n"@ + raw + "\n```"@;
    assert(w2 == f + m);
    assert(w2[0] == '`' && w2.last() == '`');
    lemma_trim_start_noop(w2);
    lemma_trim_end_noop(w2);
    assert(trim(w2) == w2);
    assert(w2[3] == '\n' && j[3] == 'j');
    lemma_strip_leading_none(w2, j, 3);
    lemma_strip_leading_once(f, m);
}

/// The score that the report keeps is the model's score brought onto the
/// rubric's scale: a score already in `1..=5` is kept as it is, a lower
/// one becomes 1 and a higher one 5; that is, `max(1, min(score, 5))`.
pub proof fn lemma_clamp_keeps_scale(score: u8)
    ensures
        1 <= score <= 5 ==> clamped(score) == score,
        score < 1 ==> clamped(score) == 1,
        score > 5 ==> clamped(score) == 5,
        1 <= clamped(score) <= 5,
{
}

/// The key comes from the command line when one is given there, else from
/// the environment; with neither, it is missing exactly when the API is
/// OpenAI's own (its URL holds `api.openai.com`), and any other server gets
/// the placeholder `sk-no-key`.
pub proof fn lemma_key_choice(flag: Option<Seq<char>>, env: Option<Seq<char>>, api_url: Seq<char>)
    ensures
        flag is Some ==> chosen_key(flag, env, api_url) == flag,
        flag is None && env is Some ==> chosen_key(flag, env, api_url) == env,
        flag is None && env is None ==> (chosen_key(flag, env, api_url) is None <==> exists|i: int|
            0 <= i && i + 14 <= api_url.len() && #[trigger] api_url.subrange(i, i + 14)
                == "api.openai.com"@),
        flag is None && env is None && chosen_key(flag, env, api_url) is Some ==> chosen_key(
            flag,
            env,
            api_url,
        ) == Some("sk-no-key"@),
{
    reveal_strlit("api.openai.com");
    let host = "api.openai.com"@;
    assert(host.len() == 14);
    if contains_run(api_url, host) {
        let i = choose|i: int|
            0 <= i && i + host.len() <= api_url.len() && #[trigger] api_url.subrange(i, i + host.len())
                == host;
        assert(api_url.subrange(i, i + 14) == host);
    }
    if exists|i: int|
        0 <= i && i + 14 <= api_url.len() && #[trigger] api_url.subrange(i, i + 14) == host {
        let i = choose|i: int|
            0 <= i && i + 14 <= api_url.len() && #[trigger] api_url.subrange(i, i + 14) == host;
        assert(api_url.subrange(i, i + host.len()) == host);
    }
}

} // verus!
