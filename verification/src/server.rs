//! The scan pipeline of the web service: the fetched page becomes Markdown
//! saved under a fresh name, and the scores become the response.
use vstd::prelude::*;

use crate::score::{band_of, band_sentence, interpretation, score_sum, total_score, CategoryScore};
use crate::text::push_str;

verus! {

/// Settings shared by every request that the service handles.
#[derive(Clone, Debug)]
pub struct ServerState {
    pub api_url: String,
    pub model: String,
    pub api_key: String,
}

/// A request to scan the article found at `url`.
#[derive(Debug)]
pub struct ScanRequest {
    pub url: String,
}

/// The answer to a scan: the total, its interpretation, where the article
/// was saved and the score of each category.
#[derive(Debug)]
pub struct ScanResponse {
    pub total_score: u32,
    pub interpretation: String,
    pub saved_file: String,
    pub scores: Vec<CategoryScore>,
}

/// What `html2md::parse_html` does with an HTML document: `Some` of the
/// Markdown it returns, or `None` for a document on which it panics (as it
/// does, for one, on a list item that stands outside a list inside a quote).
pub uninterp spec fn html2md_result(html: Seq<char>) -> Option<Seq<char>>;

/// Whether `html2md::parse_html` converts `html` without panicking.
pub open spec fn html2md_converts(html: Seq<char>) -> bool {
    html2md_result(html) is Some
}

/// `html2md::parse_html`: converts an HTML document into Markdown. It is
/// only called on documents that it converts without panicking; its result
/// depends on the document alone, and what that result is, is not stated
/// here. Its tree walk recurses once per nesting level, so a document nested
/// deep enough can still exhaust the stack, like running out of memory.
#[verifier::external_body]
fn parse_html(html: &str) -> (md: String)
    requires
        html2md_converts(html@),
    ensures
        html2md_result(html@) == Some(md@),
{
    html2md::parse_html(html)
}

/// Whether `c` is a lower-case hexadecimal digit.
pub open spec fn is_lower_hex(c: char) -> bool {
    let u = c as u32;
    (0x30 <= u <= 0x39) || (0x61 <= u <= 0x66)
}

/// Whether `s` is a random (version 4) UUID in the hyphenated lower-case
/// form, such as `67e55044-10b1-426f-9247-bb680e5fe0c8`.
pub open spec fn is_uuid_v4_text(s: Seq<char>) -> bool {
    &&& s.len() == 36
    &&& forall|i: int|
        0 <= i < 36 ==> if i == 8 || i == 13 || i == 18 || i == 23 {
            #[trigger] s[i] == '-'
        } else {
            is_lower_hex(s[i])
        }
    &&& s[14] == '4'
    &&& (s[19] == '8' || s[19] == '9' || s[19] == 'a' || s[19] == 'b')
}

/// `uuid::Uuid::new_v4`, written out with `to_string`: a random UUID in its
/// hyphenated lower-case form. The value is random; only its shape is
/// stated. The call panics if the system's random source fails.
#[verifier::external_body]
fn fresh_uuid_text() -> (s: String)
    ensures
        is_uuid_v4_text(s@),
{
    uuid::Uuid::new_v4().to_string()
}

/// The name of the file that keeps the article of scan `id`.
pub open spec fn scan_file_name_text(id: Seq<char>) -> Seq<char> {
    "scanned_article_"@ + id + ".md"@
}

/// Names the file that keeps the article of scan `id`.
pub fn scan_file_name(id: &str) -> (r: String)
    ensures
        r@ == scan_file_name_text(id@),
        r@ == "scanned_article_"@ + id@ + ".md"@,
{
    let mut r = String::new();
    push_str(&mut r, "scanned_article_");
    push_str(&mut r, id);
    push_str(&mut r, ".md");
    r
}

/// What a scan keeps of a fetched page: its Markdown and the name of the
/// file to save it in.
#[derive(Debug)]
pub struct ScanPlan {
    pub markdown: String,
    pub file_name: String,
}

/// Converts the fetched page into Markdown and picks a fresh file name for
/// it, made of a random UUID. The page must be one that html2md converts;
/// callers test that first.
pub fn plan_scan(html: &str) -> (plan: ScanPlan)
    requires
        html2md_converts(html@),
    ensures
        html2md_result(html@) == Some(plan.markdown@),
        exists|id: Seq<char>| is_uuid_v4_text(id) && plan.file_name@ == scan_file_name_text(id),
{
    let markdown = parse_html(html);
    let id = fresh_uuid_text();
    let file_name = scan_file_name(id.as_str());
    ScanPlan { markdown, file_name }
}

/// Builds the response to a scan from the scores and the saved file.
pub fn build_scan_response(scores: Vec<CategoryScore>, saved_file: String) -> (r: ScanResponse)
    requires
        score_sum(scores@) <= u32::MAX,
    ensures
        r.total_score == score_sum(scores@),
        r.interpretation@ == band_sentence(band_of(r.total_score as int)),
        r.saved_file@ == saved_file@,
        r.scores@ == scores@,
{
    let total = total_score(scores.as_slice());
    let text = interpretation(total).to_owned();
    ScanResponse { total_score: total, interpretation: text, saved_file, scores }
}

} // verus!
