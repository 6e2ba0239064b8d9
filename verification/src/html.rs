//! The HTML collaborators: the platform's response pages are opaque
//! documents, read only through two extraction calls — the main message
//! text of a response, and the rows of a leaderboard page.  Both results
//! are functions of the document alone; the logic that interprets them
//! (`classify`, `build_leaderboard`) is verified against the extracted
//! plain values.

use vstd::prelude::*;

verus! {

/// The text of the first `article` element of the document, if one is
/// there.
pub uninterp spec fn article_text(html: Seq<char>) -> Option<Seq<char>>;

/// The leaderboard entries of the document, in page order: each row's
/// position text and time text; nothing if the page has no well-formed
/// entry list.
pub uninterp spec fn page_rows(html: Seq<char>) -> Option<Seq<(Seq<char>, Seq<char>)>>;

/// Relies on `tl::parse`, `VDom::query_selector` and `Node::inner_text`:
/// the inner text of the document's first `article` tag.  The result
/// depends on the document alone.
#[verifier::external_body]
pub fn message_from_body(body: &str) -> (r: Option<String>)
    ensures
        r matches Some(t) ==> article_text(body@) == Some(t@),
        r is None ==> article_text(body@) is None,
{
    let dom = tl::parse(body, tl::ParserOptions::new()).ok()?;
    let node = dom.query_selector("article")?.next()?.get(dom.parser())?;
    Some(node.inner_text(dom.parser()).to_string())
}

/// Relies on `tl::parse`, `VDom::query_selector`, `HTMLTag::query_selector`
/// and `Node::inner_text`: for each element of class `leaderboard-entry`,
/// the inner text of its `leaderboard-position` and `leaderboard-time`
/// children.  The result depends on the document alone.
#[verifier::external_body]
pub fn extract_leaderboard_rows(page: &str) -> (r: Option<Vec<(String, String)>>)
    ensures
        r matches Some(rows) ==> page_rows(page@) == Some(
            rows@.map_values(|p: (String, String)| (p.0@, p.1@)),
        ),
        r is None ==> page_rows(page@) is None,
{
    let dom = tl::parse(page, tl::ParserOptions::new()).ok()?;
    let mut rows: Vec<(String, String)> = Vec::new();
    for handle in dom.query_selector(".leaderboard-entry")? {
        let tag = handle.get(dom.parser())?.as_tag()?;
        let position = tag.query_selector(dom.parser(), ".leaderboard-position")?.next()?.get(
            dom.parser(),
        )?.inner_text(dom.parser()).to_string();
        let time = tag.query_selector(dom.parser(), ".leaderboard-time")?.next()?.get(
            dom.parser(),
        )?.inner_text(dom.parser()).to_string();
        rows.push((position, time));
    }
    Some(rows)
}

} // verus!
