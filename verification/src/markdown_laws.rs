//! What the Markdown export promises of its sections, stated over the
//! export's inputs.

use vstd::prelude::*;

use crate::export::{
    bullets, markdown_of, md_actions, md_bookmarks, md_decisions, md_front_matter, md_heading,
    md_questions, md_transcript, ExportData, ExportOptions,
};
use crate::text::{contains, occurs_at, views};

verus! {

/// `- item` lines, one per item, in order.
pub open spec fn item_lines(items: Seq<Seq<char>>) -> Seq<char> {
    items.map_values(|q: Seq<char>| "- "@ + q + "\n"@).flatten()
}

/// The bullet list of a section holds one `- item` line per item, in the
/// items' order, and nothing else.
pub proof fn lemma_bullets_list_items(items: Seq<Seq<char>>)
    ensures
        bullets(items) == item_lines(items),
    decreases items.len(),
{
    let f = |q: Seq<char>| "- "@ + q + "\n"@;
    if items.len() == 0 {
        assert(items.map_values(f) =~= Seq::<Seq<char>>::empty());
    } else {
        lemma_bullets_list_items(items.drop_last());
        assert(items.map_values(f) =~= items.drop_last().map_values(f).push(f(items.last())));
        items.drop_last().map_values(f).lemma_flatten_push(f(items.last()));
        assert(bullets(items) =~= item_lines(items));
    }
}

/// When the summary is shown and has open questions, the document holds
/// the "Open Questions" heading followed by one `- question` line per open
/// question, in order.
pub proof fn lemma_open_questions_listed(d: ExportData, o: ExportOptions, duration: Option<Seq<char>>)
    requires
        o.include_summary,
        d.summary is Some,
        d.summary.unwrap().open_questions@.len() > 0,
    ensures
        contains(
            markdown_of(d, o, duration),
            "### Open Questions\n\n"@ + item_lines(views(d.summary.unwrap().open_questions@)),
        ),
{
    let s = d.summary.unwrap();
    let needle = "### Open Questions\n\n"@ + item_lines(views(s.open_questions@));
    lemma_bullets_list_items(views(s.open_questions@));
    let before = md_front_matter(d, duration) + md_heading(d) + ("## Summary\n\n"@ + s.tldr@
        + "\n\n"@ + md_decisions(s) + md_actions(s, o.include_action_items));
    let after = "\n"@ + md_bookmarks(d.bookmarks@) + md_transcript(d, o.include_transcript);
    let doc = markdown_of(d, o, duration);
    assert(md_questions(s) == needle + "\n"@);
    assert(doc =~= before + needle + after);
    assert(doc.subrange(before.len() as int, (before.len() + needle.len()) as int) =~= needle);
    assert(occurs_at(doc, needle, before.len() as int));
}

} // verus!
