//! Puts the rendered fragments into the page template.
use vstd::prelude::*;
use crate::model::Metadata;
use crate::order::{is_sorted_by_date, sort_issues};
use crate::render::{
    build_issue_cards, format_logo, issue_cards_html, logo_html, page_og_tags,
    page_og_tags_html,
};
use crate::text::{replace_all, replace_token};

verus! {

/// The template with its four tokens replaced, in this order: tags, cards,
/// page title, logo. Each pass replaces every occurrence of its token.
pub open spec fn page_html(
    template: Seq<char>,
    og_tags: Seq<char>,
    cards: Seq<char>,
    title: Seq<char>,
    logo: Seq<char>,
) -> Seq<char> {
    let a = replace_all(template, "{{OG_TAGS}}"@, og_tags);
    let b = replace_all(a, "{{ISSUE_CARDS}}"@, cards);
    let c = replace_all(b, "{{PAGE_TITLE}}"@, title);
    replace_all(c, "{{LOGO}}"@, logo)
}

/// Fills the template's `{{OG_TAGS}}`, `{{ISSUE_CARDS}}`, `{{PAGE_TITLE}}`
/// and `{{LOGO}}` tokens with the given text, as it is.
pub fn compose_page(template: &str, og_tags: &str, cards: &str, title: &str, logo: &str) -> (r:
    String)
    ensures
        r@ == page_html(template@, og_tags@, cards@, title@, logo@),
{
    proof {
        reveal_strlit("{{OG_TAGS}}");
        reveal_strlit("{{ISSUE_CARDS}}");
        reveal_strlit("{{PAGE_TITLE}}");
        reveal_strlit("{{LOGO}}");
    }
    let a = replace_token(template, "{{OG_TAGS}}", og_tags);
    let b = replace_token(a.as_str(), "{{ISSUE_CARDS}}", cards);
    let c = replace_token(b.as_str(), "{{PAGE_TITLE}}", title);
    replace_token(c.as_str(), "{{LOGO}}", logo)
}

/// The finished page: the issues are sorted newest first, the tags follow
/// the newest issue, the site's name is the page title as it is, and the
/// logo fragment fills the logo token.
pub fn render_site(meta: Metadata, template: &str) -> (r: String)
    ensures
        exists|sorted: Seq<crate::model::Issue>|
            is_sorted_by_date(meta.issues@, sorted) && r@ == page_html(
                template@,
                page_og_tags_html(meta.site_meta, sorted),
                issue_cards_html(sorted),
                meta.site_meta.site_name@,
                logo_html(meta.site_meta),
            ),
{
    let site_meta = meta.site_meta;
    let sorted = sort_issues(meta.issues);
    let og = page_og_tags(&site_meta, sorted.as_slice());
    let cards = build_issue_cards(sorted.as_slice());
    let logo = format_logo(&site_meta);
    compose_page(template, og.as_str(), cards.as_str(), site_meta.site_name.as_str(), logo.as_str())
}

} // verus!
