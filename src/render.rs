//! The HTML fragments of the page: issue cards, social-preview tags and the
//! logo.
use vstd::prelude::*;
use crate::model::{Issue, SiteMeta};
use crate::text::{
    escape, escape_html, is_markup_char, lemma_escape_is_safe_and_reversible, push_text,
    trim_slashes, trim_trailing_slashes,
};

verus! {

/// What a card shows for an issue without a description.
pub open spec fn card_description(issue: Issue) -> Seq<char> {
    match issue.description {
        Some(d) => d@,
        None => "Download this issue to read the full content."@,
    }
}

/// The card of one issue: cover, title, description and download link.
pub open spec fn card_html(issue: Issue) -> Seq<char> {
    "<div class=\"issue-card\">\n    <div class=\"image-container\">\n        <img src=\""@
        + escape(issue.cover@) + "\" alt=\""@ + escape(issue.title@)
        + "\" loading=\"lazy\">\n    </div>\n    <div class=\"content\">\n        <h3>"@
        + escape(issue.title@) + "</h3>\n        <p>"@ + escape(card_description(issue))
        + "</p>\n        <a href=\""@ + escape(issue.pdf@)
        + "\" class=\"download-btn\" download>Download PDF</a>\n    </div>\n</div>"@
}

/// The fragment shown in place of cards when there are no issues.
pub open spec fn empty_state_html() -> Seq<char> {
    "<div class=\"empty-state\">\n    <h2>No Issues Available</h2>\n    <p>Check back soon for new content!</p>\n</div>"@
}

/// The cards of `issues`, in order, separated by newlines.
pub open spec fn joined_cards(issues: Seq<Issue>) -> Seq<char>
    decreases issues.len(),
{
    if issues.len() == 0 {
        Seq::empty()
    } else if issues.len() == 1 {
        card_html(issues[0])
    } else {
        joined_cards(issues.drop_last()) + "\n"@ + card_html(issues.last())
    }
}

/// The card list of the page.
pub open spec fn issue_cards_html(issues: Seq<Issue>) -> Seq<char> {
    if issues.len() == 0 {
        empty_state_html()
    } else {
        joined_cards(issues)
    }
}

fn push_card(out: &mut String, issue: &Issue)
    ensures
        final(out)@ == old(out)@ + card_html(*issue),
{
    let cover = escape_html(issue.cover.as_str());
    let title = escape_html(issue.title.as_str());
    let desc = match &issue.description {
        Some(d) => escape_html(d.as_str()),
        None => escape_html("Download this issue to read the full content."),
    };
    let pdf = escape_html(issue.pdf.as_str());
    push_text(
        out,
        "<div class=\"issue-card\">\n    <div class=\"image-container\">\n        <img src=\"",
    );
    push_text(out, cover.as_str());
    push_text(out, "\" alt=\"");
    push_text(out, title.as_str());
    push_text(
        out,
        "\" loading=\"lazy\">\n    </div>\n    <div class=\"content\">\n        <h3>",
    );
    push_text(out, title.as_str());
    push_text(out, "</h3>\n        <p>");
    push_text(out, desc.as_str());
    push_text(out, "</p>\n        <a href=\"");
    push_text(out, pdf.as_str());
    push_text(out, "\" class=\"download-btn\" download>Download PDF</a>\n    </div>\n</div>");
    assert(final(out)@ =~= old(out)@ + card_html(*issue));
}

/// One card per issue, in the given order and joined by newlines, or the
/// empty-state fragment when there are none.
pub fn build_issue_cards(issues: &[Issue]) -> (r: String)
    ensures
        r@ == issue_cards_html(issues@),
        issues@.len() == 0 ==> r@ == empty_state_html(),
{
    if issues.len() == 0 {
        let mut out = String::new();
        push_text(
            &mut out,
            "<div class=\"empty-state\">\n    <h2>No Issues Available</h2>\n    <p>Check back soon for new content!</p>\n</div>",
        );
        assert(out@ =~= empty_state_html());
        return out;
    }
    let mut out = String::new();
    let mut i: usize = 0;
    while i < issues.len()
        invariant
            i <= issues@.len(),
            out@ == joined_cards(issues@.subrange(0, i as int)),
        decreases issues@.len() - i,
    {
        if i > 0 {
            push_text(&mut out, "\n");
        }
        push_card(&mut out, &issues[i]);
        let ghost next = issues@.subrange(0, i + 1);
        assert(next.drop_last() =~= issues@.subrange(0, i as int));
        assert(out@ =~= joined_cards(next));
        i = i + 1;
    }
    assert(issues@.subrange(0, i as int) =~= issues@);
    out
}

/// The description used in the tags of an issue.
pub open spec fn og_description(site: SiteMeta, issue: Issue) -> Seq<char> {
    match issue.description {
        Some(d) => d@,
        None => site.default_description@,
    }
}

/// The social-preview tags for a page led by `issue`.
pub open spec fn og_tags_html(site: SiteMeta, issue: Issue) -> Seq<char> {
    let site_name = escape(site.site_name@);
    let desc = escape(og_description(site, issue));
    let image = trim_trailing_slashes(site.base_url@) + "/"@ + escape(issue.cover@);
    "<meta property=\"og:title\" content=\""@ + escape(issue.title@) + " | "@ + site_name
        + "\">\n    <meta property=\"og:description\" content=\""@ + desc
        + "\">\n    <meta property=\"og:image\" content=\""@ + image
        + "\">\n    <meta property=\"og:site_name\" content=\""@ + site_name
        + "\">\n    <meta property=\"og:type\" content=\"website\">\n    <meta property=\"og:locale\" content=\"pa_IN\">\n    <meta name=\"twitter:card\" content=\"summary_large_image\">\n    <meta name=\"twitter:image\" content=\""@
        + image + "\">\n    <meta name=\"description\" content=\""@ + desc + "\">"@
}

/// The social-preview tags of a site without issues: no image tags.
pub open spec fn default_og_tags_html(site: SiteMeta) -> Seq<char> {
    let site_name = escape(site.site_name@);
    let desc = escape(site.default_description@);
    "<meta property=\"og:title\" content=\""@ + site_name
        + "\">\n    <meta property=\"og:description\" content=\""@ + desc
        + "\">\n    <meta property=\"og:site_name\" content=\""@ + site_name
        + "\">\n    <meta property=\"og:type\" content=\"website\">\n    <meta property=\"og:locale\" content=\"pa_IN\">\n    <meta name=\"twitter:card\" content=\"summary\">\n    <meta name=\"description\" content=\""@
        + desc + "\">"@
}

/// Open Graph and Twitter tags for a page whose latest issue is `issue`.
pub fn format_og_tags(site_meta: &SiteMeta, issue: &Issue) -> (r: String)
    ensures
        r@ == og_tags_html(*site_meta, *issue),
{
    let title = escape_html(issue.title.as_str());
    let site = escape_html(site_meta.site_name.as_str());
    let desc = match &issue.description {
        Some(d) => escape_html(d.as_str()),
        None => escape_html(site_meta.default_description.as_str()),
    };
    let base = trim_slashes(site_meta.base_url.as_str());
    let cover = escape_html(issue.cover.as_str());
    let mut out = String::new();
    push_text(&mut out, "<meta property=\"og:title\" content=\"");
    push_text(&mut out, title.as_str());
    push_text(&mut out, " | ");
    push_text(&mut out, site.as_str());
    push_text(&mut out, "\">\n    <meta property=\"og:description\" content=\"");
    push_text(&mut out, desc.as_str());
    push_text(&mut out, "\">\n    <meta property=\"og:image\" content=\"");
    push_text(&mut out, base.as_str());
    push_text(&mut out, "/");
    push_text(&mut out, cover.as_str());
    push_text(&mut out, "\">\n    <meta property=\"og:site_name\" content=\"");
    push_text(&mut out, site.as_str());
    push_text(
        &mut out,
        "\">\n    <meta property=\"og:type\" content=\"website\">\n    <meta property=\"og:locale\" content=\"pa_IN\">\n    <meta name=\"twitter:card\" content=\"summary_large_image\">\n    <meta name=\"twitter:image\" content=\"",
    );
    push_text(&mut out, base.as_str());
    push_text(&mut out, "/");
    push_text(&mut out, cover.as_str());
    push_text(&mut out, "\">\n    <meta name=\"description\" content=\"");
    push_text(&mut out, desc.as_str());
    push_text(&mut out, "\">");
    assert(out@ =~= og_tags_html(*site_meta, *issue));
    out
}

/// Open Graph and Twitter tags built from the site's own name and
/// description, for a site without issues.
pub fn format_default_og_tags(site_meta: &SiteMeta) -> (r: String)
    ensures
        r@ == default_og_tags_html(*site_meta),
{
    let site = escape_html(site_meta.site_name.as_str());
    let desc = escape_html(site_meta.default_description.as_str());
    let mut out = String::new();
    push_text(&mut out, "<meta property=\"og:title\" content=\"");
    push_text(&mut out, site.as_str());
    push_text(&mut out, "\">\n    <meta property=\"og:description\" content=\"");
    push_text(&mut out, desc.as_str());
    push_text(&mut out, "\">\n    <meta property=\"og:site_name\" content=\"");
    push_text(&mut out, site.as_str());
    push_text(
        &mut out,
        "\">\n    <meta property=\"og:type\" content=\"website\">\n    <meta property=\"og:locale\" content=\"pa_IN\">\n    <meta name=\"twitter:card\" content=\"summary\">\n    <meta name=\"description\" content=\"",
    );
    push_text(&mut out, desc.as_str());
    push_text(&mut out, "\">");
    assert(out@ =~= default_og_tags_html(*site_meta));
    out
}

/// The tags of the page: those of the first issue, or the site's own when
/// there is none.
pub open spec fn page_og_tags_html(site: SiteMeta, issues: Seq<Issue>) -> Seq<char> {
    if issues.len() == 0 {
        default_og_tags_html(site)
    } else {
        og_tags_html(site, issues[0])
    }
}

/// The tags of the page whose issues, newest first, are `issues`.
pub fn page_og_tags(site_meta: &SiteMeta, issues: &[Issue]) -> (r: String)
    ensures
        r@ == page_og_tags_html(*site_meta, issues@),
{
    if issues.len() == 0 {
        format_default_og_tags(site_meta)
    } else {
        format_og_tags(site_meta, &issues[0])
    }
}

/// The logo image of the site, or nothing when it has no logo.
pub open spec fn logo_html(site: SiteMeta) -> Seq<char> {
    if site.logo@.len() == 0 {
        Seq::empty()
    } else {
        "<img src=\""@ + escape(site.logo@) + "\" alt=\""@ + escape(site.site_name@) + "\">"@
    }
}

/// An `<img>` tag showing the logo, with the site's name as its text, or
/// the empty string when the site has no logo.
pub fn format_logo(site_meta: &SiteMeta) -> (r: String)
    ensures
        r@ == logo_html(*site_meta),
{
    let mut out = String::new();
    if site_meta.logo.as_str().is_empty() {
        return out;
    }
    let logo = escape_html(site_meta.logo.as_str());
    let site = escape_html(site_meta.site_name.as_str());
    push_text(&mut out, "<img src=\"");
    push_text(&mut out, logo.as_str());
    push_text(&mut out, "\" alt=\"");
    push_text(&mut out, site.as_str());
    push_text(&mut out, "\">");
    assert(out@ =~= logo_html(*site_meta));
    out
}

/// With a logo the fragment is a single `<img>` tag: it opens with `<img`
/// and holds no other `<`. Without one it is empty.
pub proof fn lemma_logo_is_one_img_tag(site: SiteMeta)
    ensures
        site.logo@.len() == 0 ==> logo_html(site).len() == 0,
        site.logo@.len() > 0 ==> logo_html(site).subrange(0, 4) == "<img"@,
        site.logo@.len() > 0 ==> forall|i: int|
            1 <= i < logo_html(site).len() ==> #[trigger] logo_html(site)[i] != '<',
{
    if site.logo@.len() > 0 {
        reveal_strlit("<img");
        reveal_strlit("<img src=\"");
        reveal_strlit("\" alt=\"");
        reveal_strlit("\">");
        lemma_escape_is_safe_and_reversible(site.logo@);
        lemma_escape_is_safe_and_reversible(site.site_name@);
        let a = "<img src=\""@;
        let l = escape(site.logo@);
        let b = "\" alt=\""@;
        let n = escape(site.site_name@);
        let c = "\">"@;
        let h = logo_html(site);
        assert(h == a + l + b + n + c);
        assert(h.subrange(0, 4) =~= "<img"@);
        assert forall|i: int| 1 <= i < h.len() implies #[trigger] h[i] != '<' by {
            let k1 = a.len() as int;
            let k2 = k1 + l.len();
            let k3 = k2 + b.len();
            let k4 = k3 + n.len();
            if i < k1 {
            } else if i < k2 {
                assert(h[i] == l[i - k1]);
                assert(!is_markup_char(l[i - k1]));
            } else if i < k3 {
                assert(h[i] == b[i - k2]);
            } else if i < k4 {
                assert(h[i] == n[i - k3]);
                assert(!is_markup_char(n[i - k3]));
            } else {
                assert(h[i] == c[i - k4]);
            }
        }
    }
}

} // verus!
