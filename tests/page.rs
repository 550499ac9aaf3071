use magazine_page::dates::{date_key_of, is_older, key_from_groups, parse_number, DateKey};
use magazine_page::model::{Issue, Metadata, SiteMeta};
use magazine_page::order::{sort_by_keys, sort_issues};
use magazine_page::page::{compose_page, render_site};
use magazine_page::render::{
    build_issue_cards, format_default_og_tags, format_logo, format_og_tags, page_og_tags,
};
use magazine_page::text::{chars_of, escape_html, replace_token, trim_slashes};

const EMPTY_STATE: &str = "<div class=\"empty-state\">\n    <h2>No Issues Available</h2>\n    <p>Check back soon for new content!</p>\n</div>";

fn issue(title: &str, pdf: &str, cover: &str, description: Option<&str>) -> Issue {
    Issue {
        title: title.to_string(),
        pdf: pdf.to_string(),
        cover: cover.to_string(),
        description: description.map(|d| d.to_string()),
    }
}

fn site(name: &str, desc: &str, base: &str, logo: &str) -> SiteMeta {
    SiteMeta {
        site_name: name.to_string(),
        default_description: desc.to_string(),
        base_url: base.to_string(),
        logo: logo.to_string(),
    }
}

fn titles(issues: &[Issue]) -> Vec<String> {
    issues.iter().map(|i| i.title.clone()).collect()
}

fn key(year: i32, month: u32, day: u32) -> DateKey {
    DateKey { year, month, day }
}

#[test]
fn escape_replaces_all_five_characters() {
    assert_eq!(escape_html("a&b<c>\"d'e"), "a&amp;b&lt;c&gt;&quot;d&#x27;e");
}

#[test]
fn escape_leaves_plain_text_alone() {
    assert_eq!(escape_html("ਪੰਜਾਬੀ Times 2024"), "ਪੰਜਾਬੀ Times 2024");
    assert_eq!(escape_html(""), "");
}

#[test]
fn escape_output_has_no_raw_markup() {
    let out = escape_html("<script>alert('x' & \"y\")</script>");
    assert!(!out.contains('<'));
    assert!(!out.contains('>'));
    assert!(!out.contains('"'));
    assert!(!out.contains('\''));
}

#[test]
fn escaping_twice_encodes_ampersand_again() {
    let once = escape_html("&");
    assert_eq!(once, "&amp;");
    assert_eq!(escape_html(&once), "&amp;amp;");
}

#[test]
fn chars_of_keeps_every_character() {
    assert_eq!(chars_of("aé੧"), vec!['a', 'é', '੧']);
}

#[test]
fn trim_removes_only_trailing_slashes() {
    assert_eq!(trim_slashes("https://x.com//"), "https://x.com");
    assert_eq!(trim_slashes("https://x.com"), "https://x.com");
    assert_eq!(trim_slashes("///"), "");
}

#[test]
fn replace_token_replaces_every_occurrence() {
    assert_eq!(replace_token("a{{X}}b{{X}}", "{{X}}", "yy"), "ayybyy");
    assert_eq!(replace_token("{{X", "{{X}}", "yy"), "{{X");
    assert_eq!(replace_token("aaa", "aa", "b"), "ba");
}

#[test]
fn parse_number_reads_ascii_digits() {
    assert_eq!(parse_number("2024", 2147483647), Some(2024));
    assert_eq!(parse_number("07", 4294967295), Some(7));
    assert_eq!(parse_number("", 100), None);
    assert_eq!(parse_number("1a", 100), None);
    assert_eq!(parse_number("+1", 100), None);
    assert_eq!(parse_number("101", 100), None);
    assert_eq!(parse_number("4294967296", 4294967295), None);
}

#[test]
fn date_key_from_file_name() {
    assert_eq!(date_key_of("issues/2024-06-10-summer.pdf"), key(2024, 6, 10));
    assert_eq!(date_key_of("a-2023-01-02-b-2024-03-04.pdf"), key(2023, 1, 2));
}

#[test]
fn date_key_without_date_is_undated() {
    assert_eq!(date_key_of("issues/spring.pdf"), key(0, 1, 1));
    assert_eq!(date_key_of("2024-6-10.pdf"), key(0, 1, 1));
}

#[test]
fn date_key_with_non_ascii_digits_falls_back() {
    assert_eq!(date_key_of("੨੦੨੪-01-05.pdf"), key(0, 1, 5));
}

#[test]
fn key_from_groups_uses_fallbacks() {
    let g = Some(("20x4".to_string(), "ab".to_string(), "09".to_string()));
    assert_eq!(key_from_groups(&g), key(0, 1, 9));
    assert_eq!(key_from_groups(&None), key(0, 1, 1));
    let h = Some(("1999".to_string(), "12".to_string(), "31".to_string()));
    assert_eq!(key_from_groups(&h), key(1999, 12, 31));
}

#[test]
fn older_compares_year_month_day() {
    assert!(is_older(&key(2023, 12, 31), &key(2024, 1, 1)));
    assert!(is_older(&key(2024, 1, 5), &key(2024, 6, 1)));
    assert!(is_older(&key(2024, 6, 1), &key(2024, 6, 2)));
    assert!(!is_older(&key(2024, 6, 2), &key(2024, 6, 2)));
    assert!(!is_older(&key(2025, 1, 1), &key(2024, 12, 31)));
}

#[test]
fn sort_puts_newest_first() {
    let issues = vec![
        issue("A", "issues/2024-01-05-spring.pdf", "a.jpg", None),
        issue("B", "issues/2024-06-10-summer.pdf", "b.jpg", None),
        issue("C", "issues/2023-12-31.pdf", "c.jpg", None),
    ];
    assert_eq!(titles(&sort_issues(issues)), vec!["B", "A", "C"]);
}

#[test]
fn sort_puts_undated_last_in_input_order() {
    let issues = vec![
        issue("U1", "first.pdf", "", None),
        issue("D1", "2020-05-05.pdf", "", None),
        issue("U2", "second.pdf", "", None),
        issue("D2", "2021-05-05.pdf", "", None),
        issue("U3", "third.pdf", "", None),
    ];
    assert_eq!(titles(&sort_issues(issues)), vec!["D2", "D1", "U1", "U2", "U3"]);
}

#[test]
fn sort_keeps_input_order_for_equal_dates() {
    let issues = vec![
        issue("X", "2024-01-01-x.pdf", "", None),
        issue("Y", "2024-01-01-y.pdf", "", None),
        issue("Z", "2024-01-01-z.pdf", "", None),
    ];
    assert_eq!(titles(&sort_issues(issues)), vec!["X", "Y", "Z"]);
}

#[test]
fn sort_of_nothing_is_nothing() {
    assert!(sort_issues(Vec::new()).is_empty());
}

#[test]
fn sort_by_keys_is_stable() {
    let issues = vec![
        issue("a", "", "", None),
        issue("b", "", "", None),
        issue("c", "", "", None),
        issue("d", "", "", None),
    ];
    let keys = vec![key(1, 1, 1), key(3, 1, 1), key(1, 1, 1), key(2, 1, 1)];
    assert_eq!(titles(&sort_by_keys(issues, keys)), vec!["b", "d", "a", "c"]);
}

#[test]
fn cards_of_no_issues_are_the_empty_state() {
    assert_eq!(build_issue_cards(&[]), EMPTY_STATE);
    assert!(!build_issue_cards(&[]).contains("issue-card"));
}

#[test]
fn card_has_escaped_fields_and_fallback_description() {
    let issues = vec![issue("Tom & Jerry", "f<1>.pdf", "c\"1.jpg", None)];
    let expected = "<div class=\"issue-card\">\n    <div class=\"image-container\">\n        <img src=\"c&quot;1.jpg\" alt=\"Tom &amp; Jerry\" loading=\"lazy\">\n    </div>\n    <div class=\"content\">\n        <h3>Tom &amp; Jerry</h3>\n        <p>Download this issue to read the full content.</p>\n        <a href=\"f&lt;1&gt;.pdf\" class=\"download-btn\" download>Download PDF</a>\n    </div>\n</div>";
    assert_eq!(build_issue_cards(&issues), expected);
}

#[test]
fn cards_are_joined_by_newlines_in_order() {
    let issues = vec![
        issue("One", "1.pdf", "1.jpg", Some("first")),
        issue("Two", "2.pdf", "2.jpg", Some("second")),
    ];
    let out = build_issue_cards(&issues);
    assert_eq!(out.matches("<div class=\"issue-card\">").count(), 2);
    assert!(out.contains("</div>\n<div class=\"issue-card\">"));
    assert!(out.find("One").unwrap() < out.find("Two").unwrap());
    assert!(out.contains("<p>first</p>"));
    assert!(out.contains("<p>second</p>"));
}

#[test]
fn og_tags_of_an_issue() {
    let s = site("Site", "Default", "https://x.com/", "");
    let i = issue("T", "2024-01-01.pdf", "covers/t.jpg", None);
    let expected = "<meta property=\"og:title\" content=\"T | Site\">\n    <meta property=\"og:description\" content=\"Default\">\n    <meta property=\"og:image\" content=\"https://x.com/covers/t.jpg\">\n    <meta property=\"og:site_name\" content=\"Site\">\n    <meta property=\"og:type\" content=\"website\">\n    <meta property=\"og:locale\" content=\"pa_IN\">\n    <meta name=\"twitter:card\" content=\"summary_large_image\">\n    <meta name=\"twitter:image\" content=\"https://x.com/covers/t.jpg\">\n    <meta name=\"description\" content=\"Default\">";
    assert_eq!(format_og_tags(&s, &i), expected);
}

#[test]
fn og_tags_prefer_the_issue_description() {
    let s = site("A<B", "Default", "https://x.com", "");
    let i = issue("T", "", "c.jpg", Some("Own 'words'"));
    let out = format_og_tags(&s, &i);
    assert!(out.contains("content=\"T | A&lt;B\""));
    assert!(out.contains("content=\"Own &#x27;words&#x27;\""));
    assert!(!out.contains("Default"));
    assert!(out.contains("content=\"https://x.com/c.jpg\""));
}

#[test]
fn default_og_tags_have_no_image() {
    let s = site("Site", "News", "https://x.com/", "logo.png");
    let expected = "<meta property=\"og:title\" content=\"Site\">\n    <meta property=\"og:description\" content=\"News\">\n    <meta property=\"og:site_name\" content=\"Site\">\n    <meta property=\"og:type\" content=\"website\">\n    <meta property=\"og:locale\" content=\"pa_IN\">\n    <meta name=\"twitter:card\" content=\"summary\">\n    <meta name=\"description\" content=\"News\">";
    let out = format_default_og_tags(&s);
    assert_eq!(out, expected);
    assert!(!out.contains("image"));
    assert_eq!(page_og_tags(&s, &[]), expected);
}

#[test]
fn logo_fragment_with_logo() {
    let s = site("Punjabi Times", "News", "https://x.com/", "img/logo.png");
    let out = format_logo(&s);
    assert_eq!(out, "<img src=\"img/logo.png\" alt=\"Punjabi Times\">");
    assert_eq!(out.matches("<img").count(), 1);
}

#[test]
fn logo_fragment_escapes_its_values() {
    let s = site("A & B", "News", "", "x\"<img>.png");
    let out = format_logo(&s);
    assert_eq!(out, "<img src=\"x&quot;&lt;img&gt;.png\" alt=\"A &amp; B\">");
    assert_eq!(out.matches('<').count(), 1);
}

#[test]
fn logo_fragment_without_logo_is_empty() {
    let s = site("Punjabi Times", "News", "https://x.com/", "");
    assert_eq!(format_logo(&s), "");
}

#[test]
fn compose_with_only_page_title() {
    let template = "<html><title>{{PAGE_TITLE}}</title></html>";
    let out = compose_page(template, "TAGS", "CARDS", "My & Site", "LOGO");
    assert_eq!(out, "<html><title>My & Site</title></html>");
}

#[test]
fn compose_fills_every_token() {
    let template = "{{OG_TAGS}}|{{ISSUE_CARDS}}|{{PAGE_TITLE}}|{{LOGO}}|{{LOGO}}";
    let out = compose_page(template, "t", "c", "p", "l");
    assert_eq!(out, "t|c|p|l|l");
}

#[test]
fn compose_replaces_tokens_in_order() {
    let out = compose_page("{{PAGE_TITLE}}", "", "", "{{LOGO}}", "L");
    assert_eq!(out, "L");
}

fn punjabi_times() -> Metadata {
    Metadata {
        site_meta: site("Punjabi Times", "News", "https://x.com/", ""),
        issues: vec![
            issue("Spring", "issues/2024-01-05-spring.pdf", "covers/a.jpg", None),
            issue("Summer", "issues/2024-06-10-summer.pdf", "covers/b.jpg", Some("Summer special")),
        ],
    }
}

#[test]
fn end_to_end_two_issues() {
    let meta = punjabi_times();
    let sorted = sort_issues(punjabi_times().issues);
    assert_eq!(titles(&sorted), vec!["Summer", "Spring"]);
    let og = page_og_tags(&meta.site_meta, &sorted);
    assert!(og.contains("<meta property=\"og:title\" content=\"Summer | Punjabi Times\">"));
    assert!(og.contains("<meta property=\"og:image\" content=\"https://x.com/covers/b.jpg\">"));
    assert!(og.contains("<meta property=\"og:description\" content=\"Summer special\">"));
    let cards = build_issue_cards(&sorted);
    let b = cards.find("<h3>Summer</h3>").unwrap();
    let a = cards.find("<h3>Spring</h3>").unwrap();
    assert!(b < a);
    assert!(cards.contains("<p>Download this issue to read the full content.</p>"));
    assert_eq!(format_logo(&meta.site_meta), "");

    let template = "<head><title>{{PAGE_TITLE}}</title>{{OG_TAGS}}</head><body>{{LOGO}}{{ISSUE_CARDS}}</body>";
    let page = render_site(meta, template);
    let expected = format!(
        "<head><title>Punjabi Times</title>{}</head><body>{}</body>",
        og, cards
    );
    assert_eq!(page, expected);
}

#[test]
fn render_site_without_issues() {
    let meta = Metadata {
        site_meta: site("Site", "News", "https://x.com", "l.png"),
        issues: Vec::new(),
    };
    let page = render_site(meta, "{{OG_TAGS}}\n{{ISSUE_CARDS}}\n{{LOGO}}");
    assert!(page.contains("<meta name=\"twitter:card\" content=\"summary\">"));
    assert!(!page.contains("og:image"));
    assert!(page.contains(EMPTY_STATE));
    assert!(page.ends_with("<img src=\"l.png\" alt=\"Site\">"));
}
