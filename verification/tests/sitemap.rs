use siteanalyzer::download::download_outcome;
use siteanalyzer::robots::robots_sitemap_urls;
use siteanalyzer::xml::parse_sitemap_locations;

#[test]
fn parse_locations_in_document_order() {
    let xml = "<?xml version=\"1.0\"?>\n<urlset>\n  <url><loc>http://x/a</loc></url>\n  <url><loc>http://x/b</loc></url>\n</urlset>";
    let locs = parse_sitemap_locations(xml).unwrap();
    assert_eq!(locs, vec!["http://x/a".to_string(), "http://x/b".to_string()]);
}

#[test]
fn parse_locations_decodes_entities() {
    let xml = "<urlset><url><loc>http://x/a?b=1&amp;c=2</loc></url></urlset>";
    let locs = parse_sitemap_locations(xml).unwrap();
    assert_eq!(locs, vec!["http://x/a?b=1&c=2".to_string()]);
}

#[test]
fn parse_locations_decodes_numeric_references() {
    let xml = "<urlset><url><loc>http://x/&#97;&#x62;</loc></url></urlset>";
    let locs = parse_sitemap_locations(xml).unwrap();
    assert_eq!(locs, vec!["http://x/ab".to_string()]);
}

#[test]
fn parse_locations_rejects_out_of_range_reference() {
    assert!(parse_sitemap_locations("<urlset><loc>&#1114112;</loc></urlset>").is_err());
}

#[test]
fn parse_locations_trims_whitespace() {
    let xml = "<urlset><url><loc>\n    http://x/a\n  </loc></url></urlset>";
    let locs = parse_sitemap_locations(xml).unwrap();
    assert_eq!(locs, vec!["http://x/a".to_string()]);
}

#[test]
fn parse_locations_ignores_other_elements() {
    let xml = "<urlset><url><loc>http://x/a</loc><lastmod>2024-01-01</lastmod></url></urlset>";
    let locs = parse_sitemap_locations(xml).unwrap();
    assert_eq!(locs, vec!["http://x/a".to_string()]);
}

#[test]
fn parse_locations_skips_comments_and_cdata() {
    let xml = "<urlset><!-- <loc>http://x/no</loc> --><url><loc><![CDATA[http://x/no2]]></loc></url><url><loc>http://x/yes</loc></url></urlset>";
    let locs = parse_sitemap_locations(xml).unwrap();
    assert_eq!(locs, vec!["http://x/yes".to_string()]);
}

#[test]
fn parse_locations_tag_attributes_are_skipped() {
    let xml = "<urlset xmlns=\"http://www.sitemaps.org/schemas/sitemap/0.9\"><url><loc a=\"<notatag>\">http://x/a</loc></url></urlset>";
    let locs = parse_sitemap_locations(xml).unwrap();
    assert_eq!(locs, vec!["http://x/a".to_string()]);
}

#[test]
fn parse_locations_self_closing_loc_is_empty() {
    let locs = parse_sitemap_locations("<urlset><loc/>after<loc>http://x/a</loc></urlset>")
        .unwrap();
    assert_eq!(locs, vec!["http://x/a".to_string()]);
}

#[test]
fn parse_locations_end_tag_may_carry_whitespace() {
    let locs = parse_sitemap_locations("<urlset><loc>http://x/a</loc ></urlset>").unwrap();
    assert_eq!(locs, vec!["http://x/a".to_string()]);
}

#[test]
fn parse_locations_empty_document_has_no_locations() {
    let locs = parse_sitemap_locations("<urlset></urlset>").unwrap();
    assert!(locs.is_empty());
}

#[test]
fn parse_locations_rejects_unclosed_tag() {
    assert!(parse_sitemap_locations("<urlset><loc").is_err());
}

#[test]
fn parse_locations_rejects_invalid_reference() {
    assert!(parse_sitemap_locations("<urlset><loc>http://x/&bogus;</loc></urlset>").is_err());
}

#[test]
fn parse_locations_rejects_unterminated_comment() {
    assert!(parse_sitemap_locations("<urlset><!-- never closed").is_err());
}

#[test]
fn parse_locations_rejects_mismatched_end_tag() {
    assert!(
        parse_sitemap_locations("<urlset><url><loc>http://x/a</loc></wrong></urlset>").is_err()
    );
}

#[test]
fn parse_locations_rejects_stray_end_tag() {
    assert!(parse_sitemap_locations("</urlset>").is_err());
}

#[test]
fn parse_locations_rejects_bad_bang_constructs() {
    assert!(parse_sitemap_locations("<urlset><!x></urlset>").is_err());
    assert!(parse_sitemap_locations("<urlset><![CDAT[oops]]></urlset>").is_err());
    assert!(parse_sitemap_locations("<urlset><!-x></urlset>").is_err());
}

#[test]
fn parse_locations_accepts_doctype() {
    let locs =
        parse_sitemap_locations("<!DOCTYPE urlset><urlset><loc>http://x/a</loc></urlset>")
            .unwrap();
    assert_eq!(locs, vec!["http://x/a".to_string()]);
}

#[test]
fn robots_extracts_sitemap_lines() {
    let robots = "User-agent: *\nDisallow: /private\nSitemap: http://x/sitemap.xml\nsitemap: http://x/other.xml\n";
    let urls = robots_sitemap_urls(robots);
    assert_eq!(
        urls,
        vec!["http://x/sitemap.xml".to_string(), "http://x/other.xml".to_string()]
    );
}

#[test]
fn robots_is_case_insensitive_and_trims() {
    let robots = "SITEMAP:   http://x/a.xml  \r\nSiteMap:http://x/b.xml";
    let urls = robots_sitemap_urls(robots);
    assert_eq!(urls, vec!["http://x/a.xml".to_string(), "http://x/b.xml".to_string()]);
}

#[test]
fn robots_bare_directive_yields_empty_value() {
    // A directive with nothing after the colon still emits its
    // (empty) value; validation is left to the fetch that follows.
    let urls = robots_sitemap_urls("Sitemap:");
    assert_eq!(urls, vec![String::new()]);
}

#[test]
fn robots_without_directives_yields_nothing() {
    let urls = robots_sitemap_urls("User-agent: *\nDisallow:\n");
    assert!(urls.is_empty());
}

#[test]
fn download_outcome_returns_body_on_success() {
    let r = download_outcome(200, "<html><body>Test content</body></html>".to_string());
    assert_eq!(r.unwrap(), "<html><body>Test content</body></html>");
}

#[test]
fn download_outcome_fails_on_not_found() {
    let r = download_outcome(404, "ignored".to_string());
    assert_eq!(r.unwrap_err().status, 404);
}

#[test]
fn download_outcome_success_range_is_2xx() {
    assert!(download_outcome(299, String::new()).is_ok());
    assert!(download_outcome(300, String::new()).is_err());
    assert!(download_outcome(199, String::new()).is_err());
    assert!(download_outcome(301, String::new()).is_err());
}
