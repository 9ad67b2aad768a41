use siteanalyzer::resolve::Resolver;

/// Drive the resolver with a table of (url, outcome) pairs, answering
/// every other fetch with a failure.
fn run(mut r: Resolver, answers: &[(&str, Option<&str>)]) -> Resolver {
    let mut steps = 0;
    while let Some(url) = r.pending_fetch() {
        let body = answers
            .iter()
            .find(|(u, _)| *u == url)
            .and_then(|(_, b)| *b);
        r.supply(body);
        steps += 1;
        assert!(steps < 100, "resolution did not finish");
    }
    r
}

#[test]
fn resolver_rejects_invalid_base() {
    assert!(Resolver::new("not a url").is_err());
}

#[test]
fn resolver_probes_well_known_paths_in_order() {
    let mut r = Resolver::new("http://example.com").unwrap();
    assert_eq!(r.pending_fetch().unwrap(), "http://example.com/sitemap.xml");
    r.supply(None);
    assert_eq!(r.pending_fetch().unwrap(), "http://example.com/sitemap_index.xml");
    r.supply(None);
    assert_eq!(r.pending_fetch().unwrap(), "http://example.com/sitemap-index.xml");
    r.supply(None);
    assert_eq!(r.pending_fetch().unwrap(), "http://example.com/robots.txt");
    r.supply(None);
    assert!(r.pending_fetch().is_none());
    assert!(r.locations.is_empty());
}

#[test]
fn resolver_probe_paths_are_host_absolute() {
    // Probe paths are absolute, so they resolve against the host, not
    // against the page the base URL points into.
    let r = Resolver::new("http://example.com/deep/page.html").unwrap();
    assert_eq!(r.pending_fetch().unwrap(), "http://example.com/sitemap.xml");
}

#[test]
fn resolver_uses_robots_when_probe_fails() {
    // The first probe comes back as a failure (as a 404 would), yet the
    // robots.txt directive still yields a non-empty result.
    let r = Resolver::new("http://x").unwrap();
    let r = run(
        r,
        &[
            ("http://x/robots.txt", Some("Sitemap: http://x/found.xml")),
            (
                "http://x/found.xml",
                Some("<urlset><url><loc>http://x/page1</loc></url></urlset>"),
            ),
        ],
    );
    assert_eq!(r.locations, vec!["http://x/page1".to_string()]);
    let json = r.result_json();
    let parsed: Vec<String> = serde_json::from_str(&json).unwrap();
    assert_eq!(parsed, vec!["http://x/page1".to_string()]);
}

#[test]
fn resolver_expands_nested_sitemap_one_level() {
    let index = "<sitemapindex><sitemap><loc>http://x/sitemap-sub1.xml</loc></sitemap></sitemapindex>";
    let sub = "<urlset><url><loc>http://x/page1</loc></url></urlset>";
    let r = Resolver::new("http://x").unwrap();
    let r = run(
        r,
        &[
            ("http://x/sitemap.xml", Some(index)),
            ("http://x/sitemap-sub1.xml", Some(sub)),
        ],
    );
    assert!(r.locations.contains(&"http://x/page1".to_string()));
    assert!(!r.locations.contains(&"http://x/sitemap-sub1.xml".to_string()));
}

#[test]
fn resolver_deduplicates_in_first_seen_order() {
    let first = "<urlset><loc>http://x/a</loc><loc>http://x/b</loc><loc>http://x/a</loc></urlset>";
    let second = "<urlset><loc>http://x/b</loc><loc>http://x/c</loc></urlset>";
    let r = Resolver::new("http://x").unwrap();
    let r = run(
        r,
        &[
            ("http://x/sitemap.xml", Some(first)),
            ("http://x/sitemap_index.xml", Some(second)),
        ],
    );
    assert_eq!(
        r.locations,
        vec![
            "http://x/a".to_string(),
            "http://x/b".to_string(),
            "http://x/c".to_string(),
        ]
    );
}

#[test]
fn resolver_skips_unparsable_candidate() {
    let r = Resolver::new("http://x").unwrap();
    let r = run(
        r,
        &[
            ("http://x/sitemap.xml", Some("<urlset><loc")),
            (
                "http://x/sitemap_index.xml",
                Some("<urlset><loc>http://x/ok</loc></urlset>"),
            ),
        ],
    );
    assert_eq!(r.locations, vec!["http://x/ok".to_string()]);
}

#[test]
fn resolver_drops_failing_nested_branch() {
    let index = "<urlset><loc>http://x/sitemap-bad.xml</loc><loc>http://x/direct</loc></urlset>";
    let r = Resolver::new("http://x").unwrap();
    let r = run(r, &[("http://x/sitemap.xml", Some(index))]);
    // The nested fetch fails; its branch is dropped silently, the
    // remaining plain location is still collected.
    assert_eq!(r.locations, vec!["http://x/direct".to_string()]);
}

#[test]
fn resolver_empty_result_is_empty_json_array() {
    let r = Resolver::new("http://x").unwrap();
    let r = run(r, &[]);
    let json = r.result_json();
    let parsed: Vec<String> = serde_json::from_str(&json).unwrap();
    assert!(parsed.is_empty());
}
