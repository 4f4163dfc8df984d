//! Tests of the site-support pieces: front matter, path arithmetic, the
//! watcher rule, variants, robots.txt and sitemap.xml.

use meowdown::fm::parse_front_matter;
use meowdown::global::BuildError;
use meowdown::global::Config;
use meowdown::global::GlobalContext;
use meowdown::global::build_site_for_each_variant;
use meowdown::paths::file_path_stem;
use meowdown::paths::should_trigger_rebuild;
use meowdown::robots::RobotsConfig;
use meowdown::robots::RobotsGlobalRules;
use meowdown::robots::RobotsUserAgentRules;
use meowdown::robots::find_disallowed_html;
use meowdown::robots::generate_robots_txt;
use meowdown::robots::get_all_allowed_paths;
use meowdown::robots::get_all_user_agents;
use meowdown::sitemap::ChangeFrequency;
use meowdown::sitemap::SitemapXmlNode;
use meowdown::strmap::StrMap;
use meowdown::url::has_protocol;

#[test]
fn front_matter_splits_and_trims() {
    let (fm, body) = parse_front_matter("---\ntitle: Hi\n---\nBody text");
    assert_eq!(fm, "title: Hi");
    assert_eq!(body, "Body text");
}

#[test]
fn text_without_front_matter_is_all_body() {
    let (fm, body) = parse_front_matter("just text");
    assert_eq!(fm, "");
    assert_eq!(body, "just text");
}

#[test]
fn unterminated_front_matter_is_all_body() {
    let (fm, body) = parse_front_matter("---\ntitle: Hi\nno end");
    assert_eq!(fm, "");
    assert_eq!(body, "---\ntitle: Hi\nno end");
}

#[test]
fn has_protocol_cases() {
    assert!(has_protocol("https://x.test"));
    assert!(has_protocol("mailto:a@b.c"));
    assert!(!has_protocol("/absolute/path"));
    assert!(!has_protocol("no colon here"));
    assert!(!has_protocol(":starts-with-colon"));
    assert!(!has_protocol("a1:digit-in-scheme"));
}

#[test]
fn file_path_stem_strips_the_base() {
    assert_eq!(file_path_stem("src", "src/posts/a.md"), "posts/a.md");
    assert_eq!(file_path_stem("src/", "src/posts/a.md"), "posts/a.md");
    assert_eq!(file_path_stem("other", "src/posts/a.md"), "src/posts/a.md");
    assert_eq!(file_path_stem("sr", "src/posts/a.md"), "src/posts/a.md");
}

#[test]
fn rebuild_triggers_on_watched_suffixes() {
    assert!(should_trigger_rebuild(&vec![String::from("a/page.md")]));
    assert!(should_trigger_rebuild(&vec![
        String::from("a/binary.png"),
        String::from("style.css"),
    ]));
    assert!(!should_trigger_rebuild(&vec![String::from("a/binary.png")]));
    assert!(!should_trigger_rebuild(&Vec::new()));
}

#[test]
fn variant_is_spliced_into_file_names() {
    let mut cfg = Config::default_config();
    cfg.variant = Some(String::from("blue"));
    let gc = GlobalContext::new(cfg);
    assert_eq!(
        gc.path_add_variant("data/site.yaml").unwrap(),
        "data/site.blue.yaml"
    );
    assert_eq!(
        gc.path_add_variant("foobar.tpl.html").unwrap(),
        "foobar.tpl.blue.html"
    );
    assert_eq!(gc.path_add_variant("plain").unwrap(), "plain.blue");
}

#[test]
fn blank_variant_adds_nothing() {
    let mut cfg = Config::default_config();
    cfg.variant = Some(String::from("  "));
    let gc = GlobalContext::new(cfg);
    assert!(gc.path_add_variant("data/site.yaml").is_none());
}

#[test]
fn variant_substitutes_into_directories() {
    let mut cfg = Config::default_config();
    cfg.input_dir = String::from("in-{{variant}}");
    cfg.output_dir = String::from("out-{{variant}}");
    cfg.variant = Some(String::from("fr"));
    assert_eq!(cfg.full_input_path(), "in-fr");
    assert_eq!(cfg.full_output_path(), "out-fr");
}

#[test]
fn variants_expand_to_one_config_each() {
    let mut cfg = Config::default_config();
    cfg.variants = Some(vec![String::from("en"), String::from("fr")]);
    let cs = build_site_for_each_variant(&cfg).unwrap();
    assert_eq!(cs.len(), 2);
    assert_eq!(cs[0].variant.as_deref(), Some("en"));
    assert_eq!(cs[1].variant.as_deref(), Some("fr"));
    assert!(cs[0].variants.is_none());
}

#[test]
fn variant_and_variants_together_are_refused() {
    let mut cfg = Config::default_config();
    cfg.variant = Some(String::from("en"));
    cfg.variants = Some(vec![String::from("fr")]);
    match build_site_for_each_variant(&cfg) {
        Err(BuildError::ConflictingVariants) => {},
        _ => panic!("expected the variant conflict error"),
    }
}

fn sample_robots() -> RobotsConfig {
    RobotsConfig {
        crawl_delay: Some(10),
        sitemap: Some(String::from("/sitemap.xml")),
        user_agents: Some(vec![RobotsUserAgentRules {
            user_agents: vec![String::from("Googlebot"), String::from("Bingbot")],
            allow: Some(vec![String::from("/public")]),
            disallow: Some(vec![String::from("/private")]),
            crawl_delay: Some(5),
        }]),
        global_rules: Some(RobotsGlobalRules {
            allow: Some(vec![String::from("/")]),
            disallow: None,
        }),
        auto_disallow_non_included_html: None,
        auto_include_generated_html: None,
    }
}

#[test]
fn robots_txt_exact_text() {
    let config = sample_robots();
    let txt = generate_robots_txt(&config, &Vec::new(), "out");
    assert_eq!(
        txt,
        "Sitemap: /sitemap.xml\n\n\
         Crawl-delay: 10\nAllow: /\n\n\
         User-agent: Googlebot\nUser-agent: Bingbot\n\
         Crawl-delay: 5\nAllow: /public\nDisallow: /private\n\n"
    );
}

#[test]
fn robots_auto_include_lists_generated_files() {
    let mut config = sample_robots();
    config.auto_include_generated_html = Some(true);
    let files = vec![String::from("/a.html")];
    let txt = generate_robots_txt(&config, &files, "out");
    assert!(txt.contains("# Auto-included generated files\nAllow: /a.html\n"));
}

#[test]
fn robots_auto_disallow_blocks_uncovered_files() {
    let mut config = sample_robots();
    config.auto_disallow_non_included_html = Some(true);
    // a global allow of the whole site would cover every page
    config.global_rules = Some(RobotsGlobalRules { allow: None, disallow: None });
    let files = vec![
        String::from("out/public/ok.html"),
        String::from("out/secret/x.html"),
    ];
    let txt = generate_robots_txt(&config, &files, "out");
    assert!(txt.contains("# Auto-disallowed generated files\n"), "txt: {}", txt);
    assert!(txt.contains("Disallow: /secret/x.html\n"), "txt: {}", txt);
    assert!(!txt.contains("Disallow: /public/ok.html\n"), "txt: {}", txt);
}

#[test]
fn all_allowed_paths_collects_global_then_agents() {
    let config = sample_robots();
    let allowed = get_all_allowed_paths(&config);
    assert_eq!(allowed, vec![String::from("/"), String::from("/public")]);
}

#[test]
fn all_user_agents_deduplicates() {
    let mut config = sample_robots();
    config.user_agents = Some(vec![
        RobotsUserAgentRules {
            user_agents: vec![String::from("A"), String::from("B")],
            allow: None,
            disallow: None,
            crawl_delay: None,
        },
        RobotsUserAgentRules {
            user_agents: vec![String::from("B"), String::from("C")],
            allow: None,
            disallow: None,
            crawl_delay: None,
        },
    ]);
    let agents = get_all_user_agents(&config);
    assert_eq!(
        agents,
        vec![String::from("A"), String::from("B"), String::from("C")]
    );
}

#[test]
fn all_user_agents_are_sorted() {
    let mut config = sample_robots();
    config.user_agents = Some(vec![RobotsUserAgentRules {
        user_agents: vec![String::from("Bingbot"), String::from("Ahrefs")],
        allow: None,
        disallow: None,
        crawl_delay: None,
    }]);
    let agents = get_all_user_agents(&config);
    assert_eq!(agents, vec![String::from("Ahrefs"), String::from("Bingbot")]);
}

#[test]
fn disallowed_html_is_relative_to_the_output_dir() {
    let files = vec![
        String::from("out/covered.html"),
        String::from("out/open.html"),
        String::from("elsewhere/x.html"),
    ];
    let allowed = vec![String::from("/covered")];
    let dis = find_disallowed_html(&files, &allowed, "out");
    assert_eq!(dis, vec![String::from("/open.html")]);
}

#[test]
fn sitemap_entry_exact_xml() {
    let node = SitemapXmlNode::new(String::from("https://x.test/a.html"))
        .with_lastmod(String::from("2020-01-02T03:04:05+00:00"))
        .with_changefreq(ChangeFrequency::Monthly)
        .with_priority(7)
        .add_alternate(String::from("https://x.test/fr/a.html"), String::from("fr"));
    assert_eq!(
        node.to_xml(),
        "<url>\n  <loc>https://x.test/a.html</loc>\n\
         \x20 <lastmod>2020-01-02T03:04:05+00:00</lastmod>\n\
         \x20 <changefreq>monthly</changefreq>\n\
         \x20 <priority>0.7</priority>\n\
         \x20 <xhtml:link rel=\"alternate\" hreflang=\"fr\" href=\"https://x.test/fr/a.html\"/>\n\
         </url>"
    );
}

#[test]
fn sitemap_priority_clamps_to_one() {
    let node = SitemapXmlNode::new(String::from("x")).with_priority(200);
    assert!(node.to_xml().contains("<priority>1.0</priority>"));
}

#[test]
fn sitemap_document_wraps_entries() {
    let nodes = vec![
        SitemapXmlNode::new(String::from("https://x.test/a.html")),
        SitemapXmlNode::new(String::from("https://x.test/b.html")),
    ];
    let xml = SitemapXmlNode::generate_sitemap_xml(&nodes);
    assert!(xml.starts_with("<?xml version=\"1.0\" encoding=\"UTF-8\"?><urlset"));
    assert!(xml.contains("<loc>https://x.test/a.html</loc>"));
    assert!(xml.contains("<loc>https://x.test/b.html</loc>"));
    assert!(xml.ends_with("</urlset>"));
}

#[test]
fn sitemap_from_file_joins_site_url() {
    let node = SitemapXmlNode::from_file(
        "/a.html",
        "https://x.test/",
        Some(String::from("2020-01-01T00:00:00+00:00")),
    );
    assert_eq!(node.loc, "https://x.test/a.html");
    assert_eq!(node.lastmod.as_deref(), Some("2020-01-01T00:00:00+00:00"));
}

#[test]
fn change_frequency_keywords() {
    assert_eq!(ChangeFrequency::Always.as_text(), "always");
    assert_eq!(ChangeFrequency::Never.as_text(), "never");
}

#[test]
fn yaml_front_matter_reaches_the_context() {
    let mut files = StrMap::new();
    files.insert(
        String::from("p.md"),
        String::from("---\nlayout: \"\"\ndate: 2020-06-01\n---\n{{date_html}}"),
    );
    let mut cfg = Config::default_config();
    cfg.input_dir = String::new();
    let mut gc = GlobalContext::new_with_defaults(cfg, files, String::from("rev0"));
    let (_p, html, _l) = gc.build_and_render_page("p.md", 8).unwrap();
    assert!(html.contains("<p><b>Date:</b> 2020-06-01</p>"), "html: {}", html);
}
