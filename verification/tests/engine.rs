//! End-to-end tests of the templating engine: parsing, rendering, scoping,
//! layout resolution and the built-in functions.

use meowdown::context::TemplateContext;
use meowdown::global::BuildError;
use meowdown::global::Config;
use meowdown::global::GlobalContext;
use meowdown::node::TemplateNode;
use meowdown::parse::count_stray_elses;
use meowdown::parse::parse_control_blocks;
use meowdown::registry::Builtin;
use meowdown::render::apply_substitutions;
use meowdown::strmap::StrMap;

fn test_context() -> GlobalContext {
    GlobalContext::new_with_defaults(
        Config::default_config(),
        StrMap::new(),
        String::from("rev0"),
    )
}

fn render_text(gc: &mut GlobalContext, ctx: &mut TemplateContext, text: &str) -> String {
    let id = parse_control_blocks(&mut gc.nodes, &gc.functions, text);
    gc.render(id, ctx, 8)
}

#[test]
fn conditional_true_branch() {
    let mut gc = test_context();
    let mut ctx = TemplateContext::new();
    ctx.set_string(String::from("X"), String::from("bound"));
    let out = render_text(&mut gc, &mut ctx, "{{if X}}A{{ else }}B{{ endif }}");
    assert_eq!(out, "A");
}

#[test]
fn conditional_false_branch() {
    let mut gc = test_context();
    let mut ctx = TemplateContext::new();
    let out = render_text(&mut gc, &mut ctx, "{{if X}}A{{ else }}B{{ endif }}");
    assert_eq!(out, "B");
}

#[test]
fn conditional_empty_string_is_truthy() {
    let mut gc = test_context();
    let mut ctx = TemplateContext::new();
    ctx.set_string(String::from("X"), String::new());
    let out = render_text(&mut gc, &mut ctx, "{{if X}}A{{ else }}B{{ endif }}");
    assert_eq!(out, "A");
}

#[test]
fn conditional_without_else_unbound_is_empty() {
    let mut gc = test_context();
    let mut ctx = TemplateContext::new();
    let out = render_text(&mut gc, &mut ctx, "{{if X}}A{{ endif }}");
    assert_eq!(out, "");
}

#[test]
fn nested_same_kind_blocks_close_balanced() {
    let mut gc = test_context();
    let mut ctx = TemplateContext::new();
    ctx.set_string(String::from("A"), String::from("y"));
    ctx.set_string(String::from("B"), String::from("y"));
    let out = render_text(&mut gc, &mut ctx, "{{if A}}{{if B}}X{{ endif }}Y{{ endif }}");
    assert_eq!(out, "XY");
}

#[test]
fn nested_conditional_with_else_stays_inside() {
    let mut gc = test_context();
    let mut ctx = TemplateContext::new();
    ctx.set_string(String::from("A"), String::from("y"));
    let out = render_text(
        &mut gc,
        &mut ctx,
        "{{if A}}{{if B}}X{{ else }}Z{{ endif }}Y{{ endif }}",
    );
    assert_eq!(out, "ZY");
}

fn record(pairs: &[(&str, &str)]) -> StrMap {
    let mut m = StrMap::new();
    for (k, v) in pairs {
        m.insert(String::from(*k), String::from(*v));
    }
    m
}

#[test]
fn foreach_renders_names_in_order() {
    let mut gc = test_context();
    let mut ctx = TemplateContext::new();
    ctx.set_records(
        String::from("items"),
        vec![
            record(&[("name", "one")]),
            record(&[("name", "two")]),
            record(&[("name", "three")]),
        ],
    );
    let out = render_text(
        &mut gc,
        &mut ctx,
        "{{foreach items as x}}{{name}}{{ endforeach }}",
    );
    assert_eq!(out, "onetwothree");
}

#[test]
fn foreach_over_no_records_is_empty() {
    let mut gc = test_context();
    let mut ctx = TemplateContext::new();
    ctx.set_records(String::from("items"), Vec::new());
    let out = render_text(
        &mut gc,
        &mut ctx,
        "{{foreach items as x}}{{name}}{{ endforeach }}",
    );
    assert_eq!(out, "");
}

#[test]
fn foreach_missing_key_is_empty() {
    let mut gc = test_context();
    let mut ctx = TemplateContext::new();
    let out = render_text(
        &mut gc,
        &mut ctx,
        "{{foreach items as x}}{{name}}{{ endforeach }}",
    );
    assert_eq!(out, "");
}

#[test]
fn child_binding_shadows_ancestor_for_all_spellings() {
    let gc = test_context();
    let mut ctx = TemplateContext::new();
    ctx.set_string(String::from("title"), String::from("Parent"));
    ctx.push_frame();
    ctx.set_string(String::from("title"), String::from("Child"));
    for text in ["{{title}}", "{title}", "{{ title }}", "{ title }"] {
        let out = apply_substitutions(String::from(text), &ctx, &gc.site_strings);
        assert_eq!(out, "Child");
    }
}

#[test]
fn sibling_does_not_see_binding() {
    let gc = test_context();
    let mut ctx = TemplateContext::new();
    ctx.set_string(String::from("title"), String::from("Parent"));
    ctx.push_frame();
    ctx.set_string(String::from("title"), String::from("Child"));
    ctx.pop_frame();
    ctx.push_frame();
    let out = apply_substitutions(String::from("{{title}}"), &ctx, &gc.site_strings);
    assert_eq!(out, "Parent");
    assert_eq!(ctx.get_string("title").unwrap(), "Parent");
}

#[test]
fn layout_requested_twice_is_parsed_once() {
    let mut files = StrMap::new();
    files.insert(
        String::from("templates/default.tpl.html"),
        String::from("<html>{{ content }}</html>"),
    );
    let mut gc = GlobalContext::new_with_defaults(
        Config::default_config(),
        files,
        String::from("rev0"),
    );
    let first = gc.get_layout("default").unwrap();
    let parses_after_first = gc.layout_parses;
    let nodes_after_first = gc.nodes.len();
    let second = gc.get_layout("default").unwrap();
    assert_eq!(first, second);
    assert_eq!(gc.layout_parses, parses_after_first);
    assert_eq!(gc.nodes.len(), nodes_after_first);
}

#[test]
fn layout_chain_inherits_default_parent() {
    let mut files = StrMap::new();
    files.insert(
        String::from("templates/default.tpl.html"),
        String::from("[D]{{ content }}[/D]"),
    );
    files.insert(
        String::from("templates/post.tpl.html"),
        String::from("<post>{{ content }}</post>"),
    );
    let mut gc = GlobalContext::new_with_defaults(
        Config::default_config(),
        files,
        String::from("rev0"),
    );
    let post = gc.get_layout("post").unwrap();
    let node = &gc.nodes[post];
    assert!(node.get_parent().is_some());
    let parent = node.get_parent().unwrap();
    match &gc.nodes[parent] {
        TemplateNode::Layout { name, .. } => assert_eq!(name, "default"),
        _ => panic!("parent is not a layout"),
    }
}

#[test]
fn missing_layout_is_an_error() {
    let mut gc = test_context();
    match gc.get_layout("nowhere") {
        Err(BuildError::MissingFile { path }) => {
            assert_eq!(path, "templates/nowhere.tpl.html")
        },
        other => panic!("unexpected: {}", debug_of(&other)),
    }
}

#[test]
fn layout_cycle_is_detected() {
    let mut files = StrMap::new();
    files.insert(
        String::from("templates/a.tpl.html"),
        String::from("---\nlayout: b\n---\nA{{ content }}"),
    );
    files.insert(
        String::from("templates/b.tpl.html"),
        String::from("---\nlayout: a\n---\nB{{ content }}"),
    );
    let mut gc = GlobalContext::new_with_defaults(
        Config::default_config(),
        files,
        String::from("rev0"),
    );
    match gc.get_layout("a") {
        Err(BuildError::LayoutCycle { .. }) => {},
        other => panic!("unexpected: {}", debug_of(&other)),
    }
}

fn debug_of(r: &Result<usize, BuildError>) -> String {
    match r {
        Ok(id) => format!("ok {}", id),
        Err(e) => e.message(),
    }
}

#[test]
fn stray_else_is_counted_and_skipped() {
    assert_eq!(count_stray_elses("a {{ else }} b"), 1);
    assert_eq!(count_stray_elses("{{if A}}x{{ else }}y{{ endif }}"), 0);
    assert_eq!(
        count_stray_elses("{{foreach xs as x}}{{ else }}{{ endforeach }}"),
        1
    );
    let mut gc = test_context();
    let mut ctx = TemplateContext::new();
    let out = render_text(&mut gc, &mut ctx, "a {{ else }} b");
    assert_eq!(out, "a  b");
}

#[test]
fn unknown_tag_passes_through() {
    let mut gc = test_context();
    let mut ctx = TemplateContext::new();
    let out = render_text(&mut gc, &mut ctx, "before {{nope foo}} after");
    assert_eq!(out, "before {{nope foo}} after");
}

#[test]
fn unregistered_function_node_renders_its_name() {
    let mut gc = test_context();
    let mut ctx = TemplateContext::new();
    gc.nodes.push(TemplateNode::Func {
        name: String::from("nope"),
        args: vec![String::from("foo")],
        block_content: None,
    });
    let id = gc.nodes.len() - 1;
    let out = gc.render(id, &mut ctx, 8);
    assert_eq!(out, "nope");
}

#[test]
fn uppercase_without_argument_is_empty() {
    let mut gc = test_context();
    let mut ctx = TemplateContext::new();
    let out = render_text(&mut gc, &mut ctx, "{{uppercase}}");
    assert_eq!(out, "");
}

#[test]
fn uppercase_folds_its_argument() {
    let mut gc = test_context();
    let mut ctx = TemplateContext::new();
    let out = render_text(&mut gc, &mut ctx, "{{uppercase abc}}");
    assert_eq!(out, "ABC");
}

#[test]
fn lowercase_folds_its_argument() {
    let mut gc = test_context();
    let mut ctx = TemplateContext::new();
    let out = render_text(&mut gc, &mut ctx, "{{lowercase AbC}}");
    assert_eq!(out, "abc");
}

#[test]
fn date_builtins_use_the_build_clock() {
    let mut gc = test_context();
    let mut ctx = TemplateContext::new();
    let expect = gc.now_date.clone();
    let out = render_text(&mut gc, &mut ctx, "{{date}}");
    assert_eq!(out, expect);
    let expect = gc.now_datetime.clone();
    let out = render_text(&mut gc, &mut ctx, "{{datetime}}");
    assert_eq!(out, expect);
}

#[test]
fn date_html_wraps_bound_date() {
    let mut gc = test_context();
    let mut ctx = TemplateContext::new();
    ctx.set_string(String::from("date"), String::from("2020-01-01"));
    let out = render_text(&mut gc, &mut ctx, "{{date_html}}");
    assert_eq!(out, "<p><b>Date:</b> 2020-01-01</p>");
    let out = render_text(&mut gc, &mut ctx, "{{tags_html}}");
    assert_eq!(out, "");
}

#[test]
fn relative_url_joins_with_one_slash() {
    let mut gc = test_context();
    gc.site_strings.insert(String::from("site.url"), String::from("https://x.test"));
    assert_eq!(gc.relative_url("about.html"), "https://x.test/about.html");
    assert_eq!(gc.relative_url("/about.html"), "https://x.test/about.html");
    assert_eq!(gc.relative_url("https://ext.test/p"), "https://ext.test/p");
    assert_eq!(gc.relative_url("#section"), "#section");
}

#[test]
fn relative_url_trims_base_slashes() {
    let mut gc = test_context();
    gc.site_strings.insert(String::from("site.url"), String::from("https://x.test/"));
    assert_eq!(gc.relative_url("about.html"), "https://x.test/about.html");
}

#[test]
fn relative_url_tag_renders() {
    let mut gc = test_context();
    gc.site_strings.insert(String::from("site.url"), String::from("https://x.test"));
    let mut ctx = TemplateContext::new();
    let out = render_text(&mut gc, &mut ctx, "{{relative-url about.html}}");
    assert_eq!(out, "https://x.test/about.html");
}

#[test]
fn image_html_rewrites_the_bound_image() {
    let mut gc = test_context();
    gc.site_strings.insert(String::from("site.url"), String::from("https://x.test"));
    let mut ctx = TemplateContext::new();
    ctx.set_string(String::from("image"), String::from("cat.png"));
    let out = render_text(&mut gc, &mut ctx, "{{image_html}}");
    assert_eq!(out, "<img src=\"https://x.test/cat.png\" />");
}

#[test]
fn json_list_default_markup() {
    let mut gc = test_context();
    let mut ctx = TemplateContext::new();
    ctx.set_records(
        String::from("items"),
        vec![
            record(&[("title", "One"), ("description", "first")]),
            record(&[("title", "Two")]),
        ],
    );
    let out = render_text(&mut gc, &mut ctx, "{{json_list}}");
    assert_eq!(
        out,
        "<ul>\n<li><h3>One</h3><p>first</p></li>\n<li><h3>Two</h3></li>\n</ul>"
    );
}

#[test]
fn registering_a_custom_name_binds_a_builtin() {
    let mut gc = test_context();
    gc.register_function(String::from("shout"), Builtin::Uppercase);
    let mut ctx = TemplateContext::new();
    let out = render_text(&mut gc, &mut ctx, "{{shout hey}}");
    assert_eq!(out, "HEY");
}

#[test]
fn page_renders_through_its_layout() {
    let mut files = StrMap::new();
    files.insert(
        String::from("templates/default.tpl.html"),
        String::from("---\nlayout: \"\"\n---\n<html>{{ content }}</html>"),
    );
    files.insert(
        String::from("index.md"),
        String::from("---\ntitle: Home\n---\n# Hello"),
    );
    let mut cfg = Config::default_config();
    cfg.input_dir = String::new();
    cfg.output_dir = String::from("out");
    let mut gc = GlobalContext::new_with_defaults(cfg, files, String::from("rev0"));
    let (out_path, html, _loc) = gc.build_and_render_page("index.md", 8).unwrap();
    assert_eq!(out_path, "out/index.html");
    assert!(html.starts_with("<html>"), "html was: {}", html);
    assert!(html.contains("<h1>Hello</h1>"), "html was: {}", html);
    assert!(html.ends_with("</html>"), "html was: {}", html);
}

#[test]
fn front_matter_interpolates_into_page() {
    let mut files = StrMap::new();
    files.insert(
        String::from("index.md"),
        String::from("---\nlayout: \"\"\ngreeting: hi\n---\n{{greeting}} world"),
    );
    let mut cfg = Config::default_config();
    cfg.input_dir = String::new();
    let mut gc = GlobalContext::new_with_defaults(cfg, files, String::from("rev0"));
    let (_p, html, _l) = gc.build_and_render_page("index.md", 8).unwrap();
    assert!(html.contains("hi world"), "html was: {}", html);
}

#[test]
fn markdown_links_are_rewritten_against_the_base() {
    let mut files = StrMap::new();
    files.insert(
        String::from("index.md"),
        String::from("---\nlayout: \"\"\n---\n[go](/p)"),
    );
    let mut cfg = Config::default_config();
    cfg.input_dir = String::new();
    let mut gc = GlobalContext::new_with_defaults(cfg, files, String::from("rev0"));
    gc.site_strings.insert(String::from("site.url"), String::from("https://x.test"));
    let (_p, html, _l) = gc.build_and_render_page("index.md", 8).unwrap();
    assert!(html.contains("https://x.test/p"), "html was: {}", html);
}

#[test]
fn bad_front_matter_on_a_page_is_an_error() {
    let mut files = StrMap::new();
    files.insert(
        String::from("index.md"),
        String::from("---\n{nonsense\n---\nbody"),
    );
    let mut cfg = Config::default_config();
    cfg.input_dir = String::new();
    let mut gc = GlobalContext::new_with_defaults(cfg, files, String::from("rev0"));
    match gc.build_page("index.md") {
        Err(BuildError::BadFrontMatter { path, .. }) => assert_eq!(path, "index.md"),
        _ => panic!("expected a front-matter error"),
    }
}

#[test]
fn missing_page_file_is_an_error() {
    let mut gc = test_context();
    match gc.build_page("gone.md") {
        Err(BuildError::MissingFile { path }) => assert_eq!(path, "gone.md"),
        _ => panic!("expected a missing-file error"),
    }
}

#[test]
fn list_md_builds_and_renders_each_page() {
    let mut files = StrMap::new();
    files.insert(
        String::from("posts/a.md"),
        String::from("---\nlayout: \"\"\n---\nalpha"),
    );
    files.insert(
        String::from("posts/b.md"),
        String::from("---\nlayout: \"\"\n---\nbeta"),
    );
    let mut cfg = Config::default_config();
    cfg.input_dir = String::new();
    let mut gc = GlobalContext::new_with_defaults(cfg, files, String::from("rev0"));
    let mut ctx = TemplateContext::new();
    let out = render_text(&mut gc, &mut ctx, "{{list_md posts}}");
    assert!(out.contains("alpha"), "out was: {}", out);
    assert!(out.contains("beta"), "out was: {}", out);
}

#[test]
fn site_data_scalars_become_constants() {
    let mut gc = test_context();
    let ok = gc.load_site_data("site.url: https://x.test\nflag: true\ncount: 3\n");
    assert!(ok);
    assert_eq!(gc.site_strings.get("site.url").unwrap(), "https://x.test");
    assert_eq!(gc.site_strings.get("flag").unwrap(), "true");
    // a non-string, non-boolean scalar is left out
    assert!(gc.site_strings.get("count").is_none());
}

#[test]
fn site_strings_substitute_at_the_root() {
    let mut gc = test_context();
    gc.site_strings.insert(String::from("site.name"), String::from("Meow"));
    let ctx = TemplateContext::new();
    let out = apply_substitutions(String::from("Welcome to {{site.name}}!"), &ctx, &gc.site_strings);
    assert_eq!(out, "Welcome to Meow!");
}

#[test]
fn build_revision_is_seeded() {
    let gc = test_context();
    assert_eq!(gc.site_strings.get("build_revision").unwrap(), "rev0");
}
