use auxv_pages::emojis::{pattern_from_file_name, strip_svg_header, svg_tag, EmojiParser, SvgAsset};
use auxv_pages::error::StartError;
use auxv_pages::markdown::{
    document_url, generate_markdown_title, is_markdown_path, parse_head, plain_text,
    render_markdown, short_excerpt,
};
use auxv_pages::search::{
    escape_html, get_match_context, search, search_summaries, SearchQuery,
};
use auxv_pages::slug::generate_slug;
use auxv_pages::state::{ServerState, SourceFile};
use auxv_pages::template::render_template;
use auxv_pages::walk::{DirEntry, DirectoryWalk};

const TEMPLATE: &str = "<title>{{title}}</title><main>{{html}}</main>";

const SVG: &str = "<?xml version=\"1.0\"?>\n<!-- drawn by hand -->\n<svg viewBox=\"0 0 1 1\"><path/></svg>\n";

fn file(path: &str, text: &str) -> SourceFile {
    SourceFile { path: path.to_string(), text: text.to_string() }
}

fn no_emojis() -> EmojiParser {
    EmojiParser::new(Vec::new()).unwrap()
}

fn flag_emojis() -> EmojiParser {
    EmojiParser::new(vec![
        SvgAsset { file_name: "1f1fa-1f1f8.svg".to_string(), svg: SVG.to_string() },
        SvgAsset { file_name: "1f1fa.svg".to_string(), svg: SVG.to_string() },
    ])
    .unwrap()
}

fn urls(state: &ServerState) -> Vec<String> {
    state.pages().iter().map(|p| p.url.clone()).collect()
}

#[test]
fn heading_slugs() {
    assert_eq!(generate_slug("Intro"), "intro");
    assert_eq!(generate_slug("Intro & Outro"), "intro-outro");
    assert_eq!(generate_slug(""), "");
    assert_eq!(generate_slug("&&"), "");
}

#[test]
fn heading_slug_trims_and_collapses_space() {
    assert_eq!(generate_slug("  Hello,   World!  "), "hello-world");
    assert_eq!(generate_slug("Tab\tSeparated"), "tab-separated");
    assert_eq!(generate_slug("ÄBC 123"), "äbc-123");
}

#[test]
fn rendered_headings_carry_slugs() {
    let html = render_markdown("# Intro\n\n## Intro & *Outro*\n\n# Intro\n");
    assert_eq!(html.matches("<h1 id=\"intro\">Intro</h1>").count(), 2);
    assert!(html.contains("<h2 id=\"intro-outro\">Intro &amp; <em>Outro</em></h2>"));
}

#[test]
fn rendered_markdown_keeps_tables_and_strikethrough() {
    let html = render_markdown("| a | b |\n|---|---|\n| 1 | 2 |\n\n~~gone~~\n");
    assert!(html.contains("<table>"));
    assert!(html.contains("<del>gone</del>"));
}

#[test]
fn leftmost_longest_flag() {
    let parser = flag_emojis();
    let out = parser.inline_from_directory("a\u{1F1FA}\u{1F1F8}b");
    assert_eq!(out.matches("<svg class=\"emoji\"").count(), 1);
    assert!(out.contains("alt=\"\u{1F1FA}\u{1F1F8}\""));
    assert!(out.starts_with('a'));
    assert!(out.ends_with("</svg>b"));
    assert!(!out.contains('\u{1F1F8}') || out.contains("alt=\"\u{1F1FA}\u{1F1F8}\""));
}

#[test]
fn shorter_pattern_alone() {
    let parser = flag_emojis();
    let out = parser.inline_from_directory("x\u{1F1FA}y");
    assert_eq!(out.matches("<svg class=\"emoji\"").count(), 1);
    assert!(out.contains("alt=\"\u{1F1FA}\""));
}

#[test]
fn text_without_patterns_is_unchanged() {
    let parser = flag_emojis();
    assert_eq!(parser.inline_from_directory("plain <p>text</p>"), "plain <p>text</p>");
}

#[test]
fn emoji_tag_markup() {
    let tag = svg_tag("\u{1F600}", SVG);
    assert_eq!(
        tag,
        "<svg class=\"emoji\" draggable=\"false\" style=\"height: 1em; width: 1em; margin: 0 .05em 0 .1em; vertical-align: -0.1em;\" alt=\"\u{1F600}\" viewBox=\"0 0 1 1\"><path/></svg>"
    );
}

#[test]
fn svg_header_lines_are_dropped() {
    assert_eq!(strip_svg_header("  <?xml a?>\r\n<svg>\r\n <!-- c -->\n</svg>"), "<svg>\n</svg>");
    assert_eq!(strip_svg_header(""), "");
}

#[test]
fn pattern_from_asset_names() {
    assert_eq!(pattern_from_file_name("1f1fa-1f1f8.svg"), Some("\u{1F1FA}\u{1F1F8}".to_string()));
    assert_eq!(pattern_from_file_name("263A-zz-+41.svg"), Some("\u{263A}A".to_string()));
    assert_eq!(pattern_from_file_name("d800-110000.svg"), Some(String::new()));
    assert_eq!(pattern_from_file_name("1f600.png"), None);
}

#[test]
fn build_keys_exactly_documents() {
    let files = vec![file("a.md", "# A\n"), file("b/c.md", "text\n"), file("b/notes.txt", "x")];
    let state = ServerState::new(files, TEMPLATE, &no_emojis()).unwrap();
    assert_eq!(urls(&state), vec!["a".to_string(), "b/c".to_string()]);
    assert!(state.lookup("a").is_some());
    assert!(state.lookup("b/c").is_some());
    assert!(state.lookup("b/notes").is_none());
}

#[test]
fn duplicate_url_fails_build() {
    let files = vec![file("x.md", "one\n"), file("x/index.md", "two\n")];
    match ServerState::new(files, TEMPLATE, &no_emojis()) {
        Err(StartError::DuplicateUrl(url)) => assert_eq!(url, "x"),
        _ => panic!("expected a duplicate url"),
    }
}

#[test]
fn root_index_keeps_its_name() {
    let files = vec![file("index.md", "home\n"), file("docs/index.md", "docs\n")];
    let state = ServerState::new(files, TEMPLATE, &no_emojis()).unwrap();
    assert_eq!(urls(&state), vec!["index".to_string(), "docs".to_string()]);
}

#[test]
fn template_without_placeholder_fails_build() {
    let files = vec![file("a.md", "a\n")];
    assert!(matches!(
        ServerState::new(files, "<main>{{html}}</main>", &no_emojis()),
        Err(StartError::TemplateError)
    ));
    assert!(matches!(render_template("{{title}}", "h", "t"), Err(StartError::TemplateError)));
}

#[test]
fn template_substitution() {
    let page = render_template("{{title}}|{{html}}|{{html}}|{{other}}", "<p>x</p>", "T").unwrap();
    assert_eq!(page, "T|<p>x</p>|<p>x</p>|{{other}}");
}

#[test]
fn page_fields() {
    let files = vec![file("my-page_name.md", "# Intro\n\nHello \u{1F1FA}\u{1F1F8} world.\n")];
    let state = ServerState::new(files, TEMPLATE, &flag_emojis()).unwrap();
    let page = state.lookup("my-page_name").unwrap();
    assert_eq!(page.title, "My Page Name");
    assert_eq!(page.raw_text, "Intro\n\nHello \u{1F1FA}\u{1F1F8} world.");
    assert_eq!(page.short, "Intro\n\nHello \u{1F1FA}\u{1F1F8} world....");
    assert!(page.html.starts_with("<title>My Page Name</title><main><h1 id=\"intro\">Intro</h1>"));
    assert!(page.html.contains("alt=\"\u{1F1FA}\u{1F1F8}\""));
}

#[test]
fn title_derivation() {
    assert_eq!(generate_markdown_title("my-page_name.md"), "My Page Name");
    assert_eq!(generate_markdown_title("dir/hELLO--wORLD.md"), "Hello  World");
    assert_eq!(generate_markdown_title("ß-x.md"), "SS X");
}

#[test]
fn document_paths() {
    assert!(is_markdown_path("a.md"));
    assert!(is_markdown_path("b/c.md"));
    assert!(!is_markdown_path("b/.md"));
    assert!(!is_markdown_path("notes.txt"));
    assert_eq!(document_url("b/c.md"), "b/c");
    assert_eq!(document_url("x/index.md"), "x");
    assert_eq!(document_url("index.md"), "index");
}

#[test]
fn excerpt_is_bounded() {
    let long = "x".repeat(60);
    assert_eq!(short_excerpt(&long), format!("{}...", "x".repeat(50)));
    assert_eq!(short_excerpt("short"), "short...");
    assert_eq!(plain_text("**Hello**"), "Hello");
}

#[test]
fn search_misses_give_nothing() {
    let files = vec![file("a.md", "# Intro\n\nSome text.\n"), file("b.md", "More.\n")];
    let state = ServerState::new(files, TEMPLATE, &no_emojis()).unwrap();
    assert!(search(&state, "zzz-not-present").is_empty());
}

#[test]
fn search_snippet_from_raw_text() {
    let files = vec![
        file("a.md", "Some words before the Intro and many more words after it here.\n"),
        file("b.md", "Nothing to see.\n"),
    ];
    let state = ServerState::new(files, TEMPLATE, &no_emojis()).unwrap();
    let hits = search(&state, "Intro");
    assert_eq!(hits.len(), 1);
    assert_eq!(hits[0].path, "a");
    assert_eq!(hits[0].title, "A");
    assert_eq!(
        hits[0].matched,
        "me words before the <b>Intro</b> and many more words after it "
    );
}

#[test]
fn search_prefers_title_then_url() {
    let files = vec![file("guide.md", "guide body\n"), file("b/setup-guide.md", "nothing\n")];
    let state = ServerState::new(files, TEMPLATE, &no_emojis()).unwrap();
    let hits = search(&state, "Guide");
    assert_eq!(hits.len(), 2);
    assert_eq!(hits[0].matched, "<b>Guide</b>");
    assert_eq!(hits[1].matched, "Setup <b>Guide</b>");
    let by_url = search(&state, "b/setup");
    assert_eq!(by_url.len(), 1);
    assert_eq!(by_url[0].matched, "<b>b/setup</b>-guide");
}

#[test]
fn search_summaries_list_excerpts() {
    let files = vec![file("a.md", "alpha beta\n"), file("b.md", "gamma\n")];
    let state = ServerState::new(files, TEMPLATE, &no_emojis()).unwrap();
    let hits = search_summaries(&state, &SearchQuery { q: "beta".to_string() });
    assert_eq!(hits.len(), 1);
    assert_eq!(hits[0].url, "a");
    assert_eq!(hits[0].short, "alpha beta...");
}

#[test]
fn rebuild_is_deterministic() {
    let make = || {
        vec![
            file("a.md", "# One\n\ntext \u{1F1FA}\n"),
            file("b/c.md", "## Two\n"),
            file("b/d.md", "three\n"),
        ]
    };
    let first = ServerState::new(make(), TEMPLATE, &flag_emojis()).unwrap();
    let second = ServerState::new(make(), TEMPLATE, &flag_emojis()).unwrap();
    assert_eq!(urls(&first), urls(&second));
    let html = |s: &ServerState| s.pages().iter().map(|p| p.html.clone()).collect::<Vec<_>>();
    assert_eq!(html(&first), html(&second));
}

#[test]
fn escaping() {
    assert_eq!(escape_html("<tag> & \"q\" it's"), "&lt;tag&gt; &amp; &quot;q&quot; it&apos;s");
    assert_eq!(escape_html(""), "");
}

#[test]
fn match_context_windows() {
    assert_eq!(get_match_context("a<b>c", "<b>"), "a<b>&lt;b&gt;</b>c");
    let content = format!("{}KEY{}", "é".repeat(25), "ü".repeat(35));
    assert_eq!(
        get_match_context(&content, "KEY"),
        format!("{}<b>KEY</b>{}", "é".repeat(20), "ü".repeat(30))
    );
}

#[test]
fn head_block() {
    assert_eq!(parse_head("<head>\n<meta>\n</head>\nbody"), Some(("<meta>", "body")));
    assert_eq!(parse_head("no head"), None);
    assert_eq!(parse_head("<head>\nunterminated"), None);
}

#[test]
fn walk_is_breadth_first_and_sorted() {
    let mut walk = DirectoryWalk::new();
    assert_eq!(walk.next_directory(), Some(String::new()));
    walk.visit(
        "",
        vec![
            DirEntry { name: "z.md".to_string(), is_dir: false },
            DirEntry { name: "b".to_string(), is_dir: true },
            DirEntry { name: "a.md".to_string(), is_dir: false },
            DirEntry { name: "a".to_string(), is_dir: true },
        ],
    );
    assert_eq!(walk.next_directory(), Some("a".to_string()));
    walk.visit("a", vec![DirEntry { name: "x.md".to_string(), is_dir: false }]);
    assert_eq!(walk.next_directory(), Some("b".to_string()));
    walk.visit("b", Vec::new());
    assert_eq!(walk.next_directory(), None);
    assert_eq!(walk.files(), &vec!["a.md".to_string(), "z.md".to_string(), "a/x.md".to_string()]);
}

#[test]
fn emoji_parser_skips_other_files() {
    let parser = EmojiParser::new(vec![
        SvgAsset { file_name: "readme.txt".to_string(), svg: "x".to_string() },
        SvgAsset { file_name: "263a.svg".to_string(), svg: SVG.to_string() },
    ])
    .unwrap();
    let out = parser.inline_from_directory("a\u{263A}b");
    assert_eq!(out.matches("<svg class=\"emoji\"").count(), 1);
    assert!(out.contains("alt=\"\u{263A}\""));
    assert!(!out.contains("readme"));
}
