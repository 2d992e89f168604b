use typeset::config::{Config, SCHEMA_VERSION};
use typeset::depth::parse_count;
use typeset::html::document_html;
use typeset::index::{expand_index, IndexError};
use typeset::posts::{sort_posts, Post, Stamp};
use typeset::resolve::{resolve, ResolveError};
use typeset::site::{
    build_index, count_unknown, make_post, render_post, render_posts, select_inputs, split_post,
    PostError,
};
use typeset::slots::{fill_title, SlotKind};
use typeset::tree::{Attr, Node};

fn attr(name: &str, value: &str) -> Attr {
    Attr { name: name.to_string(), value: value.to_string() }
}

fn el(name: &str, attrs: Vec<Attr>, children: Vec<Node>) -> Node {
    Node::element(name.to_string(), attrs, children)
}

fn text(s: &str) -> Node {
    Node::Text { text: s.to_string() }
}

fn doc(children: Vec<Node>) -> Node {
    el("", vec![], children)
}

fn marker(kind: &str) -> Node {
    el("meta", vec![attr("typeset", kind)], vec![])
}

fn post(id: &str, title: &str, secs: i64) -> Post {
    Post {
        id: id.to_string(),
        title: title.to_string(),
        body: format!("<p>{}</p>", id),
        published: Stamp { secs, nanos: 0 },
    }
}

fn template() -> Node {
    doc(vec![el(
        "html",
        vec![],
        vec![
            el(
                "head",
                vec![],
                vec![el(
                    "meta",
                    vec![attr("typeset", "page-title"), attr("content", "My Blog - $")],
                    vec![],
                )],
            ),
            el(
                "body",
                vec![],
                vec![
                    el("h1", vec![], vec![marker("title")]),
                    el("time", vec![], vec![marker("date")]),
                    el("main", vec![], vec![marker("body")]),
                ],
            ),
        ],
    )])
}

fn list_index() -> Node {
    doc(vec![el(
        "ul",
        vec![],
        vec![el(
            "li",
            vec![],
            vec![el(
                "meta",
                vec![attr("typeset", "index-entry"), attr("content", "1")],
                vec![],
            )],
        )],
    )])
}

#[test]
fn page_title_substitution() {
    assert_eq!(fill_title("My Blog - $", "Hello"), "My Blog - Hello");
    let d = doc(vec![el(
        "meta",
        vec![attr("typeset", "page-title"), attr("content", "My Blog - $")],
        vec![],
    )]);
    let out = resolve(&d, &post("a", "Hello", 0), "%Y").unwrap();
    assert_eq!(document_html(&out), "<title>My Blog - Hello</title>");
}

#[test]
fn fill_title_replaces_every_dollar() {
    assert_eq!(fill_title("$ and $", "x"), "x and x");
    assert_eq!(fill_title("", "x"), "");
    assert_eq!(fill_title("none", "x"), "none");
}

#[test]
fn one_page_per_post_without_open_markers() {
    let posts = vec![post("a", "First", 100), post("b", "Second", 200), post("c", "Third", 300)];
    let pages = render_posts(&template(), &posts, "%Y-%m-%d").unwrap();
    assert_eq!(pages.len(), 3);
    for (page, p) in pages.iter().zip(posts.iter()) {
        assert!(!page.contains("typeset"));
        assert!(page.contains(&format!("<title>My Blog - {}</title>", p.title)));
        assert!(page.contains(&format!("<h1>{}</h1>", p.title)));
        assert!(page.contains(&p.body));
    }
    assert!(pages[0].contains("<time>1970-01-01</time>"));
}

#[test]
fn whole_page_is_written() {
    let page = render_post(&template(), &post("a", "T", 86400), "%Y-%m-%d").unwrap();
    assert_eq!(
        page,
        "<html><head><title>My Blog - T</title></head><body><h1>T</h1><time>1970-01-02</time><main><p>a</p></main></body></html>"
    );
}

#[test]
fn date_round_trip() {
    let fmt = "%Y-%m-%d %H:%M:%S";
    let d = doc(vec![marker("date")]);
    let p = post("a", "T", 1_700_000_000);
    let written = document_html(&resolve(&d, &p, fmt).unwrap());
    assert_eq!(written, "2023-11-14 22:13:20");
    let back = make_post("a".to_string(), "T".to_string(), &written, "", fmt).unwrap();
    assert_eq!(back.published, p.published);
}

#[test]
fn index_lists_posts_newest_first() {
    let posts = vec![post("old", "Old", 100), post("new", "New", 300), post("mid", "Mid", 200)];
    let out = build_index(list_index(), &posts).unwrap();
    assert_eq!(
        out,
        "<ul><li><a href=\"./new.html\">New</a>\n</li><li><a href=\"./mid.html\">Mid</a>\n</li><li><a href=\"./old.html\">Old</a>\n</li></ul>"
    );
    assert_eq!(out.matches("<a ").count(), 3);
    assert!(!out.contains("index-entry"));
}

#[test]
fn index_without_posts_is_empty() {
    let out = build_index(list_index(), &vec![]).unwrap();
    assert_eq!(out, "<ul></ul>");
}

#[test]
fn index_depth_zero_replaces_marker() {
    let d = doc(vec![el("p", vec![], vec![marker("index-entry")])]);
    let out = expand_index(d, &vec![post("x", "X", 1)]).unwrap();
    assert_eq!(document_html(&out), "<p><a href=\"./x.html\">X</a>\n</p>");
}

#[test]
fn index_depth_too_large() {
    let d = doc(vec![el(
        "meta",
        vec![attr("typeset", "index-entry"), attr("content", "3")],
        vec![],
    )]);
    assert_eq!(expand_index(d, &vec![post("x", "X", 1)]).err(), Some(IndexError::DepthOutOfRange));
}

#[test]
fn unknown_marker_kept_and_counted() {
    let d = doc(vec![el("div", vec![], vec![marker("bogus"), marker("title")])]);
    assert_eq!(count_unknown(&d), 1);
    let out = resolve(&d, &post("a", "T", 0), "%Y").unwrap();
    assert_eq!(document_html(&out), "<div><meta typeset=\"bogus\">T</div>");
}

#[test]
fn missing_content_is_an_error() {
    let d = doc(vec![marker("page-title")]);
    assert_eq!(resolve(&d, &post("a", "T", 0), "%Y").err(), Some(ResolveError::MissingContent));
}

#[test]
fn invalid_time_format_is_an_error() {
    let d = doc(vec![marker("date")]);
    assert_eq!(resolve(&d, &post("a", "T", 0), "%Q").err(), Some(ResolveError::BadDate));
}

#[test]
fn ties_keep_discovery_order() {
    let posts = vec![post("a", "A", 5), post("b", "B", 7), post("c", "C", 5), post("d", "D", 7)];
    let ids: Vec<String> = sort_posts(&posts).into_iter().map(|p| p.id).collect();
    assert_eq!(ids, vec!["b", "d", "a", "c"]);
}

#[test]
fn nanoseconds_order_posts() {
    let mut a = post("a", "A", 5);
    a.published.nanos = 1;
    let b = post("b", "B", 5);
    let ids: Vec<String> = sort_posts(&vec![b, a]).into_iter().map(|p| p.id).collect();
    assert_eq!(ids, vec!["a", "b"]);
}

#[test]
fn counts_are_read() {
    assert_eq!(parse_count("2"), Some(2));
    assert_eq!(parse_count("+12"), Some(12));
    assert_eq!(parse_count(""), None);
    assert_eq!(parse_count("+"), None);
    assert_eq!(parse_count("-1"), None);
    assert_eq!(parse_count("1x"), None);
    assert_eq!(parse_count("99999999999999999999999"), None);
}

#[test]
fn slot_kinds_are_read() {
    assert_eq!(SlotKind::parse("page-title"), SlotKind::PageTitle);
    assert_eq!(SlotKind::parse("date"), SlotKind::Date);
    assert_eq!(SlotKind::parse("index-entry"), SlotKind::IndexEntry);
    assert_eq!(SlotKind::parse("bogus"), SlotKind::Unknown);
}

#[test]
fn text_and_attributes_are_escaped() {
    let d = doc(vec![
        el("p", vec![attr("title", "a\"b&c")], vec![text("1 < 2 & 3 > 0")]),
        el("script", vec![], vec![text("if (a < b) {}")]),
        Node::Raw { markup: "<!-- raw -->".to_string() },
    ]);
    assert_eq!(
        document_html(&d),
        "<p title=\"a&quot;b&amp;c\">1 &lt; 2 &amp; 3 &gt; 0</p><script>if (a < b) {}</script><!-- raw -->"
    );
}

#[test]
fn post_files_are_split() {
    let (head, body) = split_post("title = \"x\"\n\n# Body\n\nmore").unwrap();
    assert_eq!(head, "title = \"x\"");
    assert_eq!(body, "# Body\n\nmore");
    assert_eq!(split_post("no blank line\nhere"), None);
}

#[test]
fn posts_are_made() {
    let p = make_post(
        "hello".to_string(),
        "Hello".to_string(),
        "2024-01-02",
        "# Hi",
        "%Y-%m-%d",
    );
    assert_eq!(p.err(), Some(PostError::BadDate));
    let p = make_post(
        "hello".to_string(),
        "Hello".to_string(),
        "2024-01-02 03:04:05",
        "# Hi",
        "%Y-%m-%d %H:%M:%S",
    )
    .unwrap();
    assert_eq!(p.body, "<h1>Hi</h1>");
    assert_eq!(p.published, Stamp { secs: 1_704_164_645, nanos: 0 });
}

#[test]
fn inputs_are_selected() {
    let names = vec!["a.md".to_string(), "b.txt".to_string(), "c.md".to_string()];
    assert_eq!(select_inputs(r"\.md$", &names), Some(vec!["a.md".to_string(), "c.md".to_string()]));
    assert_eq!(select_inputs("(", &names), None);
}

#[test]
fn schema_is_checked() {
    let mut c = Config {
        schema_version: SCHEMA_VERSION,
        name: String::new(),
        index: String::new(),
        template: String::new(),
        ref_from_index: String::new(),
        input: String::new(),
        output: String::new(),
        time_format: String::new(),
    };
    assert!(c.schema_matches());
    c.schema_version = 2;
    assert!(!c.schema_matches());
}
