use render::html::HTML5Doctype;
use render::html_escaping::escape_html;
use render::{render_to_string, Fragment, Node, Raw, Render, Renderable, SimpleElement};

fn element<T: Render>(tag: &str, contents: Option<T>) -> SimpleElement<T> {
    SimpleElement { tag_name: tag.to_string(), attributes: None, contents, self_closing: false }
}

fn escape(s: &str) -> String {
    let mut out = String::new();
    escape_html(s, &mut out);
    out
}

#[test]
fn decodes_html() {
    let rendered = "<Hello />".render();
    assert_eq!(rendered, "&lt;Hello /&gt;");
}

#[test]
fn allows_raw_text() {
    let rendered = Raw::from("<Hello />").render();
    assert_eq!(rendered, "<Hello />");
}

#[test]
fn escape_html_documented_example() {
    let mut buf = String::new();
    escape_html(r#"<hello world="attribute" />"#, &mut buf);
    assert_eq!(buf, "&lt;hello world=&quot;attribute&quot; /&gt;");
}

#[test]
fn escape_maps_each_markup_character() {
    assert_eq!(escape(">"), "&gt;");
    assert_eq!(escape("<"), "&lt;");
    assert_eq!(escape("\""), "&quot;");
    assert_eq!(escape("&"), "&amp;");
    assert_eq!(escape("'"), "&apos;");
    assert_eq!(escape(""), "");
}

#[test]
fn escape_leaves_safe_text_alone() {
    let s = "plain text, digits 0123 and unicode é ü 漢字";
    assert_eq!(escape(s), s);
}

#[test]
fn escape_round_trip_example() {
    let out = escape(r#"<a href="x">"#);
    assert_eq!(out, "&lt;a href=&quot;x&quot;&gt;");
    assert!(!out.contains('<') && !out.contains('>') && !out.contains('"') && !out.contains('\''));
}

#[test]
fn escape_appends_to_existing_output() {
    let mut out = String::from("a");
    escape_html("&b", &mut out);
    assert_eq!(out, "a&amp;b");
}

#[test]
fn unit_renders_nothing() {
    assert_eq!(Render::render(&()), "");
}

#[test]
fn pairs_and_triples_render_in_order() {
    assert_eq!(("a", "b").render(), "ab");
    assert_eq!((("x", "y"), "z").render(), "xyz");
    assert_eq!(("x", ("y", "z")).render(), "xyz");
    assert_eq!(("x", "y", "z").render(), "xyz");
}

#[test]
fn some_none() {
    let yes: Option<&str> = Some("Yes");
    let no: Option<&str> = None;
    assert_eq!(Fragment { children: yes }.render(), "Yes");
    assert_eq!(Fragment { children: no }.render(), "");
}

#[test]
fn result_renders_either_side() {
    let ok: Result<&str, &str> = Ok("fine");
    let err: Result<&str, &str> = Err("<failed>");
    assert_eq!(ok.render(), "fine");
    assert_eq!(err.render(), "&lt;failed&gt;");
}

#[test]
fn number() {
    let num: i32 = 42;
    assert_eq!(element("p", Some(num)).render(), "<p>42</p>");
}

#[test]
fn integers_render_in_base_ten() {
    assert_eq!(0u8.render(), "0");
    assert_eq!(255u8.render(), "255");
    assert_eq!((-7i8).render(), "-7");
    assert_eq!(i8::MIN.render(), "-128");
    assert_eq!(i64::MIN.render(), "-9223372036854775808");
    assert_eq!(u64::MAX.render(), "18446744073709551615");
    assert_eq!(i128::MIN.render(), "-170141183460469231731687303715884105728");
    assert_eq!(u128::MAX.render(), "340282366920938463463374607431768211455");
    assert_eq!(Render::render(&1000usize), "1000");
    assert_eq!((-10isize).render(), "-10");
    assert_eq!(65535u16.render(), "65535");
    assert_eq!((-32768i16).render(), "-32768");
    assert_eq!(4000000000u32.render(), "4000000000");
}

#[test]
fn vec() {
    let list = vec!["Mouse", "Rat", "Hamster"];
    let items: Vec<SimpleElement<&str>> = list.into_iter().map(|text| element("li", Some(text))).collect();
    assert_eq!(element("ul", Some(items)).render(), "<ul><li>Mouse</li><li>Rat</li><li>Hamster</li></ul>");
}

#[test]
fn empty_vec_renders_nothing() {
    let items: Vec<&str> = Vec::new();
    assert_eq!(items.render(), "");
}

fn page<C: Render>(title: &str, children: C) -> Fragment<(HTML5Doctype, SimpleElement<(SimpleElement<SimpleElement<String>>, SimpleElement<C>)>)> {
    Fragment {
        children: (
            HTML5Doctype,
            element(
                "html",
                Some((element("head", Some(element("title", Some(title.to_string())))), element("body", Some(children)))),
            ),
        ),
    }
}

#[test]
fn test() {
    let actual = page("Home", format!("Welcome, {}", "Gal")).render();
    let expected = [
        "<!DOCTYPE html>",
        "<html>",
        "<head><title>Home</title></head>",
        "<body>",
        "Welcome, Gal",
        "</body>",
        "</html>",
    ]
    .join("");
    assert_eq!(actual, expected);
}

#[test]
fn externals_test() {
    let children = (element("h1", Some("Foo")), format!("Welcome, {}", "Gal"));
    let actual = page("Home", children).render();
    let expected = [
        "<!DOCTYPE html>",
        "<html>",
        "<head><title>Home</title></head>",
        "<body>",
        "<h1>Foo</h1>",
        "Welcome, Gal",
        "</body>",
        "</html>",
    ]
    .join("");
    assert_eq!(actual, expected);
}

#[test]
fn doctype_renders_declaration() {
    assert_eq!(HTML5Doctype.render(), "<!DOCTYPE html>");
}

#[test]
fn simple_element_attributes_are_escaped() {
    let el: SimpleElement<()> = SimpleElement {
        tag_name: "a".to_string(),
        attributes: Some(vec![("href".to_string(), "x\"y".to_string()), ("title".to_string(), "<t>".to_string())]),
        contents: None,
        self_closing: false,
    };
    assert_eq!(el.render(), r#"<a href="x&quot;y" title="&lt;t&gt;"></a>"#);
}

#[test]
fn self_closing_and_paired_differ() {
    let closed: SimpleElement<()> = SimpleElement { tag_name: "br".to_string(), attributes: None, contents: None, self_closing: true };
    let paired: SimpleElement<()> = SimpleElement { tag_name: "br".to_string(), attributes: None, contents: None, self_closing: false };
    assert_eq!(closed.render(), "<br/>");
    assert_eq!(paired.render(), "<br></br>");
    assert_ne!(closed.render(), paired.render());
}

#[test]
fn fragment_is_transparent() {
    let a = element("a", Some("1"));
    let b: SimpleElement<()> = SimpleElement { tag_name: "b".to_string(), attributes: None, contents: None, self_closing: true };
    let ra = element("a", Some("1")).render();
    let rb = b.render();
    let b2: SimpleElement<()> = SimpleElement { tag_name: "b".to_string(), attributes: None, contents: None, self_closing: true };
    assert_eq!(Fragment { children: (a, b2) }.render(), format!("{}{}", ra, rb));
}

#[test]
fn render_to_string_matches_render() {
    assert_eq!(render_to_string(&("a", 1u8)), "a1");
}

#[test]
fn renderable_composes() {
    assert_eq!(Renderable::render(&()), "");
    assert_eq!(Renderable::render(&(1usize, 2usize)), "12");
    assert_eq!(Renderable::render(&(1usize, 2usize, 3usize)), "123");
    assert_eq!(Renderable::render(&(1usize, 2usize, 3usize, 4usize)), "1234");
    let none: Option<usize> = None;
    assert_eq!(Renderable::render(&none), "");
    assert_eq!(Renderable::render(&Some(7usize)), "7");
    let err: Result<usize, usize> = Err(9);
    assert_eq!(Renderable::render(&err), "9");
}

#[test]
fn node_tree_renders() {
    let n = Node::Element {
        tag: "p".to_string(),
        attributes: vec![("class".to_string(), "c&d".to_string())],
        self_closing: false,
        contents: Box::new(Node::Sequence(vec![
            Node::Text("a<b".to_string()),
            Node::Raw("<br/>".to_string()),
            Node::Number(-3),
            Node::Optional(None),
            Node::Optional(Some(Box::new(Node::Text("Yes".to_string())))),
            Node::Fallible(Err(Box::new(Node::Text("e".to_string())))),
            Node::Fragment(Box::new(Node::Unit)),
        ])),
    };
    assert_eq!(n.render(), r#"<p class="c&amp;d">a&lt;b<br/>-3Yese</p>"#);
}

#[test]
fn optional_node_scenario() {
    assert_eq!(Node::Optional(None).render(), "");
    assert_eq!(Node::Optional(Some(Box::new(Node::Text("Yes".to_string())))).render(), "Yes");
}
