use render::element_attribute::{DiagnosticKind, ParseErrorKind};
use render::emit::{Components, EmitErrorKind};
use render::tags::ClosingTag;
use render::template::chars_of;
use render::{parse_template, render_template, Scope, TemplateError, Value};

fn render(source: &str) -> String {
    render_template(source, &Scope::new(), &Components::new()).unwrap()
}

fn render_in(source: &str, scope: &Scope) -> String {
    render_template(source, scope, &Components::new()).unwrap()
}

fn emit_error(source: &str, comps: &Components) -> EmitErrorKind {
    match render_template(source, &Scope::new(), comps) {
        Err(TemplateError::Emit(e)) => e.kind,
        _ => panic!("expected an emission error"),
    }
}

fn parse_error(source: &str) -> ParseErrorKind {
    match render_template(source, &Scope::new(), &Components::new()) {
        Err(TemplateError::Parse(e)) => e.kind,
        _ => panic!("expected a parse error"),
    }
}

#[test]
fn works_with_dashes() {
    assert_eq!(render(r#"<div data-id={"myid"} />"#), r#"<div data-id="myid"/>"#);
}

#[test]
fn works_with_raw() {
    let mut scope = Scope::new();
    scope.bind("hello".to_string(), Value::Raw("<Hello />".to_string()));
    assert_eq!(render_in("<div>{hello}</div>", &scope), "<div><Hello /></div>");
}

#[test]
fn works_with_raw_ident() {
    assert_eq!(render(r#"<input r#type={"text"} />"#), r#"<input type="text"/>"#);
}

#[test]
fn works_with_keywords() {
    assert_eq!(render(r#"<input type={"text"} />"#), r#"<input type="text"/>"#);
    assert_eq!(render(r#"<label for={"me"} />"#), r#"<label for="me"/>"#);
}

#[test]
fn element_ordering() {
    let actual = render(
        r#"
      <ul>
        <li>{"1"}</li>
        <li>{"2"}</li>
        <li>{"3"}</li>
      </ul>
    "#,
    );
    assert_eq!(actual, "<ul><li>1</li><li>2</li><li>3</li></ul>");

    let deep = render(
        r#"
      <div>
        <h1>{"A list"}</h1>
        <hr />
        <ul>
          <li>{"1"}</li>
          <li>{"2"}</li>
          <li>{"3"}</li>
        </ul>
      </div>
    "#,
    );
    assert_eq!(deep, "<div><h1>A list</h1><hr/><ul><li>1</li><li>2</li><li>3</li></ul></div>");
}

#[test]
fn owned_string() {
    let (kind, name) = ("alien", "Yoda");
    let mut scope = Scope::new();
    scope.bind("class".to_string(), Value::Text(format!("{}-title", kind)));
    scope.bind("greeting".to_string(), Value::Text(format!("Hello, {}", name)));
    assert_eq!(
        render_in("<h1 class={class}>\n  {greeting}\n</h1>", &scope),
        r#"<h1 class="alien-title">Hello, Yoda</h1>"#
    );
}

#[test]
fn number_in_template() {
    let mut scope = Scope::new();
    scope.bind("num".to_string(), Value::Number(42));
    assert_eq!(render_in("<p>{num}</p>", &scope), "<p>42</p>");
}

#[test]
fn list_scenario() {
    assert_eq!(render(r#"<ul><li>{"1"}</li><li>{"2"}</li></ul>"#), "<ul><li>1</li><li>2</li></ul>");
}

#[test]
fn dashed_attribute_scenario() {
    assert_eq!(render(r#"<div data-test-id={"x"} />"#), r#"<div data-test-id="x"/>"#);
}

#[test]
fn self_closing_and_paired_templates_differ() {
    assert_eq!(render("<div/>"), "<div/>");
    assert_eq!(render("<div></div>"), "<div></div>");
}

#[test]
fn fragment_renders_children_only() {
    assert_eq!(render("<>\n  <a />\n  <b />\n</>"), "<a/><b/>");
    assert_eq!(render("<></>"), "");
}

#[test]
fn three_children_keep_document_order() {
    assert_eq!(render(r#"<p>{"x"}<i/>{"z"}</p>"#), "<p>x<i/>z</p>");
}

#[test]
fn literal_text_is_collapsed_and_escaped() {
    assert_eq!(render("<p>  Hello,   big\n world  & more </p>"), "<p>Hello, big world &amp; more</p>");
    assert_eq!(render(r#"<p>{"<b>"}</p>"#), "<p>&lt;b&gt;</p>");
}

#[test]
fn punned_attribute_reads_scope() {
    let mut scope = Scope::new();
    scope.bind("class".to_string(), Value::Text("someclass".to_string()));
    assert_eq!(render_in("<div class />", &scope), r#"<div class="someclass"/>"#);
}

#[test]
fn first_binding_counts() {
    let mut scope = Scope::new();
    scope.bind("v".to_string(), Value::Text("first".to_string()));
    scope.bind("v".to_string(), Value::Text("second".to_string()));
    assert_eq!(render_in("<p>{ v }</p>", &scope), "<p>first</p>");
}

#[test]
fn duplicate_attribute_keeps_first() {
    let t = parse_template(r#"<div a={"1"} a={"2"} />"#).unwrap();
    assert_eq!(t.diagnostics.len(), 1);
    assert_eq!(t.diagnostics[0].kind, DiagnosticKind::DuplicateAttribute);
    assert_eq!(render(r#"<div a={"1"} a={"2"} />"#), r#"<div a="1"/>"#);
}

#[test]
fn closing_tag_mismatch_is_reported_and_opening_name_kept() {
    let t = parse_template(r#"<div>{"x"}</span>"#).unwrap();
    assert_eq!(t.diagnostics.len(), 1);
    assert_eq!(t.diagnostics[0].kind, DiagnosticKind::ClosingTagMismatch);
    assert_eq!(render(r#"<div>{"x"}</span>"#), "<div>x</div>");
}

#[test]
fn matching_closing_tag_gives_no_diagnostic() {
    let t = parse_template("<a::b></a::b>").unwrap();
    assert!(t.diagnostics.is_empty());
}

#[test]
fn dashed_key_on_custom_element_is_dropped() {
    let t = parse_template(r#"<><MyElement data-testid={"x"} /></>"#).unwrap();
    assert_eq!(t.diagnostics.len(), 1);
    assert_eq!(t.diagnostics[0].kind, DiagnosticKind::DashedCustomAttribute);
}

#[test]
fn dashed_punned_key_is_dropped() {
    let t = parse_template("<div this-wont-work />").unwrap();
    assert_eq!(t.diagnostics.len(), 1);
    assert_eq!(t.diagnostics[0].kind, DiagnosticKind::DashedPunnedAttribute);
    assert_eq!(render("<div this-wont-work />"), "<div/>");
}

#[test]
fn custom_elements_are_classified_by_first_letter() {
    let t = parse_template("<Heading />").unwrap();
    assert!(t.root.is_custom_element(&t.source));
    let t = parse_template("<div />").unwrap();
    assert!(!t.root.is_custom_element(&t.source));
    let t = parse_template("<html::HTML5Doctype />").unwrap();
    assert!(t.root.is_custom_element(&t.source));
    let t = parse_template("<></>").unwrap();
    assert!(t.root.is_custom_element(&t.source));
}

#[test]
fn unknown_component_is_an_error() {
    assert_eq!(emit_error("<Heading />", &Components::new()), EmitErrorKind::UnknownComponent);
}

#[test]
fn unknown_name_is_an_error() {
    assert_eq!(emit_error("<p>{missing}</p>", &Components::new()), EmitErrorKind::UnknownName);
    assert_eq!(emit_error("<p class />", &Components::new()), EmitErrorKind::UnknownName);
}

fn layout_components() -> Components {
    let mut comps = Components::new();
    let mut constants = Scope::new();
    constants.bind("doctype".to_string(), Value::Raw("<!DOCTYPE html>".to_string()));
    let page = parse_template(
        "<>{doctype}<html><head><title>{title}</title></head><body>{children}</body></html></>",
    )
    .unwrap();
    comps.register("Page".to_string(), page, constants);
    let external = parse_template(
        "<>{doctype}<html><head><title>{title}</title></head><body><h1>{subtitle}</h1>{children}</body></html></>",
    )
    .unwrap();
    let mut constants = Scope::new();
    constants.bind("doctype".to_string(), Value::Raw("<!DOCTYPE html>".to_string()));
    comps.register("ExternalPage".to_string(), external, constants);
    let heading = parse_template(r#"<h1 class={"title"}>{title}</h1>"#).unwrap();
    comps.register("Heading".to_string(), heading, Scope::new());
    comps
}

#[test]
fn page_component_template() {
    let mut scope = Scope::new();
    scope.bind("welcome".to_string(), Value::Text(format!("Welcome, {}", "Gal")));
    let actual = render_template(r#"<Page title={"Home"}>{welcome}</Page>"#, &scope, &layout_components()).unwrap();
    let expected = [
        "<!DOCTYPE html>",
        "<html>",
        "<head><title>Home</title></head>",
        "<body>",
        "Welcome, Gal",
        "</body>",
        "</html>",
    ]
    .join("");
    assert_eq!(actual, expected);
}

#[test]
fn external_page_component_template() {
    let mut scope = Scope::new();
    scope.bind("welcome".to_string(), Value::Text(format!("Welcome, {}", "Gal")));
    let actual = render_template(
        r#"<ExternalPage title={"Home"} subtitle={"Foo"}>
            {welcome}
        </ExternalPage>"#,
        &scope,
        &layout_components(),
    )
    .unwrap();
    let expected = [
        "<!DOCTYPE html>",
        "<html>",
        "<head><title>Home</title></head>",
        "<body>",
        "<h1>Foo</h1>",
        "Welcome, Gal",
        "</body>",
        "</html>",
    ]
    .join("");
    assert_eq!(actual, expected);
}

#[test]
fn component_with_fields() {
    let actual = render_template(r#"<Heading title={"Hello world!"} />"#, &Scope::new(), &layout_components()).unwrap();
    assert_eq!(actual, r#"<h1 class="title">Hello world!</h1>"#);
}

#[test]
fn component_field_escapes_as_text() {
    let actual = render_template(r#"<Heading title={"a<b"} />"#, &Scope::new(), &layout_components()).unwrap();
    assert_eq!(actual, r#"<h1 class="title">a&lt;b</h1>"#);
}

#[test]
fn component_does_not_see_callers_scope() {
    let mut scope = Scope::new();
    scope.bind("title".to_string(), Value::Text("outer".to_string()));
    match render_template("<Heading />", &scope, &layout_components()) {
        Err(TemplateError::Emit(e)) => assert_eq!(e.kind, EmitErrorKind::UnknownName),
        _ => panic!("expected an emission error"),
    }
}

#[test]
fn self_nesting_component_is_too_deep() {
    let mut comps = Components::new();
    comps.register("Loop".to_string(), parse_template("<Loop />").unwrap(), Scope::new());
    assert_eq!(emit_error("<Loop />", &comps), EmitErrorKind::TooDeep);
}

#[test]
fn parse_errors() {
    assert_eq!(parse_error("div"), ParseErrorKind::ExpectedOpenAngle);
    assert_eq!(parse_error("<div"), ParseErrorKind::ExpectedCloseAngle);
    assert_eq!(parse_error("<div>"), ParseErrorKind::UnexpectedEnd);
    assert_eq!(parse_error("<div a=1 />"), ParseErrorKind::ExpectedBlock);
    assert_eq!(parse_error("<div a={\"x\" />"), ParseErrorKind::UnclosedBlock);
    assert_eq!(parse_error("<div/> x"), ParseErrorKind::TrailingInput);
    assert_eq!(parse_error("<div></div"), ParseErrorKind::ExpectedCloseAngle);
}

#[test]
fn braces_inside_string_literals_do_not_close_blocks() {
    assert_eq!(render(r#"<p>{"}{"}</p>"#), "<p>}{</p>");
}

#[test]
fn malformed_expressions_are_parse_errors() {
    assert_eq!(parse_error("<p>{1 +}</p>"), ParseErrorKind::MalformedExpression);
    assert_eq!(parse_error("<div a={let} />"), ParseErrorKind::MalformedExpression);
}

#[test]
fn rust_blocks_are_accepted_as_expressions() {
    assert!(parse_template(r#"<p>{ format!("{}", 1) }</p>"#).is_ok());
    assert!(parse_template("<p>{ let x = 1; x }</p>").is_ok());
}

#[test]
fn closing_tag_needs_a_slash() {
    let src = chars_of("<a>");
    match ClosingTag::parse(&src, 0) {
        Err(e) => assert_eq!(e.kind, ParseErrorKind::ExpectedSlash),
        Ok(_) => panic!("expected a parse error"),
    }
    let src = chars_of("< / a >");
    match ClosingTag::parse(&src, 0) {
        Ok((tag, end)) => {
            assert_eq!(end, 7);
            let name = tag.name.unwrap();
            assert_eq!((name.start, name.end), (4, 5));
        }
        Err(_) => panic!("expected a closing tag"),
    }
}

#[test]
fn custom_classification_follows_unicode_case() {
    let t = parse_template("<élan />").unwrap();
    assert!(!t.root.is_custom_element(&t.source));
    let t = parse_template("<Ärger />").unwrap();
    assert!(t.root.is_custom_element(&t.source));
    let t = parse_template("<ßx />").unwrap();
    assert!(!t.root.is_custom_element(&t.source));
    let t = parse_template("<_x />").unwrap();
    assert!(t.root.is_custom_element(&t.source));
    assert_eq!(render("<élan></élan>"), "<élan></élan>");
}

#[test]
fn unicode_attribute_keys_parse() {
    assert_eq!(render(r#"<p größe={"1"} />"#), r#"<p größe="1"/>"#);
}

#[test]
fn dashed_custom_key_suggests_underscores() {
    let t = parse_template(r#"<><MyElement data-test-id={"x"} /></>"#).unwrap();
    assert_eq!(t.diagnostics.len(), 1);
    assert_eq!(t.diagnostics[0].suggestion(&t.source), Some("data_test_id".to_string()));
    let t = parse_template("<div this-wont-work />").unwrap();
    assert_eq!(t.diagnostics[0].suggestion(&t.source), None);
}

#[test]
fn string_literals_in_text_keep_their_spelling() {
    assert_eq!(render(r#"<p>say  "a  {b} <c>"  now</p>"#), "<p>say &quot;a  {b} &lt;c&gt;&quot; now</p>");
}

#[test]
fn braces_in_char_literals_comments_and_raw_strings_do_not_count() {
    assert!(parse_template("<p>{'}'}</p>").is_ok());
    assert!(parse_template("<p>{'\\''}</p>").is_ok());
    assert!(parse_template("<p>{ /* } { */ 1 }</p>").is_ok());
    assert!(parse_template("<p>{ // }\n 1 }</p>").is_ok());
    assert!(parse_template("<p>{ r#\"}\"# }</p>").is_ok());
    assert!(parse_template("<p>{ br\"}\" }</p>").is_ok());
    assert!(parse_template("<p>{ let s: &'static str = \"x\"; s }</p>").is_ok());
    assert_eq!(parse_error("<p>{ /* } */ </p>"), ParseErrorKind::UnclosedBlock);
}

#[test]
fn literals_are_read_as_rust_literals() {
    assert_eq!(render(r#"<p>{42}</p>"#), "<p>42</p>");
    assert_eq!(render(r#"<p>{-7}</p>"#), "<p>-7</p>");
    assert_eq!(render(r#"<p>{"a\"b"}</p>"#), "<p>a&quot;b</p>");
    assert_eq!(render(r#"<p title={"x\ny"} n={5} />"#), "<p title=\"x\ny\" n=\"5\"/>");
}

#[test]
fn ui() {
    let mut comps = Components::new();
    comps.register("Heading".to_string(), parse_template("<h1>{title}</h1>").unwrap(), Scope::new());
    assert_eq!(emit_error(r#"<Heading t={"Hello world!"} />"#, &comps), EmitErrorKind::UnknownName);
}

#[test]
fn mismatch_diagnostic_names_the_opening_tag() {
    let t = parse_template(r#"<div>{"x"}</span>"#).unwrap();
    assert_eq!(t.diagnostics[0].expected_name(&t.source), Some("div".to_string()));
    let t = parse_template(r#"<div a={"1"} a={"2"} />"#).unwrap();
    assert_eq!(t.diagnostics[0].expected_name(&t.source), None);
}

#[test]
fn simple_element_node_carries_its_parts() {
    let t = parse_template(r#"<p data-x={"1"} b={"<"}>{"a"}<br/>{"c"}</p>"#).unwrap();
    match t.to_node(&Scope::new(), &Components::new()).unwrap() {
        render::Node::Element { tag, attributes, self_closing, contents } => {
            assert_eq!(tag, "p");
            assert_eq!(attributes, vec![("data-x".to_string(), "1".to_string()), ("b".to_string(), "<".to_string())]);
            assert!(!self_closing);
            match *contents {
                render::Node::Sequence(v) => assert_eq!(v.len(), 2),
                _ => panic!("expected a pairing"),
            }
        }
        _ => panic!("expected an element node"),
    }
}
