use highlight::backend::html::escape_html;
use highlight::backend::html::HtmlBackend;
use highlight::backend::json::entry_kind_name;
use highlight::backend::json::escape_json;
use highlight::backend::json::Entry;
use highlight::backend::json::EntryKind;
use highlight::backend::json::JsonBackend;
use highlight::backend::latex::escape_comment;
use highlight::backend::latex::escape_latex;
use highlight::backend::latex::LatexBackend;
use highlight::backend::new_backend;
use highlight::backend::parse_backend_var;
use highlight::backend::parse_bool;
use highlight::backend::render;
use highlight::backend::Backend;
use highlight::backend::BackendType;
use highlight::classifier::Category;
use highlight::classifier::Part;
use highlight::colors::get_color;
use highlight::colors::get_colors;
use highlight::colors::get_types;

fn vars(pairs: &[(&str, &str)]) -> Vec<(String, String)> {
    pairs
        .iter()
        .map(|(k, v)| (k.to_string(), v.to_string()))
        .collect()
}

fn text(c: Category, s: &str) -> Part {
    Part::Text(c, s.to_string())
}

#[test]
fn html_escaping_is_deterministic() {
    assert_eq!(escape_html("<a&b>"), "&lt;a&amp;b&gt;");
    assert_eq!(escape_html("\"q\" 'a'"), "&quot;q&quot; &#39;a&#39;");
    assert_eq!(escape_html("plain"), "plain");
    assert_eq!(escape_html(""), "");
}

#[test]
fn latex_escaping_of_backslash_and_braces() {
    assert_eq!(escape_latex("a\\b"), "a\\textbackslash{b}");
    assert_eq!(escape_latex("{}"), "\\{\\}");
    assert_eq!(escape_latex("x{y}z"), "x\\{y\\}z");
    assert_eq!(escape_latex("plain"), "plain");
}

#[test]
fn option_validation_names_the_bad_value() {
    let mut b = HtmlBackend::new();
    let r = b.configure(&vars(&[("use_classes", "not-a-bool")]));
    assert_eq!(r, Err("Bad `use_classes` value: not-a-bool".to_string()));
    assert!(!b.use_classes);
    let mut out = String::new();
    b.header(&mut out);
    assert_eq!(out, "");
}

#[test]
fn html_configure_accepts_booleans_and_ignores_other_keys() {
    let mut b = HtmlBackend::new();
    assert_eq!(b.configure(&vars(&[("use_classes", "true")])), Ok(()));
    assert!(b.use_classes);
    assert_eq!(b.configure(&vars(&[("use_classes", "false")])), Ok(()));
    assert!(!b.use_classes);
    assert_eq!(b.configure(&vars(&[("other", "x")])), Ok(()));
    assert!(!b.use_classes);
}

#[test]
fn json_configure_rejects_bad_pretty() {
    let mut b = JsonBackend::new();
    let r = b.configure(&vars(&[("pretty", "yes")]));
    assert_eq!(r, Err("Bad value for pretty: yes".to_string()));
    assert!(!b.pretty);
    assert_eq!(b.configure(&vars(&[("pretty", "true")])), Ok(()));
    assert!(b.pretty);
}

#[test]
fn attribute_round_trip_markup() {
    let parts = vec![
        Part::Start(Category::Attribute),
        text(Category::Unstyled, "["),
        text(Category::Ident, "foo"),
        Part::End(Category::Attribute),
    ];
    let mut b = new_backend(BackendType::Html);
    let mut out = String::new();
    render(&mut b, &parts, &mut out);
    assert_eq!(
        out,
        "<span style=\"color: #C82829;\">#[<span>foo</span>]</span>"
    );
    assert_eq!(out.matches(']').count(), 1);
}

#[test]
fn end_to_end_markup_rendering() {
    let parts = vec![
        text(Category::Kw, "let"),
        text(Category::Normal, " "),
        text(Category::Ident, "x"),
        text(Category::Normal, " "),
        text(Category::Op, "="),
        text(Category::Normal, " "),
        text(Category::Number, "1"),
        text(Category::Unstyled, ";"),
    ];
    let mut b = new_backend(BackendType::Html);
    let mut out = String::new();
    b.code_start(&mut out);
    render(&mut b, &parts, &mut out);
    b.code_end(&mut out);
    assert_eq!(
        out,
        "<pre class=\"rust\"><span style=\"color: #8959A8;\">let</span> \
         <span>x</span> <span>=</span> \
         <span style=\"color: #718C00;\">1</span>;</pre>"
    );
}

#[test]
fn html_class_mode_uses_category_names() {
    let mut b = HtmlBackend::new();
    b.configure(&vars(&[("use_classes", "true")])).unwrap();
    let mut out = String::new();
    b.start(&mut out, Category::Kw);
    b.text(&mut out, "fn");
    b.end(&mut out, Category::Kw);
    assert_eq!(out, "<span class=\"kw\">fn</span>");
    let mut header = String::new();
    b.header(&mut header);
    assert!(header.starts_with("<style>\n"));
    assert!(header.ends_with("</style>\n"));
    assert!(header.contains("    pre.rust .kw { color: #8959A8; }\n"));
    assert!(header.contains("    pre.rust .lifetime { color: #B76514; }\n"));
}

#[test]
fn json_buffer_is_independent_of_pretty() {
    let parts = vec![
        Part::Start(Category::Attribute),
        text(Category::Ident, "foo"),
        Part::End(Category::Attribute),
    ];
    let compact = JsonBackend::new();
    let mut pretty = JsonBackend::new();
    pretty
        .configure(&vars(&[("pretty", "true")]))
        .unwrap();
    let mut out1 = String::new();
    let mut out2 = String::new();
    let mut b1 = Backend::Json(compact);
    let mut b2 = Backend::Json(pretty);
    render(&mut b1, &parts, &mut out1);
    render(&mut b2, &parts, &mut out2);
    assert_eq!(out1, "");
    assert_eq!(out2, "");
    let (e1, e2) = match (&b1, &b2) {
        (Backend::Json(x), Backend::Json(y)) => (x.entries.clone(), y.entries.clone()),
        _ => unreachable!(),
    };
    assert_eq!(e1.len(), 5);
    assert_eq!(e1, e2);
    b1.code_end(&mut out1);
    b2.code_end(&mut out2);
    let stripped: String = out2.chars().filter(|c| *c != '\n' && *c != ' ').collect();
    assert_eq!(out1, stripped);
}

#[test]
fn json_code_end_serializes_entries() {
    let mut b = JsonBackend::new();
    let mut sink = String::new();
    b.start(&mut sink, Category::Ident);
    b.text(&mut sink, "x\"y\\");
    b.end(&mut sink, Category::Ident);
    assert_eq!(sink, "");
    let mut out = String::new();
    b.code_end(&mut out);
    assert_eq!(
        out,
        "[{\"ty\":\"start\",\"value\":\"ident\"},\
         {\"ty\":\"text\",\"value\":\"x\\\"y\\\\\"},\
         {\"ty\":\"end\",\"value\":\"ident\"}]"
    );
}

#[test]
fn json_code_end_empty_buffer() {
    let b = JsonBackend::new();
    let mut out = String::new();
    b.code_end(&mut out);
    assert_eq!(out, "[]");
}

#[test]
fn json_escaping_and_kind_names() {
    assert_eq!(escape_json("a\"b\\c"), "a\\\"b\\\\c");
    assert_eq!(escape_json("a\nb\tc\rd"), "a\\nb\\tc\\rd");
    assert_eq!(entry_kind_name(EntryKind::Start), "start");
    assert_eq!(entry_kind_name(EntryKind::End), "end");
    assert_eq!(entry_kind_name(EntryKind::Text), "text");
    let e = Entry {
        kind: EntryKind::Text,
        value: "v".to_string(),
    };
    assert_eq!(e.kind, EntryKind::Text);
}

#[test]
fn json_header_serializes_color_table() {
    let b = JsonBackend::new();
    let mut out = String::new();
    b.header(&mut out);
    assert!(out.starts_with("{\"kw\":\"8959A8\",\"kw-2\":\"4271AE\""));
    assert!(out.ends_with("\"lifetime\":\"B76514\"}"));
}

#[test]
fn latex_comment_recoloring_preserves_trailing_newlines() {
    assert_eq!(
        escape_comment("// x\n\n", true),
        "\\textcolor{comment}{// x}\n\n"
    );
    assert_eq!(
        escape_comment("// a\n// b\n", true),
        "\\textcolor{comment}{// a}\n\\textcolor{comment}{// b}\n"
    );
    assert_eq!(escape_comment("\n\n", true), "\n\n");
    assert_eq!(escape_comment("// x", false), "// x");
}

#[test]
fn latex_start_end_and_context_stack() {
    let mut b = LatexBackend::new();
    let mut out = String::new();
    b.start(&mut out, Category::Kw);
    b.text(&mut out, "fn");
    b.end(&mut out, Category::Kw);
    assert_eq!(out, "\\textcolor{kw}{fn}");
    let mut out2 = String::new();
    b.start(&mut out2, Category::Comment);
    b.text(&mut out2, "// hi");
    b.end(&mut out2, Category::Comment);
    assert_eq!(out2, "\\textcolor{comment}{// hi}");
    let mut out3 = String::new();
    b.start(&mut out3, Category::Attribute);
    b.text(&mut out3, "derive");
    b.end(&mut out3, Category::Attribute);
    assert_eq!(out3, "\\textcolor{attribute}{#derive]}");
    assert_eq!(b.contexts.len(), 0);
}

#[test]
fn latex_code_block_and_header() {
    let b = LatexBackend::new();
    let mut out = String::new();
    b.code_start(&mut out);
    b.code_end(&mut out);
    assert_eq!(
        out,
        "\\begin{Shaded}\n\\begin{Highlighting}[]\n\\end{Highlighting}\n\\end{Shaded}\n"
    );
    let mut header = String::new();
    b.header(&mut header);
    assert!(header.starts_with("\\usepackage{xcolor}\n\\usepackage{fancyvrb}\n"));
    assert!(header.contains("\\definecolor{kw}{HTML}{8959A8}\n"));
    assert!(header.ends_with("\\definecolor{lifetime}{HTML}{B76514}\n"));
}

#[test]
fn color_table_lookup() {
    assert_eq!(get_color("kw"), Some("8959A8".to_string()));
    assert_eq!(get_color("comment"), Some("8E908C".to_string()));
    assert_eq!(get_color("ident"), None);
    assert_eq!(get_color("normal"), None);
    assert_eq!(get_color(""), None);
    assert_eq!(get_color("bogus"), None);
    let types = get_types();
    assert_eq!(types.len(), 14);
    assert!(types.contains(&"comment".to_string()));
    assert!(!types.contains(&"ident".to_string()));
    assert_eq!(get_colors().len(), 14);
}

#[test]
fn backend_variable_parsing() {
    assert_eq!(
        parse_backend_var("a=b"),
        Ok(("a".to_string(), "b".to_string()))
    );
    assert_eq!(
        parse_backend_var("key=a=b"),
        Ok(("key".to_string(), "a=b".to_string()))
    );
    assert_eq!(
        parse_backend_var("nosep"),
        Err("Bad backend variable format: nosep".to_string())
    );
    assert_eq!(parse_bool("true"), Some(true));
    assert_eq!(parse_bool("false"), Some(false));
    assert_eq!(parse_bool("1"), None);
}

#[test]
fn backend_dispatch_through_the_uniform_interface() {
    let mut b = new_backend(BackendType::Latex);
    let mut out = String::new();
    let parts = vec![text(Category::Number, "42")];
    b.code_start(&mut out);
    render(&mut b, &parts, &mut out);
    b.code_end(&mut out);
    assert_eq!(
        out,
        "\\begin{Shaded}\n\\begin{Highlighting}[]\n\\textcolor{number}{42}\\end{Highlighting}\n\\end{Shaded}\n"
    );
}
