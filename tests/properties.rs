use std::sync::Arc;

use swc_core::common::{FileName, SourceMap};
use swc_xml::ast;
use swc_xml::parser::{parse_file_as_document, parser::ParserConfig};

use svgo_rs::model::{Attribute, Child, Document, Element};
use svgo_rs::stringifier::{stringify_svg, StringifyOptions};
use svgo_rs::{colors, groups, ids, numeric};

fn chars(s: &str) -> Vec<char> {
    s.chars().collect()
}

fn text(v: &[char]) -> String {
    v.iter().collect()
}

fn child(c: &ast::Child) -> Child {
    match c {
        ast::Child::DocumentType(d) => Child::DocumentType(d.name.as_ref().map(|n| chars(n))),
        ast::Child::Element(e) => Child::Element(element(e)),
        ast::Child::Text(t) => Child::Text(chars(&t.data)),
        ast::Child::CdataSection(t) => Child::CdataSection(chars(&t.data)),
        ast::Child::Comment(t) => Child::Comment(chars(&t.data)),
        ast::Child::ProcessingInstruction(p) => Child::ProcessingInstruction(chars(&p.target), chars(&p.data)),
    }
}

fn element(e: &ast::Element) -> Element {
    Element {
        tag_name: chars(&e.tag_name),
        attributes: e
            .attributes
            .iter()
            .map(|a| Attribute { name: chars(&a.name), value: a.value.as_ref().map(|v| chars(v)) })
            .collect(),
        children: e.children.iter().map(child).collect(),
    }
}

fn parse(input: &str) -> Document {
    let cm = Arc::<SourceMap>::default();
    let fm = cm.new_source_file(FileName::Anon.into(), input.to_string());
    let mut errors = vec![];
    let doc = parse_file_as_document(&fm, ParserConfig::default(), &mut errors).unwrap();
    Document { children: doc.children.iter().map(child).collect() }
}

fn compact(doc: &Document) -> String {
    text(&stringify_svg(doc, &StringifyOptions::new(false)))
}

fn optimize_text(input: &str) -> String {
    svgo_rs::optimize(parse(input)).data
}

fn ids_of(c: &Child, out: &mut Vec<String>) {
    if let Child::Element(e) = c {
        for a in &e.attributes {
            if text(&a.name) == "id" {
                out.push(text(a.value.as_ref().unwrap()));
            }
        }
        for k in &e.children {
            ids_of(k, out);
        }
    }
}

fn all_ids(doc: &Document) -> Vec<String> {
    let mut v = vec![];
    for c in &doc.children {
        ids_of(c, &mut v);
    }
    v
}

fn numeric_value(v: &str, p: &numeric::Params) -> Option<String> {
    numeric::numeric_value_exec(&chars(v), p).map(|r| text(&r))
}

fn color(v: &str) -> String {
    text(&colors::convert_color_exec(&chars(v), &colors::Params::new()))
}

#[test]
fn pipeline_is_idempotent() {
    let input = r##"<svg xmlns="http://www.w3.org/2000/svg" width="10.0004px" viewBox="0, 0, 10.12345 20">
    <g fill="red"><rect id="r1" width="2cm" height="1in" fill="rgb(0, 0, 255)"/></g>
    <ellipse rx="5" ry="5" stroke="#FFFFFF"/>
    <use href="#r1"/>
    <text>  keep   this  </text>
</svg>"##;
    let once = optimize_text(input);
    let twice = optimize_text(&once);
    assert_eq!(once, twice);
}

#[test]
fn retained_ids_are_unique() {
    let mut doc = parse(
        r##"<svg><rect id="x"/><rect id="x"/><circle id="y"/><path id="z"/><use href="#z"/><use href="#y"/><g id="w"/></svg>"##,
    );
    ids::apply(&mut doc, &ids::Params::new());
    let got = all_ids(&doc);
    let mut sorted = got.clone();
    sorted.sort();
    sorted.dedup();
    assert_eq!(sorted.len(), got.len());
    assert_eq!(got, vec!["a".to_string(), "b".to_string()]);
}

#[test]
fn references_follow_renames() {
    let mut doc = parse(
        r##"<svg><linearGradient id="grad"/><rect fill="url(#grad)"/><path id="p"/><use xlink:href="#p"/><set begin="p.click"/></svg>"##,
    );
    ids::apply(&mut doc, &ids::Params::new());
    assert_eq!(
        compact(&doc),
        r##"<svg><linearGradient id="a"/><rect fill="url(#a)"/><path id="b"/><use xlink:href="#b"/><set begin="b.click"/></svg>"##
    );
}

#[test]
fn generator_counts_letters_then_pairs() {
    let letters = ids::get_generate_id_chars();
    let mut counter: Vec<usize> = vec![];
    let mut seen = vec![];
    for _ in 0..54 {
        ids::generate_id(&mut counter);
        seen.push(text(&ids::id_string(&counter, &letters)));
    }
    let expected: Vec<String> = "abcdefghijklmnopqrstuvwxyzABCDEFGHIJKLMNOPQRSTUVWXYZ".chars().map(|c| c.to_string()).collect();
    assert_eq!(&seen[..52], &expected[..]);
    assert_eq!(seen[52], "aa");
    assert_eq!(seen[53], "ab");
}

#[test]
fn rounding_examples() {
    assert_eq!(numeric::round(&chars("1.23456"), 3).map(|r| text(&r)), Some("1.235".to_string()));
    assert_eq!(numeric::round(&chars("2.5"), 0).map(|r| text(&r)), Some("3".to_string()));
    assert_eq!(numeric::round(&chars("-2.5"), 0).map(|r| text(&r)), Some("-3".to_string()));
    assert_eq!(numeric::round(&chars("1.200"), 3).map(|r| text(&r)), Some("1.2".to_string()));
    assert_eq!(numeric::round(&chars("1e2"), 3).map(|r| text(&r)), Some("100".to_string()));
    assert_eq!(numeric::round(&chars("abc"), 3), None);
}

#[test]
fn leading_zero_option() {
    let mut p = numeric::Params::new();
    assert_eq!(numeric_value(".5", &p), Some(".5".to_string()));
    assert_eq!(numeric_value("-0.5", &p), Some("-.5".to_string()));
    p.leading_zero = false;
    assert_eq!(numeric_value(".5", &p), Some("0.5".to_string()));
}

#[test]
fn numeric_units() {
    let p = numeric::Params::new();
    assert_eq!(numeric_value("10px", &p), Some("10".to_string()));
    assert_eq!(numeric_value("1in", &p), Some("96".to_string()));
    assert_eq!(numeric_value("2cm", &p), Some("2cm".to_string()));
    assert_eq!(numeric_value("3pt", &p), Some("4".to_string()));
    assert_eq!(numeric_value("50%", &p), Some("50%".to_string()));
    assert_eq!(numeric_value("1.0004em", &p), Some("1em".to_string()));
    assert_eq!(numeric_value("5.", &p), None);
    assert_eq!(numeric_value("12abc", &p), None);
    let mut keep = numeric::Params::new();
    keep.default_px = false;
    assert_eq!(numeric_value("10px", &keep), Some("10px".to_string()));
}

#[test]
fn viewbox_tokens() {
    assert_eq!(text(&numeric::viewbox_value_exec(&chars("0, 0,  10.12345 x"), 3)), "0 0 10.123 0");
}

#[test]
fn color_pipeline_steps() {
    let rgb = colors::rgb_value_exec(&chars("rgb(255, 0, 0)")).unwrap();
    let hex = colors::convert_rgb_to_hex(&vec![rgb.0, rgb.1, rgb.2]);
    assert_eq!(text(&hex), "#FF0000");
    let short = colors::short_hex_exec(&hex).unwrap();
    assert_eq!(text(&short), "#f00");
    assert_eq!(colors::short_name_of_hex(&short).map(|r| text(&r)), Some("red".to_string()));
    assert_eq!(color("rgb(255, 0, 0)"), "red");
}

#[test]
fn color_conversions() {
    assert_eq!(color("WHITE"), "#fff");
    assert_eq!(color("rgb(50%, 0, 100%)"), "#8000FF");
    assert_eq!(color("#FF6347"), "tomato");
    assert_eq!(color("#123456"), "#123456");
    assert_eq!(color("none"), "none");
    assert_eq!(colors::hex_of_name(&chars("black")).map(|r| text(&r)), Some("#000".to_string()));
    assert_eq!(colors::hex_of_name(&chars("notacolor")), None);
    let mut p = colors::Params::new();
    p.current_color = colors::CurrentColor::Bool(true);
    assert_eq!(text(&colors::convert_color_exec(&chars("red"), &p)), "currentColor");
    assert_eq!(text(&colors::convert_color_exec(&chars("none"), &p)), "none");
}

#[test]
fn end_to_end_example() {
    let out = optimize_text(
        r##"<svg width="100.5" height=".5" enable-background="new 0 0 100.5 .5"><rect id="a" fill="rgb(0,0,0)"/><rect fill="url(#a)"/></svg>"##,
    );
    assert_eq!(
        out,
        "<svg width=\"100.5\" height=\".5\">\n    <rect id=\"a\" fill=\"#000\"/>\n    <rect fill=\"url(#a)\"/>\n</svg>\n"
    );
}

#[test]
fn group_collapse_example() {
    let mut doc = parse(r#"<svg><g transform="translate(1,1)"><path transform="translate(2,2)" d="M0,0"/></g></svg>"#);
    groups::apply(&mut doc, &groups::Params::new());
    assert_eq!(compact(&doc), r#"<svg><path transform="translate(1,1) translate(2,2)" d="M0,0"/></svg>"#);
}

#[test]
fn group_kept_where_animated() {
    let input = r#"<svg><g fill="red"><rect><animate attributeName="fill"/></rect></g></svg>"#;
    let mut doc = parse(input);
    groups::apply(&mut doc, &groups::Params::new());
    assert_eq!(compact(&doc), input);
}

#[test]
fn group_conflict_keeps_both() {
    let input = r#"<svg><g opacity=".5"><rect opacity=".2"/></g></svg>"#;
    let mut doc = parse(input);
    groups::apply(&mut doc, &groups::Params::new());
    assert_eq!(compact(&doc), input);
}

#[test]
fn ellipse_becomes_circle() {
    let mut doc = parse(r#"<svg><ellipse rx="5" cx="1" ry="5"/><ellipse rx="auto" ry="4"/><ellipse rx="1" ry="2"/></svg>"#);
    svgo_rs::ellipse::apply(&mut doc, &svgo_rs::ellipse::Params::new());
    assert_eq!(compact(&doc), r#"<svg><circle cx="1" r="5"/><circle r="4"/><ellipse rx="1" ry="2"/></svg>"#);
}

#[test]
fn ids_left_where_scripted() {
    let input = r##"<svg><style>#a{}</style><rect id="a"/><rect id="b"/></svg>"##;
    let mut doc = parse(input);
    ids::apply(&mut doc, &ids::Params::new());
    assert_eq!(compact(&doc), input);
}

#[test]
fn ids_left_in_defs_only_document() {
    let input = "<svg><defs><rect id=\"a\"/></defs> </svg>";
    let mut doc = parse(input);
    ids::apply(&mut doc, &ids::Params::new());
    assert_eq!(compact(&doc), input);
}

#[test]
fn preserved_ids_are_skipped() {
    let mut doc = parse(r##"<svg><rect id="keep"/><rect id="x"/><use href="#x"/><rect id="y"/><use href="#y"/></svg>"##);
    let mut p = ids::Params::new();
    p.preserve = vec!["keep".to_string(), "a".to_string()];
    p.preserve_prefixes = vec!["b".to_string()];
    ids::apply(&mut doc, &p);
    assert_eq!(compact(&doc), r##"<svg><rect id="keep"/><rect id="c"/><use href="#c"/><rect id="d"/><use href="#d"/></svg>"##);
}

#[test]
fn whitespace_normalization() {
    assert_eq!(text(&svgo_rs::attrs::normalize_value(&chars("  a\r\nb  \n c\t\td "))), "a b c d");
}

#[test]
fn pretty_keeps_text_content_unindented() {
    let doc = parse("<svg><text>a<tspan>b</tspan></text><g><rect/></g></svg>");
    let out = text(&stringify_svg(&doc, &StringifyOptions::new(true)));
    assert_eq!(out, "<svg>\n    <text>a<tspan>b</tspan></text>\n    <g>\n        <rect/>\n    </g>\n</svg>\n");
}

#[test]
fn writer_indents_lines() {
    let mut w = svgo_rs::writer::Writer::new(vec![]);
    w.increase_indent();
    w.write_raw(&chars("a"));
    w.write_space();
    w.write_newline();
    w.write_raw(&chars("b"));
    w.decrease_indent();
    assert_eq!(text(w.output()), "  a \n  b");
}

#[test]
fn tables_hold_their_entries() {
    assert_eq!(svgo_rs::collections::get_references_props().len(), 10);
    assert_eq!(svgo_rs::collections::get_colors_names().len(), 148);
    assert!(svgo_rs::collections::get_text_elems().contains(&"title"));
    assert_eq!(svgo_rs::collections::get_elems_groups()[0].0, "animation");
}

#[test]
fn switch_subtree_is_left_alone() {
    let input = r#"<svg><switch><g><g><rect/></g></g></switch></svg>"#;
    let mut doc = parse(input);
    groups::apply(&mut doc, &groups::Params::new());
    assert_eq!(compact(&doc), input);
}

#[test]
fn pretty_text_context_has_no_line_breaks() {
    let doc = parse("<svg><text><tspan/><!--c--></text><!--d--></svg>");
    let out = text(&stringify_svg(&doc, &StringifyOptions::new(true)));
    assert_eq!(out, "<svg>\n    <text><tspan/><!--c--></text>\n    <!--d-->\n</svg>\n");
}

#[test]
fn pretty_indent_character() {
    let doc = parse("<svg><g/></svg>");
    let mut o = StringifyOptions::new(true);
    o.indent = 1;
    o.indent_char = '\t';
    assert_eq!(text(&stringify_svg(&doc, &o)), "<svg>\n\t<g/>\n</svg>\n");
}

#[test]
fn negative_precision_rounds_to_tens() {
    assert_eq!(numeric::round(&chars("1234.5"), -2).map(|r| text(&r)), Some("1200".to_string()));
    assert_eq!(numeric::round(&chars("-1250"), -2).map(|r| text(&r)), Some("-1300".to_string()));
    assert_eq!(numeric::round(&chars("40"), -2).map(|r| text(&r)), Some("0".to_string()));
}

#[test]
fn entity_table_is_pluggable() {
    let doc = parse("<svg a=\"x&amp;y\">1 &lt; 2</svg>");
    let mut o = StringifyOptions::new(false);
    assert_eq!(text(&stringify_svg(&doc, &o)), "<svg a=\"x&amp;y\">1 &lt; 2</svg>");
    o.entities = vec![('<', chars("&#60;"))];
    assert_eq!(text(&stringify_svg(&doc, &o)), "<svg a=\"x&y\">1 &#60; 2</svg>");
    o.entities = vec![];
    assert_eq!(text(&stringify_svg(&doc, &o)), "<svg a=\"x&y\">1 < 2</svg>");
}
