use mdbook_kcl::directive::{directive_payload, parse_directive};
use mdbook_kcl::markdown::{process_chapter, process_chapters, transform_markdown, with_script};
use mdbook_kcl::text::{ends_with, same_text, starts_with, trim};
use mdbook_kcl::token::{emit, expand_directives, Token};
use mdbook_kcl::{Kcl, KclError};

const SCRIPT: &str = "<script type=\"module\" src=\"scripts/model-viewer.min.js\"></script>\n";
const ALT: &str = "Alt text description cannot contain commas";

fn squash(s: &str) -> String {
    s.split_whitespace().collect::<Vec<_>>().join(" ")
}

#[test]
fn repeated_field_keeps_last_value() {
    let d = parse_directive("name=a,name=b").unwrap();
    assert_eq!(d.name, "b");
    assert_eq!(d.alt, "");
    assert!(!d.skip3d);
}

#[test]
fn missing_skip3d_gives_model() {
    let d = parse_directive("name=x,alt=y").unwrap();
    assert!(!d.skip3d);
    let toks = emit(d);
    assert_eq!(toks.len(), 1);
    match &toks[0] {
        Token::Html(h) => {
            assert!(h.starts_with("<model-viewer"));
            assert!(h.contains("alt=\"y\""));
            assert!(h.contains("src=\"gltf/x/output.gltf\""));
        }
        _ => panic!("expected the model element"),
    }
}

#[test]
fn skip3d_needs_exact_lowercase_true() {
    assert!(!parse_directive("skip3d=TRUE").unwrap().skip3d);
    assert!(!parse_directive("skip3d=True").unwrap().skip3d);
    assert!(!parse_directive("skip3d= true").unwrap().skip3d);
    assert!(parse_directive("skip3d=true").unwrap().skip3d);
}

#[test]
fn alt_is_trimmed_and_name_is_not() {
    let d = parse_directive("name= n ,alt=  some words \t,other=ignored").unwrap();
    assert_eq!(d.name, " n ");
    assert_eq!(d.alt, "some words");
}

#[test]
fn value_may_hold_equals_sign() {
    let d = parse_directive("alt=a=b").unwrap();
    assert_eq!(d.alt, "a=b");
}

#[test]
fn field_without_equals_is_an_error() {
    assert!(matches!(parse_directive("name=x,badfield"), Err(KclError::MalformedField)));
    assert!(matches!(parse_directive(""), Err(KclError::MalformedField)));
    assert!(matches!(parse_directive("name=x,"), Err(KclError::MalformedField)));
}

#[test]
fn payload_between_delimiters() {
    assert_eq!(directive_payload("<!-- KCL: name=a -->"), Some("name=a "));
    assert_eq!(directive_payload("<!-- KCL: name=a  -->  \n"), Some("name=a  "));
    assert_eq!(directive_payload("<!-- KCL: name=foo"), None);
    assert_eq!(directive_payload("<!-- KCL:name=a -->"), None);
    assert_eq!(directive_payload("<p>hi</p>"), None);
}

#[test]
fn scenario_model_element() {
    let input = format!("<!-- KCL: name=pill_2d,skip3d=false,alt={ALT} -->");
    let (out, n) = process_chapter(&input).unwrap();
    assert_eq!(n, 1);
    assert!(out.starts_with(SCRIPT));
    assert!(out.contains("<model-viewer"));
    assert!(out.contains(&format!("alt=\"{ALT}\"")));
    assert!(out.contains("src=\"gltf/pill_2d/output.gltf\""));
    assert!(out.contains("poster=\"images/dynamic/pill_2d.png\""));
    assert!(!out.contains("KCL"));
}

#[test]
fn scenario_fallback_image() {
    let input = format!("<!-- KCL: name=pill_2d,skip3d=true,alt={ALT} -->");
    let (out, n) = process_chapter(&input).unwrap();
    assert_eq!(n, 1);
    assert!(out.starts_with(SCRIPT));
    assert!(!out.contains("<model-viewer"));
    assert!(out.contains("images/dynamic/pill_2d.png"));
    assert!(out.contains(&format!("2D fallback: {ALT}")));
    assert!(!out.contains("KCL"));
}

#[test]
fn fallback_tokens() {
    let d = parse_directive(&format!("name=pill_2d,skip3d=true,alt={ALT} ")).unwrap();
    let toks = emit(d);
    assert_eq!(toks.len(), 5);
    assert!(matches!(toks[0], Token::ParagraphStart));
    match &toks[1] {
        Token::ImageStart { dest, title } => {
            assert_eq!(dest, "images/dynamic/pill_2d.png");
            assert_eq!(title, &format!("2D fallback: {ALT}"));
        }
        _ => panic!("expected the image"),
    }
    match &toks[2] {
        Token::Text(t) => assert_eq!(t, &format!("2D fallback: {ALT}")),
        _ => panic!("expected the image text"),
    }
    assert!(matches!(toks[3], Token::ImageEnd));
    assert!(matches!(toks[4], Token::ParagraphEnd));
}

#[test]
fn expansion_keeps_other_tokens_in_order() {
    let toks = vec![
        Token::ParagraphStart,
        Token::Html("<!-- KCL: name=m -->\n".to_string()),
        Token::Html("<!-- KCL: name=foo".to_string()),
        Token::ParagraphEnd,
    ];
    let (out, n) = expand_directives(toks).unwrap();
    assert_eq!(n, 1);
    assert_eq!(out.len(), 4);
    assert!(matches!(out[0], Token::ParagraphStart));
    assert!(matches!(&out[1], Token::Html(h) if h.contains("src=\"gltf/m /output.gltf\"")));
    assert!(matches!(&out[2], Token::Html(h) if h == "<!-- KCL: name=foo"));
    assert!(matches!(out[3], Token::ParagraphEnd));
    let bad = vec![Token::Html("<!-- KCL: name=x,badfield -->".to_string())];
    assert!(matches!(expand_directives(bad), Err(KclError::MalformedField)));
}

#[test]
fn malformed_field_fails_the_chapter() {
    let r = process_chapter("# Title\n\n<!-- KCL: name=x,badfield -->\n\nMore text.\n");
    assert!(matches!(r, Err(KclError::MalformedField)));
}

#[test]
fn unclosed_directive_passes_through() {
    let input = "<!-- KCL: name=foo";
    let (once, n) = transform_markdown(input).unwrap();
    assert_eq!(n, 0);
    assert!(once.contains(input));
    let (twice, _) = transform_markdown(&once).unwrap();
    assert_eq!(once, twice);
}

#[test]
fn transform_twice_is_transform_once() {
    let input = format!("# A\n\n<!-- KCL: name=pill_2d,alt={ALT} -->\n\ntext\n");
    let (once, _) = transform_markdown(&input).unwrap();
    let (twice, n) = transform_markdown(&once).unwrap();
    assert_eq!(n, 0);
    assert_eq!(squash(&once), squash(&twice));
    let (thrice, _) = transform_markdown(&twice).unwrap();
    assert_eq!(twice, thrice);
}

#[test]
fn directive_free_round_trip() {
    let input = "# Title\n\nSome *emphasis* and **strong** text.\n\n## Section\n\nA paragraph.";
    let (out, n) = transform_markdown(input).unwrap();
    assert_eq!(n, 0);
    assert_eq!(squash(&out), squash(input));
}

#[test]
fn header_prepended_once() {
    let s = with_script("body");
    assert_eq!(s, format!("{SCRIPT}body"));
    let (out, _) = process_chapter("Hello.\n").unwrap();
    assert!(out.starts_with(SCRIPT));
    assert_eq!(out.matches("model-viewer.min.js").count(), 1);
}

#[test]
fn chapters_all_or_nothing() {
    let good = format!("<!-- KCL: name=a,alt=b -->");
    let chapters = vec![good.clone(), "Plain.\n".to_string(), good];
    let (outs, n) = process_chapters(&chapters).unwrap();
    assert_eq!(n, 2);
    assert_eq!(outs.len(), 3);
    assert!(outs.iter().all(|o| o.starts_with(SCRIPT)));
    let chapters = vec!["Plain.\n".to_string(), "<!-- KCL: bad -->".to_string()];
    assert!(matches!(process_chapters(&chapters), Err(KclError::MalformedField)));
    let (outs, n) = process_chapters(&Vec::new()).unwrap();
    assert_eq!((outs.len(), n), (0, 0));
}

#[test]
fn text_helpers() {
    assert_eq!(trim("  \t x y \n"), "x y");
    assert_eq!(trim("\u{3000}a\u{A0}"), "a");
    assert_eq!(trim("   "), "");
    assert!(starts_with("<!-- KCL: x", "<!-- KCL:"));
    assert!(!starts_with("<!--", "<!-- KCL:"));
    assert!(ends_with("abc-->", "-->"));
    assert!(!ends_with("abc->", "-->"));
    assert!(same_text("kcl", "kcl"));
    assert!(!same_text("kcl", "kcl "));
}

#[test]
fn preprocessor_identity() {
    let k = Kcl::new();
    assert_eq!(k.name(), "kcl");
    assert!(k.supports_renderer("html"));
    assert!(!k.supports_renderer("latex"));
    assert!(!k.supports_renderer("HTML"));
}
