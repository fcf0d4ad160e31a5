//! String literals, as they are written and as they are rendered.
use maud_parse::ast::Markup;
use maud_parse::parse::parse;
use maud_parse::token::{Literal, Span, TokenStream, TokenTree};

/// What a template of one literal with the given source text renders.
fn rendered(text: &str) -> Result<String, String> {
    let span = Span { file: 1, lo: 2, hi: 3 };
    let lit = TokenTree::Literal(Literal { text: text.to_string(), span });
    match parse(TokenStream { trees: vec![lit] })?.pop() {
        Some(Markup::Literal { content, span: found }) => {
            assert_eq!(found, span);
            Ok(content)
        }
        other => panic!("{:?}", other),
    }
}

#[test]
fn plain_strings() {
    assert_eq!(rendered("\"\""), Ok("".to_string()));
    assert_eq!(rendered("\"Hello, world!\""), Ok("Hello, world!".to_string()));
    let text = "na\u{ef}ve \u{1F600} 'x' #";
    assert_eq!(rendered(&format!("\"{}\"", text)), Ok(text.to_string()));
    assert_eq!(rendered("\"two\nlines\""), Ok("two\nlines".to_string()));
}

#[test]
fn simple_escapes() {
    assert_eq!(rendered(r#""\n\r\t\0\\\'\"""#), Ok("\n\r\t\0\\'\"".to_string()));
}

#[test]
fn hexadecimal_escapes() {
    assert_eq!(rendered(r#""\x41\x7f\x0A""#), Ok("A\u{7f}\n".to_string()));
    assert_eq!(rendered(r#""\x80""#), Ok("\u{80}".to_string()));
}

#[test]
fn unicode_escapes() {
    let content = "\u{e9}\u{1F600}\u{10FFFF}".to_string();
    assert_eq!(rendered(r#""\u{e9}\u{1F600}\u{10FFFF}""#), Ok(content));
    assert_eq!(rendered(r#""\u{000041}b\u{}""#), Ok("Ab\0".to_string()));
}

#[test]
fn line_continuations() {
    assert_eq!(rendered("\"a\\\n    b\""), Ok("ab".to_string()));
    assert_eq!(rendered("\"a\\\r\n\t\u{3000}\n b\""), Ok("ab".to_string()));
    assert_eq!(rendered("\"a\\\n\""), Ok("a".to_string()));
}

#[test]
fn line_ends() {
    assert_eq!(rendered("\"a\r\nb\""), Ok("a\nb".to_string()));
}

#[test]
fn raw_strings() {
    assert_eq!(rendered("r\"a\\nb\""), Ok("a\\nb".to_string()));
    assert_eq!(rendered("r#\"say \"hi\"\"#"), Ok("say \"hi\"".to_string()));
    assert_eq!(rendered("r##\"\r\n\"##"), Ok("\r\n".to_string()));
    assert_eq!(rendered("r\"\""), Ok("".to_string()));
}

#[test]
fn other_literals() {
    for text in ["1", "1.5", "'a'", "b'a'", "b\"a\"", "br\"a\"", "c\"a\"", ""].iter() {
        assert_eq!(rendered(text), Err("expected string".to_string()));
    }
}
