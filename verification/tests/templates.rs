//! Templates, and what they are parsed to.
use maud_parse::ast::{AttrType, Attribute, Attrs, Block, Markup, Special, Toggler};
use maud_parse::parse::{parse, Parser};
use maud_parse::token::{
    Delimiter, Group, Ident, Literal, Punct, Spacing, Span, TokenStream, TokenTree,
};

/// Splits source text into tokens; `at` gives the span of the text between two offsets.
struct Lexer {
    chars: Vec<char>,
    pos: usize,
    at: fn(usize, usize) -> Span,
}

impl Lexer {
    fn peek(&self) -> Option<char> {
        self.chars.get(self.pos).copied()
    }

    fn text(&self, from: usize) -> String {
        self.chars[from..self.pos].iter().collect()
    }

    fn is_punct(c: char) -> bool {
        "@;:.,#=>-?/+*&!<|%^~$".contains(c)
    }

    fn string_end(&mut self) {
        while self.peek() != Some('"') {
            if self.peek() == Some('\\') {
                self.pos += 1;
            }
            self.pos += 1;
        }
        self.pos += 1;
    }

    fn stream(&mut self, close: Option<char>) -> TokenStream {
        let mut trees = Vec::new();
        loop {
            while self.peek() == Some(' ') {
                self.pos += 1;
            }
            let from = self.pos;
            let c = match self.peek() {
                Some(c) => c,
                None => {
                    assert_eq!(close, None);
                    return TokenStream { trees };
                }
            };
            self.pos += 1;
            if Some(c) == close {
                return TokenStream { trees };
            }
            let tree = match c {
                '(' | '[' | '{' => {
                    let (delimiter, end) = match c {
                        '(' => (Delimiter::Parenthesis, ')'),
                        '[' => (Delimiter::Bracket, ']'),
                        _ => (Delimiter::Brace, '}'),
                    };
                    let stream = self.stream(Some(end));
                    let span = (self.at)(from, self.pos);
                    TokenTree::Group(Group { delimiter, stream, span })
                }
                '"' => {
                    self.string_end();
                    TokenTree::Literal(Literal {
                        text: self.text(from),
                        span: (self.at)(from, self.pos),
                    })
                }
                c if Lexer::is_punct(c) => {
                    let joint = self.peek().map_or(false, Lexer::is_punct);
                    TokenTree::Punct(Punct {
                        ch: c,
                        spacing: if joint { Spacing::Joint } else { Spacing::Alone },
                        span: (self.at)(from, self.pos),
                    })
                }
                c => {
                    while self.peek().map_or(false, |c| c.is_alphanumeric() || c == '_') {
                        self.pos += 1;
                    }
                    let text = self.text(from);
                    let span = (self.at)(from, self.pos);
                    if c.is_ascii_digit() {
                        TokenTree::Literal(Literal { text, span })
                    } else {
                        TokenTree::Ident(Ident { text, span })
                    }
                }
            };
            trees.push(tree);
        }
    }
}

const NOWHERE: Span = Span { file: 0, lo: 0, hi: 0 };

/// The tokens of the text, all with the same span.
fn lex(text: &str) -> TokenStream {
    Lexer { chars: text.chars().collect(), pos: 0, at: |_, _| NOWHERE }.stream(None)
}

fn span(lo: usize, hi: usize) -> Span {
    Span { file: 7, lo: lo as u64, hi: hi as u64 }
}

/// The tokens of the text, each with the offsets where it starts and ends.
fn lex_spans(text: &str) -> TokenStream {
    Lexer { chars: text.chars().collect(), pos: 0, at: span }.stream(None)
}

fn ok(text: &str) -> Vec<Markup> {
    match parse(lex(text)) {
        Ok(markups) => markups,
        Err(message) => panic!("`{}`: {}", text, message),
    }
}

fn err(text: &str) -> String {
    match parse(lex(text)) {
        Ok(markups) => panic!("`{}`: {:?}", text, markups),
        Err(message) => message,
    }
}

fn string(content: &str) -> Markup {
    Markup::Literal { content: content.to_string(), span: NOWHERE }
}

fn splice(expr: &str) -> Markup {
    Markup::Splice { expr: lex(expr) }
}

fn block(markups: Vec<Markup>) -> Block {
    Block { markups, span: NOWHERE }
}

fn special(head: &str, markups: Vec<Markup>) -> Special {
    Special { head: lex(head), body: block(markups) }
}

fn no_attrs() -> Attrs {
    Attrs {
        classes_static: Vec::new(),
        classes_toggled: Vec::new(),
        ids: Vec::new(),
        attrs: Vec::new(),
    }
}

fn element(name: &str, attrs: Attrs, body: Option<Markup>) -> Markup {
    Markup::Element { name: lex(name), attrs, body: body.map(Box::new) }
}

fn attr(name: &str, value: Markup) -> Attribute {
    Attribute { name: lex(name), attr_type: AttrType::Normal { value } }
}

fn toggler(cond: &str) -> Toggler {
    Toggler { cond: lex(cond), cond_span: NOWHERE }
}

fn empty_attr(name: &str, cond: Option<&str>) -> Attribute {
    Attribute { name: lex(name), attr_type: AttrType::Empty { toggler: cond.map(toggler) } }
}

fn attrs_of(text: &str) -> Attrs {
    match ok(text).pop() {
        Some(Markup::Element { attrs, .. }) => attrs,
        other => panic!("{:?}", other),
    }
}

#[test]
fn empty_template() {
    assert_eq!(ok(""), vec![]);
    assert_eq!(ok(";;;"), vec![]);
}

#[test]
fn literals_and_splices() {
    assert_eq!(
        ok("\"Hello, \" (name) \"!\""),
        vec![string("Hello, "), splice("name"), string("!")]
    );
    assert_eq!(ok("(a.b(c) + { d })"), vec![splice("a.b(c) + { d }")]);
    assert_eq!(ok("()"), vec![splice("")]);
}

#[test]
fn semicolons_between_markup_are_skipped() {
    assert_eq!(ok("; \"a\" ;; \"b\" ;"), vec![string("a"), string("b")]);
    assert_eq!(ok("; (x)"), ok("(x)"));
    assert_eq!(ok("(x) ;"), ok("(x)"));
}

#[test]
fn blocks_nest() {
    assert_eq!(
        ok("{ \"a\" { (b) } }"),
        vec![Markup::Block(block(vec![
            string("a"),
            Markup::Block(block(vec![splice("b")])),
        ]))]
    );
    assert_eq!(ok("{}"), vec![Markup::Block(block(vec![]))]);
    assert_eq!(err("{ p }"), err("p"));
}

#[test]
fn a_group_without_markup_is_invalid() {
    assert_eq!(err("[x]"), "invalid syntax");
    let invisible = TokenTree::Group(Group {
        delimiter: Delimiter::Invisible,
        stream: lex("(x)"),
        span: NOWHERE,
    });
    assert_eq!(parse(TokenStream { trees: vec![invisible] }), Err("invalid syntax".to_string()));
}

#[test]
fn other_punctuation_is_invalid() {
    assert_eq!(err("+"), "invalid syntax");
    assert_eq!(err("\"a\" /"), "invalid syntax");
    assert_eq!(err("p . ;"), "expected identifier");
}

#[test]
fn literals_that_are_no_strings() {
    assert_eq!(err("42"), "expected string");
    assert_eq!(err("p 42"), "expected string");
    assert_eq!(err("a href=1 {}"), "expected string");
}

#[test]
fn elements_with_a_body() {
    assert_eq!(ok("p \"hi\""), vec![element("p", no_attrs(), Some(string("hi")))]);
    assert_eq!(
        ok("p { \"hi\" (x) }"),
        vec![element(
            "p",
            no_attrs(),
            Some(Markup::Block(block(vec![string("hi"), splice("x")])))
        )]
    );
    assert_eq!(
        ok("ul li (x) b;"),
        vec![
            element("ul", no_attrs(), Some(element("li", no_attrs(), Some(splice("x"))))),
            element("b", no_attrs(), None),
        ]
    );
}

#[test]
fn void_elements() {
    assert_eq!(ok("br;"), vec![element("br", no_attrs(), None)]);
    assert_eq!(ok("br /"), ok("br;"));
    assert_eq!(
        ok("br; hr / (x)"),
        vec![element("br", no_attrs(), None), element("hr", no_attrs(), None), splice("x")]
    );
}

#[test]
fn an_element_needs_a_body_or_a_semicolon() {
    assert_eq!(err("br"), "unexpected end of input");
    assert_eq!(err("p br"), "unexpected end of input");
    assert_eq!(err("p , "), "invalid syntax");
}

#[test]
fn names_may_hold_hyphens_and_a_namespace() {
    assert_eq!(ok("my-element;"), vec![element("my-element", no_attrs(), None)]);
    assert_eq!(ok("a--b- ;"), vec![element("a--b-", no_attrs(), None)]);
    assert_eq!(ok("svg:foo-bar;"), vec![element("svg:foo-bar", no_attrs(), None)]);
    assert_eq!(ok("a b;"), vec![element("a", no_attrs(), Some(element("b", no_attrs(), None)))]);
    assert_eq!(err("svg: ;"), "expected identifier");
}

#[test]
fn names_are_taken_as_they_are_written() {
    let input = lex("data-x-1 - y:z rest");
    let mut parser = Parser::new(&input);
    // `1` is a literal, so the name ends before it.
    assert_eq!(parser.name(), Ok(lex("data-x- ")));
    assert_eq!(parser.name(), Err("expected identifier".to_string()));
    assert_eq!(parser.next().map(|t| t.clone()), lex("1").trees.pop());
    parser.advance();
    assert_eq!(parser.namespaced_name(), Ok(lex("y:z")));
    assert_eq!(parser.namespaced_name(), Ok(lex("rest")));
    assert_eq!(parser.peek(), None);
    assert_eq!(parser.name(), Err("expected identifier".to_string()));
}

#[test]
fn attributes_with_values() {
    assert_eq!(
        attrs_of("a href=\"x\" data-y=(z) xml:lang={ \"e\" \"n\" } { }").attrs,
        vec![
            attr("href", string("x")),
            attr("data-y", splice("z")),
            attr("xml:lang", Markup::Block(block(vec![string("e"), string("n")]))),
        ]
    );
}

#[test]
fn empty_attributes() {
    assert_eq!(
        attrs_of("input checked? disabled?[a > b] x:y? ;").attrs,
        vec![
            empty_attr("checked", None),
            empty_attr("disabled", Some("a > b")),
            empty_attr("x:y", None),
        ]
    );
}

#[test]
fn classes_and_ids() {
    let attrs = attrs_of("div.a.b-c[cond]#main.d#other ;");
    assert_eq!(
        attrs,
        Attrs {
            classes_static: vec![lex("a"), lex("d")],
            classes_toggled: vec![(lex("b-c"), toggler("cond"))],
            ids: vec![lex("main"), lex("other")],
            attrs: vec![],
        }
    );
    assert_eq!(err("div. ;"), "expected identifier");
    assert_eq!(err("div.1 ;"), "expected identifier");
    assert_eq!(err("div# ;"), "expected identifier");
    assert_eq!(err("div#main[x] ;"), "invalid syntax");
}

#[test]
fn attributes_of_all_kinds_keep_their_order() {
    let attrs = attrs_of("a.b href=\"1\" #c d? .e[f] g=(h) ;");
    assert_eq!(
        attrs,
        Attrs {
            classes_static: vec![lex("b")],
            classes_toggled: vec![(lex("e"), toggler("f"))],
            ids: vec![lex("c")],
            attrs: vec![attr("href", string("1")), empty_attr("d", None), attr("g", splice("h"))],
        }
    );
}

#[test]
fn attributes_end_at_a_name_that_is_none() {
    assert_eq!(
        ok("p a=\"1\" b c? ;"),
        vec![element(
            "p",
            Attrs { attrs: vec![attr("a", string("1"))], ..no_attrs() },
            Some(element("b", Attrs { attrs: vec![empty_attr("c", None)], ..no_attrs() }, None))
        )]
    );
    let input = lex("a? .b c;");
    let mut parser = Parser::new(&input);
    let attrs = Attrs {
        classes_static: vec![lex("b")],
        attrs: vec![empty_attr("a", None)],
        ..no_attrs()
    };
    assert_eq!(parser.attrs(), Ok(attrs));
    assert_eq!(parser.attrs(), Ok(no_attrs()));
    assert_eq!(parser.name(), Ok(lex("c")));
}

#[test]
fn a_name_cut_short_is_no_attribute() {
    assert_eq!(err("p a: .b ;"), "expected identifier");
    assert_eq!(err("p a: #b ;"), "expected identifier");
    assert_eq!(err("p a: ? ;"), "expected identifier");
    assert_eq!(err("p a:"), "expected identifier");
    let input = lex("foo:.bar;");
    let mut parser = Parser::new(&input);
    assert_eq!(parser.attrs(), Ok(no_attrs()));
    for tree in input.trees.iter() {
        assert_eq!(parser.next(), Some(tree));
    }
}

#[test]
fn attributes_side_by_side() {
    let attrs = |text: &str| {
        let input = lex(text);
        let mut parser = Parser::new(&input);
        let attrs = parser.attrs();
        assert_eq!(parser.peek(), None);
        match attrs {
            Ok(attrs) => attrs,
            Err(message) => panic!("`{}`: {}", text, message),
        }
    };
    let parts = ["", ".a", "#b .a", "c? .d[e]", "f=\"1\" g?[h]", "i=@if x { (y) }", "#j"];
    for a in parts.iter() {
        for b in parts.iter() {
            let mut both = attrs(a);
            let more = attrs(b);
            both.classes_static.extend(more.classes_static);
            both.classes_toggled.extend(more.classes_toggled);
            both.ids.extend(more.ids);
            both.attrs.extend(more.attrs);
            assert_eq!(attrs(&format!("{} {}", a, b)), both);
        }
    }
    // After a hyphen the name goes on.
    assert_eq!(attrs(".a- b").classes_static, vec![lex("a-b")]);
}

#[test]
fn no_element_inside_an_attribute() {
    let message = "unexpected element, you silly bumpkin";
    assert_eq!(err("a href=b;"), message);
    assert_eq!(err("a href={ b; } {}"), message);
    assert_eq!(err("a href={ @if x { (y) b; } } {}"), message);
    assert_eq!(err("a href={ @match x { _ => b; , } } {}"), message);
    // Once the attribute is over, elements are fine again.
    assert_eq!(
        ok("a href={ (x) } b;"),
        vec![element(
            "a",
            Attrs {
                attrs: vec![attr("href", Markup::Block(block(vec![splice("x")])))],
                ..no_attrs()
            },
            Some(element("b", no_attrs(), None))
        )]
    );
}

#[test]
fn a_value_that_fails_leaves_the_parser_in_the_attribute() {
    let input = lex("href=1 b;");
    let mut parser = Parser::new(&input);
    assert_eq!(parser.attrs(), Err("expected string".to_string()));
    assert_eq!(parser.markup(), Err("unexpected element, you silly bumpkin".to_string()));
}

#[test]
fn attribute_values_are_single_pieces_of_markup() {
    assert_eq!(
        ok("p a=\"1\" \"2\""),
        vec![element(
            "p",
            Attrs { attrs: vec![attr("a", string("1"))], ..no_attrs() },
            Some(string("2"))
        )]
    );
    assert_eq!(err("p a="), "unexpected end of input");
    assert_eq!(err("p a=;"), "invalid syntax");
    let value = Markup::Special { segments: vec![special("if x", vec![string("1")])] };
    assert_eq!(attrs_of("p a=@if x { \"1\" } ;").attrs, vec![attr("a", value)]);
}

#[test]
fn if_without_else() {
    assert_eq!(
        ok("@if a == b { (c) }"),
        vec![Markup::Special { segments: vec![special("if a == b", vec![splice("c")])] }]
    );
}

#[test]
fn if_with_branches() {
    assert_eq!(
        ok("@if a { \"1\" } @else if let Some(x) = b { \"2\" } @else { \"3\" } (d)"),
        vec![
            Markup::Special {
                segments: vec![
                    special("if a", vec![string("1")]),
                    special("else if let Some(x) = b", vec![string("2")]),
                    special("else", vec![string("3")]),
                ],
            },
            splice("d"),
        ]
    );
}

#[test]
fn a_second_else_does_not_belong_to_the_if() {
    assert_eq!(err("@if a {} @else {} @else {}"), "unknown keyword `@else`");
    assert_eq!(err("@if a {} ; @else {}"), "unknown keyword `@else`");
    assert_eq!(err("@else {}"), "unknown keyword `@else`");
}

#[test]
fn errors_in_if() {
    assert_eq!(err("@if a"), "unexpected end of @if expression");
    assert_eq!(err("@if"), "unexpected end of @if expression");
    assert_eq!(err("@if a {} @else if b"), "unexpected end of @if expression");
    assert_eq!(err("@if a {} @else"), "expected body for @else");
    assert_eq!(err("@if a {} @else b {}"), "expected body for @else");
    assert_eq!(err("@if a {} @else (b)"), "expected body for @else");
    assert_eq!(err("@if a { + }"), "invalid syntax");
    assert_eq!(err("@if a {} @else { + }"), "invalid syntax");
}

#[test]
fn branches_before_an_error_are_kept() {
    let input = lex("a { (x) } @else if b");
    let mut parser = Parser::new(&input);
    let mut segments = vec![];
    let result = parser.if_expr(lex("if").trees, &mut segments);
    assert_eq!(result, Err("unexpected end of @if expression".to_string()));
    assert_eq!(segments, vec![special("if a", vec![splice("x")])]);
    assert_eq!(parser.peek(), None);
}

#[test]
fn branches_are_added_behind_those_that_are_there() {
    let input = lex("a {} @else if b {} @else {} (c)");
    let mut parser = Parser::new(&input);
    let mut segments = vec![special("else if z", vec![splice("y")])];
    assert_eq!(parser.if_expr(lex("else if").trees, &mut segments), Ok(()));
    assert_eq!(
        segments,
        vec![
            special("else if z", vec![splice("y")]),
            special("else if a", vec![]),
            special("else if b", vec![]),
            special("else", vec![]),
        ]
    );
    assert_eq!(parser.markup(), Ok(splice("c")));
}

#[test]
fn while_and_for() {
    assert_eq!(
        ok("@while let Some(x) = it.next() { (x) }"),
        vec![Markup::Special {
            segments: vec![special("while let Some(x) = it.next()", vec![splice("x")])],
        }]
    );
    assert_eq!(
        ok("@for (i, x) in xs.iter() { (i) (x) }"),
        vec![Markup::Special {
            segments: vec![special("for (i, x) in xs.iter()", vec![splice("i"), splice("x")])],
        }]
    );
}

#[test]
fn a_for_body_comes_after_in() {
    assert_eq!(
        ok("@for S { x } in xs { (x) }"),
        vec![Markup::Special {
            segments: vec![special("for S { x } in xs", vec![splice("x")])],
        }]
    );
}

#[test]
fn errors_in_loops() {
    assert_eq!(err("@while a"), "unexpected end of @while expression");
    assert_eq!(err("@while a { + }"), "invalid syntax");
    assert_eq!(err("@for x"), "unexpected end of @for expression");
    assert_eq!(err("@for x in xs"), "unexpected end of @for expression");
    assert_eq!(err("@for x { (x) }"), "unexpected end of @for expression");
    assert_eq!(err("@for x in xs { + }"), "invalid syntax");
}

#[test]
fn match_expressions() {
    assert_eq!(
        ok("@match x { Some(y) if y > 1 => { (y) }, None => \"none\" b; , _ => {} }"),
        vec![Markup::Match {
            head: lex("match x"),
            arms: vec![
                special("Some(y) if y > 1 => ", vec![splice("y")]),
                special("None => ", vec![string("none"), element("b", no_attrs(), None)]),
                special("_ => ", vec![]),
            ],
            arms_span: NOWHERE,
        }]
    );
    assert_eq!(
        ok("@match x {}"),
        vec![Markup::Match { head: lex("match x"), arms: vec![], arms_span: NOWHERE }]
    );
}

#[test]
fn a_comma_after_a_braced_arm_is_optional() {
    assert_eq!(
        ok("@match x { A => { \"a\" } B => { \"b\" } }"),
        ok("@match x { A => { \"a\" }, B => { \"b\" }, }")
    );
}

#[test]
fn any_other_arm_needs_its_comma() {
    assert_eq!(err("@match x { A => \"a\" }"), "unexpected end of @match arm");
    assert_eq!(err("@match x { A => (a), B => (b) }"), "unexpected end of @match arm");
}

#[test]
fn an_arm_takes_its_first_token_whatever_it_is() {
    assert_eq!(err("@match x { A => , }"), "unexpected end of @match arm");
    assert_eq!(err("@match x { A => , , }"), "invalid syntax");
}

#[test]
fn patterns_go_up_to_the_first_arrow() {
    let arms = match ok("@match x { a >= b = > c => \"1\" , }").pop() {
        Some(Markup::Match { arms, .. }) => arms,
        other => panic!("{:?}", other),
    };
    assert_eq!(arms[0].head, lex("a >= b = > c => "));
    assert_eq!(err("@match x { a => b => c , }"), "invalid syntax");
}

#[test]
fn errors_in_match() {
    assert_eq!(err("@match x"), "unexpected end of @match expression");
    assert_eq!(err("@match x { A }"), "unexpected end of @match pattern");
    assert_eq!(err("@match x { A = > {} }"), "unexpected end of @match pattern");
    assert_eq!(err("@match x { A => }"), "unexpected end of @match arm");
    assert_eq!(err("@match x { A => { + } }"), "invalid syntax");
    assert_eq!(err("@match x { A => + , }"), "invalid syntax");
}

#[test]
fn lets() {
    assert_eq!(
        ok("@let x: u8 = a + 1; (x)"),
        vec![Markup::Let { tokens: lex("let x: u8 = a + 1;") }, splice("x")]
    );
    assert_eq!(
        ok("{ @let S { y } = f(z; w) == 1; }"),
        vec![Markup::Block(block(vec![Markup::Let {
            tokens: lex("let S { y } = f(z; w) == 1;"),
        }]))]
    );
    assert_eq!(
        ok("@if a { @let x = 1; }"),
        vec![Markup::Special {
            segments: vec![special("if a", vec![Markup::Let { tokens: lex("let x = 1;") }])],
        }]
    );
}

#[test]
fn errors_in_let() {
    assert_eq!(err("@let x"), "unexpected end of @let expression");
    assert_eq!(err("@let x; (x)"), "unexpected end of @let expression");
    assert_eq!(err("@let x = 1"), "unexpected end of @let expression");
    assert_eq!(err("p @let x = 1;"), "@let only works inside a block");
    assert_eq!(err("p a=@let x = 1;"), "@let only works inside a block");
}

#[test]
fn unknown_keywords() {
    assert_eq!(err("@unless x {}"), "unknown keyword `@unless`");
    assert_eq!(err("@"), "expected keyword after `@`");
    assert_eq!(err("@(x)"), "expected keyword after `@`");
    assert_eq!(err("@@if x {}"), "expected keyword after `@`");
}

#[test]
fn templates_side_by_side() {
    let parts = ["p \"a\"", "br;", "@if x { (y) }", "@let z = 1;", "a href=\"b\" (c)", ";"];
    for a in parts.iter() {
        for b in parts.iter() {
            let mut both = ok(a);
            both.extend(ok(b));
            assert_eq!(ok(&format!("{} {}", a, b)), both);
        }
    }
    assert_eq!(ok("@if x {} @else {}").len(), 1);
}

#[test]
fn spans_of_literals_blocks_and_togglers() {
    assert_eq!(
        parse(lex_spans("p.a[b c] { \"d\" }")),
        Ok(vec![Markup::Element {
            name: TokenStream {
                trees: vec![TokenTree::Ident(Ident { text: "p".to_string(), span: span(0, 1) })],
            },
            attrs: Attrs {
                classes_toggled: vec![(
                    TokenStream {
                        trees: vec![TokenTree::Ident(Ident {
                            text: "a".to_string(),
                            span: span(2, 3),
                        })],
                    },
                    Toggler {
                        cond: TokenStream {
                            trees: vec![
                                TokenTree::Ident(Ident { text: "b".to_string(), span: span(4, 5) }),
                                TokenTree::Ident(Ident { text: "c".to_string(), span: span(6, 7) }),
                            ],
                        },
                        cond_span: span(3, 8),
                    },
                )],
                ..no_attrs()
            },
            body: Some(Box::new(Markup::Block(Block {
                markups: vec![Markup::Literal { content: "d".to_string(), span: span(11, 14) }],
                span: span(9, 16),
            }))),
        }])
    );
}

#[test]
fn spans_of_match_arms() {
    let (arms, arms_span) = match parse(lex_spans("@match x { A => { (a) } B => \"b\" (c) , }")) {
        Ok(mut markups) => match markups.pop() {
            Some(Markup::Match { arms, arms_span, .. }) => (arms, arms_span),
            other => panic!("{:?}", other),
        },
        Err(message) => panic!("{}", message),
    };
    assert_eq!(arms_span, span(9, 40));
    assert_eq!(arms[0].body.span, span(16, 23));
    assert_eq!(arms[1].body.span, span(29, 36));
}

#[test]
fn a_token_of_another_file_does_not_widen_the_span() {
    let mut input = lex_spans("@match x { A => \"b\" (c) (d) , }");
    let elsewhere = Span { file: 8, lo: 0, hi: 99 };
    if let TokenTree::Group(group) = &mut input.trees[3] {
        if let TokenTree::Group(splice) = &mut group.stream.trees[4] {
            splice.span = elsewhere;
        }
    }
    match parse(input).map(|mut markups| markups.pop()) {
        Ok(Some(Markup::Match { arms, .. })) => assert_eq!(arms[0].body.span, span(16, 27)),
        other => panic!("{:?}", other),
    }
}

#[test]
fn joining_spans() {
    let a = span(1, 4);
    let b = span(3, 9);
    assert_eq!(a.join(b), Some(span(1, 9)));
    assert_eq!(b.join(a), Some(span(1, 9)));
    assert_eq!(a.join(a), Some(a));
    assert_eq!(span(0, 10).join(a), Some(span(0, 10)));
    assert_eq!(a.join(Span { file: 1, lo: 1, hi: 4 }), None);
}

#[test]
fn looking_ahead_consumes_nothing() {
    let input = lex("a b");
    let mut parser = Parser::new(&input);
    assert_eq!(parser.peek(), Some(&input.trees[0]));
    assert_eq!(parser.peek2(), Some((&input.trees[0], Some(&input.trees[1]))));
    parser.advance();
    assert_eq!(parser.peek2(), Some((&input.trees[1], None)));
    let before = parser;
    parser.advance2();
    assert_eq!(parser.peek2(), None);
    assert_eq!(parser.next(), None);
    parser.commit(before);
    assert_eq!(parser.next(), Some(&input.trees[1]));
}

#[test]
fn markup_takes_what_it_needs_and_no_more() {
    let input = lex("p \"a\" (b)");
    let mut parser = Parser::new(&input);
    assert_eq!(parser.markup(), Ok(element("p", no_attrs(), Some(string("a")))));
    assert_eq!(parser.markup(), Ok(splice("b")));
    assert_eq!(parser.markup(), Err("unexpected end of input".to_string()));
    let mut parser = Parser::new(&input);
    assert_eq!(parser.markups().map(|markups| markups.len()), Ok(2));
    assert_eq!(parser.peek(), None);
}

#[test]
fn a_parser_on_other_input_keeps_its_context() {
    let input = lex("a=1");
    let other = lex("b;");
    let mut parser = Parser::new(&input);
    assert_eq!(parser.with_input(&other).markup(), Ok(element("b", no_attrs(), None)));
    assert_eq!(parser.attrs(), Err("expected string".to_string()));
    assert_eq!(
        parser.with_input(&other).markup(),
        Err("unexpected element, you silly bumpkin".to_string())
    );
    assert_eq!(
        parser.block(&other, NOWHERE),
        Err("unexpected element, you silly bumpkin".to_string())
    );
}

#[test]
fn cloned_tokens_are_the_same() {
    let input = lex_spans("a.b[c] { \"d\" => (e, f) }");
    assert_eq!(input.clone(), input);
}
