use pipc::lexer::ParseContext;
use pipc::lexer::ParseError;
use pipc::token::Span;
use pipc::token::Token;
use pipc::token::TokenTy;
use pipc::token::TokenTyDisc;

fn lex(src: &str) -> Vec<Token> {
    let mut ctx = ParseContext::new(src, "test.pipc");
    let mut out = Vec::new();
    while let Ok(t) = ctx.next() {
        out.push(t);
    }
    out
}

fn kinds(src: &str) -> Vec<TokenTy> {
    lex(src).into_iter().map(|t| t.ty).collect()
}

#[test]
fn punctuation_and_words() {
    assert_eq!(
        kinds("interface a(b: int) @ { } [ ] < > , "),
        vec![
            TokenTy::Interface,
            TokenTy::Ident,
            TokenTy::LParen,
            TokenTy::Ident,
            TokenTy::Colon,
            TokenTy::Ident,
            TokenTy::RParen,
            TokenTy::At,
            TokenTy::LBrace,
            TokenTy::RBrace,
            TokenTy::LSquare,
            TokenTy::RSquare,
            TokenTy::LAngle,
            TokenTy::RAngle,
            TokenTy::Comma,
        ]
    );
}

#[test]
fn word_at_end_of_source_yields_no_token() {
    assert_eq!(kinds("interface foo"), vec![TokenTy::Interface]);
    assert_eq!(kinds("interface foo\n"), vec![TokenTy::Interface, TokenTy::Ident]);
    assert_eq!(kinds(""), vec![]);
}

#[test]
fn keywords_numbers_and_uids() {
    assert_eq!(kinds("struct "), vec![TokenTy::Struct]);
    assert_eq!(kinds("func "), vec![TokenTy::Function]);
    // `factory` reads as `func`.
    assert_eq!(kinds("factory "), vec![TokenTy::Function]);
    assert_eq!(kinds("42 "), vec![TokenTy::Numeric(42)]);
    assert_eq!(kinds("+7 "), vec![TokenTy::Numeric(7)]);
    assert_eq!(kinds("4294967295 "), vec![TokenTy::Numeric(u32::MAX)]);
    assert_eq!(kinds("4294967296 "), vec![TokenTy::Ident]);
    assert_eq!(kinds("-1 "), vec![TokenTy::Ident]);
    assert_eq!(
        kinds("abcd-ef01-2345-6789abcdef01 "),
        vec![TokenTy::Uid(0xabcdef0123456789abcdef01)]
    );
    // a dash at the start, a bad digit, or a wrong length: identifiers
    assert_eq!(kinds("-bcd-ef01-2345-6789abcdef01 "), vec![TokenTy::Ident]);
    assert_eq!(kinds("abcd-ef01-2345-6789abcdef0g "), vec![TokenTy::Ident]);
    assert_eq!(kinds("abcd-ef01-2345-6789abcdef0 "), vec![TokenTy::Ident]);
    assert_eq!(
        kinds("+bcd-ef01-2345-6789abcdef01 "),
        vec![TokenTy::Uid(0xbcdef0123456789abcdef01)]
    );
}

#[test]
fn classify_words_directly() {
    assert_eq!(TokenTy::from_word("interface"), TokenTy::Interface);
    assert_eq!(TokenTy::from_word("->"), TokenTy::Arrow);
    assert_eq!(TokenTy::from_word("0"), TokenTy::Numeric(0));
    assert_eq!(TokenTy::from_word("name"), TokenTy::Ident);
    // dashes at bytes 4, 9 and 14 around a two-byte character: no uid
    assert_eq!(TokenTy::from_word("ab\u{e9}-ef01-2345-6789abcdef01"), TokenTy::Ident);
    // dashes at characters 4, 9 and 14 with a two-byte character: no uid either
    assert_eq!(TokenTy::from_word("abcd-ef01-2345-6789abcdef0\u{e9}"), TokenTy::Ident);
    assert_eq!(
        TokenTy::from_word("ABCD-EF01-2345-6789ABCDEF01"),
        TokenTy::Uid(0xabcdef0123456789abcdef01)
    );
    assert_eq!(TokenTy::from_punct('@'), TokenTy::At);
    assert_eq!(TokenTy::from_punct(']'), TokenTy::RSquare);
    assert_eq!(TokenTy::Numeric(3).as_disc(), TokenTyDisc::Numeric);
    assert_eq!(TokenTy::Uid(3).as_disc(), TokenTyDisc::Uid);
}

#[test]
fn arrow_only_after_a_lone_dash() {
    assert_eq!(kinds(") -> x "), vec![TokenTy::RParen, TokenTy::Arrow, TokenTy::Ident]);
    assert_eq!(kinds("->x "), vec![TokenTy::Arrow, TokenTy::Ident]);
    // `a->` is the word `a-` and a `>`
    assert_eq!(kinds("a-> "), vec![TokenTy::Ident, TokenTy::RAngle]);
    let toks = lex(" -> ");
    assert_eq!(toks[0].span, Span { line: 1, column: 1, start: 1, end: 3 });
}

#[test]
fn positions_are_lines_and_byte_columns() {
    let src = "interface a\n  é(b\n\tc)";
    let toks = lex(src);
    let spans: Vec<(usize, usize, usize, usize)> =
        toks.iter().map(|t| (t.span.line, t.span.column, t.span.start, t.span.end)).collect();
    assert_eq!(
        spans,
        vec![
            (1, 0, 0, 9),
            (1, 10, 10, 11),
            (2, 2, 14, 15),
            (2, 4, 15, 16),
            (2, 5, 16, 17),
            (3, 1, 19, 20),
            (3, 2, 20, 21),
        ]
    );
}

#[test]
fn unicode_white_space_separates_words() {
    assert_eq!(kinds("a\u{a0}b\u{3000}"), vec![TokenTy::Ident, TokenTy::Ident]);
    assert_eq!(kinds("a\u{2028}"), vec![TokenTy::Ident]);
    // not white space: part of the word
    assert_eq!(kinds("a\u{200b}b "), vec![TokenTy::Ident]);
}

#[test]
fn text_of_tokens() {
    let ctx = ParseContext::new("interface  my.iface(", "f");
    let toks = lex("interface  my.iface(");
    assert_eq!(ctx.text_of(toks[1].span), "my.iface");
    assert_eq!(ctx.text_of(toks[2].span), "(");
}

#[test]
fn peek_then_next() {
    let mut ctx = ParseContext::new("a b ", "f");
    let first = ctx.peek().unwrap();
    assert_eq!(ctx.next().unwrap(), first);
    assert_eq!(ctx.next().unwrap().span.start, 2);
    assert!(ctx.peek().is_none());
    assert!(matches!(ctx.next(), Err(ParseError::EndOfInput)));
}

#[test]
fn expect_reports_the_expected_kinds() {
    let mut ctx = ParseContext::new("a b c ", "f");
    assert!(ctx.expect(TokenTyDisc::Ident).is_ok());
    match ctx.expect(TokenTyDisc::LParen) {
        Err(ParseError::Syntax { message, span }) => {
            assert_eq!(message, "expected `(`");
            assert_eq!(span.start, 2);
        }
        other => panic!("{:?}", other),
    }
    match ctx.expect_one(&[TokenTyDisc::Comma, TokenTyDisc::RParen, TokenTyDisc::Numeric]) {
        Err(ParseError::Syntax { message, .. }) => {
            assert_eq!(message, "expected one of `,`, `)`, or Numeric\n");
        }
        other => panic!("{:?}", other),
    }
}

#[test]
fn error_messages_for_lists() {
    let ctx = ParseContext::new("", "f");
    let span = Span { line: 1, column: 0, start: 0, end: 0 };
    match ctx.error_unexpected(&[TokenTyDisc::Ident, TokenTyDisc::RParen], span) {
        ParseError::Syntax { message, .. } => assert_eq!(message, "expected one of identifier, or `)`\n"),
        other => panic!("{:?}", other),
    }
    match ctx.error_unexpected(&[TokenTyDisc::Function], span) {
        ParseError::Syntax { message, .. } => assert_eq!(message, "expected `func`"),
        other => panic!("{:?}", other),
    }
    match ctx.error_unexpected(&[], span) {
        ParseError::Syntax { message, .. } => assert_eq!(message, "expected one of \n"),
        other => panic!("{:?}", other),
    }
    assert_eq!(TokenTyDisc::LBrace.name(), "`{`");
    assert_eq!(TokenTyDisc::Uid.name(), "Uid");
}

#[test]
fn span_lookup_finds_each_token() {
    let src = "interface a(b: int) @x {\n}\n";
    let toks = lex(src);
    let ctx = ParseContext::new(src, "f");
    for (k, t) in toks.iter().enumerate() {
        assert_eq!(ctx.span_to_idx(t.span), Some(k));
    }
    assert_eq!(ctx.span_to_idx(Span { line: 9, column: 0, start: 0, end: 0 }), None);
}

#[test]
fn tokens_of_a_line() {
    let src = "interface a(b: int)\n  @x {\n}\n";
    let toks = lex(src);
    let ctx = ParseContext::new(src, "f");
    let (line, mid) = ctx.tokens_by_line(toks[3].span);
    assert_eq!(line.len(), 7);
    assert_eq!(mid, 3);
    assert!(ctx.can_show_line(toks[3].span));
    // the last line has no line after it
    assert!(!ctx.can_show_line(toks[toks.len() - 1].span));
    let (none, zero) = ctx.tokens_by_line(Span { line: 7, column: 7, start: 0, end: 0 });
    assert_eq!((none.len(), zero), (0, 0));
}

#[test]
fn error_report_marks_the_token() {
    let src = "interface a(b:  wrong)\n  @x {\n}\n";
    let toks = lex(src);
    let ctx = ParseContext::new(src, "dir/test.pipc");
    let bad = toks[5];
    assert!(ctx.can_show_line(bad.span));
    let rep = ctx.error_str("expected primitive type", bad.span);
    assert_eq!(rep.message, "expected primitive type");
    assert_eq!(rep.location, "dir/test.pipc:1:17");
    assert_eq!(rep.line_number, "1");
    assert_eq!(rep.code, "interface a(b:  wrong)");
    assert_eq!(rep.marker_offset, 16);
    assert_eq!(rep.marker_width, 5);
}

#[test]
fn error_report_counts_bytes() {
    let src = "interface é(ü: x)\nz\n";
    let toks = lex(src);
    let ctx = ParseContext::new(src, "f");
    let rep = ctx.error_str("m", toks[3].span);
    assert_eq!(rep.code, "interface é(ü: x)");
    assert_eq!(rep.marker_offset, 13);
    assert_eq!(rep.marker_width, 2);
    assert_eq!(rep.location, "f:1:14");
}
