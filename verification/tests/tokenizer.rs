use oraide::{ByteIndex, FileId, FileSpan, Token, TokenCollectionExts, TokenKind, Tokenizer};

fn tokenize(text: &str) -> Vec<Token> {
    Tokenizer::new(FileId(0), text).run()
}

fn kinds(text: &str) -> Vec<TokenKind> {
    tokenize(text).into_iter().map(|t| t.kind).collect()
}

fn span(start: usize, end: usize) -> FileSpan {
    FileSpan::new(FileId(0), ByteIndex(start), ByteIndex(end))
}

#[test]
fn doc_example_has_five_tokens() {
    let file_id = FileId(0);
    let mut tokenizer = Tokenizer::new(file_id, "your source text");
    let tokens: Vec<Token> = tokenizer.run();
    assert_eq!(tokens.len(), 5);
    let first_token = tokens.first().unwrap();
    assert_eq!(first_token.kind, TokenKind::Identifier);
    assert_eq!(first_token.span, FileSpan::new(file_id, ByteIndex(0), ByteIndex(4)));
    assert_eq!(
        kinds("your source text"),
        vec![
            TokenKind::Identifier,
            TokenKind::Whitespace,
            TokenKind::Identifier,
            TokenKind::Whitespace,
            TokenKind::Identifier
        ]
    );
}

#[test]
fn empty_text_has_no_tokens() {
    assert!(tokenize("").is_empty());
    let mut t = Tokenizer::new(FileId(3), "");
    assert_eq!(t.next(), None);
}

#[test]
fn next_is_none_after_run() {
    let mut t = Tokenizer::new(FileId(1), "a: b");
    let tokens = t.run();
    assert_eq!(tokens.len(), 4);
    assert_eq!(t.next(), None);
    assert!(t.run().is_empty());
}

#[test]
fn next_yields_the_same_tokens_as_run() {
    let text = "Foo:\n\tBar: 12, -3.5 # note\r\n";
    let mut t = Tokenizer::new(FileId(2), text);
    let mut one_by_one = Vec::new();
    while let Some(tok) = t.next() {
        one_by_one.push(tok);
    }
    assert_eq!(one_by_one, Tokenizer::new(FileId(2), text).run());
}

#[test]
fn keywords_in_any_case() {
    assert_eq!(kinds("true"), vec![TokenKind::True]);
    assert_eq!(kinds("TRUE"), vec![TokenKind::True]);
    assert_eq!(kinds("False"), vec![TokenKind::False]);
    assert_eq!(kinds("yEs"), vec![TokenKind::Yes]);
    assert_eq!(kinds("NO"), vec![TokenKind::No]);
    assert_eq!(kinds("truex"), vec![TokenKind::Identifier]);
    assert_eq!(kinds("nope"), vec![TokenKind::Identifier]);
}

#[test]
fn integer_literals() {
    assert_eq!(kinds("0"), vec![TokenKind::IntLiteral]);
    assert_eq!(kinds("42"), vec![TokenKind::IntLiteral]);
    assert_eq!(kinds("-42"), vec![TokenKind::IntLiteral]);
    assert_eq!(kinds("9223372036854775807"), vec![TokenKind::IntLiteral]);
    assert_eq!(kinds("-9223372036854775808"), vec![TokenKind::IntLiteral]);
    // out of the range of an i64
    assert_eq!(kinds("9223372036854775808"), vec![TokenKind::Identifier]);
    assert_eq!(kinds("-9223372036854775809"), vec![TokenKind::Identifier]);
    // a dash inside is no number
    assert_eq!(kinds("1-2"), vec![TokenKind::Identifier]);
    assert_eq!(kinds("--1"), vec![TokenKind::Identifier]);
}

#[test]
fn float_literals() {
    assert_eq!(kinds("1.5"), vec![TokenKind::FloatLiteral]);
    assert_eq!(kinds("-0.25"), vec![TokenKind::FloatLiteral]);
    assert_eq!(kinds("5."), vec![TokenKind::Identifier]);
    // a `.` cannot start a number
    assert_eq!(kinds(".5"), vec![TokenKind::Symbol, TokenKind::IntLiteral]);
    assert_eq!(kinds("1.2.3"), vec![TokenKind::Identifier]);
    assert_eq!(kinds("-1.-2"), vec![TokenKind::Identifier]);
    // a number must end with a digit
    assert_eq!(kinds("1."), vec![TokenKind::Identifier]);
}

#[test]
fn dashes_and_identifiers() {
    assert_eq!(kinds("---"), vec![TokenKind::Identifier]);
    assert_eq!(kinds("-Foo"), vec![TokenKind::Symbol, TokenKind::Identifier]);
    assert_eq!(
        kinds("- item"),
        vec![TokenKind::Symbol, TokenKind::Whitespace, TokenKind::Identifier]
    );
    assert_eq!(kinds("T01"), vec![TokenKind::Identifier]);
    assert_eq!(kinds("_a.b-c"), vec![TokenKind::Identifier]);
}

#[test]
fn symbols() {
    assert_eq!(
        kinds("~!@^:"),
        vec![TokenKind::Tilde, TokenKind::Bang, TokenKind::At, TokenKind::Caret, TokenKind::Colon]
    );
    assert_eq!(kinds("&&"), vec![TokenKind::LogicalAnd]);
    assert_eq!(kinds("||"), vec![TokenKind::LogicalOr]);
    assert_eq!(kinds("&"), vec![TokenKind::Symbol]);
    assert_eq!(kinds("|&|"), vec![TokenKind::Symbol]);
    assert_eq!(kinds("%"), vec![TokenKind::Symbol]);
}

#[test]
fn comments_run_to_the_end_of_the_line() {
    let text = "# a: b\nc";
    let tokens = tokenize(text);
    assert_eq!(
        tokens.iter().map(|t| t.kind).collect::<Vec<_>>(),
        vec![TokenKind::Comment, TokenKind::EndOfLine, TokenKind::Identifier]
    );
    assert_eq!(tokens[0].text(text), Some("# a: b"));
    // a run of symbols is a comment only when it starts with `#`
    assert_eq!(kinds("#&x"), vec![TokenKind::Comment]);
    assert_eq!(kinds("&#x"), vec![TokenKind::Symbol, TokenKind::Identifier]);
}

#[test]
fn line_breaks() {
    assert_eq!(kinds("\n"), vec![TokenKind::EndOfLine]);
    assert_eq!(kinds("\r\n"), vec![TokenKind::EndOfLine]);
    assert_eq!(kinds("\r"), vec![TokenKind::Error]);
    assert_eq!(kinds("\rx"), vec![TokenKind::Error, TokenKind::Identifier]);
    assert_eq!(tokenize("\r\n")[0].span, span(0, 2));
}

#[test]
fn whitespace_stops_at_line_breaks() {
    let tokens = tokenize(" \t \n  ");
    assert_eq!(
        tokens.iter().map(|t| t.kind).collect::<Vec<_>>(),
        vec![TokenKind::Whitespace, TokenKind::EndOfLine, TokenKind::Whitespace]
    );
    assert_eq!(tokens[0].span, span(0, 3));
    assert_eq!(tokens[1].span, span(3, 4));
    assert_eq!(tokens[2].span, span(4, 6));
}

#[test]
fn unicode_whitespace_and_symbols() {
    // U+3000 is whitespace; U+00E9 is neither a letter of an identifier nor whitespace
    let text = "a\u{3000}\u{e9}";
    let tokens = tokenize(text);
    assert_eq!(
        tokens.iter().map(|t| t.kind).collect::<Vec<_>>(),
        vec![TokenKind::Identifier, TokenKind::Whitespace, TokenKind::Symbol]
    );
    assert_eq!(tokens[0].span, span(0, 1));
    assert_eq!(tokens[1].span, span(1, 4));
    assert_eq!(tokens[2].span, span(4, 6));
    assert_eq!(tokens[2].text(text), Some("\u{e9}"));
}

#[test]
fn spans_are_in_bytes_and_tile_the_text() {
    let text = "Name: \u{65e5}\u{672c} 12 # c\u{1f600}\r\nNext:1.5";
    let tokens = tokenize(text);
    assert_eq!(tokens.first().unwrap().span.start, ByteIndex(0));
    assert_eq!(tokens.last().unwrap().span.end_exclusive, ByteIndex(text.len()));
    for pair in tokens.windows(2) {
        assert_eq!(pair[0].span.end_exclusive, pair[1].span.start);
    }
    let mut rebuilt = String::new();
    for t in &tokens {
        assert!(t.span.start < t.span.end_exclusive);
        rebuilt.push_str(t.text(text).unwrap());
    }
    assert_eq!(rebuilt, text);
    assert_eq!(tokens.span(), Some(span(0, text.len())));
}

#[test]
fn token_text_outside_the_source() {
    let t = Token { kind: TokenKind::Identifier, span: span(2, 9) };
    assert_eq!(t.text("abc"), None);
    let t = Token { kind: TokenKind::Symbol, span: span(1, 2) };
    // byte 1 lies inside the two-byte character
    assert_eq!(t.text("\u{e9}x"), None);
    let t = Token { kind: TokenKind::Symbol, span: span(2, 3) };
    assert_eq!(t.text("\u{e9}x"), Some("x"));
}

#[test]
fn numeric_tokens() {
    let int = Token { kind: TokenKind::IntLiteral, span: span(0, 1) };
    let float = Token { kind: TokenKind::FloatLiteral, span: span(0, 1) };
    let ident = Token { kind: TokenKind::Identifier, span: span(0, 1) };
    assert!(int.is_numeric());
    assert!(float.is_numeric());
    assert!(!ident.is_numeric());
}

#[test]
fn skip_leading_whitespace_keeps_the_rest() {
    let tokens = tokenize("  \tFoo: bar");
    let rest = tokens.skip_leading_whitespace();
    assert_eq!(rest.len(), tokens.len() - 1);
    assert_eq!(rest[0].kind, TokenKind::Identifier);
    assert_eq!(rest, &tokens[1..]);

    let only_space = tokenize("   ");
    assert!(only_space.skip_leading_whitespace().is_empty());

    let empty: Vec<Token> = Vec::new();
    assert!(empty.skip_leading_whitespace().is_empty());

    // an end-of-line is not skipped
    let eol_first = tokenize("\n  x");
    assert_eq!(eol_first.skip_leading_whitespace().len(), eol_first.len());
}

#[test]
fn span_of_a_collection() {
    let tokens = tokenize("ab cd");
    assert_eq!(tokens.span(), Some(span(0, 5)));
    assert_eq!(tokens[2..].span(), Some(span(3, 5)));
    let empty: Vec<Token> = Vec::new();
    assert_eq!(empty.span(), None);
    let other = Tokenizer::new(FileId(7), "x").run();
    assert_eq!(other.span().unwrap().source(), FileId(7));
}

#[test]
fn next_stays_none_at_the_end() {
    let mut t = Tokenizer::new(FileId(0), "x");
    assert!(t.next().is_some());
    assert_eq!(t.next(), None);
    assert_eq!(t.next(), None);
    assert!(t.run().is_empty());
}

#[test]
fn errors_are_exactly_the_lone_carriage_returns() {
    let text = "a\rb\r\nc\r";
    let tokens = tokenize(text);
    let errors: Vec<FileSpan> =
        tokens.iter().filter(|t| t.kind == TokenKind::Error).map(|t| t.span).collect();
    assert_eq!(errors, vec![span(1, 2), span(6, 7)]);
    assert_eq!(
        tokens.iter().map(|t| t.kind).collect::<Vec<_>>(),
        vec![
            TokenKind::Identifier,
            TokenKind::Error,
            TokenKind::Identifier,
            TokenKind::EndOfLine,
            TokenKind::Identifier,
            TokenKind::Error
        ]
    );
}

#[test]
fn token_texts_rebuild_the_text() {
    let text = "Rules:\n\t-Foo: yes ## x\r\n\tBar: \u{e9}t\u{e9} 1.25 -7\r";
    let rebuilt: String = tokenize(text).iter().map(|t| t.text(text).unwrap()).collect();
    assert_eq!(rebuilt, text);
}
