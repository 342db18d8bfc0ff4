use mal_reader::error::{MalError, ReadError, ReaderError};
use mal_reader::parser::{parse_line, read, Delim, Parser};
use mal_reader::repl::{eval, next_step, read_outcome, rep, LineEvent, Step};
use mal_reader::tokenizer::{
    ends_atom_char, is_separator_char, is_special_char, tokenize, Token, Tokenizer,
};
use mal_reader::types::{AtomValue, ListValue, MalValue};

fn sym(text: &str) -> MalValue {
    MalValue::Symbol(AtomValue(text.to_string()))
}

fn string(text: &str) -> MalValue {
    MalValue::Str(text.to_string())
}

fn list(items: Vec<MalValue>) -> MalValue {
    MalValue::List(ListValue(items))
}

fn atom(text: &str) -> Token {
    Token::Atom(text.to_string())
}

fn parse(text: &str) -> Result<Vec<MalValue>, ReaderError> {
    parse_line(text.to_string())
}

#[test]
fn tokenize_simple_list() {
    assert_eq!(
        tokenize("(+ 1 2)"),
        Ok(vec![Token::OpenParen, atom("+"), atom("1"), atom("2"), Token::CloseParen])
    );
}

#[test]
fn tokenize_splice_unquote_is_one_token() {
    assert_eq!(tokenize("~@lst"), Ok(vec![Token::TildeAtSign, atom("lst")]));
    assert_eq!(tokenize("~lst"), Ok(vec![Token::Tilde, atom("lst")]));
    assert_eq!(tokenize("~ @lst"), Ok(vec![Token::Tilde, Token::AtSign, atom("lst")]));
    assert_eq!(tokenize("~"), Ok(vec![Token::Tilde]));
}

#[test]
fn tokenize_every_delimiter_and_marker() {
    assert_eq!(
        tokenize("()[]{}'`^@"),
        Ok(vec![
            Token::OpenParen,
            Token::CloseParen,
            Token::OpenBracket,
            Token::CloseBracket,
            Token::OpenCurly,
            Token::CloseCurly,
            Token::Quote,
            Token::BackQuote,
            Token::Caret,
            Token::AtSign,
        ])
    );
}

#[test]
fn tokenize_skips_white_space_and_commas() {
    assert_eq!(tokenize(" a,\tb\n,, c\u{a0}d "), Ok(vec![atom("a"), atom("b"), atom("c"), atom("d")]));
    assert_eq!(tokenize(""), Ok(vec![]));
    assert_eq!(tokenize(" ,\t"), Ok(vec![]));
}

#[test]
fn tokenize_string_keeps_quotes_and_resolves_escaped_quote() {
    assert_eq!(tokenize("\"abc\""), Ok(vec![Token::Str("\"abc\"".to_string())]));
    assert_eq!(tokenize("\"a\\\"b\""), Ok(vec![Token::Str("\"a\"b\"".to_string())]));
    assert_eq!(tokenize("\"a b,c\" d"), Ok(vec![Token::Str("\"a b,c\"".to_string()), atom("d")]));
}

#[test]
fn tokenize_string_keeps_other_backslashes() {
    assert_eq!(tokenize("\"a\\nb\""), Ok(vec![Token::Str("\"a\\nb\"".to_string())]));
    assert_eq!(tokenize("\"a\\\\b\""), Ok(vec![Token::Str("\"a\\\\b\"".to_string())]));
}

#[test]
fn tokenize_open_string_fails() {
    assert_eq!(tokenize("\"abc"), Err(ReaderError::UnbalancedString));
    assert_eq!(tokenize("(a \"b\\\""), Err(ReaderError::UnbalancedString));
    assert_eq!(tokenize("\""), Err(ReaderError::UnbalancedString));
}

#[test]
fn tokenize_open_list_is_no_lexical_error() {
    assert_eq!(tokenize("(+ 1 2"), Ok(vec![Token::OpenParen, atom("+"), atom("1"), atom("2")]));
}

#[test]
fn tokenize_comment_runs_to_end_of_line() {
    assert_eq!(
        tokenize("a ; b c\nd"),
        Ok(vec![atom("a"), Token::Comment("; b c".to_string()), atom("d")])
    );
    assert_eq!(tokenize(";x"), Ok(vec![Token::Comment(";x".to_string())]));
    assert_eq!(tokenize(";"), Ok(vec![Token::Comment(";".to_string())]));
}

#[test]
fn tokenize_atom_ends_at_special_characters() {
    assert_eq!(tokenize("ab(cd"), Ok(vec![atom("ab"), Token::OpenParen, atom("cd")]));
    assert_eq!(tokenize("a'b"), Ok(vec![atom("a"), Token::Quote, atom("b")]));
    assert_eq!(tokenize("a\"b\""), Ok(vec![atom("a"), Token::Str("\"b\"".to_string())]));
    assert_eq!(tokenize("a;b"), Ok(vec![atom("a"), Token::Comment(";b".to_string())]));
    assert_eq!(tokenize("a@b~c^d"), Ok(vec![atom("a@b~c^d")]));
}

#[test]
fn tokenizer_steps_through_characters() {
    let mut t = Tokenizer::new("ab".to_string());
    assert_eq!(t.data, vec!['a', 'b']);
    assert_eq!(t.index, 0);
    assert_eq!(t.peek(), Some('a'));
    assert_eq!(t.consume(), Some('a'));
    assert_eq!(t.consume(), Some('b'));
    assert_eq!(t.peek(), None);
    assert_eq!(t.consume(), None);
    assert_eq!(t.index, 2);
}

#[test]
fn tokenizer_resumes_from_its_position() {
    let mut t = Tokenizer::new("a b".to_string());
    t.consume();
    assert_eq!(t.tokenize(), Ok(vec![atom("b")]));
    assert_eq!(t.index, 3);
}

#[test]
fn character_classes() {
    assert!(is_separator_char(' '));
    assert!(is_separator_char(','));
    assert!(is_separator_char('\n'));
    assert!(!is_separator_char('a'));
    assert!(ends_atom_char(')'));
    assert!(ends_atom_char('`'));
    assert!(ends_atom_char(' '));
    assert!(!ends_atom_char('@'));
    assert!(!ends_atom_char('^'));
    assert!(is_special_char('^'));
    assert!(is_special_char('"'));
    assert!(!is_special_char(','));
    assert!(!is_separator_char('('));
}

#[test]
fn parse_simple_list() {
    assert_eq!(parse("(+ 1 2)"), Ok(vec![list(vec![sym("+"), sym("1"), sym("2")])]));
}

#[test]
fn parse_quote_equals_long_form() {
    assert_eq!(parse("'x"), Ok(vec![list(vec![sym("quote"), sym("x")])]));
    assert_eq!(parse("'x"), parse("(quote x)"));
}

#[test]
fn parse_other_reader_macros() {
    assert_eq!(parse("`x"), parse("(quasiquote x)"));
    assert_eq!(parse("~x"), parse("(unquote x)"));
    assert_eq!(parse("~@x"), parse("(splice-unquote x)"));
    assert_eq!(parse("@x"), parse("(deref x)"));
    assert_eq!(parse("'(a b)"), parse("(quote (a b))"));
    assert_eq!(parse("''a"), parse("(quote (quote a))"));
}

#[test]
fn parse_with_meta_swaps_its_arguments() {
    assert_eq!(parse("^{\"a\" 1} x"), parse("(with-meta x {\"a\" 1})"));
    assert_eq!(
        parse("^{\"a\" 1} x"),
        Ok(vec![list(vec![
            sym("with-meta"),
            sym("x"),
            MalValue::Dict(ListValue(vec![string("\"a\""), sym("1")])),
        ])])
    );
}

#[test]
fn parse_unbalanced_input_fails() {
    assert_eq!(parse("(+ 1 2"), Err(ReaderError::UnbalancedList));
    assert_eq!(parse("\"abc"), Err(ReaderError::UnbalancedString));
    assert_eq!(parse("("), Err(ReaderError::UnbalancedList));
    assert_eq!(parse("[1 2"), Err(ReaderError::UnbalancedVector));
    assert_eq!(parse("{1 2"), Err(ReaderError::UnbalancedMap));
    assert_eq!(parse(")"), Err(ReaderError::UnbalancedList));
    assert_eq!(parse("a ]"), Err(ReaderError::UnbalancedVector));
    assert_eq!(parse("}"), Err(ReaderError::UnbalancedMap));
    assert_eq!(parse("(a ]"), Err(ReaderError::UnbalancedVector));
    assert_eq!(parse("(a ; b)"), Err(ReaderError::UnbalancedList));
}

#[test]
fn parse_marker_without_form_fails() {
    assert_eq!(parse("'"), Err(ReaderError::UnexpectedEndOfInput));
    assert_eq!(parse("~@"), Err(ReaderError::UnexpectedEndOfInput));
    assert_eq!(parse("^a"), Err(ReaderError::UnexpectedEndOfInput));
    assert_eq!(parse("^"), Err(ReaderError::UnexpectedEndOfInput));
    assert_eq!(parse("' ; c"), Err(ReaderError::UnexpectedEndOfInput));
    assert_eq!(parse("(')"), Err(ReaderError::UnbalancedList));
}

#[test]
fn parse_nested_list() {
    let forms = parse("(a (b c) d)").unwrap();
    assert_eq!(forms.len(), 1);
    match &forms[0] {
        MalValue::List(outer) => {
            assert_eq!(outer.len(), 3);
            match &outer.0[1] {
                MalValue::List(inner) => assert_eq!(inner.len(), 2),
                other => panic!("not a list: {:?}", other),
            }
        }
        other => panic!("not a list: {:?}", other),
    }
    assert_eq!(forms, vec![list(vec![sym("a"), list(vec![sym("b"), sym("c")]), sym("d")])]);
}

#[test]
fn parse_comment_only_line_is_empty() {
    assert_eq!(parse("; nothing here"), Ok(vec![]));
    assert_eq!(parse(""), Ok(vec![]));
    assert_eq!(parse("  ,, "), Ok(vec![]));
}

#[test]
fn parse_drops_comments_everywhere() {
    assert_eq!(parse("a ; one\nb ; two"), Ok(vec![sym("a"), sym("b")]));
    assert_eq!(parse("(a ; one\n b)"), Ok(vec![list(vec![sym("a"), sym("b")])]));
    assert_eq!(parse("' ; one\n a"), parse("(quote a)"));
}

#[test]
fn parse_several_top_level_forms() {
    assert_eq!(
        parse("a \"s\" (b) [c] {d e}"),
        Ok(vec![
            sym("a"),
            string("\"s\""),
            list(vec![sym("b")]),
            MalValue::Vector(ListValue(vec![sym("c")])),
            MalValue::Dict(ListValue(vec![sym("d"), sym("e")])),
        ])
    );
    assert_eq!(parse("()"), Ok(vec![list(vec![])]));
}

#[test]
fn parser_steps_through_tokens() {
    let mut p = Parser::new(vec![Token::OpenParen, atom("a"), Token::CloseParen, atom("b")]);
    assert_eq!(p.peek(), Some(&Token::OpenParen));
    assert!(p.consume());
    assert_eq!(p.read_list(Delim::Paren), Ok(ListValue(vec![sym("a")])));
    assert_eq!(p.index, 3);
    assert_eq!(p.parse_form(), Ok(sym("b")));
    assert_eq!(p.peek(), None);
    assert!(!p.consume());
    assert_eq!(p.parse_form(), Err(ReaderError::UnexpectedEndOfInput));
    assert_eq!(p.parse(), Ok(vec![]));
}

#[test]
fn read_takes_tokens() {
    assert_eq!(
        read(vec![Token::Quote, Token::Comment(";c".to_string()), atom("x")]),
        Ok(vec![list(vec![sym("quote"), sym("x")])])
    );
    assert_eq!(read(vec![Token::OpenBracket]), Err(ReaderError::UnbalancedVector));
}

#[test]
fn list_value_grows_at_the_end() {
    let mut l = ListValue::new();
    assert_eq!(l.len(), 0);
    assert_eq!(l, ListValue(vec![]));
    l.push(sym("a"));
    l.push(string("\"b\""));
    assert_eq!(l, ListValue(vec![sym("a"), string("\"b\"")]));
    assert_eq!(l.to_text(), "(a \"b\")");
}

#[test]
fn render_values() {
    assert_eq!(sym("abc").to_text(), "abc");
    assert_eq!(string("\"a b\"").to_text(), "\"a b\"");
    assert_eq!(list(vec![]).to_text(), "()");
    assert_eq!(list(vec![sym("+"), sym("1"), sym("2")]).to_text(), "(+ 1 2)");
    assert_eq!(
        list(vec![sym("a"), MalValue::Vector(ListValue(vec![sym("b"), sym("c")])), sym("d")]).to_text(),
        "(a [b c] d)"
    );
    assert_eq!(MalValue::Dict(ListValue(vec![sym("k"), sym("v")])).to_text(), "{k v}");
    assert_eq!(MalValue::Keyword(":k".to_string()).to_text(), ":k");
    assert_eq!(MalValue::Boolean(true).to_text(), "true");
    assert_eq!(MalValue::Boolean(false).to_text(), "false");
    assert_eq!(MalValue::Nil.to_text(), "nil");
    assert_eq!(AtomValue("x".to_string()).to_text(), "x");
}

#[test]
fn render_numbers() {
    assert_eq!(MalValue::Number(0).to_text(), "0");
    assert_eq!(MalValue::Number(7).to_text(), "7");
    assert_eq!(MalValue::Number(10).to_text(), "10");
    assert_eq!(MalValue::Number(1203).to_text(), "1203");
    assert_eq!(MalValue::Number(-45).to_text(), "-45");
    assert_eq!(MalValue::Number(i64::MAX).to_text(), "9223372036854775807");
    assert_eq!(MalValue::Number(i64::MIN).to_text(), "-9223372036854775808");
}

#[test]
fn render_appends_to_what_is_there() {
    let mut out = "x=".to_string();
    list(vec![sym("a")]).render_into(&mut out);
    assert_eq!(out, "x=(a)");
}

#[test]
fn rendered_list_reads_back_equal() {
    for text in ["(+ 1 2)", "(a (b c) d)", "()", "(a \"s t\" [b {c d}])", "( a,b  ( c ) )"] {
        let forms = parse(text).unwrap();
        assert_eq!(forms.len(), 1);
        let again = parse(&forms[0].to_text()).unwrap();
        assert_eq!(again, forms);
    }
}

#[test]
fn rendered_string_with_inner_quote_does_not_read_back() {
    let forms = parse("(\"a\\\"b\")").unwrap();
    assert_eq!(forms, vec![list(vec![string("\"a\"b\"")])]);
    assert_eq!(forms[0].to_text(), "(\"a\"b\")");
    assert_eq!(parse(&forms[0].to_text()), Err(ReaderError::UnbalancedString));
}

#[test]
fn error_messages() {
    assert_eq!(ReaderError::UnbalancedString.message(), "Unbalanced string");
    assert_eq!(ReaderError::UnbalancedList.message(), "Unbalanced list");
    assert_eq!(ReaderError::UnbalancedVector.message(), "Unbalanced vector");
    assert_eq!(ReaderError::UnbalancedMap.message(), "Unbalanced map");
    assert_eq!(ReaderError::UnexpectedEndOfInput.message(), "Unexpected end of input");
    assert_eq!(MalError::from("boom").message(), "boom");
    assert_eq!(MalError::from("boom".to_string()).0, "boom");
    assert_eq!(MalError::from(ReaderError::UnbalancedList).message(), "Unbalanced list");
}

#[test]
fn line_source_outcomes() {
    assert!(matches!(read_outcome(LineEvent::Line("(a)".to_string())), Ok(s) if s == "(a)"));
    assert!(matches!(read_outcome(LineEvent::EndOfFile), Err(ReadError::Interrupt)));
    assert!(matches!(read_outcome(LineEvent::Interrupted), Err(ReadError::Interrupt)));
    assert!(matches!(read_outcome(LineEvent::Fault("io".to_string())), Err(ReadError::Failure(m)) if m == "io"));
}

#[test]
fn loop_steps() {
    assert_eq!(eval("(+ 1 2)".to_string()), "(+ 1 2)");
    assert_eq!(rep("abc".to_string()), "abc");
    assert!(matches!(next_step(Ok("x".to_string())), Step::Print(s) if s == "x"));
    assert!(matches!(next_step(Err(ReadError::Interrupt)), Step::ExitSuccess));
    assert!(matches!(next_step(Err(ReadError::Failure("io".to_string()))), Step::ExitFailure(m) if m == "io"));
}

#[test]
fn token_text() {
    assert_eq!(Token::OpenParen.to_text(), "(");
    assert_eq!(Token::CloseParen.to_text(), ")");
    assert_eq!(Token::OpenBracket.to_text(), "[");
    assert_eq!(Token::CloseBracket.to_text(), "]");
    assert_eq!(Token::OpenCurly.to_text(), "{");
    assert_eq!(Token::CloseCurly.to_text(), "}");
    assert_eq!(Token::Quote.to_text(), "'");
    assert_eq!(Token::BackQuote.to_text(), "`");
    assert_eq!(Token::Caret.to_text(), "^");
    assert_eq!(Token::Tilde.to_text(), "~");
    assert_eq!(Token::AtSign.to_text(), "@");
    assert_eq!(Token::TildeAtSign.to_text(), "~@");
    assert_eq!(Token::Str("\"s\"".to_string()).to_text(), "\"s\"");
    assert_eq!(Token::Comment("; c".to_string()).to_text(), "; c");
    assert_eq!(atom("abc").to_text(), "abc");
}

#[test]
fn rendered_form_reads_back_with_comments_dropped() {
    let forms = parse("(a ; note\n [b \"c\"]) d").unwrap();
    assert_eq!(forms.len(), 2);
    for form in &forms {
        let again = parse(&form.to_text()).unwrap();
        assert_eq!(again.len(), 1);
        assert_eq!(&again[0], form);
    }
}
