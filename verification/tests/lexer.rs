use bytecode_vm::lexer::{Kind, Token, Tokens};

fn kinds(source: &str) -> Vec<Kind> {
    let mut tokens = Tokens::from(source);
    let mut found = Vec::new();
    while let Some(token) = tokens.next() {
        found.push(token.kind);
    }
    found
}

fn texts(source: &str) -> Vec<&str> {
    let mut tokens = Tokens::from(source);
    let mut found = Vec::new();
    while let Some(token) = tokens.next() {
        found.push(token.text);
    }
    found
}

#[test]
fn some_tokens() {
    let source = " my ( < != for\n #   forest \n1234  whiler";
    let mut tokens = Tokens::from(source);
    assert_eq!(tokens.next(), Some(Token::new(Kind::Identifier, "my")));
    assert_eq!(tokens.next(), Some(Token::new(Kind::LeftParen, "(")));
    assert_eq!(tokens.next(), Some(Token::new(Kind::Less, "<")));
    assert_eq!(tokens.next(), Some(Token::new(Kind::BangEqual, "!=")));
    assert_eq!(tokens.next(), Some(Token::new(Kind::For, "for")));
    assert_eq!(tokens.next(), Some(Token::new(Kind::Number, "1234")));
    assert_eq!(tokens.next(), Some(Token::new(Kind::Identifier, "whiler")));
    assert_eq!(tokens.next(), None);
}

#[test]
fn token_new_keeps_kind_and_text() {
    let token = Token::new(Kind::Number, "42");
    assert_eq!(token.kind, Kind::Number);
    assert_eq!(token.text, "42");
    assert_ne!(token, Token::new(Kind::Number, "43"));
    assert_ne!(token, Token::new(Kind::Identifier, "42"));
}

#[test]
fn empty_source_has_no_token() {
    let mut tokens = Tokens::from("");
    assert_eq!(tokens.next(), None);
    assert_eq!(tokens.next(), None);
}

#[test]
fn blank_source_has_no_token() {
    assert_eq!(kinds(" \t\r\n  \n"), vec![]);
}

#[test]
fn punctuation_tokens() {
    assert_eq!(
        kinds("(){};,.-+/*"),
        vec![
            Kind::LeftParen,
            Kind::RightParen,
            Kind::LeftBrace,
            Kind::RightBrace,
            Kind::Semicolon,
            Kind::Comma,
            Kind::Dot,
            Kind::Minus,
            Kind::Plus,
            Kind::Slash,
            Kind::Star,
        ]
    );
    assert_eq!(texts("(){};,.-+/*"), vec!["(", ")", "{", "}", ";", ",", ".", "-", "+", "/", "*"]);
}

#[test]
fn operators_with_and_without_equal() {
    assert_eq!(
        kinds("! != = == < <= > >="),
        vec![
            Kind::Bang,
            Kind::BangEqual,
            Kind::Equal,
            Kind::EqualEqual,
            Kind::Less,
            Kind::LessEqual,
            Kind::Greater,
            Kind::GreaterEqual,
        ]
    );
    assert_eq!(texts("! != = == < <= > >="), vec!["!", "!=", "=", "==", "<", "<=", ">", ">="]);
}

#[test]
fn operator_at_end_of_source() {
    assert_eq!(kinds("!"), vec![Kind::Bang]);
    assert_eq!(kinds("="), vec![Kind::Equal]);
    assert_eq!(kinds("<"), vec![Kind::Less]);
    assert_eq!(kinds(">"), vec![Kind::Greater]);
}

#[test]
fn three_equals_are_two_tokens() {
    assert_eq!(kinds("==="), vec![Kind::EqualEqual, Kind::Equal]);
    assert_eq!(texts("==="), vec!["==", "="]);
}

#[test]
fn every_keyword() {
    let source =
        "and class else false for fun if nil or print return super this true var while";
    assert_eq!(
        kinds(source),
        vec![
            Kind::And,
            Kind::Class,
            Kind::Else,
            Kind::False,
            Kind::For,
            Kind::Fun,
            Kind::If,
            Kind::Nil,
            Kind::Or,
            Kind::Print,
            Kind::Return,
            Kind::Super,
            Kind::This,
            Kind::True,
            Kind::Var,
            Kind::While,
        ]
    );
}

#[test]
fn keyword_needs_the_whole_word() {
    assert_eq!(kinds("an andy fo forx While"), vec![Kind::Identifier; 5]);
    assert_eq!(texts("an andy fo forx While"), vec!["an", "andy", "fo", "forx", "While"]);
}

#[test]
fn word_ends_at_a_digit() {
    assert_eq!(kinds("for1"), vec![Kind::For, Kind::Number]);
    assert_eq!(texts("for1"), vec!["for", "1"]);
    assert_eq!(kinds("12ab"), vec![Kind::Number, Kind::Identifier]);
    assert_eq!(texts("12ab"), vec!["12", "ab"]);
}

#[test]
fn word_goes_on_over_letters_outside_ascii() {
    let mut tokens = Tokens::from("na\u{ef}ve x");
    assert_eq!(tokens.next(), Some(Token::new(Kind::Identifier, "na\u{ef}ve")));
    assert_eq!(tokens.next(), Some(Token::new(Kind::Identifier, "x")));
    assert_eq!(tokens.next(), None);
}

#[test]
fn word_does_not_begin_outside_ascii() {
    let mut tokens = Tokens::from("\u{e9}t");
    assert_eq!(tokens.next(), Some(Token::new(Kind::Error, "\u{e9}")));
    assert_eq!(tokens.next(), Some(Token::new(Kind::Identifier, "t")));
    assert_eq!(tokens.next(), None);
}

#[test]
fn number_goes_on_over_digits_outside_ascii() {
    let mut tokens = Tokens::from("1\u{0663}2 ");
    assert_eq!(tokens.next(), Some(Token::new(Kind::Number, "1\u{0663}2")));
    assert_eq!(tokens.next(), None);
}

#[test]
fn number_stops_at_a_dot() {
    assert_eq!(kinds("1.5"), vec![Kind::Number, Kind::Dot, Kind::Number]);
    assert_eq!(texts("1.5"), vec!["1", ".", "5"]);
}

#[test]
fn string_literal_keeps_its_quotes() {
    let mut tokens = Tokens::from("\"hello world\" x");
    assert_eq!(tokens.next(), Some(Token::new(Kind::String, "\"hello world\"")));
    assert_eq!(tokens.next(), Some(Token::new(Kind::Identifier, "x")));
    assert_eq!(tokens.next(), None);
}

#[test]
fn empty_string_literal() {
    let mut tokens = Tokens::from("\"\"");
    assert_eq!(tokens.next(), Some(Token::new(Kind::String, "\"\"")));
    assert_eq!(tokens.next(), None);
}

#[test]
fn string_literal_may_hold_a_comment_mark_and_line_feeds() {
    let mut tokens = Tokens::from("\"a # b\nc\"1");
    assert_eq!(tokens.next(), Some(Token::new(Kind::String, "\"a # b\nc\"")));
    assert_eq!(tokens.next(), Some(Token::new(Kind::Number, "1")));
    assert_eq!(tokens.next(), None);
}

#[test]
fn unterminated_string_is_an_error_to_the_end() {
    let mut tokens = Tokens::from("x \"abc def");
    assert_eq!(tokens.next(), Some(Token::new(Kind::Identifier, "x")));
    assert_eq!(tokens.next(), Some(Token::new(Kind::Error, "\"abc def")));
    assert_eq!(tokens.next(), None);
}

#[test]
fn lone_quote_is_an_error() {
    let mut tokens = Tokens::from("\"");
    assert_eq!(tokens.next(), Some(Token::new(Kind::Error, "\"")));
    assert_eq!(tokens.next(), None);
}

#[test]
fn unknown_character_is_an_error() {
    let mut tokens = Tokens::from("a @ b");
    assert_eq!(tokens.next(), Some(Token::new(Kind::Identifier, "a")));
    assert_eq!(tokens.next(), Some(Token::new(Kind::Error, "@")));
    assert_eq!(tokens.next(), Some(Token::new(Kind::Identifier, "b")));
    assert_eq!(tokens.next(), None);
}

#[test]
fn comment_runs_to_the_line_feed() {
    assert_eq!(texts("a # b c d\ne"), vec!["a", "e"]);
    assert_eq!(texts("#\n#\n  # x\n y"), vec!["y"]);
}

#[test]
fn comment_at_the_end_of_the_source() {
    let mut tokens = Tokens::from("a # no line feed behind this");
    assert_eq!(tokens.next(), Some(Token::new(Kind::Identifier, "a")));
    assert_eq!(tokens.next(), None);
    assert_eq!(kinds("#"), vec![]);
}

#[test]
fn comment_mark_never_becomes_a_token() {
    for kind in kinds("# a\n#\n## b\n+ # c\n#") {
        assert_ne!(kind, Kind::Pound);
    }
    assert_eq!(kinds("# a\n#\n## b\n+ # c\n#"), vec![Kind::Plus]);
}

#[test]
fn whitespace_outside_ascii_is_skipped() {
    assert_eq!(texts("a\u{a0}b\u{2003}c"), vec!["a", "b", "c"]);
}

#[test]
fn next_after_the_end_stays_none() {
    let mut tokens = Tokens::from("x");
    assert_eq!(tokens.next(), Some(Token::new(Kind::Identifier, "x")));
    assert_eq!(tokens.next(), None);
    assert_eq!(tokens.next(), None);
}

#[test]
fn advance_reads_one_character_at_a_time() {
    let mut tokens = Tokens::from("a\u{e9}");
    assert_eq!(tokens.advance(), Some('a'));
    assert_eq!(tokens.advance(), Some('\u{e9}'));
    assert_eq!(tokens.advance(), None);
    assert_eq!(tokens.advance(), None);
}

#[test]
fn advance_while_stops_at_the_first_rejected_character() {
    let mut tokens = Tokens::from("aaab");
    tokens.advance_while(|c| c == 'a');
    assert_eq!(tokens.advance(), Some('b'));
    assert_eq!(tokens.advance(), None);
}

#[test]
fn advance_while_may_accept_nothing_or_everything() {
    let mut tokens = Tokens::from("xyz");
    tokens.advance_while(|_| false);
    assert_eq!(tokens.advance(), Some('x'));
    tokens.advance_while(|_| true);
    assert_eq!(tokens.advance(), None);
}

#[test]
fn matches_steps_only_over_the_expected_character() {
    let mut tokens = Tokens::from("=x");
    assert_eq!(tokens.matches('x', Kind::Identifier), None);
    assert_eq!(tokens.matches('=', Kind::EqualEqual), Some(Kind::EqualEqual));
    assert_eq!(tokens.matches('=', Kind::EqualEqual), None);
    assert_eq!(tokens.advance(), Some('x'));
    assert_eq!(tokens.matches('x', Kind::Identifier), None);
}

#[test]
fn string_reads_to_the_closing_quote() {
    let mut tokens = Tokens::from("\"ab\"c");
    assert_eq!(tokens.advance(), Some('"'));
    assert_eq!(tokens.string(), Kind::String);
    assert_eq!(tokens.advance(), Some('c'));
}

#[test]
fn string_without_closing_quote_is_an_error() {
    let mut tokens = Tokens::from("\"ab");
    assert_eq!(tokens.advance(), Some('"'));
    assert_eq!(tokens.string(), Kind::Error);
    assert_eq!(tokens.advance(), None);
}

#[test]
fn number_reads_the_digits() {
    let mut tokens = Tokens::from("123+");
    assert_eq!(tokens.advance(), Some('1'));
    assert_eq!(tokens.number(), Kind::Number);
    assert_eq!(tokens.advance(), Some('+'));
}

#[test]
fn identifier_or_keyword_reads_the_word() {
    let mut tokens = Tokens::from("while(");
    assert_eq!(tokens.advance(), Some('w'));
    assert_eq!(tokens.identifier_or_keyword(), Kind::While);
    assert_eq!(tokens.advance(), Some('('));

    let mut tokens = Tokens::from("whilst");
    assert_eq!(tokens.advance(), Some('w'));
    assert_eq!(tokens.identifier_or_keyword(), Kind::Identifier);
    assert_eq!(tokens.advance(), None);
}

#[test]
fn identifier_or_keyword_looks_at_the_whole_token() {
    let mut tokens = Tokens::from("xor");
    assert_eq!(tokens.advance(), Some('x'));
    assert_eq!(tokens.identifier_or_keyword(), Kind::Identifier);

    let mut tokens = Tokens::from("x or");
    assert_eq!(tokens.next(), Some(Token::new(Kind::Identifier, "x")));
    assert_eq!(tokens.next(), Some(Token::new(Kind::Or, "or")));
}

#[test]
fn skip_line_steps_behind_the_line_feed() {
    let mut tokens = Tokens::from("abc\ndef");
    tokens.skip_line();
    assert_eq!(tokens.advance(), Some('d'));
    tokens.skip_line();
    assert_eq!(tokens.advance(), None);
}

#[test]
fn skip_line_at_a_line_feed_steps_over_it_alone() {
    let mut tokens = Tokens::from("\n\nx");
    tokens.skip_line();
    assert_eq!(tokens.advance(), Some('\n'));
    assert_eq!(tokens.advance(), Some('x'));
}

#[test]
fn skip_whitespace_and_comments_stops_at_the_token() {
    let mut tokens = Tokens::from("  # one\n\t# two\n  x y");
    tokens.skip_whitespace_and_comments();
    assert_eq!(tokens.advance(), Some('x'));
    tokens.skip_whitespace_and_comments();
    assert_eq!(tokens.advance(), Some('y'));
    tokens.skip_whitespace_and_comments();
    assert_eq!(tokens.advance(), None);
}

#[test]
fn skip_whitespace_and_comments_lets_the_token_begin_there() {
    let mut tokens = Tokens::from("ab  cd");
    assert_eq!(tokens.advance(), Some('a'));
    assert_eq!(tokens.advance(), Some('b'));
    tokens.skip_whitespace_and_comments();
    assert_eq!(tokens.next(), Some(Token::new(Kind::Identifier, "cd")));
}

#[test]
fn line_is_one_before_the_first_token() {
    assert_eq!(Tokens::from("").line(), 1);
    assert_eq!(Tokens::from("\n\n x").line(), 1);
}

#[test]
fn line_is_the_line_on_which_the_token_began() {
    let mut tokens = Tokens::from("a\nb c\n\n  d");
    let mut lines = Vec::new();
    while let Some(token) = tokens.next() {
        lines.push((token.text, tokens.line()));
    }
    assert_eq!(lines, vec![("a", 1), ("b", 2), ("c", 2), ("d", 4)]);
    assert_eq!(tokens.line(), 4);
}

#[test]
fn line_counts_the_lines_of_comments_and_strings() {
    let mut tokens = Tokens::from("# one\n# two\n\"a\nb\nc\" x\n# four\ny");
    assert_eq!(tokens.next(), Some(Token::new(Kind::String, "\"a\nb\nc\"")));
    assert_eq!(tokens.line(), 3);
    assert_eq!(tokens.next(), Some(Token::new(Kind::Identifier, "x")));
    assert_eq!(tokens.line(), 5);
    assert_eq!(tokens.next(), Some(Token::new(Kind::Identifier, "y")));
    assert_eq!(tokens.line(), 7);
    assert_eq!(tokens.next(), None);
    assert_eq!(tokens.line(), 7);
}

#[test]
fn line_stays_where_no_token_follows() {
    let mut tokens = Tokens::from("x\n\n\n");
    assert_eq!(tokens.next(), Some(Token::new(Kind::Identifier, "x")));
    assert_eq!(tokens.next(), None);
    assert_eq!(tokens.line(), 1);
}

#[test]
fn line_does_not_move_with_the_helpers() {
    let mut tokens = Tokens::from("\n\nab\n");
    tokens.skip_whitespace_and_comments();
    assert_eq!(tokens.advance(), Some('a'));
    tokens.skip_line();
    assert_eq!(tokens.line(), 1);
}

#[test]
fn compile_gives_all_tokens_in_order() {
    let source = " my ( < != for\n #   forest \n1234  whiler";
    assert_eq!(
        bytecode_vm::lexer::compile(source),
        vec![
            Token::new(Kind::Identifier, "my"),
            Token::new(Kind::LeftParen, "("),
            Token::new(Kind::Less, "<"),
            Token::new(Kind::BangEqual, "!="),
            Token::new(Kind::For, "for"),
            Token::new(Kind::Number, "1234"),
            Token::new(Kind::Identifier, "whiler"),
        ]
    );
}

#[test]
fn compile_of_blanks_gives_no_token() {
    assert_eq!(bytecode_vm::lexer::compile(""), vec![]);
    assert_eq!(bytecode_vm::lexer::compile("  # a\n\n"), vec![]);
}

#[test]
fn compile_agrees_with_next() {
    let source = "var x = \"a b\"; # c\nprint x >= 10 @ \"open";
    let mut tokens = Tokens::from(source);
    let mut one_by_one = Vec::new();
    while let Some(token) = tokens.next() {
        one_by_one.push(token);
    }
    assert_eq!(bytecode_vm::lexer::compile(source), one_by_one);
    assert_eq!(one_by_one.len(), 11);
    assert_eq!(one_by_one[10], Token::new(Kind::Error, "\"open"));
}

#[test]
fn token_reads_at_the_current_position() {
    let mut tokens = Tokens::from("!=(x");
    assert_eq!(tokens.token(), Some(Token::new(Kind::BangEqual, "!=")));
    assert_eq!(tokens.token(), Some(Token::new(Kind::LeftParen, "(")));
    assert_eq!(tokens.token(), Some(Token::new(Kind::Identifier, "x")));
    assert_eq!(tokens.token(), None);
    assert_eq!(tokens.token(), None);
}

#[test]
fn token_does_not_skip_blanks() {
    let mut tokens = Tokens::from(" x");
    assert_eq!(tokens.token(), Some(Token::new(Kind::Error, " ")));
    assert_eq!(tokens.token(), Some(Token::new(Kind::Identifier, "x")));
}

#[test]
fn token_takes_a_comment_mark_for_a_token() {
    let mut tokens = Tokens::from("#a\n#");
    assert_eq!(tokens.token(), Some(Token::new(Kind::Pound, "#")));
    assert_eq!(tokens.token(), Some(Token::new(Kind::Identifier, "a")));
    assert_eq!(tokens.line(), 1);
    assert_eq!(tokens.next(), None);
}

#[test]
fn token_begins_where_the_tokenizer_stands() {
    let mut tokens = Tokens::from("abc");
    assert_eq!(tokens.advance(), Some('a'));
    assert_eq!(tokens.token(), Some(Token::new(Kind::Identifier, "bc")));
}

#[test]
fn long_source() {
    let mut source = String::new();
    for i in 0..200_000 {
        source.push_str("w\u{f6}rd ");
        source.push_str(&i.to_string());
        source.push_str(" # \u{2603}\n");
    }
    let tokens = bytecode_vm::lexer::compile(&source);
    assert_eq!(tokens.len(), 400_000);
    assert_eq!(tokens[0], Token::new(Kind::Identifier, "w\u{f6}rd"));
    assert_eq!(tokens[399_999], Token::new(Kind::Number, "199999"));
    let mut reader = Tokens::from(source.as_str());
    let mut last = 0;
    while reader.next().is_some() {
        last = reader.line();
    }
    assert_eq!(last, 200_000);
}

#[test]
fn tokens_from_a_source_by_into() {
    let mut tokens: Tokens = "a b".into();
    assert_eq!(tokens.next(), Some(Token::new(Kind::Identifier, "a")));
    assert_eq!(tokens.next(), Some(Token::new(Kind::Identifier, "b")));
    assert_eq!(tokens.next(), None);
}
