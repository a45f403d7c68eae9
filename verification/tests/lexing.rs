use compiler::lexer::Lexer;
use compiler::scan_spec::LexFailure;
use compiler::source::inFile;
use compiler::table::tokenTable;
use compiler::token::{printTokList, tokenGroup, tokenTypeEnum, Token};

fn lex(text: &str) -> Result<Lexer, LexFailure> {
    let mut lexer = Lexer::new("test.src", text);
    lexer.scanThroughChecked().map(|_| lexer)
}

#[test]
fn lexes_a_small_program() {
    let lexer = lex("program test is\nvariable x : integer;\nbegin\nx < 5;\nend program\n").unwrap();
    let lines = lexer.printTokenList();
    let expected = vec![
        "< \"program\" , PROGRAM, 1 >",
        "< \"test\" , IDENTIFIER, 1 >",
        "< \"is\" , IS, 1 >",
        "< \"variable\" , VARIABLE, 2 >",
        "< \"x\" , IDENTIFIER, 2 >",
        "< \":\" , COLON, 2 >",
        "< \"integer\" , IDENTIFIER, 2 >",
        "< \";\" , SEMICOLON, 2 >",
        "< \"begin\" , BEGIN, 3 >",
        "< \"x\" , IDENTIFIER, 4 >",
        "< \"<\" , LESS, 4 >",
        "< \"5\" , INT, 4 >",
        "< \";\" , SEMICOLON, 4 >",
        "< \"END_PROGRAM\" , END_PROGRAM, 5 >",
        "< \"EOF\" , EOF, 6 >",
    ];
    assert_eq!(lines, expected);
}

#[test]
fn words_are_lower_cased_and_numbers_keep_the_variable_group() {
    let lexer = lex("BeGiN Foo_1 42 3.5\n").unwrap();
    let t = &lexer.tokenList;
    assert_eq!(t[0].tt, tokenTypeEnum::BEGIN);
    assert_eq!(t[0].tokenString, "begin");
    assert_eq!(t[0].tg, tokenGroup::KEYWORD);
    assert_eq!(t[1].tt, tokenTypeEnum::IDENTIFIER);
    assert_eq!(t[1].tokenString, "foo_1");
    assert_eq!(t[2].tt, tokenTypeEnum::INT);
    assert_eq!(t[2].tg, tokenGroup::VARIABLE);
    assert_eq!(t[3].tt, tokenTypeEnum::FLOAT);
    assert_eq!(t[3].tokenString, "3.5");
    assert_eq!(t[4].tt, tokenTypeEnum::EOF);
    assert_eq!(t.len(), 5);
}

#[test]
fn operators_and_strings() {
    let lexer = lex("a := \"hi there\" <= >= == != ;\n").unwrap();
    let kinds: Vec<tokenTypeEnum> = lexer.tokenList.iter().map(|t| t.tt).collect();
    assert_eq!(
        kinds,
        vec![
            tokenTypeEnum::IDENTIFIER,
            tokenTypeEnum::SET_EQUALS,
            tokenTypeEnum::STRING,
            tokenTypeEnum::LESS_EQUALS,
            tokenTypeEnum::GREATER_EQUALS,
            tokenTypeEnum::CHECK_EQUALS,
            tokenTypeEnum::NOT_EQUALS,
            tokenTypeEnum::SEMICOLON,
            tokenTypeEnum::EOF,
        ]
    );
    assert_eq!(lexer.tokenList[2].tokenString, "hi there");
}

#[test]
fn comments_are_skipped_and_count_lines() {
    let lexer = lex("// note\n/* a /* nested */\n comment */ x\n").unwrap();
    assert_eq!(lexer.tokenList[0].tokenString, "x");
    assert_eq!(lexer.tokenList[0].lineNum, 3);
}

#[test]
fn second_pass_joins_ends_calls_and_negative_numbers() {
    let lexer = lex("end if end procedure f(a < -5\n").unwrap();
    let lines = printTokList(&lexer.tokenList);
    assert_eq!(
        lines,
        vec![
            "< \"END_IF\" , END_IF, 1 >",
            "< \"END_PROCEDURE\" , END_PROCEDURE, 1 >",
            "< \"f\" , PROCEDURE_CALL, 1 >",
            "< \"a\" , IDENTIFIER, 1 >",
            "< \"<\" , LESS, 1 >",
            "< \"-5\" , INT, 1 >",
            "< \"EOF\" , EOF, 2 >",
        ]
    );
    assert_eq!(lexer.tokenList[5].tg, tokenGroup::NUMBER);
}

#[test]
fn input_ending_inside_a_construct_is_unfinished() {
    assert_eq!(lex("a /").err(), Some(LexFailure::Unfinished));
    assert_eq!(lex("x <").err(), Some(LexFailure::Unfinished));
}

#[test]
fn a_word_at_the_very_end_is_read_again_forever() {
    assert_eq!(lex("end program").err(), Some(LexFailure::Stuck));
}

#[test]
fn a_leading_minus_has_no_token_before_it() {
    assert_eq!(lex("-5\n").err(), Some(LexFailure::Unpaired));
}

#[test]
fn unaccounted_characters_give_way_to_the_next_token() {
    let lexer = lex("# x\n").unwrap();
    assert_eq!(lexer.tokenList[0].tokenString, "x");
    assert_eq!(lexer.tokenList.len(), 2);
}

#[test]
fn table_seeds_keywords_and_keeps_first_line() {
    let mut table = tokenTable::new();
    let t = table.hashLook("if".to_string(), 7);
    assert_eq!(t.tt, tokenTypeEnum::IF);
    assert_eq!(t.lineNum, 0);
    let n = table.hashLook("not".to_string(), 7);
    assert_eq!(n.tt, tokenTypeEnum::NOT);
    assert_eq!(n.tg, tokenGroup::OPERATOR);
    let a = table.hashLook("foo".to_string(), 3);
    assert_eq!(a.tt, tokenTypeEnum::IDENTIFIER);
    assert_eq!(a.tg, tokenGroup::VARIABLE);
    assert_eq!(a.lineNum, 3);
    let b = table.hashLook("foo".to_string(), 9);
    assert_eq!(b.lineNum, 3);
}

#[test]
fn source_reads_characters_and_lines() {
    let mut f = inFile::new("name.src", "ab\n");
    assert_eq!(f.numChars(), 3);
    assert_eq!(f.getChar(), Some('a'));
    assert_eq!(f.getChar(), Some('b'));
    f.unGetChar();
    assert_eq!(f.getChar(), Some('b'));
    assert_eq!(f.getChar(), Some('\n'));
    assert_eq!(f.getChar(), None);
    f.incLineCnt();
    let (a, b) = f.printInfo();
    assert_eq!(a, "File Name: name.src");
    assert_eq!(b, "Lines: 2");
}

#[test]
fn tokens_are_shown_with_and_without_lines() {
    let t = Token::new(tokenTypeEnum::SEMICOLON, ";".to_string(), 12, tokenGroup::SYMBOL);
    assert_eq!(t.shown(), "< \";\" , SEMICOLON >");
    assert_eq!(t.listed(), "< \";\" , SEMICOLON, 12 >");
    assert_eq!(tokenGroup::NUMBER.name(), "NUMBER");
}

#[test]
fn the_second_pass_on_its_own() {
    let mut lexer = Lexer::new("s.src", "");
    lexer.tokenList = vec![
        Token::new(tokenTypeEnum::END, "end".to_string(), 4, tokenGroup::KEYWORD),
        Token::new(tokenTypeEnum::PROGRAM, "program".to_string(), 5, tokenGroup::KEYWORD),
        Token::new(tokenTypeEnum::END, "end".to_string(), 6, tokenGroup::KEYWORD),
        Token::new(tokenTypeEnum::EOF, "EOF".to_string(), 6, tokenGroup::SYMBOL),
    ];
    let out = lexer.secondPass();
    assert_eq!(
        printTokList(&out),
        vec!["< \"END_PROGRAM\" , END_PROGRAM, 5 >", "< \"end\" , END, 6 >", "< \"EOF\" , EOF, 6 >"]
    );
    assert!(out.len() <= lexer.tokenList.len());
    lexer.tokenList.push(Token::new(tokenTypeEnum::IDENTIFIER, "f".to_string(), 7, tokenGroup::VARIABLE));
    assert!(lexer.try_second_pass().is_none());
}

#[test]
fn scanning_one_token_at_a_time() {
    let mut lexer = Lexer::new("s.src", "x:=1\n");
    let a = lexer.scan();
    assert_eq!((a.tt, a.tokenString.as_str()), (tokenTypeEnum::IDENTIFIER, "x"));
    let b = lexer.try_scan().unwrap();
    assert_eq!((b.tt, b.tokenString.as_str()), (tokenTypeEnum::SET_EQUALS, ":="));
    let c = lexer.scan();
    assert_eq!((c.tt, c.tokenString.as_str()), (tokenTypeEnum::INT, "1"));
    let d = lexer.scan();
    assert_eq!((d.tt, d.lineNum), (tokenTypeEnum::EOF, 2));
    let mut cut = Lexer::new("s.src", "=");
    assert!(cut.try_scan().is_none());
}

#[test]
fn a_token_can_change_kind() {
    let mut t = Token::new(tokenTypeEnum::IDENTIFIER, "5".to_string(), 1, tokenGroup::VARIABLE);
    t.setTokenType(tokenTypeEnum::INT);
    assert_eq!(t.tt, tokenTypeEnum::INT);
    assert_eq!(t.tokenString, "5");
    assert_eq!(tokenTypeEnum::GREATER_EQUALS.name(), "GREATER_EQUALS");
}

#[test]
fn tokens_come_in_the_order_of_their_lines() {
    let lexer = lex("program p is\n\n// note\nvariable a : integer;\n/* two\nlines */ begin\nreturn a;\nend program\n").unwrap();
    let lines: Vec<usize> = lexer.tokenList.iter().map(|t| t.lineNum).collect();
    assert_eq!(lines.first(), Some(&1));
    assert!(lines.windows(2).all(|w| w[0] <= w[1]));
    assert_eq!(lexer.tokenList[3].lineNum, 4);
    assert_eq!(lexer.tokenList.last().map(|t| t.lineNum), Some(9));
}

#[test]
fn token_kinds_have_distinct_names() {
    let kinds = [
        tokenTypeEnum::PLUS,
        tokenTypeEnum::MINUS,
        tokenTypeEnum::LESS,
        tokenTypeEnum::GREATER,
        tokenTypeEnum::LESS_EQUALS,
        tokenTypeEnum::GREATER_EQUALS,
        tokenTypeEnum::SET_EQUALS,
        tokenTypeEnum::CHECK_EQUALS,
        tokenTypeEnum::NOT_EQUALS,
        tokenTypeEnum::MULTIPLY,
        tokenTypeEnum::DIVIDE,
        tokenTypeEnum::AND,
        tokenTypeEnum::OR,
        tokenTypeEnum::NOT,
        tokenTypeEnum::INT,
        tokenTypeEnum::FLOAT,
        tokenTypeEnum::STRING,
        tokenTypeEnum::IDENTIFIER,
        tokenTypeEnum::IF,
        tokenTypeEnum::ELSE,
        tokenTypeEnum::GLOBAL,
        tokenTypeEnum::VARIABLE,
        tokenTypeEnum::THEN,
        tokenTypeEnum::END,
        tokenTypeEnum::IF_RW,
        tokenTypeEnum::LOOP_RW,
        tokenTypeEnum::END_RW,
        tokenTypeEnum::L_PAREN,
        tokenTypeEnum::R_PAREN,
        tokenTypeEnum::L_BRACKET,
        tokenTypeEnum::R_BRACKET,
        tokenTypeEnum::EOF,
        tokenTypeEnum::LETTER,
        tokenTypeEnum::UNACCOUNTED,
        tokenTypeEnum::WORD,
        tokenTypeEnum::RETURN,
        tokenTypeEnum::ERROR,
        tokenTypeEnum::PROGRAM,
        tokenTypeEnum::IS,
        tokenTypeEnum::BEGIN,
        tokenTypeEnum::PROCEDURE,
        tokenTypeEnum::SEMICOLON,
        tokenTypeEnum::COLON,
        tokenTypeEnum::PERIOD,
        tokenTypeEnum::END_PROGRAM,
        tokenTypeEnum::END_PROCEDURE,
        tokenTypeEnum::END_IF,
        tokenTypeEnum::END_FOR,
        tokenTypeEnum::COMMA,
        tokenTypeEnum::FOR,
        tokenTypeEnum::PROCEDURE_CALL,
    ];
    for (i, a) in kinds.iter().enumerate() {
        assert_eq!(a.name(), format!("{:?}", a));
        for (j, b) in kinds.iter().enumerate() {
            assert_eq!(a.name() == b.name(), i == j);
        }
    }
}

#[test]
fn blanks_to_the_end_scan_to_the_end_token_again_and_again() {
    let mut lexer = Lexer::new("s.src", "a \n\t\r\n  ");
    let a = lexer.scan();
    assert_eq!(a.tokenString, "a");
    let end = lexer.scan();
    assert_eq!((end.tt, end.tokenString.as_str(), end.tg, end.lineNum), (tokenTypeEnum::EOF, "EOF", tokenGroup::SYMBOL, 3));
    let pos = lexer.inputFile.position();
    assert_eq!(pos, 8);
    let again = lexer.scan();
    assert_eq!((again.tt, again.lineNum), (tokenTypeEnum::EOF, 3));
    assert_eq!(lexer.inputFile.position(), pos);
    assert_eq!(lexer.inputFile.lineCnt(), 3);
}

#[test]
fn the_new_table_holds_each_keyword_on_line_zero() {
    let mut table = tokenTable::new();
    for (word, tt) in [("program", tokenTypeEnum::PROGRAM), ("for", tokenTypeEnum::FOR), ("end", tokenTypeEnum::END)] {
        let t = table.hashLook(word.to_string(), 5);
        assert_eq!((t.tt, t.tg, t.lineNum), (tt, tokenGroup::KEYWORD, 0));
    }
}
