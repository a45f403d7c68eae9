use compiler::ast::{BinOp, Expr, Stmt, VarType};
use compiler::lexer::Lexer;
use compiler::parser::Parser;
use compiler::reporting::Reporting;
use compiler::token::{tokenGroup, tokenTypeEnum, Token};

fn tok(tt: tokenTypeEnum, text: &str, line: usize) -> Token {
    Token::new(tt, text.to_string(), line, tokenGroup::OTHER)
}

fn lexed(text: &str) -> Lexer {
    let mut lexer = Lexer::new("p.src", text);
    lexer.scanThroughChecked().unwrap();
    lexer
}

fn errors(r: &Reporting) -> Vec<String> {
    r.errors().clone()
}

#[test]
fn parses_a_small_program() {
    let mut lexer = lexed("program test is\nvariable x : integer;\nbegin\nx < 5;\nend program\n");
    let mut parser = Parser::new(&mut lexer);
    let (rep, stmt) = parser.startParse().unwrap();
    assert!(errors(&rep).is_empty());
    let lines = stmt.unwrap().display(0);
    assert_eq!(
        lines,
        vec![
            "Block([",
            "  VarDecl(x, Int(0))",
            "  Block([",
            "    Expr((x < 5))",
            "  ])",
            "])",
        ]
    );
}

#[test]
fn a_program_without_is_is_refused() {
    let mut lexer = lexed("program test\nbegin\nend program\n");
    let mut parser = Parser::new(&mut lexer);
    let refused = parser.startParse().unwrap_err();
    let expected = "Program declaration incorrect. \n Program must start with: 'program [Program name] is'";
    assert_eq!(errors(&refused), vec![expected]);
    assert_eq!(errors(parser.reports()), vec![expected]);
}

#[test]
fn an_assignment_is_read_no_further() {
    let mut lexer = lexed("program p is\nbegin\nx := 5;\nend program\n");
    let mut parser = Parser::new(&mut lexer);
    let (_, stmt) = parser.startParse().unwrap();
    assert_eq!(stmt.unwrap().display(0), vec!["Block([", "  Block([", "  ])", "])"]);
}

#[test]
fn a_name_before_a_semicolon_is_an_unsupported_operator() {
    let mut parser = Parser::new(&mut Lexer::new("e.src", ""));
    let toks = vec![tok(tokenTypeEnum::IDENTIFIER, "y", 1), tok(tokenTypeEnum::SEMICOLON, ";", 1)];
    let refused = parser.parse(toks, 0).unwrap_err();
    assert_eq!(errors(&refused), vec!["Unsupported operator: SEMICOLON"]);
    assert!(errors(parser.reports()).is_empty());
}

#[test]
fn comparisons_need_a_number_that_fits() {
    let mut parser = Parser::new(&mut Lexer::new("e.src", ""));
    let toks = vec![
        tok(tokenTypeEnum::IDENTIFIER, "y", 1),
        tok(tokenTypeEnum::GREATER, ">", 1),
        tok(tokenTypeEnum::INT, "99999999999999999999", 1),
        tok(tokenTypeEnum::SEMICOLON, ";", 1),
    ];
    let refused = parser.parse(toks, 0).unwrap_err();
    assert_eq!(errors(&refused), vec!["Failed to parse integer: number too large to fit in target type"]);
}

#[test]
fn arrays_are_declared_with_zeros() {
    let mut lexer = lexed("variable a : integer[3];\n");
    let mut parser = Parser::new(&mut lexer);
    let (_, stmt) = parser.startParse().unwrap();
    assert_eq!(stmt.unwrap().display(0), vec!["Block([", "  VarDecl(a, IntArray([0, 0, 0]))", "])"]);
}

#[test]
fn declaration_errors_name_their_line() {
    let cases = [
        ("variable a : bool[3];\n", "In line: 1, 'bool' is not a valid variable type"),
        (
            "variable a : integer[x];\n",
            "In line: 1, Array variable declaration incorrect. \n Must be in this format: 'variable [Variable name] : integer[arraySize]'",
        ),
        (
            "variable a integer;\n",
            "In line: 1, Array variable declaration incorrect. \n Must be in this format: 'variable [Variable name] : [variable type]'",
        ),
        (
            "variable a : integer;\nvariable b : integer\n[x];\n",
            "In line: 2, Array variable declaration incorrect. \n Must be in this format: 'variable [Variable name] : integer[arraySize]'",
        ),
    ];
    for (text, message) in cases {
        let mut lexer = lexed(text);
        let mut parser = Parser::new(&mut lexer);
        let refused = parser.startParse().unwrap_err();
        assert_eq!(errors(&refused), vec![message.to_string()]);
    }
}

#[test]
fn an_array_size_that_is_not_a_size_is_refused() {
    let mut parser = Parser::new(&mut Lexer::new("e.src", ""));
    let toks = vec![
        tok(tokenTypeEnum::VARIABLE, "variable", 4),
        tok(tokenTypeEnum::IDENTIFIER, "a", 4),
        tok(tokenTypeEnum::COLON, ":", 4),
        tok(tokenTypeEnum::IDENTIFIER, "integer", 4),
        tok(tokenTypeEnum::L_BRACKET, "[", 4),
        tok(tokenTypeEnum::INT, "-1", 4),
        tok(tokenTypeEnum::R_BRACKET, "]", 4),
        tok(tokenTypeEnum::SEMICOLON, ";", 4),
    ];
    let refused = parser.parse(toks, 0).unwrap_err();
    assert_eq!(errors(&refused), vec!["In line: 4, Invlaid array size"]);
}

#[test]
fn if_with_else() {
    let mut lexer = lexed("if (x < 3) then return y; else return z; end if\n");
    let mut parser = Parser::new(&mut lexer);
    let (rep, stmt) = parser.startParse().unwrap();
    assert!(errors(&rep).is_empty());
    assert_eq!(
        stmt.unwrap().display(0),
        vec![
            "Block([",
            "  If (",
            "    Condition: (x < 3)",
            "    Body: ",
            "    Block([",
            "      Return(y)",
            "    ])",
            "    Else: ",
            "    Block([",
            "      Return(z)",
            "    ])",
            "  )",
            "])",
        ]
    );
}

#[test]
fn a_refused_condition_is_reported_with_the_line_of_the_if() {
    let mut parser = Parser::new(&mut Lexer::new("e.src", ""));
    let toks = vec![
        tok(tokenTypeEnum::IF, "if", 7),
        tok(tokenTypeEnum::L_PAREN, "(", 7),
        tok(tokenTypeEnum::IDENTIFIER, "y", 7),
        tok(tokenTypeEnum::SEMICOLON, ";", 7),
        tok(tokenTypeEnum::R_PAREN, ")", 7),
        tok(tokenTypeEnum::THEN, "then", 7),
        tok(tokenTypeEnum::END_IF, "END_IF", 8),
    ];
    let (rep, stmt) = parser.parse(toks, 0).unwrap();
    assert_eq!(errors(&rep), vec!["In line: 7, Error with condition"]);
    assert_eq!(stmt.unwrap().display(0), vec!["Block([", "])"]);
}

fn procedure_tokens(param_line: usize) -> Vec<Token> {
    vec![
        tok(tokenTypeEnum::PROCEDURE, "procedure", 1),
        tok(tokenTypeEnum::IDENTIFIER, "f", 1),
        tok(tokenTypeEnum::COLON, ":", 1),
        tok(tokenTypeEnum::IDENTIFIER, "integer", 1),
        tok(tokenTypeEnum::L_PAREN, "(", 1),
        tok(tokenTypeEnum::VARIABLE, "variable", 1),
        tok(tokenTypeEnum::IDENTIFIER, "a", 1),
        tok(tokenTypeEnum::COLON, ":", param_line),
        tok(tokenTypeEnum::IDENTIFIER, "integer", param_line),
        tok(tokenTypeEnum::R_PAREN, ")", param_line),
        tok(tokenTypeEnum::BEGIN, "begin", 2),
        tok(tokenTypeEnum::RETURN, "return", 2),
        tok(tokenTypeEnum::IDENTIFIER, "a", 2),
        tok(tokenTypeEnum::SEMICOLON, ";", 2),
        tok(tokenTypeEnum::END_PROCEDURE, "END_PROCEDURE", 3),
    ]
}

#[test]
fn a_procedure_is_read_but_kept_nowhere() {
    let mut parser = Parser::new(&mut Lexer::new("e.src", ""));
    let (rep, stmt) = parser.parse(procedure_tokens(1), 0).unwrap();
    assert!(errors(&rep).is_empty());
    assert_eq!(stmt.unwrap().display(0), vec!["Block([", "])"]);
}

#[test]
fn parameters_spread_over_lines_never_end() {
    let mut parser = Parser::new(&mut Lexer::new("e.src", ""));
    assert!(parser.try_parse(procedure_tokens(2), 0).is_none());
}

#[test]
fn a_type_word_before_the_parameters_becomes_a_call() {
    let mut lexer = lexed("procedure f : integer (variable a : integer) begin return a; end procedure\n");
    assert_eq!(lexer.tokenList[3].tt, tokenTypeEnum::PROCEDURE_CALL);
    let mut parser = Parser::new(&mut lexer);
    let (rep, stmt) = parser.startParse().unwrap();
    assert_eq!(errors(&rep), vec!["In line: 1, Error with procedure"]);
    assert_eq!(stmt.unwrap().display(0), vec!["Block([", "])"]);
}

#[test]
fn running_off_the_end_of_a_list_is_reported_as_none() {
    let mut parser = Parser::new(&mut Lexer::new("e.src", ""));
    assert!(parser.try_parse(vec![tok(tokenTypeEnum::RETURN, "return", 1)], 0).is_none());
    assert!(parser.try_parse(vec![tok(tokenTypeEnum::VARIABLE, "variable", 1)], 0).is_none());
    assert!(parser.try_parse(vec![tok(tokenTypeEnum::BEGIN, "begin", 1)], 0).is_none());
}

#[test]
fn a_refusal_inside_parentheses_ends_the_parse() {
    let mut parser = Parser::new(&mut Lexer::new("e.src", ""));
    let toks = vec![
        tok(tokenTypeEnum::L_PAREN, "(", 1),
        tok(tokenTypeEnum::IDENTIFIER, "y", 1),
        tok(tokenTypeEnum::R_PAREN, ")", 1),
        tok(tokenTypeEnum::RETURN, "return", 2),
        tok(tokenTypeEnum::SEMICOLON, ";", 2),
    ];
    let refused = parser.parse(toks, 0).unwrap_err();
    assert_eq!(errors(&refused), vec!["Unsupported operator: R_PAREN"]);
}

#[test]
fn return_without_a_value() {
    let mut parser = Parser::new(&mut Lexer::new("e.src", ""));
    let toks = vec![tok(tokenTypeEnum::RETURN, "return", 1), tok(tokenTypeEnum::SEMICOLON, ";", 1)];
    let (_, stmt) = parser.parse(toks, 0).unwrap();
    assert_eq!(stmt.unwrap().display(2), vec!["  Block([", "    Return()", "  ])"]);
}

#[test]
fn earlier_errors_stay_in_front_of_later_ones() {
    let mut parser = Parser::new(&mut Lexer::new("e.src", ""));
    let bad_if = |line: usize| {
        vec![
            tok(tokenTypeEnum::IF, "if", line),
            tok(tokenTypeEnum::L_PAREN, "(", line),
            tok(tokenTypeEnum::IDENTIFIER, "y", line),
            tok(tokenTypeEnum::SEMICOLON, ";", line),
            tok(tokenTypeEnum::R_PAREN, ")", line),
            tok(tokenTypeEnum::THEN, "then", line),
            tok(tokenTypeEnum::END_IF, "END_IF", line),
        ]
    };
    parser.parse(bad_if(1), 0).unwrap();
    parser.parse(bad_if(2), 0).unwrap();
    assert_eq!(
        errors(parser.reports()),
        vec!["In line: 1, Error with condition", "In line: 2, Error with condition"]
    );
    assert!(parser.reports().warnings().is_empty());
    assert!(!parser.reports().error_status());
}

#[test]
fn tokens_that_start_nothing_give_an_empty_block() {
    let mut parser = Parser::new(&mut Lexer::new("e.src", ""));
    let toks = vec![
        tok(tokenTypeEnum::INT, "1", 1),
        tok(tokenTypeEnum::PLUS, "+", 1),
        tok(tokenTypeEnum::STRING, "s", 1),
        tok(tokenTypeEnum::EOF, "EOF", 2),
    ];
    let (rep, stmt) = parser.parse(toks, 0).unwrap();
    assert!(errors(&rep).is_empty());
    assert_eq!(stmt.unwrap().display(0), vec!["Block([", "])"]);
}

#[test]
fn blocks_give_their_first_statement() {
    let mut parser = Parser::new(&mut Lexer::new("e.src", ""));
    let empty = Stmt::Block(vec![]);
    assert_eq!(parser.processBlock(&empty).unwrap_err(), "Block is empty");
    assert_eq!(parser.processBlockStmt(&empty).unwrap_err(), "Block is empty");
    let not_block = Stmt::Return(Expr::VarRef("v".to_string()));
    assert_eq!(
        parser.processBlock(&not_block).unwrap_err(),
        "Expected Stmt::Block, but received a different Stmt type"
    );
    let decl = Stmt::Block(vec![Stmt::VarDecl("v".to_string(), VarType::Bool(true))]);
    assert_eq!(parser.processBlock(&decl).unwrap_err(), "First statement in Block is not an Expr");
    assert_eq!(parser.processBlockStmt(&decl).unwrap().display(0), vec!["VarDecl(v, Bool(true))"]);
    let expr = Stmt::Block(vec![Stmt::Expr(Expr::IntLiteral(-4))]);
    assert_eq!(parser.processBlock(&expr).unwrap().to_string(), "-4");
    let _ = BinOp::Add;
}

#[test]
fn the_parser_lists_its_tokens() {
    let mut lexer = lexed("begin\n");
    let parser = Parser::new(&mut lexer);
    assert_eq!(parser.printTokenList(), vec!["< \"begin\" , BEGIN, 1 >", "< \"EOF\" , EOF, 2 >"]);
    assert_eq!(lexer.printTokenList(), parser.printTokenList());
}

#[test]
fn operators_are_written_with_distinct_symbols() {
    let ops = [
        BinOp::Add,
        BinOp::Sub,
        BinOp::Mul,
        BinOp::Div,
        BinOp::Greater,
        BinOp::Less,
        BinOp::Greater_Equal,
        BinOp::Less_Equal,
        BinOp::Check_Equal,
    ];
    let symbols: Vec<String> = ops.iter().map(|o| o.symbol()).collect();
    for i in 0..symbols.len() {
        for j in 0..symbols.len() {
            assert_eq!(symbols[i] == symbols[j], i == j);
        }
    }
}
