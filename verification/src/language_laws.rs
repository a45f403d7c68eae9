use vstd::prelude::*;
use crate::ast::{var_type_of, StmtV, VarTypeV};
use crate::numparse::{digit_value, read_digits, read_usize};
use crate::text::is_digit;
use crate::lexer::{pass_step, second_pass_from};
use crate::parse_spec::{case_variable, find_tt, next_index, parse_tokens, token_step, zeros, Outcome, ParseRun, Step};
use crate::reporting::ReportingView;
use crate::scan_spec::{spec_scan, Scanned};
use crate::scan_spec::token_step as scan_token_step;
use crate::stats::{count_chars, count_newlines};
use crate::table::keyword;
use crate::token::{token_type_name, tokenGroup, tokenTypeEnum, TokenView};

verus! {

// ---------------------------------------------------------------------------------------------
// Declarations

/// A declaration `variable <name> : <type word> ;` whose type word is `integer`, `bool`,
/// `string` or `float` parses to one statement that declares `<name>` with the type that word
/// names in the table `VarType::new` reads (`bool` gives `Bool(false)`, `integer` gives
/// `Int(0)`, `string` an empty `Str`, `float` `Float`), and nothing is reported.
pub proof fn law_declaration_takes_the_named_type(ts: Seq<TokenView>, scope: int, rep: ReportingView)
    requires
        ts.len() == 5,
        ts[0].tt == tokenTypeEnum::VARIABLE,
        ts[1].tt != tokenTypeEnum::SEMICOLON,
        ts[2].tt == tokenTypeEnum::COLON,
        ts[3].tt != tokenTypeEnum::SEMICOLON,
        ts[4].tt == tokenTypeEnum::SEMICOLON,
        ts[3].text == "integer"@ || ts[3].text == "bool"@ || ts[3].text == "string"@ || ts[3].text == "float"@,
    ensures
        var_type_of(ts[3].text) is Some,
        parse_tokens(ts, scope, rep) == (ParseRun {
            reports: rep,
            outcome: Outcome::Parsed(seq![StmtV::VarDecl(ts[1].text, var_type_of(ts[3].text)->0)]),
        }),
{
    reveal_strlit("integer");
    reveal_strlit("bool");
    reveal_strlit("string");
    reveal_strlit("float");
    reveal_strlit("int[]");
    assert(find_tt(ts, 4, tokenTypeEnum::SEMICOLON) == 4);
    assert(find_tt(ts, 3, tokenTypeEnum::SEMICOLON) == 4);
    assert(find_tt(ts, 2, tokenTypeEnum::SEMICOLON) == 4);
    assert(find_tt(ts, 1, tokenTypeEnum::SEMICOLON) == 4);
    let w = ts[3].text;
    assert(seq![StmtV::VarDecl(ts[1].text, var_type_of(w)->0)] =~= Seq::<StmtV>::empty().push(
        StmtV::VarDecl(ts[1].text, var_type_of(w)->0),
    ));
    if w == "float"@ {
        assert(w != "int[]"@ || w[0] != 'i');
    }
    let b1 = seq![StmtV::VarDecl(ts[1].text, var_type_of(w)->0)];
    assert(case_variable(ts, 0, Seq::empty(), rep) == Step::Next(b1, rep));
    assert(token_step(ts, 0, scope, Seq::empty(), rep) == Step::Next(b1, rep));
    assert(next_index(ts, 0, scope) == 5);
}

/// Reading digits stays within the bounds it checks.
proof fn lemma_read_digits_in_bounds(d: Seq<char>, acc: int, negative: bool, min: int, max: int)
    requires
        min <= acc <= max,
    ensures
        read_digits(d, acc, negative, min, max) matches Ok(v) ==> min <= v <= max,
    decreases d.len(),
{
    if d.len() > 0 && is_digit(d[0]) {
        let next = if negative { acc * 10 - digit_value(d[0]) } else { acc * 10 + digit_value(d[0]) };
        if min <= next <= max {
            lemma_read_digits_in_bounds(d.drop_first(), next, negative, min, max);
        }
    }
}

/// A declaration `variable <name> : integer [ <n> ] ;` with `<n>` a number that fits a `usize`
/// parses to one statement that declares `<name>` as an array of `<n>` zeros, and nothing is
/// reported.
pub proof fn law_array_declaration_holds_zeros(ts: Seq<TokenView>, scope: int, rep: ReportingView)
    requires
        ts.len() == 8,
        ts[0].tt == tokenTypeEnum::VARIABLE,
        ts[1].tt != tokenTypeEnum::SEMICOLON,
        ts[2].tt == tokenTypeEnum::COLON,
        ts[3].text == "integer"@,
        ts[3].tt != tokenTypeEnum::SEMICOLON,
        ts[4].tt == tokenTypeEnum::L_BRACKET,
        ts[5].tt == tokenTypeEnum::INT,
        read_usize(ts[5].text) is Ok,
        ts[6].tt != tokenTypeEnum::SEMICOLON,
        ts[7].tt == tokenTypeEnum::SEMICOLON,
    ensures
        parse_tokens(ts, scope, rep).reports == rep,
        parse_tokens(ts, scope, rep).outcome matches Outcome::Parsed(b) && {
            &&& b.len() == 1
            &&& b[0] matches StmtV::VarDecl(name, VarTypeV::IntArray(a)) && {
                &&& name == ts[1].text
                &&& a.len() == read_usize(ts[5].text)->Ok_0
                &&& forall|j: int| 0 <= j < a.len() ==> a[j] == 0
            }
        },
{
    reveal_strlit("integer");
    let t5 = ts[5].text;
    if t5.len() > 0 {
        lemma_read_digits_in_bounds(t5, 0, false, 0, usize::MAX as int);
        lemma_read_digits_in_bounds(t5.drop_first(), 0, false, 0, usize::MAX as int);
    }
    assert(find_tt(ts, 7, tokenTypeEnum::SEMICOLON) == 7);
    assert(find_tt(ts, 6, tokenTypeEnum::SEMICOLON) == 7);
    assert(find_tt(ts, 5, tokenTypeEnum::SEMICOLON) == 7);
    assert(find_tt(ts, 4, tokenTypeEnum::SEMICOLON) == 7);
    assert(find_tt(ts, 3, tokenTypeEnum::SEMICOLON) == 7);
    assert(find_tt(ts, 2, tokenTypeEnum::SEMICOLON) == 7);
    assert(find_tt(ts, 1, tokenTypeEnum::SEMICOLON) == 7);
    let n = read_usize(ts[5].text)->Ok_0;
    let d = StmtV::VarDecl(ts[1].text, VarTypeV::IntArray(zeros(n as nat)));
    assert(Seq::<StmtV>::empty().push(d) =~= seq![d]);
    assert(case_variable(ts, 0, Seq::empty(), rep) == Step::Next(seq![d], rep));
    assert(token_step(ts, 0, scope, Seq::empty(), rep) == Step::Next(seq![d], rep));
    assert(next_index(ts, 0, scope) == 8);
}

// ---------------------------------------------------------------------------------------------
// Tokens of one and two characters

/// The kind and group of the token that each one-character symbol of the language makes.
pub open spec fn symbol_token(c: char) -> Option<(tokenTypeEnum, tokenGroup)> {
    if c == '+' {
        Some((tokenTypeEnum::PLUS, tokenGroup::OPERATOR))
    } else if c == '-' {
        Some((tokenTypeEnum::MINUS, tokenGroup::OPERATOR))
    } else if c == '*' {
        Some((tokenTypeEnum::MULTIPLY, tokenGroup::OPERATOR))
    } else if c == '&' {
        Some((tokenTypeEnum::AND, tokenGroup::OPERATOR))
    } else if c == '|' {
        Some((tokenTypeEnum::OR, tokenGroup::OPERATOR))
    } else if c == ';' {
        Some((tokenTypeEnum::SEMICOLON, tokenGroup::SYMBOL))
    } else if c == ',' {
        Some((tokenTypeEnum::COMMA, tokenGroup::SYMBOL))
    } else if c == '.' {
        Some((tokenTypeEnum::PERIOD, tokenGroup::SYMBOL))
    } else if c == '(' {
        Some((tokenTypeEnum::L_PAREN, tokenGroup::SYMBOL))
    } else if c == ')' {
        Some((tokenTypeEnum::R_PAREN, tokenGroup::SYMBOL))
    } else if c == '[' {
        Some((tokenTypeEnum::L_BRACKET, tokenGroup::SYMBOL))
    } else if c == ']' {
        Some((tokenTypeEnum::R_BRACKET, tokenGroup::SYMBOL))
    } else {
        None
    }
}

/// The kind of the operator that each two-character symbol of the language makes.
pub open spec fn pair_token(c: char, d: char) -> Option<tokenTypeEnum> {
    if d != '=' {
        None
    } else if c == '<' {
        Some(tokenTypeEnum::LESS_EQUALS)
    } else if c == '>' {
        Some(tokenTypeEnum::GREATER_EQUALS)
    } else if c == '=' {
        Some(tokenTypeEnum::CHECK_EQUALS)
    } else if c == '!' {
        Some(tokenTypeEnum::NOT_EQUALS)
    } else if c == ':' {
        Some(tokenTypeEnum::SET_EQUALS)
    } else {
        None
    }
}

/// A scan that starts on a one-character symbol gives the token of that symbol's kind, with
/// the symbol as its text, and moves past it (a `-` needs a character after it to look at).
pub proof fn law_symbol_scans_to_its_kind(s: Seq<char>, p: nat, line: nat)
    requires
        p < s.len(),
        symbol_token(s[p as int]) is Some,
        s[p as int] == '-' ==> p + 1 < s.len(),
    ensures
        ({
            let (tt, tg) = symbol_token(s[p as int])->0;
            spec_scan(s, p, line) == Some(
                Scanned { token: TokenView { tt, text: seq![s[p as int]], tg, line }, pos: p + 1, line, key: None },
            )
        }),
{
    reveal(scan_token_step);
    reveal_strlit("+");
    reveal_strlit("-");
    reveal_strlit("*");
    reveal_strlit("&");
    reveal_strlit("|");
    reveal_strlit(";");
    reveal_strlit(",");
    reveal_strlit(".");
    reveal_strlit("(");
    reveal_strlit(")");
    reveal_strlit("[");
    reveal_strlit("]");
    let c = s[p as int];
    assert(seq![c] =~= if c == '+' {
        "+"@
    } else if c == '-' {
        "-"@
    } else if c == '*' {
        "*"@
    } else if c == '&' {
        "&"@
    } else if c == '|' {
        "|"@
    } else if c == ';' {
        ";"@
    } else if c == ',' {
        ","@
    } else if c == '.' {
        "."@
    } else if c == '(' {
        "("@
    } else if c == ')' {
        ")"@
    } else if c == '[' {
        "["@
    } else {
        "]"@
    });
}

/// A scan that starts on a two-character operator gives the operator's kind, with the two
/// characters as its text, and moves past both; a `/` followed by a blank is a division.
pub proof fn law_pair_scans_to_its_kind(s: Seq<char>, p: nat, line: nat)
    requires
        p + 1 < s.len(),
        pair_token(s[p as int], s[p + 1int]) is Some || (s[p as int] == '/' && s[p + 1int] == ' '),
    ensures
        pair_token(s[p as int], s[p + 1int]) is Some ==> spec_scan(s, p, line) == Some(
            Scanned {
                token: TokenView {
                    tt: pair_token(s[p as int], s[p + 1int])->0,
                    text: seq![s[p as int], s[p + 1int]],
                    tg: tokenGroup::OPERATOR,
                    line,
                },
                pos: p + 2,
                line,
                key: None,
            },
        ),
        s[p as int] == '/' && s[p + 1int] == ' ' ==> spec_scan(s, p, line) == Some(
            Scanned {
                token: TokenView { tt: tokenTypeEnum::DIVIDE, text: seq!['/'], tg: tokenGroup::OPERATOR, line },
                pos: p + 2,
                line,
                key: None,
            },
        ),
{
    reveal(scan_token_step);
    reveal_strlit("<=");
    reveal_strlit(">=");
    reveal_strlit("==");
    reveal_strlit("!=");
    reveal_strlit(":=");
    reveal_strlit("/");
    let c = s[p as int];
    assert(seq!['/'] =~= "/"@);
    if pair_token(c, s[p + 1int]) is Some {
        assert(seq![c, s[p + 1int]] =~= if c == '<' {
            "<="@
        } else if c == '>' {
            ">="@
        } else if c == '=' {
            "=="@
        } else if c == '!' {
            "!="@
        } else {
            ":="@
        });
    }
}

/// A scan that starts on `<`, `>` or `:` not followed by `=` gives the one-character operator
/// (less, greater, colon) and gives the next character back.
pub proof fn law_single_comparison_scans_to_its_kind(s: Seq<char>, p: nat, line: nat)
    requires
        p + 1 < s.len(),
        s[p as int] == '<' || s[p as int] == '>' || s[p as int] == ':',
        s[p + 1int] != '=',
    ensures
        spec_scan(s, p, line) == Some(
            Scanned {
                token: TokenView {
                    tt: if s[p as int] == '<' {
                        tokenTypeEnum::LESS
                    } else if s[p as int] == '>' {
                        tokenTypeEnum::GREATER
                    } else {
                        tokenTypeEnum::COLON
                    },
                    text: seq![s[p as int]],
                    tg: tokenGroup::OPERATOR,
                    line,
                },
                pos: p + 1,
                line,
                key: None,
            },
        ),
{
    reveal(scan_token_step);
    reveal_strlit("<");
    reveal_strlit(">");
    reveal_strlit(":");
    let c = s[p as int];
    assert(seq![c] =~= if c == '<' {
        "<"@
    } else if c == '>' {
        ">"@
    } else {
        ":"@
    });
}

// ---------------------------------------------------------------------------------------------
// The second pass

/// The second pass joins `end` with the keyword after it (`program`, `procedure`, `if` or
/// `for`) into one token whose kind is named `END_` followed by that keyword's kind and whose
/// text is that name, placed on the keyword's line; the joined token is where the pass puts it.
pub proof fn law_end_joins_the_keyword_after_it(v: Seq<TokenView>, i: int)
    requires
        0 <= i,
        i + 1 < v.len(),
        v[i].tt == tokenTypeEnum::END,
        v[i + 1].tt == tokenTypeEnum::PROGRAM || v[i + 1].tt == tokenTypeEnum::PROCEDURE || v[i + 1].tt
            == tokenTypeEnum::IF || v[i + 1].tt == tokenTypeEnum::FOR,
    ensures
        pass_step(v, i) matches Some((t, two)) && {
            &&& two
            &&& token_type_name(t.tt) == "END_"@ + token_type_name(v[i + 1].tt)
            &&& t.text == token_type_name(t.tt)
            &&& t.line == v[i + 1].line
            &&& t.tg == tokenGroup::OTHER
        },
        ({
            let (t, _) = pass_step(v, i)->0;
            second_pass_from(v, i) matches Some(w) ==> w.len() > 0 && w[0] == t
        }),
{
    reveal_strlit("END_");
    reveal_strlit("PROGRAM");
    reveal_strlit("PROCEDURE");
    reveal_strlit("IF");
    reveal_strlit("FOR");
    reveal_strlit("END_PROGRAM");
    reveal_strlit("END_PROCEDURE");
    reveal_strlit("END_IF");
    reveal_strlit("END_FOR");
    assert("END_PROGRAM"@ =~= "END_"@ + "PROGRAM"@);
    assert("END_PROCEDURE"@ =~= "END_"@ + "PROCEDURE"@);
    assert("END_IF"@ =~= "END_"@ + "IF"@);
    assert("END_FOR"@ =~= "END_"@ + "FOR"@);
}

// ---------------------------------------------------------------------------------------------
// Counts

/// The number of lines of a text is the number of its line feeds, and the number of its
/// characters the number of those that are not NUL.
pub proof fn law_counts_are_the_matching_characters(s: Seq<char>)
    ensures
        count_newlines(s) == s.filter(|c: char| c == '\n').len(),
        count_chars(s) == s.filter(|c: char| c != '\0').len(),
    decreases s.len(),
{
    reveal(Seq::filter);
    if s.len() > 0 {
        law_counts_are_the_matching_characters(s.drop_last());
    }
}

// ---------------------------------------------------------------------------------------------
// Reserved words

/// The reserved words of the language.
pub open spec fn reserved_words() -> Seq<Seq<char>> {
    seq![
        "if"@,
        "else"@,
        "procedure"@,
        "is"@,
        "global"@,
        "variable"@,
        "begin"@,
        "then"@,
        "end"@,
        "program"@,
        "return"@,
        "for"@,
        "not"@,
    ]
}

/// The ASCII upper-case form of a character.
pub open spec fn upper(c: char) -> char {
    if 'a' <= c && c <= 'z' {
        ((c as int) - 32) as char
    } else {
        c
    }
}

/// Each reserved word is its own keyword: its kind is named by the word in upper case (so it is
/// never an identifier), in the keyword group except `not`, which is an operator.
pub proof fn law_reserved_words_are_keywords(j: int)
    requires
        0 <= j < reserved_words().len(),
    ensures
        keyword(reserved_words()[j]) matches Some((t, g)) && {
            &&& token_type_name(t) == reserved_words()[j].map_values(|c: char| upper(c))
            &&& t != tokenTypeEnum::IDENTIFIER
            &&& g == if reserved_words()[j] == "not"@ { tokenGroup::OPERATOR } else { tokenGroup::KEYWORD }
        },
{
    reveal_strlit("if");
    reveal_strlit("else");
    reveal_strlit("procedure");
    reveal_strlit("is");
    reveal_strlit("global");
    reveal_strlit("variable");
    reveal_strlit("begin");
    reveal_strlit("then");
    reveal_strlit("end");
    reveal_strlit("program");
    reveal_strlit("return");
    reveal_strlit("for");
    reveal_strlit("not");
    reveal_strlit("IF");
    reveal_strlit("ELSE");
    reveal_strlit("PROCEDURE");
    reveal_strlit("IS");
    reveal_strlit("GLOBAL");
    reveal_strlit("VARIABLE");
    reveal_strlit("BEGIN");
    reveal_strlit("THEN");
    reveal_strlit("END");
    reveal_strlit("PROGRAM");
    reveal_strlit("RETURN");
    reveal_strlit("FOR");
    reveal_strlit("NOT");
    let w = reserved_words()[j];
    let up = w.map_values(|c: char| upper(c));
    if j == 0 {
        assert(up =~= "IF"@);
    } else if j == 1 {
        assert(up =~= "ELSE"@);
    } else if j == 2 {
        assert(up =~= "PROCEDURE"@);
    } else if j == 3 {
        assert(up =~= "IS"@);
    } else if j == 4 {
        assert(up =~= "GLOBAL"@);
    } else if j == 5 {
        assert(up =~= "VARIABLE"@);
    } else if j == 6 {
        assert(up =~= "BEGIN"@);
    } else if j == 7 {
        assert(up =~= "THEN"@);
    } else if j == 8 {
        assert(up =~= "END"@);
        assert("end"@[0] != "not"@[0]);
    } else if j == 9 {
        assert(up =~= "PROGRAM"@);
    } else if j == 10 {
        assert(up =~= "RETURN"@);
    } else if j == 11 {
        assert(up =~= "FOR"@);
        assert("for"@[0] != "not"@[0]);
    } else {
        assert(up =~= "NOT"@);
    }
}

// ---------------------------------------------------------------------------------------------
// More of the second pass

/// The second pass turns a name followed by `(` into one procedure-call token that keeps the
/// name's text and takes the line of the `(`.
pub proof fn law_name_before_paren_is_a_call(v: Seq<TokenView>, i: int)
    requires
        0 <= i,
        i + 1 < v.len(),
        v[i].tt == tokenTypeEnum::IDENTIFIER,
        v[i + 1].tt == tokenTypeEnum::L_PAREN,
    ensures
        pass_step(v, i) == Some(
            (
                TokenView {
                    tt: tokenTypeEnum::PROCEDURE_CALL,
                    text: v[i].text,
                    tg: tokenGroup::SYMBOL,
                    line: v[i + 1].line,
                },
                true,
            ),
        ),
{
}

/// The second pass folds a `-` that stands between an operator and a value into a negative
/// value: the value's kind and line, its text after a `-`, in the number group.
pub proof fn law_minus_folds_into_a_negative_value(v: Seq<TokenView>, i: int)
    requires
        1 <= i,
        i + 1 < v.len(),
        v[i].tt == tokenTypeEnum::MINUS,
        v[i - 1].tg == tokenGroup::OPERATOR,
        v[i + 1].tg == tokenGroup::VARIABLE,
    ensures
        pass_step(v, i) == Some(
            (
                TokenView {
                    tt: v[i + 1].tt,
                    text: seq!['-'] + v[i + 1].text,
                    tg: tokenGroup::NUMBER,
                    line: v[i + 1].line,
                },
                true,
            ),
        ),
{
    reveal_strlit("-");
    assert(seq!['-'] =~= "-"@);
}

/// The second pass drops an unaccounted character and keeps the token after it as it is.
pub proof fn law_unaccounted_gives_way(v: Seq<TokenView>, i: int)
    requires
        0 <= i,
        i + 1 < v.len(),
        v[i].tt == tokenTypeEnum::UNACCOUNTED,
    ensures
        pass_step(v, i) == Some((v[i + 1], true)),
{
}

/// Any other token passes the second pass unchanged, on its own.
pub proof fn law_other_tokens_pass_unchanged(v: Seq<TokenView>, i: int)
    requires
        0 <= i < v.len(),
        v[i].tt != tokenTypeEnum::END,
        v[i].tt != tokenTypeEnum::IDENTIFIER,
        v[i].tt != tokenTypeEnum::UNACCOUNTED,
        v[i].tt != tokenTypeEnum::MINUS,
    ensures
        pass_step(v, i) == Some((v[i], false)),
{
}

} // verus!
