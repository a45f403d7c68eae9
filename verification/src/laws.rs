use vstd::prelude::*;
use crate::decimal::{digit_char, int_text, nat_text};
use crate::lexer::{second_pass, second_pass_from, pass_step};
use crate::scan_spec::{
    lemma_spec_scan, read, scan_all, scan_step, skip_block_comment, skip_filler, skip_line_comment, spec_scan, token_step,
    is_filler, Scanned, Step as ScanStep,
};
use crate::numparse::{digit_value, read_digits, read_i64, read_usize};
use crate::parse_spec::reported;
use crate::reporting::Reporting;
use crate::stats::{count_chars, count_newlines, count_word_ends, white_space};
use crate::table::{keyword, table_after_lookup, table_wf, ident_token};
use crate::text::is_digit;
use crate::token::{token_type_name, tokenGroup, tokenTypeEnum, TokenView};
use crate::ast::{binop_of, binop_symbol, BinOp};

verus! {

proof fn lemma_digit_char(d: nat)
    requires
        d < 10,
    ensures
        is_digit(digit_char(d)),
        digit_value(digit_char(d)) == d,
{
}

proof fn lemma_nat_text_digits(n: nat)
    ensures
        nat_text(n).len() >= 1,
        forall|j: int| 0 <= j < nat_text(n).len() ==> is_digit(#[trigger] nat_text(n)[j]),
    decreases n,
{
    lemma_digit_char(n % 10);
    if n >= 10 {
        lemma_nat_text_digits(n / 10);
    } else {
        assert(n % 10 == n);
    }
}

proof fn lemma_read_digits_push(s: Seq<char>, c: char, acc: int, negative: bool, min: int, max: int)
    ensures
        read_digits(s.push(c), acc, negative, min, max) == match read_digits(s, acc, negative, min, max) {
            Ok(v) => read_digits(seq![c], v, negative, min, max),
            Err(e) => Err(e),
        },
    decreases s.len(),
{
    if s.len() == 0 {
        assert(s.push(c) =~= seq![c]);
    } else {
        assert(s.push(c)[0] == s[0]);
        assert(s.push(c).drop_first() =~= s.drop_first().push(c));
        if is_digit(s[0]) {
            let next = if negative { acc * 10 - digit_value(s[0]) } else { acc * 10 + digit_value(s[0]) };
            if min <= next <= max {
                lemma_read_digits_push(s.drop_first(), c, next, negative, min, max);
            }
        }
    }
}

proof fn lemma_nat_text_reads(n: nat, negative: bool, min: int, max: int)
    requires
        negative ==> max >= 0 && -n >= min,
        !negative ==> min <= 0 && n <= max,
    ensures
        read_digits(nat_text(n), 0, negative, min, max) == Ok::<int, crate::numparse::IntErrorKind>(
            if negative { -n } else { n as int },
        ),
    decreases n,
{
    lemma_digit_char(n % 10);
    let c = digit_char(n % 10);
    if n < 10 {
        assert(n % 10 == n);
        assert(read_digits(seq![c].drop_first(), if negative { -n } else { n as int }, negative, min, max) == Ok::<
            int,
            crate::numparse::IntErrorKind,
        >(if negative { -n } else { n as int }));
    } else {
        lemma_nat_text_reads(n / 10, negative, min, max);
        lemma_read_digits_push(nat_text(n / 10), c, 0, negative, min, max);
        let v: int = if negative { -(n / 10) } else { (n / 10) as int };
        let next: int = if negative { v * 10 - (n % 10) } else { v * 10 + (n % 10) };
        assert(next == if negative { -n } else { n as int });
        assert(seq![c].drop_first() =~= Seq::<char>::empty());
    }
}

/// The decimal text of a `usize` reads back as that number.
pub proof fn law_usize_text_reads_back(n: usize)
    ensures
        read_usize(nat_text(n as nat)) == Ok::<int, crate::numparse::IntErrorKind>(n as int),
{
    lemma_nat_text_digits(n as nat);
    let s = nat_text(n as nat);
    assert(is_digit(s[0]));
    lemma_nat_text_reads(n as nat, false, 0, usize::MAX as int);
}

/// The decimal text of an `i64`, with its minus sign, reads back as that number.
pub proof fn law_i64_text_reads_back(v: i64)
    ensures
        read_i64(int_text(v as int)) == Ok::<int, crate::numparse::IntErrorKind>(v as int),
{
    if v < 0 {
        let m: nat = (-(v as int)) as nat;
        lemma_nat_text_digits(m);
        let s = seq!['-'] + nat_text(m);
        assert(s.drop_first() =~= nat_text(m));
        lemma_nat_text_reads(m, true, i64::MIN as int, i64::MAX as int);
    } else {
        lemma_nat_text_digits(v as nat);
        let s = nat_text(v as nat);
        assert(is_digit(s[0]));
        lemma_nat_text_reads(v as nat, false, i64::MIN as int, i64::MAX as int);
    }
}

/// Counting a text in two pieces: characters and lines add up, and words add up except for
/// a word that the first character of the second piece ends.
pub proof fn law_counts_split(a: Seq<char>, b: Seq<char>)
    ensures
        count_chars(a + b) == count_chars(a) + count_chars(b),
        count_newlines(a + b) == count_newlines(a) + count_newlines(b),
        count_word_ends(a + b) == count_word_ends(a) + count_word_ends(b) + if a.len() > 0 && b.len() > 0
            && white_space(b[0]) && !white_space(a.last()) {
            1nat
        } else {
            0nat
        },
    decreases b.len(),
{
    if b.len() == 0 {
        assert(a + b =~= a);
    } else {
        let b2 = b.drop_last();
        law_counts_split(a, b2);
        assert((a + b).drop_last() =~= a + b2);
        assert((a + b).last() == b.last());
        if b.len() >= 2 {
            assert(b2[0] == b[0]);
            assert((a + b)[(a + b).len() - 2] == b[b.len() - 2]);
        } else {
            assert(b2.len() == 0);
            assert(a + b2 =~= a);
            if a.len() > 0 {
                assert((a + b)[(a + b).len() - 2] == a.last());
            }
        }
    }
}

/// A report made from one error holds what a new report holds after that error is reported.
pub proof fn law_from_is_new_then_report(message: Seq<char>)
    ensures
        Reporting::error_view(message) == reported(Reporting::new_view(), message),
{
    assert(Reporting::error_view(message).errors =~= Reporting::new_view().errors.push(message));
}

/// A lookup keeps every entry of the table, and a second lookup of the same text finds what
/// the first left and changes nothing.
pub proof fn law_lookup_keeps_entries(table: Map<Seq<char>, TokenView>, key: Seq<char>, line: nat, line2: nat)
    ensures
        forall|k: Seq<char>| #[trigger] table.contains_key(k) ==> table_after_lookup(table, key, line).contains_key(k)
            && table_after_lookup(table, key, line)[k] == table[k],
        table_after_lookup(table, key, line).contains_key(key),
        table_after_lookup(table_after_lookup(table, key, line), key, line2) == table_after_lookup(table, key, line),
{
}

/// Lookups keep every reserved word reserved: a well-formed table stays well formed.
pub proof fn law_lookup_keeps_keywords(table: Map<Seq<char>, TokenView>, key: Seq<char>, line: nat)
    requires
        table_wf(table),
    ensures
        table_wf(table_after_lookup(table, key, line)),
{
    let t2 = table_after_lookup(table, key, line);
    if !table.contains_key(key) {
        assert(keyword(key) is None);
        assert forall|k: Seq<char>| #[trigger] keyword(k) is Some implies t2.contains_key(k) && t2[k]
            == crate::table::word_token(k, 0) by {
            assert(k != key);
        }
        assert(t2[key] == ident_token(key, line));
    }
}

proof fn lemma_second_pass_from_len(v: Seq<TokenView>, i: int)
    requires
        0 <= i,
    ensures
        second_pass_from(v, i) matches Some(w) ==> w.len() <= if i < v.len() { v.len() - i } else { 0 },
    decreases v.len() - i,
{
    if i < v.len() {
        match pass_step(v, i) {
            None => {},
            Some((t, two)) => {
                lemma_second_pass_from_len(v, if two { i + 2 } else { i + 1 });
            },
        }
    }
}

/// The second pass never makes a token list longer.
pub proof fn law_second_pass_not_longer(v: Seq<TokenView>)
    ensures
        second_pass(v) matches Some(w) ==> w.len() <= v.len(),
{
    lemma_second_pass_from_len(v, 0);
}

/// `BinOp::new` knows the names the lexer gives `+`, `-`, `/`, `>`, `<` and `==`, but not
/// the names it gives `<=`, `>=` and `*`.
pub proof fn law_operator_token_names()
    ensures
        binop_of(token_type_name(tokenTypeEnum::PLUS)) == Some(BinOp::Add),
        binop_of(token_type_name(tokenTypeEnum::MINUS)) == Some(BinOp::Sub),
        binop_of(token_type_name(tokenTypeEnum::DIVIDE)) == Some(BinOp::Div),
        binop_of(token_type_name(tokenTypeEnum::GREATER)) == Some(BinOp::Greater),
        binop_of(token_type_name(tokenTypeEnum::LESS)) == Some(BinOp::Less),
        binop_of(token_type_name(tokenTypeEnum::CHECK_EQUALS)) == Some(BinOp::Check_Equal),
        binop_of(token_type_name(tokenTypeEnum::LESS_EQUALS)) is None,
        binop_of(token_type_name(tokenTypeEnum::GREATER_EQUALS)) is None,
        binop_of(token_type_name(tokenTypeEnum::MULTIPLY)) is None,
{
    reveal_strlit("CHECK_EQUALS");
    reveal_strlit("DIVIDE");
    reveal_strlit("GREATER");
    reveal_strlit("GREATER_EQUAL");
    reveal_strlit("GREATER_EQUALS");
    reveal_strlit("LESS");
    reveal_strlit("LESS_EQUAL");
    reveal_strlit("LESS_EQUALS");
    reveal_strlit("MINUS");
    reveal_strlit("MULTIPLY");
    reveal_strlit("PLUS");
    reveal_strlit("TIMES");
    assert("MINUS"@.len() != "PLUS"@.len());
    assert("DIVIDE"@.len() != "PLUS"@.len());
    assert("DIVIDE"@.len() != "MINUS"@.len());
    assert("DIVIDE"@.len() != "TIMES"@.len());
    assert("GREATER"@.len() != "PLUS"@.len());
    assert("GREATER"@.len() != "MINUS"@.len());
    assert("GREATER"@.len() != "TIMES"@.len());
    assert("GREATER"@.len() != "DIVIDE"@.len());
    assert("LESS"@[0] != "PLUS"@[0]);
    assert("LESS"@.len() != "MINUS"@.len());
    assert("LESS"@.len() != "TIMES"@.len());
    assert("LESS"@.len() != "DIVIDE"@.len());
    assert("LESS"@.len() != "GREATER"@.len());
    assert("CHECK_EQUALS"@.len() != "PLUS"@.len());
    assert("CHECK_EQUALS"@.len() != "MINUS"@.len());
    assert("CHECK_EQUALS"@.len() != "TIMES"@.len());
    assert("CHECK_EQUALS"@.len() != "DIVIDE"@.len());
    assert("CHECK_EQUALS"@.len() != "GREATER"@.len());
    assert("CHECK_EQUALS"@.len() != "LESS"@.len());
    assert("CHECK_EQUALS"@.len() != "GREATER_EQUAL"@.len());
    assert("CHECK_EQUALS"@.len() != "LESS_EQUAL"@.len());
    assert("LESS_EQUALS"@.len() != "PLUS"@.len());
    assert("LESS_EQUALS"@.len() != "MINUS"@.len());
    assert("LESS_EQUALS"@.len() != "TIMES"@.len());
    assert("LESS_EQUALS"@.len() != "DIVIDE"@.len());
    assert("LESS_EQUALS"@.len() != "GREATER"@.len());
    assert("LESS_EQUALS"@.len() != "LESS"@.len());
    assert("LESS_EQUALS"@.len() != "GREATER_EQUAL"@.len());
    assert("LESS_EQUALS"@.len() != "LESS_EQUAL"@.len());
    assert("LESS_EQUALS"@.len() != "CHECK_EQUALS"@.len());
    assert("GREATER_EQUALS"@.len() != "PLUS"@.len());
    assert("GREATER_EQUALS"@.len() != "MINUS"@.len());
    assert("GREATER_EQUALS"@.len() != "TIMES"@.len());
    assert("GREATER_EQUALS"@.len() != "DIVIDE"@.len());
    assert("GREATER_EQUALS"@.len() != "GREATER"@.len());
    assert("GREATER_EQUALS"@.len() != "LESS"@.len());
    assert("GREATER_EQUALS"@.len() != "GREATER_EQUAL"@.len());
    assert("GREATER_EQUALS"@.len() != "LESS_EQUAL"@.len());
    assert("GREATER_EQUALS"@.len() != "CHECK_EQUALS"@.len());
    assert("MULTIPLY"@.len() != "PLUS"@.len());
    assert("MULTIPLY"@.len() != "MINUS"@.len());
    assert("MULTIPLY"@.len() != "TIMES"@.len());
    assert("MULTIPLY"@.len() != "DIVIDE"@.len());
    assert("MULTIPLY"@.len() != "GREATER"@.len());
    assert("MULTIPLY"@.len() != "LESS"@.len());
    assert("MULTIPLY"@.len() != "GREATER_EQUAL"@.len());
    assert("MULTIPLY"@.len() != "LESS_EQUAL"@.len());
    assert("MULTIPLY"@.len() != "CHECK_EQUALS"@.len());
}

/// The operator written with a symbol, if any.
spec fn operator_of_symbol(s: Seq<char>) -> Option<BinOp> {
    if s == "+"@ {
        Some(BinOp::Add)
    } else if s == "-"@ {
        Some(BinOp::Sub)
    } else if s == "*"@ {
        Some(BinOp::Mul)
    } else if s == "/"@ {
        Some(BinOp::Div)
    } else if s == ">"@ {
        Some(BinOp::Greater)
    } else if s == "<"@ {
        Some(BinOp::Less)
    } else if s == ">="@ {
        Some(BinOp::Greater_Equal)
    } else if s == "<="@ {
        Some(BinOp::Less_Equal)
    } else if s == "=="@ {
        Some(BinOp::Check_Equal)
    } else {
        None
    }
}

proof fn lemma_symbol_decodes(op: BinOp)
    ensures
        operator_of_symbol(binop_symbol(op)) == Some(op),
{
    match op {
        BinOp::Add => {
            reveal_strlit("+");
        },
        BinOp::Sub => {
            reveal_strlit("-");
            reveal_strlit("+");
            assert("-"@[0] != "+"@[0]);
        },
        BinOp::Mul => {
            reveal_strlit("*");
            reveal_strlit("-");
            reveal_strlit("+");
            assert("*"@[0] != "+"@[0]);
            assert("*"@[0] != "-"@[0]);
        },
        BinOp::Div => {
            reveal_strlit("/");
            reveal_strlit("*");
            reveal_strlit("-");
            reveal_strlit("+");
            assert("/"@[0] != "+"@[0]);
            assert("/"@[0] != "-"@[0]);
            assert("/"@[0] != "*"@[0]);
        },
        BinOp::Greater => {
            reveal_strlit(">");
            reveal_strlit("/");
            reveal_strlit("*");
            reveal_strlit("-");
            reveal_strlit("+");
            assert(">"@[0] != "+"@[0]);
            assert(">"@[0] != "-"@[0]);
            assert(">"@[0] != "*"@[0]);
            assert(">"@[0] != "/"@[0]);
        },
        BinOp::Less => {
            reveal_strlit("<");
            reveal_strlit(">");
            reveal_strlit("/");
            reveal_strlit("*");
            reveal_strlit("-");
            reveal_strlit("+");
            assert("<"@[0] != "+"@[0]);
            assert("<"@[0] != "-"@[0]);
            assert("<"@[0] != "*"@[0]);
            assert("<"@[0] != "/"@[0]);
            assert("<"@[0] != ">"@[0]);
        },
        BinOp::Greater_Equal => {
            reveal_strlit(">=");
            reveal_strlit("<");
            reveal_strlit(">");
            reveal_strlit("/");
            reveal_strlit("*");
            reveal_strlit("-");
            reveal_strlit("+");
            assert(">="@.len() != "+"@.len());
            assert(">="@.len() != "-"@.len());
            assert(">="@.len() != "*"@.len());
            assert(">="@.len() != "/"@.len());
            assert(">="@.len() != ">"@.len());
            assert(">="@.len() != "<"@.len());
        },
        BinOp::Less_Equal => {
            reveal_strlit("<=");
            reveal_strlit(">=");
            reveal_strlit("<");
            reveal_strlit(">");
            reveal_strlit("/");
            reveal_strlit("*");
            reveal_strlit("-");
            reveal_strlit("+");
            assert("<="@.len() != "+"@.len());
            assert("<="@.len() != "-"@.len());
            assert("<="@.len() != "*"@.len());
            assert("<="@.len() != "/"@.len());
            assert("<="@.len() != ">"@.len());
            assert("<="@.len() != "<"@.len());
            assert("<="@[0] != ">="@[0]);
        },
        BinOp::Check_Equal => {
            reveal_strlit("==");
            reveal_strlit("<=");
            reveal_strlit(">=");
            reveal_strlit("<");
            reveal_strlit(">");
            reveal_strlit("/");
            reveal_strlit("*");
            reveal_strlit("-");
            reveal_strlit("+");
            assert("=="@.len() != "+"@.len());
            assert("=="@.len() != "-"@.len());
            assert("=="@.len() != "*"@.len());
            assert("=="@.len() != "/"@.len());
            assert("=="@.len() != ">"@.len());
            assert("=="@.len() != "<"@.len());
            assert("=="@[0] != ">="@[0]);
            assert("=="@[0] != "<="@[0]);
        },
    }
}

/// Different operators are written with different symbols.
pub proof fn law_operator_symbols_distinct(a: BinOp, b: BinOp)
    ensures
        binop_symbol(a) == binop_symbol(b) ==> a == b,
{
    lemma_symbol_decodes(a);
    lemma_symbol_decodes(b);
}

/// Every token the token part of a scan makes is placed on the line the scan ends on.
proof fn lemma_token_step_line(s: Seq<char>, pos: nat, cur: Option<char>, line: nat)
    ensures
        token_step(s, pos, cur, line) matches ScanStep::Done(r) ==> r.token.line == r.line && r.line == line,
{
    reveal(token_step);
}

/// A scan places its token on the line the scan ends on, which is no earlier than the line it
/// started on.
proof fn lemma_scan_token_line(s: Seq<char>, p: nat, line: nat)
    requires
        p <= s.len(),
        spec_scan(s, p, line) is Some,
    ensures
        spec_scan(s, p, line)->0.token.line == spec_scan(s, p, line)->0.line,
        line <= spec_scan(s, p, line)->0.line,
    decreases s.len() - p,
{
    lemma_spec_scan(s, p, line);
    let (c0, p0) = read(s, p);
    let (pos, cur, line1) = skip_filler(s, p0, c0, line);
    if cur == Some('/') && pos < s.len() {
        let ch = s[pos as int];
        if ch == '/' {
            let (p3, c3, l3) = skip_line_comment(s, pos + 1, Some('/'), line1);
            lemma_token_step_line(s, p3, c3, l3);
        } else if ch == '*' {
            if skip_block_comment(s, pos + 1, Some('*'), 1, line1) is Some {
                let (p3, c3, l3) = skip_block_comment(s, pos + 1, Some('*'), 1, line1)->0;
                lemma_token_step_line(s, p3, c3, l3);
            }
        } else if ch != ' ' {
            lemma_token_step_line(s, pos + 1, Some(ch), line1);
        }
    } else {
        lemma_token_step_line(s, pos, cur, line1);
    }
    if let ScanStep::Rescan(q, l) = scan_step(s, p, line) {
        lemma_scan_token_line(s, q, l);
    }
}

/// The lexer hands out its tokens in the order of their lines: no token is placed on an
/// earlier line than a token before it, or than the line the scanning started on.
pub proof fn law_token_lines_in_order(s: Seq<char>, pos: nat, line: nat)
    ensures
        scan_all(s, pos, line) matches Ok(rs) ==> {
            &&& forall|i: int| 0 <= i < rs.len() ==> line <= #[trigger] rs[i].token.line
            &&& forall|i: int, j: int| 0 <= i < j < rs.len() ==> #[trigger] rs[i].token.line <= #[trigger] rs[j].token.line
        },
    decreases s.len() - pos,
{
    if pos <= s.len() {
        match spec_scan(s, pos, line) {
            Some(r) => {
                lemma_scan_token_line(s, pos, line);
                if r.token.text != "EOF"@ && pos < r.pos <= s.len() {
                    law_token_lines_in_order(s, r.pos, r.line);
                    match scan_all(s, r.pos, r.line) {
                        Ok(rest) => {
                            let rs = seq![r] + rest;
                            assert forall|i: int| 0 <= i < rs.len() implies line <= #[trigger] rs[i].token.line by {
                                if i > 0 {
                                    assert(rs[i] == rest[i - 1]);
                                }
                            }
                            assert forall|i: int, j: int| 0 <= i < j < rs.len() implies #[trigger] rs[i].token.line
                                <= #[trigger] rs[j].token.line by {
                                assert(rs[j] == rest[j - 1]);
                                if i > 0 {
                                    assert(rs[i] == rest[i - 1]);
                                }
                            }
                        },
                        Err(_) => {},
                    }
                }
            },
            None => {},
        }
    }
}

/// The token kind a name stands for, if any.
spec fn kind_named(s: Seq<char>) -> Option<tokenTypeEnum> {
    if s.len() == 2 {
        if s == "OR"@ {
            Some(tokenTypeEnum::OR)
        } else if s == "IF"@ {
            Some(tokenTypeEnum::IF)
        } else if s == "IS"@ {
            Some(tokenTypeEnum::IS)
        } else {
            None
        }
    } else if s.len() == 3 {
        if s == "AND"@ {
            Some(tokenTypeEnum::AND)
        } else if s == "NOT"@ {
            Some(tokenTypeEnum::NOT)
        } else if s == "INT"@ {
            Some(tokenTypeEnum::INT)
        } else if s == "END"@ {
            Some(tokenTypeEnum::END)
        } else if s == "EOF"@ {
            Some(tokenTypeEnum::EOF)
        } else if s == "FOR"@ {
            Some(tokenTypeEnum::FOR)
        } else {
            None
        }
    } else if s.len() == 4 {
        if s == "PLUS"@ {
            Some(tokenTypeEnum::PLUS)
        } else if s == "LESS"@ {
            Some(tokenTypeEnum::LESS)
        } else if s == "ELSE"@ {
            Some(tokenTypeEnum::ELSE)
        } else if s == "THEN"@ {
            Some(tokenTypeEnum::THEN)
        } else if s == "WORD"@ {
            Some(tokenTypeEnum::WORD)
        } else {
            None
        }
    } else if s.len() == 5 {
        if s == "MINUS"@ {
            Some(tokenTypeEnum::MINUS)
        } else if s == "FLOAT"@ {
            Some(tokenTypeEnum::FLOAT)
        } else if s == "IF_RW"@ {
            Some(tokenTypeEnum::IF_RW)
        } else if s == "ERROR"@ {
            Some(tokenTypeEnum::ERROR)
        } else if s == "BEGIN"@ {
            Some(tokenTypeEnum::BEGIN)
        } else if s == "COLON"@ {
            Some(tokenTypeEnum::COLON)
        } else if s == "COMMA"@ {
            Some(tokenTypeEnum::COMMA)
        } else {
            None
        }
    } else if s.len() == 6 {
        if s == "DIVIDE"@ {
            Some(tokenTypeEnum::DIVIDE)
        } else if s == "STRING"@ {
            Some(tokenTypeEnum::STRING)
        } else if s == "GLOBAL"@ {
            Some(tokenTypeEnum::GLOBAL)
        } else if s == "END_RW"@ {
            Some(tokenTypeEnum::END_RW)
        } else if s == "LETTER"@ {
            Some(tokenTypeEnum::LETTER)
        } else if s == "RETURN"@ {
            Some(tokenTypeEnum::RETURN)
        } else if s == "PERIOD"@ {
            Some(tokenTypeEnum::PERIOD)
        } else if s == "END_IF"@ {
            Some(tokenTypeEnum::END_IF)
        } else {
            None
        }
    } else if s.len() == 7 {
        if s == "GREATER"@ {
            Some(tokenTypeEnum::GREATER)
        } else if s == "LOOP_RW"@ {
            Some(tokenTypeEnum::LOOP_RW)
        } else if s == "L_PAREN"@ {
            Some(tokenTypeEnum::L_PAREN)
        } else if s == "R_PAREN"@ {
            Some(tokenTypeEnum::R_PAREN)
        } else if s == "PROGRAM"@ {
            Some(tokenTypeEnum::PROGRAM)
        } else if s == "END_FOR"@ {
            Some(tokenTypeEnum::END_FOR)
        } else {
            None
        }
    } else if s.len() == 8 {
        if s == "MULTIPLY"@ {
            Some(tokenTypeEnum::MULTIPLY)
        } else if s == "VARIABLE"@ {
            Some(tokenTypeEnum::VARIABLE)
        } else {
            None
        }
    } else if s.len() == 9 {
        if s == "L_BRACKET"@ {
            Some(tokenTypeEnum::L_BRACKET)
        } else if s == "R_BRACKET"@ {
            Some(tokenTypeEnum::R_BRACKET)
        } else if s == "PROCEDURE"@ {
            Some(tokenTypeEnum::PROCEDURE)
        } else if s == "SEMICOLON"@ {
            Some(tokenTypeEnum::SEMICOLON)
        } else {
            None
        }
    } else if s.len() == 10 {
        if s == "SET_EQUALS"@ {
            Some(tokenTypeEnum::SET_EQUALS)
        } else if s == "NOT_EQUALS"@ {
            Some(tokenTypeEnum::NOT_EQUALS)
        } else if s == "IDENTIFIER"@ {
            Some(tokenTypeEnum::IDENTIFIER)
        } else {
            None
        }
    } else if s.len() == 11 {
        if s == "LESS_EQUALS"@ {
            Some(tokenTypeEnum::LESS_EQUALS)
        } else if s == "UNACCOUNTED"@ {
            Some(tokenTypeEnum::UNACCOUNTED)
        } else if s == "END_PROGRAM"@ {
            Some(tokenTypeEnum::END_PROGRAM)
        } else {
            None
        }
    } else if s.len() == 12 {
        if s == "CHECK_EQUALS"@ {
            Some(tokenTypeEnum::CHECK_EQUALS)
        } else {
            None
        }
    } else if s.len() == 13 {
        if s == "END_PROCEDURE"@ {
            Some(tokenTypeEnum::END_PROCEDURE)
        } else {
            None
        }
    } else if s.len() == 14 {
        if s == "GREATER_EQUALS"@ {
            Some(tokenTypeEnum::GREATER_EQUALS)
        } else if s == "PROCEDURE_CALL"@ {
            Some(tokenTypeEnum::PROCEDURE_CALL)
        } else {
            None
        }
    } else {
        None
    }
}

proof fn lemma_kind_named(t: tokenTypeEnum)
    ensures
        kind_named(token_type_name(t)) == Some(t),
{
    match t {
        tokenTypeEnum::OR => {
            reveal_strlit("OR");
        },
        tokenTypeEnum::IF => {
            reveal_strlit("IF");
            reveal_strlit("OR");
            assert("IF"@[0] != "OR"@[0]);
        },
        tokenTypeEnum::IS => {
            reveal_strlit("IS");
            reveal_strlit("OR");
            assert("IS"@[0] != "OR"@[0]);
            reveal_strlit("IF");
            assert("IS"@[1] != "IF"@[1]);
        },
        tokenTypeEnum::AND => {
            reveal_strlit("AND");
        },
        tokenTypeEnum::NOT => {
            reveal_strlit("NOT");
            reveal_strlit("AND");
            assert("NOT"@[0] != "AND"@[0]);
        },
        tokenTypeEnum::INT => {
            reveal_strlit("INT");
            reveal_strlit("AND");
            assert("INT"@[0] != "AND"@[0]);
            reveal_strlit("NOT");
            assert("INT"@[0] != "NOT"@[0]);
        },
        tokenTypeEnum::END => {
            reveal_strlit("END");
            reveal_strlit("AND");
            assert("END"@[0] != "AND"@[0]);
            reveal_strlit("NOT");
            assert("END"@[0] != "NOT"@[0]);
            reveal_strlit("INT");
            assert("END"@[0] != "INT"@[0]);
        },
        tokenTypeEnum::EOF => {
            reveal_strlit("EOF");
            reveal_strlit("AND");
            assert("EOF"@[0] != "AND"@[0]);
            reveal_strlit("NOT");
            assert("EOF"@[0] != "NOT"@[0]);
            reveal_strlit("INT");
            assert("EOF"@[0] != "INT"@[0]);
            reveal_strlit("END");
            assert("EOF"@[1] != "END"@[1]);
        },
        tokenTypeEnum::FOR => {
            reveal_strlit("FOR");
            reveal_strlit("AND");
            assert("FOR"@[0] != "AND"@[0]);
            reveal_strlit("NOT");
            assert("FOR"@[0] != "NOT"@[0]);
            reveal_strlit("INT");
            assert("FOR"@[0] != "INT"@[0]);
            reveal_strlit("END");
            assert("FOR"@[0] != "END"@[0]);
            reveal_strlit("EOF");
            assert("FOR"@[0] != "EOF"@[0]);
        },
        tokenTypeEnum::PLUS => {
            reveal_strlit("PLUS");
        },
        tokenTypeEnum::LESS => {
            reveal_strlit("LESS");
            reveal_strlit("PLUS");
            assert("LESS"@[0] != "PLUS"@[0]);
        },
        tokenTypeEnum::ELSE => {
            reveal_strlit("ELSE");
            reveal_strlit("PLUS");
            assert("ELSE"@[0] != "PLUS"@[0]);
            reveal_strlit("LESS");
            assert("ELSE"@[0] != "LESS"@[0]);
        },
        tokenTypeEnum::THEN => {
            reveal_strlit("THEN");
            reveal_strlit("PLUS");
            assert("THEN"@[0] != "PLUS"@[0]);
            reveal_strlit("LESS");
            assert("THEN"@[0] != "LESS"@[0]);
            reveal_strlit("ELSE");
            assert("THEN"@[0] != "ELSE"@[0]);
        },
        tokenTypeEnum::WORD => {
            reveal_strlit("WORD");
            reveal_strlit("PLUS");
            assert("WORD"@[0] != "PLUS"@[0]);
            reveal_strlit("LESS");
            assert("WORD"@[0] != "LESS"@[0]);
            reveal_strlit("ELSE");
            assert("WORD"@[0] != "ELSE"@[0]);
            reveal_strlit("THEN");
            assert("WORD"@[0] != "THEN"@[0]);
        },
        tokenTypeEnum::MINUS => {
            reveal_strlit("MINUS");
        },
        tokenTypeEnum::FLOAT => {
            reveal_strlit("FLOAT");
            reveal_strlit("MINUS");
            assert("FLOAT"@[0] != "MINUS"@[0]);
        },
        tokenTypeEnum::IF_RW => {
            reveal_strlit("IF_RW");
            reveal_strlit("MINUS");
            assert("IF_RW"@[0] != "MINUS"@[0]);
            reveal_strlit("FLOAT");
            assert("IF_RW"@[0] != "FLOAT"@[0]);
        },
        tokenTypeEnum::ERROR => {
            reveal_strlit("ERROR");
            reveal_strlit("MINUS");
            assert("ERROR"@[0] != "MINUS"@[0]);
            reveal_strlit("FLOAT");
            assert("ERROR"@[0] != "FLOAT"@[0]);
            reveal_strlit("IF_RW");
            assert("ERROR"@[0] != "IF_RW"@[0]);
        },
        tokenTypeEnum::BEGIN => {
            reveal_strlit("BEGIN");
            reveal_strlit("MINUS");
            assert("BEGIN"@[0] != "MINUS"@[0]);
            reveal_strlit("FLOAT");
            assert("BEGIN"@[0] != "FLOAT"@[0]);
            reveal_strlit("IF_RW");
            assert("BEGIN"@[0] != "IF_RW"@[0]);
            reveal_strlit("ERROR");
            assert("BEGIN"@[0] != "ERROR"@[0]);
        },
        tokenTypeEnum::COLON => {
            reveal_strlit("COLON");
            reveal_strlit("MINUS");
            assert("COLON"@[0] != "MINUS"@[0]);
            reveal_strlit("FLOAT");
            assert("COLON"@[0] != "FLOAT"@[0]);
            reveal_strlit("IF_RW");
            assert("COLON"@[0] != "IF_RW"@[0]);
            reveal_strlit("ERROR");
            assert("COLON"@[0] != "ERROR"@[0]);
            reveal_strlit("BEGIN");
            assert("COLON"@[0] != "BEGIN"@[0]);
        },
        tokenTypeEnum::COMMA => {
            reveal_strlit("COMMA");
            reveal_strlit("MINUS");
            assert("COMMA"@[0] != "MINUS"@[0]);
            reveal_strlit("FLOAT");
            assert("COMMA"@[0] != "FLOAT"@[0]);
            reveal_strlit("IF_RW");
            assert("COMMA"@[0] != "IF_RW"@[0]);
            reveal_strlit("ERROR");
            assert("COMMA"@[0] != "ERROR"@[0]);
            reveal_strlit("BEGIN");
            assert("COMMA"@[0] != "BEGIN"@[0]);
            reveal_strlit("COLON");
            assert("COMMA"@[2] != "COLON"@[2]);
        },
        tokenTypeEnum::DIVIDE => {
            reveal_strlit("DIVIDE");
        },
        tokenTypeEnum::STRING => {
            reveal_strlit("STRING");
            reveal_strlit("DIVIDE");
            assert("STRING"@[0] != "DIVIDE"@[0]);
        },
        tokenTypeEnum::GLOBAL => {
            reveal_strlit("GLOBAL");
            reveal_strlit("DIVIDE");
            assert("GLOBAL"@[0] != "DIVIDE"@[0]);
            reveal_strlit("STRING");
            assert("GLOBAL"@[0] != "STRING"@[0]);
        },
        tokenTypeEnum::END_RW => {
            reveal_strlit("END_RW");
            reveal_strlit("DIVIDE");
            assert("END_RW"@[0] != "DIVIDE"@[0]);
            reveal_strlit("STRING");
            assert("END_RW"@[0] != "STRING"@[0]);
            reveal_strlit("GLOBAL");
            assert("END_RW"@[0] != "GLOBAL"@[0]);
        },
        tokenTypeEnum::LETTER => {
            reveal_strlit("LETTER");
            reveal_strlit("DIVIDE");
            assert("LETTER"@[0] != "DIVIDE"@[0]);
            reveal_strlit("STRING");
            assert("LETTER"@[0] != "STRING"@[0]);
            reveal_strlit("GLOBAL");
            assert("LETTER"@[0] != "GLOBAL"@[0]);
            reveal_strlit("END_RW");
            assert("LETTER"@[0] != "END_RW"@[0]);
        },
        tokenTypeEnum::RETURN => {
            reveal_strlit("RETURN");
            reveal_strlit("DIVIDE");
            assert("RETURN"@[0] != "DIVIDE"@[0]);
            reveal_strlit("STRING");
            assert("RETURN"@[0] != "STRING"@[0]);
            reveal_strlit("GLOBAL");
            assert("RETURN"@[0] != "GLOBAL"@[0]);
            reveal_strlit("END_RW");
            assert("RETURN"@[0] != "END_RW"@[0]);
            reveal_strlit("LETTER");
            assert("RETURN"@[0] != "LETTER"@[0]);
        },
        tokenTypeEnum::PERIOD => {
            reveal_strlit("PERIOD");
            reveal_strlit("DIVIDE");
            assert("PERIOD"@[0] != "DIVIDE"@[0]);
            reveal_strlit("STRING");
            assert("PERIOD"@[0] != "STRING"@[0]);
            reveal_strlit("GLOBAL");
            assert("PERIOD"@[0] != "GLOBAL"@[0]);
            reveal_strlit("END_RW");
            assert("PERIOD"@[0] != "END_RW"@[0]);
            reveal_strlit("LETTER");
            assert("PERIOD"@[0] != "LETTER"@[0]);
            reveal_strlit("RETURN");
            assert("PERIOD"@[0] != "RETURN"@[0]);
        },
        tokenTypeEnum::END_IF => {
            reveal_strlit("END_IF");
            reveal_strlit("DIVIDE");
            assert("END_IF"@[0] != "DIVIDE"@[0]);
            reveal_strlit("STRING");
            assert("END_IF"@[0] != "STRING"@[0]);
            reveal_strlit("GLOBAL");
            assert("END_IF"@[0] != "GLOBAL"@[0]);
            reveal_strlit("END_RW");
            assert("END_IF"@[4] != "END_RW"@[4]);
            reveal_strlit("LETTER");
            assert("END_IF"@[0] != "LETTER"@[0]);
            reveal_strlit("RETURN");
            assert("END_IF"@[0] != "RETURN"@[0]);
            reveal_strlit("PERIOD");
            assert("END_IF"@[0] != "PERIOD"@[0]);
        },
        tokenTypeEnum::GREATER => {
            reveal_strlit("GREATER");
        },
        tokenTypeEnum::LOOP_RW => {
            reveal_strlit("LOOP_RW");
            reveal_strlit("GREATER");
            assert("LOOP_RW"@[0] != "GREATER"@[0]);
        },
        tokenTypeEnum::L_PAREN => {
            reveal_strlit("L_PAREN");
            reveal_strlit("GREATER");
            assert("L_PAREN"@[0] != "GREATER"@[0]);
            reveal_strlit("LOOP_RW");
            assert("L_PAREN"@[1] != "LOOP_RW"@[1]);
        },
        tokenTypeEnum::R_PAREN => {
            reveal_strlit("R_PAREN");
            reveal_strlit("GREATER");
            assert("R_PAREN"@[0] != "GREATER"@[0]);
            reveal_strlit("LOOP_RW");
            assert("R_PAREN"@[0] != "LOOP_RW"@[0]);
            reveal_strlit("L_PAREN");
            assert("R_PAREN"@[0] != "L_PAREN"@[0]);
        },
        tokenTypeEnum::PROGRAM => {
            reveal_strlit("PROGRAM");
            reveal_strlit("GREATER");
            assert("PROGRAM"@[0] != "GREATER"@[0]);
            reveal_strlit("LOOP_RW");
            assert("PROGRAM"@[0] != "LOOP_RW"@[0]);
            reveal_strlit("L_PAREN");
            assert("PROGRAM"@[0] != "L_PAREN"@[0]);
            reveal_strlit("R_PAREN");
            assert("PROGRAM"@[0] != "R_PAREN"@[0]);
        },
        tokenTypeEnum::END_FOR => {
            reveal_strlit("END_FOR");
            reveal_strlit("GREATER");
            assert("END_FOR"@[0] != "GREATER"@[0]);
            reveal_strlit("LOOP_RW");
            assert("END_FOR"@[0] != "LOOP_RW"@[0]);
            reveal_strlit("L_PAREN");
            assert("END_FOR"@[0] != "L_PAREN"@[0]);
            reveal_strlit("R_PAREN");
            assert("END_FOR"@[0] != "R_PAREN"@[0]);
            reveal_strlit("PROGRAM");
            assert("END_FOR"@[0] != "PROGRAM"@[0]);
        },
        tokenTypeEnum::MULTIPLY => {
            reveal_strlit("MULTIPLY");
        },
        tokenTypeEnum::VARIABLE => {
            reveal_strlit("VARIABLE");
            reveal_strlit("MULTIPLY");
            assert("VARIABLE"@[0] != "MULTIPLY"@[0]);
        },
        tokenTypeEnum::L_BRACKET => {
            reveal_strlit("L_BRACKET");
        },
        tokenTypeEnum::R_BRACKET => {
            reveal_strlit("R_BRACKET");
            reveal_strlit("L_BRACKET");
            assert("R_BRACKET"@[0] != "L_BRACKET"@[0]);
        },
        tokenTypeEnum::PROCEDURE => {
            reveal_strlit("PROCEDURE");
            reveal_strlit("L_BRACKET");
            assert("PROCEDURE"@[0] != "L_BRACKET"@[0]);
            reveal_strlit("R_BRACKET");
            assert("PROCEDURE"@[0] != "R_BRACKET"@[0]);
        },
        tokenTypeEnum::SEMICOLON => {
            reveal_strlit("SEMICOLON");
            reveal_strlit("L_BRACKET");
            assert("SEMICOLON"@[0] != "L_BRACKET"@[0]);
            reveal_strlit("R_BRACKET");
            assert("SEMICOLON"@[0] != "R_BRACKET"@[0]);
            reveal_strlit("PROCEDURE");
            assert("SEMICOLON"@[0] != "PROCEDURE"@[0]);
        },
        tokenTypeEnum::SET_EQUALS => {
            reveal_strlit("SET_EQUALS");
        },
        tokenTypeEnum::NOT_EQUALS => {
            reveal_strlit("NOT_EQUALS");
            reveal_strlit("SET_EQUALS");
            assert("NOT_EQUALS"@[0] != "SET_EQUALS"@[0]);
        },
        tokenTypeEnum::IDENTIFIER => {
            reveal_strlit("IDENTIFIER");
            reveal_strlit("SET_EQUALS");
            assert("IDENTIFIER"@[0] != "SET_EQUALS"@[0]);
            reveal_strlit("NOT_EQUALS");
            assert("IDENTIFIER"@[0] != "NOT_EQUALS"@[0]);
        },
        tokenTypeEnum::LESS_EQUALS => {
            reveal_strlit("LESS_EQUALS");
        },
        tokenTypeEnum::UNACCOUNTED => {
            reveal_strlit("UNACCOUNTED");
            reveal_strlit("LESS_EQUALS");
            assert("UNACCOUNTED"@[0] != "LESS_EQUALS"@[0]);
        },
        tokenTypeEnum::END_PROGRAM => {
            reveal_strlit("END_PROGRAM");
            reveal_strlit("LESS_EQUALS");
            assert("END_PROGRAM"@[0] != "LESS_EQUALS"@[0]);
            reveal_strlit("UNACCOUNTED");
            assert("END_PROGRAM"@[0] != "UNACCOUNTED"@[0]);
        },
        tokenTypeEnum::CHECK_EQUALS => {
            reveal_strlit("CHECK_EQUALS");
        },
        tokenTypeEnum::END_PROCEDURE => {
            reveal_strlit("END_PROCEDURE");
        },
        tokenTypeEnum::GREATER_EQUALS => {
            reveal_strlit("GREATER_EQUALS");
        },
        tokenTypeEnum::PROCEDURE_CALL => {
            reveal_strlit("PROCEDURE_CALL");
            reveal_strlit("GREATER_EQUALS");
            assert("PROCEDURE_CALL"@[0] != "GREATER_EQUALS"@[0]);
        },
    }
}

/// Different token kinds have different names.
pub proof fn law_token_names_distinct(a: tokenTypeEnum, b: tokenTypeEnum)
    ensures
        token_type_name(a) == token_type_name(b) ==> a == b,
{
    lemma_kind_named(a);
    lemma_kind_named(b);
}

/// The number of line feeds in `s` from position `p` to the end.
pub open spec fn newlines_from(s: Seq<char>, p: nat) -> nat
    decreases s.len() - p,
{
    if p >= s.len() {
        0
    } else {
        newlines_from(s, p + 1) + if s[p as int] == '\n' { 1nat } else { 0nat }
    }
}

/// Skipping filler that runs to the end of the input reaches the end and counts its line feeds.
proof fn lemma_skip_blank_rest(s: Seq<char>, pos: nat, line: nat)
    requires
        1 <= pos <= s.len(),
        forall|j: int| pos - 1 <= j < s.len() ==> is_filler(#[trigger] s[j]),
    ensures
        skip_filler(s, pos, Some(s[pos - 1]), line) == (s.len(), None::<char>, line + newlines_from(s, (pos - 1) as nat)),
    decreases s.len() - pos,
{
    let c = s[pos - 1];
    assert(is_filler(c));
    let l2 = if c == '\n' { line + 1 } else { line };
    assert(newlines_from(s, (pos - 1) as nat) == newlines_from(s, pos) + if c == '\n' { 1nat } else { 0nat });
    assert(skip_filler(s, pos, Some(c), line) == skip_filler(s, read(s, pos).1, read(s, pos).0, l2));
    if pos < s.len() {
        assert(read(s, pos) == (Some(s[pos as int]), pos + 1));
        lemma_skip_blank_rest(s, pos + 1, l2);
    } else {
        assert(newlines_from(s, pos) == 0);
    }
}

/// Scanning input that is only blanks, tabs, carriage returns and line feeds to the end gives
/// the end token, on the line reached by counting those line feeds, and leaves the position
/// at the end; scanning again from there gives the same token and moves nothing.
pub proof fn law_blank_rest_scans_to_end(s: Seq<char>, p: nat, line: nat)
    requires
        p <= s.len(),
        forall|j: int| p <= j < s.len() ==> is_filler(#[trigger] s[j]),
    ensures
        spec_scan(s, p, line) == Some(
            Scanned {
                token: TokenView {
                    tt: tokenTypeEnum::EOF,
                    text: "EOF"@,
                    tg: tokenGroup::SYMBOL,
                    line: line + newlines_from(s, p),
                },
                pos: s.len(),
                line: line + newlines_from(s, p),
                key: None,
            },
        ),
        spec_scan(s, s.len(), line + newlines_from(s, p)) == spec_scan(s, p, line),
{
    reveal(token_step);
    if p < s.len() {
        lemma_skip_blank_rest(s, p + 1, line);
    }
    assert(newlines_from(s, s.len()) == 0);
}

} // verus!
