use vstd::prelude::*;
use crate::ast::{lemma_stmts_view, stmts_view, BinOp, Expr, ExprV, Stmt, StmtV, VarType};
use crate::decimal::usize_text;
use crate::lexer::{token_views, Lexer};
use crate::numparse::{parse_usize, read_i64};
use crate::parse_spec::{
    after_part, block_expr, block_first, case_begin, case_identifier, case_if, case_paren, case_procedure,
    case_program, case_return, case_variable, find_close, find_tt, find_tt2, last_index,
    lemma_find_close, lemma_find_tt, lemma_find_tt2, lemma_last_index, lemma_next_index, line_msg, next_index, Outcome,
    param_run, parse_loop, parse_tokens, proc_params, reported, same_line, scope_rank,
    semicolon_view, Step, token_step, type_tail, zeros, ParseRun,
};
use crate::reporting::{Reporting, ReportingView};
use crate::text::{concat_str, str_eq};
use crate::token::{printTokList, token_listed, tokenGroup, tokenTypeEnum, Token, TokenView};

verus! {

/// How the handling of one token ended, as the parser sees it.
enum Flow {
    Next,
    Refused(Reporting),
    Stuck,
}

/// `r` ends a parse as `run` does, with the parser's report `rep` after it.
spec fn stop_ends(r: Flow, run: ParseRun, rep: ReportingView) -> bool {
    match run.outcome {
        Outcome::Stuck => r is Stuck,
        Outcome::Refused(e) => r matches Flow::Refused(x) && x@ == e && rep == run.reports,
        Outcome::Parsed(_) => false,
    }
}

/// `r`, the statements `block` and the report `rep` are where `s` leaves the parse.
spec fn step_ends(r: Flow, s: Step, block: Seq<StmtV>, rep: ReportingView) -> bool {
    match s {
        Step::Next(b2, r2) => r is Next && block == b2 && rep == r2,
        Step::Stop(run) => stop_ends(r, run, rep),
    }
}

/// The result of a parse is what `run` says, with the parser's report `rep` after it.
pub open spec fn parse_ends(
    r: Option<Result<(Reporting, Option<Stmt>), Reporting>>,
    run: ParseRun,
    rep: ReportingView,
) -> bool {
    match run.outcome {
        Outcome::Stuck => r is None,
        Outcome::Parsed(b) => r matches Some(Ok((x, Some(st)))) && x@ == run.reports && st@ == StmtV::Block(b)
            && rep == run.reports,
        Outcome::Refused(e) => r matches Some(Err(x)) && x@ == e && rep == run.reports,
    }
}

/// A copy of the tokens `[lo, hi)` of a list.
fn copy_tokens(ts: &Vec<Token>, lo: usize, hi: usize) -> (r: Vec<Token>)
    requires
        lo <= hi <= ts.len(),
    ensures
        token_views(r@) == token_views(ts@).subrange(lo as int, hi as int),
{
    let mut r: Vec<Token> = Vec::new();
    let mut j = lo;
    while j < hi
        invariant
            lo <= j <= hi <= ts.len(),
            token_views(r@) == token_views(ts@).subrange(lo as int, j as int),
        decreases hi - j,
    {
        let ghost before = r@;
        r.push(ts[j].clone());
        assert(token_views(r@) =~= token_views(before).push(ts@[j as int]@));
        assert(token_views(ts@).subrange(lo as int, j + 1) =~= token_views(ts@).subrange(lo as int, j as int).push(
            ts@[j as int]@,
        ));
        j = j + 1;
    }
    r
}

/// The first index from `k` on whose token is of kind `t`, or the length of the list.
fn find_kind(ts: &Vec<Token>, k: usize, t: tokenTypeEnum) -> (r: usize)
    ensures
        r == find_tt(token_views(ts@), k as nat, t),
{
    let ghost tv = token_views(ts@);
    if k >= ts.len() {
        return ts.len();
    }
    let mut j = k;
    while j < ts.len()
        invariant
            tv == token_views(ts@),
            k <= j <= ts.len(),
            find_tt(tv, k as nat, t) == find_tt(tv, j as nat, t),
        decreases ts.len() - j,
    {
        assert(tv[j as int] == ts@[j as int]@);
        if ts[j].tt == t {
            return j;
        }
        j = j + 1;
    }
    j
}

/// The first index from `k` on whose token is of kind `t1` or `t2`, or the length of the list.
fn find_kind2(ts: &Vec<Token>, k: usize, t1: tokenTypeEnum, t2: tokenTypeEnum) -> (r: usize)
    ensures
        r == find_tt2(token_views(ts@), k as nat, t1, t2),
{
    let ghost tv = token_views(ts@);
    if k >= ts.len() {
        return ts.len();
    }
    let mut j = k;
    while j < ts.len()
        invariant
            tv == token_views(ts@),
            k <= j <= ts.len(),
            find_tt2(tv, k as nat, t1, t2) == find_tt2(tv, j as nat, t1, t2),
        decreases ts.len() - j,
    {
        assert(tv[j as int] == ts@[j as int]@);
        if ts[j].tt == t1 || ts[j].tt == t2 {
            return j;
        }
        j = j + 1;
    }
    j
}

/// The index of the `)` that closes the `(` just before `k`, or the length of the list.
fn find_closing(ts: &Vec<Token>, k: usize) -> (r: usize)
    requires
        1 <= k,
    ensures
        r == find_close(token_views(ts@), k as nat, 1),
{
    let ghost tv = token_views(ts@);
    if k >= ts.len() {
        return ts.len();
    }
    let mut j = k;
    let mut depth: usize = 1;
    while j < ts.len()
        invariant
            tv == token_views(ts@),
            1 <= k <= j <= ts.len(),
            1 <= depth <= j - k + 1,
            find_close(tv, k as nat, 1) == find_close(tv, j as nat, depth as int),
        decreases ts.len() - j,
    {
        assert(tv[j as int] == ts@[j as int]@);
        if ts[j].tt == tokenTypeEnum::L_PAREN {
            depth = depth + 1;
        } else if ts[j].tt == tokenTypeEnum::R_PAREN {
            if depth - 1 == 0 {
                return j;
            }
            depth = depth - 1;
        }
        j = j + 1;
    }
    j
}

/// The last index in `[lo, hi)` whose token is an `else`.
fn find_last_else(ts: &Vec<Token>, lo: usize, hi: usize) -> (r: Option<usize>)
    requires
        hi <= ts.len(),
    ensures
        match r {
            Some(m) => last_index(token_views(ts@), lo as nat, hi as nat, tokenTypeEnum::ELSE) == Some(m as nat),
            None => last_index(token_views(ts@), lo as nat, hi as nat, tokenTypeEnum::ELSE) is None,
        },
{
    let ghost tv = token_views(ts@);
    let mut h = hi;
    while h > lo
        invariant
            tv == token_views(ts@),
            h <= hi <= ts.len(),
            last_index(tv, lo as nat, hi as nat, tokenTypeEnum::ELSE) == last_index(tv, lo as nat, h as nat, tokenTypeEnum::ELSE),
        decreases h,
    {
        assert(tv[h - 1] == ts@[h - 1]@);
        if ts[h - 1].tt == tokenTypeEnum::ELSE {
            return Some(h - 1);
        }
        h = h - 1;
    }
    None
}

/// Whether every token in `[lo, hi)` is on line `line`.
fn all_on_line(ts: &Vec<Token>, lo: usize, hi: usize, line: usize) -> (r: bool)
    requires
        hi <= ts.len(),
    ensures
        r == same_line(token_views(ts@), lo as nat, hi as nat, line as nat),
{
    let ghost tv = token_views(ts@);
    let mut j = lo;
    while j < hi
        invariant
            tv == token_views(ts@),
            hi <= ts.len(),
            lo <= j || j >= hi,
            forall|m: int| lo <= m < j ==> #[trigger] tv[m].line == line,
        decreases hi - j,
    {
        assert(tv[j as int] == ts@[j as int]@);
        if ts[j].lineNum != line {
            assert(tv[j as int].line != line as nat);
            return false;
        }
        j = j + 1;
    }
    true
}

/// A message about the source line `line`.
fn line_message(line: usize, tail: &str) -> (r: String)
    ensures
        r@ == line_msg(line as nat, tail@),
{
    let head = concat_str("In line: ", usize_text(line).as_str());
    concat_str(head.as_str(), tail)
}

/// The index the parse goes on from after the token at `i`, or the length of the list when
/// that is past its end.
fn next_at(ts: &Vec<Token>, i: usize, scope: i32) -> (r: usize)
    requires
        i < ts.len(),
    ensures
        r == (if next_index(token_views(ts@), i as nat, scope as int) < ts.len() {
            next_index(token_views(ts@), i as nat, scope as int)
        } else {
            ts.len() as nat
        }),
{
    let ghost tv = token_views(ts@);
    let n = ts.len();
    assert(tv[i as int] == ts@[i as int]@);
    let tt = ts[i].tt;
    let after: usize = if tt == tokenTypeEnum::PROGRAM {
        if scope == 0 {
            3
        } else {
            i + 1
        }
    } else if tt == tokenTypeEnum::VARIABLE {
        let k = find_kind(ts, i + 1, tokenTypeEnum::SEMICOLON);
        proof {
            lemma_find_tt(tv, (i + 1) as nat, tokenTypeEnum::SEMICOLON);
        }
        if k < n {
            k + 1
        } else {
            n
        }
    } else if tt == tokenTypeEnum::BEGIN {
        find_kind2(ts, i + 1, tokenTypeEnum::END_PROGRAM, tokenTypeEnum::END_PROCEDURE)
    } else if tt == tokenTypeEnum::IF {
        let k = find_kind(ts, i + 1, tokenTypeEnum::END_IF);
        proof {
            lemma_find_tt(tv, (i + 1) as nat, tokenTypeEnum::END_IF);
        }
        if k < n {
            k + 1
        } else {
            n
        }
    } else if tt == tokenTypeEnum::L_PAREN {
        let k = find_closing(ts, i + 1);
        proof {
            lemma_find_close(tv, (i + 1) as nat, 1);
        }
        if k < n {
            k + 1
        } else {
            n
        }
    } else if tt == tokenTypeEnum::PROCEDURE {
        let k = find_kind(ts, i + 1, tokenTypeEnum::END_PROCEDURE);
        proof {
            lemma_find_tt(tv, (i + 1) as nat, tokenTypeEnum::END_PROCEDURE);
        }
        if k < n {
            k + 1
        } else {
            n
        }
    } else if tt == tokenTypeEnum::RETURN {
        if i + 1 < n && ts[i + 1].tt != tokenTypeEnum::SEMICOLON {
            assert(tv[i + 1] == ts@[i + 1]@);
            if i + 2 < n {
                i + 3
            } else {
                n
            }
        } else {
            if i + 1 < n {
                assert(tv[i + 1] == ts@[i + 1]@);
                i + 2
            } else {
                n
            }
        }
    } else {
        i + 1
    };
    proof {
        lemma_find_tt2(tv, (i + 1) as nat, tokenTypeEnum::END_PROGRAM, tokenTypeEnum::END_PROCEDURE);
    }
    if after < n {
        after
    } else {
        n
    }
}

/// Appends a statement to a block's list.
fn push_stmt(block: &mut Vec<Stmt>, s: Stmt)
    ensures
        stmts_view(final(block)@) == stmts_view(old(block)@).push(s@),
{
    let ghost before = block@;
    let ghost sv = s@;
    block.push(s);
    proof {
        assert(block@.drop_last() =~= before);
        assert(stmts_view(block@) == stmts_view(before).push(sv));
    }
}

/// The parser: the tokens it reads and the report it keeps while reading them.
pub struct Parser {
    pub tokenList: Vec<Token>,
    reports: Reporting,
}

impl Parser {
    /// The content of the parser's report.
    pub closed spec fn reports_view(&self) -> ReportingView {
        self.reports@
    }

    /// The tokens the parser reads.
    pub closed spec fn tokens_view(&self) -> Seq<TokenView> {
        token_views(self.tokenList@)
    }

    /// The lines that list the parser's tokens, one per token, in order.
    pub fn printTokenList(&self) -> (r: Vec<String>)
        ensures
            r@.len() == self.tokens_view().len(),
            forall|j: int| 0 <= j < self.tokens_view().len() ==> #[trigger] r@[j]@ == token_listed(self.tokens_view()[j]),
    {
        printTokList(&self.tokenList)
    }

    /// The parser's report.
    pub fn reports(&self) -> (r: &Reporting)
        ensures
            r@ == self.reports_view(),
    {
        &self.reports
    }

    /// A parser for the tokens a lexer has read, with an empty report.
    pub fn new(lexer: &mut Lexer) -> (r: Parser)
        ensures
            r.tokens_view() == token_views(old(lexer).tokenList@),
            r.reports_view() == Reporting::new_view(),
            *final(lexer) == *old(lexer),
    {
        let tokenList = copy_tokens(&lexer.tokenList, 0, lexer.tokenList.len());
        assert(token_views(lexer.tokenList@).subrange(0, lexer.tokenList@.len() as int) =~= token_views(
            lexer.tokenList@,
        ));
        let report: Reporting = Reporting::new();
        Parser { tokenList, reports: report }
    }

    /// The expression that opens a block.
    pub fn processBlock(&mut self, block: &Stmt) -> (r: Result<Expr, String>)
        ensures
            *final(self) == *old(self),
            match block_expr(block@) {
                Ok(x) => r matches Ok(e) && e@ == x,
                Err(m) => r matches Err(e) && e@ == m,
            },
    {
        match block {
            Stmt::Block(stmts) => {
                proof {
                    lemma_stmts_view(stmts@);
                }
                if stmts.len() > 0 {
                    match &stmts[0] {
                        Stmt::Expr(expr) => Ok(expr.clone()),
                        _ => Err(String::from_str("First statement in Block is not an Expr")),
                    }
                } else {
                    Err(String::from_str("Block is empty"))
                }
            },
            _ => Err(String::from_str("Expected Stmt::Block, but received a different Stmt type")),
        }
    }

    /// The first statement of a block.
    pub fn processBlockStmt(&mut self, block: &Stmt) -> (r: Result<Stmt, String>)
        ensures
            *final(self) == *old(self),
            match block_first(block@) {
                Ok(x) => r matches Ok(e) && e@ == x,
                Err(m) => r matches Err(e) && e@ == m,
            },
    {
        match block {
            Stmt::Block(stmts) => {
                proof {
                    lemma_stmts_view(stmts@);
                }
                if stmts.len() > 0 {
                    Ok(stmts[0].clone())
                } else {
                    Err(String::from_str("Block is empty"))
                }
            },
            _ => Err(String::from_str("Expected Stmt::Block, but received a different Stmt type")),
        }
    }

    /// Reports `message` and gives the refusal that carries the whole report.
    fn refuse(&mut self, message: String) -> (r: Flow)
        ensures
            final(self).reports_view() == reported(old(self).reports_view(), message@),
            r matches Flow::Refused(x) && x@ == final(self).reports_view(),
            final(self).tokens_view() == old(self).tokens_view(),
    {
        self.reports.reportError(message);
        Flow::Refused(self.reports.clone())
    }

    /// The handling of `program`.
    fn do_program(&mut self, ts: &Vec<Token>, scope: i32, block: &mut Vec<Stmt>) -> (r: Flow)
        requires
            ts.len() > 0,
        ensures
            step_ends(
                r,
                case_program(token_views(ts@), scope as int, stmts_view(old(block)@), old(self).reports_view()),
                stmts_view(final(block)@),
                final(self).reports_view(),
            ),
            final(self).tokens_view() == old(self).tokens_view(),
    {
        let ghost tv = token_views(ts@);
        if scope == 0 {
            assert(tv[0] == ts@[0]@);
            if ts[0].tt == tokenTypeEnum::PROGRAM {
                if ts.len() < 3 {
                    return Flow::Stuck;
                }
                assert(tv[2] == ts@[2]@);
                if ts[2].tt == tokenTypeEnum::IS {
                    Flow::Next
                } else {
                    self.refuse(String::from_str(
                        "Program declaration incorrect. \n Program must start with: 'program [Program name] is'",
                    ))
                }
            } else {
                self.refuse(String::from_str(
                    "Program declaration incorrect. \n Program must start with: 'program [Program name] is'",
                ))
            }
        } else {
            Flow::Next
        }
    }

    /// The handling of a `variable` declaration at `i`.
    fn do_variable(&mut self, ts: &Vec<Token>, i: usize, block: &mut Vec<Stmt>) -> (r: Flow)
        requires
            i < ts.len(),
        ensures
            step_ends(
                r,
                case_variable(token_views(ts@), i as nat, stmts_view(old(block)@), old(self).reports_view()),
                stmts_view(final(block)@),
                final(self).reports_view(),
            ),
            final(self).tokens_view() == old(self).tokens_view(),
    {
        let ghost tv = token_views(ts@);
        let n = ts.len();
        let k = find_kind(ts, i + 1, tokenTypeEnum::SEMICOLON);
        proof {
            lemma_find_tt(tv, (i + 1) as nat, tokenTypeEnum::SEMICOLON);
        }
        if k >= n || k < i + 2 {
            return Flow::Stuck;
        }
        assert(tv[i + 2] == ts@[i + 2]@);
        if ts[i + 2].tt != tokenTypeEnum::COLON {
            if k < i + 3 {
                return Flow::Stuck;
            }
            assert(tv[i + 3] == ts@[i + 3]@);
            let m = line_message(
                ts[i + 3].lineNum,
                ", Array variable declaration incorrect. \n Must be in this format: 'variable [Variable name] : [variable type]'",
            );
            return self.refuse(m);
        }
        if k < i + 4 {
            return Flow::Stuck;
        }
        assert(tv[i + 1] == ts@[i + 1]@);
        assert(tv[i + 3] == ts@[i + 3]@);
        assert(tv[i + 4] == ts@[i + 4]@);
        let line = ts[i + 3].lineNum;
        let kind_word = &ts[i + 3].tokenString;
        if ts[i + 4].tt != tokenTypeEnum::SEMICOLON {
            if ts[i + 4].tt != tokenTypeEnum::L_BRACKET {
                let m = line_message(
                    line,
                    ", Array variable declaration incorrect. \n Must be in this format: 'variable [Variable name] : integer[arraySize]'",
                );
                return self.refuse(m);
            }
            if str_eq(kind_word.as_str(), "integer") {
                assert(tv[i + 5] == ts@[i + 5]@);
                if ts[i + 5].tt == tokenTypeEnum::INT {
                    match parse_usize(ts[i + 5].tokenString.as_str()) {
                        Ok(size) => {
                            let mut zs: Vec<i32> = Vec::new();
                            let mut z: usize = 0;
                            while z < size
                                invariant
                                    z <= size,
                                    zs@ == zeros(z as nat),
                                decreases size - z,
                            {
                                zs.push(0);
                                assert(zs@ =~= zeros((z + 1) as nat));
                                z = z + 1;
                            }
                            push_stmt(block, Stmt::VarDecl(ts[i + 1].tokenString.clone(), VarType::IntArray(zs)));
                            Flow::Next
                        },
                        Err(_) => {
                            let m = line_message(line, ", Invlaid array size");
                            self.refuse(m)
                        },
                    }
                } else {
                    let m = line_message(
                        line,
                        ", Array variable declaration incorrect. \n Must be in this format: 'variable [Variable name] : integer[arraySize]'",
                    );
                    self.refuse(m)
                }
            } else {
                let head = line_message(line, ", '");
                let mid = concat_str(head.as_str(), kind_word.as_str());
                let m = concat_str(mid.as_str(), "' is not a valid variable type");
                proof {
                    assert(m@ =~= line_msg(line as nat, type_tail(kind_word@)));
                }
                self.refuse(m)
            }
        } else {
            let name = ts[i + 1].tokenString.clone();
            let decl = if str_eq(kind_word.as_str(), "string") {
                Some(VarType::Str(String::new()))
            } else if str_eq(kind_word.as_str(), "integer") {
                Some(VarType::Int(0))
            } else if str_eq(kind_word.as_str(), "bool") {
                Some(VarType::Bool(false))
            } else if str_eq(kind_word.as_str(), "float") {
                Some(VarType::Float)
            } else {
                None
            };
            match decl {
                Some(t) => {
                    push_stmt(block, Stmt::VarDecl(name, t));
                },
                None => {},
            }
            Flow::Next
        }
    }

    /// The handling of an identifier at `i`.
    fn do_identifier(&mut self, ts: &Vec<Token>, i: usize, block: &mut Vec<Stmt>) -> (r: Flow)
        requires
            i < ts.len(),
        ensures
            step_ends(
                r,
                case_identifier(token_views(ts@), i as nat, stmts_view(old(block)@), old(self).reports_view()),
                stmts_view(final(block)@),
                final(self).reports_view(),
            ),
            final(self).tokens_view() == old(self).tokens_view(),
    {
        let ghost tv = token_views(ts@);
        let n = ts.len();
        if i + 1 >= n {
            return Flow::Stuck;
        }
        let e = find_kind2(ts, i + 1, tokenTypeEnum::SEMICOLON, tokenTypeEnum::R_PAREN);
        proof {
            lemma_find_tt2(tv, (i + 1) as nat, tokenTypeEnum::SEMICOLON, tokenTypeEnum::R_PAREN);
        }
        let stop = if e < n { e + 1 } else { n };
        assert(tv[i + 1] == ts@[i + 1]@);
        assert(tv[i as int] == ts@[i as int]@);
        if ts[i + 1].tt == tokenTypeEnum::SET_EQUALS {
            if stop - i < 3 {
                return Flow::Stuck;
            }
            return Flow::Next;
        }
        proof {
            reveal_strlit("VarRef");
            reveal_strlit("IntLiteral");
            reveal_strlit("StringLiteral");
            reveal_strlit("BinOp");
        }
        let first = Expr::VarRef(ts[i].tokenString.clone());
        let op_str = ts[i + 1].tt.name();
        let op = match BinOp::new(op_str.as_str()) {
            Ok(op) => op,
            Err(m) => {
                return Flow::Refused(Reporting::from(m));
            },
        };
        if stop - i < 3 {
            return Flow::Stuck;
        }
        assert(tv[i + 2] == ts@[i + 2]@);
        let second = match Expr::new("IntLiteral", Some(ts[i + 2].tokenString.as_str()), None, None, None) {
            Ok(x) => x,
            Err(m) => {
                return Flow::Refused(Reporting::from(m));
            },
        };
        let ghost v = read_i64(tv[i + 2].text)->Ok_0;
        assert(second@ == ExprV::IntLiteral(v));
        assert(first@ == ExprV::VarRef(tv[i as int].text));
        let st = Stmt::Expr(Expr::BinOp(Box::new(first), op, Box::new(second)));
        assert(st@ == StmtV::Expr(ExprV::BinOp(Box::new(ExprV::VarRef(tv[i as int].text)), op, Box::new(ExprV::IntLiteral(v)))));
        push_stmt(block, st);
        Flow::Next
    }

    /// The handling of `return` at `i`.
    fn do_return(&mut self, ts: &Vec<Token>, i: usize, block: &mut Vec<Stmt>) -> (r: Flow)
        requires
            i < ts.len(),
        ensures
            step_ends(
                r,
                case_return(token_views(ts@), i as nat, stmts_view(old(block)@), old(self).reports_view()),
                stmts_view(final(block)@),
                final(self).reports_view(),
            ),
            final(self).tokens_view() == old(self).tokens_view(),
    {
        let ghost tv = token_views(ts@);
        if i + 1 >= ts.len() {
            return Flow::Stuck;
        }
        assert(tv[i + 1] == ts@[i + 1]@);
        let value = if ts[i + 1].tt != tokenTypeEnum::SEMICOLON {
            Expr::VarRef(ts[i + 1].tokenString.clone())
        } else {
            Expr::VarRef(String::new())
        };
        push_stmt(block, Stmt::Return(value));
        Flow::Next
    }

    /// The handling of `begin` at `i`.
    fn do_begin(&mut self, ts: &Vec<Token>, i: usize, scope: i32, block: &mut Vec<Stmt>) -> (r: Flow)
        requires
            i < ts.len(),
        ensures
            step_ends(
                r,
                case_begin(token_views(ts@), i as nat, scope as int, stmts_view(old(block)@), old(self).reports_view()),
                stmts_view(final(block)@),
                final(self).reports_view(),
            ),
            final(self).tokens_view() == old(self).tokens_view(),
        decreases ts@.len(), 1nat,
    {
        let ghost tv = token_views(ts@);
        if i + 1 >= ts.len() {
            return Flow::Stuck;
        }
        let k = find_kind2(ts, i + 1, tokenTypeEnum::END_PROGRAM, tokenTypeEnum::END_PROCEDURE);
        proof {
            lemma_find_tt2(tv, (i + 1) as nat, tokenTypeEnum::END_PROGRAM, tokenTypeEnum::END_PROCEDURE);
        }
        if k >= ts.len() {
            return Flow::Stuck;
        }
        let sub = copy_tokens(ts, i + 1, k + 1);
        match self.try_parse(sub, scope) {
            None => Flow::Stuck,
            Some(Ok((_, Some(st)))) => {
                push_stmt(block, st);
                Flow::Next
            },
            Some(Ok((_, None))) => Flow::Stuck,
            Some(Err(_)) => Flow::Next,
        }
    }

    /// Parses one part of a statement; `None` when that parse fails, else the block read (if
    /// any), with `err` reported for a refusal.
    fn parse_part(&mut self, part: Vec<Token>, err: &String) -> (r: Option<Option<Stmt>>)
        ensures
            ({
                let run = parse_tokens(token_views(part@), 0, old(self).reports_view());
                match run.outcome {
                    Outcome::Stuck => r is None,
                    Outcome::Parsed(b) => r matches Some(Some(st)) && st@ == StmtV::Block(b)
                        && final(self).reports_view() == run.reports,
                    Outcome::Refused(_) => r matches Some(None) && final(self).reports_view() == reported(
                        run.reports,
                        err@,
                    ),
                }
            }),
            final(self).tokens_view() == old(self).tokens_view(),
        decreases part@.len(), 4nat,
    {
        match self.try_parse(part, 0) {
            None => None,
            Some(Ok((_, Some(st)))) => Some(Some(st)),
            Some(Ok((_, None))) => None,
            Some(Err(_)) => {
                self.reports.reportError(err.clone());
                Some(None)
            },
        }
    }

    /// The handling of `if` at `i`.
    fn do_if(&mut self, ts: &Vec<Token>, i: usize, scope: i32, block: &mut Vec<Stmt>) -> (r: Flow)
        requires
            i < ts.len(),
        ensures
            step_ends(
                r,
                case_if(token_views(ts@), i as nat, scope as int, stmts_view(old(block)@), old(self).reports_view()),
                stmts_view(final(block)@),
                final(self).reports_view(),
            ),
            final(self).tokens_view() == old(self).tokens_view(),
        decreases ts@.len(), 1nat,
    {
        let ghost tv = token_views(ts@);
        let n = ts.len();
        if i + 1 >= n {
            return Flow::Stuck;
        }
        let k = find_kind(ts, i + 1, tokenTypeEnum::END_IF);
        proof {
            lemma_find_tt(tv, (i + 1) as nat, tokenTypeEnum::END_IF);
            lemma_find_tt(tv, (i + 1) as nat, tokenTypeEnum::THEN);
        }
        if k >= n {
            return Flow::Stuck;
        }
        assert(tv[i + 1] == ts@[i + 1]@);
        assert(tv[i as int] == ts@[i as int]@);
        if ts[i + 1].tt != tokenTypeEnum::L_PAREN {
            return Flow::Next;
        }
        let t = find_kind(ts, i + 1, tokenTypeEnum::THEN);
        if t >= k {
            return Flow::Stuck;
        }
        let err = line_message(ts[i].lineNum, ", Error with condition");
        let cond = match self.parse_part(copy_tokens(ts, i + 1, t), &err) {
            None => {
                return Flow::Stuck;
            },
            Some(None) => {
                return Flow::Next;
            },
            Some(Some(st)) => st,
        };
        let else_at = find_last_else(ts, t + 1, k + 1);
        proof {
            lemma_last_index(tv, (t + 1) as nat, (k + 1) as nat, tokenTypeEnum::ELSE);
        }
        let (has_else, m) = match else_at {
            Some(m) => (m > t + 1, m),
            None => (false, 0),
        };
        if has_else {
            let a = match self.parse_part(copy_tokens(ts, t + 1, m), &err) {
                None => {
                    return Flow::Stuck;
                },
                Some(x) => x,
            };
            let b = match self.parse_part(copy_tokens(ts, m + 1, k), &err) {
                None => {
                    return Flow::Stuck;
                },
                Some(x) => x,
            };
            match (a, b) {
                (Some(ab), Some(bb)) => match self.processBlock(&cond) {
                    Ok(x) => {
                        push_stmt(block, Stmt::If(x, Box::new(ab), Some(Box::new(bb))));
                    },
                    Err(_) => {},
                },
                _ => {},
            }
        } else {
            let a = match self.parse_part(copy_tokens(ts, t + 1, k + 1), &err) {
                None => {
                    return Flow::Stuck;
                },
                Some(x) => x,
            };
            match a {
                Some(ab) => match self.processBlock(&cond) {
                    Ok(x) => {
                        push_stmt(block, Stmt::If(x, Box::new(ab), None));
                    },
                    Err(_) => {},
                },
                None => {},
            }
        }
        Flow::Next
    }

    /// The handling of `(` at `i`.
    fn do_paren(&mut self, ts: &Vec<Token>, i: usize, scope: i32, block: &mut Vec<Stmt>) -> (r: Flow)
        requires
            i < ts.len(),
        ensures
            step_ends(
                r,
                case_paren(token_views(ts@), i as nat, scope as int, stmts_view(old(block)@), old(self).reports_view()),
                stmts_view(final(block)@),
                final(self).reports_view(),
            ),
            final(self).tokens_view() == old(self).tokens_view(),
        decreases ts@.len(), 1nat,
    {
        let ghost tv = token_views(ts@);
        let n = ts.len();
        let close = find_closing(ts, i + 1);
        proof {
            lemma_find_close(tv, (i + 1) as nat, 1);
        }
        let stop = if close < n { close + 1 } else { n };
        match self.try_parse(copy_tokens(ts, i + 1, stop), 0) {
            None => Flow::Stuck,
            Some(Ok((_, Some(st)))) => {
                match self.processBlock(&st) {
                    Ok(x) => {
                        push_stmt(block, Stmt::Expr(x));
                    },
                    Err(_) => {},
                }
                Flow::Next
            },
            Some(Ok((_, None))) => Flow::Stuck,
            Some(Err(e)) => Flow::Refused(e),
        }
    }

    /// Parses the procedure parameters in `[lo, hi)`, split at commas, each followed by a `;`
    /// on line `line`; `false` when one of those parses fails.
    fn do_params(&mut self, ts: &Vec<Token>, lo: usize, hi: usize, line: usize, err: &String) -> (ok: bool)
        requires
            1 <= lo <= hi < ts.len(),
        ensures
            match proc_params(token_views(ts@), lo as nat, hi as nat, lo as nat, lo as nat, line as nat, err@, old(self).reports_view()) {
                Some(rep) => ok && final(self).reports_view() == rep,
                None => !ok,
            },
            final(self).tokens_view() == old(self).tokens_view(),
        decreases ts@.len(), 0nat,
    {
        let ghost tv = token_views(ts@);
        let ghost total = proc_params(tv, lo as nat, hi as nat, lo as nat, lo as nat, line as nat, err@, self.reports_view());
        let mut start = lo;
        let mut m = lo;
        while m < hi
            invariant
                tv == token_views(ts@),
                1 <= lo <= start <= m <= hi < ts.len(),
                total == proc_params(tv, lo as nat, hi as nat, start as nat, m as nat, line as nat, err@, self.reports_view()),
                total == proc_params(tv, lo as nat, hi as nat, lo as nat, lo as nat, line as nat, err@, old(self).reports_view()),
                self.tokens_view() == old(self).tokens_view(),
            decreases hi - m,
        {
            assert(tv[m as int] == ts@[m as int]@);
            let ghost r0 = self.reports_view();
            if ts[m].tt == tokenTypeEnum::COMMA {
                let mut piece = copy_tokens(ts, start, m);
                piece.push(Token::new(tokenTypeEnum::SEMICOLON, String::from_str(";"), line, tokenGroup::SYMBOL));
                assert(token_views(piece@) =~= tv.subrange(start as int, m as int).push(semicolon_view(line as nat)));
                let ghost run = parse_tokens(token_views(piece@), 0, r0);
                assert(param_run(tv, start as nat, m as nat, line as nat, err@, r0) == if run.outcome is Stuck {
                    None
                } else {
                    Some(after_part(run, err@))
                });
                match self.parse_part(piece, err) {
                    None => {
                        return false;
                    },
                    Some(_) => {},
                }
                assert(param_run(tv, start as nat, m as nat, line as nat, err@, r0) == Some(self.reports_view()));
                start = m + 1;
            }
            m = m + 1;
        }
        if hi > lo {
            let mut piece = copy_tokens(ts, start, hi);
            piece.push(Token::new(tokenTypeEnum::SEMICOLON, String::from_str(";"), line, tokenGroup::SYMBOL));
            assert(token_views(piece@) =~= tv.subrange(start as int, hi as int).push(semicolon_view(line as nat)));
            let ghost r0 = self.reports_view();
            let ghost run = parse_tokens(token_views(piece@), 0, r0);
            assert(param_run(tv, start as nat, hi as nat, line as nat, err@, r0) == if run.outcome is Stuck {
                None
            } else {
                Some(after_part(run, err@))
            });
            match self.parse_part(piece, err) {
                None => {
                    return false;
                },
                Some(_) => {},
            }
        }
        true
    }

    /// The handling of `procedure` at `i`.
    fn do_procedure(&mut self, ts: &Vec<Token>, i: usize, scope: i32, block: &mut Vec<Stmt>) -> (r: Flow)
        requires
            i < ts.len(),
        ensures
            step_ends(
                r,
                case_procedure(token_views(ts@), i as nat, scope as int, stmts_view(old(block)@), old(self).reports_view()),
                stmts_view(final(block)@),
                final(self).reports_view(),
            ),
            final(self).tokens_view() == old(self).tokens_view(),
        decreases ts@.len(), 1nat,
    {
        let ghost tv = token_views(ts@);
        let n = ts.len();
        if i + 1 >= n {
            return Flow::Stuck;
        }
        let k = find_kind(ts, i + 1, tokenTypeEnum::END_PROCEDURE);
        proof {
            lemma_find_tt(tv, (i + 1) as nat, tokenTypeEnum::END_PROCEDURE);
        }
        if k >= n || k - i < 4 {
            return Flow::Stuck;
        }
        assert(tv[i + 4] == ts@[i + 4]@);
        assert(tv[i as int] == ts@[i as int]@);
        let has_params = ts[i + 4].tt == tokenTypeEnum::L_PAREN;
        let r = find_kind(ts, i + 5, tokenTypeEnum::R_PAREN);
        proof {
            lemma_find_tt(tv, (i + 5) as nat, tokenTypeEnum::R_PAREN);
        }
        let line = ts[i + 4].lineNum;
        if has_params && (k - i < 5 || r >= k || !all_on_line(ts, i + 5, r, line)) {
            return Flow::Stuck;
        }
        let j: usize = if has_params { r - i } else { 5 };
        if has_params {
            let err = line_message(ts[i].lineNum, ", Error with condition");
            if !self.do_params(ts, i + 5, r, line, &err) {
                return Flow::Stuck;
            }
        }
        if j + 2 > k - i {
            return Flow::Stuck;
        }
        assert(tv[i + j + 1] == ts@[i + j + 1]@);
        let err = line_message(ts[i + j + 1].lineNum, ", Error with procedure");
        match self.parse_part(copy_tokens(ts, i + j + 1, k + 1), &err) {
            None => Flow::Stuck,
            Some(_) => Flow::Next,
        }
    }

    /// The handling of the token at `i`, by its kind.
    fn step(&mut self, ts: &Vec<Token>, i: usize, scope: i32, block: &mut Vec<Stmt>) -> (r: Flow)
        requires
            i < ts.len(),
        ensures
            step_ends(
                r,
                token_step(token_views(ts@), i as nat, scope as int, stmts_view(old(block)@), old(self).reports_view()),
                stmts_view(final(block)@),
                final(self).reports_view(),
            ),
            final(self).tokens_view() == old(self).tokens_view(),
        decreases ts@.len(), 2nat,
    {
        let ghost tv = token_views(ts@);
        assert(tv[i as int] == ts@[i as int]@);
        let tt = ts[i].tt;
        if tt == tokenTypeEnum::PROGRAM {
            self.do_program(ts, scope, block)
        } else if tt == tokenTypeEnum::VARIABLE {
            self.do_variable(ts, i, block)
        } else if tt == tokenTypeEnum::BEGIN {
            self.do_begin(ts, i, scope, block)
        } else if tt == tokenTypeEnum::IDENTIFIER {
            self.do_identifier(ts, i, block)
        } else if tt == tokenTypeEnum::IF {
            self.do_if(ts, i, scope, block)
        } else if tt == tokenTypeEnum::L_PAREN {
            self.do_paren(ts, i, scope, block)
        } else if tt == tokenTypeEnum::PROCEDURE {
            self.do_procedure(ts, i, scope, block)
        } else if tt == tokenTypeEnum::RETURN {
            self.do_return(ts, i, block)
        } else {
            Flow::Next
        }
    }

    /// Parses a token list in a scope: `None` where the parse fails (an index runs past the end
    /// of a list, or a loop never ends), else what the parse returns.
    pub fn try_parse(&mut self, tokenList: Vec<Token>, scope: i32) -> (r: Option<Result<(Reporting, Option<Stmt>), Reporting>>)
        ensures
            parse_ends(r, parse_tokens(token_views(tokenList@), scope as int, old(self).reports_view()), final(self).reports_view()),
            final(self).tokens_view() == old(self).tokens_view(),
        decreases tokenList@.len(), 3nat,
    {
        let ghost tv = token_views(tokenList@);
        let ghost total = parse_tokens(tv, scope as int, self.reports_view());
        let n = tokenList.len();
        let mut block: Vec<Stmt> = Vec::new();
        let mut i: usize = 0;
        let mut sc: i32 = scope;
        while i < n
            invariant
                n == tokenList.len(),
                tv == token_views(tokenList@),
                i <= n,
                parse_loop(tv, i as nat, sc as int, stmts_view(block@), self.reports_view()) == total,
                total == parse_tokens(token_views(tokenList@), scope as int, old(self).reports_view()),
                self.tokens_view() == old(self).tokens_view(),
            decreases scope_rank(sc as int), n - i,
        {
            let ghost b0 = stmts_view(block@);
            let ghost r0 = self.reports_view();
            let f = self.step(&tokenList, i, sc, &mut block);
            match f {
                Flow::Next => {
                    let ni = next_at(&tokenList, i, sc);
                    proof {
                        lemma_next_index(tv, i as nat, sc as int);
                    }
                    assert(tv[i as int] == tokenList@[i as int]@);
                    if tokenList[i].tt == tokenTypeEnum::PROGRAM && sc == 0 {
                        sc = 1;
                    }
                    i = ni;
                },
                Flow::Refused(rep) => {
                    assert(parse_loop(tv, i as nat, sc as int, b0, r0) == match token_step(tv, i as nat, sc as int, b0, r0) {
                        Step::Stop(run) => run,
                        Step::Next(b2, r2) => parse_loop(tv, i as nat, sc as int, b0, r0),
                    });
                    return Some(Err(rep));
                },
                Flow::Stuck => {
                    return None;
                },
            }
        }
        Some(Ok((self.reports.clone(), Some(Stmt::Block(block)))))
    }

    /// Parses a token list in a scope. Every statement read goes into one block; a refusal
    /// carries a report.
    pub fn parse(&mut self, tokenList: Vec<Token>, scope: i32) -> (r: Result<(Reporting, Option<Stmt>), Reporting>)
        requires
            parse_tokens(token_views(tokenList@), scope as int, old(self).reports_view()).outcome !is Stuck,
        ensures
            parse_ends(Some(r), parse_tokens(token_views(tokenList@), scope as int, old(self).reports_view()), final(self).reports_view()),
            final(self).tokens_view() == old(self).tokens_view(),
    {
        match self.try_parse(tokenList, scope) {
            Some(r) => r,
            None => Err(Reporting::new()),
        }
    }

    /// Parses the parser's whole token list, from scope 0.
    pub fn startParse(&mut self) -> (r: Result<(Reporting, Option<Stmt>), Reporting>)
        requires
            parse_tokens(old(self).tokens_view(), 0, old(self).reports_view()).outcome !is Stuck,
        ensures
            parse_ends(Some(r), parse_tokens(old(self).tokens_view(), 0, old(self).reports_view()), final(self).reports_view()),
            final(self).tokens_view() == old(self).tokens_view(),
    {
        let tokList = copy_tokens(&self.tokenList, 0, self.tokenList.len());
        assert(token_views(self.tokenList@).subrange(0, self.tokenList@.len() as int) =~= token_views(self.tokenList@));
        self.parse(tokList, 0)
    }

    /// Parses the parser's whole token list, from scope 0: `None` where that parse fails.
    pub fn tryStartParse(&mut self) -> (r: Option<Result<(Reporting, Option<Stmt>), Reporting>>)
        ensures
            parse_ends(r, parse_tokens(old(self).tokens_view(), 0, old(self).reports_view()), final(self).reports_view()),
            final(self).tokens_view() == old(self).tokens_view(),
    {
        let tokList = copy_tokens(&self.tokenList, 0, self.tokenList.len());
        assert(token_views(self.tokenList@).subrange(0, self.tokenList@.len() as int) =~= token_views(self.tokenList@));
        self.try_parse(tokList, 0)
    }
}

} // verus!
