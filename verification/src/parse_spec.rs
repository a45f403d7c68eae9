use vstd::prelude::*;
use crate::ast::{binop_of, ExprV, StmtV, VarTypeV};
use crate::decimal::nat_text;
use crate::numparse::{int_error_text, read_i64, read_usize};
use crate::reporting::{Reporting, ReportingView};
use crate::token::{token_type_name, tokenGroup, tokenTypeEnum, TokenView};

verus! {

/// What parsing a token list comes to.
pub enum Outcome {
    /// The list was read; these are the statements of its block.
    Parsed(Seq<StmtV>),
    /// The list was refused with this report.
    Refused(ReportingView),
    /// Parsing this list fails: an index runs past the end of a list, or a loop never ends.
    Stuck,
}

/// The outcome of a parse, and the parser's own report once it is over.
pub struct ParseRun {
    pub reports: ReportingView,
    pub outcome: Outcome,
}

/// Where the handling of one token leaves the parse of a list.
pub enum Step {
    /// Go on with these statements and this report.
    Next(Seq<StmtV>, ReportingView),
    /// The parse ends here.
    Stop(ParseRun),
}

/// A report with one more error.
pub open spec fn reported(rep: ReportingView, message: Seq<char>) -> ReportingView {
    ReportingView { errors: rep.errors.push(message), ..rep }
}

/// The parse fails here.
pub open spec fn stuck(rep: ReportingView) -> Step {
    Step::Stop(ParseRun { reports: rep, outcome: Outcome::Stuck })
}

/// The parse reports `message` and is refused with the parser's whole report.
pub open spec fn refuse_with(rep: ReportingView, message: Seq<char>) -> Step {
    Step::Stop(ParseRun { reports: reported(rep, message), outcome: Outcome::Refused(reported(rep, message)) })
}

/// The parse is refused with a report that holds `message` alone; the parser's report is kept.
pub open spec fn refuse_alone(rep: ReportingView, message: Seq<char>) -> Step {
    Step::Stop(ParseRun { reports: rep, outcome: Outcome::Refused(Reporting::error_view(message)) })
}

/// A message about the source line `line`.
pub open spec fn line_msg(line: nat, tail: Seq<char>) -> Seq<char> {
    "In line: "@ + nat_text(line) + tail
}

/// The message for a program that does not start with its declaration.
pub open spec fn program_msg() -> Seq<char> {
    "Program declaration incorrect. \n Program must start with: 'program [Program name] is'"@
}

/// The end of the message for a variable declaration without a colon.
pub open spec fn decl_tail() -> Seq<char> {
    ", Array variable declaration incorrect. \n Must be in this format: 'variable [Variable name] : [variable type]'"@
}

/// The end of the message for a malformed array declaration.
pub open spec fn array_tail() -> Seq<char> {
    ", Array variable declaration incorrect. \n Must be in this format: 'variable [Variable name] : integer[arraySize]'"@
}

/// The end of the message for an array size that is not a number.
pub open spec fn size_tail() -> Seq<char> {
    ", Invlaid array size"@
}

/// The end of the message for an unknown array element type.
pub open spec fn type_tail(kind_word: Seq<char>) -> Seq<char> {
    ", '"@ + kind_word + "' is not a valid variable type"@
}

/// The end of the message for a part of an `if` or a parameter that was refused.
pub open spec fn cond_tail() -> Seq<char> {
    ", Error with condition"@
}

/// The end of the message for a procedure body that was refused.
pub open spec fn proc_tail() -> Seq<char> {
    ", Error with procedure"@
}

/// The first index from `k` on whose token is of kind `t`, or the length of the list.
pub open spec fn find_tt(ts: Seq<TokenView>, k: nat, t: tokenTypeEnum) -> nat
    decreases ts.len() - k,
{
    if k >= ts.len() {
        ts.len()
    } else if ts[k as int].tt == t {
        k
    } else {
        find_tt(ts, k + 1, t)
    }
}

/// The first index from `k` on whose token is of kind `t1` or `t2`, or the length of the list.
pub open spec fn find_tt2(ts: Seq<TokenView>, k: nat, t1: tokenTypeEnum, t2: tokenTypeEnum) -> nat
    decreases ts.len() - k,
{
    if k >= ts.len() {
        ts.len()
    } else if ts[k as int].tt == t1 || ts[k as int].tt == t2 {
        k
    } else {
        find_tt2(ts, k + 1, t1, t2)
    }
}

/// The index of the `)` that closes `depth` open parentheses, reading from `k`; or the
/// length of the list when they are never closed.
pub open spec fn find_close(ts: Seq<TokenView>, k: nat, depth: int) -> nat
    decreases ts.len() - k,
{
    if k >= ts.len() {
        ts.len()
    } else if ts[k as int].tt == tokenTypeEnum::L_PAREN {
        find_close(ts, k + 1, depth + 1)
    } else if ts[k as int].tt == tokenTypeEnum::R_PAREN {
        if depth - 1 == 0 {
            k
        } else {
            find_close(ts, k + 1, depth - 1)
        }
    } else {
        find_close(ts, k + 1, depth)
    }
}

/// The last index in `[lo, hi)` whose token is of kind `t`.
pub open spec fn last_index(ts: Seq<TokenView>, lo: nat, hi: nat, t: tokenTypeEnum) -> Option<nat>
    decreases hi,
{
    if hi <= lo {
        None
    } else if ts[hi - 1].tt == t {
        Some((hi - 1) as nat)
    } else {
        last_index(ts, lo, (hi - 1) as nat, t)
    }
}

/// Whether every token in `[lo, hi)` is on line `line`.
pub open spec fn same_line(ts: Seq<TokenView>, lo: nat, hi: nat, line: nat) -> bool {
    forall|m: int| lo <= m < hi ==> #[trigger] ts[m].line == line
}

/// What reading the expression that opens a block gives: the expression, or why there is none.
pub open spec fn block_expr(s: StmtV) -> Result<ExprV, Seq<char>> {
    match s {
        StmtV::Block(b) => if b.len() > 0 {
            match b[0] {
                StmtV::Expr(x) => Ok(x),
                _ => Err("First statement in Block is not an Expr"@),
            }
        } else {
            Err("Block is empty"@)
        },
        _ => Err("Expected Stmt::Block, but received a different Stmt type"@),
    }
}

/// What reading the first statement of a block gives: the statement, or why there is none.
pub open spec fn block_first(s: StmtV) -> Result<StmtV, Seq<char>> {
    match s {
        StmtV::Block(b) => if b.len() > 0 {
            Ok(b[0])
        } else {
            Err("Block is empty"@)
        },
        _ => Err("Expected Stmt::Block, but received a different Stmt type"@),
    }
}

/// The expression that opens a block, if its first statement is one.
pub open spec fn first_expr(b: Seq<StmtV>) -> Option<ExprV> {
    match block_expr(StmtV::Block(b)) {
        Ok(x) => Some(x),
        Err(_) => None,
    }
}

/// The `;` token that ends a procedure parameter read on line `line`.
pub open spec fn semicolon_view(line: nat) -> TokenView {
    TokenView { tt: tokenTypeEnum::SEMICOLON, text: ";"@, tg: tokenGroup::SYMBOL, line }
}

/// A block of `n` zeros.
pub open spec fn zeros(n: nat) -> Seq<i32> {
    Seq::new(n, |j: int| 0i32)
}

/// The handling of `program` at `i`: at scope 0 the list must open with `program <name> is`.
pub open spec fn case_program(ts: Seq<TokenView>, scope: int, block: Seq<StmtV>, rep: ReportingView) -> Step {
    if scope == 0 {
        if ts[0].tt == tokenTypeEnum::PROGRAM {
            if ts.len() < 3 {
                stuck(rep)
            } else if ts[2].tt == tokenTypeEnum::IS {
                Step::Next(block, rep)
            } else {
                refuse_with(rep, program_msg())
            }
        } else {
            refuse_with(rep, program_msg())
        }
    } else {
        Step::Next(block, rep)
    }
}

/// The handling of a `variable` declaration at `i`, which runs to the next `;`.
pub open spec fn case_variable(ts: Seq<TokenView>, i: nat, block: Seq<StmtV>, rep: ReportingView) -> Step {
    let k = find_tt(ts, i + 1, tokenTypeEnum::SEMICOLON);
    if k >= ts.len() || k < i + 2 {
        stuck(rep)
    } else if ts[(i + 2) as int].tt != tokenTypeEnum::COLON {
        if k < i + 3 {
            stuck(rep)
        } else {
            refuse_with(rep, line_msg(ts[(i + 3) as int].line, decl_tail()))
        }
    } else if k < i + 4 {
        stuck(rep)
    } else {
        let name = ts[(i + 1) as int].text;
        let kind_word = ts[(i + 3) as int].text;
        if ts[(i + 4) as int].tt != tokenTypeEnum::SEMICOLON {
            if ts[(i + 4) as int].tt != tokenTypeEnum::L_BRACKET {
                refuse_with(rep, line_msg(ts[(i + 3) as int].line, array_tail()))
            } else if kind_word == "integer"@ {
                if ts[(i + 5) as int].tt == tokenTypeEnum::INT {
                    match read_usize(ts[(i + 5) as int].text) {
                        Ok(n) => Step::Next(
                            block.push(StmtV::VarDecl(name, VarTypeV::IntArray(zeros(n as nat)))),
                            rep,
                        ),
                        Err(_) => refuse_with(rep, line_msg(ts[(i + 3) as int].line, size_tail())),
                    }
                } else {
                    refuse_with(rep, line_msg(ts[(i + 3) as int].line, array_tail()))
                }
            } else {
                refuse_with(rep, line_msg(ts[(i + 3) as int].line, type_tail(kind_word)))
            }
        } else if kind_word == "string"@ {
            Step::Next(block.push(StmtV::VarDecl(name, VarTypeV::Str(Seq::empty()))), rep)
        } else if kind_word == "integer"@ {
            Step::Next(block.push(StmtV::VarDecl(name, VarTypeV::Int(0))), rep)
        } else if kind_word == "bool"@ {
            Step::Next(block.push(StmtV::VarDecl(name, VarTypeV::Bool(false))), rep)
        } else if kind_word == "float"@ {
            Step::Next(block.push(StmtV::VarDecl(name, VarTypeV::Float)), rep)
        } else {
            Step::Next(block, rep)
        }
    }
}

/// The handling of an identifier at `i`: an operator and a number after it make a comparison;
/// an assignment is read no further.
pub open spec fn case_identifier(ts: Seq<TokenView>, i: nat, block: Seq<StmtV>, rep: ReportingView) -> Step {
    if i + 1 >= ts.len() {
        stuck(rep)
    } else {
        let e = find_tt2(ts, i + 1, tokenTypeEnum::SEMICOLON, tokenTypeEnum::R_PAREN);
        let stop: int = if e < ts.len() { (e + 1) as int } else { ts.len() as int };
        if ts[(i + 1) as int].tt == tokenTypeEnum::SET_EQUALS {
            if stop - i < 3 {
                stuck(rep)
            } else {
                Step::Next(block, rep)
            }
        } else {
            let op_name = token_type_name(ts[(i + 1) as int].tt);
            match binop_of(op_name) {
                None => refuse_alone(rep, "Unsupported operator: "@ + op_name),
                Some(op) => if stop - i < 3 {
                    stuck(rep)
                } else {
                    match read_i64(ts[(i + 2) as int].text) {
                        Ok(v) => Step::Next(
                            block.push(
                                StmtV::Expr(
                                    ExprV::BinOp(
                                        Box::new(ExprV::VarRef(ts[i as int].text)),
                                        op,
                                        Box::new(ExprV::IntLiteral(v)),
                                    ),
                                ),
                            ),
                            rep,
                        ),
                        Err(kind) => refuse_alone(rep, "Failed to parse integer: "@ + int_error_text(kind)),
                    }
                },
            }
        }
    }
}

/// The handling of `return` at `i`: it returns the variable after it, or nothing before a `;`.
pub open spec fn case_return(ts: Seq<TokenView>, i: nat, block: Seq<StmtV>, rep: ReportingView) -> Step {
    if i + 1 >= ts.len() {
        stuck(rep)
    } else if ts[(i + 1) as int].tt != tokenTypeEnum::SEMICOLON {
        Step::Next(block.push(StmtV::Return(ExprV::VarRef(ts[(i + 1) as int].text))), rep)
    } else {
        Step::Next(block.push(StmtV::Return(ExprV::VarRef(Seq::empty()))), rep)
    }
}

/// How the kind of scope counts toward the end of a parse: leaving scope 0 is progress.
pub open spec fn scope_rank(scope: int) -> nat {
    if scope == 0 {
        1
    } else {
        0
    }
}

/// The index the parse goes on from after the token at `i`.
pub open spec fn next_index(ts: Seq<TokenView>, i: nat, scope: int) -> nat {
    let tt = ts[i as int].tt;
    if tt == tokenTypeEnum::PROGRAM {
        if scope == 0 {
            3
        } else {
            i + 1
        }
    } else if tt == tokenTypeEnum::VARIABLE {
        find_tt(ts, i + 1, tokenTypeEnum::SEMICOLON) + 1
    } else if tt == tokenTypeEnum::BEGIN {
        find_tt2(ts, i + 1, tokenTypeEnum::END_PROGRAM, tokenTypeEnum::END_PROCEDURE)
    } else if tt == tokenTypeEnum::IF {
        find_tt(ts, i + 1, tokenTypeEnum::END_IF) + 1
    } else if tt == tokenTypeEnum::L_PAREN {
        find_close(ts, i + 1, 1) + 1
    } else if tt == tokenTypeEnum::PROCEDURE {
        find_tt(ts, i + 1, tokenTypeEnum::END_PROCEDURE) + 1
    } else if tt == tokenTypeEnum::RETURN {
        if i + 1 < ts.len() && ts[(i + 1) as int].tt != tokenTypeEnum::SEMICOLON {
            i + 3
        } else {
            i + 2
        }
    } else {
        i + 1
    }
}

/// The scope the parse goes on in after the token at `i`.
pub open spec fn next_scope(ts: Seq<TokenView>, i: nat, scope: int) -> int {
    if ts[i as int].tt == tokenTypeEnum::PROGRAM && scope == 0 {
        1
    } else {
        scope
    }
}

/// The parse of the token list `ts` from index `i`, in `scope`, with the statements read so
/// far and the parser's report.
pub open spec fn parse_loop(ts: Seq<TokenView>, i: nat, scope: int, block: Seq<StmtV>, rep: ReportingView) -> ParseRun
    decreases ts.len(), scope_rank(scope), ts.len() - i, 2nat,
{
    if i >= ts.len() {
        ParseRun { reports: rep, outcome: Outcome::Parsed(block) }
    } else {
        match token_step(ts, i, scope, block, rep) {
            Step::Stop(run) => run,
            Step::Next(b2, r2) => {
                let n = next_index(ts, i, scope);
                if n < ts.len() {
                    proof {
                        lemma_next_index(ts, i, scope);
                    }
                    parse_loop(ts, n, next_scope(ts, i, scope), b2, r2)
                } else {
                    ParseRun { reports: r2, outcome: Outcome::Parsed(b2) }
                }
            },
        }
    }
}

/// The parse of a whole token list in `scope`, starting from the report `rep`.
pub open spec fn parse_tokens(ts: Seq<TokenView>, scope: int, rep: ReportingView) -> ParseRun {
    parse_loop(ts, 0, scope, Seq::empty(), rep)
}

/// The handling of the token at `i`, by its kind.
pub open spec fn token_step(ts: Seq<TokenView>, i: nat, scope: int, block: Seq<StmtV>, rep: ReportingView) -> Step
    decreases ts.len(), scope_rank(scope), ts.len() - i, 1nat,
{
    if i >= ts.len() {
        Step::Next(block, rep)
    } else {
        let tt = ts[i as int].tt;
        if tt == tokenTypeEnum::PROGRAM {
            case_program(ts, scope, block, rep)
        } else if tt == tokenTypeEnum::VARIABLE {
            case_variable(ts, i, block, rep)
        } else if tt == tokenTypeEnum::BEGIN {
            case_begin(ts, i, scope, block, rep)
        } else if tt == tokenTypeEnum::IDENTIFIER {
            case_identifier(ts, i, block, rep)
        } else if tt == tokenTypeEnum::IF {
            case_if(ts, i, scope, block, rep)
        } else if tt == tokenTypeEnum::L_PAREN {
            case_paren(ts, i, scope, block, rep)
        } else if tt == tokenTypeEnum::PROCEDURE {
            case_procedure(ts, i, scope, block, rep)
        } else if tt == tokenTypeEnum::RETURN {
            case_return(ts, i, block, rep)
        } else {
            Step::Next(block, rep)
        }
    }
}

/// The handling of `begin` at `i`: the tokens after it, up to and including the next end of a
/// program or procedure, are parsed in the same scope; a block read there is kept and a
/// refusal there is passed over.
pub open spec fn case_begin(ts: Seq<TokenView>, i: nat, scope: int, block: Seq<StmtV>, rep: ReportingView) -> Step
    decreases ts.len(), scope_rank(scope), ts.len() - i, 0nat,
{
    if i + 1 >= ts.len() {
        stuck(rep)
    } else {
        let k = find_tt2(ts, i + 1, tokenTypeEnum::END_PROGRAM, tokenTypeEnum::END_PROCEDURE);
        proof {
            lemma_find_tt2(ts, i + 1, tokenTypeEnum::END_PROGRAM, tokenTypeEnum::END_PROCEDURE);
        }
        if k >= ts.len() {
            stuck(rep)
        } else {
            let run = parse_loop(ts.subrange((i + 1) as int, (k + 1) as int), 0, scope, Seq::empty(), rep);
            match run.outcome {
                Outcome::Parsed(b) => Step::Next(block.push(StmtV::Block(b)), run.reports),
                Outcome::Refused(_) => Step::Next(block, run.reports),
                Outcome::Stuck => Step::Stop(run),
            }
        }
    }
}

/// The report after a part of a statement was parsed: a refusal adds `err`.
pub open spec fn after_part(run: ParseRun, err: Seq<char>) -> ReportingView {
    match run.outcome {
        Outcome::Refused(_) => reported(run.reports, err),
        _ => run.reports,
    }
}

/// The handling of `if` at `i`, which runs to the next `end if`: a condition in parentheses up
/// to `then`, a body, and, after the last `else`, another body. Each part is parsed on its own;
/// the statement is kept when all parts were read and the condition opens with an expression.
pub open spec fn case_if(ts: Seq<TokenView>, i: nat, scope: int, block: Seq<StmtV>, rep: ReportingView) -> Step
    decreases ts.len(), scope_rank(scope), ts.len() - i, 0nat,
{
    if i + 1 >= ts.len() {
        stuck(rep)
    } else {
        let k = find_tt(ts, i + 1, tokenTypeEnum::END_IF);
        if k >= ts.len() {
            stuck(rep)
        } else if ts[(i + 1) as int].tt != tokenTypeEnum::L_PAREN {
            Step::Next(block, rep)
        } else {
            let t = find_tt(ts, i + 1, tokenTypeEnum::THEN);
            proof {
                lemma_find_tt(ts, i + 1, tokenTypeEnum::THEN);
                lemma_find_tt(ts, i + 1, tokenTypeEnum::END_IF);
            }
            if t >= k {
                stuck(rep)
            } else {
                let err = line_msg(ts[i as int].line, cond_tail());
                let c = parse_loop(ts.subrange((i + 1) as int, t as int), 0, 0, Seq::empty(), rep);
                match c.outcome {
                    Outcome::Stuck => Step::Stop(c),
                    Outcome::Refused(_) => Step::Next(block, reported(c.reports, err)),
                    Outcome::Parsed(cb) => {
                        let else_at = last_index(ts, t + 1, k + 1, tokenTypeEnum::ELSE);
                        if else_at is Some && else_at->0 > t + 1 {
                                let m = else_at->0;
                                proof {
                                    lemma_last_index(ts, t + 1, k + 1, tokenTypeEnum::ELSE);
                                }
                                let a = parse_loop(ts.subrange((t + 1) as int, m as int), 0, 0, Seq::empty(), c.reports);
                                if a.outcome is Stuck {
                                    Step::Stop(a)
                                } else {
                                    let b = parse_loop(ts.subrange((m + 1) as int, k as int), 0, 0, Seq::empty(), after_part(a, err));
                                    if b.outcome is Stuck {
                                        Step::Stop(b)
                                    } else {
                                        let rep2 = after_part(b, err);
                                        match (a.outcome, b.outcome, first_expr(cb)) {
                                            (Outcome::Parsed(ab), Outcome::Parsed(bb), Some(x)) => Step::Next(
                                                block.push(
                                                    StmtV::If(
                                                        x,
                                                        Box::new(StmtV::Block(ab)),
                                                        Some(Box::new(StmtV::Block(bb))),
                                                    ),
                                                ),
                                                rep2,
                                            ),
                                            _ => Step::Next(block, rep2),
                                        }
                                    }
                                }
                        } else {
                                let a = parse_loop(ts.subrange((t + 1) as int, (k + 1) as int), 0, 0, Seq::empty(), c.reports);
                                if a.outcome is Stuck {
                                    Step::Stop(a)
                                } else {
                                    let rep2 = after_part(a, err);
                                    match (a.outcome, first_expr(cb)) {
                                        (Outcome::Parsed(ab), Some(x)) => Step::Next(
                                            block.push(StmtV::If(x, Box::new(StmtV::Block(ab)), None)),
                                            rep2,
                                        ),
                                        _ => Step::Next(block, rep2),
                                    }
                                }
                        }
                    },
                }
            }
        }
    }
}

/// The handling of `(` at `i`: the tokens up to the matching `)` are parsed on their own; an
/// expression that opens what was read is kept, and a refusal ends the parse. (Only reached
/// for a token in the list.)
pub open spec fn case_paren(ts: Seq<TokenView>, i: nat, scope: int, block: Seq<StmtV>, rep: ReportingView) -> Step
    decreases ts.len(), scope_rank(scope), ts.len() - i, 0nat,
{
    if i >= ts.len() {
        stuck(rep)
    } else {
        let close = find_close(ts, i + 1, 1);
        let stop = if close < ts.len() { close + 1 } else { ts.len() };
        proof {
            lemma_find_close(ts, i + 1, 1);
        }
        let run = parse_loop(ts.subrange((i + 1) as int, stop as int), 0, 0, Seq::empty(), rep);
        match run.outcome {
            Outcome::Parsed(b) => match first_expr(b) {
                Some(x) => Step::Next(block.push(StmtV::Expr(x)), run.reports),
                None => Step::Next(block, run.reports),
            },
            _ => Step::Stop(run),
        }
    }
}

/// One procedure parameter, the tokens `[a, b)` followed by a `;`, parsed on its own; `None`
/// when that parse fails. (The parameters lie strictly inside the list.)
pub open spec fn param_run(ts: Seq<TokenView>, a: nat, b: nat, line: nat, err: Seq<char>, rep: ReportingView) -> Option<ReportingView>
    decreases ts.len(), 0nat, 0nat, 0nat,
{
    if 1 <= a <= b < ts.len() {
        let run = parse_loop(ts.subrange(a as int, b as int).push(semicolon_view(line)), 0, 0, Seq::empty(), rep);
        if run.outcome is Stuck {
            None
        } else {
            Some(after_part(run, err))
        }
    } else {
        None
    }
}

/// The procedure parameters in `[lo, hi)`, split at commas, each parsed on its own; `start` is
/// where the parameter being read began and `m` the next token to look at.
pub open spec fn proc_params(
    ts: Seq<TokenView>,
    lo: nat,
    hi: nat,
    start: nat,
    m: nat,
    line: nat,
    err: Seq<char>,
    rep: ReportingView,
) -> Option<ReportingView>
    decreases ts.len(), 0nat, 1nat, hi - m,
{
    if m < hi {
        if ts[m as int].tt == tokenTypeEnum::COMMA {
            match param_run(ts, start, m, line, err, rep) {
                Some(r2) => proc_params(ts, lo, hi, m + 1, m + 1, line, err, r2),
                None => None,
            }
        } else {
            proc_params(ts, lo, hi, start, m + 1, line, err, rep)
        }
    } else if hi > lo {
        param_run(ts, start, hi, line, err, rep)
    } else {
        Some(rep)
    }
}

/// The handling of `procedure` at `i`, which runs to the next `end procedure`: its parameters
/// (when a `(` is its fifth token) and its body are parsed on their own; refusals are reported
/// and nothing is kept.
pub open spec fn case_procedure(ts: Seq<TokenView>, i: nat, scope: int, block: Seq<StmtV>, rep: ReportingView) -> Step
    decreases ts.len(), scope_rank(scope), ts.len() - i, 0nat,
{
    if i + 1 >= ts.len() {
        stuck(rep)
    } else {
        let k = find_tt(ts, i + 1, tokenTypeEnum::END_PROCEDURE);
        if k >= ts.len() || k < i + 4 {
            stuck(rep)
        } else {
            let has_params = ts[(i + 4) as int].tt == tokenTypeEnum::L_PAREN;
            let r = find_tt(ts, i + 5, tokenTypeEnum::R_PAREN);
            let line = ts[(i + 4) as int].line;
            proof {
                lemma_find_tt(ts, i + 5, tokenTypeEnum::R_PAREN);
            }
            if has_params && (k < i + 5 || r >= k || !same_line(ts, i + 5, r, line)) {
                stuck(rep)
            } else {
                let j: nat = if has_params { (r - i) as nat } else { 5 };
                let after = if has_params {
                    proc_params(ts, i + 5, r, i + 5, i + 5, line, line_msg(ts[i as int].line, cond_tail()), rep)
                } else {
                    Some(rep)
                };
                match after {
                    None => stuck(rep),
                    Some(rep2) => if i + j + 2 > k {
                        stuck(rep2)
                    } else {
                        let body = parse_loop(ts.subrange((i + j + 1) as int, (k + 1) as int), 0, 0, Seq::empty(), rep2);
                        if body.outcome is Stuck {
                            Step::Stop(body)
                        } else {
                            Step::Next(block, after_part(body, line_msg(ts[(i + j + 1) as int].line, proc_tail())))
                        }
                    },
                }
            }
        }
    }
}

/// `find_tt` gives the first token of its kind at or after `k`.
pub proof fn lemma_find_tt(ts: Seq<TokenView>, k: nat, t: tokenTypeEnum)
    ensures
        find_tt(ts, k, t) <= ts.len(),
        k <= ts.len() ==> k <= find_tt(ts, k, t),
        find_tt(ts, k, t) < ts.len() ==> ts[find_tt(ts, k, t) as int].tt == t,
        forall|m: int| k <= m < find_tt(ts, k, t) ==> #[trigger] ts[m].tt != t,
    decreases ts.len() - k,
{
    if k < ts.len() && ts[k as int].tt != t {
        lemma_find_tt(ts, k + 1, t);
    }
}

/// `find_tt2` gives the first token of either kind at or after `k`.
pub proof fn lemma_find_tt2(ts: Seq<TokenView>, k: nat, t1: tokenTypeEnum, t2: tokenTypeEnum)
    ensures
        find_tt2(ts, k, t1, t2) <= ts.len(),
        k <= ts.len() ==> k <= find_tt2(ts, k, t1, t2),
        find_tt2(ts, k, t1, t2) < ts.len() ==> (ts[find_tt2(ts, k, t1, t2) as int].tt == t1 || ts[find_tt2(
            ts,
            k,
            t1,
            t2,
        ) as int].tt == t2),
        forall|m: int| k <= m < find_tt2(ts, k, t1, t2) ==> #[trigger] ts[m].tt != t1 && ts[m].tt != t2,
    decreases ts.len() - k,
{
    if k < ts.len() && !(ts[k as int].tt == t1 || ts[k as int].tt == t2) {
        lemma_find_tt2(ts, k + 1, t1, t2);
    }
}

/// `last_index` finds a token of its kind inside the range.
pub proof fn lemma_last_index(ts: Seq<TokenView>, lo: nat, hi: nat, t: tokenTypeEnum)
    ensures
        last_index(ts, lo, hi, t) matches Some(m) ==> lo <= m < hi && ts[m as int].tt == t,
    decreases hi,
{
    if hi > lo && ts[hi - 1].tt != t {
        lemma_last_index(ts, lo, (hi - 1) as nat, t);
    }
}

/// `find_close` stays within the list and does not go back.
pub proof fn lemma_find_close(ts: Seq<TokenView>, k: nat, depth: int)
    ensures
        find_close(ts, k, depth) <= ts.len(),
        k <= ts.len() ==> k <= find_close(ts, k, depth),
    decreases ts.len() - k,
{
    if k < ts.len() {
        if ts[k as int].tt == tokenTypeEnum::L_PAREN {
            lemma_find_close(ts, k + 1, depth + 1);
        } else if ts[k as int].tt == tokenTypeEnum::R_PAREN {
            if depth - 1 != 0 {
                lemma_find_close(ts, k + 1, depth - 1);
            }
        } else {
            lemma_find_close(ts, k + 1, depth);
        }
    }
}

/// After each token the parse moves forward, or leaves scope 0.
pub proof fn lemma_next_index(ts: Seq<TokenView>, i: nat, scope: int)
    requires
        i < ts.len(),
    ensures
        scope_rank(next_scope(ts, i, scope)) < scope_rank(scope) || (next_scope(ts, i, scope) == scope
            && next_index(ts, i, scope) > i),
{
    lemma_find_tt(ts, i + 1, tokenTypeEnum::SEMICOLON);
    lemma_find_tt(ts, i + 1, tokenTypeEnum::END_IF);
    lemma_find_tt(ts, i + 1, tokenTypeEnum::END_PROCEDURE);
    lemma_find_tt2(ts, i + 1, tokenTypeEnum::END_PROGRAM, tokenTypeEnum::END_PROCEDURE);
    lemma_find_close(ts, i + 1, 1);
}

} // verus!
