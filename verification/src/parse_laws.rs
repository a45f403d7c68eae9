use vstd::prelude::*;
use crate::parse_spec::{
    after_part, case_begin, case_if, case_paren, case_procedure, case_variable, find_close, find_tt, find_tt2, last_index, lemma_find_close, lemma_find_tt, lemma_find_tt2,
    lemma_last_index, lemma_next_index, next_index, next_scope, param_run, parse_loop, parse_tokens, proc_params,
    reported, scope_rank, semicolon_view, Outcome, ParseRun, Step, token_step,
};
use crate::ast::StmtV;
use crate::reporting::ReportingView;
use crate::token::{tokenTypeEnum, TokenView};

verus! {

/// `b` is `a` with possibly more errors after those of `a`: the flag, the warnings and the
/// errors already there are kept.
pub open spec fn report_extends(a: ReportingView, b: ReportingView) -> bool {
    &&& b.error_status == a.error_status
    &&& b.warnings == a.warnings
    &&& a.errors.len() <= b.errors.len()
    &&& b.errors.take(a.errors.len() as int) == a.errors
}

/// Where a step leaves the report extends `rep`.
pub open spec fn step_extends(rep: ReportingView, s: Step) -> bool {
    match s {
        Step::Next(_, r2) => report_extends(rep, r2),
        Step::Stop(run) => report_extends(rep, run.reports),
    }
}

proof fn lemma_extends_refl(a: ReportingView)
    ensures
        report_extends(a, a),
{
    assert(a.errors.take(a.errors.len() as int) =~= a.errors);
}

proof fn lemma_extends_trans(a: ReportingView, b: ReportingView, c: ReportingView)
    requires
        report_extends(a, b),
        report_extends(b, c),
    ensures
        report_extends(a, c),
{
    assert(c.errors.take(a.errors.len() as int) =~= c.errors.take(b.errors.len() as int).take(
        a.errors.len() as int,
    ));
}

proof fn lemma_reported_extends(a: ReportingView, m: Seq<char>)
    ensures
        report_extends(a, reported(a, m)),
{
    assert(reported(a, m).errors.take(a.errors.len() as int) =~= a.errors);
}

proof fn lemma_after_part_extends(run: ParseRun, err: Seq<char>)
    ensures
        report_extends(run.reports, after_part(run, err)),
{
    lemma_extends_refl(run.reports);
    lemma_reported_extends(run.reports, err);
}

proof fn lemma_loop_extends(ts: Seq<TokenView>, i: nat, scope: int, block: Seq<StmtV>, rep: ReportingView)
    ensures
        report_extends(rep, parse_loop(ts, i, scope, block, rep).reports),
    decreases ts.len(), scope_rank(scope), ts.len() - i, 2nat,
{
    lemma_extends_refl(rep);
    if i < ts.len() {
        lemma_step_extends(ts, i, scope, block, rep);
        match token_step(ts, i, scope, block, rep) {
            Step::Stop(run) => {},
            Step::Next(b2, r2) => {
                let n = next_index(ts, i, scope);
                if n < ts.len() {
                    lemma_next_index(ts, i, scope);
                    lemma_loop_extends(ts, n, next_scope(ts, i, scope), b2, r2);
                    lemma_extends_trans(rep, r2, parse_loop(ts, n, next_scope(ts, i, scope), b2, r2).reports);
                }
            },
        }
    }
}

proof fn lemma_step_extends(ts: Seq<TokenView>, i: nat, scope: int, block: Seq<StmtV>, rep: ReportingView)
    ensures
        step_extends(rep, token_step(ts, i, scope, block, rep)),
    decreases ts.len(), scope_rank(scope), ts.len() - i, 1nat,
{
    lemma_extends_refl(rep);
    lemma_reported_extends(rep, crate::parse_spec::program_msg());
    if i < ts.len() {
        let tt = ts[i as int].tt;
        if tt == tokenTypeEnum::VARIABLE {
            lemma_variable_extends(ts, i, block, rep);
        } else if tt == tokenTypeEnum::BEGIN {
            lemma_begin_extends(ts, i, scope, block, rep);
        } else if tt == tokenTypeEnum::IF {
            lemma_if_extends(ts, i, scope, block, rep);
        } else if tt == tokenTypeEnum::L_PAREN {
            lemma_paren_extends(ts, i, scope, block, rep);
        } else if tt == tokenTypeEnum::PROCEDURE {
            lemma_procedure_extends(ts, i, scope, block, rep);
        }
    }
}

proof fn lemma_variable_extends(ts: Seq<TokenView>, i: nat, block: Seq<StmtV>, rep: ReportingView)
    ensures
        step_extends(rep, case_variable(ts, i, block, rep)),
{
    lemma_extends_refl(rep);
    match case_variable(ts, i, block, rep) {
        Step::Stop(run) => {
            if run.outcome is Refused {
                let m = run.reports.errors.last();
                assert(run.reports == reported(rep, m));
                lemma_reported_extends(rep, m);
            }
        },
        _ => {},
    }
}

proof fn lemma_begin_extends(ts: Seq<TokenView>, i: nat, scope: int, block: Seq<StmtV>, rep: ReportingView)
    ensures
        step_extends(rep, case_begin(ts, i, scope, block, rep)),
    decreases ts.len(), scope_rank(scope), ts.len() - i, 0nat,
{
    if i + 1 < ts.len() {
        let k = find_tt2(ts, i + 1, tokenTypeEnum::END_PROGRAM, tokenTypeEnum::END_PROCEDURE);
        lemma_find_tt2(ts, i + 1, tokenTypeEnum::END_PROGRAM, tokenTypeEnum::END_PROCEDURE);
        if k < ts.len() {
            lemma_loop_extends(ts.subrange((i + 1) as int, (k + 1) as int), 0, scope, Seq::empty(), rep);
        }
    }
    lemma_extends_refl(rep);
}

proof fn lemma_if_extends(ts: Seq<TokenView>, i: nat, scope: int, block: Seq<StmtV>, rep: ReportingView)
    ensures
        step_extends(rep, case_if(ts, i, scope, block, rep)),
    decreases ts.len(), scope_rank(scope), ts.len() - i, 0nat,
{
    lemma_extends_refl(rep);
    if i + 1 < ts.len() {
        let k = find_tt(ts, i + 1, tokenTypeEnum::END_IF);
        let t = find_tt(ts, i + 1, tokenTypeEnum::THEN);
        lemma_find_tt(ts, i + 1, tokenTypeEnum::THEN);
        lemma_find_tt(ts, i + 1, tokenTypeEnum::END_IF);
        if k < ts.len() && ts[(i + 1) as int].tt == tokenTypeEnum::L_PAREN && t < k {
            let err = crate::parse_spec::line_msg(ts[i as int].line, crate::parse_spec::cond_tail());
            let c = parse_loop(ts.subrange((i + 1) as int, t as int), 0, 0, Seq::empty(), rep);
            lemma_loop_extends(ts.subrange((i + 1) as int, t as int), 0, 0, Seq::empty(), rep);
            lemma_reported_extends(c.reports, err);
            lemma_extends_trans(rep, c.reports, reported(c.reports, err));
            if c.outcome is Parsed {
                let else_at = last_index(ts, t + 1, k + 1, tokenTypeEnum::ELSE);
                lemma_last_index(ts, t + 1, k + 1, tokenTypeEnum::ELSE);
                if else_at is Some && else_at->0 > t + 1 {
                    let m = else_at->0;
                    let a = parse_loop(ts.subrange((t + 1) as int, m as int), 0, 0, Seq::empty(), c.reports);
                    lemma_loop_extends(ts.subrange((t + 1) as int, m as int), 0, 0, Seq::empty(), c.reports);
                    lemma_after_part_extends(a, err);
                    lemma_extends_trans(rep, c.reports, a.reports);
                    lemma_extends_trans(rep, a.reports, after_part(a, err));
                    let b = parse_loop(ts.subrange((m + 1) as int, k as int), 0, 0, Seq::empty(), after_part(a, err));
                    lemma_loop_extends(ts.subrange((m + 1) as int, k as int), 0, 0, Seq::empty(), after_part(a, err));
                    lemma_after_part_extends(b, err);
                    lemma_extends_trans(rep, after_part(a, err), b.reports);
                    lemma_extends_trans(rep, b.reports, after_part(b, err));
                } else {
                    let a = parse_loop(ts.subrange((t + 1) as int, (k + 1) as int), 0, 0, Seq::empty(), c.reports);
                    lemma_loop_extends(ts.subrange((t + 1) as int, (k + 1) as int), 0, 0, Seq::empty(), c.reports);
                    lemma_after_part_extends(a, err);
                    lemma_extends_trans(rep, c.reports, a.reports);
                    lemma_extends_trans(rep, a.reports, after_part(a, err));
                }
            }
        }
    }
}

proof fn lemma_paren_extends(ts: Seq<TokenView>, i: nat, scope: int, block: Seq<StmtV>, rep: ReportingView)
    ensures
        step_extends(rep, case_paren(ts, i, scope, block, rep)),
    decreases ts.len(), scope_rank(scope), ts.len() - i, 0nat,
{
    lemma_extends_refl(rep);
    if i < ts.len() {
        let close = find_close(ts, i + 1, 1);
        let stop = if close < ts.len() { close + 1 } else { ts.len() };
        lemma_find_close(ts, i + 1, 1);
        lemma_loop_extends(ts.subrange((i + 1) as int, stop as int), 0, 0, Seq::empty(), rep);
    }
}

proof fn lemma_param_run_extends(
    ts: Seq<TokenView>,
    a: nat,
    b: nat,
    line: nat,
    err: Seq<char>,
    rep: ReportingView,
)
    ensures
        param_run(ts, a, b, line, err, rep) matches Some(r2) ==> report_extends(rep, r2),
    decreases ts.len(), 0nat, 0nat, 0nat,
{
    if 1 <= a <= b < ts.len() {
        let piece = ts.subrange(a as int, b as int).push(semicolon_view(line));
        let run = parse_loop(piece, 0, 0, Seq::empty(), rep);
        lemma_loop_extends(piece, 0, 0, Seq::empty(), rep);
        lemma_after_part_extends(run, err);
        lemma_extends_trans(rep, run.reports, after_part(run, err));
    }
}

proof fn lemma_params_extends(
    ts: Seq<TokenView>,
    lo: nat,
    hi: nat,
    start: nat,
    m: nat,
    line: nat,
    err: Seq<char>,
    rep: ReportingView,
)
    ensures
        proc_params(ts, lo, hi, start, m, line, err, rep) matches Some(r2) ==> report_extends(rep, r2),
    decreases ts.len(), 0nat, 1nat, hi - m,
{
    lemma_extends_refl(rep);
    if m < hi {
        if ts[m as int].tt == tokenTypeEnum::COMMA {
            lemma_param_run_extends(ts, start, m, line, err, rep);
            match param_run(ts, start, m, line, err, rep) {
                Some(r2) => {
                    lemma_params_extends(ts, lo, hi, m + 1, m + 1, line, err, r2);
                    if proc_params(ts, lo, hi, m + 1, m + 1, line, err, r2) is Some {
                        lemma_extends_trans(rep, r2, proc_params(ts, lo, hi, m + 1, m + 1, line, err, r2)->0);
                    }
                },
                None => {},
            }
        } else {
            lemma_params_extends(ts, lo, hi, start, m + 1, line, err, rep);
        }
    } else if hi > lo {
        lemma_param_run_extends(ts, start, hi, line, err, rep);
    }
}

proof fn lemma_procedure_extends(ts: Seq<TokenView>, i: nat, scope: int, block: Seq<StmtV>, rep: ReportingView)
    ensures
        step_extends(rep, case_procedure(ts, i, scope, block, rep)),
    decreases ts.len(), scope_rank(scope), ts.len() - i, 0nat,
{
    lemma_extends_refl(rep);
    if i + 1 < ts.len() {
        let k = find_tt(ts, i + 1, tokenTypeEnum::END_PROCEDURE);
        lemma_find_tt(ts, i + 1, tokenTypeEnum::END_PROCEDURE);
        if k < ts.len() && k >= i + 4 {
            let has_params = ts[(i + 4) as int].tt == tokenTypeEnum::L_PAREN;
            let r = find_tt(ts, i + 5, tokenTypeEnum::R_PAREN);
            let line = ts[(i + 4) as int].line;
            lemma_find_tt(ts, i + 5, tokenTypeEnum::R_PAREN);
            let err = crate::parse_spec::line_msg(ts[i as int].line, crate::parse_spec::cond_tail());
            if has_params {
                lemma_params_extends(ts, i + 5, r, i + 5, i + 5, line, err, rep);
            }
            let after = if has_params {
                proc_params(ts, i + 5, r, i + 5, i + 5, line, err, rep)
            } else {
                Some(rep)
            };
            let j: nat = if has_params { (r - i) as nat } else { 5 };
            if after is Some && i + j + 2 <= k {
                let rep2 = after->0;
                let body = parse_loop(ts.subrange((i + j + 1) as int, (k + 1) as int), 0, 0, Seq::empty(), rep2);
                lemma_loop_extends(ts.subrange((i + j + 1) as int, (k + 1) as int), 0, 0, Seq::empty(), rep2);
                let perr = crate::parse_spec::line_msg(ts[(i + j + 1) as int].line, crate::parse_spec::proc_tail());
                lemma_after_part_extends(body, perr);
                lemma_extends_trans(rep, rep2, body.reports);
                lemma_extends_trans(rep, body.reports, after_part(body, perr));
            }
        }
    }
}

/// A parse only ever adds errors to the parser's report: the errors already reported stay in
/// front, in order, and the warnings and the error flag are left as they were.
pub proof fn law_parse_keeps_reports(ts: Seq<TokenView>, scope: int, rep: ReportingView)
    ensures
        report_extends(rep, parse_tokens(ts, scope, rep).reports),
{
    lemma_loop_extends(ts, 0, scope, Seq::empty(), rep);
}

/// Whether a token kind starts something the parser reads: a program header, a declaration,
/// a block, a name, a condition, a parenthesis, a procedure or a return.
pub open spec fn starts_statement(tt: tokenTypeEnum) -> bool {
    tt == tokenTypeEnum::PROGRAM || tt == tokenTypeEnum::VARIABLE || tt == tokenTypeEnum::BEGIN || tt
        == tokenTypeEnum::IDENTIFIER || tt == tokenTypeEnum::IF || tt == tokenTypeEnum::L_PAREN || tt
        == tokenTypeEnum::PROCEDURE || tt == tokenTypeEnum::RETURN
}

proof fn lemma_plain_loop(ts: Seq<TokenView>, i: nat, scope: int, block: Seq<StmtV>, rep: ReportingView)
    requires
        forall|j: int| 0 <= j < ts.len() ==> !starts_statement(#[trigger] ts[j].tt),
    ensures
        parse_loop(ts, i, scope, block, rep) == (ParseRun { reports: rep, outcome: Outcome::Parsed(block) }),
    decreases ts.len() - i,
{
    if i < ts.len() {
        assert(!starts_statement(ts[i as int].tt));
        assert(token_step(ts, i, scope, block, rep) == Step::Next(block, rep));
        if i + 1 < ts.len() {
            lemma_plain_loop(ts, i + 1, scope, block, rep);
        }
    }
}

/// A token list in which nothing starts a statement parses to an empty block, and the report
/// is left as it was.
pub proof fn law_plain_tokens_parse_empty(ts: Seq<TokenView>, scope: int, rep: ReportingView)
    requires
        forall|j: int| 0 <= j < ts.len() ==> !starts_statement(#[trigger] ts[j].tt),
    ensures
        parse_tokens(ts, scope, rep) == (ParseRun { reports: rep, outcome: Outcome::Parsed(Seq::empty()) }),
{
    lemma_plain_loop(ts, 0, scope, Seq::empty(), rep);
}

} // verus!
