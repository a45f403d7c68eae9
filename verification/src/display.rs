use vstd::prelude::*;
use crate::ast::{binop_symbol, lemma_stmts_view, stmt_view, stmts_view, Expr, ExprV, Stmt, StmtV, VarType, VarTypeV};
use crate::decimal::{i64_text, int_text};
use crate::reporting::{bool_string, bool_text, texts, Reporting};
use crate::text::concat_str;

verus! {

/// How an expression is written: numbers in decimal, strings and names as they are, and an
/// operation in parentheses with spaces around its operator.
pub open spec fn expr_text(e: ExprV) -> Seq<char>
    decreases e,
{
    match e {
        ExprV::IntLiteral(i) => int_text(i),
        ExprV::StringLiteral(s) => s,
        ExprV::BinOp(l, op, r) => "("@ + expr_text(*l) + " "@ + binop_symbol(op) + " "@ + expr_text(*r) + ")"@,
        ExprV::VarRef(v) => v,
    }
}

impl Expr {
    /// This expression as it is written.
    pub fn to_string(&self) -> (r: String)
        ensures
            r@ == expr_text(self@),
        decreases self,
    {
        match self {
            Expr::IntLiteral(i) => i64_text(*i),
            Expr::StringLiteral(s) => s.clone(),
            Expr::BinOp(l, op, r) => {
                let a = concat_str("(", l.to_string().as_str());
                let b = concat_str(a.as_str(), " ");
                let c = concat_str(b.as_str(), op.symbol().as_str());
                let d = concat_str(c.as_str(), " ");
                let e = concat_str(d.as_str(), r.to_string().as_str());
                let t = concat_str(e.as_str(), ")");
                assert(t@ =~= expr_text(self@));
                t
            },
            Expr::VarRef(v) => v.clone(),
        }
    }
}

/// The decimal forms of a list of numbers, joined by `, `.
pub open spec fn joined_ints(v: Seq<i32>) -> Seq<char>
    decreases v.len(),
{
    if v.len() == 0 {
        Seq::empty()
    } else if v.len() == 1 {
        int_text(v[0] as int)
    } else {
        joined_ints(v.drop_last()) + ", "@ + int_text(v.last() as int)
    }
}

/// How a variable type is written: its name and its value in parentheses.
pub open spec fn var_type_text(t: VarTypeV) -> Seq<char> {
    match t {
        VarTypeV::Int(i) => "Int("@ + int_text(i) + ")"@,
        VarTypeV::Bool(b) => "Bool("@ + bool_text(b) + ")"@,
        VarTypeV::Float => "Float(0)"@,
        VarTypeV::Str(s) => "Str("@ + s + ")"@,
        VarTypeV::IntArray(a) => "IntArray(["@ + joined_ints(a) + "])"@,
    }
}

impl VarType {
    /// This type and its value as they are written.
    pub fn to_string(&self) -> (r: String)
        ensures
            r@ == var_type_text(self@),
    {
        match self {
            VarType::Int(i) => {
                let a = concat_str("Int(", i64_text(*i as i64).as_str());
                concat_str(a.as_str(), ")")
            },
            VarType::Bool(b) => {
                let a = concat_str("Bool(", bool_string(*b).as_str());
                concat_str(a.as_str(), ")")
            },
            VarType::Float => String::from_str("Float(0)"),
            VarType::Str(s) => {
                let a = concat_str("Str(", s.as_str());
                concat_str(a.as_str(), ")")
            },
            VarType::IntArray(v) => {
                let mut r = String::from_str("IntArray([");
                let mut i: usize = 0;
                while i < v.len()
                    invariant
                        i <= v.len(),
                        r@ == "IntArray(["@ + joined_ints(v@.take(i as int)),
                    decreases v.len() - i,
                {
                    if i > 0 {
                        r.append(", ");
                    }
                    let d = i64_text(v[i] as i64);
                    r.append(d.as_str());
                    proof {
                        let t = v@.take(i + 1);
                        assert(t.drop_last() =~= v@.take(i as int));
                        assert(t.last() == v@[i as int]);
                        assert(r@ =~= "IntArray(["@ + joined_ints(t));
                    }
                    i = i + 1;
                }
                assert(v@.take(v.len() as int) =~= v@);
                r.append("])");
                r
            },
        }
    }
}

/// `n` spaces.
pub open spec fn spaces(n: nat) -> Seq<char> {
    Seq::new(n, |j: int| ' ')
}

/// `n` spaces.
fn spaces_string(n: usize) -> (r: String)
    ensures
        r@ == spaces(n as nat),
{
    let mut r = String::new();
    let mut i: usize = 0;
    while i < n
        invariant
            i <= n,
            r@ == spaces(i as nat),
        decreases n - i,
    {
        r.append(" ");
        proof {
            reveal_strlit(" ");
        }
        assert(r@ =~= spaces((i + 1) as nat));
        i = i + 1;
    }
    r
}

/// How deep statements nest inside one another.
pub open spec fn stmt_depth(s: StmtV) -> nat
    decreases s,
{
    match s {
        StmtV::If(_, b, e) => 1 + match e {
            Some(x) => if stmt_depth(*b) >= stmt_depth(*x) {
                stmt_depth(*b)
            } else {
                stmt_depth(*x)
            },
            None => stmt_depth(*b),
        },
        StmtV::Block(ss) => 1 + block_depth(ss),
        StmtV::Program(_, b) => 1 + stmt_depth(*b),
        _ => 0,
    }
}

/// How deep the statements of a list nest.
pub open spec fn block_depth(ss: Seq<StmtV>) -> nat
    decreases ss,
{
    if ss.len() == 0 {
        0
    } else {
        proof {
            vstd::seq::axiom_seq_index_decreases(ss, ss.len() - 1);
            vstd::seq::axiom_seq_subrange_decreases(ss, 0, ss.len() - 1);
        }
        let a = block_depth(ss.drop_last());
        let b = stmt_depth(ss.last());
        if a >= b {
            a
        } else {
            b
        }
    }
}

/// The lines that show a statement, each indented by `indent` spaces and nested parts by two
/// more.
pub open spec fn stmt_lines(s: StmtV, indent: nat) -> Seq<Seq<char>>
    decreases s,
{
    let ind = spaces(indent);
    match s {
        StmtV::StringLiteral(t) => seq![ind + "StringLiteral("@ + t + ")"@],
        StmtV::Expr(e) => seq![ind + "Expr("@ + expr_text(e) + ")"@],
        StmtV::Assign(v, e) => seq![ind + "Assign("@ + v + ", "@ + expr_text(e) + ")"@],
        StmtV::VarDecl(v, t) => seq![ind + "VarDecl("@ + v + ", "@ + var_type_text(t) + ")"@],
        StmtV::If(c, b, e) => seq![ind + "If ("@, ind + "  Condition: "@ + expr_text(c), ind + "  Body: "@]
            + stmt_lines(*b, indent + 2) + match e {
            Some(x) => seq![ind + "  Else: "@] + stmt_lines(*x, indent + 2),
            None => Seq::empty(),
        } + seq![ind + ")"@],
        StmtV::Block(ss) => seq![ind + "Block(["@] + block_lines(ss, indent + 2) + seq![ind + "])"@],
        StmtV::Error(r) => seq![ind + "Error("@ + Reporting::debug_form(r) + ")"@],
        StmtV::Return(e) => seq![ind + "Return("@ + expr_text(e) + ")"@],
        StmtV::Program(n, b) => seq![ind + n + ":("@] + stmt_lines(*b, indent + 2) + seq![ind + ")"@],
    }
}

/// The lines that show a list of statements, one after another.
pub open spec fn block_lines(ss: Seq<StmtV>, indent: nat) -> Seq<Seq<char>>
    decreases ss,
{
    if ss.len() == 0 {
        Seq::empty()
    } else {
        proof {
            vstd::seq::axiom_seq_index_decreases(ss, ss.len() - 1);
            vstd::seq::axiom_seq_subrange_decreases(ss, 0, ss.len() - 1);
        }
        block_lines(ss.drop_last(), indent) + stmt_lines(ss.last(), indent)
    }
}

/// Every statement of a list nests no deeper than the list.
pub proof fn lemma_block_depth(ss: Seq<StmtV>)
    ensures
        forall|j: int| 0 <= j < ss.len() ==> stmt_depth(#[trigger] ss[j]) <= block_depth(ss),
    decreases ss.len(),
{
    if ss.len() > 0 {
        lemma_block_depth(ss.drop_last());
        assert forall|j: int| 0 <= j < ss.len() implies stmt_depth(#[trigger] ss[j]) <= block_depth(ss) by {
            if j < ss.len() - 1 {
                assert(ss.drop_last()[j] == ss[j]);
            }
        }
    }
}

/// A list nests no deeper than a bound when each of its statements does.
pub proof fn lemma_block_depth_bound(ss: Seq<StmtV>, m: nat)
    requires
        forall|j: int| 0 <= j < ss.len() ==> stmt_depth(#[trigger] ss[j]) <= m,
    ensures
        block_depth(ss) <= m,
    decreases ss.len(),
{
    if ss.len() > 0 {
        assert forall|j: int| 0 <= j < ss.drop_last().len() implies stmt_depth(#[trigger] ss.drop_last()[j]) <= m by {
            assert(ss.drop_last()[j] == ss[j]);
        }
        lemma_block_depth_bound(ss.drop_last(), m);
        assert(stmt_depth(ss[ss.len() - 1]) <= m);
    }
}

/// Appends one line.
fn push_line(out: &mut Vec<String>, line: String)
    ensures
        texts(final(out)@) == texts(old(out)@).push(line@),
{
    let ghost before = out@;
    out.push(line);
    assert(texts(out@) =~= texts(before).push(line@));
}

impl Stmt {
    /// Appends the lines that show this statement, indented by `indent` spaces, to `out`.
    pub fn display_into(&self, indent: usize, out: &mut Vec<String>)
        requires
            indent + 2 * stmt_depth(self@) <= usize::MAX,
        ensures
            texts(final(out)@) == texts(old(out)@) + stmt_lines(self@, indent as nat),
        decreases self,
    {
        let ind = spaces_string(indent);
        let ghost o0 = texts(out@);
        let ghost ind_v = spaces(indent as nat);
        match self {
            Stmt::StringLiteral(t) => {
                let a = concat_str(ind.as_str(), "StringLiteral(");
                let b = concat_str(a.as_str(), t.as_str());
                push_line(out, concat_str(b.as_str(), ")"));
            },
            Stmt::Expr(e) => {
                let a = concat_str(ind.as_str(), "Expr(");
                let b = concat_str(a.as_str(), e.to_string().as_str());
                push_line(out, concat_str(b.as_str(), ")"));
            },
            Stmt::Assign(v, e) => {
                let a = concat_str(ind.as_str(), "Assign(");
                let b = concat_str(a.as_str(), v.as_str());
                let c = concat_str(b.as_str(), ", ");
                let d = concat_str(c.as_str(), e.to_string().as_str());
                push_line(out, concat_str(d.as_str(), ")"));
            },
            Stmt::VarDecl(v, t) => {
                let a = concat_str(ind.as_str(), "VarDecl(");
                let b = concat_str(a.as_str(), v.as_str());
                let c = concat_str(b.as_str(), ", ");
                let d = concat_str(c.as_str(), t.to_string().as_str());
                push_line(out, concat_str(d.as_str(), ")"));
            },
            Stmt::If(c, b, e) => {
                push_line(out, concat_str(ind.as_str(), "If ("));
                let x = concat_str(ind.as_str(), "  Condition: ");
                push_line(out, concat_str(x.as_str(), c.to_string().as_str()));
                push_line(out, concat_str(ind.as_str(), "  Body: "));
                let ghost o1 = texts(out@);
                (**b).display_into(indent + 2, out);
                let ghost o2 = texts(out@);
                match e {
                    Some(x) => {
                        push_line(out, concat_str(ind.as_str(), "  Else: "));
                        (**x).display_into(indent + 2, out);
                    },
                    None => {},
                }
                let ghost o3 = texts(out@);
                push_line(out, concat_str(ind.as_str(), ")"));
                proof {
                    let tail = match e@ {
                        Some(x) => seq![ind_v + "  Else: "@] + stmt_lines(stmt_view(*x), (indent + 2) as nat),
                        None => Seq::<Seq<char>>::empty(),
                    };
                    assert(o3 =~= o2 + tail);
                    assert(texts(out@) =~= o0 + stmt_lines(self@, indent as nat));
                }
            },
            Stmt::Block(v) => {
                push_line(out, concat_str(ind.as_str(), "Block(["));
                let ghost ss = stmts_view(v@);
                proof {
                    lemma_stmts_view(v@);
                    lemma_block_depth(ss);
                }
                let ghost o1 = texts(out@);
                let mut i: usize = 0;
                while i < v.len()
                    invariant
                        i <= v.len(),
                        *self == Stmt::Block(*v),
                        ss == stmts_view(v@),
                        ss.len() == v@.len(),
                        forall|j: int| 0 <= j < v@.len() ==> #[trigger] ss[j] == stmt_view(v@[j]),
                        forall|j: int| 0 <= j < ss.len() ==> stmt_depth(#[trigger] ss[j]) <= block_depth(ss),
                        indent + 2 * stmt_depth(self@) <= usize::MAX,
                        stmt_depth(self@) == 1 + block_depth(ss),
                        texts(out@) == o1 + block_lines(ss.take(i as int), (indent + 2) as nat),
                    decreases v.len() - i,
                {
                    proof {
                        vstd::std_specs::vec::axiom_vec_index_decreases(*v, i as int);
                        assert(decreases_to!(*self => (*self)->Block_0));
                        assert(decreases_to!(*self => v[i as int]));
                        assert(ss[i as int] == stmt_view(v@[i as int]));
                    }
                    v[i].display_into(indent + 2, out);
                    proof {
                        let t = ss.take(i + 1);
                        assert(t.drop_last() =~= ss.take(i as int));
                        assert(t.last() == ss[i as int]);
                        assert(texts(out@) =~= o1 + block_lines(t, (indent + 2) as nat));
                    }
                    i = i + 1;
                }
                proof {
                    assert(ss.take(v.len() as int) =~= ss);
                }
                push_line(out, concat_str(ind.as_str(), "])"));
                assert(texts(out@) =~= o0 + stmt_lines(self@, indent as nat));
            },
            Stmt::Error(rep) => {
                let a = concat_str(ind.as_str(), "Error(");
                let b = concat_str(a.as_str(), rep.debug_text().as_str());
                push_line(out, concat_str(b.as_str(), ")"));
            },
            Stmt::Return(e) => {
                let a = concat_str(ind.as_str(), "Return(");
                let b = concat_str(a.as_str(), e.to_string().as_str());
                push_line(out, concat_str(b.as_str(), ")"));
            },
            Stmt::Program(n, b) => {
                let a = concat_str(ind.as_str(), n.as_str());
                push_line(out, concat_str(a.as_str(), ":("));
                (**b).display_into(indent + 2, out);
                push_line(out, concat_str(ind.as_str(), ")"));
                assert(texts(out@) =~= o0 + stmt_lines(self@, indent as nat));
            },
        }
    }

    /// Whether statements nest inside this one no deeper than `limit`.
    pub fn nesting_at_most(&self, limit: usize) -> (r: bool)
        ensures
            r == (stmt_depth(self@) <= limit),
        decreases self,
    {
        match self {
            Stmt::If(_, b, e) => {
                if limit == 0 {
                    return false;
                }
                let ok_body = (**b).nesting_at_most(limit - 1);
                let ok_else = match e {
                    Some(x) => (**x).nesting_at_most(limit - 1),
                    None => true,
                };
                ok_body && ok_else
            },
            Stmt::Block(v) => {
                if limit == 0 {
                    return false;
                }
                let ghost ss = stmts_view(v@);
                proof {
                    lemma_stmts_view(v@);
                    lemma_block_depth(ss);
                }
                let mut i: usize = 0;
                while i < v.len()
                    invariant
                        0 < limit,
                        i <= v.len(),
                        *self == Stmt::Block(*v),
                        ss == stmts_view(v@),
                        ss.len() == v@.len(),
                        forall|j: int| 0 <= j < v@.len() ==> #[trigger] ss[j] == stmt_view(v@[j]),
                        forall|j: int| 0 <= j < i ==> stmt_depth(#[trigger] ss[j]) <= limit - 1,
                        forall|j: int| 0 <= j < ss.len() ==> stmt_depth(#[trigger] ss[j]) <= block_depth(ss),
                        stmt_depth(self@) == 1 + block_depth(ss),
                    decreases v.len() - i,
                {
                    proof {
                        vstd::std_specs::vec::axiom_vec_index_decreases(*v, i as int);
                        assert(decreases_to!(*self => (*self)->Block_0));
                        assert(decreases_to!(*self => v[i as int]));
                    }
                    if !v[i].nesting_at_most(limit - 1) {
                        proof {
                            assert(stmt_depth(ss[i as int]) > limit - 1);
                        }
                        return false;
                    }
                    i = i + 1;
                }
                proof {
                    lemma_block_depth_bound(ss, (limit - 1) as nat);
                }
                true
            },
            Stmt::Program(_, b) => {
                if limit == 0 {
                    return false;
                }
                (**b).nesting_at_most(limit - 1)
            },
            _ => true,
        }
    }

    /// The lines that show this statement, indented by `indent` spaces and nested parts by two
    /// more.
    pub fn display(&self, indent: usize) -> (r: Vec<String>)
        requires
            indent + 2 * stmt_depth(self@) <= usize::MAX,
        ensures
            texts(r@) == stmt_lines(self@, indent as nat),
    {
        let mut out: Vec<String> = Vec::new();
        self.display_into(indent, &mut out);
        assert(texts(out@) =~= stmt_lines(self@, indent as nat));
        out
    }
}

} // verus!
