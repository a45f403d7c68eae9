use vstd::prelude::*;
use crate::numparse::{int_error_text, parse_i64, read_i64};
use crate::reporting::{Reporting, ReportingView};
use crate::text::{concat_str, str_eq};

verus! {

/// The binary operators of expressions.
#[derive(Clone, Copy, Debug, PartialEq, Eq, Structural)]
pub enum BinOp {
    Add,
    Sub,
    Mul,
    Div,
    Greater,
    Less,
    Greater_Equal,
    Less_Equal,
    Check_Equal,
}

/// The operator named by a token kind's name, or `None` for any other text.
pub open spec fn binop_of(op_str: Seq<char>) -> Option<BinOp> {
    if op_str == "PLUS"@ {
        Some(BinOp::Add)
    } else if op_str == "MINUS"@ {
        Some(BinOp::Sub)
    } else if op_str == "TIMES"@ {
        Some(BinOp::Mul)
    } else if op_str == "DIVIDE"@ {
        Some(BinOp::Div)
    } else if op_str == "GREATER"@ {
        Some(BinOp::Greater)
    } else if op_str == "LESS"@ {
        Some(BinOp::Less)
    } else if op_str == "GREATER_EQUAL"@ {
        Some(BinOp::Greater_Equal)
    } else if op_str == "LESS_EQUAL"@ {
        Some(BinOp::Less_Equal)
    } else if op_str == "CHECK_EQUALS"@ {
        Some(BinOp::Check_Equal)
    } else {
        None
    }
}

/// The symbol an operator is printed with.
pub open spec fn binop_symbol(op: BinOp) -> Seq<char> {
    match op {
        BinOp::Add => "+"@,
        BinOp::Sub => "-"@,
        BinOp::Mul => "*"@,
        BinOp::Div => "/"@,
        BinOp::Greater => ">"@,
        BinOp::Less => "<"@,
        BinOp::Greater_Equal => ">="@,
        BinOp::Less_Equal => "<="@,
        BinOp::Check_Equal => "=="@,
    }
}

impl BinOp {
    /// The operator for a token kind's name; an error naming any other text.
    pub fn new(op_str: &str) -> (r: Result<BinOp, String>)
        ensures
            match binop_of(op_str@) {
                Some(op) => r == Ok::<BinOp, String>(op),
                None => r matches Err(m) && m@ == "Unsupported operator: "@ + op_str@,
            },
    {
        if str_eq(op_str, "PLUS") {
            Ok(BinOp::Add)
        } else if str_eq(op_str, "MINUS") {
            Ok(BinOp::Sub)
        } else if str_eq(op_str, "TIMES") {
            Ok(BinOp::Mul)
        } else if str_eq(op_str, "DIVIDE") {
            Ok(BinOp::Div)
        } else if str_eq(op_str, "GREATER") {
            Ok(BinOp::Greater)
        } else if str_eq(op_str, "LESS") {
            Ok(BinOp::Less)
        } else if str_eq(op_str, "GREATER_EQUAL") {
            Ok(BinOp::Greater_Equal)
        } else if str_eq(op_str, "LESS_EQUAL") {
            Ok(BinOp::Less_Equal)
        } else if str_eq(op_str, "CHECK_EQUALS") {
            Ok(BinOp::Check_Equal)
        } else {
            Err(concat_str("Unsupported operator: ", op_str))
        }
    }

    /// The symbol this operator is printed with.
    pub fn symbol(&self) -> (r: String)
        ensures
            r@ == binop_symbol(*self),
    {
        match self {
            BinOp::Add => String::from_str("+"),
            BinOp::Sub => String::from_str("-"),
            BinOp::Mul => String::from_str("*"),
            BinOp::Div => String::from_str("/"),
            BinOp::Greater => String::from_str(">"),
            BinOp::Less => String::from_str("<"),
            BinOp::Greater_Equal => String::from_str(">="),
            BinOp::Less_Equal => String::from_str("<="),
            BinOp::Check_Equal => String::from_str("=="),
        }
    }
}

/// The abstract form of an expression.
pub enum ExprV {
    IntLiteral(int),
    StringLiteral(Seq<char>),
    BinOp(Box<ExprV>, BinOp, Box<ExprV>),
    VarRef(Seq<char>),
}

/// Expressions.
#[derive(Debug)]
pub enum Expr {
    IntLiteral(i64),
    StringLiteral(String),
    BinOp(Box<Expr>, BinOp, Box<Expr>),
    VarRef(String),
}

/// The abstract form of an expression.
pub open spec fn expr_view(e: Expr) -> ExprV
    decreases e,
{
    match e {
        Expr::IntLiteral(i) => ExprV::IntLiteral(i as int),
        Expr::StringLiteral(s) => ExprV::StringLiteral(s@),
        Expr::BinOp(l, op, r) => ExprV::BinOp(Box::new(expr_view(*l)), op, Box::new(expr_view(*r))),
        Expr::VarRef(s) => ExprV::VarRef(s@),
    }
}

impl View for Expr {
    type V = ExprV;

    open spec fn view(&self) -> ExprV {
        expr_view(*self)
    }
}

impl Clone for Expr {
    fn clone(&self) -> (r: Expr)
        ensures
            r@ == self@,
        decreases self,
    {
        match self {
            Expr::IntLiteral(i) => Expr::IntLiteral(*i),
            Expr::StringLiteral(s) => Expr::StringLiteral(s.clone()),
            Expr::BinOp(l, op, r) => {
                let l2 = (**l).clone();
                let r2 = (**r).clone();
                Expr::BinOp(Box::new(l2), *op, Box::new(r2))
            },
            Expr::VarRef(s) => Expr::VarRef(s.clone()),
        }
    }
}

/// What `Expr::new` builds from its arguments, or the error it reports.
pub open spec fn expr_new_result(
    expr_type: Seq<char>,
    param1: Option<Seq<char>>,
    param2: Option<Seq<char>>,
    param3: Option<ExprV>,
    param4: Option<ExprV>,
) -> Result<ExprV, Seq<char>> {
    if expr_type == "IntLiteral"@ {
        match param1 {
            None => Err("IntLiteral requires an integer parameter"@),
            Some(p) => match read_i64(p) {
                Ok(v) => Ok(ExprV::IntLiteral(v)),
                Err(k) => Err("Failed to parse integer: "@ + int_error_text(k)),
            },
        }
    } else if expr_type == "StringLiteral"@ {
        match param2 {
            None => Err("StringLiteral requires a string parameter"@),
            Some(p) => Ok(ExprV::StringLiteral(p)),
        }
    } else if expr_type == "BinOp"@ {
        match param3 {
            None => Err("BinOp requires a left operand"@),
            Some(left) => match left {
                ExprV::BinOp(_, op, _) => match param4 {
                    None => Err("BinOp requires a right operand"@),
                    Some(right) => Ok(ExprV::BinOp(Box::new(left), op, Box::new(right))),
                },
                _ => Err("BinOp requires a BinOp enum as the left operand"@),
            },
        }
    } else if expr_type == "VarRef"@ {
        match param2 {
            None => Err("VarRef requires a variable name"@),
            Some(p) => Ok(ExprV::VarRef(p)),
        }
    } else {
        Err("Invalid expression type"@)
    }
}

/// The view of an optional string argument.
pub open spec fn opt_str(p: Option<&str>) -> Option<Seq<char>> {
    match p {
        Some(s) => Some(s@),
        None => None,
    }
}

/// The view of an optional boxed expression.
pub open spec fn opt_expr(p: Option<Box<Expr>>) -> Option<ExprV> {
    match p {
        Some(e) => Some(e@),
        None => None,
    }
}

impl Expr {
    /// Builds an expression of the named kind from the parameters that kind uses: an
    /// integer text, a string, or a left and right operand (the left being itself an
    /// operation, whose operator the new one takes).
    pub fn new(
        expr_type: &str,
        param1: Option<&str>,
        param2: Option<&str>,
        param3: Option<Box<Expr>>,
        param4: Option<Box<Expr>>,
    ) -> (r: Result<Expr, String>)
        ensures
            match expr_new_result(expr_type@, opt_str(param1), opt_str(param2), opt_expr(param3), opt_expr(param4)) {
                Ok(e) => r matches Ok(x) && x@ == e,
                Err(m) => r matches Err(x) && x@ == m,
            },
    {
        if str_eq(expr_type, "IntLiteral") {
            match param1 {
                None => Err(String::from_str("IntLiteral requires an integer parameter")),
                Some(value_str) => match parse_i64(value_str) {
                    Ok(value) => Ok(Expr::IntLiteral(value)),
                    Err(e) => {
                        let m = e.message();
                        Err(concat_str("Failed to parse integer: ", m.as_str()))
                    },
                },
            }
        } else if str_eq(expr_type, "StringLiteral") {
            match param2 {
                None => Err(String::from_str("StringLiteral requires a string parameter")),
                Some(value) => Ok(Expr::StringLiteral(String::from_str(value))),
            }
        } else if str_eq(expr_type, "BinOp") {
            match param3 {
                None => Err(String::from_str("BinOp requires a left operand")),
                Some(left) => {
                    let op = match &*left {
                        Expr::BinOp(_, op, _) => *op,
                        _ => {
                            return Err(String::from_str("BinOp requires a BinOp enum as the left operand"));
                        },
                    };
                    match param4 {
                        None => Err(String::from_str("BinOp requires a right operand")),
                        Some(right) => Ok(Expr::BinOp(Box::new((*left).clone()), op, Box::new((*right).clone()))),
                    }
                },
            }
        } else if str_eq(expr_type, "VarRef") {
            match param2 {
                None => Err(String::from_str("VarRef requires a variable name")),
                Some(var_name) => Ok(Expr::VarRef(String::from_str(var_name))),
            }
        } else {
            Err(String::from_str("Invalid expression type"))
        }
    }
}

/// The abstract form of a variable type.
pub enum VarTypeV {
    Int(int),
    Bool(bool),
    Float,
    Str(Seq<char>),
    IntArray(Seq<i32>),
}

/// The types a variable can be declared with, each with a value. A floating-point variable
/// is only ever created with the value zero, so `Float` holds no number.
#[derive(Debug)]
pub enum VarType {
    Int(i64),
    Bool(bool),
    Float,
    Str(String),
    IntArray(Vec<i32>),
}

impl View for VarType {
    type V = VarTypeV;

    open spec fn view(&self) -> VarTypeV {
        match self {
            VarType::Int(i) => VarTypeV::Int(*i as int),
            VarType::Bool(b) => VarTypeV::Bool(*b),
            VarType::Float => VarTypeV::Float,
            VarType::Str(s) => VarTypeV::Str(s@),
            VarType::IntArray(v) => VarTypeV::IntArray(v@),
        }
    }
}

impl Clone for VarType {
    fn clone(&self) -> (r: VarType)
        ensures
            r@ == self@,
    {
        match self {
            VarType::Int(i) => VarType::Int(*i),
            VarType::Bool(b) => VarType::Bool(*b),
            VarType::Float => VarType::Float,
            VarType::Str(s) => VarType::Str(s.clone()),
            VarType::IntArray(v) => VarType::IntArray(v.clone()),
        }
    }
}

/// The variable type named by a type word, with its initial value, or `None` for any other text.
pub open spec fn var_type_of(type_str: Seq<char>) -> Option<VarTypeV> {
    if type_str == "integer"@ {
        Some(VarTypeV::Int(0))
    } else if type_str == "bool"@ {
        Some(VarTypeV::Bool(false))
    } else if type_str == "float"@ {
        Some(VarTypeV::Float)
    } else if type_str == "string"@ {
        Some(VarTypeV::Str(Seq::empty()))
    } else if type_str == "int[]"@ {
        Some(VarTypeV::IntArray(Seq::empty()))
    } else {
        None
    }
}

impl VarType {
    /// The type named by a type word, holding its initial value; an error naming any other text.
    pub fn new(typeStr: &str) -> (r: Result<VarType, String>)
        ensures
            match var_type_of(typeStr@) {
                Some(t) => r matches Ok(x) && x@ == t,
                None => r matches Err(m) && m@ == "Unsupported var type: "@ + typeStr@,
            },
    {
        if str_eq(typeStr, "integer") {
            Ok(VarType::Int(0))
        } else if str_eq(typeStr, "bool") {
            Ok(VarType::Bool(false))
        } else if str_eq(typeStr, "float") {
            Ok(VarType::Float)
        } else if str_eq(typeStr, "string") {
            Ok(VarType::Str(String::new()))
        } else if str_eq(typeStr, "int[]") {
            let v: Vec<i32> = Vec::new();
            Ok(VarType::IntArray(v))
        } else {
            Err(concat_str("Unsupported var type: ", typeStr))
        }
    }
}

/// The abstract form of a statement.
pub enum StmtV {
    StringLiteral(Seq<char>),
    Expr(ExprV),
    Assign(Seq<char>, ExprV),
    VarDecl(Seq<char>, VarTypeV),
    If(ExprV, Box<StmtV>, Option<Box<StmtV>>),
    Block(Seq<StmtV>),
    Error(ReportingView),
    Return(ExprV),
    Program(Seq<char>, Box<StmtV>),
}

/// Statements; a block holds a list of statements and a program a name and a body.
#[derive(Debug)]
pub enum Stmt {
    StringLiteral(String),
    Expr(Expr),
    Assign(String, Expr),
    VarDecl(String, VarType),
    If(Expr, Box<Stmt>, Option<Box<Stmt>>),
    Block(Vec<Stmt>),
    Error(Reporting),
    Return(Expr),
    Program(String, Box<Stmt>),
}

/// The abstract form of a statement.
pub open spec fn stmt_view(s: Stmt) -> StmtV
    decreases s,
{
    match s {
        Stmt::StringLiteral(t) => StmtV::StringLiteral(t@),
        Stmt::Expr(e) => StmtV::Expr(e@),
        Stmt::Assign(n, e) => StmtV::Assign(n@, e@),
        Stmt::VarDecl(n, t) => StmtV::VarDecl(n@, t@),
        Stmt::If(c, b, e) => StmtV::If(
            c@,
            Box::new(stmt_view(*b)),
            match e {
                Some(x) => Some(Box::new(stmt_view(*x))),
                None => None,
            },
        ),
        Stmt::Block(v) => {
            proof {
                vstd::std_specs::vec::axiom_vec_decreases_to_view(v);
            }
            StmtV::Block(stmts_view(v@))
        },
        Stmt::Error(r) => StmtV::Error(r@),
        Stmt::Return(e) => StmtV::Return(e@),
        Stmt::Program(n, b) => StmtV::Program(n@, Box::new(stmt_view(*b))),
    }
}

/// The abstract forms of a list of statements.
pub open spec fn stmts_view(v: Seq<Stmt>) -> Seq<StmtV>
    decreases v,
{
    if v.len() == 0 {
        Seq::empty()
    } else {
        proof {
            vstd::seq::axiom_seq_index_decreases(v, v.len() - 1);
            vstd::seq::axiom_seq_subrange_decreases(v, 0, v.len() - 1);
        }
        stmts_view(v.drop_last()).push(stmt_view(v.last()))
    }
}

/// The abstract forms of a list of statements, one by one.
pub proof fn lemma_stmts_view(v: Seq<Stmt>)
    ensures
        stmts_view(v).len() == v.len(),
        forall|j: int| 0 <= j < v.len() ==> #[trigger] stmts_view(v)[j] == stmt_view(v[j]),
    decreases v.len(),
{
    if v.len() > 0 {
        lemma_stmts_view(v.drop_last());
        assert forall|j: int| 0 <= j < v.len() implies #[trigger] stmts_view(v)[j] == stmt_view(v[j]) by {
            if j < v.len() - 1 {
                assert(v.drop_last()[j] == v[j]);
            }
        }
    }
}

impl View for Stmt {
    type V = StmtV;

    open spec fn view(&self) -> StmtV {
        stmt_view(*self)
    }
}

impl Clone for Stmt {
    fn clone(&self) -> (r: Stmt)
        ensures
            r@ == self@,
        decreases self,
    {
        match self {
            Stmt::StringLiteral(t) => Stmt::StringLiteral(t.clone()),
            Stmt::Expr(e) => Stmt::Expr(e.clone()),
            Stmt::Assign(n, e) => Stmt::Assign(n.clone(), e.clone()),
            Stmt::VarDecl(n, t) => Stmt::VarDecl(n.clone(), t.clone()),
            Stmt::If(c, b, e) => {
                let b2 = (**b).clone();
                let e2 = match e {
                    Some(x) => Some(Box::new((**x).clone())),
                    None => None,
                };
                Stmt::If(c.clone(), Box::new(b2), e2)
            },
            Stmt::Block(v) => {
                let mut r: Vec<Stmt> = Vec::new();
                let mut i: usize = 0;
                while i < v.len()
                    invariant
                        i <= v.len(),
                        *self == Stmt::Block(*v),
                        stmts_view(r@) == stmts_view(v@.take(i as int)),
                    decreases v.len() - i,
                {
                    proof {
                        vstd::std_specs::vec::axiom_vec_index_decreases(*v, i as int);
                        assert(decreases_to!(*self => (*self)->Block_0));
                        assert(decreases_to!(*self => v[i as int]));
                    }
                    let x = v[i].clone();
                    let ghost before = r@;
                    r.push(x);
                    proof {
                        assert(r@.drop_last() =~= before);
                        assert(v@.take(i + 1).drop_last() =~= v@.take(i as int));
                    }
                    i = i + 1;
                }
                assert(v@.take(v.len() as int) =~= v@);
                Stmt::Block(r)
            },
            Stmt::Error(rep) => Stmt::Error(rep.clone()),
            Stmt::Return(e) => Stmt::Return(e.clone()),
            Stmt::Program(n, b) => Stmt::Program(n.clone(), Box::new((**b).clone())),
        }
    }
}

impl Stmt {
    /// Appends `stmt` to a block; any other statement is left as it is and an error returned.
    pub fn push_to_block(&mut self, stmt: Stmt) -> (r: Result<(), String>)
        ensures
            match *old(self) {
                Stmt::Block(v) => r is Ok && final(self)@ == StmtV::Block(stmts_view(v@).push(stmt@)),
                _ => r matches Err(m) && m@ == "Cannot push to a non-Block statement"@ && *final(self) == *old(self),
            },
    {
        match self {
            Stmt::Block(stmts) => {
                let ghost before = stmts@;
                stmts.push(stmt);
                proof {
                    assert(stmts@.drop_last() =~= before);
                    assert(stmts_view(stmts@) == stmts_view(before).push(stmt@));
                }
                Ok(())
            },
            _ => Err(String::from_str("Cannot push to a non-Block statement")),
        }
    }
}

/// A program: its name, its statements and what was reported while reading it.
#[derive(Debug)]
pub struct Program {
    pub name: String,
    pub statements: Vec<Stmt>,
    pub report: Reporting,
}

} // verus!
