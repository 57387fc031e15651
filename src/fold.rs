//! The constant-folding normaliser.
use vstd::prelude::*;
use vstd::string::StringExecFns;
use crate::ast::{BinOp, Expr, Ident, Lit, Stmt, UnOp};
use crate::environment::{builtin_named, Builtin, Environment, IdentTy};
use crate::error::EngineError;
use crate::visit::operands;
use crate::typeck::{expr_role, lemma_roles_each, roles, ValueType};
use crate::runtime_solver::solve_value;
use crate::numeric::{apply, pure_arith, reduce, Reduction};

verus! {

/// Whether an identifier is the named constant π.
pub open spec fn is_pi(env: Environment, name: Seq<char>) -> bool {
    env.binding(name) == Some(IdentTy::Const) && name == "PI"@
}

/// The builtin that a call target resolves to once parentheses are dropped: an
/// identifier, not bound as a constant, whose name is a builtin.
pub open spec fn callee_builtin<N>(env: Environment, c: Expr<N>) -> Option<Builtin>
    decreases c,
{
    match c {
        Expr::Grouping(i) => callee_builtin(env, *i),
        Expr::Ident(id) => match env.binding(id.name@) {
            Some(IdentTy::Var) | Some(IdentTy::Func) => builtin_named(id.name@),
            _ => None,
        },
        _ => None,
    }
}

/// Whether an expression folds to a single literal.
pub open spec fn is_constant<N>(env: Environment, e: Expr<N>) -> bool
    decreases e,
{
    match e {
        Expr::Binary(l, _, r) => is_constant(env, *l) && is_constant(env, *r),
        Expr::Unary(_, o) => is_constant(env, *o),
        Expr::Call(c, args) => args@.len() == 1 && callee_builtin(env, *c) is Some
            && is_constant(env, args@[0]),
        Expr::Grouping(i) => is_constant(env, *i),
        Expr::Lit(_) => true,
        Expr::Ident(id) => is_pi(env, id.name@),
    }
}

/// The value that a constant expression folds to.
pub open spec fn const_value<N, F: Fn(Reduction<N>) -> N>(env: Environment, f: F, e: Expr<N>) -> N
    decreases e,
{
    match e {
        Expr::Binary(l, op, r) => reduce(
            f,
            Reduction::Binary(const_value(env, f, *l), op, const_value(env, f, *r)),
        ),
        Expr::Unary(op, o) => match op {
            UnOp::Neg => reduce(f, Reduction::Negate(const_value(env, f, *o))),
            UnOp::Pos => const_value(env, f, *o),
        },
        Expr::Call(c, args) => if args@.len() == 1 && callee_builtin(env, *c) is Some {
            reduce(f, Reduction::Apply(callee_builtin(env, *c)->Some_0, const_value(env, f, args@[0])))
        } else {
            arbitrary()
        },
        Expr::Grouping(i) => const_value(env, f, *i),
        Expr::Lit(Lit::Number(v)) => v,
        Expr::Ident(_) => reduce(f, Reduction::Pi),
    }
}

/// The first error that folding meets, children before their parent, left to right.
pub open spec fn fold_error<N>(env: Environment, e: Expr<N>) -> Option<EngineError>
    decreases e,
{
    match e {
        Expr::Binary(l, _, r) => if fold_error(env, *l) is Some {
            fold_error(env, *l)
        } else {
            fold_error(env, *r)
        },
        Expr::Unary(_, o) => fold_error(env, *o),
        Expr::Call(c, args) => if fold_error(env, *c) is Some {
            fold_error(env, *c)
        } else if args@.len() != 1 {
            Some(EngineError::ArityError)
        } else {
            fold_error(env, args@[0])
        },
        Expr::Grouping(i) => fold_error(env, *i),
        Expr::Lit(_) => None,
        Expr::Ident(id) => match env.binding(id.name@) {
            None => Some(EngineError::UnknownIdentifier),
            Some(IdentTy::Const) => if is_pi(env, id.name@) {
                None
            } else {
                Some(EngineError::UnknownIdentifier)
            },
            Some(_) => None,
        },
    }
}

/// `r` is the folded form of `e`: a constant expression becomes one literal of
/// its value; otherwise the node is rebuilt from its folded children, a
/// grouping gives way to its folded inner expression, and an identifier stays.
pub open spec fn folded<N, F: Fn(Reduction<N>) -> N>(env: Environment, f: F, e: Expr<N>, r: Expr<N>) -> bool
    decreases e,
{
    if is_constant(env, e) {
        r == Expr::Lit(Lit::Number(const_value(env, f, e)))
    } else {
        match e {
            Expr::Binary(l, op, rr) => match r {
                Expr::Binary(a, op2, b) => op2 == op && folded(env, f, *l, *a) && folded(env, f, *rr, *b),
                _ => false,
            },
            Expr::Unary(op, o) => match r {
                Expr::Unary(op2, a) => op2 == op && folded(env, f, *o, *a),
                _ => false,
            },
            Expr::Call(c, args) => match r {
                Expr::Call(a, bs) => args@.len() == 1 && bs@.len() == 1 && folded(env, f, *c, *a)
                    && folded(env, f, args@[0], bs@[0]),
                _ => false,
            },
            Expr::Grouping(i) => folded(env, f, *i, r),
            Expr::Ident(id) => match r {
                Expr::Ident(id2) => id2.name@ == id.name@,
                _ => false,
            },
            Expr::Lit(_) => false,
        }
    }
}

/// A folded expression is a literal exactly when the expression it came from was constant.
proof fn lemma_folded_literal<N, F: Fn(Reduction<N>) -> N>(env: Environment, f: F, e: Expr<N>, r: Expr<N>)
    requires
        folded(env, f, e, r),
    ensures
        r is Lit <==> is_constant(env, e),
        r is Lit ==> r == Expr::Lit(Lit::Number(const_value(env, f, e))),
    decreases e,
{
    if !is_constant(env, e) {
        if let Expr::Grouping(i) = e {
            lemma_folded_literal(env, f, *i, r);
        }
    }
}

/// The folded form of a call target names a builtin exactly when the target does.
proof fn lemma_folded_callee<N, F: Fn(Reduction<N>) -> N>(env: Environment, f: F, c: Expr<N>, r: Expr<N>)
    requires
        folded(env, f, c, r),
        fold_error(env, c) is None,
    ensures
        callee_builtin(env, c) == (match r {
            Expr::Ident(id) => builtin_named(id.name@),
            _ => None,
        }),
    decreases c,
{
    match c {
        Expr::Grouping(i) => {
            lemma_folded_callee(env, f, *i, r);
        },
        _ => {},
    }
}

/// Folds an expression.
pub fn fold_expr<N: Copy, F: Fn(Reduction<N>) -> N>(env: &Environment, f: &F, e: &Expr<N>) -> (r: Result<Expr<N>, EngineError>)
    requires
        pure_arith(*f),
    ensures
        match fold_error(*env, *e) {
            Some(x) => r == Err::<Expr<N>, EngineError>(x),
            None => r is Ok && folded(*env, *f, *e, r->Ok_0),
        },
    decreases e,
{
    match e {
        Expr::Binary(l, op, rr) => {
            let a = match fold_expr(env, f, l) {
                Err(x) => return Err(x),
                Ok(a) => a,
            };
            let b = match fold_expr(env, f, rr) {
                Err(x) => return Err(x),
                Ok(b) => b,
            };
            proof {
                lemma_folded_literal(*env, *f, **l, a);
                lemma_folded_literal(*env, *f, **rr, b);
            }
            match (a, b) {
                (Expr::Lit(Lit::Number(x)), Expr::Lit(Lit::Number(y))) => {
                    Ok(Expr::Lit(Lit::Number(apply(f, Reduction::Binary(x, *op, y)))))
                },
                (a, b) => Ok(Expr::Binary(Box::new(a), *op, Box::new(b))),
            }
        },
        Expr::Unary(op, o) => {
            let a = match fold_expr(env, f, o) {
                Err(x) => return Err(x),
                Ok(a) => a,
            };
            proof {
                lemma_folded_literal(*env, *f, **o, a);
            }
            match a {
                Expr::Lit(Lit::Number(x)) => match op {
                    UnOp::Neg => Ok(Expr::Lit(Lit::Number(apply(f, Reduction::Negate(x))))),
                    UnOp::Pos => Ok(Expr::Lit(Lit::Number(x))),
                },
                a => Ok(Expr::Unary(*op, Box::new(a))),
            }
        },
        Expr::Call(c, args) => {
            let cc = match fold_expr(env, f, c) {
                Err(x) => return Err(x),
                Ok(cc) => cc,
            };
            if args.len() != 1 {
                return Err(EngineError::ArityError);
            }
            proof {
                assert(decreases_to!(*e => args@[0]));
            }
            let a = match fold_expr(env, f, &args[0]) {
                Err(x) => return Err(x),
                Ok(a) => a,
            };
            proof {
                lemma_folded_literal(*env, *f, args@[0], a);
                lemma_folded_callee(*env, *f, **c, cc);
            }
            match a {
                Expr::Lit(Lit::Number(x)) => {
                    let b = match &cc {
                        Expr::Ident(id) => Builtin::from_name(&id.name),
                        _ => None,
                    };
                    match b {
                        Some(b) => Ok(Expr::Lit(Lit::Number(apply(f, Reduction::Apply(b, x))))),
                        None => Ok(Expr::Call(Box::new(cc), vec![Expr::Lit(Lit::Number(x))])),
                    }
                },
                a => Ok(Expr::Call(Box::new(cc), vec![a])),
            }
        },
        Expr::Grouping(i) => fold_expr(env, f, i),
        Expr::Lit(Lit::Number(x)) => Ok(Expr::Lit(Lit::Number(*x))),
        Expr::Ident(id) => match env.get(&id.name) {
            None => Err(EngineError::UnknownIdentifier),
            Some(IdentTy::Const) => {
                if id.name == String::from_str("PI") {
                    Ok(Expr::Lit(Lit::Number(apply(f, Reduction::Pi))))
                } else {
                    Err(EngineError::UnknownIdentifier)
                }
            },
            Some(_) => Ok(Expr::Ident(id.duplicate())),
        },
    }
}

/// A tree built only from literals and the constant π with the arithmetic
/// operators, negation, unary plus and parentheses.
pub open spec fn literal_only<N>(env: Environment, e: Expr<N>) -> bool
    decreases e,
{
    match e {
        Expr::Binary(l, _, r) => literal_only(env, *l) && literal_only(env, *r),
        Expr::Unary(_, o) => literal_only(env, *o),
        Expr::Grouping(i) => literal_only(env, *i),
        Expr::Lit(_) => true,
        Expr::Ident(id) => is_pi(env, id.name@),
        Expr::Call(..) => false,
    }
}

/// Folding a tree of literals, whatever its shape, succeeds and yields exactly
/// one literal node.
pub proof fn lemma_literal_tree_folds_to_literal<N, F: Fn(Reduction<N>) -> N>(
    env: Environment,
    f: F,
    e: Expr<N>,
)
    requires
        literal_only(env, e),
    ensures
        fold_error(env, e) is None,
        is_constant(env, e),
        forall|r: Expr<N>| #[trigger] folded(env, f, e, r) <==> r == Expr::Lit(Lit::Number(const_value(env, f, e))),
    decreases e,
{
    match e {
        Expr::Binary(l, _, r) => {
            lemma_literal_tree_folds_to_literal(env, f, *l);
            lemma_literal_tree_folds_to_literal(env, f, *r);
        },
        Expr::Unary(_, o) => {
            lemma_literal_tree_folds_to_literal(env, f, *o);
        },
        Expr::Grouping(i) => {
            lemma_literal_tree_folds_to_literal(env, f, *i);
        },
        _ => {},
    }
}

/// The first fold error among a sequence of expressions.
pub open spec fn first_fold_error<N>(env: Environment, es: Seq<Expr<N>>) -> Option<EngineError>
    decreases es.len(),
{
    if es.len() == 0 {
        None
    } else if first_fold_error(env, es.subrange(0, es.len() - 1)) is Some {
        first_fold_error(env, es.subrange(0, es.len() - 1))
    } else {
        fold_error(env, es[es.len() - 1])
    }
}

proof fn lemma_fold_error_extends<N>(env: Environment, es: Seq<Expr<N>>, i: int)
    requires
        0 <= i <= es.len(),
        first_fold_error(env, es.subrange(0, i)) is Some,
    ensures
        first_fold_error(env, es) == first_fold_error(env, es.subrange(0, i)),
    decreases es.len() - i,
{
    if i < es.len() {
        assert(es.subrange(0, i + 1).subrange(0, i) =~= es.subrange(0, i));
        lemma_fold_error_extends(env, es, i + 1);
    } else {
        assert(es.subrange(0, i) =~= es);
    }
}

/// Whether two statements are of the same kind.
pub open spec fn same_kind<N>(s: Stmt<N>, r: Stmt<N>) -> bool {
    match (s, r) {
        (Stmt::Draw(..), Stmt::Draw(..)) => true,
        (Stmt::Rot(..), Stmt::Rot(..)) => true,
        (Stmt::Scale(..), Stmt::Scale(..)) => true,
        (Stmt::Origin(..), Stmt::Origin(..)) => true,
        (Stmt::EOI, Stmt::EOI) => true,
        _ => false,
    }
}

/// `r` is `s` with every operand folded.
pub open spec fn stmt_folded<N, F: Fn(Reduction<N>) -> N>(env: Environment, f: F, s: Stmt<N>, r: Stmt<N>) -> bool {
    &&& same_kind(s, r)
    &&& forall|i: int| 0 <= i < operands(s).len()
        ==> folded(env, f, #[trigger] operands(s)[i], operands(r)[i])
}

/// A statement of the same kind as `s` with the given operands.
fn rebuild<N>(s: &Stmt<N>, out: Vec<Expr<N>>) -> (r: Stmt<N>)
    requires
        out@.len() == operands(*s).len(),
    ensures
        same_kind(*s, r),
        operands(r) == out@,
{
    let ghost v = out@;
    let mut out = out;
    let r = match s {
        Stmt::Draw(..) => {
            let y = out.pop().unwrap();
            let x = out.pop().unwrap();
            let step = out.pop().unwrap();
            let to = out.pop().unwrap();
            let from = out.pop().unwrap();
            let target = out.pop().unwrap();
            Stmt::Draw(Box::new(target), Box::new(from), Box::new(to), Box::new(step), Box::new(x), Box::new(y))
        },
        Stmt::Rot(..) => {
            let a = out.pop().unwrap();
            Stmt::Rot(Box::new(a))
        },
        Stmt::Scale(..) => {
            let b = out.pop().unwrap();
            let a = out.pop().unwrap();
            Stmt::Scale(Box::new(a), Box::new(b))
        },
        Stmt::Origin(..) => {
            let b = out.pop().unwrap();
            let a = out.pop().unwrap();
            Stmt::Origin(Box::new(a), Box::new(b))
        },
        Stmt::EOI => Stmt::EOI,
    };
    assert(operands(r) =~= v);
    r
}

/// Folds every operand of a statement, in visiting order.
pub fn fold_stmt<N: Copy, F: Fn(Reduction<N>) -> N>(env: &Environment, f: &F, s: &Stmt<N>) -> (r: Result<Stmt<N>, EngineError>)
    requires
        pure_arith(*f),
    ensures
        match first_fold_error(*env, operands(*s)) {
            Some(x) => r == Err::<Stmt<N>, EngineError>(x),
            None => r is Ok && stmt_folded(*env, *f, *s, r->Ok_0),
        },
{
    let ghost ops_s = operands(*s);
    let ops = s.operands();
    let mut out: Vec<Expr<N>> = Vec::new();
    let mut i: usize = 0;
    assert(ops_s.subrange(0, 0) =~= Seq::<Expr<N>>::empty());
    while i < ops.len()
        invariant
            i <= ops@.len(),
            ops@.len() == ops_s.len(),
            forall|m: int| 0 <= m < ops@.len() ==> *ops@[m] == #[trigger] ops_s[m],
            ops_s == operands(*s),
            pure_arith(*f),
            out@.len() == i,
            first_fold_error(*env, ops_s.subrange(0, i as int)) is None,
            forall|m: int| 0 <= m < i ==> folded(*env, *f, #[trigger] ops_s[m], out@[m]),
        decreases ops@.len() - i,
    {
        assert(ops_s.subrange(0, i + 1).subrange(0, i as int) =~= ops_s.subrange(0, i as int));
        match fold_expr(env, f, ops[i]) {
            Err(x) => {
                proof {
                    lemma_fold_error_extends(*env, ops_s, i + 1);
                }
                return Err(x);
            },
            Ok(a) => {
                out.push(a);
            },
        }
        i += 1;
    }
    assert(ops_s.subrange(0, ops_s.len() as int) =~= ops_s);
    let r = rebuild(s, out);
    Ok(r)
}

/// Whether every call in `e` has a target that names a builtin, so that it
/// can be evaluated.
pub open spec fn callees_resolve<N>(env: Environment, e: Expr<N>) -> bool
    decreases e,
{
    match e {
        Expr::Binary(l, _, r) => callees_resolve(env, *l) && callees_resolve(env, *r),
        Expr::Unary(_, o) => callees_resolve(env, *o),
        Expr::Call(c, args) => callee_builtin(env, *c) is Some && forall|i: int|
            0 <= i < args@.len() ==> callees_resolve(env, #[trigger] args@[i]),
        Expr::Grouping(i) => callees_resolve(env, *i),
        Expr::Lit(_) => true,
        Expr::Ident(_) => true,
    }
}

/// An expression that the checker judges constant, that folds without error,
/// and whose calls all name builtins, folds to a single literal.
pub proof fn lemma_checked_constant_folds_to_literal<N>(env: Environment, e: Expr<N>)
    requires
        expr_role(env, e) == Ok::<ValueType, EngineError>(ValueType::Const),
        fold_error(env, e) is None,
        callees_resolve(env, e),
    ensures
        is_constant(env, e),
    decreases e,
{
    match e {
        Expr::Binary(l, _, r) => {
            lemma_checked_constant_folds_to_literal(env, *l);
            lemma_checked_constant_folds_to_literal(env, *r);
        },
        Expr::Unary(_, o) => {
            lemma_checked_constant_folds_to_literal(env, *o);
        },
        Expr::Grouping(i) => {
            lemma_checked_constant_folds_to_literal(env, *i);
        },
        Expr::Call(c, args) => {
            let rs = roles(env, args@)->Ok_0;
            lemma_roles_each(env, args@);
            assert(expr_role(env, args@[0]) == Ok::<ValueType, EngineError>(rs[0]));
            lemma_checked_constant_folds_to_literal(env, args@[0]);
        },
        _ => {},
    }
}

/// No operand of a sequence fails to fold when the sequence does not.
pub proof fn lemma_fold_error_each<N>(env: Environment, es: Seq<Expr<N>>)
    requires
        first_fold_error(env, es) is None,
    ensures
        forall|i: int| 0 <= i < es.len() ==> #[trigger] fold_error(env, es[i]) is None,
    decreases es.len(),
{
    if es.len() > 0 {
        let p = es.subrange(0, es.len() - 1);
        lemma_fold_error_each(env, p);
        assert forall|i: int| 0 <= i < es.len() implies #[trigger] fold_error(env, es[i]) is None by {
            if i < es.len() - 1 {
                assert(p[i] == es[i]);
            }
        }
    }
}

/// The value of an expression when the variable has the value `t`, evaluated
/// directly: the constant π for `PI`, `t` for any other name, and a call
/// through the builtin its target names.
pub open spec fn expr_value<N, F: Fn(Reduction<N>) -> N>(env: Environment, f: F, e: Expr<N>, t: N) -> N
    decreases e,
{
    match e {
        Expr::Binary(l, op, r) => reduce(
            f,
            Reduction::Binary(expr_value(env, f, *l, t), op, expr_value(env, f, *r, t)),
        ),
        Expr::Unary(op, o) => match op {
            UnOp::Neg => reduce(f, Reduction::Negate(expr_value(env, f, *o, t))),
            UnOp::Pos => expr_value(env, f, *o, t),
        },
        Expr::Call(c, args) => if args@.len() == 1 && callee_builtin(env, *c) is Some {
            reduce(f, Reduction::Apply(callee_builtin(env, *c)->Some_0, expr_value(env, f, args@[0], t)))
        } else {
            arbitrary()
        },
        Expr::Grouping(i) => expr_value(env, f, *i, t),
        Expr::Lit(Lit::Number(v)) => v,
        Expr::Ident(id) => if is_pi(env, id.name@) {
            reduce(f, Reduction::Pi)
        } else {
            t
        },
    }
}

/// A constant expression has its folded value whatever the variable holds.
proof fn lemma_constant_value<N, F: Fn(Reduction<N>) -> N>(env: Environment, f: F, e: Expr<N>, t: N)
    requires
        is_constant(env, e),
    ensures
        const_value(env, f, e) == expr_value(env, f, e, t),
    decreases e,
{
    match e {
        Expr::Binary(l, _, r) => {
            lemma_constant_value(env, f, *l, t);
            lemma_constant_value(env, f, *r, t);
        },
        Expr::Unary(_, o) => {
            lemma_constant_value(env, f, *o, t);
        },
        Expr::Call(_, args) => {
            lemma_constant_value(env, f, args@[0], t);
        },
        Expr::Grouping(i) => {
            lemma_constant_value(env, f, *i, t);
        },
        _ => {},
    }
}

/// Folding keeps the value: wherever every call names a builtin, the folded
/// expression evaluated per sample gives what the expression itself gives,
/// for every value of the variable.
pub proof fn lemma_folding_keeps_value<N, F: Fn(Reduction<N>) -> N>(
    env: Environment,
    f: F,
    e: Expr<N>,
    r: Expr<N>,
    t: N,
)
    requires
        fold_error(env, e) is None,
        callees_resolve(env, e),
        folded(env, f, e, r),
    ensures
        solve_value(f, r, t) == expr_value(env, f, e, t),
    decreases e,
{
    if is_constant(env, e) {
        lemma_constant_value(env, f, e, t);
    } else {
        match e {
            Expr::Binary(l, _, rr) => {
                let (a, b) = match r {
                    Expr::Binary(a, _, b) => (*a, *b),
                    _ => (r, r),
                };
                lemma_folding_keeps_value(env, f, *l, a, t);
                lemma_folding_keeps_value(env, f, *rr, b, t);
            },
            Expr::Unary(_, o) => {
                let a = match r {
                    Expr::Unary(_, a) => *a,
                    _ => r,
                };
                lemma_folding_keeps_value(env, f, *o, a, t);
            },
            Expr::Call(c, args) => {
                let (a, bs) = match r {
                    Expr::Call(a, bs) => (*a, bs),
                    _ => (r, args),
                };
                assert(callees_resolve(env, args@[0]));
                lemma_folded_callee(env, f, *c, a);
                lemma_folding_keeps_value(env, f, args@[0], bs@[0], t);
            },
            Expr::Grouping(i) => {
                lemma_folding_keeps_value(env, f, *i, r, t);
            },
            _ => {},
        }
    }
}

} // verus!
