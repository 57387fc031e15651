//! Per-sample evaluation of the residual expressions of a draw.
use vstd::prelude::*;
use crate::ast::{Expr, Lit, UnOp};
use crate::environment::{builtin_named, default_binding, Builtin, Environment, IdentTy};
use crate::error::EngineError;
use crate::numeric::{apply, pure_arith, reduce, Reduction};

verus! {

/// Whether a call target is a bare identifier bound as a function that names a builtin.
pub open spec fn solvable_callee<N>(env: Environment, c: Expr<N>) -> bool {
    match c {
        Expr::Ident(id) => env.binding(id.name@) == Some(IdentTy::Func) && builtin_named(id.name@) is Some,
        _ => false,
    }
}

/// Why an expression cannot be evaluated per sample, if it cannot: an
/// identifier other than the variable, a call whose target is not a builtin,
/// or a call with other than one argument. Children come before their parent.
pub open spec fn solve_error<N>(env: Environment, e: Expr<N>) -> Option<EngineError>
    decreases e,
{
    match e {
        Expr::Binary(l, _, r) => if solve_error(env, *l) is Some {
            solve_error(env, *l)
        } else {
            solve_error(env, *r)
        },
        Expr::Unary(_, o) => solve_error(env, *o),
        Expr::Call(c, args) => if !solvable_callee(env, *c) {
            Some(EngineError::RoleError)
        } else if args@.len() != 1 {
            Some(EngineError::ArityError)
        } else {
            solve_error(env, args@[0])
        },
        Expr::Grouping(i) => solve_error(env, *i),
        Expr::Lit(_) => None,
        Expr::Ident(id) => if env.binding(id.name@) == Some(IdentTy::Var) {
            None
        } else {
            Some(EngineError::RoleError)
        },
    }
}

/// The value of an expression when the variable has the value `t`.
pub open spec fn solve_value<N, F: Fn(Reduction<N>) -> N>(f: F, e: Expr<N>, t: N) -> N
    decreases e,
{
    match e {
        Expr::Binary(l, op, r) => reduce(f, Reduction::Binary(solve_value(f, *l, t), op, solve_value(f, *r, t))),
        Expr::Unary(op, o) => match op {
            UnOp::Neg => reduce(f, Reduction::Negate(solve_value(f, *o, t))),
            UnOp::Pos => solve_value(f, *o, t),
        },
        Expr::Call(c, args) => match *c {
            Expr::Ident(id) => if args@.len() == 1 && builtin_named(id.name@) is Some {
                reduce(f, Reduction::Apply(builtin_named(id.name@)->Some_0, solve_value(f, args@[0], t)))
            } else {
                arbitrary()
            },
            _ => arbitrary(),
        },
        Expr::Grouping(i) => solve_value(f, *i, t),
        Expr::Lit(Lit::Number(v)) => v,
        Expr::Ident(_) => t,
    }
}

/// Evaluates a residual expression once per sample of the variable.
pub struct RuntimeSolver<N> {
    /// The samples, in order.
    pub t: Vec<N>,
    pub environment: Environment,
}

impl<N: Copy> RuntimeSolver<N> {
    /// A solver over the given samples and the default environment.
    pub fn new(t: Vec<N>) -> (r: RuntimeSolver<N>)
        ensures
            r.t@ == t@,
            forall|name: Seq<char>| #[trigger] r.environment.binding(name) == default_binding(name),
    {
        RuntimeSolver { t, environment: Environment::default() }
    }

    /// A solver over the given samples and environment.
    pub fn with_environment(t: Vec<N>, environment: Environment) -> (r: RuntimeSolver<N>)
        ensures
            r.t@ == t@,
            r.environment == environment,
    {
        RuntimeSolver { t, environment }
    }

    /// The value of `e` at the sample value `t`.
    pub fn solve<F: Fn(Reduction<N>) -> N>(&self, e: &Expr<N>, f: &F, t: N) -> (r: Result<N, EngineError>)
        requires
            pure_arith(*f),
        ensures
            match solve_error(self.environment, *e) {
                Some(x) => r == Err::<N, EngineError>(x),
                None => r == Ok::<N, EngineError>(solve_value(*f, *e, t)),
            },
    {
        solve_at(&self.environment, e, f, t)
    }

    /// The values of `e` at every sample, in sample order. With no samples
    /// nothing is evaluated and nothing can fail.
    pub fn solve_all<F: Fn(Reduction<N>) -> N>(&self, e: &Expr<N>, f: &F) -> (r: Result<Vec<N>, EngineError>)
        requires
            pure_arith(*f),
        ensures
            solve_error(self.environment, *e) is Some && self.t@.len() > 0
                ==> r == Err::<Vec<N>, EngineError>(solve_error(self.environment, *e)->Some_0),
            solve_error(self.environment, *e) is None || self.t@.len() == 0 ==> {
                &&& r is Ok
                &&& r->Ok_0@.len() == self.t@.len()
                &&& forall|i: int| 0 <= i < self.t@.len()
                    ==> r->Ok_0@[i] == solve_value(*f, *e, #[trigger] self.t@[i])
            },
    {
        solve_samples(&self.environment, e, f, &self.t)
    }
}

/// The value of `e` at the sample value `t`.
pub fn solve_at<N: Copy, F: Fn(Reduction<N>) -> N>(env: &Environment, e: &Expr<N>, f: &F, t: N) -> (r: Result<N, EngineError>)
    requires
        pure_arith(*f),
    ensures
        match solve_error(*env, *e) {
            Some(x) => r == Err::<N, EngineError>(x),
            None => r == Ok::<N, EngineError>(solve_value(*f, *e, t)),
        },
    decreases e,
{
    match e {
        Expr::Binary(l, op, rr) => {
            let a = match solve_at(env, l, f, t) {
                Err(x) => return Err(x),
                Ok(a) => a,
            };
            let b = match solve_at(env, rr, f, t) {
                Err(x) => return Err(x),
                Ok(b) => b,
            };
            Ok(apply(f, Reduction::Binary(a, *op, b)))
        },
        Expr::Unary(op, o) => {
            let a = match solve_at(env, o, f, t) {
                Err(x) => return Err(x),
                Ok(a) => a,
            };
            match op {
                UnOp::Neg => Ok(apply(f, Reduction::Negate(a))),
                UnOp::Pos => Ok(a),
            }
        },
        Expr::Call(c, args) => {
            let b = match &**c {
                Expr::Ident(id) => match env.get(&id.name) {
                    Some(IdentTy::Func) => Builtin::from_name(&id.name),
                    _ => None,
                },
                _ => None,
            };
            let b = match b {
                None => return Err(EngineError::RoleError),
                Some(b) => b,
            };
            if args.len() != 1 {
                return Err(EngineError::ArityError);
            }
            proof {
                assert(decreases_to!(*e => args@[0]));
            }
            let a = match solve_at(env, &args[0], f, t) {
                Err(x) => return Err(x),
                Ok(a) => a,
            };
            Ok(apply(f, Reduction::Apply(b, a)))
        },
        Expr::Grouping(i) => solve_at(env, i, f, t),
        Expr::Lit(Lit::Number(v)) => Ok(*v),
        Expr::Ident(id) => match env.get(&id.name) {
            Some(IdentTy::Var) => Ok(t),
            _ => Err(EngineError::RoleError),
        },
    }
}

/// The values of `e` at every sample, in sample order. With no samples
/// nothing is evaluated and nothing can fail.
pub fn solve_samples<N: Copy, F: Fn(Reduction<N>) -> N>(env: &Environment, e: &Expr<N>, f: &F, ts: &Vec<N>) -> (r: Result<Vec<N>, EngineError>)
    requires
        pure_arith(*f),
    ensures
        solve_error(*env, *e) is Some && ts@.len() > 0
            ==> r == Err::<Vec<N>, EngineError>(solve_error(*env, *e)->Some_0),
        solve_error(*env, *e) is None || ts@.len() == 0 ==> {
            &&& r is Ok
            &&& r->Ok_0@.len() == ts@.len()
            &&& forall|i: int| 0 <= i < ts@.len()
                ==> r->Ok_0@[i] == solve_value(*f, *e, #[trigger] ts@[i])
        },
{
    let mut out: Vec<N> = Vec::new();
    let mut i: usize = 0;
    while i < ts.len()
        invariant
            i <= ts@.len(),
            pure_arith(*f),
            i > 0 ==> solve_error(*env, *e) is None,
            out@.len() == i,
            forall|m: int| 0 <= m < i ==> out@[m] == solve_value(*f, *e, #[trigger] ts@[m]),
        decreases ts@.len() - i,
    {
        let v = match solve_at(env, e, f, ts[i]) {
            Err(x) => return Err(x),
            Ok(v) => v,
        };
        out.push(v);
        i += 1;
    }
    Ok(out)
}

} // verus!
