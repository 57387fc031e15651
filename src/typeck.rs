//! The static role checker.
use vstd::prelude::*;
use crate::ast::{Expr, Stmt};
use crate::environment::{default_binding, Environment, IdentTy};
use crate::error::EngineError;
use crate::visit::operands;

verus! {

/// The static role of an expression.
#[derive(Clone, Copy, Debug, PartialEq, Eq, Structural)]
pub enum ValueType {
    /// An unapplied function reference.
    Callable,
    /// Known without sampling.
    Const,
    /// Depends on the sampled variable.
    Var,
}

/// The role of an identifier bound as `t`.
pub open spec fn ident_role(t: IdentTy) -> ValueType {
    match t {
        IdentTy::Var => ValueType::Var,
        IdentTy::Func => ValueType::Callable,
        IdentTy::Const => ValueType::Const,
    }
}

/// The role of a binary expression from the roles of its operands: a function
/// reference on either side wins, then the variable, then the constant. A
/// function reference under an operator is kept, not refused, so that the
/// error surfaces where the value is used.
pub open spec fn join(l: ValueType, r: ValueType) -> ValueType {
    if l == ValueType::Callable || r == ValueType::Callable {
        ValueType::Callable
    } else if l == ValueType::Var || r == ValueType::Var {
        ValueType::Var
    } else {
        ValueType::Const
    }
}

/// The role of a call whose target has role `callee` and whose arguments have
/// roles `args`. A call of a function on a constant is a constant; on anything
/// else its value varies with the sample, so it is a variable (not a function
/// reference: such a call cannot itself be called).
pub open spec fn call_role(callee: ValueType, args: Seq<ValueType>) -> Result<ValueType, EngineError> {
    if args.len() != 1 {
        Err(EngineError::ArityError)
    } else if callee != ValueType::Callable {
        Err(EngineError::RoleError)
    } else if args[0] == ValueType::Const {
        Ok(ValueType::Const)
    } else {
        Ok(ValueType::Var)
    }
}

/// The role of an expression, or the first error met when its children are
/// visited left to right and each node is judged after its children.
pub open spec fn expr_role<N>(env: Environment, e: Expr<N>) -> Result<ValueType, EngineError>
    decreases e,
{
    match e {
        Expr::Binary(l, _, r) => match expr_role(env, *l) {
            Err(x) => Err(x),
            Ok(a) => match expr_role(env, *r) {
                Err(x) => Err(x),
                Ok(b) => Ok(join(a, b)),
            },
        },
        Expr::Unary(_, o) => expr_role(env, *o),
        Expr::Call(c, args) => match expr_role(env, *c) {
            Err(x) => Err(x),
            Ok(cr) => match roles(env, args@) {
                Err(x) => Err(x),
                Ok(rs) => call_role(cr, rs),
            },
        },
        Expr::Grouping(i) => expr_role(env, *i),
        Expr::Lit(_) => Ok(ValueType::Const),
        Expr::Ident(id) => match env.binding(id.name@) {
            None => Err(EngineError::UnknownIdentifier),
            Some(t) => Ok(ident_role(t)),
        },
    }
}

/// The roles of a sequence of expressions, or the first error among them.
pub open spec fn roles<N>(env: Environment, es: Seq<Expr<N>>) -> Result<Seq<ValueType>, EngineError>
    decreases es,
{
    if es.len() == 0 {
        Ok(Seq::empty())
    } else {
        match roles(env, es.subrange(0, es.len() - 1)) {
            Err(x) => Err(x),
            Ok(rs) => match expr_role(env, es[es.len() - 1]) {
                Err(x) => Err(x),
                Ok(r) => Ok(rs.push(r)),
            },
        }
    }
}

/// The statement-level rule, given the roles of the operands: a draw sweeps the
/// variable over constant bounds and step; every operand of `rot`, `scale` and
/// `origin` is constant.
pub open spec fn stmt_rule<N>(s: Stmt<N>, rs: Seq<ValueType>) -> Result<(), EngineError> {
    match s {
        Stmt::Draw(..) => if rs[0] != ValueType::Var {
            Err(EngineError::RoleError)
        } else if rs[1] != ValueType::Const || rs[2] != ValueType::Const || rs[3] != ValueType::Const {
            Err(EngineError::RoleError)
        } else {
            Ok(())
        },
        Stmt::EOI => Ok(()),
        _ => if forall|i: int| 0 <= i < rs.len() ==> rs[i] == ValueType::Const {
            Ok(())
        } else {
            Err(EngineError::RoleError)
        },
    }
}

/// The outcome of checking one statement.
pub open spec fn stmt_check<N>(env: Environment, s: Stmt<N>) -> Result<(), EngineError> {
    match roles(env, operands(s)) {
        Err(x) => Err(x),
        Ok(rs) => stmt_rule(s, rs),
    }
}

/// The outcome of checking a program: the first failing statement's error.
pub open spec fn program_check<N>(env: Environment, ss: Seq<Stmt<N>>) -> Result<(), EngineError>
    decreases ss.len(),
{
    if ss.len() == 0 {
        Ok(())
    } else {
        match stmt_check(env, ss[0]) {
            Err(x) => Err(x),
            Ok(()) => program_check(env, ss.drop_first()),
        }
    }
}

} // verus!

verus! {

/// Once a prefix of a sequence fails, the whole sequence fails the same way.
proof fn lemma_roles_err_extends<N>(env: Environment, es: Seq<Expr<N>>, i: int)
    requires
        0 <= i <= es.len(),
        roles(env, es.subrange(0, i)) is Err,
    ensures
        roles(env, es) == roles(env, es.subrange(0, i)),
    decreases es.len() - i,
{
    if i < es.len() {
        assert(es.subrange(0, i + 1).subrange(0, i) =~= es.subrange(0, i));
        lemma_roles_err_extends(env, es, i + 1);
    } else {
        assert(es.subrange(0, i) =~= es);
    }
}

/// One more element: the roles of a prefix of length `i + 1` from those of length `i`.
proof fn lemma_roles_step<N>(env: Environment, es: Seq<Expr<N>>, i: int)
    requires
        0 <= i < es.len(),
    ensures
        roles(env, es.subrange(0, i + 1)) == (match roles(env, es.subrange(0, i)) {
            Err(x) => Err(x),
            Ok(rs) => match expr_role(env, es[i]) {
                Err(x) => Err(x),
                Ok(r) => Ok(rs.push(r)),
            },
        }),
{
    assert(es.subrange(0, i + 1).subrange(0, i) =~= es.subrange(0, i));
}

/// The role checker: a single forward pass over a value stack of roles that
/// stops at the first violation.
pub struct StaticChecker {
    pub stack: Vec<ValueType>,
    pub environment: Environment,
}

impl Default for StaticChecker {
    fn default() -> (r: StaticChecker)
        ensures
            r.stack@.len() == 0,
            forall|name: Seq<char>| #[trigger] r.environment.binding(name) == default_binding(name),
    {
        StaticChecker { stack: Vec::new(), environment: Environment::default() }
    }
}

impl StaticChecker {
    /// A checker over the given environment.
    pub fn new(environment: Environment) -> (r: StaticChecker)
        ensures
            r.stack@.len() == 0,
            r.environment == environment,
    {
        StaticChecker { stack: Vec::new(), environment }
    }

    /// Visits an expression: on success exactly its role is pushed; on an
    /// error the stack is left as it was.
    pub fn visit_expr<N>(&mut self, e: &Expr<N>) -> (r: Result<(), EngineError>)
        ensures
            final(self).environment == old(self).environment,
            match expr_role(old(self).environment, *e) {
                Ok(t) => r is Ok && final(self).stack@ == old(self).stack@.push(t),
                Err(x) => r == Err::<(), EngineError>(x) && final(self).stack@ == old(self).stack@,
            },
        decreases e,
    {
        let ghost env = self.environment;
        let ghost base = self.stack@;
        let n = self.stack.len();
        match e {
            Expr::Binary(l, _, rhs) => {
                match self.visit_expr(l) {
                    Err(x) => return Err(x),
                    Ok(()) => {},
                }
                match self.visit_expr(rhs) {
                    Err(x) => {
                        self.stack.truncate(n);
                        assert(self.stack@ =~= base);
                        return Err(x);
                    },
                    Ok(()) => {},
                }
                let b = self.stack.pop().unwrap();
                let a = self.stack.pop().unwrap();
                let t = if a == ValueType::Callable || b == ValueType::Callable {
                    ValueType::Callable
                } else if a == ValueType::Var || b == ValueType::Var {
                    ValueType::Var
                } else {
                    ValueType::Const
                };
                self.stack.push(t);
                Ok(())
            },
            Expr::Unary(_, o) => self.visit_expr(o),
            Expr::Grouping(i) => self.visit_expr(i),
            Expr::Call(callee, args) => {
                match self.visit_expr(callee) {
                    Err(x) => return Err(x),
                    Ok(()) => {},
                }
                let ghost cr = self.stack@.last();
                let mut i: usize = 0;
                assert(args@.subrange(0, 0) =~= Seq::<Expr<N>>::empty());
                while i < args.len()
                    invariant
                        i <= args@.len(),
                        self.environment == env,
                        env == old(self).environment,
                        base == old(self).stack@,
                        n == base.len(),
                        *e == Expr::Call(*callee, *args),
                        expr_role(env, **callee) == Ok::<ValueType, EngineError>(cr),
                        roles(env, args@.subrange(0, i as int)) is Ok,
                        self.stack@ == base.push(cr) + roles(env, args@.subrange(0, i as int))->Ok_0,
                        roles(env, args@.subrange(0, i as int))->Ok_0.len() == i,
                    decreases args@.len() - i,
                {
                    proof {
                        lemma_roles_step(env, args@, i as int);
                        assert(decreases_to!(*e => args@[i as int]));
                    }
                    match self.visit_expr(&args[i]) {
                        Err(x) => {
                            proof {
                                lemma_roles_err_extends(env, args@, i + 1);
                            }
                            self.stack.truncate(n);
                            assert(self.stack@ =~= base);
                            return Err(x);
                        },
                        Ok(()) => {},
                    }
                    i += 1;
                }
                assert(args@.subrange(0, args@.len() as int) =~= args@);
                if args.len() != 1 {
                    self.stack.truncate(n);
                    assert(self.stack@ =~= base);
                    return Err(EngineError::ArityError);
                }
                let arg = self.stack.pop().unwrap();
                let c = self.stack.pop().unwrap();
                if c != ValueType::Callable {
                    assert(self.stack@ =~= base);
                    return Err(EngineError::RoleError);
                }
                if arg == ValueType::Const {
                    self.stack.push(ValueType::Const);
                } else {
                    self.stack.push(ValueType::Var);
                }
                Ok(())
            },
            Expr::Lit(_) => {
                self.stack.push(ValueType::Const);
                Ok(())
            },
            Expr::Ident(id) => {
                match self.environment.get(&id.name) {
                    None => Err(EngineError::UnknownIdentifier),
                    Some(IdentTy::Var) => {
                        self.stack.push(ValueType::Var);
                        Ok(())
                    },
                    Some(IdentTy::Func) => {
                        self.stack.push(ValueType::Callable);
                        Ok(())
                    },
                    Some(IdentTy::Const) => {
                        self.stack.push(ValueType::Const);
                        Ok(())
                    },
                }
            },
        }
    }
}


impl StaticChecker {
    /// Visits a statement; afterwards the stack is as it was.
    pub fn visit_stmt<N>(&mut self, s: &Stmt<N>) -> (r: Result<(), EngineError>)
        ensures
            final(self).environment == old(self).environment,
            r == stmt_check(old(self).environment, *s),
            final(self).stack@ == old(self).stack@,
    {
        let ghost env = self.environment;
        let ghost base = self.stack@;
        let ghost ops_s = operands(*s);
        let n0 = self.stack.len();
        let ops = s.operands();
        let mut i: usize = 0;
        assert(ops_s.subrange(0, 0) =~= Seq::<Expr<N>>::empty());
        while i < ops.len()
            invariant
                i <= ops@.len(),
                ops@.len() == ops_s.len(),
                forall|m: int| 0 <= m < ops@.len() ==> *ops@[m] == #[trigger] ops_s[m],
                self.environment == env,
                env == old(self).environment,
                base == old(self).stack@,
                n0 == base.len(),
                ops_s == operands(*s),
                roles(env, ops_s.subrange(0, i as int)) is Ok,
                self.stack@ == base + roles(env, ops_s.subrange(0, i as int))->Ok_0,
                roles(env, ops_s.subrange(0, i as int))->Ok_0.len() == i,
            decreases ops@.len() - i,
        {
            proof {
                lemma_roles_step(env, ops_s, i as int);
            }
            match self.visit_expr(ops[i]) {
                Err(x) => {
                    proof {
                        lemma_roles_err_extends(env, ops_s, i + 1);
                    }
                    self.stack.truncate(n0);
                    assert(self.stack@ =~= base);
                    return Err(x);
                },
                Ok(()) => {},
            }
            i += 1;
        }
        assert(ops_s.subrange(0, ops_s.len() as int) =~= ops_s);
        let ghost rs = roles(env, ops_s)->Ok_0;
        let n = ops.len();
        let k = self.stack.len() - n;
        assert(forall|m: int| 0 <= m < n ==> self.stack@[k + m] == rs[m]);
        let result = match s {
            Stmt::Draw(..) => {
                if self.stack[k] != ValueType::Var {
                    Err(EngineError::RoleError)
                } else if self.stack[k + 1] != ValueType::Const || self.stack[k + 2]
                    != ValueType::Const || self.stack[k + 3] != ValueType::Const {
                    Err(EngineError::RoleError)
                } else {
                    Ok(())
                }
            },
            Stmt::EOI => Ok(()),
            _ => {
                let mut j: usize = k;
                let mut all_const = true;
                while j < self.stack.len()
                    invariant
                        k <= j <= self.stack@.len(),
                        self.stack@.len() == k + rs.len(),
                        forall|m: int| 0 <= m < rs.len() ==> self.stack@[k + m] == rs[m],
                        all_const == (forall|m: int| 0 <= m < j - k ==> rs[m] == ValueType::Const),
                    decreases self.stack@.len() - j,
                {
                    assert(self.stack@[k + (j - k)] == rs[j - k]);
                    if self.stack[j] != ValueType::Const {
                        all_const = false;
                    }
                    j += 1;
                }
                if all_const {
                    Ok(())
                } else {
                    Err(EngineError::RoleError)
                }
            },
        };
        self.stack.truncate(k);
        assert(self.stack@ =~= base);
        result
    }

    /// Checks a whole program, stopping at the first violation.
    pub fn check<N>(&mut self, src: &[Stmt<N>]) -> (r: Result<(), EngineError>)
        ensures
            final(self).environment == old(self).environment,
            r == program_check(old(self).environment, src@),
            final(self).stack@ == old(self).stack@,
    {
        let ghost env = self.environment;
        let mut i: usize = 0;
        assert(src@.skip(0) =~= src@);
        while i < src.len()
            invariant
                i <= src@.len(),
                self.environment == env,
                env == old(self).environment,
                self.stack@ == old(self).stack@,
                program_check(env, src@) == program_check(env, src@.skip(i as int)),
            decreases src@.len() - i,
        {
            assert(src@.skip(i as int).drop_first() =~= src@.skip(i + 1));
            match self.visit_stmt(&src[i]) {
                Err(x) => return Err(x),
                Ok(()) => {},
            }
            i += 1;
        }
        Ok(())
    }
}

/// A call with other than exactly one argument is refused with an arity error
/// once its target and its arguments have been judged without error.
pub proof fn lemma_call_arity<N>(env: Environment, e: Expr<N>)
    requires
        e is Call,
        e->Call_1@.len() != 1,
        expr_role(env, *e->Call_0) is Ok,
        roles(env, e->Call_1@) is Ok,
    ensures
        expr_role(env, e) == Err::<ValueType, EngineError>(EngineError::ArityError),
{
    lemma_roles_each(env, e->Call_1@);
}

/// Successful roles are the roles of the expressions, one for one.
pub proof fn lemma_roles_each<N>(env: Environment, es: Seq<Expr<N>>)
    requires
        roles(env, es) is Ok,
    ensures
        roles(env, es)->Ok_0.len() == es.len(),
        forall|i: int| 0 <= i < es.len() ==> #[trigger] expr_role(env, es[i]) == Ok::<ValueType, EngineError>(
            roles(env, es)->Ok_0[i],
        ),
    decreases es.len(),
{
    if es.len() > 0 {
        let p = es.subrange(0, es.len() - 1);
        lemma_roles_each(env, p);
        assert forall|i: int| 0 <= i < es.len() implies #[trigger] expr_role(env, es[i]) == Ok::<ValueType, EngineError>(
            roles(env, es)->Ok_0[i],
        ) by {
            if i < es.len() - 1 {
                assert(p[i] == es[i]);
            }
        }
    }
}

/// Whether every call in `e`, at any depth, has exactly one argument.
pub open spec fn unary_calls<N>(e: Expr<N>) -> bool
    decreases e,
{
    match e {
        Expr::Binary(l, _, r) => unary_calls(*l) && unary_calls(*r),
        Expr::Unary(_, o) => unary_calls(*o),
        Expr::Call(c, args) => args@.len() == 1 && unary_calls(*c) && unary_calls(args@[0]),
        Expr::Grouping(i) => unary_calls(*i),
        Expr::Lit(_) => true,
        Expr::Ident(_) => true,
    }
}

/// An expression that the checker accepts has only one-argument calls.
pub proof fn lemma_checked_expr_has_unary_calls<N>(env: Environment, e: Expr<N>)
    requires
        expr_role(env, e) is Ok,
    ensures
        unary_calls(e),
    decreases e,
{
    match e {
        Expr::Binary(l, _, r) => {
            lemma_checked_expr_has_unary_calls(env, *l);
            lemma_checked_expr_has_unary_calls(env, *r);
        },
        Expr::Unary(_, o) => {
            lemma_checked_expr_has_unary_calls(env, *o);
        },
        Expr::Grouping(i) => {
            lemma_checked_expr_has_unary_calls(env, *i);
        },
        Expr::Call(c, args) => {
            lemma_checked_expr_has_unary_calls(env, *c);
            lemma_roles_each(env, args@);
            assert(expr_role(env, args@[0]) is Ok);
            lemma_checked_expr_has_unary_calls(env, args@[0]);
        },
        _ => {},
    }
}

/// A program that the checker accepts holds no call with other than one
/// argument, at any depth and in any statement, a draw's axes included. So a
/// program with such a call is refused by the checker, and folding and
/// execution never receive one.
pub proof fn lemma_checked_program_has_unary_calls<N>(env: Environment, ss: Seq<Stmt<N>>)
    requires
        program_check(env, ss) is Ok,
    ensures
        forall|i: int, j: int|
            0 <= i < ss.len() && 0 <= j < operands(ss[i]).len() ==> unary_calls(#[trigger] operands(ss[i])[j]),
    decreases ss.len(),
{
    if ss.len() > 0 {
        lemma_checked_program_has_unary_calls(env, ss.drop_first());
        let es = operands(ss[0]);
        lemma_roles_each(env, es);
        assert forall|i: int, j: int|
            0 <= i < ss.len() && 0 <= j < operands(ss[i]).len() implies unary_calls(#[trigger] operands(ss[i])[j]) by {
            if i == 0 {
                lemma_checked_expr_has_unary_calls(env, es[j]);
            } else {
                assert(ss[i] == ss.drop_first()[i - 1]);
            }
        }
    }
}

} // verus!
