//! The execution engine: sampling, the geometric transform, and running
//! folded statements against the transform state.
use vstd::prelude::*;
use crate::ast::{BinOp, Expr, Lit, Stmt};
use crate::environment::{Builtin, Environment};
use crate::error::EngineError;
use crate::runtime_solver::{solve_error, solve_samples, solve_value};
use crate::fold::{
    callees_resolve,
    first_fold_error, fold_stmt, folded, lemma_checked_constant_folds_to_literal, lemma_fold_error_each,
    stmt_folded,
};
use crate::visit::operands;
use crate::typeck::{expr_role, lemma_roles_each, program_check, roles, stmt_check, StaticChecker, ValueType};
use crate::numeric::{apply, greater, is_greater, pure_arith, pure_order, reduce, Reduction};

verus! {

/// The most samples one draw may produce: as many as a `Vec` can index. It
/// bounds the walk for the proof of termination; memory runs out long before.
pub const MAX_SAMPLES: usize = usize::MAX;

/// The transform applied to every drawn point.
#[derive(Debug)]
pub struct State<N> {
    /// Rotation, in radians.
    pub rot: N,
    pub origin: (N, N),
    pub scale: (N, N),
}

impl<N: Copy> State<N> {
    /// A state with the given rotation, origin and scale.
    pub fn new(rot: N, origin: (N, N), scale: (N, N)) -> (r: State<N>)
        ensures
            r.rot == rot,
            r.origin == origin,
            r.scale == scale,
    {
        State { rot, origin, scale }
    }

    /// Sets the x-scale alone.
    pub fn set_scale_x(&mut self, x: N)
        ensures
            *final(self) == (State { scale: (x, old(self).scale.1), ..*old(self) }),
    {
        self.scale.0 = x;
    }

    /// Sets the y-scale alone.
    pub fn set_scale_y(&mut self, y: N)
        ensures
            *final(self) == (State { scale: (old(self).scale.0, y), ..*old(self) }),
    {
        self.scale.1 = y;
    }

    /// Sets the x-origin alone.
    pub fn set_origin_x(&mut self, x: N)
        ensures
            *final(self) == (State { origin: (x, old(self).origin.1), ..*old(self) }),
    {
        self.origin.0 = x;
    }

    /// Sets the y-origin alone.
    pub fn set_origin_y(&mut self, y: N)
        ensures
            *final(self) == (State { origin: (old(self).origin.0, y), ..*old(self) }),
    {
        self.origin.1 = y;
    }
}

/// The range bounds in walking order, low first.
pub open spec fn bounds<N, G: Fn(N, N) -> bool>(g: G, from: N, to: N) -> (N, N) {
    if greater(g, from, to) {
        (to, from)
    } else {
        (from, to)
    }
}

/// The `i`-th candidate sample, `lo + i * step`.
pub open spec fn candidate<N, F: Fn(Reduction<N>) -> N>(f: F, lo: N, step: N, i: int) -> N {
    reduce(f, Reduction::Sample(lo, i as usize, step))
}

/// Whether the step does not fit in the range: `hi - lo < step`.
pub open spec fn step_too_large<N, F: Fn(Reduction<N>) -> N, G: Fn(N, N) -> bool>(
    f: F,
    g: G,
    lo: N,
    hi: N,
    step: N,
) -> bool {
    greater(g, step, reduce(f, Reduction::Binary(hi, BinOp::Minus, lo)))
}

/// Whether a walk over a non-empty range cannot advance: its step is not
/// greater than `step - step`, which is zero for every finite step, so it is
/// zero, negative or not a number. Such a walk never reaches the end.
pub open spec fn stalls<N, F: Fn(Reduction<N>) -> N, G: Fn(N, N) -> bool>(
    f: F,
    g: G,
    lo: N,
    hi: N,
    step: N,
) -> bool {
    greater(g, hi, lo) && !greater(g, step, reduce(f, Reduction::Binary(step, BinOp::Minus, step)))
}

/// Whether the `i`-th candidate passes or meets the upper bound, so that the
/// walk ends there.
pub open spec fn reaches<N, F: Fn(Reduction<N>) -> N, G: Fn(N, N) -> bool>(
    f: F,
    g: G,
    lo: N,
    hi: N,
    step: N,
    i: int,
) -> bool {
    greater(g, candidate(f, lo, step, i), hi) || !greater(g, hi, candidate(f, lo, step, i))
}

/// The last sample of a walk that ends at the `i`-th candidate: the upper
/// bound if the candidate passed it, else the candidate itself.
pub open spec fn closing<N, F: Fn(Reduction<N>) -> N, G: Fn(N, N) -> bool>(
    f: F,
    g: G,
    lo: N,
    hi: N,
    step: N,
    i: int,
) -> N {
    if greater(g, candidate(f, lo, step, i), hi) {
        hi
    } else {
        candidate(f, lo, step, i)
    }
}

/// Whether the walk ends within `MAX_SAMPLES` samples.
pub open spec fn ends<N, F: Fn(Reduction<N>) -> N, G: Fn(N, N) -> bool>(
    f: F,
    g: G,
    lo: N,
    hi: N,
    step: N,
) -> bool {
    exists|n: int| 0 <= n < MAX_SAMPLES && #[trigger] reaches(f, g, lo, hi, step, n)
}

/// `v` is the walk from `lo` to `hi`: the candidates up to the first one that
/// reaches `hi`, which is replaced by `hi` if it passed it. The bound appears
/// once, also when the range is an exact multiple of the step.
pub open spec fn is_sample_run<N, F: Fn(Reduction<N>) -> N, G: Fn(N, N) -> bool>(
    f: F,
    g: G,
    lo: N,
    hi: N,
    step: N,
    v: Seq<N>,
) -> bool {
    &&& 1 <= v.len() <= MAX_SAMPLES
    &&& reaches(f, g, lo, hi, step, v.len() - 1)
    &&& forall|i: int| 0 <= i < v.len() - 1 ==> !reaches(f, g, lo, hi, step, i) && #[trigger] v[i]
        == candidate(f, lo, step, i)
    &&& v[v.len() - 1] == closing(f, g, lo, hi, step, v.len() - 1)
}

/// Builds the ordered samples of a draw from `from` to `to` by `step`; the
/// range is walked low to high.
pub fn samples<N: Copy, F: Fn(Reduction<N>) -> N, G: Fn(N, N) -> bool>(
    f: &F,
    g: &G,
    from: N,
    to: N,
    step: N,
) -> (r: Result<Vec<N>, EngineError>)
    requires
        pure_arith(*f),
        pure_order(*g),
    ensures
        ({
            let (lo, hi) = bounds(*g, from, to);
            if step_too_large(*f, *g, lo, hi, step) || stalls(*f, *g, lo, hi, step) || !ends(
                *f,
                *g,
                lo,
                hi,
                step,
            ) {
                r == Err::<Vec<N>, EngineError>(EngineError::ShapeError)
            } else {
                r is Ok && is_sample_run(*f, *g, lo, hi, step, r->Ok_0@)
            }
        }),
{
    let (lo, hi) = if is_greater(g, from, to) {
        (to, from)
    } else {
        (from, to)
    };
    let diff = apply(f, Reduction::Binary(hi, BinOp::Minus, lo));
    if is_greater(g, step, diff) {
        return Err(EngineError::ShapeError);
    }
    if is_greater(g, hi, lo) {
        let zero = apply(f, Reduction::Binary(step, BinOp::Minus, step));
        if !is_greater(g, step, zero) {
            return Err(EngineError::ShapeError);
        }
    }
    let mut out: Vec<N> = Vec::new();
    let mut i: usize = 0;
    while i < MAX_SAMPLES
        invariant
            pure_arith(*f),
            pure_order(*g),
            (lo, hi) == bounds(*g, from, to),
            !step_too_large(*f, *g, lo, hi, step),
            !stalls(*f, *g, lo, hi, step),
            i <= MAX_SAMPLES,
            out@.len() == i,
            forall|m: int| 0 <= m < i ==> !#[trigger] reaches(*f, *g, lo, hi, step, m),
            forall|m: int| 0 <= m < i ==> #[trigger] out@[m] == candidate(*f, lo, step, m),
        decreases MAX_SAMPLES - i,
    {
        let c = apply(f, Reduction::Sample(lo, i, step));
        let ghost prev = out@;
        assert(c == candidate(*f, lo, step, i as int));
        if is_greater(g, c, hi) {
            out.push(hi);
            assert(reaches(*f, *g, lo, hi, step, i as int));
            assert(out@[i as int] == closing(*f, *g, lo, hi, step, i as int));
            assert forall|m: int| 0 <= m < i implies #[trigger] out@[m] == candidate(*f, lo, step, m) by {
                assert(out@[m] == prev[m]);
            }
            return Ok(out);
        }
        out.push(c);
        assert forall|m: int| 0 <= m < i + 1 implies #[trigger] out@[m] == candidate(*f, lo, step, m) by {
            if m < i {
                assert(out@[m] == prev[m]);
            }
        }
        if !is_greater(g, hi, c) {
            assert(reaches(*f, *g, lo, hi, step, i as int));
            return Ok(out);
        }
        i += 1;
    }
    assert(!ends(*f, *g, lo, hi, step));
    Err(EngineError::ShapeError)
}

/// Maps a raw point through the state: divide by the scale, rotate by `rot`
/// (`x' = x cos + y sin`, `y' = y cos - x sin`), then subtract the origin.
pub open spec fn transform_point<N, F: Fn(Reduction<N>) -> N>(f: F, p: (N, N), st: State<N>) -> (N, N) {
    let x1 = reduce(f, Reduction::Binary(p.0, BinOp::Slash, st.scale.0));
    let y1 = reduce(f, Reduction::Binary(p.1, BinOp::Slash, st.scale.1));
    let c = reduce(f, Reduction::Apply(Builtin::Cos, st.rot));
    let s = reduce(f, Reduction::Apply(Builtin::Sin, st.rot));
    let x2 = reduce(f, Reduction::Binary(
        reduce(f, Reduction::Binary(x1, BinOp::Asterisk, c)),
        BinOp::Plus,
        reduce(f, Reduction::Binary(y1, BinOp::Asterisk, s)),
    ));
    let y2 = reduce(f, Reduction::Binary(
        reduce(f, Reduction::Binary(y1, BinOp::Asterisk, c)),
        BinOp::Minus,
        reduce(f, Reduction::Binary(x1, BinOp::Asterisk, s)),
    ));
    (
        reduce(f, Reduction::Binary(x2, BinOp::Minus, st.origin.0)),
        reduce(f, Reduction::Binary(y2, BinOp::Minus, st.origin.1)),
    )
}

/// The identity state (scale `(one, one)`, rotation `zero`, origin
/// `(zero, zero)`) gives a point back unchanged, wherever the arithmetic obeys
/// at that point the laws the transform passes through: dividing and
/// multiplying by one, `cos 0 = 1`, `sin 0 = 0`, adding or subtracting a
/// product with zero, and subtracting zero. For 32-bit floats these hold at
/// every finite point except some with a negative-zero coordinate.
pub proof fn lemma_identity_transform<N, F: Fn(Reduction<N>) -> N>(f: F, p: (N, N), one: N, zero: N)
    requires
        reduce(f, Reduction::Apply(Builtin::Cos, zero)) == one,
        reduce(f, Reduction::Apply(Builtin::Sin, zero)) == zero,
        reduce(f, Reduction::Binary(p.0, BinOp::Slash, one)) == p.0,
        reduce(f, Reduction::Binary(p.1, BinOp::Slash, one)) == p.1,
        reduce(f, Reduction::Binary(p.0, BinOp::Asterisk, one)) == p.0,
        reduce(f, Reduction::Binary(p.1, BinOp::Asterisk, one)) == p.1,
        reduce(f, Reduction::Binary(p.0, BinOp::Plus, reduce(f, Reduction::Binary(p.1, BinOp::Asterisk, zero))))
            == p.0,
        reduce(f, Reduction::Binary(p.1, BinOp::Minus, reduce(f, Reduction::Binary(p.0, BinOp::Asterisk, zero))))
            == p.1,
        reduce(f, Reduction::Binary(p.0, BinOp::Minus, zero)) == p.0,
        reduce(f, Reduction::Binary(p.1, BinOp::Minus, zero)) == p.1,
    ensures
        transform_point(f, p, State { rot: zero, origin: (zero, zero), scale: (one, one) }) == p,
{
}

/// Applies the geometric transform to one point.
pub fn transform<N: Copy, F: Fn(Reduction<N>) -> N>(f: &F, p: (N, N), st: &State<N>) -> (r: (N, N))
    requires
        pure_arith(*f),
    ensures
        r == transform_point(*f, p, *st),
{
    let x1 = apply(f, Reduction::Binary(p.0, BinOp::Slash, st.scale.0));
    let y1 = apply(f, Reduction::Binary(p.1, BinOp::Slash, st.scale.1));
    let c = apply(f, Reduction::Apply(Builtin::Cos, st.rot));
    let s = apply(f, Reduction::Apply(Builtin::Sin, st.rot));
    let xc = apply(f, Reduction::Binary(x1, BinOp::Asterisk, c));
    let ys = apply(f, Reduction::Binary(y1, BinOp::Asterisk, s));
    let x2 = apply(f, Reduction::Binary(xc, BinOp::Plus, ys));
    let yc = apply(f, Reduction::Binary(y1, BinOp::Asterisk, c));
    let xs = apply(f, Reduction::Binary(x1, BinOp::Asterisk, s));
    let y2 = apply(f, Reduction::Binary(yc, BinOp::Minus, xs));
    (
        apply(f, Reduction::Binary(x2, BinOp::Minus, st.origin.0)),
        apply(f, Reduction::Binary(y2, BinOp::Minus, st.origin.1)),
    )
}

/// The literal value of an expression, if it is a literal.
fn literal<N: Copy>(e: &Expr<N>) -> (r: Option<N>)
    ensures
        r == (if e.is_literal() {
            Some(e.literal_value())
        } else {
            None
        }),
{
    match e {
        Expr::Lit(Lit::Number(v)) => Some(*v),
        _ => None,
    }
}

/// Why a draw from `from` to `to` by `step` plotting `(x, y)` fails, if it does:
/// a step that does not fit, a walk that cannot advance or does not end, or an
/// axis that cannot be evaluated (`x` first).
pub open spec fn draw_error<N, F: Fn(Reduction<N>) -> N, G: Fn(N, N) -> bool>(
    env: Environment,
    f: F,
    g: G,
    from: N,
    to: N,
    step: N,
    x: Expr<N>,
    y: Expr<N>,
) -> Option<EngineError> {
    let (lo, hi) = bounds(g, from, to);
    if step_too_large(f, g, lo, hi, step) || stalls(f, g, lo, hi, step) || !ends(f, g, lo, hi, step) {
        Some(EngineError::ShapeError)
    } else if solve_error(env, x) is Some {
        solve_error(env, x)
    } else {
        solve_error(env, y)
    }
}

/// `pts` are the points of the draw: for each sample in order, `(x, y)`
/// evaluated at it and mapped through the state.
pub open spec fn draw_points<N, F: Fn(Reduction<N>) -> N, G: Fn(N, N) -> bool>(
    f: F,
    g: G,
    st: State<N>,
    from: N,
    to: N,
    step: N,
    x: Expr<N>,
    y: Expr<N>,
    pts: Seq<(N, N)>,
) -> bool {
    let (lo, hi) = bounds(g, from, to);
    exists|v: Seq<N>|
        #[trigger] is_sample_run(f, g, lo, hi, step, v) && pts.len() == v.len() && forall|i: int|
            0 <= i < v.len() ==> #[trigger] pts[i] == transform_point(
                f,
                (solve_value(f, x, v[i]), solve_value(f, y, v[i])),
                st,
            )
}

/// Whether the operands that execution reads are literals, as folding leaves
/// them in a checked program: the bounds and step of a draw, and every operand
/// of `rot`, `scale` and `origin`.
pub open spec fn literal_operands<N>(s: Stmt<N>) -> bool {
    match s {
        Stmt::Draw(_, a, b, c, _, _) => a.is_literal() && b.is_literal() && c.is_literal(),
        Stmt::Rot(a) => a.is_literal(),
        Stmt::Scale(a, b) => a.is_literal() && b.is_literal(),
        Stmt::Origin(a, b) => a.is_literal() && b.is_literal(),
        Stmt::EOI => true,
    }
}

/// The state after a statement: `rot`, `scale` and `origin` set their part.
pub open spec fn state_after<N>(st: State<N>, s: Stmt<N>) -> State<N> {
    match s {
        Stmt::Rot(a) => State { rot: a.literal_value(), origin: st.origin, scale: st.scale },
        Stmt::Scale(a, b) => State {
            rot: st.rot,
            origin: st.origin,
            scale: (a.literal_value(), b.literal_value()),
        },
        Stmt::Origin(a, b) => State {
            rot: st.rot,
            origin: (a.literal_value(), b.literal_value()),
            scale: st.scale,
        },
        _ => st,
    }
}

/// Why executing a statement fails, if it does.
pub open spec fn stmt_error<N, F: Fn(Reduction<N>) -> N, G: Fn(N, N) -> bool>(
    env: Environment,
    f: F,
    g: G,
    s: Stmt<N>,
) -> Option<EngineError> {
    if !literal_operands(s) {
        Some(EngineError::RoleError)
    } else {
        match s {
            Stmt::Draw(_, a, b, c, x, y) => draw_error(
                env,
                f,
                g,
                a.literal_value(),
                b.literal_value(),
                c.literal_value(),
                *x,
                *y,
            ),
            _ => None,
        }
    }
}

/// What a statement emits: a draw its points, any other statement nothing.
pub open spec fn stmt_output<N, F: Fn(Reduction<N>) -> N, G: Fn(N, N) -> bool>(
    f: F,
    g: G,
    st: State<N>,
    s: Stmt<N>,
    pts: Seq<(N, N)>,
) -> bool {
    match s {
        Stmt::Draw(_, a, b, c, x, y) => draw_points(
            f,
            g,
            st,
            a.literal_value(),
            b.literal_value(),
            c.literal_value(),
            *x,
            *y,
            pts,
        ),
        _ => pts.len() == 0,
    }
}

/// Executes one folded statement against the state.
pub fn execute<N: Copy, F: Fn(Reduction<N>) -> N, G: Fn(N, N) -> bool>(
    env: &Environment,
    state: &mut State<N>,
    s: &Stmt<N>,
    f: &F,
    g: &G,
) -> (r: Result<Vec<(N, N)>, EngineError>)
    requires
        pure_arith(*f),
        pure_order(*g),
    ensures
        match stmt_error(*env, *f, *g, *s) {
            Some(x) => r == Err::<Vec<(N, N)>, EngineError>(x),
            None => {
                &&& r is Ok
                &&& stmt_output(*f, *g, *old(state), *s, r->Ok_0@)
                &&& *final(state) == state_after(*old(state), *s)
            },
        },
{
    match s {
        Stmt::Draw(_, a, b, c, x, y) => {
            let from = literal(a);
            let to = literal(b);
            let step = literal(c);
            let (from, to, step) = match (from, to, step) {
                (Some(from), Some(to), Some(step)) => (from, to, step),
                _ => return Err(EngineError::RoleError),
            };
            let v = match samples(f, g, from, to, step) {
                Err(x) => return Err(x),
                Ok(v) => v,
            };
            let xs = match solve_samples(env, x, f, &v) {
                Err(x) => return Err(x),
                Ok(xs) => xs,
            };
            let ys = match solve_samples(env, y, f, &v) {
                Err(x) => return Err(x),
                Ok(ys) => ys,
            };
            let mut pts: Vec<(N, N)> = Vec::new();
            let mut k: usize = 0;
            while k < v.len()
                invariant
                    pure_arith(*f),
                    xs@.len() == v@.len(),
                    ys@.len() == v@.len(),
                    forall|i: int| 0 <= i < v@.len() ==> xs@[i] == solve_value(*f, **x, #[trigger] v@[i]),
                    forall|i: int| 0 <= i < v@.len() ==> ys@[i] == solve_value(*f, **y, #[trigger] v@[i]),
                    k <= v@.len(),
                    pts@.len() == k,
                    forall|i: int| 0 <= i < k ==> #[trigger] pts@[i] == transform_point(
                        *f,
                        (solve_value(*f, **x, v@[i]), solve_value(*f, **y, v@[i])),
                        *state,
                    ),
                decreases v@.len() - k,
            {
                let p = transform(f, (xs[k], ys[k]), state);
                pts.push(p);
                k += 1;
            }
            let ghost (lo, hi) = bounds(*g, from, to);
            assert(is_sample_run(*f, *g, lo, hi, step, v@));
            Ok(pts)
        },
        Stmt::Rot(a) => match literal(a) {
            Some(v) => {
                state.rot = v;
                Ok(Vec::new())
            },
            None => Err(EngineError::RoleError),
        },
        Stmt::Scale(a, b) => match (literal(a), literal(b)) {
            (Some(u), Some(v)) => {
                state.scale = (u, v);
                Ok(Vec::new())
            },
            _ => Err(EngineError::RoleError),
        },
        Stmt::Origin(a, b) => match (literal(a), literal(b)) {
            (Some(u), Some(v)) => {
                state.origin = (u, v);
                Ok(Vec::new())
            },
            _ => Err(EngineError::RoleError),
        },
        Stmt::EOI => Ok(Vec::new()),
    }
}

/// The state before the `i`-th statement of `ss`, starting from `st0`.
pub open spec fn state_before<N>(st0: State<N>, ss: Seq<Stmt<N>>, i: int) -> State<N>
    decreases i,
{
    if i <= 0 {
        st0
    } else {
        state_after(state_before(st0, ss, i - 1), ss[i - 1])
    }
}

/// The first execution error among the first `n` statements.
pub open spec fn run_error<N, F: Fn(Reduction<N>) -> N, G: Fn(N, N) -> bool>(
    env: Environment,
    f: F,
    g: G,
    ss: Seq<Stmt<N>>,
    n: int,
) -> Option<EngineError>
    decreases n,
{
    if n <= 0 {
        None
    } else if run_error(env, f, g, ss, n - 1) is Some {
        run_error(env, f, g, ss, n - 1)
    } else {
        stmt_error(env, f, g, ss[n - 1])
    }
}

/// The outcome of executing `ss` from `st0`: the first error, or for each
/// statement in order what it emits, each seeing the state that the
/// statements before it left.
pub open spec fn runs_to<N, F: Fn(Reduction<N>) -> N, G: Fn(N, N) -> bool>(
    env: Environment,
    f: F,
    g: G,
    st0: State<N>,
    ss: Seq<Stmt<N>>,
    r: Result<Vec<Vec<(N, N)>>, EngineError>,
) -> bool {
    match run_error(env, f, g, ss, ss.len() as int) {
        Some(x) => r == Err::<Vec<Vec<(N, N)>>, EngineError>(x),
        None => {
            &&& r is Ok
            &&& r->Ok_0@.len() == ss.len()
            &&& forall|i: int| 0 <= i < ss.len()
                ==> stmt_output(f, g, state_before(st0, ss, i), ss[i], #[trigger] r->Ok_0@[i]@)
        },
    }
}

proof fn lemma_run_error_extends<N, F: Fn(Reduction<N>) -> N, G: Fn(N, N) -> bool>(
    env: Environment,
    f: F,
    g: G,
    ss: Seq<Stmt<N>>,
    i: int,
)
    requires
        0 <= i <= ss.len(),
        run_error(env, f, g, ss, i) is Some,
    ensures
        run_error(env, f, g, ss, ss.len() as int) == run_error(env, f, g, ss, i),
    decreases ss.len() - i,
{
    if i < ss.len() {
        lemma_run_error_extends(env, f, g, ss, i + 1);
    }
}

/// Runs a sequence of folded statements in order against `state`.
pub fn execute_all<N: Copy, F: Fn(Reduction<N>) -> N, G: Fn(N, N) -> bool>(
    env: &Environment,
    state: &mut State<N>,
    ss: &Vec<Stmt<N>>,
    f: &F,
    g: &G,
) -> (r: Result<Vec<Vec<(N, N)>>, EngineError>)
    requires
        pure_arith(*f),
        pure_order(*g),
    ensures
        runs_to(*env, *f, *g, *old(state), ss@, r),
        r is Ok ==> *final(state) == state_before(*old(state), ss@, ss@.len() as int),
{
    let ghost st0 = *state;
    let mut outs: Vec<Vec<(N, N)>> = Vec::new();
    let mut i: usize = 0;
    while i < ss.len()
        invariant
            pure_arith(*f),
            pure_order(*g),
            i <= ss@.len(),
            st0 == *old(state),
            run_error(*env, *f, *g, ss@, i as int) is None,
            *state == state_before(st0, ss@, i as int),
            outs@.len() == i,
            forall|m: int| 0 <= m < i
                ==> stmt_output(*f, *g, state_before(st0, ss@, m), ss@[m], #[trigger] outs@[m]@),
        decreases ss@.len() - i,
    {
        match execute(env, state, &ss[i], f, g) {
            Err(x) => {
                proof {
                    lemma_run_error_extends(*env, *f, *g, ss@, i + 1);
                }
                return Err(x);
            },
            Ok(pts) => {
                outs.push(pts);
            },
        }
        i += 1;
    }
    Ok(outs)
}

/// The first fold error among the first `n` statements.
pub open spec fn program_fold_error<N>(env: Environment, ss: Seq<Stmt<N>>, n: int) -> Option<EngineError>
    decreases n,
{
    if n <= 0 {
        None
    } else if program_fold_error(env, ss, n - 1) is Some {
        program_fold_error(env, ss, n - 1)
    } else {
        first_fold_error(env, operands(ss[n - 1]))
    }
}

proof fn lemma_program_fold_error_extends<N>(env: Environment, ss: Seq<Stmt<N>>, i: int)
    requires
        0 <= i <= ss.len(),
        program_fold_error(env, ss, i) is Some,
    ensures
        program_fold_error(env, ss, ss.len() as int) == program_fold_error(env, ss, i),
    decreases ss.len() - i,
{
    if i < ss.len() {
        lemma_program_fold_error_extends(env, ss, i + 1);
    }
}

/// `out` is `src` with every statement folded, one for one.
pub open spec fn program_folded<N, F: Fn(Reduction<N>) -> N>(
    env: Environment,
    f: F,
    src: Seq<Stmt<N>>,
    out: Seq<Stmt<N>>,
) -> bool {
    &&& out.len() == src.len()
    &&& forall|i: int| 0 <= i < src.len() ==> stmt_folded(env, f, src[i], #[trigger] out[i])
}

/// The execution engine: the environment, the transform state, and the
/// folded statements waiting to run.
pub struct Interpreter<N> {
    pub environment: Environment,
    pub state: State<N>,
    pub statements: Vec<Stmt<N>>,
}

impl<N: Copy> Interpreter<N> {
    /// An engine with no statements.
    pub fn new(environment: Environment, state: State<N>) -> (r: Interpreter<N>)
        ensures
            r.environment == environment,
            r.state == state,
            r.statements@.len() == 0,
    {
        Interpreter { environment, state, statements: Vec::new() }
    }

    /// Folds `src` and appends the folded statements, stopping at the first
    /// statement that fails to fold.
    pub fn accept<F: Fn(Reduction<N>) -> N>(&mut self, src: &[Stmt<N>], f: &F) -> (r: Result<(), EngineError>)
        requires
            pure_arith(*f),
        ensures
            final(self).environment == old(self).environment,
            final(self).state == old(self).state,
            match program_fold_error(old(self).environment, src@, src@.len() as int) {
                Some(x) => r == Err::<(), EngineError>(x),
                None => {
                    &&& r is Ok
                    &&& final(self).statements@.len() == old(self).statements@.len() + src@.len()
                    &&& final(self).statements@.subrange(0, old(self).statements@.len() as int)
                        == old(self).statements@
                    &&& program_folded(
                        old(self).environment,
                        *f,
                        src@,
                        final(self).statements@.subrange(
                            old(self).statements@.len() as int,
                            final(self).statements@.len() as int,
                        ),
                    )
                },
            },
    {
        let ghost base = self.statements@;
        let mut i: usize = 0;
        while i < src.len()
            invariant
                pure_arith(*f),
                i <= src@.len(),
                self.environment == old(self).environment,
                self.state == old(self).state,
                base == old(self).statements@,
                program_fold_error(self.environment, src@, i as int) is None,
                self.statements@.len() == base.len() + i,
                self.statements@.subrange(0, base.len() as int) == base,
                forall|m: int| 0 <= m < i ==> stmt_folded(
                    self.environment,
                    *f,
                    src@[m],
                    #[trigger] self.statements@[base.len() + m],
                ),
            decreases src@.len() - i,
        {
            match fold_stmt(&self.environment, f, &src[i]) {
                Err(x) => {
                    proof {
                        lemma_program_fold_error_extends(self.environment, src@, i + 1);
                    }
                    return Err(x);
                },
                Ok(s) => {
                    self.statements.push(s);
                    assert(self.statements@.subrange(0, base.len() as int) =~= base);
                },
            }
            i += 1;
        }
        let ghost out = self.statements@.subrange(base.len() as int, self.statements@.len() as int);
        assert forall|m: int| 0 <= m < src@.len() implies stmt_folded(self.environment, *f, src@[m], #[trigger] out[m]) by {
            assert(out[m] == self.statements@[base.len() + m]);
        }
        Ok(())
    }

    /// Runs the folded statements in order, threading the state.
    pub fn interpret<F: Fn(Reduction<N>) -> N, G: Fn(N, N) -> bool>(&mut self, f: &F, g: &G) -> (r: Result<Vec<Vec<(N, N)>>, EngineError>)
        requires
            pure_arith(*f),
            pure_order(*g),
        ensures
            final(self).environment == old(self).environment,
            final(self).statements == old(self).statements,
            runs_to(old(self).environment, *f, *g, old(self).state, old(self).statements@, r),
            r is Ok ==> final(self).state == state_before(
                old(self).state,
                old(self).statements@,
                old(self).statements@.len() as int,
            ),
    {
        execute_all(&self.environment, &mut self.state, &self.statements, f, g)
    }
}

/// Checks, folds and executes a program, in that order. A program that the
/// checker refuses is neither folded nor executed, and one that fails to fold
/// is not executed.
pub fn run<N: Copy, F: Fn(Reduction<N>) -> N, G: Fn(N, N) -> bool>(
    src: &[Stmt<N>],
    environment: Environment,
    state: State<N>,
    f: &F,
    g: &G,
) -> (r: Result<Vec<Vec<(N, N)>>, EngineError>)
    requires
        pure_arith(*f),
        pure_order(*g),
    ensures
        program_check(environment, src@) is Err ==> r == Err::<Vec<Vec<(N, N)>>, EngineError>(
            program_check(environment, src@)->Err_0,
        ),
        program_check(environment, src@) is Ok && program_fold_error(environment, src@, src@.len() as int)
            is Some ==> r == Err::<Vec<Vec<(N, N)>>, EngineError>(
            program_fold_error(environment, src@, src@.len() as int)->Some_0,
        ),
        program_check(environment, src@) is Ok && program_fold_error(environment, src@, src@.len() as int)
            is None ==> exists|ss: Seq<Stmt<N>>|
            #[trigger] program_folded(environment, *f, src@, ss) && runs_to(environment, *f, *g, state, ss, r),
{
    let ghost env = environment;
    let mut checker = StaticChecker::new(environment);
    match checker.check(src) {
        Err(x) => return Err(x),
        Ok(()) => {},
    }
    let mut interpreter = Interpreter::new(checker.environment, state);
    match interpreter.accept(src, f) {
        Err(x) => return Err(x),
        Ok(()) => {},
    }
    let ghost ss = interpreter.statements@;
    assert(ss.subrange(0, ss.len() as int) =~= ss);
    let r = interpreter.interpret(f, g);
    assert(program_folded(env, *f, src@, ss));
    r
}

/// A statement that passes the checker, folds without error, and whose calls
/// all name builtins, has literals
/// wherever execution reads one: the bounds and step of a draw, and every
/// operand of `rot`, `scale` and `origin`.
pub proof fn lemma_checked_statement_folds_to_literals<N, F: Fn(Reduction<N>) -> N>(
    env: Environment,
    f: F,
    s: Stmt<N>,
    r: Stmt<N>,
)
    requires
        stmt_check(env, s) is Ok,
        first_fold_error(env, operands(s)) is None,
        forall|i: int| 0 <= i < operands(s).len() ==> callees_resolve(env, #[trigger] operands(s)[i]),
        stmt_folded(env, f, s, r),
    ensures
        literal_operands(r),
{
    let es = operands(s);
    let rs = roles(env, es)->Ok_0;
    lemma_roles_each(env, es);
    lemma_fold_error_each(env, es);
    assert forall|i: int| 0 <= i < es.len() && rs[i] == ValueType::Const implies #[trigger] operands(r)[i] is Lit by {
        assert(expr_role(env, es[i]) == Ok::<ValueType, EngineError>(rs[i]));
        lemma_checked_constant_folds_to_literal(env, es[i]);
        assert(folded(env, f, es[i], operands(r)[i]));
    }
    match s {
        Stmt::Draw(..) => {
            assert(operands(r)[1] is Lit);
            assert(operands(r)[2] is Lit);
            assert(operands(r)[3] is Lit);
        },
        Stmt::Rot(..) => {
            assert(rs[0] == ValueType::Const);
            assert(operands(r)[0] is Lit);
        },
        Stmt::Scale(..) | Stmt::Origin(..) => {
            assert(rs[0] == ValueType::Const);
            assert(rs[1] == ValueType::Const);
            assert(operands(r)[0] is Lit);
            assert(operands(r)[1] is Lit);
        },
        Stmt::EOI => {},
    }
}

} // verus!
