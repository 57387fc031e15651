use funcomp::ast::{BinOp, Expr, Ident, Lit, Stmt, UnOp};
use funcomp::environment::{Builtin, Environment, IdentTy};
use funcomp::error::EngineError;
use funcomp::fold::{fold_expr, fold_stmt};
use funcomp::interpreter::{run, samples, transform, Interpreter, State};
use funcomp::numeric::Reduction;
use funcomp::runtime_solver::RuntimeSolver;
use funcomp::typeck::{StaticChecker, ValueType};

fn arith(r: Reduction<f32>) -> f32 {
    match r {
        Reduction::Binary(a, op, b) => match op {
            BinOp::Plus => a + b,
            BinOp::Minus => a - b,
            BinOp::Asterisk => a * b,
            BinOp::Slash => a / b,
        },
        Reduction::Negate(a) => -a,
        Reduction::Apply(f, x) => match f {
            Builtin::Sin => x.sin(),
            Builtin::Cos => x.cos(),
            Builtin::Tan => x.tan(),
            Builtin::Sqrt => x.sqrt(),
            Builtin::Exp => x.exp2(),
            Builtin::Ln => x.ln(),
        },
        Reduction::Pi => std::f32::consts::PI,
        Reduction::Sample(from, i, step) => from + (i as f32) * step,
    }
}

fn gt(a: f32, b: f32) -> bool {
    a > b
}

fn num(v: f32) -> Expr<f32> {
    Expr::Lit(Lit::Number(v))
}

fn name(s: &str) -> Expr<f32> {
    Expr::Ident(Ident::new(s.to_string()))
}

fn bin(l: Expr<f32>, op: BinOp, r: Expr<f32>) -> Expr<f32> {
    Expr::Binary(Box::new(l), op, Box::new(r))
}

fn call(callee: &str, args: Vec<Expr<f32>>) -> Expr<f32> {
    Expr::Call(Box::new(name(callee)), args)
}

fn draw(from: Expr<f32>, to: Expr<f32>, step: Expr<f32>, x: Expr<f32>, y: Expr<f32>) -> Stmt<f32> {
    Stmt::Draw(
        Box::new(name("T")),
        Box::new(from),
        Box::new(to),
        Box::new(step),
        Box::new(x),
        Box::new(y),
    )
}

fn identity_state() -> State<f32> {
    State::new(0.0, (0.0, 0.0), (1.0, 1.0))
}

fn literal_of(e: &Expr<f32>) -> f32 {
    match e {
        Expr::Lit(Lit::Number(v)) => *v,
        other => panic!("not a literal: {:?}", other),
    }
}

fn check(src: &[Stmt<f32>]) -> Result<(), EngineError> {
    let mut checker = StaticChecker::default();
    checker.check(src)
}

fn close(a: f32, b: f32) -> bool {
    (a - b).abs() <= 1e-5 * (1.0 + b.abs())
}

#[test]
fn default_environment_binds_the_language_names() {
    let env = Environment::default();
    assert_eq!(env.get(&"T".to_string()), Some(IdentTy::Var));
    assert_eq!(env.get(&"PI".to_string()), Some(IdentTy::Const));
    for f in ["Sin", "Cos", "Tan", "Sqrt", "Exp", "Ln"] {
        assert_eq!(env.get(&f.to_string()), Some(IdentTy::Func));
    }
    assert_eq!(env.get(&"sin".to_string()), None);
    assert_eq!(env.get(&"X".to_string()), None);
}

#[test]
fn builtin_names_resolve() {
    assert_eq!(Builtin::from_name(&"Exp".to_string()), Some(Builtin::Exp));
    assert_eq!(Builtin::from_name(&"Tan".to_string()), Some(Builtin::Tan));
    assert_eq!(Builtin::from_name(&"PI".to_string()), None);
}

#[test]
fn literal_tree_folds_to_one_literal() {
    let env = Environment::default();
    // -((1 + 2) * 3 - 4 / 8) + PI
    let e = bin(
        Expr::Unary(
            UnOp::Neg,
            Box::new(Expr::Grouping(Box::new(bin(
                bin(Expr::Grouping(Box::new(bin(num(1.0), BinOp::Plus, num(2.0)))), BinOp::Asterisk, num(3.0)),
                BinOp::Minus,
                bin(num(4.0), BinOp::Slash, num(8.0)),
            )))),
        ),
        BinOp::Plus,
        name("PI"),
    );
    let r = fold_expr(&env, &arith, &e).unwrap();
    assert!(close(literal_of(&r), -8.5 + std::f32::consts::PI));
}

#[test]
fn unary_plus_and_minus_fold() {
    let env = Environment::default();
    let e = Expr::Unary(UnOp::Pos, Box::new(Expr::Unary(UnOp::Neg, Box::new(num(3.0)))));
    assert_eq!(literal_of(&fold_expr(&env, &arith, &e).unwrap()), -3.0);
}

#[test]
fn folding_keeps_variable_parts() {
    let env = Environment::default();
    // Sin(T) * (2 + 3)
    let e = bin(call("Sin", vec![name("T")]), BinOp::Asterisk, Expr::Grouping(Box::new(bin(num(2.0), BinOp::Plus, num(3.0)))));
    match fold_expr(&env, &arith, &e).unwrap() {
        Expr::Binary(l, BinOp::Asterisk, r) => {
            match *l {
                Expr::Call(c, args) => {
                    assert!(matches!(*c, Expr::Ident(ref id) if id.name == "Sin"));
                    assert_eq!(args.len(), 1);
                    assert!(matches!(args[0], Expr::Ident(ref id) if id.name == "T"));
                },
                other => panic!("unexpected {:?}", other),
            }
            assert_eq!(literal_of(&r), 5.0);
        },
        other => panic!("unexpected {:?}", other),
    }
}

#[test]
fn builtins_fold_exp_is_base_two() {
    let env = Environment::default();
    assert_eq!(literal_of(&fold_expr(&env, &arith, &call("Exp", vec![num(3.0)])).unwrap()), 8.0);
    assert_eq!(literal_of(&fold_expr(&env, &arith, &call("Sqrt", vec![num(9.0)])).unwrap()), 3.0);
    assert_eq!(literal_of(&fold_expr(&env, &arith, &call("Ln", vec![num(1.0)])).unwrap()), 0.0);
    assert_eq!(literal_of(&fold_expr(&env, &arith, &call("Tan", vec![num(0.0)])).unwrap()), 0.0);
    assert_eq!(literal_of(&fold_expr(&env, &arith, &call("Cos", vec![num(0.0)])).unwrap()), 1.0);
}

#[test]
fn rot_statement_folds_and_sets_rotation() {
    // rot is 2 + 1 * Sin(PI);
    let src = vec![
        Stmt::Rot(Box::new(bin(num(2.0), BinOp::Plus, bin(num(1.0), BinOp::Asterisk, call("Sin", vec![name("PI")]))))),
        Stmt::EOI,
    ];
    assert_eq!(check(&src), Ok(()));
    let mut interpreter = Interpreter::new(Environment::default(), identity_state());
    interpreter.accept(&src, &arith).unwrap();
    let out = interpreter.interpret(&arith, &gt).unwrap();
    assert_eq!(out.len(), 2);
    assert!(out.iter().all(|pts| pts.is_empty()));
    let expected = 2.0 + 1.0 * std::f32::consts::PI.sin();
    assert!((interpreter.state.rot - expected).abs() <= f32::EPSILON * 2.0);
    assert!((interpreter.state.rot - 2.0).abs() <= 1e-6);
}

#[test]
fn empty_range_with_positive_step_is_shape_error() {
    // scale is (2, 4); origin is (1, 1); for T from 1 to 1 step 1 draw (T, T);
    let src = vec![
        Stmt::Scale(Box::new(num(2.0)), Box::new(num(4.0))),
        Stmt::Origin(Box::new(num(1.0)), Box::new(num(1.0))),
        draw(num(1.0), num(1.0), num(1.0), name("T"), name("T")),
        Stmt::EOI,
    ];
    let r = run(&src, Environment::default(), identity_state(), &arith, &gt);
    assert_eq!(r, Err(EngineError::ShapeError));
}

#[test]
fn zero_range_with_zero_step_draws_one_point() {
    // scale is (2, 4); origin is (1, 1); for T from 0 to 0 step 0 draw (T, T);
    let src = vec![
        Stmt::Scale(Box::new(num(2.0)), Box::new(num(4.0))),
        Stmt::Origin(Box::new(num(1.0)), Box::new(num(1.0))),
        draw(num(0.0), num(0.0), num(0.0), name("T"), name("T")),
        Stmt::EOI,
    ];
    let out = run(&src, Environment::default(), identity_state(), &arith, &gt).unwrap();
    assert_eq!(out[2], vec![(-1.0, -1.0)]);
}

#[test]
fn samples_one_to_twenty() {
    let v = samples(&arith, &gt, 1.0, 20.0, 1.0).unwrap();
    assert_eq!(v.len(), 20);
    assert_eq!(v[0], 1.0);
    assert_eq!(v[19], 20.0);
    assert_eq!(v[18], 19.0);
    let expected: Vec<f32> = (1..=20).map(|i| i as f32).collect();
    assert_eq!(v, expected);
}

#[test]
fn samples_end_with_upper_bound_when_step_overshoots() {
    let v = samples(&arith, &gt, 0.0, 1.0, 0.4).unwrap();
    assert_eq!(v.len(), 4);
    assert_eq!(v[3], 1.0);
    assert!(close(v[1], 0.4));
    assert!(close(v[2], 0.8));
}

#[test]
fn samples_walk_a_reversed_range_upwards() {
    assert_eq!(samples(&arith, &gt, 5.0, 1.0, 2.0).unwrap(), vec![1.0, 3.0, 5.0]);
}

#[test]
fn samples_refuse_a_step_larger_than_the_range() {
    assert_eq!(samples(&arith, &gt, 0.0, 1.0, 2.0), Err(EngineError::ShapeError));
}

#[test]
fn samples_refuse_a_walk_that_never_ends() {
    assert_eq!(samples(&arith, &gt, 0.0, 1.0, -1.0), Err(EngineError::ShapeError));
    assert_eq!(samples(&arith, &gt, 0.0, 1.0, 0.0), Err(EngineError::ShapeError));
    assert_eq!(samples(&arith, &gt, 0.0, 1.0, f32::NAN), Err(EngineError::ShapeError));
}

#[test]
fn samples_walk_long_ranges() {
    let hi = 16_777_224.0f32;
    let v = samples(&arith, &gt, 0.0, hi, 1.0).unwrap();
    assert!(v.len() > 16_777_216);
    assert_eq!(v[0], 0.0);
    assert_eq!(*v.last().unwrap(), hi);
}

#[test]
fn role_check_accepts_constant_call_bounds_and_rejects_variable_ones() {
    // for T from Sin(1) to 2 step 1 draw (T, T);
    let src = vec![draw(call("Sin", vec![num(1.0)]), num(2.0), num(1.0), name("T"), name("T")), Stmt::EOI];
    // Sin(1) is a constant call, so this passes; a from that depends on T does not.
    assert_eq!(check(&src), Ok(()));
    let src = vec![draw(call("Sin", vec![name("T")]), num(2.0), num(1.0), name("T"), name("T")), Stmt::EOI];
    assert_eq!(check(&src), Err(EngineError::RoleError));
}

#[test]
fn role_check_rejects_variable_origin() {
    // origin is T;
    let src = vec![Stmt::Origin(Box::new(name("T")), Box::new(name("T"))), Stmt::EOI];
    assert_eq!(check(&src), Err(EngineError::RoleError));
    let src = vec![Stmt::Origin(Box::new(num(1.0)), Box::new(name("T"))), Stmt::EOI];
    assert_eq!(check(&src), Err(EngineError::RoleError));
    let r = run(&src, Environment::default(), identity_state(), &arith, &gt);
    assert_eq!(r, Err(EngineError::RoleError));
}

#[test]
fn role_check_rejects_draw_target_that_is_not_the_variable() {
    let src = vec![Stmt::Draw(
        Box::new(name("PI")),
        Box::new(num(0.0)),
        Box::new(num(1.0)),
        Box::new(num(1.0)),
        Box::new(name("T")),
        Box::new(name("T")),
    )];
    assert_eq!(check(&src), Err(EngineError::RoleError));
}

#[test]
fn role_check_rejects_unknown_identifier() {
    let src = vec![Stmt::Rot(Box::new(bin(num(1.0), BinOp::Plus, name("X"))))];
    assert_eq!(check(&src), Err(EngineError::UnknownIdentifier));
}

#[test]
fn role_check_rejects_calling_a_non_function() {
    let src = vec![Stmt::Rot(Box::new(call("PI", vec![num(1.0)])))];
    assert_eq!(check(&src), Err(EngineError::RoleError));
    // A call that varies with T is a variable, so it cannot be called again.
    let inner = call("Sin", vec![name("T")]);
    let e = Expr::Call(Box::new(inner), vec![num(1.0)]);
    let src = vec![draw(num(0.0), num(1.0), num(1.0), e, name("T"))];
    assert_eq!(check(&src), Err(EngineError::RoleError));
}

#[test]
fn call_arity_is_checked_before_folding() {
    let zero = vec![Stmt::Rot(Box::new(call("Sin", vec![])))];
    assert_eq!(check(&zero), Err(EngineError::ArityError));
    let two = vec![Stmt::Rot(Box::new(call("Sin", vec![num(1.0), num(2.0)])))];
    assert_eq!(check(&two), Err(EngineError::ArityError));
    let r = run(&two, Environment::default(), identity_state(), &arith, &gt);
    assert_eq!(r, Err(EngineError::ArityError));
    let in_draw = vec![draw(num(0.0), num(1.0), num(1.0), call("Cos", vec![]), name("T"))];
    assert_eq!(run(&in_draw, Environment::default(), identity_state(), &arith, &gt), Err(EngineError::ArityError));
}

#[test]
fn checker_stack_holds_one_role_per_expression() {
    let mut checker = StaticChecker::default();
    checker.visit_expr(&bin(name("T"), BinOp::Plus, num(1.0))).unwrap();
    checker.visit_expr(&name("Sin")).unwrap();
    checker.visit_expr(&call("Cos", vec![num(1.0)])).unwrap();
    checker.visit_expr(&call("Cos", vec![name("T")])).unwrap();
    assert_eq!(checker.stack, vec![ValueType::Var, ValueType::Callable, ValueType::Const, ValueType::Var]);
}

#[test]
fn identity_transform_keeps_points() {
    let st = identity_state();
    for p in [(0.0f32, 0.0f32), (1.5, -2.25), (-3.0, 7.0), (100.0, 0.125)] {
        assert_eq!(transform(&arith, p, &st), p);
    }
}

#[test]
fn transform_scales_rotates_then_shifts() {
    let st = State::new(std::f32::consts::FRAC_PI_2, (1.0, 2.0), (2.0, 4.0));
    let (x, y) = transform(&arith, (4.0, 8.0), &st);
    // (4/2, 8/4) = (2, 2); rotated by pi/2: (2*0 + 2*1, 2*0 - 2*1) = (2, -2); minus origin.
    assert!(close(x, 1.0));
    assert!(close(y, -4.0));
}

#[test]
fn draw_produces_transformed_points() {
    // scale is (2, 2); for T from 0 to 2 step 1 draw (T, T * T);
    let src = vec![
        Stmt::Scale(Box::new(num(2.0)), Box::new(num(2.0))),
        draw(num(0.0), num(2.0), num(1.0), name("T"), bin(name("T"), BinOp::Asterisk, name("T"))),
        Stmt::EOI,
    ];
    let out = run(&src, Environment::default(), identity_state(), &arith, &gt).unwrap();
    assert_eq!(out.len(), 3);
    assert!(out[0].is_empty());
    assert_eq!(out[1], vec![(0.0, 0.0), (0.5, 0.5), (1.0, 2.0)]);
    assert!(out[2].is_empty());
}

#[test]
fn transforms_only_affect_later_draws() {
    let src = vec![
        draw(num(0.0), num(1.0), num(1.0), name("T"), name("T")),
        Stmt::Origin(Box::new(num(1.0)), Box::new(num(1.0))),
        draw(num(0.0), num(1.0), num(1.0), name("T"), name("T")),
    ];
    let out = run(&src, Environment::default(), identity_state(), &arith, &gt).unwrap();
    assert_eq!(out[0], vec![(0.0, 0.0), (1.0, 1.0)]);
    assert_eq!(out[2], vec![(-1.0, -1.0), (0.0, 0.0)]);
}

#[test]
fn solver_evaluates_per_sample() {
    let env = Environment::default();
    let e = fold_expr(&env, &arith, &bin(call("Exp", vec![name("T")]), BinOp::Minus, name("PI"))).unwrap();
    let solver = RuntimeSolver::new(vec![0.0, 1.0, 2.0]);
    let v = solver.solve_all(&e, &arith).unwrap();
    let pi = std::f32::consts::PI;
    assert_eq!(v, vec![1.0 - pi, 2.0 - pi, 4.0 - pi]);
    assert_eq!(solver.solve_all(&name("PI"), &arith), Err(EngineError::RoleError));
}

#[test]
fn folding_a_statement_keeps_its_kind() {
    let env = Environment::default();
    let s = Stmt::Scale(Box::new(bin(num(1.0), BinOp::Plus, num(1.0))), Box::new(name("PI")));
    match fold_stmt(&env, &arith, &s).unwrap() {
        Stmt::Scale(a, b) => {
            assert_eq!(literal_of(&a), 2.0);
            assert_eq!(literal_of(&b), std::f32::consts::PI);
        },
        other => panic!("unexpected {:?}", other),
    }
}

#[test]
fn call_of_a_non_builtin_folds_to_a_call_and_fails_to_run() {
    let env = Environment::default();
    // (Sin + 1)(2) passes the role check but names no builtin.
    let callee = Expr::Grouping(Box::new(bin(name("Sin"), BinOp::Plus, num(1.0))));
    let e = Expr::Call(Box::new(callee), vec![num(2.0)]);
    let src = vec![Stmt::Rot(Box::new(e))];
    assert_eq!(check(&src), Ok(()));
    match fold_stmt(&env, &arith, &src[0]).unwrap() {
        Stmt::Rot(a) => match *a {
            Expr::Call(c, args) => {
                match *c {
                    Expr::Binary(l, BinOp::Plus, r) => {
                        assert!(matches!(*l, Expr::Ident(ref id) if id.name == "Sin"));
                        assert_eq!(literal_of(&r), 1.0);
                    },
                    other => panic!("unexpected {:?}", other),
                }
                assert_eq!(args.len(), 1);
                assert_eq!(literal_of(&args[0]), 2.0);
            },
            other => panic!("unexpected {:?}", other),
        },
        other => panic!("unexpected {:?}", other),
    }
    assert_eq!(run(&src, env, identity_state(), &arith, &gt), Err(EngineError::RoleError));
}

#[test]
fn failed_check_leaves_the_stack_unchanged() {
    let mut checker = StaticChecker::default();
    checker.visit_expr(&name("T")).unwrap();
    assert_eq!(checker.visit_expr(&name("X")), Err(EngineError::UnknownIdentifier));
    assert_eq!(checker.visit_expr(&name("sin")), Err(EngineError::UnknownIdentifier));
    assert_eq!(checker.visit_expr(&bin(num(1.0), BinOp::Plus, name("X"))), Err(EngineError::UnknownIdentifier));
    assert_eq!(checker.visit_expr(&call("Sin", vec![num(1.0), num(2.0)])), Err(EngineError::ArityError));
    assert_eq!(checker.stack, vec![ValueType::Var]);
}

#[test]
fn state_setters_change_one_component() {
    let mut st = identity_state();
    st.set_scale_x(3.0);
    st.set_scale_y(4.0);
    st.set_origin_x(5.0);
    st.set_origin_y(6.0);
    assert_eq!(st.scale, (3.0, 4.0));
    assert_eq!(st.origin, (5.0, 6.0));
    assert_eq!(st.rot, 0.0);
}

#[test]
fn substituted_environment_changes_roles() {
    let env = Environment { lookup: vec![("X".to_string(), IdentTy::Var), ("E".to_string(), IdentTy::Const)] };
    let mut checker = StaticChecker::new(env);
    let src = vec![draw(num(0.0), num(1.0), num(1.0), name("X"), name("X"))];
    // `T` is not bound here.
    assert_eq!(checker.check(&src), Err(EngineError::UnknownIdentifier));
    let src = vec![Stmt::Draw(
        Box::new(name("X")),
        Box::new(num(0.0)),
        Box::new(num(1.0)),
        Box::new(num(1.0)),
        Box::new(name("X")),
        Box::new(name("X")),
    )];
    assert_eq!(checker.check(&src), Ok(()));
    // A constant without a known value cannot be folded.
    let env = Environment { lookup: vec![("E".to_string(), IdentTy::Const)] };
    assert_eq!(fold_expr(&env, &arith, &name("E")).unwrap_err(), EngineError::UnknownIdentifier);
}
