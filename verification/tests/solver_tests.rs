use civer::smt::{Formula, Term, Var};
use civer::solver::{outcome_of, solve, verdict_of, CheckResult, SolverOutcome, MAX_TIMEOUT};
use civer::verdict::PossibleResult;
use civer::verification::{conclude, pair_up};
use num_bigint_dig::BigInt;

fn num(v: i64) -> Term {
    Term::Const(BigInt::from(v))
}

#[test]
fn solver_refutes_contradicting_bounds() {
    let x = Var::Signal(1);
    let assertions = vec![
        Formula::Ge(Term::Var(x), num(1)),
        Formula::Le(Term::Var(x), num(0)),
    ];
    let outcome = solve(&assertions, 10_000, &vec![x]);
    assert!(matches!(outcome, SolverOutcome::Unsat));
    assert_eq!(verdict_of(&outcome), PossibleResult::VERIFIED);
}

#[test]
fn solver_finds_the_only_model() {
    let x = Var::Signal(7);
    let y = Var::Shadow(7);
    let assertions = vec![
        Formula::Eq(Term::Var(x), num(5)),
        Formula::Eq(
            Term::Var(y),
            Term::Sub(Box::new(Term::Var(x)), Box::new(num(8))),
        ),
    ];
    let outcome = solve(&assertions, 10_000, &vec![x, y]);
    match &outcome {
        SolverOutcome::Sat(values) => {
            assert_eq!(values.len(), 2);
            assert_eq!(values[0].as_deref(), Some("5"));
            assert_eq!(values[1].as_deref(), Some("(- 3)"));
        }
        other => panic!("expected a model, got {:?}", other),
    }
    assert_eq!(verdict_of(&outcome), PossibleResult::FAILED);
}

fn var(v: Var) -> Term {
    Term::Var(v)
}

fn bin(f: fn(Box<Term>, Box<Term>) -> Term, l: Term, r: Term) -> Term {
    f(Box::new(l), Box::new(r))
}

#[test]
fn solver_reads_every_operator() {
    let x = Var::Signal(1);
    let y = Var::Shadow(1);
    let q = Var::Quotient(0);
    let qa = Var::QuotientA(0);
    let qb = Var::QuotientB(0);
    let qc = Var::QuotientC(0);
    let assertions = vec![
        // x = 17
        Formula::And(
            Box::new(Formula::Gt(var(x), num(16))),
            Box::new(Formula::Lt(var(x), num(18))),
        ),
        // y = -(x div 5) = -3
        Formula::Eq(var(y), Term::Neg(Box::new(bin(Term::Div, var(x), num(5))))),
        // q = x mod 5 = 2
        Formula::Eq(var(q), bin(Term::Mod, var(x), num(5))),
        // qa = x * q + y = 31
        Formula::Eq(var(qa), bin(Term::Add, bin(Term::Mul, var(x), var(q)), var(y))),
        // qb = 1 since q = 2 is false is not the case
        Formula::Iff(
            Box::new(Formula::Eq(var(qb), num(1))),
            Box::new(Formula::Not(Box::new(Formula::Eq(var(q), num(3))))),
        ),
        Formula::Implies(
            Box::new(Formula::Const(true)),
            Box::new(Formula::Or(
                Box::new(Formula::Const(false)),
                Box::new(Formula::Ge(var(qc), bin(Term::Sub, var(qa), num(1)))),
            )),
        ),
        Formula::Le(var(qc), num(30)),
    ];
    let outcome = solve(&assertions, 10_000, &vec![x, y, q, qa, qb, qc]);
    match outcome {
        SolverOutcome::Sat(values) => {
            let texts: Vec<&str> = values.iter().map(|v| v.as_deref().unwrap()).collect();
            assert_eq!(texts, vec!["17", "(- 3)", "2", "31", "1", "30"]);
        }
        other => panic!("expected a model, got {:?}", other),
    }
}

#[test]
fn variables_of_different_kinds_are_different() {
    let kinds = vec![
        Var::Signal(3),
        Var::Shadow(3),
        Var::Quotient(3),
        Var::QuotientA(3),
        Var::QuotientB(3),
        Var::QuotientC(3),
        Var::Signal(4),
    ];
    let mut assertions = Vec::new();
    for (i, v) in kinds.iter().enumerate() {
        assertions.push(Formula::Eq(Term::Var(*v), num(i as i64)));
    }
    match solve(&assertions, 10_000, &kinds) {
        SolverOutcome::Sat(values) => {
            let texts: Vec<&str> = values.iter().map(|v| v.as_deref().unwrap()).collect();
            assert_eq!(texts, vec!["0", "1", "2", "3", "4", "5", "6"]);
        }
        other => panic!("expected a model, got {:?}", other),
    }
}

#[test]
fn solver_out_of_time_gives_no_answer() {
    // x * x = 2 * y * y has no solution in the positive integers, which
    // the solver does not find out
    let x = Var::Signal(1);
    let y = Var::Signal(2);
    let assertions = vec![
        Formula::Ge(var(x), num(1)),
        Formula::Ge(var(y), num(1)),
        Formula::Eq(
            bin(Term::Mul, var(x), var(x)),
            bin(Term::Mul, num(2), bin(Term::Mul, var(y), var(y))),
        ),
    ];
    let outcome = solve(&assertions, 300, &vec![x, y]);
    assert!(matches!(outcome, SolverOutcome::Unknown), "got {:?}", outcome);
    assert_eq!(verdict_of(&outcome), PossibleResult::UNKNOWN);
}

#[test]
fn answer_of_the_solver_decides_the_outcome() {
    let values = vec![Some("4".to_string()), None];
    match outcome_of(CheckResult::Sat, values.clone()) {
        SolverOutcome::Sat(read) => assert_eq!(read, values),
        other => panic!("expected a model, got {:?}", other),
    }
    assert!(matches!(outcome_of(CheckResult::Unsat, values.clone()), SolverOutcome::Unsat));
    assert!(matches!(outcome_of(CheckResult::Unknown, values), SolverOutcome::Unknown));
}

#[test]
fn watched_variables_are_paired_with_their_values() {
    let watch = vec![Var::Signal(1), Var::Signal(2), Var::Shadow(2)];
    let values = vec![Some("4".to_string()), None, Some("(- 1)".to_string())];
    let model = pair_up(&watch, values);
    assert_eq!(
        model,
        vec![
            (Var::Signal(1), Some("4".to_string())),
            (Var::Signal(2), None),
            (Var::Shadow(2), Some("(- 1)".to_string())),
        ]
    );
    assert!(pair_up(&vec![], vec![]).is_empty());
}

#[test]
fn outcome_of_the_solver_concludes_the_attempt() {
    let watch = vec![Var::Signal(1), Var::Signal(2)];
    let failed = conclude(
        &watch,
        3,
        SolverOutcome::Sat(vec![Some("0".to_string()), Some("16".to_string())]),
    );
    assert_eq!(failed.result, PossibleResult::FAILED);
    assert_eq!(failed.left_out, 3);
    assert_eq!(
        failed.model,
        vec![
            (Var::Signal(1), Some("0".to_string())),
            (Var::Signal(2), Some("16".to_string())),
        ]
    );
    let proved = conclude(&watch, 0, SolverOutcome::Unsat);
    assert_eq!(proved.result, PossibleResult::VERIFIED);
    assert!(proved.model.is_empty());
    let open = conclude(&watch, 1, SolverOutcome::Unknown);
    assert_eq!(open.result, PossibleResult::UNKNOWN);
    assert_eq!(open.left_out, 1);
    assert!(open.model.is_empty());
}

#[test]
fn solver_takes_large_and_negative_numerals() {
    let x = Var::Signal(1);
    let large = num_traits::pow(BigInt::from(2), 300);
    let assertions = vec![
        Formula::Eq(Term::Var(x), Term::Const(large.clone())),
    ];
    match solve(&assertions, 10_000, &vec![x]) {
        SolverOutcome::Sat(values) => assert_eq!(values[0], Some(large.to_string())),
        other => panic!("expected a model, got {:?}", other),
    }
    let assertions = vec![
        Formula::Eq(Term::Var(x), Term::Const(-large.clone())),
        Formula::Ge(Term::Var(x), num(0)),
    ];
    assert!(matches!(solve(&assertions, 10_000, &vec![x]), SolverOutcome::Unsat));
}

#[test]
fn time_limit_beyond_the_longest_is_the_longest() {
    assert_eq!(MAX_TIMEOUT, 2147483647);
    // x * x = 2 has no solution in the integers; the solver needs more than
    // no time at all to see it
    let x = Var::Signal(1);
    let square = Term::Mul(Box::new(Term::Var(x)), Box::new(Term::Var(x)));
    let assertions = vec![
        Formula::Eq(square, num(2)),
        Formula::Ge(Term::Var(x), num(0)),
        Formula::Le(Term::Var(x), num(16)),
    ];
    for timeout in [MAX_TIMEOUT, MAX_TIMEOUT + 1, 4294967296, 4294967297, u64::MAX] {
        assert!(
            matches!(solve(&assertions, timeout, &vec![x]), SolverOutcome::Unsat),
            "timeout {}",
            timeout
        );
    }
}
