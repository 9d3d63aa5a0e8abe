//! Type soundness: an expression that the typing rules accept evaluates, in
//! every environment that fits the type environment, to a value of its type.
//! In particular its evaluation comes to an end.

use crate::ast::{free_vars, Expr};
use crate::eval::{
    call_env, converges, eval_within, lemma_more_fuel, lemma_outcome, outcome, Env, ValueView,
};
use crate::typechecker::{annotated_type, type_of, Type, TypeEnv};
use vstd::prelude::*;

verus! {

/// Whether a value is of the kind that a type names: an integer for `Int`,
/// a boolean for `Bool`, a function value for a function type.
pub open spec fn kind_matches(v: ValueView, t: Type) -> bool {
    match t {
        Type::Int => v is I32,
        Type::Bool => v is Bool,
        Type::Function(_) => v is Function,
    }
}

/// Whether a value behaves as a value of type `t`. A function value has the
/// type `a -> b` where, called from any environment on any argument of type
/// `a`, it returns a value of type `b`.
pub open spec fn has_type(v: ValueView, t: Type) -> bool
    decreases t, 0nat,
{
    match t {
        Type::Int => v is I32,
        Type::Bool => v is Bool,
        Type::Function(pair) => match v {
            ValueView::Function { input_var, ret, captured } => forall|env: Env, arg: ValueView|
                #![trigger call_env(env, captured, input_var, arg)]
                has_type(arg, pair.0) ==> evaluates_to(
                    ret,
                    call_env(env, captured, input_var, arg),
                    pair.1,
                ),
            _ => false,
        },
    }
}

/// Whether the evaluation of `e` in `env` ends with a value of type `t`.
pub open spec fn evaluates_to(e: Expr, env: Env, t: Type) -> bool
    decreases t, 1nat,
{
    exists|fuel: nat|
        match #[trigger] eval_within(e, env, fuel) {
            Some(Ok(r)) => has_type(r, t),
            _ => false,
        }
}

/// Whether `env` binds every name that `gamma` types to a value of that
/// type.
pub open spec fn env_fits(env: Env, gamma: TypeEnv) -> bool {
    forall|n: Seq<char>| #[trigger]
        gamma.contains_key(n) ==> env.contains_key(n) && has_type(env[n], gamma[n])
}

/// Whether two type environments say the same of every name in `names`.
pub open spec fn agree_on(g1: TypeEnv, g2: TypeEnv, names: Set<Seq<char>>) -> bool {
    forall|n: Seq<char>| #[trigger]
        names.contains(n) ==> g1.contains_key(n) == g2.contains_key(n) && (g1.contains_key(n)
            ==> g1[n] == g2[n])
}

/// The type of an expression depends on the types of its free variables
/// only.
pub proof fn lemma_type_of_free_vars(e: Expr, g1: TypeEnv, g2: TypeEnv)
    requires
        agree_on(g1, g2, free_vars(e)),
    ensures
        type_of(e, g1) == type_of(e, g2),
    decreases e,
{
    match e {
        Expr::Paren(inner, _) => lemma_type_of_free_vars(*inner, g1, g2),
        Expr::Var(name, _) => {
            assert(free_vars(e).contains(name));
        },
        Expr::IntLiteral(..) | Expr::BoolLiteral(..) => {},
        Expr::And(l, r) | Expr::Eq(l, r) | Expr::Add(l, r) | Expr::LApp(l, r) | Expr::RApp(
            l,
            r,
        ) => {
            assert forall|n: Seq<char>| free_vars(*l).contains(n) implies free_vars(e).contains(
                n,
            ) by {}
            assert forall|n: Seq<char>| free_vars(*r).contains(n) implies free_vars(e).contains(
                n,
            ) by {}
            lemma_type_of_free_vars(*l, g1, g2);
            lemma_type_of_free_vars(*r, g1, g2);
        },
        Expr::Let { name, right, body, .. } => {
            assert forall|n: Seq<char>| free_vars(*right).contains(n) implies free_vars(
                e,
            ).contains(n) by {}
            lemma_type_of_free_vars(*right, g1, g2);
            if let Ok(bound) = type_of(*right, g1) {
                assert forall|n: Seq<char>| free_vars(*body).contains(n) && n != name implies free_vars(
                    e,
                ).contains(n) by {}
                lemma_type_of_free_vars(*body, g1.insert(name, bound), g2.insert(name, bound));
            }
        },
        Expr::Function { input, input_type, ret } => {
            let param = annotated_type(input_type);
            assert forall|n: Seq<char>| free_vars(*ret).contains(n) && n != input.0 implies free_vars(
                e,
            ).contains(n) by {}
            lemma_type_of_free_vars(*ret, g1.insert(input.0, param), g2.insert(input.0, param));
        },
    }
}

/// An expression that has a type mentions no name free that the type
/// environment lacks.
pub proof fn lemma_typed_is_bound(e: Expr, gamma: TypeEnv)
    requires
        type_of(e, gamma) is Ok,
    ensures
        free_vars(e).subset_of(gamma.dom()),
    decreases e,
{
    match e {
        Expr::Paren(inner, _) => lemma_typed_is_bound(*inner, gamma),
        Expr::Var(..) | Expr::IntLiteral(..) | Expr::BoolLiteral(..) => {},
        Expr::And(l, r) | Expr::Eq(l, r) | Expr::Add(l, r) | Expr::LApp(l, r) | Expr::RApp(
            l,
            r,
        ) => {
            lemma_typed_is_bound(*l, gamma);
            lemma_typed_is_bound(*r, gamma);
        },
        Expr::Let { name, right, body, .. } => {
            lemma_typed_is_bound(*right, gamma);
            lemma_typed_is_bound(*body, gamma.insert(name, type_of(*right, gamma)->Ok_0));
        },
        Expr::Function { input, input_type, ret } => {
            lemma_typed_is_bound(*ret, gamma.insert(input.0, annotated_type(input_type)));
        },
    }
}

/// The function value that a well-typed function literal makes has the
/// type of the literal.
proof fn lemma_closure_has_type(
    e: Expr,
    gamma: TypeEnv,
    env: Env,
)
    requires
        e is Function,
        type_of(e, gamma) is Ok,
        env_fits(env, gamma),
        forall|g: TypeEnv, inner: Env|
            type_of(*e->ret, g) is Ok && env_fits(inner, g) ==> #[trigger] evaluates_to(
                *e->ret,
                inner,
                type_of(*e->ret, g)->Ok_0,
            ),
    ensures
        match eval_within(e, env, 0) {
            Some(Ok(v)) => has_type(v, type_of(e, gamma)->Ok_0),
            _ => false,
        },
{
    let ret = e->ret;
    let x = e->input.0;
    let param = annotated_type(e->input_type);
    let inner_gamma = gamma.insert(x, param);
    let result = type_of(*ret, inner_gamma)->Ok_0;
    let names = free_vars(*ret).remove(x);
    lemma_typed_is_bound(*ret, inner_gamma);
    assert(names.subset_of(env.dom())) by {
        assert forall|n: Seq<char>| names.contains(n) implies env.dom().contains(n) by {
            assert(inner_gamma.dom().contains(n));
            assert(gamma.contains_key(n));
        }
    }
    let captured = env.restrict(names);
    let v = ValueView::Function { input_var: x, ret: *ret, captured };
    assert(eval_within(e, env, 0) == Some(Ok::<ValueView, crate::eval::RuntimeError>(v)));
    let small = inner_gamma.restrict(free_vars(*ret));
    assert(agree_on(inner_gamma, small, free_vars(*ret)));
    lemma_type_of_free_vars(*ret, inner_gamma, small);
    assert forall|outer: Env, arg: ValueView|
        #![trigger call_env(outer, captured, x, arg)]
        has_type(arg, param) implies evaluates_to(*ret, call_env(outer, captured, x, arg), result) by {
        let inner = call_env(outer, captured, x, arg);
        assert(env_fits(inner, small)) by {
            assert forall|n: Seq<char>| #[trigger] small.contains_key(n) implies inner.contains_key(
                n,
            ) && has_type(inner[n], small[n]) by {
                if n != x {
                    assert(names.contains(n));
                    assert(gamma.contains_key(n));
                    assert(captured.contains_key(n));
                    assert(inner[n] == env[n]);
                }
            }
        }
        assert(evaluates_to(*ret, inner, type_of(*ret, small)->Ok_0));
    }
    assert(has_type(v, Type::Function(std::rc::Rc::new((param, result)))));
}

/// Type soundness. Where `e` has a type under `gamma` and `env` fits
/// `gamma`, the evaluation of `e` in `env` ends, within the depth returned,
/// with a value of that type.
pub proof fn lemma_sound(e: Expr, gamma: TypeEnv, env: Env) -> (fuel: nat)
    requires
        type_of(e, gamma) is Ok,
        env_fits(env, gamma),
    ensures
        match eval_within(e, env, fuel) {
            Some(Ok(v)) => has_type(v, type_of(e, gamma)->Ok_0),
            _ => false,
        },
    decreases e,
{
    match e {
        Expr::Paren(inner, _) => lemma_sound(*inner, gamma, env),
        Expr::Var(name, _) => {
            assert(gamma.contains_key(name));
            0
        },
        Expr::IntLiteral(..) | Expr::BoolLiteral(..) => 0,
        Expr::And(l, r) | Expr::Eq(l, r) | Expr::Add(l, r) => {
            let f1 = lemma_sound(*l, gamma, env);
            let f2 = lemma_sound(*r, gamma, env);
            let fuel = if f1 <= f2 {
                f2
            } else {
                f1
            };
            lemma_more_fuel(*l, env, f1, fuel);
            lemma_more_fuel(*r, env, f2, fuel);
            fuel
        },
        Expr::Let { name, right, body, .. } => {
            let f1 = lemma_sound(*right, gamma, env);
            let bound_type = type_of(*right, gamma)->Ok_0;
            let bound = eval_within(*right, env, f1)->0->Ok_0;
            let inner_gamma = gamma.insert(name, bound_type);
            let inner = env.insert(name, bound);
            assert(env_fits(inner, inner_gamma)) by {
                assert forall|n: Seq<char>| #[trigger]
                    inner_gamma.contains_key(n) implies inner.contains_key(n) && has_type(
                    inner[n],
                    inner_gamma[n],
                ) by {
                    if n != name {
                        assert(gamma.contains_key(n));
                    }
                }
            }
            let f2 = lemma_sound(*body, inner_gamma, inner);
            let fuel = if f1 <= f2 {
                f2
            } else {
                f1
            };
            lemma_more_fuel(*right, env, f1, fuel);
            lemma_more_fuel(*body, inner, f2, fuel);
            fuel
        },
        Expr::Function { input, input_type, ret } => {
            assert forall|g: TypeEnv, inner: Env|
                type_of(*ret, g) is Ok && env_fits(inner, g) implies #[trigger] evaluates_to(
                *ret,
                inner,
                type_of(*ret, g)->Ok_0,
            ) by {
                let f = lemma_sound(*ret, g, inner);
                assert(eval_within(*ret, inner, f) is Some);
            }
            lemma_closure_has_type(e, gamma, env);
            0
        },
        Expr::LApp(func, arg) | Expr::RApp(arg, func) => {
            let f1 = lemma_sound(*func, gamma, env);
            let f2 = lemma_sound(*arg, gamma, env);
            let vf = eval_within(*func, env, f1)->0->Ok_0;
            let va = eval_within(*arg, env, f2)->0->Ok_0;
            let tf = type_of(*func, gamma)->Ok_0;
            let pair = tf->Function_0;
            let (input_var, ret, captured) = (vf->input_var, vf->ret, vf->captured);
            let inner = call_env(env, captured, input_var, va);
            assert(has_type(va, pair.0));
            assert(evaluates_to(ret, inner, pair.1));
            let f3 = choose|f: nat|
                match #[trigger] eval_within(ret, inner, f) {
                    Some(Ok(r)) => has_type(r, pair.1),
                    _ => false,
                };
            let m = if f1 <= f2 {
                f2
            } else {
                f1
            };
            let fuel = if m <= f3 + 1 {
                f3 + 1
            } else {
                m
            };
            lemma_more_fuel(*func, env, f1, fuel);
            lemma_more_fuel(*arg, env, f2, fuel);
            lemma_more_fuel(ret, inner, f3, (fuel - 1) as nat);
            fuel
        },
    }
}

/// An expression that has a type with no name in scope has no free
/// variable.
pub proof fn lemma_well_typed_program_is_closed(e: Expr)
    requires
        type_of(e, TypeEnv::empty()) is Ok,
    ensures
        free_vars(e) == Set::<Seq<char>>::empty(),
{
    lemma_typed_is_bound(e, TypeEnv::empty());
    assert(free_vars(e) =~= Set::<Seq<char>>::empty());
}

/// A program that has the type `t` with no name in scope evaluates, with no
/// name in scope: its evaluation ends, gives a value and no error, and the
/// value is of the kind that `t` names.
pub proof fn lemma_well_typed_program_evaluates(e: Expr, t: Type)
    requires
        type_of(e, TypeEnv::empty()) == Ok::<Type, ()>(t),
    ensures
        converges(e, Env::empty()),
        outcome(e, Env::empty()) is Ok,
        has_type(outcome(e, Env::empty())->Ok_0, t),
        kind_matches(outcome(e, Env::empty())->Ok_0, t),
{
    let fuel = lemma_sound(e, TypeEnv::empty(), Env::empty());
    lemma_outcome(e, Env::empty(), fuel);
}

} // verus!
