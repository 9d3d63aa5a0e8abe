//! Laws of scope: which names an evaluation needs, where a binding is
//! visible, and what a function value captures.

use crate::ast::{free_vars, Expr, Range};
use crate::eval::{call_env, eval_within, lemma_outcome, outcome, Env, RuntimeError, ValueView};
use vstd::prelude::*;

verus! {

/// An evaluation that gives a value has found every free variable of the
/// expression bound. This holds of the bodies of function literals too,
/// whether or not the functions are ever called.
pub proof fn lemma_value_needs_free_vars(e: Expr, env: Env, fuel: nat)
    requires
        eval_within(e, env, fuel) matches Some(Ok(_)),
    ensures
        free_vars(e).subset_of(env.dom()),
    decreases e,
{
    match e {
        Expr::Paren(inner, _) => lemma_value_needs_free_vars(*inner, env, fuel),
        Expr::Var(..) | Expr::IntLiteral(..) | Expr::BoolLiteral(..) | Expr::Function { .. } => {},
        Expr::And(l, r) | Expr::Eq(l, r) | Expr::Add(l, r) => {
            lemma_value_needs_free_vars(*l, env, fuel);
            lemma_value_needs_free_vars(*r, env, fuel);
        },
        Expr::LApp(func, arg) | Expr::RApp(arg, func) => {
            lemma_value_needs_free_vars(*func, env, fuel);
            lemma_value_needs_free_vars(*arg, env, fuel);
        },
        Expr::Let { name, right, body, .. } => {
            lemma_value_needs_free_vars(*right, env, fuel);
            let bound = eval_within(*right, env, fuel)->0->Ok_0;
            lemma_value_needs_free_vars(*body, env.insert(name, bound), fuel);
        },
    }
}

/// A program that evaluates to a value with no name in scope has no free
/// variable.
pub proof fn lemma_evaluated_program_is_closed(e: Expr, fuel: nat)
    requires
        eval_within(e, Env::empty(), fuel) matches Some(Ok(_)),
    ensures
        free_vars(e) == Set::<Seq<char>>::empty(),
{
    lemma_value_needs_free_vars(e, Env::empty(), fuel);
    assert(free_vars(e) =~= Set::<Seq<char>>::empty());
}

/// A function literal evaluates at once, whatever its body: to a function
/// value where every free variable of the literal is bound, and to an error
/// where one is not. The value holds the parameter, the body, and the
/// bindings of exactly those free variables as they are in `env`.
pub proof fn lemma_function_literal(e: Expr, env: Env, fuel: nat)
    requires
        e is Function,
    ensures
        free_vars(e).subset_of(env.dom()) ==> eval_within(e, env, fuel) == Some(
            Ok::<ValueView, RuntimeError>(
                ValueView::Function {
                    input_var: e->input.0,
                    ret: *e->ret,
                    captured: env.restrict(free_vars(e)),
                },
            ),
        ),
        !free_vars(e).subset_of(env.dom()) ==> eval_within(e, env, fuel) == Some(
            Err::<ValueView, RuntimeError>(RuntimeError()),
        ),
{
}

/// With no name in scope, a function literal is accepted exactly where it
/// has no free variable.
pub proof fn lemma_function_literal_at_top_level(e: Expr)
    requires
        e is Function,
    ensures
        outcome(e, Env::empty()) is Ok <==> free_vars(e) == Set::<Seq<char>>::empty(),
{
    lemma_function_literal(e, Env::empty(), 0);
    lemma_outcome(e, Env::empty(), 0);
    if free_vars(e).subset_of(Env::empty().dom()) {
        assert(free_vars(e) =~= Set::<Seq<char>>::empty());
    }
}

/// The binding of a `let` is visible in its body and nowhere else. Where
/// `name` is unbound in `env`, a `let` of `name` evaluated in `env` leaves
/// `name` unbound for what is evaluated after it in `env`: a reference to
/// `name` fails, alone and as the second operand after the `let`, whether
/// the `let` gave a value or not.
pub proof fn lemma_let_binding_is_local(
    name: Seq<char>,
    right: Expr,
    body: Expr,
    range: Range,
    at: Range,
    env: Env,
    fuel: nat,
)
    requires
        !env.contains_key(name),
    ensures
        eval_within(Expr::Var(name, at), env, fuel) == Some(
            Err::<ValueView, RuntimeError>(RuntimeError()),
        ),
        ({
            let bind = Box::new(Expr::Let { name, right: Box::new(right), body: Box::new(body), range });
            let after = Box::new(Expr::Var(name, at));
            &&& !(eval_within(Expr::Add(bind, after), env, fuel) matches Some(Ok(_)))
            &&& !(eval_within(Expr::Eq(bind, after), env, fuel) matches Some(Ok(_)))
            &&& !(eval_within(Expr::And(bind, after), env, fuel) matches Some(Ok(_)))
        }),
{
}

/// The body of a `let` sees the bound value under the bound name, and the
/// enclosing scope otherwise; an enclosing binding of the same name is
/// shadowed in the body only.
pub proof fn lemma_let_shadows_in_body(
    name: Seq<char>,
    right: Expr,
    body: Expr,
    range: Range,
    env: Env,
    fuel: nat,
)
    ensures
        eval_within(
            Expr::Let { name, right: Box::new(right), body: Box::new(body), range },
            env,
            fuel,
        ) == match eval_within(right, env, fuel) {
            Some(Ok(bound)) => eval_within(body, env.insert(name, bound), fuel),
            other => other,
        },
{
}

/// Capture is eager. A function literal with a free variable that is
/// unbound where the literal stands fails there, so a `let` that binds such
/// a literal fails whatever its body binds or calls later.
pub proof fn lemma_capture_is_eager(
    name: Seq<char>,
    func: Expr,
    body: Expr,
    range: Range,
    env: Env,
    fuel: nat,
)
    requires
        func is Function,
        !free_vars(func).subset_of(env.dom()),
    ensures
        eval_within(
            Expr::Let { name, right: Box::new(func), body: Box::new(body), range },
            env,
            fuel,
        ) == Some(Err::<ValueView, RuntimeError>(RuntimeError())),
{
    lemma_function_literal(func, env, fuel);
}

/// Capture is a snapshot. In the body of a called function value, a
/// captured name has its captured value, whatever the caller's scope binds
/// it to; the parameter has the argument.
pub proof fn lemma_call_sees_captured(
    caller: Env,
    captured: Env,
    input_var: Seq<char>,
    arg: ValueView,
    n: Seq<char>,
)
    ensures
        call_env(caller, captured, input_var, arg)[input_var] == arg,
        captured.contains_key(n) && n != input_var ==> call_env(caller, captured, input_var, arg)[n]
            == captured[n],
{
}

/// Whether a value needs nothing of the scope it is used in: a function
/// value is self-contained where it has captured every free variable of its
/// body but the parameter, and every captured value is self-contained.
pub open spec fn self_contained(v: ValueView) -> bool
    decreases v,
{
    match v {
        ValueView::Function { input_var, ret, captured } => {
            &&& free_vars(ret).remove(input_var).subset_of(captured.dom())
            &&& forall|n: Seq<char>| #[trigger]
                captured.contains_key(n) ==> self_contained(captured[n])
        },
        _ => true,
    }
}

/// Whether two environments say the same of every name in `names`.
pub open spec fn same_on(env1: Env, env2: Env, names: Set<Seq<char>>) -> bool {
    forall|n: Seq<char>| #[trigger]
        names.contains(n) ==> env1.contains_key(n) == env2.contains_key(n) && (
        env1.contains_key(n) ==> env1[n] == env2[n])
}

/// Whether every value that `env` binds to a name in `names` is
/// self-contained.
pub open spec fn self_contained_on(env: Env, names: Set<Seq<char>>) -> bool {
    forall|n: Seq<char>| #[trigger]
        names.contains(n) && env.contains_key(n) ==> self_contained(env[n])
}

/// An evaluation depends on the values of the free variables of the
/// expression only, where these are self-contained; and then its value is
/// self-contained too.
pub proof fn lemma_depends_on_free_vars(e: Expr, env1: Env, env2: Env, fuel: nat)
    requires
        same_on(env1, env2, free_vars(e)),
        self_contained_on(env1, free_vars(e)),
    ensures
        eval_within(e, env1, fuel) == eval_within(e, env2, fuel),
        eval_within(e, env1, fuel) matches Some(Ok(v)) ==> self_contained(v),
    decreases fuel, e, 0nat,
{
    match e {
        Expr::Paren(inner, _) => lemma_depends_on_free_vars(*inner, env1, env2, fuel),
        Expr::Var(name, _) => {
            assert(free_vars(e).contains(name));
        },
        Expr::IntLiteral(..) | Expr::BoolLiteral(..) => {},
        Expr::And(l, r) | Expr::Eq(l, r) | Expr::Add(l, r) => {
            assert forall|n: Seq<char>| free_vars(*l).contains(n) || free_vars(*r).contains(
                n,
            ) implies free_vars(e).contains(n) by {}
            lemma_depends_on_free_vars(*l, env1, env2, fuel);
            lemma_depends_on_free_vars(*r, env1, env2, fuel);
        },
        Expr::Let { name, right, body, .. } => {
            assert forall|n: Seq<char>| free_vars(*right).contains(n) || (free_vars(
                *body,
            ).contains(n) && n != name) implies free_vars(e).contains(n) by {}
            lemma_depends_on_free_vars(*right, env1, env2, fuel);
            if let Some(Ok(bound)) = eval_within(*right, env1, fuel) {
                lemma_depends_on_free_vars(
                    *body,
                    env1.insert(name, bound),
                    env2.insert(name, bound),
                    fuel,
                );
            }
        },
        Expr::Function { input, ret, .. } => {
            let names = free_vars(*ret).remove(input.0);
            if names.subset_of(env1.dom()) {
                assert(names.subset_of(env2.dom())) by {
                    assert forall|n: Seq<char>| names.contains(n) implies env2.dom().contains(n) by {
                        assert(free_vars(e).contains(n));
                        assert(env1.dom().contains(n));
                    }
                }
                assert(env1.restrict(names) =~= env2.restrict(names));
            } else {
                let n = choose|n: Seq<char>| names.contains(n) && !env1.dom().contains(n);
                assert(free_vars(e).contains(n));
                assert(!env2.dom().contains(n));
            }
        },
        Expr::LApp(func, arg) | Expr::RApp(arg, func) => {
            assert forall|n: Seq<char>| free_vars(*func).contains(n) || free_vars(*arg).contains(
                n,
            ) implies free_vars(e).contains(n) by {}
            lemma_depends_on_free_vars(*func, env1, env2, fuel);
            lemma_depends_on_free_vars(*arg, env1, env2, fuel);
            if let Some(Ok(f)) = eval_within(*func, env1, fuel) {
                if let Some(Ok(a)) = eval_within(*arg, env1, fuel) {
                    if f is Function && fuel > 0 {
                        lemma_call_ignores_caller(f, a, env1, env2, (fuel - 1) as nat);
                    }
                }
            }
        },
    }
}

/// A function value is self-contained: what a call of it gives does not
/// depend on the scope it is called from, so no binding made after the
/// function can change it. The value that the call gives is self-contained
/// too.
pub proof fn lemma_call_ignores_caller(
    f: ValueView,
    arg: ValueView,
    caller1: Env,
    caller2: Env,
    fuel: nat,
)
    requires
        f is Function,
        self_contained(f),
        self_contained(arg),
    ensures
        eval_within(f->ret, call_env(caller1, f->captured, f->input_var, arg), fuel)
            == eval_within(f->ret, call_env(caller2, f->captured, f->input_var, arg), fuel),
        eval_within(
            f->ret,
            call_env(caller1, f->captured, f->input_var, arg),
            fuel,
        ) matches Some(Ok(v)) ==> self_contained(v),
    decreases fuel, f->ret, 1nat,
{
    let inner1 = call_env(caller1, f->captured, f->input_var, arg);
    let inner2 = call_env(caller2, f->captured, f->input_var, arg);
    assert forall|n: Seq<char>| #[trigger] free_vars(f->ret).contains(n) implies inner1.contains_key(
        n,
    ) && inner2.contains_key(n) && inner1[n] == inner2[n] && self_contained(inner1[n]) by {
        if n != f->input_var {
            assert(free_vars(f->ret).remove(f->input_var).contains(n));
            assert(f->captured.contains_key(n));
        }
    }
    lemma_depends_on_free_vars(f->ret, inner1, inner2, fuel);
}

/// A value made with nothing but self-contained values in scope is
/// self-contained. So is every value that a program gives with no name in
/// scope.
pub proof fn lemma_values_are_self_contained(e: Expr, env: Env, fuel: nat)
    requires
        self_contained_on(env, free_vars(e)),
    ensures
        eval_within(e, env, fuel) matches Some(Ok(v)) ==> self_contained(v),
{
    lemma_depends_on_free_vars(e, env, env, fuel);
}

} // verus!
