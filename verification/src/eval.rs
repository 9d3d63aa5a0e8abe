//! The evaluator: runtime values, the meaning of an expression as a function
//! of the expression and an environment, and an evaluator that computes it.

use crate::ast::{free_vars, name_views, Ast, Expr};
use vstd::prelude::*;

verus! {

/// The one error of evaluation: a name that is not bound, an operand of the
/// wrong kind, or the application of a value that is no function.
#[derive(Debug, PartialEq)]
pub struct RuntimeError();

impl Clone for RuntimeError {
    fn clone(&self) -> (res: Self)
        ensures
            res == *self,
    {
        RuntimeError()
    }
}

/// What an evaluation gives: a value, or the error.
pub type Result<T> = std::result::Result<T, RuntimeError>;

/// A runtime value.
#[derive(Debug)]
pub enum Value {
    I32(i32),
    Bool(bool),
    /// A function together with the values that the free variables of its
    /// body had when it was made. Where a name occurs twice in `captured`,
    /// the later entry counts.
    Function { input_var: String, ret: Ast, captured: Vec<(String, Value)> },
}

/// The mathematical model of a [`Value`].
pub enum ValueView {
    I32(i32),
    Bool(bool),
    Function { input_var: Seq<char>, ret: Expr, captured: Map<Seq<char>, ValueView> },
}

/// An environment: the value of each name in scope.
pub type Env = Map<Seq<char>, ValueView>;

/// The model of a value.
pub open spec fn value_view(v: Value) -> ValueView
    decreases v, 0nat,
{
    match v {
        Value::I32(i) => ValueView::I32(i),
        Value::Bool(b) => ValueView::Bool(b),
        Value::Function { input_var, ret, captured } => ValueView::Function {
            input_var: input_var@,
            ret: ret@,
            captured: bindings_upto(captured, captured.len() as nat),
        },
    }
}

/// The environment that the first `n` bindings of a list stand for: each
/// name has the value of its last binding among them.
pub open spec fn bindings_upto(v: Vec<(String, Value)>, n: nat) -> Env
    decreases v, n,
{
    if n == 0 || n > v.len() {
        Map::empty()
    } else {
        bindings_upto(v, (n - 1) as nat).insert(v[n - 1].0@, value_view(v[n - 1].1))
    }
}

/// The environment that a list of bindings stands for.
pub open spec fn bindings(v: Vec<(String, Value)>) -> Env {
    bindings_upto(v, v.len() as nat)
}

impl View for Value {
    type V = ValueView;

    open spec fn view(&self) -> ValueView {
        value_view(*self)
    }
}

/// The model of the result of an evaluation.
pub open spec fn result_view(r: Result<Value>) -> Result<ValueView> {
    match r {
        Ok(v) => Ok(v@),
        Err(e) => Err(e),
    }
}

/// The sum of two `i32` in two's complement, without regard to overflow.
pub open spec fn wrapped_sum(a: i32, b: i32) -> i32 {
    if a + b > i32::MAX {
        (a + b - 0x1_0000_0000) as i32
    } else if a + b < i32::MIN {
        (a + b + 0x1_0000_0000) as i32
    } else {
        (a + b) as i32
    }
}

/// Conjunction: of two booleans only.
pub open spec fn prim_and(a: ValueView, b: ValueView) -> Result<ValueView> {
    match (a, b) {
        (ValueView::Bool(x), ValueView::Bool(y)) => Ok(ValueView::Bool(x && y)),
        _ => Err(RuntimeError()),
    }
}

/// Equality: of two integers or of two booleans only.
pub open spec fn prim_eq(a: ValueView, b: ValueView) -> Result<bool> {
    match (a, b) {
        (ValueView::Bool(x), ValueView::Bool(y)) => Ok(x == y),
        (ValueView::I32(x), ValueView::I32(y)) => Ok(x == y),
        _ => Err(RuntimeError()),
    }
}

/// Addition: of two integers only; the sum wraps around.
pub open spec fn prim_add(a: ValueView, b: ValueView) -> Result<ValueView> {
    match (a, b) {
        (ValueView::I32(x), ValueView::I32(y)) => Ok(ValueView::I32(wrapped_sum(x, y))),
        _ => Err(RuntimeError()),
    }
}

/// How an evaluation with a bound on the depth of calls ends: `None` where
/// the bound was reached, else the value or the error.
pub type Outcome = Option<Result<ValueView>>;

/// The outcomes of two evaluations made one after the other, the second
/// only where the first gave a value.
pub open spec fn both(first: Outcome, second: Outcome) -> Option<Result<(ValueView, ValueView)>> {
    match first {
        None => None,
        Some(Err(e)) => Some(Err(e)),
        Some(Ok(a)) => match second {
            None => None,
            Some(Err(e)) => Some(Err(e)),
            Some(Ok(b)) => Some(Ok((a, b))),
        },
    }
}

/// The environment in which the body of a function value runs when it is
/// called from `env`: `env`, then the captured bindings, then the parameter.
pub open spec fn call_env(env: Env, captured: Env, input_var: Seq<char>, arg: ValueView) -> Env {
    env.union_prefer_right(captured).insert(input_var, arg)
}

/// The meaning of `e` in `env`, as far as it is reached with calls nested at
/// most `fuel` deep.
///
/// Operands are evaluated left to right, except that an application
/// evaluates the function before the argument, whichever side it stands on.
/// A function literal captures the values of its free variables, and fails
/// where one of them is unbound.
pub open spec fn eval_within(e: Expr, env: Env, fuel: nat) -> Outcome
    decreases fuel, e,
{
    match e {
        Expr::Paren(inner, _) => eval_within(*inner, env, fuel),
        Expr::Var(name, _) => if env.contains_key(name) {
            Some(Ok(env[name]))
        } else {
            Some(Err(RuntimeError()))
        },
        Expr::IntLiteral(i, _) => Some(Ok(ValueView::I32(i))),
        Expr::BoolLiteral(b, _) => Some(Ok(ValueView::Bool(b))),
        Expr::And(l, r) => match both(eval_within(*l, env, fuel), eval_within(*r, env, fuel)) {
            None => None,
            Some(Err(e)) => Some(Err(e)),
            Some(Ok((a, b))) => Some(prim_and(a, b)),
        },
        Expr::Eq(l, r) => match both(eval_within(*l, env, fuel), eval_within(*r, env, fuel)) {
            None => None,
            Some(Err(e)) => Some(Err(e)),
            Some(Ok((a, b))) => match prim_eq(a, b) {
                Ok(same) => Some(Ok(ValueView::Bool(same))),
                Err(e) => Some(Err(e)),
            },
        },
        Expr::Add(l, r) => match both(eval_within(*l, env, fuel), eval_within(*r, env, fuel)) {
            None => None,
            Some(Err(e)) => Some(Err(e)),
            Some(Ok((a, b))) => Some(prim_add(a, b)),
        },
        Expr::Let { name, right, body, .. } => match eval_within(*right, env, fuel) {
            None => None,
            Some(Err(e)) => Some(Err(e)),
            Some(Ok(bound)) => eval_within(*body, env.insert(name, bound), fuel),
        },
        Expr::Function { input, ret, .. } => {
            let names = free_vars(*ret).remove(input.0);
            if names.subset_of(env.dom()) {
                Some(
                    Ok(
                        ValueView::Function {
                            input_var: input.0,
                            ret: *ret,
                            captured: env.restrict(names),
                        },
                    ),
                )
            } else {
                Some(Err(RuntimeError()))
            }
        },
        Expr::LApp(func, arg) | Expr::RApp(arg, func) => match both(
            eval_within(*func, env, fuel),
            eval_within(*arg, env, fuel),
        ) {
            None => None,
            Some(Err(e)) => Some(Err(e)),
            Some(Ok((f, a))) => match f {
                ValueView::Function { input_var, ret, captured } => if fuel == 0 {
                    None
                } else {
                    eval_within(ret, call_env(env, captured, input_var, a), (fuel - 1) as nat)
                },
                _ => Some(Err(RuntimeError())),
            },
        },
    }
}

/// Whether the evaluation of `e` in `env` comes to an end.
pub open spec fn converges(e: Expr, env: Env) -> bool {
    exists|fuel: nat| (#[trigger] eval_within(e, env, fuel)) is Some
}

/// The meaning of `e` in `env`, where its evaluation comes to an end.
pub open spec fn outcome(e: Expr, env: Env) -> Result<ValueView> {
    eval_within(e, env, choose|fuel: nat| (#[trigger] eval_within(e, env, fuel)) is Some)->0
}

/// An evaluation that has ended within some bound ends the same way within
/// every larger bound.
pub proof fn lemma_more_fuel(e: Expr, env: Env, fuel: nat, more: nat)
    requires
        eval_within(e, env, fuel) is Some,
        fuel <= more,
    ensures
        eval_within(e, env, more) == eval_within(e, env, fuel),
    decreases fuel, e,
{
    match e {
        Expr::Paren(inner, _) => lemma_more_fuel(*inner, env, fuel, more),
        Expr::Var(..) | Expr::IntLiteral(..) | Expr::BoolLiteral(..) | Expr::Function { .. } => {},
        Expr::And(l, r) | Expr::Eq(l, r) | Expr::Add(l, r) => {
            lemma_more_fuel(*l, env, fuel, more);
            if eval_within(*l, env, fuel) matches Some(Ok(_)) {
                lemma_more_fuel(*r, env, fuel, more);
            }
        },
        Expr::Let { name, right, body, .. } => {
            lemma_more_fuel(*right, env, fuel, more);
            if let Some(Ok(bound)) = eval_within(*right, env, fuel) {
                lemma_more_fuel(*body, env.insert(name, bound), fuel, more);
            }
        },
        Expr::LApp(func, arg) | Expr::RApp(arg, func) => {
            lemma_more_fuel(*func, env, fuel, more);
            if let Some(Ok(f)) = eval_within(*func, env, fuel) {
                lemma_more_fuel(*arg, env, fuel, more);
                if let Some(Ok(a)) = eval_within(*arg, env, fuel) {
                    if let ValueView::Function { input_var, ret, captured } = f {
                        lemma_more_fuel(
                            ret,
                            call_env(env, captured, input_var, a),
                            (fuel - 1) as nat,
                            (more - 1) as nat,
                        );
                    }
                }
            }
        },
    }
}

/// Where an evaluation ends within some bound, that is its outcome.
pub proof fn lemma_outcome(e: Expr, env: Env, fuel: nat)
    requires
        eval_within(e, env, fuel) is Some,
    ensures
        converges(e, env),
        eval_within(e, env, fuel) == Some(outcome(e, env)),
{
    let chosen = choose|f: nat| (#[trigger] eval_within(e, env, f)) is Some;
    if chosen <= fuel {
        lemma_more_fuel(e, env, chosen, fuel);
    } else {
        lemma_more_fuel(e, env, fuel, chosen);
    }
}

/// The first `n` bindings of two lists stand for the same environment where
/// they agree, one by one, in the models of their names and values.
pub proof fn lemma_bindings_agree(v: Vec<(String, Value)>, w: Vec<(String, Value)>, n: nat)
    requires
        n <= v.len(),
        n <= w.len(),
        forall|i: int|
            0 <= i < n ==> (#[trigger] v[i]).0@ == w[i].0@ && value_view(v[i].1) == value_view(
                w[i].1,
            ),
    ensures
        bindings_upto(v, n) == bindings_upto(w, n),
    decreases n,
{
    if n > 0 {
        lemma_bindings_agree(v, w, (n - 1) as nat);
        assert(v[n - 1].0@ == w[n - 1].0@);
    }
}

/// A list that is one list followed by another stands for the environment
/// of the first, overridden by that of the second.
pub proof fn lemma_bindings_concat(
    v: Vec<(String, Value)>,
    head: Vec<(String, Value)>,
    tail: Vec<(String, Value)>,
    n: nat,
)
    requires
        v@ == head@ + tail@,
        n <= tail.len(),
    ensures
        bindings_upto(v, (head.len() + n) as nat) == bindings(head).union_prefer_right(
            bindings_upto(tail, n),
        ),
    decreases n,
{
    if n == 0 {
        assert forall|i: int| 0 <= i < head.len() implies (#[trigger] v[i]) == head[i] by {}
        lemma_bindings_agree(v, head, head.len() as nat);
        assert(bindings_upto(v, head.len() as nat) =~= bindings(head).union_prefer_right(
            bindings_upto(tail, 0),
        ));
    } else {
        lemma_bindings_concat(v, head, tail, (n - 1) as nat);
        assert(v[head.len() + n - 1] == tail[n - 1]);
        assert(bindings_upto(v, (head.len() + n) as nat) =~= bindings(head).union_prefer_right(
            bindings_upto(tail, n),
        ));
    }
}

/// A list of bindings with distinct names, each bound to the value that
/// `env` gives it, stands for `env` restricted to those names.
pub proof fn lemma_bindings_restrict(v: Vec<(String, Value)>, names: Seq<Seq<char>>, env: Env, n: nat)
    requires
        n <= v.len(),
        n <= names.len(),
        forall|i: int|
            0 <= i < n ==> (#[trigger] v[i]).0@ == names[i] && env.contains_key(names[i])
                && value_view(v[i].1) == env[names[i]],
    ensures
        bindings_upto(v, n) == env.restrict(names.take(n as int).to_set()),
    decreases n,
{
    if n == 0 {
        assert(bindings_upto(v, n) =~= env.restrict(names.take(n as int).to_set()));
    } else {
        lemma_bindings_restrict(v, names, env, (n - 1) as nat);
        let shorter = names.take(n - 1);
        let longer = names.take(n as int);
        assert(v[n - 1].0@ == names[n - 1]);
        assert forall|k: Seq<char>| longer.to_set().contains(k) <==> (shorter.to_set().contains(k)
            || k == names[n - 1]) by {
            if longer.to_set().contains(k) {
                let i = choose|i: int| 0 <= i < longer.len() && longer[i] == k;
                if i < n - 1 {
                    assert(shorter[i] == k);
                }
            }
            if shorter.to_set().contains(k) {
                let i = choose|i: int| 0 <= i < shorter.len() && shorter[i] == k;
                assert(longer[i] == k);
            }
            if k == names[n - 1] {
                assert(longer[n - 1] == k);
            }
        }
        assert(bindings_upto(v, n) =~= env.restrict(longer.to_set()));
    }
}

fn clone_bindings(v: &Vec<(String, Value)>) -> (res: Vec<(String, Value)>)
    ensures
        res.len() == v.len(),
        forall|i: int|
            0 <= i < v.len() ==> (#[trigger] res[i]).0@ == v[i].0@ && value_view(res[i].1)
                == value_view(v[i].1),
        bindings(res) == bindings(*v),
    decreases v, 0nat,
{
    let mut out: Vec<(String, Value)> = Vec::new();
    let mut i: usize = 0;
    while i < v.len()
        invariant
            i <= v.len(),
            out.len() == i,
            forall|j: int|
                0 <= j < i ==> (#[trigger] out[j]).0@ == v[j].0@ && value_view(out[j].1)
                    == value_view(v[j].1),
        decreases v.len() - i,
    {
        let value = clone_value(&v[i].1);
        out.push((v[i].0.clone(), value));
        i += 1;
    }
    proof {
        lemma_bindings_agree(out, *v, v.len() as nat);
    }
    out
}

fn clone_value(v: &Value) -> (res: Value)
    ensures
        res@ == v@,
    decreases v, 1nat,
{
    match v {
        Value::I32(i) => Value::I32(*i),
        Value::Bool(b) => Value::Bool(*b),
        Value::Function { input_var, ret, captured } => Value::Function {
            input_var: input_var.clone(),
            ret: ret.clone(),
            captured: clone_bindings(captured),
        },
    }
}

impl Clone for Value {
    fn clone(&self) -> (res: Self)
        ensures
            res@ == self@,
    {
        clone_value(self)
    }
}

impl Value {
    /// The conjunction of two booleans; an error for any other operands.
    pub fn and(&self, other: &Self) -> (res: Result<Self>)
        ensures
            result_view(res) == prim_and(self@, other@),
    {
        match (self, other) {
            (Value::Bool(b1), Value::Bool(b2)) => Ok(Value::Bool(*b1 && *b2)),
            _ => Err(RuntimeError()),
        }
    }

    /// Whether two integers, or two booleans, are equal; an error for any
    /// other operands.
    pub fn eq(&self, other: &Self) -> (res: Result<bool>)
        ensures
            res == prim_eq(self@, other@),
    {
        match (self, other) {
            (Value::Bool(b1), Value::Bool(b2)) => Ok(*b1 == *b2),
            (Value::I32(i1), Value::I32(i2)) => Ok(*i1 == *i2),
            _ => Err(RuntimeError()),
        }
    }

    /// The sum of two integers, which wraps around; an error for any other
    /// operands.
    pub fn add(&self, other: &Self) -> (res: Result<Self>)
        ensures
            result_view(res) == prim_add(self@, other@),
    {
        match (self, other) {
            (Value::I32(i1), Value::I32(i2)) => Ok(Value::I32(i1.wrapping_add(*i2))),
            _ => Err(RuntimeError()),
        }
    }
}

/// An evaluator: a scope of names bound to values, in which expressions are
/// evaluated. An evaluator is never changed; a nested scope is a new
/// evaluator.
pub struct Evaluator {
    vars: Vec<(String, Value)>,
}

impl View for Evaluator {
    type V = Env;

    closed spec fn view(&self) -> Env {
        bindings(self.vars)
    }
}

impl Evaluator {
    /// An evaluator with no name in scope.
    pub fn new() -> (res: Self)
        ensures
            res@ == Env::empty(),
    {
        Self { vars: Vec::new() }
    }

    fn lookup(&self, name: &String) -> (res: Option<Value>)
        ensures
            match res {
                Some(v) => self@.contains_key(name@) && v@ == self@[name@],
                None => !self@.contains_key(name@),
            },
    {
        let mut i: usize = self.vars.len();
        while i > 0
            invariant
                i <= self.vars.len(),
                self@.contains_key(name@) == bindings_upto(self.vars, i as nat).contains_key(name@),
                self@.contains_key(name@) ==> self@[name@] == bindings_upto(self.vars, i as nat)[name@],
            decreases i,
        {
            i -= 1;
            if self.vars[i].0 == *name {
                return Some(self.vars[i].1.clone());
            }
        }
        None
    }

    /// The evaluator for a scope nested in this one, in which `name` is
    /// bound to `value`.
    fn bind(&self, name: String, value: Value) -> (res: Self)
        ensures
            res@ == self@.insert(name@, value@),
    {
        let mut vars = clone_bindings(&self.vars);
        let ghost copied = vars;
        vars.push((name, value));
        proof {
            lemma_bindings_agree(vars, copied, copied.len() as nat);
        }
        Self { vars }
    }

    /// The evaluator for a scope nested in this one, with the bindings of
    /// `vars` added in their order.
    fn bind_many(&self, vars: Vec<(String, Value)>) -> (res: Self)
        ensures
            res@ == self@.union_prefer_right(bindings(vars)),
    {
        let mut all = clone_bindings(&self.vars);
        let mut vars = vars;
        let ghost (head, tail) = (all, vars);
        all.append(&mut vars);
        proof {
            lemma_bindings_concat(all, head, tail, tail.len() as nat);
        }
        Self { vars: all }
    }

    /// The value bound to `name`, if `name` is in scope.
    pub fn get_var(&self, name: &str) -> (res: Option<Value>)
        ensures
            match res {
                Some(v) => self@.contains_key(name@) && v@ == self@[name@],
                None => !self@.contains_key(name@),
            },
    {
        self.lookup(&name.to_owned())
    }

    /// Runs `f` on the evaluator for a nested scope in which `name` is bound
    /// to `value`, and returns what `f` returns. This evaluator is not
    /// changed.
    pub fn var<F, T>(&self, name: String, value: Value, f: F) -> (ret: T) where
        F: FnOnce(&Self) -> T,

        requires
            forall|inner: Evaluator|
                inner@ == self@.insert(name@, value@) ==> #[trigger] f.requires((&inner,)),
        ensures
            exists|inner: Evaluator|
                inner@ == self@.insert(name@, value@) && #[trigger] f.ensures((&inner,), ret),
    {
        let inner = self.bind(name, value);
        f(&inner)
    }

    /// Runs `f` on the evaluator for a nested scope with the bindings of
    /// `vars` added in their order, and returns what `f` returns. This
    /// evaluator is not changed.
    pub fn var_many<F, T>(&self, vars: Vec<(String, Value)>, f: F) -> (ret: T) where
        F: FnOnce(&Self) -> T,

        requires
            forall|inner: Evaluator|
                inner@ == self@.union_prefer_right(bindings(vars)) ==> #[trigger] f.requires(
                    (&inner,),
                ),
        ensures
            exists|inner: Evaluator|
                inner@ == self@.union_prefer_right(bindings(vars)) && #[trigger] f.ensures(
                    (&inner,),
                    ret,
                ),
    {
        let inner = self.bind_many(vars);
        f(&inner)
    }

    /// The function value of a function literal: its parameter, its body,
    /// and the values in scope of the free variables of the literal. An
    /// error where one of them is unbound.
    fn close(&self, ast: &Ast) -> (res: Result<Value>)
        requires
            ast@ is Function,
        ensures
            Some(result_view(res)) == eval_within(ast@, self@, 0),
    {
        let names = ast.free_variables();
        let ghost wanted = name_views(names@);
        let mut captured: Vec<(String, Value)> = Vec::new();
        let mut i: usize = 0;
        while i < names.len()
            invariant
                i <= names.len(),
                captured.len() == i,
                wanted == name_views(names@),
                wanted.to_set() == free_vars(ast@),
                ast@ is Function,
                forall|j: int|
                    0 <= j < i ==> (#[trigger] captured[j]).0@ == wanted[j] && self@.contains_key(
                        wanted[j],
                    ) && value_view(captured[j].1) == self@[wanted[j]],
            decreases names.len() - i,
        {
            match self.lookup(names[i]) {
                Some(v) => captured.push((names[i].clone(), v)),
                None => {
                    assert(wanted[i as int] == names[i as int]@);
                    assert(wanted.to_set().contains(wanted[i as int]));
                    return Err(RuntimeError());
                },
            }
            i += 1;
        }
        proof {
            assert(wanted.take(i as int) =~= wanted);
            lemma_bindings_restrict(captured, wanted, self@, i as nat);
            assert forall|n: Seq<char>| wanted.to_set().contains(n) implies self@.dom().contains(
                n,
            ) by {
                let j = choose|j: int| 0 <= j < wanted.len() && wanted[j] == n;
                assert(captured[j].0@ == wanted[j]);
            }
        }
        match ast {
            Ast::Function { input, ret, .. } => Ok(
                Value::Function {
                    input_var: input.0.clone(),
                    ret: (**ret).clone(),
                    captured,
                },
            ),
            _ => Err(RuntimeError()),
        }
    }

    /// Evaluates `ast`, whose evaluation in this scope ends with calls
    /// nested at most `fuel` deep.
    fn eval_bounded(&self, ast: &Ast, Ghost(fuel): Ghost<nat>) -> (res: Result<Value>)
        requires
            eval_within(ast@, self@, fuel) is Some,
        ensures
            Some(result_view(res)) == eval_within(ast@, self@, fuel),
        decreases fuel, ast,
    {
        match ast {
            Ast::Paren(e, _) => self.eval_bounded(e, Ghost(fuel)),
            Ast::Var(name, _) => match self.lookup(name) {
                Some(v) => Ok(v),
                None => Err(RuntimeError()),
            },
            Ast::IntLiteral(i, _) => Ok(Value::I32(*i)),
            Ast::BoolLiteral(b, _) => Ok(Value::Bool(*b)),
            Ast::And(l, r) => {
                let l = self.eval_bounded(l, Ghost(fuel))?;
                let r = self.eval_bounded(r, Ghost(fuel))?;
                l.and(&r)
            },
            Ast::Eq(l, r) => {
                let l = self.eval_bounded(l, Ghost(fuel))?;
                let r = self.eval_bounded(r, Ghost(fuel))?;
                match l.eq(&r) {
                    Ok(same) => Ok(Value::Bool(same)),
                    Err(e) => Err(e),
                }
            },
            Ast::Add(l, r) => {
                let l = self.eval_bounded(l, Ghost(fuel))?;
                let r = self.eval_bounded(r, Ghost(fuel))?;
                l.add(&r)
            },
            Ast::Let { name, right, body, .. } => {
                let bound = self.eval_bounded(right, Ghost(fuel))?;
                self.bind(name.clone(), bound).eval_bounded(body, Ghost(fuel))
            },
            Ast::Function { .. } => self.close(ast),
            Ast::LApp(func, arg) | Ast::RApp(arg, func) => {
                let func = self.eval_bounded(func, Ghost(fuel))?;
                let arg = self.eval_bounded(arg, Ghost(fuel))?;
                match func {
                    Value::Function { input_var, ret, captured } => {
                        let inner = self.bind_many(captured).bind(input_var, arg);
                        inner.eval_bounded(&ret, Ghost((fuel - 1) as nat))
                    },
                    _ => Err(RuntimeError()),
                }
            },
        }
    }

    /// The value of `ast` in this scope, or the error that its evaluation
    /// runs into.
    ///
    /// The evaluation has to come to an end. That of a well-typed
    /// expression always does; an ill-typed one may apply a function to
    /// itself without end.
    pub fn eval(&self, ast: &Ast) -> (res: Result<Value>)
        requires
            converges(ast@, self@),
        ensures
            result_view(res) == outcome(ast@, self@),
    {
        let ghost fuel = choose|fuel: nat| (#[trigger] eval_within(ast@, self@, fuel)) is Some;
        self.eval_bounded(ast, Ghost(fuel))
    }
}

} // verus!
