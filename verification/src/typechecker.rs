//! The type checker: types, the typing rules as a function of an expression
//! and a type environment, and a checker that computes that function.

use crate::ast::{Ast, Expr, TypeAst};
use std::rc::Rc;
use vstd::prelude::*;

verus! {

/// The type of an expression. Two types are equal when they have the same
/// structure.
#[derive(Debug, PartialEq, Eq)]
pub enum Type {
    Int,
    Bool,
    /// The parameter type and the result type of a function.
    Function(Rc<(Type, Type)>),
}

/// A type environment: the type of each name in scope.
pub type TypeEnv = Map<Seq<char>, Type>;

/// `Rc::clone`: a second pointer to the same allocation, hence to an equal
/// pair of types.
#[verifier::external_body]
fn share(pair: &Rc<(Type, Type)>) -> (res: Rc<(Type, Type)>)
    ensures
        res == *pair,
{
    Rc::clone(pair)
}

impl Clone for Type {
    fn clone(&self) -> (res: Self)
        ensures
            res == *self,
    {
        match self {
            Type::Int => Type::Int,
            Type::Bool => Type::Bool,
            Type::Function(pair) => Type::Function(share(pair)),
        }
    }
}

/// Whether a value of type `t1` may stand where `t2` is expected. Only equal
/// types are related.
pub open spec fn is_subset(t1: Type, t2: Type) -> bool {
    t1 == t2
}

/// The type that an annotation denotes.
pub open spec fn annotated_type(t: TypeAst) -> Type
    decreases t,
{
    match t {
        TypeAst::Int(_) => Type::Int,
        TypeAst::Bool(_) => Type::Bool,
        TypeAst::Paren(inner, _) => annotated_type(*inner),
        TypeAst::Function(l, r) => Type::Function(
            Rc::new((annotated_type(*l), annotated_type(*r))),
        ),
    }
}

/// The type of the result of applying a function of type `func` to an
/// argument of type `arg`.
pub open spec fn application_type(func: Type, arg: Type) -> Result<Type, ()> {
    match func {
        Type::Function(pair) => if is_subset(arg, pair.0) {
            Ok(pair.1)
        } else {
            Err(())
        },
        _ => Err(()),
    }
}

/// The typing rules: the type of `e` where the names in scope have the types
/// that `env` gives, or `Err(())` where `e` has none.
pub open spec fn type_of(e: Expr, env: TypeEnv) -> Result<Type, ()>
    decreases e,
{
    match e {
        Expr::Paren(inner, _) => type_of(*inner, env),
        Expr::Var(name, _) => if env.contains_key(name) {
            Ok(env[name])
        } else {
            Err(())
        },
        Expr::IntLiteral(..) => Ok(Type::Int),
        Expr::BoolLiteral(..) => Ok(Type::Bool),
        Expr::And(l, r) => match (type_of(*l, env), type_of(*r, env)) {
            (Ok(Type::Bool), Ok(Type::Bool)) => Ok(Type::Bool),
            _ => Err(()),
        },
        Expr::Eq(l, r) => match (type_of(*l, env), type_of(*r, env)) {
            (Ok(Type::Int), Ok(Type::Int)) => Ok(Type::Bool),
            (Ok(Type::Bool), Ok(Type::Bool)) => Ok(Type::Bool),
            _ => Err(()),
        },
        Expr::Add(l, r) => match (type_of(*l, env), type_of(*r, env)) {
            (Ok(Type::Int), Ok(Type::Int)) => Ok(Type::Int),
            _ => Err(()),
        },
        Expr::Let { name, right, body, .. } => match type_of(*right, env) {
            Ok(bound) => type_of(*body, env.insert(name, bound)),
            Err(_) => Err(()),
        },
        Expr::Function { input, input_type, ret } => {
            let param = annotated_type(input_type);
            match type_of(*ret, env.insert(input.0, param)) {
                Ok(result) => Ok(Type::Function(Rc::new((param, result)))),
                Err(_) => Err(()),
            }
        },
        Expr::LApp(func, arg) | Expr::RApp(arg, func) => match (
            type_of(*func, env),
            type_of(*arg, env),
        ) {
            (Ok(f), Ok(a)) => application_type(f, a),
            _ => Err(()),
        },
    }
}

/// The environment that a list of bindings stands for: each name has the
/// type of its last binding in the list.
pub open spec fn type_bindings(s: Seq<(String, Type)>) -> TypeEnv
    decreases s.len(),
{
    if s.len() == 0 {
        Map::empty()
    } else {
        type_bindings(s.drop_last()).insert(s.last().0@, s.last().1)
    }
}

impl Type {
    /// Whether a value of this type may stand where `other` is expected.
    pub fn subset(&self, other: &Self) -> (res: bool)
        ensures
            res == is_subset(*self, *other),
        decreases self,
    {
        match (self, other) {
            (Type::Int, Type::Int) => true,
            (Type::Bool, Type::Bool) => true,
            (Type::Function(p), Type::Function(q)) => p.0.subset(&q.0) && p.1.subset(&q.1),
            _ => false,
        }
    }
}

/// A type checker: a scope of typed names, against which expressions are
/// checked. A checker is never changed; a nested scope is a new checker.
pub struct TypeChecker {
    vars: Vec<(String, Type)>,
}

impl View for TypeChecker {
    type V = TypeEnv;

    closed spec fn view(&self) -> TypeEnv {
        type_bindings(self.vars@)
    }
}

impl TypeChecker {
    /// A checker with no name in scope.
    pub fn new() -> (res: Self)
        ensures
            res@ == TypeEnv::empty(),
    {
        Self { vars: Vec::new() }
    }

    fn lookup(&self, name: &String) -> (res: Option<Type>)
        ensures
            res == if self@.contains_key(name@) {
                Some(self@[name@])
            } else {
                None::<Type>
            },
    {
        let mut i: usize = self.vars.len();
        assert(self.vars@.take(i as int) =~= self.vars@);
        while i > 0
            invariant
                i <= self.vars.len(),
                self@.contains_key(name@) == type_bindings(self.vars@.take(i as int)).contains_key(
                    name@,
                ),
                self@.contains_key(name@) ==> self@[name@] == type_bindings(
                    self.vars@.take(i as int),
                )[name@],
            decreases i,
        {
            i -= 1;
            assert(self.vars@.take(i + 1).drop_last() =~= self.vars@.take(i as int));
            if self.vars[i].0 == *name {
                return Some(self.vars[i].1.clone());
            }
        }
        None
    }

    /// The checker for a scope nested in this one, in which `name` has the
    /// type `t`.
    fn bind(&self, name: String, t: Type) -> (res: Self)
        ensures
            res@ == self@.insert(name@, t),
    {
        let mut vars: Vec<(String, Type)> = Vec::new();
        let mut i: usize = 0;
        while i < self.vars.len()
            invariant
                i <= self.vars.len(),
                vars@ == self.vars@.take(i as int),
            decreases self.vars.len() - i,
        {
            vars.push((self.vars[i].0.clone(), self.vars[i].1.clone()));
            assert(vars@ =~= self.vars@.take(i + 1));
            i += 1;
        }
        assert(self.vars@.take(i as int) =~= self.vars@);
        vars.push((name, t));
        assert(vars@.drop_last() =~= self.vars@);
        Self { vars }
    }

    /// Runs `f` on the checker for a nested scope in which `name` has the
    /// type `t`, and returns what `f` returns. This checker is not changed.
    pub fn var<F, T>(&self, name: String, t: Type, f: F) -> (ret: T) where
        F: FnOnce(&TypeChecker) -> T,

        requires
            forall|inner: TypeChecker|
                inner@ == self@.insert(name@, t) ==> #[trigger] f.requires((&inner,)),
        ensures
            exists|inner: TypeChecker|
                inner@ == self@.insert(name@, t) && #[trigger] f.ensures((&inner,), ret),
    {
        let inner = self.bind(name, t);
        f(&inner)
    }

    /// The type bound to `name`, if `name` is in scope.
    pub fn get_var(&self, name: &str) -> (res: Option<Type>)
        ensures
            res == if self@.contains_key(name@) {
                Some(self@[name@])
            } else {
                None::<Type>
            },
    {
        self.lookup(&name.to_owned())
    }

    /// The type that an annotation denotes. This never fails.
    pub fn eval(&self, type_ast: &TypeAst) -> (res: Result<Type, ()>)
        ensures
            res == Ok::<Type, ()>(annotated_type(*type_ast)),
        decreases type_ast,
    {
        match type_ast {
            TypeAst::Paren(e, _) => self.eval(e),
            TypeAst::Int(_) => Ok(Type::Int),
            TypeAst::Bool(_) => Ok(Type::Bool),
            TypeAst::Function(l, r) => {
                let func = (self.eval(l)?, self.eval(r)?);
                Ok(Type::Function(Rc::new(func)))
            },
        }
    }

    /// The type of `ast` in this checker's scope, or `Err(())` where the
    /// typing rules give it none.
    pub fn typecheck(&self, ast: &Ast) -> (res: Result<Type, ()>)
        ensures
            res == type_of(ast@, self@),
        decreases ast,
    {
        match ast {
            Ast::Paren(e, _) => self.typecheck(e),
            Ast::Var(name, _) => match self.lookup(name) {
                Some(t) => Ok(t),
                None => Err(()),
            },
            Ast::IntLiteral(_, _) => Ok(Type::Int),
            Ast::BoolLiteral(_, _) => Ok(Type::Bool),
            Ast::And(left, right) => {
                let left_type = self.typecheck(left)?;
                let right_type = self.typecheck(right)?;
                match (left_type, right_type) {
                    (Type::Bool, Type::Bool) => Ok(Type::Bool),
                    _ => Err(()),
                }
            },
            Ast::Eq(left, right) => {
                let left_type = self.typecheck(left)?;
                let right_type = self.typecheck(right)?;
                match (left_type, right_type) {
                    (Type::Int, Type::Int) => Ok(Type::Bool),
                    (Type::Bool, Type::Bool) => Ok(Type::Bool),
                    _ => Err(()),
                }
            },
            Ast::Add(left, right) => {
                let left_type = self.typecheck(left)?;
                let right_type = self.typecheck(right)?;
                match (left_type, right_type) {
                    (Type::Int, Type::Int) => Ok(Type::Int),
                    _ => Err(()),
                }
            },
            Ast::Let { name, right, body, .. } => {
                let var_type = self.typecheck(right)?;
                self.bind(name.clone(), var_type).typecheck(body)
            },
            Ast::Function { input, input_type, ret } => {
                let input_type = self.eval(input_type)?;
                let ret_type = self.bind(input.0.clone(), input_type.clone()).typecheck(ret)?;
                Ok(Type::Function(Rc::new((input_type, ret_type))))
            },
            Ast::LApp(func, arg) | Ast::RApp(arg, func) => {
                let func = self.typecheck(func)?;
                let arg = self.typecheck(arg)?;
                match func {
                    Type::Function(f) => {
                        if arg.subset(&f.0) {
                            Ok(f.1.clone())
                        } else {
                            Err(())
                        }
                    },
                    _ => Err(()),
                }
            },
        }
    }
}

} // verus!
