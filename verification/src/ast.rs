//! The syntax tree of the language, its mathematical model, and the
//! structural queries over it: children, pre-order traversal and free
//! variables.

use vstd::prelude::*;

verus! {

/// A byte offset into the source text.
pub type Pos = usize;

/// The half-open span `[start, end)` of source text a node was read from.
#[derive(Debug, PartialEq, Eq, Hash)]
pub struct Range(pub Pos, pub Pos);

impl Clone for Range {
    fn clone(&self) -> (res: Self)
        ensures
            res == *self,
    {
        Range(self.0, self.1)
    }
}

/// The syntax of a type annotation.
#[derive(Debug, PartialEq)]
pub enum TypeAst {
    Int(Range),
    Bool(Range),
    Function(Box<TypeAst>, Box<TypeAst>),
    Paren(Box<TypeAst>, Range),
}

impl Clone for TypeAst {
    fn clone(&self) -> (res: Self)
        ensures
            res == *self,
        decreases self,
    {
        match self {
            TypeAst::Int(r) => TypeAst::Int(r.clone()),
            TypeAst::Bool(r) => TypeAst::Bool(r.clone()),
            TypeAst::Function(l, r) => TypeAst::Function(
                Box::new((**l).clone()),
                Box::new((**r).clone()),
            ),
            TypeAst::Paren(t, r) => TypeAst::Paren(Box::new((**t).clone()), r.clone()),
        }
    }
}

/// The syntax of an expression.
#[derive(Debug, PartialEq)]
pub enum Ast {
    Paren(Box<Ast>, Range),
    Var(String, Range),
    IntLiteral(i32, Range),
    BoolLiteral(bool, Range),
    Add(Box<Ast>, Box<Ast>),
    Eq(Box<Ast>, Box<Ast>),
    And(Box<Ast>, Box<Ast>),
    Let { name: String, right: Box<Ast>, body: Box<Ast>, range: Range },
    Function { input: (String, Range), input_type: TypeAst, ret: Box<Ast> },
    /// `func < arg`: the left operand is applied to the right one.
    LApp(Box<Ast>, Box<Ast>),
    /// `arg > func`: the right operand is applied to the left one.
    RApp(Box<Ast>, Box<Ast>),
}

/// The mathematical model of an [`Ast`]: the same tree, with every name held
/// as the sequence of its characters. All semantics is stated over this type.
pub enum Expr {
    Paren(Box<Expr>, Range),
    Var(Seq<char>, Range),
    IntLiteral(i32, Range),
    BoolLiteral(bool, Range),
    Add(Box<Expr>, Box<Expr>),
    Eq(Box<Expr>, Box<Expr>),
    And(Box<Expr>, Box<Expr>),
    Let { name: Seq<char>, right: Box<Expr>, body: Box<Expr>, range: Range },
    Function { input: (Seq<char>, Range), input_type: TypeAst, ret: Box<Expr> },
    LApp(Box<Expr>, Box<Expr>),
    RApp(Box<Expr>, Box<Expr>),
}

/// The model of a syntax tree.
pub open spec fn expr_of(a: Ast) -> Expr
    decreases a,
{
    match a {
        Ast::Paren(e, range) => Expr::Paren(Box::new(expr_of(*e)), range),
        Ast::Var(name, range) => Expr::Var(name@, range),
        Ast::IntLiteral(i, range) => Expr::IntLiteral(i, range),
        Ast::BoolLiteral(b, range) => Expr::BoolLiteral(b, range),
        Ast::Add(l, r) => Expr::Add(Box::new(expr_of(*l)), Box::new(expr_of(*r))),
        Ast::Eq(l, r) => Expr::Eq(Box::new(expr_of(*l)), Box::new(expr_of(*r))),
        Ast::And(l, r) => Expr::And(Box::new(expr_of(*l)), Box::new(expr_of(*r))),
        Ast::Let { name, right, body, range } => Expr::Let {
            name: name@,
            right: Box::new(expr_of(*right)),
            body: Box::new(expr_of(*body)),
            range,
        },
        Ast::Function { input, input_type, ret } => Expr::Function {
            input: (input.0@, input.1),
            input_type,
            ret: Box::new(expr_of(*ret)),
        },
        Ast::LApp(l, r) => Expr::LApp(Box::new(expr_of(*l)), Box::new(expr_of(*r))),
        Ast::RApp(l, r) => Expr::RApp(Box::new(expr_of(*l)), Box::new(expr_of(*r))),
    }
}

impl View for Ast {
    type V = Expr;

    open spec fn view(&self) -> Expr {
        expr_of(*self)
    }
}

impl Clone for Ast {
    fn clone(&self) -> (res: Self)
        ensures
            res@ == self@,
        decreases self,
    {
        match self {
            Ast::Paren(e, range) => Ast::Paren(Box::new((**e).clone()), range.clone()),
            Ast::Var(name, range) => Ast::Var(name.clone(), range.clone()),
            Ast::IntLiteral(i, range) => Ast::IntLiteral(*i, range.clone()),
            Ast::BoolLiteral(b, range) => Ast::BoolLiteral(*b, range.clone()),
            Ast::Add(l, r) => Ast::Add(Box::new((**l).clone()), Box::new((**r).clone())),
            Ast::Eq(l, r) => Ast::Eq(Box::new((**l).clone()), Box::new((**r).clone())),
            Ast::And(l, r) => Ast::And(Box::new((**l).clone()), Box::new((**r).clone())),
            Ast::Let { name, right, body, range } => Ast::Let {
                name: name.clone(),
                right: Box::new((**right).clone()),
                body: Box::new((**body).clone()),
                range: range.clone(),
            },
            Ast::Function { input, input_type, ret } => Ast::Function {
                input: (input.0.clone(), input.1.clone()),
                input_type: input_type.clone(),
                ret: Box::new((**ret).clone()),
            },
            Ast::LApp(l, r) => Ast::LApp(Box::new((**l).clone()), Box::new((**r).clone())),
            Ast::RApp(l, r) => Ast::RApp(Box::new((**l).clone()), Box::new((**r).clone())),
        }
    }
}

/// The immediate sub-expressions of a node, left to right. A `let` has its
/// bound expression and its body; a function has its body.
pub open spec fn children(e: Expr) -> Seq<Expr> {
    match e {
        Expr::Var(..) | Expr::IntLiteral(..) | Expr::BoolLiteral(..) => seq![],
        Expr::Paren(inner, _) => seq![*inner],
        Expr::Function { ret, .. } => seq![*ret],
        Expr::Let { right, body, .. } => seq![*right, *body],
        Expr::Add(l, r) | Expr::Eq(l, r) | Expr::And(l, r) | Expr::LApp(l, r) | Expr::RApp(
            l,
            r,
        ) => seq![*l, *r],
    }
}

/// Every node of the tree in pre-order: the node itself, then the whole
/// subtree of each child, left to right.
pub open spec fn preorder(e: Expr) -> Seq<Expr>
    decreases e,
{
    match e {
        Expr::Var(..) | Expr::IntLiteral(..) | Expr::BoolLiteral(..) => seq![e],
        Expr::Paren(inner, _) => seq![e] + preorder(*inner),
        Expr::Function { ret, .. } => seq![e] + preorder(*ret),
        Expr::Let { right, body, .. } => seq![e] + preorder(*right) + preorder(*body),
        Expr::Add(l, r) | Expr::Eq(l, r) | Expr::And(l, r) | Expr::LApp(l, r) | Expr::RApp(
            l,
            r,
        ) => seq![e] + preorder(*l) + preorder(*r),
    }
}

/// The names that occur in `e` without a binder around them inside `e`.
/// The name bound by a `let` is bound in the body only, not in the bound
/// expression.
pub open spec fn free_vars(e: Expr) -> Set<Seq<char>>
    decreases e,
{
    match e {
        Expr::Var(name, _) => set![name],
        Expr::IntLiteral(..) | Expr::BoolLiteral(..) => Set::empty(),
        Expr::Paren(inner, _) => free_vars(*inner),
        Expr::Let { name, right, body, .. } => free_vars(*body).remove(name).union(
            free_vars(*right),
        ),
        Expr::Function { input, ret, .. } => free_vars(*ret).remove(input.0),
        Expr::Add(l, r) | Expr::Eq(l, r) | Expr::And(l, r) | Expr::LApp(l, r) | Expr::RApp(
            l,
            r,
        ) => free_vars(*l).union(free_vars(*r)),
    }
}

/// The models of a sequence of borrowed nodes.
pub open spec fn node_views(nodes: Seq<&Ast>) -> Seq<Expr> {
    nodes.map_values(|a: &Ast| a@)
}

/// The character sequences of a sequence of borrowed names.
pub open spec fn name_views(names: Seq<&String>) -> Seq<Seq<char>> {
    names.map_values(|n: &String| n@)
}

fn has_name(names: &Vec<&String>, name: &String) -> (found: bool)
    ensures
        found == name_views(names@).contains(name@),
{
    let mut i: usize = 0;
    while i < names.len()
        invariant
            i <= names.len(),
            forall|j: int| 0 <= j < i ==> name_views(names@)[j] != name@,
        decreases names.len() - i,
    {
        if *names[i] == *name {
            assert(name_views(names@)[i as int] == name@);
            return true;
        }
        i += 1;
    }
    false
}

/// The names of `names` other than `name`, in their order.
fn without_name<'a>(names: Vec<&'a String>, name: &String) -> (res: Vec<&'a String>)
    requires
        name_views(names@).no_duplicates(),
    ensures
        name_views(res@).no_duplicates(),
        name_views(res@).to_set() == name_views(names@).to_set().remove(name@),
{
    let ghost all = name_views(names@);
    let mut out: Vec<&'a String> = Vec::new();
    let mut i: usize = 0;
    while i < names.len()
        invariant
            i <= names.len(),
            all == name_views(names@),
            all.no_duplicates(),
            name_views(out@).no_duplicates(),
            forall|k: int|
                0 <= k < out.len() ==> (#[trigger] name_views(out@)[k]) != name@ && all.take(
                    i as int,
                ).contains(name_views(out@)[k]),
            forall|j: int|
                0 <= j < i && (#[trigger] all[j]) != name@ ==> name_views(out@).contains(all[j]),
        decreases names.len() - i,
    {
        let n: &'a String = names[i];
        let ghost before = name_views(out@);
        assert(all[i as int] == n@);
        assert forall|x: Seq<char>| all.take(i as int).contains(x) implies all.take(
            i + 1,
        ).contains(x) && x != n@ by {
            let j = choose|j: int| 0 <= j < i && all.take(i as int)[j] == x;
            assert(all.take(i + 1)[j] == x);
        }
        if !(*n == *name) {
            out.push(n);
            proof {
                assert(name_views(out@) =~= before.push(n@));
                assert(all.take(i + 1)[i as int] == n@);
                assert forall|j: int| 0 <= j < i + 1 && (#[trigger] all[j]) != name@ implies name_views(
                    out@,
                ).contains(all[j]) by {
                    if j < i {
                        let k = choose|k: int| 0 <= k < before.len() && before[k] == all[j];
                        assert(name_views(out@)[k] == all[j]);
                    } else {
                        assert(name_views(out@)[before.len() as int] == all[j]);
                    }
                }
            }
        }
        i += 1;
    }
    proof {
        let got = name_views(out@).to_set();
        let want = all.to_set().remove(name@);
        assert(all.take(i as int) =~= all);
        assert forall|n: Seq<char>| got.contains(n) <==> want.contains(n) by {
            if got.contains(n) {
                let k = choose|k: int| 0 <= k < out.len() && name_views(out@)[k] == n;
                assert(all.contains(n));
            }
            if want.contains(n) {
                let j = choose|j: int| 0 <= j < all.len() && all[j] == n;
                assert(name_views(out@).contains(all[j]));
            }
        }
        assert(got =~= want);
    }
    out
}

/// The names of `first`, then those of `second` that `first` lacks.
fn merge_names<'a>(first: Vec<&'a String>, second: Vec<&'a String>) -> (res: Vec<&'a String>)
    requires
        name_views(first@).no_duplicates(),
        name_views(second@).no_duplicates(),
    ensures
        name_views(res@).no_duplicates(),
        name_views(res@).to_set() == name_views(first@).to_set().union(
            name_views(second@).to_set(),
        ),
{
    let ghost head = name_views(first@);
    let ghost tail = name_views(second@);
    let mut out = first;
    let mut i: usize = 0;
    while i < second.len()
        invariant
            i <= second.len(),
            tail == name_views(second@),
            name_views(out@).no_duplicates(),
            head.len() <= out@.len(),
            forall|k: int| 0 <= k < head.len() ==> (#[trigger] name_views(out@)[k]) == head[k],
            forall|k: int|
                head.len() <= k < out.len() ==> tail.take(i as int).contains(
                    #[trigger] name_views(out@)[k],
                ),
            forall|j: int| 0 <= j < i ==> name_views(out@).contains(#[trigger] tail[j]),
        decreases second.len() - i,
    {
        let n: &'a String = second[i];
        let ghost before = name_views(out@);
        assert(tail[i as int] == n@);
        assert forall|x: Seq<char>| tail.take(i as int).contains(x) implies tail.take(
            i + 1,
        ).contains(x) by {
            let j = choose|j: int| 0 <= j < i && tail.take(i as int)[j] == x;
            assert(tail.take(i + 1)[j] == x);
        }
        if !has_name(&out, n) {
            out.push(n);
            proof {
                assert(name_views(out@) =~= before.push(n@));
                assert(tail.take(i + 1)[i as int] == n@);
                assert forall|j: int| 0 <= j < i + 1 implies name_views(out@).contains(
                    #[trigger] tail[j],
                ) by {
                    if j < i {
                        let k = choose|k: int| 0 <= k < before.len() && before[k] == tail[j];
                        assert(name_views(out@)[k] == tail[j]);
                    } else {
                        assert(name_views(out@)[before.len() as int] == tail[j]);
                    }
                }
            }
        }
        i += 1;
    }
    proof {
        let got = name_views(out@).to_set();
        let want = head.to_set().union(tail.to_set());
        assert(tail.take(i as int) =~= tail);
        assert forall|n: Seq<char>| got.contains(n) <==> want.contains(n) by {
            if got.contains(n) {
                let k = choose|k: int| 0 <= k < out.len() && name_views(out@)[k] == n;
                if k < head.len() {
                    assert(head[k] == n);
                    assert(head.contains(n));
                } else {
                    assert(tail.contains(n));
                }
            }
            if head.to_set().contains(n) {
                let k = choose|k: int| 0 <= k < head.len() && head[k] == n;
                assert(name_views(out@)[k] == n);
                assert(name_views(out@).contains(n));
            }
            if tail.to_set().contains(n) {
                let j = choose|j: int| 0 <= j < tail.len() && tail[j] == n;
                assert(name_views(out@).contains(tail[j]));
            }
        }
        assert(got =~= want);
    }
    out
}

impl Ast {
    /// The immediate sub-expressions of this node, left to right.
    pub fn direct_children(&self) -> (res: Vec<&Self>)
        ensures
            node_views(res@) == children(self@),
    {
        let res: Vec<&Self> = match self {
            Ast::Paren(e, _) => vec![&**e],
            Ast::Var(_, _) | Ast::IntLiteral(_, _) | Ast::BoolLiteral(_, _) => Vec::new(),
            Ast::And(l, r) | Ast::Eq(l, r) | Ast::Add(l, r) | Ast::LApp(l, r) | Ast::RApp(
                l,
                r,
            ) => vec![&**l, &**r],
            Ast::Let { right, body, .. } => vec![&**right, &**body],
            Ast::Function { ret, .. } => vec![&**ret],
        };
        assert(node_views(res@) =~= children(self@));
        res
    }

    /// Every node of the tree in pre-order, this node first.
    pub fn all_children(&self) -> (res: Vec<&Self>)
        ensures
            node_views(res@) == preorder(self@),
        decreases self,
    {
        let mut out: Vec<&Self> = vec![self];
        assert(node_views(out@) =~= seq![self@]);
        match self {
            Ast::Var(_, _) | Ast::IntLiteral(_, _) | Ast::BoolLiteral(_, _) => {},
            Ast::Paren(e, _) => {
                let mut sub = e.all_children();
                let ghost (a, b) = (out@, sub@);
                out.append(&mut sub);
                assert(node_views(out@) =~= node_views(a) + node_views(b));
            },
            Ast::Function { ret, .. } => {
                let mut sub = ret.all_children();
                let ghost (a, b) = (out@, sub@);
                out.append(&mut sub);
                assert(node_views(out@) =~= node_views(a) + node_views(b));
            },
            Ast::Let { right, body, .. } => {
                let mut first = right.all_children();
                let mut second = body.all_children();
                let ghost (a, b, c) = (out@, first@, second@);
                out.append(&mut first);
                out.append(&mut second);
                assert(node_views(out@) =~= node_views(a) + node_views(b) + node_views(c));
            },
            Ast::And(l, r) | Ast::Eq(l, r) | Ast::Add(l, r) | Ast::LApp(l, r) | Ast::RApp(
                l,
                r,
            ) => {
                let mut first = l.all_children();
                let mut second = r.all_children();
                let ghost (a, b, c) = (out@, first@, second@);
                out.append(&mut first);
                out.append(&mut second);
                assert(node_views(out@) =~= node_views(a) + node_views(b) + node_views(c));
            },
        }
        out
    }

    /// The free variables of this expression, each once.
    pub fn free_variables(&self) -> (res: Vec<&String>)
        ensures
            name_views(res@).no_duplicates(),
            name_views(res@).to_set() == free_vars(self@),
        decreases self,
    {
        match self {
            Ast::Var(name, _) => {
                let res: Vec<&String> = vec![name];
                assert(name_views(res@) =~= seq![name@]);
                assert(name_views(res@).to_set() =~= set![name@]) by {
                    assert(name_views(res@)[0] == name@);
                }
                res
            },
            Ast::IntLiteral(_, _) | Ast::BoolLiteral(_, _) => {
                let res: Vec<&String> = Vec::new();
                assert(name_views(res@).to_set() =~= Set::<Seq<char>>::empty());
                res
            },
            Ast::Paren(e, _) => e.free_variables(),
            Ast::Let { name, right, body, .. } => merge_names(
                without_name(body.free_variables(), name),
                right.free_variables(),
            ),
            Ast::Function { input, ret, .. } => without_name(ret.free_variables(), &input.0),
            Ast::And(l, r) | Ast::Eq(l, r) | Ast::Add(l, r) | Ast::LApp(l, r) | Ast::RApp(
                l,
                r,
            ) => merge_names(l.free_variables(), r.free_variables()),
        }
    }
}

} // verus!
