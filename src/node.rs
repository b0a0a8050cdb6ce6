use vstd::prelude::*;

use crate::lexer::{Literal, Operator};

verus! {

/// The syntax tree of a template.
#[derive(Debug, PartialEq)]
pub enum Node {
    /// The concatenation of the renderings of the children.
    Body(Vec<Node>),
    Value(Literal),
    Variable(String),
    FunctionCall(String, Vec<Node>),
    Array(Vec<Node>),
    Operation(Box<Node>, Operator, Box<Node>),
    Not(Box<Node>),
    Negate(Box<Node>),
    /// Condition, then-branch, else-branch.
    IfThenElse(Box<Node>, Box<Node>, Option<Box<Node>>),
    /// Loop variable, iterable, body, separator.
    ForIn(String, Box<Node>, Box<Node>, Option<Box<Node>>),
}

impl Node {
    /// An expression: what may stand between `{{` and `}}` on its own.
    pub open spec fn is_expression(&self) -> bool
        decreases self,
    {
        match self {
            Node::Value(_) => true,
            Node::Variable(_) => true,
            Node::FunctionCall(_, args) => forall|i: int|
                0 <= i < args.len() ==> (#[trigger] args[i]).is_expression(),
            Node::Array(elements) => forall|i: int|
                0 <= i < elements.len() ==> (#[trigger] elements[i]).is_expression(),
            Node::Operation(lhs, _, rhs) => lhs.is_expression() && rhs.is_expression(),
            Node::Not(n) => n.is_expression(),
            Node::Negate(n) => n.is_expression(),
            _ => false,
        }
    }

    /// A node of a template body: a run of text, an expression, or a block.
    /// The branches of a conditional and the body of a loop are bodies.
    pub open spec fn is_template_node(&self) -> bool
        decreases self,
    {
        match self {
            Node::Value(Literal::String(_)) => true,
            Node::IfThenElse(condition, then_node, else_node) => {
                &&& condition.is_expression()
                &&& then_node.is_body()
                &&& (else_node matches Some(e) ==> e.is_body())
            },
            Node::ForIn(_, iterable, body, separator) => {
                &&& iterable.is_expression()
                &&& body.is_body()
                &&& (separator matches Some(s) ==> s.is_expression())
            },
            _ => self.is_expression(),
        }
    }

    /// A `Body` whose children are template nodes.
    pub open spec fn is_body(&self) -> bool
        decreases self,
    {
        match self {
            Node::Body(nodes) => forall|i: int|
                0 <= i < nodes.len() ==> (#[trigger] nodes[i]).is_template_node(),
            _ => false,
        }
    }
    /// Whether the template refers to a variable named `x` that no enclosing
    /// loop of the template binds. Names of called functions are not variables.
    pub open spec fn references(&self, x: Seq<char>) -> bool
        decreases self,
    {
        match self {
            Node::Body(nodes) => exists|i: int|
                0 <= i < nodes.len() && (#[trigger] nodes[i]).references(x),
            Node::Value(_) => false,
            Node::Variable(identifier) => identifier@ == x,
            Node::FunctionCall(_, args) => exists|i: int|
                0 <= i < args.len() && (#[trigger] args[i]).references(x),
            Node::Array(elements) => exists|i: int|
                0 <= i < elements.len() && (#[trigger] elements[i]).references(x),
            Node::Operation(lhs, _, rhs) => lhs.references(x) || rhs.references(x),
            Node::Not(n) => n.references(x),
            Node::Negate(n) => n.references(x),
            Node::IfThenElse(condition, then_node, else_node) => {
                ||| condition.references(x)
                ||| then_node.references(x)
                ||| (else_node matches Some(e) && e.references(x))
            },
            Node::ForIn(identifier, iterable, body, separator) => {
                ||| iterable.references(x)
                ||| (x != identifier@ && (body.references(x) || (separator matches Some(s)
                    && s.references(x))))
            },
        }
    }

    /// The variables that the template refers to (see [`Node::references`]),
    /// each once.
    pub fn referenced_vars(&self) -> (r: Vec<String>)
        ensures
            distinct_names(r@),
            forall|x: Seq<char>| has_name(r@, x) <==> self.references(x),
        decreases self,
    {
        let mut references: Vec<String> = Vec::new();
        let ghost target = self;
        match self {
            Node::Body(nodes) => {
                references = referenced_in_all(nodes);
                proof {
                    assert(forall|x: Seq<char>| has_name(references@, x) <==> target.references(x));
                }
            },
            Node::FunctionCall(_identifier, args) => {
                references = referenced_in_all(args);
                proof {
                    assert(forall|x: Seq<char>| has_name(references@, x) <==> target.references(x));
                }
            },
            Node::Array(elements) => {
                references = referenced_in_all(elements);
                proof {
                    assert(forall|x: Seq<char>| has_name(references@, x) <==> target.references(x));
                }
            },
            Node::Operation(lhs, op, rhs) => {
                let ghost l = lhs;
                let ghost r = rhs;
                references = union_names(lhs.referenced_vars(), rhs.referenced_vars());
                proof {
                    assert forall|x: Seq<char>| has_name(references@, x) <==> target.references(x) by {
                        assert(target.references(x) == (l.references(x) || r.references(x)));
                    }
                }
            },
            Node::IfThenElse(condition, then_node, else_node) => {
                let ghost c = condition;
                let ghost t = then_node;
                let ghost e = else_node;
                references = union_names(condition.referenced_vars(), then_node.referenced_vars());
                if let Some(else_node) = else_node {
                    references = union_names(references, else_node.referenced_vars());
                }
                proof {
                    assert forall|x: Seq<char>| has_name(references@, x) <==> target.references(x) by {
                        assert(target.references(x) == (c.references(x) || t.references(x) || (
                        e matches Some(e) && e.references(x))));
                    }
                }
            },
            Node::ForIn(identifier, iterable, body, separator) => {
                let ghost it = iterable;
                let ghost b = body;
                let ghost sep = separator;
                references = body.referenced_vars();
                if let Some(separator) = separator {
                    references = union_names(references, separator.referenced_vars());
                }
                references = remove_name(references, identifier);
                references = union_names(references, iterable.referenced_vars());
                proof {
                    assert forall|x: Seq<char>| has_name(references@, x) <==> target.references(x) by {
                        assert(target.references(x) == (it.references(x) || (x != identifier@ && (
                        b.references(x) || (sep matches Some(s) && s.references(x))))));
                    }
                }
            },
            Node::Variable(identifier) => {
                references.push(identifier.clone());
                proof {
                    assert(references@[0]@ == identifier@);
                    assert forall|x: Seq<char>| has_name(references@, x) implies x == identifier@ by {
                        let k = choose|k: int| 0 <= k < references@.len() && (#[trigger] references@[k])@ == x;
                    }
                }
                proof {
                    assert(forall|x: Seq<char>| has_name(references@, x) <==> target.references(x));
                }
            },
            Node::Not(node) => {
                let ghost n = node;
                references = node.referenced_vars();
                proof {
                    assert forall|x: Seq<char>| has_name(references@, x) <==> target.references(x) by {
                        assert(target.references(x) == n.references(x));
                    }
                }
            },
            Node::Negate(node) => {
                let ghost n = node;
                references = node.referenced_vars();
                proof {
                    assert forall|x: Seq<char>| has_name(references@, x) <==> target.references(x) by {
                        assert(target.references(x) == n.references(x));
                    }
                }
            },
            Node::Value(_) => {
                proof {
                    assert(forall|x: Seq<char>| has_name(references@, x) <==> target.references(x));
                }
            },
        }
        references
    }
}

/// Some name of `v` is `x`.
pub open spec fn has_name(v: Seq<String>, x: Seq<char>) -> bool {
    exists|i: int| 0 <= i < v.len() && (#[trigger] v[i])@ == x
}

/// No two names of `v` are the same.
pub open spec fn distinct_names(v: Seq<String>) -> bool {
    forall|i: int, j: int| 0 <= i < j < v.len() ==> (#[trigger] v[i])@ != (#[trigger] v[j])@
}

fn contains_name(v: &Vec<String>, x: &String) -> (r: bool)
    ensures
        r == has_name(v@, x@),
{
    let mut i: usize = 0;
    while i < v.len()
        invariant
            i <= v.len(),
            forall|k: int| 0 <= k < i ==> (#[trigger] v@[k])@ != x@,
        decreases v.len() - i,
    {
        if v[i] == *x {
            return true;
        }
        i = i + 1;
    }
    false
}

/// Adds `name` to `v` unless `v` has it.
fn add_name(v: &mut Vec<String>, name: String)
    requires
        distinct_names(old(v)@),
    ensures
        distinct_names(final(v)@),
        forall|x: Seq<char>| has_name(final(v)@, x) <==> (has_name(old(v)@, x) || x == name@),
{
    if !contains_name(v, &name) {
        let ghost before = v@;
        let ghost added = name@;
        v.push(name);
        proof {
            assert forall|x: Seq<char>| has_name(v@, x) <==> (has_name(before, x) || x == added) by {
                if has_name(v@, x) {
                    let k = choose|k: int| 0 <= k < v@.len() && (#[trigger] v@[k])@ == x;
                    if k < before.len() {
                        assert(before[k]@ == x);
                    }
                }
                if has_name(before, x) {
                    let k = choose|k: int| 0 <= k < before.len() && (#[trigger] before[k])@ == x;
                    assert(v@[k]@ == x);
                }
                if x == added {
                    assert(v@[before.len() as int]@ == x);
                }
            }
        }
    }
}

/// The names of `a` and of `b`, each once.
fn union_names(a: Vec<String>, b: Vec<String>) -> (r: Vec<String>)
    requires
        distinct_names(a@),
    ensures
        distinct_names(r@),
        forall|x: Seq<char>| has_name(r@, x) <==> (has_name(a@, x) || has_name(b@, x)),
{
    let mut names = a;
    let mut i: usize = 0;
    while i < b.len()
        invariant
            i <= b.len(),
            distinct_names(names@),
            forall|x: Seq<char>|
                has_name(names@, x) <==> (has_name(a@, x) || has_name(b@.subrange(0, i as int), x)),
        decreases b.len() - i,
    {
        let name = b[i].clone();
        add_name(&mut names, name);
        proof {
            assert forall|x: Seq<char>|
                has_name(b@.subrange(0, i + 1), x) <==> (has_name(b@.subrange(0, i as int), x)
                    || x == b@[i as int]@) by {
                let p = b@.subrange(0, i as int);
                let q = b@.subrange(0, i + 1);
                if has_name(q, x) {
                    let k = choose|k: int| 0 <= k < q.len() && (#[trigger] q[k])@ == x;
                    if k < i {
                        assert(p[k]@ == x);
                    }
                }
                if has_name(p, x) {
                    let k = choose|k: int| 0 <= k < p.len() && (#[trigger] p[k])@ == x;
                    assert(q[k]@ == x);
                }
                if x == b@[i as int]@ {
                    assert(q[i as int]@ == x);
                }
            }
        }
        i = i + 1;
    }
    assert(b@.subrange(0, b.len() as int) =~= b@);
    names
}

/// `v` without the name `x`.
fn remove_name(v: Vec<String>, x: &String) -> (r: Vec<String>)
    requires
        distinct_names(v@),
    ensures
        distinct_names(r@),
        forall|y: Seq<char>| has_name(r@, y) <==> (has_name(v@, y) && y != x@),
{
    let mut r: Vec<String> = Vec::new();
    let mut i: usize = 0;
    while i < v.len()
        invariant
            i <= v.len(),
            distinct_names(r@),
            forall|y: Seq<char>|
                has_name(r@, y) <==> (has_name(v@.subrange(0, i as int), y) && y != x@),
        decreases v.len() - i,
    {
        if v[i] != *x {
            let name = v[i].clone();
            add_name(&mut r, name);
        }
        proof {
            assert forall|y: Seq<char>|
                has_name(v@.subrange(0, i + 1), y) <==> (has_name(v@.subrange(0, i as int), y)
                    || y == v@[i as int]@) by {
                let p = v@.subrange(0, i as int);
                let q = v@.subrange(0, i + 1);
                if has_name(q, y) {
                    let k = choose|k: int| 0 <= k < q.len() && (#[trigger] q[k])@ == y;
                    if k < i {
                        assert(p[k]@ == y);
                    }
                }
                if has_name(p, y) {
                    let k = choose|k: int| 0 <= k < p.len() && (#[trigger] p[k])@ == y;
                    assert(q[k]@ == y);
                }
                if y == v@[i as int]@ {
                    assert(q[i as int]@ == y);
                }
            }
        }
        i = i + 1;
    }
    assert(v@.subrange(0, v.len() as int) =~= v@);
    r
}

/// The variables that the nodes refer to, each once.
fn referenced_in_all(nodes: &Vec<Node>) -> (r: Vec<String>)
    ensures
        distinct_names(r@),
        forall|x: Seq<char>|
            has_name(r@, x) <==> exists|i: int| 0 <= i < nodes.len() && (#[trigger] nodes[i]).references(x),
    decreases nodes,
{
    let mut names: Vec<String> = Vec::new();
    let mut i: usize = 0;
    while i < nodes.len()
        invariant
            i <= nodes.len(),
            distinct_names(names@),
            forall|x: Seq<char>|
                has_name(names@, x) <==> exists|k: int| 0 <= k < i && (#[trigger] nodes[k]).references(x),
        decreases nodes.len() - i,
    {
        let ghost before = names@;
        let more = nodes[i].referenced_vars();
        let ghost m = more@;
        names = union_names(names, more);
        proof {
            assert(forall|x: Seq<char>| has_name(m, x) <==> nodes@[i as int].references(x));
            assert(forall|x: Seq<char>| has_name(names@, x) <==> (has_name(before, x) || has_name(m, x)));
            assert forall|x: Seq<char>|
                has_name(names@, x) <==> exists|k: int| 0 <= k < i + 1 && (#[trigger] nodes[k]).references(x) by {
                if exists|k: int| 0 <= k < i + 1 && (#[trigger] nodes[k]).references(x) {
                    let k = choose|k: int| 0 <= k < i + 1 && (#[trigger] nodes[k]).references(x);
                    if k == i {
                        assert(nodes[i as int].references(x));
                    } else {
                        assert(exists|k: int| 0 <= k < i && (#[trigger] nodes[k]).references(x));
                    }
                }
                if has_name(names@, x) {
                    if !nodes[i as int].references(x) {
                        let k = choose|k: int| 0 <= k < i && (#[trigger] nodes[k]).references(x);
                        assert(0 <= k < i + 1 && nodes[k].references(x));
                    }
                }
            }
        }
        i = i + 1;
    }
    names
}

/// A syntax tree as a mathematical value.
pub enum NodeView {
    Body(Seq<NodeView>),
    Str(Seq<char>),
    Num(Seq<char>),
    Variable(Seq<char>),
    FunctionCall(Seq<char>, Seq<NodeView>),
    Array(Seq<NodeView>),
    Operation(Box<NodeView>, Operator, Box<NodeView>),
    Not(Box<NodeView>),
    Negate(Box<NodeView>),
    IfThenElse(Box<NodeView>, Box<NodeView>, Option<Box<NodeView>>),
    ForIn(Seq<char>, Box<NodeView>, Box<NodeView>, Option<Box<NodeView>>),
}

/// Each node of `nodes` stands for the view at its index.
pub open spec fn all_have_views(nodes: Seq<Node>, views: Seq<NodeView>) -> bool {
    &&& nodes.len() == views.len()
    &&& forall|i: int| 0 <= i < nodes.len() ==> (#[trigger] nodes[i]).has_view(views[i])
}

impl Node {
    /// The node stands for the tree `v`.
    pub open spec fn has_view(&self, v: NodeView) -> bool
        decreases self,
    {
        match self {
            Node::Body(nodes) => v is Body && nodes.len() == v->Body_0.len() && forall|i: int|
                0 <= i < nodes.len() ==> (#[trigger] nodes[i]).has_view(v->Body_0[i]),
            Node::Value(Literal::String(t)) => v == NodeView::Str(t@),
            Node::Value(Literal::Number(t)) => v == NodeView::Num(t@),
            Node::Variable(identifier) => v == NodeView::Variable(identifier@),
            Node::FunctionCall(identifier, args) => v is FunctionCall && v->FunctionCall_0
                == identifier@ && args.len() == v->FunctionCall_1.len() && forall|i: int|
                0 <= i < args.len() ==> (#[trigger] args[i]).has_view(v->FunctionCall_1[i]),
            Node::Array(elements) => v is Array && elements.len() == v->Array_0.len() && forall|
                i: int,
            |
                0 <= i < elements.len() ==> (#[trigger] elements[i]).has_view(v->Array_0[i]),
            Node::Operation(lhs, op, rhs) => v is Operation && lhs.has_view(*v->Operation_0)
                && *op == v->Operation_1 && rhs.has_view(*v->Operation_2),
            Node::Not(n) => v is Not && n.has_view(*v->Not_0),
            Node::Negate(n) => v is Negate && n.has_view(*v->Negate_0),
            Node::IfThenElse(condition, then_node, else_node) => v is IfThenElse
                && condition.has_view(*v->IfThenElse_0) && then_node.has_view(*v->IfThenElse_1)
                && match else_node {
                Some(e) => v->IfThenElse_2 is Some && e.has_view(*v->IfThenElse_2->Some_0),
                None => v->IfThenElse_2 is None,
            },
            Node::ForIn(identifier, iterable, body, separator) => v is ForIn && v->ForIn_0
                == identifier@ && iterable.has_view(*v->ForIn_1) && body.has_view(*v->ForIn_2)
                && match separator {
                Some(sep) => v->ForIn_3 is Some && sep.has_view(*v->ForIn_3->Some_0),
                None => v->ForIn_3 is None,
            },
        }
    }
}

} // verus!
