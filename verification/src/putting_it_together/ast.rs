use vstd::prelude::*;

verus! {

/// The syntax tree of the expression language.
#[derive(Debug)]
pub enum Node {
    Program(Vec<Node>),
    Function { name: String, formals: Vec<Node>, body: Box<Node> },
    Block(Vec<Node>),
    ExpressionStatement(Box<Node>),
    Identifier(String),
    NumberLiteral(String),
    StringLiteral(String),
    BooleanLiteral(bool),
    Formals(Vec<Node>),
    Formal(String),
    UntypedFormal(String),
    TypedFormal(String, String),
    FunctionBody(Vec<Node>),
    While { condition: Box<Node>, body: Box<Node> },
    EmptyStatement,
    LetStatement(String, Box<Node>),
    ReturnStatement(Box<Node>),
    ArgumentList(Vec<Node>),
    FunctionCall { callee: String, argument_list: Vec<Node> },
    TypedExpression(String, Box<Node>),
    UnaryOperator { op: Box<Node>, rhs: Box<Node> },
    UnaryMinus,
    Equals(Box<Node>, Box<Node>),
    GreaterThan(Box<Node>, Box<Node>),
    LessThan(Box<Node>, Box<Node>),
    GreaterThanOrEquals(Box<Node>, Box<Node>),
    LessThanOrEquals(Box<Node>, Box<Node>),
    NotEquals(Box<Node>, Box<Node>),
    Times(Box<Node>, Box<Node>),
    Divided(Box<Node>, Box<Node>),
    Plus(Box<Node>, Box<Node>),
    Minus(Box<Node>, Box<Node>),
    Mul(Box<Node>, Box<Node>),
    Div(Box<Node>, Box<Node>),
    Add(Box<Node>, Box<Node>),
    Sub(Box<Node>, Box<Node>),
}

/// The syntax tree as a mathematical value.
pub enum NodeModel {
    Program(Seq<NodeModel>),
    Function { name: Seq<char>, formals: Seq<NodeModel>, body: Box<NodeModel> },
    Block(Seq<NodeModel>),
    ExpressionStatement(Box<NodeModel>),
    Identifier(Seq<char>),
    NumberLiteral(Seq<char>),
    StringLiteral(Seq<char>),
    BooleanLiteral(bool),
    Formals(Seq<NodeModel>),
    Formal(Seq<char>),
    UntypedFormal(Seq<char>),
    TypedFormal(Seq<char>, Seq<char>),
    FunctionBody(Seq<NodeModel>),
    While { condition: Box<NodeModel>, body: Box<NodeModel> },
    EmptyStatement,
    LetStatement(Seq<char>, Box<NodeModel>),
    ReturnStatement(Box<NodeModel>),
    ArgumentList(Seq<NodeModel>),
    FunctionCall { callee: Seq<char>, argument_list: Seq<NodeModel> },
    TypedExpression(Seq<char>, Box<NodeModel>),
    UnaryOperator { op: Box<NodeModel>, rhs: Box<NodeModel> },
    UnaryMinus,
    Equals(Box<NodeModel>, Box<NodeModel>),
    GreaterThan(Box<NodeModel>, Box<NodeModel>),
    LessThan(Box<NodeModel>, Box<NodeModel>),
    GreaterThanOrEquals(Box<NodeModel>, Box<NodeModel>),
    LessThanOrEquals(Box<NodeModel>, Box<NodeModel>),
    NotEquals(Box<NodeModel>, Box<NodeModel>),
    Times(Box<NodeModel>, Box<NodeModel>),
    Divided(Box<NodeModel>, Box<NodeModel>),
    Plus(Box<NodeModel>, Box<NodeModel>),
    Minus(Box<NodeModel>, Box<NodeModel>),
    Mul(Box<NodeModel>, Box<NodeModel>),
    Div(Box<NodeModel>, Box<NodeModel>),
    Add(Box<NodeModel>, Box<NodeModel>),
    Sub(Box<NodeModel>, Box<NodeModel>),
}

impl Node {
    /// The tree as a mathematical value.
    pub open spec fn model(&self) -> NodeModel
        decreases self,
    {
        match self {
            Node::Program(v) => NodeModel::Program(Seq::new(v.len() as nat, |i: int| if 0 <= i < v.len() { v[i].model() } else { NodeModel::EmptyStatement })),
            Node::Block(v) => NodeModel::Block(Seq::new(v.len() as nat, |i: int| if 0 <= i < v.len() { v[i].model() } else { NodeModel::EmptyStatement })),
            Node::Formals(v) => NodeModel::Formals(Seq::new(v.len() as nat, |i: int| if 0 <= i < v.len() { v[i].model() } else { NodeModel::EmptyStatement })),
            Node::FunctionBody(v) => NodeModel::FunctionBody(Seq::new(v.len() as nat, |i: int| if 0 <= i < v.len() { v[i].model() } else { NodeModel::EmptyStatement })),
            Node::ArgumentList(v) => NodeModel::ArgumentList(Seq::new(v.len() as nat, |i: int| if 0 <= i < v.len() { v[i].model() } else { NodeModel::EmptyStatement })),
            Node::Identifier(s) => NodeModel::Identifier(s@),
            Node::NumberLiteral(s) => NodeModel::NumberLiteral(s@),
            Node::StringLiteral(s) => NodeModel::StringLiteral(s@),
            Node::Formal(s) => NodeModel::Formal(s@),
            Node::UntypedFormal(s) => NodeModel::UntypedFormal(s@),
            Node::ExpressionStatement(e) => NodeModel::ExpressionStatement(Box::new(e.model())),
            Node::ReturnStatement(e) => NodeModel::ReturnStatement(Box::new(e.model())),
            Node::Equals(l, r) => NodeModel::Equals(Box::new(l.model()), Box::new(r.model())),
            Node::GreaterThan(l, r) => NodeModel::GreaterThan(Box::new(l.model()), Box::new(r.model())),
            Node::LessThan(l, r) => NodeModel::LessThan(Box::new(l.model()), Box::new(r.model())),
            Node::GreaterThanOrEquals(l, r) => NodeModel::GreaterThanOrEquals(Box::new(l.model()), Box::new(r.model())),
            Node::LessThanOrEquals(l, r) => NodeModel::LessThanOrEquals(Box::new(l.model()), Box::new(r.model())),
            Node::NotEquals(l, r) => NodeModel::NotEquals(Box::new(l.model()), Box::new(r.model())),
            Node::Times(l, r) => NodeModel::Times(Box::new(l.model()), Box::new(r.model())),
            Node::Divided(l, r) => NodeModel::Divided(Box::new(l.model()), Box::new(r.model())),
            Node::Plus(l, r) => NodeModel::Plus(Box::new(l.model()), Box::new(r.model())),
            Node::Minus(l, r) => NodeModel::Minus(Box::new(l.model()), Box::new(r.model())),
            Node::Mul(l, r) => NodeModel::Mul(Box::new(l.model()), Box::new(r.model())),
            Node::Div(l, r) => NodeModel::Div(Box::new(l.model()), Box::new(r.model())),
            Node::Add(l, r) => NodeModel::Add(Box::new(l.model()), Box::new(r.model())),
            Node::Sub(l, r) => NodeModel::Sub(Box::new(l.model()), Box::new(r.model())),
            Node::Function { name, formals, body } => NodeModel::Function {
                name: name@,
                formals: Seq::new(formals.len() as nat, |i: int| if 0 <= i < formals.len() { formals[i].model() } else { NodeModel::EmptyStatement }),
                body: Box::new(body.model()),
            },
            Node::BooleanLiteral(b) => NodeModel::BooleanLiteral(*b),
            Node::TypedFormal(t, n) => NodeModel::TypedFormal(t@, n@),
            Node::While { condition, body } => NodeModel::While { condition: Box::new(condition.model()), body: Box::new(body.model()) },
            Node::EmptyStatement => NodeModel::EmptyStatement,
            Node::LetStatement(n, e) => NodeModel::LetStatement(n@, Box::new(e.model())),
            Node::FunctionCall { callee, argument_list } => NodeModel::FunctionCall {
                callee: callee@,
                argument_list: Seq::new(argument_list.len() as nat, |i: int| if 0 <= i < argument_list.len() { argument_list[i].model() } else { NodeModel::EmptyStatement }),
            },
            Node::TypedExpression(t, e) => NodeModel::TypedExpression(t@, Box::new(e.model())),
            Node::UnaryOperator { op, rhs } => NodeModel::UnaryOperator { op: Box::new(op.model()), rhs: Box::new(rhs.model()) },
            Node::UnaryMinus => NodeModel::UnaryMinus,
        }
    }
}

/// The models of the trees `v`, one for one.
pub open spec fn models(v: Seq<Node>) -> Seq<NodeModel> {
    Seq::new(v.len(), |i: int| v[i].model())
}

/// The model of a list node is the list of its items' models.
pub proof fn lemma_list_models(v: Vec<Node>)
    ensures
        Node::Program(v).model() == NodeModel::Program(models(v@)),
        Node::Block(v).model() == NodeModel::Block(models(v@)),
        Node::Formals(v).model() == NodeModel::Formals(models(v@)),
        Node::FunctionBody(v).model() == NodeModel::FunctionBody(models(v@)),
        Node::ArgumentList(v).model() == NodeModel::ArgumentList(models(v@)),
{
    assert(Node::Program(v).model()->Program_0 =~= models(v@));
    assert(Node::Block(v).model()->Block_0 =~= models(v@));
    assert(Node::Formals(v).model()->Formals_0 =~= models(v@));
    assert(Node::FunctionBody(v).model()->FunctionBody_0 =~= models(v@));
    assert(Node::ArgumentList(v).model()->ArgumentList_0 =~= models(v@));
}

pub proof fn lemma_models_push(v: Seq<Node>, e: Node)
    ensures
        models(v.push(e)) == models(v).push(e.model()),
{
    assert(models(v.push(e)) =~= models(v).push(e.model()));
}


/// A copy of each of the trees `v`.
fn clone_list(v: &Vec<Node>) -> (r: Vec<Node>)
    ensures
        models(r@) == models(v@),
    decreases v,
{
    let mut r: Vec<Node> = Vec::new();
    let mut i: usize = 0;
    while i < v.len()
        invariant
            i <= v@.len(),
            models(r@) == models(v@.subrange(0, i as int)),
        decreases v@.len() - i,
    {
        proof {
            vstd::std_specs::vec::axiom_vec_index_decreases(*v, i as int);
        }
        let e = v[i].clone();
        proof {
            lemma_models_push(r@, e);
            assert(models(v@.subrange(0, i + 1)) =~= models(v@.subrange(0, i as int)).push(v@[i as int].model()));
        }
        r.push(e);
        i = i + 1;
    }
    proof {
        assert(v@.subrange(0, v@.len() as int) =~= v@);
    }
    r
}

impl Clone for Node {
    /// A copy of the tree.
    fn clone(&self) -> (r: Self)
        ensures
            r.model() == self.model(),
        decreases self,
    {
        match self {
            Node::Program(v) => {
                let c = clone_list(v);
                proof { lemma_list_models(*v); lemma_list_models(c); }
                Node::Program(c)
            },
            Node::Block(v) => {
                let c = clone_list(v);
                proof { lemma_list_models(*v); lemma_list_models(c); }
                Node::Block(c)
            },
            Node::Formals(v) => {
                let c = clone_list(v);
                proof { lemma_list_models(*v); lemma_list_models(c); }
                Node::Formals(c)
            },
            Node::FunctionBody(v) => {
                let c = clone_list(v);
                proof { lemma_list_models(*v); lemma_list_models(c); }
                Node::FunctionBody(c)
            },
            Node::ArgumentList(v) => {
                let c = clone_list(v);
                proof { lemma_list_models(*v); lemma_list_models(c); }
                Node::ArgumentList(c)
            },
            Node::Identifier(s) => Node::Identifier(s.clone()),
            Node::NumberLiteral(s) => Node::NumberLiteral(s.clone()),
            Node::StringLiteral(s) => Node::StringLiteral(s.clone()),
            Node::Formal(s) => Node::Formal(s.clone()),
            Node::UntypedFormal(s) => Node::UntypedFormal(s.clone()),
            Node::ExpressionStatement(e) => Node::ExpressionStatement(Box::new((**e).clone())),
            Node::ReturnStatement(e) => Node::ReturnStatement(Box::new((**e).clone())),
            Node::Equals(l, r) => Node::Equals(Box::new((**l).clone()), Box::new((**r).clone())),
            Node::GreaterThan(l, r) => Node::GreaterThan(Box::new((**l).clone()), Box::new((**r).clone())),
            Node::LessThan(l, r) => Node::LessThan(Box::new((**l).clone()), Box::new((**r).clone())),
            Node::GreaterThanOrEquals(l, r) => Node::GreaterThanOrEquals(Box::new((**l).clone()), Box::new((**r).clone())),
            Node::LessThanOrEquals(l, r) => Node::LessThanOrEquals(Box::new((**l).clone()), Box::new((**r).clone())),
            Node::NotEquals(l, r) => Node::NotEquals(Box::new((**l).clone()), Box::new((**r).clone())),
            Node::Times(l, r) => Node::Times(Box::new((**l).clone()), Box::new((**r).clone())),
            Node::Divided(l, r) => Node::Divided(Box::new((**l).clone()), Box::new((**r).clone())),
            Node::Plus(l, r) => Node::Plus(Box::new((**l).clone()), Box::new((**r).clone())),
            Node::Minus(l, r) => Node::Minus(Box::new((**l).clone()), Box::new((**r).clone())),
            Node::Mul(l, r) => Node::Mul(Box::new((**l).clone()), Box::new((**r).clone())),
            Node::Div(l, r) => Node::Div(Box::new((**l).clone()), Box::new((**r).clone())),
            Node::Add(l, r) => Node::Add(Box::new((**l).clone()), Box::new((**r).clone())),
            Node::Sub(l, r) => Node::Sub(Box::new((**l).clone()), Box::new((**r).clone())),
            Node::Function { name, formals, body } => {
                let c = clone_list(formals);
                let n = Node::Function { name: name.clone(), formals: c, body: Box::new((**body).clone()) };
                proof {
                    assert(n.model()->formals =~= models(c@));
                    assert(self.model()->formals =~= models(formals@));
                }
                n
            },
            Node::BooleanLiteral(b) => Node::BooleanLiteral(*b),
            Node::TypedFormal(t, n) => Node::TypedFormal(t.clone(), n.clone()),
            Node::While { condition, body } => Node::While {
                condition: Box::new((**condition).clone()),
                body: Box::new((**body).clone()),
            },
            Node::EmptyStatement => Node::EmptyStatement,
            Node::LetStatement(n, e) => Node::LetStatement(n.clone(), Box::new((**e).clone())),
            Node::FunctionCall { callee, argument_list } => {
                let c = clone_list(argument_list);
                let n = Node::FunctionCall { callee: callee.clone(), argument_list: c };
                proof {
                    assert(n.model()->argument_list =~= models(c@));
                    assert(self.model()->argument_list =~= models(argument_list@));
                }
                n
            },
            Node::TypedExpression(t, e) => Node::TypedExpression(t.clone(), Box::new((**e).clone())),
            Node::UnaryOperator { op, rhs } => Node::UnaryOperator {
                op: Box::new((**op).clone()),
                rhs: Box::new((**rhs).clone()),
            },
            Node::UnaryMinus => Node::UnaryMinus,
        }
    }
}

} // verus!
