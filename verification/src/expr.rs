use vstd::prelude::*;
use crate::token::{Literal, LiteralView, Token, TokenView};

verus! {

/// An expression. Every node carries the identifier that the parser gave it;
/// the resolver files what it finds under that identifier.
#[derive(Debug)]
pub enum Expr {
    Assign(Assign),
    Binary(Binary),
    Call(Call),
    Get(Get),
    Grouping(Grouping),
    LiteralExpr(LiteralExpr),
    Logical(Logical),
    SetExpr(SetExpr),
    Super(Super),
    This(This),
    Unary(Unary),
    Variable(Variable),
}

#[derive(Debug)]
pub struct Assign {
    pub id: usize,
    pub name: Token,
    pub value: Box<Expr>,
}

#[derive(Debug)]
pub struct Binary {
    pub id: usize,
    pub left: Box<Expr>,
    pub operator: Token,
    pub right: Box<Expr>,
}

#[derive(Debug)]
pub struct Call {
    pub id: usize,
    pub callee: Box<Expr>,
    pub paren: Token,
    pub arguments: Vec<Expr>,
}

#[derive(Debug)]
pub struct Get {
    pub id: usize,
    pub object: Box<Expr>,
    pub name: Token,
}

#[derive(Debug)]
pub struct Grouping {
    pub id: usize,
    pub expression: Box<Expr>,
}

#[derive(Debug)]
pub struct LiteralExpr {
    pub id: usize,
    pub value: Literal,
}

#[derive(Debug)]
pub struct Logical {
    pub id: usize,
    pub left: Box<Expr>,
    pub operator: Token,
    pub right: Box<Expr>,
}

#[derive(Debug)]
pub struct SetExpr {
    pub id: usize,
    pub object: Box<Expr>,
    pub name: Token,
    pub value: Box<Expr>,
}

#[derive(Debug)]
pub struct Super {
    pub id: usize,
    pub keyword: Token,
    pub method: Token,
}

#[derive(Debug)]
pub struct This {
    pub id: usize,
    pub keyword: Token,
}

#[derive(Debug)]
pub struct Unary {
    pub id: usize,
    pub operator: Token,
    pub right: Box<Expr>,
}

#[derive(Debug)]
pub struct Variable {
    pub id: usize,
    pub name: Token,
}

/// What an `Expr` stands for: the same tree over token views.
#[allow(inconsistent_fields)]
pub enum ExprView {
    Assign { id: usize, name: TokenView, value: Box<ExprView> },
    Binary { id: usize, left: Box<ExprView>, operator: TokenView, right: Box<ExprView> },
    Call { id: usize, callee: Box<ExprView>, paren: TokenView, arguments: Seq<ExprView> },
    Get { id: usize, object: Box<ExprView>, name: TokenView },
    Grouping { id: usize, expression: Box<ExprView> },
    LiteralExpr { id: usize, value: LiteralView },
    Logical { id: usize, left: Box<ExprView>, operator: TokenView, right: Box<ExprView> },
    SetExpr { id: usize, object: Box<ExprView>, name: TokenView, value: Box<ExprView> },
    Super { id: usize, keyword: TokenView, method: TokenView },
    This { id: usize, keyword: TokenView },
    Unary { id: usize, operator: TokenView, right: Box<ExprView> },
    Variable { id: usize, name: TokenView },
}

/// The view of an expression tree.
pub open spec fn expr_view(e: Expr) -> ExprView
    decreases e,
{
    match e {
        Expr::Assign(a) => ExprView::Assign {
            id: a.id,
            name: a.name@,
            value: Box::new(expr_view(*a.value)),
        },
        Expr::Binary(b) => ExprView::Binary {
            id: b.id,
            left: Box::new(expr_view(*b.left)),
            operator: b.operator@,
            right: Box::new(expr_view(*b.right)),
        },
        Expr::Call(c) => ExprView::Call {
            id: c.id,
            callee: Box::new(expr_view(*c.callee)),
            paren: c.paren@,
            arguments: Seq::new(
                c.arguments@.len(),
                |i: int|
                    if 0 <= i < c.arguments@.len() {
                        expr_view(c.arguments@[i])
                    } else {
                        arbitrary()
                    },
            ),
        },
        Expr::Get(g) => ExprView::Get {
            id: g.id,
            object: Box::new(expr_view(*g.object)),
            name: g.name@,
        },
        Expr::Grouping(g) => ExprView::Grouping {
            id: g.id,
            expression: Box::new(expr_view(*g.expression)),
        },
        Expr::LiteralExpr(l) => ExprView::LiteralExpr { id: l.id, value: l.value@ },
        Expr::Logical(b) => ExprView::Logical {
            id: b.id,
            left: Box::new(expr_view(*b.left)),
            operator: b.operator@,
            right: Box::new(expr_view(*b.right)),
        },
        Expr::SetExpr(s) => ExprView::SetExpr {
            id: s.id,
            object: Box::new(expr_view(*s.object)),
            name: s.name@,
            value: Box::new(expr_view(*s.value)),
        },
        Expr::Super(s) => ExprView::Super { id: s.id, keyword: s.keyword@, method: s.method@ },
        Expr::This(t) => ExprView::This { id: t.id, keyword: t.keyword@ },
        Expr::Unary(u) => ExprView::Unary {
            id: u.id,
            operator: u.operator@,
            right: Box::new(expr_view(*u.right)),
        },
        Expr::Variable(v) => ExprView::Variable { id: v.id, name: v.name@ },
    }
}

impl View for Expr {
    type V = ExprView;

    open spec fn view(&self) -> ExprView {
        expr_view(*self)
    }
}

/// The views of a sequence of expressions, one for one.
pub open spec fn exprs_view(exprs: Seq<Expr>) -> Seq<ExprView> {
    Seq::new(exprs.len(), |i: int| expr_view(exprs[i]))
}

impl ExprView {
    /// The identifier of the node.
    pub open spec fn id(self) -> usize {
        match self {
            ExprView::Assign { id, .. } => id,
            ExprView::Binary { id, .. } => id,
            ExprView::Call { id, .. } => id,
            ExprView::Get { id, .. } => id,
            ExprView::Grouping { id, .. } => id,
            ExprView::LiteralExpr { id, .. } => id,
            ExprView::Logical { id, .. } => id,
            ExprView::SetExpr { id, .. } => id,
            ExprView::Super { id, .. } => id,
            ExprView::This { id, .. } => id,
            ExprView::Unary { id, .. } => id,
            ExprView::Variable { id, .. } => id,
        }
    }
}

impl Expr {
    /// The identifier of the node.
    pub fn id(&self) -> (id: usize)
        ensures
            id == self@.id(),
    {
        match self {
            Expr::Assign(a) => a.id,
            Expr::Binary(b) => b.id,
            Expr::Call(c) => c.id,
            Expr::Get(g) => g.id,
            Expr::Grouping(g) => g.id,
            Expr::LiteralExpr(l) => l.id,
            Expr::Logical(l) => l.id,
            Expr::SetExpr(s) => s.id,
            Expr::Super(s) => s.id,
            Expr::This(t) => t.id,
            Expr::Unary(u) => u.id,
            Expr::Variable(v) => v.id,
        }
    }
}

/// The identifiers of the nodes of an expression: those of the nodes under
/// a node, left to right, then its own.
pub open spec fn expr_ids(e: ExprView) -> Seq<usize>
    decreases e, 0int,
{
    match e {
        ExprView::Assign { id, value, .. } => expr_ids(*value).push(id),
        ExprView::Binary { id, left, right, .. } => (expr_ids(*left) + expr_ids(*right)).push(id),
        ExprView::Call { id, callee, arguments, .. } => (expr_ids(*callee) + exprs_ids(
            arguments,
            arguments.len() as int,
        )).push(id),
        ExprView::Get { id, object, .. } => expr_ids(*object).push(id),
        ExprView::Grouping { id, expression } => expr_ids(*expression).push(id),
        ExprView::LiteralExpr { id, .. } => seq![id],
        ExprView::Logical { id, left, right, .. } => (expr_ids(*left) + expr_ids(*right)).push(id),
        ExprView::SetExpr { id, object, value, .. } => (expr_ids(*object) + expr_ids(*value)).push(
            id,
        ),
        ExprView::Super { id, .. } => seq![id],
        ExprView::This { id, .. } => seq![id],
        ExprView::Unary { id, right, .. } => expr_ids(*right).push(id),
        ExprView::Variable { id, .. } => seq![id],
    }
}

/// The identifiers of the nodes of the first `count` of `exprs`.
pub open spec fn exprs_ids(exprs: Seq<ExprView>, count: int) -> Seq<usize>
    decreases exprs, count,
{
    if count <= 0 || count > exprs.len() {
        Seq::empty()
    } else {
        exprs_ids(exprs, count - 1) + expr_ids(exprs[count - 1])
    }
}

/// Whether `ids` holds no identifier twice and none outside `lo <= id < hi`.
#[verifier::opaque]
pub open spec fn distinct_in(ids: Seq<usize>, lo: int, hi: int) -> bool {
    &&& forall|i: int| 0 <= i < ids.len() ==> lo <= #[trigger] ids[i] < hi
    &&& forall|i: int, j: int| 0 <= i < j < ids.len() ==> #[trigger] ids[i] != #[trigger] ids[j]
}

/// No identifiers are distinct within any bounds.
pub proof fn lemma_distinct_empty(lo: int, hi: int)
    ensures
        distinct_in(Seq::empty(), lo, hi),
{
    reveal(distinct_in);
}

/// One identifier is distinct within bounds that hold it.
pub proof fn lemma_distinct_one(id: usize, lo: int, hi: int)
    requires
        lo <= id < hi,
    ensures
        distinct_in(seq![id], lo, hi),
{
    reveal(distinct_in);
}

/// Distinct identifiers stay distinct within wider bounds.
pub proof fn lemma_distinct_wider(ids: Seq<usize>, lo: int, hi: int, lower: int, higher: int)
    requires
        distinct_in(ids, lo, hi),
        lower <= lo,
        hi <= higher,
    ensures
        distinct_in(ids, lower, higher),
{
    reveal(distinct_in);
}

/// Distinct identifiers from two ranges that do not meet are distinct
/// together, in either order.
pub proof fn lemma_distinct_joined(first: Seq<usize>, second: Seq<usize>, lo: int, mid: int, hi: int)
    requires
        distinct_in(first, lo, mid),
        distinct_in(second, mid, hi),
        lo <= mid <= hi,
    ensures
        distinct_in(first + second, lo, hi),
        distinct_in(second + first, lo, hi),
{
    reveal(distinct_in);
    let both = first + second;
    assert forall|i: int| 0 <= i < both.len() implies lo <= #[trigger] both[i] < hi by {
        if i < first.len() {
            assert(both[i] == first[i]);
        } else {
            assert(both[i] == second[i - first.len()]);
        }
    }
    assert forall|i: int, j: int| 0 <= i < j < both.len() implies #[trigger] both[i]
        != #[trigger] both[j] by {
        if i < first.len() {
            assert(both[i] == first[i]);
        } else {
            assert(both[i] == second[i - first.len()]);
        }
        if j < first.len() {
            assert(both[j] == first[j]);
        } else {
            assert(both[j] == second[j - first.len()]);
        }
    }
    let turned = second + first;
    assert forall|i: int| 0 <= i < turned.len() implies lo <= #[trigger] turned[i] < hi by {
        if i < second.len() {
            assert(turned[i] == second[i]);
        } else {
            assert(turned[i] == first[i - second.len()]);
        }
    }
    assert forall|i: int, j: int| 0 <= i < j < turned.len() implies #[trigger] turned[i]
        != #[trigger] turned[j] by {
        if i < second.len() {
            assert(turned[i] == second[i]);
        } else {
            assert(turned[i] == first[i - second.len()]);
        }
        if j < second.len() {
            assert(turned[j] == second[j]);
        } else {
            assert(turned[j] == first[j - second.len()]);
        }
    }
}

/// One more identifier behind what lies below it.
pub proof fn lemma_distinct_pushed(ids: Seq<usize>, id: usize, lo: int, hi: int)
    requires
        distinct_in(ids, lo, id as int),
        lo <= id < hi,
    ensures
        distinct_in(ids.push(id), lo, hi),
{
    reveal(distinct_in);
}

/// No two expression nodes share an identifier: any two places of a
/// distinct list hold different identifiers, each within the bounds.
pub proof fn distinct_identifiers_are_unique(ids: Seq<usize>, lo: int, hi: int, i: int, j: int)
    requires
        distinct_in(ids, lo, hi),
        0 <= i < ids.len(),
        0 <= j < ids.len(),
        i != j,
    ensures
        ids[i] != ids[j],
        lo <= ids[i] < hi,
{
    reveal(distinct_in);
}

} // verus!
