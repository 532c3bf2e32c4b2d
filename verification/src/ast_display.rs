use vstd::prelude::*;
use crate::expr::{Expr, ExprView};
use crate::number::{integral_string, integral_text};
use crate::token::{Literal, LiteralView, Token};

verus! {

/// The text of a literal as it stands in an expression.
pub open spec fn literal_text(value: LiteralView) -> Seq<char> {
    match value {
        LiteralView::BoolLiteral(b) => if b {
            "true"@
        } else {
            "false"@
        },
        LiteralView::CallableLiteral(_) => "<callable>"@,
        LiteralView::F64(bits) => match integral_text(bits) {
            Some(text) => text,
            None => "<number>"@,
        },
        LiteralView::IdentifierLiteral(text) => text,
        LiteralView::InstanceLiteral(_) => "<instance>"@,
        LiteralView::NumberLiteral(text) => text,
        LiteralView::StringLiteral(text) => text,
        LiteralView::Nil => "nil"@,
    }
}

/// The text of an expression: operators in prefix form, in parentheses.
pub open spec fn expr_text(e: ExprView) -> Seq<char>
    decreases e, 0int,
{
    match e {
        ExprView::Assign { name, value, .. } => name.lexeme + " = "@ + expr_text(*value),
        ExprView::Binary { left, operator, right, .. } => "("@ + operator.lexeme + " "@ + expr_text(
            *left,
        ) + " "@ + expr_text(*right) + ")"@,
        ExprView::Call { callee, arguments, .. } => expr_text(*callee) + "("@ + list_text(
            arguments,
            arguments.len() as int,
        ) + ")"@,
        ExprView::Get { object, name, .. } => expr_text(*object) + "."@ + name.lexeme,
        ExprView::Grouping { expression, .. } => "(group "@ + expr_text(*expression) + ")"@,
        ExprView::LiteralExpr { value, .. } => literal_text(value),
        ExprView::Logical { left, operator, right, .. } => expr_text(*left) + " "@ + operator.lexeme
            + " "@ + expr_text(*right),
        ExprView::SetExpr { object, name, value, .. } => expr_text(*object) + "."@ + name.lexeme
            + " = "@ + expr_text(*value),
        ExprView::Super { method, .. } => "super."@ + method.lexeme,
        ExprView::This { .. } => "this"@,
        ExprView::Unary { operator, right, .. } => "("@ + operator.lexeme + " "@ + expr_text(*right)
            + ")"@,
        ExprView::Variable { name, .. } => name.lexeme,
    }
}

/// The texts of the first `count` of `exprs`, with a comma between two.
pub open spec fn list_text(exprs: Seq<ExprView>, count: int) -> Seq<char>
    decreases exprs, count,
{
    if count <= 0 || count > exprs.len() {
        Seq::empty()
    } else if count == 1 {
        expr_text(exprs[0])
    } else {
        list_text(exprs, count - 1) + ","@ + expr_text(exprs[count - 1])
    }
}

impl Token {
    /// The token as text: its lexeme.
    pub fn to_string(&self) -> (text: String)
        ensures
            text@ == self@.lexeme,
    {
        self.lexeme.clone()
    }
}

impl Literal {
    /// The literal as text, as it stands in an expression.
    pub fn to_string(&self) -> (text: String)
        ensures
            text@ == literal_text(self@),
    {
        match self {
            Literal::BoolLiteral(b) => if *b {
                String::from_str("true")
            } else {
                String::from_str("false")
            },
            Literal::CallableLiteral(_) => String::from_str("<callable>"),
            Literal::F64(bits) => match integral_string(*bits) {
                Some(text) => text,
                None => String::from_str("<number>"),
            },
            Literal::IdentifierLiteral(text) => text.clone(),
            Literal::InstanceLiteral(_) => String::from_str("<instance>"),
            Literal::NumberLiteral(text) => text.clone(),
            Literal::StringLiteral(text) => text.clone(),
            Literal::Nil => String::from_str("nil"),
        }
    }
}

impl Expr {
    /// Writes the text of the expression behind what `out` holds.
    #[verifier::rlimit(40)]
    pub fn write(&self, out: &mut String)
        ensures
            final(out)@ == old(out)@ + expr_text(self@),
        decreases self,
    {
        let ghost before = out@;
        match self {
            Expr::Assign(assign) => {
                out.append(assign.name.lexeme.as_str());
                out.append(" = ");
                assign.value.write(out);
                assert(out@ =~= before + expr_text(self@));
            },
            Expr::Binary(binary) => {
                out.append("(");
                out.append(binary.operator.lexeme.as_str());
                out.append(" ");
                binary.left.write(out);
                out.append(" ");
                binary.right.write(out);
                out.append(")");
                assert(out@ =~= before + expr_text(self@));
            },
            Expr::Call(call) => {
                call.callee.write(out);
                out.append("(");
                let ghost begun = out@;
                let ghost arguments = self@->Call_arguments;
                let mut i: usize = 0;
                while i < call.arguments.len()
                    invariant
                        self is Call,
                        self->Call_0 == *call,
                        i <= call.arguments@.len(),
                        arguments.len() == call.arguments@.len(),
                        forall|j: int|
                            0 <= j < arguments.len() ==> arguments[j] == call.arguments@[j]@,
                        out@ == begun + list_text(arguments, i as int),
                    decreases call.arguments@.len() - i,
                {
                    if i > 0 {
                        out.append(",");
                    }
                    call.arguments[i].write(out);
                    assert(out@ =~= begun + list_text(arguments, i + 1));
                    i += 1;
                }
                out.append(")");
                assert(out@ =~= before + expr_text(self@));
            },
            Expr::Get(get) => {
                get.object.write(out);
                out.append(".");
                out.append(get.name.lexeme.as_str());
                assert(out@ =~= before + expr_text(self@));
            },
            Expr::Grouping(grouping) => {
                out.append("(group ");
                grouping.expression.write(out);
                out.append(")");
                assert(out@ =~= before + expr_text(self@));
            },
            Expr::LiteralExpr(literal) => {
                out.append(literal.value.to_string().as_str());
            },
            Expr::Logical(logical) => {
                logical.left.write(out);
                out.append(" ");
                out.append(logical.operator.lexeme.as_str());
                out.append(" ");
                logical.right.write(out);
                assert(out@ =~= before + expr_text(self@));
            },
            Expr::SetExpr(set) => {
                set.object.write(out);
                out.append(".");
                out.append(set.name.lexeme.as_str());
                out.append(" = ");
                set.value.write(out);
                assert(out@ =~= before + expr_text(self@));
            },
            Expr::Super(above) => {
                out.append("super.");
                out.append(above.method.lexeme.as_str());
                assert(out@ =~= before + expr_text(self@));
            },
            Expr::This(_) => {
                out.append("this");
            },
            Expr::Unary(unary) => {
                out.append("(");
                out.append(unary.operator.lexeme.as_str());
                out.append(" ");
                unary.right.write(out);
                out.append(")");
                assert(out@ =~= before + expr_text(self@));
            },
            Expr::Variable(variable) => {
                out.append(variable.name.lexeme.as_str());
            },
        }
    }

    /// The text of the expression: operators in prefix form, in
    /// parentheses.
    pub fn to_string(&self) -> (text: String)
        ensures
            text@ == expr_text(self@),
    {
        let mut text = String::new();
        self.write(&mut text);
        assert(text@ =~= expr_text(self@));
        text
    }
}

} // verus!
