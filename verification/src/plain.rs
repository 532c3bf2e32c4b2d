use vstd::prelude::*;
use crate::callable::{CallableKindView, CallableView};
use crate::expr::ExprView;
use crate::handles::literal_in_hand_ok;
use crate::machine::{ControlView, InterpreterView, KontView};
use crate::semantics::declare_methods;
use crate::stmt::{FunctionView, StmtView};
use crate::token::{LiteralView, TokenView};

verus! {

/// Whether a value can stand in a program as a literal: anything but a
/// callable or an instance, which only a running program makes.
pub open spec fn constant(value: LiteralView) -> bool {
    !(value is CallableLiteral) && !(value is InstanceLiteral)
}

/// Whether every literal of an expression can stand in a program.
pub open spec fn plain_expr(e: ExprView) -> bool
    decreases e,
{
    match e {
        ExprView::Assign { value, .. } => plain_expr(*value),
        ExprView::Binary { left, right, .. } => plain_expr(*left) && plain_expr(*right),
        ExprView::Call { callee, arguments, .. } => plain_expr(*callee) && forall|i: int|
            0 <= i < arguments.len() ==> plain_expr(#[trigger] arguments[i]),
        ExprView::Get { object, .. } => plain_expr(*object),
        ExprView::Grouping { expression, .. } => plain_expr(*expression),
        ExprView::LiteralExpr { value, .. } => constant(value),
        ExprView::Logical { left, right, .. } => plain_expr(*left) && plain_expr(*right),
        ExprView::SetExpr { object, value, .. } => plain_expr(*object) && plain_expr(*value),
        ExprView::Super { .. } => true,
        ExprView::This { .. } => true,
        ExprView::Unary { right, .. } => plain_expr(*right),
        ExprView::Variable { .. } => true,
    }
}

/// Whether every literal of a list of expressions can stand in a program.
#[verifier::opaque]
pub open spec fn plain_exprs(exprs: Seq<ExprView>) -> bool {
    forall|i: int| 0 <= i < exprs.len() ==> plain_expr(#[trigger] exprs[i])
}

/// Whether every literal of a statement can stand in a program.
pub open spec fn plain_stmt(s: StmtView) -> bool
    decreases s,
{
    match s {
        StmtView::Block { statements } => forall|i: int|
            0 <= i < statements.len() ==> plain_stmt(#[trigger] statements[i]),
        StmtView::Class { methods, .. } => forall|i: int|
            0 <= i < methods.len() ==> forall|k: int|
                0 <= k < (#[trigger] methods[i]).body.len() ==> plain_stmt(
                    #[trigger] methods[i].body[k],
                ),
        StmtView::Expression { expression } => plain_expr(expression),
        StmtView::Function(f) => forall|i: int|
            0 <= i < f.body.len() ==> plain_stmt(#[trigger] f.body[i]),
        StmtView::If { condition, then_branch, else_branch } => plain_expr(condition) && plain_stmt(
            *then_branch,
        ) && match else_branch {
            Some(s) => plain_stmt(*s),
            None => true,
        },
        StmtView::Print { expression } => plain_expr(expression),
        StmtView::Return { value, .. } => match value {
            Some(e) => plain_expr(e),
            None => true,
        },
        StmtView::Var { initializer, .. } => match initializer {
            Some(e) => plain_expr(e),
            None => true,
        },
        StmtView::While { condition, body } => plain_expr(condition) && plain_stmt(*body),
    }
}

/// Whether every literal of a list of statements can stand in a program.
#[verifier::opaque]
pub open spec fn plain_stmts(stmts: Seq<StmtView>) -> bool {
    forall|i: int| 0 <= i < stmts.len() ==> plain_stmt(#[trigger] stmts[i])
}

/// Whether every literal of a declaration can stand in a program.
pub open spec fn plain_function(f: FunctionView) -> bool {
    plain_stmts(f.body)
}

/// Whether every literal of a list of declarations can stand in a
/// program.
#[verifier::opaque]
pub open spec fn plain_functions(functions: Seq<FunctionView>) -> bool {
    forall|i: int| 0 <= i < functions.len() ==> plain_function(#[trigger] functions[i])
}

/// Whether the payload of every token can stand in a program.
#[verifier::opaque]
pub open spec fn plain_tokens(tokens: Seq<TokenView>) -> bool {
    forall|i: int| 0 <= i < tokens.len() ==> constant((#[trigger] tokens[i]).literal)
}

/// Whether every literal of what waits in a continuation can stand in a
/// program.
pub open spec fn kont_plain(kont: KontView) -> bool {
    match kont {
        KontView::BinaryLeft { right, .. } => plain_expr(right),
        KontView::Logical { right, .. } => plain_expr(right),
        KontView::Callee { arguments, .. } => plain_exprs(arguments),
        KontView::Argument { arguments, .. } => plain_exprs(arguments),
        KontView::SetObject { value, .. } => plain_expr(value),
        KontView::If { then_branch, else_branch } => plain_stmt(then_branch) && match else_branch {
            Some(s) => plain_stmt(s),
            None => true,
        },
        KontView::WhileCondition { condition, body } => plain_expr(condition) && plain_stmt(body),
        KontView::WhileBody { condition, body } => plain_expr(condition) && plain_stmt(body),
        KontView::Sequence { statements, .. } => plain_stmts(statements),
        _ => true,
    }
}

/// Whether every literal of what is in hand can stand in a program.
pub open spec fn control_plain(control: ControlView) -> bool {
    match control {
        ControlView::Expression(e) => plain_expr(e),
        ControlView::Statement(s) => plain_stmt(s),
        _ => true,
    }
}

/// Whether every literal of a function's declaration can stand in a
/// program.
pub open spec fn callable_plain(callable: CallableView) -> bool {
    match callable.kind {
        CallableKindView::Function { declaration, .. } => plain_function(declaration),
        _ => true,
    }
}

impl InterpreterView {
    /// Every literal of the program text that the interpreter holds, in
    /// hand, in its continuations and in its functions, can stand in a
    /// program.
    pub open spec fn plain(self) -> bool {
        &&& control_plain(self.control)
        &&& forall|k: int| 0 <= k < self.konts.len() ==> kont_plain(#[trigger] self.konts[k])
        &&& forall|k: int| 0 <= k < self.callables.len() ==> callable_plain(#[trigger] self.callables[k])
    }
}

/// A literal that can stand in a program points at nothing, so it is no
/// value that could point at what does not exist.
pub proof fn plain_literal_in_hand(m: InterpreterView)
    requires
        m.plain(),
    ensures
        literal_in_hand_ok(m),
{
    reveal(plain_exprs);
    reveal(plain_stmts);
    reveal(plain_functions);
    reveal(plain_tokens);
}

proof fn lemma_declare_methods_plain(
    callables: Seq<CallableView>,
    methods: Seq<FunctionView>,
    closure: Seq<usize>,
    count: int,
)
    requires
        0 <= count <= methods.len(),
        forall|k: int| 0 <= k < callables.len() ==> callable_plain(#[trigger] callables[k]),
        forall|i: int| 0 <= i < methods.len() ==> plain_function(#[trigger] methods[i]),
    ensures
        forall|k: int|
            0 <= k < declare_methods(callables, methods, closure, count).0.len() ==> callable_plain(
                #[trigger] declare_methods(callables, methods, closure, count).0[k],
            ),
    decreases count,
{
    reveal(plain_exprs);
    reveal(plain_stmts);
    reveal(plain_functions);
    reveal(plain_tokens);
    if count > 0 {
        lemma_declare_methods_plain(callables, methods, closure, count - 1);
        let before = declare_methods(callables, methods, closure, count - 1).0;
        let made = declare_methods(callables, methods, closure, count).0;
        assert forall|k: int| 0 <= k < made.len() implies callable_plain(#[trigger] made[k]) by {
            if k < before.len() {
                assert(made[k] == before[k]);
            } else {
                assert(plain_function(methods[count - 1]));
            }
        }
    }
}

/// One step keeps the program text that the interpreter holds plain.
pub proof fn step_keeps_plain(m: InterpreterView, event: Option<u64>)
    requires
        m.plain(),
    ensures
        m.step(event).0.plain(),
{
    reveal(plain_exprs);
    reveal(plain_stmts);
    reveal(plain_functions);
    reveal(plain_tokens);
    reveal(InterpreterView::step);
    match m.control {
        ControlView::Expression(expression) => lemma_begin_expression_plain(m, expression),
        ControlView::Statement(statement) => lemma_begin_statement_plain(m, statement),
        ControlView::Value(value) => {
            if m.konts.len() > 0 {
                let popped = InterpreterView {
                    control: ControlView::Finished,
                    konts: m.konts.drop_last(),
                    ..m
                };
                assert(popped.plain());
                assert(kont_plain(m.konts.last()));
                lemma_resume_plain(popped, m.konts.last(), value);
            }
        },
        ControlView::Return(value) => {
            if m.konts.len() > 0 {
                let popped = InterpreterView {
                    control: ControlView::Finished,
                    konts: m.konts.drop_last(),
                    ..m
                };
                assert(popped.plain());
            }
        },
        ControlView::Awaiting(_) => {},
        ControlView::Finished => {},
    }
}

proof fn lemma_fail_plain(m: InterpreterView, token: TokenView, message: Seq<char>)
    requires
        m.plain(),
    ensures
        m.fail(token, message).0.plain(),
{
    reveal(plain_exprs);
    reveal(plain_stmts);
    reveal(plain_functions);
    reveal(plain_tokens);
}

proof fn lemma_bind_plain(m: InterpreterView, method: usize, instance: LiteralView)
    requires
        m.plain(),
    ensures
        m.bind(method, instance).0.plain(),
        m.bind(method, instance).0.konts == m.konts,
        m.bind(method, instance).0.control == m.control,
{
    reveal(plain_exprs);
    reveal(plain_stmts);
    reveal(plain_functions);
    reveal(plain_tokens);
    let after = m.bind(method, instance).0;
    if m.bind(method, instance).1 is Some {
        assert(callable_plain(m.callables[method as int]));
        assert forall|k: int| 0 <= k < after.callables.len() implies callable_plain(
            #[trigger] after.callables[k],
        ) by {
            if k < m.callables.len() {
                assert(after.callables[k] == m.callables[k]);
            }
        }
    }
}

proof fn lemma_bound_method_plain(m: InterpreterView, class: usize, name: TokenView, instance: usize)
    requires
        m.plain(),
    ensures
        m.bound_method(class, name, instance).0.plain(),
        m.bound_method(class, name, instance).0.konts == m.konts,
        m.bound_method(class, name, instance).0.control == m.control,
{
    reveal(plain_exprs);
    reveal(plain_stmts);
    reveal(plain_functions);
    reveal(plain_tokens);
    match crate::class::method_of(m.callables, class, name.lexeme) {
        Some(method) => lemma_bind_plain(m, method, LiteralView::InstanceLiteral(instance)),
        None => {},
    }
}

proof fn lemma_call_function_plain(
    m: InterpreterView,
    index: usize,
    arguments: Seq<LiteralView>,
    this: Option<LiteralView>,
)
    requires
        m.plain(),
        !(m.control is Expression),
        !(m.control is Statement),
    ensures
        m.call_function(index, arguments, this).0.plain(),
{
    reveal(plain_exprs);
    reveal(plain_stmts);
    reveal(plain_functions);
    reveal(plain_tokens);
    if index < m.callables.len() {
        assert(callable_plain(m.callables[index as int]));
        let after = m.call_function(index, arguments, this).0;
        assert forall|k: int| 0 <= k < after.konts.len() implies kont_plain(#[trigger] after.konts[k]) by {
            if k < m.konts.len() {
                assert(after.konts[k] == m.konts[k]);
            }
        }
    }
}

proof fn lemma_call_plain(
    m: InterpreterView,
    callee: LiteralView,
    arguments: Seq<LiteralView>,
    paren: TokenView,
)
    requires
        m.plain(),
        m.control is Finished,
    ensures
        m.call(callee, arguments, paren).0.plain(),
{
    reveal(plain_exprs);
    reveal(plain_stmts);
    reveal(plain_functions);
    reveal(plain_tokens);
    lemma_fail_plain(m, paren, "Can only call functions and classes."@);
    lemma_fail_plain(m, paren, "Unknown native function."@);
    match callee {
        LiteralView::CallableLiteral(index) => {
            if index < m.callables.len() {
                let callable = m.callables[index as int];
                lemma_fail_plain(
                    m,
                    paren,
                    crate::semantics::arity_message(callable.arity as nat, arguments.len()),
                );
                if arguments.len() == callable.arity {
                    match callable.kind {
                        CallableKindView::Class(_) => {
                            let instance = m.instances.len() as usize;
                            let made = InterpreterView {
                                instances: m.instances.push(
                                    crate::instance::InstanceView { class: index, fields: Map::empty() },
                                ),
                                ..m
                            };
                            assert(made.plain());
                            match crate::class::method_of(m.callables, index, "init"@) {
                                Some(init) => {
                                    lemma_bind_plain(made, init, LiteralView::InstanceLiteral(instance));
                                    let (after, bound) = made.bind(
                                        init,
                                        LiteralView::InstanceLiteral(instance),
                                    );
                                    match bound {
                                        Some(b) => lemma_call_function_plain(
                                            after,
                                            b,
                                            arguments,
                                            Some(LiteralView::InstanceLiteral(instance)),
                                        ),
                                        None => {},
                                    }
                                },
                                None => {},
                            }
                        },
                        CallableKindView::Function { .. } => lemma_call_function_plain(
                            m,
                            index,
                            arguments,
                            None,
                        ),
                        CallableKindView::Native(_) => {},
                    }
                }
            }
        },
        _ => {},
    }
}

proof fn lemma_begin_expression_plain(m: InterpreterView, expression: ExprView)
    requires
        m.plain(),
        m.control == ControlView::Expression(expression),
    ensures
        m.begin_expression(expression).0.plain(),
{
    reveal(plain_exprs);
    reveal(plain_stmts);
    reveal(plain_functions);
    reveal(plain_tokens);
    let after = m.begin_expression(expression).0;
    match expression {
        ExprView::Super { id, method, .. } => {
            let (bound, found) = m.super_method(id, method);
            if m.environment.locals.contains_key(id) && m.environment.locals[id] >= 1 {
                let distance = m.environment.locals[id] as int;
                match (
                    m.environment.get_at(distance, "super"@),
                    m.environment.get_at(distance - 1, "this"@),
                ) {
                    (
                        Some(LiteralView::CallableLiteral(class)),
                        Some(LiteralView::InstanceLiteral(instance)),
                    ) => lemma_bound_method_plain(m, class, method, instance),
                    _ => {},
                }
            }
            match found {
                Ok(_) => {},
                Err(error) => lemma_fail_plain(bound, error.0, error.1),
            }
        },
        ExprView::This { id, keyword } => {
            match crate::semantics::lookup(m.environment, keyword, id) {
                Ok(_) => {},
                Err(error) => lemma_fail_plain(m, error.0, error.1),
            }
        },
        ExprView::Variable { id, name } => {
            match crate::semantics::lookup(m.environment, name, id) {
                Ok(_) => {},
                Err(error) => lemma_fail_plain(m, error.0, error.1),
            }
        },
        _ => {
            assert forall|k: int| 0 <= k < after.konts.len() implies kont_plain(
                #[trigger] after.konts[k],
            ) by {
                if k < m.konts.len() {
                    assert(after.konts[k] == m.konts[k]);
                }
            }
        },
    }
}

proof fn lemma_begin_statement_plain(m: InterpreterView, statement: StmtView)
    requires
        m.plain(),
        m.control == ControlView::Statement(statement),
    ensures
        m.begin_statement(statement).0.plain(),
{
    reveal(plain_exprs);
    reveal(plain_stmts);
    reveal(plain_functions);
    reveal(plain_tokens);
    let after = m.begin_statement(statement).0;
    match statement {
        StmtView::Class { name, superclass, methods } => {
            match superclass {
                Some(variable) => {
                    lemma_fail_plain(m, variable->Variable_name, "Superclass must be a class."@);
                    match crate::semantics::lookup(
                        m.environment,
                        variable->Variable_name,
                        variable.id(),
                    ) {
                        Ok(LiteralView::CallableLiteral(above)) => {
                            if above < m.callables.len() && m.callables[above as int].kind is Class {
                                lemma_declare_class_plain(m, name, Some(above), methods);
                            }
                        },
                        Ok(_) => {},
                        Err(error) => lemma_fail_plain(m, error.0, error.1),
                    }
                },
                None => lemma_declare_class_plain(m, name, None, methods),
            }
        },
        StmtView::Function(declaration) => {
            assert forall|k: int| 0 <= k < after.callables.len() implies callable_plain(
                #[trigger] after.callables[k],
            ) by {
                if k < m.callables.len() {
                    assert(after.callables[k] == m.callables[k]);
                }
            }
        },
        _ => {
            assert forall|k: int| 0 <= k < after.konts.len() implies kont_plain(
                #[trigger] after.konts[k],
            ) by {
                if k < m.konts.len() {
                    assert(after.konts[k] == m.konts[k]);
                }
            }
        },
    }
}

proof fn lemma_declare_class_plain(
    m: InterpreterView,
    name: TokenView,
    superclass: Option<usize>,
    methods: Seq<FunctionView>,
)
    requires
        m.plain(),
        forall|i: int| 0 <= i < methods.len() ==> plain_function(#[trigger] methods[i]),
    ensures
        m.declare_class(name, superclass, methods).0.plain(),
{
    reveal(plain_exprs);
    reveal(plain_stmts);
    reveal(plain_functions);
    reveal(plain_tokens);
    let declared = m.environment.define(name.lexeme, LiteralView::Nil);
    let inside = match superclass {
        Some(above) => declared.add_scope().define("super"@, LiteralView::CallableLiteral(above)),
        None => declared,
    };
    let outside = if superclass is Some {
        inside.del_scope()
    } else {
        inside
    };
    let (made, table) = declare_methods(m.callables, methods, inside.layers, methods.len() as int);
    lemma_declare_methods_plain(m.callables, methods, inside.layers, methods.len() as int);
    let class = crate::callable::class_value(name.lexeme, superclass, table, made);
    let value = LiteralView::CallableLiteral(made.len() as usize);
    let after = InterpreterView {
        environment: outside.assign(name.lexeme, value),
        callables: made.push(class),
        ..m
    };
    assert forall|k: int| 0 <= k < after.callables.len() implies callable_plain(
        #[trigger] after.callables[k],
    ) by {
        if k < made.len() {
            assert(after.callables[k] == made[k]);
        }
    }
    assert((InterpreterView { control: ControlView::Finished, ..after }).plain());
    lemma_fail_plain(
        InterpreterView { control: ControlView::Finished, ..after },
        name,
        crate::environment::undefined_variable(name.lexeme),
    );
}

proof fn lemma_resume_plain(m: InterpreterView, kont: KontView, value: LiteralView)
    requires
        m.plain(),
        m.control is Finished,
        kont_plain(kont),
    ensures
        m.resume(kont, value).0.plain(),
{
    reveal(plain_exprs);
    reveal(plain_stmts);
    reveal(plain_functions);
    reveal(plain_tokens);
    let after = m.resume(kont, value).0;
    match kont {
        KontView::Unary { operator } => {
            lemma_fail_plain(m, operator, "Operand must be a number."@);
            lemma_fail_plain(m, operator, "Expected a unary operator."@);
        },
        KontView::BinaryRight { operator, left } => {
            lemma_fail_plain(m, operator, "Operands must be two numbers or two strings."@);
            lemma_fail_plain(m, operator, "Operands must be numbers."@);
            lemma_fail_plain(m, operator, "Expected a binary operator."@);
        },
        KontView::Assign { id, name } => {
            lemma_fail_plain(m, name, crate::environment::undefined_variable(name.lexeme));
        },
        KontView::Callee { paren, arguments } => {
            if arguments.len() == 0 {
                lemma_call_plain(m, value, Seq::empty(), paren);
            } else {
                assert(plain_expr(arguments[0]));
                assert forall|k: int| 0 <= k < after.konts.len() implies kont_plain(
                    #[trigger] after.konts[k],
                ) by {
                    if k < m.konts.len() {
                        assert(after.konts[k] == m.konts[k]);
                    }
                }
            }
        },
        KontView::Argument { paren, arguments, callee, values } => {
            if values.len() + 1 < arguments.len() {
                assert(plain_expr(arguments[values.len() as int + 1]));
                assert forall|k: int| 0 <= k < after.konts.len() implies kont_plain(
                    #[trigger] after.konts[k],
                ) by {
                    if k < m.konts.len() {
                        assert(after.konts[k] == m.konts[k]);
                    }
                }
            } else {
                lemma_call_plain(m, callee, values.push(value), paren);
            }
        },
        KontView::Get { name } => {
            lemma_fail_plain(m, name, "Only instances have properties."@);
            match value {
                LiteralView::InstanceLiteral(instance) => {
                    let (bound, found) = m.get_property(instance, name);
                    if instance < m.instances.len() && !m.instances[instance as int].fields.contains_key(
                        name.lexeme,
                    ) {
                        lemma_bound_method_plain(
                            m,
                            m.instances[instance as int].class,
                            name,
                            instance,
                        );
                    }
                    match found {
                        Ok(_) => {},
                        Err(error) => lemma_fail_plain(bound, error.0, error.1),
                    }
                },
                _ => {},
            }
        },
        KontView::SetObject { name, .. } => {
            lemma_fail_plain(m, name, "Only instances have fields."@);
            assert forall|k: int| 0 <= k < after.konts.len() implies kont_plain(
                #[trigger] after.konts[k],
            ) by {
                if k < m.konts.len() {
                    assert(after.konts[k] == m.konts[k]);
                }
            }
        },
        KontView::SetValue { name, .. } => {
            lemma_fail_plain(m, name, "Only instances have fields."@);
        },
        KontView::Sequence { statements, next } => {
            if next < statements.len() {
                assert(plain_stmt(statements[next as int]));
            }
            assert forall|k: int| 0 <= k < after.konts.len() implies kont_plain(
                #[trigger] after.konts[k],
            ) by {
                if k < m.konts.len() {
                    assert(after.konts[k] == m.konts[k]);
                }
            }
        },
        _ => {
            assert forall|k: int| 0 <= k < after.konts.len() implies kont_plain(
                #[trigger] after.konts[k],
            ) by {
                if k < m.konts.len() {
                    assert(after.konts[k] == m.konts[k]);
                }
            }
        },
    }
}

/// An interpreter on which no program has run yet holds no program text.
pub proof fn initial_is_plain()
    ensures
        crate::semantics::initial().plain(),
{
    reveal(plain_exprs);
    reveal(plain_stmts);
    reveal(plain_functions);
    reveal(plain_tokens);
}

/// The start of a run of plain statements keeps the program text that the
/// interpreter holds plain.
pub proof fn load_keeps_plain(m: InterpreterView, statements: Seq<StmtView>)
    requires
        m.plain(),
        plain_stmts(statements),
    ensures
        m.load(statements).plain(),
{
    reveal(plain_exprs);
    reveal(plain_stmts);
    reveal(plain_functions);
    reveal(plain_tokens);
}

/// An empty list of expressions is plain.
pub proof fn lemma_plain_exprs_empty()
    ensures
        plain_exprs(Seq::empty()),
{
    reveal(plain_exprs);
}

/// A plain expression behind plain expressions makes a plain list.
pub proof fn lemma_plain_exprs_pushed(exprs: Seq<ExprView>, last: ExprView)
    requires
        plain_exprs(exprs),
        plain_expr(last),
    ensures
        plain_exprs(exprs.push(last)),
{
    reveal(plain_exprs);
    assert forall|i: int| 0 <= i < exprs.push(last).len() implies plain_expr(
        #[trigger] exprs.push(last)[i],
    ) by {
        if i < exprs.len() {
            assert(exprs.push(last)[i] == exprs[i]);
        }
    }
}

/// An empty list of statements is plain.
pub proof fn lemma_plain_stmts_empty()
    ensures
        plain_stmts(Seq::empty()),
{
    reveal(plain_stmts);
}

/// A plain statement behind plain statements makes a plain list.
pub proof fn lemma_plain_stmts_pushed(stmts: Seq<StmtView>, last: StmtView)
    requires
        plain_stmts(stmts),
        plain_stmt(last),
    ensures
        plain_stmts(stmts.push(last)),
{
    reveal(plain_stmts);
    assert forall|i: int| 0 <= i < stmts.push(last).len() implies plain_stmt(
        #[trigger] stmts.push(last)[i],
    ) by {
        if i < stmts.len() {
            assert(stmts.push(last)[i] == stmts[i]);
        }
    }
}

/// Two plain statements make a plain list.
pub proof fn lemma_plain_stmts_pair(first: StmtView, second: StmtView)
    requires
        plain_stmt(first),
        plain_stmt(second),
    ensures
        plain_stmts(seq![first, second]),
{
    reveal(plain_stmts);
}

/// An empty list of declarations is plain.
pub proof fn lemma_plain_functions_empty()
    ensures
        plain_functions(Seq::empty()),
{
    reveal(plain_functions);
}

/// A plain declaration behind plain declarations makes a plain list.
pub proof fn lemma_plain_functions_pushed(functions: Seq<FunctionView>, last: FunctionView)
    requires
        plain_functions(functions),
        plain_function(last),
    ensures
        plain_functions(functions.push(last)),
{
    reveal(plain_functions);
    assert forall|i: int| 0 <= i < functions.push(last).len() implies plain_function(
        #[trigger] functions.push(last)[i],
    ) by {
        if i < functions.len() {
            assert(functions.push(last)[i] == functions[i]);
        }
    }
}

/// The payload of each of plain tokens can stand in a program.
pub proof fn lemma_plain_token(tokens: Seq<TokenView>, i: int)
    requires
        plain_tokens(tokens),
        0 <= i < tokens.len(),
    ensures
        constant(tokens[i].literal),
{
    reveal(plain_tokens);
}

/// A call is plain where its callee and its arguments are.
pub proof fn lemma_plain_call(e: ExprView)
    requires
        e is Call,
    ensures
        plain_expr(e) == (plain_expr(*e->Call_callee) && plain_exprs(e->Call_arguments)),
{
    reveal(plain_exprs);
}

/// A block is plain where its statements are; so is a function.
pub proof fn lemma_plain_block(statements: Seq<StmtView>)
    ensures
        plain_stmt(StmtView::Block { statements }) == plain_stmts(statements),
{
    reveal(plain_stmts);
    let block = StmtView::Block { statements };
    if plain_stmts(statements) {
        assert forall|i: int| 0 <= i < statements.len() implies plain_stmt(
            #[trigger] statements[i],
        ) by {}
        assert(plain_stmt(block));
    }
    if plain_stmt(block) {
        assert forall|i: int| 0 <= i < statements.len() implies plain_stmt(
            #[trigger] statements[i],
        ) by {
            assert(block->Block_statements[i] == statements[i]);
        }
    }
}

/// A class is plain where its methods are.
pub proof fn lemma_plain_class(s: StmtView)
    requires
        s is Class,
    ensures
        plain_functions(s->Class_methods) ==> plain_stmt(s),
{
    reveal(plain_functions);
    reveal(plain_stmts);
    let methods = s->Class_methods;
    if plain_functions(methods) {
        assert forall|i: int| 0 <= i < methods.len() implies forall|k: int|
            0 <= k < (#[trigger] methods[i]).body.len() ==> plain_stmt(
                #[trigger] methods[i].body[k],
            ) by {
            assert(plain_function(methods[i]));
        }
    }
}

} // verus!
