use vstd::prelude::*;
use crate::callable::{CallableKindView, CallableView, function_value};
use crate::environment::{EnvironmentView, stack_ok};
use crate::expr::ExprView;
use crate::machine::{ControlView, InterpreterView, KontView};
use crate::semantics::{declare_methods, define_all};
use crate::stmt::{FunctionView, StmtView};
use crate::token::{LiteralView, TokenView};

verus! {

/// Whether the closure of a callable, where it has one, is a stack over
/// `frames` scopes.
pub open spec fn callable_ok(callable: CallableView, frames: nat) -> bool {
    match callable.kind {
        CallableKindView::Function { closure, .. } => stack_ok(closure, frames),
        _ => true,
    }
}

/// Whether the stack that a waiting call has put by is a stack over
/// `frames` scopes.
pub open spec fn kont_ok(kont: KontView, frames: nat) -> bool {
    match kont {
        KontView::Call { layers, .. } => stack_ok(layers, frames),
        _ => true,
    }
}

impl InterpreterView {
    /// Every function's closure is a stack over the scopes that exist.
    pub open spec fn closures_ok(self) -> bool {
        forall|i: int|
            0 <= i < self.callables.len() ==> callable_ok(
                #[trigger] self.callables[i],
                self.environment.frames.len(),
            )
    }

    /// Every stack that a waiting call has put by is a stack over the
    /// scopes that exist.
    pub open spec fn konts_ok(self) -> bool {
        forall|i: int|
            0 <= i < self.konts.len() ==> kont_ok(
                #[trigger] self.konts[i],
                self.environment.frames.len(),
            )
    }

    /// The interpreter is well formed: the stack of scopes in force, the
    /// closure of every function and the stack that every waiting call
    /// will restore are stacks over the scopes that exist.
    pub open spec fn wf(self) -> bool {
        self.environment.wf() && self.closures_ok() && self.konts_ok()
    }
}

proof fn lemma_define_all_keeps_shape(
    environment: EnvironmentView,
    names: Seq<Seq<char>>,
    values: Seq<LiteralView>,
    count: int,
)
    ensures
        define_all(environment, names, values, count).layers == environment.layers,
        define_all(environment, names, values, count).frames.len() == environment.frames.len(),
    decreases count,
{
    if count > 0 {
        lemma_define_all_keeps_shape(environment, names, values, count - 1);
    }
}

proof fn lemma_declare_methods_ok(
    callables: Seq<CallableView>,
    methods: Seq<FunctionView>,
    closure: Seq<usize>,
    count: int,
    frames: nat,
)
    requires
        stack_ok(closure, frames),
        forall|i: int| 0 <= i < callables.len() ==> callable_ok(#[trigger] callables[i], frames),
    ensures
        forall|i: int|
            0 <= i < declare_methods(callables, methods, closure, count).0.len() ==> callable_ok(
                #[trigger] declare_methods(callables, methods, closure, count).0[i],
                frames,
            ),
    decreases count,
{
    if count > 0 {
        lemma_declare_methods_ok(callables, methods, closure, count - 1, frames);
        let before = declare_methods(callables, methods, closure, count - 1).0;
        let after = declare_methods(callables, methods, closure, count).0;
        let method = methods[count - 1];
        assert(after == before.push(
            function_value(method, closure, method.name.lexeme == "init"@),
        ));
        assert forall|i: int| 0 <= i < after.len() implies callable_ok(#[trigger] after[i], frames) by {
            if i < before.len() {
                assert(after[i] == before[i]);
            }
        }
    }
}

proof fn lemma_bind_keeps_well_formed(m: InterpreterView, method: usize, instance: LiteralView)
    requires
        m.wf(),
        m.bind(method, instance).0.sized(),
    ensures
        m.bind(method, instance).0.wf(),
        m.bind(method, instance).0.konts == m.konts,
        m.bind(method, instance).0.control == m.control,
        m.bind(method, instance).0.environment.layers == m.environment.layers,
{
}

proof fn lemma_bound_method_keeps_well_formed(
    m: InterpreterView,
    class: usize,
    name: TokenView,
    instance: usize,
)
    requires
        m.wf(),
        m.bound_method(class, name, instance).0.sized(),
    ensures
        m.bound_method(class, name, instance).0.wf(),
{
    match crate::class::method_of(m.callables, class, name.lexeme) {
        Some(method) => {
            if m.bind(method, LiteralView::InstanceLiteral(instance)).1 is Some {
                lemma_bind_keeps_well_formed(m, method, LiteralView::InstanceLiteral(instance));
            }
        },
        None => {},
    }
}

proof fn lemma_fail_keeps_well_formed(m: InterpreterView, token: TokenView, message: Seq<char>)
    requires
        m.wf(),
    ensures
        m.fail(token, message).0.wf(),
{
}

proof fn lemma_call_function_keeps_well_formed(
    m: InterpreterView,
    index: usize,
    arguments: Seq<LiteralView>,
    this: Option<LiteralView>,
)
    requires
        m.wf(),
        m.call_function(index, arguments, this).0.sized(),
    ensures
        m.call_function(index, arguments, this).0.wf(),
{
    if index < m.callables.len() {
        match m.callables[index as int].kind {
            CallableKindView::Function { declaration, closure, is_initializer } => {
                let names = m.callables[index as int].parameters;
                let count = if names.len() <= arguments.len() {
                    names.len() as int
                } else {
                    arguments.len() as int
                };
                let entered = (EnvironmentView { layers: closure, ..m.environment }).add_scope();
                lemma_define_all_keeps_shape(entered, names, arguments, count);
                let after = m.call_function(index, arguments, this).0;
                assert(after.environment.frames.len() == m.environment.frames.len() + 1);
                assert(callable_ok(m.callables[index as int], m.environment.frames.len()));
                assert(after.environment.layers == closure.push(m.environment.frames.len() as usize));
                assert forall|i: int| 0 <= i < after.konts.len() implies kont_ok(
                    #[trigger] after.konts[i],
                    after.environment.frames.len(),
                ) by {
                    if i < m.konts.len() {
                        assert(after.konts[i] == m.konts[i]);
                    }
                }
            },
            _ => {},
        }
    }
}

proof fn lemma_construct_keeps_well_formed(
    m: InterpreterView,
    class: usize,
    arguments: Seq<LiteralView>,
)
    requires
        m.wf(),
        m.construct(class, arguments).0.sized(),
    ensures
        m.construct(class, arguments).0.wf(),
{
    let instance = m.instances.len() as usize;
    let made = InterpreterView {
        instances: m.instances.push(crate::instance::InstanceView { class, fields: Map::empty() }),
        ..m
    };
    assert(made.wf());
    match crate::class::method_of(m.callables, class, "init"@) {
        Some(init) => {
            let (after, bound) = made.bind(init, LiteralView::InstanceLiteral(instance));
            match bound {
                Some(index) => {
                    let called = after.call_function(
                        index,
                        arguments,
                        Some(LiteralView::InstanceLiteral(instance)),
                    ).0;
                    assert(called.environment.frames.len() >= after.environment.frames.len()) by {
                        if index < after.callables.len() {
                            match after.callables[index as int].kind {
                                CallableKindView::Function { closure, .. } => {
                                    let names = after.callables[index as int].parameters;
                                    let count = if names.len() <= arguments.len() {
                                        names.len() as int
                                    } else {
                                        arguments.len() as int
                                    };
                                    lemma_define_all_keeps_shape(
                                        (EnvironmentView {
                                            layers: closure,
                                            ..after.environment
                                        }).add_scope(),
                                        names,
                                        arguments,
                                        count,
                                    );
                                },
                                _ => {},
                            }
                        }
                    }
                    lemma_bind_keeps_well_formed(made, init, LiteralView::InstanceLiteral(instance));
                    lemma_call_function_keeps_well_formed(
                        after,
                        index,
                        arguments,
                        Some(LiteralView::InstanceLiteral(instance)),
                    );
                },
                None => {},
            }
        },
        None => {},
    }
}

proof fn lemma_call_keeps_well_formed(
    m: InterpreterView,
    callee: LiteralView,
    arguments: Seq<LiteralView>,
    paren: TokenView,
)
    requires
        m.wf(),
        m.call(callee, arguments, paren).0.sized(),
    ensures
        m.call(callee, arguments, paren).0.wf(),
{
    lemma_fail_keeps_well_formed(m, paren, "Can only call functions and classes."@);
    lemma_fail_keeps_well_formed(m, paren, "Unknown native function."@);
    match callee {
        LiteralView::CallableLiteral(index) => {
            if index < m.callables.len() {
                let callable = m.callables[index as int];
                lemma_fail_keeps_well_formed(
                    m,
                    paren,
                    crate::semantics::arity_message(callable.arity as nat, arguments.len()),
                );
                if arguments.len() == callable.arity {
                    match callable.kind {
                        CallableKindView::Class(_) => lemma_construct_keeps_well_formed(
                            m,
                            index,
                            arguments,
                        ),
                        CallableKindView::Function { .. } => lemma_call_function_keeps_well_formed(
                            m,
                            index,
                            arguments,
                            None,
                        ),
                        CallableKindView::Native(_) => {},
                    }
                }
            }
        },
        _ => {},
    }
}

proof fn lemma_declare_class_keeps_well_formed(
    m: InterpreterView,
    name: TokenView,
    superclass: Option<usize>,
    methods: Seq<FunctionView>,
)
    requires
        m.wf(),
        m.declare_class(name, superclass, methods).0.sized(),
    ensures
        m.declare_class(name, superclass, methods).0.wf(),
{
    let declared = m.environment.define(name.lexeme, LiteralView::Nil);
    let inside = match superclass {
        Some(above) => declared.add_scope().define("super"@, LiteralView::CallableLiteral(above)),
        None => declared,
    };
    let outside = if superclass is Some {
        inside.del_scope()
    } else {
        inside
    };
    let (made, table) = declare_methods(m.callables, methods, inside.layers, methods.len() as int);
    let value = LiteralView::CallableLiteral(made.len() as usize);
    let assigned = outside.assign(name.lexeme, value);
    let after = m.declare_class(name, superclass, methods).0;
    assert(after.environment.frames.len() == inside.frames.len());
    assert(inside.frames.len() >= m.environment.frames.len());
    assert(stack_ok(inside.layers, inside.frames.len()));
    assert(forall|i: int|
        0 <= i < m.callables.len() ==> callable_ok(#[trigger] m.callables[i], inside.frames.len()));
    lemma_declare_methods_ok(m.callables, methods, inside.layers, methods.len() as int, inside.frames.len());
    assert(outside.layers == m.environment.layers) by {
        if superclass is Some {
            assert(inside.layers.drop_last() =~= m.environment.layers);
        }
    }
    assert(assigned.layers == outside.layers);
    assert(assigned.frames.len() == outside.frames.len());
    let class = crate::callable::class_value(name.lexeme, superclass, table, made);
    assert forall|i: int| 0 <= i < made.push(class).len() implies callable_ok(
        #[trigger] made.push(class)[i],
        inside.frames.len(),
    ) by {
        if i < made.len() {
            assert(made.push(class)[i] == made[i]);
        }
    }
    let loaded = InterpreterView { environment: assigned, callables: made.push(class), ..m };
    assert(loaded.wf()) by {
        assert forall|i: int| 0 <= i < loaded.konts.len() implies kont_ok(
            #[trigger] loaded.konts[i],
            loaded.environment.frames.len(),
        ) by {
            assert(kont_ok(m.konts[i], m.environment.frames.len()));
        }
    }
    lemma_fail_keeps_well_formed(loaded, name, crate::environment::undefined_variable(name.lexeme));
}

/// One step keeps the interpreter well formed, as long as its tables stay
/// within the size that a table in memory can have.
pub proof fn step_keeps_well_formed(m: InterpreterView, event: Option<u64>)
    requires
        m.wf(),
        m.step(event).0.sized(),
    ensures
        m.step(event).0.wf(),
{
    reveal(InterpreterView::step);
    match m.control {
        ControlView::Expression(expression) => lemma_begin_expression(m, expression),
        ControlView::Statement(statement) => lemma_begin_statement(m, statement),
        ControlView::Value(value) => {
            if m.konts.len() > 0 {
                let popped = InterpreterView {
                    control: ControlView::Finished,
                    konts: m.konts.drop_last(),
                    ..m
                };
                assert(popped.wf());
                assert(kont_ok(m.konts.last(), m.environment.frames.len()));
                lemma_resume(popped, m.konts.last(), value);
            }
        },
        ControlView::Return(value) => {
            if m.konts.len() > 0 {
                let popped = InterpreterView {
                    control: ControlView::Finished,
                    konts: m.konts.drop_last(),
                    ..m
                };
                assert(popped.wf());
                assert(kont_ok(m.konts.last(), m.environment.frames.len()));
            }
        },
        ControlView::Awaiting(_) => {},
        ControlView::Finished => {},
    }
}

proof fn lemma_begin_expression(m: InterpreterView, expression: ExprView)
    requires
        m.wf(),
        m.begin_expression(expression).0.sized(),
    ensures
        m.begin_expression(expression).0.wf(),
{
    match expression {
        ExprView::Super { id, method, .. } => {
            let (after, found) = m.super_method(id, method);
            if m.environment.locals.contains_key(id) && m.environment.locals[id] >= 1 {
                let distance = m.environment.locals[id] as int;
                match (
                    m.environment.get_at(distance, "super"@),
                    m.environment.get_at(distance - 1, "this"@),
                ) {
                    (
                        Some(LiteralView::CallableLiteral(class)),
                        Some(LiteralView::InstanceLiteral(instance)),
                    ) => {
                        assert(m.bound_method(class, method, instance).0.sized()) by {
                            assert(after.deliver(found).0.callables == after.callables);
                            assert(after.deliver(found).0.instances == after.instances);
                            assert(after.deliver(found).0.environment.frames
                                == after.environment.frames);
                        }
                        lemma_bound_method_keeps_well_formed(m, class, method, instance);
                    },
                    _ => {},
                }
            }
            match found {
                Ok(_) => {},
                Err(error) => lemma_fail_keeps_well_formed(after, error.0, error.1),
            }
        },
        ExprView::This { id, keyword } => {
            match crate::semantics::lookup(m.environment, keyword, id) {
                Ok(_) => {},
                Err(error) => lemma_fail_keeps_well_formed(m, error.0, error.1),
            }
        },
        ExprView::Variable { id, name } => {
            match crate::semantics::lookup(m.environment, name, id) {
                Ok(_) => {},
                Err(error) => lemma_fail_keeps_well_formed(m, error.0, error.1),
            }
        },
        _ => {},
    }
}

proof fn lemma_begin_statement(m: InterpreterView, statement: StmtView)
    requires
        m.wf(),
        m.begin_statement(statement).0.sized(),
    ensures
        m.begin_statement(statement).0.wf(),
{
    match statement {
        StmtView::Class { name, superclass, methods } => {
            match superclass {
                Some(variable) => {
                    lemma_fail_keeps_well_formed(
                        m,
                        variable->Variable_name,
                        "Superclass must be a class."@,
                    );
                    match crate::semantics::lookup(
                        m.environment,
                        variable->Variable_name,
                        variable.id(),
                    ) {
                        Ok(LiteralView::CallableLiteral(above)) => {
                            if above < m.callables.len() && m.callables[above as int].kind is Class {
                                lemma_declare_class_keeps_well_formed(m, name, Some(above), methods);
                            }
                        },
                        Ok(_) => {},
                        Err(error) => lemma_fail_keeps_well_formed(m, error.0, error.1),
                    }
                },
                None => lemma_declare_class_keeps_well_formed(m, name, None, methods),
            }
        },
        _ => {},
    }
}

proof fn lemma_resume(m: InterpreterView, kont: KontView, value: LiteralView)
    requires
        m.wf(),
        kont_ok(kont, m.environment.frames.len()),
        m.resume(kont, value).0.sized(),
    ensures
        m.resume(kont, value).0.wf(),
{
    match kont {
        KontView::Unary { operator } => {
            lemma_fail_keeps_well_formed(m, operator, "Operand must be a number."@);
            lemma_fail_keeps_well_formed(m, operator, "Expected a unary operator."@);
        },
        KontView::BinaryRight { operator, left } => {
            lemma_fail_keeps_well_formed(m, operator, "Operands must be two numbers or two strings."@);
            lemma_fail_keeps_well_formed(m, operator, "Operands must be numbers."@);
            lemma_fail_keeps_well_formed(m, operator, "Expected a binary operator."@);
        },
        KontView::Assign { id, name } => {
            lemma_fail_keeps_well_formed(m, name, crate::environment::undefined_variable(name.lexeme));
        },
        KontView::Callee { paren, arguments } => {
            if arguments.len() == 0 {
                lemma_call_keeps_well_formed(m, value, Seq::empty(), paren);
            }
        },
        KontView::Argument { paren, arguments, callee, values } => {
            if !(values.len() + 1 < arguments.len()) {
                lemma_call_keeps_well_formed(m, callee, values.push(value), paren);
            }
        },
        KontView::Get { name } => {
            lemma_fail_keeps_well_formed(m, name, "Only instances have properties."@);
            match value {
                LiteralView::InstanceLiteral(instance) => {
                    let (after, found) = m.get_property(instance, name);
                    if instance < m.instances.len() && !m.instances[instance as int].fields.contains_key(
                        name.lexeme,
                    ) {
                        assert(after.deliver(found).0.callables == after.callables);
                        assert(after.deliver(found).0.instances == after.instances);
                        assert(after.deliver(found).0.environment.frames == after.environment.frames);
                        lemma_bound_method_keeps_well_formed(
                            m,
                            m.instances[instance as int].class,
                            name,
                            instance,
                        );
                    }
                    match found {
                        Ok(_) => {},
                        Err(error) => lemma_fail_keeps_well_formed(after, error.0, error.1),
                    }
                },
                _ => {},
            }
        },
        KontView::SetObject { name, .. } => {
            lemma_fail_keeps_well_formed(m, name, "Only instances have fields."@);
        },
        KontView::SetValue { name, .. } => {
            lemma_fail_keeps_well_formed(m, name, "Only instances have fields."@);
        },
        _ => {},
    }
}

/// An interpreter on which no program has run yet is well formed.
pub proof fn initial_is_well_formed()
    ensures
        crate::semantics::initial().wf(),
        crate::semantics::initial().sized(),
{
}

/// The start of a run keeps the interpreter well formed.
pub proof fn load_keeps_well_formed(m: InterpreterView, statements: Seq<StmtView>)
    requires
        m.wf(),
    ensures
        m.load(statements).wf(),
{
}

} // verus!
