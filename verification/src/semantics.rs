use vstd::prelude::*;
use crate::callable::{CallableKindView, CallableView, class_value, function_value};
use crate::class::method_of;
use crate::environment::{EnvironmentView, undefined_variable};
use crate::expr::ExprView;
use crate::instance::InstanceView;
use crate::machine::{ActionView, ControlView, InterpreterView, KontView, RequestView};
use crate::number::{integral_text, negated, number_equal, number_less};
use crate::stmt::{FunctionView, StmtView};
use crate::text::decimal;
use crate::token::{LiteralView, TokenView};
use crate::token_type::TokenType;

verus! {

/// Truthiness: `nil` and `false` are false, every other value is true.
pub open spec fn truthy(value: LiteralView) -> bool {
    match value {
        LiteralView::BoolLiteral(b) => b,
        LiteralView::Nil => false,
        _ => true,
    }
}

/// Equality of values: `nil` equals `nil` alone; two values of one kind are
/// compared by what they hold (numbers as IEEE 754 says, callables and
/// instances by identity); values of different kinds are never equal.
pub open spec fn values_equal(left: LiteralView, right: LiteralView) -> bool {
    match (left, right) {
        (LiteralView::Nil, LiteralView::Nil) => true,
        (LiteralView::BoolLiteral(a), LiteralView::BoolLiteral(b)) => a == b,
        (LiteralView::F64(a), LiteralView::F64(b)) => number_equal(a, b),
        (LiteralView::IdentifierLiteral(a), LiteralView::IdentifierLiteral(b)) => a == b,
        (LiteralView::NumberLiteral(a), LiteralView::NumberLiteral(b)) => a == b,
        (LiteralView::StringLiteral(a), LiteralView::StringLiteral(b)) => a == b,
        (LiteralView::CallableLiteral(a), LiteralView::CallableLiteral(b)) => a == b,
        (LiteralView::InstanceLiteral(a), LiteralView::InstanceLiteral(b)) => a == b,
        _ => false,
    }
}

/// The name of the class at `index`, or nothing where there is no class.
pub open spec fn class_name(callables: Seq<CallableView>, index: usize) -> Seq<char> {
    if index < callables.len() {
        match callables[index as int].kind {
            CallableKindView::Class(class) => class.name,
            _ => Seq::empty(),
        }
    } else {
        Seq::empty()
    }
}

/// The text that a callable is printed as.
pub open spec fn callable_text(callable: CallableView) -> Seq<char> {
    match callable.kind {
        CallableKindView::Class(class) => class.name,
        CallableKindView::Function { declaration, .. } => "<fn "@ + declaration.name.lexeme + ">"@,
        CallableKindView::Native(_) => "<native fn>"@,
    }
}

/// The text that a value is printed as. A number that has a fractional part
/// or is not finite has none here: the host writes it.
pub open spec fn text_of(
    value: LiteralView,
    callables: Seq<CallableView>,
    instances: Seq<InstanceView>,
) -> Option<Seq<char>> {
    match value {
        LiteralView::BoolLiteral(b) => Some(if b { "true"@ } else { "false"@ }),
        LiteralView::CallableLiteral(index) => Some(
            if index < callables.len() {
                callable_text(callables[index as int])
            } else {
                "nil"@
            },
        ),
        LiteralView::F64(bits) => integral_text(bits),
        LiteralView::IdentifierLiteral(name) => Some(name),
        LiteralView::InstanceLiteral(index) => Some(
            if index < instances.len() {
                class_name(callables, instances[index as int].class) + " instance"@
            } else {
                "nil"@
            },
        ),
        LiteralView::NumberLiteral(text) => Some(text),
        LiteralView::StringLiteral(text) => Some(text),
        LiteralView::Nil => Some("nil"@),
    }
}

/// The text of the error for a property that an instance lacks.
pub open spec fn undefined_property(name: Seq<char>) -> Seq<char> {
    "Undefined property '"@ + name + "'."@
}

/// The text of the error for a call with the wrong number of arguments.
pub open spec fn arity_message(expected: nat, got: nat) -> Seq<char> {
    "Expected "@ + decimal(expected) + " arguments but got "@ + decimal(got) + "."@
}

/// A value, or the token and message of a runtime error.
pub type Evaluated = Result<LiteralView, (TokenView, Seq<char>)>;

/// What a reference to a variable reads: the scope that the resolver
/// recorded for the expression, or the global scope where it recorded none.
pub open spec fn lookup(environment: EnvironmentView, name: TokenView, id: usize) -> Evaluated {
    let found = if environment.locals.contains_key(id) {
        environment.get_at(environment.locals[id] as int, name.lexeme)
    } else {
        environment.get_global(name.lexeme)
    };
    match found {
        Some(value) => Ok(value),
        None => Err((name, undefined_variable(name.lexeme))),
    }
}

/// The scopes after an assignment through a reference: to the scope that
/// the resolver recorded, or to the global scope.
pub open spec fn assigned(
    environment: EnvironmentView,
    name: TokenView,
    id: usize,
    value: LiteralView,
) -> EnvironmentView {
    if environment.locals.contains_key(id) {
        environment.assign_at(environment.locals[id] as int, name.lexeme, value)
    } else {
        environment.assign_global(name.lexeme, value)
    }
}

/// Whether an assignment through a reference finds its scope.
pub open spec fn assignable(environment: EnvironmentView, name: TokenView, id: usize) -> bool {
    if environment.locals.contains_key(id) {
        environment.ancestor(environment.locals[id] as int) is Some
    } else {
        environment.has_global(name.lexeme)
    }
}

/// The first `count` names bound to the first `count` values, in order, in
/// the innermost scope.
pub open spec fn define_all(
    environment: EnvironmentView,
    names: Seq<Seq<char>>,
    values: Seq<LiteralView>,
    count: int,
) -> EnvironmentView
    decreases count,
{
    if count <= 0 {
        environment
    } else {
        define_all(environment, names, values, count - 1).define(names[count - 1], values[count - 1])
    }
}

/// The table of callables with the first `count` methods of a class added,
/// each closed over `closure`, and the class's method table so far.
pub open spec fn declare_methods(
    callables: Seq<CallableView>,
    methods: Seq<FunctionView>,
    closure: Seq<usize>,
    count: int,
) -> (Seq<CallableView>, Map<Seq<char>, usize>)
    decreases count,
{
    if count <= 0 {
        (callables, Map::empty())
    } else {
        let (before, table) = declare_methods(callables, methods, closure, count - 1);
        let method = methods[count - 1];
        (
            before.push(function_value(method, closure, method.name.lexeme == "init"@)),
            table.insert(method.name.lexeme, before.len() as usize),
        )
    }
}

/// What `this` is bound to in the innermost scope of a closure.
pub open spec fn closure_this(environment: EnvironmentView, closure: Seq<usize>) -> Option<LiteralView> {
    if closure.len() > 0 && closure.last() < environment.frames.len()
        && environment.frames[closure.last() as int].contains_key("this"@) {
        Some(environment.frames[closure.last() as int]["this"@])
    } else {
        None
    }
}

/// Whether `operator` is one of `- * /`.
pub open spec fn is_arithmetic(operator: TokenType) -> bool {
    operator == TokenType::Minus || operator == TokenType::Slash || operator == TokenType::Star
}

/// Whether `operator` is one of `> >= < <=`.
pub open spec fn is_comparison(operator: TokenType) -> bool {
    operator == TokenType::Greater || operator == TokenType::GreaterEqual || operator
        == TokenType::Less || operator == TokenType::LessEqual
}

/// The outcome of a comparison of two numbers.
pub open spec fn compared(operator: TokenType, left: u64, right: u64) -> bool {
    if operator == TokenType::Greater {
        number_less(right, left)
    } else if operator == TokenType::GreaterEqual {
        number_less(right, left) || number_equal(left, right)
    } else if operator == TokenType::Less {
        number_less(left, right)
    } else {
        number_less(left, right) || number_equal(left, right)
    }
}

impl InterpreterView {
    /// The tables are no longer than a table in memory can be.
    pub open spec fn sized(self) -> bool {
        self.callables.len() <= usize::MAX && self.instances.len() <= usize::MAX
            && self.environment.frames.len() <= usize::MAX
    }

    /// Goes on with `control`.
    pub open spec fn proceed(self, control: ControlView) -> (InterpreterView, ActionView) {
        (InterpreterView { control, ..self }, ActionView::Continue)
    }

    /// Puts `kont` on the stack and goes on with `control`.
    pub open spec fn push(self, kont: KontView, control: ControlView) -> (InterpreterView, ActionView) {
        (InterpreterView { control, konts: self.konts.push(kont), ..self }, ActionView::Continue)
    }

    /// Stops on a runtime error: nothing is left to do, and the global
    /// scope alone stays in force.
    pub open spec fn fail(self, token: TokenView, message: Seq<char>) -> (InterpreterView, ActionView) {
        (
            InterpreterView {
                control: ControlView::Finished,
                konts: Seq::empty(),
                environment: self.at_top(),
                ..self
            },
            ActionView::Failed(token, message),
        )
    }

    /// Asks the host and waits for its answer.
    pub open spec fn ask(self, request: RequestView) -> (InterpreterView, ActionView) {
        (InterpreterView { control: ControlView::Awaiting(request), ..self }, ActionView::Ask(request))
    }

    /// Goes on with a value, or stops on an error.
    pub open spec fn deliver(self, result: Evaluated) -> (InterpreterView, ActionView) {
        match result {
            Ok(value) => self.proceed(ControlView::Value(value)),
            Err(error) => self.fail(error.0, error.1),
        }
    }

    /// A method bound to an instance: a copy of the method whose closure
    /// has one more scope, in which `this` is the instance.
    pub open spec fn bind(self, method: usize, instance: LiteralView) -> (InterpreterView, Option<usize>) {
        if method < self.callables.len() {
            match self.callables[method as int].kind {
                CallableKindView::Function { declaration, closure, is_initializer } => (
                    InterpreterView {
                        environment: EnvironmentView {
                            frames: self.environment.frames.push(
                                Map::<Seq<char>, LiteralView>::empty().insert("this"@, instance),
                            ),
                            ..self.environment
                        },
                        callables: self.callables.push(
                            CallableView {
                                kind: CallableKindView::Function {
                                    declaration,
                                    closure: closure.push(self.environment.frames.len() as usize),
                                    is_initializer,
                                },
                                ..self.callables[method as int]
                            },
                        ),
                        ..self
                    },
                    Some(self.callables.len() as usize),
                ),
                _ => (self, None),
            }
        } else {
            (self, None)
        }
    }

    /// A method found on a class and bound to an instance, as a value.
    pub open spec fn bound_method(self, class: usize, name: TokenView, instance: usize) -> (
        InterpreterView,
        Evaluated,
    ) {
        match method_of(self.callables, class, name.lexeme) {
            Some(method) => {
                let (after, bound) = self.bind(method, LiteralView::InstanceLiteral(instance));
                match bound {
                    Some(index) => (after, Ok(LiteralView::CallableLiteral(index))),
                    None => (self, Err((name, undefined_property(name.lexeme)))),
                }
            },
            None => (self, Err((name, undefined_property(name.lexeme)))),
        }
    }

    /// A property of an instance: a field first, else a method of its
    /// class, bound to the instance.
    pub open spec fn get_property(self, instance: usize, name: TokenView) -> (InterpreterView, Evaluated) {
        if instance < self.instances.len() {
            if self.instances[instance as int].fields.contains_key(name.lexeme) {
                (self, Ok(self.instances[instance as int].fields[name.lexeme]))
            } else {
                self.bound_method(self.instances[instance as int].class, name, instance)
            }
        } else {
            (self, Err((name, "Only instances have properties."@)))
        }
    }

    /// `super.method`: the superclass is read where the resolver recorded
    /// it, the instance one scope nearer.
    pub open spec fn super_method(self, id: usize, method: TokenView) -> (InterpreterView, Evaluated) {
        let missing = (self, Err((method, undefined_property(method.lexeme))));
        if self.environment.locals.contains_key(id) && self.environment.locals[id] >= 1 {
            let distance = self.environment.locals[id] as int;
            match (
                self.environment.get_at(distance, "super"@),
                self.environment.get_at(distance - 1, "this"@),
            ) {
                (
                    Some(LiteralView::CallableLiteral(class)),
                    Some(LiteralView::InstanceLiteral(instance)),
                ) => self.bound_method(class, method, instance),
                _ => missing,
            }
        } else {
            missing
        }
    }

    /// A call of the function at `index` begins: the caller's scopes are
    /// put by, the closure's scopes come into force with a fresh scope that
    /// binds the parameters, and the body runs. `this` is what the call
    /// yields however it ends; an initializer yields its instance.
    pub open spec fn call_function(self, index: usize, arguments: Seq<LiteralView>, this: Option<LiteralView>) -> (
        InterpreterView,
        ActionView,
    ) {
        if index < self.callables.len() {
            match self.callables[index as int].kind {
                CallableKindView::Function { declaration, closure, is_initializer } => {
                    let yields = match this {
                        Some(value) => Some(value),
                        None => if is_initializer {
                            closure_this(self.environment, closure)
                        } else {
                            None
                        },
                    };
                    let names = self.callables[index as int].parameters;
                    let count = if names.len() <= arguments.len() {
                        names.len() as int
                    } else {
                        arguments.len() as int
                    };
                    let inside = define_all(
                        (EnvironmentView { layers: closure, ..self.environment }).add_scope(),
                        names,
                        arguments,
                        count,
                    );
                    (
                        InterpreterView {
                            environment: inside,
                            konts: self.konts.push(
                                KontView::Call { layers: self.environment.layers, this: yields },
                            ).push(KontView::Sequence { statements: declaration.body, next: 0 }),
                            control: ControlView::Value(LiteralView::Nil),
                            ..self
                        },
                        ActionView::Continue,
                    )
                },
                _ => self.proceed(ControlView::Value(LiteralView::Nil)),
            }
        } else {
            self.proceed(ControlView::Value(LiteralView::Nil))
        }
    }

    /// A call of the class at `class`: a new instance is made; where the
    /// class has an `init`, it runs, bound to the instance, and the call
    /// yields the instance.
    pub open spec fn construct(self, class: usize, arguments: Seq<LiteralView>) -> (
        InterpreterView,
        ActionView,
    ) {
        let instance = self.instances.len() as usize;
        let made = InterpreterView {
            instances: self.instances.push(InstanceView { class, fields: Map::empty() }),
            ..self
        };
        match method_of(self.callables, class, "init"@) {
            Some(init) => {
                let (after, bound) = made.bind(init, LiteralView::InstanceLiteral(instance));
                match bound {
                    Some(index) => after.call_function(
                        index,
                        arguments,
                        Some(LiteralView::InstanceLiteral(instance)),
                    ),
                    None => made.proceed(ControlView::Value(LiteralView::InstanceLiteral(instance))),
                }
            },
            None => made.proceed(ControlView::Value(LiteralView::InstanceLiteral(instance))),
        }
    }

    /// A call of `callee` with `arguments`, made at `paren`.
    pub open spec fn call(self, callee: LiteralView, arguments: Seq<LiteralView>, paren: TokenView) -> (
        InterpreterView,
        ActionView,
    ) {
        match callee {
            LiteralView::CallableLiteral(index) => if index < self.callables.len() {
                let callable = self.callables[index as int];
                if arguments.len() != callable.arity {
                    self.fail(paren, arity_message(callable.arity as nat, arguments.len()))
                } else {
                    match callable.kind {
                        CallableKindView::Class(_) => self.construct(index, arguments),
                        CallableKindView::Function { .. } => self.call_function(index, arguments, None),
                        CallableKindView::Native(name) => if name == "clock"@ {
                            self.ask(RequestView::Clock)
                        } else {
                            self.fail(paren, "Unknown native function."@)
                        },
                    }
                }
            } else {
                self.fail(paren, "Can only call functions and classes."@)
            },
            _ => self.fail(paren, "Can only call functions and classes."@),
        }
    }

    /// A class declaration runs: the name is declared, the methods are made
    /// with `super` in scope where there is a superclass, and the class is
    /// assigned to its name.
    pub open spec fn declare_class(
        self,
        name: TokenView,
        superclass: Option<usize>,
        methods: Seq<FunctionView>,
    ) -> (InterpreterView, ActionView) {
        let declared = self.environment.define(name.lexeme, LiteralView::Nil);
        let inside = match superclass {
            Some(above) => declared.add_scope().define("super"@, LiteralView::CallableLiteral(above)),
            None => declared,
        };
        let (made, table) = declare_methods(self.callables, methods, inside.layers, methods.len() as int);
        let outside = if superclass is Some {
            inside.del_scope()
        } else {
            inside
        };
        let class = class_value(name.lexeme, superclass, table, made);
        let value = LiteralView::CallableLiteral(made.len() as usize);
        let after = InterpreterView {
            environment: outside.assign(name.lexeme, value),
            callables: made.push(class),
            ..self
        };
        if outside.find_from(name.lexeme, 0) is Some {
            after.proceed(ControlView::Value(LiteralView::Nil))
        } else {
            after.fail(name, undefined_variable(name.lexeme))
        }
    }

    /// The application of a binary operator to two values.
    pub open spec fn binary(self, operator: TokenView, left: LiteralView, right: LiteralView) -> (
        InterpreterView,
        ActionView,
    ) {
        if operator.typ == TokenType::Plus {
            match (left, right) {
                (LiteralView::F64(a), LiteralView::F64(b)) => self.ask(
                    RequestView::Arithmetic(TokenType::Plus, a, b),
                ),
                (LiteralView::StringLiteral(a), LiteralView::StringLiteral(b)) => self.proceed(
                    ControlView::Value(LiteralView::StringLiteral(a + b)),
                ),
                _ => self.fail(operator, "Operands must be two numbers or two strings."@),
            }
        } else if is_arithmetic(operator.typ) || is_comparison(operator.typ) {
            match (left, right) {
                (LiteralView::F64(a), LiteralView::F64(b)) => if is_arithmetic(operator.typ) {
                    self.ask(RequestView::Arithmetic(operator.typ, a, b))
                } else {
                    self.proceed(
                        ControlView::Value(LiteralView::BoolLiteral(compared(operator.typ, a, b))),
                    )
                },
                _ => self.fail(operator, "Operands must be numbers."@),
            }
        } else if operator.typ == TokenType::EqualEqual {
            self.proceed(ControlView::Value(LiteralView::BoolLiteral(values_equal(left, right))))
        } else if operator.typ == TokenType::BangEqual {
            self.proceed(ControlView::Value(LiteralView::BoolLiteral(!values_equal(left, right))))
        } else {
            self.fail(operator, "Expected a binary operator."@)
        }
    }

    /// The evaluation of an expression begins.
    pub open spec fn begin_expression(self, expression: ExprView) -> (InterpreterView, ActionView) {
        match expression {
            ExprView::Assign { id, name, value } => self.push(
                KontView::Assign { id, name },
                ControlView::Expression(*value),
            ),
            ExprView::Binary { left, operator, right, .. } => self.push(
                KontView::BinaryLeft { operator, right: *right },
                ControlView::Expression(*left),
            ),
            ExprView::Call { callee, paren, arguments, .. } => self.push(
                KontView::Callee { paren, arguments },
                ControlView::Expression(*callee),
            ),
            ExprView::Get { object, name, .. } => self.push(
                KontView::Get { name },
                ControlView::Expression(*object),
            ),
            ExprView::Grouping { expression, .. } => self.proceed(ControlView::Expression(*expression)),
            ExprView::LiteralExpr { value, .. } => match value {
                LiteralView::NumberLiteral(text) => self.ask(RequestView::Number(text)),
                _ => self.proceed(ControlView::Value(value)),
            },
            ExprView::Logical { left, operator, right, .. } => self.push(
                KontView::Logical { operator, right: *right },
                ControlView::Expression(*left),
            ),
            ExprView::SetExpr { object, name, value, .. } => self.push(
                KontView::SetObject { name, value: *value },
                ControlView::Expression(*object),
            ),
            ExprView::Super { id, method, .. } => {
                let (after, found) = self.super_method(id, method);
                after.deliver(found)
            },
            ExprView::This { id, keyword } => self.deliver(lookup(self.environment, keyword, id)),
            ExprView::Unary { operator, right, .. } => self.push(
                KontView::Unary { operator },
                ControlView::Expression(*right),
            ),
            ExprView::Variable { id, name } => self.deliver(lookup(self.environment, name, id)),
        }
    }

    /// A block begins: a fresh scope, which goes when the statements have
    /// run.
    pub open spec fn execute_block(self, statements: Seq<StmtView>) -> (InterpreterView, ActionView) {
        (
            InterpreterView {
                environment: self.environment.add_scope(),
                konts: self.konts.push(KontView::Scope).push(
                    KontView::Sequence { statements, next: 0 },
                ),
                control: ControlView::Value(LiteralView::Nil),
                ..self
            },
            ActionView::Continue,
        )
    }

    /// Statements begin to run in turn, in the scopes in force.
    pub open spec fn execute_statements(self, statements: Seq<StmtView>) -> (InterpreterView, ActionView) {
        self.push(KontView::Sequence { statements, next: 0 }, ControlView::Value(LiteralView::Nil))
    }

    /// The execution of a statement begins.
    pub open spec fn begin_statement(self, statement: StmtView) -> (InterpreterView, ActionView) {
        match statement {
            StmtView::Block { statements } => self.execute_block(statements),
            StmtView::Class { name, superclass, methods } => match superclass {
                Some(variable) => match lookup(self.environment, variable->Variable_name, variable.id()) {
                    Ok(LiteralView::CallableLiteral(above)) => if above < self.callables.len()
                        && self.callables[above as int].kind is Class {
                        self.declare_class(name, Some(above), methods)
                    } else {
                        self.fail(variable->Variable_name, "Superclass must be a class."@)
                    },
                    Ok(_) => self.fail(variable->Variable_name, "Superclass must be a class."@),
                    Err(error) => self.fail(error.0, error.1),
                },
                None => self.declare_class(name, None, methods),
            },
            StmtView::Expression { expression } => self.push(
                KontView::Discard,
                ControlView::Expression(expression),
            ),
            StmtView::Function(declaration) => (
                InterpreterView {
                    environment: self.environment.define(
                        declaration.name.lexeme,
                        LiteralView::CallableLiteral(self.callables.len() as usize),
                    ),
                    callables: self.callables.push(
                        function_value(declaration, self.environment.layers, false),
                    ),
                    control: ControlView::Value(LiteralView::Nil),
                    ..self
                },
                ActionView::Continue,
            ),
            StmtView::If { condition, then_branch, else_branch } => self.push(
                KontView::If {
                    then_branch: *then_branch,
                    else_branch: match else_branch {
                        Some(s) => Some(*s),
                        None => None,
                    },
                },
                ControlView::Expression(condition),
            ),
            StmtView::Print { expression } => self.push(
                KontView::Print,
                ControlView::Expression(expression),
            ),
            StmtView::Return { value, .. } => match value {
                Some(expression) => self.push(KontView::ReturnValue, ControlView::Expression(expression)),
                None => self.proceed(ControlView::Return(LiteralView::Nil)),
            },
            StmtView::Var { name, initializer } => match initializer {
                Some(expression) => self.push(KontView::Var { name }, ControlView::Expression(expression)),
                None => (
                    InterpreterView {
                        environment: self.environment.define(name.lexeme, LiteralView::Nil),
                        control: ControlView::Value(LiteralView::Nil),
                        ..self
                    },
                    ActionView::Continue,
                ),
            },
            StmtView::While { condition, body } => self.push(
                KontView::WhileCondition { condition, body: *body },
                ControlView::Expression(condition),
            ),
        }
    }

    /// `value` reaches `kont`, which has just left the stack.
    pub open spec fn resume(self, kont: KontView, value: LiteralView) -> (InterpreterView, ActionView) {
        match kont {
            KontView::Unary { operator } => if operator.typ == TokenType::Bang {
                self.proceed(ControlView::Value(LiteralView::BoolLiteral(!truthy(value))))
            } else if operator.typ == TokenType::Minus {
                match value {
                    LiteralView::F64(bits) => self.proceed(
                        ControlView::Value(LiteralView::F64(negated(bits))),
                    ),
                    _ => self.fail(operator, "Operand must be a number."@),
                }
            } else {
                self.fail(operator, "Expected a unary operator."@)
            },
            KontView::BinaryLeft { operator, right } => self.push(
                KontView::BinaryRight { operator, left: value },
                ControlView::Expression(right),
            ),
            KontView::BinaryRight { operator, left } => self.binary(operator, left, value),
            KontView::Logical { operator, right } => if (operator.typ == TokenType::Or) == truthy(value) {
                self.proceed(ControlView::Value(value))
            } else {
                self.proceed(ControlView::Expression(right))
            },
            KontView::Assign { id, name } => if assignable(self.environment, name, id) {
                (
                    InterpreterView {
                        environment: assigned(self.environment, name, id, value),
                        control: ControlView::Value(value),
                        ..self
                    },
                    ActionView::Continue,
                )
            } else {
                self.fail(name, undefined_variable(name.lexeme))
            },
            KontView::Callee { paren, arguments } => if arguments.len() == 0 {
                self.call(value, Seq::empty(), paren)
            } else {
                self.push(
                    KontView::Argument { paren, arguments, callee: value, values: Seq::empty() },
                    ControlView::Expression(arguments[0]),
                )
            },
            KontView::Argument { paren, arguments, callee, values } => if values.len() + 1
                < arguments.len() {
                self.push(
                    KontView::Argument { paren, arguments, callee, values: values.push(value) },
                    ControlView::Expression(arguments[values.len() as int + 1]),
                )
            } else {
                self.call(callee, values.push(value), paren)
            },
            KontView::Get { name } => match value {
                LiteralView::InstanceLiteral(instance) => {
                    let (after, found) = self.get_property(instance, name);
                    after.deliver(found)
                },
                _ => self.fail(name, "Only instances have properties."@),
            },
            KontView::SetObject { name, value: expression } => match value {
                LiteralView::InstanceLiteral(instance) => if instance < self.instances.len() {
                    self.push(
                        KontView::SetValue { name, instance },
                        ControlView::Expression(expression),
                    )
                } else {
                    self.fail(name, "Only instances have fields."@)
                },
                _ => self.fail(name, "Only instances have fields."@),
            },
            KontView::SetValue { name, instance } => if instance < self.instances.len() {
                (
                    InterpreterView {
                        instances: self.instances.update(
                            instance as int,
                            InstanceView {
                                fields: self.instances[instance as int].fields.insert(name.lexeme, value),
                                ..self.instances[instance as int]
                            },
                        ),
                        control: ControlView::Value(value),
                        ..self
                    },
                    ActionView::Continue,
                )
            } else {
                self.fail(name, "Only instances have fields."@)
            },
            KontView::Discard => self.proceed(ControlView::Value(LiteralView::Nil)),
            KontView::Print => (
                InterpreterView { control: ControlView::Value(LiteralView::Nil), ..self },
                match text_of(value, self.callables, self.instances) {
                    Some(text) => ActionView::Print(text),
                    None => ActionView::PrintNumber(value->F64_0),
                },
            ),
            KontView::Var { name } => (
                InterpreterView {
                    environment: self.environment.define(name.lexeme, value),
                    control: ControlView::Value(LiteralView::Nil),
                    ..self
                },
                ActionView::Continue,
            ),
            KontView::If { then_branch, else_branch } => if truthy(value) {
                self.proceed(ControlView::Statement(then_branch))
            } else {
                match else_branch {
                    Some(statement) => self.proceed(ControlView::Statement(statement)),
                    None => self.proceed(ControlView::Value(LiteralView::Nil)),
                }
            },
            KontView::WhileCondition { condition, body } => if truthy(value) {
                self.push(KontView::WhileBody { condition, body }, ControlView::Statement(body))
            } else {
                self.proceed(ControlView::Value(LiteralView::Nil))
            },
            KontView::WhileBody { condition, body } => self.push(
                KontView::WhileCondition { condition, body },
                ControlView::Expression(condition),
            ),
            KontView::ReturnValue => self.proceed(ControlView::Return(value)),
            KontView::Sequence { statements, next } => if next < statements.len() {
                self.push(
                    KontView::Sequence { statements, next: (next + 1) as usize },
                    ControlView::Statement(statements[next as int]),
                )
            } else {
                self.proceed(ControlView::Value(LiteralView::Nil))
            },
            KontView::Scope => (
                InterpreterView {
                    environment: self.environment.del_scope(),
                    control: ControlView::Value(value),
                    ..self
                },
                ActionView::Continue,
            ),
            KontView::Call { layers, this } => (
                InterpreterView {
                    environment: EnvironmentView { layers, ..self.environment },
                    control: ControlView::Value(
                        match this {
                            Some(instance) => instance,
                            None => LiteralView::Nil,
                        },
                    ),
                    ..self
                },
                ActionView::Continue,
            ),
        }
    }

    /// A `return` of `value` passes `kont`, which has just left the stack:
    /// the call that is running ends and yields the value, or the instance
    /// where it is an initializer; anything else is dropped.
    pub open spec fn unwind(self, kont: KontView, value: LiteralView) -> (InterpreterView, ActionView) {
        match kont {
            KontView::Call { layers, this } => (
                InterpreterView {
                    environment: EnvironmentView { layers, ..self.environment },
                    control: ControlView::Value(
                        match this {
                            Some(instance) => instance,
                            None => value,
                        },
                    ),
                    ..self
                },
                ActionView::Continue,
            ),
            _ => self.proceed(ControlView::Return(value)),
        }
    }

    /// One step. `event` is the host's answer to the request of the step
    /// before, where that step made one.
    #[verifier::opaque]
    pub open spec fn step(self, event: Option<u64>) -> (InterpreterView, ActionView) {
        match self.control {
            ControlView::Expression(expression) => self.begin_expression(expression),
            ControlView::Statement(statement) => self.begin_statement(statement),
            ControlView::Value(value) => if self.konts.len() == 0 {
                (InterpreterView { control: ControlView::Finished, ..self }, ActionView::Finished)
            } else {
                (InterpreterView {
                    control: ControlView::Finished,
                    konts: self.konts.drop_last(),
                    ..self
                }).resume(self.konts.last(), value)
            },
            ControlView::Return(value) => if self.konts.len() == 0 {
                (InterpreterView { control: ControlView::Finished, ..self }, ActionView::Finished)
            } else {
                (InterpreterView {
                    control: ControlView::Finished,
                    konts: self.konts.drop_last(),
                    ..self
                }).unwind(self.konts.last(), value)
            },
            ControlView::Awaiting(request) => match event {
                Some(bits) => self.proceed(ControlView::Value(LiteralView::F64(bits))),
                None => (self, ActionView::Ask(request)),
            },
            ControlView::Finished => (self, ActionView::Finished),
        }
    }

    /// The global scope alone in force.
    pub open spec fn at_top(self) -> EnvironmentView {
        EnvironmentView {
            layers: if self.environment.layers.len() > 1 {
                self.environment.layers.subrange(0, 1)
            } else {
                self.environment.layers
            },
            ..self.environment
        }
    }

    /// The start of a run of `statements`: whatever was waiting is dropped,
    /// and the statements run in the global scope.
    pub open spec fn load(self, statements: Seq<StmtView>) -> InterpreterView {
        InterpreterView {
            control: ControlView::Value(LiteralView::Nil),
            konts: seq![KontView::Sequence { statements, next: 0 }],
            environment: self.at_top(),
            ..self
        }
    }

    /// One step, and after it up to `limit` more, as long as a step asks
    /// nothing of the host.
    pub open spec fn run(self, event: Option<u64>, limit: nat) -> (InterpreterView, ActionView)
        decreases limit,
    {
        let (next, action) = self.step(event);
        if action is Continue && limit > 0 {
            next.run(None, (limit - 1) as nat)
        } else {
            (next, action)
        }
    }
}

/// The interpreter before any program has run: the global scope binds
/// `clock`, the one native function, and nothing else exists.
pub open spec fn initial() -> InterpreterView {
    InterpreterView {
        environment: EnvironmentView {
            layers: seq![0usize],
            frames: seq![
                Map::<Seq<char>, LiteralView>::empty().insert(
                    "clock"@,
                    LiteralView::CallableLiteral(0),
                ),
            ],
            scopes: Seq::empty(),
            locals: Map::empty(),
        },
        callables: seq![
            CallableView {
                arity: 0,
                parameters: Seq::empty(),
                kind: CallableKindView::Native("clock"@),
            },
        ],
        instances: Seq::empty(),
        control: ControlView::Finished,
        konts: Seq::empty(),
    }
}

} // verus!
