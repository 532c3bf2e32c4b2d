use vstd::prelude::*;
use crate::callable::{Callable, CallableKind, callables_view};
use crate::class::find_method_at;
use crate::dict::Dict;
use crate::environment::Environment;
use crate::expr::{Assign, Call, Expr, Get, Logical, SetExpr, Unary, exprs_view};
use crate::handles::literal_in_hand_ok;
use crate::instance::{Instance, instances_view};
use crate::machine::{Action, Control, Interpreter, InterpreterView, Kont, Request, values_view};
use crate::number::{equal, integral_string, less, negate};
use crate::plain::plain_stmts;
use crate::semantics::{
    Evaluated, arity_message, class_name, compared, declare_methods, define_all, initial,
    is_arithmetic, is_comparison, lookup, text_of, truthy, values_equal,
};
use crate::stmt::{Function, Stmt, functions_view, stmts_view};
use crate::text::{decimal_string, join3, same_text};
use crate::token::{Literal, LiteralView, Token};
use crate::token_type::TokenType;
use crate::utils::Soo;

verus! {

broadcast use vstd::std_specs::hash::group_hash_axioms;

/// What the outcome of an evaluation stands for.
pub open spec fn evaluated(result: Result<Literal, (Token, Soo)>) -> Evaluated {
    match result {
        Ok(value) => Ok(value@),
        Err(error) => Err((error.0@, error.1@)),
    }
}

/// What an optional value stands for.
pub open spec fn option_view(value: Option<Literal>) -> Option<LiteralView> {
    match value {
        Some(v) => Some(v@),
        None => None,
    }
}

/// The message of a call with the wrong number of arguments.
pub fn arity_error(expected: usize, got: usize) -> (message: String)
    ensures
        message@ == arity_message(expected as nat, got as nat),
{
    let mut message = String::from_str("Expected ");
    message.append(decimal_string(expected as u64).as_str());
    message.append(" arguments but got ");
    message.append(decimal_string(got as u64).as_str());
    message.append(".");
    assert(message@ =~= arity_message(expected as nat, got as nat));
    message
}

/// Whether a value counts as true.
pub fn is_truthy(literal: &Literal) -> (r: bool)
    ensures
        r == truthy(literal@),
{
    match literal {
        Literal::BoolLiteral(b) => *b,
        Literal::Nil => false,
        _ => true,
    }
}

/// Whether two values are equal.
pub fn is_equal(left: &Literal, right: &Literal) -> (r: bool)
    ensures
        r == values_equal(left@, right@),
{
    match (left, right) {
        (Literal::Nil, Literal::Nil) => true,
        (Literal::BoolLiteral(a), Literal::BoolLiteral(b)) => *a == *b,
        (Literal::F64(a), Literal::F64(b)) => equal(*a, *b),
        (Literal::IdentifierLiteral(a), Literal::IdentifierLiteral(b)) => *a == *b,
        (Literal::NumberLiteral(a), Literal::NumberLiteral(b)) => *a == *b,
        (Literal::StringLiteral(a), Literal::StringLiteral(b)) => *a == *b,
        (Literal::CallableLiteral(a), Literal::CallableLiteral(b)) => *a == *b,
        (Literal::InstanceLiteral(a), Literal::InstanceLiteral(b)) => *a == *b,
        _ => false,
    }
}

/// The two operands of an arithmetic or comparison operator, as numbers.
pub fn get_numeric_operands(operator: &Token, left: &Literal, right: &Literal) -> (r: Result<
    (u64, u64),
    (Token, Soo),
>)
    ensures
        match r {
            Ok(pair) => left@ == crate::token::LiteralView::F64(pair.0) && right@
                == crate::token::LiteralView::F64(pair.1),
            Err(error) => !(left@ is F64 && right@ is F64) && error.0 == *operator && error.1@
                == "Operands must be numbers."@,
        },
{
    match (left, right) {
        (Literal::F64(a), Literal::F64(b)) => Ok((*a, *b)),
        _ => Err((operator.clone(), Soo::Static("Operands must be numbers."))),
    }
}

fn class_name_of(callables: &Vec<Callable<'_>>, index: usize) -> (name: String)
    ensures
        name@ == class_name(callables_view(callables@), index),
{
    if index < callables.len() {
        assert(callables_view(callables@)[index as int] == callables@[index as int]@);
        match &callables[index].kind {
            CallableKind::Class(class) => class.to_string(),
            _ => String::new(),
        }
    } else {
        String::new()
    }
}

/// The text that a value is printed as: `nil`, `true` or `false`, a string's
/// content, a number without fractional part as its integer, `<fn NAME>`,
/// `<native fn>`, a class's name, `CLASS instance`. `None` for a number
/// that has a fractional part or is not finite.
pub fn stringify(literal: &Literal, callables: &Vec<Callable<'_>>, instances: &Vec<Instance>) -> (r:
    Option<String>)
    ensures
        match r {
            Some(s) => text_of(literal@, callables_view(callables@), instances_view(instances@))
                == Some(s@),
            None => text_of(literal@, callables_view(callables@), instances_view(instances@))
                is None && literal@ is F64,
        },
{
    match literal {
        Literal::BoolLiteral(b) => Some(
            if *b {
                String::from_str("true")
            } else {
                String::from_str("false")
            },
        ),
        Literal::CallableLiteral(index) => {
            if *index < callables.len() {
                assert(callables_view(callables@)[*index as int] == callables@[*index as int]@);
                match &callables[*index].kind {
                    CallableKind::Class(class) => Some(class.to_string()),
                    CallableKind::Function { declaration, .. } => Some(
                        join3("<fn ", declaration.name.lexeme.as_str(), ">"),
                    ),
                    CallableKind::Native(_) => Some(String::from_str("<native fn>")),
                }
            } else {
                Some(String::from_str("nil"))
            }
        },
        Literal::F64(bits) => integral_string(*bits),
        Literal::IdentifierLiteral(name) => Some(name.clone()),
        Literal::InstanceLiteral(index) => {
            if *index < instances.len() {
                assert(instances_view(instances@)[*index as int] == instances@[*index as int]@);
                Some(instances[*index].to_string(callables))
            } else {
                Some(String::from_str("nil"))
            }
        },
        Literal::NumberLiteral(text) => Some(text.clone()),
        Literal::StringLiteral(text) => Some(text.clone()),
        Literal::Nil => Some(String::from_str("nil")),
    }
}

/// Records that the expression `id` finds its variable `depth` scopes out.
pub fn resolve(id: usize, depth: usize, environment: &mut Environment)
    ensures
        final(environment)@ == old(environment)@.resolve(id, depth),
{
    environment.locals.insert(id, depth);
    proof {
        assert(final(environment)@.frames =~= old(environment)@.frames);
        assert(final(environment)@.scopes =~= old(environment)@.scopes);
    }
}

/// Reads the variable that the expression `id` refers to: in the scope
/// that the resolver recorded, or in the global scope where it recorded
/// none.
pub fn lookup_variable(name: &Token, id: usize, environment: &Environment) -> (r: Result<
    Literal,
    (Token, Soo),
>)
    ensures
        evaluated(r) == lookup(environment@, name@, id),
        r is Err ==> r->Err_0.0 == *name,
{
    let found = match environment.locals.get(&id) {
        Some(distance) => environment.get_at(*distance, name.lexeme.as_str()),
        None => environment.get_global(name.lexeme.as_str()),
    };
    match found {
        Some(value) => Ok(value),
        None => Err(
            (name.clone(), Soo::Owned(join3("Undefined variable '", name.lexeme.as_str(), "'."))),
        ),
    }
}

fn arithmetic(operator: TokenType) -> (r: bool)
    ensures
        r == is_arithmetic(operator),
{
    operator == TokenType::Minus || operator == TokenType::Slash || operator == TokenType::Star
}

fn comparison(operator: TokenType) -> (r: bool)
    ensures
        r == is_comparison(operator),
{
    operator == TokenType::Greater || operator == TokenType::GreaterEqual || operator
        == TokenType::Less || operator == TokenType::LessEqual
}

fn compare(operator: TokenType, left: u64, right: u64) -> (r: bool)
    ensures
        r == compared(operator, left, right),
{
    if operator == TokenType::Greater {
        less(right, left)
    } else if operator == TokenType::GreaterEqual {
        less(right, left) || equal(left, right)
    } else if operator == TokenType::Less {
        less(left, right)
    } else {
        less(left, right) || equal(left, right)
    }
}

/// Begins the run of a program: the statements are set to run in turn from
/// the first, in the global scope. The host then steps the interpreter
/// until a step says that the program has finished or failed.
pub fn interpret<'a>(statements: &'a Vec<Stmt>, interpreter: &mut Interpreter<'a>)
    ensures
        final(interpreter)@ == old(interpreter)@.load(stmts_view(statements@)),
        old(interpreter)@.wf() ==> final(interpreter)@.wf(),
        old(interpreter)@.sound() ==> final(interpreter)@.sound(),
        old(interpreter)@.plain() && plain_stmts(stmts_view(statements@)) ==> final(interpreter)@.plain(),
{
    interpreter.konts.clear();
    interpreter.konts.push(Kont::Sequence(statements, 0));
    interpreter.control = Control::Value(Literal::Nil);
    if interpreter.environment.layers.len() > 1 {
        interpreter.environment.layers.truncate(1);
    }
    proof {
        let expected = old(interpreter)@.load(stmts_view(statements@));
        assert(final(interpreter)@.konts =~= expected.konts);
        assert(final(interpreter)@.environment.frames =~= old(interpreter)@.environment.frames);
        assert(final(interpreter)@.environment.scopes =~= old(interpreter)@.environment.scopes);
        if old(interpreter)@.wf() {
            crate::soundness::load_keeps_well_formed(old(interpreter)@, stmts_view(statements@));
        }
        if old(interpreter)@.sound() {
            crate::handles::load_keeps_sound(old(interpreter)@, stmts_view(statements@));
        }
        if old(interpreter)@.plain() && plain_stmts(stmts_view(statements@)) {
            crate::plain::load_keeps_plain(old(interpreter)@, stmts_view(statements@));
        }
    }
}

/// Begins a block: a fresh scope is pushed, the statements run in turn, and
/// the scope is popped when they have run.
pub fn execute_block<'a>(statements: &'a Vec<Stmt>, interpreter: &mut Interpreter<'a>) -> (action: Action)
    ensures
        (final(interpreter)@, action@) == old(interpreter)@.execute_block(stmts_view(statements@)),
{
    interpreter.environment.add_scope();
    interpreter.konts.push(Kont::Scope);
    interpreter.konts.push(Kont::Sequence(statements, 0));
    interpreter.control = Control::Value(Literal::Nil);
    proof {
        let expected = old(interpreter)@.execute_block(stmts_view(statements@)).0;
        assert(final(interpreter)@.konts =~= expected.konts);
    }
    Action::Continue
}

/// Begins to run statements in turn, in the scopes in force.
pub fn execute_statements<'a>(statements: &'a Vec<Stmt>, interpreter: &mut Interpreter<'a>) -> (action:
    Action)
    ensures
        (final(interpreter)@, action@) == old(interpreter)@.execute_statements(
            stmts_view(statements@),
        ),
{
    interpreter.push(Kont::Sequence(statements, 0), Control::Value(Literal::Nil))
}

impl<'a> Interpreter<'a> {
    /// Goes on with `control`.
    pub fn proceed(&mut self, control: Control<'a>) -> (action: Action)
        ensures
            (final(self)@, action@) == old(self)@.proceed(control@),
    {
        self.control = control;
        Action::Continue
    }

    /// Puts `kont` on the stack and goes on with `control`.
    pub fn push(&mut self, kont: Kont<'a>, control: Control<'a>) -> (action: Action)
        ensures
            (final(self)@, action@) == old(self)@.push(kont@, control@),
    {
        self.control = control;
        self.konts.push(kont);
        assert(final(self)@.konts =~= old(self)@.konts.push(kont@));
        Action::Continue
    }

    /// Stops on a runtime error.
    pub fn fail(&mut self, token: Token, message: Soo) -> (action: Action)
        ensures
            (final(self)@, action@) == old(self)@.fail(token@, message@),
    {
        self.control = Control::Finished;
        self.konts.clear();
        if self.environment.layers.len() > 1 {
            self.environment.layers.truncate(1);
        }
        proof {
            assert(final(self)@.konts =~= Seq::<crate::machine::KontView>::empty());
            assert(final(self)@.environment.frames =~= old(self)@.environment.frames);
            assert(final(self)@.environment.scopes =~= old(self)@.environment.scopes);
        }
        Action::Failed(token, message)
    }

    /// Asks the host and waits for its answer.
    pub fn ask(&mut self, request: Request) -> (action: Action)
        ensures
            (final(self)@, action@) == old(self)@.ask(request@),
    {
        self.control = Control::Awaiting(request.clone());
        Action::Ask(request)
    }

    /// Finds the method `name` on the class at `class` and binds it to the
    /// instance at `instance`.
    pub fn bound_method(&mut self, class: usize, name: &Token, instance: usize) -> (r: Result<
        Literal,
        (Token, Soo),
    >)
        ensures
            (final(self)@, evaluated(r)) == old(self)@.bound_method(class, name@, instance),
    {
        match find_method_at(&self.callables, class, name.lexeme.as_str()) {
            Some(method) => match Callable::bind(method, Literal::InstanceLiteral(instance), self) {
                Some(index) => Ok(Literal::CallableLiteral(index)),
                None => Err(
                    (
                        name.clone(),
                        Soo::Owned(join3("Undefined property '", name.lexeme.as_str(), "'.")),
                    ),
                ),
            },
            None => Err(
                (name.clone(), Soo::Owned(join3("Undefined property '", name.lexeme.as_str(), "'."))),
            ),
        }
    }

    /// Evaluates `super.method` for the expression `id`.
    pub fn super_method(&mut self, id: usize, method: &Token) -> (r: Result<Literal, (Token, Soo)>)
        ensures
            (final(self)@, evaluated(r)) == old(self)@.super_method(id, method@),
    {
        let distance = match self.environment.locals.get(&id) {
            Some(distance) => *distance,
            None => 0,
        };
        if distance >= 1 {
            let above = self.environment.get_at(distance, "super");
            let this = self.environment.get_at(distance - 1, "this");
            match (above, this) {
                (Some(Literal::CallableLiteral(class)), Some(Literal::InstanceLiteral(instance))) => {
                    return self.bound_method(class, method, instance);
                },
                _ => {},
            }
        }
        Err((method.clone(), Soo::Owned(join3("Undefined property '", method.lexeme.as_str(), "'."))))
    }

    /// Begins a call of the function at `index`.
    pub fn call_function(&mut self, index: usize, arguments: Vec<Literal>, this: Option<Literal>) -> (action:
        Action)
        ensures
            (final(self)@, action@) == old(self)@.call_function(
                index,
                values_view(arguments@),
                option_view(this),
            ),
    {
        if index >= self.callables.len() {
            return self.proceed(Control::Value(Literal::Nil));
        }
        assert(old(self)@.callables[index as int] == self.callables@[index as int]@);
        let parts: Option<(&'a Function, Vec<usize>, bool)> = match &self.callables[index].kind {
            CallableKind::Function { declaration, closure, is_initializer } => Some(
                (*declaration, closure.clone(), *is_initializer),
            ),
            _ => None,
        };
        match parts {
            None => self.proceed(Control::Value(Literal::Nil)),
            Some((declaration, closure, is_initializer)) => {
                let yields = match this {
                    Some(value) => Some(value),
                    None => {
                        if is_initializer && closure.len() > 0 && closure[closure.len() - 1]
                            < self.environment.frames.len() {
                            let frame = closure[closure.len() - 1];
                            assert(self.environment@.frames[frame as int]
                                == crate::environment::frame_view(
                                self.environment.frames@[frame as int],
                            ));
                            match self.environment.frames[frame].get("this") {
                                Some(value) => Some(value.clone()),
                                None => None,
                            }
                        } else {
                            None
                        }
                    },
                };
                let ghost before = self@;
                let ghost names = before.callables[index as int].parameters;
                let ghost values = values_view(arguments@);
                let mut layers = closure;
                core::mem::swap(&mut self.environment.layers, &mut layers);
                self.environment.add_scope();
                let ghost entered = self.environment@;
                let mut i: usize = 0;
                while i < self.callables[index].parameters.len() && i < arguments.len()
                    invariant
                        index < self.callables@.len(),
                        i <= self.callables@[index as int].parameters@.len(),
                        i <= arguments@.len(),
                        names == self.callables@[index as int]@.parameters,
                        values == values_view(arguments@),
                        self.environment@ == define_all(entered, names, values, i as int),
                        self@.callables == before.callables,
                        self@.instances == before.instances,
                        self@.konts == before.konts,
                    decreases arguments@.len() - i,
                {
                    self.environment.define(
                        self.callables[index].parameters[i].as_str(),
                        arguments[i].clone(),
                    );
                    i += 1;
                }
                self.konts.push(Kont::Call(layers, yields));
                self.konts.push(Kont::Sequence(&declaration.body, 0));
                self.control = Control::Value(Literal::Nil);
                proof {
                    let expected = old(self)@.call_function(
                        index,
                        values_view(arguments@),
                        option_view(this),
                    ).0;
                    assert(stmts_view(declaration.body@) =~= declaration@.body);
                    assert(final(self)@.konts =~= expected.konts);
                }
                Action::Continue
            },
        }
    }

    /// Begins a call of the class at `class`.
    pub fn construct(&mut self, class: usize, arguments: Vec<Literal>) -> (action: Action)
        ensures
            (final(self)@, action@) == old(self)@.construct(class, values_view(arguments@)),
    {
        let instance = self.instances.len();
        let init = find_method_at(&self.callables, class, "init");
        self.instances.push(Instance::new(class));
        proof {
            let made = crate::machine::InterpreterView {
                instances: old(self)@.instances.push(
                    crate::instance::InstanceView { class, fields: Map::empty() },
                ),
                ..old(self)@
            };
            assert(self@.instances =~= made.instances);
            assert(self@ == made);
        }
        match init {
            Some(method) => match Callable::bind(method, Literal::InstanceLiteral(instance), self) {
                Some(index) => self.call_function(
                    index,
                    arguments,
                    Some(Literal::InstanceLiteral(instance)),
                ),
                None => self.proceed(Control::Value(Literal::InstanceLiteral(instance))),
            },
            None => self.proceed(Control::Value(Literal::InstanceLiteral(instance))),
        }
    }

    /// Runs a class declaration.
    pub fn declare_class(&mut self, name: &Token, superclass: Option<usize>, methods: &'a Vec<Function>) -> (action:
        Action)
        ensures
            (final(self)@, action@) == old(self)@.declare_class(
                name@,
                superclass,
                functions_view(methods@),
            ),
    {
        self.environment.define(name.lexeme.as_str(), Literal::Nil);
        match superclass {
            Some(above) => {
                self.environment.add_scope();
                self.environment.define("super", Literal::CallableLiteral(above));
            },
            None => {},
        }
        let ghost before = old(self)@;
        let ghost inside = self.environment@;
        let ghost all = functions_view(methods@);
        let mut table: Dict<usize> = Dict::new();
        let mut i: usize = 0;
        while i < methods.len()
            invariant
                i <= methods@.len(),
                all == functions_view(methods@),
                (self@.callables, table@) == declare_methods(
                    before.callables,
                    all,
                    inside.layers,
                    i as int,
                ),
                self.environment@ == inside,
                self@.instances == before.instances,
                self@.konts == before.konts,
                self@.control == before.control,
            decreases methods@.len() - i,
        {
            let method = &methods[i];
            let is_initializer = same_text(method.name.lexeme.as_str(), "init");
            let function = Callable::new_function(
                method,
                self.environment.layers.clone(),
                is_initializer,
            );
            let index = self.callables.len();
            let ghost earlier = self@.callables;
            self.callables.push(function);
            table.insert(method.name.lexeme.clone(), index);
            proof {
                assert(all[i as int] == method@);
                assert(self@.callables =~= earlier.push(function@));
            }
            i += 1;
        }
        if superclass.is_some() {
            self.environment.del_scope();
        }
        let class = Callable::new_class(name.lexeme.clone(), superclass, table, &self.callables);
        let index = self.callables.len();
        let ghost made = self@.callables;
        self.callables.push(class);
        assert(self@.callables =~= made.push(class@));
        match self.environment.assign(name, Literal::CallableLiteral(index)) {
            Ok(_) => self.proceed(Control::Value(Literal::Nil)),
            Err(error) => self.fail(error.0, error.1),
        }
    }

    /// An interpreter on which no program has run yet.
    pub fn new() -> (interpreter: Self)
        ensures
            interpreter@ == initial(),
            interpreter@.wf(),
            interpreter@.sound(),
            interpreter@.plain(),
    {
        let mut environment = Environment::new();
        environment.define("clock", Literal::CallableLiteral(0));
        let mut callables: Vec<Callable<'a>> = Vec::new();
        callables.push(Callable { arity: 0, parameters: Vec::new(), kind: CallableKind::Native("clock") });
        let interpreter = Interpreter {
            environment,
            callables,
            instances: Vec::new(),
            control: Control::Finished,
            konts: Vec::new(),
        };
        proof {
            assert(interpreter@.environment.frames =~= initial().environment.frames);
            assert(interpreter@.callables[0].parameters =~= Seq::<Seq<char>>::empty());
            assert(interpreter@.callables =~= initial().callables);
            assert(interpreter@.instances =~= initial().instances);
            assert(interpreter@.konts =~= initial().konts);
            crate::soundness::initial_is_well_formed();
            crate::handles::initial_is_sound();
            crate::plain::initial_is_plain();
        }
        interpreter
    }

    /// Applies a binary operator to two values.
    pub fn binary(&mut self, operator: &Token, left: Literal, right: Literal) -> (action: Action)
        ensures
            (final(self)@, action@) == old(self)@.binary(operator@, left@, right@),
    {
        if operator.typ == TokenType::Plus {
            match (left, right) {
                (Literal::F64(a), Literal::F64(b)) => self.ask(
                    Request::Arithmetic(TokenType::Plus, a, b),
                ),
                (Literal::StringLiteral(a), Literal::StringLiteral(b)) => self.proceed(
                    Control::Value(Literal::StringLiteral(a.concat(b.as_str()))),
                ),
                _ => self.fail(
                    operator.clone(),
                    Soo::Static("Operands must be two numbers or two strings."),
                ),
            }
        } else if arithmetic(operator.typ) || comparison(operator.typ) {
            match get_numeric_operands(operator, &left, &right) {
                Ok((a, b)) => if arithmetic(operator.typ) {
                    self.ask(Request::Arithmetic(operator.typ, a, b))
                } else {
                    self.proceed(Control::Value(Literal::BoolLiteral(compare(operator.typ, a, b))))
                },
                Err(error) => self.fail(error.0, error.1),
            }
        } else if operator.typ == TokenType::EqualEqual {
            self.proceed(Control::Value(Literal::BoolLiteral(is_equal(&left, &right))))
        } else if operator.typ == TokenType::BangEqual {
            self.proceed(Control::Value(Literal::BoolLiteral(!is_equal(&left, &right))))
        } else {
            self.fail(operator.clone(), Soo::Static("Expected a binary operator."))
        }
    }

    fn resume_unary(&mut self, unary: &'a Unary, value: Literal) -> (action: Action)
        ensures
            (final(self)@, action@) == old(self)@.resume(Kont::Unary(unary)@, value@),
    {
        if unary.operator.typ == TokenType::Bang {
            self.proceed(Control::Value(Literal::BoolLiteral(!is_truthy(&value))))
        } else if unary.operator.typ == TokenType::Minus {
            match value {
                Literal::F64(bits) => self.proceed(Control::Value(Literal::F64(negate(bits)))),
                _ => self.fail(unary.operator.clone(), Soo::Static("Operand must be a number.")),
            }
        } else {
            self.fail(unary.operator.clone(), Soo::Static("Expected a unary operator."))
        }
    }

    fn resume_logical(&mut self, logical: &'a Logical, value: Literal) -> (action: Action)
        ensures
            (final(self)@, action@) == old(self)@.resume(Kont::Logical(logical)@, value@),
    {
        if (logical.operator.typ == TokenType::Or) == is_truthy(&value) {
            self.proceed(Control::Value(value))
        } else {
            self.proceed(Control::Expression(&*logical.right))
        }
    }

    fn resume_assign(&mut self, assign: &'a Assign, value: Literal) -> (action: Action)
        ensures
            (final(self)@, action@) == old(self)@.resume(Kont::Assign(assign)@, value@),
    {
        let found = match self.environment.locals.get(&assign.id) {
            Some(distance) => Some(*distance),
            None => None,
        };
        let assigned = match found {
            Some(distance) => self.environment.assign_at(distance, &assign.name, value),
            None => self.environment.assign_global(&assign.name, value),
        };
        match assigned {
            Ok(value) => {
                self.control = Control::Value(value);
                Action::Continue
            },
            Err(error) => self.fail(error.0, error.1),
        }
    }

    fn resume_callee(&mut self, call: &'a Call, value: Literal) -> (action: Action)
        ensures
            (final(self)@, action@) == old(self)@.resume(Kont::Callee(call)@, value@),
    {
        let values: Vec<Literal> = Vec::new();
        assert(values_view(values@) =~= Seq::<LiteralView>::empty());
        if call.arguments.len() == 0 {
            Callable::call(value, values, &call.paren, self)
        } else {
            self.push(Kont::Argument(call, value, values), Control::Expression(&call.arguments[0]))
        }
    }

    fn resume_argument(&mut self, call: &'a Call, callee: Literal, values: Vec<Literal>, value: Literal) -> (action:
        Action)
        ensures
            (final(self)@, action@) == old(self)@.resume(
                Kont::Argument(call, callee, values)@,
                value@,
            ),
    {
        let mut values = values;
        let ghost before = values_view(values@);
        values.push(value);
        assert(values_view(values@) =~= before.push(value@));
        if values.len() < call.arguments.len() {
            let next = &call.arguments[values.len()];
            self.push(Kont::Argument(call, callee, values), Control::Expression(next))
        } else {
            Callable::call(callee, values, &call.paren, self)
        }
    }

    fn resume_get(&mut self, get: &'a Get, value: Literal) -> (action: Action)
        ensures
            (final(self)@, action@) == old(self)@.resume(Kont::Get(get)@, value@),
    {
        match value {
            Literal::InstanceLiteral(instance) => {
                let found = Instance::get(instance, &get.name, self);
                self.deliver(found)
            },
            _ => self.fail(get.name.clone(), Soo::Static("Only instances have properties.")),
        }
    }

    fn resume_set_object(&mut self, set: &'a SetExpr, value: Literal) -> (action: Action)
        ensures
            (final(self)@, action@) == old(self)@.resume(Kont::SetObject(set)@, value@),
    {
        match value {
            Literal::InstanceLiteral(instance) => {
                if instance < self.instances.len() {
                    self.push(Kont::SetValue(set, instance), Control::Expression(&*set.value))
                } else {
                    self.fail(set.name.clone(), Soo::Static("Only instances have fields."))
                }
            },
            _ => self.fail(set.name.clone(), Soo::Static("Only instances have fields.")),
        }
    }

    fn resume_set_value(&mut self, set: &'a SetExpr, instance: usize, value: Literal) -> (action: Action)
        ensures
            (final(self)@, action@) == old(self)@.resume(Kont::SetValue(set, instance)@, value@),
    {
        if instance < self.instances.len() {
            self.instances[instance].set(&set.name, value.clone());
            self.control = Control::Value(value);
            proof {
                let expected = old(self)@.resume(Kont::SetValue(set, instance)@, value@).0;
                assert(self@.instances =~= expected.instances);
            }
            Action::Continue
        } else {
            self.fail(set.name.clone(), Soo::Static("Only instances have fields."))
        }
    }

    fn resume_print(&mut self, value: Literal) -> (action: Action)
        ensures
            (final(self)@, action@) == old(self)@.resume(Kont::Print@, value@),
    {
        let text = stringify(&value, &self.callables, &self.instances);
        self.control = Control::Value(Literal::Nil);
        match text {
            Some(text) => Action::Print(text),
            None => match value {
                Literal::F64(bits) => Action::PrintNumber(bits),
                _ => Action::Continue,
            },
        }
    }

    fn resume_branch(&mut self, kont: Kont<'a>, value: Literal) -> (action: Action)
        requires
            kont is If || kont is WhileCondition || kont is WhileBody || kont is Sequence,
        ensures
            (final(self)@, action@) == old(self)@.resume(kont@, value@),
    {
        match kont {
            Kont::If(then_branch, else_branch) => {
                if is_truthy(&value) {
                    self.proceed(Control::Statement(then_branch))
                } else {
                    match else_branch {
                        Some(statement) => self.proceed(Control::Statement(statement)),
                        None => self.proceed(Control::Value(Literal::Nil)),
                    }
                }
            },
            Kont::WhileCondition(condition, body) => {
                if is_truthy(&value) {
                    self.push(Kont::WhileBody(condition, body), Control::Statement(body))
                } else {
                    self.proceed(Control::Value(Literal::Nil))
                }
            },
            Kont::WhileBody(condition, body) => self.push(
                Kont::WhileCondition(condition, body),
                Control::Expression(condition),
            ),
            Kont::Sequence(statements, next) => {
                if next < statements.len() {
                    self.push(
                        Kont::Sequence(statements, next + 1),
                        Control::Statement(&statements[next]),
                    )
                } else {
                    self.proceed(Control::Value(Literal::Nil))
                }
            },
            _ => Action::Continue,
        }
    }

    fn resume_scope(&mut self, kont: Kont<'a>, value: Literal) -> (action: Action)
        requires
            kont is Var || kont is Scope || kont is Call,
        ensures
            (final(self)@, action@) == old(self)@.resume(kont@, value@),
    {
        match kont {
            Kont::Var(name) => {
                self.environment.define(name.lexeme.as_str(), value);
                self.control = Control::Value(Literal::Nil);
                Action::Continue
            },
            Kont::Scope => {
                self.environment.del_scope();
                self.control = Control::Value(value);
                Action::Continue
            },
            Kont::Call(layers, this) => {
                self.environment.layers = layers;
                self.control = Control::Value(
                    match this {
                        Some(instance) => instance,
                        None => Literal::Nil,
                    },
                );
                proof {
                    assert(final(self)@.environment.frames =~= old(self)@.environment.frames);
                    assert(final(self)@.environment.scopes =~= old(self)@.environment.scopes);
                }
                Action::Continue
            },
            _ => Action::Continue,
        }
    }

    /// Hands `value` to `kont`, which has just left the stack.
    pub fn resume(&mut self, kont: Kont<'a>, value: Literal) -> (action: Action)
        ensures
            (final(self)@, action@) == old(self)@.resume(kont@, value@),
    {
        match kont {
            Kont::Unary(unary) => self.resume_unary(unary, value),
            Kont::BinaryLeft(binary) => self.push(
                Kont::BinaryRight(binary, value),
                Control::Expression(&*binary.right),
            ),
            Kont::BinaryRight(binary, left) => self.binary(&binary.operator, left, value),
            Kont::Logical(logical) => self.resume_logical(logical, value),
            Kont::Assign(assign) => self.resume_assign(assign, value),
            Kont::Callee(call) => self.resume_callee(call, value),
            Kont::Argument(call, callee, values) => self.resume_argument(call, callee, values, value),
            Kont::Get(get) => self.resume_get(get, value),
            Kont::SetObject(set) => self.resume_set_object(set, value),
            Kont::SetValue(set, instance) => self.resume_set_value(set, instance, value),
            Kont::Discard => self.proceed(Control::Value(Literal::Nil)),
            Kont::Print => self.resume_print(value),
            Kont::ReturnValue => self.proceed(Control::Return(value)),
            Kont::If(then_branch, else_branch) => self.resume_branch(
                Kont::If(then_branch, else_branch),
                value,
            ),
            Kont::WhileCondition(condition, body) => self.resume_branch(
                Kont::WhileCondition(condition, body),
                value,
            ),
            Kont::WhileBody(condition, body) => self.resume_branch(
                Kont::WhileBody(condition, body),
                value,
            ),
            Kont::Sequence(statements, next) => self.resume_branch(
                Kont::Sequence(statements, next),
                value,
            ),
            Kont::Var(name) => self.resume_scope(Kont::Var(name), value),
            Kont::Scope => self.resume_scope(Kont::Scope, value),
            Kont::Call(layers, this) => self.resume_scope(Kont::Call(layers, this), value),
        }
    }

    /// Lets a `return` of `value` pass `kont`, which has just left the
    /// stack. A call ends here: it yields the value, or its instance where
    /// it is an initializer.
    pub fn unwind(&mut self, kont: Kont<'a>, value: Literal) -> (action: Action)
        ensures
            (final(self)@, action@) == old(self)@.unwind(kont@, value@),
    {
        match kont {
            Kont::Call(layers, this) => {
                self.environment.layers = layers;
                self.control = Control::Value(
                    match this {
                        Some(instance) => instance,
                        None => value,
                    },
                );
                proof {
                    assert(final(self)@.environment.frames =~= old(self)@.environment.frames);
                    assert(final(self)@.environment.scopes =~= old(self)@.environment.scopes);
                }
                Action::Continue
            },
            _ => self.proceed(Control::Return(value)),
        }
    }

    /// One step of the interpreter. `event` is the host's answer to the
    /// request that the step before made, where it made one.
    pub fn step(&mut self, event: Option<u64>) -> (action: Action)
        ensures
            (final(self)@, action@) == old(self)@.step(event),
            old(self)@.wf() ==> final(self)@.wf(),
            old(self)@.sound() && literal_in_hand_ok(old(self)@) ==> final(self)@.sound(),
            old(self)@.plain() ==> final(self)@.plain(),
    {
        let action = self.advance(event);
        let callables = self.callables.len();
        let instances = self.instances.len();
        let frames = self.environment.frames.len();
        proof {
            if old(self)@.wf() {
                assert(self@.callables.len() == callables);
                assert(self@.instances.len() == instances);
                assert(self@.environment.frames.len() == frames);
                crate::soundness::step_keeps_well_formed(old(self)@, event);
            }
            if old(self)@.sound() && literal_in_hand_ok(old(self)@) {
                assert(self@.callables.len() == callables);
                assert(self@.instances.len() == instances);
                assert(self@.environment.frames.len() == frames);
                crate::handles::step_keeps_sound(old(self)@, event);
            }
            if old(self)@.plain() {
                crate::plain::step_keeps_plain(old(self)@, event);
            }
        }
        action
    }

    fn advance(&mut self, event: Option<u64>) -> (action: Action)
        ensures
            (final(self)@, action@) == old(self)@.step(event),
    {
        reveal(InterpreterView::step);
        let mut control = Control::Finished;
        core::mem::swap(&mut self.control, &mut control);
        match control {
            Control::Expression(expression) => {
                self.control = Control::Expression(expression);
                expression.interpret(self)
            },
            Control::Statement(statement) => {
                self.control = Control::Statement(statement);
                statement.interpret(self)
            },
            Control::Value(value) => {
                match self.konts.pop() {
                    Some(kont) => {
                        assert(self@.konts =~= old(self)@.konts.drop_last());
                        self.resume(kont, value)
                    },
                    None => Action::Finished,
                }
            },
            Control::Return(value) => {
                match self.konts.pop() {
                    Some(kont) => {
                        assert(self@.konts =~= old(self)@.konts.drop_last());
                        self.unwind(kont, value)
                    },
                    None => Action::Finished,
                }
            },
            Control::Awaiting(request) => match event {
                Some(bits) => self.proceed(Control::Value(Literal::F64(bits))),
                None => {
                    let action = Action::Ask(request.clone());
                    self.control = Control::Awaiting(request);
                    action
                },
            },
            Control::Finished => Action::Finished,
        }
    }

    /// Steps once, and then up to `limit` times more, as long as a step
    /// asks nothing of the host. The result is what the last step asked.
    pub fn run(&mut self, event: Option<u64>, limit: usize) -> (action: Action)
        ensures
            (final(self)@, action@) == old(self)@.run(event, limit as nat),
            old(self)@.wf() ==> final(self)@.wf(),
            old(self)@.plain() ==> final(self)@.plain(),
            old(self)@.plain() && old(self)@.sound() ==> final(self)@.sound(),
    {
        proof {
            if old(self)@.plain() {
                crate::plain::plain_literal_in_hand(old(self)@);
            }
        }
        let mut action = self.step(event);
        let mut left = limit;
        while left > 0 && matches!(action, Action::Continue)
            invariant
                old(self)@.wf() ==> self@.wf(),
                old(self)@.plain() ==> self@.plain(),
                old(self)@.plain() && old(self)@.sound() ==> self@.sound(),
                old(self)@.run(event, limit as nat) == if action@ is Continue && left > 0 {
                    self@.run(None, (left - 1) as nat)
                } else {
                    (self@, action@)
                },
            decreases left,
        {
            proof {
                if self@.plain() {
                    crate::plain::plain_literal_in_hand(self@);
                }
            }
            action = self.step(None);
            left -= 1;
        }
        action
    }

    /// Goes on with a value, or stops on an error.
    pub fn deliver(&mut self, result: Result<Literal, (Token, Soo)>) -> (action: Action)
        ensures
            (final(self)@, action@) == old(self)@.deliver(evaluated(result)),
    {
        match result {
            Ok(value) => self.proceed(Control::Value(value)),
            Err(error) => self.fail(error.0, error.1),
        }
    }
}

impl Stmt {
    /// Begins the execution of the statement: one step of the interpreter
    /// whose next thing to do is this statement.
    #[verifier::rlimit(40)]
    pub fn interpret<'a>(&'a self, interpreter: &mut Interpreter<'a>) -> (action: Action)
        ensures
            (final(interpreter)@, action@) == old(interpreter)@.begin_statement(self@),
    {
        match self {
            Stmt::Block { statements } => {
                assert(stmts_view(statements@) =~= self@->Block_statements);
                execute_block(statements, interpreter)
            },
            Stmt::Class { name, superclass, methods } => {
                assert(functions_view(methods@) =~= self@->Class_methods);
                match superclass {
                    Some(variable) => match lookup_variable(
                        &variable.name,
                        variable.id,
                        &interpreter.environment,
                    ) {
                        Ok(Literal::CallableLiteral(above)) => {
                            let class = if above < interpreter.callables.len() {
                                assert(interpreter@.callables[above as int] == interpreter.callables@[above as int]@);
                                match &interpreter.callables[above].kind {
                                    CallableKind::Class(_) => true,
                                    _ => false,
                                }
                            } else {
                                false
                            };
                            if class {
                                interpreter.declare_class(name, Some(above), methods)
                            } else {
                                interpreter.fail(
                                    variable.name.clone(),
                                    Soo::Static("Superclass must be a class."),
                                )
                            }
                        },
                        Ok(_) => interpreter.fail(
                            variable.name.clone(),
                            Soo::Static("Superclass must be a class."),
                        ),
                        Err(error) => interpreter.fail(error.0, error.1),
                    },
                    None => interpreter.declare_class(name, None, methods),
                }
            },
            Stmt::Expression { expression } => interpreter.push(
                Kont::Discard,
                Control::Expression(&**expression),
            ),
            Stmt::Function(declaration) => {
                let function = Callable::new_function(
                    declaration,
                    interpreter.environment.layers.clone(),
                    false,
                );
                let index = interpreter.callables.len();
                let ghost earlier = interpreter@.callables;
                interpreter.callables.push(function);
                assert(interpreter@.callables =~= earlier.push(function@));
                interpreter.environment.define(
                    declaration.name.lexeme.as_str(),
                    Literal::CallableLiteral(index),
                );
                interpreter.control = Control::Value(Literal::Nil);
                Action::Continue
            },
            Stmt::If { condition, then_branch, else_branch } => {
                let otherwise: Option<&'a Stmt> = match else_branch {
                    Some(branch) => Some(&**branch),
                    None => None,
                };
                interpreter.push(Kont::If(&**then_branch, otherwise), Control::Expression(&**condition))
            },
            Stmt::Print { expression } => interpreter.push(Kont::Print, Control::Expression(&**expression)),
            Stmt::Return { keyword: _, value } => match value {
                Some(expression) => interpreter.push(Kont::ReturnValue, Control::Expression(&**expression)),
                None => interpreter.proceed(Control::Return(Literal::Nil)),
            },
            Stmt::Var { name, initializer } => match initializer {
                Some(expression) => interpreter.push(Kont::Var(name), Control::Expression(&**expression)),
                None => {
                    interpreter.environment.define(name.lexeme.as_str(), Literal::Nil);
                    interpreter.control = Control::Value(Literal::Nil);
                    Action::Continue
                },
            },
            Stmt::While { condition, body } => interpreter.push(
                Kont::WhileCondition(&**condition, &**body),
                Control::Expression(&**condition),
            ),
        }
    }
}

impl Expr {
    /// Begins the evaluation of the expression: one step of the interpreter
    /// whose next thing to do is this expression.
    #[verifier::rlimit(40)]
    pub fn interpret<'a>(&'a self, interpreter: &mut Interpreter<'a>) -> (action: Action)
        ensures
            (final(interpreter)@, action@) == old(interpreter)@.begin_expression(self@),
    {
        match self {
            Expr::Assign(assign) => interpreter.push(Kont::Assign(assign), Control::Expression(&*assign.value)),
            Expr::Binary(binary) => interpreter.push(
                Kont::BinaryLeft(binary),
                Control::Expression(&*binary.left),
            ),
            Expr::Call(call) => {
                assert(exprs_view(call.arguments@) =~= self@->Call_arguments);
                interpreter.push(Kont::Callee(call), Control::Expression(&*call.callee))
            },
            Expr::Get(get) => interpreter.push(Kont::Get(get), Control::Expression(&*get.object)),
            Expr::Grouping(grouping) => interpreter.proceed(Control::Expression(&*grouping.expression)),
            Expr::LiteralExpr(literal) => match &literal.value {
                Literal::NumberLiteral(text) => interpreter.ask(Request::Number(text.clone())),
                value => interpreter.proceed(Control::Value(value.clone())),
            },
            Expr::Logical(logical) => interpreter.push(
                Kont::Logical(logical),
                Control::Expression(&*logical.left),
            ),
            Expr::SetExpr(set) => interpreter.push(Kont::SetObject(set), Control::Expression(&*set.object)),
            Expr::Super(above) => {
                let found = interpreter.super_method(above.id, &above.method);
                interpreter.deliver(found)
            },
            Expr::This(this) => {
                let found = lookup_variable(&this.keyword, this.id, &interpreter.environment);
                interpreter.deliver(found)
            },
            Expr::Unary(unary) => interpreter.push(Kont::Unary(unary), Control::Expression(&*unary.right)),
            Expr::Variable(variable) => {
                let found = lookup_variable(&variable.name, variable.id, &interpreter.environment);
                interpreter.deliver(found)
            },
        }
    }
}

impl Instance {
    /// Reads the property `name` of the instance at `instance`: a field
    /// first, else a method of its class or of a superclass, bound to the
    /// instance; a name that is neither is a runtime error.
    pub fn get(instance: usize, name: &Token, interpreter: &mut Interpreter<'_>) -> (r: Result<
        Literal,
        (Token, Soo),
    >)
        ensures
            (final(interpreter)@, evaluated(r)) == old(interpreter)@.get_property(instance, name@),
    {
        if instance < interpreter.instances.len() {
            assert(old(interpreter)@.instances[instance as int] == interpreter.instances@[instance as int]@);
            match interpreter.instances[instance].field(name) {
                Some(value) => Ok(value),
                None => {
                    let class = interpreter.instances[instance].class;
                    interpreter.bound_method(class, name, instance)
                },
            }
        } else {
            Err((name.clone(), Soo::Static("Only instances have properties.")))
        }
    }

    /// The text that the instance is printed as: the name of its class and
    /// ` instance`.
    pub fn to_string(&self, callables: &Vec<Callable<'_>>) -> (text: String)
        ensures
            text@ == class_name(callables_view(callables@), self.class) + " instance"@,
    {
        let mut text = class_name_of(callables, self.class);
        text.append(" instance");
        text
    }
}

} // verus!
