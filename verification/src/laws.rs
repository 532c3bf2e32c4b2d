use vstd::prelude::*;
use crate::callable::CallableView;
use crate::class::method_of;
use crate::environment::EnvironmentView;
use crate::expr::ExprView;
use crate::instance::InstanceView;
use crate::machine::{ActionView, ControlView, InterpreterView, KontView};
use crate::number::{integer_text, integer_value, is_nan};
use crate::semantics::{closure_this, define_all, text_of, values_equal};
use crate::text::decimal;
use crate::token::{LiteralView, TokenView};

verus! {

/// Every value equals itself, but for a number that is a NaN, which equals
/// nothing: `nil`, a boolean, a number and a string by what they hold, a
/// callable and an instance by identity.
pub proof fn equality_is_reflexive(value: LiteralView)
    ensures
        values_equal(value, value) == !(value is F64 && is_nan(value->F64_0)),
{
}

/// Values of different kinds are never equal, and `nil` equals `nil` alone.
pub proof fn equality_respects_kinds(left: LiteralView, right: LiteralView)
    ensures
        values_equal(left, right) ==> (left is Nil <==> right is Nil) && (left is BoolLiteral
            <==> right is BoolLiteral) && (left is F64 <==> right is F64) && (left is StringLiteral
            <==> right is StringLiteral) && (left is CallableLiteral <==> right is CallableLiteral)
            && (left is InstanceLiteral <==> right is InstanceLiteral),
        values_equal(left, right) == values_equal(right, left),
{
}

/// No digit of a decimal text is anything but one of `0` to `9`.
pub proof fn decimal_holds_digits(n: nat)
    ensures
        decimal(n).len() >= 1,
        forall|i: int| 0 <= i < decimal(n).len() ==> '0' <= #[trigger] decimal(n)[i] <= '9',
    decreases n,
{
    if n >= 10 {
        decimal_holds_digits(n / 10);
    }
}

/// A number without a fractional part whose magnitude is below 2^53 is
/// printed as the decimal text of its integer: digits alone, behind a `-`
/// for a negative number, and no decimal point.
pub proof fn integral_number_prints_as_integer(
    bits: u64,
    n: int,
    callables: Seq<CallableView>,
    instances: Seq<InstanceView>,
)
    requires
        integer_value(bits) == Some(n),
        -0x20_0000_0000_0000 < n < 0x20_0000_0000_0000,
    ensures
        text_of(LiteralView::F64(bits), callables, instances) == Some(
            integer_text(n),
        ),
        forall|i: int|
            0 <= i < integer_text(n).len() ==> #[trigger] integer_text(
                n,
            )[i] != '.',
{
    if n < 0 {
        decimal_holds_digits((-n) as nat);
    } else {
        decimal_holds_digits(n as nat);
    }
}

/// Binding leaves the closure's innermost scope with `this` bound to the
/// instance.
pub proof fn bound_method_knows_its_instance(m: InterpreterView, method: usize, instance: LiteralView)
    requires
        m.sized(),
        m.bind(method, instance).1 is Some,
    ensures
        ({
            let (after, bound) = m.bind(method, instance);
            &&& bound->0 == m.callables.len()
            &&& after.callables.len() == m.callables.len() + 1
            &&& after.callables[bound->0 as int].kind is Function
            &&& closure_this(
                after.environment,
                after.callables[bound->0 as int].kind->Function_closure,
            ) == Some(instance)
            &&& after.callables[bound->0 as int].kind->Function_is_initializer
                == m.callables[method as int].kind->Function_is_initializer
        }),
{
}

/// An initializer, however it exits, yields the instance: where the call
/// that is running is one that yields `instance`, both the end of its body
/// and a `return` from anywhere inside it hand on the instance, whatever
/// value comes with them.
pub proof fn initializer_yields_instance(
    m: InterpreterView,
    layers: Seq<usize>,
    instance: LiteralView,
    value: LiteralView,
)
    ensures
        m.resume(KontView::Call { layers, this: Some(instance) }, value).0.control
            == ControlView::Value(instance),
        m.unwind(KontView::Call { layers, this: Some(instance) }, value).0.control
            == ControlView::Value(instance),
        m.resume(KontView::Call { layers, this: Some(instance) }, value).1 is Continue,
        m.unwind(KontView::Call { layers, this: Some(instance) }, value).1 is Continue,
{
}

/// A `return` passes everything that waits inside the call that is
/// running and nothing is done on its way.
pub proof fn return_unwinds_to_the_call(m: InterpreterView, kont: KontView, value: LiteralView)
    requires
        !(kont is Call),
    ensures
        m.unwind(kont, value) == (
            InterpreterView { control: ControlView::Return(value), ..m },
            ActionView::Continue,
        ),
{
}

/// The call of an initializer that is bound to an instance is a call that
/// yields that instance.
pub proof fn initializer_call_yields_its_instance(
    m: InterpreterView,
    index: usize,
    arguments: Seq<LiteralView>,
    instance: LiteralView,
)
    requires
        index < m.callables.len(),
        m.callables[index as int].kind is Function,
        m.callables[index as int].kind->Function_is_initializer,
        closure_this(m.environment, m.callables[index as int].kind->Function_closure) == Some(
            instance,
        ),
    ensures
        ({
            let after = m.call_function(index, arguments, None).0;
            &&& after.konts.len() == m.konts.len() + 2
            &&& after.konts[m.konts.len() as int] == (KontView::Call {
                layers: m.environment.layers,
                this: Some(instance),
            })
        }),
{
}

/// The call of a class whose initializer can be bound is a call that
/// yields the new instance.
pub proof fn construction_yields_the_new_instance(
    m: InterpreterView,
    class: usize,
    arguments: Seq<LiteralView>,
)
    requires
        m.sized(),
        method_of(m.callables, class, "init"@) is Some,
        method_of(m.callables, class, "init"@)->0 < m.callables.len(),
        m.callables[method_of(m.callables, class, "init"@)->0 as int].kind is Function,
    ensures
        ({
            let after = m.construct(class, arguments).0;
            &&& after.instances.len() == m.instances.len() + 1
            &&& after.konts.len() == m.konts.len() + 2
            &&& after.konts[m.konts.len() as int] == (KontView::Call {
                layers: m.environment.layers,
                this: Some(LiteralView::InstanceLiteral(m.instances.len() as usize)),
            })
        }),
{
}

/// Binding parameters touches the innermost scope alone: the stack and
/// every other scope stay as they are.
pub proof fn parameters_bind_in_the_innermost_scope(
    environment: EnvironmentView,
    names: Seq<Seq<char>>,
    values: Seq<LiteralView>,
    count: int,
)
    requires
        environment.ancestor(0) is Some,
    ensures
        ({
            let after = define_all(environment, names, values, count);
            &&& after.layers == environment.layers
            &&& after.locals == environment.locals
            &&& after.frames.len() == environment.frames.len()
            &&& forall|frame: int|
                0 <= frame < environment.frames.len() && frame != environment.ancestor(0)->0
                    ==> after.frames[frame] == environment.frames[frame]
        }),
    decreases count,
{
    if count > 0 {
        parameters_bind_in_the_innermost_scope(environment, names, values, count - 1);
    }
}

/// A variable expression reads the binding that the resolver recorded for
/// it: where the table has the distance of a scope that binds the name,
/// the step that evaluates the expression yields what that scope binds the
/// name to, and changes nothing else.
pub proof fn variable_reads_its_resolved_binding(
    m: InterpreterView,
    id: usize,
    name: TokenView,
    event: Option<u64>,
)
    requires
        m.control == ControlView::Expression(ExprView::Variable { id, name }),
        m.environment.locals.contains_key(id),
        m.environment.get_at(m.environment.locals[id] as int, name.lexeme) is Some,
    ensures
        m.step(event) == (
            InterpreterView {
                control: ControlView::Value(
                    m.environment.get_at(m.environment.locals[id] as int, name.lexeme)->0,
                ),
                ..m
            },
            ActionView::Continue,
        ),
{
    reveal(InterpreterView::step);
}

/// An assignment expression writes the binding that the resolver recorded
/// for it, and yields the value.
pub proof fn assignment_writes_its_resolved_binding(
    m: InterpreterView,
    id: usize,
    name: TokenView,
    value: LiteralView,
)
    requires
        m.environment.locals.contains_key(id),
        m.environment.ancestor(m.environment.locals[id] as int) is Some,
    ensures
        m.resume(KontView::Assign { id, name }, value) == (
            InterpreterView {
                environment: m.environment.assign_at(
                    m.environment.locals[id] as int,
                    name.lexeme,
                    value,
                ),
                control: ControlView::Value(value),
                ..m
            },
            ActionView::Continue,
        ),
{
}

/// Closures are proper: a function holds the scopes that were in force
/// where it was declared, not copies of them. Where a variable in one of
/// those scopes is assigned after the function was made, a later call of
/// the function reads the new value there.
pub proof fn closure_observes_later_assignment(
    m: InterpreterView,
    function: usize,
    arguments: Seq<LiteralView>,
    writer: int,
    name: Seq<char>,
    value: LiteralView,
    captured: int,
)
    requires
        m.sized(),
        function < m.callables.len(),
        m.callables[function as int].kind is Function,
        m.environment.ancestor(writer) is Some,
        0 <= captured < m.callables[function as int].kind->Function_closure.len(),
        m.callables[function as int].kind->Function_closure[captured] == m.environment.ancestor(
            writer,
        )->0,
    ensures
        ({
            let closure = m.callables[function as int].kind->Function_closure;
            let assigned = InterpreterView {
                environment: m.environment.assign_at(writer, name, value),
                ..m
            };
            let called = assigned.call_function(function, arguments, None).0;
            called.environment.get_at(closure.len() - captured, name) == Some(value)
        }),
{
    let closure = m.callables[function as int].kind->Function_closure;
    let assigned = m.environment.assign_at(writer, name, value);
    let entered = (EnvironmentView { layers: closure, ..assigned }).add_scope();
    let names = m.callables[function as int].parameters;
    let count = if names.len() <= arguments.len() {
        names.len() as int
    } else {
        arguments.len() as int
    };
    assert(entered.ancestor(0) == Some(assigned.frames.len() as usize));
    parameters_bind_in_the_innermost_scope(entered, names, arguments, count);
    let inside = define_all(entered, names, arguments, count);
    let frame = closure[captured] as int;
    assert(inside.layers[captured] == closure[captured]);
    assert(inside.frames[frame] == entered.frames[frame]);
    assert(entered.frames[frame] == assigned.frames[frame]);
}

/// A runtime error ends the run and nothing else: every scope keeps its
/// bindings, and every function, class and instance stays, so that the
/// next program finds the global state as the failed one left it.
pub proof fn failure_keeps_the_state(m: InterpreterView, token: TokenView, message: Seq<char>)
    ensures
        m.fail(token, message).0.environment.frames == m.environment.frames,
        m.fail(token, message).0.environment.locals == m.environment.locals,
        m.fail(token, message).0.callables == m.callables,
        m.fail(token, message).0.instances == m.instances,
        m.fail(token, message).0.control is Finished,
        m.fail(token, message).0.konts.len() == 0,
        m.fail(token, message).1 == ActionView::Failed(token, message),
        m.environment.layers.len() >= 1 ==> m.fail(token, message).0.environment.layers
            == seq![m.environment.layers[0]],
{
    if m.environment.layers.len() >= 1 {
        assert(m.fail(token, message).0.environment.layers =~= seq![m.environment.layers[0]]);
    }
}

/// The start of the next program keeps the state too: it runs in the
/// global scope, over everything that earlier programs left there.
pub proof fn next_program_finds_the_state(m: InterpreterView, statements: Seq<crate::stmt::StmtView>)
    ensures
        m.load(statements).environment.frames == m.environment.frames,
        m.load(statements).environment.locals == m.environment.locals,
        m.load(statements).callables == m.callables,
        m.load(statements).instances == m.instances,
{
}

} // verus!
