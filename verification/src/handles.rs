use vstd::prelude::*;
use crate::callable::{CallableKindView, CallableView};
use crate::class::method_of;
use crate::environment::EnvironmentView;
use crate::expr::ExprView;
use crate::instance::InstanceView;
use crate::machine::{ControlView, InterpreterView, KontView};
use crate::semantics::{declare_methods, define_all, lookup};
use crate::stmt::{FunctionView, StmtView};
use crate::token::{LiteralView, TokenView};

verus! {

/// Whether a value points at what exists: a callable or an instance is an
/// index below the size of its table.
pub open spec fn value_ok(value: LiteralView, callables: nat, instances: nat) -> bool {
    match value {
        LiteralView::CallableLiteral(index) => index < callables,
        LiteralView::InstanceLiteral(index) => index < instances,
        _ => true,
    }
}

/// Whether every value that a scope or an instance binds points at what
/// exists.
pub open spec fn bindings_ok(bindings: Map<Seq<char>, LiteralView>, callables: nat, instances: nat) -> bool {
    forall|name: Seq<char>|
        bindings.contains_key(name) ==> value_ok(#[trigger] bindings[name], callables, instances)
}

/// Whether every value of a list points at what exists.
pub open spec fn values_ok(values: Seq<LiteralView>, callables: nat, instances: nat) -> bool {
    forall|k: int| 0 <= k < values.len() ==> value_ok(#[trigger] values[k], callables, instances)
}

/// Whether the class at `index` is sound: its superclass is a class made
/// before it, and its methods are functions made before it.
pub open spec fn class_ok(callables: Seq<CallableView>, index: int) -> bool {
    match callables[index].kind {
        CallableKindView::Class(class) => {
            &&& match class.superclass {
                Some(above) => above < index && callables[above as int].kind is Class,
                None => true,
            }
            &&& forall|name: Seq<char>|
                class.methods.contains_key(name) ==> (#[trigger] class.methods[name]) < index
                    && callables[class.methods[name] as int].kind is Function
        },
        _ => true,
    }
}

/// Whether the values that wait in a continuation point at what exists.
pub open spec fn kont_values_ok(kont: KontView, callables: nat, instances: nat) -> bool {
    match kont {
        KontView::BinaryRight { left, .. } => value_ok(left, callables, instances),
        KontView::Argument { callee, values, .. } => value_ok(callee, callables, instances)
            && values_ok(values, callables, instances),
        KontView::SetValue { instance, .. } => instance < instances,
        KontView::Call { this, .. } => match this {
            Some(value) => value_ok(value, callables, instances),
            None => true,
        },
        _ => true,
    }
}

/// Whether the value in hand points at what exists.
pub open spec fn control_ok(control: ControlView, callables: nat, instances: nat) -> bool {
    match control {
        ControlView::Value(value) => value_ok(value, callables, instances),
        ControlView::Return(value) => value_ok(value, callables, instances),
        _ => true,
    }
}

impl InterpreterView {
    /// Every scope binds values that point at what exists.
    pub open spec fn frames_ok(self) -> bool {
        forall|f: int|
            0 <= f < self.environment.frames.len() ==> bindings_ok(
                #[trigger] self.environment.frames[f],
                self.callables.len(),
                self.instances.len(),
            )
    }

    /// Every class is sound.
    pub open spec fn classes_ok(self) -> bool {
        forall|k: int| 0 <= k < self.callables.len() ==> #[trigger] class_ok(self.callables, k)
    }

    /// Every instance is an instance of a class, and its fields hold values
    /// that point at what exists.
    pub open spec fn instances_ok(self) -> bool {
        forall|k: int|
            0 <= k < self.instances.len() ==> {
                &&& (#[trigger] self.instances[k]).class < self.callables.len()
                &&& self.callables[self.instances[k].class as int].kind is Class
                &&& bindings_ok(self.instances[k].fields, self.callables.len(), self.instances.len())
            }
    }

    /// Every value that waits in a continuation points at what exists.
    pub open spec fn kont_values_ok(self) -> bool {
        forall|k: int|
            0 <= k < self.konts.len() ==> kont_values_ok(
                #[trigger] self.konts[k],
                self.callables.len(),
                self.instances.len(),
            )
    }

    /// No value anywhere points at nothing: whatever a scope, a field, a
    /// continuation or the interpreter itself holds as a callable or an
    /// instance is in the tables; every instance is an instance of a
    /// class; and every class has a class made before it as superclass and
    /// functions made before it as methods.
    pub open spec fn sound(self) -> bool {
        &&& self.frames_ok()
        &&& self.classes_ok()
        &&& self.instances_ok()
        &&& self.kont_values_ok()
        &&& control_ok(self.control, self.callables.len(), self.instances.len())
    }
}

/// A method found on a sound class is a function in the table.
pub proof fn method_of_sound_class_is_function(
    callables: Seq<CallableView>,
    index: usize,
    name: Seq<char>,
)
    requires
        forall|k: int| 0 <= k < callables.len() ==> #[trigger] class_ok(callables, k),
        method_of(callables, index, name) is Some,
    ensures
        method_of(callables, index, name)->0 < callables.len(),
        callables[method_of(callables, index, name)->0 as int].kind is Function,
    decreases index,
{
    if index < callables.len() {
        assert(class_ok(callables, index as int));
        match callables[index as int].kind {
            CallableKindView::Class(class) => {
                if !class.methods.contains_key(name) {
                    match class.superclass {
                        Some(above) => {
                            if above < index {
                                method_of_sound_class_is_function(callables, above, name);
                            }
                        },
                        None => {},
                    }
                }
            },
            _ => {},
        }
    }
}

/// On sound classes the search for a method walks the whole chain of
/// superclasses: it never stops at a superclass because of where that
/// superclass stands in the table.
pub proof fn method_search_walks_the_chain(callables: Seq<CallableView>, index: usize, name: Seq<char>)
    requires
        forall|k: int| 0 <= k < callables.len() ==> #[trigger] class_ok(callables, k),
        index < callables.len(),
        callables[index as int].kind is Class,
    ensures
        ({
            let class = callables[index as int].kind->Class_0;
            method_of(callables, index, name) == if class.methods.contains_key(name) {
                Some(class.methods[name])
            } else {
                match class.superclass {
                    Some(above) => method_of(callables, above, name),
                    None => None,
                }
            }
        }),
{
    assert(class_ok(callables, index as int));
}

/// Whether the literal in hand, where the next step evaluates one, points
/// at what exists. Every literal that the scanner makes does: none of them
/// is a callable or an instance.
pub open spec fn literal_in_hand_ok(m: InterpreterView) -> bool {
    match m.control {
        ControlView::Expression(ExprView::LiteralExpr { value, .. }) => value_ok(
            value,
            m.callables.len(),
            m.instances.len(),
        ),
        _ => true,
    }
}

/// Scopes that bind sound values stay so when one more sound value is
/// bound in one of them.
proof fn lemma_define_in_ok(
    environment: EnvironmentView,
    frame: usize,
    name: Seq<char>,
    value: LiteralView,
    callables: nat,
    instances: nat,
)
    requires
        forall|f: int|
            0 <= f < environment.frames.len() ==> bindings_ok(
                #[trigger] environment.frames[f],
                callables,
                instances,
            ),
        value_ok(value, callables, instances),
    ensures
        forall|f: int|
            0 <= f < environment.define_in(frame, name, value).frames.len() ==> bindings_ok(
                #[trigger] environment.define_in(frame, name, value).frames[f],
                callables,
                instances,
            ),
        environment.define_in(frame, name, value).frames.len() == environment.frames.len(),
        environment.define_in(frame, name, value).layers == environment.layers,
        environment.define_in(frame, name, value).locals == environment.locals,
{
    let after = environment.define_in(frame, name, value);
    assert forall|f: int| 0 <= f < after.frames.len() implies bindings_ok(
        #[trigger] after.frames[f],
        callables,
        instances,
    ) by {
        assert(bindings_ok(environment.frames[f], callables, instances));
    }
}

/// What a sound scope binds a name to is a sound value.
proof fn lemma_get_at_ok(
    environment: EnvironmentView,
    distance: int,
    name: Seq<char>,
    callables: nat,
    instances: nat,
)
    requires
        forall|f: int|
            0 <= f < environment.frames.len() ==> bindings_ok(
                #[trigger] environment.frames[f],
                callables,
                instances,
            ),
        environment.get_at(distance, name) is Some,
    ensures
        value_ok(environment.get_at(distance, name)->0, callables, instances),
{
    let frame = environment.ancestor(distance)->0;
    assert(bindings_ok(environment.frames[frame as int], callables, instances));
}

/// What a reference reads from sound scopes is a sound value.
proof fn lemma_lookup_ok(
    environment: EnvironmentView,
    name: TokenView,
    id: usize,
    callables: nat,
    instances: nat,
)
    requires
        forall|f: int|
            0 <= f < environment.frames.len() ==> bindings_ok(
                #[trigger] environment.frames[f],
                callables,
                instances,
            ),
        lookup(environment, name, id) is Ok,
    ensures
        value_ok(lookup(environment, name, id)->Ok_0, callables, instances),
{
    if environment.locals.contains_key(id) {
        lemma_get_at_ok(environment, environment.locals[id] as int, name.lexeme, callables, instances);
    } else {
        assert(bindings_ok(environment.frames[0], callables, instances));
    }
}

/// Binding sound arguments to parameters keeps the scopes sound.
proof fn lemma_define_all_ok(
    environment: EnvironmentView,
    names: Seq<Seq<char>>,
    values: Seq<LiteralView>,
    count: int,
    callables: nat,
    instances: nat,
)
    requires
        forall|f: int|
            0 <= f < environment.frames.len() ==> bindings_ok(
                #[trigger] environment.frames[f],
                callables,
                instances,
            ),
        values_ok(values, callables, instances),
        count <= values.len(),
    ensures
        forall|f: int|
            0 <= f < define_all(environment, names, values, count).frames.len() ==> bindings_ok(
                #[trigger] define_all(environment, names, values, count).frames[f],
                callables,
                instances,
            ),
        define_all(environment, names, values, count).frames.len() == environment.frames.len(),
    decreases count,
{
    if count > 0 {
        lemma_define_all_ok(environment, names, values, count - 1, callables, instances);
        let before = define_all(environment, names, values, count - 1);
        match before.ancestor(0) {
            Some(frame) => lemma_define_in_ok(
                before,
                frame,
                names[count - 1],
                values[count - 1],
                callables,
                instances,
            ),
            None => {},
        }
    }
}

/// The methods that a class declaration makes are functions behind what
/// was in the table, and the method table points at them.
proof fn lemma_declare_methods_sound(
    callables: Seq<CallableView>,
    methods: Seq<FunctionView>,
    closure: Seq<usize>,
    count: int,
)
    requires
        0 <= count <= methods.len(),
        callables.len() + count <= usize::MAX,
    ensures
        ({
            let (made, table) = declare_methods(callables, methods, closure, count);
            &&& made.len() == callables.len() + count
            &&& forall|k: int| 0 <= k < callables.len() ==> made[k] == callables[k]
            &&& forall|k: int| callables.len() <= k < made.len() ==> (#[trigger] made[k]).kind is Function
            &&& forall|name: Seq<char>|
                table.contains_key(name) ==> callables.len() <= (#[trigger] table[name]) < made.len()
        }),
    decreases count,
{
    if count > 0 {
        lemma_declare_methods_sound(callables, methods, closure, count - 1);
        let (before, earlier) = declare_methods(callables, methods, closure, count - 1);
        let (made, table) = declare_methods(callables, methods, closure, count);
        assert(made.len() == before.len() + 1);
        assert forall|k: int| 0 <= k < callables.len() implies made[k] == callables[k] by {
            assert(made[k] == before[k]);
        }
        assert forall|k: int| callables.len() <= k < made.len() implies (#[trigger] made[k]).kind
            is Function by {
            if k < before.len() {
                assert(made[k] == before[k]);
            }
        }
        assert forall|name: Seq<char>| table.contains_key(name) implies callables.len() <= (
        #[trigger] table[name]) < made.len() by {
            if name != methods[count - 1].name.lexeme {
                assert(earlier.contains_key(name));
                assert(table[name] == earlier[name]);
            }
        }
    }
}

proof fn lemma_fail_keeps_sound(m: InterpreterView, token: TokenView, message: Seq<char>)
    requires
        m.sound(),
    ensures
        m.fail(token, message).0.sound(),
{
}

proof fn lemma_bind_keeps_sound(m: InterpreterView, method: usize, instance: LiteralView)
    requires
        m.sound(),
        value_ok(instance, m.callables.len(), m.instances.len()),
        m.bind(method, instance).0.sized(),
    ensures
        m.bind(method, instance).0.sound(),
        m.bind(method, instance).0.instances == m.instances,
        m.bind(method, instance).0.callables.len() >= m.callables.len(),
        m.bind(method, instance).0.konts == m.konts,
        m.bind(method, instance).0.control == m.control,
        m.bind(method, instance).1 is Some ==> m.bind(method, instance).1->0 < m.bind(
            method,
            instance,
        ).0.callables.len() && m.bind(method, instance).0.callables[m.bind(
            method,
            instance,
        ).1->0 as int].kind is Function,
{
    let (after, bound) = m.bind(method, instance);
    if bound is Some {
        let c = after.callables.len();
        let i = after.instances.len();
        assert forall|f: int| 0 <= f < after.environment.frames.len() implies bindings_ok(
            #[trigger] after.environment.frames[f],
            c,
            i,
        ) by {
            if f < m.environment.frames.len() {
                assert(bindings_ok(m.environment.frames[f], m.callables.len(), m.instances.len()));
            }
        }
        assert forall|k: int| 0 <= k < after.callables.len() implies #[trigger] class_ok(
            after.callables,
            k,
        ) by {
            if k < m.callables.len() {
                assert(class_ok(m.callables, k));
                assert(after.callables[k] == m.callables[k]);
            }
        }
        assert forall|k: int| 0 <= k < after.instances.len() implies {
            &&& (#[trigger] after.instances[k]).class < after.callables.len()
            &&& after.callables[after.instances[k].class as int].kind is Class
            &&& bindings_ok(after.instances[k].fields, c, i)
        } by {
            assert(bindings_ok(m.instances[k].fields, m.callables.len(), m.instances.len()));
        }
        assert forall|k: int| 0 <= k < after.konts.len() implies kont_values_ok(
            #[trigger] after.konts[k],
            c,
            i,
        ) by {
            lemma_kont_grows(m.konts[k], m.callables.len(), m.instances.len(), c, i);
        }
    }
}

/// A continuation that holds sound values holds them still when the
/// tables have grown.
proof fn lemma_kont_grows(kont: KontView, c: nat, i: nat, c2: nat, i2: nat)
    requires
        kont_values_ok(kont, c, i),
        c <= c2,
        i <= i2,
    ensures
        kont_values_ok(kont, c2, i2),
{
    match kont {
        KontView::Argument { values, .. } => {
            assert forall|k: int| 0 <= k < values.len() implies value_ok(
                #[trigger] values[k],
                c2,
                i2,
            ) by {
                assert(value_ok(values[k], c, i));
            }
        },
        _ => {},
    }
}

/// Sound bindings are sound still when the tables have grown.
proof fn lemma_bindings_grow(bindings: Map<Seq<char>, LiteralView>, c: nat, i: nat, c2: nat, i2: nat)
    requires
        bindings_ok(bindings, c, i),
        c <= c2,
        i <= i2,
    ensures
        bindings_ok(bindings, c2, i2),
{
    assert forall|name: Seq<char>| bindings.contains_key(name) implies value_ok(
        #[trigger] bindings[name],
        c2,
        i2,
    ) by {
        assert(value_ok(bindings[name], c, i));
    }
}

proof fn lemma_bound_method_keeps_sound(m: InterpreterView, class: usize, name: TokenView, instance: usize)
    requires
        m.sound(),
        instance < m.instances.len(),
        m.bound_method(class, name, instance).0.sized(),
    ensures
        m.bound_method(class, name, instance).0.sound(),
        m.bound_method(class, name, instance).0.konts == m.konts,
        m.bound_method(class, name, instance).0.control == m.control,
        m.bound_method(class, name, instance).1 is Ok ==> value_ok(
            m.bound_method(class, name, instance).1->Ok_0,
            m.bound_method(class, name, instance).0.callables.len(),
            m.bound_method(class, name, instance).0.instances.len(),
        ),
{
    match method_of(m.callables, class, name.lexeme) {
        Some(method) => {
            if m.bind(method, LiteralView::InstanceLiteral(instance)).1 is Some {
                lemma_bind_keeps_sound(m, method, LiteralView::InstanceLiteral(instance));
            }
        },
        None => {},
    }
}

proof fn lemma_call_function_keeps_sound(
    m: InterpreterView,
    index: usize,
    arguments: Seq<LiteralView>,
    this: Option<LiteralView>,
)
    requires
        m.sound(),
        values_ok(arguments, m.callables.len(), m.instances.len()),
        this is Some ==> value_ok(this->0, m.callables.len(), m.instances.len()),
        m.call_function(index, arguments, this).0.sized(),
    ensures
        m.call_function(index, arguments, this).0.sound(),
{
    let c = m.callables.len();
    let i = m.instances.len();
    if index < m.callables.len() {
        match m.callables[index as int].kind {
            CallableKindView::Function { declaration, closure, is_initializer } => {
                let names = m.callables[index as int].parameters;
                let count = if names.len() <= arguments.len() {
                    names.len() as int
                } else {
                    arguments.len() as int
                };
                let entered = (EnvironmentView { layers: closure, ..m.environment }).add_scope();
                assert forall|f: int| 0 <= f < entered.frames.len() implies bindings_ok(
                    #[trigger] entered.frames[f],
                    c,
                    i,
                ) by {
                    if f < m.environment.frames.len() {
                        assert(bindings_ok(m.environment.frames[f], c, i));
                    }
                }
                lemma_define_all_ok(entered, names, arguments, count, c, i);
                let after = m.call_function(index, arguments, this).0;
                let yields = match this {
                    Some(value) => Some(value),
                    None => if is_initializer {
                        crate::semantics::closure_this(m.environment, closure)
                    } else {
                        None
                    },
                };
                if yields is Some && this is None {
                    assert(bindings_ok(m.environment.frames[closure.last() as int], c, i));
                }
                assert forall|k: int| 0 <= k < after.konts.len() implies kont_values_ok(
                    #[trigger] after.konts[k],
                    c,
                    i,
                ) by {
                    if k < m.konts.len() {
                        assert(after.konts[k] == m.konts[k]);
                    }
                }
            },
            _ => {},
        }
    }
}

proof fn lemma_construct_keeps_sound(m: InterpreterView, class: usize, arguments: Seq<LiteralView>)
    requires
        m.sound(),
        class < m.callables.len(),
        m.callables[class as int].kind is Class,
        values_ok(arguments, m.callables.len(), m.instances.len()),
        m.construct(class, arguments).0.sized(),
    ensures
        m.construct(class, arguments).0.sound(),
{
    let instance = m.instances.len() as usize;
    let made = InterpreterView {
        instances: m.instances.push(InstanceView { class, fields: Map::empty() }),
        ..m
    };
    let c = m.callables.len();
    let i = m.instances.len();
    assert(made.sound()) by {
        assert forall|f: int| 0 <= f < made.environment.frames.len() implies bindings_ok(
            #[trigger] made.environment.frames[f],
            c,
            i + 1,
        ) by {
            lemma_bindings_grow(m.environment.frames[f], c, i, c, i + 1);
        }
        assert forall|k: int| 0 <= k < made.instances.len() implies {
            &&& (#[trigger] made.instances[k]).class < made.callables.len()
            &&& made.callables[made.instances[k].class as int].kind is Class
            &&& bindings_ok(made.instances[k].fields, c, i + 1)
        } by {
            if k < i {
                assert(made.instances[k] == m.instances[k]);
                lemma_bindings_grow(m.instances[k].fields, c, i, c, i + 1);
            }
        }
        assert forall|k: int| 0 <= k < made.konts.len() implies kont_values_ok(
            #[trigger] made.konts[k],
            c,
            i + 1,
        ) by {
            lemma_kont_grows(m.konts[k], c, i, c, i + 1);
        }
    }
    assert(values_ok(arguments, c, i + 1)) by {
        assert forall|k: int| 0 <= k < arguments.len() implies value_ok(
            #[trigger] arguments[k],
            c,
            i + 1,
        ) by {
            assert(value_ok(arguments[k], c, i));
        }
    }
    match method_of(m.callables, class, "init"@) {
        Some(init) => {
            let (after, bound) = made.bind(init, LiteralView::InstanceLiteral(instance));
            match bound {
                Some(index) => {
                    assert(after.sized()) by {
                        lemma_call_function_sizes(
                            after,
                            index,
                            arguments,
                            Some(LiteralView::InstanceLiteral(instance)),
                        );
                    }
                    lemma_bind_keeps_sound(made, init, LiteralView::InstanceLiteral(instance));
                    assert(values_ok(arguments, after.callables.len(), after.instances.len())) by {
                        assert forall|k: int| 0 <= k < arguments.len() implies value_ok(
                            #[trigger] arguments[k],
                            after.callables.len(),
                            after.instances.len(),
                        ) by {
                            assert(value_ok(arguments[k], c, i + 1));
                        }
                    }
                    lemma_call_function_keeps_sound(
                        after,
                        index,
                        arguments,
                        Some(LiteralView::InstanceLiteral(instance)),
                    );
                },
                None => {},
            }
        },
        None => {},
    }
}

/// A call of a function adds to the tables and takes nothing from them.
proof fn lemma_call_function_sizes(
    m: InterpreterView,
    index: usize,
    arguments: Seq<LiteralView>,
    this: Option<LiteralView>,
)
    ensures
        m.call_function(index, arguments, this).0.callables == m.callables,
        m.call_function(index, arguments, this).0.instances == m.instances,
        m.call_function(index, arguments, this).0.environment.frames.len()
            >= m.environment.frames.len(),
{
    if index < m.callables.len() {
        match m.callables[index as int].kind {
            CallableKindView::Function { closure, .. } => {
                let names = m.callables[index as int].parameters;
                let count = if names.len() <= arguments.len() {
                    names.len() as int
                } else {
                    arguments.len() as int
                };
                lemma_define_all_shape(
                    (EnvironmentView { layers: closure, ..m.environment }).add_scope(),
                    names,
                    arguments,
                    count,
                );
            },
            _ => {},
        }
    }
}

proof fn lemma_define_all_shape(
    environment: EnvironmentView,
    names: Seq<Seq<char>>,
    values: Seq<LiteralView>,
    count: int,
)
    ensures
        define_all(environment, names, values, count).frames.len() == environment.frames.len(),
    decreases count,
{
    if count > 0 {
        lemma_define_all_shape(environment, names, values, count - 1);
    }
}

proof fn lemma_call_keeps_sound(
    m: InterpreterView,
    callee: LiteralView,
    arguments: Seq<LiteralView>,
    paren: TokenView,
)
    requires
        m.sound(),
        value_ok(callee, m.callables.len(), m.instances.len()),
        values_ok(arguments, m.callables.len(), m.instances.len()),
        m.call(callee, arguments, paren).0.sized(),
    ensures
        m.call(callee, arguments, paren).0.sound(),
{
    lemma_fail_keeps_sound(m, paren, "Can only call functions and classes."@);
    lemma_fail_keeps_sound(m, paren, "Unknown native function."@);
    match callee {
        LiteralView::CallableLiteral(index) => {
            if index < m.callables.len() {
                let callable = m.callables[index as int];
                lemma_fail_keeps_sound(
                    m,
                    paren,
                    crate::semantics::arity_message(callable.arity as nat, arguments.len()),
                );
                if arguments.len() == callable.arity {
                    match callable.kind {
                        CallableKindView::Class(_) => lemma_construct_keeps_sound(m, index, arguments),
                        CallableKindView::Function { .. } => lemma_call_function_keeps_sound(
                            m,
                            index,
                            arguments,
                            None,
                        ),
                        CallableKindView::Native(_) => {},
                    }
                }
            }
        },
        _ => {},
    }
}

proof fn lemma_declare_class_keeps_sound(
    m: InterpreterView,
    name: TokenView,
    superclass: Option<usize>,
    methods: Seq<FunctionView>,
)
    requires
        m.sound(),
        superclass is Some ==> superclass->0 < m.callables.len() && m.callables[superclass->0 as int].kind
            is Class,
        m.declare_class(name, superclass, methods).0.sized(),
    ensures
        m.declare_class(name, superclass, methods).0.sound(),
{
    let c = m.callables.len();
    let i = m.instances.len();
    let declared = m.environment.define(name.lexeme, LiteralView::Nil);
    let inside = match superclass {
        Some(above) => declared.add_scope().define("super"@, LiteralView::CallableLiteral(above)),
        None => declared,
    };
    let outside = if superclass is Some {
        inside.del_scope()
    } else {
        inside
    };
    let (made, table) = declare_methods(m.callables, methods, inside.layers, methods.len() as int);
    let class = crate::callable::class_value(name.lexeme, superclass, table, made);
    let value = LiteralView::CallableLiteral(made.len() as usize);
    let assigned = outside.assign(name.lexeme, value);
    let after = InterpreterView { environment: assigned, callables: made.push(class), ..m };
    assert(m.declare_class(name, superclass, methods).0.callables == made.push(class));
    assert(made.push(class).len() == made.len() + 1);
    lemma_declare_methods_shape(m.callables, methods, inside.layers, methods.len() as int);
    lemma_declare_methods_sound(m.callables, methods, inside.layers, methods.len() as int);
    match m.environment.ancestor(0) {
        Some(frame) => lemma_define_in_ok(m.environment, frame, name.lexeme, LiteralView::Nil, c, i),
        None => {},
    }
    assert forall|f: int| 0 <= f < inside.frames.len() implies bindings_ok(
        #[trigger] inside.frames[f],
        c,
        i,
    ) by {
        match superclass {
            Some(above) => {
                let scoped = declared.add_scope();
                assert forall|g: int| 0 <= g < scoped.frames.len() implies bindings_ok(
                    #[trigger] scoped.frames[g],
                    c,
                    i,
                ) by {
                    if g < declared.frames.len() {
                        assert(scoped.frames[g] == declared.frames[g]);
                    }
                }
                match scoped.ancestor(0) {
                    Some(frame) => lemma_define_in_ok(
                        scoped,
                        frame,
                        "super"@,
                        LiteralView::CallableLiteral(above),
                        c,
                        i,
                    ),
                    None => {},
                }
            },
            None => {},
        }
    }
    let c2 = made.len() + 1;
    assert forall|f: int| 0 <= f < outside.frames.len() implies bindings_ok(
        #[trigger] outside.frames[f],
        c2 as nat,
        i,
    ) by {
        assert(outside.frames[f] == inside.frames[f]);
        lemma_bindings_grow(inside.frames[f], c, i, c2 as nat, i);
    }
    assert forall|f: int| 0 <= f < assigned.frames.len() implies bindings_ok(
        #[trigger] assigned.frames[f],
        c2 as nat,
        i,
    ) by {
        match outside.find_from(name.lexeme, 0) {
            Some(distance) => match outside.ancestor(distance) {
                Some(frame) => lemma_define_in_ok(outside, frame, name.lexeme, value, c2 as nat, i),
                None => {},
            },
            None => {},
        }
    }
    assert forall|k: int| 0 <= k < after.callables.len() implies #[trigger] class_ok(
        after.callables,
        k,
    ) by {
        if k < c {
            assert(class_ok(m.callables, k));
            assert(after.callables[k] == m.callables[k]);
            match m.callables[k].kind {
                CallableKindView::Class(old) => {
                    assert forall|n: Seq<char>| old.methods.contains_key(n) implies (
                    #[trigger] old.methods[n]) < k && after.callables[old.methods[n] as int].kind
                        is Function by {
                        assert(after.callables[old.methods[n] as int] == m.callables[old.methods[n] as int]);
                    }
                },
                _ => {},
            }
        } else if k < made.len() {
            assert(after.callables[k] == made[k]);
            assert(made[k].kind is Function);
        } else {
            assert(after.callables[k] == class);
            assert forall|n: Seq<char>| table.contains_key(n) implies (#[trigger] table[n]) < k
                && after.callables[table[n] as int].kind is Function by {
                assert(after.callables[table[n] as int] == made[table[n] as int]);
            }
        }
    }
    assert forall|k: int| 0 <= k < after.instances.len() implies {
        &&& (#[trigger] after.instances[k]).class < after.callables.len()
        &&& after.callables[after.instances[k].class as int].kind is Class
        &&& bindings_ok(after.instances[k].fields, c2 as nat, i)
    } by {
        assert(after.callables[m.instances[k].class as int] == m.callables[m.instances[k].class as int]);
        lemma_bindings_grow(m.instances[k].fields, c, i, c2 as nat, i);
    }
    assert forall|k: int| 0 <= k < after.konts.len() implies kont_values_ok(
        #[trigger] after.konts[k],
        c2 as nat,
        i,
    ) by {
        lemma_kont_grows(m.konts[k], c, i, c2 as nat, i);
    }
    assert((InterpreterView { control: ControlView::Finished, ..after }).sound());
    lemma_fail_keeps_sound(
        InterpreterView { control: ControlView::Finished, ..after },
        name,
        crate::environment::undefined_variable(name.lexeme),
    );
}

proof fn lemma_declare_methods_shape(
    callables: Seq<CallableView>,
    methods: Seq<FunctionView>,
    closure: Seq<usize>,
    count: int,
)
    requires
        0 <= count,
    ensures
        declare_methods(callables, methods, closure, count).0.len() == callables.len() + count,
    decreases count,
{
    if count > 0 {
        lemma_declare_methods_shape(callables, methods, closure, count - 1);
    }
}

proof fn lemma_begin_expression_keeps_sound(m: InterpreterView, expression: ExprView)
    requires
        m.sound(),
        m.control == ControlView::Expression(expression),
        literal_in_hand_ok(m),
        m.begin_expression(expression).0.sized(),
    ensures
        m.begin_expression(expression).0.sound(),
{
    let c = m.callables.len();
    let i = m.instances.len();
    match expression {
        ExprView::Super { id, method, .. } => {
            let (after, found) = m.super_method(id, method);
            if m.environment.locals.contains_key(id) && m.environment.locals[id] >= 1 {
                let distance = m.environment.locals[id] as int;
                match (
                    m.environment.get_at(distance, "super"@),
                    m.environment.get_at(distance - 1, "this"@),
                ) {
                    (
                        Some(LiteralView::CallableLiteral(class)),
                        Some(LiteralView::InstanceLiteral(instance)),
                    ) => {
                        lemma_get_at_ok(m.environment, distance - 1, "this"@, c, i);
                        assert(m.bound_method(class, method, instance).0.sized()) by {
                            assert(after.deliver(found).0.callables == after.callables);
                            assert(after.deliver(found).0.instances == after.instances);
                            assert(after.deliver(found).0.environment.frames
                                == after.environment.frames);
                        }
                        lemma_bound_method_keeps_sound(m, class, method, instance);
                    },
                    _ => {},
                }
            }
            match found {
                Ok(_) => {},
                Err(error) => lemma_fail_keeps_sound(after, error.0, error.1),
            }
        },
        ExprView::This { id, keyword } => {
            match lookup(m.environment, keyword, id) {
                Ok(_) => lemma_lookup_ok(m.environment, keyword, id, c, i),
                Err(error) => lemma_fail_keeps_sound(m, error.0, error.1),
            }
        },
        ExprView::Variable { id, name } => {
            match lookup(m.environment, name, id) {
                Ok(_) => lemma_lookup_ok(m.environment, name, id, c, i),
                Err(error) => lemma_fail_keeps_sound(m, error.0, error.1),
            }
        },
        _ => {},
    }
}

proof fn lemma_begin_statement_keeps_sound(m: InterpreterView, statement: StmtView)
    requires
        m.sound(),
        m.control == ControlView::Statement(statement),
        m.begin_statement(statement).0.sized(),
    ensures
        m.begin_statement(statement).0.sound(),
{
    let c = m.callables.len();
    let i = m.instances.len();
    match statement {
        StmtView::Block { statements } => {
            let after = m.execute_block(statements).0;
            assert forall|f: int| 0 <= f < after.environment.frames.len() implies bindings_ok(
                #[trigger] after.environment.frames[f],
                c,
                i,
            ) by {
                if f < m.environment.frames.len() {
                    assert(after.environment.frames[f] == m.environment.frames[f]);
                }
            }
            assert forall|k: int| 0 <= k < after.konts.len() implies kont_values_ok(
                #[trigger] after.konts[k],
                c,
                i,
            ) by {
                if k < m.konts.len() {
                    assert(after.konts[k] == m.konts[k]);
                }
            }
        },
        StmtView::Class { name, superclass, methods } => {
            match superclass {
                Some(variable) => {
                    lemma_fail_keeps_sound(m, variable->Variable_name, "Superclass must be a class."@);
                    match lookup(m.environment, variable->Variable_name, variable.id()) {
                        Ok(LiteralView::CallableLiteral(above)) => {
                            if above < m.callables.len() && m.callables[above as int].kind is Class {
                                lemma_declare_class_keeps_sound(m, name, Some(above), methods);
                            }
                        },
                        Ok(_) => {},
                        Err(error) => lemma_fail_keeps_sound(m, error.0, error.1),
                    }
                },
                None => lemma_declare_class_keeps_sound(m, name, None, methods),
            }
        },
        StmtView::Function(declaration) => {
            let after = m.begin_statement(statement).0;
            let value = LiteralView::CallableLiteral(c as usize);
            let grown = InterpreterView {
                callables: m.callables.push(
                    crate::callable::function_value(declaration, m.environment.layers, false),
                ),
                ..m
            };
            assert(grown.sound()) by {
                assert forall|f: int| 0 <= f < grown.environment.frames.len() implies bindings_ok(
                    #[trigger] grown.environment.frames[f],
                    c + 1,
                    i,
                ) by {
                    lemma_bindings_grow(m.environment.frames[f], c, i, c + 1, i);
                }
                assert forall|k: int| 0 <= k < grown.callables.len() implies #[trigger] class_ok(
                    grown.callables,
                    k,
                ) by {
                    if k < c {
                        assert(class_ok(m.callables, k));
                        assert(grown.callables[k] == m.callables[k]);
                    }
                }
                assert forall|k: int| 0 <= k < grown.instances.len() implies {
                    &&& (#[trigger] grown.instances[k]).class < grown.callables.len()
                    &&& grown.callables[grown.instances[k].class as int].kind is Class
                    &&& bindings_ok(grown.instances[k].fields, c + 1, i)
                } by {
                    lemma_bindings_grow(m.instances[k].fields, c, i, c + 1, i);
                }
                assert forall|k: int| 0 <= k < grown.konts.len() implies kont_values_ok(
                    #[trigger] grown.konts[k],
                    c + 1,
                    i,
                ) by {
                    lemma_kont_grows(m.konts[k], c, i, c + 1, i);
                }
            }
            match m.environment.ancestor(0) {
                Some(frame) => lemma_define_in_ok(
                    m.environment,
                    frame,
                    declaration.name.lexeme,
                    value,
                    c + 1,
                    i,
                ),
                None => {},
            }
        },
        StmtView::Var { name, initializer } => {
            match m.environment.ancestor(0) {
                Some(frame) => lemma_define_in_ok(
                    m.environment,
                    frame,
                    name.lexeme,
                    LiteralView::Nil,
                    c,
                    i,
                ),
                None => {},
            }
        },
        _ => {},
    }
}

proof fn lemma_resume_keeps_sound(m: InterpreterView, kont: KontView, value: LiteralView)
    requires
        m.sound(),
        m.control is Finished,
        kont_values_ok(kont, m.callables.len(), m.instances.len()),
        value_ok(value, m.callables.len(), m.instances.len()),
        m.resume(kont, value).0.sized(),
    ensures
        m.resume(kont, value).0.sound(),
{
    let c = m.callables.len();
    let i = m.instances.len();
    match kont {
        KontView::Unary { operator } => {
            lemma_fail_keeps_sound(m, operator, "Operand must be a number."@);
            lemma_fail_keeps_sound(m, operator, "Expected a unary operator."@);
        },
        KontView::BinaryRight { operator, left } => {
            lemma_fail_keeps_sound(m, operator, "Operands must be two numbers or two strings."@);
            lemma_fail_keeps_sound(m, operator, "Operands must be numbers."@);
            lemma_fail_keeps_sound(m, operator, "Expected a binary operator."@);
        },
        KontView::Assign { id, name } => {
            lemma_fail_keeps_sound(m, name, crate::environment::undefined_variable(name.lexeme));
            if m.environment.locals.contains_key(id) {
                match m.environment.ancestor(m.environment.locals[id] as int) {
                    Some(frame) => lemma_define_in_ok(m.environment, frame, name.lexeme, value, c, i),
                    None => {},
                }
            } else {
                lemma_define_in_ok(m.environment, 0, name.lexeme, value, c, i);
            }
        },
        KontView::Callee { paren, arguments } => {
            if arguments.len() == 0 {
                lemma_call_keeps_sound(m, value, Seq::empty(), paren);
            }
        },
        KontView::Argument { paren, arguments, callee, values } => {
            assert forall|k: int| 0 <= k < values.push(value).len() implies value_ok(
                #[trigger] values.push(value)[k],
                c,
                i,
            ) by {
                if k < values.len() {
                    assert(values.push(value)[k] == values[k]);
                }
            }
            if !(values.len() + 1 < arguments.len()) {
                lemma_call_keeps_sound(m, callee, values.push(value), paren);
            }
        },
        KontView::Get { name } => {
            lemma_fail_keeps_sound(m, name, "Only instances have properties."@);
            match value {
                LiteralView::InstanceLiteral(instance) => {
                    let (after, found) = m.get_property(instance, name);
                    if m.instances[instance as int].fields.contains_key(name.lexeme) {
                        assert(bindings_ok(m.instances[instance as int].fields, c, i));
                    } else {
                        assert(after.deliver(found).0.callables == after.callables);
                        assert(after.deliver(found).0.instances == after.instances);
                        assert(after.deliver(found).0.environment.frames == after.environment.frames);
                        lemma_bound_method_keeps_sound(
                            m,
                            m.instances[instance as int].class,
                            name,
                            instance,
                        );
                    }
                    match found {
                        Ok(_) => {},
                        Err(error) => lemma_fail_keeps_sound(after, error.0, error.1),
                    }
                },
                _ => {},
            }
        },
        KontView::SetObject { name, .. } => {
            lemma_fail_keeps_sound(m, name, "Only instances have fields."@);
        },
        KontView::SetValue { name, instance } => {
            let after = m.resume(kont, value).0;
            assert forall|k: int| 0 <= k < after.instances.len() implies {
                &&& (#[trigger] after.instances[k]).class < after.callables.len()
                &&& after.callables[after.instances[k].class as int].kind is Class
                &&& bindings_ok(after.instances[k].fields, c, i)
            } by {
                assert(bindings_ok(m.instances[k].fields, c, i));
            }
        },
        KontView::Var { name } => {
            match m.environment.ancestor(0) {
                Some(frame) => lemma_define_in_ok(m.environment, frame, name.lexeme, value, c, i),
                None => {},
            }
        },
        _ => {},
    }
}

/// One step keeps the interpreter sound, as long as its tables stay within
/// the size that a table in memory can have and the literal in hand, if
/// there is one, is a literal of the language.
pub proof fn step_keeps_sound(m: InterpreterView, event: Option<u64>)
    requires
        m.sound(),
        literal_in_hand_ok(m),
        m.step(event).0.sized(),
    ensures
        m.step(event).0.sound(),
{
    reveal(InterpreterView::step);
    match m.control {
        ControlView::Expression(expression) => lemma_begin_expression_keeps_sound(m, expression),
        ControlView::Statement(statement) => lemma_begin_statement_keeps_sound(m, statement),
        ControlView::Value(value) => {
            if m.konts.len() > 0 {
                let popped = InterpreterView {
                    control: ControlView::Finished,
                    konts: m.konts.drop_last(),
                    ..m
                };
                assert(popped.sound());
                assert(kont_values_ok(m.konts.last(), m.callables.len(), m.instances.len()));
                lemma_resume_keeps_sound(popped, m.konts.last(), value);
            }
        },
        ControlView::Return(value) => {
            if m.konts.len() > 0 {
                let popped = InterpreterView {
                    control: ControlView::Finished,
                    konts: m.konts.drop_last(),
                    ..m
                };
                assert(popped.sound());
                assert(kont_values_ok(m.konts.last(), m.callables.len(), m.instances.len()));
            }
        },
        ControlView::Awaiting(_) => {},
        ControlView::Finished => {},
    }
}

/// An interpreter on which no program has run yet is sound.
pub proof fn initial_is_sound()
    ensures
        crate::semantics::initial().sound(),
{
    let m = crate::semantics::initial();
    assert(m.environment.frames[0].contains_key("clock"@));
}

/// The start of a run keeps the interpreter sound.
pub proof fn load_keeps_sound(m: InterpreterView, statements: Seq<StmtView>)
    requires
        m.sound(),
    ensures
        m.load(statements).sound(),
{
}

} // verus!
