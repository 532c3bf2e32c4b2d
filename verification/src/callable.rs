use vstd::prelude::*;
use crate::class::{Class, ClassView};
use crate::dict::Dict;
use crate::interpreter::arity_error;
use crate::machine::{Action, Interpreter, Request, values_view};
use crate::stmt::{Function, FunctionView};
use crate::text::same_text;
use crate::token::{Literal, Token};
use crate::utils::Soo;

verus! {

/// Something that can be called: a function, a class or a native function.
#[derive(Debug)]
pub struct Callable<'a> {
    pub arity: usize,
    pub parameters: Vec<String>,
    pub kind: CallableKind<'a>,
}

/// What stands behind a callable. A function holds its declaration, the
/// stack of scopes that was in force where it was declared, as indices into
/// the environment's frames, and whether it is a class's initializer.
#[derive(Debug)]
pub enum CallableKind<'a> {
    Class(Class),
    Function { declaration: &'a Function, closure: Vec<usize>, is_initializer: bool },
    Native(&'static str),
}

/// What a `CallableKind` stands for.
pub enum CallableKindView {
    Class(ClassView),
    Function { declaration: FunctionView, closure: Seq<usize>, is_initializer: bool },
    Native(Seq<char>),
}

/// What a `Callable` stands for.
pub struct CallableView {
    pub arity: usize,
    pub parameters: Seq<Seq<char>>,
    pub kind: CallableKindView,
}

impl<'a> View for CallableKind<'a> {
    type V = CallableKindView;

    open spec fn view(&self) -> CallableKindView {
        match self {
            CallableKind::Class(class) => CallableKindView::Class(class@),
            CallableKind::Function { declaration, closure, is_initializer } => CallableKindView::Function {
                declaration: declaration@,
                closure: closure@,
                is_initializer: *is_initializer,
            },
            CallableKind::Native(name) => CallableKindView::Native(name@),
        }
    }
}

/// The views of a list of names, one for one.
pub open spec fn names_view(names: Seq<String>) -> Seq<Seq<char>> {
    Seq::new(names.len(), |i: int| names[i]@)
}

impl<'a> View for Callable<'a> {
    type V = CallableView;

    open spec fn view(&self) -> CallableView {
        CallableView {
            arity: self.arity,
            parameters: names_view(self.parameters@),
            kind: self.kind@,
        }
    }
}

/// The views of a table of callables, one for one.
pub open spec fn callables_view(callables: Seq<Callable<'_>>) -> Seq<CallableView> {
    Seq::new(callables.len(), |i: int| callables[i]@)
}

/// The function value of a declaration whose closure is `closure`.
pub open spec fn function_value(
    declaration: FunctionView,
    closure: Seq<usize>,
    is_initializer: bool,
) -> CallableView {
    CallableView {
        arity: declaration.params.len() as usize,
        parameters: Seq::new(declaration.params.len(), |i: int| declaration.params[i].lexeme),
        kind: CallableKindView::Function { declaration, closure, is_initializer },
    }
}

/// The arity of a class: that of the `init` that a call of the class runs,
/// its own or the nearest inherited one, or zero where it has none.
pub open spec fn class_arity(class: ClassView, callables: Seq<CallableView>) -> usize {
    match class.find_method("init"@, callables) {
        Some(init) => if init < callables.len() {
            callables[init as int].arity
        } else {
            0
        },
        None => 0,
    }
}

/// The class value of the given name, superclass and methods.
pub open spec fn class_value(
    name: Seq<char>,
    superclass: Option<usize>,
    methods: Map<Seq<char>, usize>,
    callables: Seq<CallableView>,
) -> CallableView {
    CallableView {
        arity: class_arity(ClassView { name, superclass, methods }, callables),
        parameters: Seq::empty(),
        kind: CallableKindView::Class(ClassView { name, superclass, methods }),
    }
}

/// A copy of a list of names.
pub fn clone_names(names: &Vec<String>) -> (copy: Vec<String>)
    ensures
        copy@ == names@,
{
    let mut copy: Vec<String> = Vec::new();
    let mut i: usize = 0;
    while i < names.len()
        invariant
            i <= names@.len(),
            copy@ == names@.subrange(0, i as int),
        decreases names@.len() - i,
    {
        copy.push(names[i].clone());
        assert(copy@ =~= names@.subrange(0, i + 1));
        i += 1;
    }
    assert(copy@ =~= names@);
    copy
}

impl<'a> Callable<'a> {
    /// Binds the method at `method` to `instance`: a copy of the method is
    /// added to the table of callables, with one more scope on its closure,
    /// in which `this` is the instance. The result is the copy's index, or
    /// nothing where `method` is no function.
    pub fn bind(method: usize, instance: Literal, interpreter: &mut Interpreter<'a>) -> (bound: Option<
        usize,
    >)
        ensures
            (final(interpreter)@, bound) == old(interpreter)@.bind(method, instance@),
    {
        if method >= interpreter.callables.len() {
            return None;
        }
        assert(old(interpreter)@.callables[method as int] == interpreter.callables@[method as int]@);
        let parts: Option<(&'a Function, Vec<usize>, bool)> = match &interpreter.callables[method].kind {
            CallableKind::Function { declaration, closure, is_initializer } => Some(
                (*declaration, closure.clone(), *is_initializer),
            ),
            _ => None,
        };
        match parts {
            Some((declaration, closure, is_initializer)) => {
                let mut closure = closure;
                let arity = interpreter.callables[method].arity;
                let parameters = clone_names(&interpreter.callables[method].parameters);
                let frame = interpreter.environment.push_frame();
                interpreter.environment.define_in(frame, "this", instance);
                closure.push(frame);
                let index = interpreter.callables.len();
                interpreter.callables.push(
                    Callable {
                        arity,
                        parameters,
                        kind: CallableKind::Function { declaration, closure, is_initializer },
                    },
                );
                proof {
                    let expected = old(interpreter)@.bind(method, instance@).0;
                    assert(final(interpreter)@.environment.frames =~= expected.environment.frames);
                    assert(final(interpreter)@.callables =~= expected.callables);
                    assert(final(interpreter)@.instances =~= expected.instances);
                    assert(final(interpreter)@.konts =~= expected.konts);
                }
                Some(index)
            },
            None => None,
        }
    }

    /// Calls `callee` with `arguments`; `token` is the closing parenthesis
    /// of the call. A value that is no callable, and a wrong number of
    /// arguments, are runtime errors. A class makes an instance and runs
    /// its initializer; a function runs its body in a fresh scope on top of
    /// its closure; the native `clock` asks the host for the time.
    pub fn call(callee: Literal, arguments: Vec<Literal>, token: &Token, interpreter: &mut Interpreter<'a>) -> (action:
        Action)
        ensures
            (final(interpreter)@, action@) == old(interpreter)@.call(
                callee@,
                values_view(arguments@),
                token@,
            ),
    {
        let index = match callee {
            Literal::CallableLiteral(index) => index,
            _ => {
                return interpreter.fail(
                    token.clone(),
                    Soo::Static("Can only call functions and classes."),
                );
            },
        };
        if index >= interpreter.callables.len() {
            return interpreter.fail(
                token.clone(),
                Soo::Static("Can only call functions and classes."),
            );
        }
        assert(old(interpreter)@.callables[index as int] == interpreter.callables@[index as int]@);
        let arity = interpreter.callables[index].arity;
        if arguments.len() != arity {
            return interpreter.fail(token.clone(), Soo::Owned(arity_error(arity, arguments.len())));
        }
        let clock: Option<bool> = match &interpreter.callables[index].kind {
            CallableKind::Native(name) => Some(same_text(name, "clock")),
            _ => None,
        };
        match clock {
            Some(true) => interpreter.ask(Request::Clock),
            Some(false) => interpreter.fail(token.clone(), Soo::Static("Unknown native function.")),
            None => {
                let class = match &interpreter.callables[index].kind {
                    CallableKind::Class(_) => true,
                    _ => false,
                };
                if class {
                    interpreter.construct(index, arguments)
                } else {
                    interpreter.call_function(index, arguments, None)
                }
            },
        }
    }

    /// The function that `declaration` declares, closed over `closure`.
    pub fn new_function(declaration: &'a Function, closure: Vec<usize>, is_initializer: bool) -> (f:
        Self)
        ensures
            f@ == function_value(declaration@, closure@, is_initializer),
    {
        let mut parameters: Vec<String> = Vec::new();
        let mut i: usize = 0;
        while i < declaration.params.len()
            invariant
                i <= declaration.params@.len(),
                parameters@.len() == i,
                forall|j: int| 0 <= j < i ==> (#[trigger] parameters@[j])@ == declaration.params@[j].lexeme@,
            decreases declaration.params@.len() - i,
        {
            parameters.push(declaration.params[i].lexeme.clone());
            i += 1;
        }
        let f = Callable {
            arity: declaration.params.len(),
            parameters,
            kind: CallableKind::Function { declaration, closure, is_initializer },
        };
        assert(f@.parameters =~= function_value(declaration@, closure@, is_initializer).parameters);
        f
    }

    /// The class of the given name, superclass and methods. It is called
    /// with as many arguments as its `init` takes, or with none where it has
    /// no `init`.
    pub fn new_class(
        name: String,
        superclass: Option<usize>,
        methods: Dict<usize>,
        callables: &Vec<Callable<'a>>,
    ) -> (class: Self)
        ensures
            class@ == class_value(name@, superclass, methods@, callables_view(callables@)),
    {
        let class = Class::new(name, superclass, methods);
        let arity = match class.find_method("init", callables) {
            Some(index) => if index < callables.len() {
                assert(callables_view(callables@)[index as int] == callables@[index as int]@);
                callables[index].arity
            } else {
                0
            },
            None => 0,
        };
        let class = Callable { arity, parameters: Vec::new(), kind: CallableKind::Class(class) };
        assert(class@.parameters =~= Seq::<Seq<char>>::empty());
        class
    }
}

} // verus!
