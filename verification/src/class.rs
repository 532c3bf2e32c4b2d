use vstd::prelude::*;
use crate::callable::{Callable, CallableKind, CallableKindView, CallableView};
use crate::dict::Dict;

verus! {

/// A class: its name, its superclass and its own methods. The superclass and
/// the methods are held as indices into the interpreter's table of
/// callables.
#[derive(Debug)]
pub struct Class {
    pub name: String,
    pub superclass: Option<usize>,
    pub methods: Dict<usize>,
}

/// What a `Class` stands for.
pub struct ClassView {
    pub name: Seq<char>,
    pub superclass: Option<usize>,
    pub methods: Map<Seq<char>, usize>,
}

impl View for Class {
    type V = ClassView;

    open spec fn view(&self) -> ClassView {
        ClassView { name: self.name@, superclass: self.superclass, methods: self.methods@ }
    }
}

/// The method `name` of the class at `index` of `callables`: its own, or
/// else that of the nearest superclass that has one. The walk goes on only
/// to a superclass that was made before the class itself.
pub open spec fn method_of(callables: Seq<CallableView>, index: usize, name: Seq<char>) -> Option<usize>
    decreases index,
{
    if index < callables.len() {
        match callables[index as int].kind {
            CallableKindView::Class(class) => if class.methods.contains_key(name) {
                Some(class.methods[name])
            } else {
                match class.superclass {
                    Some(above) => if above < index {
                        method_of(callables, above, name)
                    } else {
                        None
                    },
                    None => None,
                }
            },
            _ => None,
        }
    } else {
        None
    }
}

impl ClassView {
    /// The method `name` of this class: its own, or else what its
    /// superclass gives.
    pub open spec fn find_method(self, name: Seq<char>, callables: Seq<CallableView>) -> Option<usize> {
        if self.methods.contains_key(name) {
            Some(self.methods[name])
        } else {
            match self.superclass {
                Some(above) => method_of(callables, above, name),
                None => None,
            }
        }
    }
}

/// The method `name` of the class at `index` of `callables`.
pub fn find_method_at(callables: &Vec<Callable<'_>>, index: usize, name: &str) -> (method: Option<usize>)
    ensures
        method == method_of(crate::callable::callables_view(callables@), index, name@),
{
    let ghost all = crate::callable::callables_view(callables@);
    let mut current = index;
    loop
        invariant
            all == crate::callable::callables_view(callables@),
            method_of(all, index, name@) == method_of(all, current, name@),
        decreases current,
    {
        if current >= callables.len() {
            return None;
        }
        assert(all[current as int] == callables@[current as int]@);
        match &callables[current].kind {
            CallableKind::Class(class) => {
                match class.methods.get(name) {
                    Some(method) => {
                        return Some(*method);
                    },
                    None => {},
                }
                match class.superclass {
                    Some(above) => {
                        if above < current {
                            current = above;
                        } else {
                            return None;
                        }
                    },
                    None => {
                        return None;
                    },
                }
            },
            _ => {
                return None;
            },
        }
    }
}

impl Class {
    /// A class of the given name, superclass and methods.
    pub fn new(name: String, superclass: Option<usize>, methods: Dict<usize>) -> (class: Self)
        ensures
            class.name == name,
            class.superclass == superclass,
            class.methods == methods,
    {
        Class { name, superclass, methods }
    }

    /// Looks a method up: first among the class's own, then up the chain of
    /// superclasses; the first hit wins.
    pub fn find_method(&self, name: &str, callables: &Vec<Callable<'_>>) -> (method: Option<usize>)
        ensures
            method == self@.find_method(name@, crate::callable::callables_view(callables@)),
    {
        match self.methods.get(name) {
            Some(method) => Some(*method),
            None => match self.superclass {
                Some(above) => find_method_at(callables, above, name),
                None => None,
            },
        }
    }

    /// The class's name.
    pub fn to_string(&self) -> (s: String)
        ensures
            s@ == self@.name,
    {
        self.name.clone()
    }
}

} // verus!
