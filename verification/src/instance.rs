use vstd::prelude::*;
use crate::dict::Dict;
use crate::environment::frame_view;
use crate::token::{Literal, LiteralView, Token};

verus! {

/// An instance: the index of its class in the interpreter's table of
/// callables, and its fields.
#[derive(Debug)]
pub struct Instance {
    pub class: usize,
    pub fields: Dict<Literal>,
}

/// What an `Instance` stands for.
pub struct InstanceView {
    pub class: usize,
    pub fields: Map<Seq<char>, LiteralView>,
}

impl View for Instance {
    type V = InstanceView;

    open spec fn view(&self) -> InstanceView {
        InstanceView { class: self.class, fields: frame_view(self.fields) }
    }
}

/// The views of a table of instances, one for one.
pub open spec fn instances_view(instances: Seq<Instance>) -> Seq<InstanceView> {
    Seq::new(instances.len(), |i: int| instances[i]@)
}

impl Instance {
    /// An instance of the class at `class`, without fields.
    pub fn new(class: usize) -> (instance: Self)
        ensures
            instance@ == (InstanceView { class, fields: Map::empty() }),
    {
        let instance = Instance { class, fields: Dict::new() };
        assert(instance@.fields =~= Map::<Seq<char>, LiteralView>::empty());
        instance
    }

    /// The field `name`, if the instance has it.
    pub fn field(&self, name: &Token) -> (value: Option<Literal>)
        ensures
            match value {
                Some(v) => self@.fields.contains_key(name.lexeme@) && self@.fields[name.lexeme@]
                    == v@,
                None => !self@.fields.contains_key(name.lexeme@),
            },
    {
        match self.fields.get(name.lexeme.as_str()) {
            Some(v) => Some(v.clone()),
            None => None,
        }
    }

    /// Sets the field `name`, making it where the instance had none.
    pub fn set(&mut self, name: &Token, value: Literal)
        ensures
            final(self)@ == (InstanceView {
                fields: old(self)@.fields.insert(name.lexeme@, value@),
                ..old(self)@
            }),
    {
        self.fields.insert(name.lexeme.clone(), value);
        assert(final(self)@.fields =~= old(self)@.fields.insert(name.lexeme@, value@));
    }
}

} // verus!
