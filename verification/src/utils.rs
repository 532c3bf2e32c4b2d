use vstd::prelude::*;

verus! {

/// A message: either a string literal or an owned string.
#[derive(Debug)]
pub enum Soo {
    Static(&'static str),
    Owned(String),
}

impl View for Soo {
    type V = Seq<char>;

    open spec fn view(&self) -> Seq<char> {
        match self {
            Soo::Static(s) => s@,
            Soo::Owned(s) => s@,
        }
    }
}

impl Soo {
    /// The message as an owned string.
    pub fn to_string(&self) -> (s: String)
        ensures
            s@ == self@,
    {
        match self {
            Soo::Static(s) => String::from_str(s),
            Soo::Owned(s) => s.clone(),
        }
    }
}

impl Clone for Soo {
    fn clone(&self) -> (r: Self)
        ensures
            r == *self,
    {
        match self {
            Soo::Static(s) => Soo::Static(s),
            Soo::Owned(s) => Soo::Owned(s.clone()),
        }
    }
}

impl From<&'static str> for Soo {
    fn from(item: &'static str) -> (r: Soo) {
        Soo::Static(item)
    }
}

impl vstd::std_specs::convert::FromSpecImpl<&'static str> for Soo {
    open spec fn obeys_from_spec() -> bool {
        true
    }

    open spec fn from_spec(item: &'static str) -> Soo {
        Soo::Static(item)
    }
}

impl From<String> for Soo {
    fn from(item: String) -> (r: Soo) {
        Soo::Owned(item)
    }
}

impl vstd::std_specs::convert::FromSpecImpl<String> for Soo {
    open spec fn obeys_from_spec() -> bool {
        true
    }

    open spec fn from_spec(item: String) -> Soo {
        Soo::Owned(item)
    }
}

/// The source of expression identifiers: a counter that hands out each
/// number once, in increasing order.
#[derive(Debug)]
pub struct ExprId(pub usize);

impl View for ExprId {
    type V = usize;

    open spec fn view(&self) -> usize {
        self.0
    }
}

impl ExprId {
    /// A counter whose first identifier is 0.
    pub fn new() -> (r: Self)
        ensures
            r@ == 0,
    {
        ExprId(0)
    }

    /// Hands out the next identifier and moves the counter past it.
    pub fn next(&mut self) -> (id: usize)
        requires
            old(self)@ < usize::MAX,
        ensures
            id == old(self)@,
            final(self)@ == old(self)@ + 1,
    {
        let id = self.0;
        self.0 += 1;
        id
    }
}

} // verus!
