use std::collections::HashMap;
use vstd::prelude::*;
use crate::dict::Dict;
use crate::text::join3;
use crate::token::{Literal, LiteralView, Token};
use crate::utils::Soo;

verus! {

broadcast use vstd::std_specs::hash::group_hash_axioms;

/// The scopes of a running program.
///
/// `frames` holds every scope that was ever pushed; a scope is never moved,
/// so its index names it for good, and closures that hold the same index
/// share the scope. `layers` is the stack of scopes in force, outermost
/// first, as indices into `frames`; its bottom is the global scope.
/// `scopes` is the resolver's stack of lexical scopes, and `locals` the
/// resolution table: expression identifier to scope distance.
#[derive(Debug)]
pub struct Environment {
    pub layers: Vec<usize>,
    pub frames: Vec<Dict<Literal>>,
    pub scopes: Vec<Dict<bool>>,
    pub locals: HashMap<usize, usize>,
}

/// What an `Environment` stands for.
pub struct EnvironmentView {
    pub layers: Seq<usize>,
    pub frames: Seq<Map<Seq<char>, LiteralView>>,
    pub scopes: Seq<Map<Seq<char>, bool>>,
    pub locals: Map<usize, usize>,
}

/// The bindings of one scope, each value by its view.
pub open spec fn frame_view(frame: Dict<Literal>) -> Map<Seq<char>, LiteralView> {
    frame@.map_values(|v: Literal| v@)
}

/// The text of the error for a name that is not bound.
pub open spec fn undefined_variable(name: Seq<char>) -> Seq<char> {
    "Undefined variable '"@ + name + "'."@
}

impl View for Environment {
    type V = EnvironmentView;

    open spec fn view(&self) -> EnvironmentView {
        EnvironmentView {
            layers: self.layers@,
            frames: Seq::new(self.frames@.len(), |i: int| frame_view(self.frames@[i])),
            scopes: Seq::new(self.scopes@.len(), |i: int| self.scopes@[i]@),
            locals: self.locals@,
        }
    }
}

/// Whether `layers` is a stack of scopes over `frames` scopes: not empty,
/// resting on the global scope, naming scopes that exist, and naming every
/// scope once, older scopes first.
pub open spec fn stack_ok(layers: Seq<usize>, frames: nat) -> bool {
    &&& layers.len() >= 1
    &&& layers[0] == 0
    &&& forall|i: int| 0 <= i < layers.len() ==> (#[trigger] layers[i]) < frames
    &&& forall|i: int, j: int|
        0 <= i < j < layers.len() ==> (#[trigger] layers[i]) < (#[trigger] layers[j])
}

impl EnvironmentView {
    /// The stack of scopes in force is a stack over the scopes that exist.
    pub open spec fn wf(self) -> bool {
        stack_ok(self.layers, self.frames.len())
    }

    /// The index of the scope that lies `distance` scopes out from the
    /// innermost one.
    pub open spec fn ancestor(self, distance: int) -> Option<usize> {
        if 0 <= distance < self.layers.len() && self.layers[self.layers.len() - 1 - distance]
            < self.frames.len() {
            Some(self.layers[self.layers.len() - 1 - distance])
        } else {
            None
        }
    }

    /// A fresh empty scope that is not on the stack.
    pub open spec fn push_frame(self) -> EnvironmentView {
        EnvironmentView { frames: self.frames.push(Map::empty()), ..self }
    }

    /// A fresh empty scope on top of the stack.
    pub open spec fn add_scope(self) -> EnvironmentView {
        EnvironmentView {
            layers: self.layers.push(self.frames.len() as usize),
            frames: self.frames.push(Map::empty()),
            ..self
        }
    }

    /// The stack without its innermost scope; the global scope stays.
    pub open spec fn del_scope(self) -> EnvironmentView {
        if self.layers.len() > 1 {
            EnvironmentView { layers: self.layers.drop_last(), ..self }
        } else {
            self
        }
    }

    /// `name` bound to `value` in scope number `frame`.
    pub open spec fn define_in(self, frame: usize, name: Seq<char>, value: LiteralView) -> EnvironmentView {
        if frame < self.frames.len() {
            EnvironmentView {
                frames: self.frames.update(
                    frame as int,
                    self.frames[frame as int].insert(name, value),
                ),
                ..self
            }
        } else {
            self
        }
    }

    /// `name` bound to `value` in the innermost scope.
    pub open spec fn define(self, name: Seq<char>, value: LiteralView) -> EnvironmentView {
        match self.ancestor(0) {
            Some(frame) => self.define_in(frame, name, value),
            None => self,
        }
    }

    /// What `name` is bound to in the scope `distance` scopes out.
    pub open spec fn get_at(self, distance: int, name: Seq<char>) -> Option<LiteralView> {
        match self.ancestor(distance) {
            Some(frame) => if self.frames[frame as int].contains_key(name) {
                Some(self.frames[frame as int][name])
            } else {
                None
            },
            None => None,
        }
    }

    /// `name` bound to `value` in the scope `distance` scopes out.
    pub open spec fn assign_at(self, distance: int, name: Seq<char>, value: LiteralView) -> EnvironmentView {
        match self.ancestor(distance) {
            Some(frame) => self.define_in(frame, name, value),
            None => self,
        }
    }

    /// Whether the global scope binds `name`.
    pub open spec fn has_global(self, name: Seq<char>) -> bool {
        self.frames.len() > 0 && self.frames[0].contains_key(name)
    }

    /// What the global scope binds `name` to.
    pub open spec fn get_global(self, name: Seq<char>) -> Option<LiteralView> {
        if self.has_global(name) {
            Some(self.frames[0][name])
        } else {
            None
        }
    }

    /// `name` rebound to `value` in the global scope, where it is bound there.
    pub open spec fn assign_global(self, name: Seq<char>, value: LiteralView) -> EnvironmentView {
        if self.has_global(name) {
            self.define_in(0, name, value)
        } else {
            self
        }
    }

    /// The distance of the innermost scope, from `distance` outwards, that
    /// binds `name`.
    pub open spec fn find_from(self, name: Seq<char>, distance: int) -> Option<int>
        decreases self.layers.len() - distance,
    {
        if distance < 0 || distance >= self.layers.len() {
            None
        } else if self.get_at(distance, name) is Some {
            Some(distance)
        } else {
            self.find_from(name, distance + 1)
        }
    }

    /// What `name` is bound to in the innermost scope that binds it.
    pub open spec fn get(self, name: Seq<char>) -> Option<LiteralView> {
        match self.find_from(name, 0) {
            Some(distance) => self.get_at(distance, name),
            None => None,
        }
    }

    /// `name` rebound to `value` in the innermost scope that binds it.
    pub open spec fn assign(self, name: Seq<char>, value: LiteralView) -> EnvironmentView {
        match self.find_from(name, 0) {
            Some(distance) => self.assign_at(distance, name, value),
            None => self,
        }
    }

    /// The table with the entry `id` to `depth`.
    pub open spec fn resolve(self, id: usize, depth: usize) -> EnvironmentView {
        EnvironmentView { locals: self.locals.insert(id, depth), ..self }
    }
}

proof fn lemma_frame_insert(frame: Map<Seq<char>, Literal>, name: Seq<char>, value: Literal)
    ensures
        frame.insert(name, value).map_values(|v: Literal| v@) == frame.map_values(
            |v: Literal| v@,
        ).insert(name, value@),
{
    assert(frame.insert(name, value).map_values(|v: Literal| v@) =~= frame.map_values(
        |v: Literal| v@,
    ).insert(name, value@));
}

impl Environment {
    /// An environment that holds the global scope alone, with nothing bound
    /// and nothing resolved.
    pub fn new() -> (env: Self)
        ensures
            env@.wf(),
            env@.layers == seq![0usize],
            env@.frames == seq![Map::<Seq<char>, LiteralView>::empty()],
            env@.scopes == Seq::<Map<Seq<char>, bool>>::empty(),
            env@.locals == Map::<usize, usize>::empty(),
    {
        let mut layers: Vec<usize> = Vec::new();
        layers.push(0);
        let mut frames: Vec<Dict<Literal>> = Vec::new();
        frames.push(Dict::new());
        let env = Environment { layers, frames, scopes: Vec::new(), locals: HashMap::new() };
        proof {
            assert(frame_view(env.frames@[0]) =~= Map::<Seq<char>, LiteralView>::empty());
            assert(env@.layers =~= seq![0usize]);
            assert(env@.frames =~= seq![Map::<Seq<char>, LiteralView>::empty()]);
            assert(env@.scopes =~= Seq::<Map<Seq<char>, bool>>::empty());
        }
        env
    }

    /// Pushes a fresh empty scope.
    pub fn add_scope(&mut self)
        ensures
            final(self)@ == old(self)@.add_scope(),
            old(self)@.wf() ==> final(self)@.wf(),
    {
        let index = self.frames.len();
        self.frames.push(Dict::new());
        self.layers.push(index);
        proof {
            assert(frame_view(self.frames@[index as int]) =~= Map::<Seq<char>, LiteralView>::empty());
            assert(final(self)@.frames =~= old(self)@.add_scope().frames);
            assert(final(self)@.scopes =~= old(self)@.scopes);
        }
    }

    /// Pops the innermost scope; the global scope is never popped.
    pub fn del_scope(&mut self)
        ensures
            final(self)@ == old(self)@.del_scope(),
            old(self)@.wf() ==> final(self)@.wf(),
    {
        if self.layers.len() > 1 {
            self.layers.pop();
        }
        proof {
            assert(final(self)@.frames =~= old(self)@.frames);
            assert(final(self)@.scopes =~= old(self)@.scopes);
        }
    }

    /// The index of the scope `distance` scopes out from the innermost one.
    pub fn ancestor(&self, distance: usize) -> (frame: Option<usize>)
        ensures
            frame == self@.ancestor(distance as int),
    {
        if distance < self.layers.len() {
            let frame = self.layers[self.layers.len() - 1 - distance];
            if frame < self.frames.len() {
                return Some(frame);
            }
        }
        None
    }

    /// A fresh empty scope that is not put on the stack; its index.
    pub fn push_frame(&mut self) -> (frame: usize)
        ensures
            final(self)@ == old(self)@.push_frame(),
            frame == old(self)@.frames.len(),
            old(self)@.wf() ==> final(self)@.wf(),
    {
        let frame = self.frames.len();
        self.frames.push(Dict::new());
        proof {
            assert(frame_view(self.frames@[frame as int]) =~= Map::<Seq<char>, LiteralView>::empty());
            assert(final(self)@.frames =~= old(self)@.push_frame().frames);
            assert(final(self)@.scopes =~= old(self)@.scopes);
        }
        frame
    }

    /// Binds `name` to `value` in scope number `frame`, where there is such
    /// a scope.
    pub fn define_in(&mut self, frame: usize, name: &str, value: Literal)
        ensures
            final(self)@ == old(self)@.define_in(frame, name@, value@),
            old(self)@.wf() ==> final(self)@.wf(),
    {
        if frame < self.frames.len() {
            let ghost before = self.frames@[frame as int]@;
            self.frames[frame].insert(String::from_str(name), value);
            proof {
                lemma_frame_insert(before, name@, value);
                assert(final(self)@.frames =~= old(self)@.define_in(frame, name@, value@).frames);
                assert(final(self)@.scopes =~= old(self)@.scopes);
            }
        }
    }

    /// Binds `name` to `value` in the innermost scope, over any earlier
    /// binding of the name there.
    pub fn define(&mut self, name: &str, value: Literal)
        ensures
            final(self)@ == old(self)@.define(name@, value@),
            old(self)@.wf() ==> final(self)@.wf(),
    {
        match self.ancestor(0) {
            Some(frame) => self.define_in(frame, name, value),
            None => {},
        }
    }

    /// Reads `name` in the scope `distance` scopes out.
    pub fn get_at(&self, distance: usize, name: &str) -> (value: Option<Literal>)
        ensures
            match value {
                Some(v) => self@.get_at(distance as int, name@) == Some(v@),
                None => self@.get_at(distance as int, name@) is None,
            },
    {
        match self.ancestor(distance) {
            Some(frame) => match self.frames[frame].get(name) {
                Some(v) => Some(v.clone()),
                None => None,
            },
            None => None,
        }
    }

    /// Binds `name` to `value` in the scope `distance` scopes out and hands
    /// the value back; fails where there is no such scope.
    pub fn assign_at(&mut self, distance: usize, name: &Token, value: Literal) -> (r: Result<
        Literal,
        (Token, Soo),
    >)
        ensures
            final(self)@ == old(self)@.assign_at(distance as int, name.lexeme@, value@),
            old(self)@.wf() ==> final(self)@.wf(),
            match r {
                Ok(v) => old(self)@.ancestor(distance as int) is Some && v == value,
                Err(e) => old(self)@.ancestor(distance as int) is None && e.0 == *name && e.1@
                    == undefined_variable(name.lexeme@),
            },
    {
        match self.ancestor(distance) {
            Some(frame) => {
                self.define_in(frame, name.lexeme.as_str(), value.clone());
                Ok(value)
            },
            None => Err(
                (
                    name.clone(),
                    Soo::Owned(join3("Undefined variable '", name.lexeme.as_str(), "'.")),
                ),
            ),
        }
    }

    /// Reads `name` in the global scope.
    pub fn get_global(&self, name: &str) -> (value: Option<Literal>)
        ensures
            match value {
                Some(v) => self@.get_global(name@) == Some(v@),
                None => self@.get_global(name@) is None,
            },
    {
        if self.frames.len() > 0 {
            match self.frames[0].get(name) {
                Some(v) => Some(v.clone()),
                None => None,
            }
        } else {
            None
        }
    }

    /// Rebinds `name` in the global scope and hands the value back; fails
    /// where the global scope does not bind the name.
    pub fn assign_global(&mut self, name: &Token, value: Literal) -> (r: Result<
        Literal,
        (Token, Soo),
    >)
        ensures
            final(self)@ == old(self)@.assign_global(name.lexeme@, value@),
            old(self)@.wf() ==> final(self)@.wf(),
            match r {
                Ok(v) => old(self)@.has_global(name.lexeme@) && v == value,
                Err(e) => !old(self)@.has_global(name.lexeme@) && e.0 == *name && e.1@
                    == undefined_variable(name.lexeme@),
            },
    {
        if self.frames.len() > 0 && self.frames[0].contains_key(name.lexeme.as_str()) {
            self.define_in(0, name.lexeme.as_str(), value.clone());
            Ok(value)
        } else {
            Err(
                (
                    name.clone(),
                    Soo::Owned(join3("Undefined variable '", name.lexeme.as_str(), "'.")),
                ),
            )
        }
    }

    /// The distance of the innermost scope that binds `name`.
    pub fn find(&self, name: &str) -> (distance: Option<usize>)
        ensures
            match distance {
                Some(d) => self@.find_from(name@, 0) == Some(d as int) && self@.get_at(
                    d as int,
                    name@,
                ) is Some,
                None => self@.find_from(name@, 0) is None,
            },
    {
        let mut distance: usize = 0;
        while distance < self.layers.len()
            invariant
                distance <= self.layers@.len(),
                self@.find_from(name@, 0) == self@.find_from(name@, distance as int),
            decreases self.layers@.len() - distance,
        {
            if self.get_at(distance, name).is_some() {
                return Some(distance);
            }
            distance += 1;
        }
        None
    }

    /// Reads `name` in the innermost scope that binds it.
    pub fn get(&self, name: &str) -> (value: Option<Literal>)
        ensures
            match value {
                Some(v) => self@.get(name@) == Some(v@),
                None => self@.get(name@) is None,
            },
    {
        match self.find(name) {
            Some(distance) => self.get_at(distance, name),
            None => None,
        }
    }

    /// Rebinds `name` in the innermost scope that binds it and hands the
    /// value back; fails where no scope binds the name.
    pub fn assign(&mut self, name: &Token, value: Literal) -> (r: Result<Literal, (Token, Soo)>)
        ensures
            final(self)@ == old(self)@.assign(name.lexeme@, value@),
            old(self)@.wf() ==> final(self)@.wf(),
            match r {
                Ok(v) => old(self)@.find_from(name.lexeme@, 0) is Some && v == value,
                Err(e) => old(self)@.find_from(name.lexeme@, 0) is None && e.0 == *name && e.1@
                    == undefined_variable(name.lexeme@),
            },
    {
        match self.find(name.lexeme.as_str()) {
            Some(distance) => self.assign_at(distance, name, value),
            None => Err(
                (
                    name.clone(),
                    Soo::Owned(join3("Undefined variable '", name.lexeme.as_str(), "'.")),
                ),
            ),
        }
    }
}

/// In a well-formed environment two different distances name two different
/// scopes.
pub proof fn distances_name_distinct_scopes(env: EnvironmentView, first: int, second: int)
    requires
        env.wf(),
        env.ancestor(first) is Some,
        env.ancestor(second) is Some,
        first != second,
    ensures
        env.ancestor(first) != env.ancestor(second),
{
    let n = env.layers.len() as int;
    if first < second {
        assert(env.layers[n - 1 - second] < env.layers[n - 1 - first]);
    } else {
        assert(env.layers[n - 1 - first] < env.layers[n - 1 - second]);
    }
}

/// A reference reads the binding it was resolved to, and an assignment
/// through a reference reaches that binding alone. `env` holds the stack
/// that the assignment is made in; `other` is any stack over the same
/// scopes, such as the captured stack of a closure. After the assignment to
/// `name` at distance `writer`, a read of `name` at distance `reader` in
/// `other` sees the new value where both distances name the same scope, and
/// what it saw before where they do not; a read of any other name sees what
/// it saw before.
pub proof fn assignment_reaches_its_binding(
    env: EnvironmentView,
    writer: int,
    name: Seq<char>,
    value: LiteralView,
    other: Seq<usize>,
    reader: int,
    read: Seq<char>,
)
    requires
        env.ancestor(writer) is Some,
    ensures
        ({
            let before = EnvironmentView { layers: other, ..env };
            let after = EnvironmentView { layers: other, ..env.assign_at(writer, name, value) };
            &&& after.ancestor(reader) == before.ancestor(reader)
            &&& (before.ancestor(reader) == env.ancestor(writer) && read == name ==> after.get_at(
                reader,
                read,
            ) == Some(value))
            &&& (before.ancestor(reader) != env.ancestor(writer) || read != name ==> after.get_at(
                reader,
                read,
            ) == before.get_at(reader, read))
        }),
{
}

/// In a well-formed environment an assignment at one distance is seen by a
/// read at the same distance and by no read at another: a binding that
/// shadows, or is shadowed by, the assigned one keeps its value.
pub proof fn assignment_spares_shadowing_bindings(
    env: EnvironmentView,
    writer: int,
    name: Seq<char>,
    value: LiteralView,
    reader: int,
)
    requires
        env.wf(),
        env.ancestor(writer) is Some,
    ensures
        env.assign_at(writer, name, value).wf(),
        env.assign_at(writer, name, value).get_at(writer, name) == Some(value),
        reader != writer ==> env.assign_at(writer, name, value).get_at(reader, name) == env.get_at(
            reader,
            name,
        ),
{
    assignment_reaches_its_binding(env, writer, name, value, env.layers, reader, name);
    assignment_reaches_its_binding(env, writer, name, value, env.layers, writer, name);
    if reader != writer && env.ancestor(reader) is Some {
        distances_name_distinct_scopes(env, writer, reader);
    }
}

} // verus!
