//! Lexical environments: an arena of scope frames addressed by integer
//! handles. A frame maps names to values and may name an enclosing frame,
//! which is always an older one. Frames live as long as the arena.
use vstd::prelude::*;
use crate::table::Table;
use crate::token::Token;
use crate::value::{ExprValue, RuntimeError, RuntimeErrorView, ValueView};

verus! {

/// One scope frame.
pub struct Scope<'a> {
    pub table: Table<ExprValue<'a>>,
    pub enclosing: Option<usize>,
}

/// The mathematical content of a frame.
pub struct ScopeView<'a> {
    pub bindings: Map<Seq<char>, ValueView<'a>>,
    pub enclosing: Option<usize>,
}

impl<'a> View for Scope<'a> {
    type V = ScopeView<'a>;

    open spec fn view(&self) -> ScopeView<'a> {
        ScopeView { bindings: self.table.model(), enclosing: self.enclosing }
    }
}

/// The frame of the chain that starts at `frame` which lies `distance`
/// links up, if the chain is that long.
pub open spec fn ancestor(frames: Seq<ScopeView>, frame: nat, distance: nat) -> Option<nat>
    decreases distance,
{
    if frame >= frames.len() {
        None
    } else if distance == 0 {
        Some(frame)
    } else {
        match frames[frame as int].enclosing {
            Some(parent) => ancestor(frames, parent as nat, (distance - 1) as nat),
            None => None,
        }
    }
}

/// The nearest frame of the chain that starts at `frame` which binds
/// `name`, if any does.
pub open spec fn holder(frames: Seq<ScopeView>, frame: nat, name: Seq<char>) -> Option<nat>
    decreases frame,
{
    if frame >= frames.len() {
        None
    } else if frames[frame as int].bindings.contains_key(name) {
        Some(frame)
    } else {
        match frames[frame as int].enclosing {
            Some(parent) => if parent < frame {
                holder(frames, parent as nat, name)
            } else {
                None
            },
            None => None,
        }
    }
}

/// The value that `name` has in the chain that starts at `frame`.
pub open spec fn lookup<'a>(frames: Seq<ScopeView<'a>>, frame: nat, name: Seq<char>) -> Option<
    ValueView<'a>,
> {
    match holder(frames, frame, name) {
        Some(found) => Some(frames[found as int].bindings[name]),
        None => None,
    }
}

/// The frames after `name` was given the value `value` in `frame`.
pub open spec fn bind<'a>(
    frames: Seq<ScopeView<'a>>,
    frame: nat,
    name: Seq<char>,
    value: ValueView<'a>,
) -> Seq<ScopeView<'a>> {
    frames.update(
        frame as int,
        ScopeView {
            bindings: frames[frame as int].bindings.insert(name, value),
            enclosing: frames[frame as int].enclosing,
        },
    )
}

/// The message for a variable that is read and not defined.
pub open spec fn undefined_variable(name: Seq<char>) -> Seq<char> {
    "Undefined variable '"@ + name + "'."@
}

/// The message for a variable that is assigned to and not defined.
pub open spec fn undefined_target(name: Seq<char>) -> Seq<char> {
    "Undefined variable '"@ + name + "'"@
}

/// The arena of scope frames. Frame 0 is the global frame.
pub struct Environment<'a> {
    pub frames: Vec<Scope<'a>>,
}

impl<'a> View for Environment<'a> {
    type V = Seq<ScopeView<'a>>;

    open spec fn view(&self) -> Seq<ScopeView<'a>> {
        Seq::new(self.frames@.len(), |i: int| self.frames@[i]@)
    }
}

impl<'a> Environment<'a> {
    /// There is a global frame, no frame binds a name twice, and every
    /// enclosing frame is older than the frame that names it.
    pub open spec fn wf(&self) -> bool {
        &&& self.frames.len() > 0
        &&& forall|i: int|
            0 <= i < self.frames.len() ==> (#[trigger] self.frames[i]).table.wf() && (
            self.frames[i].enclosing matches Some(parent) ==> parent < i)
    }

    /// In a well-formed arena every enclosing frame is older than the frame
    /// that names it.
    pub proof fn lemma_wf_is_ordered(&self)
        requires
            self.wf(),
        ensures
            ordered(self@),
    {
        assert forall|i: int| 0 <= i < self@.len() implies ((#[trigger] self@[i]).enclosing matches Some(
            parent,
        ) ==> parent < i) by {
            assert(self.frames[i].table.wf());
        }
    }

    /// An arena that holds the global frame only, with no binding.
    pub fn new() -> (r: Self)
        ensures
            r.wf(),
            r@ == seq![ScopeView { bindings: Map::empty(), enclosing: None }],
    {
        let mut frames: Vec<Scope<'a>> = Vec::new();
        frames.push(Scope { table: Table::new(), enclosing: None });
        let r = Environment { frames };
        assert(r@ =~= seq![ScopeView { bindings: Map::empty(), enclosing: None }]);
        r
    }

    /// The number of frames.
    pub fn len(&self) -> (r: usize)
        ensures
            r == self@.len(),
    {
        self.frames.len()
    }

    /// Adds an empty frame inside `enclosing` and returns its handle.
    pub fn with_enclosing(&mut self, enclosing: usize) -> (r: usize)
        requires
            old(self).wf(),
            enclosing < old(self)@.len(),
        ensures
            final(self).wf(),
            r == old(self)@.len(),
            final(self)@ == old(self)@.push(
                ScopeView { bindings: Map::empty(), enclosing: Some(enclosing) },
            ),
    {
        let r = self.frames.len();
        self.frames.push(Scope { table: Table::new(), enclosing: Some(enclosing) });
        assert(self@ =~= old(self)@.push(
            ScopeView { bindings: Map::empty(), enclosing: Some(enclosing) },
        ));
        r
    }

    /// Binds `name` to `value` in `frame` itself, whether or not the frame
    /// had the name. No other frame changes.
    pub fn define(&mut self, frame: usize, name: String, value: ExprValue<'a>)
        requires
            old(self).wf(),
            frame < old(self)@.len(),
        ensures
            final(self).wf(),
            final(self)@ == bind(old(self)@, frame as nat, name@, value@),
            final(self)@.len() == old(self)@.len(),
    {
        self.frames[frame].table.insert(name, value);
        assert(self@ =~= bind(old(self)@, frame as nat, name@, value@));
    }

    /// The handle of the frame that lies `distance` links up the chain
    /// from `frame`.
    pub fn ancestor(&self, frame: usize, distance: usize) -> (r: Option<usize>)
        requires
            self.wf(),
        ensures
            match r {
                Some(found) => found < self@.len() && ancestor(self@, frame as nat, distance as nat)
                    == Some(found as nat),
                None => ancestor(self@, frame as nat, distance as nat) is None,
            },
    {
        if frame >= self.frames.len() {
            return None;
        }
        let mut found = frame;
        let mut left = distance;
        while left > 0
            invariant
                self.wf(),
                found < self.frames.len(),
                ancestor(self@, found as nat, left as nat) == ancestor(
                    self@,
                    frame as nat,
                    distance as nat,
                ),
            decreases left,
        {
            match self.frames[found].enclosing {
                Some(parent) => {
                    found = parent;
                },
                None => {
                    return None;
                },
            }
            left = left - 1;
        }
        Some(found)
    }

    /// The handle of the nearest frame up the chain from `frame` that binds
    /// `name`.
    pub fn holder(&self, frame: usize, name: &String) -> (r: Option<usize>)
        requires
            self.wf(),
        ensures
            match r {
                Some(found) => found < self@.len() && holder(self@, frame as nat, name@) == Some(
                    found as nat,
                ) && self@[found as int].bindings.contains_key(name@),
                None => holder(self@, frame as nat, name@) is None,
            },
    {
        if frame >= self.frames.len() {
            return None;
        }
        let mut found = frame;
        loop
            invariant
                self.wf(),
                found < self.frames.len(),
                holder(self@, found as nat, name@) == holder(self@, frame as nat, name@),
            decreases found,
        {
            if self.frames[found].table.contains_key(name) {
                return Some(found);
            }
            match self.frames[found].enclosing {
                Some(parent) => {
                    found = parent;
                },
                None => {
                    return None;
                },
            }
        }
    }

    /// The value of the variable `name`: that of the nearest frame up the
    /// chain from `frame` that binds it. Where none does, the variable is
    /// undefined.
    pub fn get(&self, frame: usize, name: &Token) -> (r: Result<ExprValue<'a>, RuntimeError<'a>>)
        requires
            self.wf(),
        ensures
            match lookup(self@, frame as nat, name.lexeme@) {
                Some(value) => r is Ok && r->Ok_0@ == value,
                None => r is Err && r->Err_0@ == (RuntimeErrorView::RTE {
                    token: name.lexeme@,
                    message: undefined_variable(name.lexeme@),
                    line: name.line,
                }),
            },
    {
        match self.holder(frame, &name.lexeme) {
            Some(found) => {
                match self.frames[found].table.get(&name.lexeme) {
                    Some(value) => Ok(value.clone()),
                    None => vstd::pervasive::unreached(),
                }
            },
            None => {
                let mut message = String::from_str("Undefined variable '");
                message.append(name.lexeme.as_str());
                message.append("'.");
                Err(RuntimeError::at(name, message))
            },
        }
    }

    /// The value that `name` has in the frame `distance` links up the chain
    /// from `frame`; nothing where there is no such frame or it does not
    /// bind the name.
    pub fn get_at(&self, frame: usize, distance: usize, name: &Token) -> (r: Option<ExprValue<'a>>)
        requires
            self.wf(),
        ensures
            match ancestor(self@, frame as nat, distance as nat) {
                Some(found) => if self@[found as int].bindings.contains_key(name.lexeme@) {
                    r is Some && r->0@ == self@[found as int].bindings[name.lexeme@]
                } else {
                    r is None
                },
                None => r is None,
            },
    {
        match self.ancestor(frame, distance) {
            Some(found) => match self.frames[found].table.get(&name.lexeme) {
                Some(value) => Some(value.clone()),
                None => None,
            },
            None => None,
        }
    }

    /// Gives the variable `name` the value `value` in the nearest frame up
    /// the chain from `frame` that binds it. Assignment never creates a
    /// binding: where no frame binds the name, nothing changes and the
    /// variable is reported as undefined.
    pub fn assign(&mut self, frame: usize, name: &Token, value: ExprValue<'a>) -> (r: Result<
        (),
        RuntimeError<'a>,
    >)
        requires
            old(self).wf(),
        ensures
            final(self).wf(),
            final(self)@.len() == old(self)@.len(),
            match holder(old(self)@, frame as nat, name.lexeme@) {
                Some(found) => r is Ok && final(self)@ == bind(old(self)@, found, name.lexeme@, value@),
                None => final(self)@ == old(self)@ && r is Err && r->Err_0@ == (RuntimeErrorView::RTE {
                    token: name.lexeme@,
                    message: undefined_target(name.lexeme@),
                    line: name.line,
                }),
            },
    {
        match self.holder(frame, &name.lexeme) {
            Some(found) => {
                self.define(found, name.lexeme.clone(), value);
                Ok(())
            },
            None => {
                let mut message = String::from_str("Undefined variable '");
                message.append(name.lexeme.as_str());
                message.append("'");
                Err(RuntimeError::at(name, message))
            },
        }
    }

    /// Binds `name` to `value` in the frame `distance` links up the chain
    /// from `frame`, and says whether there is such a frame. Where there is
    /// none, nothing changes.
    pub fn assign_at(&mut self, frame: usize, distance: usize, name: &Token, value: ExprValue<'a>) -> (r:
        bool)
        requires
            old(self).wf(),
        ensures
            final(self).wf(),
            final(self)@.len() == old(self)@.len(),
            match ancestor(old(self)@, frame as nat, distance as nat) {
                Some(found) => r && final(self)@ == bind(old(self)@, found, name.lexeme@, value@),
                None => !r && final(self)@ == old(self)@,
            },
    {
        match self.ancestor(frame, distance) {
            Some(found) => {
                self.define(found, name.lexeme.clone(), value);
                true
            },
            None => false,
        }
    }
}

/// Every enclosing frame is older than the frame that names it.
pub open spec fn ordered(frames: Seq<ScopeView>) -> bool {
    forall|i: int|
        0 <= i < frames.len() ==> ((#[trigger] frames[i]).enclosing matches Some(parent) ==> parent < i)
}

/// A declaration is visible in its own frame: after `name` is bound to
/// `value` in a frame, the chain from that frame yields `value` for it.
pub proof fn law_declaration_is_visible<'a>(
    frames: Seq<ScopeView<'a>>,
    frame: nat,
    name: Seq<char>,
    value: ValueView<'a>,
)
    requires
        frame < frames.len(),
    ensures
        lookup(bind(frames, frame, name, value), frame, name) == Some(value),
{
}

/// A declaration in an inner scope never touches an outer binding: after
/// any name is bound in a frame, every older frame, and so every frame
/// that encloses it, yields for every name what it yielded before.
pub proof fn law_declaration_leaves_outer_frames<'a>(
    frames: Seq<ScopeView<'a>>,
    inner: nat,
    name: Seq<char>,
    value: ValueView<'a>,
    outer: nat,
    other: Seq<char>,
)
    requires
        ordered(frames),
        inner < frames.len(),
        outer < inner,
    ensures
        holder(bind(frames, inner, name, value), outer, other) == holder(frames, outer, other),
        lookup(bind(frames, inner, name, value), outer, other) == lookup(frames, outer, other),
    decreases outer,
{
    let after = bind(frames, inner, name, value);
    assert(after[outer as int] == frames[outer as int]);
    if !frames[outer as int].bindings.contains_key(other) {
        match frames[outer as int].enclosing {
            Some(parent) => {
                if parent < outer {
                    law_declaration_leaves_outer_frames(frames, inner, name, value, parent as nat, other);
                }
            },
            None => {},
        }
    }
    lemma_holder_in_range(frames, outer, other);
}

/// The frame that lies some links up a chain is one of the frames.
pub proof fn lemma_ancestor_in_range(frames: Seq<ScopeView>, frame: nat, distance: nat)
    ensures
        ancestor(frames, frame, distance) matches Some(found) ==> found < frames.len(),
    decreases distance,
{
    if frame < frames.len() && distance > 0 {
        match frames[frame as int].enclosing {
            Some(parent) => {
                lemma_ancestor_in_range(frames, parent as nat, (distance - 1) as nat);
            },
            None => {},
        }
    }
}

/// The frame that holds a name is one of the frames, and binds the name.
pub proof fn lemma_holder_in_range(frames: Seq<ScopeView>, frame: nat, name: Seq<char>)
    ensures
        holder(frames, frame, name) matches Some(found) ==> found < frames.len() && found <= frame
            && frames[found as int].bindings.contains_key(name),
    decreases frame,
{
    if frame < frames.len() && !frames[frame as int].bindings.contains_key(name) {
        match frames[frame as int].enclosing {
            Some(parent) => {
                if parent < frame {
                    lemma_holder_in_range(frames, parent as nat, name);
                }
            },
            None => {},
        }
    }
}

/// Giving a new value to a name in a frame that binds it leaves every
/// chain's holder of every name where it was.
pub proof fn lemma_rebinding_keeps_holders<'a>(
    frames: Seq<ScopeView<'a>>,
    found: nat,
    name: Seq<char>,
    value: ValueView<'a>,
    from: nat,
    other: Seq<char>,
)
    requires
        found < frames.len(),
        frames[found as int].bindings.contains_key(name),
    ensures
        holder(bind(frames, found, name, value), from, other) == holder(frames, from, other),
    decreases from,
{
    let after = bind(frames, found, name, value);
    if from < frames.len() {
        assert(after[from as int].enclosing == frames[from as int].enclosing);
        assert(after[from as int].bindings.contains_key(other) == frames[from as int].bindings.contains_key(
            other,
        ));
        if !frames[from as int].bindings.contains_key(other) {
            match frames[from as int].enclosing {
                Some(parent) => {
                    if parent < from {
                        lemma_rebinding_keeps_holders(frames, found, name, value, parent as nat, other);
                    }
                },
                None => {},
            }
        }
    }
}

/// Closures over one frame share it: after an assignment through one chain
/// to a variable, every chain that finds the variable in the same frame
/// yields the new value.
pub proof fn law_assignment_is_shared<'a>(
    frames: Seq<ScopeView<'a>>,
    writer: nat,
    reader: nat,
    name: Seq<char>,
    value: ValueView<'a>,
)
    requires
        holder(frames, writer, name) is Some,
        holder(frames, reader, name) == holder(frames, writer, name),
    ensures
        lookup(bind(frames, holder(frames, writer, name)->0, name, value), reader, name) == Some(value),
{
    let found = holder(frames, writer, name)->0;
    lemma_holder_in_range(frames, writer, name);
    lemma_rebinding_keeps_holders(frames, found, name, value, reader, name);
}

/// Closures over different frames do not share: after an assignment
/// through one chain to a variable, a chain that finds the variable in
/// another frame yields what it yielded before.
pub proof fn law_assignment_is_not_shared_across_frames<'a>(
    frames: Seq<ScopeView<'a>>,
    writer: nat,
    reader: nat,
    name: Seq<char>,
    value: ValueView<'a>,
)
    requires
        holder(frames, writer, name) is Some,
        holder(frames, reader, name) != holder(frames, writer, name),
    ensures
        lookup(bind(frames, holder(frames, writer, name)->0, name, value), reader, name) == lookup(
            frames,
            reader,
            name,
        ),
{
    let found = holder(frames, writer, name)->0;
    lemma_holder_in_range(frames, writer, name);
    lemma_holder_in_range(frames, reader, name);
    lemma_rebinding_keeps_holders(frames, found, name, value, reader, name);
}

} // verus!
