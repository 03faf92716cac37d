//! Pending control-flow constructs: what the compiler remembers between an
//! opening keyword and the keyword that closes it.

use vstd::prelude::*;

verus! {

/// A pending construct, as the contracts see it. Positions are indices into
/// the code emitted so far.
pub enum Frame {
    /// `IF`, with the position of its placeholder `LDI`, and that of the
    /// placeholder emitted by `ELSE` once it has been seen.
    If { if_pos: int, else_pos: Option<int> },
    /// `DO`, with the position of its `PUSHLP`, the first position of the
    /// body, and the placeholders of the `LEAVE`s seen so far.
    DoLoop { prelude_pos: int, body_start: int, exits: Seq<int> },
    /// `BEGIN`, with the first position of the body and the placeholders of
    /// the `LEAVE`s and `WHILE`s seen so far.
    BeginLoop { body_start: int, exits: Seq<int> },
}

impl Frame {
    pub open spec fn is_loop(self) -> bool {
        !(self is If)
    }

    /// The placeholders that the closing keyword of a loop has to patch.
    pub open spec fn exits(self) -> Seq<int> {
        match self {
            Frame::If { .. } => Seq::empty(),
            Frame::DoLoop { exits, .. } => exits,
            Frame::BeginLoop { exits, .. } => exits,
        }
    }

    /// Whether `pos` is a placeholder that the construct has yet to patch.
    pub open spec fn records(self, pos: int) -> bool {
        match self {
            Frame::If { if_pos, else_pos } => pos == if_pos || else_pos == Some(pos),
            Frame::DoLoop { exits, .. } => exits.contains(pos),
            Frame::BeginLoop { exits, .. } => exits.contains(pos),
        }
    }

    /// The same frame with one more exit recorded; an `If` frame has none.
    pub open spec fn with_exit(self, pos: int) -> Frame {
        match self {
            Frame::If { .. } => self,
            Frame::DoLoop { prelude_pos, body_start, exits } => Frame::DoLoop {
                prelude_pos,
                body_start,
                exits: exits.push(pos),
            },
            Frame::BeginLoop { body_start, exits } => Frame::BeginLoop {
                body_start,
                exits: exits.push(pos),
            },
        }
    }
}

/// The bookkeeping of one open `IF`.
#[derive(Debug)]
pub struct DeferredIfStatement {
    pub if_location: usize,
    pub else_location: Option<usize>,
}

impl DeferredIfStatement {
    pub fn new(if_location: usize) -> (statement: DeferredIfStatement)
        ensures
            statement.if_location == if_location,
            statement.else_location is None,
    {
        DeferredIfStatement { if_location, else_location: None }
    }
}

/// The bookkeeping of one open `DO`.
#[derive(Debug)]
pub struct DeferredDoLoopStatement {
    pub prelude_start: usize,
    pub logical_start: usize,
}

impl DeferredDoLoopStatement {
    pub fn new(prelude_start: usize, logical_start: usize) -> (statement: DeferredDoLoopStatement)
        ensures
            statement.prelude_start == prelude_start,
            statement.logical_start == logical_start,
    {
        DeferredDoLoopStatement { prelude_start, logical_start }
    }
}

/// The bookkeeping of one open `BEGIN`.
#[derive(Debug)]
pub struct DeferredBeginLoopStatement {
    pub logical_start: usize,
}

impl DeferredBeginLoopStatement {
    pub fn new(logical_start: usize) -> (statement: DeferredBeginLoopStatement)
        ensures
            statement.logical_start == logical_start,
    {
        DeferredBeginLoopStatement { logical_start }
    }
}

/// The placeholders of one loop that wait for the loop's end.
#[derive(Debug)]
pub struct LoopExits {
    pub loop_exit_locations: Vec<usize>,
}

impl View for LoopExits {
    type V = Seq<int>;

    open spec fn view(&self) -> Seq<int> {
        self.loop_exit_locations@.map_values(|pos: usize| pos as int)
    }
}

impl LoopExits {
    pub fn new() -> (exits: LoopExits)
        ensures
            exits@ == Seq::<int>::empty(),
    {
        LoopExits { loop_exit_locations: Vec::new() }
    }

    pub fn add_exit_point(&mut self, loop_exit_location: usize)
        ensures
            final(self)@ == old(self)@.push(loop_exit_location as int),
    {
        self.loop_exit_locations.push(loop_exit_location);
    }
}

/// One entry of the stack of pending constructs.
#[derive(Debug)]
pub enum DeferredStatement {
    If(DeferredIfStatement),
    DoLoop(DeferredDoLoopStatement, LoopExits),
    BeginLoop(DeferredBeginLoopStatement, LoopExits),
}

impl View for DeferredStatement {
    type V = Frame;

    open spec fn view(&self) -> Frame {
        match self {
            DeferredStatement::If(statement) => Frame::If {
                if_pos: statement.if_location as int,
                else_pos: match statement.else_location {
                    Some(pos) => Some(pos as int),
                    None => None,
                },
            },
            DeferredStatement::DoLoop(statement, exits) => Frame::DoLoop {
                prelude_pos: statement.prelude_start as int,
                body_start: statement.logical_start as int,
                exits: exits@,
            },
            DeferredStatement::BeginLoop(statement, exits) => Frame::BeginLoop {
                body_start: statement.logical_start as int,
                exits: exits@,
            },
        }
    }
}

impl DeepView for DeferredStatement {
    type V = Frame;

    open spec fn deep_view(&self) -> Frame {
        self@
    }
}

} // verus!
