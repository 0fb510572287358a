//! The walk of the turtle over the expanded string: which operation is
//! carried out next, which symbols are passed over, and what is saved and
//! brought back. The arithmetic of the drawing is not done here: whoever
//! carries an operation out tells the walk what came of it.
//!
//! The walk is made for any kind of pose `P` and of variable value `V`; it
//! keeps them and hands them back, and never looks into them.

use crate::renderer::{binding_index, binding_views, operations_of, Operation, OperationView};
use vstd::prelude::*;

verus! {

/// What was saved at one point of the walk: the pose of the turtle and the
/// value of each variable that is followed, in the order in which the
/// variables were declared.
#[derive(Debug, PartialEq)]
pub struct Frame<P, V> {
    pub pose: P,
    pub values: Vec<V>,
}

/// What the walk asks for next.
#[derive(Debug, PartialEq, Eq, Clone, Copy, Structural)]
pub enum Step {
    /// Carry out an operation: the one at place `operation` in the list of
    /// the binding at place `binding`, for the symbol at position `index`
    /// of the string.
    Dispatch { index: usize, binding: usize, operation: usize },
    /// The string has been walked to its end.
    Finished,
}

/// The state of a walk.
#[derive(Debug, PartialEq)]
pub struct Walk<P, V> {
    /// The position of the symbol that is looked at.
    pub position: usize,
    /// How many operations of that symbol have been handed out.
    pub operation: usize,
    /// How many symbols are still to be passed over.
    pub skip: u32,
    /// How many variables are followed.
    pub variables: usize,
    /// What has been saved and not yet brought back, the latest last.
    pub frames: Vec<Frame<P, V>>,
}

/// The operation that is due from a state of the walk: its position and its
/// place in the list of its symbol, with what is left to pass over then; or
/// `None` where the walk is at its end. A symbol that is reached while
/// symbols are to be passed over is left out with all its operations; one
/// whose operations have begun is not.
pub open spec fn due(
    symbols: Seq<char>,
    bindings: Seq<(char, Seq<OperationView>)>,
    position: int,
    operation: int,
    skip: int,
) -> Option<(int, int, int)>
    decreases symbols.len() - position,
{
    if position < 0 || position >= symbols.len() {
        None
    } else if operation == 0 && skip > 0 {
        due(symbols, bindings, position + 1, 0, skip - 1)
    } else if 0 <= operation < operations_of(bindings, symbols[position]).len() {
        Some((position, operation, skip))
    } else {
        due(symbols, bindings, position + 1, 0, skip)
    }
}

/// The values that the variable at place `k` has in the frames, the latest
/// last: the stack by which the variable is shadowed.
pub open spec fn shadow_stack<P, V>(frames: Seq<Frame<P, V>>, k: int) -> Seq<V> {
    Seq::new(frames.len(), |i: int| frames[i].values@[k])
}

/// The poses in the frames, the latest last.
pub open spec fn pose_stack<P, V>(frames: Seq<Frame<P, V>>) -> Seq<P> {
    Seq::new(frames.len(), |i: int| frames[i].pose)
}

impl<P, V> Walk<P, V> {
    /// Each frame holds a value for each variable that is followed.
    pub open spec fn wf(&self) -> bool {
        forall|i: int|
            0 <= i < self.frames@.len() ==> (#[trigger] self.frames@[i]).values@.len()
                == self.variables
    }

    /// How deep the walk is in saved states: the number of frames.
    pub open spec fn spec_depth(&self) -> nat {
        self.frames@.len()
    }

    /// A walk at the beginning of a string, with nothing saved.
    pub fn new(variables: usize) -> (walk: Self)
        ensures
            walk.wf(),
            walk.position == 0,
            walk.operation == 0,
            walk.skip == 0,
            walk.variables == variables,
            walk.frames@.len() == 0,
    {
        Walk { position: 0, operation: 0, skip: 0, variables, frames: Vec::new() }
    }

    /// The number of states that are saved and not yet brought back.
    pub fn depth(&self) -> (depth: usize)
        ensures
            depth == self.spec_depth(),
    {
        self.frames.len()
    }

    /// Tells which operation is due, and moves the walk past it.
    pub fn next(&mut self, symbols: &[char], bindings: &Vec<(char, Vec<Operation>)>) -> (step: Step)
        ensures
            final(self).frames == old(self).frames,
            final(self).variables == old(self).variables,
            match step {
                Step::Dispatch { index, binding, operation } => {
                    &&& due(
                        symbols@,
                        binding_views(bindings@),
                        old(self).position as int,
                        old(self).operation as int,
                        old(self).skip as int,
                    ) == Some((index as int, operation as int, final(self).skip as int))
                    &&& index < symbols@.len()
                    &&& binding == binding_index(binding_views(bindings@), symbols@[index as int])
                    &&& binding < bindings@.len()
                    &&& operation < bindings@[binding as int].1@.len()
                    &&& final(self).position == index
                    &&& final(self).operation == operation + 1
                },
                Step::Finished => {
                    &&& due(
                        symbols@,
                        binding_views(bindings@),
                        old(self).position as int,
                        old(self).operation as int,
                        old(self).skip as int,
                    ) is None
                    &&& final(self).position == symbols@.len()
                    &&& final(self).operation == 0
                },
            },
    {
        let ghost views = binding_views(bindings@);
        if self.position >= symbols.len() {
            self.position = symbols.len();
            self.operation = 0;
        }
        while self.position < symbols.len()
            invariant
                self.position <= symbols@.len(),
                self.frames == old(self).frames,
                self.variables == old(self).variables,
                views == binding_views(bindings@),
                self.position == symbols@.len() ==> self.operation == 0,
                due(
                    symbols@,
                    views,
                    old(self).position as int,
                    old(self).operation as int,
                    old(self).skip as int,
                ) == due(
                    symbols@,
                    views,
                    self.position as int,
                    self.operation as int,
                    self.skip as int,
                ),
            decreases symbols@.len() - self.position,
        {
            if self.operation == 0 && self.skip > 0 {
                self.skip = self.skip - 1;
                self.position = self.position + 1;
            } else {
                let binding = find_binding(bindings, symbols[self.position]);
                let count = if binding < bindings.len() {
                    bindings[binding].1.len()
                } else {
                    0
                };
                if self.operation < count {
                    let step = Step::Dispatch {
                        index: self.position,
                        binding,
                        operation: self.operation,
                    };
                    self.operation = self.operation + 1;
                    return step;
                }
                self.position = self.position + 1;
                self.operation = 0;
            }
        }
        Step::Finished
    }

    /// Sets the number of symbols that are passed over after the one whose
    /// operations are being carried out. The number takes the place of what
    /// was left of an earlier one.
    pub fn set_skip(&mut self, count: u32)
        ensures
            *final(self) == (Walk { skip: count, ..*old(self) }),
    {
        self.skip = count;
    }

    /// Saves a pose and the values of the variables.
    pub fn push(&mut self, pose: P, values: Vec<V>)
        requires
            old(self).wf(),
            values@.len() == old(self).variables,
        ensures
            final(self).wf(),
            final(self).frames@ == frames_after(
                old(self).frames@,
                StackOp::Push(Frame { pose, values }),
            ),
            final(self).spec_depth() == old(self).spec_depth() + 1,
            final(self).position == old(self).position,
            final(self).operation == old(self).operation,
            final(self).skip == old(self).skip,
            final(self).variables == old(self).variables,
    {
        self.frames.push(Frame { pose, values });
    }

    /// Brings back what was saved last, and hands it out. Where nothing is
    /// saved, nothing changes and nothing is handed out.
    pub fn pop(&mut self) -> (frame: Option<Frame<P, V>>)
        requires
            old(self).wf(),
        ensures
            final(self).wf(),
            final(self).frames@ == frames_after(old(self).frames@, StackOp::Pop),
            final(self).position == old(self).position,
            final(self).operation == old(self).operation,
            final(self).skip == old(self).skip,
            final(self).variables == old(self).variables,
            match frame {
                Some(saved) => {
                    &&& old(self).frames@.len() > 0
                    &&& saved == old(self).frames@.last()
                    &&& saved.values@.len() == old(self).variables
                    &&& final(self).frames@ == old(self).frames@.drop_last()
                },
                None => old(self).frames@.len() == 0 && final(self).frames@ == old(self).frames@,
            },
    {
        self.frames.pop()
    }
}

/// Finds the binding of `symbol`: its place in the list, or the length of
/// the list where the symbol is not bound.
pub fn find_binding(bindings: &Vec<(char, Vec<Operation>)>, symbol: char) -> (at: usize)
    ensures
        at == binding_index(binding_views(bindings@), symbol),
        at <= bindings@.len(),
        at < bindings@.len() ==> operations_of(binding_views(bindings@), symbol).len()
            == bindings@[at as int].1@.len(),
        at == bindings@.len() ==> operations_of(binding_views(bindings@), symbol).len() == 0,
{
    let ghost views = binding_views(bindings@);
    let mut i: usize = 0;
    proof {
        assert(views.skip(0) =~= views);
    }
    while i < bindings.len() && bindings[i].0 != symbol
        invariant
            i <= bindings.len(),
            views == binding_views(bindings@),
            binding_index(views, symbol) == i + binding_index(views.skip(i as int), symbol),
        decreases bindings.len() - i,
    {
        proof {
            assert(views.skip(i as int).drop_first() =~= views.skip(i + 1));
            assert(views.skip(i as int)[0] == views[i as int]);
        }
        i += 1;
    }
    proof {
        if i < bindings.len() {
            assert(views.skip(i as int)[0] == views[i as int]);
        }
    }
    i
}

/// What is done to the saved states.
pub ghost enum StackOp<P, V> {
    /// Save a frame.
    Push(Frame<P, V>),
    /// Bring the last frame back.
    Pop,
}

/// The frames after one operation: a frame more, or the last one less; and
/// the same frames where there is none to bring back.
pub open spec fn frames_after<P, V>(frames: Seq<Frame<P, V>>, op: StackOp<P, V>) -> Seq<
    Frame<P, V>,
> {
    match op {
        StackOp::Push(frame) => frames.push(frame),
        StackOp::Pop => if frames.len() > 0 {
            frames.drop_last()
        } else {
            frames
        },
    }
}

/// The frames after a run of operations.
pub open spec fn frames_after_all<P, V>(frames: Seq<Frame<P, V>>, ops: Seq<StackOp<P, V>>) -> Seq<
    Frame<P, V>,
>
    decreases ops.len(),
{
    if ops.len() == 0 {
        frames
    } else {
        frames_after(frames_after_all(frames, ops.drop_last()), ops.last())
    }
}

/// Each frame holds `variables` values.
pub open spec fn is_level<P, V>(frames: Seq<Frame<P, V>>, variables: int) -> bool {
    forall|i: int| 0 <= i < frames.len() ==> (#[trigger] frames[i]).values@.len() == variables
}

/// Each operation that saves brings a value for each variable.
pub open spec fn saves_all<P, V>(ops: Seq<StackOp<P, V>>, variables: int) -> bool {
    forall|i: int|
        0 <= i < ops.len() ==> ((#[trigger] ops[i]) matches StackOp::Push(frame)
            ==> frame.values@.len() == variables)
}

/// Saved states stay in balance: after any run of savings and bringings
/// back, and so after each operation of the run, the stack of poses and the
/// stack of every variable are of one depth. Bringing back where nothing is
/// saved changes nothing.
pub proof fn lemma_stacks_stay_level<P, V>(
    frames: Seq<Frame<P, V>>,
    ops: Seq<StackOp<P, V>>,
    variables: int,
)
    requires
        is_level(frames, variables),
        saves_all(ops, variables),
    ensures
        is_level(frames_after_all(frames, ops), variables),
        forall|k: int|
            0 <= k < variables ==> (#[trigger] shadow_stack(frames_after_all(frames, ops), k)).len()
                == pose_stack(frames_after_all(frames, ops)).len(),
        frames.len() == 0 ==> frames_after(frames, StackOp::Pop) == frames,
    decreases ops.len(),
{
    if ops.len() > 0 {
        let before = frames_after_all(frames, ops.drop_last());
        assert forall|i: int| 0 <= i < ops.drop_last().len() implies ((
        #[trigger] ops.drop_last()[i]) matches StackOp::Push(frame) ==> frame.values@.len()
            == variables) by {
            assert(ops.drop_last()[i] == ops[i]);
        }
        lemma_stacks_stay_level(frames, ops.drop_last(), variables);
        let after = frames_after(before, ops.last());
        assert forall|i: int| 0 <= i < after.len() implies (#[trigger] after[i]).values@.len()
            == variables by {
            match ops.last() {
                StackOp::Push(frame) => {
                    assert(ops[ops.len() - 1] == ops.last());
                    if i < before.len() {
                        assert(after[i] == before[i]);
                    }
                },
                StackOp::Pop => {
                    assert(after[i] == before[i]);
                },
            }
        }
    }
}

/// Symbols that are to be passed over are passed over: from the beginning of
/// a symbol with `skip` symbols to leave out, the walk goes on as from the
/// symbol that lies `skip` further, and ends where the string ends before.
pub proof fn lemma_due_after_skip(
    symbols: Seq<char>,
    bindings: Seq<(char, Seq<OperationView>)>,
    position: int,
    skip: int,
)
    requires
        0 <= position,
        0 <= skip,
    ensures
        due(symbols, bindings, position, 0, skip) == if position + skip < symbols.len() {
            due(symbols, bindings, position + skip, 0, 0)
        } else {
            None
        },
    decreases skip,
{
    if position < symbols.len() && skip > 0 {
        lemma_due_after_skip(symbols, bindings, position + 1, skip - 1);
    }
}

/// The operation that is due belongs to a symbol at or after the position
/// of the walk, and is one of the operations of that symbol.
pub proof fn lemma_due_is_ahead(
    symbols: Seq<char>,
    bindings: Seq<(char, Seq<OperationView>)>,
    position: int,
    operation: int,
    skip: int,
)
    ensures
        due(symbols, bindings, position, operation, skip) matches Some(found) ==> position
            <= found.0 < symbols.len() && 0 <= found.1 < operations_of(
            bindings,
            symbols[found.0],
        ).len() && (found.0 == position ==> found.1 == operation),
    decreases symbols.len() - position,
{
    if position < 0 || position >= symbols.len() {
    } else if operation == 0 && skip > 0 {
        lemma_due_is_ahead(symbols, bindings, position + 1, 0, skip - 1);
    } else if 0 <= operation < operations_of(bindings, symbols[position]).len() {
    } else {
        lemma_due_is_ahead(symbols, bindings, position + 1, 0, skip);
    }
}

/// Passing over: when an operation of the symbol at `index` has set `count`
/// symbols to be passed over, the operation that is due next belongs to the
/// same symbol or to one that lies more than `count` symbols further. No
/// operation of the `count` symbols after `index` is carried out, whatever
/// is bound to them.
pub proof fn lemma_skip_passes_over(
    symbols: Seq<char>,
    bindings: Seq<(char, Seq<OperationView>)>,
    index: int,
    done: int,
    count: int,
)
    requires
        0 <= index < symbols.len(),
        done >= 1,
        count >= 0,
    ensures
        due(symbols, bindings, index, done, count) matches Some(found) ==> found.0 == index
            || found.0 > index + count,
{
    if 0 <= done < operations_of(bindings, symbols[index]).len() {
    } else {
        lemma_due_after_skip(symbols, bindings, index + 1, count);
        if index + 1 + count < symbols.len() {
            lemma_due_is_ahead(symbols, bindings, index + 1 + count, 0, 0);
        }
    }
}

} // verus!
