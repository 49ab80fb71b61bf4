//! Turning the variables of a prefab into values of the host.
//!
//! Every value is made by the host, and every call to it may fail. The
//! machine here walks the literals, says which call comes next, and decides
//! what a failure means: inside a list it costs one element and a warning,
//! in the variable list itself it ends the materialization.

use vstd::prelude::*;
use crate::host::WorldRef;
use crate::model::{Literal, Var};

verus! {

/// One call that the host is to perform. `var` is the position, in the
/// prefab's variable list, of the variable that is being materialized.
#[derive(Clone, Copy, Debug, PartialEq, Eq)]
pub enum Request<'a> {
    /// Make the value of a number, string, path or file literal. Answered
    /// with the value.
    Scalar(&'a Literal),
    /// Make a string of this text. Answered with the string.
    Str(&'a Vec<u8>),
    /// Make an empty list. Answered with the list.
    NewList,
    /// Append `item` to `list`.
    Push { list: WorldRef, item: WorldRef },
    /// Set the entry of `list` under `key` to `value`.
    Assign { list: WorldRef, key: WorldRef, value: WorldRef },
    /// Record that the value of the variable matched no literal grammar and
    /// is passed on as the string `text`.
    WarnFallback { var: usize, text: &'a Vec<u8> },
    /// Record that an element of a list in the variable is left out.
    WarnListItem { var: usize },
    /// Record that a pair of a list in the variable is left out for its key.
    WarnAssocKey { var: usize },
    /// Record that a pair of a list in the variable is left out for its value.
    WarnAssocValue { var: usize },
}

/// What the caller of the machine does next.
#[derive(Clone, Copy, Debug, PartialEq, Eq)]
pub enum Progress<'a> {
    /// Make this call and report how the host answered.
    Call(Request<'a>),
    /// The variables are materialized: this is their list, or null where
    /// the prefab has no variable block.
    Finished(WorldRef),
    /// The materialization failed as a whole.
    Failed,
}

/// The key of the pair that an association list is working on.
#[derive(Clone, Copy, Debug)]
pub enum Key {
    /// The key is yet to be made.
    Unset,
    /// The key was made.
    Made(WorldRef),
    /// Making the key failed.
    Failed,
}

/// A container that is being filled: the literals it is filled from, the
/// position of the next one, and the host list that takes them.
#[derive(Clone, Copy, Debug)]
pub enum Frame<'a> {
    Vars { vars: &'a Vec<Var>, next: usize, list: WorldRef },
    List { items: &'a Vec<Literal>, next: usize, list: WorldRef },
    Assoc { pairs: &'a Vec<(Literal, Literal)>, next: usize, list: WorldRef, key: Key },
}

/// What the call that is with the host was made for.
#[derive(Clone, Copy, Debug)]
pub enum Pending<'a> {
    /// No call has been made yet.
    Begin(&'a Option<Vec<Var>>),
    /// The list of the variables.
    Root(&'a Vec<Var>),
    /// The value of the literal under way.
    Leaf,
    /// The warning about a fallback value with this text.
    Fallback(&'a Vec<u8>),
    /// The list of this list literal.
    Open(&'a Literal),
    /// The name string of the variable whose value is this.
    Name(WorldRef),
    /// A call of the innermost container's own: an append, a set, a warning.
    Own,
    /// The machine has ended.
    Over,
}

/// What the machine is about to do, between two calls.
#[derive(Clone, Copy, Debug)]
pub enum Work<'a> {
    /// Go on with the innermost container.
    Advance,
    /// Make the value of this literal.
    Eval(&'a Literal),
    /// Hand the value of the literal under way, or its failure, to the
    /// innermost container.
    Deliver(Option<WorldRef>),
    /// Hand this to the caller.
    Yield(Progress<'a>),
}

/// The machine as a mathematical value.
pub ghost struct State<'a> {
    /// The containers that are being filled, the innermost last.
    pub frames: Seq<Frame<'a>>,
    pub pending: Pending<'a>,
    /// The position of the variable under way.
    pub var: usize,
}

/// The state with its innermost frame replaced.
pub open spec fn with_top<'a>(s: State<'a>, frame: Frame<'a>) -> State<'a> {
    State { frames: s.frames.drop_last().push(frame), ..s }
}

/// The state when `request` goes to the host for `pending`.
pub open spec fn ask<'a>(s: State<'a>, request: Request<'a>, pending: Pending<'a>) -> (State<'a>, Work<'a>) {
    (State { pending, ..s }, Work::Yield(Progress::Call(request)))
}

/// The state when the machine ends with `progress`.
pub open spec fn end<'a>(s: State<'a>, progress: Progress<'a>) -> (State<'a>, Work<'a>) {
    (State { pending: Pending::Over, ..s }, Work::Yield(progress))
}

/// Going on with the innermost container: its next literal is evaluated, or,
/// when none is left, the container is complete and is handed to the one
/// around it.
pub open spec fn advance<'a>(s: State<'a>) -> (State<'a>, Work<'a>) {
    if s.frames.len() == 0 {
        end(s, Progress::Failed)
    } else {
        match s.frames.last() {
            Frame::Vars { vars, next, list } => if next < vars@.len() {
                (State { var: next, ..s }, Work::Eval(&vars@[next as int].1))
            } else {
                (State { frames: s.frames.drop_last(), ..s }, Work::Deliver(Some(list)))
            },
            Frame::List { items, next, list } => if next < items@.len() {
                (s, Work::Eval(&items@[next as int]))
            } else {
                (State { frames: s.frames.drop_last(), ..s }, Work::Deliver(Some(list)))
            },
            Frame::Assoc { pairs, next, list, key } => if next < pairs@.len() {
                (
                    with_top(s, Frame::Assoc { pairs, next, list, key: Key::Unset }),
                    Work::Eval(&pairs@[next as int].0),
                )
            } else {
                (State { frames: s.frames.drop_last(), ..s }, Work::Deliver(Some(list)))
            },
        }
    }
}

/// Evaluating a literal: null needs no call; a fallback value is warned
/// about before it is made a string; a list is opened; any other literal is
/// made by one call.
pub open spec fn eval<'a>(s: State<'a>, lit: &'a Literal) -> (State<'a>, Work<'a>) {
    match *lit {
        Literal::Null => (s, Work::Deliver(Some(WorldRef { kind: 0, id: 0 }))),
        Literal::Fallback(text) => ask(
            s,
            Request::WarnFallback { var: s.var, text: &text },
            Pending::Fallback(&text),
        ),
        Literal::List(_) => ask(s, Request::NewList, Pending::Open(lit)),
        Literal::AssocList(_) => ask(s, Request::NewList, Pending::Open(lit)),
        _ => ask(s, Request::Scalar(lit), Pending::Leaf),
    }
}

/// Handing a value, or a failure, to the innermost container.
///
/// The variable list does not forgive a failure. A list appends the value,
/// or warns and leaves the element out. An association list keeps the key
/// until the value has been tried too, then sets the pair, or warns and
/// leaves it out: for the key where that failed, else for the value.
pub open spec fn deliver<'a>(s: State<'a>, item: Option<WorldRef>) -> (State<'a>, Work<'a>) {
    if s.frames.len() == 0 {
        match item {
            Some(v) => end(s, Progress::Finished(v)),
            None => end(s, Progress::Failed),
        }
    } else {
        match s.frames.last() {
            Frame::Vars { vars, next, list } => match item {
                Some(v) => if next < vars@.len() {
                    ask(s, Request::Str(&vars@[next as int].0), Pending::Name(v))
                } else {
                    end(s, Progress::Failed)
                },
                None => end(s, Progress::Failed),
            },
            Frame::List { items, next, list } => {
                let t = with_top(s, Frame::List { items, next: next_after(next), list });
                match item {
                    Some(v) => ask(t, Request::Push { list, item: v }, Pending::Own),
                    None => ask(t, Request::WarnListItem { var: s.var }, Pending::Own),
                }
            },
            Frame::Assoc { pairs, next, list, key } => {
                let t = with_top(
                    s,
                    Frame::Assoc { pairs, next: next_after(next), list, key: Key::Unset },
                );
                match key {
                    Key::Unset => if next < pairs@.len() {
                        (
                            with_top(
                                s,
                                Frame::Assoc {
                                    pairs,
                                    next,
                                    list,
                                    key: match item {
                                        Some(k) => Key::Made(k),
                                        None => Key::Failed,
                                    },
                                },
                            ),
                            Work::Eval(&pairs@[next as int].1),
                        )
                    } else {
                        end(s, Progress::Failed)
                    },
                    Key::Failed => ask(t, Request::WarnAssocKey { var: s.var }, Pending::Own),
                    Key::Made(k) => match item {
                        Some(v) => ask(t, Request::Assign { list, key: k, value: v }, Pending::Own),
                        None => ask(t, Request::WarnAssocValue { var: s.var }, Pending::Own),
                    },
                }
            },
        }
    }
}

/// The position after `next`.
pub open spec fn next_after(next: usize) -> usize {
    if next < usize::MAX {
        (next + 1) as usize
    } else {
        next
    }
}

/// One turn of the machine on `work`.
pub open spec fn turn<'a>(s: State<'a>, work: Work<'a>) -> (State<'a>, Work<'a>) {
    match work {
        Work::Advance => advance(s),
        Work::Eval(lit) => eval(s, lit),
        Work::Deliver(item) => deliver(s, item),
        Work::Yield(_) => (s, work),
    }
}

/// Whether the innermost container is an association list that waits for
/// the key of a pair.
pub open spec fn awaits_key<'a>(s: State<'a>) -> bool {
    s.frames.len() > 0 && (s.frames.last() matches Frame::Assoc { key, .. } && key is Unset)
}

/// How many turns `work` is from a call or the end, at most.
pub open spec fn distance<'a>(s: State<'a>, work: Work<'a>) -> nat {
    match work {
        Work::Advance => 6,
        Work::Eval(_) => if awaits_key(s) { 5 } else { 3 },
        Work::Deliver(_) => if awaits_key(s) { 4 } else { 2 },
        Work::Yield(_) => 0,
    }
}

/// Every turn brings the machine closer to a call or the end.
pub proof fn lemma_turn_decreases<'a>(s: State<'a>, work: Work<'a>)
    requires
        !(work is Yield),
    ensures
        distance(turn(s, work).0, turn(s, work).1) < distance(s, work),
{
    match work {
        Work::Advance => {},
        Work::Eval(lit) => {
            assert(turn(s, work).0.frames == s.frames);
        },
        Work::Deliver(item) => {
            if s.frames.len() > 0 {
                match s.frames.last() {
                    Frame::Assoc { pairs, next, list, key } => {
                        if key is Unset && next < pairs@.len() {
                            let t = turn(s, work).0;
                            assert(t.frames.last() matches Frame::Assoc { key, .. } && !(key is Unset));
                        }
                    },
                    _ => {},
                }
            }
        },
        Work::Yield(_) => {},
    }
}

/// The machine runs from `work` until it has something for the caller.
pub open spec fn run<'a>(s: State<'a>, work: Work<'a>) -> (State<'a>, Progress<'a>)
    decreases distance(s, work),
{
    match work {
        Work::Yield(progress) => (s, progress),
        _ => {
            proof {
                lemma_turn_decreases(s, work);
            }
            run(turn(s, work).0, turn(s, work).1)
        },
    }
}

/// What the host's answer means for the call that was made: where the
/// machine goes on from. `None` stands for a call that failed.
pub open spec fn resume<'a>(s: State<'a>, answer: Option<WorldRef>) -> (State<'a>, Work<'a>) {
    match s.pending {
        Pending::Begin(vars) => match *vars {
            Some(list) => ask(s, Request::NewList, Pending::Root(&list)),
            None => end(s, Progress::Finished(WorldRef { kind: 0, id: 0 })),
        },
        Pending::Root(vars) => match answer {
            Some(list) => (
                State { frames: s.frames.push(Frame::Vars { vars, next: 0, list }), ..s },
                Work::Advance,
            ),
            None => end(s, Progress::Failed),
        },
        Pending::Leaf => (s, Work::Deliver(answer)),
        Pending::Fallback(text) => match answer {
            Some(_) => ask(s, Request::Str(text), Pending::Leaf),
            None => (s, Work::Deliver(None)),
        },
        Pending::Open(lit) => match answer {
            Some(list) => match *lit {
                Literal::List(items) => (
                    State { frames: s.frames.push(Frame::List { items: &items, next: 0, list }), ..s },
                    Work::Advance,
                ),
                Literal::AssocList(pairs) => (
                    State {
                        frames: s.frames.push(
                            Frame::Assoc { pairs: &pairs, next: 0, list, key: Key::Unset },
                        ),
                        ..s
                    },
                    Work::Advance,
                ),
                _ => (s, Work::Deliver(None)),
            },
            None => (s, Work::Deliver(None)),
        },
        Pending::Name(value) => if s.frames.len() == 0 {
            end(s, Progress::Failed)
        } else {
            match (s.frames.last(), answer) {
                (Frame::Vars { vars, next, list }, Some(key)) => ask(
                    with_top(s, Frame::Vars { vars, next: next_after(next), list }),
                    Request::Assign { list, key, value },
                    Pending::Own,
                ),
                _ => end(s, Progress::Failed),
            }
        },
        Pending::Own => match answer {
            Some(_) => (s, Work::Advance),
            None => if s.frames.len() == 0 {
                end(s, Progress::Failed)
            } else {
                (State { frames: s.frames.drop_last(), ..s }, Work::Deliver(None))
            },
        },
        Pending::Over => end(s, Progress::Failed),
    }
}

/// One step of the machine: from the host's answer to the next call, or to
/// the end.
pub open spec fn step_spec<'a>(s: State<'a>, answer: Option<WorldRef>) -> (State<'a>, Progress<'a>) {
    let (t, work) = resume(s, answer);
    run(t, work)
}

/// The machine that materializes the variables of one prefab.
#[derive(Debug)]
pub struct Materializer<'a> {
    frames: Vec<Frame<'a>>,
    pending: Pending<'a>,
    var: usize,
}

impl<'a> View for Materializer<'a> {
    type V = State<'a>;

    closed spec fn view(&self) -> State<'a> {
        State { frames: self.frames@, pending: self.pending, var: self.var }
    }
}

fn bump(next: usize) -> (r: usize)
    ensures
        r == next_after(next),
{
    if next < usize::MAX {
        next + 1
    } else {
        next
    }
}

impl<'a> Materializer<'a> {
    /// A machine for the variable block `vars`, before its first step.
    pub fn new(vars: &'a Option<Vec<Var>>) -> (m: Materializer<'a>)
        ensures
            m@ == (State { frames: Seq::empty(), pending: Pending::Begin(vars), var: 0 }),
    {
        Materializer { frames: Vec::new(), pending: Pending::Begin(vars), var: 0 }
    }

    fn set_top(&mut self, frame: Frame<'a>)
        requires
            old(self)@.frames.len() > 0,
        ensures
            final(self)@ == with_top(old(self)@, frame),
    {
        self.frames.pop();
        self.frames.push(frame);
    }

    fn pop_frame(&mut self)
        requires
            old(self)@.frames.len() > 0,
        ensures
            final(self)@ == (State { frames: old(self)@.frames.drop_last(), ..old(self)@ }),
    {
        self.frames.pop();
    }

    fn ask(&mut self, request: Request<'a>, pending: Pending<'a>) -> (w: Work<'a>)
        ensures
            (final(self)@, w) == ask(old(self)@, request, pending),
    {
        self.pending = pending;
        Work::Yield(Progress::Call(request))
    }

    fn end(&mut self, progress: Progress<'a>) -> (w: Work<'a>)
        ensures
            (final(self)@, w) == end(old(self)@, progress),
    {
        self.pending = Pending::Over;
        Work::Yield(progress)
    }

    fn advance(&mut self) -> (w: Work<'a>)
        ensures
            (final(self)@, w) == advance(old(self)@),
    {
        if self.frames.len() == 0 {
            return self.end(Progress::Failed);
        }
        let top = self.frames[self.frames.len() - 1];
        match top {
            Frame::Vars { vars, next, list } => {
                if next < vars.len() {
                    self.var = next;
                    Work::Eval(&vars[next].1)
                } else {
                    self.pop_frame();
                    Work::Deliver(Some(list))
                }
            },
            Frame::List { items, next, list } => {
                if next < items.len() {
                    Work::Eval(&items[next])
                } else {
                    self.pop_frame();
                    Work::Deliver(Some(list))
                }
            },
            Frame::Assoc { pairs, next, list, key } => {
                if next < pairs.len() {
                    self.set_top(Frame::Assoc { pairs, next, list, key: Key::Unset });
                    Work::Eval(&pairs[next].0)
                } else {
                    self.pop_frame();
                    Work::Deliver(Some(list))
                }
            },
        }
    }

    fn eval(&mut self, lit: &'a Literal) -> (w: Work<'a>)
        ensures
            (final(self)@, w) == eval(old(self)@, lit),
    {
        match lit {
            Literal::Null => Work::Deliver(Some(WorldRef::null())),
            Literal::Fallback(text) => {
                let var = self.var;
                self.ask(Request::WarnFallback { var, text }, Pending::Fallback(text))
            },
            Literal::List(_) => self.ask(Request::NewList, Pending::Open(lit)),
            Literal::AssocList(_) => self.ask(Request::NewList, Pending::Open(lit)),
            _ => self.ask(Request::Scalar(lit), Pending::Leaf),
        }
    }

    fn deliver(&mut self, item: Option<WorldRef>) -> (w: Work<'a>)
        ensures
            (final(self)@, w) == deliver(old(self)@, item),
    {
        if self.frames.len() == 0 {
            return match item {
                Some(v) => self.end(Progress::Finished(v)),
                None => self.end(Progress::Failed),
            };
        }
        let top = self.frames[self.frames.len() - 1];
        let var = self.var;
        match top {
            Frame::Vars { vars, next, list } => match item {
                Some(v) => {
                    if next < vars.len() {
                        self.ask(Request::Str(&vars[next].0), Pending::Name(v))
                    } else {
                        self.end(Progress::Failed)
                    }
                },
                None => self.end(Progress::Failed),
            },
            Frame::List { items, next, list } => {
                self.set_top(Frame::List { items, next: bump(next), list });
                match item {
                    Some(v) => self.ask(Request::Push { list, item: v }, Pending::Own),
                    None => self.ask(Request::WarnListItem { var }, Pending::Own),
                }
            },
            Frame::Assoc { pairs, next, list, key } => match key {
                Key::Unset => {
                    if next < pairs.len() {
                        let made = match item {
                            Some(k) => Key::Made(k),
                            None => Key::Failed,
                        };
                        self.set_top(Frame::Assoc { pairs, next, list, key: made });
                        Work::Eval(&pairs[next].1)
                    } else {
                        self.end(Progress::Failed)
                    }
                },
                Key::Failed => {
                    self.set_top(Frame::Assoc { pairs, next: bump(next), list, key: Key::Unset });
                    self.ask(Request::WarnAssocKey { var }, Pending::Own)
                },
                Key::Made(k) => {
                    self.set_top(Frame::Assoc { pairs, next: bump(next), list, key: Key::Unset });
                    match item {
                        Some(v) => self.ask(Request::Assign { list, key: k, value: v }, Pending::Own),
                        None => self.ask(Request::WarnAssocValue { var }, Pending::Own),
                    }
                },
            },
        }
    }

    fn resume(&mut self, answer: Option<WorldRef>) -> (w: Work<'a>)
        ensures
            (final(self)@, w) == resume(old(self)@, answer),
    {
        match self.pending {
            Pending::Begin(vars) => match vars {
                Some(list) => self.ask(Request::NewList, Pending::Root(list)),
                None => self.end(Progress::Finished(WorldRef::null())),
            },
            Pending::Root(vars) => match answer {
                Some(list) => {
                    self.frames.push(Frame::Vars { vars, next: 0, list });
                    Work::Advance
                },
                None => self.end(Progress::Failed),
            },
            Pending::Leaf => Work::Deliver(answer),
            Pending::Fallback(text) => match answer {
                Some(_) => self.ask(Request::Str(text), Pending::Leaf),
                None => Work::Deliver(None),
            },
            Pending::Open(lit) => match answer {
                Some(list) => match lit {
                    Literal::List(items) => {
                        self.frames.push(Frame::List { items, next: 0, list });
                        Work::Advance
                    },
                    Literal::AssocList(pairs) => {
                        self.frames.push(Frame::Assoc { pairs, next: 0, list, key: Key::Unset });
                        Work::Advance
                    },
                    _ => Work::Deliver(None),
                },
                None => Work::Deliver(None),
            },
            Pending::Name(value) => {
                if self.frames.len() == 0 {
                    return self.end(Progress::Failed);
                }
                let top = self.frames[self.frames.len() - 1];
                match (top, answer) {
                    (Frame::Vars { vars, next, list }, Some(key)) => {
                        self.set_top(Frame::Vars { vars, next: bump(next), list });
                        self.ask(Request::Assign { list, key, value }, Pending::Own)
                    },
                    _ => self.end(Progress::Failed),
                }
            },
            Pending::Own => match answer {
                Some(_) => Work::Advance,
                None => {
                    if self.frames.len() == 0 {
                        self.end(Progress::Failed)
                    } else {
                        self.pop_frame();
                        Work::Deliver(None)
                    }
                },
            },
            Pending::Over => self.end(Progress::Failed),
        }
    }

    /// Makes one step: takes note of how the host answered the call made
    /// last (`None` for a call that failed; any value before the first
    /// call), and says what the caller does next.
    pub fn step(&mut self, answer: Option<WorldRef>) -> (p: Progress<'a>)
        ensures
            (final(self)@, p) == step_spec(old(self)@, answer),
    {
        let mut work = self.resume(answer);
        loop
            invariant
                run(self@, work) == step_spec(old(self)@, answer),
            decreases distance(self@, work),
        {
            let ghost before = self@;
            let ghost doing = work;
            work = match work {
                Work::Yield(progress) => {
                    return progress;
                },
                Work::Advance => self.advance(),
                Work::Eval(lit) => self.eval(lit),
                Work::Deliver(item) => self.deliver(item),
            };
            proof {
                lemma_turn_decreases(before, doing);
            }
        }
    }
}

} // verus!
