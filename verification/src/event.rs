//! Events on their way to widgets.

use vstd::prelude::*;
use std::collections::VecDeque;

verus! {

/// Identifies a widget.
#[derive(Clone, Copy, Debug, PartialEq, Eq, Hash, Structural)]
pub struct WidgetId(pub usize);

/// Where an event is to go.
#[derive(Clone, Copy, Debug, PartialEq, Eq, Hash, Structural)]
pub enum Target {
    /// To one widget.
    Widget(WidgetId),
    /// To the first child of a widget.
    Child(WidgetId),
    /// To a widget and everything below it.
    SubTree(WidgetId),
    /// To a widget and everything above it.
    BubbleUp(WidgetId),
    /// To the handlers of the user interface itself.
    Ui,
}

/// The events that wait to be handled, the oldest first.
pub struct Queue<E> {
    queue: VecDeque<(Target, E)>,
}

impl<E> Queue<E> {
    /// The waiting events, the oldest first.
    pub closed spec fn view(&self) -> Seq<(Target, E)> {
        self.queue@
    }

    /// A queue in which nothing waits.
    pub fn new() -> (r: Self)
        ensures
            r@ == Seq::<(Target, E)>::empty(),
    {
        Queue { queue: VecDeque::new() }
    }

    /// Puts an event at the end of the queue.
    pub fn push(&mut self, address: Target, data: E)
        ensures
            final(self)@ == old(self)@.push((address, data)),
    {
        self.queue.push_back((address, data));
    }

    /// Whether nothing waits.
    pub fn is_empty(&mut self) -> (r: bool)
        ensures
            *final(self) == *old(self),
            r == (old(self)@.len() == 0),
    {
        self.queue.len() == 0
    }

    /// Takes the oldest event out of the queue.
    pub fn next(&mut self) -> (r: (Target, E))
        requires
            old(self)@.len() > 0,
        ensures
            r == old(self)@[0],
            final(self)@ == old(self)@.subrange(1, old(self)@.len() as int),
    {
        match self.queue.pop_front() {
            Some(event) => event,
            None => vstd::pervasive::unreached(),
        }
    }

    /// Takes the oldest event out of the queue, if one waits.
    pub fn try_next(&mut self) -> (r: Option<(Target, E)>)
        ensures
            match r {
                Some(event) => old(self)@.len() > 0 && event == old(self)@[0] && final(self)@
                    == old(self)@.subrange(1, old(self)@.len() as int),
                None => old(self)@.len() == 0 && final(self)@ == old(self)@,
            },
    {
        self.queue.pop_front()
    }
}

} // verus!
