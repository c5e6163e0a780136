//! The event bus: one ordered queue multiplexing timer ticks, key input,
//! backend answer events and notifications into a single consumer, which
//! processes exactly one event to completion at a time.

use vstd::prelude::*;

verus! {

use std::collections::VecDeque;
use crate::llm::LLMAnswer;

/// A key, independent of any terminal library.
#[derive(Debug, Clone, Copy, PartialEq, Eq, Structural)]
pub enum Key {
    Char(char),
    Enter,
    Esc,
    Tab,
    Up,
    Down,
    Left,
    Right,
    Backspace,
    Null,
}

/// One keyboard input: the key and whether the control modifier held.
#[derive(Debug, Clone, Copy, PartialEq, Eq, Structural)]
pub struct KeyInput {
    pub code: Key,
    pub ctrl: bool,
}

/// How prominently a notification is shown.
#[derive(Debug, Clone, Copy, PartialEq, Eq, Structural)]
pub enum NotificationLevel {
    Info,
    Warning,
    Error,
}

/// Ticks a fresh notification stays on screen.
pub const NOTIFICATION_TTL: u16 = 5;

/// A transient user-visible notice.
#[derive(Debug, Clone)]
pub struct Notification {
    pub message: String,
    pub level: NotificationLevel,
    pub ttl: u16,
}

impl Notification {
    /// A fresh notification with the full time to live.
    pub fn new(message: String, level: NotificationLevel) -> (r: Notification)
        ensures
            r.message@ == message@,
            r.level == level,
            r.ttl == NOTIFICATION_TTL,
    {
        Notification { message, level, ttl: NOTIFICATION_TTL }
    }
}

/// One item of the bus.
#[derive(Debug)]
pub enum Event {
    /// A periodic timer tick.
    Tick,
    /// A key arrived from the terminal.
    Key(KeyInput),
    /// A streaming answer event forwarded by the background task.
    LLMEvent(LLMAnswer),
    /// An asynchronous user notification.
    Notification(Notification),
    /// The terminal was resized.
    Resize(u16, u16),
}

/// The ordered multi-producer queue behind the consumer loop. Events
/// enqueued first are dequeued first, so each producer's emission order is
/// preserved.
#[derive(Debug)]
pub struct EventQueue {
    q: VecDeque<Event>,
}

impl EventQueue {
    /// The queued events, front first.
    pub closed spec fn view(&self) -> Seq<Event> {
        self.q@
    }

    /// An empty queue.
    pub fn new() -> (r: EventQueue)
        ensures
            r@ == Seq::<Event>::empty(),
    {
        EventQueue { q: VecDeque::new() }
    }

    /// How many events wait.
    pub fn len(&self) -> (r: usize)
        ensures
            r == self@.len(),
    {
        self.q.len()
    }

    /// Enqueue one event at the back.
    pub fn send(&mut self, e: Event)
        ensures
            final(self)@ == old(self)@.push(e),
    {
        self.q.push_back(e);
    }

    /// Dequeue the front event: the oldest one, exactly in arrival order.
    pub fn next(&mut self) -> (r: Option<Event>)
        ensures
            old(self)@.len() == 0 ==> r is None && final(self)@ == old(self)@,
            old(self)@.len() > 0 ==> r == Some(old(self)@[0]) && final(self)@ == old(
                self,
            )@.subrange(1, old(self)@.len() as int),
    {
        self.q.pop_front()
    }
}

} // verus!
