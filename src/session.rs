use vstd::prelude::*;
use vstd::string::*;
use crate::message::{joined_notice, left_notice, Message, MessageView};

verus! {

/// The stage a connection is in.
#[derive(Debug, Clone, Copy, PartialEq, Eq, Structural)]
pub enum Phase {
    /// The prompt was sent; the first line will be the username.
    Handshaking,
    /// Registered: every line is a chat message.
    Active,
    /// Over: the handshake failed, or the peer left.
    Closed,
}

/// What the connection's inbound side produced next.
#[derive(Debug)]
pub enum Event {
    /// One line of text.
    Line(String),
    /// The stream ended or failed to yield a line.
    End,
}

pub enum EventView {
    Line(Seq<char>),
    End,
}

impl View for Event {
    type V = EventView;

    open spec fn view(&self) -> EventView {
        match self {
            Event::Line(l) => EventView::Line(l@),
            Event::End => EventView::End,
        }
    }
}

/// What the connection handler must do in answer to an event.
#[derive(Debug)]
pub enum Action {
    /// Register the peer under `username`, then broadcast `notice` to the others.
    Join { username: String, notice: Message },
    /// Broadcast a chat message to the others.
    Chat(Message),
    /// Deregister the peer, then broadcast `notice` to the others.
    Leave(Message),
    /// Close the connection without registering or announcing anything.
    Abort,
    /// Nothing: the session is over.
    Idle,
}

pub enum ActionView {
    Join { username: Seq<char>, notice: MessageView },
    Chat(MessageView),
    Leave(MessageView),
    Abort,
    Idle,
}

impl View for Action {
    type V = ActionView;

    open spec fn view(&self) -> ActionView {
        match self {
            Action::Join { username, notice } => ActionView::Join {
                username: username@,
                notice: notice@,
            },
            Action::Chat(m) => ActionView::Chat(m@),
            Action::Leave(m) => ActionView::Leave(m@),
            Action::Abort => ActionView::Abort,
            Action::Idle => ActionView::Idle,
        }
    }
}

/// The lifecycle of one connection: handshake, then chat, then close.
#[derive(Debug)]
pub struct Session {
    phase: Phase,
    username: String,
}

pub struct SessionView {
    pub phase: Phase,
    pub username: Seq<char>,
}

impl View for Session {
    type V = SessionView;

    closed spec fn view(&self) -> SessionView {
        SessionView { phase: self.phase, username: self.username@ }
    }
}

/// A session that has just sent its prompt.
pub open spec fn initial() -> SessionView {
    SessionView { phase: Phase::Handshaking, username: Seq::empty() }
}

/// The next state and the action for one event.
pub open spec fn next(s: SessionView, e: EventView) -> (SessionView, ActionView) {
    match s.phase {
        Phase::Handshaking => match e {
            EventView::Line(u) => (
                SessionView { phase: Phase::Active, username: u },
                ActionView::Join { username: u, notice: MessageView::Joined(joined_notice(u)) },
            ),
            EventView::End => (SessionView { phase: Phase::Closed, ..s }, ActionView::Abort),
        },
        Phase::Active => match e {
            EventView::Line(l) => (
                s,
                ActionView::Chat(MessageView::Chat { sender: s.username, content: l }),
            ),
            EventView::End => (
                SessionView { phase: Phase::Closed, ..s },
                ActionView::Leave(MessageView::Left(left_notice(s.username))),
            ),
        },
        Phase::Closed => (s, ActionView::Idle),
    }
}

/// The state after a run of events from the initial state, with the action
/// taken for each event.
pub open spec fn run(events: Seq<EventView>) -> (SessionView, Seq<ActionView>)
    decreases events.len(),
{
    if events.len() == 0 {
        (initial(), Seq::empty())
    } else {
        let (s, acts) = run(events.drop_last());
        let (s2, a) = next(s, events.last());
        (s2, acts.push(a))
    }
}

/// Whether the stream ended at some event strictly between the first and the
/// `i`-th.
pub open spec fn ended_before(events: Seq<EventView>, i: int) -> bool {
    exists|j: int| 0 < j < i && #[trigger] events[j] is End
}

/// The action that the `i`-th event of a run from the initial state gets.
pub open spec fn action_at(events: Seq<EventView>, i: int) -> ActionView {
    if i == 0 {
        match events[0] {
            EventView::Line(u) => ActionView::Join {
                username: u,
                notice: MessageView::Joined(joined_notice(u)),
            },
            EventView::End => ActionView::Abort,
        }
    } else {
        match events[0] {
            EventView::End => ActionView::Idle,
            EventView::Line(u) => if ended_before(events, i) {
                ActionView::Idle
            } else {
                match events[i] {
                    EventView::Line(l) => ActionView::Chat(MessageView::Chat { sender: u, content: l }),
                    EventView::End => ActionView::Leave(MessageView::Left(left_notice(u))),
                }
            },
        }
    }
}

proof fn lemma_run_shape(events: Seq<EventView>)
    ensures
        run(events).1.len() == events.len(),
        forall|i: int| 0 <= i < events.len() ==> #[trigger] run(events).1[i] == action_at(events, i),
        events.len() == 0 ==> run(events).0 == initial(),
        events.len() > 0 && events[0] is End ==> run(events).0.phase == Phase::Closed,
        events.len() > 0 && events[0] is Line ==> {
            &&& run(events).0.username == events[0]->Line_0
            &&& run(events).0.phase == if ended_before(events, events.len() as int) {
                Phase::Closed
            } else {
                Phase::Active
            }
        },
    decreases events.len(),
{
    if events.len() > 0 {
        let prev = events.drop_last();
        lemma_run_shape(prev);
        let n = prev.len() as int;
        assert forall|i: int| 0 <= i < n implies #[trigger] action_at(events, i) == action_at(prev, i) by {
            assert(events[i] == prev[i]);
            assert(events[0] == prev[0]);
            if ended_before(prev, i) {
                let j = choose|j: int| 0 < j < i && #[trigger] prev[j] is End;
                assert(events[j] == prev[j]);
            }
            if ended_before(events, i) {
                let j = choose|j: int| 0 < j < i && #[trigger] events[j] is End;
                assert(events[j] == prev[j]);
            }
        }
        if n > 0 {
            assert(events[0] == prev[0]);
            if ended_before(prev, n) {
                let j = choose|j: int| 0 < j < n && #[trigger] prev[j] is End;
                assert(events[j] == prev[j]);
            }
            if ended_before(events, n) {
                let j = choose|j: int| 0 < j < n && #[trigger] events[j] is End;
                assert(events[j] == prev[j]);
            }
            if events[0] is Line && events[n] is End {
                assert(ended_before(events, n + 1));
            }
            if ended_before(events, n + 1) && !ended_before(events, n) {
                let j = choose|j: int| 0 < j < n + 1 && #[trigger] events[j] is End;
                assert(j == n);
            }
        }
    }
}

/// Lifecycle of a connection, for any sequence of events from the handshake
/// on: the join is announced at most once, and only as the answer to the
/// first event; no chat line and no leave comes without a join before it; the
/// leave is announced once at most, the end of the stream after a join
/// always announces it, and nothing is done after it.
pub proof fn lemma_lifecycle(events: Seq<EventView>)
    ensures
        run(events).1.len() == events.len(),
        forall|i: int| 0 <= i < events.len() && #[trigger] run(events).1[i] is Join ==> i == 0,
        forall|i: int|
            0 <= i < events.len() && #[trigger] run(events).1[i] is Chat
                ==> 0 < i && run(events).1[0] is Join,
        forall|i: int|
            0 <= i < events.len() && #[trigger] run(events).1[i] is Leave
                ==> 0 < i && run(events).1[0] is Join,
        forall|i: int, j: int|
            0 <= i < j < events.len() && #[trigger] run(events).1[i] is Leave
                ==> #[trigger] run(events).1[j] is Idle,
        forall|i: int|
            0 < i < events.len() && run(events).1[0] is Join && #[trigger] events[i] is End
                && !ended_before(events, i) ==> run(events).1[i] is Leave,
{
    lemma_run_shape(events);
    let acts = run(events).1;
    assert forall|i: int, j: int|
        0 <= i < j < events.len() && #[trigger] acts[i] is Leave implies #[trigger] acts[j] is Idle by {
        assert(acts[i] == action_at(events, i));
        assert(acts[j] == action_at(events, j));
        assert(events[i] is End);
        assert(ended_before(events, j));
    }
}

/// The text sent to a new connection before its username is read.
pub fn prompt() -> (r: String)
    ensures
        r@ == "Enter your username: "@,
{
    String::from_str("Enter your username: ")
}

impl Session {
    /// A session waiting for its username.
    pub fn new() -> (r: Session)
        ensures
            r@ == initial(),
    {
        Session { phase: Phase::Handshaking, username: String::new() }
    }

    pub fn phase(&self) -> (r: Phase)
        ensures
            r == self@.phase,
    {
        self.phase
    }

    /// The username given at the handshake (empty before it).
    pub fn username(&self) -> (r: &str)
        ensures
            r@ == self@.username,
    {
        self.username.as_str()
    }

    /// Moves the session on by one event and says what to do about it.
    pub fn step(&mut self, event: Event) -> (r: Action)
        ensures
            (final(self)@, r@) == next(old(self)@, event@),
    {
        match self.phase {
            Phase::Handshaking => match event {
                Event::Line(u) => {
                    let notice = Message::user_joined(u.as_str());
                    self.username = u.clone();
                    self.phase = Phase::Active;
                    Action::Join { username: u, notice }
                },
                Event::End => {
                    self.phase = Phase::Closed;
                    Action::Abort
                },
            },
            Phase::Active => match event {
                Event::Line(l) => Action::Chat(Message::new_chat(self.username.as_str(), l.as_str())),
                Event::End => {
                    self.phase = Phase::Closed;
                    Action::Leave(Message::user_left(self.username.as_str()))
                },
            },
            Phase::Closed => Action::Idle,
        }
    }
}

} // verus!
