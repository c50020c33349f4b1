//! Events for the browsers that are connected, each sent to one session and to that alone,
//! by all the connections that the session has.

use serde_json::Value;
use tokio::sync::mpsc::{channel, Receiver, Sender};
use vstd::prelude::*;

use crate::json::{copy_value, json_text, write_text};
use crate::text::eq;

verus! {

/// How many events wait for a session that does not take them up.
pub const PER_SESSION_BUFFER: usize = 32;

/// `tokio::sync::mpsc::Sender`: the end of a channel that events go into.
#[verifier::external_type_specification]
#[verifier::external_body]
#[verifier::reject_recursive_types(T)]
pub struct ExSender<T>(tokio::sync::mpsc::Sender<T>);

/// `tokio::sync::mpsc::Receiver`: the end of a channel that events come out of.
#[verifier::external_type_specification]
#[verifier::external_body]
#[verifier::reject_recursive_types(T)]
pub struct ExReceiver<T>(tokio::sync::mpsc::Receiver<T>);

/// An event for a session.
#[derive(Debug)]
pub struct SseEvent {
    pub event_type: String,
    pub data: Value,
}

/// How many events a channel has room for.
pub uninterp spec fn room_of(sender: Sender<SseEvent>) -> nat;

/// Whether the events that go into `sender` come out of `receiver`.
pub uninterp spec fn is_fed_by(receiver: Receiver<SseEvent>, sender: Sender<SseEvent>) -> bool;

/// The events that were offered to a channel by this end of it, in their order, whether they
/// were taken or not.
pub uninterp spec fn offered(sender: Sender<SseEvent>) -> Seq<SseEvent>;

/// `tokio::sync::mpsc::channel`: both ends of a new channel with room for `room` events, to
/// which none was offered yet. What goes into the one comes out of the other. It panics where
/// there is to be room for none, or for more than an eighth of what a `usize` counts.
#[verifier::external_body]
fn open_channel(room: usize) -> (r: (Sender<SseEvent>, Receiver<SseEvent>))
    requires
        0 < room <= usize::MAX / 8,
    ensures
        room_of(r.0) == room,
        offered(r.0) == Seq::<SseEvent>::empty(),
        is_fed_by(r.1, r.0),
{
    channel(room)
}

/// Whether an offer of `event` to the channel that `sender` leads into can end so: with the
/// event taken, or not. One offer can often end either way.
pub uninterp spec fn can_end(sender: Sender<SseEvent>, event: SseEvent, took: bool) -> bool;

/// `tokio::sync::mpsc::Sender::try_send`: puts the event into the channel if there is room
/// for it and the other end still exists, and says whether it did. Claimed is that this event
/// was offered to this channel, once, that the channel is the same otherwise, and that the
/// result is one that the offer can end with. Which one it is rests on what the other end has
/// taken up by then, and is not stated.
#[verifier::external_body]
fn offer(sender: &mut Sender<SseEvent>, event: SseEvent) -> (r: bool)
    ensures
        offered(*final(sender)) == offered(*old(sender)).push(event),
        room_of(*final(sender)) == room_of(*old(sender)),
        forall|receiver: Receiver<SseEvent>| #[trigger]
            is_fed_by(receiver, *final(sender)) == is_fed_by(receiver, *old(sender)),
        can_end(*old(sender), event, r),
{
    sender.try_send(event).is_ok()
}

impl Clone for SseEvent {
    fn clone(&self) -> (r: SseEvent)
        ensures
            r == *self,
    {
        SseEvent { event_type: self.event_type.clone(), data: copy_value(&self.data) }
    }
}

/// The data of an event as it is sent, given the text that is written for it: an empty
/// object where none could be.
pub fn data_or_empty(text: Option<String>) -> (r: String)
    ensures
        r@ == match text {
            Some(t) => t@,
            None => "{}"@,
        },
{
    match text {
        Some(t) => t,
        None => "{}".to_owned(),
    }
}

impl SseEvent {
    /// The data of the event as it is sent.
    pub fn body(&self) -> (r: String)
        ensures
            r@ == match json_text(self.data) {
                Some(t) => t,
                None => "{}"@,
            },
    {
        data_or_empty(write_text(&self.data))
    }
}

/// A connection: which session it belongs to, which one it is, and the channel that events
/// go into.
#[derive(Debug)]
pub struct Connection {
    pub session_id: String,
    pub number: u64,
    pub sender: Sender<SseEvent>,
}

#[verifier::ext_equal]
pub struct ConnectionView {
    pub session_id: Seq<char>,
    pub number: u64,
    pub sender: Sender<SseEvent>,
}

impl View for Connection {
    type V = ConnectionView;

    open spec fn view(&self) -> ConnectionView {
        ConnectionView {
            session_id: self.session_id@,
            number: self.number,
            sender: self.sender,
        }
    }
}

/// The views of the connections.
pub open spec fn connection_views(connections: Seq<Connection>) -> Seq<ConnectionView> {
    connections.map_values(|c: Connection| c@)
}

/// The connections of a session, in the order in which they were opened.
pub open spec fn connections_of(bus: Seq<ConnectionView>, session: Seq<char>) -> Seq<
    ConnectionView,
>
    decreases bus.len(),
{
    if bus.len() == 0 {
        Seq::empty()
    } else if bus.last().session_id == session {
        connections_of(bus.drop_last(), session).push(bus.last())
    } else {
        connections_of(bus.drop_last(), session)
    }
}

/// The connections but for those of a session.
pub open spec fn without_session(bus: Seq<ConnectionView>, session: Seq<char>) -> Seq<
    ConnectionView,
>
    decreases bus.len(),
{
    if bus.len() == 0 {
        Seq::empty()
    } else if bus.last().session_id == session {
        without_session(bus.drop_last(), session)
    } else {
        without_session(bus.drop_last(), session).push(bus.last())
    }
}

/// The connections but for the one with that number.
pub open spec fn without_connection(bus: Seq<ConnectionView>, number: u64) -> Seq<ConnectionView>
    decreases bus.len(),
{
    if bus.len() == 0 {
        Seq::empty()
    } else if bus.last().number == number {
        without_connection(bus.drop_last(), number)
    } else {
        without_connection(bus.drop_last(), number).push(bus.last())
    }
}

/// Whether the connections are numbered in their order, all below `opened`.
pub open spec fn is_numbered(bus: Seq<ConnectionView>, opened: nat) -> bool {
    &&& forall|i: int| 0 <= i < bus.len() ==> (#[trigger] bus[i]).number < opened
    &&& forall|i: int, j: int|
        0 <= i < j < bus.len() ==> (#[trigger] bus[i]).number < (#[trigger] bus[j]).number
}

/// Whether an event that was offered to the connections can end so: with `answers[i]` for
/// the connection at `i`.
pub open spec fn can_all_end(
    connections: Seq<ConnectionView>,
    event: SseEvent,
    answers: Seq<bool>,
) -> bool {
    &&& answers.len() == connections.len()
    &&& forall|i: int|
        0 <= i < connections.len() ==> can_end(
            (#[trigger] connections[i]).sender,
            event,
            answers[i],
        )
}

/// Whether the connection became the other by the offer of an event: it has the same number,
/// session and channel, and was offered that one event more.
pub open spec fn got_offer(
    before: ConnectionView,
    after: ConnectionView,
    event: SseEvent,
) -> bool {
    &&& after.session_id == before.session_id
    &&& after.number == before.number
    &&& offered(after.sender) == offered(before.sender).push(event)
    &&& room_of(after.sender) == room_of(before.sender)
    &&& forall|receiver: Receiver<SseEvent>| #[trigger]
        is_fed_by(receiver, after.sender) == is_fed_by(receiver, before.sender)
}

/// Whether the connections became the others by the sending of an event to a session: each
/// connection of the session was offered it once, and all others are as they were.
pub open spec fn is_sent(
    before: Seq<ConnectionView>,
    after: Seq<ConnectionView>,
    session: Seq<char>,
    event: SseEvent,
) -> bool {
    &&& after.len() == before.len()
    &&& forall|i: int|
        0 <= i < before.len() ==> if (#[trigger] before[i]).session_id == session {
            got_offer(before[i], after[i], event)
        } else {
            after[i] == before[i]
        }
}

/// The connections that are open. Each has a number of its own, so that one that ends takes
/// no other with it.
#[derive(Debug)]
pub struct SessionBus {
    connections: Vec<Connection>,
    opened: u64,
}

impl View for SessionBus {
    type V = Seq<ConnectionView>;

    closed spec fn view(&self) -> Seq<ConnectionView> {
        connection_views(self.connections@)
    }
}

/// Connections without some of them are numbered in their order.
proof fn lemma_fewer_connections(
    bus: Seq<ConnectionView>,
    session: Seq<char>,
    number: u64,
    opened: nat,
)
    requires
        is_numbered(bus, opened),
    ensures
        is_numbered(without_session(bus, session), opened),
        is_numbered(without_connection(bus, number), opened),
        forall|i: int|
            0 <= i < without_session(bus, session).len() ==> bus.contains(
                #[trigger] without_session(bus, session)[i],
            ),
        forall|i: int|
            0 <= i < without_connection(bus, number).len() ==> bus.contains(
                #[trigger] without_connection(bus, number)[i],
            ),
    decreases bus.len(),
{
    if bus.len() > 0 {
        let rest = bus.drop_last();
        assert(is_numbered(rest, opened)) by {
            assert forall|i: int| 0 <= i < rest.len() implies (#[trigger] rest[i]).number
                < opened by {
                assert(bus[i] == rest[i]);
            }
            assert forall|i: int, j: int| 0 <= i < j < rest.len() implies (
            #[trigger] rest[i]).number < (#[trigger] rest[j]).number by {
                assert(bus[i] == rest[i] && bus[j] == rest[j]);
            }
        }
        lemma_fewer_connections(rest, session, number, opened);
        assert(bus[bus.len() - 1] == bus.last());
        assert(bus.contains(bus.last()));
        assert forall|c: ConnectionView| rest.contains(c) implies #[trigger] bus.contains(c)
            && c.number < bus.last().number by {
            let k = choose|k: int| 0 <= k < rest.len() && rest[k] == c;
            assert(bus[k] == c);
        }
        let a = without_session(rest, session);
        assert forall|i: int| 0 <= i < a.len() implies bus.contains(#[trigger] a[i]) && a[i].number
            < bus.last().number by {
            assert(rest.contains(a[i]));
        }
        let b = without_connection(rest, number);
        assert forall|i: int| 0 <= i < b.len() implies bus.contains(#[trigger] b[i]) && b[i].number
            < bus.last().number by {
            assert(rest.contains(b[i]));
        }
    }
}

impl SessionBus {
    #[verifier::type_invariant]
    spec fn is_in_order(self) -> bool {
        is_numbered(connection_views(self.connections@), self.opened as nat)
    }

    /// How many connections were opened.
    pub closed spec fn opened(&self) -> nat {
        self.opened as nat
    }

    /// No connections.
    pub fn new() -> (r: SessionBus)
        ensures
            r@ == Seq::<ConnectionView>::empty(),
            r.opened() == 0,
    {
        let r = SessionBus { connections: Vec::new(), opened: 0 };
        assert(r@ =~= Seq::empty());
        r
    }

    /// Opens a connection of a session by that channel, beside those that it has. The result
    /// is the number of the connection, which no other has.
    pub fn connect(&mut self, session_id: &str, sender: Sender<SseEvent>) -> (r: u64)
        requires
            old(self).opened() < u64::MAX,
        ensures
            r == old(self).opened(),
            final(self).opened() == old(self).opened() + 1,
            final(self)@ == old(self)@.push(
                ConnectionView { session_id: session_id@, number: r, sender },
            ),
            is_numbered(old(self)@, r as nat),
    {
        proof {
            use_type_invariant(&*self);
        }
        let ghost before = self@;
        let number: u64 = self.opened;
        let mut bus = SessionBus { connections: Vec::new(), opened: 0 };
        std::mem::swap(self, &mut bus);
        let SessionBus { mut connections, opened } = bus;
        connections.push(Connection { session_id: session_id.to_owned(), number, sender });
        assert(connection_views(connections@) =~= before.push(
            ConnectionView { session_id: session_id@, number, sender },
        ));
        *self = SessionBus { connections, opened: opened + 1 };
        number
    }

    /// Opens a connection of a session by a new channel, which has room for
    /// `PER_SESSION_BUFFER` events, beside those that the session has. The result is the end
    /// of it that the session's events come out of.
    pub fn register(&mut self, session_id: &str) -> (r: Receiver<SseEvent>)
        requires
            old(self).opened() < u64::MAX,
        ensures
            final(self).opened() == old(self).opened() + 1,
            final(self)@.len() == old(self)@.len() + 1,
            final(self)@.drop_last() == old(self)@,
            final(self)@.last().session_id == session_id@,
            final(self)@.last().number == old(self).opened(),
            room_of(final(self)@.last().sender) == PER_SESSION_BUFFER,
            offered(final(self)@.last().sender) == Seq::<SseEvent>::empty(),
            is_fed_by(r, final(self)@.last().sender),
    {
        let (sender, receiver) = open_channel(PER_SESSION_BUFFER);
        let _ = self.connect(session_id, sender);
        assert(self@.drop_last() =~= old(self)@);
        receiver
    }

    /// The number of the latest connection of a session.
    pub fn connection_of(&self, session_id: &str) -> (r: Option<u64>)
        ensures
            match r {
                Some(n) => {
                    let mine = connections_of(self@, session_id@);
                    mine.len() > 0 && n == mine.last().number
                },
                None => connections_of(self@, session_id@).len() == 0,
            },
    {
        let ghost all = self@;
        let mut i: usize = self.connections.len();
        assert(all.take(i as int) =~= all);
        while i > 0
            invariant
                i <= self.connections@.len(),
                all == connection_views(self.connections@),
                connections_of(all.take(i as int), session_id@) == connections_of(
                    all,
                    session_id@,
                ),
            decreases i,
        {
            proof {
                assert(all.take(i as int).drop_last() =~= all.take(i - 1));
                assert(all.take(i as int).last() == self.connections@[i - 1]@);
            }
            i -= 1;
            if eq(self.connections[i].session_id.as_str(), session_id) {
                return Some(self.connections[i].number);
            }
        }
        None
    }

    /// Ends all connections of a session.
    pub fn unregister(&mut self, session_id: &str)
        ensures
            final(self)@ == without_session(old(self)@, session_id@),
            final(self).opened() == old(self).opened(),
    {
        proof {
            use_type_invariant(&*self);
            lemma_fewer_connections(self@, session_id@, 0, self.opened as nat);
        }
        let mut bus = SessionBus { connections: Vec::new(), opened: 0 };
        std::mem::swap(self, &mut bus);
        let SessionBus { mut connections, opened } = bus;
        let ghost all = connection_views(connections@);
        let mut kept: Vec<Connection> = Vec::new();
        assert(connection_views(kept@) =~= Seq::empty());
        let ghost mut done: int = 0;
        assert(without_session(all.take(0), session_id@) =~= Seq::empty());
        connections = reversed(connections);
        while connections.len() > 0
            invariant
                0 <= done <= all.len(),
                connections@.len() == all.len() - done,
                forall|i: int|
                    0 <= i < connections@.len() ==> (#[trigger] connections@[i])@ == all[all.len()
                        - 1 - i],
                connection_views(kept@) == without_session(all.take(done), session_id@),
            decreases connections@.len(),
        {
            let ghost so_far = connection_views(kept@);
            let ghost n = connections@.len() - 1;
            match connections.pop() {
                Some(c) => {
                    proof {
                        assert(c@ == all[all.len() - 1 - n]);
                        assert(all.take(done + 1).drop_last() =~= all.take(done));
                        assert(all.take(done + 1).last() == c@);
                        done = done + 1;
                    }
                    if !eq(c.session_id.as_str(), session_id) {
                        let ghost view = c@;
                        kept.push(c);
                        assert(connection_views(kept@) =~= so_far.push(view));
                    }
                },
                None => {},
            }
        }
        assert(all.take(done) =~= all);
        *self = SessionBus { connections: kept, opened };
    }

    /// Ends the connection with that number.
    pub fn unregister_connection(&mut self, number: u64)
        ensures
            final(self)@ == without_connection(old(self)@, number),
            final(self).opened() == old(self).opened(),
    {
        proof {
            use_type_invariant(&*self);
            lemma_fewer_connections(self@, Seq::empty(), number, self.opened as nat);
        }
        let mut bus = SessionBus { connections: Vec::new(), opened: 0 };
        std::mem::swap(self, &mut bus);
        let SessionBus { mut connections, opened } = bus;
        let ghost all = connection_views(connections@);
        let mut kept: Vec<Connection> = Vec::new();
        assert(connection_views(kept@) =~= Seq::empty());
        let ghost mut done: int = 0;
        assert(without_connection(all.take(0), number) =~= Seq::empty());
        connections = reversed(connections);
        while connections.len() > 0
            invariant
                0 <= done <= all.len(),
                connections@.len() == all.len() - done,
                forall|i: int|
                    0 <= i < connections@.len() ==> (#[trigger] connections@[i])@ == all[all.len()
                        - 1 - i],
                connection_views(kept@) == without_connection(all.take(done), number),
            decreases connections@.len(),
        {
            let ghost so_far = connection_views(kept@);
            let ghost n = connections@.len() - 1;
            match connections.pop() {
                Some(c) => {
                    proof {
                        assert(c@ == all[all.len() - 1 - n]);
                        assert(all.take(done + 1).drop_last() =~= all.take(done));
                        assert(all.take(done + 1).last() == c@);
                        done = done + 1;
                    }
                    if c.number != number {
                        let ghost view = c@;
                        kept.push(c);
                        assert(connection_views(kept@) =~= so_far.push(view));
                    }
                },
                None => {},
            }
        }
        assert(all.take(done) =~= all);
        *self = SessionBus { connections: kept, opened };
    }

    /// Whether an event is on its way, given which connections took it: one is enough.
    pub fn delivered(took: &Vec<bool>) -> (r: bool)
        ensures
            r == took@.contains(true),
    {
        let mut i: usize = 0;
        while i < took.len()
            invariant
                i <= took@.len(),
                forall|j: int| 0 <= j < i ==> !#[trigger] took@[j],
            decreases took@.len() - i,
        {
            if took[i] {
                assert(took@[i as int]);
                return true;
            }
            i += 1;
        }
        false
    }

    /// Sends an event to a session: it is offered once to every connection of the session,
    /// and to no other. The result says whether one of them took it; one that has no room
    /// loses it.
    pub fn send_to(&mut self, session_id: &str, event: SseEvent) -> (r: bool)
        ensures
            is_sent(old(self)@, final(self)@, session_id@, event),
            final(self).opened() == old(self).opened(),
            exists|answers: Seq<bool>|
                #[trigger] can_all_end(connections_of(old(self)@, session_id@), event, answers)
                    && r == answers.contains(true),
    {
        proof {
            use_type_invariant(&*self);
        }
        let ghost all = self@;
        let mut bus = SessionBus { connections: Vec::new(), opened: 0 };
        std::mem::swap(self, &mut bus);
        let SessionBus { mut connections, opened } = bus;
        let mut took: Vec<bool> = Vec::new();
        let mut i: usize = 0;
        assert(connections_of(all.take(0), session_id@) =~= Seq::empty());
        while i < connections.len()
            invariant
                i <= connections@.len(),
                connections@.len() == all.len(),
                forall|j: int|
                    0 <= j < i ==> if (#[trigger] all[j]).session_id == session_id@ {
                        got_offer(all[j], connections@[j]@, event)
                    } else {
                        connections@[j]@ == all[j]
                    },
                forall|j: int| i <= j < all.len() ==> connections@[j]@ == #[trigger] all[j],
                can_all_end(connections_of(all.take(i as int), session_id@), event, took@),
            decreases connections@.len() - i,
        {
            let ghost mine = connections_of(all.take(i as int), session_id@);
            proof {
                assert(all.take(i as int + 1).drop_last() =~= all.take(i as int));
                assert(all.take(i as int + 1).last() == connections@[i as int]@);
            }
            if eq(connections[i].session_id.as_str(), session_id) {
                let answer = offer(&mut connections[i].sender, event.clone());
                took.push(answer);
                proof {
                    let next = mine.push(all[i as int]);
                    assert forall|j: int| 0 <= j < next.len() implies can_end(
                        (#[trigger] next[j]).sender,
                        event,
                        took@[j],
                    ) by {
                        if j < mine.len() {
                            assert(next[j] == mine[j]);
                        }
                    }
                }
            }
            i += 1;
        }
        assert(all.take(i as int) =~= all);
        let ghost after = connection_views(connections@);
        assert(is_sent(all, after, session_id@, event));
        assert(is_numbered(after, opened as nat)) by {
            lemma_sent_is_numbered(all, after, session_id@, event, opened as nat);
        }
        *self = SessionBus { connections, opened };
        SessionBus::delivered(&took)
    }

    /// How many connections are open.
    pub fn registered_count(&self) -> (r: usize)
        ensures
            r == self@.len(),
    {
        self.connections.len()
    }
}

/// Sending leaves the connections numbered as they were.
proof fn lemma_sent_is_numbered(
    before: Seq<ConnectionView>,
    after: Seq<ConnectionView>,
    session: Seq<char>,
    event: SseEvent,
    opened: nat,
)
    requires
        is_numbered(before, opened),
        is_sent(before, after, session, event),
    ensures
        is_numbered(after, opened),
{
    assert forall|i: int| 0 <= i < after.len() implies (#[trigger] after[i]).number
        == before[i].number by {}
}

/// The connections, the last first.
fn reversed(connections: Vec<Connection>) -> (r: Vec<Connection>)
    ensures
        r@.len() == connections@.len(),
        forall|i: int|
            0 <= i < r@.len() ==> #[trigger] r@[i] == connections@[connections@.len() - 1 - i],
{
    let mut from = connections;
    let ghost all = from@;
    let mut out: Vec<Connection> = Vec::new();
    while from.len() > 0
        invariant
            out@.len() + from@.len() == all.len(),
            from@ == all.take(from@.len() as int),
            forall|i: int| 0 <= i < out@.len() ==> #[trigger] out@[i] == all[all.len() - 1 - i],
        decreases from@.len(),
    {
        let ghost n = from@.len() - 1;
        match from.pop() {
            Some(c) => {
                assert(c == all[n]);
                assert(from@ =~= all.take(n));
                out.push(c);
            },
            None => {},
        }
    }
    out
}

/// The connections of a session that has none but those of other sessions.
proof fn lemma_none_left(bus: Seq<ConnectionView>, session: Seq<char>)
    ensures
        connections_of(without_session(bus, session), session).len() == 0,
    decreases bus.len(),
{
    if bus.len() > 0 {
        lemma_none_left(bus.drop_last(), session);
        let rest = without_session(bus.drop_last(), session);
        if bus.last().session_id != session {
            assert(rest.push(bus.last()).drop_last() =~= rest);
        }
    }
}

/// A connection that is opened joins those that its session has: all of them get what is
/// sent to the session.
pub proof fn law_connections_of_a_session_share_events(
    bus: Seq<ConnectionView>,
    connection: ConnectionView,
)
    ensures
        connections_of(bus.push(connection), connection.session_id) == connections_of(
            bus,
            connection.session_id,
        ).push(connection),
{
    assert(bus.push(connection).drop_last() =~= bus);
}

/// What is opened or ended for one session leaves the connections of every other as they
/// are.
pub proof fn law_sessions_do_not_meet(
    bus: Seq<ConnectionView>,
    mine: Seq<char>,
    connection: ConnectionView,
)
    requires
        connection.session_id != mine,
    ensures
        connections_of(bus.push(connection), mine) == connections_of(bus, mine),
        connections_of(without_session(bus, connection.session_id), mine) == connections_of(
            bus,
            mine,
        ),
    decreases bus.len(),
{
    assert(bus.push(connection).drop_last() =~= bus);
    if bus.len() > 0 {
        law_sessions_do_not_meet(bus.drop_last(), mine, connection);
        let rest = without_session(bus.drop_last(), connection.session_id);
        if bus.last().session_id != connection.session_id {
            assert(rest.push(bus.last()).drop_last() =~= rest);
        }
    }
}

/// What the connections of a session were offered, connection by connection.
pub open spec fn offered_to(bus: Seq<ConnectionView>, session: Seq<char>) -> Seq<Seq<SseEvent>> {
    connections_of(bus, session).map_values(|c: ConnectionView| offered(c.sender))
}

/// What the connections of a session were offered, with that of one connection more.
proof fn lemma_offered_to_one_more(bus: Seq<ConnectionView>, session: Seq<char>)
    requires
        bus.len() > 0,
    ensures
        offered_to(bus, session) == if bus.last().session_id == session {
            offered_to(bus.drop_last(), session).push(offered(bus.last().sender))
        } else {
            offered_to(bus.drop_last(), session)
        },
{
    if bus.last().session_id == session {
        assert(offered_to(bus, session) =~= offered_to(bus.drop_last(), session).push(
            offered(bus.last().sender),
        ));
    }
}

/// An event reaches the session that it is sent to and no other: each connection of that
/// session is offered it, once, after what it was offered before, and what the connections
/// of every other session were offered stays as it was.
pub proof fn law_event_goes_to_its_session_alone(
    before: Seq<ConnectionView>,
    after: Seq<ConnectionView>,
    session: Seq<char>,
    event: SseEvent,
    other: Seq<char>,
)
    requires
        is_sent(before, after, session, event),
        other != session,
    ensures
        offered_to(after, other) == offered_to(before, other),
        connections_of(after, other) == connections_of(before, other),
        offered_to(after, session) == offered_to(before, session).map_values(
            |events: Seq<SseEvent>| events.push(event),
        ),
    decreases before.len(),
{
    let add = |events: Seq<SseEvent>| events.push(event);
    if before.len() > 0 {
        let a = before.drop_last();
        let b = after.drop_last();
        assert forall|i: int| 0 <= i < a.len() implies if (#[trigger] a[i]).session_id == session {
            got_offer(a[i], b[i], event)
        } else {
            b[i] == a[i]
        } by {
            assert(a[i] == before[i] && b[i] == after[i]);
        }
        law_event_goes_to_its_session_alone(a, b, session, event, other);
        lemma_offered_to_one_more(before, other);
        lemma_offered_to_one_more(after, other);
        lemma_offered_to_one_more(before, session);
        lemma_offered_to_one_more(after, session);
        assert(before[before.len() - 1] == before.last());
        assert(after[before.len() - 1] == after.last());
        assert(offered_to(after, session) =~= offered_to(before, session).map_values(add));
    } else {
        assert(offered_to(after, session) =~= offered_to(before, session).map_values(add));
        assert(offered_to(after, other) =~= offered_to(before, other));
    }
}

/// A session that was disconnected has no connection.
pub proof fn law_disconnected_session_gets_nothing(bus: Seq<ConnectionView>, session: Seq<char>)
    ensures
        connections_of(without_session(bus, session), session).len() == 0,
{
    lemma_none_left(bus, session);
}

/// A connection that ends leaves the other connections of its session as they are.
pub proof fn law_ended_connection_leaves_the_others(
    bus: Seq<ConnectionView>,
    session: Seq<char>,
    number: u64,
)
    ensures
        connections_of(without_connection(bus, number), session) == without_connection(
            connections_of(bus, session),
            number,
        ),
    decreases bus.len(),
{
    if bus.len() > 0 {
        law_ended_connection_leaves_the_others(bus.drop_last(), session, number);
        let rest = without_connection(bus.drop_last(), number);
        let mine = connections_of(bus.drop_last(), session);
        if bus.last().number != number {
            assert(rest.push(bus.last()).drop_last() =~= rest);
        }
        if bus.last().session_id == session {
            assert(mine.push(bus.last()).drop_last() =~= mine);
        }
    }
}

/// The connections of a session are those that were opened for it, all of them in their order.
/// Ending a session ends those and no others, and ending a connection ends the one with that
/// number and no other.
pub proof fn law_which_connections_are_meant(
    bus: Seq<ConnectionView>,
    session: Seq<char>,
    number: u64,
)
    ensures
        connections_of(bus, session) == bus.filter(
            |c: ConnectionView| c.session_id == session,
        ),
        without_session(bus, session) == bus.filter(|c: ConnectionView| c.session_id != session),
        without_connection(bus, number) == bus.filter(|c: ConnectionView| c.number != number),
    decreases bus.len(),
{
    reveal(Seq::filter);
    if bus.len() > 0 {
        law_which_connections_are_meant(bus.drop_last(), session, number);
    }
    assert(connections_of(bus, session) =~= bus.filter(
        |c: ConnectionView| c.session_id == session,
    ));
    assert(without_session(bus, session) =~= bus.filter(
        |c: ConnectionView| c.session_id != session,
    ));
    assert(without_connection(bus, number) =~= bus.filter(|c: ConnectionView| c.number != number));
}

/// An event that is sent to a session is offered once to each of its connections, after what that
/// was offered before, and to nobody else; no connection is opened or ended by it. A channel has
/// room for thirty-two events.
pub proof fn law_event_is_offered_once(
    before: Seq<ConnectionView>,
    after: Seq<ConnectionView>,
    session: Seq<char>,
    event: SseEvent,
    i: int,
)
    requires
        is_sent(before, after, session, event),
        0 <= i < before.len(),
    ensures
        after.len() == before.len(),
        after[i].session_id == before[i].session_id,
        after[i].number == before[i].number,
        before[i].session_id == session ==> offered(after[i].sender) == offered(
            before[i].sender,
        ).push(event),
        before[i].session_id != session ==> after[i] == before[i],
        forall|receiver: Receiver<SseEvent>|
            is_fed_by(receiver, after[i].sender) == is_fed_by(receiver, before[i].sender),
        PER_SESSION_BUFFER == 32,
{
    assert(before[i].session_id == session ==> got_offer(before[i], after[i], event));
}

} // verus!
