//! The bounded outgoing queue of each connection, and delivery of one message
//! to many connections: to all of them, or to none when a queue cannot take it.
use vstd::prelude::*;
use tokio::sync::mpsc::error::TrySendError;
use tokio::sync::mpsc::{OwnedPermit, Sender};
use crate::text::string_views;
use crate::websocket::hub::{delivery_outcome, reserved_before, Reservation};
use crate::websocket::protocol::ServerMessage;
use crate::websocket::server::WebSocketError;

verus! {

broadcast use vstd::seq_lib::group_seq_properties;

/// The sending end of a bounded queue (tokio's `mpsc::Sender`).
#[verifier::external_type_specification]
#[verifier::external_body]
#[verifier::reject_recursive_types(T)]
pub struct ExSender<T>(tokio::sync::mpsc::Sender<T>);

/// Room for one message, reserved in a bounded queue (tokio's `mpsc::OwnedPermit`).
#[verifier::external_type_specification]
#[verifier::external_body]
#[verifier::reject_recursive_types(T)]
pub struct ExOwnedPermit<T>(tokio::sync::mpsc::OwnedPermit<T>);

/// `Sender::try_reserve_owned` on a handle to the queue of `sender`: room
/// for one message when the queue has some; otherwise why not, the queue
/// being full or closed (its receiver gone). A refusal is never `Reserved`.
/// Whether there is room depends on what the receiver has read, so which
/// outcome comes is left open.
#[verifier::external_body]
fn try_reserve(sender: &Sender<ServerMessage>) -> (res: Result<OwnedPermit<ServerMessage>, Reservation>)
    ensures
        res matches Err(r) ==> r != Reservation::Reserved,
{
    match sender.clone().try_reserve_owned() {
        Ok(permit) => Ok(permit),
        Err(TrySendError::Full(_)) => Err(Reservation::QueueFull),
        Err(TrySendError::Closed(_)) => Err(Reservation::Closed),
    }
}

/// `OwnedPermit::send`: puts `message` in the room that `permit` reserved.
#[verifier::external_body]
fn send_on_permit(permit: OwnedPermit<ServerMessage>, message: ServerMessage) {
    let _sender = permit.send(message);
}

/// `Sender::try_send`: puts `message` in the queue of `sender` when it has
/// room; otherwise says why not, the queue being full or closed. A refusal
/// is never `Reserved`; which outcome comes is left open.
#[verifier::external_body]
fn try_send(sender: &Sender<ServerMessage>, message: ServerMessage) -> (res: Result<(), Reservation>)
    ensures
        res matches Err(r) ==> r != Reservation::Reserved,
{
    match sender.try_send(message) {
        Ok(()) => Ok(()),
        Err(TrySendError::Full(_)) => Err(Reservation::QueueFull),
        Err(TrySendError::Closed(_)) => Err(Reservation::Closed),
    }
}

/// The queue of one connection.
struct QueueEntry {
    connection_id: String,
    sender: Sender<ServerMessage>,
}

/// The connection ids of `entries`.
spec fn entry_ids(entries: Seq<QueueEntry>) -> Seq<Seq<char>> {
    entries.map_values(|e: QueueEntry| e.connection_id@)
}

/// The outgoing queues of the connections, one per connection id.
pub struct OutboundQueues {
    entries: Vec<QueueEntry>,
}

impl View for OutboundQueues {
    type V = Set<Seq<char>>;

    /// The ids of the connections that have a queue.
    closed spec fn view(&self) -> Set<Seq<char>> {
        entry_ids(self.entries@).to_set()
    }
}

/// Whether `e` is the error for a queue that could not take a message for
/// connection `connection_id`: full, or closed as if the connection were gone.
pub open spec fn is_queue_refusal(e: WebSocketError, connection_id: Seq<char>) -> bool {
    ||| e matches WebSocketError::ConnectionNotFound
    ||| (e matches WebSocketError::OutboundQueueFull { connection_id: c } && c@ == connection_id)
}

impl OutboundQueues {
    /// No connection has two queues.
    #[verifier::type_invariant]
    spec fn ids_are_distinct(&self) -> bool {
        entry_ids(self.entries@).no_duplicates()
    }

    /// No queues.
    pub fn new() -> (res: Self)
        ensures
            res@ == Set::<Seq<char>>::empty(),
    {
        let res = OutboundQueues { entries: Vec::new() };
        assert(res@ =~= Set::<Seq<char>>::empty());
        res
    }

    /// The index of the queue of `connection_id`, if it has one.
    fn find(&self, connection_id: &str) -> (res: Option<usize>)
        ensures
            match res {
                Some(i) => i < self.entries@.len() && entry_ids(self.entries@)[i as int] == connection_id@,
                None => !self@.contains(connection_id@),
            },
    {
        let id = String::from_str(connection_id);
        let mut i: usize = 0;
        while i < self.entries.len()
            invariant
                i <= self.entries@.len(),
                id@ == connection_id@,
                forall|j: int| 0 <= j < i ==> entry_ids(self.entries@)[j] != connection_id@,
            decreases self.entries.len() - i,
        {
            assert(entry_ids(self.entries@)[i as int] == self.entries@[i as int].connection_id@);
            if self.entries[i].connection_id == id {
                return Some(i);
            }
            i += 1;
        }
        None
    }

    /// Whether connection `connection_id` has a queue.
    pub fn has_queue(&self, connection_id: &str) -> (res: bool)
        ensures
            res == self@.contains(connection_id@),
    {
        self.find(connection_id).is_some()
    }

    /// Gives connection `connection_id` the queue of `sender`, in place of
    /// any it had.
    pub fn insert(&mut self, connection_id: String, sender: Sender<ServerMessage>)
        ensures
            final(self)@ == old(self)@.insert(connection_id@),
    {
        proof { use_type_invariant(&*self); }
        let ghost id = connection_id@;
        self.remove(connection_id.as_str());
        proof { use_type_invariant(&*self); }
        let mut entries: Vec<QueueEntry> = Vec::new();
        std::mem::swap(&mut entries, &mut self.entries);
        let ghost before = entry_ids(entries@);
        assert(before.no_duplicates());
        assert(!before.contains(id)) by {
            assert(!before.to_set().contains(id));
        }
        entries.push(QueueEntry { connection_id, sender });
        proof {
            assert(entry_ids(entries@) =~= before.push(id));
            assert(before.push(id).no_duplicates()) by {
                assert forall|a: int, b: int| 0 <= a < b < before.len() + 1 implies before.push(id)[a] != before.push(id)[b] by {
                    if b == before.len() {
                        assert(before.contains(before[a]));
                    }
                }
            }
            assert(entry_ids(entries@).to_set() =~= before.to_set().insert(id));
        }
        self.entries = entries;
        proof {
            assert(old(self)@.insert(id) =~= old(self)@.remove(id).insert(id));
        }
    }

    /// Drops the queue of connection `connection_id`, if it has one.
    pub fn remove(&mut self, connection_id: &str)
        ensures
            final(self)@ == old(self)@.remove(connection_id@),
    {
        proof { use_type_invariant(&*self); }
        match self.find(connection_id) {
            None => {
                assert(self@ =~= old(self)@.remove(connection_id@));
            },
            Some(i) => {
                let mut entries: Vec<QueueEntry> = Vec::new();
                std::mem::swap(&mut entries, &mut self.entries);
                let ghost ids = entry_ids(entries@);
                let _removed = entries.remove(i);
                proof {
                    let rest = entry_ids(entries@);
                    assert(rest =~= ids.remove(i as int));
                    assert forall|c: Seq<char>| rest.contains(c) <==> (ids.contains(c) && c != connection_id@) by {
                        if rest.contains(c) {
                            let k = choose|k: int| 0 <= k < rest.len() && rest[k] == c;
                            if k < i {
                                assert(ids[k] == c);
                            } else {
                                assert(ids[k + 1] == c);
                            }
                        }
                        if ids.contains(c) && c != connection_id@ {
                            let k = choose|k: int| 0 <= k < ids.len() && ids[k] == c;
                            if k < i {
                                assert(rest[k] == c);
                            } else {
                                assert(k != i);
                                assert(rest[k - 1] == c);
                            }
                        }
                    }
                    assert(rest.to_set() =~= ids.to_set().remove(connection_id@));
                }
                self.entries = entries;
            },
        }
    }

    /// Puts `message` in the queue of connection `connection_id`. It fails
    /// with `ConnectionNotFound` when the connection has no queue; otherwise
    /// it fails only when the queue is full (`OutboundQueueFull`) or closed
    /// (`ConnectionNotFound`).
    pub fn send_to(&self, connection_id: &str, message: ServerMessage) -> (res: Result<(), WebSocketError>)
        ensures
            !self@.contains(connection_id@) ==> res matches Err(WebSocketError::ConnectionNotFound),
            res matches Err(e) ==> is_queue_refusal(e, connection_id@),
    {
        match self.find(connection_id) {
            None => Err(WebSocketError::ConnectionNotFound),
            Some(i) => match try_send(&self.entries[i].sender, message) {
                Ok(()) => Ok(()),
                Err(Reservation::QueueFull) => Err(WebSocketError::OutboundQueueFull {
                    connection_id: String::from_str(connection_id),
                }),
                Err(_) => Err(WebSocketError::ConnectionNotFound),
            },
        }
    }

    /// Delivers `message` to every connection of `recipients`, or to none.
    /// Room is reserved in each recipient's queue in turn, up to the first
    /// that cannot give it (no queue, full, or closed); only when all gave
    /// room is the message put in every queue, and the result is the number
    /// of recipients. Otherwise the reservations made are given back and the
    /// result is the error of that first recipient (see `delivery_outcome`):
    /// in particular a delivery to a connection without a queue always fails.
    pub fn deliver(&self, recipients: &Vec<String>, message: ServerMessage) -> (res: Result<usize, WebSocketError>)
        ensures
            (exists|j: int| 0 <= j < recipients@.len() && !self@.contains(#[trigger] recipients@[j]@)) ==> res is Err,
            res matches Ok(n) ==> n == recipients@.len(),
            res matches Err(e) ==> exists|k: int| 0 <= k < recipients@.len()
                && (forall|j: int| 0 <= j < k ==> self@.contains(#[trigger] recipients@[j]@))
                && #[trigger] is_queue_refusal(e, recipients@[k]@)
                && (!self@.contains(recipients@[k]@) ==> e matches WebSocketError::ConnectionNotFound),
    {
        let mut reservations: Vec<Reservation> = Vec::new();
        let mut permits: Vec<OwnedPermit<ServerMessage>> = Vec::new();
        let mut i: usize = 0;
        while i < recipients.len()
            invariant
                i <= recipients@.len(),
                reservations@.len() == i,
                permits@.len() == i,
                reserved_before(reservations@, i as int),
                forall|j: int| 0 <= j < i ==> self@.contains(#[trigger] recipients@[j]@),
            decreases recipients.len() - i,
        {
            let refusal = match self.find(recipients[i].as_str()) {
                None => Some(Reservation::Closed),
                Some(k) => match try_reserve(&self.entries[k].sender) {
                    Ok(permit) => {
                        permits.push(permit);
                        None
                    },
                    Err(r) => Some(r),
                },
            };
            match refusal {
                Some(r) => {
                    reservations.push(r);
                    let outcome = delivery_outcome(recipients, &reservations);
                    proof {
                        assert(reservations@[i as int] == r);
                        assert(reserved_before(reservations@, i as int));
                        if !self@.contains(recipients@[i as int]@) {
                            assert(r == Reservation::Closed);
                        }
                        if outcome is Err {
                            assert(is_queue_refusal(outcome->Err_0, recipients@[i as int]@));
                        }
                    }
                    return outcome;
                },
                None => {
                    reservations.push(Reservation::Reserved);
                    proof {
                        assert(self@.contains(recipients@[i as int]@));
                    }
                },
            }
            i += 1;
        }
        let outcome = delivery_outcome(recipients, &reservations);
        send_all(permits, &message, Ghost(reservations@), Ghost(recipients@));
        outcome
    }
}

/// Sends `message` on each of `permits`: the room reserved for every one of
/// `recipients`, each of whose reservations succeeded.
fn send_all(
    permits: Vec<OwnedPermit<ServerMessage>>,
    message: &ServerMessage,
    reservations: Ghost<Seq<Reservation>>,
    recipients: Ghost<Seq<String>>,
)
    requires
        permits@.len() == recipients@.len(),
        reservations@.len() == recipients@.len(),
        reserved_before(reservations@, recipients@.len() as int),
{
    let mut permits = permits;
    while permits.len() > 0
        decreases permits@.len(),
    {
        let permit = permits.pop().unwrap();
        send_on_permit(permit, message.clone());
    }
}

} // verus!
