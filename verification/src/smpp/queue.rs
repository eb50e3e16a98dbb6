//! Submitted messages: the id allocator and the two indexes, one of every
//! message received and one of those still waiting for a delivery receipt.

use vstd::prelude::*;
use dashmap::DashMap;
use std::time::Instant;
use crate::smpp::session::{is_snapshot, lemma_snapshot_keys};
use crate::text::{format_hex8, hex8, hex_number, lemma_hex8_reads_back};

verus! {

#[verifier::external_type_specification]
#[verifier::external_body]
pub struct ExInstant(Instant);

/// `Instant::now`: the current reading of the monotonic clock. Nothing is
/// claimed of its value.
#[verifier::external_body]
pub(crate) fn monotonic_now() -> Instant {
    Instant::now()
}

/// A message that a client submitted.
#[derive(Debug)]
pub struct QueuedMessage {
    pub message_id: String,
    pub source_addr: String,
    pub dest_addr: String,
    pub short_message: Vec<u8>,
    pub data_coding: u8,
    /// The session that submitted the message and receives its receipt.
    pub session_id: String,
    pub submitted_at: Instant,
}

/// What a queued message holds, as mathematical values.
pub struct QueuedMessageView {
    pub message_id: Seq<char>,
    pub source_addr: Seq<char>,
    pub dest_addr: Seq<char>,
    pub short_message: Seq<u8>,
    pub data_coding: u8,
    pub session_id: Seq<char>,
    pub submitted_at: Instant,
}

impl View for QueuedMessage {
    type V = QueuedMessageView;

    open spec fn view(&self) -> QueuedMessageView {
        QueuedMessageView {
            message_id: self.message_id@,
            source_addr: self.source_addr@,
            dest_addr: self.dest_addr@,
            short_message: self.short_message@,
            data_coding: self.data_coding,
            session_id: self.session_id@,
            submitted_at: self.submitted_at,
        }
    }
}

impl Clone for QueuedMessage {
    fn clone(&self) -> (r: Self)
        ensures
            r@ == self@,
    {
        QueuedMessage {
            message_id: self.message_id.clone(),
            source_addr: self.source_addr.clone(),
            dest_addr: self.dest_addr.clone(),
            short_message: self.short_message.clone(),
            data_coding: self.data_coding,
            session_id: self.session_id.clone(),
            submitted_at: self.submitted_at,
        }
    }
}

/// A mobile-originated message to be delivered to a bound receiver. A text
/// that begins with `0x` stands for a binary payload in hexadecimal.
#[derive(Debug)]
pub struct MoMessage {
    pub source_addr: String,
    pub dest_addr: String,
    pub short_message: String,
}

impl Clone for MoMessage {
    fn clone(&self) -> (r: Self)
        ensures
            r.source_addr@ == self.source_addr@,
            r.dest_addr@ == self.dest_addr@,
            r.short_message@ == self.short_message@,
    {
        MoMessage {
            source_addr: self.source_addr.clone(),
            dest_addr: self.dest_addr.clone(),
            short_message: self.short_message.clone(),
        }
    }
}

/// The messages that a map holds, by key.
pub uninterp spec fn message_entries(map: DashMap<String, QueuedMessage>) -> Map<
    Seq<char>,
    QueuedMessageView,
>;

/// The index without messages.
pub open spec fn no_messages() -> Map<Seq<char>, QueuedMessageView> {
    Map::empty()
}

/// The views of a list of messages.
pub open spec fn message_views(items: Seq<QueuedMessage>) -> Seq<QueuedMessageView> {
    items.map_values(|m: QueuedMessage| m@)
}

/// `DashMap::new`: a map without entries.
#[verifier::external_body]
fn messages_new() -> (r: DashMap<String, QueuedMessage>)
    ensures
        message_entries(r) == no_messages(),
{
    DashMap::new()
}

/// `DashMap::insert`: afterwards the map holds `value` under `key`, in
/// place of what it held there, and its other entries are unchanged.
#[verifier::external_body]
fn messages_insert(map: &mut DashMap<String, QueuedMessage>, key: String, value: QueuedMessage)
    ensures
        message_entries(*final(map)) == message_entries(*old(map)).insert(key@, value@),
    no_unwind
{
    map.insert(key, value);
}

/// `DashMap::remove`: afterwards the map has no entry under `key`, and its
/// other entries are unchanged.
#[verifier::external_body]
fn messages_remove(map: &mut DashMap<String, QueuedMessage>, key: &str)
    ensures
        message_entries(*final(map)) == message_entries(*old(map)).remove(key@),
    no_unwind
{
    map.remove(key);
}

/// `DashMap::len`: the number of entries.
#[verifier::external_body]
fn messages_len(map: &DashMap<String, QueuedMessage>) -> (r: usize)
    ensures
        r == message_entries(*map).dom().len(),
{
    map.len()
}

/// `DashMap::iter`, cloning each value: every entry once, in the order in
/// which the map walks its shards, of which nothing is claimed.
#[verifier::external_body]
fn messages_values(map: &DashMap<String, QueuedMessage>) -> (r: Vec<QueuedMessage>)
    ensures
        is_snapshot(message_views(r@), message_entries(*map)),
{
    map.iter().map(|entry| entry.value().clone()).collect()
}

/// `items` lists the messages of `index`, each once, in some order.
pub open spec fn lists_messages(
    items: Seq<QueuedMessageView>,
    index: Map<Seq<char>, QueuedMessageView>,
) -> bool {
    &&& forall|i: int|
        0 <= i < items.len() ==> index.contains_key(#[trigger] items[i].message_id)
            && index[items[i].message_id] == items[i]
    &&& forall|k: Seq<char>| #[trigger]
        index.contains_key(k) ==> exists|i: int|
            0 <= i < items.len() && #[trigger] items[i].message_id == k
    &&& forall|i: int, j: int|
        0 <= i < j < items.len() ==> #[trigger] items[i].message_id
            != #[trigger] items[j].message_id
}

/// Every entry of `index` stands under the id of its message.
pub open spec fn keyed_by_message_id(index: Map<Seq<char>, QueuedMessageView>) -> bool {
    forall|k: Seq<char>| #[trigger] index.contains_key(k) ==> index[k].message_id == k
}

/// A snapshot of an index that is keyed by message id lists its messages.
proof fn lemma_snapshot_lists_messages(
    items: Seq<QueuedMessageView>,
    index: Map<Seq<char>, QueuedMessageView>,
)
    requires
        is_snapshot(items, index),
        keyed_by_message_id(index),
        index.dom().finite(),
    ensures
        lists_messages(items, index),
        items.len() == index.len(),
{
    let keys = lemma_snapshot_keys(items, index);
    assert forall|i: int| 0 <= i < items.len() implies #[trigger] items[i].message_id
        == keys[i] by {
        assert(index.contains_key(keys[i]));
    }
    assert forall|k: Seq<char>| #[trigger] index.contains_key(k) implies exists|i: int|
        0 <= i < items.len() && #[trigger] items[i].message_id == k by {
        let i = choose|i: int| 0 <= i < keys.len() && #[trigger] keys[i] == k;
        assert(items[i].message_id == k);
    }
}

/// The id that is issued `i` allocations after the counter stood at `start`.
pub open spec fn issued_id(start: u32, i: nat) -> Seq<char> {
    hex8((start + i) % 0x1_0000_0000)
}

/// The message queue of the gateway.
pub struct MessageQueue {
    pending_dr: DashMap<String, QueuedMessage>,
    all_messages: DashMap<String, QueuedMessage>,
    message_id_counter: u32,
}

impl MessageQueue {
    /// The messages that wait for a delivery receipt, by message id.
    pub closed spec fn pending(&self) -> Map<Seq<char>, QueuedMessageView> {
        message_entries(self.pending_dr)
    }

    /// Every message received, by message id.
    pub closed spec fn recent(&self) -> Map<Seq<char>, QueuedMessageView> {
        message_entries(self.all_messages)
    }

    /// The number that the next message id is made of.
    pub closed spec fn counter(&self) -> u32 {
        self.message_id_counter
    }

    /// What holds of every queue: both indexes are finite and keyed by
    /// message id, and the id of a message that waits for its receipt is also
    /// the id of a message received.
    #[verifier::type_invariant]
    pub open spec fn well_formed(&self) -> bool {
        &&& self.pending().dom().finite()
        &&& self.recent().dom().finite()
        &&& keyed_by_message_id(self.pending())
        &&& keyed_by_message_id(self.recent())
        &&& self.pending().dom().subset_of(self.recent().dom())
    }

    /// An empty queue whose first message id is `00000001`.
    pub fn new() -> (r: Self)
        ensures
            r.pending() == no_messages(),
            r.recent() == no_messages(),
            r.counter() == 1,
            r.well_formed(),
    {
        MessageQueue {
            pending_dr: messages_new(),
            all_messages: messages_new(),
            message_id_counter: 1,
        }
    }

    /// Allocates the next message id: the counter as eight upper-case
    /// hexadecimal digits. The counter then moves on by one and wraps round
    /// after `FFFFFFFF`.
    pub fn next_message_id(&mut self) -> (r: String)
        ensures
            r@ == issued_id(old(self).counter(), 0),
            final(self).counter() == (old(self).counter() + 1) % 0x1_0000_0000,
            final(self).pending() == old(self).pending(),
            final(self).recent() == old(self).recent(),
            final(self).well_formed(),
    {
        proof {
            use_type_invariant(&*self);
        }
        let id = self.message_id_counter;
        self.message_id_counter = id.wrapping_add(1);
        format_hex8(id)
    }

    /// Indexes `msg` under its message id, both among the messages received
    /// and among those that wait for a receipt.
    pub fn add_pending_dr(&mut self, msg: QueuedMessage)
        ensures
            final(self).pending() == old(self).pending().insert(msg@.message_id, msg@),
            final(self).recent() == old(self).recent().insert(msg@.message_id, msg@),
            final(self).counter() == old(self).counter(),
            final(self).well_formed(),
    {
        proof {
            use_type_invariant(&*self);
        }
        let copy = msg.clone();
        messages_insert(&mut self.all_messages, copy.message_id.clone(), copy);
        messages_insert(&mut self.pending_dr, msg.message_id.clone(), msg);
    }

    /// Every message received, each once, in no particular order.
    pub fn get_recent_messages(&self) -> (r: Vec<QueuedMessage>)
        ensures
            lists_messages(message_views(r@), self.recent()),
            r.len() == self.recent().len(),
            self.well_formed(),
    {
        proof {
            use_type_invariant(self);
        }
        let all = messages_values(&self.all_messages);
        proof {
            lemma_snapshot_lists_messages(message_views(all@), self.recent());
        }
        all
    }

    /// How many messages were received.
    pub fn message_count(&self) -> (r: usize)
        ensures
            r == self.recent().len(),
            self.well_formed(),
    {
        proof {
            use_type_invariant(self);
        }
        messages_len(&self.all_messages)
    }

    /// How many messages wait for a delivery receipt.
    pub fn pending_dr_count(&self) -> (r: usize)
        ensures
            r == self.pending().len(),
            self.well_formed(),
    {
        proof {
            use_type_invariant(self);
        }
        messages_len(&self.pending_dr)
    }

    /// The messages that wait for a delivery receipt, each once, in no
    /// particular order.
    pub fn get_pending_messages(&self) -> (r: Vec<QueuedMessage>)
        ensures
            lists_messages(message_views(r@), self.pending()),
            r.len() == self.pending().len(),
            self.well_formed(),
    {
        proof {
            use_type_invariant(self);
        }
        let all = messages_values(&self.pending_dr);
        proof {
            lemma_snapshot_lists_messages(message_views(all@), self.pending());
        }
        all
    }

    /// Takes the message with this id out of the messages that wait for a
    /// receipt. It stays among the messages received.
    pub fn remove_pending_dr(&mut self, message_id: &str)
        ensures
            final(self).pending() == old(self).pending().remove(message_id@),
            final(self).recent() == old(self).recent(),
            final(self).counter() == old(self).counter(),
            final(self).well_formed(),
    {
        proof {
            use_type_invariant(&*self);
        }
        messages_remove(&mut self.pending_dr, message_id);
    }
}

/// Message ids are issued in ascending order and none is issued twice, as
/// long as the counter does not wrap round: of two allocations after the
/// counter stood at `start`, the later one yields the id that reads as the
/// greater hexadecimal number.
pub proof fn lemma_message_ids_ascend(start: u32, i: nat, j: nat)
    requires
        i < j,
        start + j < 0x1_0000_0000,
    ensures
        hex_number(issued_id(start, i)) == start + i,
        hex_number(issued_id(start, j)) == start + j,
        hex_number(issued_id(start, i)) < hex_number(issued_id(start, j)),
        issued_id(start, i) != issued_id(start, j),
{
    let a = (start + i) as int;
    let b = (start + j) as int;
    assert(a % 0x1_0000_0000 == a && b % 0x1_0000_0000 == b);
    assert(issued_id(start, i) == hex8(a) && issued_id(start, j) == hex8(b));
    lemma_hex8_reads_back(a);
    lemma_hex8_reads_back(b);
}

} // verus!
