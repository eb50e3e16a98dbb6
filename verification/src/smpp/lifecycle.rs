//! The lifecycle of submitted messages: when a message reaches a final
//! state, which state it is, and the delivery receipt that reports it.

use vstd::prelude::*;
use vstd::string::{StrSliceExecFns, StringExecFns};
use vstd::utf8::{decode_utf8, encode_utf8, valid_utf8};
use std::time::{Duration, Instant};
use crate::config::{AppConfig, LifecycleConfig};
use crate::smpp::pdu::{
    address_or_empty, deliver_command, deliver_command_view, payload_or_empty, sanitized_address,
    sanitized_payload, SmppCommand, SmppCommandView,
};
use crate::smpp::pdu::SHORT_MESSAGE_MAX;
use crate::smpp::queue::{
    issued_id, message_views, monotonic_now, no_messages, MessageQueue, QueuedMessage,
    QueuedMessageView,
};
use crate::smpp::session::{SessionManager, SessionView};
use crate::text::{
    is_upper_hex, lemma_encode_utf8_concat, lemma_encode_utf8_length, lemma_hex8_reads_back,
};

verus! {

/// Final state of a submitted message.
#[derive(Debug, Clone, Copy, PartialEq, Eq, Structural)]
pub enum MessageState {
    Delivered,
    Undeliverable,
    Accepted,
    Rejected,
}

impl MessageState {
    /// The abbreviation of the state in a delivery receipt.
    pub open spec fn stat_text(self) -> Seq<char> {
        match self {
            MessageState::Delivered => "DELIVRD"@,
            MessageState::Undeliverable => "UNDELIV"@,
            MessageState::Accepted => "ACCEPTD"@,
            MessageState::Rejected => "REJECTD"@,
        }
    }

    /// The abbreviation of the state in a delivery receipt.
    pub fn stat(&self) -> (r: &'static str)
        ensures
            r@ == self.stat_text(),
    {
        match self {
            MessageState::Delivered => "DELIVRD",
            MessageState::Undeliverable => "UNDELIV",
            MessageState::Accepted => "ACCEPTD",
            MessageState::Rejected => "REJECTD",
        }
    }
}

/// The state that a roll selects. The shares are laid out one after the
/// other from 0, in the order delivered, undeliverable, accepted, rejected;
/// the roll selects the share that it falls into, and `Delivered` where it
/// falls behind all four.
pub open spec fn state_for_roll(roll: int, config: LifecycleConfig) -> MessageState {
    let delivered = config.percent_delivered as int;
    let undeliverable = delivered + config.percent_undeliverable;
    let accepted = undeliverable + config.percent_accepted;
    let rejected = accepted + config.percent_rejected;
    if roll < delivered {
        MessageState::Delivered
    } else if roll < undeliverable {
        MessageState::Undeliverable
    } else if roll < accepted {
        MessageState::Accepted
    } else if roll < rejected {
        MessageState::Rejected
    } else {
        MessageState::Delivered
    }
}

/// The state that `roll` selects.
pub fn pick_state(roll: u8, config: &LifecycleConfig) -> (r: MessageState)
    ensures
        r == state_for_roll(roll as int, *config),
{
    let roll: u32 = roll as u32;
    let mut cumulative: u32 = config.percent_delivered as u32;
    if roll < cumulative {
        return MessageState::Delivered;
    }
    cumulative += config.percent_undeliverable as u32;
    if roll < cumulative {
        return MessageState::Undeliverable;
    }
    cumulative += config.percent_accepted as u32;
    if roll < cumulative {
        return MessageState::Accepted;
    }
    cumulative += config.percent_rejected as u32;
    if roll < cumulative {
        return MessageState::Rejected;
    }
    MessageState::Delivered
}

/// The state of a message that has been under way for `elapsed_ms`
/// milliseconds: none before the time en route is over, and afterwards the
/// state that the roll selects.
pub open spec fn transition(elapsed_ms: u64, roll: int, config: LifecycleConfig) -> Option<
    MessageState,
> {
    if elapsed_ms >= config.max_time_enroute_ms {
        Some(state_for_roll(roll, config))
    } else {
        None
    }
}

/// The final state of a message that has been under way for `elapsed_ms`
/// milliseconds, if it has reached one.
pub fn transition_for(elapsed_ms: u64, roll: u8, config: &LifecycleConfig) -> (r: Option<
    MessageState,
>)
    ensures
        r == transition(elapsed_ms, roll as int, *config),
{
    if elapsed_ms >= config.max_time_enroute_ms {
        Some(pick_state(roll, config))
    } else {
        None
    }
}

/// `Instant::duration_since`: the time from `earlier` to `later`.
#[verifier::external_body]
fn time_between(later: Instant, earlier: Instant) -> Duration {
    later.duration_since(earlier)
}

/// `Duration::as_millis`: the whole milliseconds of a duration.
#[verifier::external_body]
fn whole_millis(duration: Duration) -> u128 {
    duration.as_millis()
}

/// `rand::rng` and `Rng::random_range` over `0..100`: a number below 100.
/// Nothing else is claimed of it.
#[verifier::external_body]
fn roll_percent() -> (r: u8)
    ensures
        r < 100,
{
    rand::Rng::random_range(&mut rand::rng(), 0..100)
}

/// Whether `msg` has reached a final state, and which: what `transition`
/// gives for the time that the message has been under way and for a uniform
/// roll below 100. Neither the time nor the roll is known beforehand, so a
/// message that is due at once, with no time en route at all, is the one
/// case in which the result is sure to be a state.
pub fn check_transition(msg: &QueuedMessage, config: &AppConfig) -> (r: Option<MessageState>)
    ensures
        exists|elapsed_ms: u64, roll: int|
            0 <= roll < 100 && r == #[trigger] transition(elapsed_ms, roll, config.lifecycle),
        r matches Some(state) ==> exists|roll: int|
            0 <= roll < 100 && state == #[trigger] state_for_roll(roll, config.lifecycle),
        config.lifecycle.max_time_enroute_ms == 0 ==> r is Some,
{
    let millis = whole_millis(time_between(monotonic_now(), msg.submitted_at));
    let elapsed: u64 = if millis > u64::MAX as u128 {
        u64::MAX
    } else {
        millis as u64
    };
    let roll = roll_percent();
    let r = transition_for(elapsed, roll, &config.lifecycle);
    assert(r == transition(elapsed, roll as int, config.lifecycle));
    r
}

/// The text that `String::from_utf8_lossy` makes of `octets`.
pub uninterp spec fn utf8_lossy(octets: Seq<u8>) -> Seq<char>;

/// `String::from_utf8_lossy`: the octets read as UTF-8, with the replacement
/// character in place of what is not valid. Octets that are valid UTF-8 come
/// back as the text that they encode.
#[verifier::external_body]
fn lossy_text(octets: &[u8]) -> (r: String)
    ensures
        r@ == utf8_lossy(octets@),
        valid_utf8(octets@) ==> r@ == decode_utf8(octets@),
{
    String::from_utf8_lossy(octets).into_owned()
}

/// `chrono::Local::now` and its `format` with `%y%m%d%H%M`: the local time
/// as ten decimal digits. Nothing is claimed of which digits.
#[verifier::external_body]
fn local_timestamp() -> (r: String)
    ensures
        is_receipt_date(r@),
{
    chrono::Local::now().format("%y%m%d%H%M").to_string()
}

/// Whether `c` is a decimal digit.
pub open spec fn is_digit(c: char) -> bool {
    '0' <= c && c <= '9'
}

/// Whether `date` has the form of a date in a receipt: ten decimal digits.
pub open spec fn is_receipt_date(date: Seq<char>) -> bool {
    &&& date.len() == 10
    &&& forall|i: int| 0 <= i < date.len() ==> is_digit(#[trigger] date[i])
}

/// How many characters of the original message a receipt quotes.
pub const EXCERPT_LENGTH: usize = 20;

/// The first 20 characters of `text`, or all of it where it is shorter.
pub open spec fn excerpt(text: Seq<char>) -> Seq<char> {
    if text.len() <= EXCERPT_LENGTH {
        text
    } else {
        text.take(EXCERPT_LENGTH as int)
    }
}

/// The text of a delivery receipt. Both dates are the time of the receipt.
pub open spec fn receipt_text(
    message_id: Seq<char>,
    date: Seq<char>,
    state: MessageState,
    quoted: Seq<char>,
) -> Seq<char> {
    "id:"@ + message_id + " sub:001 dlvrd:001 submit date:"@ + date + " done date:"@ + date
        + " stat:"@ + state.stat_text() + " err:000 text:"@ + quoted
}

/// Writes the text of a delivery receipt.
pub fn format_receipt(message_id: &str, date: &str, state: MessageState, quoted: &str) -> (r:
    String)
    ensures
        r@ == receipt_text(message_id@, date@, state, quoted@),
{
    let mut text = String::from_str("id:");
    text.append(message_id);
    text.append(" sub:001 dlvrd:001 submit date:");
    text.append(date);
    text.append(" done date:");
    text.append(date);
    text.append(" stat:");
    text.append(state.stat());
    text.append(" err:000 text:");
    text.append(quoted);
    text
}

/// The delivery receipt for `msg`, given the text that its payload reads
/// as: a message from the destination of `msg` back to its source, whose
/// text reports the state and quotes the start of the original message.
pub open spec fn receipt_command_of(
    msg: QueuedMessageView,
    state: MessageState,
    date: Seq<char>,
    original: Seq<char>,
) -> SmppCommandView {
    deliver_command_view(
        address_or_empty(msg.dest_addr),
        address_or_empty(msg.source_addr),
        payload_or_empty(
            encode_utf8(receipt_text(msg.message_id, date, state, excerpt(original))),
        ),
    )
}

/// The delivery receipt for `msg`.
pub open spec fn receipt_command(msg: QueuedMessageView, state: MessageState, date: Seq<char>) -> SmppCommandView {
    receipt_command_of(msg, state, date, utf8_lossy(msg.short_message))
}

/// Builds the delivery receipt for `msg`, dated `date`. Where the payload of
/// `msg` is valid UTF-8, the receipt quotes the text that it encodes.
pub fn build_delivery_receipt(msg: &QueuedMessage, state: MessageState, date: &str) -> (r: SmppCommand)
    ensures
        r@ == receipt_command(msg@, state, date@),
        valid_utf8(msg@.short_message) ==> r@ == receipt_command_of(
            msg@,
            state,
            date@,
            decode_utf8(msg@.short_message),
        ),
{
    let original = lossy_text(msg.short_message.as_slice());
    let length = original.as_str().unicode_len();
    let quoted = if length <= EXCERPT_LENGTH {
        original.as_str()
    } else {
        original.as_str().substring_char(0, EXCERPT_LENGTH)
    };
    let text = format_receipt(msg.message_id.as_str(), date, state, quoted);
    deliver_command(
        sanitized_address(msg.dest_addr.as_str()),
        sanitized_address(msg.source_addr.as_str()),
        sanitized_payload(text.as_str().as_bytes()),
    )
}

/// Builds the delivery receipt for `msg`, dated with the local time. Where
/// the payload of `msg` is valid UTF-8, the receipt quotes the text that it
/// encodes.
pub fn create_delivery_receipt(msg: &QueuedMessage, state: MessageState, _config: &AppConfig) -> (r:
    Option<SmppCommand>)
    ensures
        r matches Some(receipt) && exists|date: Seq<char>|
            is_receipt_date(date) && receipt@ == #[trigger] receipt_command(msg@, state, date),
        r matches Some(receipt) && (valid_utf8(msg@.short_message) ==> exists|date: Seq<char>|
            is_receipt_date(date) && receipt@ == #[trigger] receipt_command_of(
                msg@,
                state,
                date,
                decode_utf8(msg@.short_message),
            )),
{
    let date = local_timestamp();
    let receipt = build_delivery_receipt(msg, state, date.as_str());
    proof {
        assert(receipt@ == receipt_command(msg@, state, date@));
        if valid_utf8(msg@.short_message) {
            assert(receipt@ == receipt_command_of(
                msg@,
                state,
                date@,
                decode_utf8(msg@.short_message),
            ));
        }
    }
    Some(receipt)
}

/// A command for the outbound channel of a session.
#[derive(Debug, Clone, PartialEq, Eq)]
pub struct Dispatch {
    /// The session whose connection is to write the command.
    pub session_id: String,
    pub command: SmppCommand,
}

pub struct DispatchView {
    pub session_id: Seq<char>,
    pub command: SmppCommandView,
}

impl View for Dispatch {
    type V = DispatchView;

    open spec fn view(&self) -> DispatchView {
        DispatchView { session_id: self.session_id@, command: self.command@ }
    }
}

/// The views of a list of dispatches.
pub open spec fn dispatch_views(items: Seq<Dispatch>) -> Seq<DispatchView> {
    items.map_values(|d: Dispatch| d@)
}

/// Settles a message that has reached its final state: the message leaves
/// the index of those that wait for a receipt, and stays among the messages
/// received. The receipt goes to the session that submitted the message,
/// whatever role it bound with; where that session is gone, the receipt is
/// dropped.
pub fn settle_message(
    msg: &QueuedMessage,
    receipt: SmppCommand,
    session_manager: &SessionManager,
    message_queue: &mut MessageQueue,
) -> (r: Option<Dispatch>)
    ensures
        final(message_queue).pending() == old(message_queue).pending().remove(msg@.message_id),
        final(message_queue).recent() == old(message_queue).recent(),
        final(message_queue).counter() == old(message_queue).counter(),
        final(message_queue).well_formed(),
        r is Some == session_manager@.contains_key(msg@.session_id),
        r matches Some(d) ==> d@ == (DispatchView {
            session_id: msg@.session_id,
            command: receipt@,
        }),
{
    let found = session_manager.get_session(msg.session_id.as_str());
    message_queue.remove_pending_dr(msg.message_id.as_str());
    match found {
        Some(session) => Some(Dispatch { session_id: session.id, command: receipt }),
        None => None,
    }
}

/// The receipt that reports the state that `roll` selects for the message
/// that waited under `key`, dated `date` and addressed to the session that
/// submitted the message.
pub open spec fn settlement(
    key: Seq<char>,
    roll: int,
    date: Seq<char>,
    waiting: Map<Seq<char>, QueuedMessageView>,
    config: LifecycleConfig,
) -> DispatchView {
    DispatchView {
        session_id: waiting[key].session_id,
        command: receipt_command(waiting[key], state_for_roll(roll, config), date),
    }
}

/// Whether `dispatch` is the receipt of a message that waited before the
/// tick and no longer waits after it, for a session that is registered.
pub open spec fn reports_settled(
    dispatch: DispatchView,
    before: Map<Seq<char>, QueuedMessageView>,
    after: Map<Seq<char>, QueuedMessageView>,
    registry: Map<Seq<char>, SessionView>,
    config: LifecycleConfig,
) -> bool {
    exists|key: Seq<char>, roll: int, date: Seq<char>|
        {
            &&& before.contains_key(key)
            &&& !after.contains_key(key)
            &&& registry.contains_key(before[key].session_id)
            &&& 0 <= roll < 100
            &&& is_receipt_date(date)
            &&& dispatch == #[trigger] settlement(key, roll, date, before, config)
        }
}

/// Whether the dispatch at `index` of `out` is the receipt of the message
/// that waited under `key`, for some roll below 100 and some date.
pub open spec fn reports_at(
    out: Seq<Dispatch>,
    index: int,
    key: Seq<char>,
    waiting: Map<Seq<char>, QueuedMessageView>,
    config: LifecycleConfig,
) -> bool {
    &&& 0 <= index < out.len()
    &&& exists|roll: int, date: Seq<char>|
        0 <= roll < 100 && is_receipt_date(date) && out[index]@ == #[trigger] settlement(
            key,
            roll,
            date,
            waiting,
            config,
        )
}

/// Whether `keys` names, for each dispatch of `out` in turn, the message
/// that it reports, and `out` reports what it has to: every dispatch is the
/// receipt of a different message that waited before the tick and no longer
/// waits after it, and every such message whose session is registered has
/// its receipt in `out`.
pub open spec fn dispatches_report(
    out: Seq<Dispatch>,
    keys: Seq<Seq<char>>,
    before: Map<Seq<char>, QueuedMessageView>,
    after: Map<Seq<char>, QueuedMessageView>,
    registry: Map<Seq<char>, SessionView>,
    config: LifecycleConfig,
) -> bool {
    &&& keys.len() == out.len()
    &&& keys.no_duplicates()
    &&& forall|i: int|
        0 <= i < keys.len() ==> {
            &&& before.contains_key(#[trigger] keys[i])
            &&& !after.contains_key(keys[i])
            &&& registry.contains_key(before[keys[i]].session_id)
            &&& reports_at(out, i, keys[i], before, config)
        }
    &&& forall|k: Seq<char>|
        #[trigger] before.contains_key(k) && !after.contains_key(k) && registry.contains_key(
            before[k].session_id,
        ) ==> keys.contains(k)
}

/// One tick of the lifecycle. Every message of the snapshot of waiting
/// messages whose time en route is over gets a final state and leaves the
/// index of waiting messages; the others stay as they are. Returns the
/// receipts to send, each with the session to send it to: one for every
/// message that was settled and whose session is registered, and no other.
/// With no time en route at all, every waiting message is settled. The
/// messages received are left as they are.
pub fn process_pending_messages(
    config: &AppConfig,
    session_manager: &SessionManager,
    message_queue: &mut MessageQueue,
) -> (out: Vec<Dispatch>)
    ensures
        final(message_queue).recent() == old(message_queue).recent(),
        final(message_queue).counter() == old(message_queue).counter(),
        final(message_queue).well_formed(),
        final(message_queue).pending().submap_of(old(message_queue).pending()),
        forall|i: int|
            0 <= i < out.len() ==> reports_settled(
                #[trigger] out[i]@,
                old(message_queue).pending(),
                final(message_queue).pending(),
                session_manager@,
                config.lifecycle,
            ),
        exists|keys: Seq<Seq<char>>|
            dispatches_report(
                out@,
                keys,
                old(message_queue).pending(),
                final(message_queue).pending(),
                session_manager@,
                config.lifecycle,
            ),
        config.lifecycle.max_time_enroute_ms == 0 ==> final(message_queue).pending()
            == no_messages(),
{
    let waiting = message_queue.get_pending_messages();
    let ghost before = message_queue.pending();
    proof {
        let items = message_views(waiting@);
        assert forall|j: int| 0 <= j < waiting.len() implies before.contains_key(
            #[trigger] waiting[j]@.message_id,
        ) && before[waiting[j]@.message_id] == waiting[j]@ by {
            assert(items[j] == waiting[j]@);
            assert(before.contains_key(items[j].message_id));
        }
        assert forall|a: int, b: int| 0 <= a < b < waiting.len() implies #[trigger] waiting[a]@.message_id
            != #[trigger] waiting[b]@.message_id by {
            assert(items[a] == waiting[a]@ && items[b] == waiting[b]@);
            assert(items[a].message_id != items[b].message_id);
        }
        assert forall|k: Seq<char>| #[trigger] before.contains_key(k) implies exists|j: int|
            0 <= j < waiting.len() && #[trigger] waiting[j]@.message_id == k by {
            let j = choose|j: int| 0 <= j < items.len() && #[trigger] items[j].message_id == k;
            assert(items[j] == waiting[j]@);
        }
    }
    let mut out: Vec<Dispatch> = Vec::new();
    let ghost mut keys: Seq<Seq<char>> = Seq::empty();
    let mut i: usize = 0;
    while i < waiting.len()
        invariant
            i <= waiting.len(),
            before == old(message_queue).pending(),
            forall|j: int|
                0 <= j < waiting.len() ==> before.contains_key(#[trigger] waiting[j]@.message_id)
                    && before[waiting[j]@.message_id] == waiting[j]@,
            forall|a: int, b: int|
                0 <= a < b < waiting.len() ==> #[trigger] waiting[a]@.message_id
                    != #[trigger] waiting[b]@.message_id,
            forall|k: Seq<char>| #[trigger]
                before.contains_key(k) ==> exists|j: int|
                    0 <= j < waiting.len() && #[trigger] waiting[j]@.message_id == k,
            message_queue.recent() == old(message_queue).recent(),
            message_queue.counter() == old(message_queue).counter(),
            message_queue.well_formed(),
            message_queue.pending().submap_of(before),
            forall|j: int|
                i <= j < waiting.len() ==> message_queue.pending().contains_key(
                    #[trigger] waiting[j]@.message_id,
                ),
            config.lifecycle.max_time_enroute_ms == 0 ==> forall|j: int|
                0 <= j < i ==> !message_queue.pending().contains_key(
                    #[trigger] waiting[j]@.message_id,
                ),
            dispatches_report(
                out@,
                keys,
                before,
                message_queue.pending(),
                session_manager@,
                config.lifecycle,
            ),
        decreases waiting.len() - i,
    {
        let msg = &waiting[i];
        let ghost id = msg@.message_id;
        assert(id == waiting[i as int]@.message_id);
        match check_transition(msg, config) {
            Some(state) => {
                let ghost earlier = message_queue.pending();
                let ghost earlier_out = out@;
                let ghost earlier_keys = keys;
                let ghost roll = choose|roll: int|
                    0 <= roll < 100 && state == #[trigger] state_for_roll(roll, config.lifecycle);
                let date = local_timestamp();
                let receipt = build_delivery_receipt(msg, state, date.as_str());
                let settled = settle_message(msg, receipt, session_manager, message_queue);
                let ghost now = message_queue.pending();
                assert(now.submap_of(before)) by {
                    assert forall|k: Seq<char>| #[trigger] now.dom().contains(k) implies before.dom().contains(
                        k,
                    ) && now[k] == before[k] by {
                        assert(earlier.dom().contains(k));
                    }
                }
                assert(earlier.contains_key(id));
                assert(!earlier_keys.contains(id));
                match settled {
                    Some(dispatch) => {
                        proof {
                            assert(dispatch@ == settlement(
                                id,
                                roll,
                                date@,
                                before,
                                config.lifecycle,
                            ));
                            keys = keys.push(id);
                        }
                        out.push(dispatch);
                        proof {
                            assert forall|n: int| 0 <= n < keys.len() implies {
                                &&& before.contains_key(#[trigger] keys[n])
                                &&& !now.contains_key(keys[n])
                                &&& session_manager@.contains_key(before[keys[n]].session_id)
                                &&& reports_at(out@, n, keys[n], before, config.lifecycle)
                            } by {
                                if n < earlier_keys.len() {
                                    assert(keys[n] == earlier_keys[n]);
                                    assert(reports_at(
                                        earlier_out,
                                        n,
                                        earlier_keys[n],
                                        before,
                                        config.lifecycle,
                                    ));
                                    assert(out@[n] == earlier_out[n]);
                                } else {
                                    assert(keys[n] == id);
                                    assert(out@[n]@ == settlement(
                                        id,
                                        roll,
                                        date@,
                                        before,
                                        config.lifecycle,
                                    ));
                                }
                            }
                            assert forall|k: Seq<char>|
                                #[trigger] before.contains_key(k) && !now.contains_key(k)
                                    && session_manager@.contains_key(
                                    before[k].session_id,
                                ) implies keys.contains(k) by {
                                if k == id {
                                    assert(keys[keys.len() - 1] == id);
                                } else {
                                    assert(earlier_keys.contains(k));
                                    let n = choose|n: int|
                                        0 <= n < earlier_keys.len() && earlier_keys[n] == k;
                                    assert(keys[n] == k);
                                }
                            }
                            assert(keys.no_duplicates()) by {
                                assert forall|a: int, b: int|
                                    0 <= a < keys.len() && 0 <= b < keys.len() && a
                                        != b implies keys[a] != keys[b] by {
                                    if a < earlier_keys.len() && b < earlier_keys.len() {
                                        assert(keys[a] == earlier_keys[a] && keys[b]
                                            == earlier_keys[b]);
                                    } else if a < earlier_keys.len() {
                                        assert(earlier_keys.contains(earlier_keys[a]));
                                    } else if b < earlier_keys.len() {
                                        assert(earlier_keys.contains(earlier_keys[b]));
                                    }
                                }
                            }
                        }
                    },
                    None => {
                        proof {
                            assert forall|n: int| 0 <= n < keys.len() implies {
                                &&& before.contains_key(#[trigger] keys[n])
                                &&& !now.contains_key(keys[n])
                                &&& session_manager@.contains_key(before[keys[n]].session_id)
                                &&& reports_at(out@, n, keys[n], before, config.lifecycle)
                            } by {}
                            assert forall|k: Seq<char>|
                                #[trigger] before.contains_key(k) && !now.contains_key(k)
                                    && session_manager@.contains_key(
                                    before[k].session_id,
                                ) implies keys.contains(k) by {
                                if k != id {
                                    assert(earlier_keys.contains(k));
                                }
                            }
                        }
                    },
                }
                proof {
                    assert forall|j: int| i < j < waiting.len() implies now.contains_key(
                        #[trigger] waiting[j]@.message_id,
                    ) by {
                        assert(waiting[i as int]@.message_id != waiting[j]@.message_id);
                        assert(earlier.contains_key(waiting[j]@.message_id));
                    }
                }
            },
            None => {},
        }
        i += 1;
    }
    proof {
        let after = message_queue.pending();
        assert forall|n: int| 0 <= n < out.len() implies reports_settled(
            #[trigger] out[n]@,
            before,
            after,
            session_manager@,
            config.lifecycle,
        ) by {
            assert(reports_at(out@, n, keys[n], before, config.lifecycle));
            let (roll, date) = choose|roll: int, date: Seq<char>|
                0 <= roll < 100 && is_receipt_date(date) && out@[n]@ == #[trigger] settlement(
                    keys[n],
                    roll,
                    date,
                    before,
                    config.lifecycle,
                );
            assert(out[n]@ == settlement(keys[n], roll, date, before, config.lifecycle));
        }
        if config.lifecycle.max_time_enroute_ms == 0 {
            assert forall|k: Seq<char>| !after.contains_key(k) by {
                if after.contains_key(k) {
                    assert(before.contains_key(k));
                    let j = choose|j: int|
                        0 <= j < waiting.len() && #[trigger] waiting[j]@.message_id == k;
                    assert(!after.contains_key(waiting[j]@.message_id));
                }
            }
            assert(after =~= no_messages());
        }
    }
    out
}

/// With shares that add up to at most 100, a roll below 100 selects each
/// state for as many values as its share says; the values that no share
/// covers go to `Delivered`.
pub proof fn lemma_shares_of_rolls(config: LifecycleConfig, roll: int)
    requires
        config.percent_total() <= 100,
        0 <= roll < 100,
    ensures
        state_for_roll(roll, config) == MessageState::Undeliverable <==> config.percent_delivered
            <= roll < config.percent_delivered + config.percent_undeliverable,
        state_for_roll(roll, config) == MessageState::Accepted <==> config.percent_delivered
            + config.percent_undeliverable <= roll < config.percent_delivered
            + config.percent_undeliverable + config.percent_accepted,
        state_for_roll(roll, config) == MessageState::Rejected <==> config.percent_delivered
            + config.percent_undeliverable + config.percent_accepted <= roll
            < config.percent_total(),
        state_for_roll(roll, config) == MessageState::Delivered <==> roll < config.percent_delivered
            || config.percent_total() <= roll,
{
}

/// Whether `text` has the form of a delivery receipt: `id:` and one or more
/// upper-case hexadecimal digits, `sub:` and `dlvrd:` with three digits
/// each, `submit date:` and `done date:` with ten digits each, `stat:` with
/// the abbreviation of a final state, `err:` with three digits, and `text:`
/// with the rest of the line.
pub open spec fn is_receipt_form(text: Seq<char>) -> bool {
    exists|id: Seq<char>, submitted: Seq<char>, done: Seq<char>, state: MessageState, rest: Seq<char>|
        {
            &&& id.len() > 0
            &&& forall|i: int| 0 <= i < id.len() ==> is_upper_hex(#[trigger] id[i])
            &&& is_receipt_date(submitted)
            &&& is_receipt_date(done)
            &&& forall|i: int| 0 <= i < rest.len() ==> #[trigger] rest[i] != '\n'
            &&& text == #[trigger] receipt_parts(id, submitted, done, state, rest)
        }
}

/// The parts of a delivery receipt, put together.
pub open spec fn receipt_parts(
    id: Seq<char>,
    submitted: Seq<char>,
    done: Seq<char>,
    state: MessageState,
    rest: Seq<char>,
) -> Seq<char> {
    "id:"@ + id + " sub:001 dlvrd:001 submit date:"@ + submitted + " done date:"@ + done
        + " stat:"@ + state.stat_text() + " err:000 text:"@ + rest
}

/// The receipt of a message whose id is made of upper-case hexadecimal
/// digits, as every id that the queue issues is, has the form of a delivery
/// receipt, as long as the quoted text holds no line feed.
pub proof fn lemma_receipt_has_form(
    message_id: Seq<char>,
    date: Seq<char>,
    state: MessageState,
    quoted: Seq<char>,
)
    requires
        message_id.len() > 0,
        forall|i: int| 0 <= i < message_id.len() ==> is_upper_hex(#[trigger] message_id[i]),
        is_receipt_date(date),
        forall|i: int| 0 <= i < quoted.len() ==> #[trigger] quoted[i] != '\n',
    ensures
        is_receipt_form(receipt_text(message_id, date, state, quoted)),
{
    assert(receipt_text(message_id, date, state, quoted) == receipt_parts(
        message_id,
        date,
        date,
        state,
        quoted,
    ));
}

/// The receipt of a message with an id that the queue issues fits the
/// short message field, whatever the message holds, so that its text is
/// never dropped; and it has the form of a delivery receipt as long as the
/// text that it quotes holds no line feed.
pub proof fn lemma_receipt_of_issued_id(
    start: u32,
    i: nat,
    date: Seq<char>,
    state: MessageState,
    original: Seq<char>,
)
    requires
        is_receipt_date(date),
    ensures
        ({
            let text = receipt_text(issued_id(start, i), date, state, excerpt(original));
            &&& 0 < encode_utf8(text).len() <= SHORT_MESSAGE_MAX
            &&& payload_or_empty(encode_utf8(text)) == encode_utf8(text)
            &&& (forall|n: int| 0 <= n < excerpt(original).len() ==> excerpt(original)[n] != '\n')
                ==> is_receipt_form(text)
        }),
{
    let id = issued_id(start, i);
    let quoted = excerpt(original);
    let text = receipt_text(id, date, state, quoted);
    lemma_hex8_reads_back((start + i) % 0x1_0000_0000);
    reveal_strlit("id:");
    reveal_strlit(" sub:001 dlvrd:001 submit date:");
    reveal_strlit(" done date:");
    reveal_strlit(" stat:");
    reveal_strlit(" err:000 text:");
    reveal_strlit("DELIVRD");
    reveal_strlit("UNDELIV");
    reveal_strlit("ACCEPTD");
    reveal_strlit("REJECTD");
    let head = "id:"@ + id + " sub:001 dlvrd:001 submit date:"@ + date + " done date:"@ + date
        + " stat:"@ + state.stat_text() + " err:000 text:"@;
    assert(text == head + quoted);
    assert(head.len() == 100);
    assert(vstd::utf8::is_ascii_chars(head)) by {
        assert forall|n: int| 0 <= n < head.len() implies '\0' <= #[trigger] head[n]
            <= '\u{7f}' by {
            if 3 <= n < 11 {
                assert(head[n] == id[n - 3]);
                assert(is_upper_hex(id[n - 3]));
            } else if 42 <= n < 52 {
                assert(head[n] == date[n - 42]);
                assert(is_digit(date[n - 42]));
            } else if 63 <= n < 73 {
                assert(head[n] == date[n - 63]);
                assert(is_digit(date[n - 63]));
            }
        }
    }
    vstd::utf8::is_ascii_chars_encode_utf8(head);
    lemma_encode_utf8_concat(head, quoted);
    lemma_encode_utf8_length(quoted);
    if forall|n: int| 0 <= n < quoted.len() ==> quoted[n] != '\n' {
        lemma_receipt_has_form(id, date, state, quoted);
    }
}

/// With a share of 100 for delivered messages every roll selects
/// `Delivered`, so that a message whose time en route is over is reported
/// as delivered.
pub proof fn lemma_sure_delivery(config: LifecycleConfig, elapsed_ms: u64, roll: int)
    requires
        config.percent_delivered >= 100,
        0 <= roll < 100,
    ensures
        state_for_roll(roll, config) == MessageState::Delivered,
        elapsed_ms >= config.max_time_enroute_ms ==> transition(elapsed_ms, roll, config) == Some(
            MessageState::Delivered,
        ),
        elapsed_ms < config.max_time_enroute_ms ==> transition(elapsed_ms, roll, config) is None,
{
}

} // verus!
