//! The dispatcher: what the gateway answers to each command of a client, and
//! what the command changes in the registry and the queue.

use vstd::prelude::*;
use crate::config::{AppConfig, SmppConfig};
use crate::smpp::pdu::{
    option_command, BindRequest, BindRequestView, BindResponse, BindResponseView, SmppCommand,
    CommandStatus, SmppCommandView, Pdu, PduView, SubmitSm, SubmitSmResp, SubmitSmView,
};
use crate::smpp::queue::{issued_id, monotonic_now, MessageQueue, QueuedMessage, QueuedMessageView};
use crate::smpp::session::{
    option_text, BindType, InterfaceVersion, Session, SessionManager, SessionView,
};
use crate::text::str_eq;

verus! {

/// Whether the credentials are those of the default account or of one of
/// the additional accounts: both fields equal, character for character.
pub open spec fn credentials_accepted(
    system_id: Seq<char>,
    password: Seq<char>,
    smpp: SmppConfig,
) -> bool {
    ||| system_id == smpp.system_id@ && password == smpp.password@
    ||| exists|i: int|
        0 <= i < smpp.accounts@.len() && (#[trigger] smpp.accounts@[i]).system_id@ == system_id
            && smpp.accounts@[i].password@ == password
}

/// Whether a client with these credentials may bind.
pub fn authenticate(system_id: &str, password: &str, config: &AppConfig) -> (r: bool)
    ensures
        r == credentials_accepted(system_id@, password@, config.smpp),
{
    if str_eq(system_id, config.smpp.system_id.as_str()) && str_eq(
        password,
        config.smpp.password.as_str(),
    ) {
        return true;
    }
    let mut i: usize = 0;
    while i < config.smpp.accounts.len()
        invariant
            i <= config.smpp.accounts@.len(),
            !(system_id@ == config.smpp.system_id@ && password@ == config.smpp.password@),
            forall|j: int|
                0 <= j < i ==> !((#[trigger] config.smpp.accounts@[j]).system_id@ == system_id@
                    && config.smpp.accounts@[j].password@ == password@),
        decreases config.smpp.accounts@.len() - i,
    {
        let account = &config.smpp.accounts[i];
        if str_eq(system_id, account.system_id.as_str()) && str_eq(
            password,
            account.password.as_str(),
        ) {
            return true;
        }
        i += 1;
    }
    false
}

/// The role that a bind request asks for, with its body; `None` for every
/// other body.
pub open spec fn bind_request(pdu: PduView) -> Option<(BindType, BindRequestView)> {
    match pdu {
        PduView::BindTransmitter(req) => Some((BindType::Transmitter, req)),
        PduView::BindReceiver(req) => Some((BindType::Receiver, req)),
        PduView::BindTransceiver(req) => Some((BindType::Transceiver, req)),
        _ => None,
    }
}

/// The response body that answers a bind in the given role.
pub open spec fn bind_response(role: BindType, body: BindResponseView) -> PduView {
    match role {
        BindType::Transmitter => PduView::BindTransmitterResp(body),
        BindType::Receiver => PduView::BindReceiverResp(body),
        BindType::Transceiver => PduView::BindTransceiverResp(body),
    }
}

/// The answer to a bind request: the system id is echoed; the status is
/// `ESME_ROK` with interface version 5.0 where the credentials are accepted,
/// and `ESME_RBINDFAIL` without a version where they are not.
pub open spec fn bind_answer(
    role: BindType,
    req: BindRequestView,
    sequence_number: u32,
    smpp: SmppConfig,
) -> SmppCommandView {
    let accepted = credentials_accepted(req.system_id, req.password, smpp);
    SmppCommandView {
        status: if accepted {
            CommandStatus::EsmeRok
        } else {
            CommandStatus::EsmeRbindfail
        },
        sequence_number,
        pdu: Some(
            bind_response(
                role,
                BindResponseView {
                    system_id: req.system_id,
                    sc_interface_version: if accepted {
                        Some(InterfaceVersion::Smpp5_0)
                    } else {
                        None
                    },
                },
            ),
        ),
    }
}

/// The answer to a submitted message: on a bound connection `ESME_ROK` with
/// the message id that is issued, else `ESME_RINVBNDSTS` with an empty
/// message id.
pub open spec fn submit_answer(sequence_number: u32, bound: bool, counter: u32) -> SmppCommandView {
    SmppCommandView {
        status: if bound {
            CommandStatus::EsmeRok
        } else {
            CommandStatus::EsmeRinvbndsts
        },
        sequence_number,
        pdu: Some(
            PduView::SubmitSmResp {
                message_id: if bound {
                    issued_id(counter, 0)
                } else {
                    Seq::empty()
                },
            },
        ),
    }
}

/// The response to a command, if it gets one. It carries the sequence number
/// of the command. `bound` says whether the connection has a session, and
/// `counter` is the number that the next message id is made of.
pub open spec fn response_to(
    command: SmppCommandView,
    smpp: SmppConfig,
    bound: bool,
    counter: u32,
) -> Option<SmppCommandView> {
    match command.pdu {
        None => None,
        Some(pdu) => match bind_request(pdu) {
            Some((role, req)) => Some(bind_answer(role, req, command.sequence_number, smpp)),
            None => match pdu {
                PduView::SubmitSm(_) => Some(submit_answer(command.sequence_number, bound, counter)),
                PduView::EnquireLink => Some(
                    SmppCommandView {
                        status: CommandStatus::EsmeRok,
                        sequence_number: command.sequence_number,
                        pdu: Some(PduView::EnquireLinkResp),
                    },
                ),
                PduView::Unbind => Some(
                    SmppCommandView {
                        status: CommandStatus::EsmeRok,
                        sequence_number: command.sequence_number,
                        pdu: Some(PduView::UnbindResp),
                    },
                ),
                _ => None,
            },
        },
    }
}

/// The registry without the session of this connection, if it has one.
pub open spec fn without_session(
    registry: Map<Seq<char>, SessionView>,
    current: Option<Seq<char>>,
) -> Map<Seq<char>, SessionView> {
    match current {
        Some(id) => registry.remove(id),
        None => registry,
    }
}

/// The session that a successful bind installs under `id`.
pub open spec fn bound_session(
    id: Seq<char>,
    role: BindType,
    req: BindRequestView,
    remote_addr: Seq<char>,
) -> SessionView {
    SessionView {
        id,
        system_id: req.system_id,
        bind_type: role,
        interface_version: None,
        addr: remote_addr,
        address_range: if req.address_range.len() == 0 {
            None
        } else {
            Some(req.address_range)
        },
    }
}

/// Whether `msg` is what the queue records for a submitted message: the
/// addresses and the payload of the request, data coding 0, under this
/// message id and for this session. Its time of submission is not
/// constrained.
pub open spec fn records_submit(
    msg: QueuedMessageView,
    message_id: Seq<char>,
    req: SubmitSmView,
    session_id: Seq<char>,
) -> bool {
    &&& msg.message_id == message_id
    &&& msg.source_addr == req.source_addr
    &&& msg.dest_addr == req.destination_addr
    &&& msg.short_message == req.short_message
    &&& msg.data_coding == 0
    &&& msg.session_id == session_id
}

/// Answers a bind request. Where the credentials are accepted, the session
/// that the connection had so far, if any, leaves the registry, and a new
/// session with a fresh id takes its place.
fn handle_bind(
    req: &BindRequest,
    role: BindType,
    sequence_number: u32,
    config: &AppConfig,
    session_manager: &mut SessionManager,
    current_session_id: &mut Option<String>,
    remote_addr: &str,
) -> (resp: SmppCommand)
    ensures
        resp@ == bind_answer(role, req@, sequence_number, config.smpp),
        credentials_accepted(req@.system_id, req@.password, config.smpp) ==> {
            &&& *final(current_session_id) matches Some(id)
            &&& id@.len() == 36
            &&& final(session_manager)@ == without_session(
                old(session_manager)@,
                option_text(*old(current_session_id)),
            ).insert(id@, bound_session(id@, role, req@, remote_addr@))
        },
        !credentials_accepted(req@.system_id, req@.password, config.smpp) ==> {
            &&& *final(current_session_id) == *old(current_session_id)
            &&& final(session_manager)@ == old(session_manager)@
        },
{
    let accepted = authenticate(req.system_id.as_str(), req.password.as_str(), config);
    let body = if accepted {
        match &*current_session_id {
            Some(previous) => {
                session_manager.remove_session(previous.as_str());
            },
            None => {},
        }
        let address_range = if req.address_range.as_str().is_empty() {
            None
        } else {
            Some(req.address_range.clone())
        };
        let session = Session::new(
            req.system_id.clone(),
            role,
            remote_addr.to_owned(),
            address_range,
        );
        *current_session_id = Some(session.id.clone());
        session_manager.add_session(session);
        BindResponse {
            system_id: req.system_id.clone(),
            sc_interface_version: Some(InterfaceVersion::Smpp5_0),
        }
    } else {
        BindResponse { system_id: req.system_id.clone(), sc_interface_version: None }
    };
    let status = if accepted {
        CommandStatus::EsmeRok
    } else {
        CommandStatus::EsmeRbindfail
    };
    let pdu = match role {
        BindType::Transmitter => Pdu::BindTransmitterResp(body),
        BindType::Receiver => Pdu::BindReceiverResp(body),
        BindType::Transceiver => Pdu::BindTransceiverResp(body),
    };
    SmppCommand { status, sequence_number, pdu: Some(pdu) }
}

/// Answers a submitted message. On a bound connection the message gets the
/// next message id and is indexed as waiting for its receipt.
fn handle_submit(
    req: &SubmitSm,
    sequence_number: u32,
    message_queue: &mut MessageQueue,
    current_session_id: &Option<String>,
) -> (resp: SmppCommand)
    ensures
        resp@ == submit_answer(
            sequence_number,
            current_session_id is Some,
            old(message_queue).counter(),
        ),
        submit_effect(
            req@,
            option_text(*current_session_id),
            old(message_queue),
            final(message_queue),
        ),
{
    match current_session_id {
        None => SmppCommand {
            status: CommandStatus::EsmeRinvbndsts,
            sequence_number,
            pdu: Some(Pdu::SubmitSmResp(SubmitSmResp { message_id: String::new() })),
        },
        Some(session_id) => {
            let message_id = message_queue.next_message_id();
            let queued = QueuedMessage {
                message_id: message_id.clone(),
                source_addr: req.source_addr.clone(),
                dest_addr: req.destination_addr.clone(),
                short_message: req.short_message.clone(),
                data_coding: 0,
                session_id: session_id.clone(),
                submitted_at: monotonic_now(),
            };
            message_queue.add_pending_dr(queued);
            SmppCommand {
                status: CommandStatus::EsmeRok,
                sequence_number,
                pdu: Some(Pdu::SubmitSmResp(SubmitSmResp { message_id })),
            }
        },
    }
}

/// What a submitted message changes in the queue. On a connection without a
/// session: nothing. On a bound connection: the counter moves on by one, and
/// both indexes get the message under the id that was issued.
pub open spec fn submit_effect(
    req: SubmitSmView,
    current: Option<Seq<char>>,
    before: &MessageQueue,
    after: &MessageQueue,
) -> bool {
    match current {
        None => {
            &&& after.counter() == before.counter()
            &&& after.pending() == before.pending()
            &&& after.recent() == before.recent()
        },
        Some(session_id) => {
            let id = issued_id(before.counter(), 0);
            &&& after.counter() == (before.counter() + 1) % 0x1_0000_0000
            &&& after.pending().contains_key(id)
            &&& records_submit(after.pending()[id], id, req, session_id)
            &&& after.pending() == before.pending().insert(id, after.pending()[id])
            &&& after.recent() == before.recent().insert(id, after.pending()[id])
        },
    }
}

/// What a command changes in the registry, the queue and the session id of
/// its connection.
pub open spec fn command_effect(
    command: SmppCommandView,
    smpp: SmppConfig,
    remote_addr: Seq<char>,
    registry_before: Map<Seq<char>, SessionView>,
    registry_after: Map<Seq<char>, SessionView>,
    queue_before: &MessageQueue,
    queue_after: &MessageQueue,
    current_before: Option<Seq<char>>,
    current_after: Option<Seq<char>>,
) -> bool {
    let queue_unchanged = queue_after.counter() == queue_before.counter() && queue_after.pending()
        == queue_before.pending() && queue_after.recent() == queue_before.recent();
    let nothing_changes = queue_unchanged && registry_after == registry_before && current_after
        == current_before;
    match command.pdu {
        None => nothing_changes,
        Some(pdu) => match bind_request(pdu) {
            Some((role, req)) => if credentials_accepted(req.system_id, req.password, smpp) {
                &&& queue_unchanged
                &&& current_after matches Some(id)
                &&& id.len() == 36
                &&& registry_after == without_session(registry_before, current_before).insert(
                    id,
                    bound_session(id, role, req, remote_addr),
                )
            } else {
                nothing_changes
            },
            None => match pdu {
                PduView::SubmitSm(req) => {
                    &&& registry_after == registry_before
                    &&& current_after == current_before
                    &&& submit_effect(req, current_before, queue_before, queue_after)
                },
                PduView::Unbind => {
                    &&& queue_unchanged
                    &&& current_after is None
                    &&& registry_after == without_session(registry_before, current_before)
                },
                _ => nothing_changes,
            },
        },
    }
}

/// Handles one command of a client. Returns the response, if the command
/// gets one, and updates the registry, the queue and the session id of the
/// connection.
///
/// A bind with accepted credentials installs a session whose role is that of
/// the request; one with other credentials changes nothing. A submitted
/// message is queued where the connection is bound. An unbind removes the
/// session of the connection. Every other command changes nothing, and gets
/// a response only where it is a keepalive.
pub fn handle_command(
    command: &SmppCommand,
    config: &AppConfig,
    session_manager: &mut SessionManager,
    message_queue: &mut MessageQueue,
    current_session_id: &mut Option<String>,
    remote_addr: &str,
) -> (resp: Option<SmppCommand>)
    ensures
        option_command(resp) == response_to(
            command@,
            config.smpp,
            *old(current_session_id) is Some,
            old(message_queue).counter(),
        ),
        command_effect(
            command@,
            config.smpp,
            remote_addr@,
            old(session_manager)@,
            final(session_manager)@,
            old(message_queue),
            final(message_queue),
            option_text(*old(current_session_id)),
            option_text(*final(current_session_id)),
        ),
        *final(current_session_id) is Some == bound_after(
            command@,
            config.smpp,
            *old(current_session_id) is Some,
        ),
        final(message_queue).counter() == counter_after(
            command@,
            *old(current_session_id) is Some,
            old(message_queue).counter(),
        ),
        final(message_queue).well_formed(),
{
    proof {
        use_type_invariant(&*message_queue);
    }
    match &command.pdu {
        None => None,
        Some(pdu) => match pdu {
            Pdu::BindTransmitter(req) => Some(
                handle_bind(
                    req,
                    BindType::Transmitter,
                    command.sequence_number,
                    config,
                    session_manager,
                    current_session_id,
                    remote_addr,
                ),
            ),
            Pdu::BindReceiver(req) => Some(
                handle_bind(
                    req,
                    BindType::Receiver,
                    command.sequence_number,
                    config,
                    session_manager,
                    current_session_id,
                    remote_addr,
                ),
            ),
            Pdu::BindTransceiver(req) => Some(
                handle_bind(
                    req,
                    BindType::Transceiver,
                    command.sequence_number,
                    config,
                    session_manager,
                    current_session_id,
                    remote_addr,
                ),
            ),
            Pdu::SubmitSm(req) => Some(
                handle_submit(req, command.sequence_number, message_queue, &*current_session_id),
            ),
            Pdu::EnquireLink => Some(
                SmppCommand {
                    status: CommandStatus::EsmeRok,
                    sequence_number: command.sequence_number,
                    pdu: Some(Pdu::EnquireLinkResp),
                },
            ),
            Pdu::Unbind => {
                match &*current_session_id {
                    Some(session_id) => {
                        session_manager.remove_session(session_id.as_str());
                    },
                    None => {},
                }
                *current_session_id = None;
                Some(
                    SmppCommand {
                        status: CommandStatus::EsmeRok,
                        sequence_number: command.sequence_number,
                        pdu: Some(Pdu::UnbindResp),
                    },
                )
            },
            _ => None,
        },
    }
}

/// Whether the connection is to be closed once the response to `command` is
/// written: after an unbind, and after no other command.
pub fn closes_connection(command: &SmppCommand) -> (r: bool)
    ensures
        r == (command@.pdu == Some(PduView::Unbind)),
{
    match &command.pdu {
        Some(Pdu::Unbind) => true,
        _ => false,
    }
}

/// What the loop of a connection meets.
#[derive(Debug, Clone)]
pub enum ConnectionEvent {
    /// A command was read and handled, and its response, if it has one, was
    /// written.
    Decoded(SmppCommand),
    /// What was read could not be decoded.
    DecodeFailed,
    /// The peer closed the connection.
    Closed,
    /// A command could not be written.
    WriteFailed,
    /// A command from the outbound channel was written.
    Outbound,
}

/// Whether the loop of a connection goes on after `event`. It ends once an
/// unbind was answered, when the input cannot be decoded or has ended, and
/// when a command cannot be written.
pub fn connection_goes_on(event: &ConnectionEvent) -> (r: bool)
    ensures
        r == match *event {
            ConnectionEvent::Decoded(c) => c@.pdu != Some(PduView::Unbind),
            ConnectionEvent::Outbound => true,
            _ => false,
        },
{
    match event {
        ConnectionEvent::Decoded(command) => !closes_connection(command),
        ConnectionEvent::Outbound => true,
        _ => false,
    }
}

/// Ends a connection, on whatever way its loop was left: the session of the
/// connection, if it has one, leaves the registry, and the connection has
/// no session any more. To end a connection twice changes nothing more.
pub fn end_connection(
    session_manager: &mut SessionManager,
    current_session_id: &mut Option<String>,
)
    ensures
        final(session_manager)@ == without_session(
            old(session_manager)@,
            option_text(*old(current_session_id)),
        ),
        *final(current_session_id) is None,
{
    match &*current_session_id {
        Some(session_id) => {
            session_manager.remove_session(session_id.as_str());
        },
        None => {},
    }
    *current_session_id = None;
}

/// Whether the connection has a session after a command: an accepted bind
/// gives it one, an unbind takes it away, and nothing else changes it.
pub open spec fn bound_after(command: SmppCommandView, smpp: SmppConfig, bound: bool) -> bool {
    match command.pdu {
        None => bound,
        Some(pdu) => match bind_request(pdu) {
            Some((_, req)) => bound || credentials_accepted(req.system_id, req.password, smpp),
            None => match pdu {
                PduView::Unbind => false,
                _ => bound,
            },
        },
    }
}

/// The number that the next message id is made of after a command: one more
/// after a message submitted on a bound connection, else the same.
pub open spec fn counter_after(command: SmppCommandView, bound: bool, counter: u32) -> u32 {
    if bound && command.pdu matches Some(PduView::SubmitSm(_)) {
        ((counter + 1) % 0x1_0000_0000) as u32
    } else {
        counter
    }
}

/// Whether the connection has a session after a run of commands.
pub open spec fn bound_after_all(requests: Seq<SmppCommandView>, smpp: SmppConfig, bound: bool) -> bool
    decreases requests.len(),
{
    if requests.len() == 0 {
        bound
    } else {
        bound_after_all(requests.drop_first(), smpp, bound_after(requests[0], smpp, bound))
    }
}

/// The number that the next message id is made of after a run of commands.
pub open spec fn counter_after_all(
    requests: Seq<SmppCommandView>,
    smpp: SmppConfig,
    bound: bool,
    counter: u32,
) -> u32
    decreases requests.len(),
{
    if requests.len() == 0 {
        counter
    } else {
        counter_after_all(
            requests.drop_first(),
            smpp,
            bound_after(requests[0], smpp, bound),
            counter_after(requests[0], bound, counter),
        )
    }
}

/// A response as a run of at most one command.
pub open spec fn as_run(response: Option<SmppCommandView>) -> Seq<SmppCommandView> {
    match response {
        Some(r) => seq![r],
        None => Seq::empty(),
    }
}

/// The responses that a connection writes for a run of commands that it
/// reads one after the other, each handled in the state that the commands
/// before it left.
pub open spec fn responses(
    requests: Seq<SmppCommandView>,
    smpp: SmppConfig,
    bound: bool,
    counter: u32,
) -> Seq<SmppCommandView>
    decreases requests.len(),
{
    if requests.len() == 0 {
        Seq::empty()
    } else {
        as_run(response_to(requests[0], smpp, bound, counter)) + responses(
            requests.drop_first(),
            smpp,
            bound_after(requests[0], smpp, bound),
            counter_after(requests[0], bound, counter),
        )
    }
}

/// A response carries the sequence number of the command that it answers.
pub proof fn lemma_response_echoes_sequence_number(
    command: SmppCommandView,
    smpp: SmppConfig,
    bound: bool,
    counter: u32,
)
    ensures
        response_to(command, smpp, bound, counter) matches Some(response)
            ==> response.sequence_number == command.sequence_number,
{
}

/// Responses come in the order in which their commands were read: the
/// response to a command that is read after a run of others stands behind
/// all the responses to that run.
pub proof fn lemma_responses_keep_order(
    requests: Seq<SmppCommandView>,
    next: SmppCommandView,
    smpp: SmppConfig,
    bound: bool,
    counter: u32,
)
    ensures
        responses(requests.push(next), smpp, bound, counter) == responses(
            requests,
            smpp,
            bound,
            counter,
        ) + as_run(
            response_to(
                next,
                smpp,
                bound_after_all(requests, smpp, bound),
                counter_after_all(requests, smpp, bound, counter),
            ),
        ),
    decreases requests.len(),
{
    let longer = requests.push(next);
    if requests.len() == 0 {
        assert(longer.drop_first() =~= Seq::<SmppCommandView>::empty());
        assert(responses(longer.drop_first(), smpp, bound_after(next, smpp, bound), counter_after(next, bound, counter))
            =~= Seq::<SmppCommandView>::empty());
        assert(responses(longer, smpp, bound, counter) =~= as_run(
            response_to(next, smpp, bound, counter),
        ));
    } else {
        let first = requests[0];
        assert(longer[0] == first);
        assert(longer.drop_first() =~= requests.drop_first().push(next));
        lemma_responses_keep_order(
            requests.drop_first(),
            next,
            smpp,
            bound_after(first, smpp, bound),
            counter_after(first, bound, counter),
        );
    }
}

} // verus!
