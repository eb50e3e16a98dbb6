use rust_smpp_sim::config::{AppConfig, SmppAccount};
use rust_smpp_sim::smpp::pdu::{
    BindRequest, BindResponse, CommandStatus, Pdu, SmppCommand, SubmitSm, SubmitSmResp,
};
use rust_smpp_sim::smpp::queue::MessageQueue;
use rust_smpp_sim::smpp::server::{
    authenticate, closes_connection, connection_goes_on, end_connection, handle_command,
    ConnectionEvent,
};
use rust_smpp_sim::smpp::session::{BindType, InterfaceVersion, Session, SessionManager};

fn test_addr() -> String {
    "127.0.0.1:12345".to_string()
}

fn test_config() -> AppConfig {
    let mut config = AppConfig::default();
    config.smpp.system_id = "user".to_string();
    config.smpp.password = "pass".to_string();
    config
}

fn bind(system_id: &str, password: &str, address_range: &str) -> BindRequest {
    BindRequest {
        system_id: system_id.to_string(),
        password: password.to_string(),
        address_range: address_range.to_string(),
    }
}

fn command(sequence_number: u32, pdu: Pdu) -> SmppCommand {
    SmppCommand { status: CommandStatus::EsmeRok, sequence_number, pdu: Some(pdu) }
}

fn submit(source: &str, dest: &str, text: &str) -> Pdu {
    Pdu::SubmitSm(SubmitSm {
        source_addr: source.to_string(),
        destination_addr: dest.to_string(),
        short_message: text.as_bytes().to_vec(),
    })
}

struct Connection {
    config: AppConfig,
    sessions: SessionManager,
    queue: MessageQueue,
    current: Option<String>,
}

impl Connection {
    fn new(config: AppConfig) -> Self {
        Connection {
            config,
            sessions: SessionManager::new(),
            queue: MessageQueue::new(),
            current: None,
        }
    }

    fn handle(&mut self, command: &SmppCommand) -> Option<SmppCommand> {
        handle_command(
            command,
            &self.config,
            &mut self.sessions,
            &mut self.queue,
            &mut self.current,
            &test_addr(),
        )
    }
}

#[test]
fn test_bind_transmitter_success() {
    let config = test_config();
    let mut session_manager = SessionManager::new();
    let mut message_queue = MessageQueue::new();
    let mut current_session_id: Option<String> = None;

    let command = command(1, Pdu::BindTransmitter(bind("user", "pass", "")));

    let resp = handle_command(
        &command,
        &config,
        &mut session_manager,
        &mut message_queue,
        &mut current_session_id,
        &test_addr(),
    );

    assert!(resp.is_some());
    let resp_cmd = resp.unwrap();
    assert_eq!(resp_cmd.status, CommandStatus::EsmeRok);

    if let Some(Pdu::BindTransmitterResp(body)) = &resp_cmd.pdu {
        assert_eq!(body.system_id.to_string(), "user");
    } else {
        panic!("Expected BindTransmitterResp, got {:?}", resp_cmd.pdu);
    }

    assert!(current_session_id.is_some());
    let session = session_manager.get_session(&current_session_id.unwrap());
    assert!(session.is_some());
    assert!(matches!(session.unwrap().bind_type, BindType::Transmitter));
}

#[test]
fn test_bind_failure_bad_creds() {
    let config = test_config();
    let mut session_manager = SessionManager::new();
    let mut message_queue = MessageQueue::new();
    let mut current_session_id: Option<String> = None;

    let command = command(2, Pdu::BindTransmitter(bind("bad", "bad", "")));

    let resp = handle_command(
        &command,
        &config,
        &mut session_manager,
        &mut message_queue,
        &mut current_session_id,
        &test_addr(),
    );

    assert!(resp.is_some());
    let resp_cmd = resp.unwrap();
    assert_eq!(resp_cmd.status, CommandStatus::EsmeRbindfail);
    assert!(current_session_id.is_none());
}

#[test]
fn test_enquire_link() {
    let config = test_config();
    let mut session_manager = SessionManager::new();
    let mut message_queue = MessageQueue::new();
    let mut current_session_id: Option<String> = None;

    let command = command(3, Pdu::EnquireLink);

    let resp = handle_command(
        &command,
        &config,
        &mut session_manager,
        &mut message_queue,
        &mut current_session_id,
        &test_addr(),
    );

    assert!(resp.is_some());
    let resp_cmd = resp.unwrap();
    assert_eq!(resp_cmd.status, CommandStatus::EsmeRok);
    assert!(matches!(resp_cmd.pdu, Some(Pdu::EnquireLinkResp)));
}

#[test]
fn test_unbind() {
    let config = test_config();
    let mut session_manager = SessionManager::new();
    let mut message_queue = MessageQueue::new();

    // Manually create session
    let session = Session::new("test_sys".to_string(), BindType::Transmitter, test_addr(), None);
    let sid = session.id.clone();
    session_manager.add_session(session);
    let mut current_session_id: Option<String> = Some(sid.clone());

    let command = command(4, Pdu::Unbind);

    let resp = handle_command(
        &command,
        &config,
        &mut session_manager,
        &mut message_queue,
        &mut current_session_id,
        &test_addr(),
    );

    assert!(resp.is_some());
    let resp_cmd = resp.unwrap();
    assert_eq!(resp_cmd.status, CommandStatus::EsmeRok);
    assert!(matches!(resp_cmd.pdu, Some(Pdu::UnbindResp)));

    assert!(current_session_id.is_none());
    assert!(session_manager.get_session(&sid).is_none());
}

#[test]
fn test_smpp_flow() {
    let mut config = AppConfig::default();
    config.smpp.system_id = "testsys".to_string();
    config.smpp.password = "pass".to_string();
    let mut connection = Connection::new(config);

    // 1. Bind Transmitter
    let resp = connection
        .handle(&command(1, Pdu::BindTransmitter(bind("testsys", "pass", ""))))
        .expect("Expected BindTransmitterResp");
    assert_eq!(resp.status, CommandStatus::EsmeRok);
    assert_eq!(resp.sequence_number, 1);
    match &resp.pdu {
        Some(Pdu::BindTransmitterResp(r)) => assert_eq!(r.system_id, "testsys"),
        other => panic!("Expected BindTransmitterResp, got {:?}", other),
    }
    assert_eq!(connection.sessions.get_all_sessions().len(), 1);

    // 2. Submit SM
    let resp = connection
        .handle(&command(2, submit("source", "dest", "Hello Rust")))
        .expect("Expected SubmitSmResp");
    assert_eq!(resp.status, CommandStatus::EsmeRok);
    assert_eq!(resp.sequence_number, 2);
    match &resp.pdu {
        Some(Pdu::SubmitSmResp(r)) => {
            assert!(!r.message_id.is_empty());
            assert_eq!(r.message_id.len(), 8);
            assert!(r.message_id.chars().all(|c| c.is_ascii_digit() || ('A'..='F').contains(&c)));
        }
        other => panic!("Expected SubmitSmResp, got {:?}", other),
    }

    // 3. Unbind
    let resp = connection.handle(&command(3, Pdu::Unbind)).expect("Expected UnbindResp");
    assert_eq!(resp.status, CommandStatus::EsmeRok);
    assert_eq!(resp.sequence_number, 3);
    assert!(matches!(resp.pdu, Some(Pdu::UnbindResp)));

    // Verify Session is gone
    assert_eq!(connection.sessions.get_all_sessions().len(), 0);
    assert!(connection.current.is_none());
}

#[test]
fn accepted_bind_answers_with_version_five() {
    let mut connection = Connection::new(test_config());
    let resp = connection.handle(&command(11, Pdu::BindReceiver(bind("user", "pass", "^1"))));
    assert_eq!(
        resp,
        Some(SmppCommand {
            status: CommandStatus::EsmeRok,
            sequence_number: 11,
            pdu: Some(Pdu::BindReceiverResp(BindResponse {
                system_id: "user".to_string(),
                sc_interface_version: Some(InterfaceVersion::Smpp5_0),
            })),
        })
    );
}

#[test]
fn refused_bind_answers_without_version() {
    let mut connection = Connection::new(test_config());
    let resp = connection.handle(&command(12, Pdu::BindTransceiver(bind("user", "wrong", ""))));
    assert_eq!(
        resp,
        Some(SmppCommand {
            status: CommandStatus::EsmeRbindfail,
            sequence_number: 12,
            pdu: Some(Pdu::BindTransceiverResp(BindResponse {
                system_id: "user".to_string(),
                sc_interface_version: None,
            })),
        })
    );
    assert_eq!(connection.sessions.count(), 0);
    assert!(connection.current.is_none());
}

#[test]
fn each_bind_installs_its_role() {
    for (role, pdu) in [
        (BindType::Transmitter, Pdu::BindTransmitter(bind("user", "pass", "^\\+1.*"))),
        (BindType::Receiver, Pdu::BindReceiver(bind("user", "pass", "^\\+1.*"))),
        (BindType::Transceiver, Pdu::BindTransceiver(bind("user", "pass", "^\\+1.*"))),
    ] {
        let mut connection = Connection::new(test_config());
        connection.handle(&command(1, pdu)).unwrap();
        let id = connection.current.clone().unwrap();
        assert_eq!(id.len(), 36);
        let session = connection.sessions.get_session(&id).unwrap();
        assert_eq!(session.id, id);
        assert_eq!(session.bind_type, role);
        assert_eq!(session.system_id, "user");
        assert_eq!(session.addr, "127.0.0.1:12345");
        assert_eq!(session.address_range.as_deref(), Some("^\\+1.*"));
        assert!(session.interface_version.is_none());
        assert_eq!(connection.sessions.count(), 1);
    }
}

#[test]
fn empty_address_range_is_no_range() {
    let mut connection = Connection::new(test_config());
    connection.handle(&command(1, Pdu::BindReceiver(bind("user", "pass", "")))).unwrap();
    let id = connection.current.clone().unwrap();
    assert!(connection.sessions.get_session(&id).unwrap().address_range.is_none());
}

#[test]
fn refused_bind_leaves_the_connection_open_for_another() {
    let mut connection = Connection::new(test_config());
    let refused = connection.handle(&command(1, Pdu::BindTransmitter(bind("bad", "bad", ""))));
    assert_eq!(refused.unwrap().status, CommandStatus::EsmeRbindfail);
    assert_eq!(connection.sessions.count(), 0);
    let accepted = connection.handle(&command(2, Pdu::BindTransmitter(bind("user", "pass", ""))));
    assert_eq!(accepted.unwrap().status, CommandStatus::EsmeRok);
    assert_eq!(connection.sessions.count(), 1);
    assert!(connection.current.is_some());
}

#[test]
fn refused_bind_keeps_the_session_of_the_connection() {
    let mut connection = Connection::new(test_config());
    connection.handle(&command(1, Pdu::BindTransmitter(bind("user", "pass", "")))).unwrap();
    let id = connection.current.clone();
    connection.handle(&command(2, Pdu::BindReceiver(bind("user", "bad", "")))).unwrap();
    assert_eq!(connection.current, id);
    assert_eq!(connection.sessions.count(), 1);
}

#[test]
fn second_bind_replaces_the_session_of_the_connection() {
    let mut connection = Connection::new(test_config());
    connection.handle(&command(1, Pdu::BindTransmitter(bind("user", "pass", "")))).unwrap();
    let first = connection.current.clone().unwrap();
    connection.handle(&command(2, Pdu::BindReceiver(bind("user", "pass", "^1")))).unwrap();
    let second = connection.current.clone().unwrap();
    assert_ne!(first, second);
    assert_eq!(connection.sessions.count(), 1);
    assert!(connection.sessions.get_session(&first).is_none());
    assert_eq!(connection.sessions.get_session(&second).unwrap().bind_type, BindType::Receiver);
}

#[test]
fn submit_before_bind_is_refused() {
    let mut connection = Connection::new(test_config());
    let resp = connection.handle(&command(21, submit("source", "dest", "Hello")));
    assert_eq!(
        resp,
        Some(SmppCommand {
            status: CommandStatus::EsmeRinvbndsts,
            sequence_number: 21,
            pdu: Some(Pdu::SubmitSmResp(SubmitSmResp { message_id: String::new() })),
        })
    );
    assert_eq!(connection.queue.message_count(), 0);
    assert_eq!(connection.queue.pending_dr_count(), 0);
    assert_eq!(connection.queue.next_message_id(), "00000001");
}

#[test]
fn submit_on_a_bound_connection_queues_the_message() {
    let mut connection = Connection::new(test_config());
    connection.handle(&command(1, Pdu::BindTransceiver(bind("user", "pass", "")))).unwrap();
    let session_id = connection.current.clone().unwrap();
    let resp = connection.handle(&command(2, submit("source", "dest", "Hello")));
    assert_eq!(
        resp,
        Some(SmppCommand {
            status: CommandStatus::EsmeRok,
            sequence_number: 2,
            pdu: Some(Pdu::SubmitSmResp(SubmitSmResp { message_id: "00000001".to_string() })),
        })
    );
    let pending = connection.queue.get_pending_messages();
    assert_eq!(pending.len(), 1);
    assert_eq!(pending[0].message_id, "00000001");
    assert_eq!(pending[0].source_addr, "source");
    assert_eq!(pending[0].dest_addr, "dest");
    assert_eq!(pending[0].short_message, b"Hello".to_vec());
    assert_eq!(pending[0].data_coding, 0);
    assert_eq!(pending[0].session_id, session_id);
    assert_eq!(connection.queue.get_recent_messages().len(), 1);
    assert_eq!(connection.sessions.count(), 1);

    let next = connection.handle(&command(3, submit("a", "b", ""))).unwrap();
    assert_eq!(next.pdu, Some(Pdu::SubmitSmResp(SubmitSmResp { message_id: "00000002".to_string() })));
    assert_eq!(connection.queue.pending_dr_count(), 2);
}

#[test]
fn unbind_without_a_session_is_answered() {
    let mut connection = Connection::new(test_config());
    let other = Session::new("other".to_string(), BindType::Receiver, test_addr(), None);
    connection.sessions.add_session(other);
    let resp = connection.handle(&command(31, Pdu::Unbind)).unwrap();
    assert_eq!(resp.status, CommandStatus::EsmeRok);
    assert_eq!(resp.sequence_number, 31);
    assert_eq!(resp.pdu, Some(Pdu::UnbindResp));
    assert_eq!(connection.sessions.count(), 1);
    assert!(connection.current.is_none());
}

#[test]
fn submit_after_unbind_is_refused() {
    let mut connection = Connection::new(test_config());
    connection.handle(&command(1, Pdu::BindTransmitter(bind("user", "pass", "")))).unwrap();
    connection.handle(&command(2, Pdu::Unbind)).unwrap();
    let resp = connection.handle(&command(3, submit("a", "b", "c"))).unwrap();
    assert_eq!(resp.status, CommandStatus::EsmeRinvbndsts);
}

#[test]
fn other_commands_get_no_response_and_change_nothing() {
    let mut connection = Connection::new(test_config());
    connection.handle(&command(1, Pdu::BindTransmitter(bind("user", "pass", "")))).unwrap();
    let id = connection.current.clone();
    let silent = vec![
        Pdu::Other,
        Pdu::EnquireLinkResp,
        Pdu::UnbindResp,
        Pdu::SubmitSmResp(SubmitSmResp { message_id: "1".to_string() }),
        Pdu::BindTransmitterResp(BindResponse {
            system_id: "x".to_string(),
            sc_interface_version: None,
        }),
    ];
    for pdu in silent {
        assert_eq!(connection.handle(&command(9, pdu)), None);
    }
    let bare = SmppCommand { status: CommandStatus::Other(0x58), sequence_number: 10, pdu: None };
    assert_eq!(connection.handle(&bare), None);
    assert_eq!(connection.current, id);
    assert_eq!(connection.sessions.count(), 1);
    assert_eq!(connection.queue.message_count(), 0);
}

#[test]
fn keepalive_is_answered_in_any_state() {
    let mut connection = Connection::new(test_config());
    let before = connection.handle(&command(5, Pdu::EnquireLink)).unwrap();
    connection.handle(&command(6, Pdu::BindTransmitter(bind("user", "pass", "")))).unwrap();
    let after = connection.handle(&command(7, Pdu::EnquireLink)).unwrap();
    assert_eq!(before.pdu, Some(Pdu::EnquireLinkResp));
    assert_eq!(after.pdu, Some(Pdu::EnquireLinkResp));
    assert_eq!(before.sequence_number, 5);
    assert_eq!(after.sequence_number, 7);
    assert_eq!(connection.sessions.count(), 1);
}

#[test]
fn responses_come_in_the_order_of_the_requests() {
    let mut connection = Connection::new(test_config());
    let requests = vec![
        command(40, Pdu::EnquireLink),
        command(41, submit("a", "b", "c")),
        command(42, Pdu::Other),
        command(43, Pdu::BindTransceiver(bind("user", "pass", ""))),
        command(44, submit("a", "b", "c")),
        command(45, Pdu::EnquireLink),
        command(46, Pdu::Unbind),
    ];
    let mut written = Vec::new();
    for request in &requests {
        if let Some(response) = connection.handle(request) {
            written.push(response.sequence_number);
        }
    }
    assert_eq!(written, vec![40, 41, 43, 44, 45, 46]);
}

#[test]
fn authenticate_accepts_the_default_account_and_the_list() {
    let mut config = test_config();
    config.smpp.accounts = vec![
        SmppAccount { system_id: "alice".to_string(), password: "a1".to_string() },
        SmppAccount { system_id: "bob".to_string(), password: "b2".to_string() },
    ];
    assert!(authenticate("user", "pass", &config));
    assert!(authenticate("alice", "a1", &config));
    assert!(authenticate("bob", "b2", &config));
    assert!(!authenticate("alice", "b2", &config));
    assert!(!authenticate("bob", "pass", &config));
    assert!(!authenticate("User", "pass", &config));
    assert!(!authenticate("user", "PASS", &config));
    assert!(!authenticate("", "", &config));
    assert!(!authenticate("user", "", &config));
}

#[test]
fn status_codes() {
    assert_eq!(CommandStatus::EsmeRok.code(), 0);
    assert_eq!(CommandStatus::EsmeRinvbndsts.code(), 0x04);
    assert_eq!(CommandStatus::EsmeRbindfail.code(), 0x0D);
    assert_eq!(CommandStatus::Other(0x58).code(), 0x58);
    assert_eq!(CommandStatus::from_code(0), CommandStatus::EsmeRok);
    assert_eq!(CommandStatus::from_code(4), CommandStatus::EsmeRinvbndsts);
    assert_eq!(CommandStatus::from_code(13), CommandStatus::EsmeRbindfail);
    assert_eq!(CommandStatus::from_code(0x58), CommandStatus::Other(0x58));
}

#[test]
fn only_an_unbind_closes_the_connection() {
    assert!(closes_connection(&command(1, Pdu::Unbind)));
    let open = vec![
        Pdu::UnbindResp,
        Pdu::EnquireLink,
        Pdu::EnquireLinkResp,
        Pdu::Other,
        Pdu::BindTransmitter(bind("user", "pass", "")),
        Pdu::BindReceiver(bind("user", "bad", "")),
        submit("a", "b", "c"),
    ];
    for pdu in open {
        assert!(!closes_connection(&command(1, pdu)));
    }
    let bare = SmppCommand { status: CommandStatus::EsmeRok, sequence_number: 1, pdu: None };
    assert!(!closes_connection(&bare));
}

#[test]
fn end_of_a_connection_removes_its_session() {
    let mut connection = Connection::new(test_config());
    connection.handle(&command(1, Pdu::BindTransceiver(bind("user", "pass", "")))).unwrap();
    let other = Session::new("other".to_string(), BindType::Receiver, test_addr(), None);
    let other_id = other.id.clone();
    connection.sessions.add_session(other);
    assert_eq!(connection.sessions.count(), 2);

    end_connection(&mut connection.sessions, &mut connection.current);
    assert!(connection.current.is_none());
    assert_eq!(connection.sessions.count(), 1);
    assert!(connection.sessions.get_session(&other_id).is_some());

    end_connection(&mut connection.sessions, &mut connection.current);
    assert!(connection.current.is_none());
    assert_eq!(connection.sessions.count(), 1);
}

#[test]
fn end_of_a_connection_without_a_session_changes_nothing() {
    let mut sessions = SessionManager::new();
    sessions.add_session(Session::new("a".to_string(), BindType::Receiver, test_addr(), None));
    let mut current: Option<String> = None;
    end_connection(&mut sessions, &mut current);
    assert!(current.is_none());
    assert_eq!(sessions.count(), 1);
}

#[test]
fn connection_goes_on_until_it_has_to_end() {
    assert!(connection_goes_on(&ConnectionEvent::Outbound));
    assert!(connection_goes_on(&ConnectionEvent::Decoded(command(1, Pdu::EnquireLink))));
    assert!(connection_goes_on(&ConnectionEvent::Decoded(command(
        2,
        Pdu::BindTransmitter(bind("bad", "bad", ""))
    ))));
    assert!(connection_goes_on(&ConnectionEvent::Decoded(command(3, submit("a", "b", "c")))));
    assert!(connection_goes_on(&ConnectionEvent::Decoded(command(4, Pdu::Other))));
    let bare = SmppCommand { status: CommandStatus::EsmeRok, sequence_number: 5, pdu: None };
    assert!(connection_goes_on(&ConnectionEvent::Decoded(bare)));

    assert!(!connection_goes_on(&ConnectionEvent::Decoded(command(6, Pdu::Unbind))));
    assert!(!connection_goes_on(&ConnectionEvent::DecodeFailed));
    assert!(!connection_goes_on(&ConnectionEvent::Closed));
    assert!(!connection_goes_on(&ConnectionEvent::WriteFailed));
}

