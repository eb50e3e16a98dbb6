use rust_smpp_sim::smpp::queue::{MessageQueue, MoMessage, QueuedMessage};

fn message(id: &str) -> QueuedMessage {
    QueuedMessage {
        message_id: id.to_string(),
        source_addr: "+111".to_string(),
        dest_addr: "+222".to_string(),
        short_message: b"text".to_vec(),
        data_coding: 0,
        session_id: "session".to_string(),
        submitted_at: std::time::Instant::now(),
    }
}

fn ids(mut messages: Vec<QueuedMessage>) -> Vec<String> {
    messages.sort_by(|a, b| a.message_id.cmp(&b.message_id));
    messages.into_iter().map(|m| m.message_id).collect()
}

#[test]
fn test_message_queue_creation() {
    let queue = MessageQueue::new();
    assert_eq!(queue.pending_dr_count(), 0, "New queue should have no pending DRs");
}

#[test]
fn test_message_id_generation() {
    let mut queue = MessageQueue::new();

    let id1 = queue.next_message_id();
    let id2 = queue.next_message_id();
    let id3 = queue.next_message_id();

    // Message IDs should be unique
    assert_ne!(id1, id2);
    assert_ne!(id2, id3);
    assert_ne!(id1, id3);

    // IDs should be sequential (incrementing)
    // Parse the numeric parts and verify order
    let num1: u64 = id1.parse().expect("ID should be numeric");
    let num2: u64 = id2.parse().expect("ID should be numeric");
    let num3: u64 = id3.parse().expect("ID should be numeric");

    assert!(num2 > num1, "IDs should be incrementing");
    assert!(num3 > num2, "IDs should be incrementing");
}

#[test]
fn test_add_pending_dr() {
    let mut queue = MessageQueue::new();

    let msg = QueuedMessage {
        message_id: "msg-001".to_string(),
        source_addr: "+1234567890".to_string(),
        dest_addr: "+0987654321".to_string(),
        short_message: b"Hello World".to_vec(),
        data_coding: 0,
        session_id: "session-001".to_string(),
        submitted_at: std::time::Instant::now(),
    };

    queue.add_pending_dr(msg);

    assert_eq!(queue.pending_dr_count(), 1, "DR should be pending after add");
}

#[test]
fn test_get_recent_messages() {
    let mut queue = MessageQueue::new();

    // Add multiple messages
    for i in 0..10 {
        let msg = QueuedMessage {
            message_id: format!("msg-{:03}", i),
            source_addr: format!("+123{}", i),
            dest_addr: format!("+987{}", i),
            short_message: format!("Message {}", i).into_bytes(),
            data_coding: 0,
            session_id: "session".to_string(),
            submitted_at: std::time::Instant::now(),
        };
        queue.add_pending_dr(msg);
    }

    let recent = queue.get_recent_messages();
    assert_eq!(recent.len(), 10, "Should retrieve all recent messages");
}

#[test]
fn test_message_content_preserved() {
    let mut queue = MessageQueue::new();

    let original_content = "Test OTP: 123456";
    let msg = QueuedMessage {
        message_id: "content-test".to_string(),
        source_addr: "+1111".to_string(),
        dest_addr: "+2222".to_string(),
        short_message: original_content.as_bytes().to_vec(),
        data_coding: 0,
        session_id: "s1".to_string(),
        submitted_at: std::time::Instant::now(),
    };

    queue.add_pending_dr(msg);

    let retrieved = queue.get_recent_messages();
    assert_eq!(retrieved.len(), 1);

    let content = String::from_utf8_lossy(&retrieved[0].short_message);
    assert_eq!(content, original_content, "Message content should be preserved");
}

#[test]
fn test_source_dest_addresses() {
    let mut queue = MessageQueue::new();

    let msg = QueuedMessage {
        message_id: "addr-test".to_string(),
        source_addr: "+66812345678".to_string(),
        dest_addr: "+66887654321".to_string(),
        short_message: b"SMS".to_vec(),
        data_coding: 0,
        session_id: "s".to_string(),
        submitted_at: std::time::Instant::now(),
    };

    queue.add_pending_dr(msg);

    let retrieved = &queue.get_recent_messages()[0];
    assert_eq!(retrieved.source_addr, "+66812345678");
    assert_eq!(retrieved.dest_addr, "+66887654321");
}

#[test]
fn new_queue_is_empty() {
    let queue = MessageQueue::new();
    assert_eq!(queue.message_count(), 0);
    assert_eq!(queue.pending_dr_count(), 0);
    assert!(queue.get_recent_messages().is_empty());
    assert!(queue.get_pending_messages().is_empty());
}

#[test]
fn first_message_ids() {
    let mut queue = MessageQueue::new();
    assert_eq!(queue.next_message_id(), "00000001");
    assert_eq!(queue.next_message_id(), "00000002");
    for _ in 0..7 {
        queue.next_message_id();
    }
    assert_eq!(queue.next_message_id(), "0000000A");
    for _ in 0..5 {
        queue.next_message_id();
    }
    assert_eq!(queue.next_message_id(), "00000010");
}

#[test]
fn message_ids_are_unique_and_ascend() {
    let mut queue = MessageQueue::new();
    let mut last: Option<u32> = None;
    for _ in 0..1000 {
        let id = queue.next_message_id();
        assert_eq!(id.len(), 8);
        assert!(id.chars().all(|c| c.is_ascii_digit() || ('A'..='F').contains(&c)));
        let value = u32::from_str_radix(&id, 16).unwrap();
        if let Some(previous) = last {
            assert!(value > previous);
        }
        last = Some(value);
    }
    assert_eq!(last, Some(1000));
}

#[test]
fn allocating_an_id_leaves_the_indexes_alone() {
    let mut queue = MessageQueue::new();
    queue.add_pending_dr(message("a"));
    queue.next_message_id();
    assert_eq!(queue.message_count(), 1);
    assert_eq!(queue.pending_dr_count(), 1);
}

#[test]
fn add_pending_dr_fills_both_indexes() {
    let mut queue = MessageQueue::new();
    queue.add_pending_dr(message("b"));
    queue.add_pending_dr(message("a"));
    assert_eq!(queue.message_count(), 2);
    assert_eq!(queue.pending_dr_count(), 2);
    assert_eq!(ids(queue.get_recent_messages()), vec!["a", "b"]);
    assert_eq!(ids(queue.get_pending_messages()), vec!["a", "b"]);
}

#[test]
fn add_pending_dr_replaces_a_message_with_the_same_id() {
    let mut queue = MessageQueue::new();
    queue.add_pending_dr(message("a"));
    let mut again = message("a");
    again.dest_addr = "+333".to_string();
    queue.add_pending_dr(again);
    assert_eq!(queue.message_count(), 1);
    assert_eq!(queue.pending_dr_count(), 1);
    assert_eq!(queue.get_pending_messages()[0].dest_addr, "+333");
    assert_eq!(queue.get_recent_messages()[0].dest_addr, "+333");
}

#[test]
fn remove_pending_dr_keeps_the_message_among_the_recent() {
    let mut queue = MessageQueue::new();
    queue.add_pending_dr(message("a"));
    queue.add_pending_dr(message("b"));
    queue.remove_pending_dr("a");
    assert_eq!(ids(queue.get_pending_messages()), vec!["b"]);
    assert_eq!(ids(queue.get_recent_messages()), vec!["a", "b"]);
    assert_eq!(queue.pending_dr_count(), 1);
    assert_eq!(queue.message_count(), 2);
}

#[test]
fn remove_pending_dr_of_an_unknown_id_changes_nothing() {
    let mut queue = MessageQueue::new();
    queue.add_pending_dr(message("a"));
    queue.remove_pending_dr("zz");
    queue.remove_pending_dr("");
    assert_eq!(queue.pending_dr_count(), 1);
    queue.remove_pending_dr("a");
    queue.remove_pending_dr("a");
    assert_eq!(queue.pending_dr_count(), 0);
    assert_eq!(queue.message_count(), 1);
}

#[test]
fn snapshots_are_copies() {
    let mut queue = MessageQueue::new();
    queue.add_pending_dr(message("a"));
    let snapshot = queue.get_pending_messages();
    queue.remove_pending_dr("a");
    assert_eq!(snapshot.len(), 1);
    assert_eq!(snapshot[0].message_id, "a");
    assert_eq!(snapshot[0].short_message, b"text".to_vec());
    assert_eq!(snapshot[0].session_id, "session");
}

#[test]
fn messages_clone_field_for_field() {
    let original = message("a");
    let copy = original.clone();
    assert_eq!(copy.message_id, original.message_id);
    assert_eq!(copy.source_addr, original.source_addr);
    assert_eq!(copy.dest_addr, original.dest_addr);
    assert_eq!(copy.short_message, original.short_message);
    assert_eq!(copy.data_coding, original.data_coding);
    assert_eq!(copy.session_id, original.session_id);
    assert_eq!(copy.submitted_at, original.submitted_at);
    let mo = MoMessage {
        source_addr: "s".to_string(),
        dest_addr: "d".to_string(),
        short_message: "m".to_string(),
    };
    let mo_copy = mo.clone();
    assert_eq!(mo_copy.source_addr, "s");
    assert_eq!(mo_copy.dest_addr, "d");
    assert_eq!(mo_copy.short_message, "m");
}
