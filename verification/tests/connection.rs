use cree::tcp::{ends_message, Inbound, PersistentTcpConnection, BUFFER_SIZE, TCP_MAX_MESSAGES};

#[test]
fn a_short_read_ends_a_message() {
    assert!(ends_message(0));
    assert!(ends_message(127));
    assert!(!ends_message(128));
    assert_eq!(BUFFER_SIZE, 128);
}

#[test]
fn a_message_is_delivered_and_counted() {
    let mut connection = PersistentTcpConnection::new();
    let message = connection.messages(Inbound::Message(b"abc".to_vec()), 17).unwrap();
    assert_eq!(message.content, b"abc".to_vec());
    assert_eq!(message.time_received, 17);
    assert_eq!(connection.get_message_count(), 1);
    assert!(!connection.closed);
}

#[test]
fn the_counter_is_strictly_monotone_up_to_the_cap() {
    let mut connection = PersistentTcpConnection::new();
    for n in 1..=TCP_MAX_MESSAGES {
        assert!(connection.messages(Inbound::Message(vec![1]), 0).is_ok());
        assert_eq!(connection.get_message_count(), n);
    }
    assert!(connection.is_last());
    let err = connection.messages(Inbound::Message(vec![1]), 0).unwrap_err();
    assert_eq!(err.code, 4002);
    assert!(connection.closed);
    assert_eq!(connection.get_message_count(), TCP_MAX_MESSAGES);
}

#[test]
fn the_idle_limit_closes_the_connection() {
    let mut connection = PersistentTcpConnection::new();
    let err = connection.messages(Inbound::Idle, 0).unwrap_err();
    assert_eq!(err.code, 4003);
    assert!(connection.closed);
    let err = connection.messages(Inbound::Message(vec![1]), 0).unwrap_err();
    assert_eq!(err.code, 1000);
    assert_eq!(connection.get_message_count(), 0);
}

#[test]
fn a_reader_that_has_gone_gives_an_error() {
    let mut connection = PersistentTcpConnection::new();
    let err = connection.messages(Inbound::Ended, 0).unwrap_err();
    assert_eq!(err.code, 1000);
    assert!(!connection.closed);
}

#[test]
fn close_marks_the_connection() {
    let mut connection = PersistentTcpConnection::new();
    assert!(!connection.is_last());
    connection.close();
    assert!(connection.closed);
}
