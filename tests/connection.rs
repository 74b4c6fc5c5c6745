use yodel::connection::{
    Connection, Interest, IoFault, IoStatus, ReadAction, ReadOutcome, WriteAction, WriteOutcome,
};
use yodel::frame::encode_frame;

#[test]
fn new_connection_is_empty_and_readable() {
    let conn = Connection::new(42u32);
    assert_eq!(*conn.socket(), 42);
    assert!(conn.inbound().is_empty());
    assert!(conn.outbound().is_empty());
    assert_eq!(conn.interest(), Interest::Readable);
}

#[test]
fn socket_mut_changes_only_the_socket() {
    let mut conn = Connection::new(1u32);
    conn.push_message(&vec![1, 2]);
    *conn.socket_mut() = 5;
    assert_eq!(*conn.socket(), 5);
    assert_eq!(conn.outbound(), &[1, 2]);
}

#[test]
fn read_outcomes() {
    let mut conn = Connection::new(());
    let buf = [10u8, 20, 30, 40];
    assert_eq!(conn.record_read(IoStatus::Done(3), &buf), Ok(ReadOutcome::Progressed));
    assert_eq!(conn.inbound(), &[10, 20, 30]);
    assert_eq!(conn.record_read(IoStatus::WouldBlock, &buf), Ok(ReadOutcome::WouldBlock));
    assert_eq!(conn.record_read(IoStatus::Done(0), &buf), Ok(ReadOutcome::Closed));
    assert_eq!(conn.record_read(IoStatus::Failed, &buf), Err(IoFault::Fault));
    assert_eq!(conn.inbound(), &[10, 20, 30]);
}

#[test]
fn write_outcomes() {
    let mut conn = Connection::new(());
    assert_eq!(conn.record_write(IoStatus::Done(0)), Ok(WriteOutcome::Idle));
    assert_eq!(conn.record_write(IoStatus::Failed), Ok(WriteOutcome::Idle));
    conn.push_message(&vec![1, 2, 3, 4, 5]);
    assert_eq!(conn.record_write(IoStatus::Done(2)), Ok(WriteOutcome::Progressed));
    assert_eq!(conn.outbound(), &[3, 4, 5]);
    assert_eq!(conn.record_write(IoStatus::WouldBlock), Ok(WriteOutcome::WouldBlock));
    assert_eq!(conn.outbound(), &[3, 4, 5]);
    assert_eq!(conn.record_write(IoStatus::Failed), Err(IoFault::Fault));
    assert_eq!(conn.outbound(), &[3, 4, 5]);
}

#[test]
fn push_message_keeps_order() {
    let mut conn = Connection::new(());
    conn.push_message(&vec![1, 2]);
    conn.push_message(&vec![3]);
    assert_eq!(conn.outbound(), &[1, 2, 3]);
    assert!(conn.inbound().is_empty());
}

#[test]
fn interest_follows_outbound_buffer() {
    let mut conn = Connection::new(());
    assert_eq!(conn.sync_interest(), None);
    conn.push_message(&vec![9, 9]);
    assert_eq!(conn.sync_interest(), Some(Interest::ReadWritable));
    assert_eq!(conn.interest(), Interest::ReadWritable);
    assert_eq!(conn.sync_interest(), None);
    assert_eq!(conn.record_write(IoStatus::Done(2)), Ok(WriteOutcome::Progressed));
    assert_eq!(conn.sync_interest(), Some(Interest::Readable));
    assert_eq!(conn.interest(), Interest::Readable);
}

#[test]
fn partial_writes_drain_to_read_only() {
    let mut conn = Connection::new(());
    conn.push_message(&(0u8..10).collect::<Vec<u8>>());
    assert_eq!(conn.sync_interest(), Some(Interest::ReadWritable));
    for n in [3usize, 0, 3, 4] {
        assert_eq!(conn.record_write(IoStatus::Done(n)), Ok(WriteOutcome::Progressed));
    }
    assert!(conn.outbound().is_empty());
    conn.sync_interest();
    assert_eq!(conn.interest(), Interest::Readable);
}

#[test]
fn after_read_closes_on_eof_or_fault() {
    let mut conn = Connection::new(());
    conn.record_read(IoStatus::Done(3), &[1, 2, 3]).unwrap();
    assert!(matches!(conn.after_read(Ok(ReadOutcome::Closed)), ReadAction::Close));
    assert!(matches!(conn.after_read(Err(IoFault::Fault)), ReadAction::Close));
    assert_eq!(conn.inbound(), &[1, 2, 3]);
}

#[test]
fn after_read_relays_every_whole_frame() {
    let mut conn = Connection::new(());
    let mut bytes = encode_frame(&[3], b"ab");
    bytes.extend_from_slice(&encode_frame(b"", b"c"));
    bytes.extend_from_slice(&[1, 0]);
    conn.record_read(IoStatus::Done(bytes.len()), &bytes).unwrap();
    match conn.after_read(Ok(ReadOutcome::WouldBlock)) {
        ReadAction::Relay(frames) => {
            assert_eq!(frames.len(), 2);
            assert_eq!(frames[0], (vec![1, 0, 0, 0], encode_frame(&[3], b"ab")));
            assert_eq!(frames[1], (vec![0, 0, 0, 0], encode_frame(b"", b"c")));
        }
        ReadAction::Close => panic!("expected frames to relay"),
    }
    assert_eq!(conn.inbound(), &[1, 0]);
    match conn.after_read(Ok(ReadOutcome::Progressed)) {
        ReadAction::Relay(frames) => assert!(frames.is_empty()),
        ReadAction::Close => panic!("expected nothing to relay"),
    }
}

#[test]
fn after_write_reverts_interest_when_drained() {
    let mut conn = Connection::new(());
    conn.push_message(&vec![1, 2, 3]);
    assert_eq!(conn.sync_interest(), Some(Interest::ReadWritable));
    let w = conn.record_write(IoStatus::Done(1));
    assert_eq!(conn.after_write(w), WriteAction::Keep(None));
    let w = conn.record_write(IoStatus::Done(2));
    assert_eq!(conn.after_write(w), WriteAction::Keep(Some(Interest::Readable)));
    assert_eq!(conn.interest(), Interest::Readable);
    conn.push_message(&vec![4]);
    let w = conn.record_write(IoStatus::Failed);
    assert_eq!(conn.after_write(w), WriteAction::Close);
    assert_eq!(conn.interest(), Interest::Readable);
}
