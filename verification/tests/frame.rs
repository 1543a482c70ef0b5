use acpe::acceptor::Acceptor;
use acpe::connection::{
    check_received, check_sent, Connection, ReceiveError, SendError, RECEIVE_BUFFER_SIZE,
};
use acpe::frame::{frame_message, try_frame_message, FrameError, StreamFramer, MAX_MSG_LENGTH};

#[test]
fn a_frame_is_its_length_and_its_payload() {
    assert_eq!(frame_message(b"ABC"), vec![0x04, 0x41, 0x42, 0x43]);
    assert_eq!(try_frame_message(b"A"), Some(vec![0x02, 0x41]));
}

#[test]
fn a_frame_holds_at_most_254_bytes_of_payload() {
    let longest = vec![7u8; MAX_MSG_LENGTH - 1];
    let frame = try_frame_message(&longest).unwrap();
    assert_eq!(frame.len(), 255);
    assert_eq!(frame[0], 255);
    assert_eq!(try_frame_message(&vec![7u8; MAX_MSG_LENGTH]), None);
    assert_eq!(try_frame_message(b""), None);
}

#[test]
fn a_whole_frame_is_delivered() {
    let mut framer = StreamFramer::new(16);
    let delivery = framer.receive_messages(&[0x04, 0x41, 0x42, 0x43]);
    assert_eq!(delivery.frames, vec![b"ABC".to_vec()]);
    assert_eq!(delivery.error, None);
    assert_eq!(framer.room(), 16);
}

#[test]
fn a_frame_in_two_pieces_is_delivered_once() {
    let mut framer = StreamFramer::new(16);
    let first = framer.receive_messages(&[0x04]);
    assert_eq!(first.frames.len(), 0);
    assert_eq!(first.error, None);
    assert_eq!(framer.room(), 15);
    let second = framer.receive_messages(&[0x41, 0x42, 0x43]);
    assert_eq!(second.frames, vec![b"ABC".to_vec()]);
    assert_eq!(second.error, None);
    assert_eq!(framer.room(), 16);
}

#[test]
fn every_split_of_a_frame_gives_the_same_frame() {
    let frame = frame_message(b"hello world");
    for cut in 0..=frame.len() {
        let mut framer = StreamFramer::new(32);
        let mut frames = framer.receive_messages(&frame[..cut]).frames;
        frames.extend(framer.receive_messages(&frame[cut..]).frames);
        assert_eq!(frames, vec![b"hello world".to_vec()]);
        assert_eq!(framer.room(), 32);
    }
}

#[test]
fn two_frames_in_one_read_are_both_delivered_and_nothing_is_left() {
    let mut framer = StreamFramer::new(16);
    let delivery = framer.receive_messages(&[0x03, 0x61, 0x62, 0x04, 0x41, 0x42, 0x43]);
    assert_eq!(delivery.frames, vec![b"ab".to_vec(), b"ABC".to_vec()]);
    assert_eq!(delivery.error, None);
    assert_eq!(framer.room(), 16);
}

#[test]
fn what_follows_a_whole_frame_moves_to_the_front() {
    let mut framer = StreamFramer::new(8);
    let delivery = framer.receive_messages(&[0x03, 0x61, 0x62, 0x05, 0x41, 0x42]);
    assert_eq!(delivery.frames, vec![b"ab".to_vec()]);
    assert_eq!(framer.room(), 5);
    let delivery = framer.receive_messages(&[0x43, 0x44, 0x02, 0x7a]);
    assert_eq!(delivery.frames, vec![b"ABCD".to_vec(), b"z".to_vec()]);
    assert_eq!(framer.room(), 8);
}

#[test]
fn no_bytes_is_no_error() {
    let mut framer = StreamFramer::new(8);
    let delivery = framer.receive_messages(&[]);
    assert_eq!(delivery.frames.len(), 0);
    assert_eq!(delivery.error, None);
    assert_eq!(framer.room(), 8);
}

#[test]
fn a_length_of_zero_or_one_is_malformed() {
    let mut framer = StreamFramer::new(8);
    let delivery = framer.receive_messages(&[0x00, 0x41]);
    assert_eq!(delivery.frames.len(), 0);
    assert_eq!(delivery.error, Some(FrameError::Malformed));
    assert_eq!(framer.room(), 6);

    let mut framer = StreamFramer::new(8);
    let delivery = framer.receive_messages(&[0x02, 0x41, 0x01]);
    assert_eq!(delivery.frames, vec![b"A".to_vec()]);
    assert_eq!(delivery.error, Some(FrameError::Malformed));
    assert_eq!(framer.room(), 7);
}

#[test]
fn a_length_beyond_the_buffer_is_too_long() {
    let mut framer = StreamFramer::new(4);
    let delivery = framer.receive_messages(&[0x05, 0x41]);
    assert_eq!(delivery.frames.len(), 0);
    assert_eq!(delivery.error, Some(FrameError::TooLong));
}

#[test]
fn a_connection_frames_what_it_receives() {
    let mut connection = Connection::from_fd(5);
    assert_eq!(connection.fd(), 5);
    assert_eq!(connection.room(), RECEIVE_BUFFER_SIZE);
    let delivery = connection.receive_messages(&[0x04, 0x41, 0x42, 0x43, 0x03, 0x61]);
    assert_eq!(delivery.frames, vec![b"ABC".to_vec()]);
    assert_eq!(delivery.error, None);
    assert_eq!(connection.room(), RECEIVE_BUFFER_SIZE - 2);
    assert_eq!(connection.send_message(b"hi"), vec![0x03, 0x68, 0x69]);
}

#[test]
fn closing_twice_releases_once() {
    let mut connection = Connection::from_fd(9);
    assert!(connection.open());
    assert_eq!(connection.close(), Some(9));
    assert!(!connection.open());
    assert_eq!(connection.close(), None);
    assert!(!connection.open());
    assert_eq!(connection.fd(), 9);
}

#[test]
fn send_results_are_told_apart() {
    assert_eq!(check_sent(4, 4), Ok(()));
    assert_eq!(check_sent(-1, 4), Err(SendError::Failed));
    assert_eq!(check_sent(3, 4), Err(SendError::Partial { sent: 3, expected: 4 }));
    assert_eq!(check_sent(0, 4), Err(SendError::Partial { sent: 0, expected: 4 }));
}

#[test]
fn receive_results_are_told_apart() {
    assert_eq!(check_received(-1, true), Ok(0));
    assert_eq!(check_received(-1, false), Err(ReceiveError::Failed));
    assert_eq!(check_received(0, false), Err(ReceiveError::Closed));
    assert_eq!(check_received(0, true), Err(ReceiveError::Closed));
    assert_eq!(check_received(17, false), Ok(17));
}

#[test]
fn accept_hands_out_each_connection_once() {
    let mut acceptor: Acceptor<u16> = Acceptor::new();
    assert_eq!(acceptor.accept(), vec![]);
    acceptor.offer(1);
    acceptor.offer(2);
    assert_eq!(acceptor.accept(), vec![1, 2]);
    assert_eq!(acceptor.accept(), vec![]);
    acceptor.offer(3);
    assert_eq!(acceptor.accept(), vec![3]);
}
