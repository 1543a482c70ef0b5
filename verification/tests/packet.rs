use acpe::buf_writer::{BufError, BufWriter};
use acpe::decimal::{format_i32, format_u64, parse_i32, parse_u64};
use acpe::decoder::{decode, decode_packet, DecodeError};
use acpe::encoder::{Encoder, MessageEncoder};
use acpe::message::Message;
use acpe::part::MessagePart;
use acpe::perception::{Perception, PerceptionHeader};
use acpe::record::Record;
use acpe::MAX_PACKET_SIZE;

#[test]
fn numbers_are_written_in_decimal() {
    assert_eq!(format_u64(0), b"0".to_vec());
    assert_eq!(format_u64(10), b"10".to_vec());
    assert_eq!(format_u64(u64::MAX), b"18446744073709551615".to_vec());
    assert_eq!(format_i32(-1), b"-1".to_vec());
    assert_eq!(format_i32(i32::MIN), b"-2147483648".to_vec());
    assert_eq!(format_i32(i32::MAX), b"2147483647".to_vec());
}

#[test]
fn numbers_are_read_from_decimal() {
    assert_eq!(parse_u64(b"0"), Some(0));
    assert_eq!(parse_u64(b"007"), Some(7));
    assert_eq!(parse_u64(b"18446744073709551615"), Some(u64::MAX));
    assert_eq!(parse_u64(b"18446744073709551616"), None);
    assert_eq!(parse_u64(b""), None);
    assert_eq!(parse_u64(b"+5"), None);
    assert_eq!(parse_u64(b"5 "), None);
    assert_eq!(parse_u64(b"abc"), None);
    assert_eq!(parse_i32(b"-2147483648"), Some(i32::MIN));
    assert_eq!(parse_i32(b"-2147483649"), None);
    assert_eq!(parse_i32(b"2147483647"), Some(i32::MAX));
    assert_eq!(parse_i32(b"2147483648"), None);
    assert_eq!(parse_i32(b"-"), None);
    assert_eq!(parse_i32(b"-0"), Some(0));
}

#[test]
fn packet_starts_with_the_confirmed_sequence_number() {
    let mut encoder = Encoder::new();
    let message: MessageEncoder<u64> = encoder.message(42);
    let mut out = [0u8; MAX_PACKET_SIZE];
    assert_eq!(message.encode(&mut out), Ok(&b"42\n"[..]));
}

#[test]
fn parts_follow_the_header_one_line_each() {
    let mut encoder = Encoder::new();
    let mut message: MessageEncoder<i32> = encoder.message(7);
    assert!(message.add(&5));
    assert!(message.add(&-12));
    assert!(message.add(&0));
    let mut out = [0u8; 64];
    assert_eq!(message.encode(&mut out), Ok(&b"7\n5\n-12\n0\n"[..]));
    assert_eq!(&out[..12], b"7\n5\n-12\n0\n\0\0");
}

#[test]
fn encode_into_a_buffer_that_is_too_short_fails_and_leaves_it() {
    let mut encoder = Encoder::new();
    let mut message: MessageEncoder<i32> = encoder.message(7);
    assert!(message.add(&12345));
    let mut out = [9u8; 7];
    assert!(message.encode(&mut out).is_err());
    assert_eq!(out, [9u8; 7]);
}

#[test]
fn a_part_that_does_not_fit_is_refused_and_the_packet_stays() {
    let mut message: MessageEncoder<u64> = MessageEncoder::new(vec![0; 11], 1);
    assert!(message.add(&22));
    assert!(message.add(&333));
    assert!(!message.add(&4444));
    assert!(!message.add(&55));
    assert!(message.add(&6));
    assert!(!message.add(&7));
    assert_eq!(message.into_bytes(), b"1\n22\n333\n6\n".to_vec());
}

#[test]
fn a_full_packet_still_decodes_to_what_it_accepted() {
    let mut encoder = Encoder::new();
    let mut message: MessageEncoder<u64> = encoder.message(3);
    let mut accepted: Vec<u64> = Vec::new();
    let mut next: u64 = 1_000_000;
    while message.add(&next) {
        accepted.push(next);
        next += 1;
    }
    assert_eq!(accepted.len(), (MAX_PACKET_SIZE - 2) / 8);
    assert!(!message.add(&next));
    let mut out = [0u8; MAX_PACKET_SIZE];
    let bytes = message.encode(&mut out).unwrap();
    assert!(bytes.len() <= MAX_PACKET_SIZE);
    let mut parts: Vec<u64> = Vec::new();
    assert_eq!(decode(bytes, &mut parts), Ok(3));
    assert_eq!(parts, accepted);
}

#[test]
fn a_larger_buffer_makes_no_larger_packet() {
    let mut message: MessageEncoder<u64> = MessageEncoder::new(vec![0; 2 * MAX_PACKET_SIZE], 3);
    let mut count = 0;
    while message.add(&1_000_000) {
        count += 1;
    }
    assert_eq!(count, (MAX_PACKET_SIZE - 2) / 8);
    let bytes = message.into_bytes();
    assert_eq!(bytes.len(), 2 + 8 * count);
    assert!(bytes.len() <= MAX_PACKET_SIZE);
}

#[test]
fn decode_reads_header_and_parts() {
    let mut parts: Vec<i32> = vec![99];
    assert_eq!(decode(b"7\n5\n-12\n\n0\n", &mut parts), Ok(7));
    assert_eq!(parts, vec![99, 5, -12, 0]);
}

#[test]
fn decode_reads_a_packet_without_a_last_line_end() {
    let mut parts: Vec<i32> = Vec::new();
    assert_eq!(decode(b"7\n5", &mut parts), Ok(7));
    assert_eq!(parts, vec![5]);
    let mut parts: Vec<i32> = Vec::new();
    assert_eq!(decode(b"7", &mut parts), Ok(7));
    assert_eq!(parts, vec![]);
}

#[test]
fn decode_rejects_a_header_that_is_not_a_number() {
    let mut parts: Vec<i32> = vec![1];
    let result = decode(b"abc\n", &mut parts);
    assert!(matches!(result, Err(DecodeError::Header(_))));
    assert_eq!(parts, vec![1]);

    let mut parts: Vec<i32> = Vec::new();
    assert!(matches!(decode(b"", &mut parts), Err(DecodeError::Header(_))));
    assert!(matches!(decode(b"\n5\n", &mut parts), Err(DecodeError::Header(_))));
    assert_eq!(parts, vec![]);
}

#[test]
fn decode_names_the_line_that_is_no_part_and_keeps_nothing() {
    let mut parts: Vec<i32> = vec![1];
    let result = decode(b"7\n5\n\nx\n6\n", &mut parts);
    assert!(matches!(result, Err(DecodeError::Part { line: 3, .. })));
    assert_eq!(parts, vec![1]);
}

#[test]
fn decode_rejects_what_is_not_text_or_too_large() {
    let mut parts: Vec<i32> = Vec::new();
    assert_eq!(decode(&[0x37, 0x0a, 0xff, 0x0a], &mut parts), Err(DecodeError::NotUtf8));
    let mut large = b"7\n".to_vec();
    large.resize(MAX_PACKET_SIZE + 1, b'\n');
    assert_eq!(decode(&large, &mut parts), Err(DecodeError::TooLarge));
    large.pop();
    assert_eq!(decode(&large, &mut parts), Ok(7));
    assert_eq!(parts, vec![]);
}

#[test]
fn message_round_trip_with_integers() {
    let mut message: Message<u64, i32, u64> = Message::new();
    message.header = 9;
    message.update((1, 100));
    message.update((-2, 200));
    message.destroy(3);
    let bytes = message.clone().encode();
    assert_eq!(bytes, b"9\nUPDATE 1 100\nUPDATE -2 200\nDESTROY 3\n".to_vec());
    let back: Message<u64, i32, u64> = Message::decode(&bytes).unwrap();
    assert_eq!(back, message);
}

#[test]
fn message_decode_sorts_records_into_their_lists() {
    let back: Message<u64, i32, u64> =
        Message::decode(b"2\nDESTROY 8\nUPDATE 1 10\n\nDESTROY 9\nUPDATE 2 20").unwrap();
    assert_eq!(back.header, 2);
    assert_eq!(back.update, vec![(1, 10), (2, 20)]);
    assert_eq!(back.destroy, vec![8, 9]);
}

#[test]
fn message_decode_rejects_unknown_records() {
    let result: Result<Message<u64, i32, u64>, DecodeError> = Message::decode(b"2\nREMOVE 8\n");
    assert!(matches!(result, Err(DecodeError::Part { line: 1, .. })));
    let result: Result<Message<u64, i32, u64>, DecodeError> = Message::decode(b"2\nUPDATE 8\n");
    assert!(matches!(result, Err(DecodeError::Part { line: 1, .. })));
    let result: Result<Message<u64, i32, u64>, DecodeError> = Message::decode(b"x\nUPDATE 8 1\n");
    assert!(matches!(result, Err(DecodeError::Header(_))));
}

#[test]
fn message_encode_leaves_out_what_does_not_fit() {
    let mut message: Message<u64, u64, String> = Message::new();
    message.update((1, "a".repeat(MAX_PACKET_SIZE)));
    message.update((2, "b".to_string()));
    message.destroy(3);
    let bytes = message.encode();
    assert_eq!(bytes, b"0\nUPDATE 2 \"b\"\nDESTROY 3\n".to_vec());
}

#[test]
fn an_id_with_a_space_cannot_be_updated() {
    let mut message: MessageEncoder<Record<String, u64>> = MessageEncoder::new(vec![0; 64], 1);
    assert!(!message.add(&Record::Update("a b".to_string(), 5)));
    assert!(message.add(&Record::Update("ab".to_string(), 5)));
    assert!(message.add(&Record::Destroy("a b".to_string())));
    assert_eq!(message.into_bytes(), b"1\nUPDATE \"ab\" 5\nDESTROY \"a b\"\n".to_vec());
    let mut records: Vec<Record<String, u64>> = Vec::new();
    assert_eq!(decode(b"1\nUPDATE \"ab\" 5\nDESTROY \"a b\"\n", &mut records), Ok(1));
    assert_eq!(
        records,
        vec![Record::Update("ab".to_string(), 5), Record::Destroy("a b".to_string())]
    );
}

#[test]
fn a_record_says_why_it_cannot_be_written() {
    let mut writer = BufWriter::new(vec![0; 32]);
    let spaced: Record<String, u64> = Record::Update("a b".to_string(), 5);
    assert_eq!(spaced.write(&mut writer), Err(BufError::Unencodable));
    let mut writer = BufWriter::new(vec![0; 10]);
    let long: Record<u64, u64> = Record::Update(1, 12345);
    assert_eq!(long.write(&mut writer), Err(BufError::PastEnd));
    let mut writer = BufWriter::new(vec![0; 14]);
    assert_eq!(long.write(&mut writer), Ok(()));
    assert_eq!(writer.filled(), &b"UPDATE 1 12345"[..]);
}

#[test]
fn decode_errors_are_described() {
    assert_eq!(DecodeError::TooLarge.describe(), "Message is larger than a packet\n");
    assert_eq!(DecodeError::NotUtf8.describe(), "Error converting message to string\n");
    let mut parts: Vec<i32> = Vec::new();
    let error = decode(b"abc\n", &mut parts).unwrap_err();
    assert_eq!(error.describe(), "Not an unsigned 64-bit number");
    let error = decode(b"1\nabc\n", &mut parts).unwrap_err();
    assert_eq!(error, DecodeError::Part { line: 1, reason: "Not a signed 32-bit number".to_string() });
    assert_eq!(error.describe(), "Not a signed 32-bit number");
}

#[test]
fn text_travels_as_json() {
    let mut message: MessageEncoder<String> = MessageEncoder::new(vec![0; 64], 0);
    assert!(message.add(&"plain".to_string()));
    assert!(message.add(&"".to_string()));
    assert!(message.add(&"tab\tquote\"line\nend".to_string()));
    let bytes = message.into_bytes();
    assert_eq!(bytes, b"0\n\"plain\"\n\"\"\n\"tab\\tquote\\\"line\\nend\"\n".to_vec());
    let mut parts: Vec<String> = Vec::new();
    assert_eq!(decode(&bytes, &mut parts), Ok(0));
    assert_eq!(parts, vec!["plain".to_string(), "".to_string(), "tab\tquote\"line\nend".to_string()]);
}

#[test]
fn text_that_is_no_json_string_is_refused() {
    assert!(String::read("plain").is_err());
    assert!(String::read("\"open").is_err());
    assert!(String::read("12").is_err());
    assert!(String::read(" \"a\"").is_err());
    assert!(String::read("").is_err());
    assert_eq!(String::read("\"a\\u0041\""), Ok("aA".to_string()));
}

#[test]
fn perception_header_with_and_without_an_id() {
    let mut parts: Vec<u64> = Vec::new();
    let header: PerceptionHeader = decode_packet(b"12\n", &mut parts).unwrap();
    assert_eq!(header, PerceptionHeader { confirm_action: 12, self_id: None });
    let header: PerceptionHeader = decode_packet(b"12 \"ship 1\"\n", &mut parts).unwrap();
    assert_eq!(header, PerceptionHeader { confirm_action: 12, self_id: Some("ship 1".to_string()) });
    let result: Result<PerceptionHeader, DecodeError> = decode_packet(b"12 ship\n", &mut parts);
    assert!(matches!(result, Err(DecodeError::Header(_))));
    let result: Result<PerceptionHeader, DecodeError> = decode_packet(b"x \"ship\"\n", &mut parts);
    assert!(matches!(result, Err(DecodeError::Header(_))));
    assert_eq!(PerceptionHeader::default(), PerceptionHeader { confirm_action: 0, self_id: None });
}

#[test]
fn perception_round_trips() {
    let mut perception: Perception<u64, String> = Message::new();
    perception.header = PerceptionHeader { confirm_action: 5, self_id: Some("me".to_string()) };
    perception.update((1, "ship".to_string()));
    perception.destroy(2);
    let bytes = perception.clone().encode();
    assert_eq!(bytes, b"5 \"me\"\nUPDATE 1 \"ship\"\nDESTROY 2\n".to_vec());
    assert_eq!(Perception::<u64, String>::decode(&bytes), Ok(perception));
}

#[test]
fn a_perception_starts_with_the_confirmed_action() {
    let mut encoder = Encoder::new();
    let mut perception = encoder.perception::<u64, u64>(77);
    assert!(perception.add(&Record::Update(1, 2)));
    assert_eq!(perception.into_bytes(), b"77\nUPDATE 1 2\n".to_vec());
}
