use logger::message::{DecodeError, Message};

fn encode_log(group: &str, time: u32, value: &str) -> Vec<u8> {
    let mut out: Vec<u8> = Vec::new();
    out.push(1);
    out.push(group.len() as u8);
    out.extend_from_slice(group.as_bytes());
    out.extend_from_slice(&time.to_be_bytes());
    out.extend_from_slice(&(value.len() as u16).to_be_bytes());
    out.extend_from_slice(value.as_bytes());
    out
}

fn encode_counter(cmd: u8, name: &str, time: u32) -> Vec<u8> {
    let mut out: Vec<u8> = Vec::new();
    out.push(cmd);
    out.push(name.len() as u8);
    out.extend_from_slice(name.as_bytes());
    out.extend_from_slice(&time.to_be_bytes());
    out
}

#[test]
fn log_round_trip() {
    let datagram = encode_log("web", 1700000000, "request served in 3 ms");
    let msg = Message::new(&datagram).unwrap();
    match msg {
        Message::Log { group_name, time, value } => {
            assert_eq!(group_name, "web");
            assert_eq!(time, 1700000000);
            assert_eq!(value, "request served in 3 ms");
        },
        _ => panic!("expected a log event"),
    }
}

#[test]
fn log_round_trip_non_ascii() {
    let datagram = encode_log("grüße", 42, "héllo wörld");
    let msg = Message::new(&datagram).unwrap();
    match msg {
        Message::Log { group_name, time, value } => {
            assert_eq!(group_name, "grüße");
            assert_eq!(time, 42);
            assert_eq!(value, "héllo wörld");
        },
        _ => panic!("expected a log event"),
    }
}

#[test]
fn log_truncated_at_every_prefix() {
    let datagram = encode_log("app", 123456, "line");
    for i in 0..datagram.len() {
        let r = Message::new(&datagram[0..i]);
        assert_eq!(r, Err(DecodeError::Malformed), "prefix of length {} must fail", i);
    }
}

#[test]
fn counter_command_two_is_plus_one() {
    let datagram = encode_counter(2, "hits", 100);
    let msg = Message::new(&datagram).unwrap();
    match msg {
        Message::Counter { counter_name, time, value } => {
            assert_eq!(counter_name, "hits");
            assert_eq!(time, 100);
            assert_eq!(value, 1);
        },
        _ => panic!("expected a counter event"),
    }
}

#[test]
fn counter_command_three_is_minus_one() {
    let datagram = encode_counter(3, "hits", 100);
    let msg = Message::new(&datagram).unwrap();
    match msg {
        Message::Counter { value, .. } => assert_eq!(value, -1),
        _ => panic!("expected a counter event"),
    }
}

#[test]
fn counter_truncated_at_every_prefix() {
    let datagram = encode_counter(2, "hits", 100);
    for i in 0..datagram.len() {
        let r = Message::new(&datagram[0..i]);
        assert_eq!(r, Err(DecodeError::Malformed), "prefix of length {} must fail", i);
    }
}

#[test]
fn unknown_command_bytes_rejected() {
    for cmd in [0u8, 4, 5, 17, 255] {
        let mut datagram = encode_counter(2, "hits", 100);
        datagram[0] = cmd;
        assert_eq!(Message::new(&datagram), Err(DecodeError::UnknownCommand));
    }
}

#[test]
fn empty_datagram_is_malformed() {
    assert_eq!(Message::new(&[]), Err(DecodeError::Malformed));
}

#[test]
fn invalid_utf8_name_is_malformed() {
    // counter name bytes 0xFF 0xFE are not valid UTF-8
    let datagram: Vec<u8> = vec![2, 2, 0xFF, 0xFE, 0, 0, 0, 1];
    assert_eq!(Message::new(&datagram), Err(DecodeError::Malformed));
}

#[test]
fn invalid_utf8_log_value_is_malformed() {
    let mut datagram: Vec<u8> = Vec::new();
    datagram.push(1);
    datagram.push(1);
    datagram.push(b'g');
    datagram.extend_from_slice(&7u32.to_be_bytes());
    datagram.extend_from_slice(&2u16.to_be_bytes());
    datagram.push(0xC0); // lone continuation lead, invalid
    datagram.push(0x20);
    assert_eq!(Message::new(&datagram), Err(DecodeError::Malformed));
}

#[test]
fn big_endian_timestamp_decoded() {
    let datagram = encode_counter(2, "t", 0x01020304);
    match Message::new(&datagram).unwrap() {
        Message::Counter { time, .. } => assert_eq!(time, 0x01020304),
        _ => panic!("expected a counter event"),
    }
}

#[test]
fn trailing_bytes_are_ignored() {
    let mut datagram = encode_counter(2, "hits", 9);
    datagram.push(0xAB);
    datagram.push(0xCD);
    match Message::new(&datagram).unwrap() {
        Message::Counter { counter_name, time, value } => {
            assert_eq!(counter_name, "hits");
            assert_eq!(time, 9);
            assert_eq!(value, 1);
        },
        _ => panic!("expected a counter event"),
    }
}

#[test]
fn empty_group_name_is_accepted() {
    let datagram = encode_log("", 5, "x");
    match Message::new(&datagram).unwrap() {
        Message::Log { group_name, value, .. } => {
            assert_eq!(group_name, "");
            assert_eq!(value, "x");
        },
        _ => panic!("expected a log event"),
    }
}

#[test]
fn largest_log_value_round_trips() {
    let value = "v".repeat(65535);
    let datagram = encode_log("g", 1, &value);
    match Message::new(&datagram).unwrap() {
        Message::Log { value: got, .. } => assert_eq!(got, value),
        _ => panic!("expected a log event"),
    }
}
