//! Wire-protocol codec: one datagram is one message.
//!
//! Layout (all multi-byte fields big-endian):
//! - command byte `1` (log): u8 group-name length, group-name bytes,
//!   u32 timestamp, u16 value length, value bytes;
//! - command byte `2` (counter +1) / `3` (counter -1): u8 name length,
//!   name bytes, u32 timestamp.
//!
//! Decoding is total: any short buffer, bad length or invalid UTF-8 yields
//! `DecodeError::Malformed`; any other command byte yields
//! `DecodeError::UnknownCommand`. Bytes past one whole message are ignored.

use vstd::prelude::*;
use vstd::slice::{slice_index_get, slice_subrange, slice_to_vec};
use vstd::utf8::{decode_utf8, encode_utf8, valid_utf8};

verus! {

/// One decoded event: a free-form log line in a named group, or a signed
/// delta to a named counter, both bucketed by a second-resolution timestamp.
#[derive(Debug, Clone, PartialEq)]
pub enum Message {
    Log { group_name: String, time: u32, value: String },
    Counter { counter_name: String, time: u32, value: i64 },
}

/// The mathematical value of a `Message`: strings as character sequences,
/// the counter delta as an unbounded integer.
pub enum MessageView {
    Log { group_name: Seq<char>, time: u32, value: Seq<char> },
    Counter { counter_name: Seq<char>, time: u32, value: int },
}

impl View for Message {
    type V = MessageView;

    open spec fn view(&self) -> MessageView {
        match self {
            Message::Log { group_name, time, value } => MessageView::Log {
                group_name: group_name@,
                time: *time,
                value: value@,
            },
            Message::Counter { counter_name, time, value } => MessageView::Counter {
                counter_name: counter_name@,
                time: *time,
                value: *value as int,
            },
        }
    }
}

/// Why a datagram was rejected.
#[derive(Debug, Clone, Copy, PartialEq, Eq, Structural)]
pub enum DecodeError {
    /// The command byte is none of `1`, `2`, `3`.
    UnknownCommand,
    /// The buffer is too short for the fields its lengths announce,
    /// or a name or value is not valid UTF-8.
    Malformed,
}

/// The u32 encoded big-endian by four bytes.
pub open spec fn be_u32(b0: u8, b1: u8, b2: u8, b3: u8) -> u32 {
    ((b0 as u32) << 24) | ((b1 as u32) << 16) | ((b2 as u32) << 8) | (b3 as u32)
}

/// The u16 encoded big-endian by two bytes.
pub open spec fn be_u16(b0: u8, b1: u8) -> u16 {
    ((b0 as u16) << 8) | (b1 as u16)
}

/// What decoding a log command (command byte `1`) yields on the given bytes.
pub open spec fn spec_parse_log(b: Seq<u8>) -> Result<MessageView, DecodeError> {
    if b.len() < 2 {
        Err(DecodeError::Malformed)
    } else {
        let glen = b[1] as int;
        if b.len() < 8 + glen {
            Err(DecodeError::Malformed)
        } else {
            let group = b.subrange(2, 2 + glen);
            let time = be_u32(b[2 + glen], b[3 + glen], b[4 + glen], b[5 + glen]);
            let vlen = be_u16(b[6 + glen], b[7 + glen]) as int;
            if b.len() < 8 + glen + vlen {
                Err(DecodeError::Malformed)
            } else {
                let value = b.subrange(8 + glen, 8 + glen + vlen);
                if valid_utf8(group) && valid_utf8(value) {
                    Ok(MessageView::Log {
                        group_name: decode_utf8(group),
                        time: time,
                        value: decode_utf8(value),
                    })
                } else {
                    Err(DecodeError::Malformed)
                }
            }
        }
    }
}

/// What decoding a counter command (byte `2` or `3`) yields on the given
/// bytes; `delta` is the unit increment the command byte stands for.
pub open spec fn spec_parse_counter(b: Seq<u8>, delta: int) -> Result<MessageView, DecodeError> {
    if b.len() < 2 {
        Err(DecodeError::Malformed)
    } else {
        let nlen = b[1] as int;
        if b.len() < 6 + nlen {
            Err(DecodeError::Malformed)
        } else {
            let name = b.subrange(2, 2 + nlen);
            let time = be_u32(b[2 + nlen], b[3 + nlen], b[4 + nlen], b[5 + nlen]);
            if valid_utf8(name) {
                Ok(MessageView::Counter { counter_name: decode_utf8(name), time: time, value: delta })
            } else {
                Err(DecodeError::Malformed)
            }
        }
    }
}

/// What decoding a whole datagram yields.
pub open spec fn spec_decode(b: Seq<u8>) -> Result<MessageView, DecodeError> {
    if b.len() == 0 {
        Err(DecodeError::Malformed)
    } else if b[0] == 1 {
        spec_parse_log(b)
    } else if b[0] == 2 {
        spec_parse_counter(b, 1)
    } else if b[0] == 3 {
        spec_parse_counter(b, -1)
    } else {
        Err(DecodeError::UnknownCommand)
    }
}

/// Relies on `String::from_utf8` of std: it returns `Ok` exactly when the
/// bytes are valid UTF-8, and the string then holds the characters those
/// bytes encode.
#[verifier::external_body]
fn bytes_to_string(bytes: Vec<u8>) -> (r: Option<String>)
    ensures
        r is Some <==> valid_utf8(bytes@),
        r is Some ==> r->0@ == decode_utf8(bytes@),
{
    String::from_utf8(bytes).ok()
}

fn read_be_u32(b0: u8, b1: u8, b2: u8, b3: u8) -> (r: u32)
    ensures
        r == be_u32(b0, b1, b2, b3),
{
    ((b0 as u32) << 24) | ((b1 as u32) << 16) | ((b2 as u32) << 8) | (b3 as u32)
}

impl Message {
    /// Decode one datagram. Total: every failure is an error value, and the
    /// result is exactly what `spec_decode` says of the bytes.
    pub fn new(data: &[u8]) -> (r: Result<Message, DecodeError>)
        ensures
            r is Ok <==> spec_decode(data@) is Ok,
            r is Ok ==> r->Ok_0@ == spec_decode(data@)->Ok_0,
            r is Err ==> r->Err_0 == spec_decode(data@)->Err_0,
    {
        if data.len() == 0 {
            return Err(DecodeError::Malformed);
        }
        let cmd = *slice_index_get(data, 0);
        if cmd == 1 {
            Self::parse_log_cmd(data)
        } else if cmd == 2 {
            Self::parse_counter_cmd(data, 1)
        } else if cmd == 3 {
            Self::parse_counter_cmd(data, -1)
        } else {
            Err(DecodeError::UnknownCommand)
        }
    }

    fn parse_log_cmd(data: &[u8]) -> (r: Result<Message, DecodeError>)
        requires
            data@.len() >= 1,
        ensures
            r is Ok <==> spec_parse_log(data@) is Ok,
            r is Ok ==> r->Ok_0@ == spec_parse_log(data@)->Ok_0,
            r is Err ==> r->Err_0 == spec_parse_log(data@)->Err_0,
    {
        if data.len() < 2 {
            return Err(DecodeError::Malformed);
        }
        let glen = *slice_index_get(data, 1) as usize;
        if data.len() < 8 + glen {
            return Err(DecodeError::Malformed);
        }
        let group_bytes = slice_to_vec(slice_subrange(data, 2, 2 + glen));
        let time = read_be_u32(
            *slice_index_get(data, 2 + glen),
            *slice_index_get(data, 3 + glen),
            *slice_index_get(data, 4 + glen),
            *slice_index_get(data, 5 + glen),
        );
        let vh = *slice_index_get(data, 6 + glen);
        let vl = *slice_index_get(data, 7 + glen);
        let vlen = (((vh as u16) << 8) | (vl as u16)) as usize;
        if data.len() < 8 + glen + vlen {
            return Err(DecodeError::Malformed);
        }
        let value_bytes = slice_to_vec(slice_subrange(data, 8 + glen, 8 + glen + vlen));
        let group_name = match bytes_to_string(group_bytes) {
            Some(s) => s,
            None => {
                return Err(DecodeError::Malformed);
            },
        };
        let value = match bytes_to_string(value_bytes) {
            Some(s) => s,
            None => {
                return Err(DecodeError::Malformed);
            },
        };
        Ok(Message::Log { group_name, time, value })
    }

    fn parse_counter_cmd(data: &[u8], value: i64) -> (r: Result<Message, DecodeError>)
        requires
            data@.len() >= 1,
        ensures
            r is Ok <==> spec_parse_counter(data@, value as int) is Ok,
            r is Ok ==> r->Ok_0@ == spec_parse_counter(data@, value as int)->Ok_0,
            r is Err ==> r->Err_0 == spec_parse_counter(data@, value as int)->Err_0,
    {
        if data.len() < 2 {
            return Err(DecodeError::Malformed);
        }
        let nlen = *slice_index_get(data, 1) as usize;
        if data.len() < 6 + nlen {
            return Err(DecodeError::Malformed);
        }
        let name_bytes = slice_to_vec(slice_subrange(data, 2, 2 + nlen));
        let time = read_be_u32(
            *slice_index_get(data, 2 + nlen),
            *slice_index_get(data, 3 + nlen),
            *slice_index_get(data, 4 + nlen),
            *slice_index_get(data, 5 + nlen),
        );
        let counter_name = match bytes_to_string(name_bytes) {
            Some(s) => s,
            None => {
                return Err(DecodeError::Malformed);
            },
        };
        Ok(Message::Counter { counter_name, time, value })
    }
}


/// The four big-endian bytes of a u32.
pub open spec fn be_u32_bytes(t: u32) -> Seq<u8> {
    seq![
        ((t >> 24) & 0xff) as u8,
        ((t >> 16) & 0xff) as u8,
        ((t >> 8) & 0xff) as u8,
        (t & 0xff) as u8,
    ]
}

/// The two big-endian bytes of a u16.
pub open spec fn be_u16_bytes(n: u16) -> Seq<u8> {
    seq![((n >> 8) & 0xff) as u8, (n & 0xff) as u8]
}

/// The one valid encoding of a log message with the given group, timestamp
/// and text.
pub open spec fn spec_encode_log(group: Seq<char>, time: u32, value: Seq<char>) -> Seq<u8> {
    let g = encode_utf8(group);
    let v = encode_utf8(value);
    seq![1u8, g.len() as u8] + g + be_u32_bytes(time) + be_u16_bytes(v.len() as u16) + v
}

/// The one valid encoding of a counter message under the given command byte.
pub open spec fn spec_encode_counter(cmd: u8, name: Seq<char>, time: u32) -> Seq<u8> {
    let n = encode_utf8(name);
    seq![cmd, n.len() as u8] + n + be_u32_bytes(time)
}

proof fn lemma_be_u32_round_trip(t: u32)
    ensures
        be_u32(
            ((t >> 24) & 0xff) as u8,
            ((t >> 16) & 0xff) as u8,
            ((t >> 8) & 0xff) as u8,
            (t & 0xff) as u8,
        ) == t,
{
    assert(((((t >> 24) & 0xff) as u8 as u32) << 24) | ((((t >> 16) & 0xff) as u8 as u32) << 16)
        | ((((t >> 8) & 0xff) as u8 as u32) << 8) | ((t & 0xff) as u8 as u32) == t) by (bit_vector);
}

proof fn lemma_be_u16_round_trip(n: u16)
    ensures
        be_u16(((n >> 8) & 0xff) as u8, (n & 0xff) as u8) == n,
{
    assert(((((n >> 8) & 0xff) as u8 as u16) << 8) | ((n & 0xff) as u8 as u16) == n) by (bit_vector);
}

/// Law: decoding any valid encoding of a log message yields exactly its
/// group, timestamp and text, and decoding any strict prefix of that
/// encoding yields an error, never a partial event.
pub proof fn lemma_log_round_trip(group: Seq<char>, time: u32, value: Seq<char>)
    requires
        0 < encode_utf8(group).len() <= 255,
        encode_utf8(value).len() <= 65535,
    ensures
        spec_decode(spec_encode_log(group, time, value)) == Ok::<MessageView, DecodeError>(
            MessageView::Log { group_name: group, time, value },
        ),
        forall|i: int|
            0 <= i < spec_encode_log(group, time, value).len() ==> #[trigger] spec_decode(
                spec_encode_log(group, time, value).take(i),
            ) is Err,
{
    broadcast use vstd::utf8::encode_utf8_valid_utf8, vstd::utf8::encode_utf8_decode_utf8;

    let g = encode_utf8(group);
    let v = encode_utf8(value);
    let e = spec_encode_log(group, time, value);
    let glen = g.len() as int;
    let vlen = v.len() as int;
    assert(e.len() == 8 + glen + vlen);
    assert(e[0] == 1);
    assert(e[1] == glen as u8);
    assert(e.subrange(2, 2 + glen) =~= g);
    assert(e[2 + glen] == be_u32_bytes(time)[0]);
    assert(e[3 + glen] == be_u32_bytes(time)[1]);
    assert(e[4 + glen] == be_u32_bytes(time)[2]);
    assert(e[5 + glen] == be_u32_bytes(time)[3]);
    lemma_be_u32_round_trip(time);
    assert(be_u32(e[2 + glen], e[3 + glen], e[4 + glen], e[5 + glen]) == time);
    assert(e[6 + glen] == be_u16_bytes(vlen as u16)[0]);
    assert(e[7 + glen] == be_u16_bytes(vlen as u16)[1]);
    lemma_be_u16_round_trip(vlen as u16);
    assert(be_u16(e[6 + glen], e[7 + glen]) == vlen as u16);
    assert(e.subrange(8 + glen, 8 + glen + vlen) =~= v);
    assert(spec_parse_log(e) == Ok::<MessageView, DecodeError>(
        MessageView::Log { group_name: group, time, value },
    ));
    assert forall|i: int| 0 <= i < e.len() implies #[trigger] spec_decode(e.take(i)) is Err by {
        let c = e.take(i);
        assert(c.len() == i);
        if i >= 1 {
            assert(c[0] == 1);
            if i >= 2 {
                assert(c[1] == glen as u8);
                if i >= 8 + glen {
                    assert(c[6 + glen] == e[6 + glen] && c[7 + glen] == e[7 + glen]);
                    assert(be_u16(c[6 + glen], c[7 + glen]) as int == vlen);
                    assert(c.len() < 8 + glen + vlen);
                }
            }
        }
    }
}

/// Law: decoding any valid encoding of a counter message under command
/// byte 2 yields its name and timestamp with delta +1, under command byte 3
/// with delta -1; decoding any strict prefix yields an error.
pub proof fn lemma_counter_round_trip(cmd: u8, name: Seq<char>, time: u32)
    requires
        cmd == 2 || cmd == 3,
        0 < encode_utf8(name).len() <= 255,
    ensures
        spec_decode(spec_encode_counter(cmd, name, time)) == Ok::<MessageView, DecodeError>(
            MessageView::Counter {
                counter_name: name,
                time,
                value: if cmd == 2 { 1int } else { -1int },
            },
        ),
        forall|i: int|
            0 <= i < spec_encode_counter(cmd, name, time).len() ==> #[trigger] spec_decode(
                spec_encode_counter(cmd, name, time).take(i),
            ) is Err,
{
    broadcast use vstd::utf8::encode_utf8_valid_utf8, vstd::utf8::encode_utf8_decode_utf8;

    let n = encode_utf8(name);
    let e = spec_encode_counter(cmd, name, time);
    let nlen = n.len() as int;
    assert(e.len() == 6 + nlen);
    assert(e[0] == cmd);
    assert(e[1] == nlen as u8);
    assert(e.subrange(2, 2 + nlen) =~= n);
    assert(e[2 + nlen] == be_u32_bytes(time)[0]);
    assert(e[3 + nlen] == be_u32_bytes(time)[1]);
    assert(e[4 + nlen] == be_u32_bytes(time)[2]);
    assert(e[5 + nlen] == be_u32_bytes(time)[3]);
    lemma_be_u32_round_trip(time);
    assert(be_u32(e[2 + nlen], e[3 + nlen], e[4 + nlen], e[5 + nlen]) == time);
    assert forall|i: int| 0 <= i < e.len() implies #[trigger] spec_decode(e.take(i)) is Err by {
        let c = e.take(i);
        assert(c.len() == i);
        if i >= 1 {
            assert(c[0] == cmd);
            if i >= 2 {
                assert(c[1] == nlen as u8);
                assert(c.len() < 6 + nlen);
            }
        }
    }
}

/// Law: a datagram whose command byte is none of 1, 2, 3 is rejected as an
/// unknown command.
pub proof fn lemma_unknown_command(b: Seq<u8>)
    requires
        b.len() > 0,
        b[0] != 1,
        b[0] != 2,
        b[0] != 3,
    ensures
        spec_decode(b) == Err::<MessageView, DecodeError>(DecodeError::UnknownCommand),
{
}

} // verus!

