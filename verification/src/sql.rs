//! SQL text for one flush, built as verified bytes.
//!
//! One flush is one multi-statement write: a plain row insert per log event
//! of the batch, in batch order, then an additive upsert per aggregated
//! counter. String values are embedded with every quote character doubled,
//! so a quote in a group name or a log line cannot break the statement.
//! The caller turns the bytes into text and hands them to the store.

use crate::aggregate::{is_collapse_of, sums_fit_i64, try_collapse_counters};
use crate::message::Message;
use vstd::prelude::*;
use vstd::slice::{slice_index_get, slice_to_vec};
use vstd::utf8::encode_utf8;

verus! {

/// The bytes of `s` with every quote (byte 0x27) doubled.
pub open spec fn spec_escaped(s: Seq<u8>) -> Seq<u8>
    decreases s.len(),
{
    if s.len() == 0 {
        Seq::empty()
    } else {
        spec_escaped(s.drop_last()) + (if s.last() == 39 {
            seq![39u8, 39u8]
        } else {
            seq![s.last()]
        })
    }
}

/// The decimal digits of `n`, most significant first.
pub open spec fn spec_dec_u64(n: nat) -> Seq<u8>
    decreases n,
{
    if n < 10 {
        seq![(48 + n) as u8]
    } else {
        spec_dec_u64(n / 10) + seq![(48 + n % 10) as u8]
    }
}

/// The decimal rendering of a signed value: a minus sign before the digits
/// of its magnitude.
pub open spec fn spec_dec_i64(v: int) -> Seq<u8> {
    if v < 0 {
        seq![45u8] + spec_dec_u64((-v) as nat)
    } else {
        spec_dec_u64(v as nat)
    }
}

/// The UTF-8 bytes of a string.
pub open spec fn lit_bytes(s: &str) -> Seq<u8> {
    encode_utf8(s@)
}

/// The row insert written for one log event.
pub open spec fn spec_log_stmt(group: Seq<char>, time: u32, value: Seq<char>) -> Seq<u8> {
    lit_bytes("INSERT INTO logs (name, time, value) VALUES ('") + spec_escaped(encode_utf8(group))
        + lit_bytes("', ") + spec_dec_u64(time as nat) + lit_bytes(", '") + spec_escaped(
        encode_utf8(value),
    ) + lit_bytes("');\n")
}

/// The additive upsert written for one aggregated counter.
pub open spec fn spec_counter_stmt(name: Seq<char>, time: u32, value: int) -> Seq<u8> {
    lit_bytes("INSERT INTO counters (name, time, value) VALUES ('") + spec_escaped(
        encode_utf8(name),
    ) + lit_bytes("', ") + spec_dec_u64(time as nat) + lit_bytes(", ") + spec_dec_i64(value)
        + lit_bytes(") ON CONFLICT(name, time) DO UPDATE SET value = value + (") + spec_dec_i64(
        value,
    ) + lit_bytes(");\n")
}

/// One insert per log event of `batch`, in order; other events add nothing.
pub open spec fn spec_log_section(batch: Seq<Message>) -> Seq<u8>
    decreases batch.len(),
{
    if batch.len() == 0 {
        Seq::empty()
    } else {
        spec_log_section(batch.drop_last()) + (match batch.last() {
            Message::Log { group_name, time, value } => spec_log_stmt(group_name@, time, value@),
            _ => Seq::empty(),
        })
    }
}

/// One upsert per counter of `counters`, in order; other events add nothing.
pub open spec fn spec_counter_section(counters: Seq<Message>) -> Seq<u8>
    decreases counters.len(),
{
    if counters.len() == 0 {
        Seq::empty()
    } else {
        spec_counter_section(counters.drop_last()) + (match counters.last() {
            Message::Counter { counter_name, time, value } => spec_counter_stmt(
                counter_name@,
                time,
                value as int,
            ),
            _ => Seq::empty(),
        })
    }
}

/// The whole write for one flush: the log inserts, then the counter upserts.
pub open spec fn spec_flush_sql(batch: Seq<Message>, counters: Seq<Message>) -> Seq<u8> {
    spec_log_section(batch) + spec_counter_section(counters)
}

/// Append the UTF-8 bytes of `s`.
fn push_str_bytes(out: &mut Vec<u8>, s: &str)
    ensures
        final(out)@ == old(out)@ + lit_bytes(s),
{
    let mut tail = slice_to_vec(s.as_bytes());
    out.append(&mut tail);
}

/// Append the bytes of `s` with every quote doubled.
fn push_escaped(out: &mut Vec<u8>, s: &str)
    ensures
        final(out)@ == old(out)@ + spec_escaped(lit_bytes(s)),
{
    let bytes = s.as_bytes();
    let n = bytes.len();
    let mut i: usize = 0;
    while i < n
        invariant
            n == bytes@.len(),
            i <= n,
            out@ == old(out)@ + spec_escaped(bytes@.take(i as int)),
        decreases n - i,
    {
        proof {
            assert(bytes@.take(i as int + 1).drop_last() =~= bytes@.take(i as int));
        }
        let b = *slice_index_get(bytes, i);
        if b == 39 {
            out.push(39);
            out.push(39);
        } else {
            out.push(b);
        }
        i += 1;
    }
    proof {
        assert(bytes@.take(n as int) =~= bytes@);
    }
}

/// Append the decimal digits of `n`.
fn push_dec_u64(out: &mut Vec<u8>, n: u64)
    ensures
        final(out)@ == old(out)@ + spec_dec_u64(n as nat),
    decreases n,
{
    if n >= 10 {
        push_dec_u64(out, n / 10);
    }
    out.push((n % 10) as u8 + 48);
}

/// Append the decimal rendering of `v`.
fn push_dec_i64(out: &mut Vec<u8>, v: i64)
    ensures
        final(out)@ == old(out)@ + spec_dec_i64(v as int),
{
    if v < 0 {
        out.push(45);
        let magnitude: u64 = if v == i64::MIN {
            0x8000000000000000u64
        } else {
            (-v) as u64
        };
        push_dec_u64(out, magnitude);
    } else {
        push_dec_u64(out, v as u64);
    }
}

/// Append the row insert for one log event.
fn push_log_stmt(out: &mut Vec<u8>, group_name: &String, time: u32, value: &String)
    ensures
        final(out)@ == old(out)@ + spec_log_stmt(group_name@, time, value@),
{
    push_str_bytes(out, "INSERT INTO logs (name, time, value) VALUES ('");
    push_escaped(out, group_name.as_str());
    push_str_bytes(out, "', ");
    push_dec_u64(out, time as u64);
    push_str_bytes(out, ", '");
    push_escaped(out, value.as_str());
    push_str_bytes(out, "');\n");
}

/// Append the additive upsert for one aggregated counter.
fn push_counter_stmt(out: &mut Vec<u8>, counter_name: &String, time: u32, value: i64)
    ensures
        final(out)@ == old(out)@ + spec_counter_stmt(counter_name@, time, value as int),
{
    push_str_bytes(out, "INSERT INTO counters (name, time, value) VALUES ('");
    push_escaped(out, counter_name.as_str());
    push_str_bytes(out, "', ");
    push_dec_u64(out, time as u64);
    push_str_bytes(out, ", ");
    push_dec_i64(out, value);
    push_str_bytes(out, ") ON CONFLICT(name, time) DO UPDATE SET value = value + (");
    push_dec_i64(out, value);
    push_str_bytes(out, ");\n");
}

/// Build the whole write for one flush from the batch and its aggregated
/// counters: the log inserts in batch order, then the counter upserts in
/// the given order.
pub fn build_flush_sql(batch: &Vec<Message>, counters: &Vec<Message>) -> (sql: Vec<u8>)
    ensures
        sql@ == spec_flush_sql(batch@, counters@),
{
    let mut out: Vec<u8> = Vec::new();
    let n = batch.len();
    let mut i: usize = 0;
    while i < n
        invariant
            n == batch@.len(),
            i <= n,
            out@ == spec_log_section(batch@.take(i as int)),
        decreases n - i,
    {
        proof {
            assert(batch@.take(i as int + 1).drop_last() =~= batch@.take(i as int));
        }
        match &batch[i] {
            Message::Log { group_name, time, value } => {
                push_log_stmt(&mut out, group_name, *time, value);
            },
            Message::Counter { .. } => {},
        }
        i += 1;
    }
    proof {
        assert(batch@.take(n as int) =~= batch@);
    }
    let m = counters.len();
    let mut k: usize = 0;
    while k < m
        invariant
            m == counters@.len(),
            k <= m,
            out@ == spec_log_section(batch@) + spec_counter_section(counters@.take(k as int)),
        decreases m - k,
    {
        proof {
            assert(counters@.take(k as int + 1).drop_last() =~= counters@.take(k as int));
        }
        match &counters[k] {
            Message::Counter { counter_name, time, value } => {
                push_counter_stmt(&mut out, counter_name, *time, *value);
            },
            Message::Log { .. } => {},
        }
        k += 1;
    }
    proof {
        assert(counters@.take(m as int) =~= counters@);
    }
    out
}

/// The whole flush in one step: aggregate the batch's counters, then build
/// the write. `None` exactly when some counter bucket's sum falls outside
/// i64 and no write can carry it.
pub fn flush_sql_for_batch(batch: &Vec<Message>) -> (r: Option<Vec<u8>>)
    ensures
        r is Some <==> sums_fit_i64(batch@),
        r is Some ==> exists|counters: Seq<Message>|
            #[trigger] is_collapse_of(batch@, counters) && r->0@ == spec_flush_sql(
                batch@,
                counters,
            ),
{
    match try_collapse_counters(batch) {
        Some(counters) => {
            let sql = build_flush_sql(batch, &counters);
            proof {
                assert(is_collapse_of(batch@, counters@) && sql@ == spec_flush_sql(
                    batch@,
                    counters@,
                ));
            }
            Some(sql)
        },
        None => None,
    }
}

} // verus!
