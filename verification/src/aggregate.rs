//! Counter aggregation: collapse the counter events of one batch into a
//! single net delta per (counter name, time bucket). Log events pass through
//! the flush untouched and are never aggregated.

use crate::message::Message;
use vstd::prelude::*;

verus! {

/// True when `m` is a counter event under the bucket (name, time).
pub open spec fn counter_key_of(m: Message, name: Seq<char>, time: u32) -> bool {
    match m {
        Message::Counter { counter_name, time: t, .. } => counter_name@ == name && t == time,
        _ => false,
    }
}

/// The contribution of `m` to the bucket (name, time): its delta when it is
/// a counter event of that bucket, and 0 otherwise.
pub open spec fn delta_of(m: Message, name: Seq<char>, time: u32) -> int {
    match m {
        Message::Counter { counter_name, time: t, value } => if counter_name@ == name && t
            == time {
            value as int
        } else {
            0
        },
        _ => 0,
    }
}

/// The signed sum of all deltas observed for the bucket (name, time).
pub open spec fn counter_sum(s: Seq<Message>, name: Seq<char>, time: u32) -> int
    decreases s.len(),
{
    if s.len() == 0 {
        0
    } else {
        counter_sum(s.drop_last(), name, time) + delta_of(s.last(), name, time)
    }
}

/// True when some counter event in `s` has the bucket (name, time).
pub open spec fn has_counter(s: Seq<Message>, name: Seq<char>, time: u32) -> bool {
    exists|i: int| 0 <= i < s.len() && counter_key_of(#[trigger] s[i], name, time)
}

/// True when every counter bucket of `s` sums to a value representable
/// as i64.
pub open spec fn sums_fit_i64(s: Seq<Message>) -> bool {
    forall|name: Seq<char>, time: u32|
        i64::MIN <= #[trigger] counter_sum(s, name, time) <= i64::MAX
}

/// True when `a` and `b` are counter events of one and the same bucket.
pub open spec fn same_counter_key(a: Message, b: Message) -> bool {
    match (a, b) {
        (
            Message::Counter { counter_name: n1, time: t1, .. },
            Message::Counter { counter_name: n2, time: t2, .. },
        ) => n1@ == n2@ && t1 == t2,
        _ => false,
    }
}

/// The relation between a batch and its aggregated counters: `out` holds
/// counter events only, one per distinct bucket of `input` and none besides,
/// each carrying the signed sum of its bucket's deltas.
pub open spec fn is_collapse_of(input: Seq<Message>, out: Seq<Message>) -> bool {
    &&& forall|j: int|
        0 <= j < out.len() ==> match #[trigger] out[j] {
            Message::Counter { counter_name, time, value } => has_counter(
                input,
                counter_name@,
                time,
            ) && value as int == counter_sum(input, counter_name@, time),
            _ => false,
        }
    &&& forall|j1: int, j2: int|
        #![trigger out[j1], out[j2]]
        0 <= j1 < out.len() && 0 <= j2 < out.len() && j1 != j2 ==> !same_counter_key(
            out[j1],
            out[j2],
        )
    &&& forall|name: Seq<char>, time: u32|
        #[trigger] has_counter(input, name, time) ==> exists|j: int|
            0 <= j < out.len() && counter_key_of(#[trigger] out[j], name, time)
}

proof fn lemma_sum_take_step(s: Seq<Message>, i: int, name: Seq<char>, time: u32)
    requires
        0 <= i < s.len(),
    ensures
        counter_sum(s.take(i + 1), name, time) == counter_sum(s.take(i), name, time) + delta_of(
            s[i],
            name,
            time,
        ),
{
    assert(s.take(i + 1).drop_last() =~= s.take(i));
    assert(s.take(i + 1).last() == s[i]);
}

/// A bucket with no counter event in `s` sums to 0.
proof fn lemma_absent_sum_zero(s: Seq<Message>, name: Seq<char>, time: u32)
    requires
        !has_counter(s, name, time),
    ensures
        counter_sum(s, name, time) == 0,
    decreases s.len(),
{
    if s.len() > 0 {
        assert(!counter_key_of(s.last(), name, time)) by {
            if counter_key_of(s.last(), name, time) {
                assert(counter_key_of(s[s.len() - 1], name, time));
            }
        }
        assert(!has_counter(s.drop_last(), name, time)) by {
            if has_counter(s.drop_last(), name, time) {
                let i = choose|i: int|
                    0 <= i < s.drop_last().len() && counter_key_of(s.drop_last()[i], name, time);
                assert(s.drop_last()[i] == s[i]);
            }
        }
        lemma_absent_sum_zero(s.drop_last(), name, time);
    }
}

/// Each delta lies within i64, so a bucket's sum over `s` lies within
/// `s.len()` times the magnitude of the i64 range.
proof fn lemma_counter_sum_bounds(s: Seq<Message>, name: Seq<char>, time: u32)
    ensures
        -(s.len() as int) * 0x8000000000000000 <= counter_sum(s, name, time),
        counter_sum(s, name, time) <= (s.len() as int) * 0x8000000000000000,
    decreases s.len(),
{
    if s.len() > 0 {
        lemma_counter_sum_bounds(s.drop_last(), name, time);
        assert(-0x8000000000000000 <= delta_of(s.last(), name, time) <= 0x8000000000000000);
    }
}

/// One pass over the batch: the distinct counter buckets seen so far, in
/// first-encounter order, each with its running sum held in i128, which a
/// sum of i64 deltas cannot overflow.
fn collapse_core(list: &Vec<Message>) -> (r: (Vec<String>, Vec<u32>, Vec<i128>))
    ensures
        r.0@.len() == r.1@.len(),
        r.1@.len() == r.2@.len(),
        forall|j1: int, j2: int|
            #![trigger r.0@[j1], r.0@[j2]]
            0 <= j1 < r.0@.len() && 0 <= j2 < r.0@.len() && j1 != j2 ==> !(r.0@[j1]@ == r.0@[j2]@
                && r.1@[j1] == r.1@[j2]),
        forall|j: int|
            0 <= j < r.0@.len() ==> has_counter(list@, #[trigger] r.0@[j]@, r.1@[j]),
        forall|j: int|
            0 <= j < r.0@.len() ==> r.2@[j] as int == counter_sum(
                list@,
                #[trigger] r.0@[j]@,
                r.1@[j],
            ),
        forall|name: Seq<char>, time: u32|
            #[trigger] has_counter(list@, name, time) ==> exists|j: int|
                0 <= j < r.0@.len() && r.0@[j]@ == name && r.1@[j] == time,
{
    let mut names: Vec<String> = Vec::new();
    let mut times: Vec<u32> = Vec::new();
    let mut sums: Vec<i128> = Vec::new();
    let n = list.len();
    let mut i: usize = 0;
    while i < n
        invariant
            n == list@.len(),
            i <= n,
            names@.len() == times@.len(),
            times@.len() == sums@.len(),
            forall|j1: int, j2: int|
                #![trigger names@[j1], names@[j2]]
                0 <= j1 < names@.len() && 0 <= j2 < names@.len() && j1 != j2 ==> !(names@[j1]@
                    == names@[j2]@ && times@[j1] == times@[j2]),
            forall|j: int|
                0 <= j < names@.len() ==> has_counter(
                    list@.take(i as int),
                    #[trigger] names@[j]@,
                    times@[j],
                ),
            forall|j: int|
                0 <= j < names@.len() ==> sums@[j] as int == counter_sum(
                    list@.take(i as int),
                    #[trigger] names@[j]@,
                    times@[j],
                ),
            forall|name: Seq<char>, time: u32|
                #[trigger] has_counter(list@.take(i as int), name, time) ==> exists|j: int|
                    0 <= j < names@.len() && names@[j]@ == name && times@[j] == time,
        decreases n - i,
    {
        let ghost prefix = list@.take(i as int);
        let ghost grown = list@.take(i as int + 1);
        assert(grown.drop_last() =~= prefix);
        assert(grown.last() == list@[i as int]);
        let msg = &list[i];
        match msg {
            Message::Counter { counter_name, time, value } => {
                let mut j: usize = 0;
                let mut found: bool = false;
                while j < names.len() && !found
                    invariant
                        names@.len() == times@.len(),
                        j <= names@.len(),
                        !found ==> forall|jj: int|
                            0 <= jj < j ==> !(#[trigger] names@[jj]@ == counter_name@
                                && times@[jj] == time),
                        found ==> j < names@.len() && names@[j as int]@ == counter_name@
                            && times@[j as int] == time,
                    decreases names@.len() - j + (if found { 0int } else { 1int }),
                {
                    if names[j] == *counter_name && times[j] == *time {
                        found = true;
                    } else {
                        j += 1;
                    }
                }
                let ghost names0 = names@;
                let ghost times0 = times@;
                if found {
                    proof {
                        lemma_counter_sum_bounds(prefix, counter_name@, *time);
                    }
                    let nv: i128 = sums[j] + (*value as i128);
                    sums[j] = nv;
                } else {
                    proof {
                        assert(!has_counter(prefix, counter_name@, *time)) by {
                            if has_counter(prefix, counter_name@, *time) {
                                assert(exists|jj: int|
                                    0 <= jj < names@.len() && names@[jj]@ == counter_name@
                                        && times@[jj] == *time);
                            }
                        }
                        lemma_absent_sum_zero(prefix, counter_name@, *time);
                    }
                    names.push(counter_name.clone());
                    times.push(*time);
                    sums.push(*value as i128);
                }
                proof {
                    assert(list@[i as int] == *msg);
                    assert forall|jj: int| 0 <= jj < names@.len() implies sums@[jj] as int
                        == counter_sum(grown, #[trigger] names@[jj]@, times@[jj]) by {
                        lemma_sum_take_step(list@, i as int, names@[jj]@, times@[jj]);
                        if !found && jj == names@.len() - 1 {
                            assert(names@[jj]@ == counter_name@ && times@[jj] == *time);
                        } else {
                            assert(names@[jj] == names0[jj] && times@[jj] == times0[jj]);
                            if found && jj != j as int && delta_of(
                                list@[i as int],
                                names@[jj]@,
                                times@[jj],
                            ) != 0 {
                                assert(names0[jj]@ == names0[j as int]@);
                                assert(times0[jj] == times0[j as int]);
                            }
                        }
                    }
                    assert forall|jj: int| 0 <= jj < names@.len() implies has_counter(
                        grown,
                        #[trigger] names@[jj]@,
                        times@[jj],
                    ) by {
                        if !found && jj == names@.len() - 1 {
                            assert(counter_key_of(grown[i as int], names@[jj]@, times@[jj]));
                        } else {
                            assert(names@[jj] == names0[jj] && times@[jj] == times0[jj]);
                            assert(has_counter(prefix, names0[jj]@, times0[jj]));
                            let w = choose|w: int|
                                0 <= w < prefix.len() && counter_key_of(
                                    prefix[w],
                                    names0[jj]@,
                                    times0[jj],
                                );
                            assert(counter_key_of(grown[w], names@[jj]@, times@[jj]));
                        }
                    }
                    assert forall|name: Seq<char>, t: u32| #[trigger] has_counter(
                        grown,
                        name,
                        t,
                    ) implies exists|jj: int|
                        0 <= jj < names@.len() && names@[jj]@ == name && times@[jj] == t by {
                        let w = choose|w: int|
                            0 <= w < grown.len() && counter_key_of(#[trigger] grown[w], name, t);
                        if w < i as int {
                            assert(counter_key_of(prefix[w], name, t));
                            assert(has_counter(prefix, name, t));
                            let jj = choose|jj: int|
                                0 <= jj < names0.len() && names0[jj]@ == name && times0[jj] == t;
                            assert(names@[jj] == names0[jj] && times@[jj] == times0[jj]);
                            assert(names@[jj]@ == name && times@[jj] == t);
                        } else {
                            assert(counter_key_of(list@[i as int], name, t));
                            assert(name == counter_name@ && t == *time);
                            if found {
                                assert(names@[j as int]@ == name && times@[j as int] == t);
                            } else {
                                assert(names@[names@.len() - 1]@ == name && times@[names@.len()
                                    - 1] == t);
                            }
                        }
                    }
                }
            },
            Message::Log { .. } => {
                proof {
                    assert forall|jj: int| 0 <= jj < names@.len() implies sums@[jj] as int
                        == counter_sum(grown, #[trigger] names@[jj]@, times@[jj]) by {
                        lemma_sum_take_step(list@, i as int, names@[jj]@, times@[jj]);
                    }
                    assert forall|jj: int| 0 <= jj < names@.len() implies has_counter(
                        grown,
                        #[trigger] names@[jj]@,
                        times@[jj],
                    ) by {
                        let w = choose|w: int|
                            0 <= w < prefix.len() && counter_key_of(
                                prefix[w],
                                names@[jj]@,
                                times@[jj],
                            );
                        assert(counter_key_of(grown[w], names@[jj]@, times@[jj]));
                    }
                    assert forall|name: Seq<char>, t: u32| #[trigger] has_counter(
                        grown,
                        name,
                        t,
                    ) implies exists|jj: int|
                        0 <= jj < names@.len() && names@[jj]@ == name && times@[jj] == t by {
                        let w = choose|w: int|
                            0 <= w < grown.len() && counter_key_of(grown[w], name, t);
                        assert(w < i as int);
                        assert(counter_key_of(prefix[w], name, t));
                        assert(has_counter(prefix, name, t));
                    }
                }
            },
        }
        i += 1;
    }
    let ghost gnames = names@;
    let ghost gtimes = times@;
    let r = (names, times, sums);
    proof {
        assert(list@.take(n as int) =~= list@);
        assert(r.0@ == gnames && r.1@ == gtimes);
        assert forall|name: Seq<char>, time: u32| #[trigger] has_counter(
            list@,
            name,
            time,
        ) implies exists|j: int|
            0 <= j < r.0@.len() && r.0@[j]@ == name && r.1@[j] == time by {
            assert(has_counter(list@.take(n as int), name, time));
            let jj = choose|jj: int|
                0 <= jj < gnames.len() && gnames[jj]@ == name && gtimes[jj] == time;
            assert(0 <= jj < r.0@.len() && r.0@[jj]@ == name && r.1@[jj] == time);
        }
    }
    r
}

/// Collapse the counter events of `list` into one counter per distinct
/// bucket, or report that some bucket's sum falls outside i64: the result is
/// `Some` exactly when every bucket fits. Output order is unspecified.
pub fn try_collapse_counters(list: &Vec<Message>) -> (r: Option<Vec<Message>>)
    ensures
        r is Some <==> sums_fit_i64(list@),
        r is Some ==> is_collapse_of(list@, r->0@),
{
    let (names, times, sums) = collapse_core(list);
    let mut j: usize = 0;
    while j < sums.len()
        invariant
            names@.len() == times@.len(),
            times@.len() == sums@.len(),
            forall|jj: int|
                0 <= jj < names@.len() ==> sums@[jj] as int == counter_sum(
                    list@,
                    #[trigger] names@[jj]@,
                    times@[jj],
                ),
            forall|jj: int|
                0 <= jj < j ==> i64::MIN <= #[trigger] sums@[jj] <= i64::MAX,
        decreases sums@.len() - j,
    {
        if sums[j] < i64::MIN as i128 || sums[j] > i64::MAX as i128 {
            proof {
                assert(counter_sum(list@, names@[j as int]@, times@[j as int]) == sums@[j as int]);
            }
            return None;
        }
        j += 1;
    }
    proof {
        assert forall|name: Seq<char>, time: u32|
            i64::MIN <= #[trigger] counter_sum(list@, name, time) <= i64::MAX by {
            if has_counter(list@, name, time) {
                let jj = choose|jj: int|
                    0 <= jj < names@.len() && names@[jj]@ == name && times@[jj] == time;
                assert(sums@[jj] as int == counter_sum(list@, name, time));
            } else {
                lemma_absent_sum_zero(list@, name, time);
            }
        }
    }
    let mut out: Vec<Message> = Vec::new();
    let mut k: usize = 0;
    while k < names.len()
        invariant
            names@.len() == times@.len(),
            times@.len() == sums@.len(),
            k <= names@.len(),
            out@.len() == k,
            forall|jj: int|
                #![trigger names@[jj]]
                0 <= jj < names@.len() ==> i64::MIN <= sums@[jj] <= i64::MAX,
            forall|j1: int, j2: int|
                #![trigger names@[j1], names@[j2]]
                0 <= j1 < names@.len() && 0 <= j2 < names@.len() && j1 != j2 ==> !(names@[j1]@
                    == names@[j2]@ && times@[j1] == times@[j2]),
            forall|jj: int|
                0 <= jj < names@.len() ==> has_counter(list@, #[trigger] names@[jj]@, times@[jj]),
            forall|jj: int|
                0 <= jj < names@.len() ==> sums@[jj] as int == counter_sum(
                    list@,
                    #[trigger] names@[jj]@,
                    times@[jj],
                ),
            forall|name: Seq<char>, time: u32|
                #[trigger] has_counter(list@, name, time) ==> exists|jj: int|
                    0 <= jj < names@.len() && names@[jj]@ == name && times@[jj] == time,
            forall|jj: int|
                0 <= jj < k ==> (#[trigger] out@[jj] matches Message::Counter {
                    counter_name,
                    time,
                    value,
                } && counter_name@ == names@[jj]@ && time == times@[jj] && value as int
                    == sums@[jj] as int),
        decreases names@.len() - k,
    {
        let m = Message::Counter {
            counter_name: names[k].clone(),
            time: times[k],
            value: sums[k] as i64,
        };
        out.push(m);
        k += 1;
    }
    proof {
        assert forall|name: Seq<char>, time: u32| #[trigger] has_counter(
            list@,
            name,
            time,
        ) implies exists|jj: int|
            0 <= jj < out@.len() && counter_key_of(#[trigger] out@[jj], name, time) by {
            let jj = choose|jj: int|
                0 <= jj < names@.len() && names@[jj]@ == name && times@[jj] == time;
            assert(counter_key_of(out@[jj], name, time));
        }
    }
    Some(out)
}

/// Collapse the counter events of `list` into one counter per distinct
/// (name, time) bucket, each carrying the signed sum of the bucket's deltas;
/// log events are dropped from the result. Output order is unspecified.
pub fn collapse_counters(list: &Vec<Message>) -> (out: Vec<Message>)
    requires
        sums_fit_i64(list@),
    ensures
        is_collapse_of(list@, out@),
{
    match try_collapse_counters(list) {
        Some(out) => out,
        None => {
            proof {
                assert(false);
            }
            Vec::new()
        },
    }
}

/// Law: two buckets with the same name and distinct timestamps aggregate
/// independently: the collapsed batch holds a separate counter for each of
/// the two, and each of those counters carries its own bucket's sum.
pub proof fn lemma_distinct_buckets_independent(
    input: Seq<Message>,
    out: Seq<Message>,
    name: Seq<char>,
    t1: u32,
    t2: u32,
)
    requires
        is_collapse_of(input, out),
        t1 != t2,
        has_counter(input, name, t1),
        has_counter(input, name, t2),
    ensures
        exists|j1: int, j2: int|
            0 <= j1 < out.len() && 0 <= j2 < out.len() && j1 != j2 && counter_key_of(
                #[trigger] out[j1],
                name,
                t1,
            ) && counter_key_of(#[trigger] out[j2], name, t2),
        forall|j: int|
            0 <= j < out.len() && counter_key_of(#[trigger] out[j], name, t1) ==> (
            out[j] matches Message::Counter { value, .. } && value as int == counter_sum(
                input,
                name,
                t1,
            )),
        forall|j: int|
            0 <= j < out.len() && counter_key_of(#[trigger] out[j], name, t2) ==> (
            out[j] matches Message::Counter { value, .. } && value as int == counter_sum(
                input,
                name,
                t2,
            )),
{
    let j1 = choose|j: int| 0 <= j < out.len() && counter_key_of(#[trigger] out[j], name, t1);
    let j2 = choose|j: int| 0 <= j < out.len() && counter_key_of(#[trigger] out[j], name, t2);
    assert(j1 != j2);
    assert(counter_key_of(out[j1], name, t1) && counter_key_of(out[j2], name, t2));
}

} // verus!
