//! A reference parser for the event stream that follows the file header.
//!
//! Parsing is defined first as a spec function; the executable parser is
//! proved to agree with it, and the round-trip law shows that the spec
//! parser inverts the encoding: a stream laid down record by record parses
//! back to exactly those records.

use vstd::prelude::*;
use vstd::bytes::{
    spec_u32_from_le_bytes, spec_u32_to_le_bytes, spec_u64_from_le_bytes, spec_u64_to_le_bytes,
    u32_from_le_bytes, u64_from_le_bytes,
};
use vstd::slice::{slice_subrange, slice_to_vec};
use crate::codec::{
    lemma_le_bytes_lens, spec_begin_bytes, spec_end_bytes, spec_pad_skip_head_bytes, BeginEvent,
    BeginEventMax, EndEvent, PadSkipEvent, MAX_ARGS_LEN, MAX_NAME_LEN,
};

verus! {

/// A parsed event record.
pub enum Event {
    Begin(BeginEventMax),
    End(EndEvent),
    Pad(PadSkipEvent, Vec<u8>),
}

/// The mathematical content of an event record: what survives a trip
/// through the file.
#[verifier::ext_equal]
pub enum EventM {
    Begin { pid: u32, tid: u32, when_bits: u64, category: u8, name: Seq<u8>, args: Seq<u8> },
    End { pid: u32, tid: u32, when_bits: u64 },
    Pad { payload: Seq<u8> },
}

/// The model of a parsed event.
pub open spec fn event_model(e: Event) -> EventM {
    match e {
        Event::Begin(b) => EventM::Begin {
            pid: b.event.pid,
            tid: b.event.tid,
            when_bits: b.event.when_bits,
            category: b.event.category,
            name: b.name@,
            args: b.args@,
        },
        Event::End(r) => EventM::End { pid: r.pid, tid: r.tid, when_bits: r.when_bits },
        Event::Pad(_, body) => EventM::Pad { payload: body@ },
    }
}

/// The models of a sequence of parsed events.
pub open spec fn models(s: Seq<Event>) -> Seq<EventM> {
    s.map_values(|e: Event| event_model(e))
}

/// An event the format can represent: payload lengths fit their length
/// fields.
pub open spec fn wf_event(m: EventM) -> bool {
    match m {
        EventM::Begin { name, args, .. } => name.len() <= MAX_NAME_LEN && args.len()
            <= MAX_ARGS_LEN,
        EventM::End { .. } => true,
        EventM::Pad { payload } => payload.len() <= u32::MAX,
    }
}

/// Every event of the stream is representable.
pub open spec fn wf_stream(ms: Seq<EventM>) -> bool {
    forall|i: int| 0 <= i < ms.len() ==> wf_event(#[trigger] ms[i])
}

/// The exact bytes of one event record.
pub open spec fn event_bytes(m: EventM) -> Seq<u8> {
    match m {
        EventM::Begin { pid, tid, when_bits, category, name, args } => spec_begin_bytes(
            BeginEvent {
                ty: 3,
                category,
                pid,
                tid,
                when_bits,
                name_len: name.len() as u8,
                args_len: args.len() as u8,
            },
            name,
            args,
        ),
        EventM::End { pid, tid, when_bits } => spec_end_bytes(
            EndEvent { ty: 4, pid, tid, when_bits },
        ),
        EventM::Pad { payload } => spec_pad_skip_head_bytes(
            PadSkipEvent { ty: 7, size: payload.len() as u32 },
        ) + payload,
    }
}

/// The exact bytes of a stream of records, laid down contiguously.
pub open spec fn stream_bytes(ms: Seq<EventM>) -> Seq<u8>
    decreases ms.len(),
{
    if ms.len() == 0 {
        Seq::<u8>::empty()
    } else {
        event_bytes(ms[0]) + stream_bytes(ms.subrange(1, ms.len() as int))
    }
}

/// Parses the first record of `s`: the record and how many bytes it took,
/// or nothing when `s` does not start with a complete record.
pub open spec fn spec_parse_one(s: Seq<u8>) -> Option<(EventM, int)> {
    if s.len() < 1 {
        None
    } else if s[0] == 3 {
        if s.len() < 20 {
            None
        } else {
            let nl = s[18] as int;
            let al = s[19] as int;
            if s.len() < 20 + nl + al {
                None
            } else {
                Some(
                    (
                        EventM::Begin {
                            pid: spec_u32_from_le_bytes(s.subrange(2, 6)),
                            tid: spec_u32_from_le_bytes(s.subrange(6, 10)),
                            when_bits: spec_u64_from_le_bytes(s.subrange(10, 18)),
                            category: s[1],
                            name: s.subrange(20, 20 + nl),
                            args: s.subrange(20 + nl, 20 + nl + al),
                        },
                        20 + nl + al,
                    ),
                )
            }
        }
    } else if s[0] == 4 {
        if s.len() < 17 {
            None
        } else {
            Some(
                (
                    EventM::End {
                        pid: spec_u32_from_le_bytes(s.subrange(1, 5)),
                        tid: spec_u32_from_le_bytes(s.subrange(5, 9)),
                        when_bits: spec_u64_from_le_bytes(s.subrange(9, 17)),
                    },
                    17,
                ),
            )
        }
    } else if s[0] == 7 {
        if s.len() < 5 {
            None
        } else {
            let sz = spec_u32_from_le_bytes(s.subrange(1, 5)) as int;
            if s.len() < 5 + sz {
                None
            } else {
                Some((EventM::Pad { payload: s.subrange(5, 5 + sz) }, 5 + sz))
            }
        }
    } else {
        None
    }
}

/// Parses a whole byte sequence into records, or nothing when it is not a
/// contiguous sequence of complete records.
pub open spec fn spec_parse(s: Seq<u8>) -> Option<Seq<EventM>>
    decreases s.len(),
{
    if s.len() == 0 {
        Some(Seq::<EventM>::empty())
    } else {
        match spec_parse_one(s) {
            None => None,
            Some((m, n)) => if 1 <= n <= s.len() {
                match spec_parse(s.subrange(n, s.len() as int)) {
                    None => None,
                    Some(t) => Some(seq![m] + t),
                }
            } else {
                None
            },
        }
    }
}

/// Parsing the head of a well-formed record, whatever follows it, yields
/// exactly that record and consumes exactly its bytes.
pub proof fn lemma_parse_one_of_record(m: EventM, rest: Seq<u8>)
    requires
        wf_event(m),
    ensures
        spec_parse_one(event_bytes(m) + rest) == Some((m, event_bytes(m).len() as int)),
{
    lemma_le_bytes_lens();
    vstd::bytes::lemma_auto_spec_u32_to_from_le_bytes();
    vstd::bytes::lemma_auto_spec_u64_to_from_le_bytes();
    let b = event_bytes(m);
    let s = b + rest;
    match m {
        EventM::Begin { pid, tid, when_bits, category, name, args } => {
            assert(b.len() == 20 + name.len() + args.len());
            assert(s[0] == 3);
            assert(s[18] == name.len() as u8);
            assert(s[19] == args.len() as u8);
            assert(s.subrange(2, 6) =~= spec_u32_to_le_bytes(pid));
            assert(s.subrange(6, 10) =~= spec_u32_to_le_bytes(tid));
            assert(s.subrange(10, 18) =~= spec_u64_to_le_bytes(when_bits));
            assert(s.subrange(20, 20 + name.len() as int) =~= name);
            assert(s.subrange(
                20 + name.len() as int,
                20 + name.len() as int + args.len() as int,
            ) =~= args);
            let p = spec_parse_one(s)->Some_0;
            assert(p.0 =~= m);
            assert(p.1 == b.len());
        }
        EventM::End { pid, tid, when_bits } => {
            assert(b.len() == 17);
            assert(s[0] == 4);
            assert(s.subrange(1, 5) =~= spec_u32_to_le_bytes(pid));
            assert(s.subrange(5, 9) =~= spec_u32_to_le_bytes(tid));
            assert(s.subrange(9, 17) =~= spec_u64_to_le_bytes(when_bits));
            let p = spec_parse_one(s)->Some_0;
            assert(p.0 =~= m);
            assert(p.1 == b.len());
        }
        EventM::Pad { payload } => {
            assert(b.len() == 5 + payload.len());
            assert(s[0] == 7);
            assert(s.subrange(1, 5) =~= spec_u32_to_le_bytes(payload.len() as u32));
            assert(spec_u32_from_le_bytes(s.subrange(1, 5)) == payload.len() as u32);
            assert(s.subrange(5, 5 + payload.len() as int) =~= payload);
            let p = spec_parse_one(s)->Some_0;
            assert(p.0 =~= m);
            assert(p.1 == b.len());
        }
    }
}

/// The round-trip law: a stream of well-formed records, encoded
/// contiguously, parses back to exactly those records.
pub proof fn lemma_parse_of_stream(ms: Seq<EventM>)
    requires
        wf_stream(ms),
    ensures
        spec_parse(stream_bytes(ms)) == Some(ms),
    decreases ms.len(),
{
    if ms.len() == 0 {
        assert(stream_bytes(ms).len() == 0);
        assert(spec_parse(stream_bytes(ms)) == Some(ms)) by {
            assert(ms =~= Seq::<EventM>::empty());
        }
    } else {
        let head = ms[0];
        let tail = ms.subrange(1, ms.len() as int);
        let s = stream_bytes(ms);
        assert(wf_event(head));
        assert(wf_stream(tail)) by {
            assert(forall|i: int|
                0 <= i < tail.len() ==> #[trigger] tail[i] == ms[i + 1] && wf_event(ms[i + 1]));
        }
        lemma_parse_one_of_record(head, stream_bytes(tail));
        let hb = event_bytes(head);
        assert(s == hb + stream_bytes(tail));
        assert(hb.len() >= 5) by {
            lemma_le_bytes_lens();
        }
        assert(s.subrange(hb.len() as int, s.len() as int) =~= stream_bytes(tail));
        lemma_parse_of_stream(tail);
        assert(spec_parse(s) == Some(seq![head] + tail));
        assert(seq![head] + tail =~= ms);
    }
}

/// The canonical Begin record the recorder emits is the encoding of the
/// Begin model with category zero.
pub proof fn lemma_begin_record_bytes(
    pid: u32,
    tid: u32,
    when_bits: u64,
    name: Seq<u8>,
    args: Seq<u8>,
)
    requires
        name.len() <= MAX_NAME_LEN,
        args.len() <= MAX_ARGS_LEN,
    ensures
        event_bytes(EventM::Begin { pid, tid, when_bits, category: 0, name, args })
            == crate::codec::spec_begin_record(pid, tid, when_bits, name, args),
{
}

/// The canonical End record the recorder emits is the encoding of the End
/// model.
pub proof fn lemma_end_record_bytes(pid: u32, tid: u32, when_bits: u64)
    ensures
        event_bytes(EventM::End { pid, tid, when_bits }) == crate::codec::spec_end_record(
            pid,
            tid,
            when_bits,
        ),
{
}

/// One whole scope — the Begin record the recorder lays down at entry
/// followed by the End record at exit — parses back to exactly a Begin and
/// its matching End, with the same process and thread identity on both.
pub proof fn lemma_scope_round_trip(
    pid: u32,
    tid: u32,
    w1: u64,
    w2: u64,
    name: Seq<u8>,
    args: Seq<u8>,
)
    requires
        name.len() <= MAX_NAME_LEN,
        args.len() <= MAX_ARGS_LEN,
    ensures
        spec_parse(
            crate::codec::spec_begin_record(pid, tid, w1, name, args)
                + crate::codec::spec_end_record(pid, tid, w2),
        ) == Some(
            seq![
                EventM::Begin { pid, tid, when_bits: w1, category: 0, name, args },
                EventM::End { pid, tid, when_bits: w2 },
            ],
        ),
{
    let b = EventM::Begin { pid, tid, when_bits: w1, category: 0, name, args };
    let e = EventM::End { pid, tid, when_bits: w2 };
    let ms = seq![b, e];
    assert(wf_stream(ms)) by {
        assert(ms[0] == b && ms[1] == e);
    }
    lemma_begin_record_bytes(pid, tid, w1, name, args);
    lemma_end_record_bytes(pid, tid, w2);
    let se = ms.subrange(1, 2);
    assert(se =~= seq![e]);
    assert(se.subrange(1, 1) =~= Seq::<EventM>::empty());
    assert(stream_bytes(se.subrange(1, 1)) == Seq::<u8>::empty());
    assert(stream_bytes(se) == event_bytes(e) + stream_bytes(se.subrange(1, 1)));
    assert(stream_bytes(se) =~= event_bytes(e));
    assert(stream_bytes(ms) == event_bytes(b) + stream_bytes(se));
    assert(stream_bytes(ms) =~= crate::codec::spec_begin_record(pid, tid, w1, name, args)
        + crate::codec::spec_end_record(pid, tid, w2));
    lemma_parse_of_stream(ms);
}

/// Every record a successful parse yields is well formed: its name and
/// argument payloads are at most 255 bytes, its pad payload fits the
/// 32-bit skip length.
pub proof fn lemma_parse_wf(s: Seq<u8>)
    ensures
        spec_parse(s) is Some ==> wf_stream(spec_parse(s)->Some_0),
    decreases s.len(),
{
    if s.len() == 0 {
    } else if spec_parse(s) is Some {
        let p = spec_parse_one(s)->Some_0;
        let m = p.0;
        let n = p.1;
        assert(wf_event(m));
        let tail_bytes = s.subrange(n, s.len() as int);
        lemma_parse_wf(tail_bytes);
        let t = spec_parse(tail_bytes)->Some_0;
        let ms = spec_parse(s)->Some_0;
        assert(ms == seq![m] + t);
        assert forall|i: int| 0 <= i < ms.len() implies wf_event(#[trigger] ms[i]) by {
            if i == 0 {
                assert(ms[0] == m);
            } else {
                assert(ms[i] == t[i - 1]);
            }
        }
    }
}

/// Executable form of [`spec_parse_one`], reading at `off`.
fn parse_one(data: &[u8], off: usize) -> (r: Option<(Event, usize)>)
    requires
        off < data@.len(),
    ensures
        ({
            let rem = data@.subrange(off as int, data@.len() as int);
            match r {
                Some(p) => spec_parse_one(rem) == Some((event_model(p.0), p.1 as int)) && 1
                    <= p.1 <= data@.len() - off,
                None => spec_parse_one(rem) is None,
            }
        }),
{
    let ghost rem = data@.subrange(off as int, data@.len() as int);
    let len = data.len();
    let tag = data[off];
    if tag == 3 {
        if len - off < 20 {
            return None;
        }
        let nl = data[off + 18] as usize;
        let al = data[off + 19] as usize;
        if len - off - 20 < nl || len - off - 20 - nl < al {
            return None;
        }
        let pid = u32_from_le_bytes(slice_subrange(data, off + 2, off + 6));
        let tid = u32_from_le_bytes(slice_subrange(data, off + 6, off + 10));
        let when_bits = u64_from_le_bytes(slice_subrange(data, off + 10, off + 18));
        let category = data[off + 1];
        let name = slice_to_vec(slice_subrange(data, off + 20, off + 20 + nl));
        let args = slice_to_vec(slice_subrange(data, off + 20 + nl, off + 20 + nl + al));
        let ev = Event::Begin(
            BeginEventMax {
                event: BeginEvent {
                    ty: 3,
                    category,
                    pid,
                    tid,
                    when_bits,
                    name_len: nl as u8,
                    args_len: al as u8,
                },
                name,
                args,
            },
        );
        proof {
            assert(rem[0] == 3 && rem[18] == nl as u8 && rem[19] == al as u8);
            assert(rem.len() >= 20 + nl + al);
            assert(rem.subrange(2, 6) =~= data@.subrange(off + 2, off + 6));
            assert(rem.subrange(6, 10) =~= data@.subrange(off + 6, off + 10));
            assert(rem.subrange(10, 18) =~= data@.subrange(off + 10, off + 18));
            assert(rem.subrange(20, 20 + nl as int) =~= data@.subrange(
                off + 20,
                off + 20 + nl,
            ));
            assert(rem.subrange(20 + nl as int, 20 + nl + al) =~= data@.subrange(
                off + 20 + nl,
                off + 20 + nl + al,
            ));
            assert(spec_parse_one(rem)->Some_0.0 =~= event_model(ev));
        }
        Some((ev, 20 + nl + al))
    } else if tag == 4 {
        if len - off < 17 {
            return None;
        }
        let pid = u32_from_le_bytes(slice_subrange(data, off + 1, off + 5));
        let tid = u32_from_le_bytes(slice_subrange(data, off + 5, off + 9));
        let when_bits = u64_from_le_bytes(slice_subrange(data, off + 9, off + 17));
        let ev = Event::End(EndEvent { ty: 4, pid, tid, when_bits });
        proof {
            assert(rem[0] == 4 && rem.len() >= 17);
            assert(rem.subrange(1, 5) =~= data@.subrange(off + 1, off + 5));
            assert(rem.subrange(5, 9) =~= data@.subrange(off + 5, off + 9));
            assert(rem.subrange(9, 17) =~= data@.subrange(off + 9, off + 17));
            assert(spec_parse_one(rem)->Some_0.0 =~= event_model(ev));
        }
        Some((ev, 17))
    } else if tag == 7 {
        if len - off < 5 {
            return None;
        }
        let size = u32_from_le_bytes(slice_subrange(data, off + 1, off + 5));
        proof {
            assert(rem[0] == 7 && rem.len() >= 5);
            assert(rem.subrange(1, 5) =~= data@.subrange(off + 1, off + 5));
        }
        if size as usize > len - off - 5 {
            return None;
        }
        let body = slice_to_vec(slice_subrange(data, off + 5, off + 5 + size as usize));
        let ev = Event::Pad(PadSkipEvent { ty: 7, size }, body);
        proof {
            assert(rem.subrange(5, 5 + size as int) =~= data@.subrange(
                off + 5,
                off + 5 + size as int,
            ));
            assert(spec_parse_one(rem)->Some_0.0 =~= event_model(ev));
        }
        Some((ev, 5 + size as usize))
    } else {
        None
    }
}

/// Parses a contiguous event stream (the bytes after the file header).
/// Succeeds exactly when the spec parser does, and yields the same records.
pub fn parse_events(data: &[u8]) -> (r: Option<Vec<Event>>)
    ensures
        match r {
            Some(evs) => spec_parse(data@) == Some(models(evs@)),
            None => spec_parse(data@) is None,
        },
{
    let mut evs: Vec<Event> = Vec::new();
    let mut off: usize = 0;
    proof {
        assert(data@.subrange(0, data@.len() as int) =~= data@);
    }
    while off < data.len()
        invariant
            off <= data@.len(),
            ({
                let rem = data@.subrange(off as int, data@.len() as int);
                match spec_parse(rem) {
                    Some(t) => spec_parse(data@) == Some(models(evs@) + t),
                    None => spec_parse(data@) is None,
                }
            }),
        decreases data@.len() - off,
    {
        let ghost rem = data@.subrange(off as int, data@.len() as int);
        match parse_one(data, off) {
            None => {
                proof {
                    assert(spec_parse(rem) is None);
                }
                return None;
            },
            Some((ev, n)) => {
                let ghost evs0 = evs@;
                evs.push(ev);
                let ghost m = event_model(ev);
                proof {
                    let rem2 = data@.subrange(off + n, data@.len() as int);
                    assert(rem.subrange(n as int, rem.len() as int) =~= rem2);
                    assert(spec_parse(rem) == match spec_parse(rem2) {
                        None => None::<Seq<EventM>>,
                        Some(t) => Some(seq![m] + t),
                    });
                    assert(models(evs@) =~= models(evs0).push(m));
                    if spec_parse(rem2) is Some {
                        let t2 = spec_parse(rem2)->Some_0;
                        assert(models(evs0) + (seq![m] + t2) =~= models(evs@) + t2);
                    }
                }
                off = off + n;
            },
        }
    }
    proof {
        let rem = data@.subrange(off as int, data@.len() as int);
        assert(rem =~= Seq::<u8>::empty());
        assert(spec_parse(rem) == Some(Seq::<EventM>::empty()));
        assert(models(evs@) + Seq::<EventM>::empty() =~= models(evs@));
    }
    Some(evs)
}

} // verus!
