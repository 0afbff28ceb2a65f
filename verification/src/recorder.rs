//! The per-thread recorder: an append-only byte buffer with a fixed
//! capacity, filled with packed event records and drained by `flush`.
//!
//! The recorder owns no file. Whenever a flush happens — explicitly, or
//! because a record would not fit — the method hands the drained bytes back
//! to the caller, which must append them to the trace file. That keeps every
//! decision about what bytes exist where verifiable, and leaves only the
//! write itself to the embedding program.

use vstd::prelude::*;
use vstd::slice::slice_subrange;
use crate::codec::{
    BeginEvent, EndEvent, EventType, BEGIN_HEAD_SIZE, END_SIZE, MAX_ARGS_LEN, MAX_NAME_LEN,
    lemma_begin_head_bytes_len, lemma_end_bytes_len, push_begin_head, push_bytes, push_end,
    spec_begin_head_bytes, spec_begin_record, spec_end_record,
};
use crate::clock::Timer;
use crate::dbits::{spec_double_bits, u64_to_double_bits};

verus! {

/// Smallest buffer a recorder accepts: room for a flush scope plus the
/// largest single reservation (a Begin head, a full name and full
/// arguments).
pub const MIN_BUFFER_SIZE: usize = 1024;

/// Buffer size the global context hands to new recorders: 64 KiB.
pub const DEFAULT_BUFFER_SIZE: usize = 65536;

/// Bytes of the synthetic scope a flush leaves behind: a Begin head, the
/// eleven-byte name and an End record.
pub const FLUSH_SCOPE_SIZE: usize = 48;

/// Name of the synthetic scope that records the cost of a flush.
pub open spec fn spec_flush_name() -> Seq<u8> {
    seq![115u8, 112u8, 97u8, 108u8, 108u8, 47u8, 102u8, 108u8, 117u8, 115u8, 104u8]
}

/// The eleven bytes of `"spall/flush"`.
fn flush_name() -> (v: Vec<u8>)
    ensures
        v@ == spec_flush_name(),
{
    let mut v: Vec<u8> = Vec::new();
    v.push(115u8);
    v.push(112u8);
    v.push(97u8);
    v.push(108u8);
    v.push(108u8);
    v.push(47u8);
    v.push(102u8);
    v.push(108u8);
    v.push(117u8);
    v.push(115u8);
    v.push(104u8);
    proof {
        assert(v@ =~= spec_flush_name());
    }
    v
}

/// `s` cut to at most `max` bytes.
pub open spec fn spec_trunc(s: Seq<u8>, max: nat) -> Seq<u8> {
    if s.len() <= max {
        s
    } else {
        s.take(max as int)
    }
}

/// The two records a flush appends to the emptied buffer: a Begin at tick
/// `t0` named `"spall/flush"` with no arguments, then an End at tick `t1`.
pub open spec fn spec_flush_records(pid: u32, tid: u32, t0: u64, t1: u64) -> Seq<u8> {
    spec_begin_record(pid, tid, spec_double_bits(t0), spec_flush_name(), Seq::<u8>::empty())
        + spec_end_record(pid, tid, spec_double_bits(t1))
}

/// Per-thread recorder state.
pub struct ThreadState {
    pub pid: u32,
    pub tid: u32,
    pub timer: Timer,
    pub buf: Vec<u8>,
    pub buffer_size: usize,
}

/// Guard token for a scope: the embedding program emits the Begin when it
/// creates one and the matching End when it drops it, on every exit path,
/// so Begin/End pairs nest properly per thread.
pub struct TraceScope;

impl ThreadState {
    /// The bytes buffered since the last flush, oldest first.
    pub open spec fn pending(self) -> Seq<u8> {
        self.buf@
    }

    /// The fixed buffer capacity this recorder was created with.
    pub open spec fn capacity(self) -> usize {
        self.buffer_size
    }

    /// Bytes still free in the buffer.
    pub open spec fn remaining(self) -> int {
        self.capacity() - self.pending().len()
    }

    /// The buffer never exceeds its capacity, and the capacity leaves room
    /// for a flush scope followed by any single reservation.
    pub open spec fn wf(self) -> bool {
        self.pending().len() <= self.capacity() && MIN_BUFFER_SIZE <= self.capacity()
    }

    /// A fresh recorder with an empty buffer, stamping its events from
    /// `timer` (the process-wide instance, so timestamps are comparable
    /// across threads).
    pub fn new(pid: u32, tid: u32, buffer_size: usize, timer: Timer) -> (s: ThreadState)
        requires
            MIN_BUFFER_SIZE <= buffer_size,
        ensures
            s.wf(),
            s.pid == pid,
            s.tid == tid,
            s.timer == timer,
            s.capacity() == buffer_size,
            s.pending() == Seq::<u8>::empty(),
    {
        ThreadState { pid, tid, timer, buf: Vec::new(), buffer_size }
    }

    /// The buffered bytes, for inspection.
    pub fn buffered(&self) -> (b: &Vec<u8>)
        ensures
            b@ == self.pending(),
    {
        &self.buf
    }

    /// The buffer capacity.
    pub fn buffer_size(&self) -> (n: usize)
        ensures
            n == self.capacity(),
    {
        self.buffer_size
    }

    /// Appends raw bytes at the write cursor. Callers must have reserved
    /// the space.
    pub fn push_bytes(&mut self, bytes: &[u8])
        requires
            old(self).wf(),
            bytes@.len() <= old(self).remaining(),
        ensures
            final(self).wf(),
            final(self).pid == old(self).pid,
            final(self).tid == old(self).tid,
            final(self).timer == old(self).timer,
            final(self).capacity() == old(self).capacity(),
            final(self).pending() == old(self).pending() + bytes@,
    {
        push_bytes(&mut self.buf, bytes);
    }

    /// Appends the packed head of a Begin record and returns its offset in
    /// the buffer, so `args_len` can be patched once the arguments have
    /// been rendered.
    pub fn push_begin_event(&mut self, when_bits: u64, name_len: u8, args_len: u8) -> (tok: usize)
        requires
            old(self).wf(),
            BEGIN_HEAD_SIZE <= old(self).remaining(),
        ensures
            final(self).wf(),
            final(self).pid == old(self).pid,
            final(self).tid == old(self).tid,
            final(self).timer == old(self).timer,
            final(self).capacity() == old(self).capacity(),
            final(self).pending() == old(self).pending() + spec_begin_head_bytes(
                BeginEvent {
                    ty: EventType::Begin.spec_tag(),
                    category: 0,
                    pid: old(self).pid,
                    tid: old(self).tid,
                    when_bits,
                    name_len,
                    args_len,
                },
            ),
            tok == old(self).pending().len(),
    {
        let tok = self.buf.len();
        let head = BeginEvent {
            ty: EventType::Begin.tag(),
            category: 0,
            pid: self.pid,
            tid: self.tid,
            when_bits,
            name_len,
            args_len,
        };
        proof {
            lemma_begin_head_bytes_len(head);
        }
        push_begin_head(&mut self.buf, &head);
        tok
    }

    /// Overwrites the `args_len` byte of a Begin record previously pushed
    /// at offset `tok`.
    pub fn patch_begin_args_len(&mut self, tok: usize, args_len: u8)
        requires
            old(self).wf(),
            tok + BEGIN_HEAD_SIZE <= old(self).pending().len(),
        ensures
            final(self).wf(),
            final(self).pid == old(self).pid,
            final(self).tid == old(self).tid,
            final(self).timer == old(self).timer,
            final(self).capacity() == old(self).capacity(),
            final(self).pending() == old(self).pending().update(tok + 19, args_len),
    {
        let slot = self.buf.as_mut_slice();
        slot[tok + 19] = args_len;
    }

    /// Appends an End record.
    pub fn push_end_event(&mut self, when_bits: u64)
        requires
            old(self).wf(),
            END_SIZE <= old(self).remaining(),
        ensures
            final(self).wf(),
            final(self).pid == old(self).pid,
            final(self).tid == old(self).tid,
            final(self).timer == old(self).timer,
            final(self).capacity() == old(self).capacity(),
            final(self).pending() == old(self).pending() + spec_end_record(
                old(self).pid,
                old(self).tid,
                when_bits,
            ),
    {
        let rec = EndEvent {
            ty: EventType::End.tag(),
            pid: self.pid,
            tid: self.tid,
            when_bits,
        };
        proof {
            lemma_end_bytes_len(rec);
        }
        push_end(&mut self.buf, &rec);
    }

    /// Drains the buffer and appends the synthetic `"spall/flush"` scope to
    /// the emptied buffer, so the cost of flushing shows in the trace. The
    /// returned bytes must be appended to the trace file.
    pub fn flush(&mut self) -> (out: Vec<u8>)
        requires
            old(self).wf(),
        ensures
            final(self).wf(),
            final(self).pid == old(self).pid,
            final(self).tid == old(self).tid,
            final(self).timer == old(self).timer,
            final(self).capacity() == old(self).capacity(),
            out@ == old(self).pending(),
            exists|t0: u64, t1: u64|
                final(self).pending() == spec_flush_records(
                    old(self).pid,
                    old(self).tid,
                    t0,
                    t1,
                ),
    {
        let t0 = self.timer.now();
        let out = self.buf.split_off(0);
        proof {
            assert(self.pending() =~= Seq::<u8>::empty());
        }
        let name = flush_name();
        let w0 = u64_to_double_bits(t0);
        self.push_begin_event(w0, 11u8, 0u8);
        proof {
            lemma_begin_head_bytes_len(
                BeginEvent {
                    ty: EventType::Begin.spec_tag(),
                    category: 0,
                    pid: self.pid,
                    tid: self.tid,
                    when_bits: w0,
                    name_len: 11u8,
                    args_len: 0u8,
                },
            );
        }
        self.push_bytes(name.as_slice());
        let t1 = self.timer.now();
        let w1 = u64_to_double_bits(t1);
        self.push_end_event(w1);
        proof {
            assert(self.pending() =~= spec_flush_records(self.pid, self.tid, t0, t1));
        }
        out
    }

    /// Makes sure at least `size` bytes are free, flushing first if they
    /// are not. Returns the drained bytes when a flush happened; they must
    /// be appended to the trace file.
    pub fn reserve(&mut self, size: usize) -> (out: Option<Vec<u8>>)
        requires
            old(self).wf(),
            size + FLUSH_SCOPE_SIZE <= old(self).capacity(),
        ensures
            final(self).wf(),
            final(self).pid == old(self).pid,
            final(self).tid == old(self).tid,
            final(self).timer == old(self).timer,
            final(self).capacity() == old(self).capacity(),
            size <= final(self).remaining(),
            match out {
                None => old(self).remaining() >= size && final(self).pending() == old(
                    self,
                ).pending(),
                Some(v) => old(self).remaining() < size && v@ == old(self).pending()
                    && exists|t0: u64, t1: u64|
                    final(self).pending() == spec_flush_records(
                        old(self).pid,
                        old(self).tid,
                        t0,
                        t1,
                    ),
            },
    {
        proof {
            crate::codec::lemma_le_bytes_lens();
        }
        if size > self.buffer_size - self.buf.len() {
            let out = self.flush();
            proof {
                assert(self.pending().len() == FLUSH_SCOPE_SIZE) by {
                    crate::codec::lemma_le_bytes_lens();
                };
            }
            Some(out)
        } else {
            None
        }
    }

    /// Renders up to `max_len` argument bytes into the buffer, cut at byte
    /// granularity to the 255-byte record limit and to the free space;
    /// returns how many were written.
    pub fn push_args(&mut self, max_len: usize, args: &[u8]) -> (n: usize)
        requires
            old(self).wf(),
        ensures
            final(self).wf(),
            final(self).pid == old(self).pid,
            final(self).tid == old(self).tid,
            final(self).timer == old(self).timer,
            final(self).capacity() == old(self).capacity(),
            n == spec_min(
                args@.len() as int,
                spec_min(max_len as int, spec_min(MAX_ARGS_LEN as int, old(self).remaining())),
            ),
            final(self).pending() == old(self).pending() + args@.subrange(0, n as int),
    {
        let rem = self.buffer_size - self.buf.len();
        let mut limit = if max_len < rem {
            max_len
        } else {
            rem
        };
        if limit > MAX_ARGS_LEN {
            limit = MAX_ARGS_LEN;
        }
        let n = if args.len() < limit {
            args.len()
        } else {
            limit
        };
        let piece = slice_subrange(args, 0, n);
        self.push_bytes(piece);
        n
    }

    /// Emits a Begin record for a scope named `name` (truncated to 255
    /// bytes) with no arguments, stamped with the current tick, flushing
    /// first if it does not fit. Returned bytes must be appended to the
    /// trace file.
    pub fn begin_scope(&mut self, name: &[u8]) -> (out: Option<Vec<u8>>)
        requires
            old(self).wf(),
        ensures
            final(self).wf(),
            final(self).pid == old(self).pid,
            final(self).tid == old(self).tid,
            final(self).timer == old(self).timer,
            final(self).capacity() == old(self).capacity(),
            ({
                let nm = spec_trunc(name@, MAX_NAME_LEN as nat);
                match out {
                    None => old(self).remaining() >= BEGIN_HEAD_SIZE + nm.len() && exists|t: u64|
                        final(self).pending() == old(self).pending() + spec_begin_record(
                            old(self).pid,
                            old(self).tid,
                            spec_double_bits(t),
                            nm,
                            Seq::<u8>::empty(),
                        ),
                    Some(v) => old(self).remaining() < BEGIN_HEAD_SIZE + nm.len() && v@ == old(
                        self,
                    ).pending() && exists|t0: u64, t1: u64, t: u64|
                        final(self).pending() == spec_flush_records(
                            old(self).pid,
                            old(self).tid,
                            t0,
                            t1,
                        ) + spec_begin_record(
                            old(self).pid,
                            old(self).tid,
                            spec_double_bits(t),
                            nm,
                            Seq::<u8>::empty(),
                        ),
                }
            }),
    {
        let name_len = if name.len() > MAX_NAME_LEN {
            MAX_NAME_LEN
        } else {
            name.len()
        };
        let out = self.reserve(BEGIN_HEAD_SIZE + name_len);
        let t = self.timer.now();
        let w = u64_to_double_bits(t);
        let ghost pre = self.pending();
        self.push_begin_event(w, name_len as u8, 0u8);
        proof {
            lemma_begin_head_bytes_len(
                BeginEvent {
                    ty: EventType::Begin.spec_tag(),
                    category: 0,
                    pid: self.pid,
                    tid: self.tid,
                    when_bits: w,
                    name_len: name_len as u8,
                    args_len: 0u8,
                },
            );
        }
        let piece = slice_subrange(name, 0, name_len);
        self.push_bytes(piece);
        proof {
            let nm = spec_trunc(name@, MAX_NAME_LEN as nat);
            assert(name@.subrange(0, name_len as int) =~= nm);
            assert(self.pending() =~= pre + spec_begin_record(
                old(self).pid,
                old(self).tid,
                spec_double_bits(t),
                nm,
                Seq::<u8>::empty(),
            ));
        }
        out
    }

    /// Emits a Begin record for a scope named `name` (truncated to 255
    /// bytes) carrying the rendered argument bytes `args` (truncated to 255
    /// bytes), stamped with the current tick, flushing first if it does not
    /// fit. Returned bytes must be appended to the trace file.
    pub fn begin_scope_with_args(&mut self, name: &[u8], args: &[u8]) -> (out: Option<Vec<u8>>)
        requires
            old(self).wf(),
        ensures
            final(self).wf(),
            final(self).pid == old(self).pid,
            final(self).tid == old(self).tid,
            final(self).timer == old(self).timer,
            final(self).capacity() == old(self).capacity(),
            ({
                let nm = spec_trunc(name@, MAX_NAME_LEN as nat);
                let am = spec_trunc(args@, MAX_ARGS_LEN as nat);
                match out {
                    None => old(self).remaining() >= BEGIN_HEAD_SIZE + nm.len() + MAX_ARGS_LEN
                        && exists|t: u64|
                        final(self).pending() == old(self).pending() + spec_begin_record(
                            old(self).pid,
                            old(self).tid,
                            spec_double_bits(t),
                            nm,
                            am,
                        ),
                    Some(v) => old(self).remaining() < BEGIN_HEAD_SIZE + nm.len() + MAX_ARGS_LEN
                        && v@ == old(self).pending() && exists|t0: u64, t1: u64, t: u64|
                        final(self).pending() == spec_flush_records(
                            old(self).pid,
                            old(self).tid,
                            t0,
                            t1,
                        ) + spec_begin_record(
                            old(self).pid,
                            old(self).tid,
                            spec_double_bits(t),
                            nm,
                            am,
                        ),
                }
            }),
    {
        let name_len = if name.len() > MAX_NAME_LEN {
            MAX_NAME_LEN
        } else {
            name.len()
        };
        let out = self.reserve(BEGIN_HEAD_SIZE + name_len + MAX_ARGS_LEN);
        let t = self.timer.now();
        let w = u64_to_double_bits(t);
        let ghost pre = self.pending();
        let tok = self.push_begin_event(w, name_len as u8, 0u8);
        proof {
            lemma_begin_head_bytes_len(
                BeginEvent {
                    ty: EventType::Begin.spec_tag(),
                    category: 0,
                    pid: self.pid,
                    tid: self.tid,
                    when_bits: w,
                    name_len: name_len as u8,
                    args_len: 0u8,
                },
            );
        }
        let piece = slice_subrange(name, 0, name_len);
        self.push_bytes(piece);
        let args_len = self.push_args(MAX_ARGS_LEN, args);
        self.patch_begin_args_len(tok, args_len as u8);
        proof {
            let nm = spec_trunc(name@, MAX_NAME_LEN as nat);
            let am = spec_trunc(args@, MAX_ARGS_LEN as nat);
            assert(name@.subrange(0, name_len as int) =~= nm);
            assert(args@.subrange(0, args_len as int) =~= am);
            lemma_begin_head_bytes_len(
                BeginEvent {
                    ty: EventType::Begin.spec_tag(),
                    category: 0,
                    pid: self.pid,
                    tid: self.tid,
                    when_bits: w,
                    name_len: name_len as u8,
                    args_len: args_len as u8,
                },
            );
            assert(self.pending() =~= pre + spec_begin_record(
                old(self).pid,
                old(self).tid,
                spec_double_bits(t),
                nm,
                am,
            ));
        }
        out
    }

    /// Emits an End record stamped with the current tick, flushing first if
    /// it does not fit. Returned bytes must be appended to the trace file.
    pub fn end_scope(&mut self) -> (out: Option<Vec<u8>>)
        requires
            old(self).wf(),
        ensures
            final(self).wf(),
            final(self).pid == old(self).pid,
            final(self).tid == old(self).tid,
            final(self).timer == old(self).timer,
            final(self).capacity() == old(self).capacity(),
            match out {
                None => old(self).remaining() >= END_SIZE && exists|t: u64|
                    final(self).pending() == old(self).pending() + spec_end_record(
                        old(self).pid,
                        old(self).tid,
                        spec_double_bits(t),
                    ),
                Some(v) => old(self).remaining() < END_SIZE && v@ == old(self).pending()
                    && exists|t0: u64, t1: u64, t: u64|
                    final(self).pending() == spec_flush_records(
                        old(self).pid,
                        old(self).tid,
                        t0,
                        t1,
                    ) + spec_end_record(old(self).pid, old(self).tid, spec_double_bits(t)),
            },
    {
        let out = self.reserve(END_SIZE);
        let t = self.timer.now();
        let w = u64_to_double_bits(t);
        self.push_end_event(w);
        out
    }
}

/// The smaller of two integers.
pub open spec fn spec_min(a: int, b: int) -> int {
    if a <= b {
        a
    } else {
        b
    }
}

} // verus!
