//! Packed binary layouts of the Spall file header and event records.
//!
//! Every multi-byte field is little-endian; records are packed with no
//! padding between fields and no padding between records. The spec functions
//! here pin each record down to the exact byte sequence, and the executable
//! encoders are proved to produce those bytes.

use vstd::prelude::*;
use vstd::bytes::{spec_u32_to_le_bytes, spec_u64_to_le_bytes, u32_to_le_bytes, u64_to_le_bytes};

verus! {

/// First eight bytes of every trace file.
pub const MAGIC: u64 = 0x0BADF00D;

/// Format version written into the header.
pub const VERSION: u64 = 1;

/// Size of the file header in bytes.
pub const HEADER_SIZE: usize = 32;

/// Size of the fixed part of a Begin record (tag through `args_len`).
pub const BEGIN_HEAD_SIZE: usize = 20;

/// Size of an End record.
pub const END_SIZE: usize = 17;

/// Size of the fixed part of a PadSkip record (tag and skip length).
pub const PAD_SKIP_HEAD_SIZE: usize = 5;

/// Longest name a Begin record can carry; longer names are truncated.
pub const MAX_NAME_LEN: usize = 255;

/// Longest argument string a Begin record can carry; longer ones are truncated.
pub const MAX_ARGS_LEN: usize = 255;

/// The tag byte that identifies each record kind.
#[derive(Clone, Copy, PartialEq, Eq, Structural, Debug)]
pub enum EventType {
    Invalid,
    /// Basic readers can skip this.
    CustomData,
    StreamOver,
    Begin,
    End,
    Instant,
    /// Retroactively change timestamp units.
    OverwriteTimestamp,
    PadSkip,
}

impl EventType {
    /// The tag byte stored in the file for this record kind.
    pub open spec fn spec_tag(self) -> u8 {
        match self {
            EventType::Invalid => 0,
            EventType::CustomData => 1,
            EventType::StreamOver => 2,
            EventType::Begin => 3,
            EventType::End => 4,
            EventType::Instant => 5,
            EventType::OverwriteTimestamp => 6,
            EventType::PadSkip => 7,
        }
    }

    /// Executable form of [`Self::spec_tag`].
    pub fn tag(self) -> (t: u8)
        ensures
            t == self.spec_tag(),
    {
        match self {
            EventType::Invalid => 0,
            EventType::CustomData => 1,
            EventType::StreamOver => 2,
            EventType::Begin => 3,
            EventType::End => 4,
            EventType::Instant => 5,
            EventType::OverwriteTimestamp => 6,
            EventType::PadSkip => 7,
        }
    }
}

/// The 32-byte header at offset 0 of every trace file.
///
/// `timestamp_unit_bits` holds the IEEE-754 bit pattern of the double
/// `1_000_000 / frequency_hz` (microseconds per tick); the file stores those
/// eight bytes little-endian, exactly as a double is stored.
#[derive(Clone, Copy, PartialEq, Eq, Structural, Debug)]
pub struct SpallHeader {
    pub magic_header: u64,
    pub version: u64,
    pub timestamp_unit_bits: u64,
    pub must_be_0: u64,
}

/// Fixed part of a Begin record. `when_bits` holds the IEEE-754 bit pattern
/// of the record's `when` double (the tick value cast to a double).
#[derive(Clone, Copy, PartialEq, Eq, Structural, Debug)]
pub struct BeginEvent {
    pub ty: u8,
    pub category: u8,
    pub pid: u32,
    pub tid: u32,
    pub when_bits: u64,
    pub name_len: u8,
    pub args_len: u8,
}

/// A Begin record together with its name and argument payloads.
#[derive(Debug)]
pub struct BeginEventMax {
    pub event: BeginEvent,
    pub name: Vec<u8>,
    pub args: Vec<u8>,
}

/// An End record. `when_bits` as in [`BeginEvent`].
#[derive(Clone, Copy, PartialEq, Eq, Structural, Debug)]
pub struct EndEvent {
    pub ty: u8,
    pub pid: u32,
    pub tid: u32,
    pub when_bits: u64,
}

/// A PadSkip record: `size` bytes that follow it are to be ignored.
#[derive(Clone, Copy, PartialEq, Eq, Structural, Debug)]
pub struct PadSkipEvent {
    pub ty: u8,
    pub size: u32,
}

/// Exact bytes of a header with the given fields.
pub open spec fn spec_spall_header_bytes(h: SpallHeader) -> Seq<u8> {
    spec_u64_to_le_bytes(h.magic_header) + spec_u64_to_le_bytes(h.version)
        + spec_u64_to_le_bytes(h.timestamp_unit_bits) + spec_u64_to_le_bytes(h.must_be_0)
}

/// Exact bytes of the canonical header for a given timestamp unit.
pub open spec fn spec_header_bytes(timestamp_unit_bits: u64) -> Seq<u8> {
    spec_spall_header_bytes(
        SpallHeader {
            magic_header: MAGIC,
            version: VERSION,
            timestamp_unit_bits,
            must_be_0: 0,
        },
    )
}

/// Exact bytes of the fixed part of a Begin record.
pub open spec fn spec_begin_head_bytes(e: BeginEvent) -> Seq<u8> {
    seq![e.ty, e.category] + spec_u32_to_le_bytes(e.pid) + spec_u32_to_le_bytes(e.tid)
        + spec_u64_to_le_bytes(e.when_bits) + seq![e.name_len, e.args_len]
}

/// A Begin record head is well formed when its tag and category are the
/// fixed bytes the format prescribes.
pub open spec fn begin_head_wf(e: BeginEvent) -> bool {
    e.ty == EventType::Begin.spec_tag() && e.category == 0
}

/// Exact bytes of a whole Begin record: head, then name, then arguments.
pub open spec fn spec_begin_bytes(e: BeginEvent, name: Seq<u8>, args: Seq<u8>) -> Seq<u8> {
    spec_begin_head_bytes(e) + name + args
}

/// The canonical Begin record the recorder emits for the given fields.
pub open spec fn spec_begin_record(
    pid: u32,
    tid: u32,
    when_bits: u64,
    name: Seq<u8>,
    args: Seq<u8>,
) -> Seq<u8>
    recommends
        name.len() <= MAX_NAME_LEN,
        args.len() <= MAX_ARGS_LEN,
{
    spec_begin_bytes(
        BeginEvent {
            ty: EventType::Begin.spec_tag(),
            category: 0,
            pid,
            tid,
            when_bits,
            name_len: name.len() as u8,
            args_len: args.len() as u8,
        },
        name,
        args,
    )
}

/// Exact bytes of an End record.
pub open spec fn spec_end_bytes(e: EndEvent) -> Seq<u8> {
    seq![e.ty] + spec_u32_to_le_bytes(e.pid) + spec_u32_to_le_bytes(e.tid)
        + spec_u64_to_le_bytes(e.when_bits)
}

/// The canonical End record the recorder emits for the given fields.
pub open spec fn spec_end_record(pid: u32, tid: u32, when_bits: u64) -> Seq<u8> {
    spec_end_bytes(EndEvent { ty: EventType::End.spec_tag(), pid, tid, when_bits })
}

/// Exact bytes of the fixed part of a PadSkip record.
pub open spec fn spec_pad_skip_head_bytes(e: PadSkipEvent) -> Seq<u8> {
    seq![e.ty] + spec_u32_to_le_bytes(e.size)
}

/// Little-endian encodings have fixed width: four bytes for a `u32`,
/// eight for a `u64`.
pub proof fn lemma_le_bytes_lens()
    ensures
        forall|x: u32| (#[trigger] spec_u32_to_le_bytes(x)).len() == 4,
        forall|x: u64| (#[trigger] spec_u64_to_le_bytes(x)).len() == 8,
{
    vstd::bytes::lemma_auto_spec_u32_to_from_le_bytes();
    vstd::bytes::lemma_auto_spec_u64_to_from_le_bytes();
}

/// The fixed part of a Begin record is twenty bytes.
pub proof fn lemma_begin_head_bytes_len(e: BeginEvent)
    ensures
        spec_begin_head_bytes(e).len() == BEGIN_HEAD_SIZE,
{
    lemma_le_bytes_lens();
}

/// An End record is seventeen bytes.
pub proof fn lemma_end_bytes_len(e: EndEvent)
    ensures
        spec_end_bytes(e).len() == END_SIZE,
{
    lemma_le_bytes_lens();
}

/// The fixed part of a PadSkip record is five bytes.
pub proof fn lemma_pad_skip_head_bytes_len(e: PadSkipEvent)
    ensures
        spec_pad_skip_head_bytes(e).len() == PAD_SKIP_HEAD_SIZE,
{
    lemma_le_bytes_lens();
}

impl SpallHeader {
    /// The canonical header for a given timestamp unit.
    pub fn new(timestamp_unit_bits: u64) -> (h: SpallHeader)
        ensures
            h == (SpallHeader {
                magic_header: MAGIC,
                version: VERSION,
                timestamp_unit_bits,
                must_be_0: 0,
            }),
    {
        SpallHeader { magic_header: MAGIC, version: VERSION, timestamp_unit_bits, must_be_0: 0 }
    }

    /// Serializes the header to its exact 32 bytes.
    pub fn to_bytes(&self) -> (out: Vec<u8>)
        ensures
            out@ == spec_spall_header_bytes(*self),
            out@.len() == HEADER_SIZE,
    {
        let mut out: Vec<u8> = Vec::new();
        push_u64_le(&mut out, self.magic_header);
        push_u64_le(&mut out, self.version);
        push_u64_le(&mut out, self.timestamp_unit_bits);
        push_u64_le(&mut out, self.must_be_0);
        proof {
            assert(out@ =~= spec_spall_header_bytes(*self));
            vstd::bytes::lemma_auto_spec_u64_to_from_le_bytes();
        }
        out
    }
}

/// The 32 header bytes a trace file must start with, for the given
/// timestamp unit.
pub fn header_bytes(timestamp_unit_bits: u64) -> (out: Vec<u8>)
    ensures
        out@ == spec_header_bytes(timestamp_unit_bits),
        out@.len() == HEADER_SIZE,
{
    let h = SpallHeader::new(timestamp_unit_bits);
    h.to_bytes()
}

/// Appends the four little-endian bytes of `x` to `out`.
pub fn push_u32_le(out: &mut Vec<u8>, x: u32)
    ensures
        final(out)@ == old(out)@ + spec_u32_to_le_bytes(x),
{
    let mut b = u32_to_le_bytes(x);
    out.append(&mut b);
}

/// Appends the eight little-endian bytes of `x` to `out`.
pub fn push_u64_le(out: &mut Vec<u8>, x: u64)
    ensures
        final(out)@ == old(out)@ + spec_u64_to_le_bytes(x),
{
    let mut b = u64_to_le_bytes(x);
    out.append(&mut b);
}

/// Appends a copy of `bytes` to `out`.
pub fn push_bytes(out: &mut Vec<u8>, bytes: &[u8])
    ensures
        final(out)@ == old(out)@ + bytes@,
{
    let mut i: usize = 0;
    while i < bytes.len()
        invariant
            i <= bytes@.len(),
            out@ == old(out)@ + bytes@.subrange(0, i as int),
        decreases bytes@.len() - i,
    {
        out.push(bytes[i]);
        i = i + 1;
        proof {
            assert(out@ =~= old(out)@ + bytes@.subrange(0, i as int));
        }
    }
    proof {
        assert(out@ =~= old(out)@ + bytes@);
    }
}

/// Appends the fixed part of a Begin record to `out`.
pub fn push_begin_head(out: &mut Vec<u8>, e: &BeginEvent)
    ensures
        final(out)@ == old(out)@ + spec_begin_head_bytes(*e),
{
    out.push(e.ty);
    out.push(e.category);
    push_u32_le(out, e.pid);
    push_u32_le(out, e.tid);
    push_u64_le(out, e.when_bits);
    out.push(e.name_len);
    out.push(e.args_len);
    proof {
        assert(out@ =~= old(out)@ + spec_begin_head_bytes(*e));
    }
}

/// Appends an End record to `out`.
pub fn push_end(out: &mut Vec<u8>, e: &EndEvent)
    ensures
        final(out)@ == old(out)@ + spec_end_bytes(*e),
{
    out.push(e.ty);
    push_u32_le(out, e.pid);
    push_u32_le(out, e.tid);
    push_u64_le(out, e.when_bits);
    proof {
        assert(out@ =~= old(out)@ + spec_end_bytes(*e));
    }
}

/// Appends the fixed part of a PadSkip record to `out`.
pub fn push_pad_skip_head(out: &mut Vec<u8>, e: &PadSkipEvent)
    ensures
        final(out)@ == old(out)@ + spec_pad_skip_head_bytes(*e),
{
    out.push(e.ty);
    push_u32_le(out, e.size);
    proof {
        assert(out@ =~= old(out)@ + spec_pad_skip_head_bytes(*e));
    }
}

} // verus!
