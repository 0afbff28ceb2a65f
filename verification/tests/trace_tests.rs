use spall::clock::TIMESTAMP_UNIT_BITS;
use spall::codec::header_bytes;
use spall::context::{dec_digits, substitute_path, ContextState, GlobalState};
use spall::dbits::u64_to_double_bits;
use spall::parse::{parse_events, Event};
use spall::recorder::{ThreadState, DEFAULT_BUFFER_SIZE, MIN_BUFFER_SIZE};
use spall::{EventType, Timer};

#[test]
fn header_layout() {
    let unit = (1_000_000.0f64 / 1_000_000_000.0f64).to_bits();
    assert_eq!(unit, TIMESTAMP_UNIT_BITS);
    let h = header_bytes(unit);
    assert_eq!(h.len(), 32);
    assert_eq!(&h[0..8], &[0x0D, 0xF0, 0xAD, 0x0B, 0, 0, 0, 0]);
    assert_eq!(&h[8..16], &[0x01, 0, 0, 0, 0, 0, 0, 0]);
    assert_eq!(&h[16..24], &unit.to_le_bytes());
    assert_eq!(&h[24..32], &[0u8; 8]);
}

#[test]
fn header_from_struct() {
    let h = spall::SpallHeader::new(0xABCD_EF01_2345_6789);
    assert_eq!(h.magic_header, 0x0BADF00D);
    assert_eq!(h.version, 1);
    assert_eq!(h.must_be_0, 0);
    let bytes = h.to_bytes();
    assert_eq!(&bytes[16..24], &0xABCD_EF01_2345_6789u64.to_le_bytes());
}

#[test]
fn event_type_tags() {
    assert_eq!(EventType::Invalid.tag(), 0);
    assert_eq!(EventType::CustomData.tag(), 1);
    assert_eq!(EventType::StreamOver.tag(), 2);
    assert_eq!(EventType::Begin.tag(), 3);
    assert_eq!(EventType::End.tag(), 4);
    assert_eq!(EventType::Instant.tag(), 5);
    assert_eq!(EventType::OverwriteTimestamp.tag(), 6);
    assert_eq!(EventType::PadSkip.tag(), 7);
}

#[test]
fn double_bits_match_hardware_cast() {
    let samples: [u64; 24] = [
        0,
        1,
        2,
        3,
        9,
        10,
        255,
        256,
        4096,
        123_456_789,
        (1 << 52) - 1,
        1 << 52,
        (1 << 52) + 1,
        (1 << 53) - 1,
        1 << 53,
        (1 << 53) + 1,
        (1 << 53) + 2,
        (1 << 53) + 3,
        1_726_000_000_000_000_000,
        u64::MAX,
        u64::MAX - 1,
        u64::MAX / 3,
        0x8000_0000_0000_0401,
        0x8000_0000_0000_0C00,
    ];
    for &t in samples.iter() {
        assert_eq!(u64_to_double_bits(t), (t as f64).to_bits(), "tick {}", t);
    }
}

#[test]
fn double_bits_order_preserved() {
    let a = u64_to_double_bits(1_000_000);
    let b = u64_to_double_bits(1_000_001);
    assert!(a <= b);
}

#[test]
fn single_scope() {
    let mut r = ThreadState::new(42, 69, DEFAULT_BUFFER_SIZE, Timer::start());
    assert!(r.begin_scope(b"x").is_none());
    assert!(r.end_scope().is_none());
    let evs = parse_events(r.buffered()).expect("buffer must parse");
    assert_eq!(evs.len(), 2);
    match &evs[0] {
        Event::Begin(b) => {
            assert_eq!(b.event.ty, 3);
            assert_eq!(b.event.category, 0);
            assert_eq!(b.event.pid, 42);
            assert_eq!(b.event.tid, 69);
            assert_eq!(b.event.name_len, 1);
            assert_eq!(b.event.args_len, 0);
            assert_eq!(b.name.as_slice(), b"x");
            assert!(b.args.is_empty());
        }
        _ => panic!("first record must be a Begin"),
    }
    match (&evs[0], &evs[1]) {
        (Event::Begin(b), Event::End(e)) => {
            assert_eq!(e.ty, 4);
            assert_eq!(e.pid, 42);
            assert_eq!(e.tid, 69);
            assert!(b.event.when_bits <= e.when_bits);
        }
        _ => panic!("records must be Begin then End"),
    }
}

#[test]
fn formatted_args() {
    let mut r = ThreadState::new(42, 69, DEFAULT_BUFFER_SIZE, Timer::start());
    let rendered = format!("v={}", 42);
    assert!(r.begin_scope_with_args(b"k", rendered.as_bytes()).is_none());
    assert!(r.end_scope().is_none());
    let evs = parse_events(r.buffered()).expect("buffer must parse");
    assert_eq!(evs.len(), 2);
    match &evs[0] {
        Event::Begin(b) => {
            assert_eq!(b.name.as_slice(), b"k");
            assert_eq!(b.event.args_len, 4);
            assert_eq!(b.args.as_slice(), b"v=42");
        }
        _ => panic!("first record must be a Begin"),
    }
}

#[test]
fn nested_scopes_in_order() {
    let mut r = ThreadState::new(7, 8, DEFAULT_BUFFER_SIZE, Timer::start());
    assert!(r.begin_scope(b"outer").is_none());
    assert!(r.begin_scope(b"inner").is_none());
    assert!(r.end_scope().is_none());
    assert!(r.end_scope().is_none());
    let evs = parse_events(r.buffered()).expect("buffer must parse");
    assert_eq!(evs.len(), 4);
    let names: Vec<Option<Vec<u8>>> = evs
        .iter()
        .map(|e| match e {
            Event::Begin(b) => Some(b.name.clone()),
            _ => None,
        })
        .collect();
    assert_eq!(names[0].as_deref(), Some(b"outer".as_slice()));
    assert_eq!(names[1].as_deref(), Some(b"inner".as_slice()));
    assert!(names[2].is_none());
    assert!(names[3].is_none());
    let mut depth: i64 = 0;
    let mut last_when: u64 = 0;
    for e in &evs {
        match e {
            Event::Begin(b) => {
                assert!(b.event.when_bits >= last_when);
                last_when = b.event.when_bits;
                depth += 1;
            }
            Event::End(x) => {
                assert!(x.when_bits >= last_when);
                last_when = x.when_bits;
                depth -= 1;
                assert!(depth >= 0);
            }
            Event::Pad(_, _) => panic!("no pad records expected"),
        }
    }
    assert_eq!(depth, 0);
}

#[test]
fn long_name_truncated_without_leak() {
    let name: Vec<u8> = (0..260u32).map(|i| (i % 251) as u8).collect();
    let mut r = ThreadState::new(1, 2, DEFAULT_BUFFER_SIZE, Timer::start());
    assert!(r.begin_scope(&name).is_none());
    assert!(r.end_scope().is_none());
    assert!(r.begin_scope(b"z").is_none());
    assert!(r.end_scope().is_none());
    let evs = parse_events(r.buffered()).expect("buffer must parse");
    assert_eq!(evs.len(), 4);
    match &evs[0] {
        Event::Begin(b) => {
            assert_eq!(b.event.name_len, 255);
            assert_eq!(b.name.as_slice(), &name[0..255]);
            assert_eq!(b.event.args_len, 0);
        }
        _ => panic!("first record must be a Begin"),
    }
    match &evs[2] {
        Event::Begin(b) => {
            assert_eq!(b.name.as_slice(), b"z");
        }
        _ => panic!("third record must be a Begin"),
    }
}

#[test]
fn publish_once_then_refused() {
    let mut st = ContextState::Uninit;
    assert!(!st.is_ready());
    let first = GlobalState::with_defaults(b"/tmp/trace-a.spall".to_vec());
    assert!(st.publish(first));
    assert!(st.is_ready());
    let second = GlobalState::with_defaults(b"/tmp/trace-b.spall".to_vec());
    assert!(!st.publish(second));
    match &st {
        ContextState::Ready(g) => {
            assert_eq!(g.trace_path.as_slice(), b"/tmp/trace-a.spall");
            assert_eq!(g.buffer_size, 64 * 1024);
            assert!(!g.silent);
        }
        ContextState::Uninit => panic!("context must stay published"),
    }
}

#[test]
fn flush_boundary_emits_flush_scope_before_begin() {
    let mut r = ThreadState::new(3, 4, MIN_BUFFER_SIZE, Timer::start());
    let name = [7u8; 255];
    let mut flushed: Option<Vec<u8>> = None;
    let mut before: Vec<u8> = Vec::new();
    for _ in 0..16 {
        before = r.buffered().clone();
        match r.begin_scope(&name) {
            Some(bytes) => {
                flushed = Some(bytes);
                break;
            }
            None => {
                assert!(r.end_scope().is_none());
            }
        }
    }
    let flushed = flushed.expect("a begin must eventually overflow the buffer");
    assert_eq!(flushed, before);
    let evs = parse_events(r.buffered()).expect("post-flush buffer must parse");
    assert_eq!(evs.len(), 3);
    match (&evs[0], &evs[1], &evs[2]) {
        (Event::Begin(f), Event::End(_), Event::Begin(b)) => {
            assert_eq!(f.name.as_slice(), b"spall/flush");
            assert_eq!(f.event.args_len, 0);
            assert_eq!(b.name.as_slice(), &name[..]);
        }
        _ => panic!("expected flush Begin, flush End, then the new Begin"),
    }
}

#[test]
fn explicit_flush_drains_buffer() {
    let mut r = ThreadState::new(5, 6, DEFAULT_BUFFER_SIZE, Timer::start());
    assert!(r.begin_scope(b"work").is_none());
    assert!(r.end_scope().is_none());
    let drained = r.buffered().clone();
    let out = r.flush();
    assert_eq!(out, drained);
    let evs = parse_events(r.buffered()).expect("flush scope must parse");
    assert_eq!(evs.len(), 2);
    match &evs[0] {
        Event::Begin(b) => assert_eq!(b.name.as_slice(), b"spall/flush"),
        _ => panic!("flush must leave its Begin first"),
    }
}

#[test]
fn every_parsed_event_within_length_bounds() {
    let mut r = ThreadState::new(9, 9, DEFAULT_BUFFER_SIZE, Timer::start());
    let long: Vec<u8> = vec![b'a'; 300];
    assert!(r.begin_scope_with_args(&long, &long).is_none());
    assert!(r.end_scope().is_none());
    let evs = parse_events(r.buffered()).expect("buffer must parse");
    for e in &evs {
        if let Event::Begin(b) = e {
            assert!(b.name.len() <= 255);
            assert!(b.args.len() <= 255);
            assert_eq!(b.name.len(), b.event.name_len as usize);
            assert_eq!(b.args.len(), b.event.args_len as usize);
        }
    }
}

#[test]
fn pad_skip_round_trip() {
    let mut bytes: Vec<u8> = Vec::new();
    let pad = spall::PadSkipEvent { ty: 7, size: 4 };
    spall::codec::push_pad_skip_head(&mut bytes, &pad);
    bytes.extend_from_slice(&[9, 8, 7, 6]);
    let evs = parse_events(&bytes).expect("pad record must parse");
    assert_eq!(evs.len(), 1);
    match &evs[0] {
        Event::Pad(p, body) => {
            assert_eq!(p.size, 4);
            assert_eq!(body.as_slice(), &[9, 8, 7, 6]);
        }
        _ => panic!("expected a PadSkip record"),
    }
}

#[test]
fn parser_rejects_malformed_streams() {
    assert!(parse_events(&[9u8]).is_none());
    assert!(parse_events(&[3u8, 0, 0]).is_none());
    let mut r = ThreadState::new(1, 1, DEFAULT_BUFFER_SIZE, Timer::start());
    assert!(r.begin_scope(b"q").is_none());
    let mut cut = r.buffered().clone();
    cut.pop();
    assert!(parse_events(&cut).is_none());
}

#[test]
fn decimal_rendering() {
    assert_eq!(dec_digits(0), b"0".to_vec());
    assert_eq!(dec_digits(7), b"7".to_vec());
    assert_eq!(dec_digits(1234567890), b"1234567890".to_vec());
    assert_eq!(dec_digits(u64::MAX), format!("{}", u64::MAX).into_bytes());
}

#[test]
fn path_substitution() {
    let (p, fresh) = substitute_path(b"/tmp/out-$.spall", 123);
    assert_eq!(p, b"/tmp/out-123.spall".to_vec());
    assert!(fresh);
    let (p2, fresh2) = substitute_path(b"/tmp/plain.spall", 123);
    assert_eq!(p2, b"/tmp/plain.spall".to_vec());
    assert!(!fresh2);
    let (p3, fresh3) = substitute_path(b"$-$", 5);
    assert_eq!(p3, b"5-5".to_vec());
    assert!(fresh3);
    let (p4, fresh4) = substitute_path(b"", 5);
    assert!(p4.is_empty());
    assert!(!fresh4);
}

#[test]
fn clock_is_monotonic_and_micros_derive_from_nanos() {
    let timer = Timer::start();
    let mut prev: u64 = 0;
    for _ in 0..1000 {
        let t = spall::now(&timer);
        assert!(t >= prev);
        prev = t;
    }
    assert_eq!(spall::clock::micros_of(123_456_789), 123_456);
    let m = spall::clock::unix_micros();
    assert!(m > 1_000_000);
}

#[test]
fn args_render_clamped_to_record_limit() {
    let mut r = ThreadState::new(2, 2, DEFAULT_BUFFER_SIZE, Timer::start());
    let args = vec![b'x'; 400];
    // Even when asked for more than a record can carry, at most 255
    // argument bytes are rendered.
    let n = r.push_args(400, &args);
    assert_eq!(n, 255);
}
