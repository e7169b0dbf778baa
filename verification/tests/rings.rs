use flexaudio::backend::{CaptureBackend, RawSink};
use flexaudio::chunk_ring::{chunk_ring, ChunkQueue};
use flexaudio::raw_ring::raw_ring;
use flexaudio::types::{AudioChunk, ChunkFlags, Error};

fn bits(values: &[f32]) -> Vec<u32> {
    values.iter().map(|v| v.to_bits()).collect()
}

fn chunk(seq: u64) -> AudioChunk {
    AudioChunk {
        data: vec![0.0f32.to_bits(); 1920],
        frames: 960,
        pts_ns: seq as i64 * 20_000_000,
        seq,
        flags: ChunkFlags::empty(),
        dropped_before: 0,
        peak: 0,
        rms: 0,
    }
}

#[test]
fn push_and_pop_roundtrip() {
    let (mut p, mut c) = raw_ring(16);
    let n = p.push_slice(&bits(&[1.0, 2.0, 3.0, 4.0]));
    assert_eq!(n, 4);
    let mut out = [0u32; 4];
    let got = c.pop_slice(&mut out);
    assert_eq!(got, 4);
    assert_eq!(out.to_vec(), bits(&[1.0, 2.0, 3.0, 4.0]));
    assert_eq!(p.overflow_count(), 0);
}

#[test]
fn overflow_counts_dropped_and_never_blocks() {
    let (mut p, mut c) = raw_ring(4);
    let written = p.push_slice(&bits(&[1.0, 2.0, 3.0, 4.0, 5.0, 6.0]));
    assert_eq!(written, 4);
    assert_eq!(p.overflow_count(), 2);
    assert_eq!(c.overflow_count(), 2);

    let mut out = [0u32; 8];
    let got = c.pop_slice(&mut out);
    assert_eq!(got, 4);
    assert_eq!(out[..4].to_vec(), bits(&[1.0, 2.0, 3.0, 4.0]));
}

#[test]
fn wraps_around() {
    let (mut p, mut c) = raw_ring(4);
    p.push_slice(&bits(&[1.0, 2.0, 3.0]));
    let mut out = [0u32; 2];
    c.pop_slice(&mut out);
    assert_eq!(out.to_vec(), bits(&[1.0, 2.0]));
    let w = p.push_slice(&bits(&[4.0, 5.0, 6.0]));
    assert_eq!(w, 3);
    let mut out2 = [0u32; 4];
    let got = c.pop_slice(&mut out2);
    assert_eq!(got, 4);
    assert_eq!(out2.to_vec(), bits(&[3.0, 4.0, 5.0, 6.0]));
}

#[test]
fn push_empty_is_noop() {
    let (mut p, _c) = raw_ring(4);
    assert_eq!(p.push_slice(&[]), 0);
    assert_eq!(p.overflow_count(), 0);
}

#[test]
fn full_ring_drops_entire_push() {
    let (mut p, _c) = raw_ring(4);
    assert_eq!(p.push_slice(&bits(&[1.0, 2.0, 3.0, 4.0])), 4);
    let w = p.push_slice(&[5.0f32.to_bits(); 5]);
    assert_eq!(w, 0);
    assert_eq!(p.overflow_count(), 5);
}

#[test]
fn pop_slice_respects_available_and_dst_len() {
    let (mut p, mut c) = raw_ring(8);
    p.push_slice(&bits(&[1.0, 2.0, 3.0]));
    assert_eq!(c.available(), 3);
    let mut big = [0u32; 16];
    assert_eq!(c.pop_slice(&mut big), 3);
    assert_eq!(big[..3].to_vec(), bits(&[1.0, 2.0, 3.0]));
    assert_eq!(c.available(), 0);
    assert_eq!(c.pop_slice(&mut big), 0);
}

#[test]
fn overflow_counter_exceeds_u32_max() {
    let (mut p, _c) = raw_ring(1);
    assert_eq!(p.push_slice(&bits(&[0.0])), 1);
    let big = vec![0.0f32.to_bits(); 1000];
    let over_u32 = u64::from(u32::MAX) + 2_000;
    let mut total_dropped = 0u64;
    while total_dropped < over_u32 {
        let w = p.push_slice(&big);
        assert_eq!(w, 0);
        total_dropped += big.len() as u64;
    }
    assert!(p.overflow_count() > u64::from(u32::MAX));
}

#[test]
fn single_pop_is_fifo_then_none() {
    let (mut p, mut c) = raw_ring(4);
    p.push_slice(&bits(&[10.0, 20.0]));
    assert_eq!(c.pop(), Some(10.0f32.to_bits()));
    assert_eq!(c.pop(), Some(20.0f32.to_bits()));
    assert_eq!(c.pop(), None);
}

#[test]
fn zero_capacity_is_clamped_to_one() {
    let (mut p, mut c) = raw_ring(0);
    assert_eq!(p.push_slice(&bits(&[7.0, 8.0])), 1);
    assert_eq!(p.overflow_count(), 1);
    assert_eq!(c.pop(), Some(7.0f32.to_bits()));
}

#[test]
fn overflow_count_is_shared_between_ends() {
    let (mut p, c) = raw_ring(2);
    p.push_slice(&bits(&[1.0, 2.0, 3.0, 4.0]));
    assert_eq!(p.overflow_count(), 2);
    assert_eq!(c.overflow_count(), 2);
}

#[test]
fn samples_leave_in_the_order_they_came() {
    let (mut p, mut c) = raw_ring(64);
    let mut read: Vec<u32> = Vec::new();
    let mut next = 0u32;
    while read.len() < 1000 {
        let block: Vec<u32> = (next..next + 7).collect();
        next += p.push_slice(&block) as u32;
        let mut buf = [0u32; 5];
        let n = c.pop_slice(&mut buf);
        read.extend_from_slice(&buf[..n]);
    }
    for (i, s) in read.iter().enumerate() {
        assert_eq!(*s, i as u32);
    }
}

#[test]
fn fifo_order_when_not_full() {
    let (mut p, mut c) = chunk_ring(4);
    assert!(c.is_empty());
    for s in 0..3 {
        assert_eq!(p.push(chunk(s)), None);
    }
    assert_eq!(c.len(), 3);
    assert_eq!(c.try_pop().unwrap().seq, 0);
    assert_eq!(c.try_pop().unwrap().seq, 1);
    assert_eq!(c.try_pop().unwrap().seq, 2);
    assert!(c.try_pop().is_none());
}

#[test]
fn drop_oldest_when_full_and_counts() {
    let (mut p, mut c) = chunk_ring(2);
    assert_eq!(p.push(chunk(0)), None);
    assert_eq!(p.push(chunk(1)), None);
    assert_eq!(p.dropped_count(), 0);

    let dropped_total = p.push(chunk(2));
    assert_eq!(dropped_total, Some(1));
    assert_eq!(p.dropped_count(), 1);

    let dropped_total = p.push(chunk(3));
    assert_eq!(dropped_total, Some(2));
    assert_eq!(p.dropped_count(), 2);

    let first = c.try_pop().unwrap();
    assert_eq!(first.seq, 2);
    assert_eq!(first.dropped_before, 1);

    let second = c.try_pop().unwrap();
    assert_eq!(second.seq, 3);
    assert_eq!(second.dropped_before, 2);

    assert!(c.try_pop().is_none());
}

#[test]
fn dropped_before_is_cumulative() {
    let (mut p, mut c) = chunk_ring(1);
    p.push(chunk(0));
    p.push(chunk(1));
    c.try_pop();
    let r = p.push(chunk(2));
    assert_eq!(r, None);
    let got = c.try_pop().unwrap();
    assert_eq!(got.seq, 2);
    assert_eq!(got.dropped_before, 1);
    assert_eq!(p.dropped_count(), 1);
}

#[test]
fn queue_counts_every_chunk() {
    let mut q = ChunkQueue::new(3);
    for s in 0..10 {
        q.push(chunk(s));
    }
    assert_eq!(q.len(), 3);
    assert_eq!(q.dropped_count(), 7);
    assert_eq!(q.try_pop().unwrap().seq, 7);
    assert_eq!(q.try_pop().unwrap().seq, 8);
    assert_eq!(q.try_pop().unwrap().seq, 9);
    assert!(q.try_pop().is_none());
    assert_eq!(q.len(), 0);
}

#[test]
fn what_a_read_leaves_is_available() {
    let (mut p, mut c) = raw_ring(8);
    assert_eq!(c.available(), 0);
    p.push_slice(&bits(&[1.0, 2.0, 3.0, 4.0]));
    let mut two = [0u32; 2];
    assert_eq!(c.pop_slice(&mut two), 2);
    assert_eq!(c.available(), 2);
    assert_eq!(c.pop(), Some(3.0f32.to_bits()));
    assert_eq!(c.available(), 1);
    p.push_slice(&bits(&[5.0]));
    assert_eq!(c.available(), 2);
}

#[test]
fn the_producer_counts_what_it_gives_up() {
    let (mut p, mut c) = chunk_ring(2);
    assert!(c.is_empty());
    for s in 0..5 {
        p.push(chunk(s));
    }
    assert_eq!(p.dropped_count(), 3);
    assert_eq!(c.dropped_count(), 3);
    assert_eq!(c.len(), 2);
    c.try_pop();
    p.push(chunk(5));
    assert_eq!(p.dropped_count(), 3);
    assert!(!c.is_empty());
}

#[test]
fn the_ends_share_the_count_of_drops() {
    let (mut p, c) = chunk_ring(1);
    p.push(chunk(0));
    p.push(chunk(1));
    assert_eq!(c.dropped_count(), 1);
    assert_eq!(c.len(), 1);
}

struct DummyBackend {
    sink: Option<RawSink>,
}

impl CaptureBackend for DummyBackend {
    fn native_format(&self) -> (u32, u16) {
        (44_100, 2)
    }
    fn start(&mut self, mut sink: RawSink) -> Result<(), Error> {
        assert_eq!(sink.native_rate(), 44_100);
        assert_eq!(sink.native_channels(), 2);
        sink.push(&bits(&[0.1, 0.2, 0.3, 0.4]), 0);
        self.sink = Some(sink);
        Ok(())
    }
    fn stop(&mut self) {
        self.sink = None;
    }
}

#[test]
fn backend_pushes_into_raw_ring() {
    let (prod, mut cons) = raw_ring(16);
    let sink = RawSink::new(prod, 44_100, 2);
    let mut be = DummyBackend { sink: None };
    assert_eq!(be.native_format(), (44_100, 2));
    be.start(sink).unwrap();

    let mut out = [0u32; 4];
    let got = cons.pop_slice(&mut out);
    assert_eq!(got, 4);
    assert_eq!(out.to_vec(), bits(&[0.1, 0.2, 0.3, 0.4]));
    be.stop();
}

#[test]
fn sink_counts_what_does_not_fit() {
    let (prod, _cons) = raw_ring(2);
    let mut sink = RawSink::new(prod, 48_000, 1);
    assert_eq!(sink.push(&[1, 2, 3], 0), 2);
    assert_eq!(sink.push(&[4], 0), 0);
    assert_eq!(sink.overflow_count(), 2);
}

#[test]
fn the_last_pushed_come_out_in_order() {
    for capacity in 0..4usize {
        for n in 0..7u64 {
            let (mut p, mut c) = chunk_ring(capacity);
            for s in 0..n {
                p.push(chunk(s));
            }
            let held = n.min(capacity.max(1) as u64);
            assert_eq!(p.dropped_count(), n - held);
            for k in 0..held {
                assert_eq!(c.len() as u64, held - k);
                let got = c.try_pop().unwrap();
                let expected = n - held + k;
                assert_eq!(got.seq, expected);
                let given_up = (expected + 1).saturating_sub(capacity.max(1) as u64);
                assert_eq!(u64::from(got.dropped_before), given_up);
                assert_eq!(c.dropped_count(), n - held);
            }
            assert!(c.try_pop().is_none());
            assert!(c.is_empty());
        }
    }
}

#[test]
fn samples_arrive_in_order_whatever_the_turns() {
    let (mut p, mut c) = raw_ring(5);
    let mut sent: Vec<u32> = Vec::new();
    let mut got: Vec<u32> = Vec::new();
    let mut next = 0u32;
    for turn in 0..40usize {
        let slice: Vec<u32> = (next..next + (turn % 4) as u32).collect();
        next += slice.len() as u32;
        let n = p.push_slice(&slice);
        sent.extend_from_slice(&slice[..n]);
        let mut dst = vec![7u32; turn % 3];
        let before = c.available();
        let n = c.pop_slice(&mut dst);
        assert_eq!(n, before.min(turn % 3));
        got.extend_from_slice(&dst[..n]);
        assert_eq!(got, sent[..got.len()].to_vec());
        assert_eq!(c.available(), sent.len() - got.len());
    }
}

#[test]
fn the_count_is_left_with_the_chunks() {
    let (mut p, mut c) = chunk_ring(1);
    assert_eq!(c.dropped_count(), 0);
    for s in 0..4 {
        p.push(chunk(s));
        assert_eq!(c.dropped_count(), s);
        assert_eq!(p.dropped_count(), s);
    }
    assert_eq!(u64::from(c.try_pop().unwrap().dropped_before), c.dropped_count());
    assert_eq!(c.dropped_count(), 3);
    assert!(c.is_empty());
    p.push(chunk(4));
    assert_eq!(c.dropped_count(), 3);
    assert!(!c.is_empty());
}
