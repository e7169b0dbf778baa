//! From a PipeWire buffer to samples.

use crate::sample::Sample;
use vstd::prelude::*;

verus! {

/// The pattern of four bytes, least significant first.
pub open spec fn little_endian(b: Seq<u8>, at: int) -> int {
    b[at] + 0x100 * b[at + 1] + 0x1_0000 * b[at + 2] + 0x100_0000 * b[at + 3]
}

/// The samples in `size` bytes from `offset` on: none where there are no bytes, where they do
/// not lie within the buffer, or where they do not make up one sample. Bytes after the last
/// whole sample are ignored.
pub open spec fn samples_in_buffer(bytes: Seq<u8>, offset: int, size: int) -> Option<Seq<Sample>> {
    if size < 4 || offset + size > bytes.len() {
        None
    } else {
        Some(
            Seq::new(
                (size / 4) as nat,
                |i: int| little_endian(bytes, offset + 4 * i) as Sample,
            ),
        )
    }
}

/// Reads the valid part of a buffer as samples.
pub fn read_buffer(bytes: &[u8], offset: u32, size: u32) -> (samples: Option<Vec<Sample>>)
    ensures
        match samples {
            Some(v) => samples_in_buffer(bytes@, offset as int, size as int) == Some(v@)
                && v@.len() > 0,
            None => samples_in_buffer(bytes@, offset as int, size as int) is None,
        },
{
    if size == 0 {
        return None;
    }
    let total: u64 = bytes.len() as u64;
    let end: u64 = offset as u64 + size as u64;
    if end > total {
        return None;
    }
    let n: usize = size as usize / 4;
    if n == 0 {
        return None;
    }
    let start: usize = offset as usize;
    let mut out: Vec<Sample> = Vec::new();
    let ghost want = samples_in_buffer(bytes@, offset as int, size as int)->0;
    let mut i: usize = 0;
    while i < n
        invariant
            i <= n,
            n == size as int / 4,
            start == offset,
            size >= 4,
            offset + size <= bytes@.len() <= usize::MAX,
            want == Seq::new(
                (size as int / 4) as nat,
                |k: int| little_endian(bytes@, offset + 4 * k) as Sample,
            ),
            out@ == want.take(i as int),
        decreases n - i,
    {
        let b: usize = start + 4 * i;
        let value: u32 = bytes[b] as u32 + 0x100 * bytes[b + 1] as u32 + 0x1_0000
            * bytes[b + 2] as u32 + 0x100_0000 * bytes[b + 3] as u32;
        assert(value == want[i as int]);
        out.push(value);
        assert(out@ =~= want.take(i + 1));
        i += 1;
    }
    assert(want.take(want.len() as int) =~= want);
    Some(out)
}

/// A buffer whose valid part lies within it and holds at least one sample gives as many samples
/// as fit, in order, each made of its four bytes with the least significant first. Any other
/// buffer gives none.
pub proof fn lemma_four_bytes_make_a_sample(bytes: Seq<u8>, offset: int, size: int, k: int)
    requires
        0 <= offset,
        0 <= k,
        4 * k + 4 <= size,
    ensures
        offset + size <= bytes.len() ==> ({
            let samples = samples_in_buffer(bytes, offset, size);
            &&& samples is Some
            &&& 4 * (samples->0).len() <= size < 4 * (samples->0).len() + 4
            &&& (samples->0)[k] == bytes[offset + 4 * k] + 0x100 * bytes[offset + 4 * k + 1]
                + 0x1_0000 * bytes[offset + 4 * k + 2] + 0x100_0000 * bytes[offset + 4 * k + 3]
        }),
        offset + size > bytes.len() ==> samples_in_buffer(bytes, offset, size) is None,
{
}

/// Less than four bytes are no sample.
pub proof fn lemma_fewer_bytes_make_none(bytes: Seq<u8>, offset: int, size: int)
    requires
        size < 4,
    ensures
        samples_in_buffer(bytes, offset, size) is None,
{
}

/// Samples that were written as bytes are read back as they were.
#[verifier::spinoff_prover]
pub proof fn lemma_bytes_are_read_back(samples: Seq<Sample>, before: Seq<u8>, after: Seq<u8>)
    requires
        samples.len() > 0,
    ensures
        samples_in_buffer(
            before + crate::encode::bytes_of(samples) + after,
            before.len() as int,
            4 * samples.len() as int,
        ) == Some(samples),
{
    let all = before + crate::encode::bytes_of(samples) + after;
    let n = before.len() as int;
    crate::encode::lemma_bytes_give_samples_back(samples, 0);
    let read = samples_in_buffer(all, n, 4 * samples.len() as int)->0;
    assert forall|k: int| 0 <= k < samples.len() implies #[trigger] read[k] == samples[k] by {
        crate::encode::lemma_bytes_give_samples_back(samples, k);
        lemma_four_bytes_make_a_sample(all, n, 4 * samples.len() as int, k);
        let b = crate::encode::bytes_of(samples);
        assert(all[n + 4 * k] == b[4 * k]);
        assert(all[n + 4 * k + 1] == b[4 * k + 1]);
        assert(all[n + 4 * k + 2] == b[4 * k + 2]);
        assert(all[n + 4 * k + 3] == b[4 * k + 3]);
    }
    assert(read =~= samples);
}

} // verus!
