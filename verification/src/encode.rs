//! Samples as bytes: binary32 as it is, or as signed 16-bit integers, both with the least
//! significant byte first.

use crate::arith::to_i16;
use crate::sample::Sample;
use vstd::prelude::*;

verus! {

/// The four bytes of a sample, the least significant first.
pub open spec fn sample_bytes(s: Sample) -> Seq<u8> {
    seq![
        (s as int % 0x100) as u8,
        (s as int / 0x100 % 0x100) as u8,
        (s as int / 0x1_0000 % 0x100) as u8,
        (s as int / 0x100_0000) as u8,
    ]
}

/// The bytes of samples, one after the other.
pub open spec fn bytes_of(samples: Seq<Sample>) -> Seq<u8>
    decreases samples.len(),
{
    if samples.len() == 0 {
        seq![]
    } else {
        bytes_of(samples.drop_last()) + sample_bytes(samples.last())
    }
}

/// The bytes of samples, one after the other.
pub fn little_endian(samples: &[Sample]) -> (bytes: Vec<u8>)
    ensures
        bytes@ == bytes_of(samples@),
{
    let mut bytes: Vec<u8> = Vec::new();
    let mut i: usize = 0;
    assert(samples@.take(0) =~= seq![]);
    while i < samples.len()
        invariant
            i <= samples@.len(),
            bytes@ == bytes_of(samples@.take(i as int)),
        decreases samples.len() - i,
    {
        let s: Sample = samples[i];
        let ghost before = bytes@;
        bytes.push((s % 0x100) as u8);
        bytes.push((s / 0x100 % 0x100) as u8);
        bytes.push((s / 0x1_0000 % 0x100) as u8);
        bytes.push((s / 0x100_0000) as u8);
        proof {
            assert(samples@.take(i + 1).drop_last() =~= samples@.take(i as int));
            assert(bytes@ =~= before + sample_bytes(s));
        }
        i += 1;
    }
    assert(samples@.take(samples@.len() as int) =~= samples@);
    bytes
}

/// Every sample takes four bytes, and they give it back: the bytes of the `k`-th sample stand
/// at the places from `4 k` on.
#[verifier::spinoff_prover]
pub proof fn lemma_bytes_give_samples_back(samples: Seq<Sample>, k: int)
    requires
        0 <= k < samples.len(),
    ensures
        bytes_of(samples).len() == 4 * samples.len(),
        samples[k] == bytes_of(samples)[4 * k] + 0x100 * bytes_of(samples)[4 * k + 1] + 0x1_0000
            * bytes_of(samples)[4 * k + 2] + 0x100_0000 * bytes_of(samples)[4 * k + 3],
    decreases samples.len(),
{
    lemma_bytes_len(samples);
    lemma_bytes_len(samples.drop_last());
    if k < samples.len() - 1 {
        lemma_bytes_give_samples_back(samples.drop_last(), k);
    } else {
        let s = samples[k] as int;
        lemma_bytes_add_up(s);
    }
}

#[verifier::spinoff_prover]
proof fn lemma_bytes_add_up(s: int)
    requires
        0 <= s < 0x1_0000_0000,
    ensures
        s == s % 0x100 + 0x100 * (s / 0x100 % 0x100) + 0x1_0000 * (s / 0x1_0000 % 0x100)
            + 0x100_0000 * (s / 0x100_0000),
        s / 0x100_0000 <= 0xff,
{
    let a = s / 0x100;
    let b = a / 0x100;
    let c = b / 0x100;
    assert(s / 0x1_0000 == b);
    assert(s / 0x100_0000 == c);
    assert(s == s % 0x100 + 0x100 * a);
    assert(a == a % 0x100 + 0x100 * b);
    assert(b == b % 0x100 + 0x100 * c);
}

proof fn lemma_bytes_len(samples: Seq<Sample>)
    ensures
        bytes_of(samples).len() == 4 * samples.len(),
    decreases samples.len(),
{
    if samples.len() > 0 {
        lemma_bytes_len(samples.drop_last());
    }
}

/// The two bytes of a signed 16-bit integer, the least significant first.
pub open spec fn short_bytes(v: int) -> Seq<u8> {
    let u = if v < 0 {
        v + 0x1_0000
    } else {
        v
    };
    seq![(u % 0x100) as u8, (u / 0x100) as u8]
}

/// The bytes of samples as 16-bit integers, one after the other.
pub open spec fn short_bytes_of(samples: Seq<Sample>) -> Seq<u8>
    decreases samples.len(),
{
    if samples.len() == 0 {
        seq![]
    } else {
        short_bytes_of(samples.drop_last()) + short_bytes(
            crate::arith::quantized(samples.last()),
        )
    }
}

/// The bytes of samples as 16-bit integers.
pub fn little_endian_shorts(samples: &[Sample]) -> (bytes: Vec<u8>)
    ensures
        bytes@ == short_bytes_of(samples@),
{
    let mut bytes: Vec<u8> = Vec::new();
    let mut i: usize = 0;
    assert(samples@.take(0) =~= seq![]);
    while i < samples.len()
        invariant
            i <= samples@.len(),
            bytes@ == short_bytes_of(samples@.take(i as int)),
        decreases samples.len() - i,
    {
        let v: i16 = to_i16(samples[i]);
        let u: u32 = if v < 0 {
            (v as i32 + 0x1_0000) as u32
        } else {
            v as u32
        };
        let ghost before = bytes@;
        bytes.push((u % 0x100) as u8);
        bytes.push((u / 0x100) as u8);
        proof {
            assert(samples@.take(i + 1).drop_last() =~= samples@.take(i as int));
            assert(bytes@ =~= before + short_bytes(v as int));
        }
        i += 1;
    }
    assert(samples@.take(samples@.len() as int) =~= samples@);
    bytes
}

/// Every sample takes two bytes as a 16-bit integer.
pub proof fn lemma_two_bytes_each(samples: Seq<Sample>)
    ensures
        short_bytes_of(samples).len() == 2 * samples.len(),
    decreases samples.len(),
{
    if samples.len() > 0 {
        lemma_two_bytes_each(samples.drop_last());
    }
}

/// The two bytes of a number give it back, the first one counting units and the second one 256s,
/// with a negative number 65536 below.
#[verifier::spinoff_prover]
pub proof fn lemma_two_bytes_give_the_number_back(v: int)
    requires
        -0x8000 <= v <= 0x7fff,
    ensures
        short_bytes(v).len() == 2,
        short_bytes(v)[0] + 0x100 * short_bytes(v)[1] == (if v < 0 {
            v + 0x1_0000
        } else {
            v
        }),
{
}

/// The bytes of samples as 16-bit integers hold the samples in order, two bytes each.
pub proof fn lemma_shorts_are_in_order(samples: Seq<Sample>, k: int)
    requires
        0 <= k < samples.len(),
    ensures
        short_bytes_of(samples).len() == 2 * samples.len(),
        short_bytes_of(samples).subrange(2 * k, 2 * k + 2) == short_bytes(
            crate::arith::quantized(samples[k]),
        ),
    decreases samples.len(),
{
    lemma_two_bytes_each(samples);
    lemma_two_bytes_each(samples.drop_last());
    let last = short_bytes(crate::arith::quantized(samples.last()));
    assert(short_bytes_of(samples) == short_bytes_of(samples.drop_last()) + last);
    if k < samples.len() - 1 {
        lemma_shorts_are_in_order(samples.drop_last(), k);
        assert(short_bytes_of(samples).subrange(2 * k, 2 * k + 2) =~= short_bytes_of(
            samples.drop_last(),
        ).subrange(2 * k, 2 * k + 2));
    } else {
        assert(short_bytes_of(samples).subrange(2 * k, 2 * k + 2) =~= last);
    }
}

} // verus!
