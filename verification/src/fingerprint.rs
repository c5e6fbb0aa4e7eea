//! The content fingerprint of a file: a digest of samples taken at fixed
//! places of the file, as the reader computes it, so that files, metadata
//! folders and statistics can be joined by it.

use vstd::prelude::*;
use crate::scanner::is_lower_fingerprint;
use crate::text::ascii_lower;

verus! {

/// What `md5::compute` returns for the data, written as `{:x}` writes it: the
/// MD5 digest in hexadecimal.
pub uninterp spec fn md5_hex_of(data: Seq<u8>) -> Seq<char>;

/// Calls `md5::compute` and formats the digest with `{:x}`. The contract
/// names the result and adds what the digest's formatting shows: sixteen
/// bytes, each written as two lowercase hexadecimal digits.
#[verifier::external_body]
fn md5_hex(data: &Vec<u8>) -> (r: String)
    ensures
        r@ == md5_hex_of(data@),
        is_lower_fingerprint(r@),
{
    format!("{:x}", md5::compute(data))
}

/// The number of places at which a file is sampled.
pub const SAMPLE_COUNT: usize = 12;

/// The most bytes taken at one place.
pub const SAMPLE_SIZE: u64 = 1024;

/// Where the `k`-th sample begins: at 0, at 1024, and from there on at four
/// times the place before, up to 2^30.
pub open spec fn sample_offset(k: nat) -> nat
    decreases k,
{
    if k == 0 {
        0
    } else if k == 1 {
        1024
    } else {
        4 * sample_offset((k - 1) as nat)
    }
}

/// A range of a file to read.
#[derive(Debug, Clone, Copy, PartialEq, Eq, Structural)]
pub struct SampleRange {
    pub offset: u64,
    pub length: u64,
}

/// The `k`-th sample of a file of the given length: up to 1024 bytes from its
/// place, or nothing where the file ends before it.
pub open spec fn sample_range(len: nat, k: nat) -> Option<(nat, nat)> {
    if sample_offset(k) < len {
        Some(
            (
                sample_offset(k),
                if len - sample_offset(k) < 1024 {
                    (len - sample_offset(k)) as nat
                } else {
                    1024nat
                },
            ),
        )
    } else {
        None
    }
}

/// The ranges of the first `k` samples that lie within the file.
pub open spec fn plan_upto(len: nat, k: nat) -> Seq<(nat, nat)>
    decreases k,
{
    if k == 0 {
        Seq::empty()
    } else {
        let before = plan_upto(len, (k - 1) as nat);
        match sample_range(len, (k - 1) as nat) {
            Some(r) => before.push(r),
            None => before,
        }
    }
}

/// The bytes of the `k`-th sample of a content.
pub open spec fn sample_of(content: Seq<u8>, k: nat) -> Seq<u8> {
    match sample_range(content.len(), k) {
        Some(r) => content.subrange(r.0 as int, (r.0 + r.1) as int),
        None => Seq::empty(),
    }
}

/// The first `k` samples of a content, in a row.
pub open spec fn sampled_upto(content: Seq<u8>, k: nat) -> Seq<u8>
    decreases k,
{
    if k == 0 {
        Seq::empty()
    } else {
        sampled_upto(content, (k - 1) as nat) + sample_of(content, (k - 1) as nat)
    }
}

/// All that is sampled of a content: what the fingerprint depends on.
pub open spec fn sampled(content: Seq<u8>) -> Seq<u8> {
    sampled_upto(content, 12)
}

/// The fingerprint of a content: the digest of its samples.
pub open spec fn fingerprint_of(content: Seq<u8>) -> Seq<char> {
    md5_hex_of(sampled(content))
}

/// The ranges as plain pairs.
pub open spec fn range_views(s: Seq<SampleRange>) -> Seq<(nat, nat)> {
    s.map_values(|r: SampleRange| (r.offset as nat, r.length as nat))
}

/// The sample places lie below 2^30 and grow from the second on.
pub proof fn lemma_sample_offsets(k: nat)
    requires
        k < 12,
    ensures
        sample_offset(k) <= 1073741824,
        k >= 1 ==> sample_offset(k) >= 1024 && sample_offset(k) > sample_offset((k - 1) as nat),
    decreases k,
{
    reveal_with_fuel(sample_offset, 13);
}

/// The ranges to read of a file of `len` bytes, in order.
pub fn sample_plan(len: u64) -> (r: Vec<SampleRange>)
    ensures
        range_views(r@) == plan_upto(len as nat, 12),
        forall|i: int|
            0 <= i < r.len() ==> (#[trigger] r@[i]).offset + r@[i].length <= len && r@[i].length
                <= 1024 && r@[i].length > 0,
{
    let mut r: Vec<SampleRange> = Vec::new();
    let mut offset: u64 = 0;
    let mut k: usize = 0;
    assert(range_views(r@) =~= plan_upto(len as nat, 0));
    while k < SAMPLE_COUNT
        invariant
            k <= 12,
            offset as nat == sample_offset(k as nat),
            range_views(r@) == plan_upto(len as nat, k as nat),
            forall|i: int|
                0 <= i < r.len() ==> (#[trigger] r@[i]).offset + r@[i].length <= len
                    && r@[i].length <= 1024 && r@[i].length > 0,
        decreases 12 - k,
    {
        proof {
            lemma_sample_offsets(k as nat);
            if k + 1 < 12 {
                lemma_sample_offsets((k + 1) as nat);
            }
        }
        if offset < len {
            let rest = len - offset;
            let length = if rest < SAMPLE_SIZE {
                rest
            } else {
                SAMPLE_SIZE
            };
            let ghost before = range_views(r@);
            r.push(SampleRange { offset, length });
            assert(range_views(r@) =~= before.push((offset as nat, length as nat)));
        }
        offset = if k == 0 {
            1024
        } else {
            offset * 4
        };
        k += 1;
    }
    r
}

/// The bytes `content[from..from + length]`, appended to `out`.
fn append_range(out: &mut Vec<u8>, content: &Vec<u8>, from: usize, length: usize)
    requires
        from + length <= content.len(),
    ensures
        final(out)@ == old(out)@ + content@.subrange(from as int, from + length),
{
    let mut i: usize = 0;
    while i < length
        invariant
            i <= length,
            from + length <= content.len(),
            out@ == old(out)@ + content@.subrange(from as int, from + i),
        decreases length - i,
    {
        out.push(content[from + i]);
        i += 1;
        assert(out@ =~= old(out)@ + content@.subrange(from as int, from + i));
    }
}

/// The sampled bytes of a content held in memory.
pub fn sample_bytes(content: &Vec<u8>) -> (r: Vec<u8>)
    ensures
        r@ == sampled(content@),
{
    let mut r: Vec<u8> = Vec::new();
    let mut offset: usize = 0;
    let mut k: usize = 0;
    let len = content.len();
    while k < SAMPLE_COUNT
        invariant
            k <= 12,
            len == content.len(),
            k < 12 ==> offset as nat == sample_offset(k as nat),
            r@ == sampled_upto(content@, k as nat),
        decreases 12 - k,
    {
        proof {
            lemma_sample_offsets(k as nat);
            if k + 1 < 12 {
                lemma_sample_offsets((k + 1) as nat);
            }
        }
        if offset < len {
            let rest = len - offset;
            let length: usize = if rest < 1024 {
                rest
            } else {
                1024
            };
            append_range(&mut r, content, offset, length);
        } else {
            assert(r@ + Seq::<u8>::empty() =~= r@);
        }
        if k + 1 < SAMPLE_COUNT {
            offset = if k == 0 {
                1024
            } else {
                offset * 4
            };
        }
        k += 1;
    }
    r
}

/// All the samples in a row.
pub open spec fn concatenated(samples: Seq<Vec<u8>>) -> Seq<u8>
    decreases samples.len(),
{
    if samples.len() == 0 {
        Seq::empty()
    } else {
        concatenated(samples.drop_last()) + samples.last()@
    }
}

/// The fingerprint of a file from the samples that were read of it, in the
/// order of the plan.
pub fn fingerprint_of_samples(samples: &Vec<Vec<u8>>) -> (r: String)
    ensures
        r@ == md5_hex_of(concatenated(samples@)),
        is_lower_fingerprint(r@),
{
    let mut all: Vec<u8> = Vec::new();
    let mut i: usize = 0;
    while i < samples.len()
        invariant
            i <= samples.len(),
            all@ == concatenated(samples@.take(i as int)),
        decreases samples.len() - i,
    {
        proof {
            assert(samples@.take(i + 1).drop_last() =~= samples@.take(i as int));
            assert(samples@[i as int]@.subrange(0, samples@[i as int]@.len() as int)
                =~= samples@[i as int]@);
        }
        append_range(&mut all, &samples[i], 0, samples[i].len());
        i += 1;
    }
    assert(samples@.take(samples.len() as int) =~= samples@);
    md5_hex(&all)
}

/// The fingerprint of a content held in memory.
pub fn calculate_partial_md5(content: &Vec<u8>) -> (r: String)
    ensures
        r@ == fingerprint_of(content@),
        is_lower_fingerprint(r@),
{
    let bytes = sample_bytes(content);
    md5_hex(&bytes)
}

/// A fingerprint is its own lowercase form.
pub proof fn lemma_fingerprint_is_lowercase(h: Seq<char>)
    requires
        is_lower_fingerprint(h),
    ensures
        ascii_lower(h) == h,
{
    assert(ascii_lower(h) =~= h);
}

/// Contents with the same samples have the same fingerprint; so have, all
/// the more, two copies of one content.
pub proof fn lemma_same_samples_same_fingerprint(a: Seq<u8>, b: Seq<u8>)
    requires
        sampled(a) == sampled(b),
    ensures
        fingerprint_of(a) == fingerprint_of(b),
{
}

/// The first `k` samples of two contents of one length are equally long.
proof fn lemma_sampled_len(a: Seq<u8>, b: Seq<u8>, k: nat)
    requires
        a.len() == b.len(),
    ensures
        sampled_upto(a, k).len() == sampled_upto(b, k).len(),
    decreases k,
{
    if k > 0 {
        lemma_sampled_len(a, b, (k - 1) as nat);
    }
}

/// The byte at a sampled place is found again among the samples.
proof fn lemma_sampled_holds(a: Seq<u8>, k: nat, j: nat, p: int)
    requires
        k < j <= 12,
        sample_offset(k) <= p < sample_offset(k) + 1024,
        p < a.len(),
    ensures
        sampled_upto(a, k).len() + (p - sample_offset(k)) < sampled_upto(a, j).len(),
        sampled_upto(a, j)[sampled_upto(a, k).len() + (p - sample_offset(k))] == a[p],
    decreases j,
{
    if j > k + 1 {
        lemma_sampled_holds(a, k, (j - 1) as nat, p);
    }
}

/// What the fingerprint digests differs for two contents of one length that
/// differ at a sampled place.
pub proof fn lemma_sampled_place_matters(a: Seq<u8>, b: Seq<u8>, k: nat, p: int)
    requires
        a.len() == b.len(),
        k < 12,
        sample_offset(k) <= p < sample_offset(k) + 1024,
        p < a.len(),
        a[p] != b[p],
    ensures
        sampled(a) != sampled(b),
{
    lemma_sampled_len(a, b, k);
    lemma_sampled_holds(a, k, 12, p);
    lemma_sampled_holds(b, k, 12, p);
}

/// What the ranges cut out of a content, in a row.
pub open spec fn cut(content: Seq<u8>, ranges: Seq<(nat, nat)>) -> Seq<u8>
    decreases ranges.len(),
{
    if ranges.len() == 0 {
        Seq::empty()
    } else {
        cut(content, ranges.drop_last()) + content.subrange(
            ranges.last().0 as int,
            (ranges.last().0 + ranges.last().1) as int,
        )
    }
}

/// Reading the ranges of the plan, in order, gives what is sampled of a
/// content: a file can be fingerprinted from those ranges alone.
pub proof fn lemma_plan_cuts_samples(content: Seq<u8>, k: nat)
    ensures
        cut(content, plan_upto(content.len(), k)) == sampled_upto(content, k),
    decreases k,
{
    if k > 0 {
        lemma_plan_cuts_samples(content, (k - 1) as nat);
        let before = plan_upto(content.len(), (k - 1) as nat);
        match sample_range(content.len(), (k - 1) as nat) {
            Some(r) => {
                assert(before.push(r).drop_last() =~= before);
            },
            None => {
                assert(sampled_upto(content, (k - 1) as nat) + Seq::<u8>::empty()
                    =~= sampled_upto(content, (k - 1) as nat));
            },
        }
    }
}

} // verus!
