//! The end of a slice: its bins as bytes behind the header, and its frame as a reference.
use vstd::prelude::*;
use crate::bits;
use crate::bits::BitWriter;
use crate::frame::FrameEncoder;
use crate::mbstate::RefFrame;

verus! {

/// What a block without a reference is taken to refer to when edges are filtered.
pub const NO_REF: i32 = i32::MIN;

/// The ones that fill the byte behind `len` bits.
pub open spec fn fill(len: int) -> Seq<bool> {
    Seq::new(((8 - len % 8) % 8) as nat, |i: int| true)
}

/// Append the bytes of an arithmetic coder, from the next whole byte on. The bits up to there
/// are ones.
pub fn append_coded(w: &mut BitWriter, data: &[u8])
    requires
        old(w).wf(),
    ensures
        final(w).wf(),
        final(w)@ == old(w)@ + fill(old(w)@.len() as int) + bits::byte_bits(data@),
        final(w)@.len() % 8 == 0,
{
    let ghost start = w@;
    while !w.is_byte_aligned()
        invariant
            w.wf(),
            start.len() <= w@.len() <= start.len() + (8 - start.len() % 8) % 8,
            w@ == start + Seq::new((w@.len() - start.len()) as nat, |i: int| true),
        decreases start.len() + 8 - w@.len(),
    {
        let ghost n = w@.len() - start.len();
        w.write_bit(true);
        assert(w@ =~= start + Seq::new((n + 1) as nat, |i: int| true));
    }
    let ghost even = w@;
    assert(even =~= start + fill(start.len() as int));
    let mut i: usize = 0;
    while i < data.len()
        invariant
            i <= data@.len(),
            w.wf(),
            w@ == even + bits::byte_bits(data@.take(i as int)),
        decreases data@.len() - i,
    {
        w.write_bits(data[i] as u32, 8);
        proof {
            let a = bits::byte_bits(data@.take(i as int));
            let b = bits::byte_bits(data@.take(i + 1));
            let f = bits::fixed(data@[i as int] as nat, 8);
            assert(b =~= a + f) by {
                assert forall|k: int| 0 <= k < b.len() implies b[k] == (a + f)[k] by {
                    if k < 8 * i {
                        assert(data@.take(i + 1)[k / 8] == data@.take(i as int)[k / 8]);
                    } else {
                        assert(k / 8 == i);
                        assert(k % 8 == k - 8 * i);
                    }
                }
            }
            assert(even + (a + f) =~= even + a + f);
        }
        i = i + 1;
    }
    assert(data@.take(data@.len() as int) =~= data@);
}

/// The references of blocks as the edge filter of an intra or arithmetically coded slice takes
/// them: all blocks without one are alike.
pub fn filter_refs(ref_idx: &[i32]) -> (r: Vec<i32>)
    ensures
        r@.len() == ref_idx@.len(),
        forall|i: int|
            0 <= i < r@.len() ==> #[trigger] r@[i] == (if ref_idx@[i] >= 0 {
                ref_idx@[i]
            } else {
                NO_REF
            }),
{
    let mut r: Vec<i32> = Vec::new();
    let mut i: usize = 0;
    while i < ref_idx.len()
        invariant
            i <= ref_idx@.len(),
            r@.len() == i,
            forall|k: int|
                0 <= k < i ==> #[trigger] r@[k] == (if ref_idx@[k] >= 0 {
                    ref_idx@[k]
                } else {
                    NO_REF
                }),
        decreases ref_idx@.len() - i,
    {
        r.push(if ref_idx[i] >= 0 {
            ref_idx[i]
        } else {
            NO_REF
        });
        i = i + 1;
    }
    r
}

/// A coded frame, its edges filtered, as a reference: its planes and its list-0 motion. Order
/// count and frame number are left to the caller, who knows them.
pub fn into_reference(fe: FrameEncoder) -> (r: RefFrame)
    requires
        fe.wf(),
    ensures
        r.y == fe.rec_y,
        r.u == fe.rec_u,
        r.v == fe.rec_v,
        r.poc == 0,
        r.frame_num == 0,
        r.mv == fe.mv_y,
        r.ref_idx == fe.ref_idx_y,
        r.w4 == 4 * fe.mb_w,
{
    RefFrame {
        w4: fe.mb_w * 4,
        y: fe.rec_y,
        u: fe.rec_u,
        v: fe.rec_v,
        poc: 0,
        frame_num: 0,
        mv: fe.mv_y,
        ref_idx: fe.ref_idx_y,
    }
}

/// Header bits are kept in front of the coded bytes, and the bytes read back from the first
/// whole byte on.
pub proof fn law_coded_bytes_read_back(head: Seq<bool>, data: Seq<u8>, i: int)
    requires
        0 <= i < data.len(),
    ensures
        ({
            let s = head + fill(head.len() as int) + bits::byte_bits(data);
            let p = head.len() + (8 - head.len() as int % 8) % 8;
            &&& s.take(head.len() as int) == head
            &&& bits::read_fixed(s, p + 8 * i, 8) == data[i]
        }),
{
    let s = head + fill(head.len() as int) + bits::byte_bits(data);
    let p = head.len() + (8 - head.len() as int % 8) % 8;
    assert(s.take(head.len() as int) =~= head);
    vstd::arithmetic::power2::lemma2_to64();
    let f = bits::fixed(data[i] as nat, 8);
    assert(bits::stands_at(s, p + 8 * i, f)) by {
        assert forall|k: int| 0 <= k < 8 implies #[trigger] s[p + 8 * i + k] == f[k] by {
            assert((8 * i + k) / 8 == i);
            assert((8 * i + k) % 8 == k);
        }
    }
    bits::law_fixed(s, p + 8 * i, data[i] as nat, 8);
}

} // verus!
