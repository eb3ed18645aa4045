//! Peeling a received datagram into segments of a given stride.
//!
//! A batched read can hand back several coalesced packets in one buffer,
//! annotated with the stride at which they were packed. The receive pipeline
//! peels segments of `stride` bytes off the front until the buffer is empty;
//! only the final segment may be shorter.

use vstd::prelude::*;

verus! {

/// Concatenation of a sequence of byte segments.
pub open spec fn concat_segments(segs: Seq<Seq<u8>>) -> Seq<u8>
    decreases segs.len(),
{
    if segs.len() == 0 {
        Seq::empty()
    } else {
        segs[0] + concat_segments(segs.drop_first())
    }
}

/// Appending a segment appends exactly its bytes to the concatenation.
pub proof fn lemma_concat_push(s: Seq<Seq<u8>>, x: Seq<u8>)
    ensures
        concat_segments(s.push(x)) == concat_segments(s) + x,
    decreases s.len(),
{
    if s.len() == 0 {
        assert(s.push(x).drop_first() =~= Seq::<Seq<u8>>::empty());
        assert(s.push(x)[0] + concat_segments(s.push(x).drop_first()) =~= x);
        assert(concat_segments(s) + x =~= x);
    } else {
        assert(s.push(x).drop_first() =~= s.drop_first().push(x));
        lemma_concat_push(s.drop_first(), x);
        assert(s.push(x)[0] + concat_segments(s.push(x).drop_first())
            =~= s[0] + concat_segments(s.drop_first()) + x);
    }
}

/// The views of a vector of byte buffers.
pub open spec fn seg_views(segs: Seq<Vec<u8>>) -> Seq<Seq<u8>> {
    segs.map_values(|v: Vec<u8>| v@)
}

/// Split a buffer into segments of `stride` bytes, in order; only the last
/// segment may be shorter, and no segment is empty. The segments concatenate
/// back to the buffer.
pub fn split_segments(data: &Vec<u8>, stride: usize) -> (segs: Vec<Vec<u8>>)
    requires
        stride >= 1,
    ensures
        concat_segments(seg_views(segs@)) == data@,
        forall|i: int| 0 <= i < segs@.len() ==> 1 <= (#[trigger] segs@[i])@.len() <= stride,
        forall|i: int| 0 <= i < segs@.len() - 1 ==> (#[trigger] segs@[i])@.len() == stride,
        (segs@.len() == 0) == (data@.len() == 0),
{
    let mut segs: Vec<Vec<u8>> = Vec::new();
    let mut pos: usize = 0;
    while pos < data.len()
        invariant
            stride >= 1,
            pos <= data.len(),
            concat_segments(seg_views(segs@)) == data@.take(pos as int),
            forall|i: int| 0 <= i < segs@.len() ==> 1 <= (#[trigger] segs@[i])@.len() <= stride,
            forall|i: int| 0 <= i < segs@.len() - 1 ==> (#[trigger] segs@[i])@.len() == stride,
            pos < data.len() ==> forall|i: int|
                0 <= i < segs@.len() ==> (#[trigger] segs@[i])@.len() == stride,
            (segs@.len() == 0) ==> pos == 0,
        decreases data.len() - pos,
    {
        let take: usize = if data.len() - pos < stride {
            data.len() - pos
        } else {
            stride
        };
        let mut seg: Vec<u8> = Vec::new();
        let mut j: usize = 0;
        while j < take
            invariant
                pos + take <= data.len(),
                j <= take,
                seg@ == data@.subrange(pos as int, pos + j),
            decreases take - j,
        {
            seg.push(data[pos + j]);
            j = j + 1;
            assert(seg@ =~= data@.subrange(pos as int, pos + j));
        }
        let ghost old_segs = segs@;
        let ghost seg_view = seg@;
        segs.push(seg);
        pos = pos + take;
        proof {
            assert(seg_views(segs@) =~= seg_views(old_segs).push(seg_view));
            lemma_concat_push(seg_views(old_segs), seg_view);
            assert(data@.take(pos as int)
                =~= data@.take((pos - take) as int) + data@.subrange((pos - take) as int, pos as int));
        }
    }
    assert(data@.take(data@.len() as int) =~= data@);
    segs
}

} // verus!
