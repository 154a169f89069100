use vstd::prelude::*;

use crate::types::written;

verus! {

/// Writes `src[start..start + len]` over the front of `out`.
pub fn copy_block(src: &[u8], start: usize, len: usize, out: &mut [u8])
    requires
        start + len <= src@.len(),
        len <= old(out)@.len(),
    ensures
        final(out)@ == written(old(out)@, src@.subrange(start as int, start + len)),
{
    let src_len = src.len();
    let mut j: usize = 0;
    while j < len
        invariant
            j <= len <= out@.len(),
            start + len <= src@.len() == src_len,
            out@.len() == old(out)@.len(),
            forall|k: int| 0 <= k < j ==> out@[k] == src@[start + k],
            forall|k: int| j <= k < out@.len() ==> out@[k] == old(out)@[k],
        decreases len - j,
    {
        out[j] = src[start + j];
        j = j + 1;
    }
    assert(out@ =~= written(old(out)@, src@.subrange(start as int, start + len)));
}

/// Appends `data` to `buf`.
pub fn append(buf: &mut Vec<u8>, data: &[u8])
    ensures
        final(buf)@ == old(buf)@ + data@,
{
    let mut i: usize = 0;
    while i < data.len()
        invariant
            i <= data@.len(),
            buf@ == old(buf)@ + data@.subrange(0, i as int),
        decreases data@.len() - i,
    {
        buf.push(data[i]);
        i = i + 1;
        assert(buf@ =~= old(buf)@ + data@.subrange(0, i as int));
    }
    assert(data@.subrange(0, data@.len() as int) =~= data@);
}

} // verus!
