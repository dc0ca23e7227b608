//! Copying byte strings into buffers.

use vstd::prelude::*;

verus! {

/// Overwrites the bytes of `buffer` from `offset` on with `bytes`.
pub fn put_bytes(buffer: &mut [u8], offset: usize, bytes: &[u8])
    requires
        offset + bytes@.len() <= old(buffer)@.len(),
    ensures
        final(buffer)@ == old(buffer)@.update_subrange_with(offset as int, bytes@),
{
    let ghost before = buffer@;
    let mut i: usize = 0;
    while i < bytes.len()
        invariant
            i <= bytes.len(),
            offset + bytes.len() <= buffer.len(),
            buffer@.len() == before.len(),
            forall|k: int|
                0 <= k < buffer@.len() ==> #[trigger] buffer@[k] == if offset <= k < offset + i {
                    bytes@[k - offset]
                } else {
                    before[k]
                },
        decreases bytes.len() - i,
    {
        buffer[offset + i] = bytes[i];
        i = i + 1;
    }
    assert(buffer@ =~= before.update_subrange_with(offset as int, bytes@));
}

/// Whether two byte strings are equal.
pub fn bytes_equal(a: &[u8], b: &[u8]) -> (equal: bool)
    ensures
        equal == (a@ == b@),
{
    if a.len() != b.len() {
        return false;
    }
    let mut i: usize = 0;
    while i < a.len()
        invariant
            i <= a.len(),
            a.len() == b.len(),
            a@.take(i as int) == b@.take(i as int),
        decreases a.len() - i,
    {
        if a[i] != b[i] {
            assert(a@[i as int] != b@[i as int]);
            return false;
        }
        assert(a@.take(i + 1) =~= a@.take(i as int).push(a@[i as int]));
        assert(b@.take(i + 1) =~= b@.take(i as int).push(b@[i as int]));
        i = i + 1;
    }
    assert(a@.take(i as int) =~= a@);
    assert(b@.take(i as int) =~= b@);
    true
}

} // verus!
