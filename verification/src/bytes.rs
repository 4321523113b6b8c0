use vstd::prelude::*;

verus! {

/// The number of bytes in `data`, by `<[u8]>::len`. Rust bounds the size
/// of every value, a slice's bytes among them, by `isize::MAX`, which is
/// what the contract adds to the length.
#[verifier::external_body]
pub(crate) fn slice_len(data: &[u8]) -> (n: usize)
    ensures
        n == data@.len(),
        n <= isize::MAX,
{
    data.len()
}

/// Appends the bytes of `data` to `buf`.
pub fn append_bytes(buf: &mut Vec<u8>, data: &[u8])
    ensures
        final(buf)@ == old(buf)@ + data@,
{
    let ghost start = buf@;
    let mut i: usize = 0;
    while i < data.len()
        invariant
            i <= data@.len(),
            buf@ == start + data@.subrange(0, i as int),
        decreases data@.len() - i,
    {
        buf.push(data[i]);
        i = i + 1;
        assert(buf@ =~= start + data@.subrange(0, i as int));
    }
    assert(data@.subrange(0, data@.len() as int) =~= data@);
}

/// A new vector holding a copy of the bytes of `data`.
pub fn copy_bytes(data: &[u8]) -> (v: Vec<u8>)
    ensures
        v@ == data@,
{
    let mut v: Vec<u8> = Vec::new();
    append_bytes(&mut v, data);
    assert(v@ =~= data@);
    v
}

} // verus!
