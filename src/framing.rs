use vstd::prelude::*;

verus! {

/// The `n` lowest bytes of `x`, least significant first.
pub open spec fn le_bytes(x: nat, n: nat) -> Seq<u8>
    decreases n,
{
    if n == 0 {
        Seq::empty()
    } else {
        seq![(x % 256) as u8] + le_bytes(x / 256, (n - 1) as nat)
    }
}

/// The eight bytes written before the payload so that a consumer can size its
/// buffer: the total length of the file, little-endian.
pub fn size_prefix(total: u64) -> (r: Vec<u8>)
    ensures
        r@ == le_bytes(total as nat, 8),
{
    let mut out: Vec<u8> = Vec::with_capacity(8);
    let mut v: u64 = total;
    let mut i: usize = 0;
    while i < 8
        invariant
            i <= 8,
            out@ + le_bytes(v as nat, (8 - i) as nat) == le_bytes(total as nat, 8),
        decreases 8 - i,
    {
        let ghost before = out@;
        let b = (v % 256) as u8;
        out.push(b);
        proof {
            let rest = le_bytes((v / 256) as nat, (8 - i - 1) as nat);
            assert(le_bytes(v as nat, (8 - i) as nat) == seq![b] + rest);
            assert(before + (seq![b] + rest) =~= out@ + rest);
        }
        v = v / 256;
        i = i + 1;
    }
    assert(le_bytes(v as nat, 0) =~= Seq::<u8>::empty());
    assert(out@ + Seq::<u8>::empty() =~= out@);
    out
}

} // verus!
