//! Big-endian byte layouts of unsigned integers.
use vstd::prelude::*;

verus! {

/// The last `n` bytes of `x` written most significant first.
pub open spec fn be_bytes(x: nat, n: nat) -> Seq<u8>
    decreases n,
{
    if n == 0 {
        Seq::empty()
    } else {
        be_bytes(x / 256, (n - 1) as nat).push((x % 256) as u8)
    }
}

/// The eight bytes of `x`, most significant first.
pub fn transform_u64_to_array_of_u8(x: u64) -> (r: [u8; 8])
    ensures
        r@ == be_bytes(x as nat, 8),
{
    let mut v = x;
    let b8 = (v % 256) as u8;
    v = v / 256;
    let b7 = (v % 256) as u8;
    v = v / 256;
    let b6 = (v % 256) as u8;
    v = v / 256;
    let b5 = (v % 256) as u8;
    v = v / 256;
    let b4 = (v % 256) as u8;
    v = v / 256;
    let b3 = (v % 256) as u8;
    v = v / 256;
    let b2 = (v % 256) as u8;
    v = v / 256;
    let b1 = (v % 256) as u8;
    let r = [b1, b2, b3, b4, b5, b6, b7, b8];
    proof {
        reveal_with_fuel(be_bytes, 9);
        assert(r@ =~= be_bytes(x as nat, 8));
    }
    r
}

/// The sixteen bytes of `x`, most significant first.
pub fn transform_u128_to_array_of_u8(x: u128) -> (r: [u8; 16])
    ensures
        r@ == be_bytes(x as nat, 16),
{
    let mut v = x;
    let b16 = (v % 256) as u8;
    v = v / 256;
    let b15 = (v % 256) as u8;
    v = v / 256;
    let b14 = (v % 256) as u8;
    v = v / 256;
    let b13 = (v % 256) as u8;
    v = v / 256;
    let b12 = (v % 256) as u8;
    v = v / 256;
    let b11 = (v % 256) as u8;
    v = v / 256;
    let b10 = (v % 256) as u8;
    v = v / 256;
    let b9 = (v % 256) as u8;
    v = v / 256;
    let b8 = (v % 256) as u8;
    v = v / 256;
    let b7 = (v % 256) as u8;
    v = v / 256;
    let b6 = (v % 256) as u8;
    v = v / 256;
    let b5 = (v % 256) as u8;
    v = v / 256;
    let b4 = (v % 256) as u8;
    v = v / 256;
    let b3 = (v % 256) as u8;
    v = v / 256;
    let b2 = (v % 256) as u8;
    v = v / 256;
    let b1 = (v % 256) as u8;
    let r = [b1, b2, b3, b4, b5, b6, b7, b8, b9, b10, b11, b12, b13, b14, b15, b16];
    proof {
        reveal_with_fuel(be_bytes, 17);
        assert(r@ =~= be_bytes(x as nat, 16));
    }
    r
}

} // verus!
