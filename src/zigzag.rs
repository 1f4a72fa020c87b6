//! Zigzag variable-length integers: the framing of every length, count and
//! signed integer in the format.
use vstd::prelude::*;
use crate::error::{DecodeError, Error};
use vstd::arithmetic::div_mod::{lemma_mod_multiples_vanish, lemma_small_mod};

verus! {

/// The most groups of seven bits that one encoded integer may use.
pub const MAX_GROUPS: usize = 10;

/// Maps a signed integer to the unsigned code that places small magnitudes,
/// positive or negative, on small codes.
pub open spec fn zigzag(n: int) -> nat {
    if n >= 0 {
        (2 * n) as nat
    } else {
        (-2 * n - 1) as nat
    }
}

/// The inverse of `zigzag`.
pub open spec fn unzigzag(u: nat) -> int {
    if u % 2 == 0 {
        (u / 2) as int
    } else {
        -((u / 2) as int) - 1
    }
}

/// The bytes of `u` in groups of seven bits, least significant first; every
/// byte but the last has the continuation bit set.
pub open spec fn varint(u: nat) -> Seq<u8>
    decreases u,
{
    if u < 128 {
        seq![u as u8]
    } else {
        seq![(u % 128 + 128) as u8] + varint(u / 128)
    }
}

/// The number that the seven-bit groups of `s` stand for, least significant first.
pub open spec fn groups_value(s: Seq<u8>) -> nat
    decreases s.len(),
{
    if s.len() == 0 {
        0
    } else {
        (s[0] % 128) as nat + 128 * groups_value(s.drop_first())
    }
}

pub open spec fn pow128(k: nat) -> nat
    decreases k,
{
    if k == 0 {
        1
    } else {
        128 * pow128((k - 1) as nat)
    }
}

pub open spec fn two_pow_64() -> nat {
    0x1_0000_0000_0000_0000
}

/// The first `n` bytes of `s` all carry the continuation bit.
pub open spec fn all_continue(s: Seq<u8>, n: int) -> bool {
    forall|i: int| 0 <= i < n ==> s[i] >= 128
}

/// The first encoded integer of `s` ends at index `k`, within the group limit.
pub open spec fn ends_at(s: Seq<u8>, k: int) -> bool {
    0 <= k < MAX_GROUPS && k < s.len() && s[k] < 128 && all_continue(s, k)
}

/// The unsigned value of the integer that ends at `k`, cut to 64 bits.
pub open spec fn value_until(s: Seq<u8>, k: int) -> nat {
    groups_value(s.take(k + 1)) % two_pow_64()
}

/// The message of the error for more groups than 64 bits can hold.
pub open spec fn overflow_message() -> Seq<char> {
    "overflow when decoding integer value"@
}

/// The message of the error for a value outside the 32-bit range.
pub open spec fn range_message() -> Seq<char> {
    "int out of range"@
}

/// What decoding one unsigned integer from the front of `s` yields, with the
/// bytes left over: `Ok` with the value, or the error that stops it. On
/// overflow the ten bytes read are consumed; on a short input, all of it.
pub open spec fn decodes_to(s: Seq<u8>, r: Result<u64, Error>, rest: Seq<u8>) -> bool {
    match r {
        Ok(v) => exists|k: int|
            ends_at(s, k) && v == value_until(s, k) && rest == s.subrange(k + 1, s.len() as int),
        Err(Error::DecodeOverflow(e)) => s.len() >= MAX_GROUPS && all_continue(s, MAX_GROUPS as int)
            && rest == s.subrange(MAX_GROUPS as int, s.len() as int) && e.0@ == overflow_message(),
        Err(Error::UnexpectedEnd) => s.len() < MAX_GROUPS && all_continue(s, s.len() as int)
            && rest == Seq::<u8>::empty(),
        Err(_) => false,
    }
}

/// What decoding one zigzag-coded signed integer from the front of `s` yields.
pub open spec fn decodes_long_to(s: Seq<u8>, r: Result<i64, Error>, rest: Seq<u8>) -> bool {
    match r {
        Ok(v) => exists|k: int|
            ends_at(s, k) && v as int == unzigzag(value_until(s, k)) && rest == s.subrange(
                k + 1,
                s.len() as int,
            ),
        Err(Error::DecodeOverflow(e)) => s.len() >= MAX_GROUPS && all_continue(s, MAX_GROUPS as int)
            && rest == s.subrange(MAX_GROUPS as int, s.len() as int) && e.0@ == overflow_message(),
        Err(Error::UnexpectedEnd) => s.len() < MAX_GROUPS && all_continue(s, s.len() as int)
            && rest == Seq::<u8>::empty(),
        Err(_) => false,
    }
}

pub open spec fn fits_i32(v: int) -> bool {
    i32::MIN <= v <= i32::MAX
}

/// What decoding one zigzag-coded signed 32-bit integer from the front of `s`
/// yields; a value outside the 32-bit range is an error.
pub open spec fn decodes_int_to(s: Seq<u8>, r: Result<i32, Error>, rest: Seq<u8>) -> bool {
    match r {
        Ok(v) => exists|k: int|
            ends_at(s, k) && v as int == unzigzag(value_until(s, k)) && rest == s.subrange(
                k + 1,
                s.len() as int,
            ),
        Err(Error::DecodeRange(e)) => e.0@ == range_message() && exists|k: int|
            ends_at(s, k) && !fits_i32(unzigzag(value_until(s, k))) && rest == s.subrange(
                k + 1,
                s.len() as int,
            ),
        Err(Error::DecodeOverflow(e)) => s.len() >= MAX_GROUPS && all_continue(s, MAX_GROUPS as int)
            && rest == s.subrange(MAX_GROUPS as int, s.len() as int) && e.0@ == overflow_message(),
        Err(Error::UnexpectedEnd) => s.len() < MAX_GROUPS && all_continue(s, s.len() as int)
            && rest == Seq::<u8>::empty(),
        Err(_) => false,
    }
}

proof fn lemma_groups_push(s: Seq<u8>, b: u8)
    ensures
        groups_value(s.push(b)) == groups_value(s) + (b % 128) as nat * pow128(s.len()),
    decreases s.len(),
{
    if s.len() == 0 {
        assert(s.push(b).drop_first() =~= Seq::<u8>::empty());
        assert(groups_value(Seq::<u8>::empty()) == 0);
        assert(s.push(b)[0] == b);
        assert(pow128(0) == 1);
        assert(groups_value(s.push(b)) == (b % 128) as nat + 128 * groups_value(s.push(b).drop_first()));
    } else {
        assert(s.push(b).drop_first() =~= s.drop_first().push(b));
        lemma_groups_push(s.drop_first(), b);
        let t = (b % 128) as nat;
        let p = pow128(s.drop_first().len());
        assert(s.push(b)[0] == s[0]);
        assert(pow128(s.len()) == 128 * p);
        assert(groups_value(s.push(b)) == (s[0] % 128) as nat + 128 * groups_value(s.drop_first().push(b)));
        let g = groups_value(s.drop_first());
        assert(128 * (g + t * p) == 128 * g + t * (128 * p)) by (nonlinear_arith);
        assert(groups_value(s) == (s[0] % 128) as nat + 128 * g);
    }
}

proof fn lemma_pow128_bound(k: nat)
    requires
        k <= 9,
    ensures
        pow128(k) <= 0x8000_0000_0000_0000,
        k <= 8 ==> pow128(k) <= 0x0100_0000_0000_0000,
        k == 9 ==> pow128(k) == 0x8000_0000_0000_0000,
    decreases k,
{
    reveal_with_fuel(pow128, 10);
}

proof fn lemma_groups_bound(s: Seq<u8>)
    ensures
        groups_value(s) < pow128(s.len()),
    decreases s.len(),
{
    if s.len() > 0 {
        lemma_groups_bound(s.drop_first());
        let g = groups_value(s.drop_first());
        let p = pow128(s.drop_first().len());
        assert(128 * g + 127 < 128 * p) by (nonlinear_arith)
            requires g < p;
    }
}

/// Properties of `varint(u)` for any `u` of 64 bits: its length is within the
/// group limit, only its last byte lacks the continuation bit, and its groups
/// stand for `u`.
pub proof fn lemma_varint_shape(u: nat)
    requires
        u < pow128(10),
    ensures
        1 <= varint(u).len() <= MAX_GROUPS,
        ends_at(varint(u), varint(u).len() - 1),
        groups_value(varint(u)) == u,
{
    lemma_varint_shape_rec(u, 10);
}

proof fn lemma_varint_shape_rec(u: nat, k: nat)
    requires
        1 <= k <= 10,
        u < pow128(k),
    ensures
        1 <= varint(u).len() <= k,
        varint(u)[varint(u).len() - 1] < 128,
        all_continue(varint(u), varint(u).len() - 1),
        groups_value(varint(u)) == u,
    decreases u,
{
    let s = varint(u);
    if u >= 128 {
        assert(k >= 2) by {
            if k == 1 {
                reveal_with_fuel(pow128, 2);
            }
        }
        assert(u / 128 < pow128((k - 1) as nat)) by (nonlinear_arith)
            requires u < pow128(k), pow128(k) == 128 * pow128((k - 1) as nat);
        lemma_varint_shape_rec(u / 128, (k - 1) as nat);
        let t = varint(u / 128);
        assert(s =~= seq![(u % 128 + 128) as u8] + t);
        assert(s.drop_first() =~= t);
        assert(s[0] % 128 == u % 128);
        assert(u == u % 128 + 128 * (u / 128));
        assert(groups_value(s) == (s[0] % 128) as nat + 128 * groups_value(t));
        assert forall|i: int| 0 <= i < s.len() - 1 implies s[i] >= 128 by {
            if i > 0 {
                assert(s[i] == t[i - 1]);
            }
        }
    } else {
        assert(s.drop_first() =~= Seq::<u8>::empty());
        assert(s[0] % 128 == u);
        assert(groups_value(s) == (s[0] % 128) as nat + 128 * groups_value(s.drop_first()));
    }
}

/// Zigzag coding is a bijection: every signed 64-bit integer comes back.
pub proof fn lemma_unzigzag_zigzag(n: int)
    ensures
        unzigzag(zigzag(n)) == n,
{
}

/// Appends the variable-length encoding of the unsigned value `z`.
fn encode_variable(z: u64, buffer: &mut Vec<u8>)
    ensures
        final(buffer)@ == old(buffer)@ + varint(z as nat),
{
    let ghost z0 = z;
    let mut z = z;
    while z > 0x7F
        invariant
            old(buffer)@ + varint(z0 as nat) == buffer@ + varint(z as nat),
        decreases z,
    {
        let ghost before = buffer@;
        buffer.push((z % 128 + 128) as u8);
        assert(before + varint(z as nat) =~= buffer@ + varint((z / 128) as nat));
        z = z / 128;
    }
    let ghost before = buffer@;
    buffer.push(z as u8);
    assert(before + varint(z as nat) =~= buffer@);
}

proof fn lemma_top_group(i: nat, g: nat)
    requires
        i < 0x8000_0000_0000_0000,
        g < 128,
    ensures
        (i + g * 0x8000_0000_0000_0000) % two_pow_64() == i + (g % 2) * 0x8000_0000_0000_0000,
{
    let q = g / 2;
    let r = g % 2;
    assert(i + g * 0x8000_0000_0000_0000 == two_pow_64() * q + (i + r * 0x8000_0000_0000_0000))
        by (nonlinear_arith)
        requires
            g == 2 * q + r,
    ;
    lemma_mod_multiples_vanish(q as int, (i + r * 0x8000_0000_0000_0000) as int, two_pow_64() as int);
    lemma_small_mod((i + r * 0x8000_0000_0000_0000) as nat, two_pow_64());
}

/// Reads one variable-length unsigned integer from the front of `reader`,
/// leaving `reader` on the byte after it. At most ten groups are read; bits
/// beyond the 64th are dropped.
pub fn decode_variable(reader: &mut &[u8]) -> (r: Result<u64, Error>)
    ensures
        decodes_to(old(reader)@, r, final(reader)@),
{
    let ghost s = (*reader)@;
    let mut i: u64 = 0;
    let mut mult: u64 = 1;
    let mut j: usize = 0;
    loop
        invariant
            s == old(reader)@,
            j <= MAX_GROUPS,
            j <= s.len(),
            all_continue(s, j as int),
            (*reader)@ == s.subrange(j as int, s.len() as int),
            j <= 9 ==> i as nat == groups_value(s.take(j as int)),
            j <= 9 ==> mult as nat == pow128(j as nat),
        decreases MAX_GROUPS - j,
    {
        if j >= MAX_GROUPS {
            return Err(Error::DecodeOverflow(DecodeError::new("overflow when decoding integer value")));
        }
        let cur: &[u8] = *reader;
        if cur.len() == 0 {
            assert((*reader)@ =~= Seq::<u8>::empty());
            return Err(Error::UnexpectedEnd);
        }
        let byte = cur[0];
        let (_, rest) = cur.split_at(1);
        *reader = rest;
        let group = (byte % 128) as u64;
        proof {
            assert(s.take(j as int + 1) =~= s.take(j as int).push(byte));
            lemma_groups_push(s.take(j as int), byte);
            lemma_groups_bound(s.take(j as int));
            lemma_pow128_bound(j as nat);
            assert((*reader)@ =~= s.subrange(j as int + 1, s.len() as int));
        }
        if j < 9 {
            assert(i + group * mult < 128 * mult) by (nonlinear_arith)
                requires
                    i < mult,
                    group < 128,
            ;
            i = i + group * mult;
        } else {
            proof {
                lemma_top_group(i as nat, group as nat);
                assert(s.take(j as int).len() == 9);
            }
            assert(i < mult);
            i = i + (group % 2) * mult;
        }
        if byte < 128 {
            proof {
                if j < 9 {
                    lemma_small_mod(i as nat, two_pow_64());
                }
                assert(ends_at(s, j as int));
            }
            return Ok(i);
        }
        if j < 9 {
            mult = mult * 128;
        }
        j = j + 1;
    }
}

/// Appends the zigzag encoding of a length or count, for any `usize`.
pub(crate) fn encode_variable_len(len: usize, buffer: &mut Vec<u8>)
    ensures
        final(buffer)@ == old(buffer)@ + varint(zigzag(len as int)),
{
    let ghost u = (2 * len) as nat;
    if len < 64 {
        buffer.push((2 * len) as u8);
        assert(final(buffer)@ =~= old(buffer)@ + varint(u));
    } else {
        assert(u % 128 == 2 * (len % 64) && u / 128 == len / 64) by (nonlinear_arith)
            requires
                u == 2 * len,
        {
            vstd::arithmetic::div_mod::lemma_fundamental_div_mod(len as int, 64);
        }
        buffer.push((2 * (len % 64) + 128) as u8);
        encode_variable((len / 64) as u64, buffer);
        assert(varint(u) == seq![(u % 128 + 128) as u8] + varint(u / 128));
        assert(final(buffer)@ =~= old(buffer)@ + varint(u));
    }
}

/// Appends the zigzag encoding of the 32-bit integer `n`; the bytes are
/// those of the same value as a 64-bit integer.
pub fn zig_i32(n: i32, buffer: &mut Vec<u8>)
    ensures
        final(buffer)@ == old(buffer)@ + varint(zigzag(n as int)),
{
    zig_i64(n as i64, buffer)
}

/// Appends the zigzag encoding of the 64-bit integer `n`.
pub fn zig_i64(n: i64, buffer: &mut Vec<u8>)
    ensures
        final(buffer)@ == old(buffer)@ + varint(zigzag(n as int)),
{
    let z: u64 = if n >= 0 {
        (n as u64) * 2
    } else {
        ((-(n + 1)) as u64) * 2 + 1
    };
    encode_variable(z, buffer)
}

/// Reads one zigzag-coded 64-bit integer from the front of `reader`.
pub fn zag_i64(reader: &mut &[u8]) -> (r: Result<i64, Error>)
    ensures
        decodes_long_to(old(reader)@, r, final(reader)@),
{
    let z = decode_variable(reader)?;
    if z % 2 == 0 {
        Ok((z / 2) as i64)
    } else {
        Ok(-((z / 2) as i64) - 1)
    }
}

/// Reads one zigzag-coded 32-bit integer from the front of `reader`; a value
/// outside the 32-bit range is an error.
pub fn zag_i32(reader: &mut &[u8]) -> (r: Result<i32, Error>)
    ensures
        decodes_int_to(old(reader)@, r, final(reader)@),
{
    let i = zag_i64(reader)?;
    if i < i32::MIN as i64 || i > i32::MAX as i64 {
        Err(Error::DecodeRange(DecodeError::new("int out of range")))
    } else {
        Ok(i as i32)
    }
}

/// Reads one zigzag-coded long, the encoding of every length and count.
pub fn read_long(reader: &mut &[u8]) -> (r: Result<i64, Error>)
    ensures
        decodes_long_to(old(reader)@, r, final(reader)@),
{
    zag_i64(reader)
}

/// Decoding what the encoder wrote gives back the integer, and leaves exactly
/// the bytes that followed it, for every signed 64-bit integer (so also for
/// every 32-bit one, whose bytes are the same).
pub proof fn lemma_round_trip(n: i64, tail: Seq<u8>, r: Result<i64, Error>, rest: Seq<u8>)
    requires
        decodes_long_to(varint(zigzag(n as int)) + tail, r, rest),
    ensures
        r == Ok::<i64, Error>(n),
        rest == tail,
{
    let z = zigzag(n as int);
    let e = varint(z);
    let s = e + tail;
    reveal_with_fuel(pow128, 11);
    lemma_varint_shape(z);
    let last = e.len() - 1;
    assert forall|i: int| 0 <= i < e.len() implies s[i] == e[i] by {}
    assert(ends_at(s, last));
    assert(s.take(last + 1) =~= e);
    lemma_small_mod(z, two_pow_64());
    lemma_unzigzag_zigzag(n as int);
    match r {
        Ok(v) => {
            let k = choose|k: int|
                ends_at(s, k) && v as int == unzigzag(value_until(s, k)) && rest == s.subrange(
                    k + 1,
                    s.len() as int,
                );
            if k < last {
                assert(s[k] < 128);
            } else if k > last {
                assert(s[last] >= 128);
            }
            assert(rest =~= tail);
        },
        Err(Error::DecodeOverflow(_)) => {
            assert(s[last] >= 128);
        },
        Err(Error::UnexpectedEnd) => {
            assert(s[last] >= 128);
        },
        Err(_) => {},
    }
}

} // verus!
