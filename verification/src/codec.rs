//! Byte images of integers: base-256 digits, least significant first, with
//! negative numbers in two's complement.

use vstd::prelude::*;

verus! {

/// 256 to the power `n`: the number of values that `n` bytes can hold.
pub open spec fn radix(n: nat) -> nat
    decreases n,
{
    if n == 0 {
        1
    } else {
        256 * radix((n - 1) as nat)
    }
}

/// The `n` low base-256 digits of `v`, least significant first.
pub open spec fn le_bytes(v: nat, n: nat) -> Seq<u8>
    decreases n,
{
    if n == 0 {
        Seq::<u8>::empty()
    } else {
        seq![(v % 256) as u8] + le_bytes(v / 256, (n - 1) as nat)
    }
}

/// The number whose base-256 digits, least significant first, are `bytes`.
pub open spec fn le_value(bytes: Seq<u8>) -> nat
    decreases bytes.len(),
{
    if bytes.len() == 0 {
        0
    } else {
        bytes[0] as nat + 256 * le_value(bytes.drop_first())
    }
}

/// The unsigned number that stands for `x` in `n` bytes of two's complement.
pub open spec fn wrap_signed(x: int, n: nat) -> nat {
    if x >= 0 {
        x as nat
    } else {
        (x + radix(n)) as nat
    }
}

/// The signed number that `u` stands for in `n` bytes of two's complement.
pub open spec fn unwrap_signed(u: nat, n: nat) -> int {
    if 2 * u < radix(n) {
        u as int
    } else {
        u - radix(n)
    }
}

/// `le_bytes(v, n)` has `n` bytes.
pub proof fn lemma_le_bytes_len(v: nat, n: nat)
    ensures
        le_bytes(v, n).len() == n,
    decreases n,
{
    if n > 0 {
        lemma_le_bytes_len(v / 256, (n - 1) as nat);
    }
}

/// What `k` bytes spell is below `radix(k)`.
pub proof fn lemma_le_value_bound(bytes: Seq<u8>)
    ensures
        le_value(bytes) < radix(bytes.len()),
    decreases bytes.len(),
{
    if bytes.len() > 0 {
        lemma_le_value_bound(bytes.drop_first());
    }
}

/// A number below `radix(n)` is read back from its `n` digits.
pub proof fn lemma_le_round_trip(v: nat, n: nat)
    requires
        v < radix(n),
    ensures
        le_value(le_bytes(v, n)) == v,
    decreases n,
{
    if n > 0 {
        let rest = le_bytes(v / 256, (n - 1) as nat);
        lemma_le_round_trip(v / 256, (n - 1) as nat);
        assert(le_bytes(v, n).drop_first() =~= rest);
    }
}

/// Two's complement loses nothing: a number of the signed range of `n` bytes
/// is read back from the unsigned number that stands for it.
pub proof fn lemma_signed_round_trip(x: int, n: nat)
    requires
        -(radix(n) as int) <= 2 * x < radix(n),
    ensures
        wrap_signed(x, n) < radix(n),
        unwrap_signed(wrap_signed(x, n), n) == x,
{
}

/// The values of `radix` at the widths of the machine's integers.
pub proof fn lemma_radix_values()
    ensures
        radix(0) == 1,
        radix(1) == 0x100,
        radix(2) == 0x1_0000,
        radix(4) == 0x1_0000_0000,
        radix(8) == 0x1_0000_0000_0000_0000,
        radix(16) == 0x1_0000_0000_0000_0000_0000_0000_0000_0000,
{
    reveal_with_fuel(radix, 17);
}

/// `radix` grows with the width.
pub proof fn lemma_radix_grows(m: nat, n: nat)
    requires
        m <= n,
    ensures
        1 <= radix(m) <= radix(n),
    decreases n,
{
    if n > 0 {
        if m < n {
            lemma_radix_grows(m, (n - 1) as nat);
        } else {
            lemma_radix_grows((m - 1) as nat, (n - 1) as nat);
        }
    }
}

/// Writes `v` as `n` bytes, least significant first; what does not fit in
/// `n` bytes is left out.
pub fn encode(v: u128, n: usize) -> (bytes: Vec<u8>)
    ensures
        bytes@ == le_bytes(v as nat, n as nat),
        bytes@.len() == n,
{
    let mut bytes: Vec<u8> = Vec::new();
    let mut rest: u128 = v;
    let mut i: usize = 0;
    while i < n
        invariant
            i <= n,
            bytes@.len() == i,
            le_bytes(v as nat, n as nat) == bytes@ + le_bytes(rest as nat, (n - i) as nat),
        decreases n - i,
    {
        let digit: u8 = (rest % 256) as u8;
        proof {
            let tail = le_bytes((rest / 256) as nat, (n - i - 1) as nat);
            assert(le_bytes(rest as nat, (n - i) as nat) == seq![digit] + tail);
            assert(bytes@ + (seq![digit] + tail) =~= bytes@.push(digit) + tail);
        }
        bytes.push(digit);
        rest = rest / 256;
        i = i + 1;
    }
    proof {
        assert(bytes@ + le_bytes(rest as nat, 0) =~= bytes@);
    }
    bytes
}

/// Reads the number that at most sixteen bytes spell, least significant
/// first.
pub fn decode(bytes: &Vec<u8>) -> (v: u128)
    requires
        bytes@.len() <= 16,
    ensures
        v == le_value(bytes@),
        v < radix(bytes@.len()),
{
    let n: usize = bytes.len();
    let mut v: u128 = 0;
    let mut i: usize = n;
    proof {
        assert(bytes@.subrange(n as int, n as int) =~= Seq::<u8>::empty());
    }
    while i > 0
        invariant
            i <= n,
            n == bytes@.len(),
            n <= 16,
            v == le_value(bytes@.subrange(i as int, n as int)),
        decreases i,
    {
        i = i - 1;
        proof {
            let upper = bytes@.subrange(i as int + 1, n as int);
            let whole = bytes@.subrange(i as int, n as int);
            assert(whole.drop_first() =~= upper);
            assert(whole[0] == bytes@[i as int]);
            lemma_le_value_bound(upper);
            lemma_radix_grows(upper.len(), 15);
            lemma_radix_values();
            reveal_with_fuel(radix, 17);
        }
        v = v * 256 + bytes[i] as u128;
    }
    proof {
        assert(bytes@.subrange(0, n as int) =~= bytes@);
        lemma_le_value_bound(bytes@);
    }
    v
}

/// The two's-complement stand-in of `x` among the unsigned numbers up to
/// `top`, where `top + 1` is the number of values of the width.
pub fn to_unsigned(x: i128, top: u128) -> (u: u128)
    requires
        -(top + 1) <= 2 * x < top + 1,
    ensures
        x >= 0 ==> u == x,
        x < 0 ==> u == x + top + 1,
        u <= top,
{
    if x >= 0 {
        x as u128
    } else {
        let below: u128 = (-(x + 1)) as u128;
        top - below
    }
}

/// The signed number that `u` stands for among the unsigned numbers up to
/// `top`: itself in the lower half, and `u - (top + 1)` in the upper half.
pub fn to_signed(u: u128, top: u128) -> (x: i128)
    requires
        u <= top,
        top % 2 == 1,
    ensures
        2 * u < top + 1 ==> x == u,
        2 * u >= top + 1 ==> x == u - (top + 1),
{
    if u <= top / 2 {
        u as i128
    } else {
        let below: u128 = top - u;
        -(below as i128) - 1
    }
}

} // verus!
