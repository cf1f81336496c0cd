//! Little-endian encoding of unsigned numbers.

use vstd::prelude::*;

verus! {

/// `256` raised to the power `n`.
pub open spec fn pow256(n: nat) -> nat
    decreases n,
{
    if n == 0 {
        1
    } else {
        256 * pow256((n - 1) as nat)
    }
}

/// The unsigned number that `s` denotes, least significant byte first.
pub open spec fn le_value(s: Seq<u8>) -> nat
    decreases s.len(),
{
    if s.len() == 0 {
        0
    } else {
        s[0] as nat + 256 * le_value(s.drop_first())
    }
}

/// The `n` low bytes of `x`, least significant first.
pub open spec fn le_bytes(x: nat, n: nat) -> Seq<u8>
    decreases n,
{
    if n == 0 {
        seq![]
    } else {
        seq![(x % 256) as u8] + le_bytes(x / 256, (n - 1) as nat)
    }
}

pub proof fn lemma_pow256_positive(n: nat)
    ensures
        pow256(n) >= 1,
    decreases n,
{
    if n > 0 {
        lemma_pow256_positive((n - 1) as nat);
    }
}

pub proof fn lemma_pow256_monotone(a: nat, b: nat)
    requires
        a <= b,
    ensures
        pow256(a) <= pow256(b),
    decreases b,
{
    if a < b {
        lemma_pow256_monotone(a, (b - 1) as nat);
        lemma_pow256_positive((b - 1) as nat);
    }
}

/// `256^16` is the number of values of a `u128`.
pub proof fn lemma_pow256_16()
    ensures
        pow256(16) == 0x1_0000_0000_0000_0000_0000_0000_0000_0000,
        pow256(8) == 0x1_0000_0000_0000_0000,
        pow256(4) == 0x1_0000_0000,
        pow256(2) == 0x1_0000,
        pow256(1) == 0x100,
{
    reveal_with_fuel(pow256, 17);
}

pub proof fn lemma_le_bytes_len(x: nat, n: nat)
    ensures
        le_bytes(x, n).len() == n,
    decreases n,
{
    if n > 0 {
        lemma_le_bytes_len(x / 256, (n - 1) as nat);
    }
}

pub proof fn lemma_le_value_bound(s: Seq<u8>)
    ensures
        le_value(s) < pow256(s.len()),
    decreases s.len(),
{
    if s.len() > 0 {
        lemma_le_value_bound(s.drop_first());
    }
}

/// Decoding the bytes of a number that fits gives the number back.
pub proof fn lemma_le_round_trip(x: nat, n: nat)
    requires
        x < pow256(n),
    ensures
        le_value(le_bytes(x, n)) == x,
    decreases n,
{
    if n > 0 {
        let s = le_bytes(x, n);
        lemma_le_round_trip(x / 256, (n - 1) as nat);
        assert(s.drop_first() =~= le_bytes(x / 256, (n - 1) as nat));
    }
}

/// Encoding the number that bytes denote gives the bytes back.
pub proof fn lemma_le_bytes_of_value(s: Seq<u8>)
    ensures
        le_bytes(le_value(s), s.len()) == s,
    decreases s.len(),
{
    if s.len() > 0 {
        let v = le_value(s);
        let rest = le_value(s.drop_first());
        lemma_le_bytes_of_value(s.drop_first());
        assert(v % 256 == s[0] as nat && v / 256 == rest) by (nonlinear_arith)
            requires
                v == s[0] as nat + 256 * rest,
                s[0] < 256,
        ;
        assert(le_bytes(v, s.len()) =~= s);
    }
}

/// Reads the number that `n` bytes of `s` from `start` denote, least
/// significant byte first.
pub fn decode_le(s: &[u8], start: usize, n: usize) -> (r: u128)
    requires
        start + n <= s@.len(),
        n <= 16,
    ensures
        r as nat == le_value(s@.subrange(start as int, start + n)),
{
    let len = s.len();
    assert(start + n <= len);
    let end = start + n;
    let mut acc: u128 = 0;
    let mut i: usize = n;
    while i > 0
        invariant
            end == start + n,
            end <= s@.len(),
            n <= 16,
            i <= n,
            acc as nat == le_value(s@.subrange(start + i, end as int)),
        decreases i,
    {
        proof {
            lemma_le_value_bound(s@.subrange(start + i, end as int));
            lemma_pow256_monotone((n - i) as nat, 15);
            lemma_pow256_16();
            reveal_with_fuel(pow256, 2);
        }
        let b = s[start + i - 1];
        assert(acc * 256 + b < pow256(16)) by (nonlinear_arith)
            requires
                acc < pow256(15),
                pow256(16) == 256 * pow256(15),
                b < 256,
        ;
        let ghost tail = s@.subrange(start + i, end as int);
        acc = acc * 256 + b as u128;
        i = i - 1;
        assert(s@.subrange(start + i, end as int).drop_first() =~= tail);
    }
    acc
}

/// The `n` low bytes of `x`, least significant first.
pub fn encode_le(x: u128, n: usize) -> (r: Vec<u8>)
    requires
        n <= 16,
    ensures
        r@ == le_bytes(x as nat, n as nat),
{
    let mut out: Vec<u8> = Vec::new();
    let mut rest: u128 = x;
    let mut i: usize = 0;
    while i < n
        invariant
            i <= n,
            out@ + le_bytes(rest as nat, (n - i) as nat) == le_bytes(x as nat, n as nat),
        decreases n - i,
    {
        let ghost before = out@;
        out.push((rest % 256) as u8);
        assert(le_bytes(rest as nat, (n - i) as nat) == seq![(rest % 256) as u8] + le_bytes(
            (rest / 256) as nat,
            (n - i - 1) as nat,
        ));
        assert(before + le_bytes(rest as nat, (n - i) as nat) =~= out@ + le_bytes(
            (rest / 256) as nat,
            (n - i - 1) as nat,
        ));
        rest = rest / 256;
        i = i + 1;
    }
    assert(le_bytes(rest as nat, 0) =~= seq![]);
    assert(out@ + seq![] =~= out@);
    out
}

/// Half of the values of an `n`-byte number: where the negative ones start
/// in two's complement.
pub open spec fn half256(n: nat) -> nat {
    128 * pow256((n - 1) as nat)
}

/// The signed number that the `n`-byte two's complement pattern `u` denotes.
pub open spec fn signed_of(u: nat, n: nat) -> int {
    if u >= half256(n) {
        u - pow256(n)
    } else {
        u as int
    }
}

/// The `n`-byte two's complement pattern of `v`.
pub open spec fn unsigned_of(v: int, n: nat) -> nat {
    if v < 0 {
        (v + pow256(n)) as nat
    } else {
        v as nat
    }
}

pub proof fn lemma_half256(n: nat)
    requires
        1 <= n,
    ensures
        pow256(n) == 2 * half256(n),
        half256(n) >= 128,
{
    lemma_pow256_positive((n - 1) as nat);
}

/// Reading a pattern as signed and writing it back gives the pattern.
pub proof fn lemma_signed_round_trip(u: nat, n: nat)
    requires
        1 <= n,
        u < pow256(n),
    ensures
        -half256(n) <= signed_of(u, n) < half256(n),
        unsigned_of(signed_of(u, n), n) == u,
{
    lemma_half256(n);
}

/// Writing a signed number as a pattern and reading it back gives the number.
pub proof fn lemma_unsigned_round_trip(v: int, n: nat)
    requires
        1 <= n,
        -half256(n) <= v < half256(n),
    ensures
        unsigned_of(v, n) < pow256(n),
        signed_of(unsigned_of(v, n), n) == v,
{
    lemma_half256(n);
}

/// `half256(n)` as a machine number.
fn half_of(n: usize) -> (r: u128)
    requires
        1 <= n <= 16,
    ensures
        r as nat == half256(n as nat),
{
    let mut p: u128 = 128;
    let mut i: usize = 1;
    while i < n
        invariant
            1 <= i <= n <= 16,
            p as nat == 128 * pow256((i - 1) as nat),
        decreases n - i,
    {
        proof {
            lemma_pow256_monotone((i - 1) as nat, 14);
            lemma_pow256_16();
            reveal_with_fuel(pow256, 3);
        }
        assert(p * 256 <= 128 * pow256(15)) by (nonlinear_arith)
            requires
                p == 128 * pow256((i - 1) as nat),
                pow256((i - 1) as nat) <= pow256(14),
                pow256(15) == 256 * pow256(14),
        ;
        assert(128 * pow256(15) < 0x1_0000_0000_0000_0000_0000_0000_0000_0000) by {
            lemma_pow256_16();
        }
        assert(p * 256 == 128 * pow256(i as nat)) by (nonlinear_arith)
            requires
                p == 128 * pow256((i - 1) as nat),
                pow256(i as nat) == 256 * pow256((i - 1) as nat),
        ;
        p = p * 256;
        i = i + 1;
    }
    p
}

/// The signed number that the `n`-byte two's complement pattern `u` denotes.
pub fn to_signed(u: u128, n: usize) -> (r: i128)
    requires
        1 <= n <= 16,
        u < pow256(n as nat),
    ensures
        r as int == signed_of(u as nat, n as nat),
{
    let half = half_of(n);
    proof {
        lemma_half256(n as nat);
        lemma_pow256_monotone(n as nat, 16);
        lemma_pow256_16();
    }
    if u >= half {
        (u - half) as i128 - (half - 1) as i128 - 1
    } else {
        u as i128
    }
}

/// The `n`-byte two's complement pattern of `v`.
pub fn to_unsigned(v: i128, n: usize) -> (r: u128)
    requires
        1 <= n <= 16,
        -half256(n as nat) <= v < half256(n as nat),
    ensures
        r as nat == unsigned_of(v as int, n as nat),
{
    let half = half_of(n);
    proof {
        lemma_half256(n as nat);
        lemma_pow256_monotone(n as nat, 16);
        lemma_pow256_16();
    }
    if v < 0 {
        (v + (half - 1) as i128 + 1) as u128 + half
    } else {
        v as u128
    }
}

/// Byte `k` of the little-endian bytes of `x` is `x` shifted right by `8k`
/// bits, cut to a byte.
pub proof fn lemma_le_bytes_index(x: nat, n: nat, k: nat)
    requires
        k < n,
    ensures
        le_bytes(x, n)[k as int] == (x / pow256(k)) % 256,
    decreases k,
{
    lemma_le_bytes_len(x, n);
    let s = le_bytes(x, n);
    assert(s == seq![(x % 256) as u8] + le_bytes(x / 256, (n - 1) as nat));
    if k > 0 {
        lemma_le_bytes_index(x / 256, (n - 1) as nat, (k - 1) as nat);
        lemma_pow256_positive((k - 1) as nat);
        vstd::arithmetic::div_mod::lemma_div_denominator(x as int, 256, pow256((k - 1) as nat) as int);
        assert(s[k as int] == le_bytes(x / 256, (n - 1) as nat)[k - 1]);
        assert(pow256(k) == 256 * pow256((k - 1) as nat));
    } else {
        assert(pow256(0) == 1);
        assert(x / 1 == x);
    }
}

/// `pow256` is `256` raised to a power as vstd counts it.
pub proof fn lemma_pow256_is_pow(n: nat)
    ensures
        pow256(n) == vstd::arithmetic::power::pow(256, n),
    decreases n,
{
    reveal(vstd::arithmetic::power::pow);
    if n > 0 {
        lemma_pow256_is_pow((n - 1) as nat);
    }
}

} // verus!
