//! Little-endian integers as byte sequences.
use vstd::prelude::*;

verus! {

/// 256 to the power `n`.
pub open spec fn pow256(n: nat) -> nat
    decreases n,
{
    if n == 0 {
        1
    } else {
        256 * pow256((n - 1) as nat)
    }
}

/// The `n` low base-256 digits of `x`, least significant first.
pub open spec fn le_bytes(x: nat, n: nat) -> Seq<u8>
    decreases n,
{
    if n == 0 {
        Seq::empty()
    } else {
        seq![(x % 256) as u8] + le_bytes(x / 256, (n - 1) as nat)
    }
}

/// The number whose base-256 digits, least significant first, are `s`.
pub open spec fn le_value(s: Seq<u8>) -> nat
    decreases s.len(),
{
    if s.len() == 0 {
        0
    } else {
        s[0] as nat + 256 * le_value(s.drop_first())
    }
}

pub proof fn lemma_le_bytes_len(x: nat, n: nat)
    ensures
        le_bytes(x, n).len() == n,
    decreases n,
{
    if n > 0 {
        lemma_le_bytes_len(x / 256, (n - 1) as nat);
    }
}

/// Writing a number that fits and reading the digits back gives the number.
pub proof fn lemma_le_value_of_bytes(x: nat, n: nat)
    requires
        x < pow256(n),
    ensures
        le_value(le_bytes(x, n)) == x,
    decreases n,
{
    lemma_le_bytes_len(x, n);
    if n > 0 {
        let p = pow256((n - 1) as nat);
        assert(x / 256 < p) by (nonlinear_arith)
            requires
                x < 256 * p,
        ;
        lemma_le_value_of_bytes(x / 256, (n - 1) as nat);
        assert(le_bytes(x, n).drop_first() =~= le_bytes(x / 256, (n - 1) as nat));
    }
}

/// Reading digits and writing as many of the number gives the digits.
pub proof fn lemma_le_bytes_of_value(s: Seq<u8>)
    ensures
        le_bytes(le_value(s), s.len()) == s,
        le_value(s) < pow256(s.len()),
    decreases s.len(),
{
    if s.len() > 0 {
        lemma_le_bytes_of_value(s.drop_first());
        let v = le_value(s.drop_first());
        assert((s[0] as nat + 256 * v) / 256 == v);
        assert((s[0] as nat + 256 * v) % 256 == s[0] as nat);
        assert(seq![s[0]] + s.drop_first() =~= s);
    } else {
        assert(s =~= Seq::<u8>::empty());
    }
}

pub proof fn lemma_pow256_values()
    ensures
        pow256(2) == 0x1_0000,
        pow256(4) == 0x1_0000_0000,
        pow256(8) == 0x1_0000_0000_0000_0000,
{
    reveal_with_fuel(pow256, 9);
}

/// Appends the `n` low bytes of `x`, least significant first.
pub fn push_le(out: &mut Vec<u8>, x: u64, n: usize)
    ensures
        final(out)@ == old(out)@ + le_bytes(x as nat, n as nat),
{
    let mut rest: u64 = x;
    let mut i: usize = 0;
    while i < n
        invariant
            i <= n,
            out@ + le_bytes(rest as nat, (n - i) as nat) == old(out)@ + le_bytes(
                x as nat,
                n as nat,
            ),
        decreases n - i,
    {
        let ghost before = out@;
        let ghost rest0 = rest;
        out.push((rest % 256) as u8);
        rest = rest / 256;
        i = i + 1;
        proof {
            assert(le_bytes(rest0 as nat, (n - i + 1) as nat) == seq![(rest0 % 256) as u8]
                + le_bytes(rest as nat, (n - i) as nat));
            assert(out@ + le_bytes(rest as nat, (n - i) as nat) =~= before + (seq![
                (rest0 % 256) as u8,
            ] + le_bytes(rest as nat, (n - i) as nat)));
        }
    }
    assert(out@ + le_bytes(rest as nat, 0) =~= out@);
}

/// Reads `n` bytes from position `at` as a little-endian number.
pub fn read_le(data: &[u8], at: usize, n: usize) -> (r: u64)
    requires
        n <= 8,
        at + n <= data@.len(),
    ensures
        r as nat == le_value(data@.subrange(at as int, at + n)),
        (r as nat) < pow256(n as nat),
        le_bytes(r as nat, n as nat) == data@.subrange(at as int, at + n),
{
    let ghost whole = data@.subrange(at as int, at + n);
    let len: usize = data.len();
    let mut r: u64 = 0;
    let mut i: usize = n;
    proof {
        lemma_pow256_values();
        assert(data@.subrange(at + n, at + n) =~= Seq::<u8>::empty());
    }
    while i > 0
        invariant
            i <= n <= 8,
            at + n <= data@.len(),
            data@.len() == len,
            r as nat == le_value(data@.subrange(at + i, at + n)),
        decreases i,
    {
        i = i - 1;
        let ghost tail = data@.subrange(at + i, at + n);
        proof {
            assert(tail.drop_first() =~= data@.subrange(at + i + 1, at + n));
            lemma_le_bytes_of_value(tail);
            lemma_pow256_monotone(tail.len(), 8);
            lemma_pow256_values();
        }
        r = data[at + i] as u64 + 256 * r;
    }
    proof {
        lemma_le_bytes_of_value(whole);
    }
    r
}

pub proof fn lemma_pow256_monotone(a: nat, b: nat)
    requires
        a <= b,
    ensures
        pow256(a) <= pow256(b),
    decreases b,
{
    if a < b {
        lemma_pow256_monotone(a, (b - 1) as nat);
    }
}

/// The unsigned number with the same 32 bits.
pub open spec fn bits32(x: i32) -> u32 {
    x as u32
}

/// The signed number with the same 32 bits.
pub fn signed32(x: u32) -> (r: i32)
    ensures
        bits32(r) == x,
{
    let r = x as i32;
    assert(x as i32 as u32 == x) by (bit_vector);
    r
}

pub proof fn lemma_bits32_injective(a: i32, b: i32)
    requires
        bits32(a) == bits32(b),
    ensures
        a == b,
{
    assert(a as u32 == b as u32 ==> a == b) by (bit_vector);
}

} // verus!
