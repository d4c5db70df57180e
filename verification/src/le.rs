//! Fixed-width little-endian integers: what their bytes are, and the
//! executable steps that write and read them.
use vstd::prelude::*;
use taped::Tape;
use crate::error::{error_matches, DecodeError, DecodeFault};
use crate::tape::{tape_byte, tape_bytes, tape_length, tape_pos, tape_position, tape_skip};

verus! {

/// `256` to the power `n`: the number of values that `n` bytes can hold.
pub open spec fn pow256(n: nat) -> nat
    decreases n,
{
    if n == 0 {
        1
    } else {
        256 * pow256((n - 1) as nat)
    }
}

/// The `n` least significant bytes of `x`, least significant first.
pub open spec fn le_bytes(x: nat, n: nat) -> Seq<u8>
    decreases n,
{
    if n == 0 {
        Seq::empty()
    } else {
        seq![(x % 256) as u8] + le_bytes(x / 256, (n - 1) as nat)
    }
}

/// The number whose little-endian bytes are `s`.
pub open spec fn le_value(s: Seq<u8>) -> nat
    decreases s.len(),
{
    if s.len() == 0 {
        0
    } else {
        s[0] as nat + 256 * le_value(s.drop_first())
    }
}

/// The outcome of reading an `n`-byte little-endian number at `pos`: the
/// number and the position after it, or exhaustion at `pos` (position
/// unchanged) when fewer than `n` bytes are left.
pub open spec fn fixed_decode(data: Seq<u8>, pos: int, n: nat) -> (Result<nat, DecodeFault>, int) {
    if pos + n > data.len() {
        (Err(DecodeFault::Exhausted(pos as usize)), pos)
    } else {
        (Ok(le_value(data.subrange(pos, pos + n))), pos + n)
    }
}

pub proof fn lemma_pow256_positive(n: nat)
    ensures
        pow256(n) >= 1,
    decreases n,
{
    if n > 0 {
        lemma_pow256_positive((n - 1) as nat);
    }
}

pub proof fn lemma_pow256_monotonic(a: nat, b: nat)
    requires
        a <= b,
    ensures
        pow256(a) <= pow256(b),
    decreases b,
{
    if a < b {
        lemma_pow256_monotonic(a, (b - 1) as nat);
        lemma_pow256_positive((b - 1) as nat);
    }
}

/// The values of `pow256` at the widths that the format uses.
pub proof fn lemma_pow256_values()
    ensures
        pow256(1) == 0x100,
        pow256(2) == 0x1_0000,
        pow256(4) == 0x1_0000_0000,
        pow256(8) == 0x1_0000_0000_0000_0000,
        pow256(16) == 0x1_0000_0000_0000_0000_0000_0000_0000_0000,
{
    reveal_with_fuel(pow256, 17);
}

pub proof fn lemma_le_bytes_len(x: nat, n: nat)
    ensures
        le_bytes(x, n).len() == n,
    decreases n,
{
    if n > 0 {
        lemma_le_bytes_len(x / 256, (n - 1) as nat);
    }
}

pub proof fn lemma_le_value_bound(s: Seq<u8>)
    ensures
        le_value(s) < pow256(s.len()),
    decreases s.len(),
{
    if s.len() > 0 {
        lemma_le_value_bound(s.drop_first());
    }
}

/// Reading back the `n` bytes of a number below `256^n` gives the number.
pub proof fn lemma_le_roundtrip(x: nat, n: nat)
    requires
        x < pow256(n),
    ensures
        le_value(le_bytes(x, n)) == x,
    decreases n,
{
    if n > 0 {
        let s = le_bytes(x, n);
        lemma_le_bytes_len(x, n);
        assert(s.drop_first() =~= le_bytes(x / 256, (n - 1) as nat));
        lemma_le_roundtrip(x / 256, (n - 1) as nat);
    }
}

/// A fixed-width number written between any two byte strings reads back
/// as itself, and the read ends right after it.
pub proof fn lemma_fixed_roundtrip(x: nat, n: nat, pre: Seq<u8>, post: Seq<u8>)
    requires
        x < pow256(n),
    ensures
        fixed_decode(pre + le_bytes(x, n) + post, pre.len() as int, n)
            == (Ok::<nat, DecodeFault>(x), (pre.len() + n) as int),
{
    lemma_le_bytes_len(x, n);
    let data = pre + le_bytes(x, n) + post;
    assert(data.subrange(pre.len() as int, (pre.len() + n) as int) =~= le_bytes(x, n));
    lemma_le_roundtrip(x, n);
}

/// The byte widths of the fixed-size integers of the format.
pub open spec fn is_width(n: nat) -> bool {
    n == 1 || n == 2 || n == 4 || n == 8 || n == 16
}

/// The byte width of `usize` and `isize` on this platform.
pub open spec fn usize_width() -> nat {
    (usize::BITS / 8) as nat
}

/// `x` is in the range of a signed integer of `n` bytes.
pub open spec fn signed_fits(x: int, n: nat) -> bool {
    -(pow256(n) / 2) <= x < pow256(n) / 2
}

/// The two's complement of `x` in `n` bytes, as an unsigned number.
pub open spec fn twos(x: int, n: nat) -> nat {
    if x < 0 {
        (x + pow256(n)) as nat
    } else {
        x as nat
    }
}

/// The signed number whose two's complement in `n` bytes is `u`.
pub open spec fn untwos(u: nat, n: nat) -> int {
    if u >= pow256(n) / 2 {
        u - pow256(n)
    } else {
        u as int
    }
}

pub proof fn lemma_twos_roundtrip(x: int, n: nat)
    requires
        n >= 1,
        signed_fits(x, n),
    ensures
        twos(x, n) < pow256(n),
        untwos(twos(x, n), n) == x,
{
    lemma_pow256_positive((n - 1) as nat);
    assert(pow256(n) == 256 * pow256((n - 1) as nat));
}

pub proof fn lemma_untwos_fits(u: nat, n: nat)
    requires
        n >= 1,
        u < pow256(n),
    ensures
        signed_fits(untwos(u, n), n),
{
    lemma_pow256_positive((n - 1) as nat);
    assert(pow256(n) == 256 * pow256((n - 1) as nat));
}

/// The byte width of `usize` on this platform, computed.
pub fn usize_bytes() -> (n: usize)
    ensures
        n == usize_width(),
        n == 4 || n == 8,
        usize::MAX < pow256(n as nat),
{
    proof {
        lemma_pow256_values();
    }
    (usize::BITS / 8) as usize
}

/// `256^n` for the widths below sixteen bytes.
pub(crate) fn modulus(n: usize) -> (m: u128)
    requires
        n == 1 || n == 2 || n == 4 || n == 8,
    ensures
        m == pow256(n as nat),
{
    proof {
        lemma_pow256_values();
    }
    if n == 1 {
        0x100
    } else if n == 2 {
        0x1_0000
    } else if n == 4 {
        0x1_0000_0000
    } else {
        0x1_0000_0000_0000_0000
    }
}

/// The two's complement of `x` in `n` bytes.
pub fn to_twos(x: i128, n: usize) -> (u: u128)
    requires
        is_width(n as nat),
        signed_fits(x as int, n as nat),
    ensures
        u == twos(x as int, n as nat),
{
    proof {
        lemma_pow256_values();
    }
    if x >= 0 {
        x as u128
    } else if n == 16 {
        ((x + i128::MAX + 1) as u128) + 0x8000_0000_0000_0000_0000_0000_0000_0000u128
    } else {
        (x + (modulus(n) as i128)) as u128
    }
}

/// The signed number whose two's complement in `n` bytes is `u`.
pub fn from_twos(u: u128, n: usize) -> (x: i128)
    requires
        is_width(n as nat),
        u < pow256(n as nat),
    ensures
        x == untwos(u as nat, n as nat),
{
    proof {
        lemma_pow256_values();
    }
    if n == 16 {
        if u >= 0x8000_0000_0000_0000_0000_0000_0000_0000u128 {
            -((u128::MAX - u) as i128) - 1
        } else {
            u as i128
        }
    } else {
        let m = modulus(n);
        if u >= m / 2 {
            (u as i128) - (m as i128)
        } else {
            u as i128
        }
    }
}

/// Byte `k` of the `n` little-endian bytes of `x` is the `k`-th digit of `x`
/// in base 256.
pub proof fn lemma_le_bytes_index(x: nat, n: nat, k: int)
    requires
        0 <= k < n,
    ensures
        le_bytes(x, n)[k] == ((x / pow256(k as nat)) % 256) as u8,
    decreases n,
{
    lemma_le_bytes_len(x / 256, (n - 1) as nat);
    let t = le_bytes(x / 256, (n - 1) as nat);
    assert(le_bytes(x, n) == seq![(x % 256) as u8] + t);
    if k == 0 {
        assert(pow256(0) == 1);
        assert(x / 1 == x);
    } else {
        assert((seq![(x % 256) as u8] + t)[k] == t[k - 1]);
        lemma_le_bytes_index(x / 256, (n - 1) as nat, k - 1);
        lemma_pow256_positive((k - 1) as nat);
        vstd::arithmetic::div_mod::lemma_div_denominator(x as int, 256, pow256((k - 1) as nat) as int);
        assert(pow256(k as nat) == 256 * pow256((k - 1) as nat));
    }
}

/// Writing back the number that a byte string stands for gives the string.
pub proof fn lemma_le_value_bytes(s: Seq<u8>)
    ensures
        le_bytes(le_value(s), s.len()) == s,
    decreases s.len(),
{
    if s.len() > 0 {
        let r = le_value(s.drop_first());
        lemma_le_value_bytes(s.drop_first());
        let x = s[0] as nat + 256 * r;
        assert(x % 256 == s[0] as nat && x / 256 == r) by (nonlinear_arith)
            requires
                x == s[0] as nat + 256 * r,
                s[0] < 256,
        ;
        assert(le_bytes(x, s.len()) =~= seq![s[0]] + le_bytes(r, (s.len() - 1) as nat));
        assert(s =~= seq![s[0]] + s.drop_first());
    }
}

/// Two's complement and back, for an unsigned number in range.
pub proof fn lemma_untwos_twos(u: nat, n: nat)
    requires
        n >= 1,
        u < pow256(n),
    ensures
        twos(untwos(u, n), n) == u,
{
    lemma_pow256_positive((n - 1) as nat);
    assert(pow256(n) == 256 * pow256((n - 1) as nat));
}

/// Appends the `n` least significant bytes of `x`, least significant first.
pub fn write_le(dest: &mut Vec<u8>, x: u128, n: usize)
    ensures
        final(dest)@ == old(dest)@ + le_bytes(x as nat, n as nat),
{
    let mut cur: u128 = x;
    let mut i: usize = 0;
    while i < n
        invariant
            i <= n,
            dest@ + le_bytes(cur as nat, (n - i) as nat) == old(dest)@ + le_bytes(x as nat, n as nat),
        decreases n - i,
    {
        let ghost before = dest@;
        let ghost rest = le_bytes((cur / 256) as nat, (n - i - 1) as nat);
        assert(le_bytes(cur as nat, (n - i) as nat) == seq![(cur % 256) as u8] + rest);
        dest.push((cur % 256) as u8);
        assert(dest@ + rest =~= before + le_bytes(cur as nat, (n - i) as nat));
        cur = cur / 256;
        i = i + 1;
    }
    assert(le_bytes(cur as nat, 0) =~= Seq::<u8>::empty());
    assert(dest@ =~= dest@ + le_bytes(cur as nat, 0));
}

/// Reads an `n`-byte little-endian number at the tape's position and moves
/// past it, or reports exhaustion at that position and leaves it unmoved.
pub fn read_le(src: &mut Tape<'_, u8>, n: usize) -> (r: Result<u128, DecodeError>)
    requires
        1 <= n <= 16,
    ensures
        tape_bytes(*final(src)) == tape_bytes(*old(src)),
        ({
            let (out, end) = fixed_decode(tape_bytes(*old(src)), tape_pos(*old(src)) as int, n as nat);
            &&& tape_pos(*final(src)) == end
            &&& match out {
                Ok(v) => r == Ok::<u128, DecodeError>(v as u128) && v < pow256(n as nat),
                Err(f) => r matches Err(e) && error_matches(e, f),
            }
        }),
{
    let ghost data = tape_bytes(*src);
    let pos = tape_position(src);
    let len = tape_length(src);
    if n > len || pos > len - n {
        return Err(DecodeError::Exhausted { pos });
    }
    let mut v: u128 = 0;
    let mut i: usize = n;
    proof {
        lemma_pow256_values();
    }
    while i > 0
        invariant
            i <= n <= 16,
            pos + n <= len,
            len == data.len(),
            data == tape_bytes(*src),
            v == le_value(data.subrange(pos + i, pos + n)),
            v < pow256((n - i) as nat),
            pow256(16) == 0x1_0000_0000_0000_0000_0000_0000_0000_0000,
        decreases i,
    {
        let b = tape_byte(src, pos + i - 1);
        proof {
            let s = data.subrange(pos + i - 1, pos + n);
            assert(s.drop_first() =~= data.subrange(pos + i, pos + n));
            lemma_pow256_monotonic((n - i + 1) as nat, 16);
        }
        v = (b as u128) + 256 * v;
        i = i - 1;
    }
    proof {
        lemma_le_value_bound(data.subrange(pos as int, pos + n));
    }
    tape_skip(src, n);
    Ok(v)
}

} // verus!
