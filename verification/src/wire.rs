//! Fixed-width integers in byte buffers.

use vstd::prelude::*;

verus! {

/// The order of the bytes of an integer in memory.
#[derive(Debug, Clone, Copy, PartialEq, Eq, Structural)]
pub enum ByteOrder {
    Little,
    Big,
}

/// The unsigned number that the bytes `i..i + n` of `b` stand for.
pub open spec fn word(b: Seq<u8>, i: int, n: nat, order: ByteOrder) -> nat
    decreases n,
{
    if n == 0 {
        0
    } else {
        match order {
            ByteOrder::Little => b[i] as nat + 256 * word(b, i + 1, (n - 1) as nat, order),
            ByteOrder::Big => 256 * word(b, i, (n - 1) as nat, order) + b[i + n - 1] as nat,
        }
    }
}

/// The bytes of `v` in the given order, `n` of them.
pub open spec fn word_bytes(v: nat, n: nat, order: ByteOrder) -> Seq<u8>
    decreases n,
{
    if n == 0 {
        Seq::empty()
    } else {
        match order {
            ByteOrder::Little => seq![(v % 256) as u8] + word_bytes(v / 256, (n - 1) as nat, order),
            ByteOrder::Big => word_bytes(v / 256, (n - 1) as nat, order).push((v % 256) as u8),
        }
    }
}

/// 256 to the power `n`.
pub open spec fn pow256(n: nat) -> nat
    decreases n,
{
    if n == 0 {
        1
    } else {
        256 * pow256((n - 1) as nat)
    }
}

/// `n` bytes hold less than 256 to the power `n`.
pub proof fn lemma_word_bound(b: Seq<u8>, i: int, n: nat, order: ByteOrder)
    ensures
        word(b, i, n, order) < pow256(n),
    decreases n,
{
    if n > 0 {
        match order {
            ByteOrder::Little => lemma_word_bound(b, i + 1, (n - 1) as nat, order),
            ByteOrder::Big => lemma_word_bound(b, i, (n - 1) as nat, order),
        }
    }
}

/// Only the bytes that are read matter.
pub proof fn lemma_word_local(a: Seq<u8>, i: int, b: Seq<u8>, j: int, n: nat, order: ByteOrder)
    requires
        forall|k: int| 0 <= k < n ==> #[trigger] a[i + k] == b[j + k],
    ensures
        word(a, i, n, order) == word(b, j, n, order),
    decreases n,
{
    if n > 0 {
        assert(a[i + 0] == b[j + 0]);
        assert(a[i + (n - 1)] == b[j + (n - 1)]);
        match order {
            ByteOrder::Little => {
                assert forall|k: int| 0 <= k < n - 1 implies #[trigger] a[i + 1 + k] == b[j + 1
                    + k] by {
                    assert(a[i + (k + 1)] == b[j + (k + 1)]);
                }
                lemma_word_local(a, i + 1, b, j + 1, (n - 1) as nat, order)
            },
            ByteOrder::Big => lemma_word_local(a, i, b, j, (n - 1) as nat, order),
        }
    }
}

/// Reading a written word gives the number back.
pub proof fn lemma_word_round_trip(v: nat, n: nat, order: ByteOrder)
    requires
        v < pow256(n),
    ensures
        word_bytes(v, n, order).len() == n,
        word(word_bytes(v, n, order), 0, n, order) == v,
    decreases n,
{
    if n > 0 {
        let m = (n - 1) as nat;
        lemma_word_round_trip(v / 256, m, order);
        let inner = word_bytes(v / 256, m, order);
        let all = word_bytes(v, n, order);
        match order {
            ByteOrder::Little => {
                assert forall|k: int| 0 <= k < m implies #[trigger] all[1 + k] == inner[0 + k] by {}
                lemma_word_local(all, 1, inner, 0, m, order);
            },
            ByteOrder::Big => {
                assert forall|k: int| 0 <= k < m implies #[trigger] all[0 + k] == inner[0 + k] by {}
                lemma_word_local(all, 0, inner, 0, m, order);
            },
        }
    }
}

/// Reads two bytes.
pub fn read_u16(b: &[u8], i: usize, order: ByteOrder) -> (r: u16)
    requires
        i + 2 <= b@.len(),
    ensures
        r == word(b@, i as int, 2, order),
{
    proof {
        reveal_with_fuel(word, 3);
    }
    match order {
        ByteOrder::Little => b[i] as u16 + 256 * b[i + 1] as u16,
        ByteOrder::Big => 256 * b[i] as u16 + b[i + 1] as u16,
    }
}

/// Reads four bytes.
pub fn read_u32(b: &[u8], i: usize, order: ByteOrder) -> (r: u32)
    requires
        i + 4 <= b@.len(),
    ensures
        r == word(b@, i as int, 4, order),
{
    proof {
        reveal_with_fuel(word, 5);
    }
    let b0: u32 = b[i] as u32;
    let b1: u32 = b[i + 1] as u32;
    let b2: u32 = b[i + 2] as u32;
    let b3: u32 = b[i + 3] as u32;
    match order {
        ByteOrder::Little => b0 + 0x100 * b1 + 0x1_0000 * b2 + 0x100_0000 * b3,
        ByteOrder::Big => 0x100_0000 * b0 + 0x1_0000 * b1 + 0x100 * b2 + b3,
    }
}

/// Reads eight bytes.
pub fn read_u64(b: &[u8], i: usize, order: ByteOrder) -> (r: u64)
    requires
        i + 8 <= b@.len(),
    ensures
        r == word(b@, i as int, 8, order),
{
    proof {
        assert(b.len() == b@.len());
    }
    let lo: u32 = read_u32(b, i, order);
    let hi: u32 = read_u32(b, i + 4, order);
    proof {
        reveal_with_fuel(word, 9);
    }
    match order {
        ByteOrder::Little => lo as u64 + 0x1_0000_0000 * hi as u64,
        ByteOrder::Big => 0x1_0000_0000 * lo as u64 + hi as u64,
    }
}

proof fn lemma_word_halves(b: Seq<u8>, i: int, order: ByteOrder)
    ensures
        word(b, i, 16, order) == match order {
            ByteOrder::Little => word(b, i, 8, order) + 0x1_0000_0000_0000_0000 * word(
                b,
                i + 8,
                8,
                order,
            ),
            ByteOrder::Big => 0x1_0000_0000_0000_0000 * word(b, i, 8, order) + word(
                b,
                i + 8,
                8,
                order,
            ),
        },
{
    let low = word(b, i, 8, order);
    let high = word(b, i + 8, 8, order);
    reveal_with_fuel(word, 9);
    match order {
        ByteOrder::Little => {
            assert(word(b, i + 8, 8, order) == high);
            assert(word(b, i + 4, 12, order) == b[i + 4] as nat + 0x100 * b[i + 5] as nat
                + 0x1_0000 * b[i + 6] as nat + 0x100_0000 * b[i + 7] as nat + 0x1_0000_0000 * high);
        },
        ByteOrder::Big => {
            assert(word(b, i, 12, order) == 0x1_0000_0000 * low + 0x100_0000 * b[i + 8] as nat
                + 0x1_0000 * b[i + 9] as nat + 0x100 * b[i + 10] as nat + b[i + 11] as nat);
        },
    }
}

/// Reads sixteen bytes.
pub fn read_u128(b: &[u8], i: usize, order: ByteOrder) -> (r: u128)
    requires
        i + 16 <= b@.len(),
    ensures
        r == word(b@, i as int, 16, order),
{
    proof {
        assert(b.len() == b@.len());
    }
    let lo: u64 = read_u64(b, i, order);
    let hi: u64 = read_u64(b, i + 8, order);
    proof {
        lemma_word_halves(b@, i as int, order);
    }
    match order {
        ByteOrder::Little => lo as u128 + 0x1_0000_0000_0000_0000 * hi as u128,
        ByteOrder::Big => 0x1_0000_0000_0000_0000 * lo as u128 + hi as u128,
    }
}

/// The signed 32-bit number that a word stands for.
pub open spec fn as_signed32(v: int) -> int {
    if v >= 0x8000_0000 {
        v - 0x1_0000_0000
    } else {
        v
    }
}

/// Reads four bytes as a signed number in two's complement.
pub fn read_i32(b: &[u8], i: usize, order: ByteOrder) -> (r: i32)
    requires
        i + 4 <= b@.len(),
    ensures
        r == as_signed32(word(b@, i as int, 4, order) as int),
{
    let v: u32 = read_u32(b, i, order);
    if v >= 0x8000_0000 {
        (v as i64 - 0x1_0000_0000) as i32
    } else {
        v as i32
    }
}

/// Appends two bytes.
pub fn push_u16(out: &mut Vec<u8>, v: u16, order: ByteOrder)
    ensures
        final(out)@ == old(out)@ + word_bytes(v as nat, 2, order),
{
    proof {
        reveal_with_fuel(word_bytes, 3);
    }
    let lo: u8 = (v % 256) as u8;
    let hi: u8 = (v / 256) as u8;
    match order {
        ByteOrder::Little => {
            out.push(lo);
            out.push(hi);
        },
        ByteOrder::Big => {
            out.push(hi);
            out.push(lo);
        },
    }
    proof {
        assert(out@ =~= old(out)@ + word_bytes(v as nat, 2, order));
    }
}

/// Appends four bytes.
pub fn push_u32(out: &mut Vec<u8>, v: u32, order: ByteOrder)
    ensures
        final(out)@ == old(out)@ + word_bytes(v as nat, 4, order),
{
    proof {
        reveal_with_fuel(word_bytes, 5);
    }
    let b0: u8 = (v % 256) as u8;
    let b1: u8 = (v / 256 % 256) as u8;
    let b2: u8 = (v / 256 / 256 % 256) as u8;
    let b3: u8 = (v / 256 / 256 / 256 % 256) as u8;
    match order {
        ByteOrder::Little => {
            out.push(b0);
            out.push(b1);
            out.push(b2);
            out.push(b3);
        },
        ByteOrder::Big => {
            out.push(b3);
            out.push(b2);
            out.push(b1);
            out.push(b0);
        },
    }
    proof {
        assert(out@ =~= old(out)@ + word_bytes(v as nat, 4, order));
    }
}

/// `u16::from_ne_bytes`: the number that two bytes stand for in the order of
/// the machine, which is one of the two orders.
#[verifier::external_body]
fn native_u16(first: u8, second: u8) -> (r: u16)
    ensures
        r == first + 256 * second || r == 256 * first + second,
{
    u16::from_ne_bytes([first, second])
}

/// The byte order of this machine: the order in which the bytes 1, 0 read as one
/// is `Little`. Which of the two it is depends on the machine.
pub fn native_order() -> (r: ByteOrder)
    ensures
        r == ByteOrder::Little || r == ByteOrder::Big,
{
    if native_u16(1, 0) == 1 {
        ByteOrder::Little
    } else {
        ByteOrder::Big
    }
}

/// In little-endian order the first byte weighs least, in big-endian order the
/// last one does.
pub proof fn law_byte_orders(b: Seq<u8>, i: int)
    ensures
        word(b, i, 2, ByteOrder::Little) == b[i] + 0x100 * b[i + 1],
        word(b, i, 2, ByteOrder::Big) == 0x100 * b[i] + b[i + 1],
        word(b, i, 4, ByteOrder::Little) == b[i] + 0x100 * b[i + 1] + 0x1_0000 * b[i + 2]
            + 0x100_0000 * b[i + 3],
        word(b, i, 4, ByteOrder::Big) == 0x100_0000 * b[i] + 0x1_0000 * b[i + 1] + 0x100 * b[i + 2]
            + b[i + 3],
{
    reveal_with_fuel(word, 5);
}

/// A word of 32 bits with its highest bit set stands for a negative number.
pub proof fn law_signed_words(v: int)
    requires
        0 <= v < 0x1_0000_0000,
    ensures
        -0x8000_0000 <= as_signed32(v) < 0x8000_0000,
        as_signed32(v) % 0x1_0000_0000 == v,
{
}

} // verus!
