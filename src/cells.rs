//! Little-endian cells in a byte buffer: how an `n`-byte unsigned value is
//! laid out from a start address, and the reads and writes that move it.

use vstd::prelude::*;
use vstd::arithmetic::div_mod::lemma_mod_breakdown;

verus! {

/// `256^k`.
pub open spec fn pow256(k: nat) -> nat
    decreases k,
{
    if k == 0 {
        1
    } else {
        256 * pow256((k - 1) as nat)
    }
}

/// The unsigned value of the `n` bytes starting at `a`, least significant first.
pub open spec fn decode(bytes: Seq<u8>, a: int, n: nat) -> nat
    decreases n,
{
    if n == 0 {
        0
    } else {
        decode(bytes, a, (n - 1) as nat) + pow256((n - 1) as nat) * (bytes[a + n - 1] as nat)
    }
}

/// Byte `k` (least significant first) of `v`.
pub open spec fn byte_of(v: nat, k: nat) -> u8 {
    ((v / pow256(k)) % 256) as u8
}

/// `bytes` with the `n` bytes from `a` holding `v`, least significant first.
pub open spec fn write_cell(bytes: Seq<u8>, a: int, n: nat, v: nat) -> Seq<u8>
    decreases n,
{
    if n == 0 {
        bytes
    } else {
        write_cell(bytes, a, (n - 1) as nat, v).update(a + n - 1, byte_of(v, (n - 1) as nat))
    }
}

pub proof fn lemma_pow256_positive(k: nat)
    ensures
        pow256(k) > 0,
    decreases k,
{
    if k > 0 {
        lemma_pow256_positive((k - 1) as nat);
    }
}

pub proof fn lemma_pow256_values()
    ensures
        pow256(1) == 0x100,
        pow256(2) == 0x1_0000,
        pow256(4) == 0x1_0000_0000,
        pow256(8) == 0x1_0000_0000_0000_0000,
{
    reveal_with_fuel(pow256, 9);
}

/// A decoded cell is below `256^n`.
pub proof fn lemma_decode_bound(bytes: Seq<u8>, a: int, n: nat)
    requires
        0 <= a,
        a + n <= bytes.len(),
    ensures
        decode(bytes, a, n) < pow256(n),
    decreases n,
{
    if n > 0 {
        let m = (n - 1) as nat;
        lemma_decode_bound(bytes, a, m);
        let b = bytes[a + n - 1] as int;
        let p = pow256(m) as int;
        let d = decode(bytes, a, m) as int;
        assert(d + p * b < 256 * p) by (nonlinear_arith)
            requires
                0 <= d < p,
                0 <= b < 256,
        ;
    }
}

/// A cell depends only on its own bytes.
pub proof fn lemma_decode_frame(b1: Seq<u8>, b2: Seq<u8>, a: int, n: nat)
    requires
        forall|i: int| a <= i < a + n ==> b1[i] == b2[i],
    ensures
        decode(b1, a, n) == decode(b2, a, n),
    decreases n,
{
    if n > 0 {
        lemma_decode_frame(b1, b2, a, (n - 1) as nat);
    }
}

/// Writing a cell keeps the length and every byte outside the cell.
pub proof fn lemma_write_frame(bytes: Seq<u8>, a: int, n: nat, v: nat)
    requires
        0 <= a,
        a + n <= bytes.len(),
    ensures
        write_cell(bytes, a, n, v).len() == bytes.len(),
        forall|i: int|
            0 <= i < bytes.len() && !(a <= i < a + n) ==> #[trigger] write_cell(bytes, a, n, v)[i]
                == bytes[i],
    decreases n,
{
    if n > 0 {
        lemma_write_frame(bytes, a, (n - 1) as nat, v);
    }
}

/// The byte at position `a + k` of a written cell is byte `k` of the value.
pub proof fn lemma_write_bytes(bytes: Seq<u8>, a: int, n: nat, v: nat)
    requires
        0 <= a,
        a + n <= bytes.len(),
    ensures
        forall|k: int| 0 <= k < n ==> #[trigger] write_cell(bytes, a, n, v)[a + k] == byte_of(v, k as nat),
    decreases n,
{
    if n > 0 {
        let m = (n - 1) as nat;
        lemma_write_bytes(bytes, a, m, v);
        lemma_write_frame(bytes, a, m, v);
    }
}

/// Reading back a written cell gives the value modulo `256^n`.
pub proof fn lemma_decode_write(bytes: Seq<u8>, a: int, n: nat, v: nat)
    requires
        0 <= a,
        a + n <= bytes.len(),
    ensures
        decode(write_cell(bytes, a, n, v), a, n) == v % pow256(n),
    decreases n,
{
    if n > 0 {
        let m = (n - 1) as nat;
        lemma_write_frame(bytes, a, m, v);
        lemma_decode_write(bytes, a, m, v);
        let w = write_cell(bytes, a, n, v);
        let w1 = write_cell(bytes, a, m, v);
        lemma_decode_frame(w, w1, a, m);
        lemma_pow256_positive(m);
        lemma_mod_breakdown(v as int, pow256(m) as int, 256);
        assert(pow256(m) * 256 == pow256(n)) by (nonlinear_arith)
            requires
                pow256(n) == 256 * pow256(m),
        ;
    }
}

/// Writing a cell's own value over it changes nothing.
pub proof fn lemma_write_decoded(bytes: Seq<u8>, a: int, n: nat)
    requires
        0 <= a,
        a + n <= bytes.len(),
    ensures
        write_cell(bytes, a, n, decode(bytes, a, n)) == bytes,
{
    let v = decode(bytes, a, n);
    let w = write_cell(bytes, a, n, v);
    lemma_write_frame(bytes, a, n, v);
    lemma_write_bytes(bytes, a, n, v);
    assert forall|i: int| 0 <= i < bytes.len() implies w[i] == bytes[i] by {
        if a <= i < a + n {
            lemma_byte_of_decode(bytes, a, n, (i - a) as nat);
            assert(w[a + (i - a)] == byte_of(v, (i - a) as nat));
        }
    }
    assert(w =~= bytes);
}

/// Byte `k` of a decoded cell is the byte stored at `a + k`.
pub proof fn lemma_byte_of_decode(bytes: Seq<u8>, a: int, n: nat, k: nat)
    requires
        0 <= a,
        a + n <= bytes.len(),
        k < n,
    ensures
        byte_of(decode(bytes, a, n), k) == bytes[a + k],
    decreases n,
{
    let m = (n - 1) as nat;
    let d = decode(bytes, a, m) as int;
    let p = pow256(m) as int;
    let b = bytes[a + m] as int;
    lemma_decode_bound(bytes, a, m);
    lemma_pow256_positive(m);
    if k == m {
        assert((d + p * b) / p == b) by (nonlinear_arith)
            requires
                0 <= d < p,
        ;
    } else {
        lemma_byte_of_decode(bytes, a, m, k);
        lemma_pow256_positive(k);
        lemma_pow256_split(k, m);
        let pk = pow256(k) as int;
        let q = pow256((m - k) as nat) as int;
        let t = q * b;
        vstd::arithmetic::div_mod::lemma_fundamental_div_mod(d, pk);
        assert(d + p * b == pk * (d / pk + t) + d % pk) by (nonlinear_arith)
            requires
                p == pk * q,
                t == q * b,
                pk > 0,
                d == pk * (d / pk) + d % pk,
        {
        }
        vstd::arithmetic::div_mod::lemma_fundamental_div_mod(d, pk);
        vstd::arithmetic::div_mod::lemma_fundamental_div_mod_converse_div(d + p * b, pk, d / pk + t, d % pk);
        assert(t == 256 * (q / 256) * b) by (nonlinear_arith)
            requires
                t == q * b,
                q % 256 == 0,
        {
            vstd::arithmetic::div_mod::lemma_fundamental_div_mod(q, 256);
        }
        vstd::arithmetic::div_mod::lemma_mod_multiples_vanish((q / 256) * b, d / pk, 256);
        assert(256 * ((q / 256) * b) == t) by (nonlinear_arith)
            requires
                t == 256 * (q / 256) * b,
        ;
    }
}

/// `256^m` splits at `k`, and the upper factor is a multiple of 256 when `k < m`.
proof fn lemma_pow256_split(k: nat, m: nat)
    requires
        k < m,
    ensures
        pow256(m) == pow256(k) * pow256((m - k) as nat),
        pow256((m - k) as nat) % 256 == 0,
        pow256((m - k) as nat) > 0,
    decreases m,
{
    lemma_pow256_positive((m - k) as nat);
    if m == k + 1 {
        assert(pow256(1) == 256) by {
            reveal_with_fuel(pow256, 2);
        }
    } else {
        lemma_pow256_split(k, (m - 1) as nat);
        let r = pow256((m - 1 - k) as nat);
        assert(pow256((m - k) as nat) == 256 * r);
        assert(pow256(k) * (256 * r) == 256 * (pow256(k) * r)) by (nonlinear_arith);
        assert((256 * r) % 256 == 0) by (nonlinear_arith);
    }
}

} // verus!
