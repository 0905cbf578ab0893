//! Little-endian correspondence between byte strings and unsigned values,
//! with the round-trip lemmas the scalar codec builds on.

use vstd::prelude::*;

verus! {

/// `256` to the power `w`: the number of values `w` bytes can hold.
pub open spec fn pow256(w: nat) -> nat
    decreases w,
{
    if w == 0 {
        1
    } else {
        256 * pow256((w - 1) as nat)
    }
}

/// The unsigned value of a little-endian byte string (first byte least
/// significant).
pub open spec fn le_val(bs: Seq<u8>) -> nat
    decreases bs.len(),
{
    if bs.len() == 0 {
        0
    } else {
        bs[0] as nat + 256 * le_val(bs.drop_first())
    }
}

/// The `w`-byte little-endian rendering of `v` (modulo `pow256(w)`).
pub open spec fn le_bytes(v: nat, w: nat) -> Seq<u8>
    decreases w,
{
    if w == 0 {
        Seq::empty()
    } else {
        seq![(v % 256) as u8] + le_bytes(v / 256, (w - 1) as nat)
    }
}

/// A byte string's value fits in its own width.
pub proof fn lemma_le_val_bound(bs: Seq<u8>)
    ensures
        le_val(bs) < pow256(bs.len()),
    decreases bs.len(),
{
    if bs.len() > 0 {
        lemma_le_val_bound(bs.drop_first());
    }
}

/// The rendering of a value has exactly the requested width.
pub proof fn lemma_le_bytes_len(v: nat, w: nat)
    ensures
        le_bytes(v, w).len() == w,
    decreases w,
{
    if w > 0 {
        lemma_le_bytes_len(v / 256, (w - 1) as nat);
    }
}

/// Rendering a value that fits in `w` bytes and reading it back yields the
/// value again.
pub proof fn lemma_le_round_trip(v: nat, w: nat)
    requires
        v < pow256(w),
    ensures
        le_val(le_bytes(v, w)) == v,
    decreases w,
{
    if w > 0 {
        assert(v / 256 < pow256((w - 1) as nat)) by (nonlinear_arith)
            requires
                v < 256 * pow256((w - 1) as nat),
        ;
        lemma_le_round_trip(v / 256, (w - 1) as nat);
        lemma_le_bytes_len(v / 256, (w - 1) as nat);
        assert(le_bytes(v, w).drop_first() =~= le_bytes(v / 256, (w - 1) as nat));
        assert(le_bytes(v, w)[0] == (v % 256) as u8);
        vstd::arithmetic::div_mod::lemma_fundamental_div_mod(v as int, 256);
    }
}

/// Reading a byte string and rendering the value at the same width yields
/// the bytes again.
pub proof fn lemma_le_bytes_of_val(bs: Seq<u8>)
    ensures
        le_bytes(le_val(bs), bs.len()) == bs,
    decreases bs.len(),
{
    if bs.len() > 0 {
        let v = le_val(bs);
        assert(v == bs[0] + 256 * le_val(bs.drop_first()));
        assert(v % 256 == bs[0] && v / 256 == le_val(bs.drop_first())) by (nonlinear_arith)
            requires
                v == bs[0] + 256 * le_val(bs.drop_first()),
                0 <= bs[0] < 256,
                le_val(bs.drop_first()) >= 0,
        ;
        lemma_le_bytes_of_val(bs.drop_first());
        assert(le_bytes(v, bs.len()) =~= bs);
    }
}

/// Computes the value of up to sixteen little-endian bytes.
pub fn le_val_u128(bytes: &Vec<u8>) -> (r: u128)
    requires
        bytes@.len() <= 16,
    ensures
        r as nat == le_val(bytes@),
{
    let mut acc: u128 = 0;
    let mut i: usize = bytes.len();
    while i > 0
        invariant
            0 <= i <= bytes@.len() <= 16,
            acc as nat == le_val(bytes@.skip(i as int)),
        decreases i,
    {
        proof {
            lemma_le_val_bound(bytes@.skip(i as int));
            lemma_pow256_le(bytes@.skip(i as int).len(), 15);
            reveal_with_fuel(pow256, 16);
            assert(pow256(15) == 0x1000000000000000000000000000000);
            assert(bytes@.skip(i - 1).drop_first() =~= bytes@.skip(i as int));
            assert(bytes@.skip(i - 1)[0] == bytes@[i - 1]);
        }
        i = i - 1;
        acc = acc * 256 + (bytes[i] as u128);
    }
    proof {
        assert(bytes@.skip(0) =~= bytes@);
    }
    acc
}

/// `pow256` is monotone in the exponent.
proof fn lemma_pow256_le(a: nat, b: nat)
    requires
        a <= b,
    ensures
        pow256(a) <= pow256(b),
    decreases b,
{
    if a < b && b > 0 {
        lemma_pow256_le(a, (b - 1) as nat);
        assert(pow256(b) == 256 * pow256((b - 1) as nat));
        assert(pow256((b - 1) as nat) <= 256 * pow256((b - 1) as nat)) by (nonlinear_arith)
            requires
                pow256((b - 1) as nat) >= 0,
        ;
    }
}

/// Renders the low `width` bytes of `v`, least significant first.
pub fn le_bytes_u128(v: u128, width: usize) -> (r: Vec<u8>)
    ensures
        r@ == le_bytes(v as nat, width as nat),
{
    let mut out: Vec<u8> = Vec::new();
    let mut cur: u128 = v;
    let mut i: usize = 0;
    while i < width
        invariant
            0 <= i <= width,
            le_bytes(v as nat, width as nat) =~= out@ + le_bytes(
                cur as nat,
                (width - i) as nat,
            ),
        decreases width - i,
    {
        let ghost prev = cur as nat;
        let ghost prefix = out@;
        out.push((cur % 256) as u8);
        cur = cur / 256;
        i = i + 1;
        proof {
            assert(le_bytes(prev, (width - i + 1) as nat) =~= seq![(prev % 256) as u8]
                + le_bytes(prev / 256, (width - i) as nat));
            assert(prefix + le_bytes(prev, (width - i + 1) as nat) =~= out@ + le_bytes(
                cur as nat,
                (width - i) as nat,
            ));
        }
    }
    proof {
        assert(le_bytes(cur as nat, 0) =~= Seq::<u8>::empty());
        assert(out@ + Seq::<u8>::empty() =~= out@);
    }
    out
}

} // verus!
