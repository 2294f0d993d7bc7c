//! Big-endian byte encodings of unsigned integers, together with the
//! lexicographic-ordering facts that make them usable as order-preserving
//! binary keys.

use vstd::prelude::*;
use vstd::arithmetic::div_mod::{
    lemma_div_is_ordered, lemma_fundamental_div_mod, lemma_mod_division_less_than_divisor,
    lemma_multiply_divide_lt,
};

verus! {

/// 256 raised to `n`: the number of byte strings of length `n`.
pub open spec fn pow256(n: nat) -> nat
    decreases n,
{
    if n == 0 {
        1
    } else {
        256 * pow256((n - 1) as nat)
    }
}

pub proof fn lemma_pow256_pos(n: nat)
    ensures
        pow256(n) >= 1,
    decreases n,
{
    if n > 0 {
        lemma_pow256_pos((n - 1) as nat);
    }
}

pub proof fn lemma_pow256_increases(m: nat, n: nat)
    requires
        m <= n,
    ensures
        pow256(m) <= pow256(n),
    decreases n,
{
    if m < n {
        lemma_pow256_increases(m, (n - 1) as nat);
        lemma_pow256_pos((n - 1) as nat);
    }
}

/// The `n` big-endian bytes of `x % pow256(n)`, most significant first.
pub open spec fn be_bytes(x: nat, n: nat) -> Seq<u8>
    decreases n,
{
    if n == 0 {
        Seq::empty()
    } else {
        be_bytes(x / 256, (n - 1) as nat).push((x % 256) as u8)
    }
}

/// The natural number denoted by a big-endian byte string.
pub open spec fn from_be_bytes(s: Seq<u8>) -> nat
    decreases s.len(),
{
    if s.len() == 0 {
        0
    } else {
        from_be_bytes(s.drop_last()) * 256 + (s.last() as nat)
    }
}

/// Strict lexicographic order on byte strings: a proper prefix comes first,
/// otherwise the first differing byte decides.
pub open spec fn lex_lt(a: Seq<u8>, b: Seq<u8>) -> bool
    decreases a.len(),
{
    0 < b.len() && (a.len() == 0 || a[0] < b[0] || (a[0] == b[0] && lex_lt(
        a.drop_first(),
        b.drop_first(),
    )))
}

pub proof fn lemma_be_bytes_len(x: nat, n: nat)
    ensures
        be_bytes(x, n).len() == n,
    decreases n,
{
    if n > 0 {
        lemma_be_bytes_len(x / 256, (n - 1) as nat);
    }
}

/// Decoding inverts encoding for every value that fits in `n` bytes.
pub proof fn lemma_from_be_be(x: nat, n: nat)
    requires
        x < pow256(n),
    ensures
        from_be_bytes(be_bytes(x, n)) == x,
    decreases n,
{
    if n == 0 {
    } else {
        let m = (n - 1) as nat;
        lemma_pow256_pos(m);
        lemma_multiply_divide_lt(x as int, 256, pow256(m) as int);
        lemma_from_be_be(x / 256, m);
        let s = be_bytes(x, n);
        assert(s.drop_last() =~= be_bytes(x / 256, m));
        lemma_fundamental_div_mod(x as int, 256);
        lemma_mod_division_less_than_divisor(x as int, 256);
    }
}

/// Every `n`-byte string denotes a value below `pow256(n)`.
pub proof fn lemma_from_be_bound(s: Seq<u8>)
    ensures
        from_be_bytes(s) < pow256(s.len()),
    decreases s.len(),
{
    if s.len() > 0 {
        lemma_from_be_bound(s.drop_last());
        assert(s.last() < 256);
    }
}

/// On equal-length strings, appending one byte to each refines the order:
/// the longer strings compare by the old prefix first, then by the new byte.
proof fn lemma_lex_lt_push(a: Seq<u8>, b: Seq<u8>, p: u8, q: u8)
    requires
        a.len() == b.len(),
    ensures
        lex_lt(a.push(p), b.push(q)) <==> (lex_lt(a, b) || (a == b && p < q)),
    decreases a.len(),
{
    if a.len() == 0 {
        assert(a.push(p)[0] == p);
        assert(b.push(q)[0] == q);
        assert(a.push(p).drop_first() =~= Seq::<u8>::empty());
        assert(b.push(q).drop_first() =~= Seq::<u8>::empty());
        assert(a =~= b);
        assert(!lex_lt(Seq::<u8>::empty(), Seq::<u8>::empty()));
        assert(lex_lt(a.push(p), b.push(q)) <==> p < q);
    } else {
        assert(a.push(p)[0] == a[0]);
        assert(b.push(q)[0] == b[0]);
        assert(a.push(p).drop_first() =~= a.drop_first().push(p));
        assert(b.push(q).drop_first() =~= b.drop_first().push(q));
        lemma_lex_lt_push(a.drop_first(), b.drop_first(), p, q);
        if a[0] == b[0] && a.drop_first() == b.drop_first() {
            assert forall|i: int| 0 <= i < a.len() implies a[i] == b[i] by {
                if i > 0 {
                    assert(a.drop_first()[i - 1] == b.drop_first()[i - 1]);
                }
            }
            assert(a =~= b);
        }
        if a == b {
            assert(a[0] == b[0]);
            assert(a.drop_first() == b.drop_first());
        }
    }
}

/// Numeric order coincides with lexicographic order on the encodings:
/// the ordering-preservation half of the integer key contract.
pub proof fn lemma_be_bytes_order(x: nat, y: nat, n: nat)
    requires
        x < y,
        y < pow256(n),
    ensures
        lex_lt(be_bytes(x, n), be_bytes(y, n)),
    decreases n,
{
    if n == 0 {
        // impossible: y < pow256(0) == 1 contradicts x < y
    } else {
        let m = (n - 1) as nat;
        lemma_pow256_pos(m);
        lemma_multiply_divide_lt(y as int, 256, pow256(m) as int);
        lemma_be_bytes_len(x / 256, m);
        lemma_be_bytes_len(y / 256, m);
        lemma_lex_lt_push(
            be_bytes(x / 256, m),
            be_bytes(y / 256, m),
            (x % 256) as u8,
            (y % 256) as u8,
        );
        lemma_div_is_ordered(x as int, y as int, 256);
        if x / 256 < y / 256 {
            lemma_be_bytes_order(x / 256, y / 256, m);
        } else {
            lemma_fundamental_div_mod(x as int, 256);
            lemma_fundamental_div_mod(y as int, 256);
            assert(x % 256 < y % 256);
        }
    }
}

/// Encoding is injective on values that fit in `n` bytes.
pub proof fn lemma_be_bytes_injective(x: nat, y: nat, n: nat)
    requires
        x < pow256(n),
        y < pow256(n),
        be_bytes(x, n) == be_bytes(y, n),
    ensures
        x == y,
{
    lemma_from_be_be(x, n);
    lemma_from_be_be(y, n);
}

/// Writes the `n`-byte big-endian encoding of `x` into a fresh array.
pub fn to_be_array<const N: usize>(x: u128) -> (r: [u8; N])
    requires
        N <= 16,
    ensures
        r@ == be_bytes(x as nat, N as nat),
{
    broadcast use vstd::array::group_array_axioms;

    let mut arr = [0u8; N];
    let mut val = x;
    let mut j: usize = N;
    proof {
        assert(be_bytes(x as nat, N as nat) =~= be_bytes(val as nat, j as nat) + arr@.subrange(
            j as int,
            N as int,
        ));
    }
    while j > 0
        invariant
            j <= N,
            arr@.len() == N,
            be_bytes(x as nat, N as nat) == be_bytes(val as nat, j as nat) + arr@.subrange(
                j as int,
                N as int,
            ),
        decreases j,
    {
        let ghost old_arr = arr@;
        let ghost old_val = val as nat;
        j = j - 1;
        arr[j] = (val % 256) as u8;
        val = val / 256;
        proof {
            assert(arr@ =~= old_arr.update(j as int, ((old_val % 256) as u8)));
            assert(arr@.subrange(j as int + 1, N as int) =~= old_arr.subrange(
                j as int + 1,
                N as int,
            ));
            assert(be_bytes(old_val, (j + 1) as nat) == be_bytes(val as nat, j as nat).push(
                (old_val % 256) as u8,
            ));
            assert(arr@.subrange(j as int, N as int) =~= seq![(old_val % 256) as u8]
                + arr@.subrange(j as int + 1, N as int));
            assert(be_bytes(val as nat, j as nat).push((old_val % 256) as u8) + arr@.subrange(
                j as int + 1,
                N as int,
            ) =~= be_bytes(val as nat, j as nat) + arr@.subrange(j as int, N as int));
        }
    }
    proof {
        assert(be_bytes(x as nat, N as nat) =~= arr@);
    }
    arr
}

/// `pow256(16)` is one past the largest `u128`.
pub proof fn lemma_pow256_16()
    ensures
        pow256(16) == 0x100000000000000000000000000000000,
{
    reveal_with_fuel(pow256, 17);
}

/// `pow256(8)` is one past the largest `u64`.
pub proof fn lemma_pow256_8()
    ensures
        pow256(8) == 0x10000000000000000,
{
    reveal_with_fuel(pow256, 9);
}

/// Reads `n` big-endian bytes starting at `off` as an unsigned integer.
pub fn from_be_at(s: &[u8], off: usize, n: usize) -> (x: u128)
    requires
        off + n <= s@.len(),
        n <= 16,
    ensures
        x as nat == from_be_bytes(s@.subrange(off as int, off as int + n as int)),
{
    let ghost whole = s@.subrange(off as int, off as int + n as int);
    let slen = s.len();
    let mut val: u128 = 0;
    let mut j: usize = 0;
    proof {
        assert(whole.subrange(0, 0) =~= Seq::<u8>::empty());
    }
    while j < n
        invariant
            j <= n,
            n <= 16,
            off + n <= s@.len(),
            s@.len() == slen,
            whole == s@.subrange(off as int, off as int + n as int),
            val as nat == from_be_bytes(whole.subrange(0, j as int)),
            (val as nat) < pow256(j as nat),
        decreases n - j,
    {
        let b = s[off + j];
        proof {
            lemma_pow256_increases((j + 1) as nat, 16);
            lemma_pow256_16();
            assert((val as nat) * 256 + (b as nat) < pow256((j + 1) as nat)) by (nonlinear_arith)
                requires
                    (val as nat) < pow256(j as nat),
                    (b as nat) < 256,
                    pow256((j + 1) as nat) == 256 * pow256(j as nat),
            ;
            let prefix = whole.subrange(0, j as int + 1);
            assert(prefix.drop_last() =~= whole.subrange(0, j as int));
            assert(prefix.last() == whole[j as int]);
            assert(b == whole[j as int]);
        }
        val = val * 256 + (b as u128);
        j = j + 1;
    }
    proof {
        assert(whole.subrange(0, n as int) =~= whole);
    }
    val
}

/// Appends the bytes of `src` to `out`.
pub fn push_bytes(out: &mut Vec<u8>, src: &[u8])
    ensures
        final(out)@ == old(out)@ + src@,
{
    let mut k: usize = 0;
    while k < src.len()
        invariant
            k <= src@.len(),
            out@ == old(out)@ + src@.subrange(0, k as int),
        decreases src@.len() - k,
    {
        let ghost prev = out@;
        out.push(src[k]);
        proof {
            assert(prev.push(src@[k as int]) =~= old(out)@ + src@.subrange(0, k as int + 1));
        }
        k = k + 1;
    }
    proof {
        assert(src@.subrange(0, src@.len() as int) =~= src@);
    }
}

} // verus!
