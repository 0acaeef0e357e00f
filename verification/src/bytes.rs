//! Little-endian numbers in byte sequences.
use vstd::prelude::*;

verus! {

/// The number that bytes write, least significant first.
pub open spec fn le_value(s: Seq<u8>) -> nat
    decreases s.len(),
{
    if s.len() == 0 {
        0
    } else {
        s[0] as nat + 256 * le_value(s.skip(1))
    }
}

/// The first `n` bytes of a number, least significant first.
pub open spec fn le_bytes(v: nat, n: nat) -> Seq<u8>
    decreases n,
{
    if n == 0 {
        Seq::empty()
    } else {
        seq![(v % 256) as u8] + le_bytes(v / 256, (n - 1) as nat)
    }
}

/// How many numbers `n` bytes can write.
pub open spec fn le_range(n: nat) -> nat
    decreases n,
{
    if n == 0 {
        1
    } else {
        256 * le_range((n - 1) as nat)
    }
}

/// A number in enough bytes is read back as itself.
pub proof fn law_le_reads_back(v: nat, n: nat)
    requires
        v < le_range(n),
    ensures
        le_bytes(v, n).len() == n,
        le_value(le_bytes(v, n)) == v,
    decreases n,
{
    if n > 0 {
        law_le_reads_back(v / 256, (n - 1) as nat);
        assert(le_bytes(v, n).skip(1) =~= le_bytes(v / 256, (n - 1) as nat));
    }
}

/// Bytes write a number in their range.
pub proof fn lemma_le_bound(s: Seq<u8>)
    ensures
        le_value(s) < le_range(s.len()),
    decreases s.len(),
{
    if s.len() > 0 {
        lemma_le_bound(s.skip(1));
    }
}

/// Read an `n`-byte number at `at`.
pub fn read_le(bytes: &[u8], at: usize, n: usize) -> (r: u64)
    requires
        n <= 8,
        at + n <= bytes@.len(),
    ensures
        r == le_value(bytes@.subrange(at as int, at + n)),
        r < le_range(n as nat),
{
    assert(at + n <= bytes.len());
    let mut v: u64 = 0;
    let mut i: usize = n;
    while i > 0
        invariant
            i <= n <= 8,
            at + n <= bytes@.len(),
            at + n <= usize::MAX,
            v == le_value(bytes@.subrange(at + i, at + n)),
        decreases i,
    {
        proof {
            let rest = bytes@.subrange(at + i, at + n);
            lemma_le_bound(rest);
            reveal_with_fuel(le_range, 9);
            assert(bytes@.subrange(at + i - 1, at + n).skip(1) =~= rest);
        }
        i -= 1;
        v = v * 256 + bytes[at + i] as u64;
    }
    proof {
        lemma_le_bound(bytes@.subrange(at as int, at + n));
    }
    v
}

/// Append the first `n` bytes of a number.
pub fn push_le(out: &mut Vec<u8>, v: u64, n: usize)
    ensures
        final(out)@ == old(out)@ + le_bytes(v as nat, n as nat),
{
    let mut rest: u64 = v;
    let mut i: usize = 0;
    assert(out@ + le_bytes(v as nat, n as nat) =~= old(out)@ + le_bytes(v as nat, n as nat));
    while i < n
        invariant
            i <= n,
            out@ + le_bytes(rest as nat, (n - i) as nat) == old(out)@ + le_bytes(
                v as nat,
                n as nat,
            ),
        decreases n - i,
    {
        let ghost before = out@;
        out.push((rest % 256) as u8);
        assert(before + le_bytes(rest as nat, (n - i) as nat) =~= out@ + le_bytes(
            (rest / 256) as nat,
            (n - i - 1) as nat,
        ));
        rest = rest / 256;
        i += 1;
    }
    assert(out@ + le_bytes(rest as nat, 0) =~= out@);
}

/// The lowest byte comes first, and behind it the rest of the number.
pub proof fn law_lowest_byte_first(v: nat, b: u8, n: nat)
    ensures
        le_bytes((256 * v + b) as nat, n + 1) == seq![b] + le_bytes(v, n),
        le_bytes(v, n).len() == n,
    decreases n,
{
    assert((256 * v + b) % 256 == b && (256 * v + b) / 256 == v as int) by (nonlinear_arith)
        requires
            b < 256,
    ;
    if n > 0 {
        law_lowest_byte_first(v / 256, 0, (n - 1) as nat);
    }
}

} // verus!
