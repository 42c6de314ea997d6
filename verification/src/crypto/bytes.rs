//! Byte strings: fixed-width integer encodings, concatenation and slicing.
use vstd::arithmetic::power;
use vstd::prelude::*;
use vstd::slice::slice_subrange;

verus! {

/// `n` as `width` bytes, least significant first; what does not fit is dropped.
pub open spec fn le_bytes(n: nat, width: nat) -> Seq<u8>
    decreases width,
{
    if width == 0 {
        Seq::empty()
    } else {
        seq![(n % 256) as u8] + le_bytes(n / 256, (width - 1) as nat)
    }
}

/// `n` as `width` bytes, most significant first; what does not fit is dropped.
pub open spec fn be_bytes(n: nat, width: nat) -> Seq<u8> {
    le_bytes(n, width).reverse()
}

/// The number that `s` spells, least significant byte first.
pub open spec fn le_value(s: Seq<u8>) -> nat
    decreases s.len(),
{
    if s.len() == 0 {
        0
    } else {
        s[0] as nat + 256 * le_value(s.skip(1))
    }
}

/// The number that `s` spells, most significant byte first.
pub open spec fn be_value(s: Seq<u8>) -> nat {
    le_value(s.reverse())
}

/// One more than the largest number that `width` bytes can spell.
pub open spec fn byte_range(width: nat) -> nat
    decreases width,
{
    if width == 0 {
        1
    } else {
        256 * byte_range((width - 1) as nat)
    }
}

/// `len` zero bytes.
pub open spec fn zeros(len: nat) -> Seq<u8> {
    Seq::new(len, |i: int| 0u8)
}

pub proof fn lemma_le_bytes_len(n: nat, width: nat)
    ensures
        le_bytes(n, width).len() == width,
    decreases width,
{
    if width > 0 {
        lemma_le_bytes_len(n / 256, (width - 1) as nat);
    }
}

/// A number that fits its width is read back unchanged, in either byte order.
pub proof fn law_integer_round_trip(n: nat, width: nat)
    requires
        n < byte_range(width),
    ensures
        le_value(le_bytes(n, width)) == n,
        be_value(be_bytes(n, width)) == n,
    decreases width,
{
    lemma_le_bytes_len(n, width);
    assert(le_bytes(n, width).reverse().reverse() =~= le_bytes(n, width));
    if width > 0 {
        let rest = le_bytes(n / 256, (width - 1) as nat);
        law_integer_round_trip(n / 256, (width - 1) as nat);
        assert(le_bytes(n, width).skip(1) =~= rest);
    }
}

/// The bytes of a number are its digits in base 256: byte `i`, counted from the
/// least significant one, is digit `i`. A range of numbers with one byte more
/// is 256 times as large.
pub proof fn law_bytes_are_digits(n: nat, width: nat, i: nat)
    requires
        i < width,
    ensures
        le_bytes(n, width).len() == width,
        be_bytes(n, width).len() == width,
        le_bytes(n, width)[i as int] == (n as int / power::pow(256, i)) % 256,
        be_bytes(n, width)[width - 1 - i] == (n as int / power::pow(256, i)) % 256,
        byte_range(width) == power::pow(256, width),
    decreases width,
{
    lemma_le_bytes_len(n, width);
    lemma_byte_range(width);
    if i == 0 {
        power::lemma_pow0(256);
    } else {
        let below = (i - 1) as nat;
        law_bytes_are_digits(n / 256, (width - 1) as nat, below);
        power::lemma_pow_positive(256, below);
        assert(power::pow(256, i) == 256 * power::pow(256, below)) by {
            reveal(power::pow);
        }
        vstd::arithmetic::div_mod::lemma_div_denominator(n as int, 256, power::pow(256, below));
        assert(le_bytes(n, width)[i as int] == le_bytes(n / 256, (width - 1) as nat)[below as int]);
    }
}

proof fn lemma_byte_range(width: nat)
    ensures
        byte_range(width) == power::pow(256, width),
    decreases width,
{
    reveal(power::pow);
    if width > 0 {
        lemma_byte_range((width - 1) as nat);
    }
}

/// The number that bytes spell fits their width, and is written as those bytes
/// again, in either byte order.
pub proof fn law_byte_round_trip(s: Seq<u8>)
    ensures
        le_value(s) < power::pow(256, s.len()),
        le_bytes(le_value(s), s.len()) == s,
        be_bytes(be_value(s), s.len()) == s,
{
    lemma_le_byte_round_trip(s);
    lemma_le_byte_round_trip(s.reverse());
    lemma_byte_range(s.len());
    assert(s.reverse().reverse() =~= s);
}

proof fn lemma_le_byte_round_trip(s: Seq<u8>)
    ensures
        le_value(s) < byte_range(s.len()),
        le_bytes(le_value(s), s.len()) == s,
    decreases s.len(),
{
    if s.len() > 0 {
        lemma_le_byte_round_trip(s.skip(1));
        assert(seq![s[0]] + s.skip(1) =~= s);
    } else {
        assert(s =~= Seq::empty());
    }
}

/// A run of zeros has its length, and holds nothing else.
pub proof fn law_zeros(len: nat)
    ensures
        zeros(len).len() == len,
        forall|i: int| 0 <= i < len ==> #[trigger] zeros(len)[i] == 0,
{
}

/// Two bytes, least significant first.
pub proof fn lemma_le_pair(a: u8, b: u8)
    ensures
        le_value(seq![a, b]) == a + 256 * b,
        be_value(seq![b, a]) == a + 256 * b,
{
    reveal_with_fuel(le_value, 3);
    assert(seq![a, b].skip(1) =~= seq![b]);
    assert(seq![b].skip(1) =~= Seq::<u8>::empty());
    assert(seq![b, a].reverse() =~= seq![a, b]);
}

pub proof fn lemma_le_bytes_pair(n: nat)
    ensures
        le_bytes(n, 2) =~= seq![(n % 256) as u8, (n / 256 % 256) as u8],
        be_bytes(n, 2) =~= seq![(n / 256 % 256) as u8, (n % 256) as u8],
{
    reveal_with_fuel(le_bytes, 3);
}

/// Appends `data` to `out`.
pub fn append(out: &mut Vec<u8>, data: &[u8])
    ensures
        final(out)@ == old(out)@ + data@,
{
    out.extend_from_slice(data);
    assert(out@ =~= old(out)@ + data@);
}

/// Whether two byte strings are the same.
pub fn same(a: &[u8], b: &[u8]) -> (r: bool)
    ensures
        r == (a@ == b@),
{
    if a.len() != b.len() {
        return false;
    }
    let mut i: usize = 0;
    while i < a.len()
        invariant
            i <= a@.len(),
            a@.len() == b@.len(),
            forall|j: int| 0 <= j < i ==> a@[j] == b@[j],
        decreases a@.len() - i,
    {
        if a[i] != b[i] {
            assert(a@[i as int] != b@[i as int]);
            return false;
        }
        i = i + 1;
    }
    assert(a@ =~= b@);
    true
}

/// The length of a byte string as two bytes, least significant first.
pub fn len_to_le(len: usize) -> (r: [u8; 2])
    ensures
        r@ == le_bytes(len as nat, 2),
        r@ == seq![(len % 256) as u8, (len / 256 % 256) as u8],
{
    let r: [u8; 2] = [(len % 256) as u8, (len / 256 % 256) as u8];
    proof {
        lemma_le_bytes_pair(len as nat);
    }
    assert(r@ =~= le_bytes(len as nat, 2));
    r
}

/// The length of a byte string as two bytes, most significant first.
pub fn len_to_be(len: usize) -> (r: [u8; 2])
    ensures
        r@ == be_bytes(len as nat, 2),
        r@ == seq![(len / 256 % 256) as u8, (len % 256) as u8],
{
    let r: [u8; 2] = [(len / 256 % 256) as u8, (len % 256) as u8];
    proof {
        lemma_le_bytes_pair(len as nat);
    }
    assert(r@ =~= be_bytes(len as nat, 2));
    r
}

/// The number spelled by two bytes, `low` being the less significant one.
pub fn pair_value(low: u8, high: u8) -> (r: usize)
    ensures
        r == le_value(seq![low, high]),
        r == be_value(seq![high, low]),
        r == low + 256 * high,
        r < 65536,
{
    proof {
        lemma_le_pair(low, high);
    }
    low as usize + 256 * (high as usize)
}

/// A sequence number as eight bytes, least significant first.
pub fn u64_to_le(n: u64) -> (r: [u8; 8])
    ensures
        r@ == le_bytes(n as nat, 8),
{
    let b0: u8 = (n % 256) as u8;
    let n1: u64 = n / 256;
    let b1: u8 = (n1 % 256) as u8;
    let n2: u64 = n1 / 256;
    let b2: u8 = (n2 % 256) as u8;
    let n3: u64 = n2 / 256;
    let b3: u8 = (n3 % 256) as u8;
    let n4: u64 = n3 / 256;
    let b4: u8 = (n4 % 256) as u8;
    let n5: u64 = n4 / 256;
    let b5: u8 = (n5 % 256) as u8;
    let n6: u64 = n5 / 256;
    let b6: u8 = (n6 % 256) as u8;
    let n7: u64 = n6 / 256;
    let b7: u8 = (n7 % 256) as u8;
    let r: [u8; 8] = [b0, b1, b2, b3, b4, b5, b6, b7];
    proof {
        reveal_with_fuel(le_bytes, 9);
    }
    assert(r@ =~= le_bytes(n as nat, 8));
    r
}

/// The low 48 bits of a number as six bytes, most significant first.
pub fn u48_to_be(n: u64) -> (r: [u8; 6])
    ensures
        r@ == be_bytes(n as nat, 6),
{
    let le = u64_to_le(n);
    let r: [u8; 6] = [le[5], le[4], le[3], le[2], le[1], le[0]];
    proof {
        reveal_with_fuel(le_bytes, 9);
    }
    assert(r@ =~= be_bytes(n as nat, 6));
    r
}

/// The number spelled by the eight bytes of `s` from `at` on, least
/// significant first.
pub fn u64_from_le(s: &[u8], at: usize) -> (r: u64)
    requires
        at + 8 <= s@.len(),
    ensures
        r == le_value(s@.subrange(at as int, at + 8)),
{
    let mut r: u64 = 0;
    let mut i: usize = 8;
    let ghost all = s@.subrange(at as int, at + 8);
    proof {
        reveal_with_fuel(byte_range, 9);
        assert(all.skip(8) =~= Seq::<u8>::empty());
    }
    while i > 0
        invariant
            i <= 8,
            at + 8 <= s@.len(),
            all == s@.subrange(at as int, at + 8),
            r == le_value(all.skip(i as int)),
            r < byte_range((8 - i) as nat),
            s.len() == s@.len(),
        decreases i,
    {
        i = i - 1;
        proof {
            assert(all.skip(i as int)[0] == s@[at + i]);
            assert(all.skip(i as int).skip(1) =~= all.skip(i + 1));
            reveal_with_fuel(byte_range, 9);
        }
        r = s[at + i] as u64 + 256 * r;
    }
    assert(all.skip(0) =~= all);
    r
}

/// The 32 bytes of `s` from `at` on.
pub fn take32(s: &[u8], at: usize) -> (r: [u8; 32])
    requires
        at + 32 <= s@.len(),
    ensures
        r@ == s@.subrange(at as int, at + 32),
{
    let mut r: [u8; 32] = [0u8; 32];
    let mut i: usize = 0;
    while i < 32
        invariant
            i <= 32,
            at + 32 <= s@.len(),
            s.len() == s@.len(),
            forall|j: int| 0 <= j < i ==> r@[j] == s@[at + j],
        decreases 32 - i,
    {
        r[i] = s[at + i];
        i = i + 1;
    }
    assert(r@ =~= s@.subrange(at as int, at + 32));
    r
}

/// The bytes of `s` from `at` on.
pub fn tail(s: &[u8], at: usize) -> (r: &[u8])
    requires
        at <= s@.len(),
    ensures
        r@ == s@.skip(at as int),
{
    let r = slice_subrange(s, at, s.len());
    assert(r@ =~= s@.skip(at as int));
    r
}

} // verus!
