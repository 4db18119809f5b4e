//! Byte strings: comparison, copying, and the big- and little-endian layouts
//! that chunks and stamps use.

use vstd::prelude::*;

verus! {

/// A 32-byte value: a chunk address, a batch id, a hash or a nonce.
#[derive(Clone, Copy, Debug, PartialEq, Eq, Hash)]
pub struct Bytes32 {
    pub bytes: [u8; 32],
}

impl View for Bytes32 {
    type V = Seq<u8>;

    open spec fn view(&self) -> Seq<u8> {
        self.bytes@
    }
}

/// A 20-byte account address.
#[derive(Clone, Copy, Debug, PartialEq, Eq, Hash)]
pub struct Bytes20 {
    pub bytes: [u8; 20],
}

impl View for Bytes20 {
    type V = Seq<u8>;

    open spec fn view(&self) -> Seq<u8> {
        self.bytes@
    }
}

/// `n` zero bytes.
pub open spec fn zeros(n: nat) -> Seq<u8> {
    Seq::new(n, |i: int| 0u8)
}

/// The value of a byte string read with its most significant byte first.
pub open spec fn be_value(s: Seq<u8>) -> nat
    decreases s.len(),
{
    if s.len() == 0 {
        0
    } else {
        be_value(s.drop_last()) * 256 + s.last() as nat
    }
}

/// The value of a byte string read with its least significant byte first.
pub open spec fn le_value(s: Seq<u8>) -> nat
    decreases s.len(),
{
    if s.len() == 0 {
        0
    } else {
        s[0] as nat + 256 * le_value(s.skip(1))
    }
}

/// `v` in `n` bytes, least significant byte first (higher bytes are dropped).
pub open spec fn le_bytes(v: nat, n: nat) -> Seq<u8>
    decreases n,
{
    if n == 0 {
        Seq::empty()
    } else {
        seq![(v % 256) as u8] + le_bytes(v / 256, (n - 1) as nat)
    }
}

/// `v` in `n` bytes, most significant byte first (higher bytes are dropped).
pub open spec fn be_bytes(v: nat, n: nat) -> Seq<u8>
    decreases n,
{
    if n == 0 {
        Seq::empty()
    } else {
        be_bytes(v / 256, (n - 1) as nat).push((v % 256) as u8)
    }
}

/// Whether two byte strings are the same.
pub fn same_bytes(a: &[u8], b: &[u8]) -> (same: bool)
    ensures
        same == (a@ == b@),
{
    if a.len() != b.len() {
        return false;
    }
    let mut i: usize = 0;
    while i < a.len()
        invariant
            i <= a.len(),
            a.len() == b.len(),
            forall|j: int| 0 <= j < i ==> a@[j] == b@[j],
        decreases a.len() - i,
    {
        if a[i] != b[i] {
            assert(a@[i as int] != b@[i as int]);
            return false;
        }
        i = i + 1;
    }
    assert(a@ =~= b@);
    true
}

/// The bytes of `s` as a vector of their own.
pub fn copy_bytes(s: &[u8]) -> (v: Vec<u8>)
    ensures
        v@ == s@,
{
    let mut v: Vec<u8> = Vec::new();
    v.extend_from_slice(s);
    assert(v@ =~= s@);
    v
}

/// The 32 bytes of `s` from position `from` on.
pub fn read32(s: &[u8], from: usize) -> (r: Bytes32)
    requires
        from + 32 <= s.len(),
    ensures
        r@ == s@.subrange(from as int, from + 32),
{
    let mut bytes: [u8; 32] = [0u8; 32];
    let mut i: usize = 0;
    while i < 32
        invariant
            i <= 32,
            from + 32 <= s.len(),
            forall|j: int| 0 <= j < i ==> bytes@[j] == s@[from + j],
        decreases 32 - i,
    {
        bytes[i] = s[from + i];
        i = i + 1;
    }
    assert(bytes@ =~= s@.subrange(from as int, from + 32));
    Bytes32 { bytes }
}

/// The number held in the first eight bytes of `s`, least significant first.
pub fn read_le64(s: &[u8]) -> (v: u64)
    requires
        s.len() >= 8,
    ensures
        v as nat == le_value(s@.take(8)),
{
    let ghost head = s@.take(8);
    proof {
        reveal_with_fuel(le_value, 9);
        assert(head.skip(1).skip(1) =~= head.skip(2));
        assert(head.skip(2).skip(1) =~= head.skip(3));
        assert(head.skip(3).skip(1) =~= head.skip(4));
        assert(head.skip(4).skip(1) =~= head.skip(5));
        assert(head.skip(5).skip(1) =~= head.skip(6));
        assert(head.skip(6).skip(1) =~= head.skip(7));
        assert(head.skip(7).skip(1) =~= head.skip(8));
    }
    let mut v: u64 = s[7] as u64;
    v = v * 256 + s[6] as u64;
    v = v * 256 + s[5] as u64;
    v = v * 256 + s[4] as u64;
    v = v * 256 + s[3] as u64;
    v = v * 256 + s[2] as u64;
    v = v * 256 + s[1] as u64;
    v * 256 + s[0] as u64
}

proof fn lemma_le_len(v: nat, n: nat)
    ensures
        le_bytes(v, n).len() == n,
    decreases n,
{
    if n > 0 {
        lemma_le_len(v / 256, (n - 1) as nat);
    }
}

/// A number that fits in `n` bytes is read back from them.
pub proof fn le_round_trip(v: nat, n: nat)
    requires
        v < vstd::arithmetic::power2::pow2(8 * n),
    ensures
        le_bytes(v, n).len() == n,
        le_value(le_bytes(v, n)) == v,
    decreases n,
{
    lemma_le_len(v, n);
    if n == 0 {
        vstd::arithmetic::power2::lemma2_to64();
    } else {
        let less = (n - 1) as nat;
        vstd::arithmetic::power2::lemma2_to64();
        vstd::arithmetic::power2::lemma_pow2_adds(8 * less, 8);
        assert(v / 256 < vstd::arithmetic::power2::pow2(8 * less));
        le_round_trip(v / 256, less);
        let whole = le_bytes(v, n);
        assert(whole.skip(1) =~= le_bytes(v / 256, less));
        assert(whole[0] == (v % 256) as u8);
    }
}

/// A number that fits in `n` bytes, the most significant first, is read back
/// from them.
pub proof fn be_round_trip(v: nat, n: nat)
    requires
        v < vstd::arithmetic::power2::pow2(8 * n),
    ensures
        be_bytes(v, n).len() == n,
        be_value(be_bytes(v, n)) == v,
    decreases n,
{
    vstd::arithmetic::power2::lemma2_to64();
    if n > 0 {
        let less = (n - 1) as nat;
        vstd::arithmetic::power2::lemma_pow2_adds(8 * less, 8);
        assert(v / 256 < vstd::arithmetic::power2::pow2(8 * less));
        be_round_trip(v / 256, less);
        let whole = be_bytes(v, n);
        assert(whole.drop_last() =~= be_bytes(v / 256, less));
        assert(whole.last() == (v % 256) as u8);
    }
}

/// The bytes of two numbers, one behind the other, the most significant first: the
/// first number counts in units of all that the second can hold. A single byte is
/// its own number.
pub proof fn high_bytes_come_first(a: Seq<u8>, b: Seq<u8>, x: u8)
    ensures
        be_value(a + b) == be_value(a) * vstd::arithmetic::power2::pow2(8 * b.len()) + be_value(b),
        be_value(b) < vstd::arithmetic::power2::pow2(8 * b.len()),
        be_value(seq![x]) == x,
        be_value(Seq::<u8>::empty()) == 0,
    decreases b.len(),
{
    vstd::arithmetic::power2::lemma2_to64();
    reveal_with_fuel(be_value, 2);
    assert(seq![x].drop_last() =~= Seq::<u8>::empty());
    if b.len() == 0 {
        assert(a + b =~= a);
    } else {
        let less = b.drop_last();
        high_bytes_come_first(a, less, x);
        assert((a + b).drop_last() =~= a + less);
        let m = vstd::arithmetic::power2::pow2(8 * less.len());
        vstd::arithmetic::power2::lemma_pow2_adds(8 * less.len(), 8);
        assert(8 * b.len() == 8 * less.len() + 8);
        assert((be_value(a) * m + be_value(less)) * 256 == be_value(a) * (m * 256) + be_value(less)
            * 256) by (nonlinear_arith);
    }
}

/// The bytes of two numbers, one behind the other, the least significant first: the
/// second number counts in units of all that the first can hold. A single byte is
/// its own number.
pub proof fn low_bytes_come_first(a: Seq<u8>, b: Seq<u8>, x: u8)
    ensures
        le_value(a + b) == le_value(a) + le_value(b) * vstd::arithmetic::power2::pow2(8 * a.len()),
        le_value(a) < vstd::arithmetic::power2::pow2(8 * a.len()),
        le_value(seq![x]) == x,
        le_value(Seq::<u8>::empty()) == 0,
    decreases a.len(),
{
    vstd::arithmetic::power2::lemma2_to64();
    reveal_with_fuel(le_value, 2);
    assert(seq![x].skip(1) =~= Seq::<u8>::empty());
    if a.len() == 0 {
        assert(a + b =~= b);
        assert(le_value(b) * vstd::arithmetic::power2::pow2(8 * a.len()) == le_value(b)) by (
            nonlinear_arith
        )
            requires
                vstd::arithmetic::power2::pow2(8 * a.len()) == 1,
        ;
    } else {
        let less = a.skip(1);
        low_bytes_come_first(less, b, x);
        assert((a + b).skip(1) =~= less + b);
        assert((a + b)[0] == a[0]);
        let m = vstd::arithmetic::power2::pow2(8 * less.len());
        vstd::arithmetic::power2::lemma_pow2_adds(8 * less.len(), 8);
        assert(8 * a.len() == 8 * less.len() + 8);
        assert(256 * (le_value(less) + le_value(b) * m) == 256 * le_value(less) + le_value(b) * (m
            * 256)) by (nonlinear_arith);
    }
}

/// A number's bytes, the most significant first: the last of `n` bytes is the
/// number's remainder by 256, and those before it are the quotient's. The other
/// layout is the same bytes in the other order.
pub proof fn layouts_mirror_each_other(v: nat, n: nat)
    ensures
        be_bytes(v, n).len() == n,
        le_bytes(v, n) == be_bytes(v, n).reverse(),
        forall|i: int|
            0 <= i < n ==> (#[trigger] le_bytes(v, n)[i]) as nat == (v
                / vstd::arithmetic::power2::pow2(8 * i as nat)) % 256,
    decreases n,
{
    lemma_le_len(v, n);
    vstd::arithmetic::power2::lemma2_to64();
    if n > 0 {
        let less = (n - 1) as nat;
        layouts_mirror_each_other(v / 256, less);
        assert(be_bytes(v, n).reverse() =~= seq![(v % 256) as u8] + be_bytes(v / 256, less).reverse());
        assert forall|i: int| 0 <= i < n implies (#[trigger] le_bytes(v, n)[i]) as nat == (v
            / vstd::arithmetic::power2::pow2(8 * i as nat)) % 256 by {
            if i > 0 {
                assert(le_bytes(v, n)[i] == le_bytes(v / 256, less)[i - 1]);
                let m = vstd::arithmetic::power2::pow2(8 * (i - 1) as nat);
                vstd::arithmetic::power2::lemma_pow2_pos(8 * (i - 1) as nat);
                vstd::arithmetic::power2::lemma_pow2_adds(8, 8 * (i - 1) as nat);
                assert(8 + 8 * (i - 1) as nat == 8 * i as nat);
                vstd::arithmetic::div_mod::lemma_div_denominator(v as int, 256, m as int);
            } else {
                assert(v / 1 == v);
            }
        }
    } else {
        assert(le_bytes(v, n) =~= be_bytes(v, n).reverse());
    }
}

/// Two bytes, the most significant first.
pub proof fn two_bytes(s: Seq<u8>, v: nat)
    requires
        s.len() == 2,
    ensures
        be_value(s) == 256 * s[0] + s[1],
        v < 0x1_0000 ==> be_bytes(v, 2) == seq![(v / 256) as u8, (v % 256) as u8],
{
    reveal_with_fuel(be_value, 3);
    reveal_with_fuel(be_bytes, 3);
    assert(s.drop_last().drop_last() =~= Seq::<u8>::empty());
    assert(s.drop_last().last() == s[0]);
    if v < 0x1_0000 {
        assert(be_bytes(v, 2) =~= seq![(v / 256) as u8, (v % 256) as u8]);
    }
}

/// Four bytes, the most significant first.
pub proof fn four_bytes(s: Seq<u8>)
    requires
        s.len() == 4,
    ensures
        be_value(s) == 0x100_0000 * s[0] + 0x1_0000 * s[1] + 0x100 * s[2] + s[3],
{
    reveal_with_fuel(be_value, 5);
    let a = s.drop_last();
    let b = a.drop_last();
    let c = b.drop_last();
    assert(c.drop_last() =~= Seq::<u8>::empty());
    assert(s.last() == s[3] && a.last() == s[2] && b.last() == s[1] && c.last() == s[0]);
}

/// Eight bytes, the most significant first: two numbers of four bytes.
pub proof fn eight_bytes(s: Seq<u8>)
    requires
        s.len() == 8,
    ensures
        be_value(s) == 0x1_0000_0000 * (0x100_0000 * s[0] + 0x1_0000 * s[1] + 0x100 * s[2] + s[3])
            + 0x100_0000 * s[4] + 0x1_0000 * s[5] + 0x100 * s[6] + s[7],
{
    let a = s.take(4);
    let b = s.skip(4);
    assert(a + b =~= s);
    high_bytes_come_first(a, b, 0);
    four_bytes(a);
    four_bytes(b);
    vstd::arithmetic::power2::lemma2_to64();
}

/// Byte strings are the same where they are as long as each other and agree in every
/// place; a copy is the same as what it was made from.
pub proof fn copies_are_the_same(a: &[u8], b: &[u8], same: bool, copy: Vec<u8>)
    requires
        call_ensures(same_bytes, (a, b), same),
        call_ensures(copy_bytes, (a,), copy),
    ensures
        same <==> a@.len() == b@.len() && forall|i: int| 0 <= i < a@.len() ==> a@[i] == b@[i],
        copy@.len() == a@.len(),
        forall|i: int| 0 <= i < a@.len() ==> copy@[i] == a@[i],
{
    if a@.len() == b@.len() && forall|i: int| 0 <= i < a@.len() ==> a@[i] == b@[i] {
        assert(a@ =~= b@);
    }
}

/// The 32 bytes from a place on, each as it stands; and a number of eight bytes, whose
/// first counts one and each further one 256 times the one before it.
pub proof fn bytes_are_read_in_order(s: &[u8], from: usize, r: Bytes32, v: u64)
    requires
        from + 32 <= s@.len(),
        call_ensures(read32, (s, from), r),
        call_ensures(read_le64, (s,), v),
    ensures
        forall|i: int| 0 <= i < 32 ==> #[trigger] r@[i] == s@[from + i],
        v == s@[0] + 0x100 * s@[1] + 0x1_0000 * s@[2] + 0x100_0000 * s@[3] + 0x1_0000_0000 * s@[4]
            + 0x100_0000_0000 * s@[5] + 0x1_0000_0000_0000 * s@[6] + 0x100_0000_0000_0000 * s@[7],
{
    let head = s@.take(8);
    reveal_with_fuel(le_value, 9);
    assert(head.skip(1).skip(1) =~= head.skip(2));
    assert(head.skip(2).skip(1) =~= head.skip(3));
    assert(head.skip(3).skip(1) =~= head.skip(4));
    assert(head.skip(4).skip(1) =~= head.skip(5));
    assert(head.skip(5).skip(1) =~= head.skip(6));
    assert(head.skip(6).skip(1) =~= head.skip(7));
    assert(head.skip(7).skip(1) =~= head.skip(8));
}

} // verus!
