use crate::error::RwError;
use vstd::prelude::*;

verus! {

/// 128 raised to the power `n`.
pub open spec fn pow128(n: nat) -> nat
    decreases n,
{
    if n == 0 {
        1
    } else {
        128 * pow128((n - 1) as nat)
    }
}

/// The VarInt bytes of a non-negative number: seven bits per byte, least
/// significant group first, the high bit set on every byte but the last.
pub open spec fn varint_bytes(v: nat) -> Seq<u8>
    decreases v,
{
    if v < 128 {
        seq![v as u8]
    } else {
        seq![(v % 128 + 128) as u8] + varint_bytes(v / 128)
    }
}

/// The number that VarInt bytes carry: the low seven bits of each byte,
/// least significant group first.
pub open spec fn varint_digits(s: Seq<u8>) -> nat
    decreases s.len(),
{
    if s.len() == 0 {
        0
    } else {
        (s[0] % 128) as nat + 128 * varint_digits(s.drop_first())
    }
}

/// How many bytes a VarInt takes at the front of `s`, looking at no more
/// than `limit` bytes: up to and including the first byte whose high bit is
/// clear. `None` when no such byte is in reach.
pub open spec fn varint_len(s: Seq<u8>, limit: nat) -> Option<nat>
    decreases limit,
{
    if limit == 0 || s.len() == 0 {
        None
    } else if s[0] < 128 {
        Some(1)
    } else {
        match varint_len(s.drop_first(), (limit - 1) as nat) {
            Some(n) => Some(n + 1),
            None => None,
        }
    }
}

/// The 32-bit two's complement reading of the low 32 bits of `x`.
pub open spec fn wrap_i32(x: nat) -> i32 {
    let m = x % 0x1_0000_0000;
    if m < 0x8000_0000 {
        m as i32
    } else {
        (m - 0x1_0000_0000) as i32
    }
}

/// Reading a VarInt from `s` never reaches for a sixth byte: the reader
/// stops after five bytes that all carry the continuation bit only when the
/// input ends there.
pub open spec fn varint_readable(s: Seq<u8>) -> bool {
    !(s.len() > 5 && forall|i: int| 0 <= i < 5 ==> s[i] >= 128)
}

/// What reading a VarInt at the front of `s` gives: its value and the number
/// of bytes it took, or the end of input.
pub open spec fn varint_read(s: Seq<u8>) -> Result<(i32, nat), RwError> {
    match varint_len(s, 5) {
        Some(n) => Ok((wrap_i32(varint_digits(s.take(n as int))), n)),
        None => Err(RwError::UnexpectedEof),
    }
}

/// A variable-length 32-bit integer of the Minecraft protocol.
#[derive(Debug, Clone, Copy, PartialEq, Eq, Structural, Hash, PartialOrd, Ord)]
pub struct VarInt(i32);

impl View for VarInt {
    type V = i32;

    open spec fn view(&self) -> i32 {
        self.spec_value()
    }
}

impl VarInt {
    /// The number this VarInt holds.
    pub closed spec fn spec_value(self) -> i32 {
        self.0
    }

    pub fn new(value: i32) -> (r: Self)
        ensures
            r@ == value,
    {
        Self(value)
    }

    pub fn value(self) -> (r: i32)
        ensures
            r == self@,
    {
        self.0
    }

    /// How many bytes the VarInt takes on the wire.
    pub fn len_bytes(self) -> (len: usize)
        requires
            self@ >= 0,
        ensures
            len == varint_bytes(self@ as nat).len(),
            1 <= len <= 5,
            self@ < pow128(len as nat),
            len == 1 || self@ >= pow128((len - 1) as nat),
    {
        let mut num: i32 = self.0;
        let mut len: usize = 0;
        proof {
            lemma_varint_bytes_len_bound(self@ as nat);
            lemma_varint_len_least(self@ as nat);
        }
        loop
            invariant_except_break
                num >= 0,
                len + varint_bytes(num as nat).len() == varint_bytes(self@ as nat).len(),
                varint_bytes(self@ as nat).len() <= 5,
            ensures
                len == varint_bytes(self@ as nat).len(),
            decreases num,
        {
            proof {
                lemma_varint_bytes_len_bound(num as nat);
            }
            len = len + 1;
            let old_num = num;
            num = num / 128;
            if num == 0 {
                assert(old_num < 128);
                break ;
            }
            assert(varint_bytes(old_num as nat).len() == 1 + varint_bytes(num as nat).len());
        }
        len
    }
}

impl From<i32> for VarInt {
    fn from(value: i32) -> (r: Self) {
        Self(value)
    }
}

impl vstd::std_specs::convert::FromSpecImpl<i32> for VarInt {
    open spec fn obeys_from_spec() -> bool {
        true
    }

    open spec fn from_spec(v: i32) -> VarInt {
        VarInt::new_spec(v)
    }
}

impl From<VarInt> for i32 {
    fn from(value: VarInt) -> (r: i32) {
        value.0
    }
}

impl vstd::std_specs::convert::FromSpecImpl<VarInt> for i32 {
    open spec fn obeys_from_spec() -> bool {
        true
    }

    open spec fn from_spec(v: VarInt) -> i32 {
        v@
    }
}

impl VarInt {
    /// The VarInt that holds `value`.
    pub closed spec fn new_spec(value: i32) -> VarInt {
        VarInt(value)
    }

    pub broadcast proof fn lemma_new_spec_value(value: i32)
        ensures
            (#[trigger] VarInt::new_spec(value))@ == value,
    {
    }
}

/// A VarInt of a number below 2^31 takes one to five bytes.
pub proof fn lemma_varint_bytes_len_bound(v: nat)
    ensures
        varint_bytes(v).len() >= 1,
        v < 0x8000_0000 ==> varint_bytes(v).len() <= 5,
{
    reveal_with_fuel(pow128, 6);
    lemma_varint_bytes_len_below(v, 5);
}

proof fn lemma_varint_bytes_len_below(v: nat, k: nat)
    ensures
        varint_bytes(v).len() >= 1,
        k >= 1 && v < pow128(k) ==> varint_bytes(v).len() <= k,
    decreases v,
{
    if v >= 128 {
        lemma_varint_bytes_len_below(v / 128, (k - 1) as nat);
        if k >= 1 && v < pow128(k) {
            if k == 1 {
                assert(pow128(1) == 128) by {
                    reveal_with_fuel(pow128, 2);
                }
            }
            assert(v / 128 < pow128((k - 1) as nat));
        }
    }
}

/// Law: a VarInt takes the fewest bytes whose seven-bit groups hold its
/// value: `v` is below 128 to the power of its length, and, when it takes
/// more than one byte, not below 128 to the power of one byte less.
pub proof fn lemma_varint_len_least(v: nat)
    ensures
        v < pow128(varint_bytes(v).len()),
        varint_bytes(v).len() == 1 || v >= pow128((varint_bytes(v).len() - 1) as nat),
    decreases v,
{
    reveal_with_fuel(pow128, 2);
    if v >= 128 {
        let w = v / 128;
        lemma_varint_len_least(w);
        let n1 = varint_bytes(w).len();
        assert(varint_bytes(v).len() == n1 + 1);
        let p = pow128(n1);
        assert(pow128(n1 + 1) == 128 * p);
        assert(v < 128 * p) by (nonlinear_arith)
            requires
                w < p,
                w == v / 128,
        ;
        if n1 > 1 {
            let q = pow128((n1 - 1) as nat);
            assert(p == 128 * q);
            assert(v >= 128 * q) by (nonlinear_arith)
                requires
                    w >= q,
                    w == v / 128,
            ;
        } else {
            assert(p == 128);
        }
    }
}

/// The shape of the VarInt bytes of `v`: every byte but the last has its
/// high bit set, the last has it clear, and their digits give back `v`.
pub proof fn lemma_varint_bytes_shape(v: nat)
    ensures
        varint_bytes(v).len() >= 1,
        forall|j: int| 0 <= j < varint_bytes(v).len() - 1 ==> varint_bytes(v)[j] >= 128,
        varint_bytes(v)[varint_bytes(v).len() - 1] < 128,
        varint_digits(varint_bytes(v)) == v,
    decreases v,
{
    let e = varint_bytes(v);
    if v < 128 {
        assert(e.drop_first() =~= Seq::<u8>::empty());
        assert(varint_digits(e.drop_first()) == 0);
        assert(e[0] % 128 == v);
    } else {
        let t = varint_bytes(v / 128);
        lemma_varint_bytes_shape(v / 128);
        assert(e.drop_first() =~= t);
        assert(e[0] == (v % 128 + 128) as u8);
        assert(e[0] % 128 == v % 128);
        assert(varint_digits(e) == (e[0] % 128) as nat + 128 * varint_digits(t));
        assert(v % 128 + 128 * (v / 128) == v);
        assert forall|j: int| 0 <= j < e.len() - 1 implies e[j] >= 128 by {
            if j > 0 {
                assert(e[j] == t[j - 1]);
            }
        }
    }
}

/// Found the terminating byte at index `k`.
proof fn lemma_varint_len_found(s: Seq<u8>, limit: nat, k: nat)
    requires
        k < limit,
        k < s.len(),
        s[k as int] < 128,
        forall|j: int| 0 <= j < k ==> s[j] >= 128,
    ensures
        varint_len(s, limit) == Some(k + 1),
    decreases k,
{
    if k > 0 {
        lemma_varint_len_found(s.drop_first(), (limit - 1) as nat, (k - 1) as nat);
    }
}

/// No terminating byte within reach.
proof fn lemma_varint_len_none(s: Seq<u8>, limit: nat)
    requires
        forall|j: int| 0 <= j < limit && j < s.len() ==> s[j] >= 128,
    ensures
        varint_len(s, limit) is None,
    decreases limit,
{
    if limit > 0 && s.len() > 0 {
        lemma_varint_len_none(s.drop_first(), (limit - 1) as nat);
    }
}

/// The digits of a longer prefix add the next group at its weight.
proof fn lemma_varint_digits_take_succ(s: Seq<u8>, i: nat)
    requires
        i < s.len(),
    ensures
        varint_digits(s.take(i as int + 1)) == varint_digits(s.take(i as int)) + (s[i as int]
            % 128) as nat * pow128(i),
    decreases i,
{
    if i == 0 {
        assert(s.take(1).drop_first() =~= Seq::<u8>::empty());
        assert(s.take(0) =~= Seq::<u8>::empty());
        assert(varint_digits(s.take(1)) == (s[0] % 128) as nat + 128 * varint_digits(
            s.take(1).drop_first(),
        ));
        assert(pow128(0) == 1);
        assert(varint_digits(s.take(1)) == varint_digits(s.take(0)) + (s[0] % 128) as nat * pow128(0));
    } else {
        let t = s.drop_first();
        lemma_varint_digits_take_succ(t, (i - 1) as nat);
        assert(s.take(i as int + 1).drop_first() =~= t.take(i as int));
        assert(s.take(i as int).drop_first() =~= t.take(i - 1));
        let a = varint_digits(t.take(i - 1));
        let d = (s[i as int] % 128) as nat;
        let p = pow128((i - 1) as nat);
        assert(128 * (a + d * p) == 128 * a + d * (128 * p)) by (nonlinear_arith);
        assert(t[i - 1] == s[i as int]);
        assert(varint_digits(s.take(i as int + 1)) == (s[0] % 128) as nat + 128 * varint_digits(
            t.take(i as int),
        ));
        assert(varint_digits(s.take(i as int)) == (s[0] % 128) as nat + 128 * a);
        assert(pow128(i) == 128 * p);
        assert(varint_digits(t.take(i as int)) == a + d * p);
        assert(varint_digits(s.take(i as int + 1)) == varint_digits(s.take(i as int)) + d * pow128(i));
    }
}

/// The digits of a prefix stay below the weight of the next group.
proof fn lemma_varint_digits_take_bound(s: Seq<u8>, i: nat)
    requires
        i <= s.len(),
    ensures
        varint_digits(s.take(i as int)) < pow128(i),
    decreases i,
{
    if i == 0 {
        assert(s.take(0) =~= Seq::<u8>::empty());
    } else {
        lemma_varint_digits_take_bound(s, (i - 1) as nat);
        lemma_varint_digits_take_succ(s, (i - 1) as nat);
        let a = varint_digits(s.take(i - 1));
        let d = (s[i - 1] % 128) as nat;
        let p = pow128((i - 1) as nat);
        assert(a + d * p < 128 * p) by (nonlinear_arith)
            requires
                a < p,
                d <= 127,
        ;
    }
}

fn wrap_to_i32(x: u64) -> (r: i32)
    ensures
        r == wrap_i32(x as nat),
{
    let m = x % 0x1_0000_0000;
    if m < 0x8000_0000 {
        m as i32
    } else {
        (m as i64 - 0x1_0000_0000i64) as i32
    }
}

/// Appends the VarInt bytes of `v` to `out`.
pub fn write_varint(v: VarInt, out: &mut Vec<u8>)
    requires
        v@ >= 0,
    ensures
        final(out)@ == old(out)@ + varint_bytes(v@ as nat),
{
    let mut num: i32 = v.value();
    loop
        invariant_except_break
            num >= 0,
            old(out)@ + varint_bytes(v@ as nat) == out@ + varint_bytes(num as nat),
        ensures
            out@ == old(out)@ + varint_bytes(v@ as nat),
        decreases num,
    {
        let ghost before = out@;
        let ghost old_num = num;
        let mut byte: u8 = (num % 128) as u8;
        num = num / 128;
        if num != 0 {
            byte = byte + 128;
        }
        out.push(byte);
        if num == 0 {
            assert(varint_bytes(old_num as nat) =~= seq![byte]);
            break ;
        }
        assert(varint_bytes(old_num as nat) =~= seq![byte] + varint_bytes(num as nat));
        assert(before + varint_bytes(old_num as nat) =~= out@ + varint_bytes(num as nat));
    }
}

/// Reads a VarInt from `buf` at `pos`; gives its value and the position
/// just past it.
pub fn read_varint(buf: &[u8], pos: usize) -> (res: Result<(VarInt, usize), RwError>)
    requires
        pos <= buf@.len(),
        varint_readable(buf@.skip(pos as int)),
    ensures
        match varint_read(buf@.skip(pos as int)) {
            Ok((v, n)) => res matches Ok((r, p)) && r@ == v && p == pos + n,
            Err(e) => res == Err::<(VarInt, usize), RwError>(e),
        },
        res matches Ok((_, p)) ==> pos < p <= buf@.len(),
{
    let ghost s = buf@.skip(pos as int);
    let mut acc: u64 = 0;
    let mut mult: u64 = 1;
    let mut i: usize = 0;
    proof {
        assert(s.take(0) =~= Seq::<u8>::empty());
    }
    loop
        invariant
            pos <= buf@.len(),
            s == buf@.skip(pos as int),
            s.len() == buf@.len() - pos,
            varint_readable(s),
            i < 5,
            i <= s.len(),
            forall|j: int| 0 <= j < i ==> s[j] >= 128,
            acc == varint_digits(s.take(i as int)),
            mult == pow128(i as nat),
            acc < mult,
            mult <= 0x10_0000_0000,
        decreases 5 - i,
    {
        if i >= buf.len() - pos {
            proof {
                lemma_varint_len_none(s, 5);
            }
            return Err(RwError::UnexpectedEof);
        }
        let b = buf[pos + i];
        assert(b == s[i as int]);
        proof {
            lemma_varint_digits_take_succ(s, i as nat);
            lemma_varint_digits_take_bound(s, (i + 1) as nat);
            reveal_with_fuel(pow128, 6);
        }
        acc = acc + (b % 128) as u64 * mult;
        if b < 128 {
            proof {
                lemma_varint_len_found(s, 5, i as nat);
            }
            let r = wrap_to_i32(acc);
            return Ok((VarInt::new(r), pos + i + 1));
        }
        i = i + 1;
        if i == 5 {
            proof {
                lemma_varint_len_none(s, 5);
            }
            return Err(RwError::UnexpectedEof);
        }
        assert(pow128(i as nat) == 128 * pow128((i - 1) as nat));
        assert(i <= 4);
        assert(mult <= 0x2000_0000) by {
            reveal_with_fuel(pow128, 6);
            if i == 1 {
            } else if i == 2 {
            } else if i == 3 {
            } else {
            }
        }
        mult = mult * 128;
    }
}

/// Law: reading back the bytes written for a non-negative VarInt gives the
/// same number and consumes exactly those bytes, whatever follows them.
pub proof fn lemma_varint_roundtrip(v: i32, rest: Seq<u8>)
    requires
        v >= 0,
    ensures
        varint_readable(varint_bytes(v as nat) + rest),
        varint_read(varint_bytes(v as nat) + rest) == Ok::<(i32, nat), RwError>(
            (v, varint_bytes(v as nat).len()),
        ),
{
    let e = varint_bytes(v as nat);
    let s = e + rest;
    lemma_varint_bytes_shape(v as nat);
    lemma_varint_bytes_len_bound(v as nat);
    let k = (e.len() - 1) as nat;
    assert(s[k as int] == e[k as int]);
    assert forall|j: int| 0 <= j < k implies s[j] >= 128 by {
        assert(s[j] == e[j]);
    }
    lemma_varint_len_found(s, 5, k);
    assert(s.take(e.len() as int) =~= e);
}

/// A VarInt never takes more bytes than there are.
pub proof fn lemma_varint_len_within(s: Seq<u8>, limit: nat)
    ensures
        varint_len(s, limit) matches Some(k) ==> 1 <= k <= s.len(),
    decreases limit,
{
    if limit > 0 && s.len() > 0 && s[0] >= 128 {
        lemma_varint_len_within(s.drop_first(), (limit - 1) as nat);
    }
}

} // verus!
