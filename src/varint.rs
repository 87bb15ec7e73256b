use vstd::prelude::*;

verus! {

use crate::packet::PacketError;
use crate::reader::ByteReader;
use vstd::arithmetic::div_mod::{
    lemma_fundamental_div_mod,
    lemma_mod_mod,
    lemma_mod_multiples_vanish,
    lemma_small_mod,
};

/// 2^64: values decode modulo this, as a `u64` accumulator keeps them.
pub open spec fn two_pow_64() -> nat {
    0x1_0000_0000_0000_0000
}

/// The continuation bytes that precede the stop byte of `v * 128 + d`:
/// the 7-bit groups of `v`, most significant first, top bit clear.
pub open spec fn vlq_prefix(v: nat) -> Seq<u8>
    decreases v,
{
    if v == 0 {
        Seq::empty()
    } else {
        vlq_prefix(v / 128).push((v % 128) as u8)
    }
}

/// The stop-bit encoding of `v`: its 7-bit groups, most significant first,
/// with the top bit set on the last byte only.
pub open spec fn vlq_encode(v: nat) -> Seq<u8> {
    vlq_prefix(v / 128).push((v % 128 + 128) as u8)
}

/// The number of bytes up to and including the first stop byte, if any.
pub open spec fn vlq_len(s: Seq<u8>) -> Option<nat>
    decreases s.len(),
{
    if s.len() == 0 {
        None
    } else if s[0] >= 128 {
        Some(1)
    } else {
        match vlq_len(s.drop_first()) {
            Some(n) => Some(n + 1),
            None => None,
        }
    }
}

/// The value of the 7-bit groups of `s`, most significant first.
pub open spec fn groups_value(s: Seq<u8>) -> nat
    decreases s.len(),
{
    if s.len() == 0 {
        0
    } else {
        groups_value(s.drop_last()) * 128 + (s.last() % 128) as nat
    }
}

/// What decoding a VLQ at the front of `s` reads: nothing on an empty input;
/// the value (modulo 2^64) and the count of bytes taken where a stop byte
/// comes; `Err(())` where the input ends before any stop byte.
pub open spec fn vlq_decode(s: Seq<u8>) -> Result<Option<(nat, nat)>, ()> {
    if s.len() == 0 {
        Ok(None)
    } else {
        match vlq_len(s) {
            Some(n) => Ok(Some((groups_value(s.take(n as int)) % two_pow_64(), n))),
            None => Err(()),
        }
    }
}

pub proof fn lemma_prefix_value(v: nat)
    ensures
        groups_value(vlq_prefix(v)) == v,
        forall|i: int| 0 <= i < vlq_prefix(v).len() ==> vlq_prefix(v)[i] < 128,
    decreases v,
{
    if v != 0 {
        lemma_prefix_value(v / 128);
        let p = vlq_prefix(v / 128).push((v % 128) as u8);
        assert(p.drop_last() =~= vlq_prefix(v / 128));
    }
}

pub proof fn lemma_encode_value(v: nat)
    ensures
        groups_value(vlq_encode(v)) == v,
        vlq_encode(v).len() >= 1,
        vlq_encode(v).last() >= 128,
        forall|i: int| 0 <= i < vlq_encode(v).len() - 1 ==> vlq_encode(v)[i] < 128,
{
    lemma_prefix_value(v / 128);
    assert(vlq_encode(v).drop_last() =~= vlq_prefix(v / 128));
}

proof fn lemma_len_of_stop(s: Seq<u8>, tail: Seq<u8>)
    requires
        s.len() >= 1,
        s.last() >= 128,
        forall|i: int| 0 <= i < s.len() - 1 ==> s[i] < 128,
    ensures
        vlq_len(s + tail) == Some(s.len()),
    decreases s.len(),
{
    if s.len() > 1 {
        let t = s.drop_first();
        lemma_len_of_stop(t, tail);
        assert((s + tail).drop_first() =~= t + tail);
    }
}

/// Decoding the encoding of any `u64`, whatever follows it, gives the value
/// back and takes exactly the encoded bytes.
pub proof fn lemma_vlq_round_trip(v: u64, tail: Seq<u8>)
    ensures
        vlq_decode(vlq_encode(v as nat) + tail) == Ok::<Option<(nat, nat)>, ()>(
            Some((v as nat, vlq_encode(v as nat).len())),
        ),
{
    let e = vlq_encode(v as nat);
    lemma_encode_value(v as nat);
    lemma_len_of_stop(e, tail);
    assert((e + tail).take(e.len() as int) =~= e);
}

pub proof fn lemma_vlq_len_bound(s: Seq<u8>)
    ensures
        vlq_len(s) is Some ==> 1 <= vlq_len(s)->Some_0 <= s.len(),
    decreases s.len(),
{
    if s.len() > 0 {
        lemma_vlq_len_bound(s.drop_first());
    }
}

proof fn lemma_len_none(s: Seq<u8>)
    requires
        forall|i: int| 0 <= i < s.len() ==> s[i] < 128,
    ensures
        vlq_len(s) == None::<nat>,
    decreases s.len(),
{
    if s.len() > 0 {
        lemma_len_none(s.drop_first());
    }
}

/// Shifting a group into a 64-bit accumulator keeps the value modulo 2^64.
proof fn lemma_shift_in(g: nat, c: nat)
    requires
        c < 128,
    ensures
        ((g % two_pow_64()) % 0x200_0000_0000_0000) * 128 + c == (g * 128 + c) % two_pow_64(),
{
    let m: int = 0x200_0000_0000_0000;
    let t: int = two_pow_64() as int;
    assert(m * 128 == t);
    lemma_mod_mod(g as int, m, 128);
    lemma_fundamental_div_mod(g as int, m);
    let k = g as int / m;
    let r = g as int % m;
    assert(g * 128 + c == t * k + (r * 128 + c)) by (nonlinear_arith)
        requires
            g == m * k + r,
            m * 128 == t,
    ;
    lemma_mod_multiples_vanish(k, r * 128 + c, t);
    assert(r * 128 + c < t) by (nonlinear_arith)
        requires
            0 <= r < m,
            c < 128,
            m * 128 == t,
    ;
    lemma_small_mod((r * 128 + c) as nat, t as nat);
}

/// Appends the stop-bit encoding of `value`.
pub fn write_var_uint(output: &mut Vec<u8>, value: u64)
    ensures
        final(output)@ == old(output)@ + vlq_encode(value as nat),
{
    let mut buf: Vec<u8> = Vec::with_capacity(4);
    buf.push((value % 128) as u8 + 128);
    let mut rest: u64 = value / 128;
    while rest != 0
        invariant
            vlq_prefix(rest as nat) + buf@ == vlq_encode(value as nat),
        decreases rest,
    {
        let ghost before = buf@;
        buf.insert(0, (rest % 128) as u8);
        assert(vlq_prefix(rest as nat) + before =~= vlq_prefix((rest / 128) as nat) + buf@);
        rest = rest / 128;
    }
    assert(buf@ =~= vlq_encode(value as nat));
    let mut i: usize = 0;
    while i < buf.len()
        invariant
            i <= buf@.len(),
            buf@ == vlq_encode(value as nat),
            output@ == old(output)@ + buf@.take(i as int),
        decreases buf.len() - i,
    {
        output.push(buf[i]);
        i = i + 1;
        assert(buf@.take(i as int) =~= buf@.take(i - 1).push(buf@[i - 1]));
    }
    assert(buf@.take(i as int) =~= buf@);
}

/// Reads one stop-bit encoded value: `Ok(None)` where the input is already
/// empty, the value modulo 2^64 where a stop byte comes, and
/// `Err(Truncated)` where the input ends before one.
pub fn read_var_uint(input: &mut ByteReader) -> (r: Result<Option<u64>, PacketError>)
    requires
        old(input).wf(),
    ensures
        final(input).wf(),
        match vlq_decode(old(input).rest()) {
            Ok(None) => r == Ok::<Option<u64>, PacketError>(None)
                && final(input).rest() == old(input).rest(),
            Ok(Some((v, n))) => r == Ok::<Option<u64>, PacketError>(Some(v as u64))
                && final(input).rest() == old(input).rest().skip(n as int),
            Err(_) => r == Err::<Option<u64>, PacketError>(PacketError::Truncated),
        },
{
    let ghost orig = input.rest();
    let mut byte = match input.next_byte() {
        None => return Ok(None),
        Some(b) => b,
    };
    let ghost mut taken: Seq<u8> = seq![byte];
    let mut value: u64 = 0;
    assert(orig =~= taken + input.rest());
    assert(taken.drop_last() =~= Seq::<u8>::empty());
    loop
        invariant
            input.wf(),
            orig == old(input).rest(),
            orig == taken + input.rest(),
            taken.len() >= 1,
            byte == taken.last(),
            forall|i: int| 0 <= i < taken.len() - 1 ==> taken[i] < 128,
            value == groups_value(taken.drop_last()) % two_pow_64(),
        decreases input.rest().len(),
    {
        proof {
            lemma_shift_in(groups_value(taken.drop_last()), (byte % 128) as nat);
        }
        value = (value % 0x200_0000_0000_0000) * 128 + (byte % 128) as u64;
        assert(value == groups_value(taken) % two_pow_64());
        if byte >= 128 {
            proof {
                lemma_len_of_stop(taken, input.rest());
                assert(orig.take(taken.len() as int) =~= taken);
                assert(input.rest() =~= orig.skip(taken.len() as int));
            }
            return Ok(Some(value));
        }
        match input.next_byte() {
            None => {
                proof {
                    assert(orig =~= taken);
                    lemma_len_none(orig);
                }
                return Err(PacketError::Truncated);
            },
            Some(b) => {
                proof {
                    let prev = taken;
                    taken = taken.push(b);
                    assert(taken.drop_last() =~= prev);
                    assert(orig =~= taken + input.rest());
                }
                byte = b;
            },
        }
    }
}

} // verus!
