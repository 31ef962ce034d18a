//! RFC 9000 variable-length integers and RFC 9298 capsules.
//!
//! A varint stores its length class in the top two bits of the first byte:
//! `00` one byte, `01` two, `10` four, `11` eight. The remaining bits hold
//! the value, big-endian. A capsule is `type` (varint, here always zero),
//! `length` (varint) and `length` payload bytes.

use vstd::prelude::*;

use crate::error::Error;
use vstd::slice::{slice_subrange, slice_to_vec};
use vstd::arithmetic::div_mod::{
    lemma_div_denominator, lemma_fundamental_div_mod, lemma_mod_multiples_vanish,
    lemma_small_mod,
};

verus! {

/// Largest UDP payload a capsule may carry, from RFC 9298.
pub const UDP_MAX: usize = 65527;

/// Largest value a varint can hold, plus one: 2^62.
pub const VARINT_LIMIT: u64 = 0x4000000000000000;

/// The number a big-endian byte string stands for.
pub open spec fn be_value(s: Seq<u8>) -> nat
    decreases s.len(),
{
    if s.len() == 0 {
        0
    } else {
        be_value(s.drop_last()) * 256 + s.last() as nat
    }
}

/// 256 to the `k`-th power.
pub open spec fn p256(k: nat) -> nat
    decreases k,
{
    if k == 0 {
        1
    } else {
        256 * p256((k - 1) as nat)
    }
}

/// How many bytes a varint beginning with `first` occupies.
pub open spec fn varint_len(first: u8) -> nat {
    if first < 64 {
        1
    } else if first < 128 {
        2
    } else if first < 192 {
        4
    } else {
        8
    }
}

/// The value of a complete varint byte string: mask the two class bits off
/// the first byte, then read the whole string big-endian.
pub open spec fn varint_value(s: Seq<u8>) -> nat
    recommends
        s.len() >= 1,
{
    be_value(s.update(0, (s[0] % 64) as u8))
}

/// Reading one varint from the front of `s`: its value and the number of
/// bytes it occupies, or `None` when `s` ends too early.
pub open spec fn varint_parse(s: Seq<u8>) -> Option<(nat, nat)> {
    if s.len() < 1 {
        None
    } else if s.len() < varint_len(s[0]) {
        None
    } else {
        Some((varint_value(s.take(varint_len(s[0]) as int)), varint_len(s[0])))
    }
}

/// The canonical (shortest) encoding of `n`, defined for `n` below 2^62.
pub open spec fn varint_encoding(n: nat) -> Seq<u8>
    recommends
        n < VARINT_LIMIT,
{
    if n < 64 {
        seq![n as u8]
    } else if n < 16384 {
        seq![(64 + n / 256) as u8, (n % 256) as u8]
    } else if n < 0x40000000 {
        seq![
            (128 + n / 0x1000000) as u8,
            ((n / 0x10000) % 256) as u8,
            ((n / 256) % 256) as u8,
            (n % 256) as u8,
        ]
    } else {
        seq![
            (192 + n / 0x100000000000000) as u8,
            ((n / 0x1000000000000) % 256) as u8,
            ((n / 0x10000000000) % 256) as u8,
            ((n / 0x100000000) % 256) as u8,
            ((n / 0x1000000) % 256) as u8,
            ((n / 0x10000) % 256) as u8,
            ((n / 256) % 256) as u8,
            (n % 256) as u8,
        ]
    }
}

proof fn lemma_be_value_push(s: Seq<u8>, x: u8)
    ensures
        be_value(s.push(x)) == be_value(s) * 256 + x,
{
    assert(s.push(x).drop_last() =~= s);
}

proof fn lemma_p256_values()
    ensures
        p256(0) == 1,
        p256(1) == 256,
        p256(2) == 0x10000,
        p256(3) == 0x1000000,
        p256(4) == 0x100000000,
        p256(5) == 0x10000000000,
        p256(6) == 0x1000000000000,
        p256(7) == 0x100000000000000,
{
    assert(p256(0) == 1);
    assert(p256(1) == 256);
    assert(p256(2) == 0x10000);
    assert(p256(3) == 0x1000000);
    assert(p256(4) == 0x100000000);
    assert(p256(5) == 0x10000000000);
    assert(p256(6) == 0x1000000000000);
    assert(p256(7) == 0x100000000000000);
}

proof fn lemma_horner_step(n: nat, hi: nat)
    requires
        hi >= 1,
    ensures
        (n / (hi * 256)) * 256 + (n / hi) % 256 == n / hi,
{
    lemma_div_denominator(n as int, hi as int, 256);
    lemma_fundamental_div_mod((n / hi) as int, 256);
}

/// Varint round trip: the canonical encoding of any `n` below 2^62 announces
/// its own length in its first byte and decodes back to exactly `n`.
pub proof fn lemma_varint_round_trip(n: nat)
    requires
        n < VARINT_LIMIT,
    ensures
        ({
            let e = varint_encoding(n);
            &&& 1 <= e.len() <= 8
            &&& varint_len(e[0]) == e.len()
            &&& varint_value(e) == n
        }),
{
    let e = varint_encoding(n);
    let masked = e.update(0, (e[0] % 64) as u8);
    if n < 64 {
        lemma_small_mod(n, 64);
        assert(masked =~= seq![n as u8]);
        assert(masked.drop_last() =~= Seq::<u8>::empty());
        assert(be_value(Seq::<u8>::empty()) == 0);
        assert(be_value(masked) == n);
    } else if n < 16384 {
        assert(n / 256 < 64);
        lemma_mod_multiples_vanish(1, (n / 256) as int, 64);
        lemma_small_mod(n / 256, 64);
        assert(e[0] % 64 == n / 256);
        let m1 = seq![(n / 256) as u8];
        assert(m1.drop_last() =~= Seq::<u8>::empty());
        assert(be_value(Seq::<u8>::empty()) == 0);
        assert(be_value(m1) == n / 256);
        let m2 = m1.push((n % 256) as u8);
        lemma_be_value_push(m1, (n % 256) as u8);
        lemma_horner_step(n, 1);
        assert(be_value(m2) == n);
        assert(masked =~= m2);
    } else if n < 0x40000000 {
        assert(n / 0x1000000 < 64);
        lemma_mod_multiples_vanish(2, (n / 0x1000000) as int, 64);
        lemma_small_mod(n / 0x1000000, 64);
        assert(e[0] % 64 == n / 0x1000000);
        let m1 = seq![(n / 0x1000000) as u8];
        assert(m1.drop_last() =~= Seq::<u8>::empty());
        assert(be_value(Seq::<u8>::empty()) == 0);
        assert(be_value(m1) == n / 0x1000000);
        let m2 = m1.push(((n / 0x10000) % 256) as u8);
        lemma_be_value_push(m1, ((n / 0x10000) % 256) as u8);
        lemma_horner_step(n, 0x10000);
        assert(be_value(m2) == n / 0x10000);
        let m3 = m2.push(((n / 256) % 256) as u8);
        lemma_be_value_push(m2, ((n / 256) % 256) as u8);
        lemma_horner_step(n, 256);
        assert(be_value(m3) == n / 256);
        let m4 = m3.push((n % 256) as u8);
        lemma_be_value_push(m3, (n % 256) as u8);
        lemma_horner_step(n, 1);
        assert(be_value(m4) == n);
        assert(masked =~= m4);
    } else {
        assert(n / 0x100000000000000 < 64);
        lemma_mod_multiples_vanish(3, (n / 0x100000000000000) as int, 64);
        lemma_small_mod(n / 0x100000000000000, 64);
        assert(e[0] % 64 == n / 0x100000000000000);
        let m1 = seq![(n / 0x100000000000000) as u8];
        assert(m1.drop_last() =~= Seq::<u8>::empty());
        assert(be_value(Seq::<u8>::empty()) == 0);
        assert(be_value(m1) == n / 0x100000000000000);
        let m2 = m1.push(((n / 0x1000000000000) % 256) as u8);
        lemma_be_value_push(m1, ((n / 0x1000000000000) % 256) as u8);
        lemma_horner_step(n, 0x1000000000000);
        assert(be_value(m2) == n / 0x1000000000000);
        let m3 = m2.push(((n / 0x10000000000) % 256) as u8);
        lemma_be_value_push(m2, ((n / 0x10000000000) % 256) as u8);
        lemma_horner_step(n, 0x10000000000);
        assert(be_value(m3) == n / 0x10000000000);
        let m4 = m3.push(((n / 0x100000000) % 256) as u8);
        lemma_be_value_push(m3, ((n / 0x100000000) % 256) as u8);
        lemma_horner_step(n, 0x100000000);
        assert(be_value(m4) == n / 0x100000000);
        let m5 = m4.push(((n / 0x1000000) % 256) as u8);
        lemma_be_value_push(m4, ((n / 0x1000000) % 256) as u8);
        lemma_horner_step(n, 0x1000000);
        assert(be_value(m5) == n / 0x1000000);
        let m6 = m5.push(((n / 0x10000) % 256) as u8);
        lemma_be_value_push(m5, ((n / 0x10000) % 256) as u8);
        lemma_horner_step(n, 0x10000);
        assert(be_value(m6) == n / 0x10000);
        let m7 = m6.push(((n / 256) % 256) as u8);
        lemma_be_value_push(m6, ((n / 256) % 256) as u8);
        lemma_horner_step(n, 256);
        assert(be_value(m7) == n / 256);
        let m8 = m7.push((n % 256) as u8);
        lemma_be_value_push(m7, (n % 256) as u8);
        lemma_horner_step(n, 1);
        assert(be_value(m8) == n);
        assert(masked =~= m8);
    }
}

/// Read one varint that begins at `b[pos]`. On success the value and the
/// position just past the varint; `Truncated` when the bytes run out first.
/// Non-canonical (overlong) encodings are accepted, as RFC 9000 decoders
/// commonly do.
pub fn decode_varint(b: &[u8], pos: usize) -> (r: Result<(u64, usize), Error>)
    requires
        pos <= b@.len(),
    ensures
        match r {
            Ok(p) => {
                &&& varint_parse(b@.skip(pos as int)) == Some(((p.0 as nat), ((p.1 - pos) as nat)))
                &&& pos < p.1 <= b@.len()
                &&& p.0 < VARINT_LIMIT
            },
            Err(e) => {
                &&& e == Error::Truncated
                &&& varint_parse(b@.skip(pos as int)) is None
            },
        },
{
    if pos >= b.len() {
        return Err(Error::Truncated);
    }
    let first = b[pos];
    let len: usize = if first < 64 {
        1
    } else if first < 128 {
        2
    } else if first < 192 {
        4
    } else {
        8
    };
    assert(b@.skip(pos as int)[0] == b@[pos as int]);
    if b.len() - pos < len {
        return Err(Error::Truncated);
    }
    let mut v: u64 = (first % 64) as u64;
    let mut i: usize = pos + 1;
    proof {
        lemma_p256_values();
        let s1 = b@.subrange(pos as int, pos + 1);
        assert(s1.update(0, (s1[0] % 64) as u8) =~= seq![(b@[pos as int] % 64) as u8]);
        assert(seq![(b@[pos as int] % 64) as u8].drop_last() =~= Seq::<u8>::empty());
        assert(be_value(Seq::<u8>::empty()) == 0);
        assert(varint_value(s1) == b@[pos as int] % 64);
    }
    while i < pos + len
        invariant
            pos < i <= pos + len,
            pos + len <= b@.len(),
            b@.len() <= usize::MAX,
            v as nat == varint_value(b@.subrange(pos as int, i as int)),
            v < 64 * p256((i - pos - 1) as nat),
            len <= 8,
        decreases pos + len - i,
    {
        proof {
            lemma_p256_values();
            let k = (i - pos - 1) as nat;
            assert(64 * p256(k) <= 64 * p256(6));
            let s_old = b@.subrange(pos as int, i as int);
            let s_new = b@.subrange(pos as int, i + 1);
            let m = (s_old[0] % 64) as u8;
            assert(s_new[0] == s_old[0]);
            assert(s_new.update(0, m) =~= s_old.update(0, m).push(b@[i as int]));
            lemma_be_value_push(s_old.update(0, m), b@[i as int]);
            assert(varint_value(s_new) == varint_value(s_old) * 256 + b@[i as int]);
            assert(p256((i - pos) as nat) == 256 * p256(k));
            assert((v as nat) * 256 + b@[i as int] < 64 * (256 * p256(k))) by (nonlinear_arith)
                requires
                    v < 64 * p256(k),
                    b@[i as int] < 256,
            ;
        }
        v = v * 256 + (b[i] as u64);
        i = i + 1;
    }
    proof {
        lemma_p256_values();
        let s = b@.skip(pos as int);
        assert(s[0] == b@[pos as int]);
        assert(s.take(len as int) =~= b@.subrange(pos as int, pos + len));
        assert(64 * p256((len - 1) as nat) <= VARINT_LIMIT);
    }
    Ok((v, pos + len))
}

/// Append the canonical varint encoding of `n` to `b`; `OutOfRange` when `n`
/// is 2^62 or more, in which case `b` is left untouched.
pub fn encode_varint(b: &mut Vec<u8>, n: u64) -> (r: Result<(), Error>)
    ensures
        match r {
            Ok(()) => {
                &&& n < VARINT_LIMIT
                &&& final(b)@ == old(b)@ + varint_encoding(n as nat)
            },
            Err(e) => {
                &&& e == Error::OutOfRange
                &&& n >= VARINT_LIMIT
                &&& final(b)@ == old(b)@
            },
        },
{
    if n <= 63 {
        b.push(n as u8);
        assert(b@ =~= old(b)@ + varint_encoding(n as nat));
        Ok(())
    } else if n <= 16383 {
        b.push(64 + (n / 256) as u8);
        b.push((n % 256) as u8);
        assert(b@ =~= old(b)@ + varint_encoding(n as nat));
        Ok(())
    } else if n <= 0x3fffffff {
        b.push(128 + (n / 0x1000000) as u8);
        b.push(((n / 0x10000) % 256) as u8);
        b.push(((n / 256) % 256) as u8);
        b.push((n % 256) as u8);
        assert(b@ =~= old(b)@ + varint_encoding(n as nat));
        Ok(())
    } else if n <= 0x3fffffffffffffff {
        b.push(192 + (n / 0x100000000000000) as u8);
        b.push(((n / 0x1000000000000) % 256) as u8);
        b.push(((n / 0x10000000000) % 256) as u8);
        b.push(((n / 0x100000000) % 256) as u8);
        b.push(((n / 0x1000000) % 256) as u8);
        b.push(((n / 0x10000) % 256) as u8);
        b.push(((n / 256) % 256) as u8);
        b.push((n % 256) as u8);
        assert(b@ =~= old(b)@ + varint_encoding(n as nat));
        Ok(())
    } else {
        Err(Error::OutOfRange)
    }
}

/// A capsule: type zero, then the payload length, then the payload.
pub open spec fn capsule_encoding(payload: Seq<u8>) -> Seq<u8>
    recommends
        payload.len() < VARINT_LIMIT,
{
    seq![0u8] + varint_encoding(payload.len()) + payload
}

/// Reading one capsule from the front of `s`: the payload it carries, or why
/// it cannot be read. Bytes after the capsule are ignored.
pub open spec fn capsule_parse(s: Seq<u8>) -> Result<Seq<u8>, Error> {
    match varint_parse(s) {
        None => Err(Error::Truncated),
        Some((t, c1)) => if t != 0 {
            Err(Error::UnrecognizedCapsuleType)
        } else {
            match varint_parse(s.skip(c1 as int)) {
                None => Err(Error::Truncated),
                Some((len, c2)) => if s.len() < c1 + c2 + len {
                    Err(Error::Truncated)
                } else {
                    Ok(s.subrange((c1 + c2) as int, (c1 + c2 + len) as int))
                },
            }
        },
    }
}

/// Decode one capsule from the front of `b`: check the type varint is zero,
/// read the length varint, copy that many payload bytes.
pub fn decode_capsule(b: &[u8]) -> (r: Result<Vec<u8>, Error>)
    ensures
        match r {
            Ok(v) => capsule_parse(b@) == Ok::<Seq<u8>, Error>(v@),
            Err(e) => capsule_parse(b@) == Err::<Seq<u8>, Error>(e),
        },
{
    proof {
        assert(b@.skip(0) =~= b@);
    }
    let (t, p1) = match decode_varint(b, 0) {
        Ok(x) => x,
        Err(e) => {
            return Err(e);
        },
    };
    if t != 0 {
        return Err(Error::UnrecognizedCapsuleType);
    }
    let (len, p2) = match decode_varint(b, p1) {
        Ok(x) => x,
        Err(e) => {
            return Err(e);
        },
    };
    if len > (b.len() - p2) as u64 {
        return Err(Error::Truncated);
    }
    let payload = slice_to_vec(slice_subrange(b, p2, p2 + (len as usize)));
    Ok(payload)
}

/// Append one capsule carrying `payload` to `b`; `OutOfRange` when the
/// payload cannot be described by a varint, in which case `b` is untouched.
pub fn encode_capsule(b: &mut Vec<u8>, payload: &[u8]) -> (r: Result<(), Error>)
    ensures
        match r {
            Ok(()) => {
                &&& payload@.len() < VARINT_LIMIT
                &&& final(b)@ == old(b)@ + capsule_encoding(payload@)
            },
            Err(e) => {
                &&& e == Error::OutOfRange
                &&& payload@.len() >= VARINT_LIMIT
                &&& final(b)@ == old(b)@
            },
        },
{
    if payload.len() as u64 >= VARINT_LIMIT {
        return Err(Error::OutOfRange);
    }
    match encode_varint(b, 0) {
        Ok(()) => {},
        Err(_) => {
            proof {
                assert(false);
            }
            return Err(Error::OutOfRange);
        },
    }
    match encode_varint(b, payload.len() as u64) {
        Ok(()) => {},
        Err(_) => {
            proof {
                assert(false);
            }
            return Err(Error::OutOfRange);
        },
    }
    b.extend_from_slice(payload);
    proof {
        assert(varint_encoding(0) =~= seq![0u8]);
        assert(b@ =~= old(b)@ + capsule_encoding(payload@));
    }
    Ok(())
}

/// Capsule round trip: encoding any payload below the varint limit and
/// parsing the result gives the payload back.
pub proof fn lemma_capsule_round_trip(p: Seq<u8>)
    requires
        p.len() < VARINT_LIMIT,
    ensures
        capsule_parse(capsule_encoding(p)) == Ok::<Seq<u8>, Error>(p),
{
    let e = varint_encoding(p.len());
    lemma_varint_round_trip(p.len());
    let s = capsule_encoding(p);
    assert(s[0] == 0);
    let t1 = s.take(1);
    assert(t1.update(0, (t1[0] % 64) as u8) =~= seq![0u8]);
    assert(seq![0u8].drop_last() =~= Seq::<u8>::empty());
    assert(be_value(Seq::<u8>::empty()) == 0);
    assert(varint_value(s.take(1)) == 0);
    assert(varint_parse(s) == Some((0 as nat, 1 as nat)));
    let s2 = s.skip(1);
    assert(s2 =~= e + p);
    assert(s2[0] == e[0]);
    assert(s2.take(e.len() as int) =~= e);
    assert(varint_parse(s2) == Some((p.len(), e.len())));
    assert(s.len() == 1 + e.len() + p.len());
    assert(s.subrange((1 + e.len()) as int, (1 + e.len() + p.len()) as int) =~= p);
}

} // verus!
