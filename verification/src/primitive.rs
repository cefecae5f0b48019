//! Primitive wire encodings: unsigned and zig-zag varints, tagged fields and
//! tag sections, compact strings and compact arrays.
//!
//! Each executable type has a specification-level model (its `View`), a spec
//! encoding function over that model, and a spec decoding function that maps
//! an arbitrary byte sequence to either a model value plus a consumed length
//! or a `DecodeError`. The `Encode` and `Serializable` traits tie the
//! executable methods to those spec functions and carry the round-trip law
//! as a proof obligation on every implementation.

use vstd::prelude::*;
use vstd::slice::slice_subrange;

use crate::error::DecodeError;

verus! {

/// Powers of 128: the radix of the 7-bit varint groups.
pub open spec fn pow128(k: nat) -> nat
    decreases k,
{
    if k == 0 {
        1
    } else {
        128 * pow128((k - 1) as nat)
    }
}

pub proof fn lemma_pow128_5()
    ensures
        pow128(5) == 0x8_0000_0000,
{
    reveal_with_fuel(pow128, 6);
}

/// Concrete bounds on the powers of 128 that a five-byte varint can reach.
pub proof fn lemma_pow128_le(k: nat)
    requires
        k <= 5,
    ensures
        1 <= pow128(k) <= 0x8_0000_0000,
        k <= 4 ==> pow128(k) <= 0x1000_0000,
        1 <= k ==> 0x80 <= pow128(k),
{
    reveal_with_fuel(pow128, 6);
    if k == 0 {
    } else if k == 1 {
    } else if k == 2 {
    } else if k == 3 {
    } else if k == 4 {
    } else {
        assert(k == 5);
    }
}

/// The unsigned varint encoding of a value: little-endian 7-bit groups,
/// high bit set on every byte but the last.
pub open spec fn spec_uvarint_enc(v: nat) -> Seq<u8>
    decreases v,
{
    if v < 0x80 {
        seq![v as u8]
    } else {
        seq![((v % 0x80) + 0x80) as u8] + spec_uvarint_enc(v / 0x80)
    }
}

/// Decoding of an unsigned varint, capped at `fuel` bytes; the value is
/// returned without truncation, together with the number of bytes consumed.
pub open spec fn uvarint_dec_raw(s: Seq<u8>, fuel: nat) -> Result<(nat, int), DecodeError>
    decreases fuel,
{
    if fuel == 0 {
        Err(DecodeError::InvalidEncoding)
    } else if s.len() == 0 {
        Err(DecodeError::TruncatedInput)
    } else if s[0] < 0x80 {
        Ok((s[0] as nat, 1))
    } else {
        match uvarint_dec_raw(s.skip(1), (fuel - 1) as nat) {
            Ok((v, n)) => Ok(((s[0] - 0x80) as nat + 0x80 * v, n + 1)),
            Err(e) => Err(e),
        }
    }
}

/// Unsigned varint decoding as it appears on the wire: at most five bytes,
/// and the accumulated value truncated to 32 bits.
pub open spec fn spec_uvarint_dec(s: Seq<u8>) -> Result<(u32, int), DecodeError> {
    match uvarint_dec_raw(s, 5) {
        Ok((v, n)) => Ok(((v % 0x1_0000_0000) as u32, n)),
        Err(e) => Err(e),
    }
}

/// Encoders serialize a well-formed value to exactly the bytes that the
/// model-level encoding function prescribes.
pub trait Encode: View + Sized {
    /// The model values that can be encoded at all (for example, lengths
    /// that fit in the `u32` length prefix).
    spec fn m_wf(m: Self::V) -> bool;

    /// The encoding of a model value as a byte sequence.
    spec fn m_enc(m: Self::V) -> Seq<u8>;

    fn serialize(&self) -> (r: Vec<u8>)
        requires
            Self::m_wf(self@),
        ensures
            r@ == Self::m_enc(self@),
    ;
}

/// Decoders consume a prefix of the input and return the decoded value with
/// the unread suffix; the round-trip law is a proof obligation of every
/// implementation.
pub trait Serializable: Encode {
    /// The decoding of an arbitrary byte sequence: a model value and the
    /// number of bytes consumed, or the error the input deserves.
    spec fn m_dec(s: Seq<u8>) -> Result<(Self::V, int), DecodeError>;

    /// Decoding never reads past the input and only produces well-formed
    /// model values.
    proof fn lemma_dec_ok(s: Seq<u8>)
        ensures
            Self::m_dec(s) matches Ok((m, n)) ==> Self::m_wf(m) && 0 <= n <= s.len(),
    ;

    /// Round trip: decoding an encoding returns the encoded value and
    /// consumes exactly the encoding, whatever follows it.
    proof fn lemma_round_trip(m: Self::V, rest: Seq<u8>)
        requires
            Self::m_wf(m),
        ensures
            Self::m_dec(Self::m_enc(m) + rest) == Ok::<(Self::V, int), DecodeError>(
                (m, Self::m_enc(m).len() as int),
            ),
    ;

    fn deserialize(bytes: &[u8]) -> (r: Result<(Self, &[u8]), DecodeError>)
        ensures
            match r {
                Ok(p) => Self::m_dec(bytes@) matches Ok((m, n)) && p.0@ == m && Self::m_wf(
                    p.0@,
                ) && 0 <= n <= bytes@.len() && p.1@ == bytes@.skip(n),
                Err(e) => Self::m_dec(bytes@) == Err::<(Self::V, int), DecodeError>(e),
            },
    ;
}

/// An unsigned 32-bit integer in the 1-to-5-byte varint encoding.
#[derive(Debug)]
pub struct UnsignedVarint(pub u32);

impl View for UnsignedVarint {
    type V = u32;

    open spec fn view(&self) -> u32 {
        self.0
    }
}

impl Encode for UnsignedVarint {
    open spec fn m_wf(m: u32) -> bool {
        true
    }

    open spec fn m_enc(m: u32) -> Seq<u8> {
        spec_uvarint_enc(m as nat)
    }

    fn serialize(&self) -> (r: Vec<u8>) {
        proof {
            assert(Self::m_enc(self@) == spec_uvarint_enc(self.0 as nat));
        }
        serialize_uvarint_rec(self.0)
    }
}

/// Emits the base-128 digits of `value`, low first, continuation bit on
/// every byte but the last.
#[verifier::spinoff_prover]
fn serialize_uvarint_rec(value: u32) -> (r: Vec<u8>)
    ensures
        r@ == spec_uvarint_enc(value as nat),
    decreases value,
{
    if value < 0x80 {
        let mut buf: Vec<u8> = Vec::new();
        buf.push(value as u8);
        proof {
            assert(buf@ =~= spec_uvarint_enc(value as nat));
        }
        buf
    } else {
        let mut buf: Vec<u8> = Vec::new();
        buf.push((value % 0x80 + 0x80) as u8);
        let mut tail: Vec<u8> = serialize_uvarint_rec(value / 0x80);
        buf.append(&mut tail);
        proof {
            assert(buf@ =~= spec_uvarint_enc(value as nat));
        }
        buf
    }
}

/// Decodes an unsigned varint of at most `fuel` bytes, returning the
/// untruncated value and the number of bytes consumed.
#[verifier::spinoff_prover]
fn deserialize_uvarint_rec(bytes: &[u8], fuel: u8) -> (r: Result<(u64, usize), DecodeError>)
    requires
        fuel <= 5,
    ensures
        match r {
            Ok(p) => uvarint_dec_raw(bytes@, fuel as nat) == Ok::<(nat, int), DecodeError>(
                (p.0 as nat, p.1 as int),
            ) && (p.0 as nat) < pow128(fuel as nat) && 1 <= p.1 <= bytes@.len(),
            Err(e) => uvarint_dec_raw(bytes@, fuel as nat) == Err::<(nat, int), DecodeError>(e),
        },
    decreases fuel,
{
    if fuel == 0 {
        return Err(DecodeError::InvalidEncoding);
    }
    if bytes.len() == 0 {
        return Err(DecodeError::TruncatedInput);
    }
    let b: u8 = bytes[0];
    if b < 0x80 {
        proof {
            lemma_pow128_le(fuel as nat);
        }
        return Ok(((b as u64), 1));
    }
    let tail: &[u8] = slice_subrange(bytes, 1, bytes.len());
    proof {
        assert(tail@ =~= bytes@.skip(1));
    }
    match deserialize_uvarint_rec(tail, fuel - 1) {
        Err(e) => Err(e),
        Ok((v, n)) => {
            proof {
                lemma_pow128_le(fuel as nat);
                assert((b - 0x80) as u64 + 0x80 * v < pow128(fuel as nat)) by (nonlinear_arith)
                    requires
                        v < pow128((fuel - 1) as nat),
                        pow128(fuel as nat) == 128 * pow128((fuel - 1) as nat),
                        0x80 <= b < 0x100,
                ;
            }
            Ok(((b - 0x80) as u64 + 0x80 * v, n + 1))
        },
    }
}

impl Serializable for UnsignedVarint {
    open spec fn m_dec(s: Seq<u8>) -> Result<(u32, int), DecodeError> {
        spec_uvarint_dec(s)
    }

    proof fn lemma_dec_ok(s: Seq<u8>) {
        lemma_uvarint_dec_raw_ok(s, 5);
    }

    proof fn lemma_round_trip(m: u32, rest: Seq<u8>) {
        lemma_uvarint_round_trip(m, rest);
    }

    #[verifier::spinoff_prover]
    fn deserialize(bytes: &[u8]) -> (r: Result<(Self, &[u8]), DecodeError>) {
        proof {
            assert(Self::m_dec(bytes@) == spec_uvarint_dec(bytes@));
        }
        match deserialize_uvarint_rec(bytes, 5) {
            Err(e) => Err(e),
            Ok((v, n)) => {
                let value: u32 = (v % 0x1_0000_0000) as u32;
                let rest: &[u8] = slice_subrange(bytes, n, bytes.len());
                proof {
                    assert(rest@ =~= bytes@.skip(n as int));
                    assert(spec_uvarint_dec(bytes@) == Ok::<(u32, int), DecodeError>(
                        (value, n as int),
                    ));
                }
                Ok((UnsignedVarint(value), rest))
            },
        }
    }
}

/// Zig-zag: fold the sign bit into the low bit so that values of small
/// magnitude get short varint encodings.
pub open spec fn spec_zigzag(n: i32) -> u32 {
    if n >= 0 {
        (2 * (n as int)) as u32
    } else {
        (-2 * (n as int) - 1) as u32
    }
}

/// The inverse of `spec_zigzag`.
pub open spec fn spec_unzigzag(u: u32) -> i32 {
    if u % 2 == 0 {
        (u / 2) as i32
    } else {
        (-((u / 2) as int) - 1) as i32
    }
}

/// Zig-zag is inverted exactly by `spec_unzigzag`, over the whole `i32` range.
pub proof fn lemma_zigzag_round_trip(n: i32)
    ensures
        spec_unzigzag(spec_zigzag(n)) == n,
{
}

/// The signed varint encoding: zig-zag, then unsigned varint.
pub open spec fn spec_varint_enc(n: i32) -> Seq<u8> {
    spec_uvarint_enc(spec_zigzag(n) as nat)
}

pub open spec fn spec_varint_dec(s: Seq<u8>) -> Result<(i32, int), DecodeError> {
    match spec_uvarint_dec(s) {
        Ok((u, n)) => Ok((spec_unzigzag(u), n)),
        Err(e) => Err(e),
    }
}

/// A signed 32-bit integer in the zig-zag varint encoding.
#[derive(Debug)]
pub struct Varint(pub i32);

impl View for Varint {
    type V = i32;

    open spec fn view(&self) -> i32 {
        self.0
    }
}

impl Encode for Varint {
    open spec fn m_wf(m: i32) -> bool {
        true
    }

    open spec fn m_enc(m: i32) -> Seq<u8> {
        spec_varint_enc(m)
    }

    fn serialize(&self) -> (r: Vec<u8>) {
        let u: u32 = if self.0 >= 0 {
            (self.0 as u32) * 2
        } else {
            let mag: u32 = (-((self.0 as i64) + 1)) as u32;
            mag * 2 + 1
        };
        assert(u == spec_zigzag(self.0));
        UnsignedVarint(u).serialize()
    }
}

impl Serializable for Varint {
    open spec fn m_dec(s: Seq<u8>) -> Result<(i32, int), DecodeError> {
        spec_varint_dec(s)
    }

    proof fn lemma_dec_ok(s: Seq<u8>) {
        lemma_uvarint_dec_raw_ok(s, 5);
    }

    proof fn lemma_round_trip(m: i32, rest: Seq<u8>) {
        lemma_uvarint_round_trip(spec_zigzag(m), rest);
        lemma_zigzag_round_trip(m);
    }

    fn deserialize(bytes: &[u8]) -> (r: Result<(Self, &[u8]), DecodeError>) {
        match UnsignedVarint::deserialize(bytes) {
            Ok((u, rest)) => {
                let half: u32 = u.0 / 2;
                let n: i32 = if u.0 % 2 == 0 {
                    half as i32
                } else {
                    (-(half as i64) - 1) as i32
                };
                Ok((Varint(n), rest))
            },
            Err(e) => Err(e),
        }
    }
}

/// The varint encoding of `v` is one byte for each base-128 digit.
pub proof fn lemma_uvarint_enc_len(v: nat, k: nat)
    requires
        1 <= k,
        v < pow128(k),
    ensures
        1 <= spec_uvarint_enc(v).len() <= k,
    decreases k,
{
    if v < 0x80 {
    } else {
        assert(v / 0x80 < pow128((k - 1) as nat)) by (nonlinear_arith)
            requires
                v < pow128(k),
                pow128(k) == 128 * pow128((k - 1) as nat),
                0x80 <= v,
        ;
        lemma_uvarint_enc_len(v / 0x80, (k - 1) as nat);
    }
}

/// Any `u32` encodes in at most five bytes.
pub proof fn lemma_uvarint_enc_len_u32(v: u32)
    ensures
        1 <= spec_uvarint_enc(v as nat).len() <= 5,
{
    lemma_pow128_5();
    lemma_uvarint_enc_len(v as nat, 5);
}

/// A successful raw decode stays within the input and within its byte cap.
pub proof fn lemma_uvarint_dec_raw_ok(s: Seq<u8>, fuel: nat)
    ensures
        uvarint_dec_raw(s, fuel) matches Ok((v, n)) ==> 1 <= n <= s.len() && n <= fuel,
    decreases fuel,
{
    if fuel > 0 && s.len() > 0 && s[0] >= 0x80 {
        lemma_uvarint_dec_raw_ok(s.skip(1), (fuel - 1) as nat);
    }
}

/// Round trip of the raw decoder for any value within the fuel's range.
pub proof fn lemma_uvarint_raw_round_trip(v: nat, rest: Seq<u8>, fuel: nat)
    requires
        1 <= fuel,
        v < pow128(fuel),
    ensures
        uvarint_dec_raw(spec_uvarint_enc(v) + rest, fuel) == Ok::<(nat, int), DecodeError>(
            (v, spec_uvarint_enc(v).len() as int),
        ),
    decreases v,
{
    let s = spec_uvarint_enc(v) + rest;
    if v < 0x80 {
        assert(s[0] == v as u8);
    } else {
        if fuel == 1 {
            assert(pow128(1) == 128) by {
                reveal_with_fuel(pow128, 2);
            }
            assert(false);
        }
        assert(v / 0x80 < pow128((fuel - 1) as nat)) by (nonlinear_arith)
            requires
                v < pow128(fuel),
                pow128(fuel) == 128 * pow128((fuel - 1) as nat),
                0x80 <= v,
        ;
        assert(v / 0x80 < v);
        lemma_uvarint_raw_round_trip(v / 0x80, rest, (fuel - 1) as nat);
        assert(s[0] == ((v % 0x80) + 0x80) as u8);
        assert(s.skip(1) =~= spec_uvarint_enc(v / 0x80) + rest);
        assert((v % 0x80) + 0x80 * (v / 0x80) == v) by (nonlinear_arith);
    }
}

/// Round trip of the wire-level unsigned varint decoder.
pub proof fn lemma_uvarint_round_trip(v: u32, rest: Seq<u8>)
    ensures
        spec_uvarint_dec(spec_uvarint_enc(v as nat) + rest) == Ok::<(u32, int), DecodeError>(
            (v, spec_uvarint_enc(v as nat).len() as int),
        ),
{
    lemma_pow128_5();
    lemma_uvarint_raw_round_trip(v as nat, rest, 5);
}

/// Takes `n` bytes off the front of a slice, or reports that the slice is
/// too short.
pub(crate) fn read_bytes<'a>(bytes: &'a [u8], n: usize) -> (r: Option<(Vec<u8>, &'a [u8])>)
    ensures
        match r {
            Some(p) => n <= bytes@.len() && p.0@ == bytes@.take(n as int) && p.1@ == bytes@.skip(
                n as int,
            ),
            None => n > bytes@.len(),
        },
{
    if n > bytes.len() {
        None
    } else {
        let head: Vec<u8> = vstd::slice::slice_to_vec(slice_subrange(bytes, 0, n));
        let rest: &[u8] = slice_subrange(bytes, n, bytes.len());
        proof {
            assert(head@ =~= bytes@.take(n as int));
            assert(rest@ =~= bytes@.skip(n as int));
        }
        Some((head, rest))
    }
}

/// The models of the elements of an executable sequence.
pub open spec fn seq_views<T: View>(s: Seq<T>) -> Seq<T::V> {
    s.map_values(|t: T| t@)
}

/// The concatenation of the encodings of a sequence of model values.
pub open spec fn spec_elems_enc<T: Encode>(ms: Seq<T::V>) -> Seq<u8>
    decreases ms.len(),
{
    if ms.len() == 0 {
        Seq::empty()
    } else {
        T::m_enc(ms[0]) + spec_elems_enc::<T>(ms.skip(1))
    }
}

/// Decoding of `count` consecutive elements.
pub open spec fn spec_elems_dec<T: Serializable>(s: Seq<u8>, count: nat) -> Result<
    (Seq<T::V>, int),
    DecodeError,
>
    decreases count,
{
    if count == 0 {
        Ok((Seq::empty(), 0))
    } else {
        match T::m_dec(s) {
            Err(e) => Err(e),
            Ok((m, n)) => match spec_elems_dec::<T>(s.skip(n), (count - 1) as nat) {
                Err(e) => Err(e),
                Ok((ms, n2)) => Ok((seq![m] + ms, n + n2)),
            },
        }
    }
}

pub proof fn lemma_elems_enc_snoc<T: Encode>(ms: Seq<T::V>, m: T::V)
    ensures
        spec_elems_enc::<T>(ms.push(m)) == spec_elems_enc::<T>(ms) + T::m_enc(m),
    decreases ms.len(),
{
    if ms.len() == 0 {
        assert(ms.push(m).skip(1) =~= Seq::<T::V>::empty());
        assert(ms.push(m)[0] == m);
        assert(spec_elems_enc::<T>(ms.push(m)) == T::m_enc(m) + spec_elems_enc::<T>(
            Seq::<T::V>::empty(),
        ));
        assert(spec_elems_enc::<T>(Seq::<T::V>::empty()) == Seq::<u8>::empty());
        assert(ms =~= Seq::<T::V>::empty());
        assert(spec_elems_enc::<T>(ms.push(m)) =~= spec_elems_enc::<T>(ms) + T::m_enc(m));
    } else {
        lemma_elems_enc_snoc::<T>(ms.skip(1), m);
        assert(ms.push(m).skip(1) =~= ms.skip(1).push(m));
        assert(ms.push(m)[0] == ms[0]);
        assert(T::m_enc(ms[0]) + (spec_elems_enc::<T>(ms.skip(1)) + T::m_enc(m)) =~= (T::m_enc(
            ms[0],
        ) + spec_elems_enc::<T>(ms.skip(1))) + T::m_enc(m));
    }
}

/// A successful element-sequence decode stays within the input, returns
/// exactly `count` well-formed models.
pub proof fn lemma_elems_dec_ok<T: Serializable>(s: Seq<u8>, count: nat)
    ensures
        spec_elems_dec::<T>(s, count) matches Ok((ms, n)) ==> ms.len() == count && 0 <= n
            <= s.len() && forall|j: int| 0 <= j < ms.len() ==> T::m_wf(#[trigger] ms[j]),
    decreases count,
{
    if count > 0 {
        T::lemma_dec_ok(s);
        match T::m_dec(s) {
            Err(_) => {},
            Ok((m, n)) => {
                lemma_elems_dec_ok::<T>(s.skip(n), (count - 1) as nat);
            },
        }
    }
}

/// Round trip for element sequences, elementwise from the trait obligation.
pub proof fn lemma_elems_round_trip<T: Serializable>(ms: Seq<T::V>, rest: Seq<u8>)
    requires
        forall|j: int| 0 <= j < ms.len() ==> T::m_wf(#[trigger] ms[j]),
    ensures
        spec_elems_dec::<T>(spec_elems_enc::<T>(ms) + rest, ms.len()) == Ok::<
            (Seq<T::V>, int),
            DecodeError,
        >((ms, spec_elems_enc::<T>(ms).len() as int)),
    decreases ms.len(),
{
    if ms.len() == 0 {
        assert(spec_elems_enc::<T>(ms) + rest =~= rest);
        assert(ms =~= Seq::<T::V>::empty());
    } else {
        let tail_enc = spec_elems_enc::<T>(ms.skip(1));
        T::lemma_round_trip(ms[0], tail_enc + rest);
        assert(spec_elems_enc::<T>(ms) + rest =~= T::m_enc(ms[0]) + (tail_enc + rest));
        lemma_elems_round_trip::<T>(ms.skip(1), rest);
        let n = T::m_enc(ms[0]).len() as int;
        assert((T::m_enc(ms[0]) + (tail_enc + rest)).skip(n) =~= tail_enc + rest);
        assert(seq![ms[0]] + ms.skip(1) =~= ms);
    }
}

/// Serializes every element of a vector, in order.
pub(crate) fn serialize_elems<T: Encode>(items: &Vec<T>) -> (r: Vec<u8>)
    requires
        forall|j: int| 0 <= j < items@.len() ==> T::m_wf(#[trigger] items@[j]@),
    ensures
        r@ == spec_elems_enc::<T>(seq_views(items@)),
{
    let ghost views = seq_views(items@);
    let mut buf: Vec<u8> = Vec::new();
    let mut i: usize = 0;
    proof {
        assert(views.take(0) =~= Seq::<T::V>::empty());
    }
    while i < items.len()
        invariant
            0 <= i <= items@.len(),
            views == seq_views(items@),
            forall|j: int| 0 <= j < items@.len() ==> T::m_wf(#[trigger] items@[j]@),
            buf@ == spec_elems_enc::<T>(views.take(i as int)),
        decreases items@.len() - i,
    {
        let mut piece: Vec<u8> = items[i].serialize();
        buf.append(&mut piece);
        proof {
            lemma_elems_enc_snoc::<T>(views.take(i as int), items@[i as int]@);
            assert(views.take(i + 1) =~= views.take(i as int).push(items@[i as int]@));
        }
        i = i + 1;
    }
    proof {
        assert(views.take(items@.len() as int) =~= views);
    }
    buf
}

/// Decodes `count` consecutive elements off the front of a slice.
fn deserialize_elems<'a, T: Serializable>(bytes: &'a [u8], count: u32) -> (r: Result<
    (Vec<T>, &'a [u8]),
    DecodeError,
>)
    ensures
        match r {
            Ok(p) => spec_elems_dec::<T>(bytes@, count as nat) matches Ok((ms, n)) && seq_views(
                p.0@,
            ) == ms && (forall|j: int| 0 <= j < p.0@.len() ==> T::m_wf(#[trigger] p.0@[j]@)) && 0
                <= n <= bytes@.len() && p.1@ == bytes@.skip(n),
            Err(e) => spec_elems_dec::<T>(bytes@, count as nat) == Err::<
                (Seq<T::V>, int),
                DecodeError,
            >(e),
        },
{
    let mut items: Vec<T> = Vec::new();
    let mut cur: &[u8] = bytes;
    let mut i: u32 = 0;
    proof {
        assert(bytes@.skip(0) =~= bytes@);
        assert(seq_views(items@) =~= Seq::<T::V>::empty());
    }
    while i < count
        invariant
            0 <= i <= count,
            items@.len() == i,
            cur@.len() <= bytes@.len(),
            cur@ == bytes@.skip(bytes@.len() - cur@.len()),
            forall|j: int| 0 <= j < items@.len() ==> T::m_wf(#[trigger] items@[j]@),
            spec_elems_dec::<T>(bytes@, count as nat) == (match spec_elems_dec::<T>(
                cur@,
                (count - i) as nat,
            ) {
                Ok((ms, n)) => Ok::<(Seq<T::V>, int), DecodeError>(
                    (seq_views(items@) + ms, bytes@.len() - cur@.len() + n),
                ),
                Err(e) => Err::<(Seq<T::V>, int), DecodeError>(e),
            }),
        decreases count - i,
    {
        let ghost consumed = bytes@.len() - cur@.len();
        match T::deserialize(cur) {
            Err(e) => {
                return Err(e);
            },
            Ok((v, rest)) => {
                let ghost n1 = choose|n1: int| #![auto]
                    T::m_dec(cur@) == Ok::<(T::V, int), DecodeError>((v@, n1)) && 0 <= n1
                        <= cur@.len() && rest@ == cur@.skip(n1);
                proof {
                    lemma_elems_dec_ok::<T>(cur@.skip(n1), (count - i - 1) as nat);
                    assert(bytes@.skip(consumed).skip(n1) =~= bytes@.skip(consumed + n1));
                    match spec_elems_dec::<T>(cur@.skip(n1), (count - i - 1) as nat) {
                        Ok((ms2, n2)) => {
                            assert(spec_elems_dec::<T>(cur@, (count - i) as nat) == Ok::<
                                (Seq<T::V>, int),
                                DecodeError,
                            >((seq![v@] + ms2, n1 + n2)));
                            assert(seq_views(items@.push(v)) =~= seq_views(items@) + seq![v@]);
                            assert(seq_views(items@) + (seq![v@] + ms2) =~= (seq_views(items@)
                                + seq![v@]) + ms2);
                        },
                        Err(_) => {},
                    }
                }
                items.push(v);
                cur = rest;
                i = i + 1;
            },
        }
    }
    proof {
        assert(spec_elems_dec::<T>(cur@, 0) == Ok::<(Seq<T::V>, int), DecodeError>(
            (Seq::empty(), 0),
        ));
        assert(seq_views(items@) + Seq::<T::V>::empty() =~= seq_views(items@));
    }
    Ok((items, cur))
}

/// The model of one tagged field: a tag number and its raw bytes.
pub ghost struct TagFieldV {
    pub tag: u32,
    pub data: Seq<u8>,
}

/// The decoding of a tagged field: tag varint, length varint, then that many
/// raw bytes.
pub open spec fn spec_tag_field_dec(s: Seq<u8>) -> Result<(TagFieldV, int), DecodeError> {
    match spec_uvarint_dec(s) {
        Err(e) => Err(e),
        Ok((tag, n1)) => match spec_uvarint_dec(s.skip(n1)) {
            Err(e) => Err(e),
            Ok((len, n2)) => if s.skip(n1 + n2).len() < len as int {
                Err(DecodeError::TruncatedInput)
            } else {
                Ok(
                    (
                        TagFieldV { tag, data: s.skip(n1 + n2).take(len as int) },
                        n1 + n2 + len as int,
                    ),
                )
            },
        },
    }
}

/// One tagged field of a tag section: an extension point of the protocol
/// carried as uninterpreted bytes.
#[derive(Debug)]
pub struct TagField {
    pub tag: u32,
    pub data: Vec<u8>,
}

impl View for TagField {
    type V = TagFieldV;

    open spec fn view(&self) -> TagFieldV {
        TagFieldV { tag: self.tag, data: self.data@ }
    }
}

impl Encode for TagField {
    open spec fn m_wf(m: TagFieldV) -> bool {
        m.data.len() < 0x1_0000_0000
    }

    open spec fn m_enc(m: TagFieldV) -> Seq<u8> {
        spec_uvarint_enc(m.tag as nat) + spec_uvarint_enc(m.data.len()) + m.data
    }

    fn serialize(&self) -> (r: Vec<u8>) {
        let mut buf: Vec<u8> = UnsignedVarint(self.tag).serialize();
        let mut len_bytes: Vec<u8> = UnsignedVarint(self.data.len() as u32).serialize();
        buf.append(&mut len_bytes);
        let mut data_bytes: Vec<u8> = vstd::slice::slice_to_vec(self.data.as_slice());
        buf.append(&mut data_bytes);
        proof {
            assert(spec_uvarint_enc((self.data.len() as u32) as nat) == spec_uvarint_enc(
                self.data@.len(),
            ));
            assert(buf@ =~= Self::m_enc(self@));
        }
        buf
    }
}

impl Serializable for TagField {
    open spec fn m_dec(s: Seq<u8>) -> Result<(TagFieldV, int), DecodeError> {
        spec_tag_field_dec(s)
    }

    proof fn lemma_dec_ok(s: Seq<u8>) {
        lemma_uvarint_dec_raw_ok(s, 5);
        match spec_uvarint_dec(s) {
            Err(_) => {},
            Ok((tag, n1)) => {
                lemma_uvarint_dec_raw_ok(s.skip(n1), 5);
            },
        }
    }

    proof fn lemma_round_trip(m: TagFieldV, rest: Seq<u8>) {
        let tag_enc = spec_uvarint_enc(m.tag as nat);
        let len_enc = spec_uvarint_enc(m.data.len());
        let s = Self::m_enc(m) + rest;
        lemma_uvarint_round_trip(m.tag, len_enc + (m.data + rest));
        assert(s =~= tag_enc + (len_enc + (m.data + rest)));
        let n1 = tag_enc.len() as int;
        assert(s.skip(n1) =~= len_enc + (m.data + rest));
        lemma_uvarint_round_trip(m.data.len() as u32, m.data + rest);
        assert(spec_uvarint_enc((m.data.len() as u32) as nat) == len_enc);
        let n2 = len_enc.len() as int;
        assert(s.skip(n1).skip(n2) =~= m.data + rest);
        assert(s.skip(n1 + n2) =~= s.skip(n1).skip(n2));
        assert(s.skip(n1 + n2).take(m.data.len() as int) =~= m.data);
        assert(Self::m_enc(m).len() == n1 + n2 + m.data.len());
    }

    fn deserialize(bytes: &[u8]) -> (r: Result<(Self, &[u8]), DecodeError>) {
        let (tag, rest1) = match UnsignedVarint::deserialize(bytes) {
            Ok(p) => p,
            Err(e) => {
                return Err(e);
            },
        };
        let (len, rest2) = match UnsignedVarint::deserialize(rest1) {
            Ok(p) => p,
            Err(e) => {
                return Err(e);
            },
        };
        let ghost n1 = choose|n: int| #![auto]
            spec_uvarint_dec(bytes@) == Ok::<(u32, int), DecodeError>((tag.0, n)) && 0 <= n
                <= bytes@.len() && rest1@ == bytes@.skip(n);
        let ghost n2 = choose|n: int| #![auto]
            spec_uvarint_dec(rest1@) == Ok::<(u32, int), DecodeError>((len.0, n)) && 0 <= n
                <= rest1@.len() && rest2@ == rest1@.skip(n);
        proof {
            assert(bytes@.skip(n1).skip(n2) =~= bytes@.skip(n1 + n2));
        }
        match read_bytes(rest2, len.0 as usize) {
            None => Err(DecodeError::TruncatedInput),
            Some((data, rest3)) => {
                proof {
                    assert(rest3@ =~= bytes@.skip(n1 + n2 + len.0 as int));
                }
                Ok((TagField { tag: tag.0, data }, rest3))
            },
        }
    }
}

/// The decoding of a tag section: an unbiased count, then that many tagged
/// fields.
pub open spec fn spec_tag_section_dec(s: Seq<u8>) -> Result<(Seq<TagFieldV>, int), DecodeError> {
    match spec_uvarint_dec(s) {
        Err(e) => Err(e),
        Ok((k, n)) => match spec_elems_dec::<TagField>(s.skip(n), k as nat) {
            Err(e) => Err(e),
            Ok((ms, n2)) => Ok((ms, n + n2)),
        },
    }
}

/// The trailing tag section of a flexible-version message. An absent section
/// and a present-but-empty one are the same thing on the wire (a single zero
/// byte), so the model is just the sequence of fields.
#[derive(Debug, Default)]
pub struct TagSection(pub Option<Vec<TagField>>);

impl TagSection {
    /// An empty tag section.
    pub fn new() -> (r: Self)
        ensures
            r@ == Seq::<TagFieldV>::empty(),
    {
        let r = TagSection(Some(Vec::new()));
        proof {
            assert(r@ =~= Seq::<TagFieldV>::empty());
        }
        r
    }
}

impl View for TagSection {
    type V = Seq<TagFieldV>;

    open spec fn view(&self) -> Seq<TagFieldV> {
        match self.0 {
            None => Seq::empty(),
            Some(fields) => seq_views(fields@),
        }
    }
}

impl Encode for TagSection {
    open spec fn m_wf(m: Seq<TagFieldV>) -> bool {
        m.len() < 0x1_0000_0000 && forall|j: int|
            0 <= j < m.len() ==> TagField::m_wf(#[trigger] m[j])
    }

    open spec fn m_enc(m: Seq<TagFieldV>) -> Seq<u8> {
        spec_uvarint_enc(m.len()) + spec_elems_enc::<TagField>(m)
    }

    fn serialize(&self) -> (r: Vec<u8>) {
        match &self.0 {
            None => {
                let buf = UnsignedVarint(0).serialize();
                proof {
                    assert(buf@ =~= Self::m_enc(self@));
                }
                buf
            },
            Some(fields) => {
                proof {
                    assert forall|j: int| 0 <= j < fields@.len() implies TagField::m_wf(
                        #[trigger] fields@[j]@,
                    ) by {
                        assert(seq_views(fields@)[j] == fields@[j]@);
                    }
                }
                let mut buf: Vec<u8> = UnsignedVarint(fields.len() as u32).serialize();
                let mut body: Vec<u8> = serialize_elems(fields);
                buf.append(&mut body);
                proof {
                    assert(spec_uvarint_enc((fields@.len() as u32) as nat) == spec_uvarint_enc(
                        self@.len(),
                    ));
                    assert(buf@ =~= Self::m_enc(self@));
                }
                buf
            },
        }
    }
}

impl Serializable for TagSection {
    open spec fn m_dec(s: Seq<u8>) -> Result<(Seq<TagFieldV>, int), DecodeError> {
        spec_tag_section_dec(s)
    }

    proof fn lemma_dec_ok(s: Seq<u8>) {
        assert(Self::m_dec(s) == spec_tag_section_dec(s));
        lemma_uvarint_dec_raw_ok(s, 5);
        match spec_uvarint_dec(s) {
            Err(_) => {},
            Ok((k, n)) => {
                lemma_elems_dec_ok::<TagField>(s.skip(n), k as nat);
                match spec_elems_dec::<TagField>(s.skip(n), k as nat) {
                    Err(_) => {},
                    Ok((ms, n2)) => {
                        assert(Self::m_wf(ms));
                    },
                }
            },
        }
    }

    proof fn lemma_round_trip(m: Seq<TagFieldV>, rest: Seq<u8>) {
        let count_enc = spec_uvarint_enc(m.len());
        let body_enc = spec_elems_enc::<TagField>(m);
        let s = Self::m_enc(m) + rest;
        lemma_uvarint_round_trip(m.len() as u32, body_enc + rest);
        assert(spec_uvarint_enc((m.len() as u32) as nat) == count_enc);
        assert(s =~= count_enc + (body_enc + rest));
        let n = count_enc.len() as int;
        assert(s.skip(n) =~= body_enc + rest);
        lemma_elems_round_trip::<TagField>(m, rest);
    }

    fn deserialize(bytes: &[u8]) -> (r: Result<(Self, &[u8]), DecodeError>) {
        let (k, rest1) = match UnsignedVarint::deserialize(bytes) {
            Ok(p) => p,
            Err(e) => {
                return Err(e);
            },
        };
        if k.0 == 0 {
            let r = TagSection(None);
            proof {
                assert(r@ =~= Seq::<TagFieldV>::empty());
            }
            return Ok((r, rest1));
        }
        match deserialize_elems::<TagField>(rest1, k.0) {
            Err(e) => Err(e),
            Ok((fields, rest2)) => {
                let ghost n1 = choose|n: int| #![auto]
                    spec_uvarint_dec(bytes@) == Ok::<(u32, int), DecodeError>((k.0, n)) && 0 <= n
                        <= bytes@.len() && rest1@ == bytes@.skip(n);
                proof {
                    let n2 = bytes@.skip(n1).len() - rest2@.len();
                    assert(bytes@.skip(n1).skip(n2) =~= bytes@.skip(n1 + n2));
                    lemma_elems_dec_ok::<TagField>(bytes@.skip(n1), k.0 as nat);
                    assert forall|j: int| 0 <= j < seq_views(fields@).len() implies TagField::m_wf(
                        #[trigger] seq_views(fields@)[j],
                    ) by {
                        assert(seq_views(fields@)[j] == fields@[j]@);
                    }
                }
                Ok((TagSection(Some(fields)), rest2))
            },
        }
    }
}

/// The decoding of a compact string: a varint length `L`; zero means null,
/// otherwise `L - 1` bytes of content follow.
pub open spec fn spec_compact_string_dec(s: Seq<u8>) -> Result<
    (Option<Seq<u8>>, int),
    DecodeError,
> {
    match spec_uvarint_dec(s) {
        Err(e) => Err(e),
        Ok((l, n)) => if l == 0 {
            Ok((None, n))
        } else if s.skip(n).len() < l - 1 {
            Err(DecodeError::TruncatedInput)
        } else {
            Ok((Some(s.skip(n).take(l - 1)), n + l - 1))
        },
    }
}

/// A length-prefixed string in the compact format, where the length field is
/// biased by one so that zero can encode a null (absent) string. The content
/// is kept as raw bytes.
#[derive(Debug, Default)]
pub struct CompactString(pub Option<Vec<u8>>);

impl View for CompactString {
    type V = Option<Seq<u8>>;

    open spec fn view(&self) -> Option<Seq<u8>> {
        match self.0 {
            None => None,
            Some(content) => Some(content@),
        }
    }
}

impl Encode for CompactString {
    open spec fn m_wf(m: Option<Seq<u8>>) -> bool {
        m matches Some(content) ==> content.len() + 1 < 0x1_0000_0000
    }

    open spec fn m_enc(m: Option<Seq<u8>>) -> Seq<u8> {
        match m {
            None => spec_uvarint_enc(0),
            Some(content) => spec_uvarint_enc(content.len() + 1) + content,
        }
    }

    fn serialize(&self) -> (r: Vec<u8>) {
        match &self.0 {
            None => UnsignedVarint(0).serialize(),
            Some(content) => {
                let l: u32 = content.len() as u32 + 1;
                let mut buf: Vec<u8> = UnsignedVarint(l).serialize();
                let mut body: Vec<u8> = vstd::slice::slice_to_vec(content.as_slice());
                buf.append(&mut body);
                proof {
                    assert(spec_uvarint_enc(l as nat) == spec_uvarint_enc(content@.len() + 1));
                }
                buf
            },
        }
    }
}

impl Serializable for CompactString {
    open spec fn m_dec(s: Seq<u8>) -> Result<(Option<Seq<u8>>, int), DecodeError> {
        spec_compact_string_dec(s)
    }

    proof fn lemma_dec_ok(s: Seq<u8>) {
        assert(Self::m_dec(s) == spec_compact_string_dec(s));
        lemma_uvarint_dec_raw_ok(s, 5);
    }

    proof fn lemma_round_trip(m: Option<Seq<u8>>, rest: Seq<u8>) {
        match m {
            None => {
                lemma_uvarint_round_trip(0, rest);
            },
            Some(content) => {
                let l: u32 = (content.len() + 1) as u32;
                let len_enc = spec_uvarint_enc(content.len() + 1);
                let s = Self::m_enc(m) + rest;
                lemma_uvarint_round_trip(l, content + rest);
                assert(spec_uvarint_enc(l as nat) == len_enc);
                assert(s =~= len_enc + (content + rest));
                let n = len_enc.len() as int;
                assert(s.skip(n) =~= content + rest);
                assert(s.skip(n).take(l - 1) =~= content);
            },
        }
    }

    fn deserialize(bytes: &[u8]) -> (r: Result<(Self, &[u8]), DecodeError>) {
        let (l, rest1) = match UnsignedVarint::deserialize(bytes) {
            Ok(p) => p,
            Err(e) => {
                return Err(e);
            },
        };
        if l.0 == 0 {
            return Ok((CompactString(None), rest1));
        }
        match read_bytes(rest1, (l.0 - 1) as usize) {
            None => Err(DecodeError::TruncatedInput),
            Some((content, rest2)) => Ok((CompactString(Some(content)), rest2)),
        }
    }
}

/// A length-prefixed sequence of elements in the compact format, with the
/// same one-biased length convention as `CompactString`.
#[derive(Debug, Default)]
pub struct CompactArray<T>(pub Option<Vec<T>>);

impl<T: View> View for CompactArray<T> {
    type V = Option<Seq<T::V>>;

    open spec fn view(&self) -> Option<Seq<T::V>> {
        match self.0 {
            None => None,
            Some(items) => Some(seq_views(items@)),
        }
    }
}

impl<T: Encode> Encode for CompactArray<T> {
    open spec fn m_wf(m: Option<Seq<T::V>>) -> bool {
        m matches Some(ms) ==> ms.len() + 1 < 0x1_0000_0000 && forall|j: int|
            0 <= j < ms.len() ==> T::m_wf(#[trigger] ms[j])
    }

    open spec fn m_enc(m: Option<Seq<T::V>>) -> Seq<u8> {
        match m {
            None => spec_uvarint_enc(0),
            Some(ms) => spec_uvarint_enc(ms.len() + 1) + spec_elems_enc::<T>(ms),
        }
    }

    fn serialize(&self) -> (r: Vec<u8>) {
        match &self.0 {
            None => UnsignedVarint(0).serialize(),
            Some(items) => {
                proof {
                    assert forall|j: int| 0 <= j < items@.len() implies T::m_wf(
                        #[trigger] items@[j]@,
                    ) by {
                        assert(seq_views(items@)[j] == items@[j]@);
                    }
                }
                let l: u32 = items.len() as u32 + 1;
                let mut buf: Vec<u8> = UnsignedVarint(l).serialize();
                let mut body: Vec<u8> = serialize_elems(items);
                buf.append(&mut body);
                proof {
                    assert(spec_uvarint_enc(l as nat) == spec_uvarint_enc(
                        seq_views(items@).len() + 1,
                    ));
                }
                buf
            },
        }
    }
}

impl<T: Serializable> Serializable for CompactArray<T> {
    open spec fn m_dec(s: Seq<u8>) -> Result<(Option<Seq<T::V>>, int), DecodeError> {
        match spec_uvarint_dec(s) {
            Err(e) => Err(e),
            Ok((l, n)) => if l == 0 {
                Ok((None, n))
            } else {
                match spec_elems_dec::<T>(s.skip(n), (l - 1) as nat) {
                    Err(e) => Err(e),
                    Ok((ms, n2)) => Ok((Some(ms), n + n2)),
                }
            },
        }
    }

    proof fn lemma_dec_ok(s: Seq<u8>) {
        lemma_uvarint_dec_raw_ok(s, 5);
        match spec_uvarint_dec(s) {
            Err(_) => {},
            Ok((l, n)) => {
                if l > 0 {
                    lemma_elems_dec_ok::<T>(s.skip(n), (l - 1) as nat);
                }
            },
        }
    }

    proof fn lemma_round_trip(m: Option<Seq<T::V>>, rest: Seq<u8>) {
        match m {
            None => {
                lemma_uvarint_round_trip(0, rest);
            },
            Some(ms) => {
                let l: u32 = (ms.len() + 1) as u32;
                let len_enc = spec_uvarint_enc(ms.len() + 1);
                let body_enc = spec_elems_enc::<T>(ms);
                let s = Self::m_enc(m) + rest;
                lemma_uvarint_round_trip(l, body_enc + rest);
                assert(spec_uvarint_enc(l as nat) == len_enc);
                assert(s =~= len_enc + (body_enc + rest));
                let n = len_enc.len() as int;
                assert(s.skip(n) =~= body_enc + rest);
                lemma_elems_round_trip::<T>(ms, rest);
            },
        }
    }

    fn deserialize(bytes: &[u8]) -> (r: Result<(Self, &[u8]), DecodeError>) {
        let (l, rest1) = match UnsignedVarint::deserialize(bytes) {
            Ok(p) => p,
            Err(e) => {
                return Err(e);
            },
        };
        if l.0 == 0 {
            return Ok((CompactArray(None), rest1));
        }
        match deserialize_elems::<T>(rest1, l.0 - 1) {
            Err(e) => Err(e),
            Ok((items, rest2)) => {
                let ghost n1 = choose|n: int| #![auto]
                    spec_uvarint_dec(bytes@) == Ok::<(u32, int), DecodeError>((l.0, n)) && 0 <= n
                        <= bytes@.len() && rest1@ == bytes@.skip(n);
                proof {
                    let n2 = bytes@.skip(n1).len() - rest2@.len();
                    assert(bytes@.skip(n1).skip(n2) =~= bytes@.skip(n1 + n2));
                    lemma_elems_dec_ok::<T>(bytes@.skip(n1), (l.0 - 1) as nat);
                    assert forall|j: int| 0 <= j < seq_views(items@).len() implies T::m_wf(
                        #[trigger] seq_views(items@)[j],
                    ) by {
                        assert(seq_views(items@)[j] == items@[j]@);
                    }
                }
                Ok((CompactArray(Some(items)), rest2))
            },
        }
    }
}

/// A round trip preserves null against empty for compact strings: the
/// decoded value is present exactly when the encoded one was, because null
/// encodes as length 0 and an empty string as length 1.
pub proof fn lemma_compact_string_null_empty(m: Option<Seq<u8>>, rest: Seq<u8>)
    requires
        CompactString::m_wf(m),
    ensures
        CompactString::m_dec(CompactString::m_enc(m) + rest) matches Ok(p) && (p.0 is Some <==> m
            is Some) && p.0 == m,
{
    CompactString::lemma_round_trip(m, rest);
}

/// The same distinction for compact arrays of any element type.
pub proof fn lemma_compact_array_null_empty<T: Serializable>(m: Option<Seq<T::V>>, rest: Seq<u8>)
    requires
        CompactArray::<T>::m_wf(m),
    ensures
        CompactArray::<T>::m_dec(CompactArray::<T>::m_enc(m) + rest) matches Ok(p) && (p.0
            is Some <==> m is Some) && p.0 == m,
{
    CompactArray::<T>::lemma_round_trip(m, rest);
}

/// An empty tag section is exactly the single byte zero, in both
/// directions.
pub proof fn lemma_tag_section_empty()
    ensures
        TagSection::m_enc(Seq::empty()) == seq![0u8],
        TagSection::m_dec(seq![0u8]) == Ok::<(Seq<TagFieldV>, int), DecodeError>(
            (Seq::empty(), 1),
        ),
{
    assert(spec_uvarint_enc(0) =~= seq![0u8]);
    assert(TagSection::m_enc(Seq::empty()) =~= seq![0u8]);
    let s = seq![0u8];
    assert(uvarint_dec_raw(s, 5) == Ok::<(nat, int), DecodeError>((0, 1)));
    assert(s.skip(1) =~= Seq::<u8>::empty());
    assert(spec_elems_dec::<TagField>(s.skip(1), 0) == Ok::<(Seq<TagFieldV>, int), DecodeError>(
        (Seq::empty(), 0),
    ));
    assert(TagSection::m_dec(s) == Ok::<(Seq<TagFieldV>, int), DecodeError>((Seq::empty(), 1)));
}

/// The big-endian encoding of a signed 16-bit integer.
pub open spec fn spec_i16_be(v: i16) -> Seq<u8> {
    seq![((v as u16) / 0x100) as u8, ((v as u16) % 0x100) as u8]
}

pub open spec fn spec_i16_dec(s: Seq<u8>) -> Result<(i16, int), DecodeError> {
    if s.len() < 2 {
        Err(DecodeError::TruncatedInput)
    } else {
        Ok((((s[0] as u16) * 0x100 + (s[1] as u16)) as i16, 2))
    }
}

/// The big-endian encoding of a signed 32-bit integer.
pub open spec fn spec_i32_be(v: i32) -> Seq<u8> {
    seq![
        ((v as u32) / 0x100_0000) as u8,
        (((v as u32) / 0x1_0000) % 0x100) as u8,
        (((v as u32) / 0x100) % 0x100) as u8,
        ((v as u32) % 0x100) as u8,
    ]
}

pub open spec fn spec_i32_dec(s: Seq<u8>) -> Result<(i32, int), DecodeError> {
    if s.len() < 4 {
        Err(DecodeError::TruncatedInput)
    } else {
        Ok(
            (
                ((s[0] as u32) * 0x100_0000 + (s[1] as u32) * 0x1_0000 + (s[2] as u32) * 0x100 + (
                s[3] as u32)) as i32,
                4,
            ),
        )
    }
}

impl Encode for i16 {
    open spec fn m_wf(m: i16) -> bool {
        true
    }

    open spec fn m_enc(m: i16) -> Seq<u8> {
        spec_i16_be(m)
    }

    fn serialize(&self) -> (r: Vec<u8>) {
        let u: u16 = *self as u16;
        let mut buf: Vec<u8> = Vec::new();
        buf.push((u / 0x100) as u8);
        buf.push((u % 0x100) as u8);
        proof {
            assert(buf@ =~= spec_i16_be(*self));
            assert(Self::m_enc(self@) == spec_i16_be(*self));
        }
        buf
    }
}

impl Serializable for i16 {
    open spec fn m_dec(s: Seq<u8>) -> Result<(i16, int), DecodeError> {
        spec_i16_dec(s)
    }

    proof fn lemma_dec_ok(s: Seq<u8>) {
    }

    proof fn lemma_round_trip(m: i16, rest: Seq<u8>) {
        let s = spec_i16_be(m) + rest;
        assert(s[0] == ((m as u16) / 0x100) as u8 && s[1] == ((m as u16) % 0x100) as u8);
        assert((((((m as u16) / 0x100) as u8) as u16) * 0x100 + ((((m as u16) % 0x100) as u8)
            as u16)) as i16 == m) by (bit_vector);
    }

    fn deserialize(bytes: &[u8]) -> (r: Result<(Self, &[u8]), DecodeError>) {
        if bytes.len() < 2 {
            return Err(DecodeError::TruncatedInput);
        }
        let v: u16 = (bytes[0] as u16) * 0x100 + (bytes[1] as u16);
        let rest: &[u8] = slice_subrange(bytes, 2, bytes.len());
        proof {
            assert(rest@ =~= bytes@.skip(2));
        }
        Ok((#[verifier::truncate] (v as i16), rest))
    }
}

impl Encode for i32 {
    open spec fn m_wf(m: i32) -> bool {
        true
    }

    open spec fn m_enc(m: i32) -> Seq<u8> {
        spec_i32_be(m)
    }

    fn serialize(&self) -> (r: Vec<u8>) {
        let u: u32 = *self as u32;
        let mut buf: Vec<u8> = Vec::new();
        buf.push((u / 0x100_0000) as u8);
        buf.push(((u / 0x1_0000) % 0x100) as u8);
        buf.push(((u / 0x100) % 0x100) as u8);
        buf.push((u % 0x100) as u8);
        proof {
            assert((u / 0x100_0000) < 0x100) by (bit_vector);
            assert(buf@ =~= spec_i32_be(*self));
            assert(Self::m_enc(self@) == spec_i32_be(*self));
        }
        buf
    }
}

impl Serializable for i32 {
    open spec fn m_dec(s: Seq<u8>) -> Result<(i32, int), DecodeError> {
        spec_i32_dec(s)
    }

    proof fn lemma_dec_ok(s: Seq<u8>) {
    }

    proof fn lemma_round_trip(m: i32, rest: Seq<u8>) {
        let s = spec_i32_be(m) + rest;
        let u = m as u32;
        assert(s[0] == (u / 0x100_0000) as u8 && s[1] == ((u / 0x1_0000) % 0x100) as u8 && s[2]
            == ((u / 0x100) % 0x100) as u8 && s[3] == (u % 0x100) as u8);
        assert(((((u / 0x100_0000) as u8) as u32) * 0x100_0000 + ((((u / 0x1_0000) % 0x100) as u8)
            as u32) * 0x1_0000 + ((((u / 0x100) % 0x100) as u8) as u32) * 0x100 + (((u % 0x100)
            as u8) as u32)) as i32 == m) by (bit_vector)
            requires
                u == m as u32,
        ;
    }

    fn deserialize(bytes: &[u8]) -> (r: Result<(Self, &[u8]), DecodeError>) {
        if bytes.len() < 4 {
            return Err(DecodeError::TruncatedInput);
        }
        let v: u32 = (bytes[0] as u32) * 0x100_0000 + (bytes[1] as u32) * 0x1_0000 + (bytes[2]
            as u32) * 0x100 + (bytes[3] as u32);
        let rest: &[u8] = slice_subrange(bytes, 4, bytes.len());
        proof {
            assert(rest@ =~= bytes@.skip(4));
        }
        Ok((#[verifier::truncate] (v as i32), rest))
    }
}

impl Encode for bool {
    open spec fn m_wf(m: bool) -> bool {
        true
    }

    open spec fn m_enc(m: bool) -> Seq<u8> {
        if m {
            seq![1u8]
        } else {
            seq![0u8]
        }
    }

    fn serialize(&self) -> (r: Vec<u8>) {
        let mut buf: Vec<u8> = Vec::new();
        if *self {
            buf.push(1);
        } else {
            buf.push(0);
        }
        proof {
            assert(buf@ =~= Self::m_enc(self@));
        }
        buf
    }
}

impl Serializable for bool {
    open spec fn m_dec(s: Seq<u8>) -> Result<(bool, int), DecodeError> {
        if s.len() < 1 {
            Err(DecodeError::TruncatedInput)
        } else if s[0] == 0 {
            Ok((false, 1))
        } else if s[0] == 1 {
            Ok((true, 1))
        } else {
            Err(DecodeError::InvalidEncoding)
        }
    }

    proof fn lemma_dec_ok(s: Seq<u8>) {
    }

    proof fn lemma_round_trip(m: bool, rest: Seq<u8>) {
    }

    fn deserialize(bytes: &[u8]) -> (r: Result<(Self, &[u8]), DecodeError>) {
        if bytes.len() < 1 {
            return Err(DecodeError::TruncatedInput);
        }
        let b: u8 = bytes[0];
        if b > 1 {
            return Err(DecodeError::InvalidEncoding);
        }
        let rest: &[u8] = slice_subrange(bytes, 1, bytes.len());
        proof {
            assert(rest@ =~= bytes@.skip(1));
        }
        Ok((b == 1, rest))
    }
}

/// A 16-byte universally unique identifier, held in network byte order.
#[derive(Debug)]
pub struct Uuid(pub Vec<u8>);

impl Uuid {
    /// The nil identifier: sixteen zero bytes.
    pub fn nil() -> (r: Self)
        ensures
            r@ == Seq::new(16, |i: int| 0u8),
    {
        let mut bytes: Vec<u8> = Vec::new();
        let mut i: usize = 0;
        while i < 16
            invariant
                0 <= i <= 16,
                bytes@.len() == i,
                forall|j: int| 0 <= j < i ==> bytes@[j] == 0u8,
            decreases 16 - i,
        {
            bytes.push(0);
            i = i + 1;
        }
        let r = Uuid(bytes);
        proof {
            assert(r@ =~= Seq::new(16, |i: int| 0u8));
        }
        r
    }
}

impl View for Uuid {
    type V = Seq<u8>;

    open spec fn view(&self) -> Seq<u8> {
        self.0@
    }
}

impl Encode for Uuid {
    open spec fn m_wf(m: Seq<u8>) -> bool {
        m.len() == 16
    }

    open spec fn m_enc(m: Seq<u8>) -> Seq<u8> {
        m
    }

    fn serialize(&self) -> (r: Vec<u8>) {
        let r = vstd::slice::slice_to_vec(self.0.as_slice());
        proof {
            assert(Self::m_enc(self@) == self.0@);
        }
        r
    }
}

impl Serializable for Uuid {
    open spec fn m_dec(s: Seq<u8>) -> Result<(Seq<u8>, int), DecodeError> {
        if s.len() < 16 {
            Err(DecodeError::TruncatedInput)
        } else {
            Ok((s.take(16), 16))
        }
    }

    proof fn lemma_dec_ok(s: Seq<u8>) {
    }

    proof fn lemma_round_trip(m: Seq<u8>, rest: Seq<u8>) {
        assert((m + rest).take(16) =~= m);
    }

    fn deserialize(bytes: &[u8]) -> (r: Result<(Self, &[u8]), DecodeError>) {
        match read_bytes(bytes, 16) {
            None => Err(DecodeError::TruncatedInput),
            Some((data, rest)) => Ok((Uuid(data), rest)),
        }
    }
}

/// A sequence whose first five bytes all carry the continuation bit is
/// rejected as an invalid encoding, however long it is.
pub proof fn lemma_uvarint_dec_nonterminating(s: Seq<u8>)
    requires
        s.len() >= 5,
        forall|j: int| 0 <= j < 5 ==> s[j] >= 0x80,
    ensures
        spec_uvarint_dec(s) == Err::<(u32, int), DecodeError>(DecodeError::InvalidEncoding),
{
    lemma_uvarint_dec_nonterminating_step(s, 5);
    assert(s.skip(0) =~= s);
}

proof fn lemma_uvarint_dec_nonterminating_step(s: Seq<u8>, k: int)
    requires
        s.len() >= 5,
        forall|j: int| 0 <= j < 5 ==> s[j] >= 0x80,
        0 <= k <= 5,
    ensures
        uvarint_dec_raw(s.skip(5 - k), k as nat) == Err::<(nat, int), DecodeError>(
            DecodeError::InvalidEncoding,
        ),
    decreases k,
{
    if k > 0 {
        lemma_uvarint_dec_nonterminating_step(s, k - 1);
        assert(s.skip(5 - k).skip(1) =~= s.skip(5 - (k - 1)));
        assert(s.skip(5 - k)[0] == s[5 - k]);
    }
}

} // verus!

