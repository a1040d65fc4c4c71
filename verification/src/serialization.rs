//! The textual forms of scalars, group elements and share records:
//! lower-case hexadecimal of the canonical 32-byte encodings.

use vstd::prelude::*;
use crate::group::{identity_encoding, ristretto_decodes, Point};
use crate::scalar::{le_value, modulus, Scalar};
use crate::schnorr::Proof;
use crate::sharing::ShareData;

verus! {

/// Why a text was not accepted.
#[derive(Clone, Copy, Debug, PartialEq, Eq, Structural)]
pub enum DecodeError {
    /// The text is not an even number of hexadecimal digits.
    InvalidHex,
    /// The text does not stand for 32 bytes.
    InvalidLength,
    /// The bytes are not the canonical encoding of a scalar.
    NonCanonicalScalar,
    /// The bytes are not the encoding of a group element.
    InvalidPoint,
    /// The bytes encode the neutral element.
    IdentityPoint,
}

/// The lower-case hexadecimal digit for a value below 16, as an ASCII byte.
pub open spec fn hex_digit_spec(n: u8) -> u8 {
    if n < 10 {
        (48 + n) as u8
    } else {
        (87 + n) as u8
    }
}

/// The value of a hexadecimal digit of either case.
pub open spec fn hex_value_spec(c: u8) -> Option<u8> {
    if 48 <= c <= 57 {
        Some((c - 48) as u8)
    } else if 97 <= c <= 102 {
        Some((c - 87) as u8)
    } else if 65 <= c <= 70 {
        Some((c - 55) as u8)
    } else {
        None
    }
}

/// The hexadecimal text of the bytes: two digits for each, the high one first.
pub open spec fn hex_spec(bytes: Seq<u8>) -> Seq<u8>
    decreases bytes.len(),
{
    if bytes.len() == 0 {
        Seq::empty()
    } else {
        seq![hex_digit_spec(bytes[0] / 16), hex_digit_spec(bytes[0] % 16)] + hex_spec(
            bytes.drop_first(),
        )
    }
}

/// The bytes that a hexadecimal text stands for, if it is one.
pub open spec fn unhex_spec(text: Seq<u8>) -> Option<Seq<u8>>
    decreases text.len(),
{
    if text.len() == 0 {
        Some(Seq::empty())
    } else if text.len() == 1 {
        None
    } else {
        match (hex_value_spec(text[0]), hex_value_spec(text[1]), unhex_spec(text.skip(2))) {
            (Some(high), Some(low), Some(rest)) => Some(seq![(high * 16 + low) as u8] + rest),
            _ => None,
        }
    }
}

/// Decoding undoes encoding.
pub proof fn lemma_hex_round_trip(bytes: Seq<u8>)
    ensures
        unhex_spec(hex_spec(bytes)) == Some(bytes),
    decreases bytes.len(),
{
    if bytes.len() > 0 {
        let text = hex_spec(bytes);
        let b = bytes[0];
        lemma_hex_round_trip(bytes.drop_first());
        assert(text.skip(2) =~= hex_spec(bytes.drop_first()));
        assert(hex_value_spec(hex_digit_spec(b / 16)) == Some((b / 16) as u8));
        assert(hex_value_spec(hex_digit_spec(b % 16)) == Some((b % 16) as u8));
        assert(seq![b] + bytes.drop_first() =~= bytes);
    }
}

fn hex_digit(n: u8) -> (r: u8)
    requires
        n < 16,
    ensures
        r == hex_digit_spec(n),
{
    if n < 10 {
        48 + n
    } else {
        87 + n
    }
}

fn hex_value(c: u8) -> (r: Option<u8>)
    ensures
        r == hex_value_spec(c),
        r.is_some() ==> r.unwrap() < 16,
{
    if 48 <= c && c <= 57 {
        Some(c - 48)
    } else if 97 <= c && c <= 102 {
        Some(c - 87)
    } else if 65 <= c && c <= 70 {
        Some(c - 55)
    } else {
        None
    }
}

/// The lower-case hexadecimal text of the bytes.
pub fn hex_encode(bytes: &[u8]) -> (r: Vec<u8>)
    ensures
        r@ == hex_spec(bytes@),
{
    let mut out: Vec<u8> = Vec::new();
    let mut i: usize = 0;
    assert(bytes@.skip(0) =~= bytes@);
    while i < bytes.len()
        invariant
            i <= bytes.len(),
            out@ + hex_spec(bytes@.skip(i as int)) == hex_spec(bytes@),
        decreases bytes.len() - i,
    {
        let ghost before = out@;
        let b = bytes[i];
        out.push(hex_digit(b / 16));
        out.push(hex_digit(b % 16));
        proof {
            let rest = bytes@.skip(i as int);
            assert(rest.drop_first() =~= bytes@.skip(i + 1));
            assert(out@ + hex_spec(bytes@.skip(i + 1)) =~= before + hex_spec(rest));
        }
        i += 1;
    }
    assert(out@ + hex_spec(bytes@.skip(bytes@.len() as int)) =~= out@);
    out
}

/// The bytes that a hexadecimal text of either case stands for; `None` for
/// a text of odd length or with another character.
pub fn hex_decode(text: &[u8]) -> (r: Option<Vec<u8>>)
    ensures
        match unhex_spec(text@) {
            Some(bytes) => r.is_some() && r.unwrap()@ == bytes,
            None => r.is_none(),
        },
{
    if text.len() % 2 == 1 {
        proof {
            lemma_odd_text(text@);
        }
        return None;
    }
    let mut out: Vec<u8> = Vec::new();
    let mut i: usize = 0;
    assert(text@.skip(0) =~= text@);
    while i < text.len()
        invariant
            i <= text.len(),
            i % 2 == 0,
            text.len() % 2 == 0,
            unhex_spec(text@) == match unhex_spec(text@.skip(i as int)) {
                Some(rest) => Some(out@ + rest),
                None => None,
            },
        decreases text.len() - i,
    {
        let ghost before = out@;
        let ghost here = text@.skip(i as int);
        assert(here.len() >= 2 && here[0] == text@[i as int] && here[1] == text@[i + 1]);
        assert(here.skip(2) =~= text@.skip(i + 2));
        match (hex_value(text[i]), hex_value(text[i + 1])) {
            (Some(high), Some(low)) => {
                out.push(high * 16 + low);
                proof {
                    match unhex_spec(text@.skip(i + 2)) {
                        Some(rest) => {
                            assert(before + (seq![(high * 16 + low) as u8] + rest) =~= out@ + rest);
                        },
                        None => {},
                    }
                }
            },
            _ => {
                return None;
            },
        }
        i += 2;
    }
    assert(out@ + Seq::<u8>::empty() =~= out@);
    Some(out)
}

proof fn lemma_odd_text(text: Seq<u8>)
    requires
        text.len() % 2 == 1,
    ensures
        unhex_spec(text).is_none(),
    decreases text.len(),
{
    if text.len() > 1 {
        lemma_odd_text(text.skip(2));
    }
}

/// What decoding a scalar's text gives: the 32 bytes of a canonical
/// encoding, or the reason for refusing it.
pub open spec fn scalar_text_spec(text: Seq<u8>) -> Result<Seq<u8>, DecodeError> {
    match unhex_spec(text) {
        None => Err(DecodeError::InvalidHex),
        Some(bytes) => if bytes.len() != 32 {
            Err(DecodeError::InvalidLength)
        } else if le_value(bytes) >= modulus() {
            Err(DecodeError::NonCanonicalScalar)
        } else {
            Ok(bytes)
        },
    }
}

/// What decoding a group element's text gives: the 32 bytes of the encoding
/// of an element other than the neutral one, or the reason for refusing it.
pub open spec fn point_text_spec(text: Seq<u8>) -> Result<Seq<u8>, DecodeError> {
    match unhex_spec(text) {
        None => Err(DecodeError::InvalidHex),
        Some(bytes) => if bytes.len() != 32 {
            Err(DecodeError::InvalidLength)
        } else if !ristretto_decodes(bytes) {
            Err(DecodeError::InvalidPoint)
        } else if bytes == identity_encoding() {
            Err(DecodeError::IdentityPoint)
        } else {
            Ok(bytes)
        },
    }
}

/// The 32 bytes as an array, if there are 32.
pub fn to_array(bytes: &Vec<u8>) -> (r: Option<[u8; 32]>)
    ensures
        r.is_some() == (bytes.len() == 32),
        r.is_some() ==> r.unwrap()@ == bytes@,
{
    if bytes.len() != 32 {
        return None;
    }
    let mut arr = [0u8; 32];
    let mut i: usize = 0;
    while i < 32
        invariant
            i <= 32,
            bytes.len() == 32,
            forall|k: int| 0 <= k < i ==> arr@[k] == bytes@[k],
        decreases 32 - i,
    {
        arr[i] = bytes[i];
        i += 1;
    }
    assert(arr@ =~= bytes@);
    Some(arr)
}

/// A scalar in its textual form.
#[derive(Clone, Copy, Debug, PartialEq, Eq)]
pub struct SerScalar(pub Scalar);

/// A group element in its textual form.
#[derive(Clone, Copy, Debug, PartialEq, Eq)]
pub struct SerRistrettoPoint(pub Point);

impl SerScalar {
    /// The text of the scalar: the hexadecimal of its canonical encoding.
    pub fn serialize(&self) -> (r: Vec<u8>)
        ensures
            r@ == hex_spec(self.0.encoding()),
            scalar_text_spec(r@) == Ok::<Seq<u8>, DecodeError>(self.0.encoding()),
    {
        let bytes = self.0.to_bytes();
        proof {
            lemma_hex_round_trip(bytes@);
            self.0.lemma_encoding();
        }
        hex_encode(bytes.as_slice())
    }

    /// The scalar that the text stands for; a text that is not the
    /// hexadecimal of a canonical encoding is refused.
    pub fn deserialize(text: &[u8]) -> (r: Result<SerScalar, DecodeError>)
        ensures
            match scalar_text_spec(text@) {
                Ok(bytes) => r.is_ok() && r.unwrap().0.encoding() == bytes,
                Err(e) => r == Err::<SerScalar, DecodeError>(e),
            },
    {
        let bytes = match hex_decode(text) {
            Some(bytes) => bytes,
            None => {
                return Err(DecodeError::InvalidHex);
            },
        };
        let arr = match to_array(&bytes) {
            Some(arr) => arr,
            None => {
                return Err(DecodeError::InvalidLength);
            },
        };
        match Scalar::from_canonical_bytes(arr) {
            Some(scalar) => Ok(SerScalar(scalar)),
            None => Err(DecodeError::NonCanonicalScalar),
        }
    }
}

impl SerRistrettoPoint {
    /// The text of the element: the hexadecimal of its encoding.
    pub fn serialize(&self) -> (r: Vec<u8>)
        ensures
            r@ == hex_spec(self.0@),
            self.0@ != identity_encoding() ==> point_text_spec(r@) == Ok::<Seq<u8>, DecodeError>(
                self.0@,
            ),
            self.0@ == identity_encoding() ==> point_text_spec(r@) == Err::<
                Seq<u8>,
                DecodeError,
            >(DecodeError::IdentityPoint),
    {
        let bytes = self.0.to_bytes();
        proof {
            lemma_hex_round_trip(bytes@);
        }
        hex_encode(bytes.as_slice())
    }

    /// The element that the text stands for; a text that is not the
    /// hexadecimal of an encoding is refused, and so is the neutral element.
    pub fn deserialize(text: &[u8]) -> (r: Result<SerRistrettoPoint, DecodeError>)
        ensures
            match point_text_spec(text@) {
                Ok(bytes) => r.is_ok() && r.unwrap().0@ == bytes,
                Err(e) => r == Err::<SerRistrettoPoint, DecodeError>(e),
            },
    {
        let bytes = match hex_decode(text) {
            Some(bytes) => bytes,
            None => {
                return Err(DecodeError::InvalidHex);
            },
        };
        let arr = match to_array(&bytes) {
            Some(arr) => arr,
            None => {
                return Err(DecodeError::InvalidLength);
            },
        };
        match Point::from_bytes(arr) {
            Some(point) => {
                if point.is_identity() {
                    Err(DecodeError::IdentityPoint)
                } else {
                    Ok(SerRistrettoPoint(point))
                }
            },
            None => Err(DecodeError::InvalidPoint),
        }
    }
}

/// A share record in its textual form, the fields in their fixed order.
#[derive(Clone, Debug, PartialEq, Eq)]
pub struct ShareText {
    pub index: usize,
    pub share: Vec<u8>,
    pub commitment: Vec<u8>,
    pub random: Vec<u8>,
    pub proof_t: Vec<u8>,
    pub proof_z_s: Vec<u8>,
    pub proof_z_r: Vec<u8>,
}

/// The text is that of the record, field by field.
pub open spec fn is_text_of(text: ShareText, record: ShareData) -> bool {
    &&& text.index == record.index
    &&& text.share@ == hex_spec(record.share.encoding())
    &&& text.commitment@ == hex_spec(record.commitment@)
    &&& text.random@ == hex_spec(record.random.encoding())
    &&& text.proof_t@ == hex_spec(record.proof.t@)
    &&& text.proof_z_s@ == hex_spec(record.proof.z_s.encoding())
    &&& text.proof_z_r@ == hex_spec(record.proof.z_r.encoding())
}

/// The two records have the same index and the same encodings in every field.
pub open spec fn same_record(a: ShareData, b: ShareData) -> bool {
    &&& a.index == b.index
    &&& a.share.encoding() == b.share.encoding()
    &&& a.commitment@ == b.commitment@
    &&& a.random.encoding() == b.random.encoding()
    &&& a.proof.t@ == b.proof.t@
    &&& a.proof.z_s.encoding() == b.proof.z_s.encoding()
    &&& a.proof.z_r.encoding() == b.proof.z_r.encoding()
}

/// The first error among the fields of a record's text, in their order.
pub open spec fn record_text_error(text: ShareText) -> Option<DecodeError> {
    if scalar_text_spec(text.share@) is Err {
        Some(scalar_text_spec(text.share@)->Err_0)
    } else if point_text_spec(text.commitment@) is Err {
        Some(point_text_spec(text.commitment@)->Err_0)
    } else if scalar_text_spec(text.random@) is Err {
        Some(scalar_text_spec(text.random@)->Err_0)
    } else if point_text_spec(text.proof_t@) is Err {
        Some(point_text_spec(text.proof_t@)->Err_0)
    } else if scalar_text_spec(text.proof_z_s@) is Err {
        Some(scalar_text_spec(text.proof_z_s@)->Err_0)
    } else if scalar_text_spec(text.proof_z_r@) is Err {
        Some(scalar_text_spec(text.proof_z_r@)->Err_0)
    } else {
        None
    }
}

/// The record has the fields that the text's fields decode to.
pub open spec fn is_record_of(record: ShareData, text: ShareText) -> bool {
    &&& record.index == text.index
    &&& scalar_text_spec(text.share@) == Ok::<Seq<u8>, DecodeError>(record.share.encoding())
    &&& point_text_spec(text.commitment@) == Ok::<Seq<u8>, DecodeError>(record.commitment@)
    &&& scalar_text_spec(text.random@) == Ok::<Seq<u8>, DecodeError>(record.random.encoding())
    &&& point_text_spec(text.proof_t@) == Ok::<Seq<u8>, DecodeError>(record.proof.t@)
    &&& scalar_text_spec(text.proof_z_s@) == Ok::<Seq<u8>, DecodeError>(
        record.proof.z_s.encoding(),
    )
    &&& scalar_text_spec(text.proof_z_r@) == Ok::<Seq<u8>, DecodeError>(
        record.proof.z_r.encoding(),
    )
}

/// The textual form of a share record.
pub fn encode_share(record: &ShareData) -> (r: ShareText)
    ensures
        is_text_of(r, *record),
{
    ShareText {
        index: record.index,
        share: SerScalar(record.share).serialize(),
        commitment: SerRistrettoPoint(record.commitment).serialize(),
        random: SerScalar(record.random).serialize(),
        proof_t: SerRistrettoPoint(record.proof.t).serialize(),
        proof_z_s: SerScalar(record.proof.z_s).serialize(),
        proof_z_r: SerScalar(record.proof.z_r).serialize(),
    }
}

/// The share record that a text stands for, or the first error among its
/// fields.
pub fn decode_share(text: &ShareText) -> (r: Result<ShareData, DecodeError>)
    ensures
        match record_text_error(*text) {
            Some(e) => r == Err::<ShareData, DecodeError>(e),
            None => r.is_ok() && is_record_of(r.unwrap(), *text),
        },
{
    let share = match SerScalar::deserialize(text.share.as_slice()) {
        Ok(s) => s.0,
        Err(e) => {
            return Err(e);
        },
    };
    let commitment = match SerRistrettoPoint::deserialize(text.commitment.as_slice()) {
        Ok(p) => p.0,
        Err(e) => {
            return Err(e);
        },
    };
    let random = match SerScalar::deserialize(text.random.as_slice()) {
        Ok(s) => s.0,
        Err(e) => {
            return Err(e);
        },
    };
    let t = match SerRistrettoPoint::deserialize(text.proof_t.as_slice()) {
        Ok(p) => p.0,
        Err(e) => {
            return Err(e);
        },
    };
    let z_s = match SerScalar::deserialize(text.proof_z_s.as_slice()) {
        Ok(s) => s.0,
        Err(e) => {
            return Err(e);
        },
    };
    let z_r = match SerScalar::deserialize(text.proof_z_r.as_slice()) {
        Ok(s) => s.0,
        Err(e) => {
            return Err(e);
        },
    };
    Ok(ShareData { index: text.index, share, commitment, random, proof: Proof { t, z_s, z_r } })
}

/// Decoding a scalar's text gives the scalar back.
pub proof fn lemma_scalar_round_trip(scalar: Scalar)
    requires
        scalar@ < modulus(),
    ensures
        scalar_text_spec(hex_spec(scalar.encoding())) == Ok::<Seq<u8>, DecodeError>(
            scalar.encoding(),
        ),
{
    lemma_hex_round_trip(scalar.encoding());
    scalar.lemma_encoding();
}

/// Decoding a group element's text gives the element back, unless it is the
/// neutral element, whose text is refused.
pub proof fn lemma_point_round_trip(encoding: Seq<u8>)
    requires
        encoding.len() == 32,
        ristretto_decodes(encoding),
    ensures
        encoding != identity_encoding() ==> point_text_spec(hex_spec(encoding)) == Ok::<
            Seq<u8>,
            DecodeError,
        >(encoding),
        encoding == identity_encoding() ==> point_text_spec(hex_spec(encoding)) == Err::<
            Seq<u8>,
            DecodeError,
        >(DecodeError::IdentityPoint),
{
    lemma_hex_round_trip(encoding);
}

/// Decoding the text of a record gives the record back, where neither its
/// commitment nor the first message of its proof is the neutral element.
pub proof fn lemma_record_round_trip(record: ShareData, text: ShareText, decoded: ShareData)
    requires
        record.share@ < modulus(),
        record.random@ < modulus(),
        record.proof.z_s@ < modulus(),
        record.proof.z_r@ < modulus(),
        record.commitment@.len() == 32 && ristretto_decodes(record.commitment@),
        record.proof.t@.len() == 32 && ristretto_decodes(record.proof.t@),
        record.commitment@ != identity_encoding(),
        record.proof.t@ != identity_encoding(),
        is_text_of(text, record),
    ensures
        record_text_error(text).is_none(),
        is_record_of(decoded, text) ==> same_record(decoded, record),
{
    lemma_scalar_round_trip(record.share);
    lemma_scalar_round_trip(record.random);
    lemma_scalar_round_trip(record.proof.z_s);
    lemma_scalar_round_trip(record.proof.z_r);
    lemma_point_round_trip(record.commitment@);
    lemma_point_round_trip(record.proof.t@);
}

} // verus!
