//! The self-describing binary envelopes.
//!
//! Legacy format: `salt(16) || nonce(12) || ciphertext`.
//! Advanced format: `magic(8) || metadata_length(4, little-endian) ||
//! salt(32) || nonce(12) || metadata || ciphertext`, where the metadata
//! is the integrity record's JSON wire form.  Both transit as standard
//! padded base64 text.

use vstd::prelude::*;
use vstd::slice::slice_subrange;
use vstd::slice::slice_to_vec;

use crate::errors::CryptoError;
use crate::integrity::info_wf;
use crate::integrity::metadata_json_of;
use crate::integrity::parse_metadata;
use crate::integrity::encode_metadata;
use crate::integrity::FileIntegrityInfo;
use crate::integrity::IntegrityInfoView;
use crate::numbers::le32_of;
use crate::numbers::le32_val;
use crate::numbers::lemma_le32_roundtrip;
use crate::numbers::u32_from_le;
use crate::numbers::u32_to_le;
use crate::strutil::string_from_utf8;

verus! {

/// Salt length of the legacy format.
pub const LEGACY_SALT_SIZE: usize = 16;

/// Salt length of the advanced format.
pub const ADVANCED_SALT_SIZE: usize = 32;

/// Fixed header length of the advanced format: magic, metadata length,
/// salt and nonce.
pub const ADVANCED_HEADER_SIZE: usize = 56;

/// The advanced format's eight magic bytes, the ASCII text `AESADV01`.
pub open spec fn magic_bytes() -> Seq<u8> {
    seq![65u8, 69u8, 83u8, 65u8, 68u8, 86u8, 48u8, 49u8]
}

/// Writes the magic bytes.
pub fn make_magic() -> (r: Vec<u8>)
    ensures
        r@ == magic_bytes(),
{
    let mut r: Vec<u8> = Vec::new();
    r.push(65u8);
    r.push(69u8);
    r.push(83u8);
    r.push(65u8);
    r.push(68u8);
    r.push(86u8);
    r.push(48u8);
    r.push(49u8);
    proof {
        assert(r@ =~= magic_bytes());
    }
    r
}

/// The legacy envelope.
pub open spec fn legacy_container_of(salt: Seq<u8>, nonce: Seq<u8>, ct: Seq<u8>) -> Seq<u8> {
    salt + nonce + ct
}

/// The advanced envelope around metadata bytes and ciphertext.
pub open spec fn advanced_container_of(
    meta: Seq<u8>,
    salt: Seq<u8>,
    nonce: Seq<u8>,
    ct: Seq<u8>,
) -> Seq<u8> {
    magic_bytes() + le32_of(meta.len() as u32) + salt + nonce + meta + ct
}

/// Concatenates salt, nonce and ciphertext into the legacy envelope.
pub fn encode_legacy_container(salt: &Vec<u8>, nonce: &Vec<u8>, ct: &Vec<u8>) -> (r: Vec<u8>)
    ensures
        r@ == legacy_container_of(salt@, nonce@, ct@),
{
    let mut r: Vec<u8> = Vec::new();
    r.extend_from_slice(salt.as_slice());
    r.extend_from_slice(nonce.as_slice());
    r.extend_from_slice(ct.as_slice());
    r
}

/// Splits a legacy envelope into salt, nonce and ciphertext.  Fails
/// exactly when the data cannot hold the two fixed fields.
pub fn parse_legacy_container(data: &Vec<u8>) -> (r: Option<(Vec<u8>, Vec<u8>, Vec<u8>)>)
    ensures
        r is Some <==> data@.len() >= LEGACY_SALT_SIZE + crate::aead::NONCE_SIZE,
        r matches Some(p) ==> p.0@ == data@.subrange(0, 16) && p.1@ == data@.subrange(16, 28)
            && p.2@ == data@.skip(28) && data@ == legacy_container_of(p.0@, p.1@, p.2@),
{
    if data.len() < 28 {
        return None;
    }
    let salt = slice_to_vec(slice_subrange(data.as_slice(), 0, 16));
    let nonce = slice_to_vec(slice_subrange(data.as_slice(), 16, 28));
    let ct = slice_to_vec(slice_subrange(data.as_slice(), 28, data.len()));
    proof {
        assert(data@.skip(28) =~= data@.subrange(28, data@.len() as int));
        assert(data@ =~= legacy_container_of(
            data@.subrange(0, 16),
            data@.subrange(16, 28),
            data@.skip(28),
        ));
    }
    Some((salt, nonce, ct))
}

/// Builds the advanced envelope.  Fails exactly when the metadata is
/// too long for its four-byte length prefix.
pub fn encode_advanced_container(meta: &Vec<u8>, salt: &Vec<u8>, nonce: &Vec<u8>, ct: &Vec<u8>)
    -> (r: Option<Vec<u8>>)
    ensures
        r is Some <==> meta@.len() <= u32::MAX,
        r matches Some(v) ==> v@ == advanced_container_of(meta@, salt@, nonce@, ct@),
{
    if meta.len() > 0xFFFFFFFFusize {
        return None;
    }
    let mut r = make_magic();
    let len_bytes = u32_to_le(meta.len() as u32);
    r.extend_from_slice(len_bytes.as_slice());
    r.extend_from_slice(salt.as_slice());
    r.extend_from_slice(nonce.as_slice());
    r.extend_from_slice(meta.as_slice());
    r.extend_from_slice(ct.as_slice());
    proof {
        assert(r@ =~= advanced_container_of(meta@, salt@, nonce@, ct@));
    }
    Some(r)
}

/// Whether a byte sequence opens with the advanced format's magic.
pub open spec fn has_magic(d: Seq<u8>) -> bool {
    d.len() >= 8 && d.subrange(0, 8) == magic_bytes()
}

/// The metadata length the four-byte prefix declares.
pub open spec fn declared_meta_len(d: Seq<u8>) -> u32
    recommends
        d.len() >= 12,
{
    le32_val(d[8], d[9], d[10], d[11])
}

/// A structurally valid advanced envelope: magic, full header, and
/// room for the declared metadata.
pub open spec fn advanced_sound(d: Seq<u8>) -> bool {
    &&& d.len() >= ADVANCED_HEADER_SIZE
    &&& has_magic(d)
    &&& d.len() >= ADVANCED_HEADER_SIZE + declared_meta_len(d)
}

/// The pieces of a structurally valid advanced envelope.
pub open spec fn advanced_salt_of(d: Seq<u8>) -> Seq<u8> {
    d.subrange(12, 44)
}

pub open spec fn advanced_nonce_of(d: Seq<u8>) -> Seq<u8> {
    d.subrange(44, 56)
}

pub open spec fn advanced_meta_of(d: Seq<u8>) -> Seq<u8> {
    d.subrange(56, 56 + declared_meta_len(d))
}

pub open spec fn advanced_ct_of(d: Seq<u8>) -> Seq<u8> {
    d.skip(56 + declared_meta_len(d))
}

/// An advanced envelope built from pieces is structurally valid and
/// takes its pieces back apart.
pub proof fn lemma_advanced_container_roundtrip(
    meta: Seq<u8>,
    salt: Seq<u8>,
    nonce: Seq<u8>,
    ct: Seq<u8>,
)
    requires
        salt.len() == 32,
        nonce.len() == 12,
        meta.len() <= u32::MAX,
    ensures
        advanced_sound(advanced_container_of(meta, salt, nonce, ct)),
        advanced_salt_of(advanced_container_of(meta, salt, nonce, ct)) == salt,
        advanced_nonce_of(advanced_container_of(meta, salt, nonce, ct)) == nonce,
        advanced_meta_of(advanced_container_of(meta, salt, nonce, ct)) == meta,
        advanced_ct_of(advanced_container_of(meta, salt, nonce, ct)) == ct,
{
    let d = advanced_container_of(meta, salt, nonce, ct);
    lemma_le32_roundtrip(meta.len() as u32);
    assert(d.subrange(0, 8) =~= magic_bytes());
    assert(d[8] == le32_of(meta.len() as u32)[0]);
    assert(d[9] == le32_of(meta.len() as u32)[1]);
    assert(d[10] == le32_of(meta.len() as u32)[2]);
    assert(d[11] == le32_of(meta.len() as u32)[3]);
    assert(declared_meta_len(d) == meta.len());
    assert(d.subrange(12, 44) =~= salt);
    assert(d.subrange(44, 56) =~= nonce);
    assert(d.subrange(56, 56 + declared_meta_len(d)) =~= meta);
    assert(d.skip(56 + declared_meta_len(d)) =~= ct);
}

/// Takes a decoded advanced envelope apart: salt, nonce, metadata
/// record and ciphertext.  Fails exactly where the envelope is
/// structurally invalid, its metadata is not UTF-8, or the metadata is
/// not a well-formed record.
pub fn parse_advanced_container(data: &Vec<u8>) -> (r: Option<
    (Vec<u8>, Vec<u8>, Vec<u8>, FileIntegrityInfo),
>)
    ensures
        r is Some <==> advanced_sound(data@) && vstd::utf8::valid_utf8(advanced_meta_of(data@))
            && (exists|w: IntegrityInfoView|
            info_wf(w) && vstd::utf8::decode_utf8(advanced_meta_of(data@))
                == #[trigger] metadata_json_of(w)),
        r matches Some(p) ==> {
            &&& p.0@ == advanced_salt_of(data@)
            &&& p.1@ == advanced_nonce_of(data@)
            &&& p.2@ == advanced_ct_of(data@)
            &&& info_wf(p.3@)
            &&& vstd::utf8::decode_utf8(advanced_meta_of(data@)) == metadata_json_of(p.3@)
            &&& advanced_meta_of(data@) == vstd::utf8::encode_utf8(metadata_json_of(p.3@))
        },
        forall|w: IntegrityInfoView|
            info_wf(w) && advanced_sound(data@) && vstd::utf8::valid_utf8(advanced_meta_of(data@))
                && vstd::utf8::decode_utf8(advanced_meta_of(data@)) == #[trigger] metadata_json_of(
                w,
            ) ==> (r matches Some(p) && p.3@ == w),
{
    if data.len() < 56 {
        return None;
    }
    let magic = make_magic();
    let head = slice_to_vec(slice_subrange(data.as_slice(), 0, 8));
    let mut magic_ok = true;
    let mut i: usize = 0;
    while i < 8
        invariant
            i <= 8,
            head@ == data@.subrange(0, 8),
            magic@ == magic_bytes(),
            data@.len() >= 56,
            magic_ok <==> (forall|j: int| 0 <= j < i ==> head@[j] == magic@[j]),
        decreases 8 - i,
    {
        if head[i] != magic[i] {
            magic_ok = false;
            proof {
                assert(head@[i as int] != magic@[i as int]);
            }
        }
        i = i + 1;
    }
    if !magic_ok {
        proof {
            assert(!(data@.subrange(0, 8) =~= magic_bytes()));
            assert(!has_magic(data@));
        }
        return None;
    }
    proof {
        assert(data@.subrange(0, 8) =~= magic_bytes());
    }
    let meta_len = u32_from_le(data[8], data[9], data[10], data[11]) as usize;
    if data.len() - 56 < meta_len {
        return None;
    }
    let salt = slice_to_vec(slice_subrange(data.as_slice(), 12, 44));
    let nonce = slice_to_vec(slice_subrange(data.as_slice(), 44, 56));
    let meta = slice_to_vec(slice_subrange(data.as_slice(), 56, 56 + meta_len));
    let ct = slice_to_vec(slice_subrange(data.as_slice(), 56 + meta_len, data.len()));
    proof {
        assert(advanced_meta_of(data@) =~= meta@);
        assert(advanced_ct_of(data@) =~= ct@);
    }
    let meta_str = match string_from_utf8(meta) {
        Some(t) => t,
        None => {
            return None;
        },
    };
    let info = match parse_metadata(meta_str.as_str()) {
        Some(info) => info,
        None => {
            proof {
                assert forall|w: IntegrityInfoView|
                    !(info_wf(w) && vstd::utf8::decode_utf8(advanced_meta_of(data@))
                        == #[trigger] metadata_json_of(w)) by {
                    if info_wf(w) && vstd::utf8::decode_utf8(advanced_meta_of(data@))
                        == metadata_json_of(w) {
                        assert(meta_str@ == metadata_json_of(w));
                    }
                }
            }
            return None;
        },
    };
    proof {
        vstd::utf8::decode_utf8_encode_utf8(advanced_meta_of(data@));
        assert(vstd::utf8::encode_utf8(metadata_json_of(info@)) == advanced_meta_of(data@));
    }
    Some((salt, nonce, ct, info))
}

/// Serializes the metadata record and wraps ciphertext, salt and nonce
/// in the advanced envelope, base64-encoded.
pub fn encode_encrypted_with_metadata(
    encrypted_data: &Vec<u8>,
    salt: &Vec<u8>,
    iv: &Vec<u8>,
    integrity_info: &FileIntegrityInfo,
) -> (r: Result<String, CryptoError>)
    ensures
        r is Ok <==> vstd::utf8::encode_utf8(metadata_json_of(integrity_info@)).len()
            <= u32::MAX,
        r matches Err(e) ==> e is EncryptionFailed,
        r matches Ok(s) ==> {
            &&& s@ == crate::b64::b64_of(
                advanced_container_of(
                    vstd::utf8::encode_utf8(metadata_json_of(integrity_info@)),
                    salt@,
                    iv@,
                    encrypted_data@,
                ),
            )
            &&& crate::b64::b64_decode_of(s@) == Some(
                advanced_container_of(
                    vstd::utf8::encode_utf8(metadata_json_of(integrity_info@)),
                    salt@,
                    iv@,
                    encrypted_data@,
                ),
            )
        },
{
    let meta_json = encode_metadata(integrity_info);
    let meta_bytes = meta_json.as_str().as_bytes_vec();
    match encode_advanced_container(&meta_bytes, salt, iv, encrypted_data) {
        Some(container) => Ok(crate::b64::base64_encode(container.as_slice())),
        None => Err(
            CryptoError::EncryptionFailed(
                "metadata is too long for the container header".to_owned(),
            ),
        ),
    }
}

} // verus!
