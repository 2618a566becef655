//! The metadata envelope: a length-prefixed, versioned payload that carries
//! the type registry.
use vstd::prelude::*;
use crate::codec::{DecodeError, compact_spec, read_compact};
use crate::registry::{TypeRegistry, slice_vec};
use crate::wire::{parse_registry, registry_spec, types_model};

verus! {

/// Why the registry could not be taken from a metadata blob.
#[derive(Debug, Clone, Copy, PartialEq, Eq, Structural)]
pub enum MetadataError {
    /// The length prefix or the magic prefix is wrong.
    MalformedEnvelope,
    /// The payload is of a version whose registry this library does not read.
    UnsupportedVersion(u8),
    /// The registry inside a supported payload does not decode.
    Registry(DecodeError),
}

/// The magic prefix of a metadata payload: the bytes of `meta`.
pub open spec fn magic() -> Seq<u8> {
    seq![0x6du8, 0x65u8, 0x74u8, 0x61u8]
}

/// Where the inner bytes of the envelope lie: after a `Compact` length, that many bytes.
pub open spec fn envelope_spec(raw: Seq<u8>) -> Result<(int, int), MetadataError> {
    match compact_spec(raw, 0) {
        Err(_) => Err(MetadataError::MalformedEnvelope),
        Ok((n, q)) => if q + n > raw.len() {
            Err(MetadataError::MalformedEnvelope)
        } else {
            Ok((q, q + n))
        },
    }
}

/// The version byte of the payload and where its registry starts and ends.
pub open spec fn payload_spec(raw: Seq<u8>) -> Result<(u8, int, int), MetadataError> {
    match envelope_spec(raw) {
        Err(e) => Err(e),
        Ok((s, e)) => if e - s < 5 || raw.subrange(s, s + 4) != magic() {
            Err(MetadataError::MalformedEnvelope)
        } else if raw[s + 4] != 14 && raw[s + 4] != 15 {
            Err(MetadataError::UnsupportedVersion(raw[s + 4]))
        } else {
            Ok((raw[s + 4], s + 5, e))
        },
    }
}

/// Unwraps the envelope and checks the magic prefix and the version: the
/// version and the bounds of the registry bytes.
pub fn open_payload(raw: &[u8]) -> (r: Result<(u8, usize, usize), MetadataError>)
    ensures
        r matches Ok((v, s, e)) ==> payload_spec(raw@) == Ok::<(u8, int, int), MetadataError>((v, s as int, e as int)),
        r matches Err(x) ==> payload_spec(raw@) == Err::<(u8, int, int), MetadataError>(x),
{
    let (n, q) = match read_compact(raw, 0) {
        Err(_) => {
            return Err(MetadataError::MalformedEnvelope);
        },
        Ok(x) => x,
    };
    if n > (raw.len() - q) as u128 {
        return Err(MetadataError::MalformedEnvelope);
    }
    let e = q + n as usize;
    if e - q < 5 {
        return Err(MetadataError::MalformedEnvelope);
    }
    if raw[q] != 0x6d || raw[q + 1] != 0x65 || raw[q + 2] != 0x74 || raw[q + 3] != 0x61 {
        assert(raw@.subrange(q as int, q + 4) != magic()) by {
            let m = raw@.subrange(q as int, q + 4);
            assert(m[0] == raw@[q as int] && m[1] == raw@[q + 1] && m[2] == raw@[q + 2] && m[3] == raw@[q + 3]);
        }
        return Err(MetadataError::MalformedEnvelope);
    }
    assert(raw@.subrange(q as int, q + 4) =~= magic());
    let v = raw[q + 4];
    if v != 14 && v != 15 {
        return Err(MetadataError::UnsupportedVersion(v));
    }
    Ok((v, q + 5, e))
}

/// Takes the type registry out of a metadata blob, with the payload's version.
pub fn extract_registry(raw: &[u8]) -> (r: Result<(TypeRegistry, u8), MetadataError>)
    ensures
        payload_spec(raw@) matches Err(x) ==> r == Err::<(TypeRegistry, u8), MetadataError>(x),
        payload_spec(raw@) matches Ok((v, s, e)) ==> match registry_spec(raw@.subrange(s, e), 0) {
            Ok((m, _)) => r matches Ok((reg, ver)) && ver == v && types_model(reg.types@) == m,
            Err(_) => r matches Err(MetadataError::Registry(_)),
        },
{
    let (v, s, e) = match open_payload(raw) {
        Err(x) => {
            return Err(x);
        },
        Ok(t) => t,
    };
    let body = slice_vec(raw, s, e);
    let mut pos: usize = 0;
    match parse_registry(body.as_slice(), &mut pos) {
        Err(d) => Err(MetadataError::Registry(d)),
        Ok(reg) => Ok((reg, v)),
    }
}

} // verus!
