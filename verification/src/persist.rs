//! The on-disk container: a four-byte tag followed by the encoded payload.

use crate::store::{Slot, Store};
use vstd::prelude::*;

verus! {

/// Length of the tag at the start of a container.
pub const TAG_LEN: usize = 4;

/// The tag that every container starts with: the ASCII letters `BOLT`.
pub open spec fn magic() -> Seq<u8> {
    seq![0x42u8, 0x4fu8, 0x4cu8, 0x54u8]
}

/// Why a container could not be turned back into a store.
#[derive(Clone, Copy, Debug, PartialEq, Eq)]
pub enum LoadError {
    /// The bytes end before the tag is complete.
    Truncated,
    /// The first four bytes are not the expected tag.
    WrongFormat,
    /// The tag is right, but the payload does not decode.
    MalformedPayload,
}

/// The container that holds `payload`.
pub open spec fn sealed(payload: Seq<u8>) -> Seq<u8> {
    magic() + payload
}

/// The payload of a container, or the reason why it has none.
pub open spec fn unsealed(bytes: Seq<u8>) -> Result<Seq<u8>, LoadError> {
    if bytes.len() < 4 {
        Err(LoadError::Truncated)
    } else if bytes.subrange(0, 4) != magic() {
        Err(LoadError::WrongFormat)
    } else {
        Ok(bytes.skip(4))
    }
}

/// The tag as bytes.
pub fn magic_tag() -> (tag: Vec<u8>)
    ensures
        tag@ == magic(),
{
    let mut tag: Vec<u8> = Vec::new();
    tag.push(0x42u8);
    tag.push(0x4fu8);
    tag.push(0x4cu8);
    tag.push(0x54u8);
    assert(tag@ =~= magic());
    tag
}

/// Puts the tag in front of an encoded payload.
pub fn seal(payload: &Vec<u8>) -> (bytes: Vec<u8>)
    ensures
        bytes@ == sealed(payload@),
{
    let mut bytes = magic_tag();
    let mut i: usize = 0;
    while i < payload.len()
        invariant
            i <= payload.len(),
            bytes@ == magic() + payload@.take(i as int),
        decreases payload.len() - i,
    {
        bytes.push(payload[i]);
        proof {
            assert(payload@.take(i + 1) =~= payload@.take(i as int).push(payload@[i as int]));
            assert(bytes@ =~= magic() + payload@.take(i + 1));
        }
        i += 1;
    }
    assert(payload@.take(payload.len() as int) =~= payload@);
    bytes
}

/// Checks the tag and hands back the payload behind it. Bytes too short to
/// hold the tag are `Truncated`; a tag that differs is `WrongFormat`.
pub fn unseal(bytes: &Vec<u8>) -> (r: Result<Vec<u8>, LoadError>)
    ensures
        match r {
            Ok(payload) => unsealed(bytes@) == Ok::<Seq<u8>, LoadError>(payload@),
            Err(e) => unsealed(bytes@) == Err::<Seq<u8>, LoadError>(e),
        },
{
    if bytes.len() < TAG_LEN {
        return Err(LoadError::Truncated);
    }
    let ghost head = bytes@.subrange(0, 4);
    if bytes[0] != 0x42u8 || bytes[1] != 0x4fu8 || bytes[2] != 0x4cu8 || bytes[3] != 0x54u8 {
        proof {
            assert(head[0] == bytes@[0] && head[1] == bytes@[1] && head[2] == bytes@[2] && head[3]
                == bytes@[3]);
            assert(magic()[0] == 0x42u8 && magic()[1] == 0x4fu8 && magic()[2] == 0x4cu8
                && magic()[3] == 0x54u8);
        }
        return Err(LoadError::WrongFormat);
    }
    assert(head =~= magic());
    let mut payload: Vec<u8> = Vec::new();
    let mut i: usize = TAG_LEN;
    while i < bytes.len()
        invariant
            4 <= i <= bytes.len(),
            payload@ == bytes@.subrange(4, i as int),
        decreases bytes.len() - i,
    {
        payload.push(bytes[i]);
        proof {
            assert(payload@ =~= bytes@.subrange(4, i + 1));
        }
        i += 1;
    }
    assert(payload@ =~= bytes@.skip(4));
    Ok(payload)
}

/// Turns the outcome of decoding a payload into a store: the decoded slots
/// become the store's contents, and a payload that did not decode is
/// `MalformedPayload`.
pub fn store_from_decoded(decoded: Option<Vec<Slot>>) -> (r: Result<Store, LoadError>)
    requires
        decoded matches Some(slots) ==> crate::store::entries_wf(slots@),
    ensures
        match decoded {
            Some(slots) => r matches Ok(s) && s.wf() && s@ == crate::store::map_of(slots@),
            None => r matches Err(e) && e == LoadError::MalformedPayload,
        },
{
    match decoded {
        Some(slots) => Ok(Store::from_hashmap(slots)),
        None => Err(LoadError::MalformedPayload),
    }
}

/// The store to start with: the loaded one, or an empty one where loading
/// failed for whatever reason.
pub fn store_or_empty(loaded: Result<Store, LoadError>) -> (s: Store)
    requires
        loaded matches Ok(l) ==> l.wf(),
    ensures
        s.wf(),
        match loaded {
            Ok(l) => s == l,
            Err(_) => s@ == Map::<Seq<char>, crate::entry::Entry>::empty(),
        },
{
    match loaded {
        Ok(l) => l,
        Err(_) => Store::new(),
    }
}

/// Opening a sealed container gives back the payload that was sealed.
pub proof fn law_seal_round_trip(payload: Seq<u8>)
    ensures
        unsealed(sealed(payload)) == Ok::<Seq<u8>, LoadError>(payload),
{
    let bytes = sealed(payload);
    assert(bytes.subrange(0, 4) =~= magic());
    assert(bytes.skip(4) =~= payload);
}

/// A container with a wrong tag fails as `WrongFormat`, whatever follows the
/// tag; one with the right tag never does, so a payload that fails to decode
/// is told apart from it.
pub proof fn law_wrong_tag_is_distinct(bytes: Seq<u8>)
    requires
        bytes.len() >= 4,
    ensures
        bytes.subrange(0, 4) != magic() <==> unsealed(bytes) == Err::<Seq<u8>, LoadError>(
            LoadError::WrongFormat,
        ),
        bytes.subrange(0, 4) == magic() <==> unsealed(bytes) is Ok,
        LoadError::WrongFormat != LoadError::MalformedPayload,
{
}

} // verus!
