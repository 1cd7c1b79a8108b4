//! Trusted declarations over the nostr crate: the types carried through the
//! library, the event signer, the event-id reader, and the direct-message
//! encryptor. Everything else about events is verified code.

use vstd::prelude::*;
use nostr::event::{EventBuilder, FinalizeUnsignedEvent, SignEvent};
use nostr::nips::nip04::Nip04;

verus! {

#[verifier::external_type_specification]
#[verifier::external_body]
pub struct ExKeys(nostr::key::Keys);

#[verifier::external_type_specification]
#[verifier::external_body]
pub struct ExEvent(nostr::event::Event);

#[verifier::external_type_specification]
#[verifier::external_body]
pub struct ExNostrError(nostr::error::Error);

/// Relies on nostr's `EventBuilder` and `Keys::sign_event`: builds an event
/// of the given custom kind whose content is the given bytes read as UTF-8
/// (bytes that are not valid UTF-8 are replaced), stamps it with the system
/// clock, and signs it with `keys`; fails only when signing does.
#[verifier::external_body]
pub(crate) fn sign_order_event(keys: &nostr::key::Keys, event_kind: u16, content: &Vec<u8>) -> (r:
    Result<nostr::event::Event, nostr::error::Error>)
{
    let text = String::from_utf8_lossy(content.as_slice()).into_owned();
    let builder = EventBuilder::new(nostr::event::Kind::Custom(event_kind), text);
    let unsigned = builder.finalize_unsigned(keys.public_key());
    keys.sign_event(unsigned)
}

/// Relies on nostr's `EventId::to_hex`: the hex form of the 32-byte
/// content-derived event identifier, always 64 digits.
#[verifier::external_body]
pub(crate) fn event_id_hex(event: &nostr::event::Event) -> (r: Vec<u8>)
    ensures
        r@.len() == 64,
{
    event.id.to_hex().into_bytes()
}

/// Relies on nostr's NIP-04 encryption and `Keys::sign_event`: encrypts the
/// plaintext to the receiver's public key, wraps it as an
/// encrypted-direct-message event tagged with the receiver, and signs it
/// with the sender's keys.
#[verifier::external_body]
pub(crate) fn encrypt_dm_event(
    sender: &nostr::key::Keys,
    receiver: &nostr::key::Keys,
    plaintext: &Vec<u8>,
) -> (r: Result<nostr::event::Event, nostr::error::Error>) {
    let text = String::from_utf8_lossy(plaintext.as_slice()).into_owned();
    let content = sender.nip04_encrypt(&receiver.public_key(), &text)?;
    let builder = EventBuilder::new(nostr::event::Kind::EncryptedDirectMessage, content).tag(
        nostr::event::Tag::public_key(receiver.public_key()),
    );
    let unsigned = builder.finalize_unsigned(sender.public_key());
    sender.sign_event(unsigned)
}

} // verus!
