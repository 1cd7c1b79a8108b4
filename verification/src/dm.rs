//! The direct-message channel: building an encrypted, signed message to a
//! counterparty, and reading the referenced event id out of an inbound
//! message's tags.

use vstd::prelude::*;
use crate::order::copy_bytes;
use crate::events::encrypt_dm_event;

verus! {

/// Direct-message failure. An inbound event without an "e" tag is not a
/// reply at all; one whose first "e" tag carries no payload references
/// nothing; the two are distinct so callers can branch on them.
#[derive(Clone, Copy, PartialEq, Eq, Structural, Debug)]
pub enum DmError {
    NotAReply,
    ReferenceMissingContent,
    EncryptionFailed,
}

/// One tag of an inbound event: its label and the values that follow it.
pub struct EventTag {
    pub label: Vec<u8>,
    pub values: Vec<Vec<u8>>,
}

/// An inbound event as the reference extractor sees it: its tags.
pub struct InboundEvent {
    pub tags: Vec<EventTag>,
}

/// Whether a tag is an "e" tag, the reference to a prior event.
pub open spec fn is_e_tag(t: EventTag) -> bool {
    t.label@ == seq![101u8]
}

/// Whether no "e" tag stands before position `k`.
pub open spec fn no_e_tag_before(tags: Seq<EventTag>, k: int) -> bool {
    forall|j: int| 0 <= j < k ==> !is_e_tag(#[trigger] tags[j])
}

/// The referenced content a tag carries: its first value.
pub open spec fn tag_ref_content(t: EventTag) -> Seq<u8> {
    if t.values@.len() > 0 {
        t.values@[0]@
    } else {
        Seq::<u8>::empty()
    }
}

/// Whether the event references a prior event: some "e" tag exists and the
/// first one carries a nonempty payload.
pub open spec fn has_reference(tags: Seq<EventTag>) -> bool {
    exists|k: int|
        0 <= k < tags.len() && is_e_tag(#[trigger] tags[k]) && no_e_tag_before(tags, k)
            && tag_ref_content(tags[k]).len() > 0
}

/// Whether the first "e" tag exists but carries no payload.
pub open spec fn reference_missing(tags: Seq<EventTag>) -> bool {
    exists|k: int|
        0 <= k < tags.len() && is_e_tag(#[trigger] tags[k]) && no_e_tag_before(tags, k)
            && tag_ref_content(tags[k]).len() == 0
}

/// Returns the event id that an inbound direct message references:
/// succeeds with the first value of the first "e" tag exactly when that
/// value is nonempty. Fails with `NotAReply` exactly when the event has no
/// "e" tag, and with `ReferenceMissingContent` exactly when the first "e"
/// tag carries no or empty content.
pub fn get_event_id_from_dm(event: &InboundEvent) -> (r: Result<Vec<u8>, DmError>)
    ensures
        (r is Ok) <==> has_reference(event.tags@),
        r matches Ok(id) ==> exists|k: int|
            0 <= k < event.tags@.len() && is_e_tag(#[trigger] event.tags@[k]) && no_e_tag_before(
                event.tags@,
                k,
            ) && id@ == tag_ref_content(event.tags@[k]) && id@.len() > 0,
        (r == Err::<Vec<u8>, DmError>(DmError::NotAReply)) <==> no_e_tag_before(
            event.tags@,
            event.tags@.len() as int,
        ),
        (r == Err::<Vec<u8>, DmError>(DmError::ReferenceMissingContent)) <==> reference_missing(
            event.tags@,
        ),
{
    let tags_len = event.tags.len();
    let mut k: usize = 0;
    while k < tags_len
        invariant
            tags_len == event.tags@.len(),
            k <= tags_len,
            no_e_tag_before(event.tags@, k as int),
        decreases tags_len - k,
    {
        let t = &event.tags[k];
        if t.label.len() == 1 && t.label[0] == 101 {
            proof {
                assert(t.label@ =~= seq![101u8]);
                assert(is_e_tag(event.tags@[k as int]));
                assert forall|k2: int|
                    0 <= k2 < event.tags@.len() && is_e_tag(#[trigger] event.tags@[k2])
                        && no_e_tag_before(event.tags@, k2) implies k2 == k as int by {
                    if k2 < k as int {
                        assert(!is_e_tag(event.tags@[k2]));
                    }
                    if k2 > k as int {
                        assert(!is_e_tag(event.tags@[k as int]));
                    }
                };
            }
            if t.values.len() > 0 && t.values[0].len() > 0 {
                let id = copy_bytes(&t.values[0]);
                proof {
                    assert(id@ == tag_ref_content(event.tags@[k as int]));
                    assert(has_reference(event.tags@));
                    assert(!reference_missing(event.tags@));
                }
                return Ok(id);
            } else {
                proof {
                    assert(tag_ref_content(event.tags@[k as int]).len() == 0);
                    assert(reference_missing(event.tags@));
                    assert(!has_reference(event.tags@)) by {
                        if has_reference(event.tags@) {
                            let k2 = choose|k2: int|
                                0 <= k2 < event.tags@.len() && is_e_tag(#[trigger] event.tags@[k2])
                                    && no_e_tag_before(event.tags@, k2) && tag_ref_content(
                                    event.tags@[k2],
                                ).len() > 0;
                            assert(k2 == k as int);
                        }
                    };
                }
                return Err(DmError::ReferenceMissingContent);
            }
        }
        proof {
            if is_e_tag(event.tags@[k as int]) {
                assert(event.tags@[k as int].label@.len() == 1);
                assert(event.tags@[k as int].label@[0] == 101);
            }
        }
        k = k + 1;
    }
    proof {
        assert(!has_reference(event.tags@)) by {
            if has_reference(event.tags@) {
                let k2 = choose|k2: int|
                    0 <= k2 < event.tags@.len() && is_e_tag(#[trigger] event.tags@[k2])
                        && no_e_tag_before(event.tags@, k2) && tag_ref_content(
                        event.tags@[k2],
                    ).len() > 0;
                assert(!is_e_tag(event.tags@[k2]));
            }
        };
    }
    Err(DmError::NotAReply)
}

/// Builds the encrypted, signed direct-message event for a plaintext from
/// the sender to the receiver; sending it is the caller's step. Fails only
/// when encryption or signing rejects the identity material.
pub fn build_dm_event(
    sender: &nostr::key::Keys,
    receiver: &nostr::key::Keys,
    plaintext: &Vec<u8>,
) -> (r: Result<nostr::event::Event, DmError>)
    ensures
        r matches Err(e) ==> e == DmError::EncryptionFailed,
{
    match encrypt_dm_event(sender, receiver, plaintext) {
        Ok(event) => Ok(event),
        Err(_) => Err(DmError::EncryptionFailed),
    }
}

} // verus!
