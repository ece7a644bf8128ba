//! A conversation and the way it is brought up to date from what its
//! participants have published.

use crate::active_time::{later_of, ActiveTimes};
use crate::ids::ConversationId;
use crate::key::Identity;
use crate::log::{insert_with_collisions, inserted, slot, MessageLog};
use crate::message::{bmail_mark, BmailMessageRecord, MessageKey, MessageView, Timestamp};
use crate::text::{contains_text, text_same, texts};
use vstd::prelude::*;

verus! {

/// A conversation as this client sees it.
pub struct Conversation {
    /// The identifier that the participants agree on.
    pub conversation_id: ConversationId,
    /// The messages seen so far, in key order.
    pub messages: MessageLog,
    /// For each participant, the latest timestamp seen from them.
    pub recipient_active_time: ActiveTimes,
    /// The accounts that take part, in canonical form.
    pub participants: Vec<String>,
}

/// The messages seen on this client alone.
pub struct MyConversationPortion {
    pub conversation_id: ConversationId,
    pub messages: MessageLog,
}

/// What one participant has published.
pub struct ParticipantRecords {
    pub did: String,
    pub records: Vec<BmailMessageRecord>,
}

/// The part of a conversation that a backfill changes.
pub struct BackfillState {
    pub messages: Map<MessageKey, MessageView>,
    pub times: Map<Seq<char>, Timestamp>,
}

/// The mark of `did` in `times`.
pub open spec fn mark_in(times: Map<Seq<char>, Timestamp>, did: Seq<char>) -> Option<Timestamp> {
    if times.contains_key(did) {
        Some(times[did])
    } else {
        None
    }
}

/// A record belongs into the conversation `id` and is news: it is a
/// message, it names that conversation, the account `local` is among its
/// recipients, and it is later than the mark.
pub open spec fn accepts(
    id: ConversationId,
    local: Seq<char>,
    mark: Option<Timestamp>,
    record: BmailMessageRecord,
) -> bool {
    &&& record.bmail_type@ == bmail_mark()
    &&& record.bmail_conversation_id == id
    &&& texts(record.bmail_recipients@).contains(local)
    &&& match mark {
        Some(m) => m.earlier_than(record.bmail_created_at),
        None => true,
    }
}

/// The log after a record was taken in: with its message inserted where the
/// record opens, unchanged where it does not.
pub open spec fn absorb(
    m: Map<MessageKey, MessageView>,
    secret: Seq<char>,
    record: BmailMessageRecord,
) -> Map<
    MessageKey,
    MessageView,
> {
    match record.decrypted(secret) {
        Ok(message) => inserted(m, message),
        Err(_) => m,
    }
}

/// The log after the accepted ones among `records` were taken in, in order.
pub open spec fn after_records(
    m: Map<MessageKey, MessageView>,
    secret: Seq<char>,
    id: ConversationId,
    local: Seq<char>,
    mark: Option<Timestamp>,
    records: Seq<BmailMessageRecord>,
) -> Map<MessageKey, MessageView>
    decreases records.len(),
{
    if records.len() == 0 {
        m
    } else {
        let before = after_records(m, secret, id, local, mark, records.drop_last());
        if accepts(id, local, mark, records.last()) {
            absorb(before, secret, records.last())
        } else {
            before
        }
    }
}

/// The latest timestamp among the mark and the accepted ones of `records`.
pub open spec fn latest_seen(
    id: ConversationId,
    local: Seq<char>,
    mark: Option<Timestamp>,
    records: Seq<BmailMessageRecord>,
) -> Option<
    Timestamp,
>
    decreases records.len(),
{
    if records.len() == 0 {
        mark
    } else {
        let before = latest_seen(id, local, mark, records.drop_last());
        if accepts(id, local, mark, records.last()) {
            Some(later_of(before, records.last().bmail_created_at))
        } else {
            before
        }
    }
}

/// How many accepted records among `records` are passed over: those that
/// do not open, and those for whose message every counter at its timestamp
/// is taken.
pub open spec fn passed_over(
    m: Map<MessageKey, MessageView>,
    secret: Seq<char>,
    id: ConversationId,
    local: Seq<char>,
    mark: Option<Timestamp>,
    records: Seq<BmailMessageRecord>,
) -> nat
    decreases records.len(),
{
    if records.len() == 0 {
        0
    } else {
        let log = after_records(m, secret, id, local, mark, records.drop_last());
        let before = passed_over(m, secret, id, local, mark, records.drop_last());
        if accepts(id, local, mark, records.last()) && match records.last().decrypted(secret) {
            Ok(message) => slot(log, message) > u32::MAX,
            Err(_) => true,
        } {
            before + 1
        } else {
            before
        }
    }
}

/// The state after one participant's records were taken in.
pub open spec fn after_listing(
    s: BackfillState,
    secret: Seq<char>,
    id: ConversationId,
    local: Seq<char>,
    listing: ParticipantRecords,
) -> BackfillState {
    let mark = mark_in(s.times, listing.did@);
    BackfillState {
        messages: after_records(s.messages, secret, id, local, mark, listing.records@),
        times: match latest_seen(id, local, mark, listing.records@) {
            Some(t) => s.times.insert(listing.did@, t),
            None => s.times,
        },
    }
}

/// The state after the records of all participants were taken in, in order.
pub open spec fn after_listings(
    s: BackfillState,
    secret: Seq<char>,
    id: ConversationId,
    local: Seq<char>,
    listings: Seq<ParticipantRecords>,
) -> BackfillState
    decreases listings.len(),
{
    if listings.len() == 0 {
        s
    } else {
        after_listing(
            after_listings(s, secret, id, local, listings.drop_last()),
            secret,
            id,
            local,
            listings.last(),
        )
    }
}

/// How many accepted records in all of `listings` are passed over.
pub open spec fn passed_over_in(
    s: BackfillState,
    secret: Seq<char>,
    id: ConversationId,
    local: Seq<char>,
    listings: Seq<ParticipantRecords>,
) -> nat
    decreases listings.len(),
{
    if listings.len() == 0 {
        0
    } else {
        let before = after_listings(s, secret, id, local, listings.drop_last());
        passed_over_in(s, secret, id, local, listings.drop_last()) + passed_over(
            before.messages,
            secret,
            id,
            local,
            mark_in(before.times, listings.last().did@),
            listings.last().records@,
        )
    }
}

/// A count as it is returned: the count itself, or the largest number the
/// machine holds where the count is greater.
pub open spec fn counted(n: nat) -> usize {
    if n <= usize::MAX {
        n as usize
    } else {
        usize::MAX
    }
}

impl Conversation {
    /// A conversation without messages.
    pub fn new(conversation_id: ConversationId, participants: Vec<String>) -> (c: Conversation)
        ensures
            c.conversation_id == conversation_id,
            c.participants == participants,
            c.messages@ == Map::<MessageKey, MessageView>::empty(),
            c.messages.keys().len() == 0,
            c.recipient_active_time@ == Map::<Seq<char>, Timestamp>::empty(),
    {
        Conversation {
            conversation_id,
            messages: MessageLog::new(),
            recipient_active_time: ActiveTimes::new(),
            participants,
        }
    }

    /// What a backfill changes.
    pub open spec fn backfill_state(&self) -> BackfillState {
        BackfillState { messages: self.messages@, times: self.recipient_active_time@ }
    }

    /// Takes in the records of one participant.
    fn update_from_participant(
        &mut self,
        user_did: &str,
        identity: &Identity,
        listing: &ParticipantRecords,
    ) -> (skipped: usize)
        ensures
            final(self).backfill_state() == after_listing(
                old(self).backfill_state(),
                identity.secret(),
                old(self).conversation_id,
                user_did@,
                *listing,
            ),
            final(self).conversation_id == old(self).conversation_id,
            final(self).participants == old(self).participants,
            skipped == passed_over(
                old(self).messages@,
                identity.secret(),
                old(self).conversation_id,
                user_did@,
                mark_in(old(self).recipient_active_time@, listing.did@),
                listing.records@,
            ),
            skipped <= listing.records@.len(),
    {
        let mark = self.recipient_active_time.get(listing.did.as_str());
        let ghost start = self.backfill_state();
        let ghost secret = identity.secret();
        let ghost id = self.conversation_id;
        let ghost local = user_did@;
        let mut skipped: usize = 0;
        let mut i: usize = 0;
        assert(listing.records@.subrange(0, 0) =~= Seq::<BmailMessageRecord>::empty());
        while i < listing.records.len()
            invariant
                i <= listing.records@.len(),
                self.conversation_id == id,
                self.participants == old(self).participants,
                start == old(self).backfill_state(),
                secret == identity.secret(),
                local == user_did@,
                mark == mark_in(start.times, listing.did@),
                self.messages@ == after_records(
                    start.messages,
                    secret,
                    id, local,
                    mark,
                    listing.records@.subrange(0, i as int),
                ),
                mark_in(self.recipient_active_time@, listing.did@) == latest_seen(
                    id, local,
                    mark,
                    listing.records@.subrange(0, i as int),
                ),
                self.recipient_active_time@ == (match latest_seen(
                    id, local,
                    mark,
                    listing.records@.subrange(0, i as int),
                ) {
                    Some(t) => start.times.insert(listing.did@, t),
                    None => start.times,
                }),
                skipped == passed_over(
                    start.messages,
                    secret,
                    id,
                    local,
                    mark,
                    listing.records@.subrange(0, i as int),
                ),
                skipped <= i,
            decreases listing.records@.len() - i,
        {
            let record = &listing.records[i];
            proof {
                let next = listing.records@.subrange(0, i + 1);
                assert(next.drop_last() =~= listing.records@.subrange(0, i as int));
                assert(next.last() == *record);
            }
            let wanted = text_same(record.bmail_type.as_str(), "bmail")
                && record.bmail_conversation_id == self.conversation_id && contains_text(
                &record.bmail_recipients,
                user_did,
            ) && match mark {
                Some(m) => m.before(&record.bmail_created_at),
                None => true,
            };
            if wanted {
                match record.into_decrypted_message(identity) {
                    Ok(message) => {
                        if self.messages.has_counter_for(&message) {
                            insert_with_collisions(&mut self.messages, &message);
                        } else {
                            skipped = skipped + 1;
                        }
                    },
                    Err(_) => {
                        skipped = skipped + 1;
                    },
                }
                let ghost times = self.recipient_active_time@;
                self.recipient_active_time.advance(listing.did.as_str(), record.bmail_created_at);
                proof {
                    let t = later_of(mark_in(times, listing.did@), record.bmail_created_at);
                    assert(self.recipient_active_time@ =~= start.times.insert(listing.did@, t));
                }
            }
            i += 1;
        }
        assert(listing.records@.subrange(0, i as int) =~= listing.records@);
        skipped
    }

    /// Brings the conversation up to date from what its participants have
    /// published. Of each participant's records, those that are messages of
    /// this conversation, name the local account `user_did` among their
    /// recipients and are later than the participant's mark are opened with
    /// the local identity and inserted, and the mark moves to the latest of
    /// them. A record that does not open is passed over, and so is one for
    /// whose message every counter at its timestamp is taken; their number
    /// is returned.
    pub fn update_with_messages_from_participants(
        &mut self,
        user_did: &str,
        identity: &Identity,
        listings: &Vec<ParticipantRecords>,
    ) -> (skipped: usize)
        ensures
            final(self).backfill_state() == after_listings(
                old(self).backfill_state(),
                identity.secret(),
                old(self).conversation_id,
                user_did@,
                listings@,
            ),
            final(self).conversation_id == old(self).conversation_id,
            final(self).participants == old(self).participants,
            skipped == counted(
                passed_over_in(
                    old(self).backfill_state(),
                    identity.secret(),
                    old(self).conversation_id,
                    user_did@,
                    listings@,
                ),
            ),
    {
        let ghost start = self.backfill_state();
        let ghost secret = identity.secret();
        let ghost id = self.conversation_id;
        let ghost local = user_did@;
        let mut skipped: usize = 0;
        let mut i: usize = 0;
        assert(listings@.subrange(0, 0) =~= Seq::<ParticipantRecords>::empty());
        while i < listings.len()
            invariant
                i <= listings@.len(),
                self.conversation_id == id,
                self.participants == old(self).participants,
                start == old(self).backfill_state(),
                secret == identity.secret(),
                local == user_did@,
                self.backfill_state() == after_listings(
                    start,
                    secret,
                    id, local,
                    listings@.subrange(0, i as int),
                ),
                skipped == counted(
                    passed_over_in(start, secret, id, local, listings@.subrange(0, i as int)),
                ),
            decreases listings@.len() - i,
        {
            proof {
                let next = listings@.subrange(0, i + 1);
                assert(next.drop_last() =~= listings@.subrange(0, i as int));
                assert(next.last() == listings@[i as int]);
            }
            let n = self.update_from_participant(user_did, identity, &listings[i]);
            skipped = if n <= usize::MAX - skipped {
                skipped + n
            } else {
                usize::MAX
            };
            i += 1;
        }
        assert(listings@.subrange(0, i as int) =~= listings@);
        skipped
    }
}

} // verus!
