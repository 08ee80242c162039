//! Sending one message to the members of a room.
//!
//! A broadcast is prepared from the room index in one step: the recipients
//! are copied out of the index as it is at that moment. What follows works on
//! that copy alone, so the index is free while the message is written to one
//! connection after the other, and a session that joins meanwhile is not a
//! recipient. The writes themselves are done by the caller: it asks for the
//! next recipient, writes, and records how the write ended. A failed write is
//! recorded like a successful one, and the next recipient is the next in
//! line either way.
use vstd::prelude::*;
use crate::error::{BrokerError, DeliveryError};
use crate::list_map::copy_strings;
use crate::lists::{lemma_texts_push, lemma_texts_remove, lemma_without_at, texts, without, Text};
use crate::room_index::RoomIndex;

verus! {

/// The recipients of a broadcast to a room with these members: every member
/// but the excluded one, in joining order.
pub open spec fn recipients_for(members: Seq<Text>, exclude: Option<Text>) -> Seq<Text> {
    match exclude {
        Some(session) => without(members, session),
        None => members,
    }
}

/// The recipients whose write ended as `wanted` says (`true`: delivered,
/// `false`: failed), in the order in which they were attempted. `outcomes`
/// holds one entry for each recipient attempted so far.
pub open spec fn attempted_with(recipients: Seq<Text>, outcomes: Seq<bool>, wanted: bool) -> Seq<
    Text,
>
    decreases outcomes.len(),
{
    if outcomes.len() == 0 || outcomes.len() > recipients.len() {
        Seq::empty()
    } else {
        let earlier = attempted_with(recipients, outcomes.drop_last(), wanted);
        if outcomes.last() == wanted {
            earlier.push(recipients[outcomes.len() - 1])
        } else {
            earlier
        }
    }
}

/// The text of an optional string.
pub open spec fn text_of(s: Option<&str>) -> Option<Text> {
    match s {
        Some(s) => Some(s@),
        None => None,
    }
}

/// What became of one broadcast.
#[derive(Clone, Debug, PartialEq, Eq)]
pub struct BroadcastReport {
    /// The recipients that the message reached, in the order of the attempts.
    pub delivered: Vec<String>,
    /// The recipients to which the write failed, in the order of the attempts.
    pub failed: Vec<String>,
}

impl BroadcastReport {
    /// The number of recipients that the message reached.
    pub fn delivered_count(&self) -> (n: usize)
        ensures
            n == self.delivered@.len(),
    {
        self.delivered.len()
    }
}

/// A broadcast under way as contracts see it.
pub struct DeliveryView {
    /// The message.
    pub text: Text,
    /// The recipients, in the order in which they are attempted.
    pub recipients: Seq<Text>,
    /// How the writes made so far have ended, in order: `true` for one that
    /// was delivered.
    pub outcomes: Seq<bool>,
}

/// A broadcast under way: the message, its recipients as they were when the
/// broadcast was prepared, and how the writes made so far have ended.
#[derive(Clone, Debug, PartialEq, Eq)]
pub struct Delivery {
    text: String,
    recipients: Vec<String>,
    outcomes: Vec<bool>,
}

impl View for Delivery {
    type V = DeliveryView;

    closed spec fn view(&self) -> DeliveryView {
        DeliveryView {
            text: self.text@,
            recipients: texts(self.recipients@),
            outcomes: self.outcomes@,
        }
    }
}

impl Delivery {
    /// There is at most one outcome for each recipient.
    pub open spec fn wf(&self) -> bool {
        self@.outcomes.len() <= self@.recipients.len()
    }

    /// The message.
    pub open spec fn text(&self) -> Text {
        self@.text
    }

    /// The recipients, in the order in which they are attempted.
    pub open spec fn recipients(&self) -> Seq<Text> {
        self@.recipients
    }

    /// How the writes made so far have ended, in order: `true` for one that
    /// was delivered.
    pub open spec fn outcomes(&self) -> Seq<bool> {
        self@.outcomes
    }

    /// Every recipient has been attempted.
    pub open spec fn complete(&self) -> bool {
        self.outcomes().len() == self.recipients().len()
    }

    /// The message to write.
    pub fn message(&self) -> (text: &String)
        ensures
            text@ == self.text(),
    {
        &self.text
    }

    /// A copy of the recipients, in the order in which they are attempted.
    pub fn recipient_ids(&self) -> (ids: Vec<String>)
        ensures
            texts(ids@) == self.recipients(),
    {
        copy_strings(&self.recipients)
    }

    /// Whether every recipient has been attempted.
    pub fn is_complete(&self) -> (done: bool)
        requires
            self.wf(),
        ensures
            done == self.complete(),
    {
        self.outcomes.len() == self.recipients.len()
    }

    /// The recipient to write to next: the first that has no outcome yet, or
    /// nothing when every recipient has been attempted.
    pub fn next_recipient(&self) -> (next: Option<&String>)
        requires
            self.wf(),
        ensures
            match next {
                Some(id) => !self.complete() && id@ == self.recipients()[
                    self.outcomes().len() as int
                ],
                None => self.complete(),
            },
    {
        if self.outcomes.len() < self.recipients.len() {
            Some(&self.recipients[self.outcomes.len()])
        } else {
            None
        }
    }

    /// Records how the write to the next recipient ended. The message and the
    /// recipients stay as they are, whatever the outcome. Once every
    /// recipient has been attempted, nothing more is recorded.
    pub fn record(&mut self, outcome: Result<(), DeliveryError>)
        requires
            old(self).wf(),
        ensures
            final(self).wf(),
            final(self).text() == old(self).text(),
            final(self).recipients() == old(self).recipients(),
            final(self).outcomes() == if old(self).complete() {
                old(self).outcomes()
            } else {
                old(self).outcomes().push(outcome is Ok)
            },
    {
        if self.outcomes.len() < self.recipients.len() {
            self.outcomes.push(outcome.is_ok());
        }
    }

    /// The report on the writes made so far: who was reached and who was not.
    pub fn report(&self) -> (report: BroadcastReport)
        requires
            self.wf(),
        ensures
            texts(report.delivered@) == attempted_with(self.recipients(), self.outcomes(), true),
            texts(report.failed@) == attempted_with(self.recipients(), self.outcomes(), false),
    {
        let mut delivered: Vec<String> = Vec::new();
        let mut failed: Vec<String> = Vec::new();
        let mut i: usize = 0;
        assert(texts(delivered@) =~= Seq::<Text>::empty());
        assert(texts(failed@) =~= Seq::<Text>::empty());
        while i < self.outcomes.len()
            invariant
                self.wf(),
                i <= self.outcomes.len(),
                texts(delivered@) == attempted_with(
                    self.recipients(),
                    self.outcomes().take(i as int),
                    true,
                ),
                texts(failed@) == attempted_with(
                    self.recipients(),
                    self.outcomes().take(i as int),
                    false,
                ),
            decreases self.outcomes.len() - i,
        {
            proof {
                let longer = self.outcomes().take(i + 1);
                assert(longer.drop_last() =~= self.outcomes().take(i as int));
                assert(longer.last() == self.outcomes[i as int]);
                lemma_texts_push(delivered@, self.recipients[i as int]);
                lemma_texts_push(failed@, self.recipients[i as int]);
            }
            if self.outcomes[i] {
                delivered.push(self.recipients[i].clone());
            } else {
                failed.push(self.recipients[i].clone());
            }
            i += 1;
        }
        assert(self.outcomes().take(self.outcomes.len() as int) =~= self.outcomes());
        BroadcastReport { delivered, failed }
    }
}

/// The members without the excluded session.
fn select_recipients(members: Vec<String>, exclude: Option<&str>) -> (recipients: Vec<String>)
    requires
        texts(members@).no_duplicates(),
    ensures
        texts(recipients@) == recipients_for(texts(members@), text_of(exclude)),
{
    let mut recipients = members;
    match exclude {
        Some(session) => {
            let session = session.to_owned();
            let mut i: usize = 0;
            while i < recipients.len()
                invariant
                    recipients == members,
                    text_of(exclude) == Some(session@),
                    texts(members@).no_duplicates(),
                    i <= recipients.len(),
                    forall|k: int| 0 <= k < i ==> recipients[k]@ != session@,
                decreases recipients.len() - i,
            {
                if recipients[i] == session {
                    proof {
                        let list = texts(members@);
                        assert(list[i as int] == session@);
                        lemma_without_at(list, i as int);
                        lemma_texts_remove(members@, i as int);
                    }
                    recipients.remove(i);
                    return recipients;
                }
                i += 1;
            }
            proof {
                let list = texts(members@);
                if list.contains(session@) {
                    let k = choose|k: int| 0 <= k < list.len() && list[k] == session@;
                    assert(recipients[k]@ == session@);
                }
            }
            recipients
        },
        None => recipients,
    }
}

/// Prepares a broadcast of `text` to the room. The recipients are the room's
/// members at this moment, but for the excluded session, if one is given. A
/// room without members, which is the same as one that does not exist, is
/// reported and nothing is prepared.
pub fn broadcast_to_room(
    index: &RoomIndex,
    room_name: &str,
    text: &str,
    exclude: Option<&str>,
) -> (result: Result<Delivery, BrokerError>)
    requires
        index.wf(),
    ensures
        match result {
            Ok(delivery) => {
                &&& index@.room_exists(room_name@)
                &&& delivery.wf()
                &&& delivery@ == (DeliveryView {
                    text: text@,
                    recipients: recipients_for(index@.members_of(room_name@), text_of(exclude)),
                    outcomes: Seq::empty(),
                })
            },
            Err(e) => e == BrokerError::RoomEmptyOrMissing && !index@.room_exists(room_name@),
        },
{
    let members = index.members_of(room_name);
    assert(texts(members@).len() == members.len());
    if members.len() == 0 {
        return Err(BrokerError::RoomEmptyOrMissing);
    }
    let recipients = select_recipients(members, exclude);
    Ok(Delivery { text: text.to_owned(), recipients, outcomes: Vec::new() })
}

} // verus!
