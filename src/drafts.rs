//! The creation dialogues in progress: at most one per user, kept in memory
//! and keyed by user id.
use crate::datetime::{parse_datetime_string, parsed_datetime, DateTime};
use crate::event::{EventContext, EventCreationState};
use std::collections::HashMap;
use vstd::prelude::*;
use vstd::string::StringExecFns;

verus! {

broadcast use vstd::std_specs::hash::group_hash_axioms;

/// The field asked for after `state`; the last field has none after it.
pub open spec fn next_state(state: EventCreationState) -> EventCreationState {
    match state {
        EventCreationState::AwaitingTitle => EventCreationState::AwaitingDescription,
        EventCreationState::AwaitingDescription => EventCreationState::AwaitingLocation,
        EventCreationState::AwaitingLocation => EventCreationState::AwaitingTime,
        EventCreationState::AwaitingTime => EventCreationState::AwaitingTime,
    }
}

/// `after` is `before` with `text` stored, verbatim, in the field that
/// `before` was waiting for; every other field is kept.
pub open spec fn answered(before: EventContext, after: EventContext, text: Seq<char>) -> bool {
    let b = before.draft;
    let a = after.draft;
    &&& after.origin_chat_id == before.origin_chat_id
    &&& a.title@ == (if before.state == EventCreationState::AwaitingTitle {
        text
    } else {
        b.title@
    })
    &&& a.description@ == (if before.state == EventCreationState::AwaitingDescription {
        text
    } else {
        b.description@
    })
    &&& a.location@ == (if before.state == EventCreationState::AwaitingLocation {
        text
    } else {
        b.location@
    })
    &&& a.datetime@ == (if before.state == EventCreationState::AwaitingTime {
        text
    } else {
        b.datetime@
    })
}

/// What an answer did to its user's dialogue.
pub enum DraftStep {
    /// The user has no dialogue in progress.
    NoDraft,
    /// The answer was stored; the dialogue now asks for this field.
    Asked(EventCreationState),
    /// The date and time were not understood; the dialogue is unchanged.
    RetryTime,
    /// The last field was filled: the dialogue is over, and this is what it
    /// gathered, with the date and time read from the last answer.
    Completed(EventContext, DateTime),
}

/// The dialogues in progress, one per user at most.
pub struct Drafts {
    contexts: HashMap<i64, EventContext>,
}

impl View for Drafts {
    type V = Map<i64, EventContext>;

    closed spec fn view(&self) -> Map<i64, EventContext> {
        self.contexts@
    }
}

impl Drafts {
    pub fn new() -> (r: Drafts)
        ensures
            r@ == Map::<i64, EventContext>::empty(),
    {
        Drafts { contexts: HashMap::new() }
    }

    /// Whether `user_id` has a dialogue in progress.
    pub fn has_draft(&self, user_id: i64) -> (r: bool)
        ensures
            r == self@.contains_key(user_id),
    {
        self.contexts.contains_key(&user_id)
    }

    /// The dialogue of `user_id`, if any.
    pub fn get(&self, user_id: i64) -> (r: Option<&EventContext>)
        ensures
            r is Some <==> self@.contains_key(user_id),
            r matches Some(c) ==> *c == self@[user_id],
    {
        self.contexts.get(&user_id)
    }

    /// Starts a dialogue for `user_id` from group `origin_chat_id`, dropping
    /// any dialogue the user had: each user has one at most.
    pub fn start(&mut self, user_id: i64, origin_chat_id: i64)
        ensures
            final(self)@.contains_key(user_id),
            final(self)@[user_id].is_fresh_for(origin_chat_id),
            final(self)@.remove(user_id) == old(self)@.remove(user_id),
    {
        let ghost before = self@;
        let context = EventContext::new(origin_chat_id);
        self.contexts.insert(user_id, context);
        assert(self@.remove(user_id) =~= before.remove(user_id));
    }

    /// Ends the dialogue of `user_id`, and says whether there was one.
    pub fn cancel(&mut self, user_id: i64) -> (r: bool)
        ensures
            r == old(self)@.contains_key(user_id),
            final(self)@ == old(self)@.remove(user_id),
    {
        self.contexts.remove(&user_id).is_some()
    }

    /// Takes `text` as the answer of `user_id` to the field asked for: it is
    /// stored and the next field is asked for, until the date and time, which
    /// must be understood; then the dialogue ends with what it gathered.
    pub fn answer(&mut self, user_id: i64, text: &str) -> (r: DraftStep)
        ensures
            !old(self)@.contains_key(user_id) ==> r is NoDraft && final(self)@ == old(self)@,
            old(self)@.contains_key(user_id) && old(self)@[user_id].state
                != EventCreationState::AwaitingTime ==> {
                &&& r == DraftStep::Asked(next_state(old(self)@[user_id].state))
                &&& final(self)@.contains_key(user_id)
                &&& final(self)@[user_id].state == next_state(old(self)@[user_id].state)
                &&& answered(old(self)@[user_id], final(self)@[user_id], text@)
                &&& final(self)@.remove(user_id) == old(self)@.remove(user_id)
            },
            old(self)@.contains_key(user_id) && old(self)@[user_id].state
                == EventCreationState::AwaitingTime && parsed_datetime(text@) is None ==> r is RetryTime
                && final(self)@ == old(self)@,
            old(self)@.contains_key(user_id) && old(self)@[user_id].state
                == EventCreationState::AwaitingTime && parsed_datetime(text@) is Some ==> {
                &&& r matches DraftStep::Completed(c, dt) && parsed_datetime(text@) == Some(dt.fields()) && c.state
                    == EventCreationState::AwaitingTime && answered(old(self)@[user_id], c, text@)
                &&& final(self)@ == old(self)@.remove(user_id)
            },
    {
        let ghost before = self@;
        let mut context = match self.contexts.remove(&user_id) {
            Some(c) => c,
            None => {
                return DraftStep::NoDraft;
            },
        };
        let answer = String::from_str(text);
        match context.state {
            EventCreationState::AwaitingTitle => {
                context.draft.title = answer;
                context.state = EventCreationState::AwaitingDescription;
            },
            EventCreationState::AwaitingDescription => {
                context.draft.description = answer;
                context.state = EventCreationState::AwaitingLocation;
            },
            EventCreationState::AwaitingLocation => {
                context.draft.location = answer;
                context.state = EventCreationState::AwaitingTime;
            },
            EventCreationState::AwaitingTime => {
                match parse_datetime_string(text) {
                    Ok(datetime) => {
                        context.draft.datetime = answer;
                        return DraftStep::Completed(context, datetime);
                    },
                    Err(_) => {
                        self.contexts.insert(user_id, context);
                        assert(self@ =~= before);
                        return DraftStep::RetryTime;
                    },
                }
            },
        }
        let state = context.state;
        self.contexts.insert(user_id, context);
        assert(self@.remove(user_id) =~= before.remove(user_id));
        DraftStep::Asked(state)
    }
}

} // verus!
