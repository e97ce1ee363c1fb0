//! The dispatcher: reads commands and button tokens, runs the creation
//! dialogue, and applies answers and deletions to the store. It decides what
//! happens; sending and receiving messages is left to its caller.
use crate::datetime::{parsed_datetime, stored_form};
use crate::decimal::{decimal_text, int_text, lemma_int_text_parses, parse_i64, parsed_i64};
use crate::drafts::{answered, next_state, DraftStep, Drafts};
use crate::event::{token, AttendanceStatus, EventContext, EventCreationState, EventRecord};
use crate::store::{AttendanceWrite, EventStore};
use crate::text::{contains_text, occurs_in, starts_with, text_after, text_equals};
use vstd::prelude::*;
use vstd::string::StringExecFns;

verus! {

/// The reply to `/create` sent in a private conversation.
pub const CREATE_IN_GROUP_TEXT: &'static str =
    "Please initiate event creation in a group chat. Ask the group admin to invite me to the group chat.";

/// The first question of the dialogue, sent privately.
pub const TITLE_PROMPT: &'static str = "Please enter the Title of the event. To exit, type /cancel.";

pub const DESCRIPTION_PROMPT: &'static str = "Please enter an Event description.";

pub const LOCATION_PROMPT: &'static str = "Please enter the Location of the event.";

pub const TIME_PROMPT: &'static str =
    "Please enter the Date and Time of the event in the following format YYYY-MM-DD HH:MM (e.g., 2025-08-15 19:00)";

pub const TIME_RETRY_TEXT: &'static str =
    "Sorry, that doesn't look like a valid date/time. Please use the format YYYY-MM-DD HH:MM (e.g., 2025-08-15 19:00).";

pub const CREATED_TEXT: &'static str = "The Event has been created and posted to the group!";

pub const CANCELLED_TEXT: &'static str = "Event creation cancelled.";

pub const NO_EVENTS_TEXT: &'static str = "No events scheduled.";

pub const NO_OWN_EVENTS_TEXT: &'static str = "You have not created any events.";

pub const DELETED_TEXT: &'static str = "Event has been deleted.";

/// Sent to the group when the bot may not write to the user privately.
pub const START_PRIVATE_CHAT_TEXT: &'static str =
    "To create an event, you need to start a private chat with me first.\n\n1. Click here: @Mississauga_Maybes_Bot\n2. Click 'Start' or send any message\n3. Come back to this group and try /create again";

pub const HELP_TEXT: &'static str = "
Available commands:
    /create - Start creating a new event
    /cancel - Cancel event creation in progress
    /list - Show all events in this chat
    /myevents - Show me all the events I've created
    /help - Show this help message

To create an event:
    1. Use /create in a group chat
    2. Bot will message you privately
    3. Follow the prompts to create the event
    4. Event will be posted in the group chat where you started
            ";

/// The platform's error code for a user the bot may not write to.
pub const FORBIDDEN: u64 = 403;

/// The platform's error code for a request it did not carry out.
pub const BAD_REQUEST: u64 = 400;

/// Where an incoming text message goes.
#[derive(Debug, Clone, Copy, PartialEq, Eq, Structural)]
pub enum Route {
    /// `/create` in a group.
    Create,
    /// `/create` in a private conversation, which is refused.
    CreateInPrivate,
    List,
    Cancel,
    MyEvents,
    Help,
    /// An answer to the creation dialogue.
    DraftAnswer,
    Ignore,
}

/// Commands take no argument and are matched exactly; other text in a
/// private conversation answers the sender's dialogue, if there is one.
pub open spec fn spec_route(text: Seq<char>, is_private: bool, has_draft: bool) -> Route {
    if text == "/create"@ {
        if is_private {
            Route::CreateInPrivate
        } else {
            Route::Create
        }
    } else if text == "/list"@ {
        Route::List
    } else if text == "/cancel"@ {
        Route::Cancel
    } else if text == "/myevents"@ {
        Route::MyEvents
    } else if text == "/help"@ {
        Route::Help
    } else if is_private && has_draft {
        Route::DraftAnswer
    } else {
        Route::Ignore
    }
}

/// Decides where an incoming text message goes.
pub fn route_message(text: &str, is_private: bool, has_draft: bool) -> (r: Route)
    ensures
        r == spec_route(text@, is_private, has_draft),
{
    if text_equals(text, "/create") {
        if is_private {
            Route::CreateInPrivate
        } else {
            Route::Create
        }
    } else if text_equals(text, "/list") {
        Route::List
    } else if text_equals(text, "/cancel") {
        Route::Cancel
    } else if text_equals(text, "/myevents") {
        Route::MyEvents
    } else if text_equals(text, "/help") {
        Route::Help
    } else if is_private && has_draft {
        Route::DraftAnswer
    } else {
        Route::Ignore
    }
}

/// The answer a token stands for, where it is an answer token.
pub open spec fn rsvp_status(data: Seq<char>) -> Option<AttendanceStatus> {
    if "accepted_"@.is_prefix_of(data) {
        Some(AttendanceStatus::Accepted)
    } else if "declined_"@.is_prefix_of(data) {
        Some(AttendanceStatus::Declined)
    } else {
        None
    }
}

pub open spec fn is_delete_token(data: Seq<char>) -> bool {
    rsvp_status(data) is None && "deleted_"@.is_prefix_of(data)
}

/// The event id of a token: the decimal text after its action's prefix.
pub open spec fn token_id(data: Seq<char>) -> Option<i64> {
    if "accepted_"@.is_prefix_of(data) {
        parsed_i64(data.skip("accepted_"@.len() as int))
    } else if "declined_"@.is_prefix_of(data) {
        parsed_i64(data.skip("declined_"@.len() as int))
    } else {
        parsed_i64(data.skip("deleted_"@.len() as int))
    }
}

/// The token of each of an event's buttons reads back as the button's
/// action and the event's id.
pub proof fn lemma_button_tokens_read_back(event_id: i64)
    ensures
        rsvp_status(token("accepted"@, event_id)) == Some(AttendanceStatus::Accepted),
        token_id(token("accepted"@, event_id)) == Some(event_id),
        rsvp_status(token("declined"@, event_id)) == Some(AttendanceStatus::Declined),
        token_id(token("declined"@, event_id)) == Some(event_id),
        is_delete_token(token("deleted"@, event_id)),
        token_id(token("deleted"@, event_id)) == Some(event_id),
{
    reveal_strlit("accepted");
    reveal_strlit("accepted_");
    reveal_strlit("declined");
    reveal_strlit("declined_");
    reveal_strlit("deleted");
    reveal_strlit("deleted_");
    reveal_strlit("_");
    lemma_int_text_parses(event_id);
    let n = int_text(event_id as int);
    let a = token("accepted"@, event_id);
    let d = token("declined"@, event_id);
    let x = token("deleted"@, event_id);
    assert(a.subrange(0, 9) =~= "accepted_"@);
    assert(a.skip(9) =~= n);
    assert(d.subrange(0, 9) =~= "declined_"@);
    assert(d.skip(9) =~= n);
    assert(d[0] != "accepted_"@[0]);
    assert(x.subrange(0, 8) =~= "deleted_"@);
    assert(x.skip(8) =~= n);
    assert(x[0] != "accepted_"@[0]);
    assert(x[2] != "declined_"@[2]);
}

/// A button token, read.
#[derive(Debug)]
pub enum CallbackToken {
    Rsvp(AttendanceStatus, i64),
    Delete(i64),
    /// A known action with an event id that is not a 64-bit decimal number.
    Malformed(std::num::ParseIntError),
    Unknown,
}

fn id_after(data: &str, prefix: &str) -> (r: Result<i64, std::num::ParseIntError>)
    requires
        prefix@.is_prefix_of(data@),
    ensures
        match r {
            Ok(v) => parsed_i64(data@.skip(prefix@.len() as int)) == Some(v),
            Err(_) => parsed_i64(data@.skip(prefix@.len() as int)) is None,
        },
{
    parse_i64(text_after(data, prefix.unicode_len()))
}

/// Reads a button token of the form `<action>_<event id>`.
pub fn parse_callback_data(data: &str) -> (r: CallbackToken)
    ensures
        (rsvp_status(data@) is Some || is_delete_token(data@)) && token_id(data@) is None ==> r is Malformed,
        rsvp_status(data@) matches Some(s) ==> (token_id(data@) matches Some(id) ==> r
            == CallbackToken::Rsvp(s, id)),
        is_delete_token(data@) ==> (token_id(data@) matches Some(id) ==> r == CallbackToken::Delete(
            id,
        )),
        rsvp_status(data@) is None && !is_delete_token(data@) ==> r is Unknown,
{
    let (prefix, status) = if starts_with(data, "accepted_") {
        ("accepted_", Some(AttendanceStatus::Accepted))
    } else if starts_with(data, "declined_") {
        ("declined_", Some(AttendanceStatus::Declined))
    } else if starts_with(data, "deleted_") {
        ("deleted_", None)
    } else {
        return CallbackToken::Unknown;
    };
    match id_after(data, prefix) {
        Err(e) => CallbackToken::Malformed(e),
        Ok(id) => match status {
            Some(s) => CallbackToken::Rsvp(s, id),
            None => CallbackToken::Delete(id),
        },
    }
}

/// The question that asks for the field of `state`.
pub fn prompt_for(state: EventCreationState) -> (r: &'static str)
    ensures
        state == EventCreationState::AwaitingTitle ==> r == TITLE_PROMPT,
        state == EventCreationState::AwaitingDescription ==> r == DESCRIPTION_PROMPT,
        state == EventCreationState::AwaitingLocation ==> r == LOCATION_PROMPT,
        state == EventCreationState::AwaitingTime ==> r == TIME_PROMPT,
{
    match state {
        EventCreationState::AwaitingTitle => TITLE_PROMPT,
        EventCreationState::AwaitingDescription => DESCRIPTION_PROMPT,
        EventCreationState::AwaitingLocation => LOCATION_PROMPT,
        EventCreationState::AwaitingTime => TIME_PROMPT,
    }
}

/// How the private question that starts a dialogue fared.
#[derive(Debug, Clone, Copy, PartialEq, Eq, Structural)]
pub enum PromptDelivery {
    Delivered,
    /// The platform refused: the user has not opened a conversation with
    /// the bot.
    Forbidden,
    Failed,
}

/// The reply to an answer in the creation dialogue.
#[derive(Debug, Clone, Copy, PartialEq, Eq, Structural)]
pub enum AnswerReply {
    NoDraft,
    /// Ask for this field next.
    Ask(EventCreationState),
    RetryTime,
    /// The event was stored under `event_id`, to be posted to the group the
    /// dialogue started in.
    Created { event_id: i64, origin_chat_id: i64 },
    /// The dialogue ended but the store has no id left for the event.
    StoreFull,
}

/// What a button press did.
#[derive(Debug)]
pub enum PressReply {
    /// Nothing: an unknown token, a missing event, or a deletion that is not
    /// the creator's.
    Ignored,
    Malformed(std::num::ParseIntError),
    /// The answer `status` was applied to event `event_id`; its message is
    /// shown anew.
    Answered { event_id: i64, status: AttendanceStatus, write: AttendanceWrite },
    /// Event `event_id` was deleted.
    Deleted { event_id: i64 },
}

/// A stored event made from a dialogue's fields.
pub open spec fn made_from(rec: EventRecord, creator: i64, context: EventContext) -> bool {
    &&& rec.creator == creator
    &&& rec.chat_id == context.origin_chat_id
    &&& rec.title@ == context.draft.title@
    &&& rec.description@ == context.draft.description@
    &&& rec.location@ == context.draft.location@
}

/// The store and the dialogues in progress.
pub struct Dispatcher {
    pub store: EventStore,
    pub drafts: Drafts,
}

impl Dispatcher {
    pub open spec fn wf(&self) -> bool {
        self.store@.wf()
    }

    pub fn new() -> (r: Dispatcher)
        ensures
            r.wf(),
            r.store@.events.len() == 0,
            r.store@.attendance.len() == 0,
            r.drafts@ == Map::<i64, EventContext>::empty(),
    {
        Dispatcher { store: EventStore::new(), drafts: Drafts::new() }
    }

    /// After `/create` from `user_id` in group `chat_id` and the private
    /// question to the user: a dialogue starts only if the question was
    /// delivered, replacing any the user had.
    pub fn after_title_prompt(&mut self, user_id: i64, chat_id: i64, delivery: PromptDelivery)
        ensures
            final(self).store == old(self).store,
            delivery == PromptDelivery::Delivered ==> final(self).drafts@.contains_key(user_id)
                && final(self).drafts@[user_id].is_fresh_for(chat_id) && final(self).drafts@.remove(
                user_id,
            ) == old(self).drafts@.remove(user_id),
            delivery != PromptDelivery::Delivered ==> final(self).drafts@ == old(self).drafts@,
    {
        if delivery == PromptDelivery::Delivered {
            self.drafts.start(user_id, chat_id);
        }
    }

    /// Ends the dialogue of `user_id`, and says whether there was one.
    pub fn cancel(&mut self, user_id: i64) -> (r: bool)
        ensures
            final(self).store == old(self).store,
            r == old(self).drafts@.contains_key(user_id),
            final(self).drafts@ == old(self).drafts@.remove(user_id),
    {
        self.drafts.cancel(user_id)
    }

    /// Takes `text` as the answer of `user_id` to its dialogue; the last
    /// answer, once understood, ends the dialogue and stores the event.
    pub fn answer(&mut self, user_id: i64, text: &str) -> (r: AnswerReply)
        requires
            old(self).wf(),
        ensures
            final(self).wf(),
            !old(self).drafts@.contains_key(user_id) ==> r is NoDraft && final(self).drafts@ == old(
                self,
            ).drafts@ && final(self).store@ == old(self).store@,
            old(self).drafts@.contains_key(user_id) && old(self).drafts@[user_id].state
                != EventCreationState::AwaitingTime ==> {
                &&& r == AnswerReply::Ask(next_state(old(self).drafts@[user_id].state))
                &&& final(self).drafts@.contains_key(user_id)
                &&& final(self).drafts@[user_id].state == next_state(old(self).drafts@[user_id].state)
                &&& answered(old(self).drafts@[user_id], final(self).drafts@[user_id], text@)
                &&& final(self).drafts@.remove(user_id) == old(self).drafts@.remove(user_id)
                &&& final(self).store@ == old(self).store@
            },
            old(self).drafts@.contains_key(user_id) && old(self).drafts@[user_id].state
                == EventCreationState::AwaitingTime && parsed_datetime(text@) is None ==> r is RetryTime
                && final(self).drafts@ == old(self).drafts@ && final(self).store@ == old(self).store@,
            old(self).drafts@.contains_key(user_id) && old(self).drafts@[user_id].state
                == EventCreationState::AwaitingTime && parsed_datetime(text@) is Some ==> {
                &&& final(self).drafts@ == old(self).drafts@.remove(user_id)
                &&& old(self).store@.next_id == i64::MAX ==> r is StoreFull && final(self).store@
                    == old(self).store@
                &&& old(self).store@.next_id < i64::MAX ==> {
                    &&& r == AnswerReply::Created {
                        event_id: old(self).store@.next_id,
                        origin_chat_id: old(self).drafts@[user_id].origin_chat_id,
                    }
                    &&& final(self).store@.events.len() == old(self).store@.events.len() + 1
                    &&& final(self).store@.events.drop_last() == old(self).store@.events
                    &&& final(self).store@.events.last().id == old(self).store@.next_id
                    &&& made_from(final(self).store@.events.last(), user_id, old(self).drafts@[user_id])
                    &&& final(self).store@.events.last().event_date@ == stored_form(
                        parsed_datetime(text@)->0,
                    )
                    &&& final(self).store@.attendance == old(self).store@.attendance
                }
            },
    {
        let ghost before = self.drafts@;
        match self.drafts.answer(user_id, text) {
            DraftStep::NoDraft => AnswerReply::NoDraft,
            DraftStep::Asked(state) => AnswerReply::Ask(state),
            DraftStep::RetryTime => AnswerReply::RetryTime,
            DraftStep::Completed(context, datetime) => {
                let date = datetime.stored_text();
                let origin_chat_id = context.origin_chat_id;
                let ghost stored = self.store@;
                match self.store.create_event(user_id, origin_chat_id, context.draft, date) {
                    Some(event_id) => {
                        assert(self.store@.events.drop_last() =~= stored.events);
                        AnswerReply::Created { event_id, origin_chat_id }
                    },
                    None => AnswerReply::StoreFull,
                }
            },
        }
    }

    /// Applies a press of a button whose token is `data`, by `user_id`. An
    /// answer is applied whenever its event exists; a deletion only when the
    /// event's creator asks for it, and is otherwise ignored.
    pub fn press(&mut self, user_id: i64, data: &str) -> (r: PressReply)
        requires
            old(self).wf(),
        ensures
            final(self).wf(),
            final(self).drafts == old(self).drafts,
            rsvp_status(data@) is None && !is_delete_token(data@) ==> r is Ignored && final(self).store@
                == old(self).store@,
            (rsvp_status(data@) is Some || is_delete_token(data@)) && token_id(data@) is None ==> r is Malformed
                && final(self).store@ == old(self).store@,
            rsvp_status(data@) matches Some(s) ==> (token_id(data@) matches Some(id) ==> if old(
                self,
            ).store@.has_event(id) {
                &&& r == PressReply::Answered {
                    event_id: id,
                    status: s,
                    write: old(self).store@.write_for(id, user_id, s),
                }
                &&& final(self).store@ == old(self).store@.toggled(id, user_id, s)
            } else {
                r is Ignored && final(self).store@ == old(self).store@
            }),
            is_delete_token(data@) ==> (token_id(data@) matches Some(id) ==> if old(self).store@.has_event(id)
                && old(self).store@.event(id).creator == user_id {
                r == PressReply::Deleted { event_id: id } && final(self).store@ == old(
                    self,
                ).store@.without_event(id)
            } else {
                r is Ignored && final(self).store@ == old(self).store@
            }),
    {
        match parse_callback_data(data) {
            CallbackToken::Unknown => PressReply::Ignored,
            CallbackToken::Malformed(e) => PressReply::Malformed(e),
            CallbackToken::Rsvp(status, event_id) => {
                match self.store.toggle_attendance(event_id, user_id, status) {
                    Some(write) => PressReply::Answered { event_id, status, write },
                    None => PressReply::Ignored,
                }
            },
            CallbackToken::Delete(event_id) => {
                let creator = match self.store.fetch_event(event_id) {
                    Some(event) => event.creator,
                    None => {
                        return PressReply::Ignored;
                    },
                };
                if creator != user_id {
                    return PressReply::Ignored;
                }
                self.store.delete_event(event_id);
                PressReply::Deleted { event_id }
            },
        }
    }
}

/// The name shown for a user whose name could not be looked up.
pub fn fallback_name(user_id: i64) -> (r: String)
    ensures
        r@ == "User "@ + int_text(user_id as int),
{
    let mut name = String::from_str("User ");
    name.append(decimal_text(user_id).as_str());
    name
}

/// A user's display name: the first name, and the last name after a space
/// where there is one.
pub fn display_name(first_name: &str, last_name: Option<&str>) -> (r: String)
    ensures
        r@ == match last_name {
            Some(last) => first_name@ + " "@ + last@,
            None => first_name@,
        },
{
    let mut name = String::from_str(first_name);
    if let Some(last) = last_name {
        name.append(" ");
        name.append(last);
    }
    name
}

/// Whether a failure to write to a user means that the user has not opened
/// a conversation with the bot.
pub fn is_forbidden(error_code: u64) -> (r: bool)
    ensures
        r == (error_code == FORBIDDEN),
{
    error_code == FORBIDDEN
}

/// Whether a failed edit only found the message already as requested, which
/// is no failure.
pub fn is_not_modified(error_code: u64, description: &str) -> (r: bool)
    ensures
        r == (error_code == BAD_REQUEST && occurs_in("message is not modified"@, description@)),
{
    error_code == BAD_REQUEST && contains_text(description, "message is not modified")
}

/// Whether a failed deletion of a message is let pass: the platform refused
/// the request, most often because the message is gone already.
pub fn is_ignorable_delete_failure(error_code: u64) -> (r: bool)
    ensures
        r == (error_code == BAD_REQUEST),
{
    error_code == BAD_REQUEST
}

} // verus!
