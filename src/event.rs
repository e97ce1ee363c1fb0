//! Events, the drafts they are created from, and how an event is shown: its
//! message text and its response buttons.
use crate::decimal::{decimal_text, int_text};
use crate::markdown::{escape_text, escaped};
use crate::text::text_equals;
use vstd::prelude::*;
use vstd::string::StringExecFns;

verus! {

/// Which field of a draft the creation dialogue is waiting for.
#[derive(Debug, Clone, Copy, PartialEq, Eq, Structural)]
pub enum EventCreationState {
    AwaitingTitle,
    AwaitingDescription,
    AwaitingLocation,
    AwaitingTime,
}

/// The fields gathered so far for an event being created.
#[derive(Clone, Debug)]
pub struct EventDraft {
    pub title: String,
    pub description: String,
    pub location: String,
    pub datetime: String,
}

impl EventDraft {
    pub open spec fn is_blank(&self) -> bool {
        &&& self.title@.len() == 0
        &&& self.description@.len() == 0
        &&& self.location@.len() == 0
        &&& self.datetime@.len() == 0
    }

    /// A draft with every field empty.
    pub fn blank() -> (r: EventDraft)
        ensures
            r.is_blank(),
    {
        EventDraft {
            title: String::new(),
            description: String::new(),
            location: String::new(),
            datetime: String::new(),
        }
    }
}

impl Default for EventDraft {
    fn default() -> (r: EventDraft)
        ensures
            r.is_blank(),
    {
        EventDraft::blank()
    }
}

/// A user's creation dialogue in progress: the group it was started in, the
/// fields gathered, and the field asked for next.
#[derive(Clone, Debug)]
pub struct EventContext {
    pub origin_chat_id: i64,
    pub draft: EventDraft,
    pub state: EventCreationState,
}

impl EventContext {
    /// The context of a dialogue just started from `origin_chat_id`.
    pub open spec fn is_fresh_for(&self, origin_chat_id: i64) -> bool {
        &&& self.origin_chat_id == origin_chat_id
        &&& self.draft.is_blank()
        &&& self.state == EventCreationState::AwaitingTitle
    }

    pub fn new(origin_chat_id: i64) -> (r: EventContext)
        ensures
            r.is_fresh_for(origin_chat_id),
    {
        EventContext {
            origin_chat_id,
            draft: EventDraft::blank(),
            state: EventCreationState::AwaitingTitle,
        }
    }
}

/// An answer to an event: going, or not going.
#[derive(Debug, Clone, Copy, PartialEq, Eq, Structural)]
pub enum AttendanceStatus {
    Accepted,
    Declined,
}

impl AttendanceStatus {
    pub open spec fn spec_label(self) -> Seq<char> {
        match self {
            AttendanceStatus::Accepted => "accepted"@,
            AttendanceStatus::Declined => "declined"@,
        }
    }

    /// The status as stored and as written in button tokens.
    pub fn label(&self) -> (r: &'static str)
        ensures
            r@ == self.spec_label(),
    {
        match self {
            AttendanceStatus::Accepted => "accepted",
            AttendanceStatus::Declined => "declined",
        }
    }

    /// The status that `label` names, if any.
    pub fn from_label(label: &str) -> (r: Option<AttendanceStatus>)
        ensures
            r matches Some(s) ==> s.spec_label() == label@,
            r is None ==> label@ != AttendanceStatus::Accepted.spec_label() && label@
                != AttendanceStatus::Declined.spec_label(),
    {
        if text_equals(label, "accepted") {
            Some(AttendanceStatus::Accepted)
        } else if text_equals(label, "declined") {
            Some(AttendanceStatus::Declined)
        } else {
            None
        }
    }
}

/// An event as stored.
#[derive(Debug)]
pub struct EventRecord {
    pub id: i64,
    pub creator: i64,
    pub title: String,
    pub description: String,
    pub location: String,
    pub event_date: String,
    pub chat_id: i64,
}

/// An event with the display names of those who answered, in the order in
/// which they answered.
#[derive(Debug)]
pub struct Event {
    pub id: i64,
    pub title: String,
    pub description: String,
    pub location: String,
    pub event_date: String,
    pub creator: i64,
    pub accepted: Vec<(i64, String)>,
    pub declined: Vec<(i64, String)>,
}

/// A response button: its label and the token it sends back when pressed.
#[derive(Debug)]
pub struct Button {
    pub text: String,
    pub callback_data: String,
}

/// Rows of response buttons shown under an event's message.
#[derive(Debug)]
pub struct Keyboard {
    pub rows: Vec<Vec<Button>>,
}

/// One line of an attendee list per name, each escaped.
pub open spec fn name_lines(names: Seq<(i64, String)>) -> Seq<char>
    decreases names.len(),
{
    if names.len() == 0 {
        Seq::empty()
    } else {
        name_lines(names.drop_last()) + "• "@ + escaped(names.last().1@) + "\n"@
    }
}

/// A headed attendee list, or nothing when nobody is in it.
pub open spec fn list_section(header: Seq<char>, names: Seq<(i64, String)>) -> Seq<char> {
    if names.len() == 0 {
        Seq::empty()
    } else {
        header + name_lines(names)
    }
}

/// The names, in order, of the answers with status `status`.
pub open spec fn names_with(answers: Seq<(i64, AttendanceStatus, String)>, status: AttendanceStatus) -> Seq<
    (i64, String),
>
    decreases answers.len(),
{
    if answers.len() == 0 {
        Seq::empty()
    } else if answers.last().1 == status {
        names_with(answers.drop_last(), status).push((answers.last().0, answers.last().2))
    } else {
        names_with(answers.drop_last(), status)
    }
}

/// The token a button sends: the action, an underscore, the event id.
pub open spec fn token(action: Seq<char>, event_id: i64) -> Seq<char> {
    action + "_"@ + int_text(event_id as int)
}

pub open spec fn button_is(b: Button, text: Seq<char>, data: Seq<char>) -> bool {
    b.text@ == text && b.callback_data@ == data
}

impl Event {
    /// The message text of the event.
    pub open spec fn rendered(&self) -> Seq<char> {
        "*__"@ + escaped(self.title@) + "__*\n"@ + escaped(self.description@) + "\n\n⏰ "@
            + escaped(self.event_date@) + "\n📍 "@ + escaped(self.location@) + "\n"@
            + list_section("\n✅ Accepted\n"@, self.accepted@) + list_section(
            "\n❌ Declined\n"@,
            self.declined@,
        )
    }

    /// Whether a viewer sees the delete button: only the creator, and only in
    /// a private view.
    pub open spec fn shows_delete(&self, viewer_id: i64, public: bool) -> bool {
        !public && self.creator == viewer_id
    }

    /// The event as stored, with nobody having answered yet.
    pub fn from_row(row: &EventRecord) -> (r: Event)
        ensures
            r.id == row.id,
            r.creator == row.creator,
            r.title@ == row.title@,
            r.description@ == row.description@,
            r.location@ == row.location@,
            r.event_date@ == row.event_date@,
            r.accepted@.len() == 0,
            r.declined@.len() == 0,
    {
        Event {
            id: row.id,
            title: row.title.clone(),
            description: row.description.clone(),
            location: row.location.clone(),
            event_date: row.event_date.clone(),
            creator: row.creator,
            accepted: Vec::new(),
            declined: Vec::new(),
        }
    }

    /// Adds an answer at the end of the list for its status.
    pub fn add_attendee(&mut self, user_id: i64, name: String, status: AttendanceStatus)
        ensures
            final(self).id == old(self).id,
            final(self).creator == old(self).creator,
            final(self).title == old(self).title,
            final(self).description == old(self).description,
            final(self).location == old(self).location,
            final(self).event_date == old(self).event_date,
            status == AttendanceStatus::Accepted ==> final(self).accepted@ == old(
                self,
            ).accepted@.push((user_id, name)) && final(self).declined@ == old(self).declined@,
            status == AttendanceStatus::Declined ==> final(self).declined@ == old(
                self,
            ).declined@.push((user_id, name)) && final(self).accepted@ == old(self).accepted@,
    {
        match status {
            AttendanceStatus::Accepted => self.accepted.push((user_id, name)),
            AttendanceStatus::Declined => self.declined.push((user_id, name)),
        }
    }

    /// The stored event with its answers, each given as the user, the status
    /// and the user's display name, in the order they were given.
    pub fn with_answers(row: &EventRecord, answers: Vec<(i64, AttendanceStatus, String)>) -> (r: Event)
        ensures
            r.id == row.id,
            r.creator == row.creator,
            r.title@ == row.title@,
            r.description@ == row.description@,
            r.location@ == row.location@,
            r.event_date@ == row.event_date@,
            r.accepted@ == names_with(answers@, AttendanceStatus::Accepted),
            r.declined@ == names_with(answers@, AttendanceStatus::Declined),
    {
        let mut event = Event::from_row(row);
        let ghost all = answers@;
        let mut rest = answers;
        let total = rest.len();
        let mut taken: usize = 0;
        while rest.len() > 0
            invariant
                all.len() == total,
                taken + rest@.len() == all.len(),
                rest@ == all.skip(taken as int),
                event.id == row.id,
                event.creator == row.creator,
                event.title@ == row.title@,
                event.description@ == row.description@,
                event.location@ == row.location@,
                event.event_date@ == row.event_date@,
                event.accepted@ == names_with(all.take(taken as int), AttendanceStatus::Accepted),
                event.declined@ == names_with(all.take(taken as int), AttendanceStatus::Declined),
            decreases rest@.len(),
        {
            let (user_id, status, name) = rest.remove(0);
            proof {
                assert(all.take(taken + 1).drop_last() =~= all.take(taken as int));
                assert(rest@ =~= all.skip(taken + 1));
            }
            event.add_attendee(user_id, name, status);
            taken = taken + 1;
        }
        assert(all.take(taken as int) =~= all);
        event
    }

    /// Escapes special characters for the markup.
    pub fn escape_markdown(text: &str) -> (r: String)
        ensures
            r@ == escaped(text@),
    {
        escape_text(text)
    }

    /// Creates the message text: title, description, time and place, then the
    /// lists of those who accepted and declined, each left out when empty.
    pub fn format_message(&self) -> (r: String)
        ensures
            r@ == self.rendered(),
    {
        let mut message = String::from_str("*__");
        message.append(Self::escape_markdown(self.title.as_str()).as_str());
        message.append("__*\n");
        message.append(Self::escape_markdown(self.description.as_str()).as_str());
        message.append("\n\n⏰ ");
        message.append(Self::escape_markdown(self.event_date.as_str()).as_str());
        message.append("\n📍 ");
        message.append(Self::escape_markdown(self.location.as_str()).as_str());
        message.append("\n");
        let accepted = Self::format_section("\n✅ Accepted\n", &self.accepted);
        message.append(accepted.as_str());
        let declined = Self::format_section("\n❌ Declined\n", &self.declined);
        message.append(declined.as_str());
        assert(message@ =~= self.rendered());
        message
    }

    fn format_section(header: &str, names: &Vec<(i64, String)>) -> (r: String)
        ensures
            r@ == list_section(header@, names@),
    {
        let mut section = String::new();
        if names.len() == 0 {
            return section;
        }
        section.append(header);
        let mut i: usize = 0;
        while i < names.len()
            invariant
                i <= names.len(),
                section@ == header@ + name_lines(names@.take(i as int)),
            decreases names.len() - i,
        {
            section.append("• ");
            section.append(Self::escape_markdown(names[i].1.as_str()).as_str());
            section.append("\n");
            proof {
                let taken = names@.take(i + 1);
                assert(taken.drop_last() =~= names@.take(i as int));
            }
            i = i + 1;
        }
        assert(names@.take(names.len() as int) =~= names@);
        section
    }

    fn button(text: &str, action: &str, event_id: i64) -> (r: Button)
        ensures
            button_is(r, text@, token(action@, event_id)),
    {
        let mut data = String::from_str(action);
        data.append("_");
        data.append(decimal_text(event_id).as_str());
        Button { text: String::from_str(text), callback_data: data }
    }

    /// Creates the response buttons: accept and decline for everyone, and a
    /// delete button below them for the creator in a private view.
    pub fn create_keyboard(&self, viewer_id: i64, public: bool) -> (r: Keyboard)
        ensures
            r.rows@.len() == if self.shows_delete(viewer_id, public) {
                2nat
            } else {
                1nat
            },
            r.rows@[0]@.len() == 2,
            button_is(r.rows@[0]@[0], "✅ Accept"@, token("accepted"@, self.id)),
            button_is(r.rows@[0]@[1], "❌ Decline"@, token("declined"@, self.id)),
            self.shows_delete(viewer_id, public) ==> r.rows@[1]@.len() == 1 && button_is(
                r.rows@[1]@[0],
                "🗑️ Delete"@,
                token("deleted"@, self.id),
            ),
    {
        let accept = Self::button("✅ Accept", "accepted", self.id);
        let decline = Self::button("❌ Decline", "declined", self.id);
        let mut rows: Vec<Vec<Button>> = Vec::new();
        rows.push(vec![accept, decline]);
        if !public && self.creator == viewer_id {
            let delete = Self::button("🗑️ Delete", "deleted", self.id);
            rows.push(vec![delete]);
        }
        Keyboard { rows }
    }
}

} // verus!
