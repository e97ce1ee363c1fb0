use televent::datetime::parse_datetime_string;
use televent::dispatch::{
    display_name, fallback_name, is_forbidden, is_ignorable_delete_failure, is_not_modified,
    parse_callback_data, route_message, AnswerReply, CallbackToken, Dispatcher, PressReply,
    PromptDelivery, Route,
};
use televent::event::{AttendanceStatus, Event, EventCreationState, EventDraft};
use televent::store::AttendanceWrite;

fn created_event(d: &mut Dispatcher, user: i64, chat: i64, title: &str) -> i64 {
    d.after_title_prompt(user, chat, PromptDelivery::Delivered);
    d.answer(user, title);
    d.answer(user, "desc");
    d.answer(user, "place");
    match d.answer(user, "2025-08-15 19:00") {
        AnswerReply::Created { event_id, .. } => event_id,
        other => panic!("not created: {:?}", other),
    }
}

fn render(d: &Dispatcher, id: i64, names: &dyn Fn(i64) -> String) -> Event {
    let answers = d
        .store
        .answers(id)
        .into_iter()
        .map(|(user, status)| (user, status, names(user)))
        .collect();
    Event::with_answers(d.store.fetch_event(id).unwrap(), answers)
}

#[test]
fn routes_commands_exactly() {
    assert_eq!(route_message("/create", false, false), Route::Create);
    assert_eq!(route_message("/create", true, true), Route::CreateInPrivate);
    assert_eq!(route_message("/list", false, true), Route::List);
    assert_eq!(route_message("/cancel", true, true), Route::Cancel);
    assert_eq!(route_message("/myevents", false, false), Route::MyEvents);
    assert_eq!(route_message("/help", false, false), Route::Help);
    assert_eq!(route_message("/help ", false, false), Route::Ignore);
    assert_eq!(route_message("Picnic", true, true), Route::DraftAnswer);
    assert_eq!(route_message("Picnic", false, true), Route::Ignore);
    assert_eq!(route_message("Picnic", true, false), Route::Ignore);
}

#[test]
fn create_scenario_in_group() {
    let mut d = Dispatcher::new();
    assert_eq!(route_message("/create", false, d.drafts.has_draft(7)), Route::Create);
    d.after_title_prompt(7, 100, PromptDelivery::Delivered);
    assert_eq!(
        route_message("Picnic", true, d.drafts.has_draft(7)),
        Route::DraftAnswer
    );
    assert_eq!(d.answer(7, "Picnic"), AnswerReply::Ask(EventCreationState::AwaitingDescription));
    assert_eq!(d.answer(7, "Bring snacks"), AnswerReply::Ask(EventCreationState::AwaitingLocation));
    assert_eq!(d.answer(7, "Park"), AnswerReply::Ask(EventCreationState::AwaitingTime));
    assert_eq!(
        d.answer(7, "2025-08-15 19:00"),
        AnswerReply::Created { event_id: 1, origin_chat_id: 100 }
    );
    assert!(!d.drafts.has_draft(7));
    let stored = d.store.fetch_event(1).unwrap();
    assert_eq!(stored.title, "Picnic");
    assert_eq!(stored.description, "Bring snacks");
    assert_eq!(stored.location, "Park");
    assert_eq!(stored.event_date, "2025-08-15 19:00");
    assert_eq!(stored.chat_id, 100);
    assert_eq!(stored.creator, 7);
    let event = Event::from_row(stored);
    let group = event.create_keyboard(7, true);
    assert_eq!(group.rows.len(), 1);
    assert_eq!(group.rows[0][0].callback_data, "accepted_1");
    assert_eq!(group.rows[0][1].callback_data, "declined_1");
    let private = event.create_keyboard(7, false);
    assert_eq!(private.rows.len(), 2);
    assert_eq!(private.rows[1][0].callback_data, "deleted_1");
}

#[test]
fn create_without_private_chat_starts_nothing() {
    let mut d = Dispatcher::new();
    d.after_title_prompt(7, 100, PromptDelivery::Forbidden);
    assert!(!d.drafts.has_draft(7));
    d.after_title_prompt(7, 100, PromptDelivery::Failed);
    assert!(!d.drafts.has_draft(7));
    assert!(is_forbidden(403));
    assert!(!is_forbidden(400));
}

#[test]
fn new_creation_replaces_old_draft() {
    let mut d = Dispatcher::new();
    d.after_title_prompt(7, 100, PromptDelivery::Delivered);
    d.answer(7, "Old title");
    d.after_title_prompt(7, 200, PromptDelivery::Delivered);
    let context = d.drafts.get(7).unwrap();
    assert_eq!(context.origin_chat_id, 200);
    assert_eq!(context.state, EventCreationState::AwaitingTitle);
    assert_eq!(context.draft.title, "");
}

#[test]
fn bad_time_keeps_draft_waiting() {
    let mut d = Dispatcher::new();
    d.after_title_prompt(7, 100, PromptDelivery::Delivered);
    d.answer(7, "t");
    d.answer(7, "d");
    d.answer(7, "l");
    assert_eq!(d.answer(7, "tomorrow evening"), AnswerReply::RetryTime);
    assert_eq!(d.answer(7, "2025-13-01 10:00"), AnswerReply::RetryTime);
    let context = d.drafts.get(7).unwrap();
    assert_eq!(context.state, EventCreationState::AwaitingTime);
    assert_eq!(context.draft.location, "l");
    assert!(d.store.fetch_event(1).is_none());
    assert_eq!(
        d.answer(7, "2025-12-01 10:00"),
        AnswerReply::Created { event_id: 1, origin_chat_id: 100 }
    );
}

#[test]
fn cancel_discards_draft() {
    let mut d = Dispatcher::new();
    assert!(!d.cancel(7));
    d.after_title_prompt(7, 100, PromptDelivery::Delivered);
    d.answer(7, "t");
    assert!(d.cancel(7));
    assert!(!d.drafts.has_draft(7));
    assert_eq!(d.answer(7, "d"), AnswerReply::NoDraft);
}

#[test]
fn accepting_twice_removes_user_from_list() {
    let mut d = Dispatcher::new();
    let id = created_event(&mut d, 7, 100, "Picnic");
    let token = format!("accepted_{}", id);
    assert!(matches!(
        d.press(8, &token),
        PressReply::Answered { write: AttendanceWrite::Inserted, .. }
    ));
    let names = |u: i64| format!("Name{}", u);
    assert!(render(&d, id, &names).format_message().contains("• Name8"));
    match d.press(8, &token) {
        PressReply::Answered { event_id, status, write } => {
            assert_eq!(event_id, id);
            assert_eq!(status, AttendanceStatus::Accepted);
            assert_eq!(write, AttendanceWrite::Removed);
        }
        other => panic!("unexpected {:?}", other),
    }
    let text = render(&d, id, &names).format_message();
    assert!(!text.contains("Accepted"));
    assert!(!text.contains("Name8"));
    assert!(is_not_modified(
        400,
        "Bad Request: message is not modified: specified new message content and reply markup are exactly the same"
    ));
    assert!(!is_not_modified(400, "Bad Request: chat not found"));
    assert!(!is_not_modified(403, "message is not modified"));
}

#[test]
fn decline_after_accept_moves_user() {
    let mut d = Dispatcher::new();
    let id = created_event(&mut d, 7, 100, "Picnic");
    d.press(8, &format!("accepted_{}", id));
    d.press(8, &format!("declined_{}", id));
    let event = render(&d, id, &|u: i64| fallback_name(u));
    assert!(event.accepted.is_empty());
    assert_eq!(event.declined, vec![(8, "User 8".to_string())]);
}

#[test]
fn non_creator_cannot_delete() {
    let mut d = Dispatcher::new();
    for _ in 0..42 {
        created_event(&mut d, 7, 100, "e");
    }
    assert!(matches!(d.press(8, "deleted_42"), PressReply::Ignored));
    assert!(d.store.fetch_event(42).is_some());
}

#[test]
fn creator_deletes_event_and_answers() {
    let mut d = Dispatcher::new();
    let id = created_event(&mut d, 7, 100, "e");
    d.press(8, &format!("accepted_{}", id));
    let token = format!("deleted_{}", id);
    assert!(matches!(d.press(7, &token), PressReply::Deleted { event_id } if event_id == id));
    assert!(d.store.fetch_event(id).is_none());
    assert!(d.store.answers(id).is_empty());
    assert!(matches!(d.press(7, &token), PressReply::Ignored));
    assert!(is_ignorable_delete_failure(400));
    assert!(!is_ignorable_delete_failure(403));
}

#[test]
fn answer_to_missing_event_is_ignored() {
    let mut d = Dispatcher::new();
    assert!(matches!(d.press(8, "accepted_5"), PressReply::Ignored));
    assert!(d.store.answers(5).is_empty());
}

#[test]
fn callback_tokens() {
    assert!(matches!(
        parse_callback_data("accepted_42"),
        CallbackToken::Rsvp(AttendanceStatus::Accepted, 42)
    ));
    assert!(matches!(
        parse_callback_data("declined_-7"),
        CallbackToken::Rsvp(AttendanceStatus::Declined, -7)
    ));
    assert!(matches!(parse_callback_data("deleted_+9"), CallbackToken::Delete(9)));
    assert!(matches!(parse_callback_data("accepted_x1"), CallbackToken::Malformed(_)));
    assert!(matches!(parse_callback_data("deleted_"), CallbackToken::Malformed(_)));
    assert!(matches!(
        parse_callback_data("declined_99999999999999999999"),
        CallbackToken::Malformed(_)
    ));
    assert!(matches!(parse_callback_data("maybe_3"), CallbackToken::Unknown));
    assert!(matches!(parse_callback_data("accepted"), CallbackToken::Unknown));
    let mut d = Dispatcher::new();
    assert!(matches!(d.press(8, "accepted_x"), PressReply::Malformed(_)));
}

#[test]
fn names() {
    assert_eq!(display_name("Ann", Some("Lee")), "Ann Lee");
    assert_eq!(display_name("Ann", None), "Ann");
    assert_eq!(fallback_name(42), "User 42");
    assert_eq!(fallback_name(-5), "User -5");
}

#[test]
fn datetime_format() {
    let dt = parse_datetime_string("2025-08-15 19:00").unwrap();
    assert_eq!((dt.year, dt.month, dt.day, dt.hour, dt.minute), (2025, 8, 15, 19, 0));
    assert_eq!(dt.stored_text(), "2025-08-15 19:00");
    assert_eq!(
        parse_datetime_string("+12345-01-02 03:04").unwrap().stored_text(),
        "+12345-01-02 03:04"
    );
    assert_eq!(
        parse_datetime_string("-44-03-15 12:00").unwrap().stored_text(),
        "-0044-03-15 12:00"
    );
    assert_eq!(
        parse_datetime_string("0099-1-2 3:4").unwrap().stored_text(),
        "0099-01-02 03:04"
    );
    assert!(parse_datetime_string("2025-08-15").is_err());
    assert!(parse_datetime_string("15/08/2025 19:00").is_err());
    assert!(parse_datetime_string("2025-02-30 19:00").is_err());
}

#[test]
fn blank_draft() {
    let draft = EventDraft::default();
    assert!(draft.title.is_empty() && draft.datetime.is_empty());
}

#[test]
fn stored_date_is_normalised() {
    let mut d = Dispatcher::new();
    d.after_title_prompt(7, 100, PromptDelivery::Delivered);
    d.answer(7, "t");
    d.answer(7, "d");
    d.answer(7, "l");
    assert_eq!(
        d.answer(7, "2025-8-5 9:00"),
        AnswerReply::Created { event_id: 1, origin_chat_id: 100 }
    );
    assert_eq!(d.store.fetch_event(1).unwrap().event_date, "2025-08-05 09:00");
}

#[test]
fn button_tokens_read_back() {
    let mut d = Dispatcher::new();
    let id = created_event(&mut d, 7, 100, "Picnic");
    let event = Event::from_row(d.store.fetch_event(id).unwrap());
    let keyboard = event.create_keyboard(7, false);
    assert!(matches!(
        parse_callback_data(&keyboard.rows[0][0].callback_data),
        CallbackToken::Rsvp(AttendanceStatus::Accepted, x) if x == id
    ));
    assert!(matches!(
        parse_callback_data(&keyboard.rows[0][1].callback_data),
        CallbackToken::Rsvp(AttendanceStatus::Declined, x) if x == id
    ));
    assert!(matches!(
        parse_callback_data(&keyboard.rows[1][0].callback_data),
        CallbackToken::Delete(x) if x == id
    ));
}

#[test]
fn status_labels() {
    assert_eq!(AttendanceStatus::Accepted.label(), "accepted");
    assert_eq!(AttendanceStatus::from_label("declined"), Some(AttendanceStatus::Declined));
    assert_eq!(AttendanceStatus::from_label("maybe"), None);
}
