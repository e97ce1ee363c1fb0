use televent::event::{AttendanceStatus, EventDraft, EventRecord};
use televent::store::{text_before, AttendanceRecord, AttendanceWrite, EventStore};

fn draft(title: &str) -> EventDraft {
    EventDraft {
        title: title.to_string(),
        description: "d".to_string(),
        location: "l".to_string(),
        datetime: String::new(),
    }
}

fn add(store: &mut EventStore, chat: i64, title: &str, date: &str) -> i64 {
    store.create_event(7, chat, draft(title), date.to_string()).unwrap()
}

#[test]
fn ids_start_at_one_and_increase() {
    let mut store = EventStore::new();
    assert_eq!(add(&mut store, 100, "a", "2025-01-01 10:00"), 1);
    assert_eq!(add(&mut store, 100, "b", "2025-01-01 10:00"), 2);
    let e = store.fetch_event(2).unwrap();
    assert_eq!(e.title, "b");
    assert_eq!(e.creator, 7);
    assert_eq!(e.chat_id, 100);
    assert!(store.fetch_event(3).is_none());
}

#[test]
fn accept_twice_leaves_no_record() {
    let mut store = EventStore::new();
    let id = add(&mut store, 100, "a", "2025-01-01 10:00");
    assert_eq!(
        store.toggle_attendance(id, 8, AttendanceStatus::Accepted),
        Some(AttendanceWrite::Inserted)
    );
    assert_eq!(
        store.toggle_attendance(id, 8, AttendanceStatus::Accepted),
        Some(AttendanceWrite::Removed)
    );
    assert!(store.answers(id).is_empty());
}

#[test]
fn accept_then_decline_leaves_one_declined() {
    let mut store = EventStore::new();
    let id = add(&mut store, 100, "a", "2025-01-01 10:00");
    store.toggle_attendance(id, 8, AttendanceStatus::Accepted);
    assert_eq!(
        store.toggle_attendance(id, 8, AttendanceStatus::Declined),
        Some(AttendanceWrite::Updated)
    );
    assert_eq!(store.answers(id), vec![(8, AttendanceStatus::Declined)]);
}

#[test]
fn answers_keep_their_order_through_updates() {
    let mut store = EventStore::new();
    let id = add(&mut store, 100, "a", "2025-01-01 10:00");
    store.toggle_attendance(id, 8, AttendanceStatus::Accepted);
    store.toggle_attendance(id, 9, AttendanceStatus::Declined);
    store.toggle_attendance(id, 8, AttendanceStatus::Declined);
    assert_eq!(
        store.answers(id),
        vec![(8, AttendanceStatus::Declined), (9, AttendanceStatus::Declined)]
    );
}

#[test]
fn answer_to_missing_event_is_refused() {
    let mut store = EventStore::new();
    assert_eq!(store.toggle_attendance(5, 8, AttendanceStatus::Accepted), None);
    assert!(store.answers(5).is_empty());
}

#[test]
fn delete_removes_event_and_its_answers() {
    let mut store = EventStore::new();
    let a = add(&mut store, 100, "a", "2025-01-01 10:00");
    let b = add(&mut store, 100, "b", "2025-01-02 10:00");
    store.toggle_attendance(a, 8, AttendanceStatus::Accepted);
    store.toggle_attendance(b, 8, AttendanceStatus::Accepted);
    store.toggle_attendance(a, 9, AttendanceStatus::Declined);
    store.delete_event(a);
    assert!(store.fetch_event(a).is_none());
    assert!(store.answers(a).is_empty());
    assert_eq!(store.answers(b), vec![(8, AttendanceStatus::Accepted)]);
    assert_eq!(store.events_in_chat(100), vec![b]);
    assert_eq!(store.toggle_attendance(a, 8, AttendanceStatus::Accepted), None);
}

#[test]
fn chat_listing_is_ordered_by_date() {
    let mut store = EventStore::new();
    let late = add(&mut store, 100, "late", "2025-09-01 10:00");
    let other = add(&mut store, 200, "other", "2025-01-01 10:00");
    let early = add(&mut store, 100, "early", "2025-03-01 10:00");
    let middle = add(&mut store, 100, "middle", "2025-03-01 18:30");
    let same = add(&mut store, 100, "same", "2025-03-01 10:00");
    assert_eq!(store.events_in_chat(100), vec![early, same, middle, late]);
    assert_eq!(store.events_in_chat(200), vec![other]);
    assert!(store.events_in_chat(300).is_empty());
}

#[test]
fn events_by_creator_in_creation_order() {
    let mut store = EventStore::new();
    let a = add(&mut store, 100, "a", "2025-02-01 10:00");
    store.create_event(8, 100, draft("x"), "2025-01-01 10:00".to_string());
    let b = add(&mut store, 200, "b", "2025-01-01 10:00");
    assert_eq!(store.event_ids_by_creator(7), vec![a, b]);
    assert!(store.event_ids_by_creator(9).is_empty());
}

#[test]
fn restore_rules() {
    let mut store = EventStore::new();
    let rec = |id: i64| EventRecord {
        id,
        creator: 7,
        title: "t".to_string(),
        description: String::new(),
        location: String::new(),
        event_date: "2025-01-01 10:00".to_string(),
        chat_id: 100,
    };
    assert!(store.restore_event(rec(5)));
    assert!(!store.restore_event(rec(5)));
    assert!(!store.restore_event(rec(0)));
    assert!(!store.restore_event(rec(i64::MAX)));
    let answer = AttendanceRecord { event_id: 5, user_id: 8, status: AttendanceStatus::Accepted };
    assert!(store.restore_attendance(answer));
    assert!(!store.restore_attendance(answer));
    assert!(!store.restore_attendance(AttendanceRecord { event_id: 6, ..answer }));
    assert_eq!(add(&mut store, 100, "next", "2025-01-01 10:00"), 6);
}

#[test]
fn store_without_ids_left_refuses_new_events() {
    let mut store = EventStore::new();
    let rec = EventRecord {
        id: i64::MAX - 1,
        creator: 7,
        title: "t".to_string(),
        description: String::new(),
        location: String::new(),
        event_date: "2025-01-01 10:00".to_string(),
        chat_id: 100,
    };
    assert!(store.restore_event(rec));
    assert_eq!(store.create_event(7, 100, draft("x"), "d".to_string()), None);
}

#[test]
fn text_order() {
    assert!(text_before("2025-01-01", "2025-01-02"));
    assert!(!text_before("2025-01-02", "2025-01-01"));
    assert!(!text_before("abc", "abc"));
    assert!(text_before("ab", "abc"));
    assert!(!text_before("abc", "ab"));
}

#[test]
fn chat_listing_does_not_depend_on_insertion_order() {
    let dates = ["2025-05-01 09:00", "2025-01-01 10:00", "2025-03-01 12:00"];
    let mut first = EventStore::new();
    for (i, date) in dates.iter().enumerate() {
        first.restore_event(EventRecord {
            id: i as i64 + 1,
            creator: 7,
            title: String::new(),
            description: String::new(),
            location: String::new(),
            event_date: date.to_string(),
            chat_id: 100,
        });
    }
    let mut second = EventStore::new();
    for (i, date) in dates.iter().enumerate().rev() {
        second.restore_event(EventRecord {
            id: i as i64 + 1,
            creator: 7,
            title: String::new(),
            description: String::new(),
            location: String::new(),
            event_date: date.to_string(),
            chat_id: 100,
        });
    }
    assert_eq!(first.events_in_chat(100), vec![2, 3, 1]);
    assert_eq!(second.events_in_chat(100), vec![2, 3, 1]);
}
