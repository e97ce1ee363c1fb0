use televent::event::{AttendanceStatus, Event, EventRecord};

fn record(id: i64, creator: i64) -> EventRecord {
    EventRecord {
        id,
        creator,
        title: "Picnic".to_string(),
        description: "Bring snacks".to_string(),
        location: "Park".to_string(),
        event_date: "2025-08-15 19:00".to_string(),
        chat_id: 100,
    }
}

#[test]
fn escape_marks_every_reserved_character() {
    let input = "_*[]()~`>#+-=|{}.!\\";
    let escaped = Event::escape_markdown(input);
    assert_eq!(
        escaped,
        "\\_\\*\\[\\]\\(\\)\\~\\`\\>\\#\\+\\-\\=\\|\\{\\}\\.\\!\\\\"
    );
}

#[test]
fn escape_keeps_plain_text_and_escapes_backslashes() {
    assert_eq!(Event::escape_markdown("Hello world"), "Hello world");
    assert_eq!(Event::escape_markdown(""), "");
    assert_eq!(Event::escape_markdown("a\\b"), "a\\\\b");
    assert_eq!(Event::escape_markdown("\\*"), "\\\\\\*");
    assert_eq!(Event::escape_markdown("end\\"), "end\\\\");
    assert_eq!(Event::escape_markdown("é.ü"), "é\\.ü");
}

#[test]
fn escape_of_unescaped_text_matches_direct_escape() {
    let plain = "Meet at 7. Bring (snacks)!";
    let direct = Event::escape_markdown(plain);
    assert_eq!(direct, "Meet at 7\\. Bring \\(snacks\\)\\!");
    assert_eq!(shown(&direct), plain);
    assert_eq!(Event::escape_markdown(&shown(&direct)), direct);
    for text in ["a\\*b", "\\", "x_\\\\y."] {
        let escaped = Event::escape_markdown(text);
        assert_eq!(shown(&escaped), text);
        assert_eq!(Event::escape_markdown(&shown(&escaped)), escaped);
        let chars: Vec<char> = escaped.chars().collect();
        let mut i = 0;
        while i < chars.len() {
            if chars[i] == '\\' {
                assert!(i + 1 < chars.len());
                i += 2;
            } else {
                assert!(!"_*[]()~`>#+-=|{}.!".contains(chars[i]));
                i += 1;
            }
        }
    }
}

/// What the markup shows: a backslash stands for the character after it.
fn shown(text: &str) -> String {
    let chars: Vec<char> = text.chars().collect();
    let mut out = String::new();
    let mut i = 0;
    while i < chars.len() {
        if chars[i] == '\\' && i + 1 < chars.len() {
            out.push(chars[i + 1]);
            i += 2;
        } else {
            out.push(chars[i]);
            i += 1;
        }
    }
    out
}

#[test]
fn message_without_attendees() {
    let event = Event::from_row(&record(1, 7));
    assert_eq!(
        event.format_message(),
        "*__Picnic__*\nBring snacks\n\n⏰ 2025\\-08\\-15 19:00\n📍 Park\n"
    );
}

#[test]
fn message_with_attendees_in_answer_order() {
    let event = Event::with_answers(
        &record(1, 7),
        vec![
            (8, AttendanceStatus::Accepted, "Ann Lee".to_string()),
            (9, AttendanceStatus::Declined, "Bo".to_string()),
            (10, AttendanceStatus::Accepted, "Cy.Z".to_string()),
        ],
    );
    assert_eq!(event.accepted.len(), 2);
    assert_eq!(event.declined.len(), 1);
    assert_eq!(
        event.format_message(),
        "*__Picnic__*\nBring snacks\n\n⏰ 2025\\-08\\-15 19:00\n📍 Park\n\n✅ Accepted\n• Ann Lee\n• Cy\\.Z\n\n❌ Declined\n• Bo\n"
    );
}

#[test]
fn keyboard_in_public_view_has_no_delete() {
    let event = Event::from_row(&record(42, 7));
    let keyboard = event.create_keyboard(7, true);
    assert_eq!(keyboard.rows.len(), 1);
    assert_eq!(keyboard.rows[0].len(), 2);
    assert_eq!(keyboard.rows[0][0].text, "✅ Accept");
    assert_eq!(keyboard.rows[0][0].callback_data, "accepted_42");
    assert_eq!(keyboard.rows[0][1].text, "❌ Decline");
    assert_eq!(keyboard.rows[0][1].callback_data, "declined_42");
}

#[test]
fn keyboard_in_private_view_for_creator_has_delete() {
    let event = Event::from_row(&record(42, 7));
    let keyboard = event.create_keyboard(7, false);
    assert_eq!(keyboard.rows.len(), 2);
    assert_eq!(keyboard.rows[1].len(), 1);
    assert_eq!(keyboard.rows[1][0].text, "🗑️ Delete");
    assert_eq!(keyboard.rows[1][0].callback_data, "deleted_42");
}

#[test]
fn keyboard_in_private_view_for_other_user_has_no_delete() {
    let event = Event::from_row(&record(42, 7));
    assert_eq!(event.create_keyboard(8, false).rows.len(), 1);
}

#[test]
fn keyboard_token_with_negative_id() {
    let event = Event::from_row(&record(-3, 7));
    let keyboard = event.create_keyboard(7, true);
    assert_eq!(keyboard.rows[0][0].callback_data, "accepted_-3");
}
