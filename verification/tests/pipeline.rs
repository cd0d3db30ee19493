use librus_sync::items::{AnnouncementItem, MessageItem, RawGrade, RawHomework, RawMessage, RawNotice};
use librus_sync::resolve::{LookupKind, LookupTable};
use librus_sync::store::{Store, StoreError};
use librus_sync::sync::{
    fetch_new_announcements, fetch_new_grades, fetch_new_homeworks, fetch_new_messages,
    plan_author_lookups, plan_grade_lookups, plan_homework_lookups,
};

fn notice(id: &str, title: &str, content: &str, author_id: &str, date: &str) -> RawNotice {
    RawNotice {
        id: id.to_string(),
        subject: title.to_string(),
        content: content.to_string(),
        author_id: author_id.to_string(),
        creation_date: date.to_string(),
    }
}

fn inbox_msg(id: &str, topic: &str, content: &str) -> RawMessage {
    RawMessage {
        message_id: id.to_string(),
        topic: topic.to_string(),
        content: content.to_string(),
        send_date: "2024-09-01".to_string(),
        sender_name: "Monika Podżorska".to_string(),
    }
}

#[test]
fn announcements_end_to_end() {
    // Store empty; two new announcements by the same author id 7: one remote
    // lookup, two rows appended, the resolved name on both items.
    let mut store = Store::new();
    let notices = vec![
        notice("a1", "Wycieczka", "<p>Zbiórka o 8:00</p>", "7", "2024-09-01"),
        notice("a2", "Mundurki", "Prosimy o mundurki", "7", "2024-09-02"),
    ];
    let existing = store.existing_announcement_ids();
    let plan = plan_author_lookups(&existing, &notices);
    assert_eq!(plan, vec![(LookupKind::Author, 7)]);

    let mut table = LookupTable::new();
    table.add(LookupKind::Author, 7, Some("Anna Nowak".to_string()));

    let (batch, lookups) = fetch_new_announcements(&mut store, &notices, &table).unwrap();
    assert_eq!(lookups, 1);
    assert_eq!(batch.len(), 2);
    assert_eq!(batch[0].id, "a1");
    assert_eq!(batch[0].title, "Wycieczka");
    assert_eq!(batch[0].content, "Zbiórka o 8:00");
    assert_eq!(batch[0].author, "Anna Nowak");
    assert_eq!(batch[1].author, "Anna Nowak");
    let ids = store.existing_announcement_ids();
    assert_eq!(ids, vec!["a1".to_string(), "a2".to_string()]);
}

#[test]
fn announcements_idempotent_second_run() {
    let mut store = Store::new();
    let notices = vec![
        notice("a1", "T1", "C1", "7", "d1"),
        notice("a2", "T2", "C2", "8", "d2"),
    ];
    let mut table = LookupTable::new();
    table.add(LookupKind::Author, 7, Some("Anna Nowak".to_string()));
    table.add(LookupKind::Author, 8, Some("Jan Kowalski".to_string()));
    let (batch1, lookups1) = fetch_new_announcements(&mut store, &notices, &table).unwrap();
    assert_eq!(batch1.len(), 2);
    assert_eq!(lookups1, 2);
    let (batch2, lookups2) = fetch_new_announcements(&mut store, &notices, &table).unwrap();
    assert!(batch2.is_empty());
    assert_eq!(lookups2, 0);
}

#[test]
fn announcement_author_parse_failure_needs_no_lookup() {
    let mut store = Store::new();
    let notices = vec![notice("a1", "T", "C", "SuperAdministrator", "d")];
    let existing = store.existing_announcement_ids();
    assert!(plan_author_lookups(&existing, &notices).is_empty());
    let table = LookupTable::new();
    let (batch, lookups) = fetch_new_announcements(&mut store, &notices, &table).unwrap();
    assert_eq!(lookups, 0);
    assert_eq!(batch[0].author, "Nieznany");
}

#[test]
fn announcement_resolution_failure_degrades_and_run_continues() {
    let mut store = Store::new();
    let notices = vec![notice("a1", "T", "C", "7", "d")];
    let mut table = LookupTable::new();
    table.add(LookupKind::Author, 7, None);
    let (batch, lookups) = fetch_new_announcements(&mut store, &notices, &table).unwrap();
    assert_eq!(lookups, 1);
    assert_eq!(batch[0].author, "Nieznany");
    assert_eq!(store.existing_announcement_ids().len(), 1);
}

#[test]
fn announcement_duplicate_id_in_one_run_aborts() {
    let mut store = Store::new();
    let notices = vec![
        notice("a1", "T1", "C1", "7", "d1"),
        notice("a1", "T2", "C2", "7", "d2"),
    ];
    let mut table = LookupTable::new();
    table.add(LookupKind::Author, 7, Some("Anna Nowak".to_string()));
    let r = fetch_new_announcements(&mut store, &notices, &table);
    assert!(matches!(r, Err(StoreError::DuplicateId)));
    // the first item was persisted before the abort
    assert_eq!(store.existing_announcement_ids(), vec!["a1".to_string()]);
}

#[test]
fn outbox_suppression() {
    // Inbox {A, B, C}, outbox {B}: the batch holds exactly {A, C}.
    let mut store = Store::new();
    let inbox = vec![
        inbox_msg("A", "t1", ""),
        inbox_msg("B", "t2", ""),
        inbox_msg("C", "t3", ""),
    ];
    let outbox = vec!["B".to_string()];
    let batch = fetch_new_messages(&mut store, &inbox, &outbox).unwrap();
    let ids: Vec<&str> = batch.iter().map(|m| m.id.as_str()).collect();
    assert_eq!(ids, vec!["A", "C"]);
}

#[test]
fn outbox_suppression_regardless_of_store_state() {
    let mut store = Store::from_existing_ids(
        vec!["A".to_string()],
        Vec::new(),
        Vec::new(),
        Vec::new(),
    );
    let inbox = vec![
        inbox_msg("A", "t1", ""),
        inbox_msg("B", "t2", ""),
        inbox_msg("C", "t3", ""),
    ];
    let outbox = vec!["B".to_string()];
    let batch = fetch_new_messages(&mut store, &inbox, &outbox).unwrap();
    let ids: Vec<&str> = batch.iter().map(|m| m.id.as_str()).collect();
    assert_eq!(ids, vec!["C"]);
}

#[test]
fn message_body_is_decoded_or_empty() {
    let mut store = Store::new();
    // "SGVsbG8sIFdvcmxkIQ==" is the transport encoding of "Hello, World!"
    let inbox = vec![
        inbox_msg("A", "t1", "SGVsbG8sIFdvcmxkIQ=="),
        inbox_msg("B", "t2", "not valid base64!!!"),
    ];
    let outbox: Vec<String> = Vec::new();
    let batch = fetch_new_messages(&mut store, &inbox, &outbox).unwrap();
    assert_eq!(batch[0].body, "Hello, World!");
    assert_eq!(batch[1].body, "");
}

#[test]
fn messages_idempotent_second_run() {
    let mut store = Store::new();
    let inbox = vec![inbox_msg("A", "t1", ""), inbox_msg("B", "t2", "")];
    let outbox: Vec<String> = Vec::new();
    let batch1 = fetch_new_messages(&mut store, &inbox, &outbox).unwrap();
    assert_eq!(batch1.len(), 2);
    let batch2 = fetch_new_messages(&mut store, &inbox, &outbox).unwrap();
    assert!(batch2.is_empty());
}

#[test]
fn grades_resolve_subject_and_first_comment() {
    let mut store = Store::new();
    let grades = vec![
        RawGrade { id: 101, subject_id: 5, grade: "T".to_string(), comment_ids: vec![31, 32] },
        RawGrade { id: 102, subject_id: 5, grade: "+".to_string(), comment_ids: vec![] },
    ];
    let existing = store.existing_grade_ids();
    let (subjects, comments) = plan_grade_lookups(&existing, &grades);
    assert_eq!(subjects, vec![(LookupKind::Subject, 5)]);
    assert_eq!(comments, vec![31]);

    let mut table = LookupTable::new();
    table.add(LookupKind::Subject, 5, Some("Matematyka".to_string()));
    table.add(LookupKind::Comment, 31, Some("Świetna praca".to_string()));
    let (batch, lookups) = fetch_new_grades(&mut store, &grades, &table).unwrap();
    assert_eq!(lookups, 1);
    assert_eq!(batch.len(), 2);
    assert_eq!(batch[0].id, "101");
    assert_eq!(batch[0].subject, "Matematyka");
    assert_eq!(batch[0].value, "T");
    assert_eq!(batch[0].info, "Świetna praca");
    assert_eq!(batch[1].info, "");
    assert_eq!(store.existing_grade_ids(), vec!["101".to_string(), "102".to_string()]);
}

#[test]
fn grade_comment_lookup_failure_leaves_info_empty() {
    let mut store = Store::new();
    let grades = vec![RawGrade {
        id: 7,
        subject_id: 2,
        grade: "+/-".to_string(),
        comment_ids: vec![9],
    }];
    let mut table = LookupTable::new();
    table.add(LookupKind::Subject, 2, Some("Plastyka".to_string()));
    table.add(LookupKind::Comment, 9, None);
    let (batch, _) = fetch_new_grades(&mut store, &grades, &table).unwrap();
    assert_eq!(batch[0].info, "");
    assert_eq!(batch[0].subject, "Plastyka");
}

#[test]
fn grades_skip_already_stored_ids() {
    let mut store = Store::from_existing_ids(
        Vec::new(),
        Vec::new(),
        vec!["101".to_string()],
        Vec::new(),
    );
    let grades = vec![
        RawGrade { id: 101, subject_id: 5, grade: "T".to_string(), comment_ids: vec![] },
        RawGrade { id: 102, subject_id: 5, grade: "+".to_string(), comment_ids: vec![] },
    ];
    let mut table = LookupTable::new();
    table.add(LookupKind::Subject, 5, Some("Matematyka".to_string()));
    let (batch, lookups) = fetch_new_grades(&mut store, &grades, &table).unwrap();
    assert_eq!(batch.len(), 1);
    assert_eq!(batch[0].id, "102");
    assert_eq!(lookups, 1);
}

#[test]
fn homework_items_are_enriched_and_derived() {
    let mut store = Store::new();
    let homeworks = vec![
        RawHomework {
            id: 900,
            subject_id: Some(5),
            teacher_id: 44,
            date: "2024-10-01".to_string(),
            content: "  Przeczytać str. 52-53\nna poniedziałek".to_string(),
        },
        RawHomework {
            id: 901,
            subject_id: None,
            teacher_id: 44,
            date: "2024-10-02".to_string(),
            content: "   ".to_string(),
        },
    ];
    let existing = store.existing_homework_ids();
    let plan = plan_homework_lookups(&existing, &homeworks);
    assert_eq!(plan, vec![(LookupKind::Subject, 5), (LookupKind::Teacher, 44)]);

    let mut table = LookupTable::new();
    table.add(LookupKind::Subject, 5, Some("Matematyka".to_string()));
    table.add(LookupKind::Teacher, 44, Some("Monika Podżorska".to_string()));
    let (batch, lookups) = fetch_new_homeworks(&mut store, &homeworks, &table).unwrap();
    assert_eq!(lookups, 2);
    assert_eq!(batch[0].id, "900");
    assert_eq!(batch[0].subject, "Matematyka");
    assert_eq!(batch[0].title, "Przeczytać str. 52-53");
    assert_eq!(batch[0].kind, "Zadanie domowe");
    assert_eq!(batch[0].from, "2024-10-01");
    assert_eq!(batch[0].to, "2024-10-01");
    assert_eq!(batch[0].user, "Monika Podżorska");
    assert_eq!(batch[1].subject, "Nieznany");
    assert_eq!(batch[1].title, "Zadanie domowe");
}

#[test]
fn homeworks_idempotent_second_run() {
    let mut store = Store::new();
    let homeworks = vec![RawHomework {
        id: 900,
        subject_id: Some(5),
        teacher_id: 44,
        date: "d".to_string(),
        content: "Zadanie".to_string(),
    }];
    let mut table = LookupTable::new();
    table.add(LookupKind::Subject, 5, Some("Matematyka".to_string()));
    table.add(LookupKind::Teacher, 44, Some("Monika Podżorska".to_string()));
    let (batch1, _) = fetch_new_homeworks(&mut store, &homeworks, &table).unwrap();
    assert_eq!(batch1.len(), 1);
    let (batch2, lookups2) = fetch_new_homeworks(&mut store, &homeworks, &table).unwrap();
    assert!(batch2.is_empty());
    assert_eq!(lookups2, 0);
}

#[test]
fn store_refuses_duplicate_id() {
    let mut store = Store::new();
    let item = MessageItem {
        id: "m1".to_string(),
        title: "t".to_string(),
        body: "b".to_string(),
        date: "d".to_string(),
        user: "u".to_string(),
    };
    assert!(store.save_message(&item).is_ok());
    assert!(matches!(store.save_message(&item), Err(StoreError::DuplicateId)));
    assert_eq!(store.existing_message_ids(), vec!["m1".to_string()]);
}

#[test]
fn store_refuses_id_seen_in_earlier_run() {
    let mut store = Store::from_existing_ids(
        Vec::new(),
        vec!["a1".to_string()],
        Vec::new(),
        Vec::new(),
    );
    let item = AnnouncementItem {
        id: "a1".to_string(),
        title: "t".to_string(),
        content: "c".to_string(),
        date: "d".to_string(),
        author: "x".to_string(),
    };
    assert!(matches!(store.save_announcement(&item), Err(StoreError::DuplicateId)));
    assert_eq!(store.existing_announcement_ids(), vec!["a1".to_string()]);
}

#[test]
fn store_tables_are_independent() {
    let mut store = Store::new();
    let msg = MessageItem {
        id: "x".to_string(),
        title: "t".to_string(),
        body: "b".to_string(),
        date: "d".to_string(),
        user: "u".to_string(),
    };
    let ann = AnnouncementItem {
        id: "x".to_string(),
        title: "t".to_string(),
        content: "c".to_string(),
        date: "d".to_string(),
        author: "a".to_string(),
    };
    assert!(store.save_message(&msg).is_ok());
    assert!(store.save_announcement(&ann).is_ok());
    assert_eq!(store.existing_message_ids().len(), 1);
    assert_eq!(store.existing_announcement_ids().len(), 1);
}

#[test]
fn grades_idempotent_second_run() {
    let mut store = Store::new();
    let grades = vec![RawGrade { id: 5, subject_id: 1, grade: "T".to_string(), comment_ids: vec![] }];
    let mut table = LookupTable::new();
    table.add(LookupKind::Subject, 1, Some("Religia".to_string()));
    let (batch1, _) = fetch_new_grades(&mut store, &grades, &table).unwrap();
    assert_eq!(batch1.len(), 1);
    let (batch2, lookups2) = fetch_new_grades(&mut store, &grades, &table).unwrap();
    assert!(batch2.is_empty());
    assert_eq!(lookups2, 0);
}

#[test]
fn announcement_author_id_with_sign_parses() {
    let mut store = Store::new();
    let notices = vec![notice("a1", "T", "C", "+7", "d")];
    let existing = store.existing_announcement_ids();
    assert_eq!(plan_author_lookups(&existing, &notices), vec![(LookupKind::Author, 7)]);
    let mut table = LookupTable::new();
    table.add(LookupKind::Author, 7, Some("Anna Nowak".to_string()));
    let (batch, lookups) = fetch_new_announcements(&mut store, &notices, &table).unwrap();
    assert_eq!(lookups, 1);
    assert_eq!(batch[0].author, "Anna Nowak");
}

#[test]
fn announcement_author_id_out_of_range_is_unparsed() {
    let mut store = Store::new();
    // does not fit a 32-bit id: no lookup is planned, the author degrades
    let notices = vec![notice("a1", "T", "C", "3000000000", "d")];
    let existing = store.existing_announcement_ids();
    assert!(plan_author_lookups(&existing, &notices).is_empty());
    let table = LookupTable::new();
    let (batch, lookups) = fetch_new_announcements(&mut store, &notices, &table).unwrap();
    assert_eq!(lookups, 0);
    assert_eq!(batch[0].author, "Nieznany");
}

#[test]
fn message_duplicate_id_in_one_run_aborts() {
    let mut store = Store::new();
    let inbox = vec![inbox_msg("A", "t1", ""), inbox_msg("A", "t2", "")];
    let outbox: Vec<String> = Vec::new();
    let r = fetch_new_messages(&mut store, &inbox, &outbox);
    assert!(matches!(r, Err(StoreError::DuplicateId)));
    assert_eq!(store.existing_message_ids(), vec!["A".to_string()]);
}

#[test]
fn homework_duplicate_id_in_one_run_aborts() {
    let mut store = Store::new();
    let homeworks = vec![
        RawHomework {
            id: 1,
            subject_id: None,
            teacher_id: 2,
            date: "d".to_string(),
            content: "c".to_string(),
        },
        RawHomework {
            id: 1,
            subject_id: None,
            teacher_id: 2,
            date: "d".to_string(),
            content: "c".to_string(),
        },
    ];
    let mut table = LookupTable::new();
    table.add(LookupKind::Teacher, 2, Some("Monika Podżorska".to_string()));
    let r = fetch_new_homeworks(&mut store, &homeworks, &table);
    assert!(matches!(r, Err(StoreError::DuplicateId)));
    assert_eq!(store.existing_homework_ids(), vec!["1".to_string()]);
}

#[test]
fn grade_with_negative_remote_id_renders_signed_text_id() {
    let mut store = Store::new();
    let grades = vec![RawGrade { id: -3, subject_id: 1, grade: "+".to_string(), comment_ids: vec![] }];
    let mut table = LookupTable::new();
    table.add(LookupKind::Subject, 1, Some("Muzyka".to_string()));
    let (batch, _) = fetch_new_grades(&mut store, &grades, &table).unwrap();
    assert_eq!(batch[0].id, "-3");
}
