use librus_sync::email_text::{format_markdown, generate_urgency_badge, get_subject_prefix, max_urgency};
use librus_sync::items::{GradeItem, HomeworkItem, MessageItem};
use librus_sync::paginate::{paginate, Paginator};
use librus_sync::report::{fallback_grades, fallback_homework, fallback_messages};
use librus_sync::title::derive_title;

fn pages_of(sizes: &[usize]) -> Vec<Vec<u64>> {
    let mut out = Vec::new();
    let mut next: u64 = 0;
    for &s in sizes {
        let mut page = Vec::new();
        for _ in 0..s {
            page.push(next);
            next += 1;
        }
        out.push(page);
    }
    out
}

#[test]
fn pagination_stops_on_short_page() {
    // Pages of sizes [50, 50, 30] at page size 50: exactly 3 calls, 130 records.
    let (records, calls) = paginate(pages_of(&[50, 50, 30]), 50, 10);
    assert_eq!(calls, 3);
    assert_eq!(records.len(), 130);
    let expected: Vec<u64> = (0..130).collect();
    assert_eq!(records, expected);
}

#[test]
fn pagination_stops_at_page_ceiling() {
    // Twelve full pages available, ceiling 10: exactly 10 calls, no 11th.
    let (records, calls) = paginate(pages_of(&[50; 12]), 50, 10);
    assert_eq!(calls, 10);
    assert_eq!(records.len(), 500);
}

#[test]
fn pagination_stops_on_empty_page() {
    let (records, calls) = paginate(pages_of(&[50, 0, 50]), 50, 10);
    assert_eq!(calls, 2);
    assert_eq!(records.len(), 50);
}

#[test]
fn pagination_exhausted_source_reads_as_empty_page() {
    let (records, calls) = paginate(pages_of(&[50]), 50, 10);
    assert_eq!(calls, 2);
    assert_eq!(records.len(), 50);
}

#[test]
fn paginator_with_zero_ceiling_never_fetches() {
    let p = Paginator::new(50, 0);
    assert!(!p.wants_fetch());
}

#[test]
fn paginator_reports_page_numbers_in_order() {
    let mut p = Paginator::new(2, 5);
    assert_eq!(p.next_page(), 1);
    p.record_page(2);
    assert_eq!(p.next_page(), 2);
    p.record_page(1);
    assert!(!p.wants_fetch());
}

#[test]
fn title_from_first_line() {
    assert_eq!(derive_title("  Read pages 10-12\nMore text"), "Read pages 10-12");
}

#[test]
fn title_fallback_on_empty_content() {
    assert_eq!(derive_title(""), "Zadanie domowe");
    assert_eq!(derive_title("   \n  \t "), "Zadanie domowe");
}

#[test]
fn title_truncates_long_first_line() {
    let line = "x".repeat(90);
    let title = derive_title(&line);
    let mut expected = "x".repeat(60);
    expected.push_str("...");
    assert_eq!(title, expected);
    assert_eq!(title.chars().count(), 63);
}

#[test]
fn title_sixty_characters_kept_whole() {
    let line = "y".repeat(60);
    assert_eq!(derive_title(&line), line);
}

#[test]
fn title_trims_carriage_return_line_endings() {
    assert_eq!(derive_title("Przynieść włóczkę  \r\ndalszy tekst"), "Przynieść włóczkę");
}

#[test]
fn urgency_badge_colors() {
    let b = generate_urgency_badge("PILNE");
    assert_eq!(
        b,
        "<span style=\"background-color: #dc3545; color: white; padding: 4px 8px; border-radius: 4px; font-size: 12px; font-weight: bold;\">PILNE</span>"
    );
    assert!(generate_urgency_badge("NORMALNE").contains("#ffc107"));
    assert!(generate_urgency_badge("NIEPILNE").contains("#28a745"));
    assert!(generate_urgency_badge("cokolwiek").contains("#ffc107"));
}

#[test]
fn subject_prefixes() {
    assert_eq!(get_subject_prefix("PILNE"), "[PILNE]");
    assert_eq!(get_subject_prefix("NIEPILNE"), "[NIEPILNE]");
    assert_eq!(get_subject_prefix("NORMALNE"), "[NORMALNE]");
    assert_eq!(get_subject_prefix("inne"), "[NORMALNE]");
}

#[test]
fn max_urgency_prefers_urgent_then_normal() {
    let us = vec!["NIEPILNE".to_string(), "PILNE".to_string(), "NORMALNE".to_string()];
    assert_eq!(max_urgency(&us), "PILNE");
    let us2 = vec!["NIEPILNE".to_string(), "NORMALNE".to_string()];
    assert_eq!(max_urgency(&us2), "NORMALNE");
    let us3 = vec!["NIEPILNE".to_string()];
    assert_eq!(max_urgency(&us3), "NIEPILNE");
    let none: Vec<String> = Vec::new();
    assert_eq!(max_urgency(&none), "NIEPILNE");
}

#[test]
fn markdown_bold_becomes_strong() {
    assert_eq!(format_markdown("**x**"), "<strong>x</strong>");
    assert_eq!(
        format_markdown("wpłata **50 zł** do **9.10**"),
        "wpłata <strong>50 zł</strong> do <strong>9.10</strong>"
    );
    assert_eq!(format_markdown("bez pogrubienia"), "bez pogrubienia");
}

#[test]
fn fallback_messages_states_count_and_titles() {
    let items = vec![
        MessageItem {
            id: "1".to_string(),
            title: "Usprawiedliwienie".to_string(),
            body: String::new(),
            date: String::new(),
            user: String::new(),
        },
        MessageItem {
            id: "2".to_string(),
            title: "Wycieczka".to_string(),
            body: String::new(),
            date: String::new(),
            user: String::new(),
        },
    ];
    let a = fallback_messages(&items);
    assert_eq!(a.urgency, "NORMALNE");
    assert_eq!(a.summary, "Nie udało się wygenerować podsumowania. Liczba wiadomości: 2");
    assert_eq!(a.key_points, vec!["Usprawiedliwienie".to_string(), "Wycieczka".to_string()]);
}

#[test]
fn fallback_grades_formats_key_points() {
    let items = vec![GradeItem {
        id: "1".to_string(),
        subject: "Matematyka".to_string(),
        value: "T".to_string(),
        info: String::new(),
    }];
    let a = fallback_grades(&items);
    assert_eq!(a.summary, "Nie udało się wygenerować podsumowania. Liczba ocen: 1");
    assert_eq!(a.key_points, vec!["📚 Matematyka | ⭐ **T**".to_string()]);
}

#[test]
fn fallback_homework_formats_key_points() {
    let items = vec![HomeworkItem {
        id: "1".to_string(),
        subject: "Plastyka".to_string(),
        title: "Przynieść włóczkę".to_string(),
        kind: "Zadanie domowe".to_string(),
        from: String::new(),
        to: String::new(),
        content: String::new(),
        user: String::new(),
    }];
    let a = fallback_homework(&items);
    assert_eq!(a.summary, "Nie udało się wygenerować podsumowania. Liczba zadań domowych: 1");
    assert_eq!(a.key_points, vec!["📝 **Plastyka** - Przynieść włóczkę".to_string()]);
}

#[test]
fn fallback_announcements_states_count_and_titles() {
    let items = vec![librus_sync::items::AnnouncementItem {
        id: "1".to_string(),
        title: "Ogłoszenie".to_string(),
        content: String::new(),
        date: String::new(),
        author: String::new(),
    }];
    let a = librus_sync::report::fallback_announcements(&items);
    assert_eq!(a.urgency, "NORMALNE");
    assert_eq!(a.summary, "Nie udało się wygenerować podsumowania. Liczba ogłoszeń: 1");
    assert_eq!(a.key_points, vec!["Ogłoszenie".to_string()]);
}

#[test]
fn config_defaults_match_documented_values() {
    let c = librus_sync::config::SyncConfig::defaults();
    assert_eq!(c.message_page_size, 50);
    assert_eq!(c.message_max_pages, 10);
    assert_eq!(c.announcements_limit, 50);
}

#[test]
fn title_truncation_counts_characters_not_bytes() {
    let line = "ż".repeat(70);
    let title = derive_title(&line);
    let mut expected = "ż".repeat(60);
    expected.push_str("...");
    assert_eq!(title, expected);
}

#[test]
fn pagination_empty_first_page() {
    let (records, calls) = paginate(pages_of(&[0, 50]), 50, 10);
    assert_eq!(calls, 1);
    assert!(records.is_empty());
}
