use vstd::prelude::*;

use crate::items::{Analysis, AnnouncementItem, GradeItem, GradeItemView, HomeworkItem, HomeworkItemView, MessageItem};
use crate::numbers::{spec_decimal_nat, usize_to_string};

verus! {

/// The key point rendered for one grade: subject and symbolic value.
pub open spec fn spec_grade_point(g: GradeItemView) -> Seq<char> {
    "📚 "@ + g.subject + " | ⭐ **"@ + g.value + "**"@
}

/// The key point rendered for one homework assignment: subject and title.
pub open spec fn spec_homework_point(h: HomeworkItemView) -> Seq<char> {
    "📝 **"@ + h.subject + "** - "@ + h.title
}

/// The deterministic fallback analysis substituted when announcement
/// summarization fails: normal urgency, a summary stating the item count,
/// and one key point per item title.
pub fn fallback_announcements(items: &Vec<AnnouncementItem>) -> (a: Analysis)
    ensures
        a.urgency@ == "NORMALNE"@,
        a.summary@ == "Nie udało się wygenerować podsumowania. Liczba ogłoszeń: "@
            + spec_decimal_nat(items@.len()),
        a.key_points.deep_view() == items@.map_values(|it: AnnouncementItem| it.title@),
{
    let mut summary = String::from_str(
        "Nie udało się wygenerować podsumowania. Liczba ogłoszeń: ",
    );
    let count = usize_to_string(items.len());
    summary.append(count.as_str());
    let mut kps: Vec<String> = Vec::new();
    let n = items.len();
    for i in 0..n
        invariant
            n == items@.len(),
            kps@.len() == i,
            forall|j: int| 0 <= j < i ==> (#[trigger] kps@[j])@ == items@[j].title@,
    {
        kps.push(items[i].title.clone());
    }
    proof {
        assert(kps.deep_view() =~= items@.map_values(|it: AnnouncementItem| it.title@));
    }
    Analysis { urgency: String::from_str("NORMALNE"), summary, key_points: kps }
}

/// The deterministic fallback analysis substituted when message
/// summarization fails.
pub fn fallback_messages(items: &Vec<MessageItem>) -> (a: Analysis)
    ensures
        a.urgency@ == "NORMALNE"@,
        a.summary@ == "Nie udało się wygenerować podsumowania. Liczba wiadomości: "@
            + spec_decimal_nat(items@.len()),
        a.key_points.deep_view() == items@.map_values(|it: MessageItem| it.title@),
{
    let mut summary = String::from_str(
        "Nie udało się wygenerować podsumowania. Liczba wiadomości: ",
    );
    let count = usize_to_string(items.len());
    summary.append(count.as_str());
    let mut kps: Vec<String> = Vec::new();
    let n = items.len();
    for i in 0..n
        invariant
            n == items@.len(),
            kps@.len() == i,
            forall|j: int| 0 <= j < i ==> (#[trigger] kps@[j])@ == items@[j].title@,
    {
        kps.push(items[i].title.clone());
    }
    proof {
        assert(kps.deep_view() =~= items@.map_values(|it: MessageItem| it.title@));
    }
    Analysis { urgency: String::from_str("NORMALNE"), summary, key_points: kps }
}

/// The deterministic fallback analysis substituted when grade summarization
/// fails: one key point per grade with its subject and symbolic value.
pub fn fallback_grades(items: &Vec<GradeItem>) -> (a: Analysis)
    ensures
        a.urgency@ == "NORMALNE"@,
        a.summary@ == "Nie udało się wygenerować podsumowania. Liczba ocen: "@
            + spec_decimal_nat(items@.len()),
        a.key_points.deep_view() == items@.map_values(
            |it: GradeItem| spec_grade_point(it@),
        ),
{
    let mut summary = String::from_str(
        "Nie udało się wygenerować podsumowania. Liczba ocen: ",
    );
    let count = usize_to_string(items.len());
    summary.append(count.as_str());
    let mut kps: Vec<String> = Vec::new();
    let n = items.len();
    for i in 0..n
        invariant
            n == items@.len(),
            kps@.len() == i,
            forall|j: int| 0 <= j < i ==> (#[trigger] kps@[j])@ == spec_grade_point(
                items@[j]@,
            ),
    {
        let mut kp = String::from_str("📚 ");
        kp.append(items[i].subject.as_str());
        kp.append(" | ⭐ **");
        kp.append(items[i].value.as_str());
        kp.append("**");
        kps.push(kp);
    }
    proof {
        assert(kps.deep_view() =~= items@.map_values(|it: GradeItem| spec_grade_point(it@)));
    }
    Analysis { urgency: String::from_str("NORMALNE"), summary, key_points: kps }
}

/// The deterministic fallback analysis substituted when homework
/// summarization fails: one key point per assignment with its subject and
/// title.
pub fn fallback_homework(items: &Vec<HomeworkItem>) -> (a: Analysis)
    ensures
        a.urgency@ == "NORMALNE"@,
        a.summary@ == "Nie udało się wygenerować podsumowania. Liczba zadań domowych: "@
            + spec_decimal_nat(items@.len()),
        a.key_points.deep_view() == items@.map_values(
            |it: HomeworkItem| spec_homework_point(it@),
        ),
{
    let mut summary = String::from_str(
        "Nie udało się wygenerować podsumowania. Liczba zadań domowych: ",
    );
    let count = usize_to_string(items.len());
    summary.append(count.as_str());
    let mut kps: Vec<String> = Vec::new();
    let n = items.len();
    for i in 0..n
        invariant
            n == items@.len(),
            kps@.len() == i,
            forall|j: int| 0 <= j < i ==> (#[trigger] kps@[j])@ == spec_homework_point(
                items@[j]@,
            ),
    {
        let mut kp = String::from_str("📝 **");
        kp.append(items[i].subject.as_str());
        kp.append("** - ");
        kp.append(items[i].title.as_str());
        kps.push(kp);
    }
    proof {
        assert(kps.deep_view() =~= items@.map_values(
            |it: HomeworkItem| spec_homework_point(it@),
        ));
    }
    Analysis { urgency: String::from_str("NORMALNE"), summary, key_points: kps }
}

} // verus!
