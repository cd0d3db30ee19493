use vstd::prelude::*;

use crate::items::{RawGrade, RawHomework, RawMessage, RawNotice};
use crate::paginate::spec_call_count;
use crate::resolve::{reply_in, spec_resolved, LookupKind, LookupTable};
use crate::store::lemma_seq_add_contains;
use crate::sync::{
    ann_ids, ann_request_seq, first_occurrences, grade_ids_of, grade_request_seq, hw_ids_of,
    hw_request_seq, lemma_filter_none, lemma_first_occurrences_distinct, msg_ids,
    new_grade_pred, new_homework_pred, new_message_pred, new_notice_pred,
    spec_announcement_batch, spec_author_requests, spec_grade_batch, spec_grade_requests,
    spec_homework_batch, spec_homework_requests, spec_message_batch, spec_new_grades,
    spec_new_homeworks, spec_new_messages, spec_new_notices,
};
use crate::numbers::spec_decimal_int;

verus! {

/// Law: at-most-once persistence. A well-formed store never holds the same
/// id twice in any table; every store operation requires and preserves this.
pub proof fn lemma_at_most_once(s: crate::store::Store)
    requires
        s.wf(),
    ensures
        s.message_ids().no_duplicates(),
        s.announcement_ids().no_duplicates(),
        s.grade_ids().no_duplicates(),
        s.homework_ids().no_duplicates(),
{
}

/// Law: outbox suppression. Whatever the store holds, no item of a message
/// batch carries an id from the outbox set: a self-authored echo never
/// surfaces.
pub proof fn lemma_outbox_suppression(
    existing: Seq<Seq<char>>,
    outbox: Seq<Seq<char>>,
    recs: Seq<RawMessage>,
    i: int,
)
    requires
        0 <= i < spec_message_batch(existing, outbox, recs).len(),
    ensures
        !outbox.contains(spec_message_batch(existing, outbox, recs)[i].id),
{
    let pred = new_message_pred(existing, outbox);
    recs.lemma_filter_pred(pred, i);
}

/// Law: resolver memoization. The lookups one run issues are pairwise
/// distinct — at most one remote call per distinct foreign reference,
/// however many records reference it.
pub proof fn lemma_lookups_memoized(
    e_ann: Seq<Seq<char>>,
    notices: Seq<RawNotice>,
    e_grade: Seq<Seq<char>>,
    grades: Seq<RawGrade>,
    e_hw: Seq<Seq<char>>,
    homeworks: Seq<RawHomework>,
)
    ensures
        spec_author_requests(e_ann, notices).no_duplicates(),
        spec_grade_requests(e_grade, grades).no_duplicates(),
        spec_homework_requests(e_hw, homeworks).no_duplicates(),
{
    lemma_first_occurrences_distinct(ann_request_seq(e_ann, notices));
    lemma_first_occurrences_distinct(grade_request_seq(e_grade, grades));
    lemma_first_occurrences_distinct(hw_request_seq(e_hw, homeworks));
}

/// Law: resolver agreement. Two new notices whose author ids parse to the
/// same value receive the same resolved author name.
pub proof fn lemma_resolved_names_agree(
    existing: Seq<Seq<char>>,
    recs: Seq<RawNotice>,
    t: LookupTable,
    i: int,
    j: int,
)
    requires
        0 <= i < spec_announcement_batch(existing, recs, t).len(),
        0 <= j < spec_announcement_batch(existing, recs, t).len(),
        crate::numbers::spec_parsed_i32(spec_new_notices(existing, recs)[i].author_id@)
            == crate::numbers::spec_parsed_i32(spec_new_notices(existing, recs)[j].author_id@),
    ensures
        spec_announcement_batch(existing, recs, t)[i].author == spec_announcement_batch(
            existing,
            recs,
            t,
        )[j].author,
{
}

/// Law: resolver degradation. A failed or absent remote reply resolves to
/// exactly the fixed placeholder name.
pub proof fn lemma_resolution_degrades(t: LookupTable, kind: LookupKind, fid: i64)
    requires
        !(reply_in(t.replies@, kind, fid) matches Some(Some(_))),
    ensures
        spec_resolved(t, kind, fid) == "Nieznany"@,
{
}

/// Law: resolution failures never abort a run. The ids of a batch — and with
/// them the success condition, which is their distinctness — do not depend
/// on the remote replies at all.
pub proof fn lemma_abort_independent_of_replies(
    existing: Seq<Seq<char>>,
    recs: Seq<RawNotice>,
    t1: LookupTable,
    t2: LookupTable,
)
    ensures
        ann_ids(spec_announcement_batch(existing, recs, t1)) == ann_ids(
            spec_announcement_batch(existing, recs, t2),
        ),
{
    assert(ann_ids(spec_announcement_batch(existing, recs, t1)) =~= ann_ids(
        spec_announcement_batch(existing, recs, t2),
    ));
}

/// Law: resolution failures never abort a grade or homework run either:
/// their batch ids are the decimal renderings of the remote numeric ids,
/// independent of the remote replies.
pub proof fn lemma_abort_independent_of_replies_numeric(
    existing: Seq<Seq<char>>,
    grades: Seq<RawGrade>,
    homeworks: Seq<RawHomework>,
    t1: LookupTable,
    t2: LookupTable,
)
    ensures
        grade_ids_of(spec_grade_batch(existing, grades, t1)) == grade_ids_of(
            spec_grade_batch(existing, grades, t2),
        ),
        hw_ids_of(spec_homework_batch(existing, homeworks, t1)) == hw_ids_of(
            spec_homework_batch(existing, homeworks, t2),
        ),
{
    assert(grade_ids_of(spec_grade_batch(existing, grades, t1)) =~= grade_ids_of(
        spec_grade_batch(existing, grades, t2),
    ));
    assert(hw_ids_of(spec_homework_batch(existing, homeworks, t1)) =~= hw_ids_of(
        spec_homework_batch(existing, homeworks, t2),
    ));
}

/// Law: pagination termination. Pagination never issues more fetches than
/// the page ceiling.
pub proof fn lemma_pagination_bounded<T>(pages: Seq<Seq<T>>, limit: nat, max_pages: nat)
    ensures
        spec_call_count(pages, limit, max_pages) <= max_pages,
    decreases max_pages,
{
    if max_pages > 0 {
        let first: nat = if pages.len() == 0 {
            0
        } else {
            pages[0].len()
        };
        if !(first == 0 || first < limit) {
            lemma_pagination_bounded(pages.skip(1), limit, (max_pages - 1) as nat);
        }
    }
}

/// Every request stream over records whose ids are all stored is empty.
proof fn lemma_ann_requests_all_old(existing: Seq<Seq<char>>, recs: Seq<RawNotice>)
    requires
        forall|i: int| 0 <= i < recs.len() ==> existing.contains(#[trigger] recs[i].id@),
    ensures
        ann_request_seq(existing, recs).len() == 0,
    decreases recs.len(),
{
    if recs.len() > 0 {
        assert(existing.contains(recs[recs.len() - 1].id@));
        lemma_ann_requests_all_old(existing, recs.drop_last());
    }
}

/// Law: idempotence of the announcement run. Against the store state a
/// successful run leaves behind, a second run over the same notices yields
/// an empty batch and issues no lookups.
pub proof fn lemma_announcements_idempotent(
    e0: Seq<Seq<char>>,
    recs: Seq<RawNotice>,
    t: LookupTable,
)
    ensures
        spec_announcement_batch(
            e0 + ann_ids(spec_announcement_batch(e0, recs, t)),
            recs,
            t,
        ).len() == 0,
        spec_author_requests(e0 + ann_ids(spec_announcement_batch(e0, recs, t)), recs).len()
            == 0,
{
    let batch = spec_announcement_batch(e0, recs, t);
    let e1 = e0 + ann_ids(batch);
    assert forall|i: int| 0 <= i < recs.len() implies e1.contains(#[trigger] recs[i].id@) by {
        lemma_seq_add_contains(e0, ann_ids(batch), recs[i].id@);
        if !e0.contains(recs[i].id@) {
            recs.lemma_filter_contains(new_notice_pred(e0), i);
            let new = spec_new_notices(e0, recs);
            let j = choose|j: int| 0 <= j < new.len() && new[j] == recs[i];
            assert(ann_ids(batch)[j] == recs[i].id@);
        }
    }
    assert forall|i: int|
        0 <= i < recs.len() implies !(new_notice_pred(e1)(#[trigger] recs[i])) by {
        assert(e1.contains(recs[i].id@));
    }
    lemma_filter_none(recs, new_notice_pred(e1));
    lemma_ann_requests_all_old(e1, recs);
    assert(first_occurrences(ann_request_seq(e1, recs)).len() == 0);
}

/// Every message request over records that are all suppressed or stored is
/// filtered out.
proof fn lemma_msgs_all_old(
    existing: Seq<Seq<char>>,
    outbox: Seq<Seq<char>>,
    recs: Seq<RawMessage>,
)
    requires
        forall|i: int|
            0 <= i < recs.len() ==> existing.contains(#[trigger] recs[i].message_id@)
                || outbox.contains(recs[i].message_id@),
    ensures
        spec_new_messages(existing, outbox, recs).len() == 0,
{
    assert forall|i: int|
        0 <= i < recs.len() implies !(new_message_pred(existing, outbox)(
        #[trigger] recs[i],
    )) by {
        assert(existing.contains(recs[i].message_id@) || outbox.contains(
            recs[i].message_id@,
        ));
    }
    lemma_filter_none(recs, new_message_pred(existing, outbox));
}

/// Law: idempotence of the message run. Against the store state a successful
/// run leaves behind, a second run over the same inbox and outbox yields an
/// empty batch.
pub proof fn lemma_messages_idempotent(
    e0: Seq<Seq<char>>,
    outbox: Seq<Seq<char>>,
    recs: Seq<RawMessage>,
)
    ensures
        spec_message_batch(
            e0 + msg_ids(spec_message_batch(e0, outbox, recs)),
            outbox,
            recs,
        ).len() == 0,
{
    let batch = spec_message_batch(e0, outbox, recs);
    let e1 = e0 + msg_ids(batch);
    assert forall|i: int|
        0 <= i < recs.len() implies e1.contains(#[trigger] recs[i].message_id@)
            || outbox.contains(recs[i].message_id@) by {
        lemma_seq_add_contains(e0, msg_ids(batch), recs[i].message_id@);
        if !e0.contains(recs[i].message_id@) && !outbox.contains(recs[i].message_id@) {
            recs.lemma_filter_contains(new_message_pred(e0, outbox), i);
            let new = spec_new_messages(e0, outbox, recs);
            let j = choose|j: int| 0 <= j < new.len() && new[j] == recs[i];
            assert(msg_ids(batch)[j] == recs[i].message_id@);
        }
    }
    lemma_msgs_all_old(e1, outbox, recs);
}

/// Every grade request stream over records whose ids are all stored is empty.
proof fn lemma_grade_requests_all_old(existing: Seq<Seq<char>>, recs: Seq<RawGrade>)
    requires
        forall|i: int|
            0 <= i < recs.len() ==> existing.contains(
                spec_decimal_int((#[trigger] recs[i]).id as int),
            ),
    ensures
        grade_request_seq(existing, recs).len() == 0,
    decreases recs.len(),
{
    if recs.len() > 0 {
        assert(existing.contains(spec_decimal_int(recs[recs.len() - 1].id as int)));
        lemma_grade_requests_all_old(existing, recs.drop_last());
    }
}

/// Law: idempotence of the grade run. Against the store state a successful
/// run leaves behind, a second run over the same grades yields an empty
/// batch and issues no lookups.
pub proof fn lemma_grades_idempotent(e0: Seq<Seq<char>>, recs: Seq<RawGrade>, t: LookupTable)
    ensures
        spec_grade_batch(e0 + grade_ids_of(spec_grade_batch(e0, recs, t)), recs, t).len()
            == 0,
        spec_grade_requests(e0 + grade_ids_of(spec_grade_batch(e0, recs, t)), recs).len()
            == 0,
{
    let batch = spec_grade_batch(e0, recs, t);
    let e1 = e0 + grade_ids_of(batch);
    assert forall|i: int|
        0 <= i < recs.len() implies e1.contains(
        spec_decimal_int((#[trigger] recs[i]).id as int),
    ) by {
        lemma_seq_add_contains(e0, grade_ids_of(batch), spec_decimal_int(recs[i].id as int));
        if !e0.contains(spec_decimal_int(recs[i].id as int)) {
            recs.lemma_filter_contains(new_grade_pred(e0), i);
            let new = spec_new_grades(e0, recs);
            let j = choose|j: int| 0 <= j < new.len() && new[j] == recs[i];
            assert(grade_ids_of(batch)[j] == spec_decimal_int(recs[i].id as int));
        }
    }
    assert forall|i: int|
        0 <= i < recs.len() implies !(new_grade_pred(e1)(#[trigger] recs[i])) by {
        assert(e1.contains(spec_decimal_int(recs[i].id as int)));
    }
    lemma_filter_none(recs, new_grade_pred(e1));
    lemma_grade_requests_all_old(e1, recs);
    assert(first_occurrences(grade_request_seq(e1, recs)).len() == 0);
}

/// Every homework request stream over records whose ids are all stored is
/// empty.
proof fn lemma_hw_requests_all_old(existing: Seq<Seq<char>>, recs: Seq<RawHomework>)
    requires
        forall|i: int|
            0 <= i < recs.len() ==> existing.contains(
                spec_decimal_int((#[trigger] recs[i]).id as int),
            ),
    ensures
        hw_request_seq(existing, recs).len() == 0,
    decreases recs.len(),
{
    if recs.len() > 0 {
        assert(existing.contains(spec_decimal_int(recs[recs.len() - 1].id as int)));
        lemma_hw_requests_all_old(existing, recs.drop_last());
    }
}

/// Law: idempotence of the homework run. Against the store state a
/// successful run leaves behind, a second run over the same records yields
/// an empty batch and issues no lookups.
pub proof fn lemma_homeworks_idempotent(
    e0: Seq<Seq<char>>,
    recs: Seq<RawHomework>,
    t: LookupTable,
)
    ensures
        spec_homework_batch(e0 + hw_ids_of(spec_homework_batch(e0, recs, t)), recs, t).len()
            == 0,
        spec_homework_requests(e0 + hw_ids_of(spec_homework_batch(e0, recs, t)), recs).len()
            == 0,
{
    let batch = spec_homework_batch(e0, recs, t);
    let e1 = e0 + hw_ids_of(batch);
    assert forall|i: int|
        0 <= i < recs.len() implies e1.contains(
        spec_decimal_int((#[trigger] recs[i]).id as int),
    ) by {
        lemma_seq_add_contains(e0, hw_ids_of(batch), spec_decimal_int(recs[i].id as int));
        if !e0.contains(spec_decimal_int(recs[i].id as int)) {
            recs.lemma_filter_contains(new_homework_pred(e0), i);
            let new = spec_new_homeworks(e0, recs);
            let j = choose|j: int| 0 <= j < new.len() && new[j] == recs[i];
            assert(hw_ids_of(batch)[j] == spec_decimal_int(recs[i].id as int));
        }
    }
    assert forall|i: int|
        0 <= i < recs.len() implies !(new_homework_pred(e1)(#[trigger] recs[i])) by {
        assert(e1.contains(spec_decimal_int(recs[i].id as int)));
    }
    lemma_filter_none(recs, new_homework_pred(e1));
    lemma_hw_requests_all_old(e1, recs);
    assert(first_occurrences(hw_request_seq(e1, recs)).len() == 0);
}

} // verus!
