use vstd::prelude::*;

use crate::items::{AnnouncementItem, AnnouncementItemView, GradeItem, GradeItemView, HomeworkItem, HomeworkItemView, MessageItem, MessageItemView, RawGrade, RawHomework, RawMessage, RawNotice};
use crate::numbers::{i64_to_string, parse_i32, spec_decimal_int, spec_parsed_i32};
use crate::remote::{decode_message_content, notice_content_to_text, notice_text_of, spec_message_body};
use crate::resolve::{reply_in, resolve_name, spec_resolved, LookupKind, LookupTable, ResolverCache};
use crate::title::{derive_title, spec_title};
use crate::store::{id_in, ids_of, lemma_seq_add_contains, Store, StoreError};
use crate::unknown_name;

verus! {

/// The first occurrence of each element, in order of first need: the lookups
/// a memoizing cache actually issues when the elements are requested in
/// sequence.
pub open spec fn first_occurrences<T>(s: Seq<T>) -> Seq<T>
    decreases s.len(),
{
    if s.len() == 0 {
        s
    } else {
        let p = first_occurrences(s.drop_last());
        if p.contains(s.last()) {
            p
        } else {
            p.push(s.last())
        }
    }
}

/// What a memoizing cache issues is duplicate-free: no foreign reference is
/// ever looked up twice in one run.
pub proof fn lemma_first_occurrences_distinct<T>(s: Seq<T>)
    ensures
        first_occurrences(s).no_duplicates(),
    decreases s.len(),
{
    if s.len() > 0 {
        lemma_first_occurrences_distinct(s.drop_last());
        let p = first_occurrences(s.drop_last());
        if !p.contains(s.last()) {
            let q = p.push(s.last());
            assert forall|i: int, j: int|
                0 <= i < q.len() && 0 <= j < q.len() && i != j implies q[i] != q[j] by {
                if i < p.len() && j < p.len() {
                } else if j == p.len() {
                    if q[i] == q[j] {
                        assert(p[i] == s.last());
                    }
                } else {
                    if q[i] == q[j] {
                        assert(p[j] == s.last());
                    }
                }
            }
        }
    }
}

/// Filtering with a predicate that holds nowhere yields nothing.
pub proof fn lemma_filter_none<T>(s: Seq<T>, p: spec_fn(T) -> bool)
    requires
        forall|i: int| 0 <= i < s.len() ==> !p(#[trigger] s[i]),
    ensures
        s.filter(p).len() == 0,
    decreases s.len(),
{
    reveal(Seq::filter);
    if s.len() > 0 {
        lemma_filter_none(s.drop_last(), p);
        assert(!p(s[s.len() - 1]));
    }
}

/// Which raw notices count as new against the stored announcement ids.
pub open spec fn new_notice_pred(existing: Seq<Seq<char>>) -> spec_fn(RawNotice) -> bool {
    |r: RawNotice| !existing.contains(r.id@)
}

/// The raw notices not yet stored, in fetch order.
pub open spec fn spec_new_notices(existing: Seq<Seq<char>>, recs: Seq<RawNotice>) -> Seq<
    RawNotice,
> {
    recs.filter(new_notice_pred(existing))
}

/// The announcement built from one raw notice under the remote replies `t`:
/// the author is the resolved name of the parsed author id, or the fixed
/// placeholder when the id does not parse.
pub open spec fn spec_announcement_item(r: RawNotice, t: LookupTable) -> AnnouncementItemView {
    AnnouncementItemView {
        id: r.id@,
        title: r.subject@,
        content: notice_text_of(r.content@),
        date: r.creation_date@,
        author: match spec_parsed_i32(r.author_id@) {
            Some(v) => crate::resolve::spec_resolved(t, LookupKind::Author, v as i64),
            None => "Nieznany"@,
        },
    }
}

/// The item each new notice maps to.
pub open spec fn ann_item_fn(t: LookupTable) -> spec_fn(RawNotice) -> AnnouncementItemView {
    |r: RawNotice| spec_announcement_item(r, t)
}

/// The batch one announcement run produces: every notice not yet stored,
/// in fetch order, enriched with its resolved author name.
pub open spec fn spec_announcement_batch(
    existing: Seq<Seq<char>>,
    recs: Seq<RawNotice>,
    t: LookupTable,
) -> Seq<AnnouncementItemView> {
    spec_new_notices(existing, recs).map_values(ann_item_fn(t))
}

/// The ids of a sequence of announcement items.
pub open spec fn ann_ids(items: Seq<AnnouncementItemView>) -> Seq<Seq<char>> {
    items.map_values(|it: AnnouncementItemView| it.id)
}

/// The author resolutions an announcement run requests, in request order:
/// one entry per new notice whose author id parses, duplicates included.
pub open spec fn ann_request_seq(existing: Seq<Seq<char>>, recs: Seq<RawNotice>) -> Seq<
    (LookupKind, i64),
>
    decreases recs.len(),
{
    if recs.len() == 0 {
        Seq::empty()
    } else {
        let p = ann_request_seq(existing, recs.drop_last());
        if existing.contains(recs.last().id@) {
            p
        } else {
            match spec_parsed_i32(recs.last().author_id@) {
                Some(v) => p.push((LookupKind::Author, v as i64)),
                None => p,
            }
        }
    }
}

/// The distinct author lookups an announcement run issues.
pub open spec fn spec_author_requests(existing: Seq<Seq<char>>, recs: Seq<RawNotice>) -> Seq<
    (LookupKind, i64),
> {
    first_occurrences(ann_request_seq(existing, recs))
}

/// Synchronize announcements: walk the fetched notices in order, skip those
/// whose id the store already holds, resolve each new notice's author through
/// the per-run memoizing cache against the remote replies in `table`, append
/// each new item to the store, and return the batch of new items together
/// with the exact number of author lookups issued.
///
/// The run succeeds exactly when the new notices carry pairwise distinct ids;
/// a repeated id aborts at the first repeat with `DuplicateId`, leaving the
/// items before it appended.
pub fn fetch_new_announcements(
    store: &mut Store,
    notices: &Vec<RawNotice>,
    table: &LookupTable,
) -> (r: Result<(Vec<AnnouncementItem>, usize), StoreError>)
    requires
        old(store).wf(),
    ensures
        final(store).wf(),
        final(store).msg_seed == old(store).msg_seed,
        final(store).msg_rows == old(store).msg_rows,
        final(store).grade_seed == old(store).grade_seed,
        final(store).grade_rows == old(store).grade_rows,
        final(store).hw_seed == old(store).hw_seed,
        final(store).hw_rows == old(store).hw_rows,
        final(store).ann_seed == old(store).ann_seed,
        ({
            let batch = spec_announcement_batch(
                old(store).announcement_ids(),
                notices@,
                *table,
            );
            match r {
                Ok(out) => {
                    &&& ann_ids(batch).no_duplicates()
                    &&& out.0.deep_view() == batch
                    &&& out.1 as nat == spec_author_requests(
                        old(store).announcement_ids(),
                        notices@,
                    ).len()
                    &&& final(store).announcement_ids() == old(store).announcement_ids()
                        + ann_ids(batch)
                    &&& final(store).ann_rows@.len() == old(store).ann_rows@.len()
                        + batch.len()
                    &&& forall|k: int|
                        0 <= k < old(store).ann_rows@.len() ==> final(store).ann_rows@[k]
                            == old(store).ann_rows@[k]
                    &&& forall|k: int|
                        0 <= k < batch.len() ==> (#[trigger] final(store).ann_rows@[old(
                            store,
                        ).ann_rows@.len() + k]).item@ == batch[k]
                },
                Err(e) => {
                    &&& e == StoreError::DuplicateId
                    &&& !ann_ids(batch).no_duplicates()
                    &&& exists|k: int|
                        0 <= k <= batch.len() && final(store).announcement_ids() == old(
                            store,
                        ).announcement_ids() + ann_ids(batch).take(k)
                },
            }
        }),
{
    let ghost e0 = old(store).announcement_ids();
    let existing = store.existing_announcement_ids();
    let mut cache = ResolverCache::new();
    let mut batch: Vec<AnnouncementItem> = Vec::new();
    let n = notices.len();
    proof {
        assert(notices@.take(0) =~= Seq::<RawNotice>::empty());
        assert(spec_new_notices(e0, Seq::<RawNotice>::empty()).len() == 0);
        assert(batch.deep_view() =~= spec_announcement_batch(e0, notices@.take(0), *table));
        assert(ann_request_seq(e0, notices@.take(0)) =~= Seq::<(LookupKind, i64)>::empty());
        assert(cache.pairs() =~= first_occurrences(ann_request_seq(e0, notices@.take(0))));
        assert(store.announcement_ids() =~= e0 + ann_ids(batch.deep_view()));
    }
    for i in 0..n
        invariant
            n == notices@.len(),
            store.wf(),
            e0 == old(store).announcement_ids(),
            ids_of(existing@) == e0,
            cache.coherent(*table),
            cache.pairs() == first_occurrences(ann_request_seq(e0, notices@.take(i as int))),
            batch.deep_view() == spec_announcement_batch(e0, notices@.take(i as int), *table),
            store.announcement_ids() == e0 + ann_ids(batch.deep_view()),
            store.ann_seed == old(store).ann_seed,
            store.ann_rows@.len() == old(store).ann_rows@.len() + batch@.len(),
            forall|k: int|
                0 <= k < old(store).ann_rows@.len() ==> store.ann_rows@[k] == old(
                    store,
                ).ann_rows@[k],
            forall|k: int|
                0 <= k < batch@.len() ==> (#[trigger] store.ann_rows@[old(
                    store,
                ).ann_rows@.len() + k]).item == batch@[k],
            store.msg_seed == old(store).msg_seed,
            store.msg_rows == old(store).msg_rows,
            store.grade_seed == old(store).grade_seed,
            store.grade_rows == old(store).grade_rows,
            store.hw_seed == old(store).hw_seed,
            store.hw_rows == old(store).hw_rows,
    {
        let rec = &notices[i];
        let ghost prefix = notices@.take(i as int);
        proof {
            assert(notices@.take(i as int + 1).drop_last() =~= prefix);
            assert(notices@.take(i as int + 1) =~= prefix.push(*rec));
        }
        let is_old = id_in(&existing, &rec.id);
        if !is_old {
            let ghost pairs0 = cache.pairs();
            let author = match parse_i32(rec.author_id.as_str()) {
                Some(aid) => resolve_name(&mut cache, table, LookupKind::Author, aid as i64),
                None => unknown_name(),
            };
            proof {
                let reqs1 = ann_request_seq(e0, notices@.take(i as int + 1));
                match spec_parsed_i32(rec.author_id@) {
                    Some(v) => {
                        assert(reqs1 == ann_request_seq(e0, prefix).push(
                            (LookupKind::Author, v as i64),
                        ));
                        assert(reqs1.drop_last() =~= ann_request_seq(e0, prefix));
                        assert(cache.pairs() == first_occurrences(reqs1));
                    },
                    None => {
                        assert(reqs1 == ann_request_seq(e0, prefix));
                        assert(cache.pairs() == first_occurrences(reqs1));
                    },
                }
            }
            let item = AnnouncementItem {
                id: rec.id.clone(),
                title: rec.subject.clone(),
                content: notice_content_to_text(rec.content.as_str()),
                date: rec.creation_date.clone(),
                author,
            };
            proof {
                assert(item@ == spec_announcement_item(*rec, *table));
            }
            let ghost bviews = batch.deep_view();
            match store.save_announcement(&item) {
                Ok(()) => {
                    batch.push(item);
                    proof {
                        prefix.lemma_filter_push(*rec, new_notice_pred(e0));
                        assert(batch.deep_view() =~= bviews.push(
                            spec_announcement_item(*rec, *table),
                        ));
                        assert(spec_announcement_batch(
                            e0,
                            notices@.take(i as int + 1),
                            *table,
                        ) =~= bviews.push(spec_announcement_item(*rec, *table)));
                        assert(store.announcement_ids() =~= e0 + ann_ids(
                            batch.deep_view(),
                        ));
                        assert forall|k: int|
                            0 <= k < batch@.len() implies (#[trigger] store.ann_rows@[old(
                            store,
                        ).ann_rows@.len() + k]).item == batch@[k] by {
                            if k < batch@.len() - 1 {
                                assert(store.ann_rows@[old(store).ann_rows@.len() + k]
                                    == store.ann_rows@.drop_last()[old(
                                    store,
                                ).ann_rows@.len() + k]);
                            } else {
                                assert(store.ann_rows@[old(store).ann_rows@.len() + k]
                                    == store.ann_rows@.last());
                            }
                        }
                    }
                },
                Err(e) => {
                    proof {
                        lemma_announcement_dup_abort(
                            e0,
                            notices@,
                            *table,
                            i as int,
                            bviews,
                            store.announcement_ids(),
                        );
                    }
                    return Err(e);
                },
            }
        } else {
            proof {
                prefix.lemma_filter_push(*rec, new_notice_pred(e0));
                assert(spec_new_notices(e0, notices@.take(i as int + 1)) == spec_new_notices(
                    e0,
                    prefix,
                ));
                assert(ann_request_seq(e0, notices@.take(i as int + 1)) == ann_request_seq(
                    e0,
                    prefix,
                ));
            }
        }
    }
    proof {
        assert(notices@.take(n as int) =~= notices@);
        let whole = e0 + ann_ids(batch.deep_view());
        assert forall|k1: int, k2: int|
            0 <= k1 < ann_ids(batch.deep_view()).len() && 0 <= k2 < ann_ids(
                batch.deep_view(),
            ).len() && k1 != k2 implies ann_ids(batch.deep_view())[k1] != ann_ids(
            batch.deep_view(),
        )[k2] by {
            assert(whole[e0.len() + k1] == ann_ids(batch.deep_view())[k1]);
            assert(whole[e0.len() + k2] == ann_ids(batch.deep_view())[k2]);
        }
    }
    let count = cache.entries.len();
    Ok((batch, count))
}

/// Whether a lookup pair occurs in the plan built so far.
fn pair_in(v: &Vec<(LookupKind, i64)>, kind: LookupKind, fid: i64) -> (r: bool)
    ensures
        r == v@.contains((kind, fid)),
{
    let n = v.len();
    for i in 0..n
        invariant
            n == v@.len(),
            forall|j: int| 0 <= j < i ==> v@[j] != (kind, fid),
    {
        let p = v[i];
        if p.0 == kind && p.1 == fid {
            return true;
        }
    }
    proof {
        if v@.contains((kind, fid)) {
            let j = choose|j: int| 0 <= j < v@.len() && v@[j] == (kind, fid);
        }
    }
    false
}

/// Whether a foreign id occurs in the plan built so far.
fn fid_in(v: &Vec<i64>, fid: i64) -> (r: bool)
    ensures
        r == v@.contains(fid),
{
    let n = v.len();
    for i in 0..n
        invariant
            n == v@.len(),
            forall|j: int| 0 <= j < i ==> v@[j] != fid,
    {
        if v[i] == fid {
            return true;
        }
    }
    proof {
        if v@.contains(fid) {
            let j = choose|j: int| 0 <= j < v@.len() && v@[j] == fid;
        }
    }
    false
}

/// Plan the author lookups an announcement run will issue: the distinct
/// parsed author ids of the notices not yet stored, in first-need order.
/// The surrounding application fetches exactly these before running the
/// orchestration.
pub fn plan_author_lookups(existing: &Vec<String>, notices: &Vec<RawNotice>) -> (r: Vec<
    (LookupKind, i64),
>)
    ensures
        r@ == spec_author_requests(ids_of(existing@), notices@),
{
    let ghost e0 = ids_of(existing@);
    let mut out: Vec<(LookupKind, i64)> = Vec::new();
    let n = notices.len();
    proof {
        assert(notices@.take(0) =~= Seq::<RawNotice>::empty());
        assert(out@ =~= first_occurrences(ann_request_seq(e0, notices@.take(0))));
    }
    for i in 0..n
        invariant
            n == notices@.len(),
            e0 == ids_of(existing@),
            out@ == first_occurrences(ann_request_seq(e0, notices@.take(i as int))),
    {
        let rec = &notices[i];
        let ghost prefix = notices@.take(i as int);
        proof {
            assert(notices@.take(i as int + 1).drop_last() =~= prefix);
            assert(notices@.take(i as int + 1) =~= prefix.push(*rec));
        }
        if !id_in(existing, &rec.id) {
            match parse_i32(rec.author_id.as_str()) {
                Some(aid) => {
                    let fid = aid as i64;
                    if !pair_in(&out, LookupKind::Author, fid) {
                        out.push((LookupKind::Author, fid));
                    }
                    proof {
                        let q1 = ann_request_seq(e0, prefix).push((LookupKind::Author, fid));
                        assert(q1.drop_last() =~= ann_request_seq(e0, prefix));
                        assert(ann_request_seq(e0, notices@.take(i as int + 1)) == q1);
                        assert(out@ == first_occurrences(q1));
                    }
                },
                None => {
                    proof {
                        assert(ann_request_seq(e0, notices@.take(i as int + 1))
                            == ann_request_seq(e0, prefix));
                    }
                },
            }
        } else {
            proof {
                assert(ann_request_seq(e0, notices@.take(i as int + 1)) == ann_request_seq(
                    e0,
                    prefix,
                ));
            }
        }
    }
    proof {
        assert(notices@.take(n as int) =~= notices@);
    }
    out
}

/// The comment lookups a grade run will make, in request order: the first
/// comment reference of each new grade that has one, duplicates included.
pub open spec fn grade_comment_request_seq(existing: Seq<Seq<char>>, recs: Seq<RawGrade>) -> Seq<
    i64,
>
    decreases recs.len(),
{
    if recs.len() == 0 {
        Seq::empty()
    } else {
        let p = grade_comment_request_seq(existing, recs.drop_last());
        if existing.contains(spec_decimal_int(recs.last().id as int)) {
            p
        } else if recs.last().comment_ids@.len() > 0 {
            p.push(recs.last().comment_ids@[0])
        } else {
            p
        }
    }
}

/// Plan the lookups a grade run will issue: the distinct subject references
/// of the grades not yet stored, and the distinct first-comment references,
/// each in first-need order.
pub fn plan_grade_lookups(existing: &Vec<String>, grades: &Vec<RawGrade>) -> (r: (
    Vec<(LookupKind, i64)>,
    Vec<i64>,
))
    ensures
        r.0@ == spec_grade_requests(ids_of(existing@), grades@),
        r.1@ == first_occurrences(grade_comment_request_seq(ids_of(existing@), grades@)),
{
    let ghost e0 = ids_of(existing@);
    let mut subjects: Vec<(LookupKind, i64)> = Vec::new();
    let mut comments: Vec<i64> = Vec::new();
    let n = grades.len();
    proof {
        assert(grades@.take(0) =~= Seq::<RawGrade>::empty());
        assert(subjects@ =~= first_occurrences(grade_request_seq(e0, grades@.take(0))));
        assert(comments@ =~= first_occurrences(
            grade_comment_request_seq(e0, grades@.take(0)),
        ));
    }
    for i in 0..n
        invariant
            n == grades@.len(),
            e0 == ids_of(existing@),
            subjects@ == first_occurrences(grade_request_seq(e0, grades@.take(i as int))),
            comments@ == first_occurrences(
                grade_comment_request_seq(e0, grades@.take(i as int)),
            ),
    {
        let rec = &grades[i];
        let ghost prefix = grades@.take(i as int);
        proof {
            assert(grades@.take(i as int + 1).drop_last() =~= prefix);
            assert(grades@.take(i as int + 1) =~= prefix.push(*rec));
        }
        let id_str = i64_to_string(rec.id);
        if !id_in(existing, &id_str) {
            if !pair_in(&subjects, LookupKind::Subject, rec.subject_id) {
                subjects.push((LookupKind::Subject, rec.subject_id));
            }
            proof {
                let q1 = grade_request_seq(e0, prefix).push(
                    (LookupKind::Subject, rec.subject_id),
                );
                assert(q1.drop_last() =~= grade_request_seq(e0, prefix));
                assert(grade_request_seq(e0, grades@.take(i as int + 1)) == q1);
                assert(subjects@ == first_occurrences(q1));
            }
            if rec.comment_ids.len() > 0 {
                let cid = rec.comment_ids[0];
                if !fid_in(&comments, cid) {
                    comments.push(cid);
                }
                proof {
                    let c1 = grade_comment_request_seq(e0, prefix).push(cid);
                    assert(c1.drop_last() =~= grade_comment_request_seq(e0, prefix));
                    assert(grade_comment_request_seq(e0, grades@.take(i as int + 1)) == c1);
                    assert(comments@ == first_occurrences(c1));
                }
            } else {
                proof {
                    assert(grade_comment_request_seq(e0, grades@.take(i as int + 1))
                        == grade_comment_request_seq(e0, prefix));
                }
            }
        } else {
            proof {
                assert(grade_request_seq(e0, grades@.take(i as int + 1)) == grade_request_seq(
                    e0,
                    prefix,
                ));
                assert(grade_comment_request_seq(e0, grades@.take(i as int + 1))
                    == grade_comment_request_seq(e0, prefix));
            }
        }
    }
    proof {
        assert(grades@.take(n as int) =~= grades@);
    }
    (subjects, comments)
}

/// Plan the lookups a homework run will issue: for each record not yet
/// stored, its subject reference when present, then its teacher reference,
/// distinct pairs in first-need order.
pub fn plan_homework_lookups(existing: &Vec<String>, homeworks: &Vec<RawHomework>) -> (r: Vec<
    (LookupKind, i64),
>)
    ensures
        r@ == spec_homework_requests(ids_of(existing@), homeworks@),
{
    let ghost e0 = ids_of(existing@);
    let mut out: Vec<(LookupKind, i64)> = Vec::new();
    let n = homeworks.len();
    proof {
        assert(homeworks@.take(0) =~= Seq::<RawHomework>::empty());
        assert(out@ =~= first_occurrences(hw_request_seq(e0, homeworks@.take(0))));
    }
    for i in 0..n
        invariant
            n == homeworks@.len(),
            e0 == ids_of(existing@),
            out@ == first_occurrences(hw_request_seq(e0, homeworks@.take(i as int))),
    {
        let rec = &homeworks[i];
        let ghost prefix = homeworks@.take(i as int);
        proof {
            assert(homeworks@.take(i as int + 1).drop_last() =~= prefix);
            assert(homeworks@.take(i as int + 1) =~= prefix.push(*rec));
        }
        let id_str = i64_to_string(rec.id);
        if !id_in(existing, &id_str) {
            let ghost p0 = hw_request_seq(e0, prefix);
            match rec.subject_id {
                Some(sid) => {
                    if !pair_in(&out, LookupKind::Subject, sid) {
                        out.push((LookupKind::Subject, sid));
                    }
                    proof {
                        let q1 = p0.push((LookupKind::Subject, sid));
                        assert(q1.drop_last() =~= p0);
                        assert(out@ == first_occurrences(q1));
                    }
                },
                None => {},
            }
            let ghost q1 = match rec.subject_id {
                Some(sid) => p0.push((LookupKind::Subject, sid)),
                None => p0,
            };
            if !pair_in(&out, LookupKind::Teacher, rec.teacher_id) {
                out.push((LookupKind::Teacher, rec.teacher_id));
            }
            proof {
                let q2 = q1.push((LookupKind::Teacher, rec.teacher_id));
                assert(q2.drop_last() =~= q1);
                assert(hw_request_seq(e0, homeworks@.take(i as int + 1)) == q2);
                assert(out@ == first_occurrences(q2));
            }
        } else {
            proof {
                assert(hw_request_seq(e0, homeworks@.take(i as int + 1)) == hw_request_seq(
                    e0,
                    prefix,
                ));
            }
        }
    }
    proof {
        assert(homeworks@.take(n as int) =~= homeworks@);
    }
    out
}

/// Which inbox records count as new: self-authored echoes (ids in the outbox
/// set) are suppressed first, then ids the store already holds.
pub open spec fn new_message_pred(
    existing: Seq<Seq<char>>,
    outbox: Seq<Seq<char>>,
) -> spec_fn(RawMessage) -> bool {
    |r: RawMessage| !outbox.contains(r.message_id@) && !existing.contains(r.message_id@)
}

/// The inbox records that survive outbox reconciliation and store dedup.
pub open spec fn spec_new_messages(
    existing: Seq<Seq<char>>,
    outbox: Seq<Seq<char>>,
    recs: Seq<RawMessage>,
) -> Seq<RawMessage> {
    recs.filter(new_message_pred(existing, outbox))
}

/// The message built from one inbox record: the body is the decoded content,
/// or empty when decoding fails.
pub open spec fn spec_message_item(r: RawMessage) -> MessageItemView {
    MessageItemView {
        id: r.message_id@,
        title: r.topic@,
        body: spec_message_body(r.content@),
        date: r.send_date@,
        user: r.sender_name@,
    }
}

/// The item each surviving inbox record maps to.
pub open spec fn msg_item_fn() -> spec_fn(RawMessage) -> MessageItemView {
    |r: RawMessage| spec_message_item(r)
}

/// The batch one message run produces: every inbox record that is neither a
/// self-authored echo nor already stored, in fetch order.
pub open spec fn spec_message_batch(
    existing: Seq<Seq<char>>,
    outbox: Seq<Seq<char>>,
    recs: Seq<RawMessage>,
) -> Seq<MessageItemView> {
    spec_new_messages(existing, outbox, recs).map_values(msg_item_fn())
}

/// The ids of a sequence of message items.
pub open spec fn msg_ids(items: Seq<MessageItemView>) -> Seq<Seq<char>> {
    items.map_values(|it: MessageItemView| it.id)
}

/// Synchronize messages: walk the fetched inbox records in order, suppress
/// every record whose id appears in the outbox id set (a self-authored echo
/// is never notification-worthy, whatever the store holds), skip ids the
/// store already holds, decode each surviving body, append each new item to
/// the store, and return the batch of new items.
///
/// The run succeeds exactly when the surviving records carry pairwise
/// distinct ids; a repeated id aborts at the first repeat with `DuplicateId`,
/// leaving the items before it appended.
pub fn fetch_new_messages(
    store: &mut Store,
    inbox: &Vec<RawMessage>,
    outbox_ids: &Vec<String>,
) -> (r: Result<Vec<MessageItem>, StoreError>)
    requires
        old(store).wf(),
    ensures
        final(store).wf(),
        final(store).ann_seed == old(store).ann_seed,
        final(store).ann_rows == old(store).ann_rows,
        final(store).grade_seed == old(store).grade_seed,
        final(store).grade_rows == old(store).grade_rows,
        final(store).hw_seed == old(store).hw_seed,
        final(store).hw_rows == old(store).hw_rows,
        final(store).msg_seed == old(store).msg_seed,
        ({
            let batch = spec_message_batch(
                old(store).message_ids(),
                ids_of(outbox_ids@),
                inbox@,
            );
            match r {
                Ok(out) => {
                    &&& msg_ids(batch).no_duplicates()
                    &&& out.deep_view() == batch
                    &&& final(store).message_ids() == old(store).message_ids() + msg_ids(
                        batch,
                    )
                    &&& final(store).msg_rows@.len() == old(store).msg_rows@.len()
                        + batch.len()
                    &&& forall|k: int|
                        0 <= k < old(store).msg_rows@.len() ==> final(store).msg_rows@[k]
                            == old(store).msg_rows@[k]
                    &&& forall|k: int|
                        0 <= k < batch.len() ==> (#[trigger] final(store).msg_rows@[old(
                            store,
                        ).msg_rows@.len() + k]).item@ == batch[k]
                },
                Err(e) => {
                    &&& e == StoreError::DuplicateId
                    &&& !msg_ids(batch).no_duplicates()
                    &&& exists|k: int|
                        0 <= k <= batch.len() && final(store).message_ids() == old(
                            store,
                        ).message_ids() + msg_ids(batch).take(k)
                },
            }
        }),
{
    let ghost e0 = old(store).message_ids();
    let ghost ob = ids_of(outbox_ids@);
    let existing = store.existing_message_ids();
    let mut batch: Vec<MessageItem> = Vec::new();
    let n = inbox.len();
    proof {
        assert(inbox@.take(0) =~= Seq::<RawMessage>::empty());
        assert(spec_new_messages(e0, ob, Seq::<RawMessage>::empty()).len() == 0);
        assert(batch.deep_view() =~= spec_message_batch(e0, ob, inbox@.take(0)));
        assert(store.message_ids() =~= e0 + msg_ids(batch.deep_view()));
    }
    for i in 0..n
        invariant
            n == inbox@.len(),
            store.wf(),
            e0 == old(store).message_ids(),
            ob == ids_of(outbox_ids@),
            ids_of(existing@) == e0,
            batch.deep_view() == spec_message_batch(e0, ob, inbox@.take(i as int)),
            store.message_ids() == e0 + msg_ids(batch.deep_view()),
            store.msg_seed == old(store).msg_seed,
            store.msg_rows@.len() == old(store).msg_rows@.len() + batch@.len(),
            forall|k: int|
                0 <= k < old(store).msg_rows@.len() ==> store.msg_rows@[k] == old(
                    store,
                ).msg_rows@[k],
            forall|k: int|
                0 <= k < batch@.len() ==> (#[trigger] store.msg_rows@[old(
                    store,
                ).msg_rows@.len() + k]).item == batch@[k],
            store.ann_seed == old(store).ann_seed,
            store.ann_rows == old(store).ann_rows,
            store.grade_seed == old(store).grade_seed,
            store.grade_rows == old(store).grade_rows,
            store.hw_seed == old(store).hw_seed,
            store.hw_rows == old(store).hw_rows,
    {
        let rec = &inbox[i];
        let ghost prefix = inbox@.take(i as int);
        proof {
            assert(inbox@.take(i as int + 1).drop_last() =~= prefix);
            assert(inbox@.take(i as int + 1) =~= prefix.push(*rec));
        }
        let in_outbox = id_in(outbox_ids, &rec.message_id);
        let is_old = if in_outbox {
            true
        } else {
            id_in(&existing, &rec.message_id)
        };
        if !is_old {
            let body = match decode_message_content(rec.content.as_str()) {
                Some(b) => b,
                None => String::new(),
            };
            let item = MessageItem {
                id: rec.message_id.clone(),
                title: rec.topic.clone(),
                body,
                date: rec.send_date.clone(),
                user: rec.sender_name.clone(),
            };
            proof {
                assert(item@ == spec_message_item(*rec));
            }
            let ghost bviews = batch.deep_view();
            match store.save_message(&item) {
                Ok(()) => {
                    batch.push(item);
                    proof {
                        prefix.lemma_filter_push(*rec, new_message_pred(e0, ob));
                        assert(batch.deep_view() =~= bviews.push(spec_message_item(*rec)));
                        assert(spec_message_batch(e0, ob, inbox@.take(i as int + 1))
                            =~= bviews.push(spec_message_item(*rec)));
                        assert(store.message_ids() =~= e0 + msg_ids(batch.deep_view()));
                        assert forall|k: int|
                            0 <= k < batch@.len() implies (#[trigger] store.msg_rows@[old(
                            store,
                        ).msg_rows@.len() + k]).item == batch@[k] by {
                            if k < batch@.len() - 1 {
                                assert(store.msg_rows@[old(store).msg_rows@.len() + k]
                                    == store.msg_rows@.drop_last()[old(
                                    store,
                                ).msg_rows@.len() + k]);
                            } else {
                                assert(store.msg_rows@[old(store).msg_rows@.len() + k]
                                    == store.msg_rows@.last());
                            }
                        }
                    }
                },
                Err(e) => {
                    proof {
                        lemma_message_dup_abort(
                            e0,
                            ob,
                            inbox@,
                            i as int,
                            bviews,
                            store.message_ids(),
                        );
                    }
                    return Err(e);
                },
            }
        } else {
            proof {
                prefix.lemma_filter_push(*rec, new_message_pred(e0, ob));
                assert(spec_new_messages(e0, ob, inbox@.take(i as int + 1))
                    == spec_new_messages(e0, ob, prefix));
            }
        }
    }
    proof {
        assert(inbox@.take(n as int) =~= inbox@);
        let whole = e0 + msg_ids(batch.deep_view());
        assert forall|k1: int, k2: int|
            0 <= k1 < msg_ids(batch.deep_view()).len() && 0 <= k2 < msg_ids(
                batch.deep_view(),
            ).len() && k1 != k2 implies msg_ids(batch.deep_view())[k1] != msg_ids(
            batch.deep_view(),
        )[k2] by {
            assert(whole[e0.len() + k1] == msg_ids(batch.deep_view())[k1]);
            assert(whole[e0.len() + k2] == msg_ids(batch.deep_view())[k2]);
        }
    }
    Ok(batch)
}

/// At the first repeated message id the run aborts: the full batch has a
/// duplicate id, and the store holds exactly the items before the repeat.
proof fn lemma_message_dup_abort(
    e0: Seq<Seq<char>>,
    ob: Seq<Seq<char>>,
    recs: Seq<RawMessage>,
    i: int,
    bviews: Seq<MessageItemView>,
    store_ids: Seq<Seq<char>>,
)
    requires
        0 <= i < recs.len(),
        !e0.contains(recs[i].message_id@),
        !ob.contains(recs[i].message_id@),
        bviews == spec_message_batch(e0, ob, recs.take(i)),
        store_ids == e0 + msg_ids(bviews),
        store_ids.contains(recs[i].message_id@),
    ensures
        !msg_ids(spec_message_batch(e0, ob, recs)).no_duplicates(),
        exists|k: int|
            0 <= k <= spec_message_batch(e0, ob, recs).len() && store_ids == e0 + msg_ids(
                spec_message_batch(e0, ob, recs),
            ).take(k),
{
    let full = spec_message_batch(e0, ob, recs);
    let x = recs[i].message_id@;
    lemma_seq_add_contains(e0, msg_ids(bviews), x);
    let j = choose|j: int| 0 <= j < msg_ids(bviews).len() && msg_ids(bviews)[j] == x;
    assert(recs.take(i).push(recs[i]) =~= recs.take(i + 1));
    recs.take(i).lemma_filter_push(recs[i], new_message_pred(e0, ob));
    assert(recs.take(i + 1).is_prefix_of(recs));
    recs.take(i + 1).lemma_filter_monotone(recs, new_message_pred(e0, ob));
    let new1 = spec_new_messages(e0, ob, recs.take(i + 1));
    let newfull = spec_new_messages(e0, ob, recs);
    assert(new1 =~= spec_new_messages(e0, ob, recs.take(i)).push(recs[i]));
    assert forall|k: int| 0 <= k < new1.len() implies newfull[k] == new1[k] by {
        assert(new1[k] == newfull.subrange(0, new1.len() as int)[k]);
    }
    let b1 = bviews.push(spec_message_item(recs[i]));
    assert(b1 =~= new1.map_values(msg_item_fn()));
    assert forall|k: int| 0 <= k < b1.len() implies full[k] == b1[k] by {
        assert(newfull[k] == new1[k]);
    }
    assert(msg_ids(full)[j] == x);
    assert(msg_ids(full)[bviews.len() as int] == x);
    assert(!msg_ids(full).no_duplicates());
    let k = bviews.len() as int;
    assert(msg_ids(full).take(k) =~= msg_ids(bviews));
    assert(store_ids == e0 + msg_ids(full).take(k));
}

/// At the first repeated id the run aborts: the full batch has a duplicate
/// id, and the store holds exactly the items before the repeat.
proof fn lemma_announcement_dup_abort(
    e0: Seq<Seq<char>>,
    recs: Seq<RawNotice>,
    t: LookupTable,
    i: int,
    bviews: Seq<AnnouncementItemView>,
    store_ids: Seq<Seq<char>>,
)
    requires
        0 <= i < recs.len(),
        !e0.contains(recs[i].id@),
        bviews == spec_announcement_batch(e0, recs.take(i), t),
        store_ids == e0 + ann_ids(bviews),
        store_ids.contains(recs[i].id@),
    ensures
        !ann_ids(spec_announcement_batch(e0, recs, t)).no_duplicates(),
        exists|k: int|
            0 <= k <= spec_announcement_batch(e0, recs, t).len() && store_ids == e0 + ann_ids(
                spec_announcement_batch(e0, recs, t),
            ).take(k),
{
    let full = spec_announcement_batch(e0, recs, t);
    let x = recs[i].id@;
    lemma_seq_add_contains(e0, ann_ids(bviews), x);
    let j = choose|j: int| 0 <= j < ann_ids(bviews).len() && ann_ids(bviews)[j] == x;
    // the prefix of the batch is a prefix of the full batch
    assert(recs.take(i).push(recs[i]) =~= recs.take(i + 1));
    recs.take(i).lemma_filter_push(recs[i], new_notice_pred(e0));
    assert(recs.take(i + 1).is_prefix_of(recs));
    recs.take(i + 1).lemma_filter_monotone(recs, new_notice_pred(e0));
    let new1 = spec_new_notices(e0, recs.take(i + 1));
    let newfull = spec_new_notices(e0, recs);
    assert(new1 =~= spec_new_notices(e0, recs.take(i)).push(recs[i]));
    assert forall|k: int| 0 <= k < new1.len() implies newfull[k] == new1[k] by {
        assert(new1[k] == newfull.subrange(0, new1.len() as int)[k]);
    }
    let b1 = bviews.push(spec_announcement_item(recs[i], t));
    assert(b1 =~= new1.map_values(ann_item_fn(t)));
    assert forall|k: int| 0 <= k < b1.len() implies full[k] == b1[k] by {
        assert(newfull[k] == new1[k]);
    }
    assert(ann_ids(full)[j] == x);
    assert(ann_ids(full)[bviews.len() as int] == x);
    assert(!ann_ids(full).no_duplicates());
    let k = bviews.len() as int;
    assert(ann_ids(full).take(k) =~= ann_ids(bviews));
    assert(store_ids == e0 + ann_ids(full).take(k));
}

/// Which raw grades count as new: a grade's stored id is the decimal
/// rendering of its remote numeric id.
pub open spec fn new_grade_pred(existing: Seq<Seq<char>>) -> spec_fn(RawGrade) -> bool {
    |r: RawGrade| !existing.contains(spec_decimal_int(r.id as int))
}

/// The raw grades not yet stored, in fetch order.
pub open spec fn spec_new_grades(existing: Seq<Seq<char>>, recs: Seq<RawGrade>) -> Seq<
    RawGrade,
> {
    recs.filter(new_grade_pred(existing))
}

/// The info text of a grade: the text of its first comment reference, when
/// one exists and its lookup succeeded; empty otherwise. Comment lookups are
/// best-effort and never cached.
pub open spec fn spec_grade_info(r: RawGrade, t: LookupTable) -> Seq<char> {
    if r.comment_ids@.len() > 0 {
        match reply_in(t.replies@, LookupKind::Comment, r.comment_ids@[0]) {
            Some(Some(x)) => x,
            _ => Seq::empty(),
        }
    } else {
        Seq::empty()
    }
}

/// The grade built from one raw grade under the remote replies `t`.
pub open spec fn spec_grade_item(r: RawGrade, t: LookupTable) -> GradeItemView {
    GradeItemView {
        id: spec_decimal_int(r.id as int),
        subject: spec_resolved(t, LookupKind::Subject, r.subject_id),
        value: r.grade@,
        info: spec_grade_info(r, t),
    }
}

/// The item each new grade maps to.
pub open spec fn grade_item_fn(t: LookupTable) -> spec_fn(RawGrade) -> GradeItemView {
    |r: RawGrade| spec_grade_item(r, t)
}

/// The batch one grade run produces.
pub open spec fn spec_grade_batch(
    existing: Seq<Seq<char>>,
    recs: Seq<RawGrade>,
    t: LookupTable,
) -> Seq<GradeItemView> {
    spec_new_grades(existing, recs).map_values(grade_item_fn(t))
}

/// The ids of a sequence of grade items.
pub open spec fn grade_ids_of(items: Seq<GradeItemView>) -> Seq<Seq<char>> {
    items.map_values(|it: GradeItemView| it.id)
}

/// The subject resolutions a grade run requests, in request order.
pub open spec fn grade_request_seq(existing: Seq<Seq<char>>, recs: Seq<RawGrade>) -> Seq<
    (LookupKind, i64),
>
    decreases recs.len(),
{
    if recs.len() == 0 {
        Seq::empty()
    } else {
        let p = grade_request_seq(existing, recs.drop_last());
        if existing.contains(spec_decimal_int(recs.last().id as int)) {
            p
        } else {
            p.push((LookupKind::Subject, recs.last().subject_id))
        }
    }
}

/// The distinct subject lookups a grade run issues through the cache.
pub open spec fn spec_grade_requests(existing: Seq<Seq<char>>, recs: Seq<RawGrade>) -> Seq<
    (LookupKind, i64),
> {
    first_occurrences(grade_request_seq(existing, recs))
}

/// Synchronize grades: walk the fetched grades in order, skip those whose id
/// the store already holds, resolve each new grade's subject through the
/// per-run memoizing cache, take the first comment's text as info when its
/// best-effort lookup succeeds, append each new item to the store, and
/// return the batch together with the exact number of subject lookups
/// issued.
///
/// The run succeeds exactly when the new grades carry pairwise distinct ids;
/// a repeated id aborts at the first repeat with `DuplicateId`, leaving the
/// items before it appended.
pub fn fetch_new_grades(
    store: &mut Store,
    grades: &Vec<RawGrade>,
    table: &LookupTable,
) -> (r: Result<(Vec<GradeItem>, usize), StoreError>)
    requires
        old(store).wf(),
    ensures
        final(store).wf(),
        final(store).msg_seed == old(store).msg_seed,
        final(store).msg_rows == old(store).msg_rows,
        final(store).ann_seed == old(store).ann_seed,
        final(store).ann_rows == old(store).ann_rows,
        final(store).hw_seed == old(store).hw_seed,
        final(store).hw_rows == old(store).hw_rows,
        final(store).grade_seed == old(store).grade_seed,
        ({
            let batch = spec_grade_batch(old(store).grade_ids(), grades@, *table);
            match r {
                Ok(out) => {
                    &&& grade_ids_of(batch).no_duplicates()
                    &&& out.0.deep_view() == batch
                    &&& out.1 as nat == spec_grade_requests(
                        old(store).grade_ids(),
                        grades@,
                    ).len()
                    &&& final(store).grade_ids() == old(store).grade_ids() + grade_ids_of(
                        batch,
                    )
                    &&& final(store).grade_rows@.len() == old(store).grade_rows@.len()
                        + batch.len()
                    &&& forall|k: int|
                        0 <= k < old(store).grade_rows@.len() ==> final(store).grade_rows@[k]
                            == old(store).grade_rows@[k]
                    &&& forall|k: int|
                        0 <= k < batch.len() ==> (#[trigger] final(store).grade_rows@[old(
                            store,
                        ).grade_rows@.len() + k]).item@ == batch[k]
                },
                Err(e) => {
                    &&& e == StoreError::DuplicateId
                    &&& !grade_ids_of(batch).no_duplicates()
                    &&& exists|k: int|
                        0 <= k <= batch.len() && final(store).grade_ids() == old(
                            store,
                        ).grade_ids() + grade_ids_of(batch).take(k)
                },
            }
        }),
{
    let ghost e0 = old(store).grade_ids();
    let existing = store.existing_grade_ids();
    let mut cache = ResolverCache::new();
    let mut batch: Vec<GradeItem> = Vec::new();
    let n = grades.len();
    proof {
        assert(grades@.take(0) =~= Seq::<RawGrade>::empty());
        assert(spec_new_grades(e0, Seq::<RawGrade>::empty()).len() == 0);
        assert(batch.deep_view() =~= spec_grade_batch(e0, grades@.take(0), *table));
        assert(grade_request_seq(e0, grades@.take(0)) =~= Seq::<(LookupKind, i64)>::empty());
        assert(cache.pairs() =~= first_occurrences(grade_request_seq(e0, grades@.take(0))));
        assert(store.grade_ids() =~= e0 + grade_ids_of(batch.deep_view()));
    }
    for i in 0..n
        invariant
            n == grades@.len(),
            store.wf(),
            e0 == old(store).grade_ids(),
            ids_of(existing@) == e0,
            cache.coherent(*table),
            cache.pairs() == first_occurrences(grade_request_seq(e0, grades@.take(i as int))),
            batch.deep_view() == spec_grade_batch(e0, grades@.take(i as int), *table),
            store.grade_ids() == e0 + grade_ids_of(batch.deep_view()),
            store.grade_seed == old(store).grade_seed,
            store.grade_rows@.len() == old(store).grade_rows@.len() + batch@.len(),
            forall|k: int|
                0 <= k < old(store).grade_rows@.len() ==> store.grade_rows@[k] == old(
                    store,
                ).grade_rows@[k],
            forall|k: int|
                0 <= k < batch@.len() ==> (#[trigger] store.grade_rows@[old(
                    store,
                ).grade_rows@.len() + k]).item == batch@[k],
            store.msg_seed == old(store).msg_seed,
            store.msg_rows == old(store).msg_rows,
            store.ann_seed == old(store).ann_seed,
            store.ann_rows == old(store).ann_rows,
            store.hw_seed == old(store).hw_seed,
            store.hw_rows == old(store).hw_rows,
    {
        let rec = &grades[i];
        let ghost prefix = grades@.take(i as int);
        proof {
            assert(grades@.take(i as int + 1).drop_last() =~= prefix);
            assert(grades@.take(i as int + 1) =~= prefix.push(*rec));
        }
        let id_str = i64_to_string(rec.id);
        let is_old = id_in(&existing, &id_str);
        if !is_old {
            let subject = resolve_name(&mut cache, table, LookupKind::Subject, rec.subject_id);
            proof {
                let reqs1 = grade_request_seq(e0, grades@.take(i as int + 1));
                assert(reqs1 == grade_request_seq(e0, prefix).push(
                    (LookupKind::Subject, rec.subject_id),
                ));
                assert(reqs1.drop_last() =~= grade_request_seq(e0, prefix));
                assert(cache.pairs() == first_occurrences(reqs1));
            }
            let info = if rec.comment_ids.len() > 0 {
                match table.reply(LookupKind::Comment, rec.comment_ids[0]) {
                    Some(Some(text)) => text,
                    _ => String::new(),
                }
            } else {
                String::new()
            };
            let item = GradeItem { id: id_str, subject, value: rec.grade.clone(), info };
            proof {
                assert(item@ == spec_grade_item(*rec, *table));
            }
            let ghost bviews = batch.deep_view();
            match store.save_grade(&item) {
                Ok(()) => {
                    batch.push(item);
                    proof {
                        prefix.lemma_filter_push(*rec, new_grade_pred(e0));
                        assert(batch.deep_view() =~= bviews.push(
                            spec_grade_item(*rec, *table),
                        ));
                        assert(spec_grade_batch(e0, grades@.take(i as int + 1), *table)
                            =~= bviews.push(spec_grade_item(*rec, *table)));
                        assert(store.grade_ids() =~= e0 + grade_ids_of(batch.deep_view()));
                        assert forall|k: int|
                            0 <= k < batch@.len() implies (#[trigger] store.grade_rows@[old(
                            store,
                        ).grade_rows@.len() + k]).item == batch@[k] by {
                            if k < batch@.len() - 1 {
                                assert(store.grade_rows@[old(store).grade_rows@.len() + k]
                                    == store.grade_rows@.drop_last()[old(
                                    store,
                                ).grade_rows@.len() + k]);
                            } else {
                                assert(store.grade_rows@[old(store).grade_rows@.len() + k]
                                    == store.grade_rows@.last());
                            }
                        }
                    }
                },
                Err(e) => {
                    proof {
                        lemma_grade_dup_abort(
                            e0,
                            grades@,
                            *table,
                            i as int,
                            bviews,
                            store.grade_ids(),
                        );
                    }
                    return Err(e);
                },
            }
        } else {
            proof {
                prefix.lemma_filter_push(*rec, new_grade_pred(e0));
                assert(spec_new_grades(e0, grades@.take(i as int + 1)) == spec_new_grades(
                    e0,
                    prefix,
                ));
                assert(grade_request_seq(e0, grades@.take(i as int + 1)) == grade_request_seq(
                    e0,
                    prefix,
                ));
            }
        }
    }
    proof {
        assert(grades@.take(n as int) =~= grades@);
        let whole = e0 + grade_ids_of(batch.deep_view());
        assert forall|k1: int, k2: int|
            0 <= k1 < grade_ids_of(batch.deep_view()).len() && 0 <= k2 < grade_ids_of(
                batch.deep_view(),
            ).len() && k1 != k2 implies grade_ids_of(batch.deep_view())[k1] != grade_ids_of(
            batch.deep_view(),
        )[k2] by {
            assert(whole[e0.len() + k1] == grade_ids_of(batch.deep_view())[k1]);
            assert(whole[e0.len() + k2] == grade_ids_of(batch.deep_view())[k2]);
        }
    }
    let count = cache.entries.len();
    Ok((batch, count))
}

/// At the first repeated grade id the run aborts: the full batch has a
/// duplicate id, and the store holds exactly the items before the repeat.
proof fn lemma_grade_dup_abort(
    e0: Seq<Seq<char>>,
    recs: Seq<RawGrade>,
    t: LookupTable,
    i: int,
    bviews: Seq<GradeItemView>,
    store_ids: Seq<Seq<char>>,
)
    requires
        0 <= i < recs.len(),
        !e0.contains(spec_decimal_int(recs[i].id as int)),
        bviews == spec_grade_batch(e0, recs.take(i), t),
        store_ids == e0 + grade_ids_of(bviews),
        store_ids.contains(spec_decimal_int(recs[i].id as int)),
    ensures
        !grade_ids_of(spec_grade_batch(e0, recs, t)).no_duplicates(),
        exists|k: int|
            0 <= k <= spec_grade_batch(e0, recs, t).len() && store_ids == e0 + grade_ids_of(
                spec_grade_batch(e0, recs, t),
            ).take(k),
{
    let full = spec_grade_batch(e0, recs, t);
    let x = spec_decimal_int(recs[i].id as int);
    lemma_seq_add_contains(e0, grade_ids_of(bviews), x);
    let j = choose|j: int| 0 <= j < grade_ids_of(bviews).len() && grade_ids_of(bviews)[j] == x;
    assert(recs.take(i).push(recs[i]) =~= recs.take(i + 1));
    recs.take(i).lemma_filter_push(recs[i], new_grade_pred(e0));
    assert(recs.take(i + 1).is_prefix_of(recs));
    recs.take(i + 1).lemma_filter_monotone(recs, new_grade_pred(e0));
    let new1 = spec_new_grades(e0, recs.take(i + 1));
    let newfull = spec_new_grades(e0, recs);
    assert(new1 =~= spec_new_grades(e0, recs.take(i)).push(recs[i]));
    assert forall|k: int| 0 <= k < new1.len() implies newfull[k] == new1[k] by {
        assert(new1[k] == newfull.subrange(0, new1.len() as int)[k]);
    }
    let b1 = bviews.push(spec_grade_item(recs[i], t));
    assert(b1 =~= new1.map_values(grade_item_fn(t)));
    assert forall|k: int| 0 <= k < b1.len() implies full[k] == b1[k] by {
        assert(newfull[k] == new1[k]);
    }
    assert(grade_ids_of(full)[j] == x);
    assert(grade_ids_of(full)[bviews.len() as int] == x);
    assert(!grade_ids_of(full).no_duplicates());
    let k = bviews.len() as int;
    assert(grade_ids_of(full).take(k) =~= grade_ids_of(bviews));
    assert(store_ids == e0 + grade_ids_of(full).take(k));
}

/// Which raw homework records count as new: a homework's stored id is the
/// decimal rendering of its remote numeric id.
pub open spec fn new_homework_pred(existing: Seq<Seq<char>>) -> spec_fn(RawHomework) -> bool {
    |r: RawHomework| !existing.contains(spec_decimal_int(r.id as int))
}

/// The raw homework records not yet stored, in fetch order.
pub open spec fn spec_new_homeworks(existing: Seq<Seq<char>>, recs: Seq<RawHomework>) -> Seq<
    RawHomework,
> {
    recs.filter(new_homework_pred(existing))
}

/// The homework built from one raw record under the remote replies `t`: the
/// subject name is resolved when a subject reference exists, the teacher name
/// always, the title is derived from the content, and the kind is the fixed
/// label.
pub open spec fn spec_homework_item(r: RawHomework, t: LookupTable) -> HomeworkItemView {
    HomeworkItemView {
        id: spec_decimal_int(r.id as int),
        subject: match r.subject_id {
            Some(sid) => spec_resolved(t, LookupKind::Subject, sid),
            None => "Nieznany"@,
        },
        title: spec_title(r.content@),
        kind: "Zadanie domowe"@,
        from: r.date@,
        to: r.date@,
        content: r.content@,
        user: spec_resolved(t, LookupKind::Teacher, r.teacher_id),
    }
}

/// The item each new homework record maps to.
pub open spec fn hw_item_fn(t: LookupTable) -> spec_fn(RawHomework) -> HomeworkItemView {
    |r: RawHomework| spec_homework_item(r, t)
}

/// The batch one homework run produces.
pub open spec fn spec_homework_batch(
    existing: Seq<Seq<char>>,
    recs: Seq<RawHomework>,
    t: LookupTable,
) -> Seq<HomeworkItemView> {
    spec_new_homeworks(existing, recs).map_values(hw_item_fn(t))
}

/// The ids of a sequence of homework items.
pub open spec fn hw_ids_of(items: Seq<HomeworkItemView>) -> Seq<Seq<char>> {
    items.map_values(|it: HomeworkItemView| it.id)
}

/// The resolutions a homework run requests, in request order: for each new
/// record, its subject reference when present, then its teacher reference.
pub open spec fn hw_request_seq(existing: Seq<Seq<char>>, recs: Seq<RawHomework>) -> Seq<
    (LookupKind, i64),
>
    decreases recs.len(),
{
    if recs.len() == 0 {
        Seq::empty()
    } else {
        let p = hw_request_seq(existing, recs.drop_last());
        if existing.contains(spec_decimal_int(recs.last().id as int)) {
            p
        } else {
            let q = match recs.last().subject_id {
                Some(sid) => p.push((LookupKind::Subject, sid)),
                None => p,
            };
            q.push((LookupKind::Teacher, recs.last().teacher_id))
        }
    }
}

/// The distinct lookups a homework run issues through the cache.
pub open spec fn spec_homework_requests(
    existing: Seq<Seq<char>>,
    recs: Seq<RawHomework>,
) -> Seq<(LookupKind, i64)> {
    first_occurrences(hw_request_seq(existing, recs))
}

/// Synchronize homework: walk the fetched records in order, skip those whose
/// id the store already holds, resolve each new record's subject (when
/// present) and teacher through the per-run memoizing cache, derive the
/// title from the content, append each new item to the store, and return the
/// batch together with the exact number of lookups issued.
///
/// The run succeeds exactly when the new records carry pairwise distinct
/// ids; a repeated id aborts at the first repeat with `DuplicateId`, leaving
/// the items before it appended.
pub fn fetch_new_homeworks(
    store: &mut Store,
    homeworks: &Vec<RawHomework>,
    table: &LookupTable,
) -> (r: Result<(Vec<HomeworkItem>, usize), StoreError>)
    requires
        old(store).wf(),
    ensures
        final(store).wf(),
        final(store).msg_seed == old(store).msg_seed,
        final(store).msg_rows == old(store).msg_rows,
        final(store).ann_seed == old(store).ann_seed,
        final(store).ann_rows == old(store).ann_rows,
        final(store).grade_seed == old(store).grade_seed,
        final(store).grade_rows == old(store).grade_rows,
        final(store).hw_seed == old(store).hw_seed,
        ({
            let batch = spec_homework_batch(old(store).homework_ids(), homeworks@, *table);
            match r {
                Ok(out) => {
                    &&& hw_ids_of(batch).no_duplicates()
                    &&& out.0.deep_view() == batch
                    &&& out.1 as nat == spec_homework_requests(
                        old(store).homework_ids(),
                        homeworks@,
                    ).len()
                    &&& final(store).homework_ids() == old(store).homework_ids()
                        + hw_ids_of(batch)
                    &&& final(store).hw_rows@.len() == old(store).hw_rows@.len()
                        + batch.len()
                    &&& forall|k: int|
                        0 <= k < old(store).hw_rows@.len() ==> final(store).hw_rows@[k]
                            == old(store).hw_rows@[k]
                    &&& forall|k: int|
                        0 <= k < batch.len() ==> (#[trigger] final(store).hw_rows@[old(
                            store,
                        ).hw_rows@.len() + k]).item@ == batch[k]
                },
                Err(e) => {
                    &&& e == StoreError::DuplicateId
                    &&& !hw_ids_of(batch).no_duplicates()
                    &&& exists|k: int|
                        0 <= k <= batch.len() && final(store).homework_ids() == old(
                            store,
                        ).homework_ids() + hw_ids_of(batch).take(k)
                },
            }
        }),
{
    let ghost e0 = old(store).homework_ids();
    let existing = store.existing_homework_ids();
    let mut cache = ResolverCache::new();
    let mut batch: Vec<HomeworkItem> = Vec::new();
    let n = homeworks.len();
    proof {
        assert(homeworks@.take(0) =~= Seq::<RawHomework>::empty());
        assert(spec_new_homeworks(e0, Seq::<RawHomework>::empty()).len() == 0);
        assert(batch.deep_view() =~= spec_homework_batch(e0, homeworks@.take(0), *table));
        assert(hw_request_seq(e0, homeworks@.take(0)) =~= Seq::<(LookupKind, i64)>::empty());
        assert(cache.pairs() =~= first_occurrences(hw_request_seq(e0, homeworks@.take(0))));
        assert(store.homework_ids() =~= e0 + hw_ids_of(batch.deep_view()));
    }
    for i in 0..n
        invariant
            n == homeworks@.len(),
            store.wf(),
            e0 == old(store).homework_ids(),
            ids_of(existing@) == e0,
            cache.coherent(*table),
            cache.pairs() == first_occurrences(
                hw_request_seq(e0, homeworks@.take(i as int)),
            ),
            batch.deep_view() == spec_homework_batch(e0, homeworks@.take(i as int), *table),
            store.homework_ids() == e0 + hw_ids_of(batch.deep_view()),
            store.hw_seed == old(store).hw_seed,
            store.hw_rows@.len() == old(store).hw_rows@.len() + batch@.len(),
            forall|k: int|
                0 <= k < old(store).hw_rows@.len() ==> store.hw_rows@[k] == old(
                    store,
                ).hw_rows@[k],
            forall|k: int|
                0 <= k < batch@.len() ==> (#[trigger] store.hw_rows@[old(
                    store,
                ).hw_rows@.len() + k]).item == batch@[k],
            store.msg_seed == old(store).msg_seed,
            store.msg_rows == old(store).msg_rows,
            store.ann_seed == old(store).ann_seed,
            store.ann_rows == old(store).ann_rows,
            store.grade_seed == old(store).grade_seed,
            store.grade_rows == old(store).grade_rows,
    {
        let rec = &homeworks[i];
        let ghost prefix = homeworks@.take(i as int);
        proof {
            assert(homeworks@.take(i as int + 1).drop_last() =~= prefix);
            assert(homeworks@.take(i as int + 1) =~= prefix.push(*rec));
        }
        let id_str = i64_to_string(rec.id);
        let is_old = id_in(&existing, &id_str);
        if !is_old {
            let ghost p0 = hw_request_seq(e0, prefix);
            let subject = match rec.subject_id {
                Some(sid) => {
                    let name = resolve_name(&mut cache, table, LookupKind::Subject, sid);
                    proof {
                        let q1 = p0.push((LookupKind::Subject, sid));
                        assert(q1.drop_last() =~= p0);
                        assert(cache.pairs() == first_occurrences(q1));
                    }
                    name
                },
                None => unknown_name(),
            };
            let ghost q1 = match rec.subject_id {
                Some(sid) => p0.push((LookupKind::Subject, sid)),
                None => p0,
            };
            let teacher = resolve_name(&mut cache, table, LookupKind::Teacher, rec.teacher_id);
            proof {
                let q2 = q1.push((LookupKind::Teacher, rec.teacher_id));
                assert(q2.drop_last() =~= q1);
                assert(cache.pairs() == first_occurrences(q2));
                assert(hw_request_seq(e0, homeworks@.take(i as int + 1)) == q2);
            }
            let title = derive_title(rec.content.as_str());
            let item = HomeworkItem {
                id: id_str,
                subject,
                title,
                kind: String::from_str("Zadanie domowe"),
                from: rec.date.clone(),
                to: rec.date.clone(),
                content: rec.content.clone(),
                user: teacher,
            };
            proof {
                assert(item@ == spec_homework_item(*rec, *table));
            }
            let ghost bviews = batch.deep_view();
            match store.save_homework(&item) {
                Ok(()) => {
                    batch.push(item);
                    proof {
                        prefix.lemma_filter_push(*rec, new_homework_pred(e0));
                        assert(batch.deep_view() =~= bviews.push(
                            spec_homework_item(*rec, *table),
                        ));
                        assert(spec_homework_batch(e0, homeworks@.take(i as int + 1), *table)
                            =~= bviews.push(spec_homework_item(*rec, *table)));
                        assert(store.homework_ids() =~= e0 + hw_ids_of(batch.deep_view()));
                        assert forall|k: int|
                            0 <= k < batch@.len() implies (#[trigger] store.hw_rows@[old(
                            store,
                        ).hw_rows@.len() + k]).item == batch@[k] by {
                            if k < batch@.len() - 1 {
                                assert(store.hw_rows@[old(store).hw_rows@.len() + k]
                                    == store.hw_rows@.drop_last()[old(
                                    store,
                                ).hw_rows@.len() + k]);
                            } else {
                                assert(store.hw_rows@[old(store).hw_rows@.len() + k]
                                    == store.hw_rows@.last());
                            }
                        }
                    }
                },
                Err(e) => {
                    proof {
                        lemma_homework_dup_abort(
                            e0,
                            homeworks@,
                            *table,
                            i as int,
                            bviews,
                            store.homework_ids(),
                        );
                    }
                    return Err(e);
                },
            }
        } else {
            proof {
                prefix.lemma_filter_push(*rec, new_homework_pred(e0));
                assert(spec_new_homeworks(e0, homeworks@.take(i as int + 1))
                    == spec_new_homeworks(e0, prefix));
                assert(hw_request_seq(e0, homeworks@.take(i as int + 1)) == hw_request_seq(
                    e0,
                    prefix,
                ));
            }
        }
    }
    proof {
        assert(homeworks@.take(n as int) =~= homeworks@);
        let whole = e0 + hw_ids_of(batch.deep_view());
        assert forall|k1: int, k2: int|
            0 <= k1 < hw_ids_of(batch.deep_view()).len() && 0 <= k2 < hw_ids_of(
                batch.deep_view(),
            ).len() && k1 != k2 implies hw_ids_of(batch.deep_view())[k1] != hw_ids_of(
            batch.deep_view(),
        )[k2] by {
            assert(whole[e0.len() + k1] == hw_ids_of(batch.deep_view())[k1]);
            assert(whole[e0.len() + k2] == hw_ids_of(batch.deep_view())[k2]);
        }
    }
    let count = cache.entries.len();
    Ok((batch, count))
}

/// At the first repeated homework id the run aborts: the full batch has a
/// duplicate id, and the store holds exactly the items before the repeat.
proof fn lemma_homework_dup_abort(
    e0: Seq<Seq<char>>,
    recs: Seq<RawHomework>,
    t: LookupTable,
    i: int,
    bviews: Seq<HomeworkItemView>,
    store_ids: Seq<Seq<char>>,
)
    requires
        0 <= i < recs.len(),
        !e0.contains(spec_decimal_int(recs[i].id as int)),
        bviews == spec_homework_batch(e0, recs.take(i), t),
        store_ids == e0 + hw_ids_of(bviews),
        store_ids.contains(spec_decimal_int(recs[i].id as int)),
    ensures
        !hw_ids_of(spec_homework_batch(e0, recs, t)).no_duplicates(),
        exists|k: int|
            0 <= k <= spec_homework_batch(e0, recs, t).len() && store_ids == e0 + hw_ids_of(
                spec_homework_batch(e0, recs, t),
            ).take(k),
{
    let full = spec_homework_batch(e0, recs, t);
    let x = spec_decimal_int(recs[i].id as int);
    lemma_seq_add_contains(e0, hw_ids_of(bviews), x);
    let j = choose|j: int| 0 <= j < hw_ids_of(bviews).len() && hw_ids_of(bviews)[j] == x;
    assert(recs.take(i).push(recs[i]) =~= recs.take(i + 1));
    recs.take(i).lemma_filter_push(recs[i], new_homework_pred(e0));
    assert(recs.take(i + 1).is_prefix_of(recs));
    recs.take(i + 1).lemma_filter_monotone(recs, new_homework_pred(e0));
    let new1 = spec_new_homeworks(e0, recs.take(i + 1));
    let newfull = spec_new_homeworks(e0, recs);
    assert(new1 =~= spec_new_homeworks(e0, recs.take(i)).push(recs[i]));
    assert forall|k: int| 0 <= k < new1.len() implies newfull[k] == new1[k] by {
        assert(new1[k] == newfull.subrange(0, new1.len() as int)[k]);
    }
    let b1 = bviews.push(spec_homework_item(recs[i], t));
    assert(b1 =~= new1.map_values(hw_item_fn(t)));
    assert forall|k: int| 0 <= k < b1.len() implies full[k] == b1[k] by {
        assert(newfull[k] == new1[k]);
    }
    assert(hw_ids_of(full)[j] == x);
    assert(hw_ids_of(full)[bviews.len() as int] == x);
    assert(!hw_ids_of(full).no_duplicates());
    let k = bviews.len() as int;
    assert(hw_ids_of(full).take(k) =~= hw_ids_of(bviews));
    assert(store_ids == e0 + hw_ids_of(full).take(k));
}

} // verus!
