use vstd::prelude::*;

use crate::items::{AnnouncementItem, GradeItem, HomeworkItem, MessageItem};

verus! {

/// The views of a sequence of id strings.
pub open spec fn ids_of(v: Seq<String>) -> Seq<Seq<char>> {
    v.map_values(|s: String| s@)
}

/// The one failure the in-memory store can signal: an insert with a primary
/// key that is already present. The orchestrators filter before inserting, so
/// it marks an invariant violation, never a normal path.
#[derive(Debug, Clone, Copy, PartialEq, Eq, Structural)]
pub enum StoreError {
    DuplicateId,
}

/// One stored row: the item and the timestamp stamped when it was appended.
#[derive(Debug, Clone)]
pub struct StoredRow<T> {
    pub item: T,
    pub fetched_at: String,
}

/// Relies on `chrono::Utc::now` and `chrono::DateTime::to_rfc3339` for the
/// fetch timestamp stamped beside each appended row.
#[verifier::external_body]
fn now_rfc3339() -> String {
    chrono::Utc::now().to_rfc3339()
}

/// The append-only store, one table per entity kind, keyed by item id.
///
/// A table is the ids it held when the store was opened (`*_seed`) plus the
/// rows appended through this handle (`*_rows`); an id never appears twice
/// in a table (`wf`), which is the at-most-once persistence guarantee.
#[derive(Debug)]
pub struct Store {
    pub msg_seed: Vec<String>,
    pub msg_rows: Vec<StoredRow<MessageItem>>,
    pub ann_seed: Vec<String>,
    pub ann_rows: Vec<StoredRow<AnnouncementItem>>,
    pub grade_seed: Vec<String>,
    pub grade_rows: Vec<StoredRow<GradeItem>>,
    pub hw_seed: Vec<String>,
    pub hw_rows: Vec<StoredRow<HomeworkItem>>,
}

impl Store {
    /// All message ids the table holds, opened ids first, appended rows after.
    pub open spec fn message_ids(&self) -> Seq<Seq<char>> {
        ids_of(self.msg_seed@) + self.msg_rows@.map_values(
            |r: StoredRow<MessageItem>| r.item.id@,
        )
    }

    /// All announcement ids the table holds.
    pub open spec fn announcement_ids(&self) -> Seq<Seq<char>> {
        ids_of(self.ann_seed@) + self.ann_rows@.map_values(
            |r: StoredRow<AnnouncementItem>| r.item.id@,
        )
    }

    /// All grade ids the table holds.
    pub open spec fn grade_ids(&self) -> Seq<Seq<char>> {
        ids_of(self.grade_seed@) + self.grade_rows@.map_values(
            |r: StoredRow<GradeItem>| r.item.id@,
        )
    }

    /// All homework ids the table holds.
    pub open spec fn homework_ids(&self) -> Seq<Seq<char>> {
        ids_of(self.hw_seed@) + self.hw_rows@.map_values(
            |r: StoredRow<HomeworkItem>| r.item.id@,
        )
    }

    /// No table ever holds the same id twice.
    pub open spec fn wf(&self) -> bool {
        &&& self.message_ids().no_duplicates()
        &&& self.announcement_ids().no_duplicates()
        &&& self.grade_ids().no_duplicates()
        &&& self.homework_ids().no_duplicates()
    }

    /// An empty store, as a first run starts with.
    pub fn new() -> (s: Store)
        ensures
            s.wf(),
            s.message_ids().len() == 0,
            s.announcement_ids().len() == 0,
            s.grade_ids().len() == 0,
            s.homework_ids().len() == 0,
            s.msg_rows@.len() == 0,
            s.ann_rows@.len() == 0,
            s.grade_rows@.len() == 0,
            s.hw_rows@.len() == 0,
    {
        let s = Store {
            msg_seed: Vec::new(),
            msg_rows: Vec::new(),
            ann_seed: Vec::new(),
            ann_rows: Vec::new(),
            grade_seed: Vec::new(),
            grade_rows: Vec::new(),
            hw_seed: Vec::new(),
            hw_rows: Vec::new(),
        };
        proof {
            assert(s.message_ids() =~= Seq::<Seq<char>>::empty());
            assert(s.announcement_ids() =~= Seq::<Seq<char>>::empty());
            assert(s.grade_ids() =~= Seq::<Seq<char>>::empty());
            assert(s.homework_ids() =~= Seq::<Seq<char>>::empty());
        }
        s
    }

    /// Re-open a store over the ids each durable table already holds.
    pub fn from_existing_ids(
        msg: Vec<String>,
        ann: Vec<String>,
        grade: Vec<String>,
        hw: Vec<String>,
    ) -> (s: Store)
        ensures
            s.message_ids() == ids_of(msg@),
            s.announcement_ids() == ids_of(ann@),
            s.grade_ids() == ids_of(grade@),
            s.homework_ids() == ids_of(hw@),
            s.msg_rows@.len() == 0,
            s.ann_rows@.len() == 0,
            s.grade_rows@.len() == 0,
            s.hw_rows@.len() == 0,
            s.wf() <==> (ids_of(msg@).no_duplicates() && ids_of(ann@).no_duplicates()
                && ids_of(grade@).no_duplicates() && ids_of(hw@).no_duplicates()),
    {
        let s = Store {
            msg_seed: msg,
            msg_rows: Vec::new(),
            ann_seed: ann,
            ann_rows: Vec::new(),
            grade_seed: grade,
            grade_rows: Vec::new(),
            hw_seed: hw,
            hw_rows: Vec::new(),
        };
        proof {
            assert(s.message_ids() =~= ids_of(s.msg_seed@));
            assert(s.announcement_ids() =~= ids_of(s.ann_seed@));
            assert(s.grade_ids() =~= ids_of(s.grade_seed@));
            assert(s.homework_ids() =~= ids_of(s.hw_seed@));
        }
        s
    }
}

/// Membership in a concatenation splits into membership in either part.
pub proof fn lemma_seq_add_contains(a: Seq<Seq<char>>, b: Seq<Seq<char>>, x: Seq<char>)
    ensures
        (a + b).contains(x) <==> a.contains(x) || b.contains(x),
{
    if a.contains(x) {
        let i = choose|i: int| 0 <= i < a.len() && a[i] == x;
        assert((a + b)[i] == x);
    }
    if b.contains(x) {
        let i = choose|i: int| 0 <= i < b.len() && b[i] == x;
        assert((a + b)[a.len() + i] == x);
    }
    if (a + b).contains(x) {
        let i = choose|i: int| 0 <= i < (a + b).len() && (a + b)[i] == x;
        if i < a.len() {
            assert(a[i] == x);
        } else {
            assert(b[i - a.len()] == x);
        }
    }
}

/// Appending a fresh element keeps a sequence duplicate-free.
proof fn lemma_push_fresh_no_dup(s: Seq<Seq<char>>, x: Seq<char>)
    requires
        s.no_duplicates(),
        !s.contains(x),
    ensures
        s.push(x).no_duplicates(),
{
    let t = s.push(x);
    assert forall|i: int, j: int|
        0 <= i < t.len() && 0 <= j < t.len() && i != j implies t[i] != t[j] by {
        if i < s.len() && j < s.len() {
        } else if j == s.len() {
            if t[i] == t[j] {
                assert(s[i] == x);
            }
        } else {
            if t[i] == t[j] {
                assert(s[j] == x);
            }
        }
    }
}

/// Whether `id` occurs among `ids`, by string value.
pub fn id_in(ids: &Vec<String>, id: &String) -> (r: bool)
    ensures
        r == ids_of(ids@).contains(id@),
{
    let n = ids.len();
    for i in 0..n
        invariant
            n == ids@.len(),
            forall|j: int| 0 <= j < i ==> ids@[j]@ != id@,
    {
        if ids[i] == *id {
            proof {
                assert(ids_of(ids@)[i as int] == id@);
            }
            return true;
        }
    }
    proof {
        if ids_of(ids@).contains(id@) {
            let j = choose|j: int| 0 <= j < ids_of(ids@).len() && ids_of(ids@)[j] == id@;
            assert(ids@[j]@ == id@);
        }
    }
    false
}

impl Store {
    /// A snapshot of every message id currently stored.
    pub fn existing_message_ids(&self) -> (r: Vec<String>)
        ensures
            ids_of(r@) == self.message_ids(),
    {
        let mut out: Vec<String> = Vec::new();
        let ns = self.msg_seed.len();
        for i in 0..ns
            invariant
                ns == self.msg_seed@.len(),
                out@.len() == i,
                forall|k: int| 0 <= k < i ==> (#[trigger] out@[k])@ == self.msg_seed@[k]@,
        {
            out.push(self.msg_seed[i].clone());
        }
        let nr = self.msg_rows.len();
        for i in 0..nr
            invariant
                ns == self.msg_seed@.len(),
                nr == self.msg_rows@.len(),
                out@.len() == ns + i,
                forall|k: int| 0 <= k < ns ==> (#[trigger] out@[k])@ == self.msg_seed@[k]@,
                forall|k: int|
                    0 <= k < i ==> (#[trigger] out@[ns + k])@ == self.msg_rows@[k].item.id@,
        {
            out.push(self.msg_rows[i].item.id.clone());
        }
        proof {
            let lhs = ids_of(out@);
            let rhs = self.message_ids();
            assert forall|k: int| 0 <= k < lhs.len() implies lhs[k] == rhs[k] by {
                assert(lhs[k] == out@[k]@);
                if k < ns {
                    assert(rhs[k] == ids_of(self.msg_seed@)[k]);
                } else {
                    assert(rhs[k] == self.msg_rows@.map_values(
                        |r: StoredRow<MessageItem>| r.item.id@,
                    )[k - ns]);
                    assert(out@[ns as int + (k - ns as int)]@ == self.msg_rows@[k - ns as int].item.id@);
                }
            }
            assert(lhs =~= rhs);
        }
        out
    }

    /// A snapshot of every announcement id currently stored.
    pub fn existing_announcement_ids(&self) -> (r: Vec<String>)
        ensures
            ids_of(r@) == self.announcement_ids(),
    {
        let mut out: Vec<String> = Vec::new();
        let ns = self.ann_seed.len();
        for i in 0..ns
            invariant
                ns == self.ann_seed@.len(),
                out@.len() == i,
                forall|k: int| 0 <= k < i ==> (#[trigger] out@[k])@ == self.ann_seed@[k]@,
        {
            out.push(self.ann_seed[i].clone());
        }
        let nr = self.ann_rows.len();
        for i in 0..nr
            invariant
                ns == self.ann_seed@.len(),
                nr == self.ann_rows@.len(),
                out@.len() == ns + i,
                forall|k: int| 0 <= k < ns ==> (#[trigger] out@[k])@ == self.ann_seed@[k]@,
                forall|k: int|
                    0 <= k < i ==> (#[trigger] out@[ns + k])@ == self.ann_rows@[k].item.id@,
        {
            out.push(self.ann_rows[i].item.id.clone());
        }
        proof {
            let lhs = ids_of(out@);
            let rhs = self.announcement_ids();
            assert forall|k: int| 0 <= k < lhs.len() implies lhs[k] == rhs[k] by {
                assert(lhs[k] == out@[k]@);
                if k < ns {
                    assert(rhs[k] == ids_of(self.ann_seed@)[k]);
                } else {
                    assert(rhs[k] == self.ann_rows@.map_values(
                        |r: StoredRow<AnnouncementItem>| r.item.id@,
                    )[k - ns]);
                    assert(out@[ns as int + (k - ns as int)]@ == self.ann_rows@[k - ns as int].item.id@);
                }
            }
            assert(lhs =~= rhs);
        }
        out
    }

    /// A snapshot of every grade id currently stored.
    pub fn existing_grade_ids(&self) -> (r: Vec<String>)
        ensures
            ids_of(r@) == self.grade_ids(),
    {
        let mut out: Vec<String> = Vec::new();
        let ns = self.grade_seed.len();
        for i in 0..ns
            invariant
                ns == self.grade_seed@.len(),
                out@.len() == i,
                forall|k: int| 0 <= k < i ==> (#[trigger] out@[k])@ == self.grade_seed@[k]@,
        {
            out.push(self.grade_seed[i].clone());
        }
        let nr = self.grade_rows.len();
        for i in 0..nr
            invariant
                ns == self.grade_seed@.len(),
                nr == self.grade_rows@.len(),
                out@.len() == ns + i,
                forall|k: int| 0 <= k < ns ==> (#[trigger] out@[k])@ == self.grade_seed@[k]@,
                forall|k: int|
                    0 <= k < i ==> (#[trigger] out@[ns + k])@ == self.grade_rows@[k].item.id@,
        {
            out.push(self.grade_rows[i].item.id.clone());
        }
        proof {
            let lhs = ids_of(out@);
            let rhs = self.grade_ids();
            assert forall|k: int| 0 <= k < lhs.len() implies lhs[k] == rhs[k] by {
                assert(lhs[k] == out@[k]@);
                if k < ns {
                    assert(rhs[k] == ids_of(self.grade_seed@)[k]);
                } else {
                    assert(rhs[k] == self.grade_rows@.map_values(
                        |r: StoredRow<GradeItem>| r.item.id@,
                    )[k - ns]);
                    assert(out@[ns as int + (k - ns as int)]@ == self.grade_rows@[k - ns as int].item.id@);
                }
            }
            assert(lhs =~= rhs);
        }
        out
    }

    /// A snapshot of every homework id currently stored.
    pub fn existing_homework_ids(&self) -> (r: Vec<String>)
        ensures
            ids_of(r@) == self.homework_ids(),
    {
        let mut out: Vec<String> = Vec::new();
        let ns = self.hw_seed.len();
        for i in 0..ns
            invariant
                ns == self.hw_seed@.len(),
                out@.len() == i,
                forall|k: int| 0 <= k < i ==> (#[trigger] out@[k])@ == self.hw_seed@[k]@,
        {
            out.push(self.hw_seed[i].clone());
        }
        let nr = self.hw_rows.len();
        for i in 0..nr
            invariant
                ns == self.hw_seed@.len(),
                nr == self.hw_rows@.len(),
                out@.len() == ns + i,
                forall|k: int| 0 <= k < ns ==> (#[trigger] out@[k])@ == self.hw_seed@[k]@,
                forall|k: int|
                    0 <= k < i ==> (#[trigger] out@[ns + k])@ == self.hw_rows@[k].item.id@,
        {
            out.push(self.hw_rows[i].item.id.clone());
        }
        proof {
            let lhs = ids_of(out@);
            let rhs = self.homework_ids();
            assert forall|k: int| 0 <= k < lhs.len() implies lhs[k] == rhs[k] by {
                assert(lhs[k] == out@[k]@);
                if k < ns {
                    assert(rhs[k] == ids_of(self.hw_seed@)[k]);
                } else {
                    assert(rhs[k] == self.hw_rows@.map_values(
                        |r: StoredRow<HomeworkItem>| r.item.id@,
                    )[k - ns]);
                    assert(out@[ns as int + (k - ns as int)]@ == self.hw_rows@[k - ns as int].item.id@);
                }
            }
            assert(lhs =~= rhs);
        }
        out
    }

    /// Append one message row. The id must not be stored yet; an insert with
    /// a stored id fails with `DuplicateId` and changes nothing.
    pub fn save_message(&mut self, item: &MessageItem) -> (r: Result<(), StoreError>)
        requires
            old(self).wf(),
        ensures
            final(self).wf(),
            final(self).msg_seed == old(self).msg_seed,
            final(self).ann_seed == old(self).ann_seed,
            final(self).ann_rows == old(self).ann_rows,
            final(self).grade_seed == old(self).grade_seed,
            final(self).grade_rows == old(self).grade_rows,
            final(self).hw_seed == old(self).hw_seed,
            final(self).hw_rows == old(self).hw_rows,
            match r {
                Ok(()) => {
                    &&& !old(self).message_ids().contains(item.id@)
                    &&& final(self).msg_rows@.len() == old(self).msg_rows@.len() + 1
                    &&& final(self).msg_rows@.drop_last() == old(self).msg_rows@
                    &&& final(self).msg_rows@.last().item == *item
                    &&& final(self).message_ids() == old(self).message_ids().push(item.id@)
                },
                Err(e) => {
                    &&& e == StoreError::DuplicateId
                    &&& old(self).message_ids().contains(item.id@)
                    &&& *final(self) == *old(self)
                },
            },
    {
        let ghost rows_ids = self.msg_rows@.map_values(|r: StoredRow<MessageItem>| r.item.id@);
        let dup_seed = id_in(&self.msg_seed, &item.id);
        let mut dup_row = false;
        let nr = self.msg_rows.len();
        for i in 0..nr
            invariant
                nr == self.msg_rows@.len(),
                rows_ids == self.msg_rows@.map_values(|r: StoredRow<MessageItem>| r.item.id@),
                dup_row ==> rows_ids.contains(item.id@),
                !dup_row ==> forall|j: int| 0 <= j < i ==> rows_ids[j] != item.id@,
        {
            if self.msg_rows[i].item.id == item.id {
                dup_row = true;
                proof {
                    assert(rows_ids[i as int] == item.id@);
                }
            }
        }
        proof {
            lemma_seq_add_contains(ids_of(self.msg_seed@), rows_ids, item.id@);
            if !dup_seed && !dup_row {
                if rows_ids.contains(item.id@) {
                    let j = choose|j: int| 0 <= j < rows_ids.len() && rows_ids[j] == item.id@;
                }
            }
        }
        if dup_seed || dup_row {
            return Err(StoreError::DuplicateId);
        }
        self.msg_rows.push(StoredRow { item: item.duplicate(), fetched_at: now_rfc3339() });
        proof {
            assert(self.msg_rows@.drop_last() =~= old(self).msg_rows@);
            assert(self.message_ids() =~= old(self).message_ids().push(item.id@));
            lemma_push_fresh_no_dup(old(self).message_ids(), item.id@);
        }
        Ok(())
    }

    /// Append one announcement row, refusing a stored id.
    pub fn save_announcement(&mut self, item: &AnnouncementItem) -> (r: Result<(), StoreError>)
        requires
            old(self).wf(),
        ensures
            final(self).wf(),
            final(self).ann_seed == old(self).ann_seed,
            final(self).msg_seed == old(self).msg_seed,
            final(self).msg_rows == old(self).msg_rows,
            final(self).grade_seed == old(self).grade_seed,
            final(self).grade_rows == old(self).grade_rows,
            final(self).hw_seed == old(self).hw_seed,
            final(self).hw_rows == old(self).hw_rows,
            match r {
                Ok(()) => {
                    &&& !old(self).announcement_ids().contains(item.id@)
                    &&& final(self).ann_rows@.len() == old(self).ann_rows@.len() + 1
                    &&& final(self).ann_rows@.drop_last() == old(self).ann_rows@
                    &&& final(self).ann_rows@.last().item == *item
                    &&& final(self).announcement_ids() == old(self).announcement_ids().push(
                        item.id@,
                    )
                },
                Err(e) => {
                    &&& e == StoreError::DuplicateId
                    &&& old(self).announcement_ids().contains(item.id@)
                    &&& *final(self) == *old(self)
                },
            },
    {
        let ghost rows_ids = self.ann_rows@.map_values(
            |r: StoredRow<AnnouncementItem>| r.item.id@,
        );
        let dup_seed = id_in(&self.ann_seed, &item.id);
        let mut dup_row = false;
        let nr = self.ann_rows.len();
        for i in 0..nr
            invariant
                nr == self.ann_rows@.len(),
                rows_ids == self.ann_rows@.map_values(
                    |r: StoredRow<AnnouncementItem>| r.item.id@,
                ),
                dup_row ==> rows_ids.contains(item.id@),
                !dup_row ==> forall|j: int| 0 <= j < i ==> rows_ids[j] != item.id@,
        {
            if self.ann_rows[i].item.id == item.id {
                dup_row = true;
                proof {
                    assert(rows_ids[i as int] == item.id@);
                }
            }
        }
        proof {
            lemma_seq_add_contains(ids_of(self.ann_seed@), rows_ids, item.id@);
            if !dup_seed && !dup_row {
                if rows_ids.contains(item.id@) {
                    let j = choose|j: int| 0 <= j < rows_ids.len() && rows_ids[j] == item.id@;
                }
            }
        }
        if dup_seed || dup_row {
            return Err(StoreError::DuplicateId);
        }
        self.ann_rows.push(StoredRow { item: item.duplicate(), fetched_at: now_rfc3339() });
        proof {
            assert(self.ann_rows@.drop_last() =~= old(self).ann_rows@);
            assert(self.announcement_ids() =~= old(self).announcement_ids().push(item.id@));
            lemma_push_fresh_no_dup(old(self).announcement_ids(), item.id@);
        }
        Ok(())
    }

    /// Append one grade row, refusing a stored id.
    pub fn save_grade(&mut self, item: &GradeItem) -> (r: Result<(), StoreError>)
        requires
            old(self).wf(),
        ensures
            final(self).wf(),
            final(self).grade_seed == old(self).grade_seed,
            final(self).msg_seed == old(self).msg_seed,
            final(self).msg_rows == old(self).msg_rows,
            final(self).ann_seed == old(self).ann_seed,
            final(self).ann_rows == old(self).ann_rows,
            final(self).hw_seed == old(self).hw_seed,
            final(self).hw_rows == old(self).hw_rows,
            match r {
                Ok(()) => {
                    &&& !old(self).grade_ids().contains(item.id@)
                    &&& final(self).grade_rows@.len() == old(self).grade_rows@.len() + 1
                    &&& final(self).grade_rows@.drop_last() == old(self).grade_rows@
                    &&& final(self).grade_rows@.last().item == *item
                    &&& final(self).grade_ids() == old(self).grade_ids().push(item.id@)
                },
                Err(e) => {
                    &&& e == StoreError::DuplicateId
                    &&& old(self).grade_ids().contains(item.id@)
                    &&& *final(self) == *old(self)
                },
            },
    {
        let ghost rows_ids = self.grade_rows@.map_values(|r: StoredRow<GradeItem>| r.item.id@);
        let dup_seed = id_in(&self.grade_seed, &item.id);
        let mut dup_row = false;
        let nr = self.grade_rows.len();
        for i in 0..nr
            invariant
                nr == self.grade_rows@.len(),
                rows_ids == self.grade_rows@.map_values(|r: StoredRow<GradeItem>| r.item.id@),
                dup_row ==> rows_ids.contains(item.id@),
                !dup_row ==> forall|j: int| 0 <= j < i ==> rows_ids[j] != item.id@,
        {
            if self.grade_rows[i].item.id == item.id {
                dup_row = true;
                proof {
                    assert(rows_ids[i as int] == item.id@);
                }
            }
        }
        proof {
            lemma_seq_add_contains(ids_of(self.grade_seed@), rows_ids, item.id@);
            if !dup_seed && !dup_row {
                if rows_ids.contains(item.id@) {
                    let j = choose|j: int| 0 <= j < rows_ids.len() && rows_ids[j] == item.id@;
                }
            }
        }
        if dup_seed || dup_row {
            return Err(StoreError::DuplicateId);
        }
        self.grade_rows.push(StoredRow { item: item.duplicate(), fetched_at: now_rfc3339() });
        proof {
            assert(self.grade_rows@.drop_last() =~= old(self).grade_rows@);
            assert(self.grade_ids() =~= old(self).grade_ids().push(item.id@));
            lemma_push_fresh_no_dup(old(self).grade_ids(), item.id@);
        }
        Ok(())
    }

    /// Append one homework row, refusing a stored id.
    pub fn save_homework(&mut self, item: &HomeworkItem) -> (r: Result<(), StoreError>)
        requires
            old(self).wf(),
        ensures
            final(self).wf(),
            final(self).hw_seed == old(self).hw_seed,
            final(self).msg_seed == old(self).msg_seed,
            final(self).msg_rows == old(self).msg_rows,
            final(self).ann_seed == old(self).ann_seed,
            final(self).ann_rows == old(self).ann_rows,
            final(self).grade_seed == old(self).grade_seed,
            final(self).grade_rows == old(self).grade_rows,
            match r {
                Ok(()) => {
                    &&& !old(self).homework_ids().contains(item.id@)
                    &&& final(self).hw_rows@.len() == old(self).hw_rows@.len() + 1
                    &&& final(self).hw_rows@.drop_last() == old(self).hw_rows@
                    &&& final(self).hw_rows@.last().item == *item
                    &&& final(self).homework_ids() == old(self).homework_ids().push(item.id@)
                },
                Err(e) => {
                    &&& e == StoreError::DuplicateId
                    &&& old(self).homework_ids().contains(item.id@)
                    &&& *final(self) == *old(self)
                },
            },
    {
        let ghost rows_ids = self.hw_rows@.map_values(|r: StoredRow<HomeworkItem>| r.item.id@);
        let dup_seed = id_in(&self.hw_seed, &item.id);
        let mut dup_row = false;
        let nr = self.hw_rows.len();
        for i in 0..nr
            invariant
                nr == self.hw_rows@.len(),
                rows_ids == self.hw_rows@.map_values(|r: StoredRow<HomeworkItem>| r.item.id@),
                dup_row ==> rows_ids.contains(item.id@),
                !dup_row ==> forall|j: int| 0 <= j < i ==> rows_ids[j] != item.id@,
        {
            if self.hw_rows[i].item.id == item.id {
                dup_row = true;
                proof {
                    assert(rows_ids[i as int] == item.id@);
                }
            }
        }
        proof {
            lemma_seq_add_contains(ids_of(self.hw_seed@), rows_ids, item.id@);
            if !dup_seed && !dup_row {
                if rows_ids.contains(item.id@) {
                    let j = choose|j: int| 0 <= j < rows_ids.len() && rows_ids[j] == item.id@;
                }
            }
        }
        if dup_seed || dup_row {
            return Err(StoreError::DuplicateId);
        }
        self.hw_rows.push(StoredRow { item: item.duplicate(), fetched_at: now_rfc3339() });
        proof {
            assert(self.hw_rows@.drop_last() =~= old(self).hw_rows@);
            assert(self.homework_ids() =~= old(self).homework_ids().push(item.id@));
            lemma_push_fresh_no_dup(old(self).homework_ids(), item.id@);
        }
        Ok(())
    }
}

} // verus!
