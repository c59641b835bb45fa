use vstd::prelude::*;

use crate::error::ServiceError;

verus! {

/// Spec-level image of a training record.
pub struct RecordV {
    pub id: u32,
    pub subject_name: Seq<char>,
    pub training_name: Seq<char>,
    pub due_date: Seq<char>,
    pub status: Seq<char>,
    pub created_by: Seq<char>,
}

/// A training entry: who is trained, on what, when it is due, the
/// traffic-light status (a free string by convention, see
/// [`crate::status::Status`]), and the username that created it. The `id` is
/// assigned by the store, never by a caller, and is never reused.
#[derive(Debug)]
pub struct Record {
    pub id: u32,
    pub subject_name: String,
    pub training_name: String,
    pub due_date: String,
    pub status: String,
    pub created_by: String,
}

impl View for Record {
    type V = RecordV;

    open spec fn view(&self) -> RecordV {
        RecordV {
            id: self.id,
            subject_name: self.subject_name@,
            training_name: self.training_name@,
            due_date: self.due_date@,
            status: self.status@,
            created_by: self.created_by@,
        }
    }
}

impl Clone for Record {
    fn clone(&self) -> (r: Self)
        ensures
            r == *self,
    {
        Record {
            id: self.id,
            subject_name: self.subject_name.clone(),
            training_name: self.training_name.clone(),
            due_date: self.due_date.clone(),
            status: self.status.clone(),
            created_by: self.created_by.clone(),
        }
    }
}

/// Spec-level image of a record payload.
pub struct RecordFieldsV {
    pub subject_name: Seq<char>,
    pub training_name: Seq<char>,
    pub due_date: Seq<char>,
    pub status: Seq<char>,
}

/// The caller-supplied fields of a record: everything but the store-assigned
/// `id` and the session-derived `created_by`.
#[derive(Debug)]
pub struct RecordFields {
    pub subject_name: String,
    pub training_name: String,
    pub due_date: String,
    pub status: String,
}

impl View for RecordFields {
    type V = RecordFieldsV;

    open spec fn view(&self) -> RecordFieldsV {
        RecordFieldsV {
            subject_name: self.subject_name@,
            training_name: self.training_name@,
            due_date: self.due_date@,
            status: self.status@,
        }
    }
}

impl Clone for RecordFields {
    fn clone(&self) -> (r: Self)
        ensures
            r == *self,
    {
        RecordFields {
            subject_name: self.subject_name.clone(),
            training_name: self.training_name.clone(),
            due_date: self.due_date.clone(),
            status: self.status.clone(),
        }
    }
}

/// Whether `r` carries exactly these payload fields.
pub open spec fn record_has_fields(r: RecordV, fields: RecordFieldsV) -> bool {
    &&& r.subject_name == fields.subject_name
    &&& r.training_name == fields.training_name
    &&& r.due_date == fields.due_date
    &&& r.status == fields.status
}

/// Whether some record in `s` carries this id.
pub open spec fn has_record_id(s: Seq<RecordV>, id: u32) -> bool {
    exists|i: int| 0 <= i < s.len() && s[i].id == id
}

/// The index of the first record with this id; `s.len()` if none.
pub open spec fn idx_of_record_id(s: Seq<RecordV>, id: u32) -> int
    decreases s.len(),
{
    if s.len() == 0 {
        0
    } else if s[0].id == id {
        0
    } else {
        1 + idx_of_record_id(s.drop_first(), id)
    }
}

/// `idx_of_record_id` points at the first record with the id when one
/// exists, and at the end of the sequence when none does.
pub proof fn lemma_idx_of_record_id(s: Seq<RecordV>, id: u32)
    ensures
        !has_record_id(s, id) ==> idx_of_record_id(s, id) == s.len(),
        has_record_id(s, id) ==> 0 <= idx_of_record_id(s, id) < s.len(),
        has_record_id(s, id) ==> s[idx_of_record_id(s, id)].id == id,
        forall|j: int| 0 <= j < idx_of_record_id(s, id) && j < s.len() ==> s[j].id != id,
    decreases s.len(),
{
    if s.len() == 0 {
    } else if s[0].id == id {
    } else {
        let rest = s.drop_first();
        lemma_idx_of_record_id(rest, id);
        assert(forall|i: int| 0 <= i < rest.len() ==> rest[i] == s[i + 1]);
        if has_record_id(s, id) {
            let i = choose|i: int| 0 <= i < s.len() && s[i].id == id;
            assert(rest[i - 1] == s[i]);
            assert(has_record_id(rest, id));
        }
        if has_record_id(rest, id) {
            let i = choose|i: int| 0 <= i < rest.len() && rest[i].id == id;
            assert(s[i + 1].id == id);
            assert(has_record_id(s, id));
        }
        assert forall|j: int|
            0 <= j < idx_of_record_id(s, id) && j < s.len() implies s[j].id != id by {
            if j >= 1 {
                assert(s[j] == rest[j - 1]);
            }
        }
    }
}

/// Record ids are pairwise distinct and every id lies below the counter, so
/// the id the next creation assigns is taken by no live record.
pub open spec fn wf_records(s: Seq<RecordV>, next_id: u32) -> bool {
    &&& forall|i: int| 0 <= i < s.len() ==> s[i].id < next_id
    &&& forall|i: int, j: int| 0 <= i < j < s.len() ==> s[i].id != s[j].id
}

/// In a well-formed store the counter value is fresh: no live record carries
/// it, so an id, once assigned, is never assigned again; deletions included,
/// since deleting never lowers the counter.
pub proof fn lemma_next_id_fresh(s: Seq<RecordV>, next_id: u32)
    requires
        wf_records(s, next_id),
    ensures
        forall|i: int| 0 <= i < s.len() ==> s[i].id != next_id,
{
}

/// Spec-level image of the record store: the records in insertion order and
/// the monotonic id counter.
pub struct RecordStoreV {
    pub records: Seq<RecordV>,
    pub next_id: u32,
}

/// The mutable collection of training records together with the id counter.
/// Ids are unique, allocated in strictly increasing order, and never reused
/// ([`RecordStore::wf`]).
pub struct RecordStore {
    records: Vec<Record>,
    next_id: u32,
}

impl View for RecordStore {
    type V = RecordStoreV;

    closed spec fn view(&self) -> RecordStoreV {
        RecordStoreV { records: self.records@.map_values(|r: Record| r@), next_id: self.next_id }
    }
}

impl RecordStore {
    /// See [`wf_records`].
    pub open spec fn wf(&self) -> bool {
        wf_records(self@.records, self@.next_id)
    }

    /// An empty store; the first record will get id 1.
    pub fn new() -> (r: Self)
        ensures
            r@.records.len() == 0,
            r@.next_id == 1,
            r.wf(),
    {
        RecordStore { records: Vec::new(), next_id: 1 }
    }

    /// The index of the first record with this id, if any.
    fn position_of_id(&self, id: u32) -> (r: Option<usize>)
        ensures
            r is Some <==> has_record_id(self@.records, id),
            r matches Some(i) ==> 0 <= i < self@.records.len() && i as int == idx_of_record_id(
                self@.records,
                id,
            ) && self@.records[i as int].id == id,
    {
        let mut i: usize = 0;
        while i < self.records.len()
            invariant
                0 <= i <= self.records.len(),
                self@.records.len() == self.records@.len(),
                forall|j: int| 0 <= j < i ==> self@.records[j].id != id,
            decreases self.records.len() - i,
        {
            proof {
                assert(self@.records[i as int] == self.records@[i as int]@);
            }
            if self.records[i].id == id {
                proof {
                    assert(self@.records[i as int].id == id);
                    assert(has_record_id(self@.records, id));
                    lemma_idx_of_record_id(self@.records, id);
                    let idx = idx_of_record_id(self@.records, id);
                    assert(!(idx < i) && !(i < idx));
                }
                return Some(i);
            }
            i += 1;
        }
        proof {
            if has_record_id(self@.records, id) {
                let w = choose|w: int| 0 <= w < self@.records.len() && self@.records[w].id == id;
                assert(self@.records[w].id != id);
            }
        }
        None
    }

    /// A snapshot copy of all records, in insertion order.
    pub fn list(&self) -> (r: Vec<Record>)
        ensures
            r@.len() == self@.records.len(),
            forall|i: int| 0 <= i < r@.len() ==> r@[i]@ == self@.records[i],
    {
        let mut out: Vec<Record> = Vec::new();
        let mut i: usize = 0;
        while i < self.records.len()
            invariant
                0 <= i <= self.records.len(),
                self@.records.len() == self.records@.len(),
                out@.len() == i,
                forall|j: int| 0 <= j < i ==> out@[j]@ == self@.records[j],
            decreases self.records.len() - i,
        {
            proof {
                assert(self@.records[i as int] == self.records@[i as int]@);
            }
            out.push(self.records[i].clone());
            i += 1;
        }
        out
    }

    /// Appends a new record: it gets the current counter value as its id and
    /// the counter moves past it, so ids grow strictly along allocations.
    pub fn create(&mut self, fields: &RecordFields, created_by: &str) -> (r: Record)
        requires
            old(self).wf(),
            old(self)@.next_id < u32::MAX,
        ensures
            final(self).wf(),
            r@.id == old(self)@.next_id,
            record_has_fields(r@, fields@),
            r@.created_by == created_by@,
            final(self)@.records == old(self)@.records.push(r@),
            final(self)@.next_id == old(self)@.next_id + 1,
    {
        let record = Record {
            id: self.next_id,
            subject_name: fields.subject_name.clone(),
            training_name: fields.training_name.clone(),
            due_date: fields.due_date.clone(),
            status: fields.status.clone(),
            created_by: created_by.to_owned(),
        };
        let result = record.clone();
        self.records.push(record);
        self.next_id = self.next_id + 1;
        proof {
            assert(self@.records =~= old(self)@.records.push(result@));
            assert forall|i: int, j: int|
                0 <= i < j < self@.records.len() implies self@.records[i].id
                != self@.records[j].id by {
                if j == self@.records.len() - 1 {
                    assert(self@.records[i] == old(self)@.records[i]);
                }
            }
        }
        result
    }

    /// Replaces every caller-suppliable field of the record with this id; the
    /// id and the creation attribution stay. Reports `NotFound` when no
    /// record carries the id.
    pub fn update(&mut self, id: u32, fields: &RecordFields) -> (r: Result<Record, ServiceError>)
        requires
            old(self).wf(),
        ensures
            final(self).wf(),
            final(self)@.next_id == old(self)@.next_id,
            r is Ok <==> has_record_id(old(self)@.records, id),
            r is Err ==> r == Err::<Record, ServiceError>(ServiceError::NotFound) && final(self)@
                == old(self)@,
            r matches Ok(rec) ==> rec@.id == id && record_has_fields(rec@, fields@)
                && rec@.created_by == old(self)@.records[idx_of_record_id(
                old(self)@.records,
                id,
            )].created_by && final(self)@.records == old(self)@.records.update(
                idx_of_record_id(old(self)@.records, id),
                rec@,
            ),
    {
        let i = match self.position_of_id(id) {
            Some(i) => i,
            None => {
                return Err(ServiceError::NotFound);
            },
        };
        let stored = &self.records[i];
        let updated = Record {
            id: stored.id,
            subject_name: fields.subject_name.clone(),
            training_name: fields.training_name.clone(),
            due_date: fields.due_date.clone(),
            status: fields.status.clone(),
            created_by: stored.created_by.clone(),
        };
        let result = updated.clone();
        let _ = self.records.remove(i);
        self.records.insert(i, updated);
        proof {
            assert(self@.records =~= old(self)@.records.update(i as int, result@));
            assert forall|x: int, y: int|
                0 <= x < y < self@.records.len() implies self@.records[x].id
                != self@.records[y].id by {
                assert(self@.records[x].id == old(self)@.records[x].id);
                assert(self@.records[y].id == old(self)@.records[y].id);
            }
        }
        Ok(result)
    }

    /// Removes the record with this id. The counter does not move back, so
    /// the removed id is never assigned again. Reports `NotFound` when no
    /// record carries the id.
    pub fn delete(&mut self, id: u32) -> (r: Result<(), ServiceError>)
        requires
            old(self).wf(),
        ensures
            final(self).wf(),
            final(self)@.next_id == old(self)@.next_id,
            r is Ok <==> has_record_id(old(self)@.records, id),
            r is Err ==> r == Err::<(), ServiceError>(ServiceError::NotFound) && final(self)@
                == old(self)@,
            r is Ok ==> final(self)@.records == old(self)@.records.remove(
                idx_of_record_id(old(self)@.records, id),
            ),
    {
        let i = match self.position_of_id(id) {
            Some(i) => i,
            None => {
                return Err(ServiceError::NotFound);
            },
        };
        let _ = self.records.remove(i);
        proof {
            assert(self@.records =~= old(self)@.records.remove(i as int));
            assert forall|x: int, y: int|
                0 <= x < y < self@.records.len() implies self@.records[x].id
                != self@.records[y].id by {
                let ox = if x < i as int {
                    x
                } else {
                    x + 1
                };
                let oy = if y < i as int {
                    y
                } else {
                    y + 1
                };
                assert(self@.records[x].id == old(self)@.records[ox].id);
                assert(self@.records[y].id == old(self)@.records[oy].id);
            }
            assert forall|x: int| 0 <= x < self@.records.len() implies self@.records[x].id
                < self@.next_id by {
                let ox = if x < i as int {
                    x
                } else {
                    x + 1
                };
                assert(self@.records[x].id == old(self)@.records[ox].id);
            }
        }
        Ok(())
    }

    /// Rebuilds a store from recovered records and a counter that lies above
    /// every recovered id, as a load from the durable file produces them.
    pub fn restore(records: Vec<Record>, next_id: u32) -> (r: Self)
        requires
            wf_records(records@.map_values(|x: Record| x@), next_id),
        ensures
            r@.records == records@.map_values(|x: Record| x@),
            r@.next_id == next_id,
            r.wf(),
    {
        RecordStore { records, next_id }
    }

    /// The number of records.
    pub fn len(&self) -> (r: usize)
        ensures
            r == self@.records.len(),
    {
        self.records.len()
    }

    /// The id the next created record will get.
    pub fn peek_next_id(&self) -> (r: u32)
        ensures
            r == self@.next_id,
    {
        self.next_id
    }
}

} // verus!
