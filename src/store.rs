//! The in-memory store of properties, keyed by id.
//!
//! Its contents change only as a whole: an upload replaces every record at
//! once. Sharing a store between concurrent readers and writers is left to the
//! caller's lock; this type itself is changed only through `&mut self`.

use vstd::prelude::*;
use vstd::utf8::{decode_utf8, valid_utf8};

use crate::csv::{data_rows, lemma_records_of, parse_csv, parsed, skipped};
use crate::property::{has_id, ids_increasing, views_of, Property, PropertyView};

verus! {

/// Why an upload was refused.
#[derive(Clone, Copy, Debug, PartialEq, Eq, Structural)]
pub enum UploadError {
    /// The uploaded bytes are not UTF-8.
    NotUtf8,
}

/// Relies on `std::str::from_utf8`: it succeeds exactly on valid UTF-8, and
/// then holds the characters that the bytes encode.
#[verifier::external_body]
fn decode_text(bytes: &[u8]) -> (r: Option<&str>)
    ensures
        r is Some <==> valid_utf8(bytes@),
        r matches Some(s) ==> s@ == decode_utf8(bytes@),
{
    std::str::from_utf8(bytes).ok()
}

/// A set of properties with unique ids, kept in increasing order of id.
pub struct PropertyStore {
    records: Vec<Property>,
}

impl View for PropertyStore {
    type V = Seq<PropertyView>;

    closed spec fn view(&self) -> Seq<PropertyView> {
        views_of(self.records@)
    }
}

impl PropertyStore {
    /// The store's invariant: ids are unique and increasing.
    pub open spec fn wf(&self) -> bool {
        ids_increasing(self@)
    }

    /// An empty store.
    pub fn new() -> (r: PropertyStore)
        ensures
            r@ == Seq::<PropertyView>::empty(),
            r.wf(),
    {
        let r = PropertyStore { records: Vec::new() };
        assert(r@ =~= Seq::<PropertyView>::empty());
        r
    }

    /// Discards every record and puts `records` in their place, in one step.
    pub fn replace_all(&mut self, records: Vec<Property>)
        requires
            ids_increasing(views_of(records@)),
        ensures
            final(self)@ == views_of(records@),
            final(self).wf(),
    {
        self.records = records;
    }

    /// Replaces the contents with the records that CSV `text` makes, and
    /// returns how many data rows were skipped for having too few columns.
    pub fn upload(&mut self, text: &str) -> (r: usize)
        ensures
            final(self)@ == parsed(text@),
            r == skipped(text@),
            final(self).wf(),
    {
        let p = parse_csv(text);
        proof {
            lemma_records_of(data_rows(text@));
        }
        self.replace_all(p.records);
        p.skipped
    }

    /// Uploads raw bytes: when they are UTF-8, as `upload` does with the text
    /// that they encode; otherwise the store is left as it was.
    pub fn upload_bytes(&mut self, bytes: &[u8]) -> (r: Result<usize, UploadError>)
        ensures
            valid_utf8(bytes@) ==> {
                &&& r == Ok::<usize, UploadError>(skipped(decode_utf8(bytes@)) as usize)
                &&& final(self)@ == parsed(decode_utf8(bytes@))
            },
            !valid_utf8(bytes@) ==> {
                &&& r == Err::<usize, UploadError>(UploadError::NotUtf8)
                &&& final(self)@ == old(self)@
            },
            old(self).wf() ==> final(self).wf(),
    {
        match decode_text(bytes) {
            Some(text) => Ok(self.upload(text)),
            None => Err(UploadError::NotUtf8),
        }
    }

    /// A copy of every record, in increasing order of id.
    pub fn list_all(&self) -> (r: Vec<Property>)
        ensures
            views_of(r@) == self@,
    {
        let mut r: Vec<Property> = Vec::new();
        let mut i: usize = 0;
        while i < self.records.len()
            invariant
                i <= self.records.len(),
                views_of(r@) == views_of(self.records@).take(i as int),
            decreases self.records.len() - i,
        {
            let q = self.records[i].duplicate();
            let ghost before = r@;
            r.push(q);
            assert(views_of(r@) =~= views_of(before).push(q@));
            assert(views_of(self.records@)[i as int] == q@);
            i += 1;
            assert(views_of(r@) =~= views_of(self.records@).take(i as int));
        }
        assert(views_of(self.records@).take(i as int) =~= self@);
        r
    }

    /// The record with the given id, or `None` when there is none.
    pub fn get(&self, id: usize) -> (r: Option<Property>)
        ensures
            r is Some <==> has_id(self@, id as nat),
            r matches Some(p) ==> p@.id == id && self@.contains(p@),
    {
        let mut i: usize = 0;
        while i < self.records.len()
            invariant
                i <= self.records.len(),
                forall|k: int| 0 <= k < i ==> #[trigger] self@[k].id != id as nat,
            decreases self.records.len() - i,
        {
            if self.records[i].id == id {
                let p = self.records[i].duplicate();
                assert(self@[i as int] == p@);
                assert(self@[i as int].id == id as nat);
                return Some(p);
            }
            assert(self@[i as int].id != id as nat);
            i += 1;
        }
        None
    }

    /// How many records the store holds.
    pub fn len(&self) -> (r: usize)
        ensures
            r == self@.len(),
    {
        self.records.len()
    }
}

} // verus!
