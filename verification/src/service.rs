//! The diagram service: the operations the RPC and HTTP surfaces call,
//! wrapped around one [`Store`].  The surrounding process shares one
//! instance behind a mutual-exclusion lock and does the disk and network
//! work outside of it: this type computes, it never blocks.

use vstd::prelude::*;

use crate::codec;
use crate::codec::{enc_document, enc_snapshot, parse_snapshot, snapshot_encodable};
use crate::error::StoreError;
use crate::model::{Document, DocumentView};
use crate::store::{insert_all, map_of, spec_delete, unique_keys, Store};

verus! {

/// Outcome of a save, delete or existence call: a flag and a message.
pub struct OpResult {
    pub value: bool,
    pub message: Option<String>,
}

/// The service around the store.  `persistence_dir` is where the
/// surrounding process keeps the snapshot blob; the service itself never
/// touches the disk.
pub struct DiagramServiceImpl {
    store: Store,
    persistence_dir: String,
}

impl View for DiagramServiceImpl {
    type V = Map<Seq<char>, DocumentView>;

    closed spec fn view(&self) -> Map<Seq<char>, DocumentView> {
        self.store@
    }
}

impl DiagramServiceImpl {
    /// No two store entries share an id.
    pub closed spec fn wf(&self) -> bool {
        self.store.wf()
    }

    /// The store's entry list, in snapshot order.
    pub closed spec fn entries(&self) -> Seq<(Seq<char>, DocumentView)> {
        self.store.entries_view()
    }

    /// The configured persistence directory.
    pub closed spec fn dir_view(&self) -> Seq<char> {
        self.persistence_dir@
    }

    /// A fresh service with an empty store and the default persistence
    /// directory.
    pub fn new() -> (r: DiagramServiceImpl)
        ensures
            r.wf(),
            r@ == Map::<Seq<char>, DocumentView>::empty(),
            r.entries() == Seq::<(Seq<char>, DocumentView)>::empty(),
            r.dir_view() == "data"@,
    {
        DiagramServiceImpl { store: Store::new(), persistence_dir: "data".to_owned() }
    }

    /// Where the snapshot blob lives.
    pub fn persistence_dir(&self) -> (r: &String)
        ensures
            r@ == self.dir_view(),
    {
        &self.persistence_dir
    }

    /// How many documents are stored.
    pub fn len(&self) -> (r: usize)
        requires
            self.wf(),
        ensures
            r == self.entries().len(),
            r == self@.dom().len(),
    {
        self.store.len()
    }

    /// Saves the document under its own id, fully replacing any earlier
    /// document with that id.  A document without an id is rejected and
    /// nothing changes.
    pub fn save_class_diagram(&mut self, file: Document) -> (r: OpResult)
        requires
            old(self).wf(),
        ensures
            final(self).wf(),
            file.id@.len() == 0 ==> !r.value && final(self)@ == old(self)@ && (r.message matches
            Option::Some(m) && m@ == "document id is required"@),
            file.id@.len() > 0 ==> r.value && final(self)@ == old(self)@.insert(file.id@, file@)
                && (r.message matches Option::Some(m) && m@
                == "Class diagram saved successfully"@),
    {
        let ghost fv = file@;
        match self.store.save(file) {
            Result::Ok(()) => OpResult {
                value: true,
                message: Option::Some("Class diagram saved successfully".to_owned()),
            },
            Result::Err(_) => OpResult {
                value: false,
                message: Option::Some("document id is required".to_owned()),
            },
        }
    }

    /// A deep copy of the stored document, or `NotFound`.
    pub fn get_class_diagram(&self, id: &String) -> (r: Result<Document, StoreError>)
        requires
            self.wf(),
        ensures
            match r {
                Result::Ok(d) => self@.contains_key(id@) && d@ == self@[id@],
                Result::Err(e) => e == StoreError::NotFound && !self@.contains_key(id@),
            },
    {
        self.store.get(id)
    }

    /// Whether a document with this id exists; absence is not an error.
    pub fn is_existing_class_diagram(&self, id: &String) -> (r: OpResult)
        requires
            self.wf(),
        ensures
            r.value == self@.contains_key(id@),
            r.value ==> (r.message matches Option::Some(m) && m@ == "File exists"@),
            !r.value ==> (r.message matches Option::Some(m) && m@ == "File does not exist"@),
    {
        if self.store.contains(id) {
            OpResult { value: true, message: Option::Some("File exists".to_owned()) }
        } else {
            OpResult { value: false, message: Option::Some("File does not exist".to_owned()) }
        }
    }

    /// Removes the document if present.  A missing id is a successful
    /// "not removed" outcome, never an error.
    pub fn delete_class_diagram(&mut self, id: &String) -> (r: OpResult)
        requires
            old(self).wf(),
        ensures
            final(self).wf(),
            (final(self)@, r.value) == spec_delete(old(self)@, id@),
            r.value == old(self)@.contains_key(id@),
            r.value ==> (r.message matches Option::Some(m) && m@
                == "Class diagram deleted successfully"@),
            !r.value ==> (r.message matches Option::Some(m) && m@ == "File not found"@),
    {
        if self.store.delete(id) {
            OpResult {
                value: true,
                message: Option::Some("Class diagram deleted successfully".to_owned()),
            }
        } else {
            OpResult { value: false, message: Option::Some("File not found".to_owned()) }
        }
    }

    /// A consistent point-in-time copy of all entries, for the codec or for
    /// an export, taken without holding any lock while encoding.
    pub fn snapshot(&self) -> (r: Vec<(String, Document)>)
        requires
            self.wf(),
        ensures
            r.deep_view() == self.entries(),
            unique_keys(r.deep_view()),
            map_of(r.deep_view()) == self@,
    {
        self.store.snapshot()
    }

    /// Encodes the whole store to one snapshot blob.  The blob decodes back
    /// to exactly the entries it was encoded from.
    pub fn snapshot_bytes(&self) -> (r: Result<Vec<u8>, StoreError>)
        requires
            self.wf(),
        ensures
            match r {
                Result::Ok(b) => {
                    &&& b@ == enc_snapshot(self.entries())
                    &&& parse_snapshot(b@) == Option::Some(self.entries())
                    &&& map_of(self.entries()) == self@
                },
                Result::Err(e) => e == StoreError::InvalidArgument && !snapshot_encodable(
                    self.entries(),
                ),
            },
    {
        let entries = self.store.snapshot();
        let r = codec::encode_snapshot(&entries);
        proof {
            if r is Ok {
                codec::lemma_parse_enc_snapshot(self.entries());
            }
        }
        r
    }

    /// Replays a snapshot blob into the store: every decoded entry is
    /// inserted under its stored id, first to last.  Fails with
    /// `CorruptSnapshot` exactly when the blob does not parse; the store is
    /// then unchanged.
    pub fn load_snapshot_bytes(&mut self, bytes: &Vec<u8>) -> (r: Result<usize, StoreError>)
        requires
            old(self).wf(),
        ensures
            final(self).wf(),
            match r {
                Result::Ok(n) => {
                    &&& parse_snapshot(bytes@) matches Option::Some(es) && final(self)@
                        == insert_all(old(self)@, es) && n == es.len()
                },
                Result::Err(e) => e == StoreError::CorruptSnapshot && parse_snapshot(
                    bytes@,
                ) is None && final(self)@ == old(self)@,
            },
    {
        let entries = match codec::decode_snapshot(bytes) {
            Result::Ok(es) => es,
            Result::Err(e) => {
                return Result::Err(e);
            },
        };
        let n = entries.len();
        self.store.load_entries(&entries);
        Result::Ok(n)
    }

    /// One `(id, payload)` pair per stored document, each payload the
    /// document's own encoding, for the per-document export tree.
    pub fn export_entries(&self) -> (r: Result<Vec<(String, Vec<u8>)>, StoreError>)
        requires
            self.wf(),
        ensures
            match r {
                Result::Ok(v) => {
                    &&& v@.len() == self.entries().len()
                    &&& forall|i: int|
                        0 <= i < v@.len() ==> (#[trigger] v@[i]).0@ == self.entries()[i].0
                            && v@[i].1@ == enc_document(self.entries()[i].1)
                },
                Result::Err(e) => e == StoreError::InvalidArgument && exists|i: int|
                    0 <= i < self.entries().len() && !codec::document_encodable(
                        #[trigger] self.entries()[i].1,
                    ),
            },
    {
        let entries = self.store.snapshot();
        let ghost es = self.entries();
        let mut out: Vec<(String, Vec<u8>)> = Vec::new();
        let mut i: usize = 0;
        while i < entries.len()
            invariant
                i <= entries@.len(),
                entries.deep_view() == es,
                es == self.entries(),
                out@.len() == i as int,
                forall|j: int|
                    0 <= j < i as int ==> (#[trigger] out@[j]).0@ == es[j].0 && out@[j].1@
                        == enc_document(es[j].1),
            decreases entries@.len() - i as int,
        {
            let entry = &entries[i];
            let payload = match codec::encode_document(&entry.1) {
                Result::Ok(p) => p,
                Result::Err(e) => {
                    proof {
                        assert(entries.deep_view()[i as int] == (entry.0@, entry.1@));
                        assert(!codec::document_encodable(self.entries()[i as int].1));
                    }
                    return Result::Err(e);
                },
            };
            let key = entry.0.clone();
            proof {
                assert(entries.deep_view()[i as int] == (entry.0@, entry.1@));
            }
            out.push((key, payload));
            i = i + 1;
        }
        Result::Ok(out)
    }
}

} // verus!

