use vstd::prelude::*;

use crate::names::{k_page, k_type, key_page, key_type};
use crate::objects::{bytes_eq, Dict, ObjV, Object, ObjectId};

verus! {

/// The failures an operation on a document can report.
#[derive(Debug)]
pub enum PdfError {
    /// A source could not be read or an output could not be written.
    Io(String),
    /// A source's bytes are not a valid document.
    Parse(String),
    /// The recompression scale parameter lies outside 1..=10.
    InvalidScale(i32),
    /// A merge was requested with no sources.
    NoInputFiles,
    /// A reference did not resolve during page-tree rebuild.
    ObjectNotFound,
}

/// The object graph of one document: identifier-addressed objects, kept in
/// insertion order.
pub struct ObjectStore {
    pub entries: Vec<(ObjectId, Object)>,
}

/// View of one store entry.
pub type EntryV = (ObjectId, ObjV);

/// A document: a version tag, its object store, and a trailer dictionary.
pub struct Document {
    pub version: Vec<u8>,
    pub store: ObjectStore,
    pub trailer: Dict,
}

impl ObjectStore {
    /// Value of the store: its entries in order.
    pub open spec fn sv(self) -> Seq<EntryV> {
        Seq::new(self.entries@.len(), |i: int| (self.entries@[i].0, self.entries@[i].1.ov()))
    }

    /// Identifiers are unique within the store.
    pub open spec fn wf(self) -> bool {
        forall|i: int, j: int|
            0 <= i < j < self.sv().len() ==> self.sv()[i].0 != self.sv()[j].0
    }

    pub fn new() -> (r: ObjectStore)
        ensures
            r.sv() == Seq::<EntryV>::empty(),
    {
        let r = ObjectStore { entries: Vec::new() };
        proof {
            assert(r.sv() =~= Seq::<EntryV>::empty());
        }
        r
    }
}

/// The identifiers of a store view, in order.
pub open spec fn id_seq(s: Seq<EntryV>) -> Seq<ObjectId> {
    Seq::new(s.len(), |i: int| s[i].0)
}

/// Index of the first entry with the given identifier, if any.
pub open spec fn first_ix(s: Seq<EntryV>, id: ObjectId) -> Option<int>
    decreases s,
{
    if s.len() == 0 {
        None
    } else if s[0].0 == id {
        Some(0)
    } else {
        match first_ix(s.drop_first(), id) {
            None => None,
            Some(i) => Some(i + 1),
        }
    }
}

/// The object value a store view holds under an identifier.
pub open spec fn lookup_v(s: Seq<EntryV>, id: ObjectId) -> Option<ObjV> {
    match first_ix(s, id) {
        None => None,
        Some(i) => Some(s[i].1),
    }
}

pub proof fn lemma_first_ix(s: Seq<EntryV>, id: ObjectId)
    ensures
        match first_ix(s, id) {
            Some(i) => 0 <= i < s.len() && s[i].0 == id && (forall|j: int|
                0 <= j < i ==> s[j].0 != id),
            None => forall|j: int| 0 <= j < s.len() ==> s[j].0 != id,
        },
    decreases s.len(),
{
    if s.len() > 0 && s[0].0 != id {
        lemma_first_ix(s.drop_first(), id);
        match first_ix(s.drop_first(), id) {
            Some(i) => {
                assert(s[i + 1] == s.drop_first()[i]);
                assert forall|j: int| 0 <= j < i + 1 implies s[j].0 != id by {
                    if j > 0 {
                        assert(s.drop_first()[j - 1].0 != id);
                        assert(s[j] == s.drop_first()[j - 1]);
                    }
                }
            },
            None => {
                assert forall|j: int| 0 <= j < s.len() implies s[j].0 != id by {
                    if j > 0 {
                        assert(s.drop_first()[j - 1].0 != id);
                        assert(s[j] == s.drop_first()[j - 1]);
                    }
                }
            },
        }
    }
}

/// Whether an object value is a page: a dictionary whose `Type` is the
/// name `Page`.
pub open spec fn is_page_v(v: ObjV) -> bool {
    &&& v matches ObjV::Dictionary(kv)
    &&& kv.contains_key(k_type())
    &&& kv[k_type()] == ObjV::Name(k_page())
}

/// Whether a store entry holds a page.
pub open spec fn page_pred() -> spec_fn(EntryV) -> bool {
    |e: EntryV| is_page_v(e.1)
}

/// The identifiers of the page entries of a store view, in store order.
pub open spec fn page_ids_v(s: Seq<EntryV>) -> Seq<ObjectId> {
    id_seq(s.filter(page_pred()))
}

impl ObjectStore {
    /// Index of the first entry with the given identifier.
    pub fn index_of(&self, id: ObjectId) -> (r: Option<usize>)
        ensures
            match r {
                Some(k) => first_ix(self.sv(), id) == Some(k as int),
                None => first_ix(self.sv(), id) is None,
            },
    {
        let n: usize = self.entries.len();
        let mut k: usize = 0;
        while k < n
            invariant
                n == self.entries@.len(),
                k <= n,
                forall|j: int| 0 <= j < k ==> self.sv()[j].0 != id,
            decreases n - k,
        {
            if self.entries[k].0 == id {
                proof {
                    assert(self.sv()[k as int].0 == id);
                    lemma_first_ix(self.sv(), id);
                }
                return Some(k);
            }
            k = k + 1;
        }
        proof {
            lemma_first_ix(self.sv(), id);
        }
        None
    }

    /// The object under an identifier, if present.
    pub fn get(&self, id: ObjectId) -> (r: Option<&Object>)
        ensures
            match r {
                Some(o) => lookup_v(self.sv(), id) == Some(o.ov()),
                None => lookup_v(self.sv(), id) is None,
            },
    {
        match self.index_of(id) {
            Some(k) => {
                proof {
                    lemma_first_ix(self.sv(), id);
                }
                Some(&self.entries[k].1)
            },
            None => None,
        }
    }
}

/// Whether the given object is a page dictionary.
pub fn is_page(o: &Object) -> (r: bool)
    ensures
        r == is_page_v(o.ov()),
{
    match o {
        Object::Dictionary(d) => {
            let tk = key_type();
            match d.get(tk.as_slice()) {
                Some(t) => match t {
                    Object::Name(n) => {
                        let pk = key_page();
                        bytes_eq(n.as_slice(), pk.as_slice())
                    },
                    _ => false,
                },
                None => false,
            }
        },
        _ => false,
    }
}

} // verus!
