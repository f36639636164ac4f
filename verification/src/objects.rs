use vstd::prelude::*;

verus! {

broadcast use
    vstd::seq::axiom_seq_index_decreases,
    vstd::seq::axiom_seq_subrange_decreases,
    vstd::std_specs::vec::axiom_vec_index_decreases,
    vstd::std_specs::vec::axiom_vec_decreases_to_view;

/// Identifier of one indirect object inside a single store: an
/// (object number, generation number) pair.
#[derive(Clone, Copy, PartialEq, Eq, Structural, Debug)]
pub struct ObjectId {
    pub number: u32,
    pub generation: u16,
}

/// One dictionary entry: a name key and its value.
pub type DictEntry = (Vec<u8>, Object);

/// A dictionary: name keys mapped to object values. Entry order carries no
/// meaning; a lookup takes the first entry with the key, and a set pushes a
/// fresh entry at the front.
pub struct Dict {
    pub entries: Vec<DictEntry>,
}

/// A document object: the closed set of value shapes a document graph is
/// built from. `Real` keeps the number's lexical form; this library never
/// computes with it.
pub enum Object {
    Null,
    Boolean(bool),
    Integer(i64),
    Real(Vec<u8>),
    ByteString(Vec<u8>),
    Name(Vec<u8>),
    Array(Vec<Object>),
    Dictionary(Dict),
    Reference(ObjectId),
    Stream(Dict, Vec<u8>),
}

/// Mathematical value of an `Object`.
pub enum ObjV {
    Null,
    Boolean(bool),
    Integer(int),
    Real(Seq<u8>),
    ByteString(Seq<u8>),
    Name(Seq<u8>),
    Array(Seq<ObjV>),
    Dictionary(Map<Seq<u8>, ObjV>),
    Reference(ObjectId),
    Stream(Map<Seq<u8>, ObjV>, Seq<u8>),
}

/// Value of a dictionary entry sequence as a map; the first entry with a
/// key wins.
pub open spec fn dict_kv(s: Seq<DictEntry>) -> Map<Seq<u8>, ObjV>
    decreases s,
{
    if s.len() == 0 {
        Map::empty()
    } else {
        dict_kv(s.drop_first()).insert(s[0].0@, s[0].1.ov())
    }
}

/// Values of a sequence of objects, element by element.
pub open spec fn seq_ov(s: Seq<Object>) -> Seq<ObjV>
    decreases s,
{
    if s.len() == 0 {
        Seq::empty()
    } else {
        seq![s[0].ov()] + seq_ov(s.drop_first())
    }
}

impl Object {
    /// Mathematical value of this object.
    pub open spec fn ov(self) -> ObjV
        decreases self,
    {
        match self {
            Object::Null => ObjV::Null,
            Object::Boolean(b) => ObjV::Boolean(b),
            Object::Integer(i) => ObjV::Integer(i as int),
            Object::Real(v) => ObjV::Real(v@),
            Object::ByteString(v) => ObjV::ByteString(v@),
            Object::Name(v) => ObjV::Name(v@),
            Object::Array(items) => ObjV::Array(seq_ov(items@)),
            Object::Dictionary(d) => ObjV::Dictionary(dict_kv(d.entries@)),
            Object::Reference(id) => ObjV::Reference(id),
            Object::Stream(d, content) => ObjV::Stream(dict_kv(d.entries@), content@),
        }
    }
}

impl Dict {
    pub open spec fn kv(self) -> Map<Seq<u8>, ObjV> {
        dict_kv(self.entries@)
    }
}

pub proof fn lemma_seq_ov_len(s: Seq<Object>)
    ensures
        seq_ov(s).len() == s.len(),
    decreases s.len(),
{
    if s.len() > 0 {
        lemma_seq_ov_len(s.drop_first());
    }
}

pub proof fn lemma_seq_ov_index(s: Seq<Object>, i: int)
    requires
        0 <= i < s.len(),
    ensures
        seq_ov(s)[i] == s[i].ov(),
    decreases i,
{
    lemma_seq_ov_len(s.drop_first());
    if i > 0 {
        lemma_seq_ov_index(s.drop_first(), i - 1);
    }
}

/// Two object sequences with equal element values have equal value
/// sequences.
pub proof fn lemma_seq_ov_pointwise(a: Seq<Object>, b: Seq<Object>)
    requires
        a.len() == b.len(),
        forall|i: int| 0 <= i < a.len() ==> a[i].ov() == b[i].ov(),
    ensures
        seq_ov(a) == seq_ov(b),
{
    lemma_seq_ov_len(a);
    lemma_seq_ov_len(b);
    assert forall|i: int| 0 <= i < a.len() implies seq_ov(a)[i] == seq_ov(b)[i] by {
        lemma_seq_ov_index(a, i);
        lemma_seq_ov_index(b, i);
    }
    assert(seq_ov(a) =~= seq_ov(b));
}

/// Two entry sequences with equal keys and element values have the same
/// map value.
pub proof fn lemma_dict_kv_pointwise(a: Seq<DictEntry>, b: Seq<DictEntry>)
    requires
        a.len() == b.len(),
        forall|i: int| 0 <= i < a.len() ==> a[i].0@ == b[i].0@ && a[i].1.ov() == b[i].1.ov(),
    ensures
        dict_kv(a) == dict_kv(b),
    decreases a.len(),
{
    if a.len() > 0 {
        lemma_dict_kv_pointwise(a.drop_first(), b.drop_first());
    }
}

/// Byte-slice equality, decided element by element.
pub fn bytes_eq(a: &[u8], b: &[u8]) -> (r: bool)
    ensures
        r <==> a@ == b@,
{
    if a.len() != b.len() {
        assert(a@ != b@) by {
            assert(a@.len() != b@.len());
        }
        return false;
    }
    let n: usize = a.len();
    let mut k: usize = 0;
    while k < n
        invariant
            n == a@.len() && n == b@.len(),
            k <= n,
            forall|j: int| 0 <= j < k ==> a@[j] == b@[j],
        decreases n - k,
    {
        if a[k] != b[k] {
            return false;
        }
        k = k + 1;
    }
    assert(a@ =~= b@);
    true
}

/// Byte-for-byte copy of a byte vector.
pub fn copy_bytes(v: &Vec<u8>) -> (r: Vec<u8>)
    ensures
        r@ == v@,
{
    let mut out: Vec<u8> = Vec::new();
    let mut k: usize = 0;
    while k < v.len()
        invariant
            k <= v@.len(),
            out@.len() == k as int,
            forall|j: int| 0 <= j < k ==> out@[j] == v@[j],
        decreases v@.len() - k,
    {
        out.push(v[k]);
        k = k + 1;
    }
    assert(out@ =~= v@);
    out
}

impl Dict {
    /// First entry with the given key, if any.
    pub fn get(&self, key: &[u8]) -> (r: Option<&Object>)
        ensures
            match r {
                Some(o) => self.kv().contains_key(key@) && o.ov() == self.kv()[key@],
                None => !self.kv().contains_key(key@),
            },
    {
        let n: usize = self.entries.len();
        let mut k: usize = 0;
        proof {
            assert(self.entries@.skip(0) =~= self.entries@);
        }
        while k < n
            invariant
                n == self.entries@.len(),
                k <= n,
                dict_kv(self.entries@.skip(k as int)).contains_key(key@)
                    == self.kv().contains_key(key@),
                dict_kv(self.entries@.skip(k as int)).contains_key(key@)
                    ==> dict_kv(self.entries@.skip(k as int))[key@] == self.kv()[key@],
            decreases n - k,
        {
            proof {
                assert(self.entries@.skip(k as int)[0] == self.entries@[k as int]);
                assert(self.entries@.skip(k as int).drop_first()
                    =~= self.entries@.skip(k as int + 1));
            }
            if bytes_eq(self.entries[k].0.as_slice(), key) {
                return Some(&self.entries[k].1);
            }
            k = k + 1;
        }
        proof {
            assert(self.entries@.skip(n as int) =~= Seq::<DictEntry>::empty());
        }
        None
    }

    /// Whether the dictionary has an entry with the given key.
    pub fn has(&self, key: &[u8]) -> (r: bool)
        ensures
            r == self.kv().contains_key(key@),
    {
        match self.get(key) {
            Some(_) => true,
            None => false,
        }
    }

    /// Binds `key` to `val`, replacing any earlier binding.
    pub fn set(&mut self, key: Vec<u8>, val: Object)
        ensures
            final(self).kv() == old(self).kv().insert(key@, val.ov()),
    {
        let ghost old_entries = self.entries@;
        self.entries.insert(0, (key, val));
        proof {
            assert(self.entries@.drop_first() =~= old_entries);
        }
    }

    /// Deep copy; the copy has the same map value.
    pub fn duplicate(&self) -> (r: Dict)
        ensures
            r.kv() == self.kv(),
        decreases *self,
    {
        let mut out: Vec<DictEntry> = Vec::new();
        let mut k: usize = 0;
        while k < self.entries.len()
            invariant
                k <= self.entries@.len(),
                out@.len() == k as int,
                forall|j: int| 0 <= j < k
                    ==> out@[j].0@ == self.entries@[j].0@
                        && out@[j].1.ov() == self.entries@[j].1.ov(),
            decreases self.entries@.len() - k,
        {
            proof {
                assert(decreases_to!(*self => self.entries));
                assert(decreases_to!(self.entries => self.entries@));
                assert(decreases_to!(self.entries@ => self.entries@[k as int]));
                assert(decreases_to!(self.entries@[k as int] => self.entries@[k as int].1));
            }
            let key = copy_bytes(&self.entries[k].0);
            let val = self.entries[k].1.duplicate();
            out.push((key, val));
            k = k + 1;
        }
        proof {
            lemma_dict_kv_pointwise(out@, self.entries@);
        }
        Dict { entries: out }
    }
}

impl Object {
    /// Deep copy; the copy has the same value.
    pub fn duplicate(&self) -> (r: Object)
        ensures
            r.ov() == self.ov(),
        decreases *self,
    {
        match self {
            Object::Null => Object::Null,
            Object::Boolean(b) => Object::Boolean(*b),
            Object::Integer(i) => Object::Integer(*i),
            Object::Real(v) => Object::Real(copy_bytes(v)),
            Object::ByteString(v) => Object::ByteString(copy_bytes(v)),
            Object::Name(v) => Object::Name(copy_bytes(v)),
            Object::Reference(id) => Object::Reference(*id),
            Object::Array(items) => {
                let mut out: Vec<Object> = Vec::new();
                let mut k: usize = 0;
                while k < items.len()
                    invariant
                        *self is Array,
                        self->Array_0@ == items@,
                        k <= items@.len(),
                        out@.len() == k as int,
                        forall|j: int| 0 <= j < k ==> out@[j].ov() == items@[j].ov(),
                    decreases items@.len() - k,
                {
                    proof {
                        assert(decreases_to!(*self => self->Array_0));
                        assert(decreases_to!(self->Array_0 => self->Array_0@));
                        assert(decreases_to!(self->Array_0@ => self->Array_0@[k as int]));
                        assert(self->Array_0@[k as int] == items@[k as int]);
                    }
                    out.push(items[k].duplicate());
                    k = k + 1;
                }
                proof {
                    lemma_seq_ov_pointwise(out@, items@);
                }
                Object::Array(out)
            },
            Object::Dictionary(d) => Object::Dictionary(d.duplicate()),
            Object::Stream(d, content) => Object::Stream(d.duplicate(), copy_bytes(content)),
        }
    }
}

} // verus!
