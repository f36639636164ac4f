use vstd::prelude::*;

use crate::names::k_type;
use crate::objects::{copy_bytes, dict_kv, Dict, DictEntry, ObjV, Object, ObjectId};
use crate::store::{first_ix, is_page_v, lemma_first_ix, EntryV, ObjectStore};

verus! {

/// Identifier an old identifier maps to when a store with view `s` is
/// renumbered from `start`: the entry at index `i` gets number `start + i`;
/// an identifier the store does not hold keeps its value.
pub open spec fn renum_id(s: Seq<EntryV>, start: int, id: ObjectId) -> ObjectId {
    match first_ix(s, id) {
        Some(i) => ObjectId { number: (start + i) as u32, generation: id.generation },
        None => id,
    }
}

/// `b` is `a` with every reference remapped by the renumbering of the
/// store with view `s` from `start`; everything else is kept.
pub open spec fn obj_renum(s: Seq<EntryV>, start: int, a: Object, b: Object) -> bool
    decreases a,
{
    match (a, b) {
        (Object::Null, Object::Null) => true,
        (Object::Boolean(x), Object::Boolean(y)) => x == y,
        (Object::Integer(x), Object::Integer(y)) => x == y,
        (Object::Real(x), Object::Real(y)) => x@ == y@,
        (Object::ByteString(x), Object::ByteString(y)) => x@ == y@,
        (Object::Name(x), Object::Name(y)) => x@ == y@,
        (Object::Reference(x), Object::Reference(y)) => y == renum_id(s, start, x),
        (Object::Array(xs), Object::Array(ys)) => objs_renum(s, start, xs@, ys@),
        (Object::Dictionary(d1), Object::Dictionary(d2)) => dents_renum(
            s,
            start,
            d1.entries@,
            d2.entries@,
        ),
        (Object::Stream(d1, c1), Object::Stream(d2, c2)) => dents_renum(
            s,
            start,
            d1.entries@,
            d2.entries@,
        ) && c1@ == c2@,
        _ => false,
    }
}

pub open spec fn objs_renum(s: Seq<EntryV>, start: int, xs: Seq<Object>, ys: Seq<Object>) -> bool
    decreases xs,
{
    &&& xs.len() == ys.len()
    &&& (xs.len() > 0 ==> obj_renum(s, start, xs[0], ys[0]) && objs_renum(
        s,
        start,
        xs.drop_first(),
        ys.drop_first(),
    ))
}

pub open spec fn dents_renum(
    s: Seq<EntryV>,
    start: int,
    xs: Seq<DictEntry>,
    ys: Seq<DictEntry>,
) -> bool
    decreases xs,
{
    &&& xs.len() == ys.len()
    &&& (xs.len() > 0 ==> xs[0].0@ == ys[0].0@ && obj_renum(s, start, xs[0].1, ys[0].1)
        && dents_renum(s, start, xs.drop_first(), ys.drop_first()))
}

pub proof fn lemma_objs_renum_pointwise(
    s: Seq<EntryV>,
    start: int,
    xs: Seq<Object>,
    ys: Seq<Object>,
)
    requires
        xs.len() == ys.len(),
        forall|i: int| 0 <= i < xs.len() ==> obj_renum(s, start, xs[i], ys[i]),
    ensures
        objs_renum(s, start, xs, ys),
    decreases xs.len(),
{
    if xs.len() > 0 {
        lemma_objs_renum_pointwise(s, start, xs.drop_first(), ys.drop_first());
    }
}

pub proof fn lemma_dents_renum_pointwise(
    s: Seq<EntryV>,
    start: int,
    xs: Seq<DictEntry>,
    ys: Seq<DictEntry>,
)
    requires
        xs.len() == ys.len(),
        forall|i: int|
            0 <= i < xs.len() ==> xs[i].0@ == ys[i].0@ && obj_renum(s, start, xs[i].1, ys[i].1),
    ensures
        dents_renum(s, start, xs, ys),
    decreases xs.len(),
{
    if xs.len() > 0 {
        lemma_dents_renum_pointwise(s, start, xs.drop_first(), ys.drop_first());
    }
}

/// Renumbering relates values of the same shape; a name value is kept as
/// it is.
pub proof fn lemma_obj_renum_shape(s: Seq<EntryV>, start: int, a: Object, b: Object)
    requires
        obj_renum(s, start, a, b),
    ensures
        a.ov() is Name <==> b.ov() is Name,
        a.ov() is Name ==> b.ov() == a.ov(),
        a is Dictionary <==> b is Dictionary,
        a is Dictionary ==> dents_renum(
            s,
            start,
            a->Dictionary_0.entries@,
            b->Dictionary_0.entries@,
        ),
        a.ov() is Stream <==> b.ov() is Stream,
        a.ov() is Stream ==> b.ov()->Stream_1 == a.ov()->Stream_1,
{
    match a {
        Object::Null => {
            assert(b is Null);
        },
        Object::Boolean(_) => {
            assert(b is Boolean);
        },
        Object::Integer(_) => {
            assert(b is Integer);
        },
        Object::Real(_) => {
            assert(b is Real);
        },
        Object::ByteString(_) => {
            assert(b is ByteString);
        },
        Object::Name(x) => {
            assert(b is Name);
            assert(x@ == b->Name_0@);
        },
        Object::Array(_) => {
            assert(b is Array);
        },
        Object::Dictionary(_) => {
            assert(b is Dictionary);
        },
        Object::Reference(_) => {
            assert(b is Reference);
        },
        Object::Stream(_, c) => {
            assert(b is Stream);
            assert(c@ == b->Stream_1@);
        },
    }
}

/// Under entry renumbering, a key is present on one side exactly when it
/// is present on the other, and a name value under a key is kept as it is.
pub proof fn lemma_dents_renum_key(
    s: Seq<EntryV>,
    start: int,
    xs: Seq<DictEntry>,
    ys: Seq<DictEntry>,
    key: Seq<u8>,
)
    requires
        dents_renum(s, start, xs, ys),
    ensures
        dict_kv(xs).contains_key(key) == dict_kv(ys).contains_key(key),
        dict_kv(xs).contains_key(key) ==> (dict_kv(xs)[key] is Name <==> dict_kv(ys)[key]
            is Name),
        dict_kv(xs).contains_key(key) && dict_kv(xs)[key] is Name ==> dict_kv(ys)[key] == dict_kv(
            xs,
        )[key],
    decreases xs.len(),
{
    if xs.len() > 0 {
        assert(xs[0].0@ == ys[0].0@ && obj_renum(s, start, xs[0].1, ys[0].1) && dents_renum(
            s,
            start,
            xs.drop_first(),
            ys.drop_first(),
        ));
        lemma_dents_renum_key(s, start, xs.drop_first(), ys.drop_first(), key);
        assert(dict_kv(xs) == dict_kv(xs.drop_first()).insert(xs[0].0@, xs[0].1.ov()));
        assert(dict_kv(ys) == dict_kv(ys.drop_first()).insert(ys[0].0@, ys[0].1.ov()));
        if xs[0].0@ == key {
            lemma_obj_renum_shape(s, start, xs[0].1, ys[0].1);
        }
    }
}

/// Renumbering keeps a page a page, and a non-page a non-page.
pub proof fn lemma_renum_is_page(s: Seq<EntryV>, start: int, a: Object, b: Object)
    requires
        obj_renum(s, start, a, b),
    ensures
        is_page_v(b.ov()) == is_page_v(a.ov()),
{
    lemma_obj_renum_shape(s, start, a, b);
    match a {
        Object::Dictionary(d1) => {
            lemma_dents_renum_key(
                s,
                start,
                d1.entries@,
                b->Dictionary_0.entries@,
                k_type(),
            );
        },
        _ => {},
    }
}

/// Copy of `o` with every reference remapped by the renumbering of `src`
/// from `start`.
pub fn rewrite_object(src: &ObjectStore, start: u32, o: &Object) -> (r: Object)
    requires
        start + src.entries@.len() <= u32::MAX,
    ensures
        obj_renum(src.sv(), start as int, *o, r),
    decreases *o,
{
    match o {
        Object::Null => Object::Null,
        Object::Boolean(b) => Object::Boolean(*b),
        Object::Integer(i) => Object::Integer(*i),
        Object::Real(v) => Object::Real(copy_bytes(v)),
        Object::ByteString(v) => Object::ByteString(copy_bytes(v)),
        Object::Name(v) => Object::Name(copy_bytes(v)),
        Object::Reference(id) => {
            match src.index_of(*id) {
                Some(k) => {
                    proof {
                        lemma_first_ix(src.sv(), *id);
                    }
                    Object::Reference(
                        ObjectId { number: start + k as u32, generation: id.generation },
                    )
                },
                None => Object::Reference(*id),
            }
        },
        Object::Array(items) => {
            let mut out: Vec<Object> = Vec::new();
            let mut k: usize = 0;
            while k < items.len()
                invariant
                    *o is Array,
                    o->Array_0@ == items@,
                    start + src.entries@.len() <= u32::MAX,
                    k <= items@.len(),
                    out@.len() == k as int,
                    forall|j: int|
                        0 <= j < k ==> obj_renum(src.sv(), start as int, items@[j], out@[j]),
                decreases items@.len() - k,
            {
                proof {
                    assert(decreases_to!(*o => o->Array_0));
                    assert(decreases_to!(o->Array_0 => o->Array_0@));
                    assert(decreases_to!(o->Array_0@ => o->Array_0@[k as int]));
                    assert(o->Array_0@[k as int] == items@[k as int]);
                }
                let w = rewrite_object(src, start, &items[k]);
                out.push(w);
                k = k + 1;
            }
            proof {
                lemma_objs_renum_pointwise(src.sv(), start as int, items@, out@);
            }
            Object::Array(out)
        },
        Object::Dictionary(d) => Object::Dictionary(rewrite_dict(src, start, d)),
        Object::Stream(d, content) => Object::Stream(
            rewrite_dict(src, start, d),
            copy_bytes(content),
        ),
    }
}

/// Copy of `d` with every reference in its values remapped.
pub fn rewrite_dict(src: &ObjectStore, start: u32, d: &Dict) -> (r: Dict)
    requires
        start + src.entries@.len() <= u32::MAX,
    ensures
        dents_renum(src.sv(), start as int, d.entries@, r.entries@),
    decreases *d,
{
    let mut out: Vec<DictEntry> = Vec::new();
    let mut k: usize = 0;
    while k < d.entries.len()
        invariant
            start + src.entries@.len() <= u32::MAX,
            k <= d.entries@.len(),
            out@.len() == k as int,
            forall|j: int|
                0 <= j < k ==> out@[j].0@ == d.entries@[j].0@ && obj_renum(
                    src.sv(),
                    start as int,
                    d.entries@[j].1,
                    out@[j].1,
                ),
        decreases d.entries@.len() - k,
    {
        proof {
            assert(decreases_to!(*d => d.entries));
            assert(decreases_to!(d.entries => d.entries@));
            assert(decreases_to!(d.entries@ => d.entries@[k as int]));
            assert(decreases_to!(d.entries@[k as int] => d.entries@[k as int].1));
        }
        let key = copy_bytes(&d.entries[k].0);
        let val = rewrite_object(src, start, &d.entries[k].1);
        out.push((key, val));
        k = k + 1;
    }
    proof {
        lemma_dents_renum_pointwise(src.sv(), start as int, d.entries@, out@);
    }
    Dict { entries: out }
}

/// New store holding `src`'s objects under identifiers numbered
/// consecutively from `start`, every reference remapped accordingly.
pub fn renumber_store(src: &ObjectStore, start: u32) -> (r: ObjectStore)
    requires
        start + src.entries@.len() <= u32::MAX,
    ensures
        r.sv().len() == src.sv().len(),
        forall|k: int|
            0 <= k < r.sv().len() ==> r.sv()[k].0 == (ObjectId {
                number: (start + k) as u32,
                generation: src.sv()[k].0.generation,
            }),
        forall|k: int|
            0 <= k < r.sv().len() ==> obj_renum(
                src.sv(),
                start as int,
                src.entries@[k].1,
                r.entries@[k].1,
            ),
        forall|k: int| 0 <= k < r.sv().len() ==> r.sv()[k].1 == r.entries@[k].1.ov(),
    {
    let n: usize = src.entries.len();
    let mut out: Vec<(ObjectId, Object)> = Vec::new();
    let mut k: usize = 0;
    while k < n
        invariant
            n == src.entries@.len(),
            start + n <= u32::MAX,
            k <= n,
            out@.len() == k as int,
            forall|j: int|
                0 <= j < k ==> out@[j].0 == (ObjectId {
                    number: (start + j) as u32,
                    generation: src.sv()[j].0.generation,
                }),
            forall|j: int|
                0 <= j < k ==> obj_renum(src.sv(), start as int, src.entries@[j].1, out@[j].1),
        decreases n - k,
    {
        let nid = ObjectId { number: start + k as u32, generation: src.entries[k].0.generation };
        let val = rewrite_object(src, start, &src.entries[k].1);
        out.push((nid, val));
        k = k + 1;
    }
    ObjectStore { entries: out }
}

} // verus!
