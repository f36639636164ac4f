use vstd::prelude::*;

use crate::inherit::{resolve_inherited, resolve_spec};
use crate::names::{
    k_catalog, k_count, k_crop_box, k_kids, k_media_box, k_page, k_pages, k_parent, k_resources,
    k_root,
    k_rotate, k_type, k_version, key_catalog, key_count, key_crop_box, key_kids, key_media_box,
    key_pages, key_parent, key_resources, key_root, key_rotate, key_type, version_tag,
};
use crate::objects::{lemma_seq_ov_index, lemma_seq_ov_len, seq_ov, Dict, ObjV, Object, ObjectId};
use crate::renumber::{lemma_obj_renum_shape, lemma_renum_is_page, obj_renum, renumber_store};
use crate::store::{
    first_ix, id_seq, is_page, is_page_v, lemma_first_ix, lookup_v, page_ids_v, page_pred,
    Document, EntryV, ObjectStore, PdfError,
};

verus! {

broadcast use vstd::seq_lib::group_filter_ensures;

/// `kv` with `key` added from the ancestor chain when the dictionary
/// itself lacks it and the chain supplies it.
pub open spec fn with_key(
    s: Seq<EntryV>,
    id: ObjectId,
    kv: Map<Seq<u8>, ObjV>,
    key: Seq<u8>,
) -> Map<Seq<u8>, ObjV> {
    if kv.contains_key(key) {
        kv
    } else {
        match resolve_spec(s, id, key) {
            Some(v) => kv.insert(key, v),
            None => kv,
        }
    }
}

/// A page dictionary after inheritable attributes are made explicit.
pub open spec fn mat_kv(s: Seq<EntryV>, id: ObjectId, kv: Map<Seq<u8>, ObjV>) -> Map<
    Seq<u8>,
    ObjV,
> {
    with_key(
        s,
        id,
        with_key(s, id, with_key(s, id, with_key(s, id, kv, k_resources()), k_media_box()),
            k_crop_box()),
        k_rotate(),
    )
}

/// Objects of the stores in the sequence, counted together.
pub open spec fn total_len(ss: Seq<ObjectStore>) -> int
    decreases ss,
{
    if ss.len() == 0 {
        0
    } else {
        ss[0].sv().len() + total_len(ss.drop_first())
    }
}

/// Pages of the stores in the sequence, counted together.
pub open spec fn total_pages(ss: Seq<ObjectStore>) -> int
    decreases ss,
{
    if ss.len() == 0 {
        0
    } else {
        page_ids_v(ss[0].sv()).len() + total_pages(ss.drop_first())
    }
}

pub proof fn lemma_total_len_nonneg(ss: Seq<ObjectStore>)
    ensures
        total_len(ss) >= 0,
        total_pages(ss) >= 0,
    decreases ss.len(),
{
    if ss.len() > 0 {
        lemma_total_len_nonneg(ss.drop_first());
    }
}

pub proof fn lemma_total_skip(ss: Seq<ObjectStore>, i: int)
    requires
        0 <= i < ss.len(),
    ensures
        total_len(ss.skip(i)) == ss[i].sv().len() + total_len(ss.skip(i + 1)),
        total_pages(ss.skip(i)) == page_ids_v(ss[i].sv()).len() + total_pages(ss.skip(i + 1)),
{
    assert(ss.skip(i).drop_first() =~= ss.skip(i + 1));
    assert(ss.skip(i)[0] == ss[i]);
}

/// Entry sequences that agree on page-ness entry by entry hold equally
/// many pages; if they agree on identifiers too, the same page
/// identifiers in the same order.
pub proof fn lemma_page_count_pointwise(a: Seq<EntryV>, b: Seq<EntryV>)
    requires
        a.len() == b.len(),
        forall|i: int| 0 <= i < a.len() ==> is_page_v(a[i].1) == is_page_v(b[i].1),
    ensures
        page_ids_v(a).len() == page_ids_v(b).len(),
    decreases a.len(),
{
    reveal(Seq::filter);
    let p = page_pred();
    if a.len() > 0 {
        lemma_page_count_pointwise(a.drop_last(), b.drop_last());
        assert(a.filter(p) == if p(a.last()) {
            a.drop_last().filter(p).push(a.last())
        } else {
            a.drop_last().filter(p)
        });
        assert(b.filter(p) == if p(b.last()) {
            b.drop_last().filter(p).push(b.last())
        } else {
            b.drop_last().filter(p)
        });
        assert(p(a.last()) == is_page_v(a[a.len() - 1].1));
        assert(p(b.last()) == is_page_v(b[b.len() - 1].1));
    } else {
        assert(a.filter(p) == a);
        assert(b.filter(p) == b);
    }
}

pub proof fn lemma_page_ids_pointwise(a: Seq<EntryV>, b: Seq<EntryV>)
    requires
        a.len() == b.len(),
        forall|i: int|
            0 <= i < a.len() ==> a[i].0 == b[i].0 && is_page_v(a[i].1) == is_page_v(b[i].1),
    ensures
        page_ids_v(a) == page_ids_v(b),
    decreases a.len(),
{
    reveal(Seq::filter);
    let p = page_pred();
    if a.len() > 0 {
        lemma_page_ids_pointwise(a.drop_last(), b.drop_last());
        let fa = a.drop_last().filter(p);
        let fb = b.drop_last().filter(p);
        assert(a.filter(p) == if p(a.last()) {
            fa.push(a.last())
        } else {
            fa
        });
        assert(b.filter(p) == if p(b.last()) {
            fb.push(b.last())
        } else {
            fb
        });
        assert(p(a.last()) == is_page_v(a[a.len() - 1].1));
        assert(p(b.last()) == is_page_v(b[b.len() - 1].1));
        if p(a.last()) {
            assert(id_seq(fa.push(a.last())) =~= id_seq(fa).push(a.last().0));
            assert(id_seq(fb.push(b.last())) =~= id_seq(fb).push(b.last().0));
            assert(a.last().0 == b.last().0);
        }
    } else {
        assert(a.filter(p) == a);
        assert(b.filter(p) == b);
        assert(page_ids_v(a) =~= page_ids_v(b));
    }
}

/// Appending a non-page entry leaves the page identifiers unchanged.
pub proof fn lemma_page_ids_push(s: Seq<EntryV>, e: EntryV)
    requires
        !is_page_v(e.1),
    ensures
        page_ids_v(s.push(e)) == page_ids_v(s),
{
    reveal(Seq::filter);
    let p = page_pred();
    assert(s.push(e).drop_last() =~= s);
    assert(s.push(e).filter(p) == if p(s.push(e).last()) {
        s.push(e).drop_last().filter(p).push(s.push(e).last())
    } else {
        s.push(e).drop_last().filter(p)
    });
    assert(!p(e));
}

/// Page identifiers are never more numerous than entries.
pub proof fn lemma_page_count_le(s: Seq<EntryV>)
    ensures
        page_ids_v(s).len() <= s.len(),
{
    s.lemma_filter_len(page_pred());
}

/// With pairwise distinct identifiers, the store holds under each entry's
/// identifier that entry's value.
pub proof fn lemma_lookup_at(s: Seq<EntryV>, i: int)
    requires
        0 <= i < s.len(),
        forall|j: int, k: int| 0 <= j < k < s.len() ==> s[j].0 != s[k].0,
    ensures
        lookup_v(s, s[i].0) == Some(s[i].1),
{
    lemma_first_ix(s, s[i].0);
    match first_ix(s, s[i].0) {
        None => {
            assert(s[i].0 == s[i].0);
        },
        Some(j) => {
            if j != i {
                assert(s[j].0 == s[i].0);
            }
        },
    }
}

/// Adds `key` to `nd` from the ancestor chain of `id` when `nd` lacks it.
fn add_inherited(src: &ObjectStore, id: ObjectId, nd: &mut Dict, key: Vec<u8>)
    ensures
        final(nd).kv() == with_key(src.sv(), id, old(nd).kv(), key@),
{
    if !nd.has(key.as_slice()) {
        match resolve_inherited(src, id, key.as_slice()) {
            Some(v) => {
                nd.set(key, v);
            },
            None => {},
        }
    }
}

/// New store in which every page dictionary carries each inheritable
/// attribute its ancestor chain supplies; everything else is kept as it
/// is. Resolution reads the store as it was handed in.
pub fn materialize_inheritance(src: &ObjectStore) -> (r: ObjectStore)
    ensures
        r.sv().len() == src.sv().len(),
        forall|k: int| 0 <= k < r.sv().len() ==> r.sv()[k].0 == src.sv()[k].0,
        forall|k: int|
            0 <= k < r.sv().len() && is_page_v(src.sv()[k].1) ==> r.sv()[k].1 == ObjV::Dictionary(
                mat_kv(src.sv(), src.sv()[k].0, src.sv()[k].1->Dictionary_0),
            ),
        forall|k: int|
            0 <= k < r.sv().len() && !is_page_v(src.sv()[k].1) ==> r.sv()[k].1 == src.sv()[k].1,
{
    let n: usize = src.entries.len();
    let mut out: Vec<(ObjectId, Object)> = Vec::new();
    let mut k: usize = 0;
    while k < n
        invariant
            n == src.entries@.len(),
            k <= n,
            out@.len() == k as int,
            forall|j: int| 0 <= j < k ==> out@[j].0 == src.sv()[j].0,
            forall|j: int|
                0 <= j < k && is_page_v(src.sv()[j].1) ==> out@[j].1.ov() == ObjV::Dictionary(
                    mat_kv(src.sv(), src.sv()[j].0, src.sv()[j].1->Dictionary_0),
                ),
            forall|j: int|
                0 <= j < k && !is_page_v(src.sv()[j].1) ==> out@[j].1.ov() == src.sv()[j].1,
        decreases n - k,
    {
        let id = src.entries[k].0;
        let pg = is_page(&src.entries[k].1);
        if pg {
            match &src.entries[k].1 {
                Object::Dictionary(d) => {
                    let mut nd = d.duplicate();
                    add_inherited(src, id, &mut nd, key_resources());
                    add_inherited(src, id, &mut nd, key_media_box());
                    add_inherited(src, id, &mut nd, key_crop_box());
                    add_inherited(src, id, &mut nd, key_rotate());
                    out.push((id, Object::Dictionary(nd)));
                },
                _ => {
                    proof {
                        assert(false);
                    }
                },
            }
        } else {
            out.push((id, src.entries[k].1.duplicate()));
        }
        k = k + 1;
    }
    let r = ObjectStore { entries: out };
    proof {
        assert forall|k2: int| 0 <= k2 < r.sv().len() implies r.sv()[k2].0 == src.sv()[k2].0
            && r.sv()[k2].1 == r.entries@[k2].1.ov() by {}
    }
    r
}

/// The identifiers of the page objects, in store order.
pub fn collect_page_ids(store: &ObjectStore) -> (r: Vec<ObjectId>)
    ensures
        r@ == page_ids_v(store.sv()),
{
    let n: usize = store.entries.len();
    let mut out: Vec<ObjectId> = Vec::new();
    let mut k: usize = 0;
    proof {
        reveal(Seq::filter);
        assert(store.sv().take(0) =~= Seq::<EntryV>::empty());
        assert(out@ =~= page_ids_v(store.sv().take(0)));
    }
    while k < n
        invariant
            n == store.entries@.len(),
            k <= n,
            out@ == page_ids_v(store.sv().take(k as int)),
        decreases n - k,
    {
        let ghost pre = store.sv().take(k as int);
        let ghost post = store.sv().take(k as int + 1);
        let ghost pred = page_pred();
        proof {
            reveal(Seq::filter);
            assert(post.drop_last() =~= pre);
            assert(post.last() == store.sv()[k as int]);
            assert(post.filter(pred) == if pred(post.last()) {
                post.drop_last().filter(pred).push(post.last())
            } else {
                post.drop_last().filter(pred)
            });
            assert(pred(post.last()) == is_page_v(store.sv()[k as int].1));
        }
        if is_page(&store.entries[k].1) {
            out.push(store.entries[k].0);
            proof {
                assert(post.filter(pred) == pre.filter(pred).push(store.sv()[k as int]));
                assert(id_seq(post.filter(pred)) =~= id_seq(pre.filter(pred)).push(
                    store.sv()[k as int].0,
                ));
            }
        } else {
            proof {
                assert(post.filter(pred) == pre.filter(pred));
            }
        }
        k = k + 1;
    }
    proof {
        assert(store.sv().take(n as int) =~= store.sv());
    }
    out
}

/// New store in which every page's `Parent` is the given root; everything
/// else is kept as it is.
pub fn set_page_parents(src: &ObjectStore, root: ObjectId) -> (r: ObjectStore)
    ensures
        r.sv().len() == src.sv().len(),
        forall|k: int| 0 <= k < r.sv().len() ==> r.sv()[k].0 == src.sv()[k].0,
        forall|k: int|
            0 <= k < r.sv().len() && is_page_v(src.sv()[k].1) ==> r.sv()[k].1 == ObjV::Dictionary(
                src.sv()[k].1->Dictionary_0.insert(k_parent(), ObjV::Reference(root)),
            ),
        forall|k: int|
            0 <= k < r.sv().len() && !is_page_v(src.sv()[k].1) ==> r.sv()[k].1 == src.sv()[k].1,
{
    let n: usize = src.entries.len();
    let mut out: Vec<(ObjectId, Object)> = Vec::new();
    let mut k: usize = 0;
    while k < n
        invariant
            n == src.entries@.len(),
            k <= n,
            out@.len() == k as int,
            forall|j: int| 0 <= j < k ==> out@[j].0 == src.sv()[j].0,
            forall|j: int|
                0 <= j < k && is_page_v(src.sv()[j].1) ==> out@[j].1.ov() == ObjV::Dictionary(
                    src.sv()[j].1->Dictionary_0.insert(k_parent(), ObjV::Reference(root)),
                ),
            forall|j: int|
                0 <= j < k && !is_page_v(src.sv()[j].1) ==> out@[j].1.ov() == src.sv()[j].1,
        decreases n - k,
    {
        let id = src.entries[k].0;
        let pg = is_page(&src.entries[k].1);
        if pg {
            match &src.entries[k].1 {
                Object::Dictionary(d) => {
                    let mut nd = d.duplicate();
                    nd.set(key_parent(), Object::Reference(root));
                    out.push((id, Object::Dictionary(nd)));
                },
                _ => {
                    proof {
                        assert(false);
                    }
                },
            }
        } else {
            out.push((id, src.entries[k].1.duplicate()));
        }
        k = k + 1;
    }
    let r = ObjectStore { entries: out };
    proof {
        assert forall|k2: int| 0 <= k2 < r.sv().len() implies r.sv()[k2].0 == r.entries@[k2].0
            && r.sv()[k2].1 == r.entries@[k2].1.ov() by {}
    }
    r
}

/// Appends copies of `src`'s entries to `dst`, in order.
pub fn append_store(dst: &mut ObjectStore, src: &ObjectStore)
    ensures
        final(dst).sv() == old(dst).sv() + src.sv(),
{
    let n: usize = src.entries.len();
    let mut k: usize = 0;
    proof {
        assert(dst.sv() =~= old(dst).sv() + src.sv().take(0));
    }
    while k < n
        invariant
            n == src.entries@.len(),
            k <= n,
            dst.sv() == old(dst).sv() + src.sv().take(k as int),
        decreases n - k,
    {
        let ghost prior = dst.sv();
        let id = src.entries[k].0;
        let o = src.entries[k].1.duplicate();
        dst.entries.push((id, o));
        proof {
            assert(o.ov() == src.sv()[k as int].1);
            assert(dst.sv() =~= prior.push((id, o.ov())));
            assert(prior.push((id, o.ov())) =~= old(dst).sv() + src.sv().take(k as int + 1));
        }
        k = k + 1;
    }
    proof {
        assert(src.sv().take(n as int) =~= src.sv());
    }
}

/// References to the given identifiers, in order.
pub open spec fn refs_of(ids: Seq<ObjectId>) -> Seq<ObjV> {
    Seq::new(ids.len(), |i: int| ObjV::Reference(ids[i]))
}

/// The dictionary of the rebuilt root node: its kids are the given pages,
/// in order, and its count is their number.
pub open spec fn pages_root_kv(ids: Seq<ObjectId>) -> Map<Seq<u8>, ObjV> {
    Map::empty().insert(k_type(), ObjV::Name(k_pages())).insert(
        k_kids(),
        ObjV::Array(refs_of(ids)),
    ).insert(k_count(), ObjV::Integer(ids.len() as int))
}

/// The dictionary of the catalog: it points at the root node.
pub open spec fn catalog_kv(root: ObjectId) -> Map<Seq<u8>, ObjV> {
    Map::empty().insert(k_type(), ObjV::Name(k_catalog())).insert(
        k_pages(),
        ObjV::Reference(root),
    )
}

/// Identifier of the rebuilt root node after merging these sources.
pub open spec fn merge_root_id(ss: Seq<ObjectStore>) -> ObjectId {
    ObjectId { number: (2 + total_len(ss)) as u32, generation: 0 }
}

/// Identifier of the catalog after merging these sources.
pub open spec fn merge_catalog_id(ss: Seq<ObjectStore>) -> ObjectId {
    ObjectId { number: (3 + total_len(ss)) as u32, generation: 0 }
}


/// Where source `i`'s objects begin inside the merged body: after the
/// objects of the sources before it.
pub open spec fn block_off(ss: Seq<ObjectStore>, i: int) -> int {
    total_len(ss.take(i))
}

pub proof fn lemma_total_len_add(a: Seq<ObjectStore>, b: Seq<ObjectStore>)
    ensures
        total_len(a + b) == total_len(a) + total_len(b),
    decreases a.len(),
{
    if a.len() == 0 {
        assert(a + b =~= b);
    } else {
        assert((a + b).drop_first() =~= a.drop_first() + b);
        assert((a + b)[0] == a[0]);
        lemma_total_len_add(a.drop_first(), b);
    }
}

pub proof fn lemma_block_off_succ(ss: Seq<ObjectStore>, i: int)
    requires
        0 <= i < ss.len(),
    ensures
        block_off(ss, i + 1) == block_off(ss, i) + ss[i].sv().len(),
{
    assert(ss.take(i + 1) =~= ss.take(i) + seq![ss[i]]);
    lemma_total_len_add(ss.take(i), seq![ss[i]]);
    assert(seq![ss[i]].drop_first() =~= Seq::<ObjectStore>::empty());
    assert(total_len(Seq::<ObjectStore>::empty()) == 0);
    assert(total_len(seq![ss[i]]) == ss[i].sv().len());
}

pub proof fn lemma_block_off_mono(ss: Seq<ObjectStore>, a: int, b: int)
    requires
        0 <= a <= b <= ss.len(),
    ensures
        block_off(ss, a) <= block_off(ss, b),
    decreases b - a,
{
    if a < b {
        lemma_block_off_succ(ss, a);
        lemma_block_off_mono(ss, a + 1, b);
    }
}

/// `renum` is `src` renumbered from `start`: consecutive fresh numbers
/// in store order, generations kept, every reference remapped.
pub open spec fn renum_of(src: ObjectStore, renum: ObjectStore, start: int) -> bool {
    &&& renum.sv().len() == src.sv().len()
    &&& (forall|k: int|
        0 <= k < src.sv().len() ==> (#[trigger] renum.sv()[k].0) == (ObjectId {
            number: (start + k) as u32,
            generation: src.sv()[k].0.generation,
        }))
    &&& (forall|k: int|
        0 <= k < src.sv().len() ==> obj_renum(
            src.sv(),
            start,
            #[trigger] src.entries@[k].1,
            renum.entries@[k].1,
        ))
}

/// Value of a renumbered entry after inheritance materialization.
pub open spec fn prep_value(rsv: Seq<EntryV>, k: int) -> ObjV {
    if is_page_v(rsv[k].1) {
        ObjV::Dictionary(mat_kv(rsv, rsv[k].0, rsv[k].1->Dictionary_0))
    } else {
        rsv[k].1
    }
}

/// Value of a renumbered entry after materialization and the parent
/// rewrite.
pub open spec fn prepared_value(rsv: Seq<EntryV>, k: int, root: ObjectId) -> ObjV {
    if is_page_v(rsv[k].1) {
        ObjV::Dictionary(
            mat_kv(rsv, rsv[k].0, rsv[k].1->Dictionary_0).insert(
                k_parent(),
                ObjV::Reference(root),
            ),
        )
    } else {
        rsv[k].1
    }
}

pub open spec fn block_prepped_by(
    src: ObjectStore,
    renum: ObjectStore,
    start: int,
    bsv: Seq<EntryV>,
    off: int,
) -> bool {
    &&& renum_of(src, renum, start)
    &&& off >= 0
    &&& off + src.sv().len() <= bsv.len()
    &&& (forall|k: int|
        0 <= k < src.sv().len() ==> (#[trigger] bsv[off + k]) == (
            renum.sv()[k].0,
            prep_value(renum.sv(), k),
        ))
}

/// Source `src` stands materialized, not yet parented, in `bsv` from
/// `off` on, under some renumbering from `start`.
pub open spec fn block_prepped(src: ObjectStore, start: int, bsv: Seq<EntryV>, off: int) -> bool {
    exists|renum: ObjectStore| #[trigger] block_prepped_by(src, renum, start, bsv, off)
}

pub open spec fn block_merged_by(
    src: ObjectStore,
    renum: ObjectStore,
    start: int,
    msv: Seq<EntryV>,
    off: int,
    root: ObjectId,
) -> bool {
    &&& renum_of(src, renum, start)
    &&& off >= 0
    &&& off + src.sv().len() <= msv.len()
    &&& (forall|k: int|
        0 <= k < src.sv().len() ==> (#[trigger] msv[off + k]) == (
            renum.sv()[k].0,
            prepared_value(renum.sv(), k, root),
        ))
}

/// Source `src` stands in the merged store from `off` on: renumbered
/// from `start`, each page's inheritable attributes materialized from
/// the renumbered source and its parent set to `root`, everything else
/// exactly as renumbering left it.
pub open spec fn block_merged(
    src: ObjectStore,
    start: int,
    msv: Seq<EntryV>,
    off: int,
    root: ObjectId,
) -> bool {
    exists|renum: ObjectStore| #[trigger] block_merged_by(src, renum, start, msv, off, root)
}


/// Entries of source `i`'s block inside the merged store view.
pub open spec fn block_slice(ss: Seq<ObjectStore>, msv: Seq<EntryV>, i: int) -> Seq<EntryV> {
    msv.subrange(block_off(ss, i), block_off(ss, i) + ss[i].sv().len())
}

/// The page identifiers of the first `i` blocks, block by block.
pub open spec fn blocks_pages(ss: Seq<ObjectStore>, msv: Seq<EntryV>, i: int) -> Seq<ObjectId>
    decreases i,
{
    if i <= 0 {
        Seq::empty()
    } else {
        blocks_pages(ss, msv, i - 1) + page_ids_v(block_slice(ss, msv, i - 1))
    }
}

pub proof fn lemma_total_pages_succ(ss: Seq<ObjectStore>, i: int)
    requires
        0 <= i < ss.len(),
    ensures
        total_pages(ss.take(i + 1)) == total_pages(ss.take(i)) + page_ids_v(ss[i].sv()).len(),
    decreases ss.len() - i,
{
    lemma_total_pages_add(ss.take(i), seq![ss[i]]);
    assert(ss.take(i + 1) =~= ss.take(i) + seq![ss[i]]);
    assert(seq![ss[i]].drop_first() =~= Seq::<ObjectStore>::empty());
    assert(total_pages(Seq::<ObjectStore>::empty()) == 0);
    assert(total_pages(seq![ss[i]]) == page_ids_v(ss[i].sv()).len());
}

pub proof fn lemma_total_pages_add(a: Seq<ObjectStore>, b: Seq<ObjectStore>)
    ensures
        total_pages(a + b) == total_pages(a) + total_pages(b),
    decreases a.len(),
{
    if a.len() == 0 {
        assert(a + b =~= b);
    } else {
        assert((a + b).drop_first() =~= a.drop_first() + b);
        assert((a + b)[0] == a[0]);
        lemma_total_pages_add(a.drop_first(), b);
    }
}

/// Splitting a view in two splits its page identifiers in two.
pub proof fn lemma_page_ids_split(a: Seq<EntryV>, b: Seq<EntryV>)
    ensures
        page_ids_v(a + b) == page_ids_v(a) + page_ids_v(b),
{
    let p = page_pred();
    assert((a + b).filter(p) == a.filter(p) + b.filter(p));
    assert(id_seq(a.filter(p) + b.filter(p)) =~= id_seq(a.filter(p)) + id_seq(b.filter(p)));
}

/// The law the merge contract carries about page order, in one claim:
/// the merged store's page identifiers are the concatenation, in source
/// order, of the page identifiers of each source's block; each block
/// holds a page exactly where its source holds one, so every source
/// page appears exactly once, sources in list order, each source's own
/// page order kept.
pub proof fn lemma_merged_pages_concatenated(ss: Seq<ObjectStore>, doc: Document)
    requires
        ss.len() >= 1,
        merged_doc_ok(ss, doc),
        forall|i: int|
            0 <= i < ss.len() ==> #[trigger] block_merged(
                ss[i],
                2 + block_off(ss, i),
                doc.store.sv(),
                block_off(ss, i),
                merge_root_id(ss),
            ),
    ensures
        page_ids_v(doc.store.sv()) == blocks_pages(ss, doc.store.sv(), ss.len() as int),
        forall|i: int, k: int|
            0 <= i < ss.len() && 0 <= k < ss[i].sv().len() ==> is_page_v(
                #[trigger] block_slice(ss, doc.store.sv(), i)[k].1,
            ) == is_page_v(ss[i].sv()[k].1),
{
    let msv = doc.store.sv();
    let n = ss.len() as int;
    let root = merge_root_id(ss);
    assert(ss.take(n) =~= ss);
    // each block's entries are pages exactly where the source's are
    assert forall|i: int, k: int|
        0 <= i < n && 0 <= k < ss[i].sv().len() implies is_page_v(
        #[trigger] block_slice(ss, msv, i)[k].1) == is_page_v(ss[i].sv()[k].1) by {
        lemma_block_off_succ(ss, i);
        lemma_block_off_mono(ss, 0, i);
        lemma_block_off_mono(ss, i + 1, n);
        assert(block_merged(ss[i], 2 + block_off(ss, i), msv, block_off(ss, i), root));
        let rj = choose|rj: ObjectStore|
            #[trigger] block_merged_by(
                ss[i],
                rj,
                2 + block_off(ss, i),
                msv,
                block_off(ss, i),
                root,
            );
        assert(block_slice(ss, msv, i)[k] == msv[block_off(ss, i) + k]);
        assert(msv[block_off(ss, i) + k].1 == prepared_value(rj.sv(), k, root));
        if is_page_v(rj.sv()[k].1) {
            lemma_mat_preserves_page(rj.sv(), rj.sv()[k].0, rj.sv()[k].1->Dictionary_0);
            lemma_parent_preserves_page(
                mat_kv(rj.sv(), rj.sv()[k].0, rj.sv()[k].1->Dictionary_0),
                root,
            );
        }
        lemma_renum_is_page(
            ss[i].sv(),
            2 + block_off(ss, i),
            ss[i].entries@[k].1,
            rj.entries@[k].1,
        );
        assert(ss[i].sv()[k].1 == ss[i].entries@[k].1.ov());
        assert(rj.sv()[k].1 == rj.entries@[k].1.ov());
    }
    // the first blocks' pages count to the sources' pages
    assert forall|i: int| 0 <= i <= n implies page_ids_v(msv.take(block_off(ss, i)))
        == blocks_pages(ss, msv, i) && blocks_pages(ss, msv, i).len() == total_pages(
        ss.take(i),
    ) by {
        lemma_blocks_pages_prefix(ss, msv, i, root);
    }
    // beyond the blocks nothing is a page, by counting
    assert(block_off(ss, n) == total_len(ss));
    assert(page_ids_v(msv.take(block_off(ss, n))) == blocks_pages(ss, msv, n)
        && blocks_pages(ss, msv, n).len() == total_pages(ss.take(n)));
    let head = msv.take(total_len(ss));
    let tail = msv.skip(total_len(ss));
    assert(head == msv.take(block_off(ss, n)));
    lemma_total_len_nonneg(ss);
    assert(msv.len() == total_len(ss) + 2);
    assert(msv =~= head + tail);
    lemma_page_ids_split(head, tail);
    assert(page_ids_v(msv) == page_ids_v(head) + page_ids_v(tail));
    assert(page_ids_v(msv).len() == total_pages(ss));
    assert(page_ids_v(head).len() == total_pages(ss));
    assert(page_ids_v(tail).len() == 0);
    assert(page_ids_v(msv) =~= page_ids_v(head));
}

pub proof fn lemma_blocks_pages_prefix(
    ss: Seq<ObjectStore>,
    msv: Seq<EntryV>,
    i: int,
    root: ObjectId,
)
    requires
        0 <= i <= ss.len(),
        block_off(ss, ss.len() as int) <= msv.len(),
        forall|j: int|
            0 <= j < ss.len() ==> #[trigger] block_merged(
                ss[j],
                2 + block_off(ss, j),
                msv,
                block_off(ss, j),
                root,
            ),
        forall|j: int, k: int|
            0 <= j < ss.len() && 0 <= k < ss[j].sv().len() ==> is_page_v(
                #[trigger] block_slice(ss, msv, j)[k].1,
            ) == is_page_v(ss[j].sv()[k].1),
    ensures
        page_ids_v(msv.take(block_off(ss, i))) == blocks_pages(ss, msv, i),
        blocks_pages(ss, msv, i).len() == total_pages(ss.take(i)),
    decreases i,
{
    if i == 0 {
        assert(msv.take(0) =~= Seq::<EntryV>::empty());
        assert(ss.take(0) =~= Seq::<ObjectStore>::empty());
        reveal(Seq::filter);
        assert(page_ids_v(Seq::<EntryV>::empty()) =~= Seq::<ObjectId>::empty());
        assert(total_pages(Seq::<ObjectStore>::empty()) == 0);
    } else {
        lemma_blocks_pages_prefix(ss, msv, i - 1, root);
        lemma_block_off_succ(ss, i - 1);
        assert(ss.take(0) =~= Seq::<ObjectStore>::empty());
        assert(block_off(ss, 0) == 0);
        lemma_block_off_mono(ss, 0, i - 1);
        lemma_block_off_mono(ss, i, ss.len() as int);
        assert(0 <= block_off(ss, i - 1));
        assert(block_off(ss, i) <= msv.len());
        assert(msv.take(block_off(ss, i)) =~= msv.take(block_off(ss, i - 1)) + block_slice(
            ss,
            msv,
            i - 1,
        ));
        lemma_page_ids_split(msv.take(block_off(ss, i - 1)), block_slice(ss, msv, i - 1));
        lemma_page_count_pointwise(block_slice(ss, msv, i - 1), ss[i - 1].sv());
        lemma_total_pages_succ(ss, i - 1);
    }
}

/// A stream value is kept: same shape, same payload.
pub open spec fn stream_kept(a: ObjV, b: ObjV) -> bool {
    a is Stream ==> b is Stream && b->Stream_1 == a->Stream_1
}

/// What holds of a document merged from these sources: as many pages as
/// the sources hold together; a root node whose kids are exactly the
/// merged pages in store order and whose count is their number; every
/// page's parent the root node; a catalog pointing at the root; the
/// trailer pointing at the catalog; and pairwise distinct identifiers.
pub open spec fn merged_doc_ok(ss: Seq<ObjectStore>, doc: Document) -> bool {
    let msv = doc.store.sv();
    let pages = page_ids_v(msv);
    let root = merge_root_id(ss);
    let cat = merge_catalog_id(ss);
    &&& msv.len() == total_len(ss) + 2
    &&& doc.store.wf()
    &&& pages.len() == total_pages(ss)
    &&& lookup_v(msv, root) == Some(ObjV::Dictionary(pages_root_kv(pages)))
    &&& lookup_v(msv, cat) == Some(ObjV::Dictionary(catalog_kv(root)))
    &&& (forall|k: int|
        0 <= k < msv.len() && #[trigger] is_page_v(msv[k].1)
            ==> msv[k].1->Dictionary_0.contains_key(k_parent())
            && msv[k].1->Dictionary_0[k_parent()] == ObjV::Reference(root))
    &&& doc.trailer.kv() == Map::empty().insert(k_root(), ObjV::Reference(cat))
    &&& doc.version@ == k_version()
}

/// A freshly renumbered page keeps its page-ness through inheritance
/// materialization: only the four inheritable keys are touched.
pub proof fn lemma_mat_preserves_page(s: Seq<EntryV>, id: ObjectId, kv: Map<Seq<u8>, ObjV>)
    ensures
        is_page_v(ObjV::Dictionary(mat_kv(s, id, kv))) == is_page_v(ObjV::Dictionary(kv)),
{
    assert(k_resources() != k_type() && k_media_box() != k_type() && k_crop_box() != k_type()
        && k_rotate() != k_type()) by {
        assert(k_resources().len() == 9 && k_media_box().len() == 8 && k_crop_box().len() == 7
            && k_rotate().len() == 6 && k_type().len() == 4);
    }
}

/// Setting a page's parent keeps its page-ness.
pub proof fn lemma_parent_preserves_page(kv: Map<Seq<u8>, ObjV>, root: ObjectId)
    ensures
        is_page_v(ObjV::Dictionary(kv.insert(k_parent(), ObjV::Reference(root)))) == is_page_v(
            ObjV::Dictionary(kv),
        ),
{
    assert(k_parent() != k_type()) by {
        assert(k_parent().len() == 6 && k_type().len() == 4);
    }
}

/// Appends one flat root node whose kids are the given pages, in
/// order, and whose count is their number, and returns its identifier.
/// Parent pointers on the pages are the caller's to fix.
pub fn build_page_tree(store: &mut ObjectStore, page_ids: &Vec<ObjectId>, root_number: u32) -> (r:
    ObjectId)
    requires
        page_ids@.len() <= u32::MAX,
    ensures
        r == (ObjectId { number: root_number, generation: 0 }),
        final(store).sv() == old(store).sv().push(
            (r, ObjV::Dictionary(pages_root_kv(page_ids@))),
        ),
{
    let mut kids: Vec<Object> = Vec::new();
    let nk: usize = page_ids.len();
    let mut k: usize = 0;
    while k < nk
        invariant
            nk == page_ids@.len(),
            k <= nk,
            kids@.len() == k as int,
            forall|j: int| 0 <= j < k ==> kids@[j] == Object::Reference(page_ids@[j]),
        decreases nk - k,
    {
        kids.push(Object::Reference(page_ids[k]));
        k = k + 1;
    }
    proof {
        lemma_seq_ov_len(kids@);
        assert forall|j: int| 0 <= j < kids@.len() implies seq_ov(kids@)[j] == refs_of(
            page_ids@,
        )[j] by {
            lemma_seq_ov_index(kids@, j);
        }
        assert(seq_ov(kids@) =~= refs_of(page_ids@));
    }
    let mut rd = Dict { entries: Vec::new() };
    proof {
        assert(rd.entries@ =~= Seq::<crate::objects::DictEntry>::empty());
        assert(rd.kv() =~= Map::<Seq<u8>, ObjV>::empty());
    }
    rd.set(key_type(), Object::Name(key_pages()));
    rd.set(key_kids(), Object::Array(kids));
    rd.set(key_count(), Object::Integer(page_ids.len() as i64));
    let root_id = ObjectId { number: root_number, generation: 0 };
    let ghost pre = store.sv();
    store.entries.push((root_id, Object::Dictionary(rd)));
    proof {
        assert(rd.kv() == pages_root_kv(page_ids@));
        assert(store.sv() =~= pre.push((root_id, ObjV::Dictionary(rd.kv()))));
    }
    root_id
}

/// Merges the sources, in order, into one document: every object of every
/// source under a fresh identifier, each page's inheritable attributes
/// made explicit before its original ancestry is discarded, one flat
/// rebuilt root node holding every page in order, and a catalog the
/// trailer points at. Fails exactly on an empty source list, with
/// `NoInputFiles`.
pub fn merge_documents(sources: Vec<ObjectStore>) -> (r: Result<Document, PdfError>)
    requires
        total_len(sources@) + 4 <= u32::MAX,
    ensures
        r is Err <==> sources@.len() == 0,
        r matches Err(e) ==> e is NoInputFiles,
        r matches Ok(doc) ==> merged_doc_ok(sources@, doc),
        r matches Ok(doc) ==> forall|i: int|
            0 <= i < sources@.len() ==> #[trigger] block_merged(
                sources@[i],
                2 + block_off(sources@, i),
                doc.store.sv(),
                block_off(sources@, i),
                merge_root_id(sources@),
            ),
        sources@.len() == 1 ==> (r matches Ok(doc) ==> forall|k: int|
            0 <= k < sources@[0].sv().len() ==> #[trigger] stream_kept(
                sources@[0].sv()[k].1,
                doc.store.sv()[k].1,
            )),
{
    if sources.len() == 0 {
        return Err(PdfError::NoInputFiles);
    }
    let ghost ss = sources@;
    let n: usize = sources.len();
    let mut body = ObjectStore::new();
    let mut next: u32 = 2;
    let mut i: usize = 0;
    proof {
        assert(ss.skip(0) =~= ss);
        assert(ss.take(0) =~= Seq::<ObjectStore>::empty());
    }
    while i < n
        invariant
            n == ss.len(),
            sources@ == ss,
            total_len(ss) + 4 <= u32::MAX,
            i <= n,
            next == 2 + body.sv().len(),
            body.sv().len() == block_off(ss, i as int),
            body.sv().len() + total_len(ss.skip(i as int)) == total_len(ss),
            page_ids_v(body.sv()).len() + total_pages(ss.skip(i as int)) == total_pages(ss),
            forall|k: int|
                0 <= k < body.sv().len() ==> (#[trigger] body.sv()[k].0).number == 2 + k,
            forall|j: int|
                0 <= j < i ==> #[trigger] block_prepped(
                    ss[j],
                    2 + block_off(ss, j),
                    body.sv(),
                    block_off(ss, j),
                ),
            ss.len() == 1 && i == 1 ==> body.sv().len() == ss[0].sv().len() && (forall|k: int|
                0 <= k < body.sv().len() ==> #[trigger] stream_kept(
                    ss[0].sv()[k].1,
                    body.sv()[k].1,
                )),
        decreases n - i,
    {
        proof {
            lemma_total_skip(ss, i as int);
            lemma_total_len_nonneg(ss.skip(i as int + 1));
            lemma_page_count_le(ss[i as int].sv());
        }
        let src = &sources[i];
        let renum = renumber_store(src, next);
        let prep = materialize_inheritance(&renum);
        proof {
            assert forall|k: int| 0 <= k < renum.sv().len() implies is_page_v(renum.sv()[k].1)
                == is_page_v(src.sv()[k].1) by {
                lemma_renum_is_page(
                    src.sv(),
                    next as int,
                    src.entries@[k].1,
                    renum.entries@[k].1,
                );
                assert(src.sv()[k].1 == src.entries@[k].1.ov());
                assert(renum.sv()[k].1 == renum.entries@[k].1.ov());
            }
            lemma_page_count_pointwise(src.sv(), renum.sv());
            assert forall|k: int| 0 <= k < prep.sv().len() implies is_page_v(prep.sv()[k].1)
                == is_page_v(renum.sv()[k].1) by {
                if is_page_v(renum.sv()[k].1) {
                    lemma_mat_preserves_page(
                        renum.sv(),
                        renum.sv()[k].0,
                        renum.sv()[k].1->Dictionary_0,
                    );
                }
            }
            lemma_page_count_pointwise(renum.sv(), prep.sv());
        }
        let ghost body_pre = body.sv();
        proof {
            assert forall|j: int| 0 <= j < i implies #[trigger] block_prepped(
                ss[j],
                2 + block_off(ss, j),
                body_pre,
                block_off(ss, j),
            ) by {
                assert(block_prepped(ss[j], 2 + block_off(ss, j), body.sv(), block_off(ss, j)));
            }
        }
        append_store(&mut body, &prep);
        proof {
            assert((body_pre + prep.sv()).filter(page_pred()) == body_pre.filter(page_pred())
                + prep.sv().filter(page_pred()));
            assert(page_ids_v(body.sv()).len() == page_ids_v(body_pre).len() + page_ids_v(
                prep.sv(),
            ).len());
            lemma_block_off_succ(ss, i as int);
            assert(renum_of(ss[i as int], renum, next as int));
            assert forall|k: int| 0 <= k < ss[i as int].sv().len() implies (
            #[trigger] body.sv()[body_pre.len() + k]) == (
                renum.sv()[k].0,
                prep_value(renum.sv(), k),
            ) by {
                assert(body.sv()[body_pre.len() + k] == prep.sv()[k]);
            }
            assert(block_prepped_by(
                ss[i as int],
                renum,
                next as int,
                body.sv(),
                body_pre.len() as int,
            ));
            assert(block_prepped(
                ss[i as int],
                2 + block_off(ss, i as int),
                body.sv(),
                block_off(ss, i as int),
            ));
            assert forall|j: int| 0 <= j < i implies #[trigger] block_prepped(
                ss[j],
                2 + block_off(ss, j),
                body.sv(),
                block_off(ss, j),
            ) by {
                assert(block_prepped(ss[j], 2 + block_off(ss, j), body_pre, block_off(ss, j)));
                let rj = choose|rj: ObjectStore|
                    #[trigger] block_prepped_by(
                        ss[j],
                        rj,
                        2 + block_off(ss, j),
                        body_pre,
                        block_off(ss, j),
                    );
                lemma_block_off_succ(ss, j);
                lemma_block_off_mono(ss, j + 1, i as int);
                assert forall|k: int| 0 <= k < ss[j].sv().len() implies (
                #[trigger] body.sv()[block_off(ss, j) + k]) == (
                    rj.sv()[k].0,
                    prep_value(rj.sv(), k),
                ) by {
                    assert(block_off(ss, j) + k < body_pre.len());
                    assert(body.sv()[block_off(ss, j) + k] == body_pre[block_off(ss, j) + k]);
                }
                assert(block_prepped_by(ss[j], rj, 2 + block_off(ss, j), body.sv(), block_off(
                    ss,
                    j,
                )));
            }
            if ss.len() == 1 && i == 0 {
                assert(body_pre =~= Seq::<EntryV>::empty());
                assert(body.sv() =~= prep.sv());
                assert forall|k: int| 0 <= k < body.sv().len() implies #[trigger] stream_kept(
                    ss[0].sv()[k].1,
                    body.sv()[k].1,
                ) by {
                    lemma_obj_renum_shape(
                        src.sv(),
                        next as int,
                        src.entries@[k].1,
                        renum.entries@[k].1,
                    );
                    assert(src.sv()[k].1 == src.entries@[k].1.ov());
                    assert(renum.sv()[k].1 == renum.entries@[k].1.ov());
                    if is_page_v(renum.sv()[k].1) {
                        assert(!(renum.sv()[k].1 is Stream));
                    } else {
                        assert(prep.sv()[k].1 == renum.sv()[k].1);
                    }
                }
            }
        }
        next = next + src.entries.len() as u32;
        i = i + 1;
    }
    proof {
        assert(ss.skip(n as int) =~= Seq::<ObjectStore>::empty());
        assert(body.sv().len() == total_len(ss));
        assert(page_ids_v(body.sv()).len() == total_pages(ss));
    }
    let page_ids = collect_page_ids(&body);
    let root_id = ObjectId { number: next, generation: 0 };
    let cat_id = ObjectId { number: next + 1, generation: 0 };
    let mut out = set_page_parents(&body, root_id);
    proof {
        assert forall|k: int| 0 <= k < out.sv().len() implies is_page_v(out.sv()[k].1)
            == is_page_v(body.sv()[k].1) by {
            if is_page_v(body.sv()[k].1) {
                lemma_parent_preserves_page(body.sv()[k].1->Dictionary_0, root_id);
            }
        }
        lemma_page_ids_pointwise(body.sv(), out.sv());
        lemma_page_count_le(body.sv());
    }
    let ghost parented_sv = out.sv();
    proof {
        lemma_page_count_le(body.sv());
    }
    let built_root = build_page_tree(&mut out, &page_ids, next);
    let ghost with_root_sv = out.sv();
    proof {
        assert(built_root == root_id);
        assert(with_root_sv == parented_sv.push(
            (root_id, ObjV::Dictionary(pages_root_kv(page_ids@))),
        ));
    }
    let mut cd = Dict { entries: Vec::new() };
    proof {
        assert(cd.entries@ =~= Seq::<crate::objects::DictEntry>::empty());
        assert(cd.kv() =~= Map::<Seq<u8>, ObjV>::empty());
    }
    cd.set(key_type(), Object::Name(key_catalog()));
    cd.set(key_pages(), Object::Reference(root_id));
    out.entries.push((cat_id, Object::Dictionary(cd)));
    proof {
        assert(out.sv() =~= with_root_sv.push((cat_id, ObjV::Dictionary(cd.kv()))));
        assert(cd.kv() == catalog_kv(root_id));
    }
    let mut td = Dict { entries: Vec::new() };
    proof {
        assert(td.entries@ =~= Seq::<crate::objects::DictEntry>::empty());
        assert(td.kv() =~= Map::<Seq<u8>, ObjV>::empty());
    }
    td.set(key_root(), Object::Reference(cat_id));
    let doc = Document { version: version_tag(), store: out, trailer: td };
    proof {
        let msv = doc.store.sv();
        let bl = parented_sv.len() as int;
        // the two fresh nodes are not pages
        assert(!is_page_v(ObjV::Dictionary(pages_root_kv(page_ids@)))) by {
            assert(k_kids() != k_type()) by {
                assert(k_kids()[0] == 0x4Bu8 && k_type()[0] == 0x54u8);
            }
            assert(k_count() != k_type()) by {
                assert(k_count().len() == 5 && k_type().len() == 4);
            }
            assert(k_pages() != k_page()) by {
                assert(k_pages().len() == 5 && k_page().len() == 4);
            }
        }
        assert(!is_page_v(ObjV::Dictionary(cd.kv()))) by {
            assert(k_pages() != k_type()) by {
                assert(k_pages().len() == 5 && k_type().len() == 4);
            }
            assert(k_catalog() != k_page()) by {
                assert(k_catalog().len() == 7 && k_page().len() == 4);
            }
        }
        lemma_page_ids_push(parented_sv, (root_id, ObjV::Dictionary(pages_root_kv(page_ids@))));
        lemma_page_ids_push(with_root_sv, (cat_id, ObjV::Dictionary(cd.kv())));
        assert(page_ids_v(msv) == page_ids_v(parented_sv));
        assert(page_ids_v(msv) == page_ids_v(body.sv()));
        assert(page_ids_v(msv).len() == total_pages(ss));
        // identifiers: the number of the entry at index k is 2 + k
        assert forall|j: int| 0 <= j < msv.len() implies (#[trigger] msv[j].0).number == 2
            + j by {
            if j < bl {
                assert(msv[j].0 == body.sv()[j].0);
            }
        }
        assert forall|j: int, k2: int| 0 <= j < k2 < msv.len() implies msv[j].0
            != msv[k2].0 by {
            assert(msv[j].0.number == 2 + j && msv[k2].0.number == 2 + k2);
        }
        // the root node
        assert(msv[bl] == (root_id, ObjV::Dictionary(pages_root_kv(page_ids@))));
        lemma_lookup_at(msv, bl);
        assert(root_id == merge_root_id(ss));
        // the catalog
        assert(msv[bl + 1] == (cat_id, ObjV::Dictionary(catalog_kv(root_id))));
        lemma_lookup_at(msv, bl + 1);
        assert(cat_id == merge_catalog_id(ss));
        // every page's parent is the root
        assert forall|k2: int|
            0 <= k2 < msv.len() && #[trigger] is_page_v(msv[k2].1) implies (
        msv[k2].1->Dictionary_0.contains_key(k_parent())
            && msv[k2].1->Dictionary_0[k_parent()] == ObjV::Reference(root_id)) by {
            assert(k2 < bl);
            assert(msv[k2].1 == out.sv()[k2].1);
            assert(is_page_v(body.sv()[k2].1));
        }
        assert(page_ids_v(msv) == page_ids@);
        assert(ss.take(n as int) =~= ss);
        assert forall|i2: int| 0 <= i2 < ss.len() implies #[trigger] block_merged(
            ss[i2],
            2 + block_off(ss, i2),
            msv,
            block_off(ss, i2),
            root_id,
        ) by {
            assert(block_prepped(ss[i2], 2 + block_off(ss, i2), body.sv(), block_off(ss, i2)));
            let rj = choose|rj: ObjectStore|
                #[trigger] block_prepped_by(
                    ss[i2],
                    rj,
                    2 + block_off(ss, i2),
                    body.sv(),
                    block_off(ss, i2),
                );
            lemma_block_off_succ(ss, i2);
            lemma_block_off_mono(ss, i2 + 1, ss.len() as int);
            assert forall|k: int| 0 <= k < ss[i2].sv().len() implies (
            #[trigger] msv[block_off(ss, i2) + k]) == (
                rj.sv()[k].0,
                prepared_value(rj.sv(), k, root_id),
            ) by {
                let m = block_off(ss, i2) + k;
                assert(m < bl);
                assert(body.sv()[m] == (rj.sv()[k].0, prep_value(rj.sv(), k)));
                assert(msv[m].1 == out.sv()[m].1);
                assert(msv[m].0 == out.sv()[m].0);
                assert(out.sv()[m].0 == body.sv()[m].0);
                if is_page_v(rj.sv()[k].1) {
                    lemma_mat_preserves_page(rj.sv(), rj.sv()[k].0, rj.sv()[k].1->Dictionary_0);
                    assert(is_page_v(body.sv()[m].1));
                    assert(out.sv()[m].1 == ObjV::Dictionary(
                        body.sv()[m].1->Dictionary_0.insert(k_parent(), ObjV::Reference(root_id)),
                    ));
                    assert(body.sv()[m].1->Dictionary_0 == mat_kv(
                        rj.sv(),
                        rj.sv()[k].0,
                        rj.sv()[k].1->Dictionary_0,
                    ));
                } else {
                    assert(!is_page_v(body.sv()[m].1));
                    assert(out.sv()[m].1 == body.sv()[m].1);
                }
            }
            assert(block_merged_by(ss[i2], rj, 2 + block_off(ss, i2), msv, block_off(ss, i2),
                root_id));
        }
        if ss.len() == 1 {
            assert forall|k2: int| 0 <= k2 < ss[0].sv().len() implies #[trigger] stream_kept(
                ss[0].sv()[k2].1,
                msv[k2].1,
            ) by {
                assert(k2 < bl);
                assert(msv[k2].1 == out.sv()[k2].1);
                assert(stream_kept(ss[0].sv()[k2].1, body.sv()[k2].1));
                if ss[0].sv()[k2].1 is Stream {
                    assert(body.sv()[k2].1 is Stream);
                    assert(!is_page_v(body.sv()[k2].1));
                    assert(out.sv()[k2].1 == body.sv()[k2].1);
                }
            }
        }
    }
    Ok(doc)
}

} // verus!
