use vstd::prelude::*;

use crate::names::{k_parent, key_parent};
use crate::objects::{ObjV, Object, ObjectId};
use crate::store::{first_ix, id_seq, lemma_first_ix, lookup_v, EntryV, ObjectStore};

verus! {

broadcast use
    vstd::seq_lib::seq_to_set_is_finite,
    vstd::seq_lib::lemma_seq_contains_after_push;

/// Value found for `key` by walking the `Parent` chain from `id`, skipping
/// identifiers already visited. The walk stops, without a result, at a
/// missing object, a non-dictionary, a chain end, or a revisited
/// identifier, so a cyclic chain resolves to nothing rather than forever.
pub open spec fn resolve_from(
    s: Seq<EntryV>,
    id: ObjectId,
    key: Seq<u8>,
    visited: Set<ObjectId>,
) -> Option<ObjV>
    decreases id_seq(s).to_set().difference(visited).len()
        when visited.finite()
{
    if visited.contains(id) {
        None
    } else {
        match lookup_v(s, id) {
            Some(ObjV::Dictionary(kv)) => if kv.contains_key(key) {
                Some(kv[key])
            } else if kv.contains_key(k_parent()) && kv[k_parent()] is Reference {
                proof {
                    lemma_first_ix(s, id);
                    assert(id_seq(s)[first_ix(s, id)->Some_0] == id);
                    assert(id_seq(s).contains(id));
                    id_seq(s).to_set().lemma_set_insert_diff_decreases(visited, id);
                }
                resolve_from(s, kv[k_parent()]->Reference_0, key, visited.insert(id))
            } else {
                None
            },
            _ => None,
        }
    }
}

/// Value found for `key` from `id` with nothing visited yet.
pub open spec fn resolve_spec(s: Seq<EntryV>, id: ObjectId, key: Seq<u8>) -> Option<ObjV> {
    resolve_from(s, id, key, Set::empty())
}

/// Whether the vector holds the identifier.
pub fn contains_id(v: &Vec<ObjectId>, x: ObjectId) -> (r: bool)
    ensures
        r == v@.contains(x),
{
    let n: usize = v.len();
    let mut k: usize = 0;
    while k < n
        invariant
            n == v@.len(),
            k <= n,
            forall|j: int| 0 <= j < k ==> v@[j] != x,
        decreases n - k,
    {
        if v[k] == x {
            assert(v@.contains(x)) by {
                assert(v@[k as int] == x);
            }
            return true;
        }
        k = k + 1;
    }
    false
}

/// Walks the ancestor chain from `id` and returns a copy of the first
/// value found for `key`; each identifier is visited at most once, so the
/// walk ends even on a cyclic chain.
pub fn resolve_inherited(store: &ObjectStore, id: ObjectId, key: &[u8]) -> (r: Option<Object>)
    ensures
        match r {
            Some(o) => resolve_spec(store.sv(), id, key@) == Some(o.ov()),
            None => resolve_spec(store.sv(), id, key@) is None,
        },
{
    let mut visited: Vec<ObjectId> = Vec::new();
    let mut cur: ObjectId = id;
    let ghost mut vset = Set::<ObjectId>::empty();
    loop
        invariant
            vset.finite(),
            forall|x: ObjectId| vset.contains(x) == visited@.contains(x),
            resolve_spec(store.sv(), id, key@) == resolve_from(store.sv(), cur, key@, vset),
        decreases id_seq(store.sv()).to_set().difference(vset).len(),
    {
        if contains_id(&visited, cur) {
            return None;
        }
        match store.get(cur) {
            None => {
                return None;
            },
            Some(o) => match o {
                Object::Dictionary(d) => {
                    match d.get(key) {
                        Some(v) => {
                            let c = v.duplicate();
                            return Some(c);
                        },
                        None => {
                            let pk = key_parent();
                            match d.get(pk.as_slice()) {
                                Some(p) => match p {
                                    Object::Reference(pid) => {
                                        let next: ObjectId = *pid;
                                        proof {
                                            lemma_first_ix(store.sv(), cur);
                                            assert(id_seq(store.sv())[first_ix(
                                                store.sv(),
                                                cur,
                                            )->Some_0] == cur);
                                            assert(id_seq(store.sv()).contains(cur));
                                            id_seq(
                                                store.sv(),
                                            ).to_set().lemma_set_insert_diff_decreases(vset, cur);
                                        }
                                        let ghost visited_pre = visited@;
                                        visited.push(cur);
                                        proof {
                                            vset = vset.insert(cur);
                                            assert(visited@ == visited_pre.push(cur));
                                        }
                                        cur = next;
                                    },
                                    _ => {
                                        return None;
                                    },
                                },
                                None => {
                                    return None;
                                },
                            }
                        },
                    }
                },
                _ => {
                    return None;
                },
            },
        }
    }
}

} // verus!
