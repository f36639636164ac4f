use rustypdf::inherit::resolve_inherited;
use rustypdf::merge::{collect_page_ids, materialize_inheritance, merge_documents};
use rustypdf::objects::{Dict, Object, ObjectId};
use rustypdf::renumber::renumber_store;
use rustypdf::store::{Document, ObjectStore, PdfError};

fn id(n: u32) -> ObjectId {
    ObjectId { number: n, generation: 0 }
}

fn name(s: &str) -> Object {
    Object::Name(s.as_bytes().to_vec())
}

fn dict(entries: Vec<(&str, Object)>) -> Dict {
    Dict { entries: entries.into_iter().map(|(k, v)| (k.as_bytes().to_vec(), v)).collect() }
}

fn page(extra: Vec<(&str, Object)>) -> Object {
    let mut e = vec![("Type", name("Page"))];
    e.extend(extra);
    Object::Dictionary(dict(e))
}

fn get<'a>(d: &'a Dict, key: &str) -> Option<&'a Object> {
    d.get(key.as_bytes())
}

fn must_dict(o: &Object) -> &Dict {
    match o {
        Object::Dictionary(d) => d,
        _ => panic!("expected a dictionary"),
    }
}

#[test]
fn merge_of_nothing_fails_with_no_input_files() {
    let r = merge_documents(vec![]);
    assert!(matches!(r, Err(PdfError::NoInputFiles)));
}

#[test]
fn merge_counts_and_orders_pages_across_sources() {
    let a = ObjectStore {
        entries: vec![
            (id(1), page(vec![])),
            (id(2), name("other")),
            (id(3), page(vec![])),
        ],
    };
    let b = ObjectStore { entries: vec![(id(1), page(vec![]))] };
    let doc: Document = merge_documents(vec![a, b]).unwrap();
    let pages = collect_page_ids(&doc.store);
    assert_eq!(pages.len(), 3);
    // the first source's objects are renumbered from 2, the second's follow
    assert_eq!(pages[0].number, 2);
    assert_eq!(pages[1].number, 4);
    assert_eq!(pages[2].number, 5);
}

#[test]
fn merge_builds_root_catalog_and_trailer() {
    let a = ObjectStore { entries: vec![(id(9), page(vec![]))] };
    let doc = merge_documents(vec![a]).unwrap();
    // trailer Root -> catalog -> Pages root
    let cat_id = match get(&doc.trailer, "Root") {
        Some(Object::Reference(r)) => *r,
        _ => panic!("trailer lacks Root"),
    };
    let cat = must_dict(doc.store.get(cat_id).expect("catalog missing"));
    assert!(matches!(get(cat, "Type"), Some(Object::Name(n)) if n == b"Catalog"));
    let root_id = match get(cat, "Pages") {
        Some(Object::Reference(r)) => *r,
        _ => panic!("catalog lacks Pages"),
    };
    let root = must_dict(doc.store.get(root_id).expect("root missing"));
    assert!(matches!(get(root, "Type"), Some(Object::Name(n)) if n == b"Pages"));
    assert!(matches!(get(root, "Count"), Some(Object::Integer(1))));
    match get(root, "Kids") {
        Some(Object::Array(kids)) => assert_eq!(kids.len(), 1),
        _ => panic!("root lacks Kids"),
    }
    // every page's Parent is the root
    for pid in collect_page_ids(&doc.store) {
        let p = must_dict(doc.store.get(pid).unwrap());
        assert!(matches!(get(p, "Parent"), Some(Object::Reference(r)) if *r == root_id));
    }
}

#[test]
fn merged_page_inherits_missing_media_box() {
    let media = Object::Array(vec![
        Object::Integer(0),
        Object::Integer(0),
        Object::Integer(612),
        Object::Integer(792),
    ]);
    let src = ObjectStore {
        entries: vec![
            (id(1), page(vec![("Parent", Object::Reference(id(2)))])),
            (
                id(2),
                Object::Dictionary(dict(vec![("Type", name("Pages")), ("MediaBox", media)])),
            ),
        ],
    };
    let doc = merge_documents(vec![src]).unwrap();
    let pages = collect_page_ids(&doc.store);
    assert_eq!(pages.len(), 1);
    let p = must_dict(doc.store.get(pages[0]).unwrap());
    match get(p, "MediaBox") {
        Some(Object::Array(items)) => {
            assert_eq!(items.len(), 4);
            assert!(matches!(items[2], Object::Integer(612)));
        },
        _ => panic!("page did not inherit MediaBox"),
    }
}

#[test]
fn page_with_explicit_key_is_left_alone() {
    let own = Object::Integer(90);
    let src = ObjectStore {
        entries: vec![
            (
                id(1),
                page(vec![("Rotate", own), ("Parent", Object::Reference(id(2)))]),
            ),
            (
                id(2),
                Object::Dictionary(dict(vec![
                    ("Type", name("Pages")),
                    ("Rotate", Object::Integer(180)),
                ])),
            ),
        ],
    };
    let out = materialize_inheritance(&src);
    let p = must_dict(&out.entries[0].1);
    assert!(matches!(get(p, "Rotate"), Some(Object::Integer(90))));
}

#[test]
fn cyclic_parent_chain_resolves_to_nothing() {
    let src = ObjectStore {
        entries: vec![
            (
                id(1),
                Object::Dictionary(dict(vec![("Parent", Object::Reference(id(2)))])),
            ),
            (
                id(2),
                Object::Dictionary(dict(vec![("Parent", Object::Reference(id(1)))])),
            ),
        ],
    };
    assert!(resolve_inherited(&src, id(1), b"MediaBox").is_none());
}

#[test]
fn renumber_shifts_identifiers_and_references() {
    let src = ObjectStore {
        entries: vec![
            (
                id(5),
                Object::Dictionary(dict(vec![("Next", Object::Reference(id(7)))])),
            ),
            (id(7), Object::Integer(42)),
        ],
    };
    let out = renumber_store(&src, 10);
    assert_eq!(out.entries[0].0, id(10));
    assert_eq!(out.entries[1].0, id(11));
    let d = must_dict(&out.entries[0].1);
    assert!(matches!(get(d, "Next"), Some(Object::Reference(r)) if *r == id(11)));
}

#[test]
fn single_source_merge_keeps_stream_bytes() {
    let payload = vec![9u8, 8, 7, 6];
    let src = ObjectStore {
        entries: vec![
            (id(1), page(vec![])),
            (id(2), Object::Stream(dict(vec![]), payload.clone())),
        ],
    };
    let doc = merge_documents(vec![src]).unwrap();
    match &doc.store.entries[1].1 {
        Object::Stream(_, content) => assert_eq!(content, &payload),
        _ => panic!("stream did not survive the merge"),
    }
}

#[test]
fn cross_object_references_survive_the_merge() {
    // a page pointing at a resource object held elsewhere in the store
    let src = ObjectStore {
        entries: vec![
            (id(3), page(vec![("Resources", Object::Reference(id(8)))])),
            (
                id(8),
                Object::Dictionary(dict(vec![("Kind", name("resources"))])),
            ),
        ],
    };
    let doc = merge_documents(vec![src]).unwrap();
    // the page is renumbered to 2, the resource to 3
    let p = must_dict(doc.store.get(id(2)).expect("page missing"));
    let rid = match get(p, "Resources") {
        Some(Object::Reference(r)) => *r,
        _ => panic!("page lost its Resources reference"),
    };
    assert_eq!(rid, id(3));
    let res = must_dict(doc.store.get(rid).expect("resource missing"));
    assert!(matches!(get(res, "Kind"), Some(Object::Name(n)) if n == b"resources"));
}

#[test]
fn inheritance_is_resolved_before_ancestry_is_discarded() {
    // two sources: only the second's page inherits a rotation
    let plain = ObjectStore { entries: vec![(id(1), page(vec![]))] };
    let inheriting = ObjectStore {
        entries: vec![
            (id(1), page(vec![("Parent", Object::Reference(id(2)))])),
            (
                id(2),
                Object::Dictionary(dict(vec![
                    ("Type", name("Pages")),
                    ("Rotate", Object::Integer(270)),
                ])),
            ),
        ],
    };
    let doc = merge_documents(vec![plain, inheriting]).unwrap();
    let pages = collect_page_ids(&doc.store);
    assert_eq!(pages.len(), 2);
    let first = must_dict(doc.store.get(pages[0]).unwrap());
    assert!(get(first, "Rotate").is_none());
    let second = must_dict(doc.store.get(pages[1]).unwrap());
    assert!(matches!(get(second, "Rotate"), Some(Object::Integer(270))));
}
