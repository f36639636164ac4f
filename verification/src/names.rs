//! The dictionary keys and name values the page-tree logic reads and
//! writes, as byte sequences (spec) and byte vectors (exec).

use vstd::prelude::*;

verus! {

pub open spec fn k_type() -> Seq<u8> {
    seq![0x54u8, 0x79u8, 0x70u8, 0x65u8]
}

pub fn key_type() -> (r: Vec<u8>)
    ensures
        r@ == k_type(),
{
    let v: Vec<u8> = vec![0x54u8, 0x79u8, 0x70u8, 0x65u8];
    proof {
        assert(v@ =~= k_type());
    }
    v
}

pub open spec fn k_page() -> Seq<u8> {
    seq![0x50u8, 0x61u8, 0x67u8, 0x65u8]
}

pub fn key_page() -> (r: Vec<u8>)
    ensures
        r@ == k_page(),
{
    let v: Vec<u8> = vec![0x50u8, 0x61u8, 0x67u8, 0x65u8];
    proof {
        assert(v@ =~= k_page());
    }
    v
}

pub open spec fn k_pages() -> Seq<u8> {
    seq![0x50u8, 0x61u8, 0x67u8, 0x65u8, 0x73u8]
}

pub fn key_pages() -> (r: Vec<u8>)
    ensures
        r@ == k_pages(),
{
    let v: Vec<u8> = vec![0x50u8, 0x61u8, 0x67u8, 0x65u8, 0x73u8];
    proof {
        assert(v@ =~= k_pages());
    }
    v
}

pub open spec fn k_parent() -> Seq<u8> {
    seq![0x50u8, 0x61u8, 0x72u8, 0x65u8, 0x6Eu8, 0x74u8]
}

pub fn key_parent() -> (r: Vec<u8>)
    ensures
        r@ == k_parent(),
{
    let v: Vec<u8> = vec![0x50u8, 0x61u8, 0x72u8, 0x65u8, 0x6Eu8, 0x74u8];
    proof {
        assert(v@ =~= k_parent());
    }
    v
}

pub open spec fn k_kids() -> Seq<u8> {
    seq![0x4Bu8, 0x69u8, 0x64u8, 0x73u8]
}

pub fn key_kids() -> (r: Vec<u8>)
    ensures
        r@ == k_kids(),
{
    let v: Vec<u8> = vec![0x4Bu8, 0x69u8, 0x64u8, 0x73u8];
    proof {
        assert(v@ =~= k_kids());
    }
    v
}

pub open spec fn k_count() -> Seq<u8> {
    seq![0x43u8, 0x6Fu8, 0x75u8, 0x6Eu8, 0x74u8]
}

pub fn key_count() -> (r: Vec<u8>)
    ensures
        r@ == k_count(),
{
    let v: Vec<u8> = vec![0x43u8, 0x6Fu8, 0x75u8, 0x6Eu8, 0x74u8];
    proof {
        assert(v@ =~= k_count());
    }
    v
}

pub open spec fn k_catalog() -> Seq<u8> {
    seq![0x43u8, 0x61u8, 0x74u8, 0x61u8, 0x6Cu8, 0x6Fu8, 0x67u8]
}

pub fn key_catalog() -> (r: Vec<u8>)
    ensures
        r@ == k_catalog(),
{
    let v: Vec<u8> = vec![0x43u8, 0x61u8, 0x74u8, 0x61u8, 0x6Cu8, 0x6Fu8, 0x67u8];
    proof {
        assert(v@ =~= k_catalog());
    }
    v
}

pub open spec fn k_root() -> Seq<u8> {
    seq![0x52u8, 0x6Fu8, 0x6Fu8, 0x74u8]
}

pub fn key_root() -> (r: Vec<u8>)
    ensures
        r@ == k_root(),
{
    let v: Vec<u8> = vec![0x52u8, 0x6Fu8, 0x6Fu8, 0x74u8];
    proof {
        assert(v@ =~= k_root());
    }
    v
}

pub open spec fn k_resources() -> Seq<u8> {
    seq![0x52u8, 0x65u8, 0x73u8, 0x6Fu8, 0x75u8, 0x72u8, 0x63u8, 0x65u8, 0x73u8]
}

pub fn key_resources() -> (r: Vec<u8>)
    ensures
        r@ == k_resources(),
{
    let v: Vec<u8> = vec![0x52u8, 0x65u8, 0x73u8, 0x6Fu8, 0x75u8, 0x72u8, 0x63u8, 0x65u8, 0x73u8];
    proof {
        assert(v@ =~= k_resources());
    }
    v
}

pub open spec fn k_media_box() -> Seq<u8> {
    seq![0x4Du8, 0x65u8, 0x64u8, 0x69u8, 0x61u8, 0x42u8, 0x6Fu8, 0x78u8]
}

pub fn key_media_box() -> (r: Vec<u8>)
    ensures
        r@ == k_media_box(),
{
    let v: Vec<u8> = vec![0x4Du8, 0x65u8, 0x64u8, 0x69u8, 0x61u8, 0x42u8, 0x6Fu8, 0x78u8];
    proof {
        assert(v@ =~= k_media_box());
    }
    v
}

pub open spec fn k_crop_box() -> Seq<u8> {
    seq![0x43u8, 0x72u8, 0x6Fu8, 0x70u8, 0x42u8, 0x6Fu8, 0x78u8]
}

pub fn key_crop_box() -> (r: Vec<u8>)
    ensures
        r@ == k_crop_box(),
{
    let v: Vec<u8> = vec![0x43u8, 0x72u8, 0x6Fu8, 0x70u8, 0x42u8, 0x6Fu8, 0x78u8];
    proof {
        assert(v@ =~= k_crop_box());
    }
    v
}

pub open spec fn k_rotate() -> Seq<u8> {
    seq![0x52u8, 0x6Fu8, 0x74u8, 0x61u8, 0x74u8, 0x65u8]
}

pub fn key_rotate() -> (r: Vec<u8>)
    ensures
        r@ == k_rotate(),
{
    let v: Vec<u8> = vec![0x52u8, 0x6Fu8, 0x74u8, 0x61u8, 0x74u8, 0x65u8];
    proof {
        assert(v@ =~= k_rotate());
    }
    v
}

pub open spec fn k_subtype() -> Seq<u8> {
    seq![0x53u8, 0x75u8, 0x62u8, 0x74u8, 0x79u8, 0x70u8, 0x65u8]
}

pub fn key_subtype() -> (r: Vec<u8>)
    ensures
        r@ == k_subtype(),
{
    let v: Vec<u8> = vec![0x53u8, 0x75u8, 0x62u8, 0x74u8, 0x79u8, 0x70u8, 0x65u8];
    proof {
        assert(v@ =~= k_subtype());
    }
    v
}

pub open spec fn k_image() -> Seq<u8> {
    seq![0x49u8, 0x6Du8, 0x61u8, 0x67u8, 0x65u8]
}

pub fn key_image() -> (r: Vec<u8>)
    ensures
        r@ == k_image(),
{
    let v: Vec<u8> = vec![0x49u8, 0x6Du8, 0x61u8, 0x67u8, 0x65u8];
    proof {
        assert(v@ =~= k_image());
    }
    v
}

pub open spec fn k_width() -> Seq<u8> {
    seq![0x57u8, 0x69u8, 0x64u8, 0x74u8, 0x68u8]
}

pub fn key_width() -> (r: Vec<u8>)
    ensures
        r@ == k_width(),
{
    let v: Vec<u8> = vec![0x57u8, 0x69u8, 0x64u8, 0x74u8, 0x68u8];
    proof {
        assert(v@ =~= k_width());
    }
    v
}

pub open spec fn k_height() -> Seq<u8> {
    seq![0x48u8, 0x65u8, 0x69u8, 0x67u8, 0x68u8, 0x74u8]
}

pub fn key_height() -> (r: Vec<u8>)
    ensures
        r@ == k_height(),
{
    let v: Vec<u8> = vec![0x48u8, 0x65u8, 0x69u8, 0x67u8, 0x68u8, 0x74u8];
    proof {
        assert(v@ =~= k_height());
    }
    v
}

/// The version tag a merged document carries.
pub open spec fn k_version() -> Seq<u8> {
    seq![0x31u8, 0x2Eu8, 0x35u8]
}

pub fn version_tag() -> (r: Vec<u8>)
    ensures
        r@ == k_version(),
{
    let v: Vec<u8> = vec![0x31u8, 0x2Eu8, 0x35u8];
    proof {
        assert(v@ =~= k_version());
    }
    v
}

} // verus!
