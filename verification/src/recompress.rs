use vstd::prelude::*;

use crate::names::{k_height, k_image, k_subtype, k_width, key_height, key_image, key_subtype,
    key_width};
use crate::objects::{bytes_eq, ObjV, Object};
use crate::store::{ObjectStore, PdfError};

verus! {

/// Scale parameter accepted by recompression: an integer 1 through 10.
pub open spec fn scale_ok(scale: int) -> bool {
    1 <= scale <= 10
}

/// Whether the recompression scale lies in the accepted range.
pub fn scale_in_range(scale: i32) -> (r: bool)
    ensures
        r == scale_ok(scale as int),
{
    1 <= scale && scale <= 10
}

/// A dimension scaled down: the quality factor is `(13 - scale) / 12`,
/// which is `1 - ((scale - 1) / 9) * 0.75`, and the result is the rounded
/// product, never below one.
pub open spec fn scaled_dim_spec(w: int, scale: int) -> int {
    let r = (w * (13 - scale) + 6) / 12;
    if r < 1 {
        1
    } else {
        r
    }
}

/// JPEG quality for a scale: 100 at the gentlest, 30 at the strongest.
pub open spec fn jpeg_quality_spec(scale: int) -> int {
    100 - ((scale - 1) * 70) / 9
}

pub fn scaled_dim(w: u32, scale: i32) -> (r: u32)
    requires
        scale_ok(scale as int),
    ensures
        r == scaled_dim_spec(w as int, scale as int),
{
    let f: u64 = (13 - scale) as u64;
    proof {
        assert((w as u64) * f <= 0xFFFF_FFFFu64 * 12) by (nonlinear_arith)
            requires
                w as u64 <= 0xFFFF_FFFFu64,
                f <= 12,
        ;
    }
    let num: u64 = (w as u64) * f + 6;
    let d: u64 = num / 12;
    proof {
        assert(d <= w) by (nonlinear_arith)
            requires
                num == (w as u64) * f + 6,
                d == num / 12,
                f <= 12,
        ;
    }
    let r64: u64 = if d < 1 {
        1
    } else {
        d
    };
    r64 as u32
}

pub fn jpeg_quality(scale: i32) -> (r: u8)
    requires
        scale_ok(scale as int),
    ensures
        r == jpeg_quality_spec(scale as int),
        30 <= r <= 100,
{
    let q: i32 = 100 - ((scale - 1) * 70) / 9;
    q as u8
}

/// The two leading bytes every JPEG payload starts with.
pub open spec fn is_jpeg_sig(d: Seq<u8>) -> bool {
    d.len() >= 2 && d[0] == 0xFFu8 && d[1] == 0xD8u8
}

/// The four leading bytes every PNG payload starts with.
pub open spec fn is_png_sig(d: Seq<u8>) -> bool {
    d.len() >= 4 && d[0] == 0x89u8 && d[1] == 0x50u8 && d[2] == 0x4Eu8 && d[3] == 0x47u8
}

pub fn has_jpeg_sig(d: &Vec<u8>) -> (r: bool)
    ensures
        r == is_jpeg_sig(d@),
{
    if d.len() < 2 {
        return false;
    }
    d[0] == 0xFFu8 && d[1] == 0xD8u8
}

pub fn has_png_sig(d: &Vec<u8>) -> (r: bool)
    ensures
        r == is_png_sig(d@),
{
    if d.len() < 4 {
        return false;
    }
    d[0] == 0x89u8 && d[1] == 0x50u8 && d[2] == 0x4Eu8 && d[3] == 0x47u8
}

/// An image stream: a stream whose dictionary's `Subtype` is the name
/// `Image`.
pub open spec fn is_image_stream(v: ObjV) -> bool {
    &&& v matches ObjV::Stream(kv, _)
    &&& kv.contains_key(k_subtype())
    &&& kv[k_subtype()] == ObjV::Name(k_image())
}

/// Whether the given object is an image stream.
pub fn is_image_stream_obj(o: &Object) -> (r: bool)
    ensures
        r == is_image_stream(o.ov()),
{
    match o {
        Object::Stream(d, _) => {
            let sk = key_subtype();
            match d.get(sk.as_slice()) {
                Some(t) => match t {
                    Object::Name(n) => {
                        let ik = key_image();
                        bytes_eq(n.as_slice(), ik.as_slice())
                    },
                    _ => false,
                },
                None => false,
            }
        },
        _ => false,
    }
}

/// Whether the raster codec, pinned to the JPEG format when `jpeg` and
/// to PNG otherwise, accepts these bytes. With the format pinned the
/// codec reads nothing but the bytes.
pub uninterp spec fn decodes_as(data: Seq<u8>, jpeg: bool) -> bool;

/// Width the pinned codec decodes from these bytes.
pub uninterp spec fn decoded_width_as(data: Seq<u8>, jpeg: bool) -> u32;

/// Height the pinned codec decodes from these bytes.
pub uninterp spec fn decoded_height_as(data: Seq<u8>, jpeg: bool) -> u32;

/// Whether the JPEG recompression pipeline succeeds on a payload and
/// both bounds: decode pinned to JPEG, resize to fit the bounds, encode
/// as JPEG. Success is a function of these arguments alone; the encode
/// quality cannot fail it.
pub uninterp spec fn jpeg_recodable(data: Seq<u8>, w: int, h: int) -> bool;

/// The bytes the JPEG recompression pipeline emits for a payload, both
/// bounds, and a quality: the picture decoded with the format pinned to
/// JPEG, resized to fit the bounds, encoded as JPEG at that quality.
/// Every step is a function of these arguments alone.
pub uninterp spec fn jpeg_recoded(data: Seq<u8>, w: int, h: int, quality: int) -> Seq<u8>;

/// The bytes the PNG recompression pipeline emits for a payload and both
/// bounds: the picture decoded with the format pinned to PNG, resized to
/// fit the bounds, encoded losslessly as PNG. A function of these
/// arguments alone.
pub uninterp spec fn png_recoded(data: Seq<u8>, w: int, h: int) -> Seq<u8>;

/// Relies on image::load_from_memory_with_format with the format pinned
/// to JPEG or PNG (never the guessing path, which consults
/// process-global, registrable hooks), and on DynamicImage::width /
/// height. With the format pinned, decoding is a function of the bytes
/// alone; it fails exactly on bytes the pinned codec rejects, and both
/// codecs reject zero-sized pictures, so decoded dimensions are at
/// least one.
#[verifier::external_body]
fn decode_image(data: &Vec<u8>, jpeg: bool) -> (r: Option<(u32, u32)>)
    ensures
        r is Some <==> decodes_as(data@, jpeg),
        r matches Some(t) ==> t.0 == decoded_width_as(data@, jpeg) && t.1 == decoded_height_as(
            data@,
            jpeg,
        ) && t.0 >= 1 && t.1 >= 1,
{
    let fmt = if jpeg {
        image::ImageFormat::Jpeg
    } else {
        image::ImageFormat::Png
    };
    match image::load_from_memory_with_format(data, fmt) {
        Ok(img) => Some((img.width(), img.height())),
        Err(_) => None,
    }
}

/// Relies on image::load_from_memory_with_format pinned to JPEG,
/// DynamicImage::resize, and image::codecs::jpeg::JpegEncoder; with the
/// format pinned the whole chain is a function of the arguments, so its
/// success carries the name `jpeg_recodable` and its output the name
/// `jpeg_recoded`. `resize` fits the picture within `nw` by `nh` with
/// the Lanczos filter, keeping its aspect ratio, so the resized
/// dimensions lie in 1..=nw by 1..=nh; `encode_image` fails exactly when
/// a dimension lies outside 1..=65535 (the quality cannot fail it),
/// writes the start-of-image marker first, and a byte vector never
/// rejects a write. So the call succeeds whenever the payload decodes
/// and both bounds lie in 1..=65535, and every payload it produces opens
/// with the JPEG signature.
#[verifier::external_body]
fn recode_jpeg(data: &Vec<u8>, nw: u32, nh: u32, quality: u8) -> (r: Option<Vec<u8>>)
    ensures
        r is Some <==> jpeg_recodable(data@, nw as int, nh as int),
        decodes_as(data@, true) && 1 <= nw <= 65535 && 1 <= nh <= 65535 ==> r is Some,
        r matches Some(b) ==> b@ == jpeg_recoded(data@, nw as int, nh as int, quality as int)
            && is_jpeg_sig(b@),
{
    let img = match image::load_from_memory_with_format(data, image::ImageFormat::Jpeg) {
        Ok(img) => img,
        Err(_) => return None,
    };
    let resized = img.resize(nw, nh, image::imageops::FilterType::Lanczos3);
    let mut buf: Vec<u8> = Vec::new();
    let mut enc = image::codecs::jpeg::JpegEncoder::new_with_quality(&mut buf, quality);
    match enc.encode_image(&resized) {
        Ok(()) => Some(buf),
        Err(_) => None,
    }
}

/// Relies on image::load_from_memory_with_format pinned to PNG,
/// DynamicImage::resize, and DynamicImage::write_to with the PNG format;
/// with the format pinned the chain is a function of the arguments, so
/// its output carries the name `png_recoded`. The resized dimensions
/// lie in 1..=nw by 1..=nh, the picture's color is converted to one the
/// PNG encoder takes, that encoder rejects only a zero dimension, and a
/// byte vector never rejects a write. So the call succeeds whenever the
/// payload decodes and `nw` and `nh` are at least one, and every
/// payload it produces opens with the eight-byte PNG signature.
#[verifier::external_body]
fn recode_png(data: &Vec<u8>, nw: u32, nh: u32) -> (r: Option<Vec<u8>>)
    ensures
        decodes_as(data@, false) && 1 <= nw && 1 <= nh ==> r is Some,
        r matches Some(b) ==> b@ == png_recoded(data@, nw as int, nh as int) && is_png_sig(b@),
{
    let img = match image::load_from_memory_with_format(data, image::ImageFormat::Png) {
        Ok(img) => img,
        Err(_) => return None,
    };
    let resized = img.resize(nw, nh, image::imageops::FilterType::Lanczos3);
    let mut buf: Vec<u8> = Vec::new();
    match resized.write_to(std::io::Cursor::new(&mut buf), image::ImageFormat::Png) {
        Ok(()) => Some(buf),
        Err(_) => None,
    }
}

/// The replaced value of an image stream: the dictionary carries the
/// scaled dimensions and the payload is exactly what the recompression
/// pipeline emits for the old payload at those dimensions, in the
/// stream's own format.
pub open spec fn replaced_stream(old_v: ObjV, new_v: ObjV, scale: int, jpeg: bool) -> bool {
    let data = old_v->Stream_1;
    let nw = scaled_dim_spec(decoded_width_as(data, jpeg) as int, scale);
    let nh = scaled_dim_spec(decoded_height_as(data, jpeg) as int, scale);
    let bytes = if jpeg {
        jpeg_recoded(data, nw, nh, jpeg_quality_spec(scale))
    } else {
        png_recoded(data, nw, nh)
    };
    new_v == ObjV::Stream(
        old_v->Stream_0.insert(k_width(), ObjV::Integer(nw)).insert(
            k_height(),
            ObjV::Integer(nh),
        ),
        bytes,
    )
}

/// What recompression leaves of one entry's value. A decodable JPEG
/// image stream is replaced whenever its scaled dimensions fit the JPEG
/// format's 1..=65535 range, and beyond that range exactly when the
/// pipeline accepts the fitted picture, else kept; a decodable PNG
/// image stream is always replaced; an image stream the pinned codec
/// rejects, one with an unrecognized signature, and every other value
/// are kept byte for byte.
pub open spec fn recompressed_entry(old_v: ObjV, new_v: ObjV, scale: int) -> bool {
    if is_image_stream(old_v) {
        let data = old_v->Stream_1;
        if is_jpeg_sig(data) && decodes_as(data, true) {
            let nw = scaled_dim_spec(decoded_width_as(data, true) as int, scale);
            let nh = scaled_dim_spec(decoded_height_as(data, true) as int, scale);
            if nw <= 65535 && nh <= 65535 {
                replaced_stream(old_v, new_v, scale, true)
            } else if jpeg_recodable(data, nw, nh) {
                replaced_stream(old_v, new_v, scale, true)
            } else {
                new_v == old_v
            }
        } else if is_png_sig(data) && decodes_as(data, false) {
            replaced_stream(old_v, new_v, scale, false)
        } else {
            new_v == old_v
        }
    } else {
        new_v == old_v
    }
}


/// At the gentlest scale a replaced image stream keeps its decoded
/// dimensions exactly, and a JPEG payload is re-encoded at quality 100:
/// the quality factor is one. Decoded dimensions are at least one for
/// every payload the pinned codecs accept.
pub proof fn lemma_scale_one_keeps_image(old_v: ObjV, new_v: ObjV, jpeg: bool)
    ensures
        ({
            let data = old_v->Stream_1;
            let w = decoded_width_as(data, jpeg);
            let h = decoded_height_as(data, jpeg);
            replaced_stream(old_v, new_v, 1, jpeg) && w >= 1 && h >= 1 ==> new_v == ObjV::Stream(
                old_v->Stream_0.insert(k_width(), ObjV::Integer(w as int)).insert(
                    k_height(),
                    ObjV::Integer(h as int),
                ),
                if jpeg {
                    jpeg_recoded(data, w as int, h as int, 100)
                } else {
                    png_recoded(data, w as int, h as int)
                },
            )
        }),
{
    let data = old_v->Stream_1;
    let w = decoded_width_as(data, jpeg);
    let h = decoded_height_as(data, jpeg);
    if w >= 1 && h >= 1 {
        lemma_scale_one_keeps_dim(w as int);
        lemma_scale_one_keeps_dim(h as int);
        assert(jpeg_quality_spec(1) == 100);
    }
}

/// At the strongest scale a replaced image stream carries a quarter of
/// its decoded dimensions, rounded and never below one, and a JPEG
/// payload is re-encoded at quality 30.
pub proof fn lemma_scale_ten_quarters_image(old_v: ObjV, new_v: ObjV, jpeg: bool)
    ensures
        ({
            let data = old_v->Stream_1;
            let w = decoded_width_as(data, jpeg) as int;
            let h = decoded_height_as(data, jpeg) as int;
            let qw = if (w + 2) / 4 < 1 {
                1
            } else {
                (w + 2) / 4
            };
            let qh = if (h + 2) / 4 < 1 {
                1
            } else {
                (h + 2) / 4
            };
            replaced_stream(old_v, new_v, 10, jpeg) ==> new_v == ObjV::Stream(
                old_v->Stream_0.insert(k_width(), ObjV::Integer(qw)).insert(
                    k_height(),
                    ObjV::Integer(qh),
                ),
                if jpeg {
                    jpeg_recoded(data, qw, qh, 30)
                } else {
                    png_recoded(data, qw, qh)
                },
            )
        }),
{
    let data = old_v->Stream_1;
    lemma_scale_ten_quarters_dim(decoded_width_as(data, jpeg) as int);
    lemma_scale_ten_quarters_dim(decoded_height_as(data, jpeg) as int);
    assert(jpeg_quality_spec(10) == 30);
}

/// The recompressed form of one object.
fn recompress_object(o: &Object, scale: i32) -> (r: Object)
    requires
        scale_ok(scale as int),
    ensures
        recompressed_entry(o.ov(), r.ov(), scale as int),
{
    if !is_image_stream_obj(o) {
        return o.duplicate();
    }
    match o {
        Object::Stream(d, content) => {
            let jpeg = has_jpeg_sig(content);
            let png = has_png_sig(content);
            if !jpeg && !png {
                return o.duplicate();
            }
            match decode_image(content, jpeg) {
                None => o.duplicate(),
                Some((w, h)) => {
                    let nw = scaled_dim(w, scale);
                    let nh = scaled_dim(h, scale);
                    proof {
                        assert(nw >= 1 && nh >= 1);
                    }
                    let encoded: Option<Vec<u8>> = if jpeg {
                        recode_jpeg(content, nw, nh, jpeg_quality(scale))
                    } else {
                        recode_png(content, nw, nh)
                    };
                    match encoded {
                        Some(bytes) => {
                            let mut nd = d.duplicate();
                            nd.set(key_width(), Object::Integer(nw as i64));
                            nd.set(key_height(), Object::Integer(nh as i64));
                            let r = Object::Stream(nd, bytes);
                            proof {
                                assert(o.ov()->Stream_0 == crate::objects::dict_kv(d.entries@));
                                assert(o.ov()->Stream_1 == content@);
                                assert(nw == scaled_dim_spec(
                                    decoded_width_as(content@, jpeg) as int,
                                    scale as int,
                                ));
                                assert(nh == scaled_dim_spec(
                                    decoded_height_as(content@, jpeg) as int,
                                    scale as int,
                                ));
                                assert(replaced_stream(o.ov(), r.ov(), scale as int, jpeg));
                            }
                            r
                        },
                        None => {
                            proof {
                                if !jpeg {
                                    assert(false);
                                }
                            }
                            o.duplicate()
                        },
                    }
                },
            }
        },
        _ => {
            proof {
                assert(false);
            }
            o.duplicate()
        },
    }
}

/// Re-encodes every decodable JPEG or PNG image stream of the store at
/// the given scale, replacing its payload and its `Width` and `Height`;
/// a stream the codec rejects, and every stream with an unrecognized
/// signature, is kept as it is. Fails exactly on a scale outside 1..=10,
/// before touching the store.
pub fn recompress_store(store: &mut ObjectStore, scale: i32) -> (r: Result<(), PdfError>)
    ensures
        r is Err <==> !scale_ok(scale as int),
        r matches Err(e) ==> e matches PdfError::InvalidScale(s) && s == scale && *final(store)
            == *old(store),
        r is Ok ==> final(store).sv().len() == old(store).sv().len() && (forall|k: int|
            0 <= k < old(store).sv().len() ==> final(store).sv()[k].0 == old(store).sv()[k].0
                && recompressed_entry(
                old(store).sv()[k].1,
                final(store).sv()[k].1,
                scale as int,
            )),
{
    if !scale_in_range(scale) {
        return Err(PdfError::InvalidScale(scale));
    }
    let n: usize = store.entries.len();
    let mut out: Vec<(crate::objects::ObjectId, Object)> = Vec::new();
    let mut k: usize = 0;
    while k < n
        invariant
            scale_ok(scale as int),
            n == old(store).entries@.len(),
            store == old(store),
            k <= n,
            out@.len() == k as int,
            forall|j: int| 0 <= j < k ==> out@[j].0 == old(store).sv()[j].0,
            forall|j: int|
                0 <= j < k ==> recompressed_entry(
                    old(store).sv()[j].1,
                    out@[j].1.ov(),
                    scale as int,
                ),
        decreases n - k,
    {
        let id = store.entries[k].0;
        let o = recompress_object(&store.entries[k].1, scale);
        out.push((id, o));
        k = k + 1;
    }
    store.entries = out;
    Ok(())
}

/// At the gentlest scale a dimension is kept exactly.
pub proof fn lemma_scale_one_keeps_dim(w: int)
    requires
        w >= 1,
    ensures
        scaled_dim_spec(w, 1) == w,
{
    assert((w * 12 + 6) / 12 == w) by (nonlinear_arith)
        requires
            w >= 1,
    ;
}

/// At the strongest scale a dimension becomes about a quarter.
pub proof fn lemma_scale_ten_quarters_dim(w: int)
    requires
        w >= 0,
    ensures
        scaled_dim_spec(w, 10) == if (w + 2) / 4 < 1 {
            1
        } else {
            (w + 2) / 4
        },
{
    assert((w * 3 + 6) / 12 == (w + 2) / 4) by (nonlinear_arith)
        requires
            w >= 0,
    ;
}

/// A scaled dimension never grows.
pub proof fn lemma_scaled_dim_le(w: int, scale: int)
    requires
        w >= 1,
        scale_ok(scale),
    ensures
        1 <= scaled_dim_spec(w, scale) <= w,
{
    assert((w * (13 - scale) + 6) / 12 <= w) by (nonlinear_arith)
        requires
            w >= 1,
            1 <= scale <= 10,
    ;
}

/// Recompressing at the gentlest scale is stable in the dimensions: a
/// second pass computes the same dimension again.
pub proof fn lemma_rescale_stable_at_one(w: int)
    requires
        w >= 1,
    ensures
        scaled_dim_spec(scaled_dim_spec(w, 1), 1) == scaled_dim_spec(w, 1),
{
    lemma_scale_one_keeps_dim(w);
    lemma_scale_one_keeps_dim(scaled_dim_spec(w, 1));
}

} // verus!
