//! Instance screenshots: image names, MIME types and safe file names.
use vstd::prelude::*;
use crate::error::{AppError, AppResult};
use crate::instances::Instance;
use crate::content::chars_lt;
use crate::digest::{base64_encode, base64_of};
use crate::mods::{chars_le, chars_le_exec};
use crate::paths::{
    basename, check_basename, extension, extension_lower, file_stem, join, lower_ext, opt_views,
    path_extension, path_file_stem, path_join_str,
};
use crate::text::{
    append, append_str, chars_of, decimal, decimal_of, eq, eq_str, lit, lower, oview, str_eq,
    string_of, to_lower,
};

use crate::order::{
    ins, isort, lemma_chars_le_antisym, lemma_chars_le_total, lemma_chars_le_trans, lemma_isort,
    total_preorder,
};

verus! {

broadcast use vstd::string::group_string_axioms;

/// Screenshots larger than this (20 MiB) are not previewed.
pub const MAX_MEDIA_PREVIEW_BYTES: u64 = 20971520;

/// One screenshot.
pub struct MediaFile {
    pub name: String,
    pub size: u64,
    pub modified_at: Option<String>,
    pub mime: String,
}

/// A screenshot as a data URL.
pub struct MediaPreview {
    pub name: String,
    pub mime: String,
    pub data_url: String,
}

/// `{game_dir}/screenshots`.
pub fn screenshots_dir(instance: &Instance) -> (r: String)
    ensures
        r@ == join(instance.game_dir@, "screenshots"@),
{
    string_of(&path_join_str(&chars_of(instance.game_dir.as_str()), "screenshots"))
}

/// Image files: `.png`, `.jpg`, `.jpeg`, `.webp`, `.gif` (any letter case).
pub open spec fn image_file(name: Seq<char>) -> bool {
    match lower_ext(name) {
        Some(e) => e == "png"@ || e == "jpg"@ || e == "jpeg"@ || e == "webp"@ || e == "gif"@,
        None => false,
    }
}

pub fn is_image_name(name: &str) -> (b: bool)
    ensures
        b == image_file(name@),
{
    match extension_lower(name) {
        Some(e) => eq_str(&e, "png") || eq_str(&e, "jpg") || eq_str(&e, "jpeg") || eq_str(&e, "webp")
            || eq_str(&e, "gif"),
        None => false,
    }
}

/// The MIME type of a file name, by extension.
pub open spec fn mime_of(name: Seq<char>) -> Seq<char> {
    let e = match lower_ext(name) {
        Some(e) => e,
        None => Seq::empty(),
    };
    if e == "png"@ {
        "image/png"@
    } else if e == "jpg"@ || e == "jpeg"@ {
        "image/jpeg"@
    } else if e == "webp"@ {
        "image/webp"@
    } else if e == "gif"@ {
        "image/gif"@
    } else {
        "application/octet-stream"@
    }
}

pub fn mime_for_name(name: &str) -> (r: String)
    ensures
        r@ == mime_of(name@),
{
    let e = match extension_lower(name) {
        Some(e) => e,
        None => Vec::new(),
    };
    if eq_str(&e, "png") {
        lit("image/png")
    } else if eq_str(&e, "jpg") || eq_str(&e, "jpeg") {
        lit("image/jpeg")
    } else if eq_str(&e, "webp") {
        lit("image/webp")
    } else if eq_str(&e, "gif") {
        lit("image/gif")
    } else {
        lit("application/octet-stream")
    }
}

/// The screenshot file name a user-supplied name designates: a safe bare
/// name that is an image; otherwise why it is refused.
pub open spec fn screenshot_name(name: Seq<char>) -> Result<Seq<char>, Seq<char>> {
    match basename(name) {
        Ok(f) => if image_file(f) {
            Ok(f)
        } else {
            Err("Only png, jpg, jpeg, webp, and gif are allowed"@)
        },
        Err(m) => Err(m),
    }
}

pub fn safe_filename(name: &str) -> (r: AppResult<String>)
    ensures
        match r {
            Ok(s) => screenshot_name(name@) == Ok::<Seq<char>, Seq<char>>(s@),
            Err(e) => screenshot_name(name@) == Err::<Seq<char>, Seq<char>>(e.message@),
        },
{
    match check_basename(name) {
        Ok(v) => {
            let f = string_of(&v);
            if !is_image_name(f.as_str()) {
                return Err(AppError::lit("Only png, jpg, jpeg, webp, and gif are allowed"));
            }
            Ok(f)
        },
        Err(e) => Err(e),
    }
}

// ===========================================================================
// Listing
// ===========================================================================

/// A file found in the screenshots folder: name, size and modification
/// time (RFC 3339; empty when it could not be written).
pub struct MediaScan {
    pub name: String,
    pub size: u64,
    pub modified_at: Option<String>,
}

/// A known, non-empty modification time.
pub open spec fn time_of(t: Option<String>) -> Option<Seq<char>> {
    match t {
        Some(s) => if s@.len() > 0 {
            Some(s@)
        } else {
            None
        },
        None => None,
    }
}

/// Time `a` is later than `b`; a known time is later than an unknown one.
pub open spec fn later(a: Option<Seq<char>>, b: Option<Seq<char>>) -> bool {
    match (a, b) {
        (Some(x), Some(y)) => chars_lt(y, x),
        (Some(_), None) => true,
        _ => false,
    }
}

/// The listing order: newest first, then by name ignoring ASCII case.
pub open spec fn media_le(a: MediaFile, b: MediaFile) -> bool {
    later(oview(a.modified_at), oview(b.modified_at)) || (oview(a.modified_at) == oview(b.modified_at)
        && chars_le(lower(a.name@), lower(b.name@)))
}

/// `x` inserted into `s` after every trailing element that sorts after it.
pub open spec fn media_insert(s: Seq<MediaFile>, x: MediaFile) -> Seq<MediaFile>
    decreases s.len(),
{
    if s.len() == 0 {
        seq![x]
    } else if media_le(s.last(), x) {
        s.push(x)
    } else {
        media_insert(s.drop_last(), x).push(s.last())
    }
}

/// The files sorted by [`media_le`], equal ones keeping their order.
pub open spec fn media_sort(s: Seq<MediaFile>) -> Seq<MediaFile>
    decreases s.len(),
{
    if s.len() == 0 {
        Seq::empty()
    } else {
        media_insert(media_sort(s.drop_last()), s.last())
    }
}

fn media_le_exec(a: &MediaFile, b: &MediaFile) -> (r: bool)
    ensures
        r == media_le(*a, *b),
{
    match (&a.modified_at, &b.modified_at) {
        (Some(x), Some(y)) => {
            let xv = chars_of(x.as_str());
            let yv = chars_of(y.as_str());
            if chars_le_exec(&yv, &xv) && !eq(&yv, &xv) {
                return true;
            }
            if !eq(&xv, &yv) {
                return false;
            }
        },
        (Some(_), None) => {
            return true;
        },
        (None, Some(_)) => {
            return false;
        },
        (None, None) => {},
    }
    let la = to_lower(&chars_of(a.name.as_str()));
    let lb = to_lower(&chars_of(b.name.as_str()));
    chars_le_exec(&la, &lb)
}

fn insert_media(v: &mut Vec<MediaFile>, x: MediaFile)
    ensures
        final(v)@ == media_insert(old(v)@, x),
{
    let ghost s = v@;
    let mut j = v.len();
    assert(s.take(j as int) =~= s);
    assert(s.skip(j as int) =~= Seq::<MediaFile>::empty());
    while j > 0 && !media_le_exec(&v[j - 1], &x)
        invariant
            j <= v.len(),
            v@ == s,
            s == old(v)@,
            media_insert(s, x) == media_insert(s.take(j as int), x) + s.skip(j as int),
        decreases j,
    {
        assert(s.take(j as int).drop_last() =~= s.take(j - 1));
        assert(s.take(j as int).last() == s[j - 1]);
        assert(s.skip(j - 1) =~= seq![s[j - 1]] + s.skip(j as int));
        assert(media_insert(s.take(j as int), x) == media_insert(s.take(j - 1), x).push(s[j - 1]));
        assert(media_insert(s.take(j - 1), x).push(s[j - 1]) + s.skip(j as int) =~= media_insert(
            s.take(j - 1),
            x,
        ) + s.skip(j - 1));
        j -= 1;
    }
    if j > 0 {
        assert(s.take(j as int).last() == s[j - 1]);
        assert(media_insert(s.take(j as int), x) == s.take(j as int).push(x));
    } else {
        assert(s.take(0) =~= Seq::<MediaFile>::empty());
    }
    let ghost xv = x;
    v.insert(j, x);
    assert(v@ =~= s.take(j as int).push(xv) + s.skip(j as int));
}

/// Sorts a listing (see [`media_sort`]).
pub fn sort_media(v: Vec<MediaFile>) -> (r: Vec<MediaFile>)
    ensures
        r@ == media_sort(v@),
{
    let ghost orig = v@;
    assert(orig.len() == v.len());
    let mut rest = v;
    let mut out: Vec<MediaFile> = Vec::new();
    let mut k: usize = 0;
    assert(orig.skip(0) =~= orig);
    while rest.len() > 0
        invariant
            k <= orig.len(),
            orig.len() <= usize::MAX,
            rest@ == orig.skip(k as int),
            out@ == media_sort(orig.take(k as int)),
        decreases rest.len(),
    {
        let x = rest.remove(0);
        assert(orig.take(k + 1).drop_last() =~= orig.take(k as int));
        assert(orig.take(k + 1).last() == x);
        insert_media(&mut out, x);
        assert(rest@ =~= orig.skip(k + 1));
        k += 1;
    }
    assert(orig.take(k as int) =~= orig);
    out
}

/// The scanned files that are listed: those with a safe image name.
pub open spec fn listed_media(s: Seq<MediaScan>) -> Seq<MediaScan>
    decreases s.len(),
{
    if s.len() == 0 {
        Seq::empty()
    } else if screenshot_name(s.last().name@) is Ok {
        listed_media(s.drop_last()).push(s.last())
    } else {
        listed_media(s.drop_last())
    }
}

/// `f` lists the scanned file `s`.
pub open spec fn media_matches(f: MediaFile, s: MediaScan) -> bool {
    &&& f.name == s.name
    &&& f.size == s.size
    &&& oview(f.modified_at) == time_of(s.modified_at)
    &&& f.mime@ == mime_of(s.name@)
}

/// The screenshots of an instance: the scanned files with safe image
/// names, with their MIME types, newest first, then by name.
pub fn list_media(scans: Vec<MediaScan>) -> (r: Vec<MediaFile>)
    ensures
        exists|items: Seq<MediaFile>|
            #[trigger] media_sort(items) == r@ && items.len() == listed_media(scans@).len() && forall|k: int|
                0 <= k < items.len() ==> media_matches(#[trigger] items[k], listed_media(scans@)[k]),
{
    let ghost all = scans@;
    assert(all.len() == scans.len());
    let mut rest = scans;
    let mut items: Vec<MediaFile> = Vec::new();
    let mut i: usize = 0;
    assert(all.skip(0) =~= all);
    while rest.len() > 0
        invariant
            i <= all.len(),
            all.len() <= usize::MAX,
            rest@ == all.skip(i as int),
            items@.len() == listed_media(all.take(i as int)).len(),
            forall|k: int|
                0 <= k < items@.len() ==> media_matches(#[trigger] items@[k], listed_media(all.take(i as int))[k]),
        decreases rest.len(),
    {
        let s = rest.remove(0);
        assert(all.take(i + 1).drop_last() =~= all.take(i as int));
        assert(all.take(i + 1).last() == s);
        assert(rest@ =~= all.skip(i + 1));
        let ok = safe_filename(s.name.as_str()).is_ok();
        if ok {
            let mime = mime_for_name(s.name.as_str());
            let modified_at = match s.modified_at {
                Some(t) => if chars_of(t.as_str()).len() > 0 {
                    Some(t)
                } else {
                    None
                },
                None => None,
            };
            items.push(MediaFile { name: s.name, size: s.size, modified_at, mime });
        }
        i += 1;
    }
    assert(all.take(i as int) =~= all);
    let ghost unsorted = items@;
    let r = sort_media(items);
    assert(media_sort(unsorted) == r@);
    r
}

// ===========================================================================
// Previews and imports
// ===========================================================================

/// A screenshot of `size` bytes can be previewed: at most 20 MiB.
pub fn check_preview_size(size: u64) -> (r: AppResult<()>)
    ensures
        r is Ok <==> size <= MAX_MEDIA_PREVIEW_BYTES,
        r matches Err(e) ==> e.message@ == "File too large to preview (max 20 MiB)"@,
{
    if size > MAX_MEDIA_PREVIEW_BYTES {
        return Err(AppError::lit("File too large to preview (max 20 MiB)"));
    }
    Ok(())
}

/// `data:{mime};base64,{Base64 of bytes}`.
pub open spec fn data_url_of(mime: Seq<char>, bytes: Seq<u8>) -> Seq<char> {
    "data:"@ + mime + ";base64,"@ + base64_of(bytes)
}

/// The preview of screenshot `name` with contents `bytes`: a data URL of
/// its MIME type.
pub fn read_preview(name: &str, bytes: &[u8]) -> (r: AppResult<MediaPreview>)
    ensures
        match screenshot_name(name@) {
            Ok(n) => r matches Ok(p) && p.name@ == n && p.mime@ == mime_of(name@) && p.data_url@
                == data_url_of(mime_of(name@), bytes@),
            Err(m) => r matches Err(e) && e.message@ == m,
        },
{
    let mime = mime_for_name(name);
    let mut url = chars_of("data:");
    append_str(&mut url, mime.as_str());
    append_str(&mut url, ";base64,");
    append_str(&mut url, base64_encode(bytes).as_str());
    let n = match safe_filename(name) {
        Ok(n) => n,
        Err(e) => {
            return Err(e);
        },
    };
    Ok(MediaPreview { name: n, mime, data_url: string_of(&url) })
}

/// The `i`-th alternative name of an imported file whose name is taken:
/// `{stem}-{i}.{ext}` (stem `shot` and extension `png` where missing).
pub open spec fn numbered_name(name: Seq<char>, i: u32) -> Seq<char> {
    let stem = match file_stem(name) {
        Some(s) => s,
        None => "shot"@,
    };
    let ext = match extension(name) {
        Some(e) => e,
        None => "png"@,
    };
    stem + "-"@ + decimal(i as nat) + "."@ + ext
}

pub fn numbered(name: &str, i: u32) -> (r: String)
    ensures
        r@ == numbered_name(name@, i),
{
    let n = chars_of(name);
    let mut out = match path_file_stem(&n) {
        Some(s) => s,
        None => chars_of("shot"),
    };
    append_str(&mut out, "-");
    append(&mut out, &decimal_of(i as u64));
    append_str(&mut out, ".");
    match path_extension(&n) {
        Some(e) => append(&mut out, &e),
        None => append_str(&mut out, "png"),
    }
    string_of(&out)
}

/// The record of an imported screenshot saved as `name` with `size` bytes.
pub fn imported_file(name: String, size: u64) -> (r: MediaFile)
    ensures
        r.name == name,
        r.size == size,
        r.modified_at is None,
        r.mime@ == mime_of(name@),
{
    let mime = mime_for_name(name.as_str());
    MediaFile { name, size, modified_at: None, mime }
}

// ===========================================================================
// Thumbnails
// ===========================================================================

/// The thumbnail of an encoded image: decoded (its format guessed from its
/// bytes), scaled to fit 128 x 128 keeping its aspect, as 8-bit RGB rows,
/// with its width and height; or the decoder's error text. It names the
/// result of a chain of three calls of the `image` crate:
/// `load_from_memory`, then `thumbnail(128, 128)`, then `to_rgb8`.
pub uninterp spec fn thumbnail_of(data: Seq<u8>) -> Result<(Seq<u8>, u32, u32), Seq<char>>;

/// JPEG at quality 70 of 8-bit RGB rows of the given size; or the
/// encoder's error text.
pub uninterp spec fn jpeg_of(rgb: Seq<u8>, width: u32, height: u32) -> Result<Seq<u8>, Seq<char>>;

/// Calls `image::load_from_memory`, `DynamicImage::thumbnail(128, 128)` and
/// `to_rgb8`. The result is named [`thumbnail_of`]; its rows hold three
/// bytes per pixel, as an RGB buffer of that size does.
#[verifier::external_body]
fn decode_thumbnail(data: &[u8]) -> (r: Result<(Vec<u8>, u32, u32), String>)
    ensures
        match r {
            Ok((rgb, w, h)) => thumbnail_of(data@) == Ok::<(Seq<u8>, u32, u32), Seq<char>>((rgb@, w, h))
                && rgb@.len() == w as int * h as int * 3,
            Err(m) => thumbnail_of(data@) == Err::<(Seq<u8>, u32, u32), Seq<char>>(m@),
        },
{
    match image::load_from_memory(data) {
        Ok(img) => {
            let rgb = img.thumbnail(128, 128).to_rgb8();
            let (w, h) = (rgb.width(), rgb.height());
            Ok((rgb.into_raw(), w, h))
        },
        Err(e) => Err(e.to_string()),
    }
}

/// Calls `image::codecs::jpeg::JpegEncoder::new_with_quality(_, 70)` and
/// its `encode` with `ExtendedColorType::Rgb8`, into a byte buffer. The
/// result is named [`jpeg_of`]. `encode` panics unless the rows hold
/// exactly three bytes per pixel, which the caller must give.
#[verifier::external_body]
fn encode_jpeg(rgb: &[u8], width: u32, height: u32) -> (r: Result<Vec<u8>, String>)
    requires
        rgb@.len() == width as int * height as int * 3,
    ensures
        match r {
            Ok(out) => jpeg_of(rgb@, width, height) == Ok::<Seq<u8>, Seq<char>>(out@),
            Err(m) => jpeg_of(rgb@, width, height) == Err::<Seq<u8>, Seq<char>>(m@),
        },
{
    let mut out: Vec<u8> = Vec::new();
    let mut encoder = image::codecs::jpeg::JpegEncoder::new_with_quality(&mut out, 70);
    match encoder.encode(rgb, width, height, image::ExtendedColorType::Rgb8) {
        Ok(()) => Ok(out),
        Err(e) => Err(e.to_string()),
    }
}

/// The JPEG thumbnail of `data`, if it decodes and encodes.
pub open spec fn thumb_bytes(data: Seq<u8>) -> Result<Seq<u8>, Seq<char>> {
    match thumbnail_of(data) {
        Err(m) => Err("Could not decode image: "@ + m),
        Ok((rgb, w, h)) => match jpeg_of(rgb, w, h) {
            Err(m) => Err("Could not encode thumbnail: "@ + m),
            Ok(j) => Ok(j),
        },
    }
}

/// The small JPEG preview of screenshot `name` of `size` bytes with
/// contents `data`: refused for a name that is not a safe image name, a
/// file over 20 MiB, or an image that does not decode or encode.
pub fn read_thumb(name: &str, size: u64, data: &[u8]) -> (r: AppResult<MediaPreview>)
    ensures
        match screenshot_name(name@) {
            Err(m) => r matches Err(e) && e.message@ == m,
            Ok(n) => if size > MAX_MEDIA_PREVIEW_BYTES {
                r matches Err(e) && e.message@ == "File too large for thumbnail"@
            } else {
                match thumb_bytes(data@) {
                    Err(m) => r matches Err(e) && e.message@ == m,
                    Ok(j) => r matches Ok(p) && p.name@ == n && p.mime@ == "image/jpeg"@ && p.data_url@
                        == data_url_of("image/jpeg"@, j),
                }
            },
        },
{
    let n = match safe_filename(name) {
        Ok(n) => n,
        Err(e) => {
            return Err(e);
        },
    };
    if size > MAX_MEDIA_PREVIEW_BYTES {
        return Err(AppError::lit("File too large for thumbnail"));
    }
    let (rgb, w, h) = match decode_thumbnail(data) {
        Ok(t) => t,
        Err(m) => {
            let mut v = chars_of("Could not decode image: ");
            append_str(&mut v, m.as_str());
            return Err(AppError::msg(string_of(&v)));
        },
    };
    let jpeg = match encode_jpeg(rgb.as_slice(), w, h) {
        Ok(j) => j,
        Err(m) => {
            let mut v = chars_of("Could not encode thumbnail: ");
            append_str(&mut v, m.as_str());
            return Err(AppError::msg(string_of(&v)));
        },
    };
    let mut url = chars_of("data:");
    append_str(&mut url, "image/jpeg");
    append_str(&mut url, ";base64,");
    append_str(&mut url, base64_encode(jpeg.as_slice()).as_str());
    Ok(MediaPreview { name: n, mime: lit("image/jpeg"), data_url: string_of(&url) })
}


// ===========================================================================
// Laws
// ===========================================================================

/// The listing order as a relation.
pub open spec fn media_order() -> spec_fn(MediaFile, MediaFile) -> bool {
    |a: MediaFile, b: MediaFile| media_le(a, b)
}

proof fn lemma_media_insert_is(s: Seq<MediaFile>, x: MediaFile)
    ensures
        media_insert(s, x) == ins(s, x, media_order()),
    decreases s.len(),
{
    if s.len() > 0 {
        lemma_media_insert_is(s.drop_last(), x);
    }
}

proof fn lemma_media_sort_is(s: Seq<MediaFile>)
    ensures
        media_sort(s) == isort(s, media_order()),
    decreases s.len(),
{
    if s.len() > 0 {
        lemma_media_sort_is(s.drop_last());
        lemma_media_insert_is(media_sort(s.drop_last()), s.last());
    }
}

proof fn lemma_media_order_total()
    ensures
        total_preorder(media_order()),
{
    let le = media_order();
    assert forall|a: MediaFile, b: MediaFile| #[trigger] le(a, b) || le(b, a) by {
        lemma_chars_le_total(lower(a.name@), lower(b.name@));
        match (oview(a.modified_at), oview(b.modified_at)) {
            (Some(x), Some(y)) => {
                lemma_chars_le_total(x, y);
            },
            _ => {},
        }
    }
    assert forall|a: MediaFile, b: MediaFile, c: MediaFile|
        #[trigger] le(a, b) && #[trigger] le(b, c) implies le(a, c) by {
        let (p, q, r) = (lower(a.name@), lower(b.name@), lower(c.name@));
        if chars_le(p, q) && chars_le(q, r) {
            lemma_chars_le_trans(p, q, r);
        }
        match (oview(a.modified_at), oview(b.modified_at), oview(c.modified_at)) {
            (Some(x), Some(y), Some(z)) => {
                if chars_le(z, y) && chars_le(y, x) {
                    lemma_chars_le_trans(z, y, x);
                }
                if chars_le(x, y) && chars_le(y, x) {
                    lemma_chars_le_antisym(x, y);
                }
                if chars_le(y, z) && chars_le(z, y) {
                    lemma_chars_le_antisym(y, z);
                }
                if chars_le(z, y) && chars_le(y, x) && x == z {
                    lemma_chars_le_antisym(x, y);
                }
            },
            _ => {},
        }
    }
}

/// A screenshot listing comes out newest first, then by name ignoring
/// ASCII case, and holds exactly the files it was given.
pub proof fn law_media_listing_sorted(s: Seq<MediaFile>)
    ensures
        forall|i: int, j: int|
            0 <= i < j < media_sort(s).len() ==> media_le(#[trigger] media_sort(s)[i], #[trigger] media_sort(s)[j]),
        media_sort(s).to_multiset() == s.to_multiset(),
{
    lemma_media_order_total();
    lemma_media_sort_is(s);
    lemma_isort(s, media_order());
    assert forall|i: int, j: int| 0 <= i < j < media_sort(s).len() implies media_le(
        #[trigger] media_sort(s)[i],
        #[trigger] media_sort(s)[j],
    ) by {
        assert(media_order()(media_sort(s)[i], media_sort(s)[j]));
    }
}


proof fn lemma_listed_media_remove(scans: Seq<MediaScan>, j: int)
    requires
        0 <= j < scans.len(),
        screenshot_name(scans[j].name@) is Ok,
    ensures
        listed_media(scans.take(j)).len() < listed_media(scans).len(),
        listed_media(scans)[listed_media(scans.take(j)).len() as int] == scans[j],
        listed_media(scans.remove(j)) == listed_media(scans).remove(listed_media(scans.take(j)).len() as int),
    decreases scans.len(),
{
    let d = scans.drop_last();
    if j == scans.len() - 1 {
        assert(scans.remove(j) =~= d);
        assert(scans.take(j) =~= d);
        assert(listed_media(scans).remove(listed_media(d).len() as int) =~= listed_media(d));
    } else {
        lemma_listed_media_remove(d, j);
        assert(d.take(j) =~= scans.take(j));
        let r = scans.remove(j);
        assert(r.drop_last() =~= d.remove(j));
        assert(r.last() == scans.last());
        let idx = listed_media(scans.take(j)).len() as int;
        if screenshot_name(scans.last().name@) is Ok {
            assert(listed_media(d).push(scans.last()).remove(idx) =~= listed_media(d).remove(idx).push(
                scans.last(),
            ));
        }
    }
}

proof fn lemma_listed_media_in(scans: Seq<MediaScan>, k: int)
    requires
        0 <= k < listed_media(scans).len(),
    ensures
        exists|m: int| 0 <= m < scans.len() && scans[m] == listed_media(scans)[k],
    decreases scans.len(),
{
    let d = scans.drop_last();
    if k < listed_media(d).len() {
        lemma_listed_media_in(d, k);
        let m = choose|m: int| 0 <= m < d.len() && d[m] == listed_media(d)[k];
        assert(scans[m] == d[m]);
    } else {
        assert(scans[scans.len() - 1] == scans.last());
    }
}

/// A screenshot file with a safe image name is listed exactly when it is
/// in the folder: with it (after an import) the listing holds its entry
/// (its name, size and MIME type) and, in the same order, every entry it
/// holds without it (after a deletion); without it, no entry has its name.
/// File names are distinct in a folder, as on disk.
pub proof fn law_screenshot_listed(scans: Seq<MediaScan>, j: int, with: Seq<MediaFile>, without: Seq<MediaFile>)
    requires
        0 <= j < scans.len(),
        screenshot_name(scans[j].name@) is Ok,
        forall|k: int| 0 <= k < scans.len() && k != j ==> (#[trigger] scans[k]).name@ != scans[j].name@,
        with.len() == listed_media(scans).len(),
        forall|k: int| 0 <= k < with.len() ==> media_matches(#[trigger] with[k], listed_media(scans)[k]),
        without.len() == listed_media(scans.remove(j)).len(),
        forall|k: int|
            0 <= k < without.len() ==> media_matches(#[trigger] without[k], listed_media(scans.remove(j))[k]),
    ensures
        without.len() + 1 == with.len(),
        ({
            let w = with[listed_media(scans.take(j)).len() as int];
            &&& w.name == scans[j].name
            &&& w.size == scans[j].size
            &&& w.mime@ == mime_of(scans[j].name@)
        }),
        forall|k: int|
            0 <= k < without.len() ==> {
                let w = with[if k < listed_media(scans.take(j)).len() {
                    k
                } else {
                    k + 1
                }];
                &&& (#[trigger] without[k]).name == w.name
                &&& without[k].size == w.size
                &&& oview(without[k].modified_at) == oview(w.modified_at)
                &&& without[k].mime@ == w.mime@
            },
        forall|k: int| 0 <= k < without.len() ==> (#[trigger] without[k]).name@ != scans[j].name@,
{
    lemma_listed_media_remove(scans, j);
    let idx = listed_media(scans.take(j)).len() as int;
    let lw = listed_media(scans);
    let lo = listed_media(scans.remove(j));
    assert(media_matches(with[idx], lw[idx]));
    assert forall|k: int| 0 <= k < without.len() implies {
        let w = with[if k < idx {
            k
        } else {
            k + 1
        }];
        &&& (#[trigger] without[k]).name == w.name
        &&& without[k].size == w.size
        &&& oview(without[k].modified_at) == oview(w.modified_at)
        &&& without[k].mime@ == w.mime@
    } by {
        let k2 = if k < idx {
            k
        } else {
            k + 1
        };
        assert(lo[k] == lw[k2]);
        assert(media_matches(without[k], lo[k]));
        assert(media_matches(with[k2], lw[k2]));
    }
    assert forall|k: int| 0 <= k < without.len() implies (#[trigger] without[k]).name@ != scans[j].name@ by {
        assert(media_matches(without[k], lo[k]));
        lemma_listed_media_in(scans.remove(j), k);
        let m = choose|m: int| 0 <= m < scans.remove(j).len() && scans.remove(j)[m] == lo[k];
        let m2 = if m < j {
            m
        } else {
            m + 1
        };
        assert(scans.remove(j)[m] == scans[m2]);
    }
}

} // verus!
