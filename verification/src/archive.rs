//! The ZIP container of a `.fig` file: which entries the document takes,
//! and what it takes from them.

use vstd::prelude::*;
use std::io::Read;
use crate::error::ParseError;
use crate::text::{owned, str_eq};

verus! {

/// The number of entries `zip::ZipArchive::new` finds in the central
/// directory of `data` (`ZipArchive::len`); where it rejects `data`, the
/// text of its `ZipError`.
pub uninterp spec fn zip_entry_count(data: Seq<u8>) -> Result<usize, Seq<char>>;

/// The name of entry `i` of the archive `data` (`ZipArchive::by_index`, then
/// `ZipFile::name`); where `by_index` reports an error, that error's text.
pub uninterp spec fn zip_entry_name(data: Seq<u8>, i: usize) -> Result<Seq<char>, Seq<char>>;

/// The contents of entry `i` of the archive `data`, read to the end; where
/// reading reports an error, that error's text.
pub uninterp spec fn zip_entry_data(data: Seq<u8>, i: usize) -> Result<Seq<u8>, Seq<char>>;

/// Opens `data` as a ZIP archive with `zip::ZipArchive::new` and counts its
/// entries with `ZipArchive::len`; a failure is handed back as its text.
#[verifier::external_body]
fn zip_count_call(data: &[u8]) -> (r: Result<usize, String>)
    ensures
        match zip_entry_count(data@) {
            Ok(n) => r == Ok::<usize, String>(n),
            Err(m) => r matches Err(t) && t@ == m,
        },
{
    match zip::ZipArchive::new(std::io::Cursor::new(data)) {
        Ok(a) => Ok(a.len()),
        Err(e) => Err(e.to_string()),
    }
}

/// The name of entry `i`, through `ZipArchive::by_index` and `ZipFile::name`;
/// a failure is handed back as its text.
#[verifier::external_body]
fn zip_name_call(data: &[u8], i: usize) -> (r: Result<String, String>)
    requires
        zip_entry_count(data@) matches Ok(n) && i < n,
    ensures
        match zip_entry_name(data@, i) {
            Ok(name) => r matches Ok(s) && s@ == name,
            Err(m) => r matches Err(t) && t@ == m,
        },
{
    let mut archive = match zip::ZipArchive::new(std::io::Cursor::new(data)) {
        Ok(a) => a,
        Err(e) => return Err(e.to_string()),
    };
    let r = match archive.by_index(i) {
        Ok(entry) => Ok(entry.name().to_string()),
        Err(e) => Err(e.to_string()),
    };
    r
}

/// The contents of entry `i`, through `ZipArchive::by_index` and
/// `Read::read_to_end` on the entry; a failure is handed back as its text.
#[verifier::external_body]
fn zip_read_call(data: &[u8], i: usize) -> (r: Result<Vec<u8>, String>)
    requires
        zip_entry_count(data@) matches Ok(n) && i < n,
        zip_entry_name(data@, i) is Ok,
    ensures
        match zip_entry_data(data@, i) {
            Ok(b) => r matches Ok(v) && v@ == b,
            Err(m) => r matches Err(t) && t@ == m,
        },
{
    let mut archive = match zip::ZipArchive::new(std::io::Cursor::new(data)) {
        Ok(a) => a,
        Err(e) => return Err(e.to_string()),
    };
    let mut entry = match archive.by_index(i) {
        Ok(f) => f,
        Err(e) => return Err(e.to_string()),
    };
    let mut out = Vec::new();
    match entry.read_to_end(&mut out) {
        Ok(_) => Ok(out),
        Err(e) => Err(e.to_string()),
    }
}

/// What the document takes from an entry, by the entry's name.
pub enum EntryRole {
    Canvas,
    Meta,
    Thumbnail,
    /// An image, under its hash (the name after `images/`).
    Image(Seq<char>),
    Ignored,
}

pub open spec fn entry_role(name: Seq<char>) -> EntryRole {
    if name == "canvas.fig"@ {
        EntryRole::Canvas
    } else if name == "meta.json"@ {
        EntryRole::Meta
    } else if name == "thumbnail.png"@ {
        EntryRole::Thumbnail
    } else if name.len() > 7 && name.take(7) == "images/"@ {
        EntryRole::Image(name.skip(7))
    } else {
        EntryRole::Ignored
    }
}

/// The parts of the container read so far.
pub struct ArchiveParts {
    pub canvas: Option<Seq<u8>>,
    pub meta: Seq<u8>,
    pub thumbnail: Seq<u8>,
    pub images: Seq<(Seq<char>, Seq<u8>)>,
}

/// Stores image `b` under hash `h`, replacing an image of the same hash in
/// place and adding a new one at the end.
pub open spec fn with_image(imgs: Seq<(Seq<char>, Seq<u8>)>, h: Seq<char>, b: Seq<u8>) -> Seq<(Seq<char>, Seq<u8>)> {
    if exists|k: int| 0 <= k < imgs.len() && (#[trigger] imgs[k]).0 == h {
        let k = choose|k: int| 0 <= k < imgs.len() && (#[trigger] imgs[k]).0 == h;
        imgs.update(k, (h, b))
    } else {
        imgs.push((h, b))
    }
}

/// Takes entry contents `b` in the given role: the canvas replaces any
/// earlier one, meta and thumbnail contents are appended.
pub open spec fn apply_entry(p: ArchiveParts, role: EntryRole, b: Seq<u8>) -> ArchiveParts {
    match role {
        EntryRole::Canvas => ArchiveParts { canvas: Some(b), ..p },
        EntryRole::Meta => ArchiveParts { meta: p.meta + b, ..p },
        EntryRole::Thumbnail => ArchiveParts { thumbnail: p.thumbnail + b, ..p },
        EntryRole::Image(h) => ArchiveParts { images: with_image(p.images, h, b), ..p },
        EntryRole::Ignored => p,
    }
}

/// Where reading the container failed.
pub enum ArchiveFault {
    /// The ZIP layer rejected an entry, with the error's text.
    Zip(Seq<char>),
    /// Reading an entry's contents failed, with the error's text.
    Io(Seq<char>),
}

/// `e` is the error that reports the fault `f`.
pub open spec fn fault_error(f: ArchiveFault, e: ParseError) -> bool {
    match f {
        ArchiveFault::Zip(t) => e matches ParseError::Zip(s) && s@ == t,
        ArchiveFault::Io(t) => e matches ParseError::Io(s) && s@ == t,
    }
}

/// The parts taken from the first `n` entries of the archive `data`, or the
/// first failure.
pub open spec fn scan_entries(data: Seq<u8>, n: nat) -> Result<ArchiveParts, ArchiveFault>
    decreases n,
{
    if n == 0 {
        Ok(ArchiveParts { canvas: None, meta: Seq::empty(), thumbnail: Seq::empty(), images: Seq::empty() })
    } else {
        match scan_entries(data, (n - 1) as nat) {
            Err(f) => Err(f),
            Ok(p) => match zip_entry_name(data, (n - 1) as usize) {
                Err(m) => Err(ArchiveFault::Zip(m)),
                Ok(name) => if entry_role(name) is Ignored {
                    Ok(p)
                } else {
                    match zip_entry_data(data, (n - 1) as usize) {
                        Err(m) => Err(ArchiveFault::Io(m)),
                        Ok(b) => Ok(apply_entry(p, entry_role(name), b)),
                    }
                },
            },
        }
    }
}

/// The entries of a `.fig` container that the document reads.
pub struct FigArchive {
    pub canvas_fig: Vec<u8>,
    pub meta_json: Vec<u8>,
    pub thumbnail: Vec<u8>,
    /// Image bytes under their hashes, one entry per hash.
    pub images: Vec<(String, Vec<u8>)>,
}

pub open spec fn images_view(s: Seq<(String, Vec<u8>)>) -> Seq<(Seq<char>, Seq<u8>)> {
    s.map_values(|e: (String, Vec<u8>)| (e.0@, e.1@))
}

/// The archive holds exactly the parts `p`, with a canvas.
pub open spec fn archive_holds(a: FigArchive, p: ArchiveParts) -> bool {
    &&& p.canvas == Some(a.canvas_fig@)
    &&& a.meta_json@ == p.meta
    &&& a.thumbnail@ == p.thumbnail
    &&& images_view(a.images@) == p.images
}

/// The hash of an image entry: what follows `images/`, when something does.
fn image_hash(name: &str) -> (r: Option<String>)
    ensures
        match entry_role(name@) {
            EntryRole::Image(h) => r matches Some(s) && s@ == h,
            _ => (r is None || name@ == "canvas.fig"@ || name@ == "meta.json"@ || name@ == "thumbnail.png"@),
        },
        r is Some ==> name@.len() > 7 && name@.take(7) == "images/"@,
{
    let n = name.unicode_len();
    if n <= 7 {
        return None;
    }
    let prefix = name.substring_char(0, 7);
    if !str_eq(prefix, "images/") {
        assert(prefix@ == name@.take(7));
        return None;
    }
    assert(prefix@ == name@.take(7));
    let rest = name.substring_char(7, n);
    assert(rest@ == name@.skip(7));
    Some(owned(rest))
}

/// No two images share a hash.
pub open spec fn distinct_hashes(imgs: Seq<(Seq<char>, Seq<u8>)>) -> bool {
    forall|a: int, b: int| 0 <= a < b < imgs.len() ==> (#[trigger] imgs[a]).0 != (#[trigger] imgs[b]).0
}

/// Store `bytes` under `hash`: replace the image of that hash, or add one.
fn put_image(images: &mut Vec<(String, Vec<u8>)>, hash: String, bytes: Vec<u8>)
    requires
        distinct_hashes(images_view(old(images)@)),
    ensures
        images_view(final(images)@) == with_image(images_view(old(images)@), hash@, bytes@),
        distinct_hashes(images_view(final(images)@)),
{
    let ghost before = images_view(images@);
    let mut k: usize = 0;
    while k < images.len()
        invariant
            k <= images.len(),
            images_view(images@) == before,
            before == images_view(old(images)@),
            distinct_hashes(before),
            forall|q: int| 0 <= q < k ==> (#[trigger] before[q]).0 != hash@,
        decreases images.len() - k,
    {
        if str_eq(images[k].0.as_str(), hash.as_str()) {
            proof {
                assert(before[k as int].0 == hash@);
                let j = choose|j: int| 0 <= j < before.len() && (#[trigger] before[j]).0 == hash@;
                if j != k {
                    if j < k {
                        assert(before[j].0 != hash@);
                    } else {
                        assert(before[k as int].0 != before[j].0);
                    }
                }
                assert(j == k);
                assert(with_image(before, hash@, bytes@) == before.update(k as int, (hash@, bytes@)));
            }
            let ghost hv = hash@;
            let ghost bv = bytes@;
            images.set(k, (hash, bytes));
            proof {
                let now = images_view(images@);
                assert(now =~= before.update(k as int, (hv, bv)));
                assert forall|a: int, b: int| 0 <= a < b < now.len() implies (#[trigger] now[a]).0
                    != (#[trigger] now[b]).0 by {
                    assert(now[a].0 == before[a].0);
                    assert(now[b].0 == before[b].0);
                }
            }
            return;
        }
        k = k + 1;
    }
    let ghost hv = hash@;
    let ghost bv = bytes@;
    images.push((hash, bytes));
    proof {
        let now = images_view(images@);
        assert(now =~= before.push((hv, bv)));
        assert forall|a: int, b: int| 0 <= a < b < now.len() implies (#[trigger] now[a]).0 != (
        #[trigger] now[b]).0 by {
            if b == before.len() {
                assert(now[a] == before[a]);
            } else {
                assert(now[a] == before[a]);
                assert(now[b] == before[b]);
            }
        }
    }
}

/// Once reading fails, reading more entries fails the same way.
proof fn lemma_scan_failure_stays(data: Seq<u8>, a: nat, b: nat)
    requires
        a <= b,
        scan_entries(data, a) is Err,
    ensures
        scan_entries(data, b) == scan_entries(data, a),
    decreases b - a,
{
    if a < b {
        lemma_scan_failure_stays(data, a, (b - 1) as nat);
    }
}

/// The parts held by the reading state.
pub open spec fn parts_of(
    canvas: Option<Vec<u8>>,
    meta: Seq<u8>,
    thumbnail: Seq<u8>,
    images: Seq<(String, Vec<u8>)>,
) -> ArchiveParts {
    ArchiveParts {
        canvas: match canvas {
            Some(c) => Some(c@),
            None => None,
        },
        meta,
        thumbnail,
        images: images_view(images),
    }
}

/// Read the container: for each entry in order, take the canvas, the meta
/// JSON, the thumbnail and the images; the canvas is required.
pub fn read_archive(data: &[u8]) -> (r: Result<FigArchive, ParseError>)
    ensures
        match zip_entry_count(data@) {
            Err(t) => (r matches Err(ParseError::Zip(s)) && s@ == t),
            Ok(n) => match scan_entries(data@, n as nat) {
                Err(f) => (r matches Err(e) && fault_error(f, e)),
                Ok(p) => if p.canvas is None {
                    (r matches Err(ParseError::MissingEntry(m)) && m@ == "canvas.fig"@)
                } else {
                    (r matches Ok(a) && archive_holds(a, p))
                },
            },
        },
        r matches Ok(a) ==> distinct_hashes(images_view(a.images@)),
{
    let n = match zip_count_call(data) {
        Ok(n) => n,
        Err(t) => return Err(ParseError::Zip(t)),
    };
    let mut canvas: Option<Vec<u8>> = None;
    let mut meta: Vec<u8> = Vec::new();
    let mut thumbnail: Vec<u8> = Vec::new();
    let mut images: Vec<(String, Vec<u8>)> = Vec::new();
    let mut i: usize = 0;
    assert(images_view(images@) =~= Seq::<(Seq<char>, Seq<u8>)>::empty());
    while i < n
        invariant
            zip_entry_count(data@) == Ok::<usize, Seq<char>>(n),
            i <= n,
            scan_entries(data@, i as nat) == Ok::<ArchiveParts, ArchiveFault>(
                parts_of(canvas, meta@, thumbnail@, images@),
            ),
            distinct_hashes(images_view(images@)),
        decreases n - i,
    {
        let name = match zip_name_call(data, i) {
            Ok(s) => s,
            Err(t) => {
                proof {
                    lemma_scan_failure_stays(data@, (i + 1) as nat, n as nat);
                }
                return Err(ParseError::Zip(t));
            },
        };
        let ghost role = entry_role(name@);
        let is_canvas = str_eq(name.as_str(), "canvas.fig");
        let is_meta = str_eq(name.as_str(), "meta.json");
        let is_thumb = str_eq(name.as_str(), "thumbnail.png");
        let hash = image_hash(name.as_str());
        if is_canvas || is_meta || is_thumb || hash.is_some() {
            let mut bytes = match zip_read_call(data, i) {
                Ok(b) => b,
                Err(t) => {
                    proof {
                        lemma_scan_failure_stays(data@, (i + 1) as nat, n as nat);
                    }
                    return Err(ParseError::Io(t));
                },
            };
            let ghost b = bytes@;
            let ghost p = parts_of(canvas, meta@, thumbnail@, images@);
            if is_canvas {
                canvas = Some(bytes);
                assert(parts_of(canvas, meta@, thumbnail@, images@) == apply_entry(p, role, b));
            } else if is_meta {
                meta.append(&mut bytes);
                assert(parts_of(canvas, meta@, thumbnail@, images@) == apply_entry(p, role, b));
            } else if is_thumb {
                thumbnail.append(&mut bytes);
                assert(parts_of(canvas, meta@, thumbnail@, images@) == apply_entry(p, role, b));
            } else {
                match hash {
                    Some(h) => {
                        put_image(&mut images, h, bytes);
                        assert(parts_of(canvas, meta@, thumbnail@, images@) == apply_entry(p, role, b));
                    },
                    None => {},
                }
            }
        } else {
            assert(role is Ignored);
        }
        i = i + 1;
    }
    match canvas {
        Some(c) => Ok(FigArchive { canvas_fig: c, meta_json: meta, thumbnail, images }),
        None => Err(ParseError::MissingEntry(owned("canvas.fig"))),
    }
}

/// The images of the container at `data`, by hash.
pub fn extract_images(data: &[u8]) -> (r: Result<Vec<(String, Vec<u8>)>, ParseError>)
    ensures
        match zip_entry_count(data@) {
            Err(t) => (r matches Err(ParseError::Zip(s)) && s@ == t),
            Ok(n) => match scan_entries(data@, n as nat) {
                Err(f) => (r matches Err(e) && fault_error(f, e)),
                Ok(p) => if p.canvas is None {
                    (r matches Err(ParseError::MissingEntry(m)) && m@ == "canvas.fig"@)
                } else {
                    (r matches Ok(imgs) && images_view(imgs@) == p.images)
                },
            },
        },
{
    match read_archive(data) {
        Ok(a) => Ok(a.images),
        Err(e) => Err(e),
    }
}

/// The bytes of the (first) image with hash `hash`.
pub fn find_image(images: &Vec<(String, Vec<u8>)>, hash: &str) -> (r: Option<Vec<u8>>)
    ensures
        match r {
            Some(b) => exists|k: int|
                0 <= k < images@.len() && (#[trigger] images@[k]).0@ == hash@ && images@[k].1@ == b@ && forall|
                    q: int,
                | 0 <= q < k ==> (#[trigger] images@[q]).0@ != hash@,
            None => forall|k: int| 0 <= k < images@.len() ==> (#[trigger] images@[k]).0@ != hash@,
        },
{
    let mut k: usize = 0;
    while k < images.len()
        invariant
            k <= images.len(),
            forall|q: int| 0 <= q < k ==> (#[trigger] images@[q]).0@ != hash@,
        decreases images.len() - k,
    {
        if str_eq(images[k].0.as_str(), hash) {
            let b = vstd::slice::slice_to_vec(images[k].1.as_slice());
            assert(images@[k as int].0@ == hash@);
            return Some(b);
        }
        k = k + 1;
    }
    None
}

} // verus!
