//! The view of a ZIP container offered by the underlying codec.
//!
//! An archive is modelled as a sequence of entries.  An entry is a pair:
//! its raw name bytes exactly as stored in the container, and its
//! substance — the still-compressed data together with the metadata that a
//! raw transplant preserves (sizes, checksum, compression method).  The
//! codec itself is not verified; each operation the engine needs is a
//! trusted wrapper whose contract states what the codec's source shows.

use vstd::prelude::*;
use vstd::string::StringSliceAdditionalSpecFns;

use crate::errors::ZipedError;
use crate::model::{distinct_names, splice};

verus! {

#[verifier::external_type_specification]
#[verifier::external_body]
#[verifier::reject_recursive_types(T)]
pub struct ExCursor<T>(std::io::Cursor<T>);

#[verifier::external_type_specification]
#[verifier::external_body]
#[verifier::reject_recursive_types(R)]
pub struct ExZipArchive<R>(zip::read::ZipArchive<R>);

/// An open, read-positioned archive over in-memory bytes.
pub type SourceArchive = zip::read::ZipArchive<std::io::Cursor<Vec<u8>>>;

/// A destination archive being written into in-memory bytes.
///
/// `zip::write::ZipWriter`'s own generics carry bounds that cannot be
/// declared here, so the writer is held opaquely in a private field.
#[verifier::external_body]
pub struct DestWriter {
    inner: zip::write::ZipWriter<std::io::Cursor<Vec<u8>>>,
}

/// The entries of an open source archive, in index order: for each, its
/// raw name bytes and its substance.
pub uninterp spec fn source_entries(a: SourceArchive) -> Seq<(Seq<u8>, Seq<u8>)>;

/// The entries written so far into a destination archive, in the order
/// they were added.
pub uninterp spec fn written_entries(w: DestWriter) -> Seq<(Seq<u8>, Seq<u8>)>;

/// The entries of the archive that `bytes` holds, or `None` when `bytes`
/// is not an archive the codec can open: what `zip::read::ZipArchive::new`
/// yields on these bytes.
pub uninterp spec fn archive_of_bytes(bytes: Seq<u8>) -> Option<Seq<(Seq<u8>, Seq<u8>)>>;

/// The bytes a source archive reads from: the buffer it was opened over.
pub uninterp spec fn opened_from(a: SourceArchive) -> Seq<u8>;

/// Whether the entry at `index` of the archive held in `bytes` can be
/// read back: whether `zip::read::ZipArchive::by_index_raw` succeeds on
/// it.  Reading an in-memory archive consults nothing but its bytes, so
/// this is a function of the bytes and the index alone; it fails, for an
/// in-range index, only when the entry's local header is broken.
pub uninterp spec fn entry_readable(bytes: Seq<u8>, index: int) -> bool;

/// Whether a destination writer is in the open, writable state that
/// `zip::write::ZipWriter::new` establishes and every successful
/// operation preserves.  A failed operation may leave the writer closed.
pub uninterp spec fn writer_usable(w: DestWriter) -> bool;

/// Whether archive bytes have the plain layout this crate's own writer
/// produces: every local file header lies before the central directory
/// and carries the same name bytes, of the same length, as the entry's
/// central directory header, and no entry carries a name-bearing extra
/// field.  In such bytes an entry's name can be rewritten in place.
pub uninterp spec fn plain_layout(bytes: Seq<u8>) -> bool;

/// What rewriting one entry's stored name in place does to archive bytes
/// of plain layout, once the entry's local header offset `lo` and central
/// directory header offset `co` are known: the name field begins 30 bytes
/// into the local header and 46 bytes into the central one, so splicing
/// equally long bytes over both — bytes no other entry's name equals —
/// yields the same archive with exactly that entry renamed, keeps the
/// layout plain, and leaves every entry as readable as before (local
/// headers are parsed by their fixed fields, never by name content).
pub open spec fn renames_cleanly(
    bytes: Seq<u8>,
    entries: Seq<(Seq<u8>, Seq<u8>)>,
    index: int,
    lo: int,
    co: int,
) -> bool {
    forall|name: Seq<u8>|
        #![trigger splice(splice(bytes, lo + 30, name), co + 46, name)]
        (name.len() == entries[index].0.len() && (forall|j: int|
            0 <= j < entries.len() && j != index ==> entries[j].0 != name)) ==> {
            &&& archive_of_bytes(splice(splice(bytes, lo + 30, name), co + 46, name)) == Some(
                entries.update(index, (name, entries[index].1)),
            )
            &&& plain_layout(splice(splice(bytes, lo + 30, name), co + 46, name))
            &&& forall|i: int|
                entry_readable(splice(splice(bytes, lo + 30, name), co + 46, name), i)
                    == entry_readable(bytes, i)
        }
}

/// Relies on `zip::read::ZipArchive::new`: it parses the central directory
/// of the given bytes, deterministically; on success the archive holds
/// exactly the entries recorded there.  The reader keys its directory by
/// raw name bytes — a later record under an already-seen name replaces
/// the earlier one — so the parsed entry list carries no duplicate names.
#[verifier::external_body]
pub(crate) fn open_archive(bytes: Vec<u8>) -> (r: Result<SourceArchive, ZipedError>)
    ensures
        r is Ok <==> archive_of_bytes(bytes@) is Some,
        r matches Ok(a) ==> Some(source_entries(a)) == archive_of_bytes(bytes@),
        r matches Ok(a) ==> opened_from(a) == bytes@,
        r matches Ok(a) ==> distinct_names(source_entries(a)),
        r matches Err(e) ==> e is Archive,
{
    match zip::read::ZipArchive::new(std::io::Cursor::new(bytes)) {
        Ok(a) => Ok(a),
        Err(e) => Err(ZipedError::Archive(format!("{}", e))),
    }
}

/// Relies on `zip::read::ZipArchive::len`: the number of entries.
#[verifier::external_body]
pub(crate) fn entry_count(a: &SourceArchive) -> (r: usize)
    ensures
        r == source_entries(*a).len(),
{
    a.len()
}

/// Relies on `zip::read::ZipArchive::by_index_raw` and
/// `ZipFile::name_raw`: the raw name bytes of the entry at `index`,
/// untouched by any decoding.  Reading moves only the underlying byte
/// position; the entry list and the buffer are unchanged, and the call
/// succeeds exactly when the entry is readable from those bytes.  A
/// stored name is at most 65535 bytes: its length field is 16 bits, and
/// the extra field that can override it is itself bounded by one.
#[verifier::external_body]
pub(crate) fn entry_raw_name(a: &mut SourceArchive, index: usize) -> (r: Result<
    Vec<u8>,
    ZipedError,
>)
    requires
        index < source_entries(*old(a)).len(),
    ensures
        source_entries(*final(a)) == source_entries(*old(a)),
        opened_from(*final(a)) == opened_from(*old(a)),
        r is Ok <==> entry_readable(opened_from(*old(a)), index as int),
        r matches Ok(name) ==> name@ == source_entries(*old(a))[index as int].0,
        r matches Ok(name) ==> name@.len() <= 0xffff,
        r matches Err(e) ==> e is Archive,
{
    match a.by_index_raw(index) {
        Ok(file) => Ok(file.name_raw().to_vec()),
        Err(e) => Err(ZipedError::Archive(format!("{}", e))),
    }
}

/// Relies on `zip::read::ZipArchive::by_index_raw` and
/// `ZipFile::{header_start, central_header_start}`: the offsets, within
/// the bytes this archive was opened from, of the entry's local file
/// header and of its central directory header.  The call succeeds
/// exactly when the entry is readable, like any other read.  When those
/// bytes have the plain layout, both name fields lie inside the bytes
/// and the offsets locate them as `renames_cleanly` states.
#[verifier::external_body]
pub(crate) fn entry_offsets(a: &mut SourceArchive, index: usize) -> (r: Result<
    (u64, u64),
    ZipedError,
>)
    requires
        index < source_entries(*old(a)).len(),
    ensures
        source_entries(*final(a)) == source_entries(*old(a)),
        opened_from(*final(a)) == opened_from(*old(a)),
        r is Ok <==> entry_readable(opened_from(*old(a)), index as int),
        r matches Ok(offs) ==> (plain_layout(opened_from(*old(a))) ==> renames_cleanly(
            opened_from(*old(a)),
            source_entries(*old(a)),
            index as int,
            offs.0 as int,
            offs.1 as int,
        )),
        r matches Ok(offs) ==> (plain_layout(opened_from(*old(a))) ==> offs.0 as int + 30
            + source_entries(*old(a))[index as int].0.len() <= opened_from(*old(a)).len()
            && offs.1 as int + 46 + source_entries(*old(a))[index as int].0.len() <= opened_from(
            *old(a),
        ).len()),
        r matches Err(e) ==> e is Archive,
{
    match a.by_index_raw(index) {
        Ok(file) => Ok((file.header_start(), file.central_header_start())),
        Err(e) => Err(ZipedError::Archive(format!("{}", e))),
    }
}

/// Relies on `zip::write::ZipWriter::new`: a fresh destination holds no
/// entries.
#[verifier::external_body]
pub(crate) fn new_destination() -> (w: DestWriter)
    ensures
        written_entries(w) == Seq::<(Seq<u8>, Seq<u8>)>::empty(),
        writer_usable(w),
{
    DestWriter { inner: zip::write::ZipWriter::new(std::io::Cursor::new(Vec::new())) }
}

/// Relies on `zip::read::ZipArchive::by_index_raw` and
/// `zip::write::ZipWriter::raw_copy_file_rename`: on success the raw copy
/// appends, to the end of the destination, an entry whose stored name
/// bytes are exactly the UTF-8 bytes of `name` and whose substance is that
/// of the source entry at `index` — the compressed data is moved verbatim,
/// never decompressed.  The source's entry list is unchanged either way.
/// On an open writer the copy succeeds exactly when the source entry is
/// readable and no written entry already carries the new name (the
/// writer's directory is keyed by stored name bytes and rejects a
/// duplicate).  The name must fit the container's 16-bit name-length
/// field; a longer one is refused by the writer, so it is excluded here.
/// Both calls stand in one wrapper because the entry handle the first
/// returns borrows the source archive and must be consumed by the
/// second.
#[verifier::external_body]
pub(crate) fn transplant_entry(
    src: &mut SourceArchive,
    index: usize,
    dst: &mut DestWriter,
    name: &str,
) -> (r: Result<(), ZipedError>)
    requires
        index < source_entries(*old(src)).len(),
        name.spec_bytes().len() <= 0xffff,
    ensures
        source_entries(*final(src)) == source_entries(*old(src)),
        opened_from(*final(src)) == opened_from(*old(src)),
        r is Ok <==> writer_usable(*old(dst)) && entry_readable(
            opened_from(*old(src)),
            index as int,
        ) && !crate::model::has_name(written_entries(*old(dst)), name.spec_bytes()),
        r is Ok ==> writer_usable(*final(dst)),
        r is Ok ==> written_entries(*final(dst)) == written_entries(*old(dst)).push(
            (name.spec_bytes(), source_entries(*old(src))[index as int].1),
        ),
        r matches Err(e) ==> e is Archive,
{
    let file = match src.by_index_raw(index) {
        Ok(f) => f,
        Err(e) => return Err(ZipedError::Archive(format!("{}", e))),
    };
    match dst.inner.raw_copy_file_rename(file, name) {
        Ok(()) => Ok(()),
        Err(e) => Err(ZipedError::Archive(format!("{}", e))),
    }
}

/// Relies on `zip::write::ZipWriter::finish`: it writes the central
/// directory and hands back the finished bytes; opening those bytes again
/// yields exactly the entries that were written.  On an open writer over
/// in-memory bytes finishing cannot fail, and the bytes it produces have
/// the plain layout.
#[verifier::external_body]
pub(crate) fn finalize_destination(w: DestWriter) -> (r: Result<Vec<u8>, ZipedError>)
    ensures
        writer_usable(w) ==> r is Ok,
        r matches Ok(bytes) ==> archive_of_bytes(bytes@) == Some(written_entries(w)),
        r matches Ok(bytes) ==> plain_layout(bytes@),
        r matches Ok(bytes) ==> (forall|i: int|
            0 <= i < written_entries(w).len() ==> entry_readable(bytes@, i)),
        r matches Err(e) ==> e is Archive,
{
    match w.inner.finish() {
        Ok(cursor) => Ok(cursor.into_inner()),
        Err(e) => Err(ZipedError::Archive(format!("{}", e))),
    }
}

} // verus!
