//! Reading one named entry out of an in-memory ZIP archive.
use crate::text::{utf8_len, views};
use std::io::Cursor;
use vstd::prelude::*;
use vstd::utf8::{encode_utf8, valid_utf8};
use zip::result::ZipError;
use zip::write::SimpleFileOptions;
use zip::{ZipArchive, ZipWriter};

verus! {

/// `zip::ZipArchive`, carried through opaquely.
#[verifier::external_type_specification]
#[verifier::external_body]
#[verifier::reject_recursive_types(R)]
pub struct ExZipArchive<R>(ZipArchive<R>);

/// `zip::result::ZipError`, carried through opaquely.
#[verifier::external_type_specification]
#[verifier::external_body]
pub struct ExZipError(ZipError);

/// `std::io::Error`, carried through opaquely.
#[verifier::external_type_specification]
#[verifier::external_body]
pub struct ExIoError(std::io::Error);

/// `std::io::Cursor`, carried through opaquely.
#[verifier::external_type_specification]
#[verifier::external_body]
#[verifier::reject_recursive_types(T)]
pub struct ExCursor<T>(Cursor<T>);

/// What `ZipArchive::new` reads from some bytes: `None` when it refuses them
/// as an archive, else the archive's entries: each name that `by_name` finds,
/// with the entry's data when it reads out to the end, `None` when reading it
/// fails. Reading an in-memory archive depends on its bytes alone.
pub uninterp spec fn spec_zip_read(bytes: Seq<u8>) -> Option<Map<Seq<char>, Option<Seq<u8>>>>;

/// The entries of an open archive, described as for `spec_zip_read`.
pub uninterp spec fn spec_zip_entries(archive: ZipArchive<Cursor<&[u8]>>) -> Map<
    Seq<char>,
    Option<Seq<u8>>,
>;

/// The names `ZipArchive::file_names` lists, in order, for the archive read
/// from some bytes (empty when they are no archive). Like the entries, a
/// function of the bytes alone.
pub uninterp spec fn spec_zip_names(bytes: Seq<u8>) -> Seq<Seq<char>>;

/// The names an open archive lists, in order, described as for
/// `spec_zip_names`.
pub uninterp spec fn spec_zip_listing(archive: ZipArchive<Cursor<&[u8]>>) -> Seq<Seq<char>>;

/// The entry `name` of the archive in `bytes`: `None` when the bytes are no
/// archive or it has no such entry, else the entry's data as described for
/// `spec_zip_read`.
pub open spec fn archive_entry(bytes: Seq<u8>, name: Seq<char>) -> Option<Option<Seq<u8>>> {
    match spec_zip_read(bytes) {
        Some(m) => if m.dom().contains(name) {
            Some(m[name])
        } else {
            None
        },
        None => None,
    }
}

/// The entry `name` of the archive in `bytes` exists and reads out.
pub open spec fn entry_reads(bytes: Seq<u8>, name: Seq<char>) -> bool {
    archive_entry(bytes, name) matches Some(Some(_))
}

/// The data of the entry `name` of the archive in `bytes`, where it reads
/// out (empty otherwise).
pub open spec fn entry_data(bytes: Seq<u8>, name: Seq<char>) -> Seq<u8> {
    match archive_entry(bytes, name) {
        Some(Some(d)) => d,
        _ => seq![],
    }
}

/// Entry data that read out and is UTF-8 text.
pub open spec fn is_text(d: Option<Seq<u8>>) -> bool {
    match d {
        Some(b) => valid_utf8(b),
        None => false,
    }
}

/// `zip::ZipArchive::new` over the bytes. Claimed here: it succeeds exactly
/// when the bytes are an archive, and the archive holds the entries read
/// from those bytes.
#[verifier::external_body]
pub(crate) fn zip_open<'a>(bytes: &'a [u8]) -> (r: Result<ZipArchive<Cursor<&'a [u8]>>, ZipError>)
    ensures
        r is Ok <==> spec_zip_read(bytes@) is Some,
        r matches Ok(z) ==> spec_zip_read(bytes@) == Some(spec_zip_entries(z)),
        r matches Ok(z) ==> spec_zip_names(bytes@) == spec_zip_listing(z),
{
    ZipArchive::new(Cursor::new(bytes))
}

/// `zip::ZipArchive::by_name`, with the found entry read out as text by
/// `std::io::Read::read_to_string`. Claimed here: the lookup fails exactly
/// when the archive has no such entry; the read succeeds exactly when the
/// entry's data reads out and is UTF-8, and gives that text; the archive's
/// entries stay as they were.
#[verifier::external_body]
pub(crate) fn zip_entry_string(archive: &mut ZipArchive<Cursor<&[u8]>>, name: &str) -> (r: Result<
    Result<String, std::io::Error>,
    ZipError,
>)
    ensures
        spec_zip_entries(*final(archive)) == spec_zip_entries(*old(archive)),
        spec_zip_listing(*final(archive)) == spec_zip_listing(*old(archive)),
        r is Err <==> !spec_zip_entries(*old(archive)).dom().contains(name@),
        r matches Ok(Ok(_)) <==> (spec_zip_entries(*old(archive)).dom().contains(name@) && is_text(
            spec_zip_entries(*old(archive))[name@],
        )),
        r matches Ok(Ok(t)) ==> spec_zip_entries(*old(archive))[name@] == Some(encode_utf8(t@)),
{
    match archive.by_name(name) {
        Ok(mut file) => {
            let mut s = String::new();
            match std::io::Read::read_to_string(&mut file, &mut s) {
                Ok(_) => Ok(Ok(s)),
                Err(e) => Ok(Err(e)),
            }
        },
        Err(e) => Err(e),
    }
}

/// `zip::ZipArchive::by_name`, with the found entry read out as bytes by
/// `std::io::Read::read_to_end`. Claimed here: the lookup fails exactly when
/// the archive has no such entry; the read succeeds exactly when the entry's
/// data reads out, and gives that data; the archive's entries stay as they
/// were.
#[verifier::external_body]
pub(crate) fn zip_entry_bytes(archive: &mut ZipArchive<Cursor<&[u8]>>, name: &str) -> (r: Result<
    Result<Vec<u8>, std::io::Error>,
    ZipError,
>)
    ensures
        spec_zip_entries(*final(archive)) == spec_zip_entries(*old(archive)),
        spec_zip_listing(*final(archive)) == spec_zip_listing(*old(archive)),
        r is Err <==> !spec_zip_entries(*old(archive)).dom().contains(name@),
        r matches Ok(Ok(_)) <==> (spec_zip_entries(*old(archive)).dom().contains(name@)
            && spec_zip_entries(*old(archive))[name@] is Some),
        r matches Ok(Ok(v)) ==> spec_zip_entries(*old(archive))[name@] == Some(v@),
{
    match archive.by_name(name) {
        Ok(mut file) => {
            let mut v = Vec::new();
            match std::io::Read::read_to_end(&mut file, &mut v) {
                Ok(_) => Ok(Ok(v)),
                Err(e) => Ok(Err(e)),
            }
        },
        Err(e) => Err(e),
    }
}

/// `zip::ZipArchive::file_names`: the names of all entries of the archive.
/// Claimed here: they are the archive's listing, in order, and every entry
/// that `by_name` opens is among them (the list may also hold names `by_name`
/// refuses, such as encrypted entries).
#[verifier::external_body]
pub(crate) fn zip_entry_names(archive: &ZipArchive<Cursor<&[u8]>>) -> (r: Vec<String>)
    ensures
        views(r@) == spec_zip_listing(*archive),
        forall|n: Seq<char>|
            #[trigger] spec_zip_entries(*archive).dom().contains(n) ==> exists|k: int|
                0 <= k < r@.len() && r@[k]@ == n,
{
    let mut names = Vec::new();
    for n in archive.file_names() {
        names.push(n.to_string());
    }
    names
}

/// Whether the ZIP format marks an entry name as a directory: it ends with
/// `/` or `\` (what `ZipFile::is_dir` answers).
pub open spec fn is_dir_name(name: Seq<char>) -> bool {
    name.len() > 0 && (name.last() == '/' || name.last() == '\\')
}

/// Executable `is_dir_name`.
pub fn dir_name(name: &str) -> (r: bool)
    ensures
        r == is_dir_name(name@),
{
    let n = name.unicode_len();
    n > 0 && (name.get_char(n - 1) == '/' || name.get_char(n - 1) == '\\')
}

/// An in-memory archive being built by a `zip::ZipWriter` (Verus cannot take
/// the writer's type in a signature, its `Write + Seek` bound being std traits
/// it does not know, so the writer is held here).
#[verifier::external_body]
pub struct ArchiveBuilder {
    w: ZipWriter<Cursor<Vec<u8>>>,
}

/// The entries written so far into an archive being built, in order, each as
/// its name and the data written for it (the last one may still be open).
pub uninterp spec fn spec_zip_written(w: ArchiveBuilder) -> Seq<(Seq<char>, Seq<u8>)>;

/// Whether the last entry of an archive being built is a file open for
/// writing (started by `start_file`, not by `add_directory`).
pub uninterp spec fn spec_zip_file_open(w: ArchiveBuilder) -> bool;

/// The data size the writer is claimed to take without a ZIP64 (large file)
/// option: 2 GiB in all, well below the 4 GiB limit of a plain archive, so
/// that no entry, compressed or not, and no offset can reach that limit.
pub open spec fn zip_plain_limit() -> nat {
    0x8000_0000
}

/// The total data size of the written entries.
pub open spec fn written_size(written: Seq<(Seq<char>, Seq<u8>)>) -> nat
    decreases written.len(),
{
    if written.len() == 0 {
        0
    } else {
        written_size(written.drop_last()) + written.last().1.len()
    }
}

/// The longest entry name, in UTF-8 bytes, the writer takes (its header field
/// has 16 bits; a longer name makes the writer panic).
pub open spec fn zip_name_limit() -> nat {
    65535
}

/// No entry of `written` is called `name`.
pub open spec fn name_unused(written: Seq<(Seq<char>, Seq<u8>)>, name: Seq<char>) -> bool {
    forall|k: int| 0 <= k < written.len() ==> (#[trigger] written[k]).0 != name
}

/// The name `add_directory` stores for a directory: a `/` is added unless
/// the name ends with `/` or `\`.
pub open spec fn dir_entry_name(name: Seq<char>) -> Seq<char> {
    if is_dir_name(name) {
        name
    } else {
        name + "/"@
    }
}

/// `zip::ZipWriter::new` over an empty in-memory buffer. Claimed here: no
/// entry is written yet.
#[verifier::external_body]
pub(crate) fn zip_writer_new() -> (r: ArchiveBuilder)
    ensures
        spec_zip_written(r) == Seq::<(Seq<char>, Seq<u8>)>::empty(),
        !spec_zip_file_open(r),
{
    ArchiveBuilder { w: ZipWriter::new(Cursor::new(Vec::new())) }
}

/// `zip::ZipWriter::start_file` with the default options. Claimed here: on
/// success the name was not used before and a new, empty entry of that name
/// is open for writing; it succeeds when the name is unused and the data
/// written so far is within the plain-archive limit (the only ways it fails
/// on an in-memory buffer are a duplicate name and the 4 GiB limit of the
/// entry it closes). A name longer than 65535 bytes makes it panic.
#[verifier::external_body]
pub(crate) fn zip_start_file(w: &mut ArchiveBuilder, name: &str) -> (r: Result<(), ZipError>)
    requires
        utf8_len(name@) <= zip_name_limit(),
    ensures
        r is Ok ==> name_unused(spec_zip_written(*old(w)), name@) && spec_zip_written(*final(w))
            == spec_zip_written(*old(w)).push((name@, Seq::<u8>::empty())) && spec_zip_file_open(
            *final(w),
        ),
        name_unused(spec_zip_written(*old(w)), name@) && written_size(spec_zip_written(*old(w)))
            <= zip_plain_limit() ==> r is Ok,
{
    w.w.start_file(name, SimpleFileOptions::default())
}

/// `zip::ZipWriter::add_directory` with the default options. Claimed here: on
/// success the directory name (with a trailing `/` added when missing) was
/// not used before and is now an entry without data, and no file is open;
/// it succeeds when that name is unused and the data written so far is
/// within the plain-archive limit. A stored name longer than 65535 bytes
/// makes it panic.
#[verifier::external_body]
pub(crate) fn zip_add_directory(w: &mut ArchiveBuilder, name: &str) -> (r: Result<
    (),
    ZipError,
>)
    requires
        utf8_len(dir_entry_name(name@)) <= zip_name_limit(),
    ensures
        r is Ok ==> name_unused(spec_zip_written(*old(w)), dir_entry_name(name@)) && spec_zip_written(
            *final(w),
        ) == spec_zip_written(*old(w)).push((dir_entry_name(name@), Seq::<u8>::empty()))
            && !spec_zip_file_open(*final(w)),
        name_unused(spec_zip_written(*old(w)), dir_entry_name(name@)) && written_size(
            spec_zip_written(*old(w)),
        ) <= zip_plain_limit() ==> r is Ok,
{
    w.w.add_directory(name, SimpleFileOptions::default())
}

/// `std::io::Write::write_all` on the writer: appends to the open entry.
/// Claimed here: on success the data is added to the last entry's data; it
/// succeeds when a file is open and the data written, this included, stays
/// within the plain-archive limit.
#[verifier::external_body]
pub(crate) fn zip_write_all(w: &mut ArchiveBuilder, data: &[u8]) -> (r: Result<
    (),
    std::io::Error,
>)
    requires
        spec_zip_written(*old(w)).len() > 0,
    ensures
        r is Ok ==> spec_zip_written(*final(w)) == spec_zip_written(*old(w)).update(
            spec_zip_written(*old(w)).len() - 1,
            (
                spec_zip_written(*old(w)).last().0,
                spec_zip_written(*old(w)).last().1 + data@,
            ),
        ) && spec_zip_file_open(*final(w)) == spec_zip_file_open(*old(w)),
        spec_zip_file_open(*old(w)) && written_size(spec_zip_written(*old(w))) + data@.len()
            <= zip_plain_limit() ==> r is Ok,
{
    std::io::Write::write_all(&mut w.w, data)
}

/// `zip::ZipWriter::finish`, giving the bytes of the in-memory archive.
/// Claimed here: on success the bytes are an archive whose entries are
/// exactly the written ones, listed in the order written, each reading out
/// as the data written for it;
/// it succeeds when the data written is within the plain-archive limit.
#[verifier::external_body]
pub(crate) fn zip_finish(w: ArchiveBuilder) -> (r: Result<Vec<u8>, ZipError>)
    ensures
        r matches Ok(b) ==> (spec_zip_read(b@) matches Some(m) && (forall|n: Seq<char>|
            #[trigger] m.dom().contains(n) <==> exists|k: int|
                0 <= k < spec_zip_written(w).len() && spec_zip_written(w)[k].0 == n) && (forall|k: int|
            0 <= k < spec_zip_written(w).len() ==> m[(#[trigger] spec_zip_written(w)[k]).0] == Some(
                spec_zip_written(w)[k].1,
            ))),
        r matches Ok(b) ==> spec_zip_names(b@) == spec_zip_written(w).map_values(
            |e: (Seq<char>, Seq<u8>)| e.0,
        ),
        written_size(spec_zip_written(w)) <= zip_plain_limit() ==> r is Ok,
{
    match w.w.finish() {
        Ok(cursor) => Ok(cursor.into_inner()),
        Err(e) => Err(e),
    }
}

/// The `Display` text of a `ZipError`. Nothing is stated of the text.
#[verifier::external_body]
pub(crate) fn zip_error_text(e: &ZipError) -> (r: String) {
    format!("{}", e)
}

/// The `Display` text of an I/O error. Nothing is stated of the text.
#[verifier::external_body]
pub(crate) fn io_error_text(e: &std::io::Error) -> (r: String) {
    format!("{}", e)
}

} // verus!
