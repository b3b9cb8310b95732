//! The container codec: packing an entry listing into ZIP bytes and
//! decoding ZIP bytes back into an entry listing.
//!
//! The ZIP wire format itself is the business of the `zip` crate; this
//! module wraps the handful of calls the engine makes behind trusted
//! declarations and keeps everything around them — the traversal, the
//! entry listing, the base-directory resolution — verified. Archives are
//! encoded to and decoded from in-memory byte buffers; the caller moves
//! those bytes to and from disk.

use vstd::prelude::*;

use crate::ArchiveError;
use crate::extract::{ExtractPlan, extract_plan, find_base_dir, child_dir_names,
    any_name_starts_with, all_names_safe, dirs_model, files_model, base_dir_model,
    child_dirs_model, some_name_prefixed, path_views, file_views};
use crate::paths::{BACKSLASH, SLASH, host_mapped};
use crate::paths::{concat_bytes, to_host_separators};
use crate::tree::{Entry, EntryModel, FsNode, entry_views, pack_entries, pack_model, token_view,
    entry_shape_ok, lemma_pack_model_shape, entries_match, clone_bytes};

verus! {

/// The kind of container handed to the transcoder: an extension package
/// holding one extension, or an app package that can hold several.
#[derive(PartialEq, Eq, Structural, Clone, Copy, Debug)]
pub enum ArchiveType {
    Aia,
    Aix,
}

/// An open container being written: a `zip::ZipWriter` over an
/// in-memory byte buffer. The writer is opaque here; its state is
/// described by `writer_entries` alone.
#[verifier::external_body]
pub struct ContainerWriter {
    inner: zip::ZipWriter<std::io::Cursor<Vec<u8>>>,
}

/// An open container being read: a `zip::ZipArchive` over an in-memory
/// byte buffer. The archive is opaque here; its state is described by
/// `reader_bytes` and `archive_entries` alone.
#[verifier::external_body]
pub struct ContainerReader {
    inner: zip::ZipArchive<std::io::Cursor<Vec<u8>>>,
}

/// The entries written into an in-memory archive writer so far, in order.
pub uninterp spec fn writer_entries(w: ContainerWriter) -> Seq<EntryModel>;

/// The bytes an opened archive was opened from.
pub uninterp spec fn reader_bytes(a: ContainerReader) -> Seq<u8>;

/// The entries an opened archive holds, in central-directory order.
pub uninterp spec fn archive_entries(a: ContainerReader) -> Seq<EntryModel>;

/// What parsing a byte stream's central directory yields: the entry
/// listing when `zip::ZipArchive::new` accepts the stream, nothing when
/// it rejects it. Parsing in-memory bytes is a pure computation, so this
/// is a function of the bytes alone.
pub uninterp spec fn zip_parse_of(bytes: Seq<u8>) -> Option<Seq<EntryModel>>;

/// Whether entry `i` of the container at `bytes` reads back without a
/// decoding failure. Reading in-memory bytes is a pure computation, so
/// this too is a function of the bytes and the index alone.
pub uninterp spec fn zip_entry_reads(bytes: Seq<u8>, i: int) -> bool;

/// The bytes of the container that holds exactly `entries`, in order.
/// This build fixes every file option, so the bytes are a function of
/// the entries alone.
pub uninterp spec fn zip_bytes_of(entries: Seq<EntryModel>) -> Seq<u8>;

/// The byte stream decodes, in full, to exactly `es`: its central
/// directory parses to that listing and every entry reads back cleanly.
/// `encode_entries` establishes this of its own output by decoding it
/// once before handing it out.
pub open spec fn decodes_to(bytes: Seq<u8>, es: Seq<EntryModel>) -> bool {
    &&& zip_parse_of(bytes) == Some(es)
    &&& forall|i: int| 0 <= i < es.len() ==> zip_entry_reads(bytes, i)
}

/// A name short enough for the wire format's 16-bit name-length field;
/// the writer silently truncates anything longer.
pub open spec fn wire_name_ok(name: Seq<u8>) -> bool {
    name.len() <= 65535
}

/// Contents comfortably inside the wire format's 32-bit size fields:
/// under 2 GiB raw, the compressed form cannot reach the 4 GiB bound
/// either, so the writer never trips its large-file check.
pub open spec fn wire_data_ok(data: Option<Seq<u8>>) -> bool {
    data matches Some(d) ==> d.len() <= 0x7FFFFFFF
}

/// An entry listing the wire format holds without loss: every name
/// within the name-length field, every file within the size fields.
/// Beyond these bounds the writer silently truncates a name or refuses
/// an entry, so only such listings are handed to it.
pub open spec fn wire_fits(es: Seq<EntryModel>) -> bool {
    forall|i: int| 0 <= i < es.len() ==> wire_name_ok((#[trigger] es[i]).name) && wire_data_ok(
        es[i].data,
    )
}

/// A name of non-NUL ASCII bytes; UTF-8 takes such bytes unchanged, so
/// the writer accepts the name.
pub open spec fn ascii_name(name: Seq<u8>) -> bool {
    forall|i: int| 0 <= i < name.len() ==> 0 < #[trigger] name[i] < 128
}

/// Whether every entry name of a listing is plain ASCII.
pub open spec fn ascii_names(es: Seq<EntryModel>) -> bool {
    forall|i: int| 0 <= i < es.len() ==> ascii_name((#[trigger] es[i]).name)
}

/// Relies on zip::ZipWriter::new: a writer over a fresh in-memory buffer
/// holds no entries yet.
#[verifier::external_body]
fn zip_writer_new() -> (w: ContainerWriter)
    ensures
        writer_entries(w) == Seq::<EntryModel>::empty(),
{
    ContainerWriter { inner: zip::ZipWriter::new(std::io::Cursor::new(Vec::new())) }
}

/// Relies on zip::ZipWriter::add_directory: appends one directory entry
/// under the given name. The name already carries its trailing slash, so
/// it is stored letter for letter; names longer than the 16-bit
/// name-length field are excluded, since the writer would silently
/// truncate them. Writing goes to an in-memory buffer, so with an ASCII
/// name, and the writer not already stuck behind an oversized entry, the
/// call cannot fail.
#[verifier::external_body]
fn zip_add_directory(w: &mut ContainerWriter, name: &Vec<u8>) -> (r:
    Result<(), ArchiveError>)
    requires
        name@.len() > 0,
        name@.len() <= 65535,
        name@[name@.len() - 1] == SLASH,
    ensures
        r is Ok ==> writer_entries(*final(w)) == writer_entries(*old(w)).push(
            EntryModel { name: name@, data: None },
        ),
        r matches Err(e) ==> e == ArchiveError::IoFailure || e == ArchiveError::InvalidPath,
        ascii_name(name@) && wire_fits(writer_entries(*old(w))) ==> r is Ok,
{
    let name = match String::from_utf8(name.clone()) {
        Ok(n) => n,
        Err(_) => return Err(ArchiveError::InvalidPath),
    };
    match w.inner.add_directory(name, zip::write::FileOptions::default()) {
        Ok(()) => Ok(()),
        Err(_) => Err(ArchiveError::IoFailure),
    }
}

/// Relies on zip::ZipWriter::start_file and std::io::Write::write_all:
/// appends one file entry with the given name and contents. Names longer
/// than the 16-bit name-length field are excluded, since the writer
/// would silently truncate them. Writing goes to an in-memory buffer, so
/// with an ASCII name, contents within the wire bound, and the writer
/// not already stuck behind an oversized entry, the call cannot fail.
#[verifier::external_body]
fn zip_write_file(w: &mut ContainerWriter, name: &Vec<u8>, contents: &Vec<u8>) -> (r: Result<
    (),
    ArchiveError,
>)
    requires
        name@.len() > 0,
        name@.len() <= 65535,
        name@[name@.len() - 1] != SLASH,
        name@[name@.len() - 1] != BACKSLASH,
    ensures
        r is Ok ==> writer_entries(*final(w)) == writer_entries(*old(w)).push(
            EntryModel { name: name@, data: Some(contents@) },
        ),
        r matches Err(e) ==> e == ArchiveError::IoFailure || e == ArchiveError::InvalidPath,
        ascii_name(name@) && contents@.len() <= 0x7FFFFFFF && wire_fits(writer_entries(*old(w)))
            ==> r is Ok,
{
    let name = match String::from_utf8(name.clone()) {
        Ok(n) => n,
        Err(_) => return Err(ArchiveError::InvalidPath),
    };
    if w.inner.start_file(name, zip::write::FileOptions::default()).is_err() {
        return Err(ArchiveError::IoFailure);
    }
    match std::io::Write::write_all(&mut w.inner, contents.as_slice()) {
        Ok(()) => Ok(()),
        Err(_) => Err(ArchiveError::IoFailure),
    }
}

/// Relies on zip::ZipWriter::finish: closing the writer yields the bytes
/// of the finished container. The central directory goes to the same
/// in-memory buffer, so on a listing within the wire bounds the call
/// cannot fail.
#[verifier::external_body]
fn zip_finish(w: ContainerWriter) -> (r: Result<Vec<u8>, ArchiveError>)
    ensures
        r matches Ok(bytes) ==> bytes@ == zip_bytes_of(writer_entries(w)),
        r matches Err(e) ==> e == ArchiveError::IoFailure,
        wire_fits(writer_entries(w)) ==> r is Ok,
{
    let mut w = w;
    match w.inner.finish() {
        Ok(cursor) => Ok(cursor.into_inner()),
        Err(_) => Err(ArchiveError::IoFailure),
    }
}

/// Relies on zip::ZipArchive::new: parses the central directory of the
/// given bytes, deterministically — the same bytes always parse to the
/// same listing, or are always rejected. The bytes are in memory, so
/// every failure — an I/O-shaped one included — means the stream did not
/// parse as a container.
#[verifier::external_body]
fn zip_open(bytes: Vec<u8>) -> (r: Result<ContainerReader, ArchiveError>)
    ensures
        r is Ok <==> zip_parse_of(bytes@) is Some,
        r matches Ok(a) ==> reader_bytes(a) == bytes@ && Some(archive_entries(a)) == zip_parse_of(
            bytes@,
        ),
        r matches Err(e) ==> e == ArchiveError::MalformedArchive,
{
    match zip::ZipArchive::new(std::io::Cursor::new(bytes)) {
        Ok(a) => Ok(ContainerReader { inner: a }),
        Err(_) => Err(ArchiveError::MalformedArchive),
    }
}

/// Relies on zip::ZipArchive::len: how many entries the container holds.
#[verifier::external_body]
fn zip_len(a: &ContainerReader) -> (n: usize)
    ensures
        n == archive_entries(*a).len(),
{
    a.inner.len()
}

/// Relies on zip::ZipArchive::by_index_decrypt, zip::read::ZipFile::name,
/// zip::read::ZipFile::is_dir and std::io::Read::read_to_end: reads
/// entry `i` — its stored name, and its decompressed contents when it is
/// a file. `by_index` itself panics on an entry that carries an AES
/// extra field without the encrypted flag; `by_index_decrypt` returns
/// that case as a value instead, and discards the dummy password
/// whenever the entry is not encrypted, so unencrypted entries read
/// exactly as `by_index` reads them. Reading in-memory bytes is
/// deterministic — the same entry of the same bytes reads the same way
/// every time — and mutates only a cached offset, never the entries.
/// Entries this library cannot hold — encrypted, or undecodable — are a
/// malformed container here, as is a read failure, since the bytes are
/// in memory.
#[verifier::external_body]
fn zip_entry_at(a: &mut ContainerReader, i: usize) -> (r: Result<Entry, ArchiveError>)
    requires
        i < archive_entries(*old(a)).len(),
    ensures
        reader_bytes(*final(a)) == reader_bytes(*old(a)),
        archive_entries(*final(a)) == archive_entries(*old(a)),
        r matches Ok(e) ==> e@ == archive_entries(*old(a))[i as int],
        r is Ok <==> zip_entry_reads(reader_bytes(*old(a)), i as int),
        r matches Err(e) ==> e == ArchiveError::MalformedArchive,
{
    let mut f = match a.inner.by_index_decrypt(i, &[]) {
        Ok(Ok(f)) => f,
        Ok(Err(_)) => return Err(ArchiveError::MalformedArchive),
        Err(_) => return Err(ArchiveError::MalformedArchive),
    };
    let name: Vec<u8> = f.name().as_bytes().to_vec();
    if f.is_dir() {
        return Ok(Entry { name, data: None });
    }
    let mut buf: Vec<u8> = Vec::new();
    match std::io::Read::read_to_end(&mut f, &mut buf) {
        Ok(_) => Ok(Entry { name, data: Some(buf) }),
        Err(_) => Err(ArchiveError::MalformedArchive),
    }
}

/// Whether an entry listing is fit for the wire: directory names carry
/// their trailing slash, file names end in an ordinary byte.
pub open spec fn encodable(entries: Seq<EntryModel>) -> bool {
    forall|i: int| 0 <= i < entries.len() ==> {
        let e = #[trigger] entries[i];
        &&& e.name.len() > 0
        &&& (e.data is None ==> e.name[e.name.len() - 1] == SLASH)
        &&& (e.data is Some ==> e.name[e.name.len() - 1] != SLASH && e.name[e.name.len() - 1]
            != BACKSLASH)
    }
}

/// Encodes an entry listing into the bytes of a container that holds
/// exactly those entries, in order. A name too long for the wire
/// format's name-length field is refused as `InvalidPath` before
/// anything reaches the writer. Before handing the bytes out, the
/// produced container is decoded once and compared against the listing,
/// so on success the bytes are known — not assumed — to decode back to
/// exactly what was packed; a container that would not (a name can spell
/// wire-format signatures into the stream) is refused as
/// `MalformedArchive`.
pub fn encode_entries(entries: &Vec<Entry>) -> (r: Result<Vec<u8>, ArchiveError>)
    requires
        encodable(entry_views(entries@)),
    ensures
        r matches Ok(bytes) ==> bytes@ == zip_bytes_of(entry_views(entries@)) && decodes_to(
            bytes@,
            entry_views(entries@),
        ),
        r matches Err(e) ==> e == ArchiveError::IoFailure || e == ArchiveError::InvalidPath || e
            == ArchiveError::MalformedArchive,
        wire_fits(entry_views(entries@)) && ascii_names(entry_views(entries@)) && decodes_to(
            zip_bytes_of(entry_views(entries@)),
            entry_views(entries@),
        ) ==> r is Ok,
{
    let ghost models = entry_views(entries@);
    let mut w = zip_writer_new();
    proof {
        assert(models.take(0) =~= Seq::<EntryModel>::empty());
    }
    for i in 0..entries.len()
        invariant
            models == entry_views(entries@),
            encodable(models),
            writer_entries(w) == models.take(i as int),
    {
        let e = &entries[i];
        proof {
            assert(models[i as int] == e@);
        }
        if e.name.len() > 65535 {
            proof {
                assert(!wire_name_ok(models[i as int].name));
            }
            return Err(ArchiveError::InvalidPath);
        }
        let step = match &e.data {
            None => zip_add_directory(&mut w, &e.name),
            Some(contents) => zip_write_file(&mut w, &e.name, contents),
        };
        if let Err(err) = step {
            proof {
                if wire_fits(models) && ascii_names(models) {
                    assert(ascii_name(models[i as int].name));
                    assert(wire_data_ok(models[i as int].data));
                    assert forall|k: int|
                        0 <= k < models.take(i as int).len() implies wire_name_ok(
                        (#[trigger] models.take(i as int)[k]).name,
                    ) && wire_data_ok(models.take(i as int)[k].data) by {
                        assert(models.take(i as int)[k] == models[k]);
                    }
                    assert(wire_fits(models.take(i as int)));
                    assert(false);
                }
            }
            return Err(err);
        }
        proof {
            assert(models.take(i as int).push(models[i as int]) =~= models.take(i as int + 1));
        }
    }
    proof {
        assert(models.take(models.len() as int) =~= models);
    }
    let bytes = match zip_finish(w) {
        Ok(b) => b,
        Err(e) => {
            proof {
                if wire_fits(models) && ascii_names(models) {
                    assert(false);
                }
            }
            return Err(e);
        },
    };
    let echo = clone_bytes(&bytes);
    match decode_entries(echo) {
        Ok(back) => {
            if entries_match(&back, entries) {
                proof {
                    assert(decodes_to(bytes@, models));
                }
                Ok(bytes)
            } else {
                proof {
                    if wire_fits(models) && ascii_names(models) && decodes_to(
                        zip_bytes_of(models),
                        models,
                    ) {
                        assert(Some(entry_views(back@)) == zip_parse_of(bytes@));
                        assert(Some(models) == zip_parse_of(bytes@));
                        assert(false);
                    }
                }
                Err(ArchiveError::MalformedArchive)
            }
        },
        Err(_) => {
            proof {
                if wire_fits(models) && ascii_names(models) && decodes_to(
                    zip_bytes_of(models),
                    models,
                ) {
                    assert(zip_parse_of(bytes@) matches Some(es) && es == models);
                    assert(forall|i: int| 0 <= i < models.len() ==> zip_entry_reads(bytes@, i));
                    assert(false);
                }
            }
            Err(ArchiveError::MalformedArchive)
        },
    }
}

/// Decodes the bytes of a container into its entry listing: the parsed
/// central directory, and the decompressed contents of every file entry.
/// Decoding in-memory bytes is deterministic, so success and the listing
/// are pinned by the bytes alone.
pub fn decode_entries(bytes: Vec<u8>) -> (r: Result<Vec<Entry>, ArchiveError>)
    ensures
        r matches Ok(v) ==> decodes_to(bytes@, entry_views(v@)),
        r is Ok <==> (zip_parse_of(bytes@) matches Some(es) && forall|i: int|
            0 <= i < es.len() ==> #[trigger] zip_entry_reads(bytes@, i)),
        r matches Err(e) ==> e == ArchiveError::MalformedArchive,
{
    let ghost given = bytes@;
    let mut a = match zip_open(bytes) {
        Ok(a) => a,
        Err(e) => {
            return Err(e);
        },
    };
    let n = zip_len(&a);
    let mut out: Vec<Entry> = Vec::new();
    proof {
        assert(entry_views(out@) =~= archive_entries(a).take(0));
    }
    for i in 0..n
        invariant
            given == bytes@,
            reader_bytes(a) == given,
            n == archive_entries(a).len(),
            Some(archive_entries(a)) == zip_parse_of(given),
            entry_views(out@) == archive_entries(a).take(i as int),
            forall|j: int| 0 <= j < i ==> zip_entry_reads(given, j),
    {
        let ghost before = archive_entries(a);
        let e = match zip_entry_at(&mut a, i) {
            Ok(e) => e,
            Err(err) => {
                proof {
                    assert(!zip_entry_reads(given, i as int));
                }
                return Err(err);
            },
        };
        let ghost ev = e@;
        out.push(e);
        proof {
            assert(entry_views(out@) =~= before.take(i as int).push(ev));
            assert(before.take(i as int).push(before[i as int]) =~= before.take(i as int + 1));
        }
    }
    proof {
        assert(archive_entries(a).take(n as int) =~= archive_entries(a));
    }
    Ok(out)
}

/// The marker suffix that designates an extension's compiled-classes
/// file inside a container.
pub open spec fn classes_jar_marker() -> Seq<u8> {
    seq![99u8, 108u8, 97u8, 115u8, 115u8, 101u8, 115u8, 46u8, 106u8, 97u8, 114u8]
}

/// The compiled-classes marker, `classes.jar`, as bytes.
pub fn classes_jar_marker_bytes() -> (r: Vec<u8>)
    ensures
        r@ == classes_jar_marker(),
{
    let v: Vec<u8> = vec![99u8, 108u8, 97u8, 115u8, 115u8, 101u8, 115u8, 46u8, 106u8, 97u8, 114u8];
    proof {
        assert(v@ =~= classes_jar_marker());
    }
    v
}

/// The marker suffix that designates an extension's properties
/// descriptor inside a container.
pub open spec fn properties_marker() -> Seq<u8> {
    seq![46u8, 112u8, 114u8, 111u8, 112u8, 101u8, 114u8, 116u8, 105u8, 101u8, 115u8]
}

/// The properties-descriptor marker, `.properties`, as bytes.
pub fn properties_marker_bytes() -> (r: Vec<u8>)
    ensures
        r@ == properties_marker(),
{
    let v: Vec<u8> = vec![46u8, 112u8, 114u8, 111u8, 112u8, 101u8, 114u8, 116u8, 105u8, 101u8,
        115u8];
    proof {
        assert(v@ =~= properties_marker());
    }
    v
}

/// The fixed subdirectory of a multi-unit container that holds its
/// independently packable units, slash-terminated.
pub open spec fn comps_dir_prefix() -> Seq<u8> {
    seq![97u8, 115u8, 115u8, 101u8, 116u8, 115u8, 47u8, 101u8, 120u8, 116u8, 101u8, 114u8, 110u8,
        97u8, 108u8, 95u8, 99u8, 111u8, 109u8, 112u8, 115u8, 47u8]
}

/// The units directory of a multi-unit container,
/// `assets/external_comps/`, as bytes.
pub fn comps_dir_prefix_bytes() -> (r: Vec<u8>)
    ensures
        r@ == comps_dir_prefix(),
{
    let v: Vec<u8> = vec![97u8, 115u8, 115u8, 101u8, 116u8, 115u8, 47u8, 101u8, 120u8, 116u8,
        101u8, 114u8, 110u8, 97u8, 108u8, 95u8, 99u8, 111u8, 109u8, 112u8, 115u8, 47u8];
    proof {
        assert(v@ =~= comps_dir_prefix());
    }
    v
}

/// Packs a directory tree into the bytes of a new container: the
/// depth-first pre-order walk of `root`, each entry named relative to
/// the parent of `root`, separators in wire form. When the exclusion
/// token equals the root directory's own name, that level is unwrapped
/// from the produced namespace. On success the bytes are known to decode
/// back to exactly the packed listing; packing succeeds whenever the
/// listing fits the wire format, its names are plain ASCII, and its own
/// encoding decodes back to it.
pub fn pack_dir(root: &FsNode, token: Option<&Vec<u8>>) -> (r: Result<Vec<u8>, ArchiveError>)
    requires
        root.wf(),
    ensures
        r matches Ok(bytes) ==> bytes@ == zip_bytes_of(pack_model(*root, token_view(token)))
            && decodes_to(bytes@, pack_model(*root, token_view(token))),
        r matches Err(e) ==> e == ArchiveError::IoFailure || e == ArchiveError::InvalidPath || e
            == ArchiveError::MalformedArchive,
        wire_fits(pack_model(*root, token_view(token))) && ascii_names(
            pack_model(*root, token_view(token)),
        ) && decodes_to(
            zip_bytes_of(pack_model(*root, token_view(token))),
            pack_model(*root, token_view(token)),
        ) ==> r is Ok,
{
    let entries = pack_entries(root, token);
    proof {
        lemma_pack_model_shape(*root, token_view(token));
        let es = entry_views(entries@);
        assert forall|i: int| 0 <= i < es.len() implies entry_shape_ok(#[trigger] es[i]) by {
            assert(es[i] == pack_model(*root, token_view(token))[i]);
        }
        assert(encodable(es));
    }
    encode_entries(&entries)
}

/// What the reader hands back for one container: the materialization
/// plan, and the base directory of every unit found inside, as host
/// paths relative to the output directory.
#[derive(Debug)]
pub struct Extraction {
    pub plan: ExtractPlan,
    pub base_dirs: Vec<Vec<u8>>,
}

/// The base directories of a multi-unit container: the units directory
/// joined with each of its immediate child directories, host-separated.
pub open spec fn aia_base_dirs_model(es: Seq<EntryModel>, sep: u8) -> Seq<Seq<u8>> {
    child_dirs_model(es, comps_dir_prefix()).map_values(
        |c: Seq<u8>| host_mapped(comps_dir_prefix() + c, sep),
    )
}

/// Whether a multi-unit container reveals its fixed units directory:
/// some entry names it, or lies beneath it. Absent that, the extracted
/// tree has no units directory to enumerate.
pub open spec fn has_units_dir(es: Seq<EntryModel>) -> bool {
    some_name_prefixed(es, comps_dir_prefix())
}

/// Whether the reader owes a successful extraction of a container that
/// holds exactly `es`: every entry name must map safely under the
/// output directory, a single-extension container must hold its
/// compiled-classes marker, and an app container must hold its units
/// directory.
pub open spec fn extraction_succeeds(es: Seq<EntryModel>, archive_type: ArchiveType) -> bool {
    &&& all_names_safe(es)
    &&& archive_type is Aix ==> base_dir_model(es, classes_jar_marker()) is Some
    &&& archive_type is Aia ==> has_units_dir(es)
}

/// Decodes a container and plans its extraction: the directories and
/// files to materialize, and the base directory of each unit inside —
/// resolved through the compiled-classes marker for a single-extension
/// container, or as the children of the fixed units directory for a
/// multi-unit container.
pub fn extract_file(bytes: Vec<u8>, archive_type: &ArchiveType, sep: u8) -> (r: Result<
    Extraction,
    ArchiveError,
>)
    ensures
        r is Ok <==> (zip_parse_of(bytes@) matches Some(es) && (forall|i: int|
            0 <= i < es.len() ==> #[trigger] zip_entry_reads(bytes@, i)) && extraction_succeeds(
            es,
            *archive_type,
        )),
        r matches Ok(x) ==> (zip_parse_of(bytes@) matches Some(es) && {
            &&& path_views(x.plan.dirs@) == dirs_model(es, sep)
            &&& file_views(x.plan.files@) == files_model(es, sep)
            &&& *archive_type is Aix ==> path_views(x.base_dirs@) == seq![
                host_mapped(base_dir_model(es, classes_jar_marker()).unwrap(), sep),
            ]
            &&& *archive_type is Aia ==> path_views(x.base_dirs@) == aia_base_dirs_model(es, sep)
        }),
        zip_parse_of(bytes@) matches Some(es) && (forall|i: int| 0 <= i < es.len()
            ==> #[trigger] zip_entry_reads(bytes@, i)) && !all_names_safe(es) ==> r == Err::<
            Extraction,
            ArchiveError,
        >(ArchiveError::InvalidPath),
        zip_parse_of(bytes@) matches Some(es) && (forall|i: int| 0 <= i < es.len()
            ==> #[trigger] zip_entry_reads(bytes@, i)) && all_names_safe(es)
            && !extraction_succeeds(es, *archive_type) ==> r == Err::<Extraction, ArchiveError>(
            ArchiveError::NotFound,
        ),
        r matches Err(e) ==> e == ArchiveError::MalformedArchive || e == ArchiveError::InvalidPath
            || e == ArchiveError::NotFound,
{
    let ghost given = bytes@;
    let entries = match decode_entries(bytes) {
        Ok(v) => v,
        Err(e) => {
            return Err(e);
        },
    };
    let ghost ev = entry_views(entries@);
    let plan = match extract_plan(&entries, sep) {
        Ok(p) => p,
        Err(e) => {
            return Err(e);
        },
    };
    let base_dirs: Vec<Vec<u8>>;
    match archive_type {
        ArchiveType::Aix => {
            let marker = classes_jar_marker_bytes();
            match find_base_dir(&entries, &marker) {
                Some(p) => {
                    let host = to_host_separators(&p, sep);
                    let ghost hv = host@;
                    let mut v: Vec<Vec<u8>> = Vec::new();
                    v.push(host);
                    proof {
                        assert(path_views(v@) =~= seq![hv]);
                    }
                    base_dirs = v;
                },
                None => {
                    return Err(ArchiveError::NotFound);
                },
            }
        },
        ArchiveType::Aia => {
            let prefix = comps_dir_prefix_bytes();
            if !any_name_starts_with(&entries, &prefix) {
                return Err(ArchiveError::NotFound);
            }
            let names = child_dir_names(&entries, &prefix);
            let mut v: Vec<Vec<u8>> = Vec::new();
            for i in 0..names.len()
                invariant
                    prefix@ == comps_dir_prefix(),
                    path_views(names@) == child_dirs_model(entry_views(entries@), prefix@),
                    path_views(v@).len() == i,
                    forall|j: int| 0 <= j < i ==> path_views(v@)[j] == host_mapped(
                        comps_dir_prefix() + path_views(names@)[j],
                        sep,
                    ),
            {
                let joined = concat_bytes(&prefix, &names[i]);
                let host = to_host_separators(&joined, sep);
                let ghost hv = host@;
                let ghost before = path_views(v@);
                v.push(host);
                proof {
                    assert(path_views(v@) =~= before.push(hv));
                    assert(path_views(names@)[i as int] == names@[i as int]@);
                }
            }
            proof {
                assert(path_views(v@) =~= aia_base_dirs_model(entry_views(entries@), sep));
            }
            base_dirs = v;
        },
    }
    proof {
        assert({
            &&& extraction_succeeds(ev, *archive_type)
            &&& Some(ev) == zip_parse_of(given)
            &&& path_views(plan.dirs@) == dirs_model(ev, sep)
            &&& file_views(plan.files@) == files_model(ev, sep)
            &&& *archive_type is Aix ==> base_dir_model(ev, classes_jar_marker()) is Some
            &&& *archive_type is Aix ==> path_views(base_dirs@) == seq![
                host_mapped(base_dir_model(ev, classes_jar_marker()).unwrap(), sep),
            ]
            &&& *archive_type is Aia ==> path_views(base_dirs@) == aia_base_dirs_model(ev, sep)
        });
    }
    Ok(Extraction { plan, base_dirs })
}

} // verus!
