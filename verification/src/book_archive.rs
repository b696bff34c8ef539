use crate::book::{BookError, BookFault};
use crate::book_export::{entry_models, ArchiveEntry};
use crate::renpy::starts_with;
use crate::text::{owned, push_str};
use std::io::{Cursor, Write};
use vstd::prelude::*;
use zip::write::SimpleFileOptions;
use zip::{CompressionMethod, ZipWriter};

verus! {

/// A ZIP archive being written in memory. Verus refuses to declare
/// `zip::ZipWriter` (its bounds name `std::io::Write` and `Seek`), so the
/// writer is held here, out of Verus's sight.
#[verifier::external_body]
pub struct ZipBuffer {
    writer: ZipWriter<Cursor<Vec<u8>>>,
}

/// The entries that a ZIP writer over memory holds, in the order they were
/// written: each name, text, and whether it is compressed.
pub uninterp spec fn zip_contents(buffer: ZipBuffer) -> Seq<(Seq<char>, Seq<char>, bool)>;

/// Whether a ZIP writer over memory is in order: opened, and no write to it
/// reported an error.
pub uninterp spec fn zip_usable(buffer: ZipBuffer) -> bool;

/// The largest entry name, in characters, that a writer takes: a local header
/// (30 bytes, the name's bytes, no extra field) must stay under 64 KiB.
pub open spec fn name_limit() -> nat {
    8000
}

/// The largest entry text, in characters, that a writer takes without the
/// large-file option: its bytes, compressed or not, stay under 4 GiB.
pub open spec fn content_limit() -> nat {
    0x1000_0000
}

/// The bytes of the archive that `ZipWriter::finish` gives for a writer over
/// memory holding these entries, each written with the default options and
/// Deflate (compressed) or no compression.
pub uninterp spec fn zip_archive(entries: Seq<(Seq<char>, Seq<char>, bool)>) -> Seq<u8>;

/// Opens a ZIP writer over an empty buffer
/// (`ZipWriter::new(Cursor::new(Vec::new()))`). Claimed: it holds no entry
/// and is in order.
#[verifier::external_body]
fn zip_writer() -> (buffer: ZipBuffer)
    ensures
        zip_contents(buffer) == Seq::<(Seq<char>, Seq<char>, bool)>::empty(),
        zip_usable(buffer),
{
    ZipBuffer { writer: ZipWriter::new(Cursor::new(Vec::new())) }
}

/// Writes one entry (`ZipWriter::start_file` with `CompressionMethod::Deflated`
/// or `Stored`, then `write_all` of the text's bytes), or reports the error's
/// message. Claimed: on success the entry follows the ones written before and
/// the writer stays in order. A writer in order refuses an entry only for a
/// name it already holds (`insert_file_data`), a local header of 64 KiB or
/// more (`start_entry`), or 4 GiB of data without the large-file option
/// (`Write::write`, `update_local_file_header`); over memory nothing else fails.
/// Nothing is claimed of a writer that reported an error; it is not used again.
#[verifier::external_body]
fn zip_write_entry(buffer: &mut ZipBuffer, name: &str, content: &str, compressed: bool) -> (r: Result<(), String>)
    ensures
        r is Ok ==> zip_contents(*final(buffer)) == zip_contents(*old(buffer)).push(
            (name@, content@, compressed),
        ),
        r is Ok ==> zip_usable(*final(buffer)),
        zip_usable(*old(buffer)) && name@.len() < name_limit() && content@.len() < content_limit()
            && (forall|k: int|
            0 <= k < zip_contents(*old(buffer)).len() ==> #[trigger] zip_contents(*old(buffer))[k].0
                != name@) ==> r is Ok,
{
    let method = if compressed { CompressionMethod::Deflated } else { CompressionMethod::Stored };
    let options = SimpleFileOptions::default().compression_method(method);
    buffer.writer.start_file(name, options).map_err(|error| error.to_string())?;
    buffer.writer.write_all(content.as_bytes()).map_err(|error| error.to_string())
}

/// Finishes an archive (`ZipWriter::finish`) and takes its bytes, or reports the
/// error's message. Claimed: the bytes are `zip_archive` of what it holds; a
/// writer in order finishes, since over memory writing the central directory
/// and seeking cannot fail (ZIP64 records are added where sizes need them).
#[verifier::external_body]
fn zip_finish(buffer: ZipBuffer) -> (r: Result<Vec<u8>, String>)
    ensures
        r matches Ok(bytes) ==> bytes@ == zip_archive(zip_contents(buffer)),
        zip_usable(buffer) ==> r is Ok,
{
    buffer.writer.finish().map(Cursor::into_inner).map_err(|error| error.to_string())
}

/// The start of the message for a failed write of the entry `name`.
pub open spec fn entry_failure(name: Seq<char>) -> Seq<char> {
    "写入 "@ + name + " 失败："@
}

/// The start of the message for an archive of `kind` that could not be finished.
pub open spec fn finish_failure(kind: Seq<char>) -> Seq<char> {
    "完成 "@ + kind + " 失败："@
}

/// Whether no two entries share a name.
pub open spec fn names_distinct(entries: Seq<(Seq<char>, Seq<char>, bool)>) -> bool {
    forall|i: int, j: int| 0 <= i < j < entries.len() ==> #[trigger] entries[i].0 != #[trigger] entries[j].0
}

/// Whether every entry name is short enough for a ZIP local header.
pub open spec fn names_short(entries: Seq<(Seq<char>, Seq<char>, bool)>) -> bool {
    forall|i: int| 0 <= i < entries.len() ==> (#[trigger] entries[i]).0.len() < name_limit()
}

/// Whether every entry fits a ZIP entry without the large-file option.
pub open spec fn within_zip_limits(entries: Seq<(Seq<char>, Seq<char>, bool)>) -> bool {
    &&& names_short(entries)
    &&& forall|i: int| 0 <= i < entries.len() ==> (#[trigger] entries[i]).1.len() < content_limit()
}

/// Packs the files of a publication into a ZIP archive (`kind` names it in
/// errors: `DOCX`, `EPUB`). Entries with distinct names of ordinary size are
/// always packed.
pub fn package_archive(entries: &Vec<ArchiveEntry>, kind: &str) -> (r: Result<Vec<u8>, BookError>)
    ensures
        names_distinct(entry_models(entries@)) && within_zip_limits(entry_models(entries@)) ==> r is Ok,
        match r {
            Ok(bytes) => bytes@ == zip_archive(entry_models(entries@)),
            Err(e) => match e@ {
                BookFault::Io(m) => starts_with(m, finish_failure(kind@)) || exists|i: int|
                    0 <= i < entries.len() && starts_with(m, entry_failure(#[trigger] entries@[i].name@)),
                _ => false,
            },
        },
{
    let ghost all = entry_models(entries@);
    let mut writer = zip_writer();
    let mut i: usize = 0;
    assert(all.take(0) =~= Seq::<(Seq<char>, Seq<char>, bool)>::empty());
    while i < entries.len()
        invariant
            i <= entries.len(),
            all == entry_models(entries@),
            zip_contents(writer) == all.take(i as int),
            zip_usable(writer),
        decreases entries.len() - i,
    {
        let entry = &entries[i];
        proof {
            assert(all[i as int] == (entry.name@, entry.content@, entry.compressed));
            if names_distinct(all) {
                assert forall|k: int| 0 <= k < zip_contents(writer).len() implies #[trigger] zip_contents(
                    writer,
                )[k].0 != entry.name@ by {
                    assert(zip_contents(writer)[k] == all[k]);
                    assert(k < i as int);
                    assert(all[k].0 != all[i as int].0);
                }
            }
        }
        match zip_write_entry(&mut writer, entry.name.as_str(), entry.content.as_str(), entry.compressed) {
            Ok(()) => {},
            Err(error) => {
                let mut m = owned("写入 ");
                push_str(&mut m, entry.name.as_str());
                push_str(&mut m, " 失败：");
                let ghost prefix = m@;
                push_str(&mut m, error.as_str());
                proof {
                    reveal_strlit("写入 ");
                    reveal_strlit(" 失败：");
                    assert(prefix == entry_failure(entries@[i as int].name@));
                    assert(m@.take(prefix.len() as int) =~= prefix);
                }
                return Err(BookError::Io(m));
            },
        }
        assert(all.take(i + 1) =~= all.take(i as int).push(all[i as int]));
        i = i + 1;
    }
    assert(all.take(entries.len() as int) =~= all);
    match zip_finish(writer) {
        Ok(bytes) => Ok(bytes),
        Err(error) => {
            let mut m = owned("完成 ");
            push_str(&mut m, kind);
            push_str(&mut m, " 失败：");
            let ghost prefix = m@;
            push_str(&mut m, error.as_str());
            proof {
                reveal_strlit("完成 ");
                reveal_strlit(" 失败：");
                assert(prefix == finish_failure(kind@));
                assert(m@.take(prefix.len() as int) =~= prefix);
            }
            Err(BookError::Io(m))
        },
    }
}

} // verus!
