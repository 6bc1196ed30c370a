//! The archive codec: packing entries into a compressed container held
//! in memory, and reading such a container back into entries.
//!
//! The container format is the zip crate's; every call into it stands
//! behind a trusted item.  What an archive's bytes hold is named by
//! [`zip_entry_table`]: the sequence of (stored name, directory flag,
//! payload) triples that a full read of the archive reports, or `None`
//! when the container is not well formed.  The packing and unpacking
//! loops, and every decision around the calls, are verified.

use vstd::prelude::*;
use vstd::string::*;
use crate::CapsuleError;
use crate::paths::is_safe_entry_path;

verus! {

/// One logical archive member: a relative name, whether it marks a
/// directory, and the file payload (empty for directories).
#[derive(Debug)]
pub struct ArchiveEntry {
    pub name: String,
    pub is_dir: bool,
    pub data: Vec<u8>,
}

impl View for ArchiveEntry {
    type V = (Seq<char>, bool, Seq<u8>);

    open spec fn view(&self) -> (Seq<char>, bool, Seq<u8>) {
        (self.name@, self.is_dir, self.data@)
    }
}

/// The views of a sequence of entries.
pub open spec fn entry_views(s: Seq<ArchiveEntry>) -> Seq<(Seq<char>, bool, Seq<u8>)> {
    s.map_values(|e: ArchiveEntry| e@)
}

/// What a full read of `bytes` as a zip archive reports: the stored
/// entries in container order, or `None` when the container is not well
/// formed end to end.
pub uninterp spec fn zip_entry_table(bytes: Seq<u8>) -> Option<Seq<(Seq<char>, bool, Seq<u8>)>>;

/// The entries appended to a builder so far.
pub uninterp spec fn builder_entries(b: ZipBuilder) -> Seq<(Seq<char>, bool, Seq<u8>)>;

/// The size of a file payload once deflated at the codec's fixed
/// settings.  Deflate is deterministic, so this is a function of the
/// payload bytes alone; the container checks it against its 32-bit size
/// field only when the entry is closed, i.e. at the next append or at
/// the finish.
pub uninterp spec fn deflated_len_of(data: Seq<u8>) -> nat;

/// The entry table an open reader serves.
pub uninterp spec fn reader_entries(r: ZipReader) -> Seq<(Seq<char>, bool, Seq<u8>)>;

/// Entry `i` of the reader's table reads in full: its local header
/// parses and its payload inflates.  Over an in-memory buffer this is a
/// function of the archive's bytes and the index alone, so it is
/// unchanged by reading.
pub uninterp spec fn entry_readable(r: ZipReader, i: int) -> bool;

/// An archive being written, over an in-memory buffer.  The writer type
/// carries trait bounds Verus refuses to declare, so the whole struct is
/// opaque; [`builder_entries`] names what it holds.
#[verifier::external_body]
pub struct ZipBuilder {
    inner: zip::write::ZipWriter<std::io::Cursor<Vec<u8>>>,
}

/// An archive being read, over an in-memory buffer.  Opaque for the same
/// reason; [`reader_entries`] names what it serves.
#[verifier::external_body]
pub struct ZipReader {
    inner: zip::read::ZipArchive<std::io::Cursor<Vec<u8>>>,
}

/// Relies on zip's `ZipWriter::new` over a fresh in-memory cursor: a new
/// archive holds no entries.
#[verifier::external_body]
fn builder_new() -> (b: ZipBuilder)
    ensures
        builder_entries(b) == Seq::<(Seq<char>, bool, Seq<u8>)>::empty(),
{
    ZipBuilder { inner: zip::write::ZipWriter::new(std::io::Cursor::new(Vec::new())) }
}

/// Relies on zip's `ZipWriter::start_file` and `Write::write_all`: on
/// success one deflated file entry is appended, stored under exactly
/// `name` and holding exactly `data`.  The name must not end in a
/// separator, which would mark a directory on reading.  Over an
/// in-memory buffer the only failures are a stored name already in the
/// archive (the writer refuses duplicates), a name whose encoding
/// exceeds the container's length field, a payload past the plain size
/// limit, and — because closing the previous entry checks its deflated
/// size only now — an already-appended payload whose deflated form
/// overflows the container's 32-bit size field.
#[verifier::external_body]
fn add_file_raw(b: &mut ZipBuilder, name: &str, data: &Vec<u8>) -> (r: Result<(), CapsuleError>)
    requires
        name@.len() > 0,
        name@[name@.len() - 1] != '/',
        name@[name@.len() - 1] != '\\',
    ensures
        r is Ok ==> builder_entries(*final(b)) == builder_entries(*old(b)).push(
            (name@, false, data@),
        ),
        r is Err ==> (exists|j: int|
            0 <= j < builder_entries(*old(b)).len() && #[trigger] builder_entries(*old(b))[j].0
                == name@) || vstd::utf8::encode_utf8(name@).len() > 65535 || data@.len()
            > 0xFFFF_FFFF || (exists|j: int|
            0 <= j < builder_entries(*old(b)).len() && !(#[trigger] builder_entries(
                *old(b),
            )[j]).1 && deflated_len_of(builder_entries(*old(b))[j].2) > 0xFFFF_FFFF),
{
    let opts: zip::write::SimpleFileOptions = zip::write::SimpleFileOptions::default()
        .compression_method(zip::CompressionMethod::Deflated)
        .unix_permissions(0o755);
    if b.inner.start_file(name, opts).is_err() {
        return Err(CapsuleError::ArchiveWrite);
    }
    if std::io::Write::write_all(&mut b.inner, data.as_slice()).is_err() {
        return Err(CapsuleError::ArchiveWrite);
    }
    Ok(())
}

/// Relies on zip's `ZipWriter::add_directory`: on success one directory
/// entry is appended, stored under `name` with a trailing slash added and
/// an empty payload.  Over an in-memory buffer the only failures are a
/// stored name already in the archive, a name whose encoding exceeds
/// the container's length field, and — because closing the previous
/// entry checks its deflated size only now — an already-appended payload
/// whose deflated form overflows the container's 32-bit size field.
#[verifier::external_body]
fn add_dir_raw(b: &mut ZipBuilder, name: &str) -> (r: Result<(), CapsuleError>)
    requires
        name@.len() > 0,
        name@[name@.len() - 1] != '/',
        name@[name@.len() - 1] != '\\',
    ensures
        r is Ok ==> builder_entries(*final(b)) == builder_entries(*old(b)).push(
            (name@.push('/'), true, Seq::<u8>::empty()),
        ),
        r is Err ==> (exists|j: int|
            0 <= j < builder_entries(*old(b)).len() && #[trigger] builder_entries(*old(b))[j].0
                == name@.push('/')) || vstd::utf8::encode_utf8(name@.push('/')).len() > 65535 || (
        exists|j: int|
            0 <= j < builder_entries(*old(b)).len() && !(#[trigger] builder_entries(
                *old(b),
            )[j]).1 && deflated_len_of(builder_entries(*old(b))[j].2) > 0xFFFF_FFFF),
{
    let opts: zip::write::SimpleFileOptions = zip::write::SimpleFileOptions::default();
    if b.inner.add_directory(name, opts).is_err() {
        return Err(CapsuleError::ArchiveWrite);
    }
    Ok(())
}

/// Relies on zip's `ZipWriter::finish` writing the central directory: the
/// finished bytes form a well-formed archive whose full read reports
/// exactly the entries that were appended, in order.  Over an in-memory
/// buffer every write of the central directory and footer succeeds; the
/// one failure left is closing the final entry, whose deflated size is
/// checked against the container's 32-bit size field only here.  With
/// every appended file payload's deflated form within that field,
/// finishing cannot fail.
#[verifier::external_body]
fn finish_raw(b: ZipBuilder) -> (r: Result<Vec<u8>, CapsuleError>)
    ensures
        (forall|j: int|
            0 <= j < builder_entries(b).len() ==> (!(#[trigger] builder_entries(b)[j]).1
                ==> deflated_len_of(builder_entries(b)[j].2) <= 0xFFFF_FFFF)) ==> r is Ok,
        r is Ok ==> zip_entry_table(r.unwrap()@) == Some(builder_entries(b)),
{
    match b.inner.finish() {
        Ok(cursor) => Ok(cursor.into_inner()),
        Err(_) => Err(CapsuleError::ArchiveWrite),
    }
}

/// Relies on zip's `ZipArchive::new` reading the central directory: bytes
/// whose full read succeeds always open, and the reader then serves that
/// read's entry table.  The full read of the bytes is, by definition,
/// the open followed by the read of every entry, so it succeeds exactly
/// when the archive opens and every entry of the served table reads.
#[verifier::external_body]
fn open_raw(bytes: &Vec<u8>) -> (r: Result<ZipReader, CapsuleError>)
    ensures
        zip_entry_table(bytes@) is Some ==> r is Ok,
        (zip_entry_table(bytes@) is Some && r is Ok) ==> reader_entries(r.unwrap())
            == zip_entry_table(bytes@).unwrap(),
        r is Ok ==> (zip_entry_table(bytes@) is Some <==> (forall|i: int|
            0 <= i < reader_entries(r.unwrap()).len() ==> #[trigger] entry_readable(
                r.unwrap(),
                i,
            ))),
{
    match zip::read::ZipArchive::new(std::io::Cursor::new(bytes.clone())) {
        Ok(archive) => Ok(ZipReader { inner: archive }),
        Err(_) => Err(CapsuleError::ArchiveRead),
    }
}

/// Relies on zip's `ZipArchive::len`: the number of entries in the table.
#[verifier::external_body]
fn len_raw(r: &ZipReader) -> (n: usize)
    ensures
        n == reader_entries(*r).len(),
{
    r.inner.len()
}

/// Relies on zip's `ZipArchive::by_index` and the entry's `Read`
/// implementation: on success the entry's stored name, directory flag and
/// inflated payload come back.  Reading succeeds exactly when the entry
/// is readable, and moves only the cursor, never the table or any
/// entry's readability.
#[verifier::external_body]
fn read_entry_raw(r: &mut ZipReader, i: usize) -> (e: Result<ArchiveEntry, CapsuleError>)
    requires
        i < reader_entries(*old(r)).len(),
    ensures
        reader_entries(*final(r)) == reader_entries(*old(r)),
        forall|j: int| #[trigger] entry_readable(*final(r), j) == entry_readable(*old(r), j),
        e is Ok <==> entry_readable(*old(r), i as int),
        e is Ok ==> e.unwrap()@ == reader_entries(*old(r))[i as int],
{
    let mut file = match r.inner.by_index(i) {
        Ok(f) => f,
        Err(_) => return Err(CapsuleError::ArchiveRead),
    };
    let name = file.name().to_owned();
    let is_dir = file.is_dir();
    let mut data = Vec::new();
    if std::io::Read::read_to_end(&mut file, &mut data).is_err() {
        return Err(CapsuleError::ArchiveRead);
    }
    Ok(ArchiveEntry { name, is_dir, data })
}

/// `s` may be packed: it is a safe relative path and does not end in a
/// separator, so the archive stores it as given and reads it back with
/// the same directory flag it was written with.
pub open spec fn is_packable_name(s: Seq<char>) -> bool {
    is_safe_entry_path(s) && s[s.len() - 1] != '/'
}

/// Decides `is_packable_name` for a string.
pub fn name_is_packable(s: &str) -> (r: bool)
    ensures
        r == is_packable_name(s@),
{
    if !crate::paths::entry_path_is_safe(s) {
        return false;
    }
    let n = s.unicode_len();
    s.get_char(n - 1) != '/'
}

/// Every entry of `s` has a packable name.
pub open spec fn all_packable(s: Seq<(Seq<char>, bool, Seq<u8>)>) -> bool {
    forall|i: int| 0 <= i < s.len() ==> is_packable_name(#[trigger] s[i].0)
}

/// How one entry is stored in the container: files as given, directories
/// under their name with a trailing slash and no payload.
pub open spec fn stored_entry(e: (Seq<char>, bool, Seq<u8>)) -> (Seq<char>, bool, Seq<u8>) {
    if e.1 {
        (e.0.push('/'), true, Seq::<u8>::empty())
    } else {
        e
    }
}

/// The entry table that packing `s` produces.
pub open spec fn stored_entries(s: Seq<(Seq<char>, bool, Seq<u8>)>) -> Seq<
    (Seq<char>, bool, Seq<u8>),
> {
    s.map_values(|e: (Seq<char>, bool, Seq<u8>)| stored_entry(e))
}

/// No two entries of the table carry the same stored name; the container
/// refuses duplicates.
pub open spec fn stored_names_distinct(s: Seq<(Seq<char>, bool, Seq<u8>)>) -> bool {
    forall|i: int, j: int| 0 <= i < j < s.len() ==> s[i].0 != s[j].0
}

/// The stored entry stays within the container's fields: the name's
/// encoding fits the name-length field, and a file payload fits the
/// 32-bit size field both plain and — deflate can expand slightly —
/// deflated.
pub open spec fn entry_fits_container(e: (Seq<char>, bool, Seq<u8>)) -> bool {
    &&& vstd::utf8::encode_utf8(e.0).len() <= 65535
    &&& e.2.len() <= 0xFFFF_FFFF
    &&& (!e.1 ==> deflated_len_of(e.2) <= 0xFFFF_FFFF)
}

/// Every entry of the table stays within the container's fields.
pub open spec fn all_fit_container(s: Seq<(Seq<char>, bool, Seq<u8>)>) -> bool {
    forall|i: int| 0 <= i < s.len() ==> entry_fits_container(#[trigger] s[i])
}

/// Packs `entries` into an in-memory archive.  Entries with unpackable
/// names are refused outright, before anything is written; on success the
/// archive's bytes read back as exactly the stored form of `entries`.
/// When every name is packable, the stored names are pairwise distinct
/// and every entry fits the container's fields, the archive is owed: the
/// build succeeds.
pub fn encode_archive(entries: &Vec<ArchiveEntry>) -> (r: Result<Vec<u8>, CapsuleError>)
    ensures
        r == Err::<Vec<u8>, CapsuleError>(CapsuleError::UnsafeEntryPath) <==> !all_packable(
            entry_views(entries@),
        ),
        r is Ok ==> zip_entry_table(r.unwrap()@) == Some(stored_entries(entry_views(entries@))),
        (all_packable(entry_views(entries@)) && stored_names_distinct(
            stored_entries(entry_views(entries@)),
        ) && all_fit_container(stored_entries(entry_views(entries@)))) ==> r is Ok,
{
    let ghost views = entry_views(entries@);
    let ghost stored = stored_entries(views);
    let mut i: usize = 0;
    while i < entries.len()
        invariant
            views == entry_views(entries@),
            i <= entries@.len(),
            views.len() == entries@.len(),
            forall|j: int| 0 <= j < i ==> is_packable_name(#[trigger] views[j].0),
        decreases entries@.len() - i,
    {
        if !name_is_packable(entries[i].name.as_str()) {
            assert(!is_packable_name(views[i as int].0));
            return Err(CapsuleError::UnsafeEntryPath);
        }
        i = i + 1;
    }
    assert(all_packable(views));
    let mut b = builder_new();
    proof {
        assert(stored.subrange(0, 0) =~= Seq::<(Seq<char>, bool, Seq<u8>)>::empty());
    }
    let mut k: usize = 0;
    while k < entries.len()
        invariant
            views == entry_views(entries@),
            stored == stored_entries(views),
            all_packable(views),
            k <= entries@.len(),
            views.len() == entries@.len(),
            stored.len() == views.len(),
            builder_entries(b) =~= stored.subrange(0, k as int),
        decreases entries@.len() - k,
    {
        let e = &entries[k];
        assert(e@ == views[k as int]);
        assert(is_packable_name(views[k as int].0));
        assert(stored[k as int] == stored_entry(views[k as int]));
        let ghost pre = builder_entries(b);
        let res = if e.is_dir {
            add_dir_raw(&mut b, e.name.as_str())
        } else {
            add_file_raw(&mut b, e.name.as_str(), &e.data)
        };
        if res.is_err() {
            proof {
                if all_packable(views) && stored_names_distinct(stored) && all_fit_container(
                    stored,
                ) {
                    assert(entry_fits_container(stored[k as int]));
                    let sname = stored[k as int].0;
                    if exists|j: int|
                        0 <= j < pre.len() && #[trigger] pre[j].0 == sname {
                        let j = choose|j: int|
                            0 <= j < pre.len() && #[trigger] pre[j].0 == sname;
                        assert(pre[j] == stored[j]);
                        assert(stored[j].0 == stored[k as int].0);
                        assert(false);
                    } else if exists|j: int|
                        0 <= j < pre.len() && !(#[trigger] pre[j]).1 && deflated_len_of(pre[j].2)
                            > 0xFFFF_FFFF {
                        let j = choose|j: int|
                            0 <= j < pre.len() && !(#[trigger] pre[j]).1 && deflated_len_of(
                                pre[j].2,
                            ) > 0xFFFF_FFFF;
                        assert(pre[j] == stored[j]);
                        assert(entry_fits_container(stored[j]));
                        assert(false);
                    } else {
                        if views[k as int].1 {
                            assert(vstd::utf8::encode_utf8(sname).len() > 65535);
                        } else {
                            assert(vstd::utf8::encode_utf8(sname).len() > 65535 || views[k
                                as int].2.len() > 0xFFFF_FFFF);
                            assert(stored[k as int].2 == views[k as int].2);
                        }
                        assert(false);
                    }
                }
            }
            return Err(CapsuleError::ArchiveWrite);
        }
        proof {
            assert(stored.subrange(0, (k + 1) as int) =~= stored.subrange(0, k as int).push(
                stored[k as int],
            ));
        }
        k = k + 1;
    }
    proof {
        assert(stored.subrange(0, stored.len() as int) =~= stored);
        assert(builder_entries(b) == stored);
        if all_fit_container(stored) {
            assert forall|j: int| 0 <= j < stored.len() implies (!(#[trigger] stored[j]).1
                ==> deflated_len_of(stored[j].2) <= 0xFFFF_FFFF) by {
                assert(entry_fits_container(stored[j]));
            }
        }
    }
    match finish_raw(b) {
        Ok(bytes) => Ok(bytes),
        Err(_) => Err(CapsuleError::ArchiveWrite),
    }
}

/// Reads an in-memory archive back into its entries.  Bytes whose full
/// read succeeds are always accepted, and yield exactly their entry
/// table; bytes whose full read fails — a corrupt or truncated
/// container, anywhere — are always refused.
pub fn decode_archive(bytes: &Vec<u8>) -> (r: Result<Vec<ArchiveEntry>, CapsuleError>)
    ensures
        zip_entry_table(bytes@) is Some ==> r is Ok,
        r is Ok ==> zip_entry_table(bytes@) is Some && entry_views(r.unwrap()@) == zip_entry_table(
            bytes@,
        ).unwrap(),
{
    let ghost table = zip_entry_table(bytes@);
    let mut rd = match open_raw(bytes) {
        Ok(rd) => rd,
        Err(e) => {
            return Err(e);
        },
    };
    let ghost served = reader_entries(rd);
    let n = len_raw(&rd);
    let mut out: Vec<ArchiveEntry> = Vec::new();
    let mut i: usize = 0;
    while i < n
        invariant
            table == zip_entry_table(bytes@),
            n == served.len(),
            reader_entries(rd) == served,
            i <= n,
            out@.len() == i,
            entry_views(out@) =~= served.subrange(0, i as int),
            forall|j: int| 0 <= j < i ==> #[trigger] entry_readable(rd, j),
            table is Some ==> served == table.unwrap(),
            table is Some <==> (forall|j: int|
                0 <= j < served.len() ==> #[trigger] entry_readable(rd, j)),
        decreases n - i,
    {
        let ghost rd0 = rd;
        let e = match read_entry_raw(&mut rd, i) {
            Ok(e) => e,
            Err(err) => {
                assert(!entry_readable(rd, i as int));
                assert(table is None);
                return Err(err);
            },
        };
        proof {
            if table is Some {
                assert forall|j: int| 0 <= j < served.len() implies #[trigger] entry_readable(
                    rd,
                    j,
                ) by {
                    assert(entry_readable(rd0, j));
                }
            } else {
                if forall|j: int| 0 <= j < served.len() ==> #[trigger] entry_readable(rd, j) {
                    assert forall|j: int| 0 <= j < served.len() implies #[trigger] entry_readable(
                        rd0,
                        j,
                    ) by {
                        assert(entry_readable(rd, j));
                    }
                    assert(table is Some);
                }
            }
            assert(served.subrange(0, (i + 1) as int) =~= served.subrange(0, i as int).push(
                served[i as int],
            ));
        }
        out.push(e);
        proof {
            assert(entry_views(out@) =~= served.subrange(0, (i + 1) as int));
        }
        i = i + 1;
    }
    proof {
        assert(table is Some);
        assert(served.subrange(0, served.len() as int) =~= served);
    }
    Ok(out)
}

} // verus!
