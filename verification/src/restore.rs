//! Turning archive entries back into a directory tree: validation of
//! every stored path before anything touches disk, and the write steps
//! the caller then performs under the restore root.
//!
//! The effect of the steps is stated against a small filesystem model —
//! the set of directories made and the map from file path to contents —
//! and the round-trip law at the end ties building and restoring
//! together: a capsule extracted into an empty target reproduces exactly
//! the files and directories it was built from.

use vstd::prelude::*;
use vstd::string::*;
use crate::CapsuleError;
use crate::codec::{
    ArchiveEntry, all_packable, entry_views, is_packable_name, stored_entries, stored_entry,
    zip_entry_table,
};
use crate::paths::is_safe_entry_path;

verus! {

/// One write the caller performs under the restore root.
#[derive(Debug)]
pub enum RestoreStep {
    /// Create this directory, parents included.
    MakeDir(String),
    /// Create this file, parents included, with these contents.
    WriteFile(String, Vec<u8>),
}

impl View for RestoreStep {
    type V = (bool, Seq<char>, Seq<u8>);

    open spec fn view(&self) -> (bool, Seq<char>, Seq<u8>) {
        match self {
            RestoreStep::MakeDir(p) => (true, p@, Seq::<u8>::empty()),
            RestoreStep::WriteFile(p, d) => (false, p@, d@),
        }
    }
}

/// The views of a sequence of steps.
pub open spec fn step_views(s: Seq<RestoreStep>) -> Seq<(bool, Seq<char>, Seq<u8>)> {
    s.map_values(|st: RestoreStep| st@)
}

/// A stored directory name without its trailing slash.
pub open spec fn dir_core(s: Seq<char>) -> Seq<char> {
    if s.len() > 0 && s[s.len() - 1] == '/' {
        s.drop_last()
    } else {
        s
    }
}

/// The stored entry may be extracted: the path it writes to is safe to
/// join under the restore root.
pub open spec fn is_extractable(e: (Seq<char>, bool, Seq<u8>)) -> bool {
    if e.1 {
        is_safe_entry_path(dir_core(e.0))
    } else {
        is_safe_entry_path(e.0)
    }
}

/// Every stored entry may be extracted.
pub open spec fn all_extractable(s: Seq<(Seq<char>, bool, Seq<u8>)>) -> bool {
    forall|i: int| 0 <= i < s.len() ==> is_extractable(#[trigger] s[i])
}

/// The step one stored entry gives: a directory under its name with the
/// trailing slash stripped, a file under its name as stored.
pub open spec fn step_of_entry(e: (Seq<char>, bool, Seq<u8>)) -> (bool, Seq<char>, Seq<u8>) {
    if e.1 {
        (true, dir_core(e.0), Seq::<u8>::empty())
    } else {
        (false, e.0, e.2)
    }
}

/// The steps a whole entry table gives, in container order.
pub open spec fn extraction_steps(s: Seq<(Seq<char>, bool, Seq<u8>)>) -> Seq<
    (bool, Seq<char>, Seq<u8>),
> {
    s.map_values(|e: (Seq<char>, bool, Seq<u8>)| step_of_entry(e))
}

/// A byte-for-byte copy of `v`.
fn copy_bytes(v: &Vec<u8>) -> (r: Vec<u8>)
    ensures
        r@ == v@,
{
    let mut r: Vec<u8> = Vec::new();
    let mut i: usize = 0;
    while i < v.len()
        invariant
            i <= v@.len(),
            r@ =~= v@.subrange(0, i as int),
        decreases v@.len() - i,
    {
        r.push(v[i]);
        proof {
            assert(r@ =~= v@.subrange(0, (i + 1) as int));
        }
        i = i + 1;
    }
    proof {
        assert(r@ =~= v@);
    }
    r
}

/// Plans the extraction of an entry table.  Every entry's path is
/// validated first: one absolute path or `..` segment anywhere refuses
/// the whole archive, before any step is handed out.  On success the
/// steps mirror the entries one for one, in container order.
pub fn plan_extraction(entries: &Vec<ArchiveEntry>) -> (r: Result<Vec<RestoreStep>, CapsuleError>)
    ensures
        r is Ok <==> all_extractable(entry_views(entries@)),
        r is Err ==> r == Err::<Vec<RestoreStep>, CapsuleError>(CapsuleError::UnsafeEntryPath),
        r is Ok ==> step_views(r.unwrap()@) =~= extraction_steps(entry_views(entries@)),
{
    let ghost views = entry_views(entries@);
    let mut out: Vec<RestoreStep> = Vec::new();
    let mut i: usize = 0;
    while i < entries.len()
        invariant
            views == entry_views(entries@),
            i <= entries@.len(),
            views.len() == entries@.len(),
            out@.len() == i,
            forall|j: int| 0 <= j < i ==> is_extractable(#[trigger] views[j]),
            step_views(out@) =~= extraction_steps(views.subrange(0, i as int)),
        decreases entries@.len() - i,
    {
        let e = &entries[i];
        assert(e@ == views[i as int]);
        let step: RestoreStep;
        if e.is_dir {
            let n = e.name.unicode_len();
            let core: &str = if n > 0 && e.name.as_str().get_char(n - 1) == '/' {
                e.name.as_str().substring_char(0, n - 1)
            } else {
                e.name.as_str()
            };
            assert(core@ == dir_core(e.name@));
            if !crate::paths::entry_path_is_safe(core) {
                assert(!is_extractable(views[i as int]));
                return Err(CapsuleError::UnsafeEntryPath);
            }
            step = RestoreStep::MakeDir(String::from_str(core));
        } else {
            if !crate::paths::entry_path_is_safe(e.name.as_str()) {
                assert(!is_extractable(views[i as int]));
                return Err(CapsuleError::UnsafeEntryPath);
            }
            step = RestoreStep::WriteFile(e.name.clone(), copy_bytes(&e.data));
        }
        assert(step@ == step_of_entry(views[i as int]));
        out.push(step);
        proof {
            assert(views.subrange(0, (i + 1) as int) =~= views.subrange(0, i as int).push(
                views[i as int],
            ));
            assert(extraction_steps(views.subrange(0, (i + 1) as int)) =~= extraction_steps(
                views.subrange(0, i as int),
            ).push(step_of_entry(views[i as int])));
            assert(step_views(out@) =~= extraction_steps(views.subrange(0, (i + 1) as int)));
        }
        i = i + 1;
    }
    proof {
        assert(views.subrange(0, views.len() as int) =~= views);
    }
    Ok(out)
}

/// The restore target, abstractly: which directories the steps have made
/// and what each written file holds.
pub struct FsModel {
    pub dirs: Set<Seq<char>>,
    pub files: Map<Seq<char>, Seq<u8>>,
}

/// A target with nothing in it.
pub open spec fn empty_fs() -> FsModel {
    FsModel { dirs: Set::<Seq<char>>::empty(), files: Map::<Seq<char>, Seq<u8>>::empty() }
}

/// One step's effect on the target.
pub open spec fn apply_step(fs: FsModel, s: (bool, Seq<char>, Seq<u8>)) -> FsModel {
    if s.0 {
        FsModel { dirs: fs.dirs.insert(s.1), files: fs.files }
    } else {
        FsModel { dirs: fs.dirs, files: fs.files.insert(s.1, s.2) }
    }
}

/// The steps' combined effect, applied in order.
pub open spec fn apply_steps(fs: FsModel, steps: Seq<(bool, Seq<char>, Seq<u8>)>) -> FsModel
    decreases steps.len(),
{
    if steps.len() == 0 {
        fs
    } else {
        apply_step(apply_steps(fs, steps.drop_last()), steps.last())
    }
}

/// The files a source tree holds: each file entry's path mapped to its
/// contents, later entries winning.
pub open spec fn files_of(source: Seq<(Seq<char>, bool, Seq<u8>)>) -> Map<Seq<char>, Seq<u8>>
    decreases source.len(),
{
    if source.len() == 0 {
        Map::<Seq<char>, Seq<u8>>::empty()
    } else if source.last().1 {
        files_of(source.drop_last())
    } else {
        files_of(source.drop_last()).insert(source.last().0, source.last().2)
    }
}

/// The directories a source tree holds.
pub open spec fn dirs_of(source: Seq<(Seq<char>, bool, Seq<u8>)>) -> Set<Seq<char>>
    decreases source.len(),
{
    if source.len() == 0 {
        Set::<Seq<char>>::empty()
    } else if source.last().1 {
        dirs_of(source.drop_last()).insert(source.last().0)
    } else {
        dirs_of(source.drop_last())
    }
}

/// Extracting the stored form of `source` into an empty target
/// reproduces exactly the source's files, byte for byte, and its
/// directories.
proof fn lemma_stored_steps_rebuild(source: Seq<(Seq<char>, bool, Seq<u8>)>)
    ensures
        apply_steps(empty_fs(), extraction_steps(stored_entries(source))).files =~= files_of(
            source,
        ),
        apply_steps(empty_fs(), extraction_steps(stored_entries(source))).dirs =~= dirs_of(source),
    decreases source.len(),
{
    let stored = stored_entries(source);
    let steps = extraction_steps(stored);
    if source.len() == 0 {
        assert(steps =~= Seq::<(bool, Seq<char>, Seq<u8>)>::empty());
    } else {
        let prev = source.drop_last();
        lemma_stored_steps_rebuild(prev);
        assert(stored.drop_last() =~= stored_entries(prev));
        assert(steps.drop_last() =~= extraction_steps(stored_entries(prev)));
        let last = source.last();
        assert(steps.last() == step_of_entry(stored_entry(last)));
        if last.1 {
            assert(stored_entry(last).0 == last.0.push('/'));
            assert(dir_core(last.0.push('/')) =~= last.0) by {
                assert(last.0.push('/').drop_last() =~= last.0);
            }
        }
    }
}

/// The round-trip law: a capsule built from `source` (all names
/// packable) and read back extracts, into an empty target, exactly the
/// files of `source`, byte for byte, and its directories.  `bytes` is
/// any archive the builder produced from `source`; its full read is the
/// stored entry table, extraction accepts every stored path, and the
/// steps rebuild the source tree.
pub proof fn lemma_capsule_round_trip(source: Seq<(Seq<char>, bool, Seq<u8>)>, bytes: Seq<u8>)
    requires
        all_packable(source),
        zip_entry_table(bytes) == Some(stored_entries(source)),
    ensures
        all_extractable(zip_entry_table(bytes).unwrap()),
        apply_steps(
            empty_fs(),
            extraction_steps(zip_entry_table(bytes).unwrap()),
        ).files =~= files_of(source),
        apply_steps(
            empty_fs(),
            extraction_steps(zip_entry_table(bytes).unwrap()),
        ).dirs =~= dirs_of(source),
{
    let stored = stored_entries(source);
    assert forall|i: int| 0 <= i < stored.len() implies is_extractable(#[trigger] stored[i]) by {
        assert(is_packable_name(source[i].0));
        if source[i].1 {
            assert(stored[i] == stored_entry(source[i]));
            assert(dir_core(source[i].0.push('/')) =~= source[i].0) by {
                assert(source[i].0.push('/').drop_last() =~= source[i].0);
            }
        }
    }
    lemma_stored_steps_rebuild(source);
}

} // verus!
