//! Building one capsule: naming it from the local clock and packing the
//! walked entries into the archive bytes the caller then writes out.

use vstd::prelude::*;
use vstd::string::*;
use crate::CapsuleError;
use crate::clock::{current_timestamp, is_digit_seq};
use crate::codec::{
    ArchiveEntry, all_fit_container, all_packable, encode_archive, entry_views,
    stored_names_distinct, stored_entries, zip_entry_table,
};
use crate::store::has_archive_ext;

verus! {

/// The file name of a capsule built at timestamp `ts`:
/// `nvim_backup_<ts>.zip`.  Such a name always carries the archive
/// extension, so the store's listing will pick the capsule up.
pub fn capsule_file_name(ts: &str) -> (r: String)
    ensures
        r@ == "nvim_backup_"@ + ts@ + ".zip"@,
        has_archive_ext(r@),
{
    let r = String::from_str("nvim_backup_").concat(ts).concat(".zip");
    proof {
        reveal_strlit("nvim_backup_");
        reveal_strlit(".zip");
        let n = r@.len() as int;
        assert(r@[n - 4] == '.');
        assert(r@[n - 3] == 'z');
        assert(r@[n - 2] == 'i');
        assert(r@[n - 1] == 'p');
    }
    r
}

/// Builds one capsule from walked entries: a file name taken from the
/// current local time, and the archive bytes.  An unsafe entry name
/// refuses the build before anything is packed; with packable, pairwise
/// distinct stored names that fit the container, the capsule is owed.
/// On success the name is `nvim_backup_<ts>.zip` for the fourteen-digit
/// clock reading `ts` — so the store will list the capsule — and the
/// bytes read back as exactly the entries' stored form.
pub fn build_capsule(entries: &Vec<ArchiveEntry>) -> (r: Result<(String, Vec<u8>), CapsuleError>)
    ensures
        r == Err::<(String, Vec<u8>), CapsuleError>(CapsuleError::UnsafeEntryPath)
            <==> !all_packable(entry_views(entries@)),
        (all_packable(entry_views(entries@)) && stored_names_distinct(
            stored_entries(entry_views(entries@)),
        ) && all_fit_container(stored_entries(entry_views(entries@)))) ==> r is Ok,
        r is Ok ==> exists|ts: Seq<char>|
            ts.len() == 14 && #[trigger] is_digit_seq(ts) && r.unwrap().0@ == "nvim_backup_"@ + ts
                + ".zip"@,
        r is Ok ==> has_archive_ext(r.unwrap().0@),
        r is Ok ==> zip_entry_table(r.unwrap().1@) == Some(stored_entries(entry_views(entries@))),
{
    let ts = current_timestamp();
    let name = capsule_file_name(ts.as_str());
    proof {
        assert(ts@.len() == 14 && is_digit_seq(ts@) && name@ == "nvim_backup_"@ + ts@ + ".zip"@);
    }
    match encode_archive(entries) {
        Ok(bytes) => Ok((name, bytes)),
        Err(e) => Err(e),
    }
}

} // verus!
