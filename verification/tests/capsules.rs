use nvim_capsules::CapsuleError;
use nvim_capsules::builder::{build_capsule, capsule_file_name};
use nvim_capsules::clock::{current_timestamp, format_timestamp};
use nvim_capsules::codec::{decode_archive, encode_archive, ArchiveEntry};
use nvim_capsules::displace::{plan_displacement, DisplaceAction};
use nvim_capsules::paths::{entry_path_is_safe, relative_to, str_lex_le};
use nvim_capsules::restore::{plan_extraction, RestoreStep};
use nvim_capsules::store::{list_capsules, name_has_archive_ext, resolve, Capsule};

fn file_entry(name: &str, data: &[u8]) -> ArchiveEntry {
    ArchiveEntry { name: String::from(name), is_dir: false, data: data.to_vec() }
}

fn dir_entry(name: &str) -> ArchiveEntry {
    ArchiveEntry { name: String::from(name), is_dir: true, data: Vec::new() }
}

fn cap(name: &str, mtime: u64) -> Capsule {
    Capsule { name: String::from(name), mtime }
}

#[test]
fn round_trip_small_tree() {
    let entries = vec![
        file_entry("a.txt", b"hi"),
        dir_entry("b"),
        file_entry("b/c.txt", b"bye"),
    ];
    let bytes = encode_archive(&entries).unwrap();
    let back = decode_archive(&bytes).unwrap();
    assert_eq!(back.len(), 3);
    assert_eq!(back[0].name, "a.txt");
    assert!(!back[0].is_dir);
    assert_eq!(back[0].data, b"hi");
    assert_eq!(back[1].name, "b/");
    assert!(back[1].is_dir);
    assert_eq!(back[1].data, b"");
    assert_eq!(back[2].name, "b/c.txt");
    assert!(!back[2].is_dir);
    assert_eq!(back[2].data, b"bye");

    let steps = plan_extraction(&back).unwrap();
    assert_eq!(steps.len(), 3);
    match &steps[0] {
        RestoreStep::WriteFile(p, d) => {
            assert_eq!(p, "a.txt");
            assert_eq!(d, b"hi");
        }
        _ => panic!("expected a file write"),
    }
    match &steps[1] {
        RestoreStep::MakeDir(p) => assert_eq!(p, "b"),
        _ => panic!("expected a directory"),
    }
    match &steps[2] {
        RestoreStep::WriteFile(p, d) => {
            assert_eq!(p, "b/c.txt");
            assert_eq!(d, b"bye");
        }
        _ => panic!("expected a file write"),
    }
}

#[test]
fn round_trip_deeper_tree_with_empty_file() {
    let entries = vec![
        dir_entry("d1"),
        dir_entry("d1/d2"),
        file_entry("d1/d2/deep.bin", &[0u8, 1, 2, 255]),
        file_entry("empty", b""),
    ];
    let bytes = encode_archive(&entries).unwrap();
    let back = decode_archive(&bytes).unwrap();
    assert_eq!(back.len(), 4);
    assert_eq!(back[0].name, "d1/");
    assert!(back[0].is_dir);
    assert_eq!(back[2].name, "d1/d2/deep.bin");
    assert_eq!(back[2].data, vec![0u8, 1, 2, 255]);
    assert_eq!(back[3].name, "empty");
    assert_eq!(back[3].data, b"");
}

#[test]
fn encode_refuses_unsafe_names() {
    let entries = vec![file_entry("../evil", b"x")];
    assert_eq!(encode_archive(&entries).unwrap_err(), CapsuleError::UnsafeEntryPath);
    let entries = vec![file_entry("/abs/path", b"x")];
    assert_eq!(encode_archive(&entries).unwrap_err(), CapsuleError::UnsafeEntryPath);
    let entries = vec![file_entry("a/../b", b"x")];
    assert_eq!(encode_archive(&entries).unwrap_err(), CapsuleError::UnsafeEntryPath);
    let entries = vec![dir_entry("trailing/")];
    assert_eq!(encode_archive(&entries).unwrap_err(), CapsuleError::UnsafeEntryPath);
}

#[test]
fn encode_refuses_duplicate_names() {
    let entries = vec![file_entry("a.txt", b"one"), file_entry("a.txt", b"two")];
    assert_eq!(encode_archive(&entries).unwrap_err(), CapsuleError::ArchiveWrite);
}

#[test]
fn plan_extraction_rejects_escaping_entries() {
    let hostile = vec![file_entry("ok.txt", b"x"), file_entry("../../etc/passwd", b"boom")];
    assert_eq!(plan_extraction(&hostile).unwrap_err(), CapsuleError::UnsafeEntryPath);
    let hostile = vec![file_entry("/etc/passwd", b"boom")];
    assert_eq!(plan_extraction(&hostile).unwrap_err(), CapsuleError::UnsafeEntryPath);
    let hostile = vec![dir_entry("../up/")];
    assert_eq!(plan_extraction(&hostile).unwrap_err(), CapsuleError::UnsafeEntryPath);
}

#[test]
fn decode_rejects_garbage() {
    let garbage: Vec<u8> = vec![1, 2, 3, 4, 5];
    assert_eq!(decode_archive(&garbage).unwrap_err(), CapsuleError::ArchiveRead);
}

#[test]
fn decode_rejects_truncated_archive() {
    let entries = vec![file_entry("a.txt", b"some contents worth packing")];
    let mut bytes = encode_archive(&entries).unwrap();
    bytes.truncate(bytes.len() / 2);
    assert_eq!(decode_archive(&bytes).unwrap_err(), CapsuleError::ArchiveRead);
}

#[test]
fn safe_path_judgements() {
    assert!(entry_path_is_safe("a/b/c.txt"));
    assert!(entry_path_is_safe("..a"));
    assert!(entry_path_is_safe("a..b"));
    assert!(entry_path_is_safe("a.../b"));
    assert!(!entry_path_is_safe(""));
    assert!(!entry_path_is_safe(".."));
    assert!(!entry_path_is_safe("../x"));
    assert!(!entry_path_is_safe("x/.."));
    assert!(!entry_path_is_safe("x/../y"));
    assert!(!entry_path_is_safe("/rooted"));
    assert!(!entry_path_is_safe("back\\slash"));
    assert!(!entry_path_is_safe("C:/windows"));
}

#[test]
fn list_on_empty_store_is_empty() {
    let listing = list_capsules(Vec::new());
    assert!(listing.is_empty());
}

#[test]
fn list_orders_by_mtime_and_filters() {
    let found = vec![
        cap("nvim_backup_20240103000000.zip", 9),
        cap("nvim_backup_20240101000000.zip", 3),
        cap("notes.txt", 1),
        cap("nvim_backup_20240102000000.zip", 5),
    ];
    let listing = list_capsules(found);
    assert_eq!(listing.len(), 3);
    assert_eq!(listing[0].name, "nvim_backup_20240101000000.zip");
    assert_eq!(listing[1].name, "nvim_backup_20240102000000.zip");
    assert_eq!(listing[2].name, "nvim_backup_20240103000000.zip");
}

#[test]
fn list_breaks_mtime_ties_by_name() {
    let found = vec![cap("b.zip", 7), cap("a.zip", 7), cap("c.zip", 7)];
    let listing = list_capsules(found);
    assert_eq!(listing[0].name, "a.zip");
    assert_eq!(listing[1].name, "b.zip");
    assert_eq!(listing[2].name, "c.zip");
}

#[test]
fn capsule_created_later_is_listed_later() {
    let earlier = cap("nvim_backup_a.zip", 100);
    let later = cap("nvim_backup_b.zip", 200);
    let listing = list_capsules(vec![later, earlier]);
    assert_eq!(listing[0].mtime, 100);
    assert_eq!(listing[1].mtime, 200);
}

#[test]
fn resolve_picks_by_index() {
    let found = vec![cap("a.zip", 1), cap("b.zip", 2)];
    let listing = list_capsules(found);
    assert_eq!(resolve(&listing, 0).name, "a.zip");
    assert_eq!(resolve(&listing, 1).name, "b.zip");
}

#[test]
fn archive_extension_judgements() {
    assert!(name_has_archive_ext("a.zip"));
    assert!(name_has_archive_ext("nvim_backup_20240101120000.zip"));
    assert!(name_has_archive_ext("..zip"));
    assert!(!name_has_archive_ext(".zip"));
    assert!(!name_has_archive_ext("zip"));
    assert!(!name_has_archive_ext("a.ZIP"));
    assert!(!name_has_archive_ext("a.tar.gz"));
}

#[test]
fn displacement_by_rename_uses_timestamped_sibling() {
    match plan_displacement("nvim", true, true, "20240101120000") {
        DisplaceAction::Rename(n) => assert_eq!(n, "nvim20240101120000"),
        _ => panic!("expected a rename"),
    }
}

#[test]
fn displacement_by_delete_removes() {
    match plan_displacement("nvim", true, false, "20240101120000") {
        DisplaceAction::Remove => {}
        _ => panic!("expected a removal"),
    }
}

#[test]
fn displacement_of_absent_target_keeps() {
    match plan_displacement("nvim", false, true, "20240101120000") {
        DisplaceAction::Keep => {}
        _ => panic!("expected nothing to happen"),
    }
}

#[test]
fn timestamp_formatting_pads_fields() {
    let ts = format_timestamp(2024, 1, 1, 12, 0, 0);
    assert_eq!(ts, "20240101120000");
    let ts = format_timestamp(987, 12, 31, 23, 59, 58);
    assert_eq!(ts, "09871231235958");
}

#[test]
fn current_timestamp_is_fourteen_digits() {
    let ts = current_timestamp();
    assert_eq!(ts.len(), 14);
    assert!(ts.chars().all(|c| c.is_ascii_digit()));
}

#[test]
fn capsule_names_carry_the_archive_extension() {
    let name = capsule_file_name("20240101120000");
    assert_eq!(name, "nvim_backup_20240101120000.zip");
    assert!(name_has_archive_ext(&name));
}

#[test]
fn build_capsule_names_and_packs() {
    let entries = vec![file_entry("note.txt", b"content")];
    let (name, bytes) = build_capsule(&entries).unwrap();
    assert!(name.starts_with("nvim_backup_"));
    assert!(name.ends_with(".zip"));
    assert_eq!(name.len(), "nvim_backup_".len() + 14 + ".zip".len());
    assert!(name_has_archive_ext(&name));
    let back = decode_archive(&bytes).unwrap();
    assert_eq!(back.len(), 1);
    assert_eq!(back[0].name, "note.txt");
    assert_eq!(back[0].data, b"content");
}

#[test]
fn build_capsule_refuses_unsafe_names() {
    let entries = vec![file_entry("../up", b"x")];
    assert_eq!(build_capsule(&entries).unwrap_err(), CapsuleError::UnsafeEntryPath);
}

#[test]
fn relative_paths_strip_the_root() {
    assert_eq!(relative_to("/home/u", "/home/u/.config/nvim"), Some(".config/nvim"));
    assert_eq!(relative_to("/home/u", "/home/u/a.txt"), Some("a.txt"));
    assert_eq!(relative_to("/home/u", "/home/x/a.txt"), None);
    assert_eq!(relative_to("/home/u", "/home/u"), None);
    assert_eq!(relative_to("/home/u", "/home/u/"), None);
    assert_eq!(relative_to("/home/u", "/home/user/a"), None);
}

#[test]
fn name_order_is_lexicographic() {
    assert!(str_lex_le("a", "b"));
    assert!(str_lex_le("abc", "abd"));
    assert!(str_lex_le("ab", "abc"));
    assert!(str_lex_le("", "a"));
    assert!(str_lex_le("same", "same"));
    assert!(!str_lex_le("b", "a"));
    assert!(!str_lex_le("abc", "ab"));
}
