use phosphor_fm::entry::{sort_entries, EntryMeta, FileEntry, SortMode};

fn meta(is_dir: bool, permissions: u32, len: u64, modified: Option<(i64, u32)>) -> EntryMeta {
    EntryMeta { is_dir, is_symlink: false, permissions, len, modified, owner_uid: 1000 }
}

fn file(name: &str, len: u64) -> FileEntry {
    FileEntry::from_path(format!("/tmp/d/{}", name), name.to_string(), meta(false, 0o644, len, None))
}

fn dir(name: &str) -> FileEntry {
    FileEntry::from_path(format!("/tmp/d/{}", name), name.to_string(), meta(true, 0o755, 4096, None))
}

fn dated(name: &str, t: Option<(i64, u32)>) -> FileEntry {
    FileEntry::from_path(format!("/tmp/d/{}", name), name.to_string(), meta(false, 0o644, 1, t))
}

fn names(v: &[FileEntry]) -> Vec<String> {
    v.iter().map(|e| e.name.clone()).collect()
}

#[test]
fn from_path_derives_flags() {
    let e = FileEntry::from_path("/x/.run".to_string(), ".run".to_string(), meta(false, 0o750, 77, Some((5, 6))));
    assert!(e.is_hidden);
    assert!(e.is_executable);
    assert_eq!(e.size, 77);
    assert_eq!(e.modified, Some((5, 6)));
    let d = FileEntry::from_path("/x/bin".to_string(), "bin".to_string(), meta(true, 0o755, 4096, None));
    assert!(!d.is_hidden);
    assert!(!d.is_executable);
    assert_eq!(d.size, 0);
    let plain = FileEntry::from_path("/x/a".to_string(), "a".to_string(), meta(false, 0o644, 3, None));
    assert!(!plain.is_executable);
}

#[test]
fn type_indicator_by_kind() {
    let mut link = file("l", 1);
    link.is_symlink = true;
    link.is_dir = true;
    assert_eq!(link.type_indicator(), "~>");
    assert_eq!(dir("d").type_indicator(), " /");
    let exe = FileEntry::from_path("/x/e".to_string(), "e".to_string(), meta(false, 0o100, 1, None));
    assert_eq!(exe.type_indicator(), " *");
    assert_eq!(file("f", 1).type_indicator(), "  ");
}

#[test]
fn format_size_units() {
    assert_eq!(dir("d").format_size(), "<DIR>");
    assert_eq!(file("a", 0).format_size(), "0B");
    assert_eq!(file("a", 1023).format_size(), "1023B");
    assert_eq!(file("a", 1024).format_size(), "1.0K");
    assert_eq!(file("a", 1536).format_size(), "1.5K");
    assert_eq!(file("a", 1048575).format_size(), "1024.0K");
    assert_eq!(file("a", 5 * 1024 * 1024).format_size(), "5.0M");
    assert_eq!(file("a", 3 * 1024 * 1024 * 1024).format_size(), "3.0G");
}

#[test]
fn format_size_rounds_halves_to_even() {
    assert_eq!(file("a", 1280).format_size(), format!("{:.1}K", 1280f64 / 1024.0));
    assert_eq!(file("a", 1280).format_size(), "1.2K");
    assert_eq!(file("a", 1792).format_size(), "1.8K");
    assert_eq!(file("a", 2867).format_size(), format!("{:.1}K", 2867f64 / 1024.0));
}

#[test]
fn format_size_huge_follows_float_conversion() {
    assert_eq!(file("a", u64::MAX).format_size(), "17179869184.0G");
    let v: u64 = (1u64 << 53) + 1;
    assert_eq!(
        file("a", v).format_size(),
        format!("{:.1}G", v as f64 / (1024.0 * 1024.0 * 1024.0))
    );
    let w: u64 = 0x7fff_ffff_ffff_fc00 + 0x1ff;
    assert_eq!(
        file("a", w).format_size(),
        format!("{:.1}G", w as f64 / (1024.0 * 1024.0 * 1024.0))
    );
}

#[test]
fn format_permissions_text() {
    assert_eq!(dir("d").format_permissions(), "drwxr-xr-x");
    assert_eq!(file("f", 1).format_permissions(), "-rw-r--r--");
    let mut link = FileEntry::from_path("/x/l".to_string(), "l".to_string(), meta(false, 0o777, 1, None));
    link.is_symlink = true;
    assert_eq!(link.format_permissions(), "lrwxrwxrwx");
    let odd = FileEntry::from_path("/x/o".to_string(), "o".to_string(), meta(false, 0o4000 | 0o421, 1, None));
    assert_eq!(odd.format_permissions(), "-r---w---x");
}

#[test]
fn format_modified_text() {
    assert_eq!(dated("a", None).format_modified(), "????-??-?? ??:??");
    assert_eq!(dated("a", Some((0, 0))).format_modified(), "1970-01-01 00:00");
    assert_eq!(dated("a", Some((86400 + 3600 + 60 + 59, 999))).format_modified(), "1970-01-02 01:01");
    assert_eq!(dated("a", Some((-5, 0))).format_modified(), "1970-01-01 00:00");
    assert_eq!(dated("a", Some((1_700_000_000, 0))).format_modified(), "2023-11-14 22:13");
    assert_eq!(dated("a", Some((i64::MAX, 0))).format_modified(), "????-??-?? ??:??");
}

#[test]
fn sort_mode_cycle_and_labels() {
    assert_eq!(SortMode::Name.next(), SortMode::Size);
    assert_eq!(SortMode::Size.next(), SortMode::Date);
    assert_eq!(SortMode::Date.next(), SortMode::Type);
    assert_eq!(SortMode::Type.next(), SortMode::Name);
    assert_eq!(SortMode::Name.next().next().next().next(), SortMode::Name);
    assert_eq!(SortMode::Name.label(), "Name");
    assert_eq!(SortMode::Size.label(), "Size");
    assert_eq!(SortMode::Date.label(), "Date");
    assert_eq!(SortMode::Type.label(), "Type");
}

#[test]
fn sort_by_name_directories_first_case_insensitive() {
    let mut v = vec![file("b", 1), file("A", 1), dir("z"), file("c", 1), dir("Y")];
    sort_entries(&mut v, SortMode::Name);
    assert_eq!(names(&v), vec!["Y", "z", "A", "b", "c"]);
}

#[test]
fn sort_is_stable_for_equal_keys() {
    let mut v = vec![file("a", 1), file("B", 2), file("A", 3), file("b", 4)];
    sort_entries(&mut v, SortMode::Name);
    assert_eq!(names(&v), vec!["a", "A", "B", "b"]);
    let mut w = vec![file("x", 5), file("y", 5), file("z", 9)];
    sort_entries(&mut w, SortMode::Size);
    assert_eq!(names(&w), vec!["z", "x", "y"]);
}

#[test]
fn sort_by_size_largest_first() {
    let mut v = vec![file("small", 1), dir("d"), file("big", 100), file("mid", 50)];
    sort_entries(&mut v, SortMode::Size);
    assert_eq!(names(&v), vec!["d", "big", "mid", "small"]);
}

#[test]
fn sort_by_date_newest_first() {
    let mut v = vec![
        dated("old", Some((10, 0))),
        dated("none", None),
        dated("new", Some((20, 0))),
        dated("newer", Some((20, 5))),
        dated("before", Some((-3, 0))),
    ];
    sort_entries(&mut v, SortMode::Date);
    assert_eq!(names(&v), vec!["newer", "new", "old", "none", "before"]);
}

#[test]
fn sort_by_type_extension_then_name() {
    let mut v = vec![file("b.TXT", 1), file("a.rs", 1), file("c.txt", 1), file("noext", 1), file(".bashrc", 1), file("Z.txt", 1)];
    sort_entries(&mut v, SortMode::Type);
    assert_eq!(names(&v), vec![".bashrc", "noext", "a.rs", "Z.txt", "b.TXT", "c.txt"]);
}

#[test]
fn sort_empty_and_single() {
    let mut v: Vec<FileEntry> = Vec::new();
    sort_entries(&mut v, SortMode::Name);
    assert!(v.is_empty());
    let mut w = vec![file("only", 1)];
    sort_entries(&mut w, SortMode::Type);
    assert_eq!(names(&w), vec!["only"]);
}
