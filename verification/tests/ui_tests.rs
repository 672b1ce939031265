use phosphor_fm::app::{App, InputMode};
use phosphor_fm::entry::{EntryMeta, FileEntry};
use phosphor_fm::pane::DirListing;
use phosphor_fm::ui::{
    file_pane_view, info_lines, no_preview_lines, path_cut_fits, preview_target, status_line, str_cut_fits, title_line, truncate_path,
    truncate_str, Tone,
};

fn entry(dir: &str, name: &str, is_dir: bool, len: u64) -> FileEntry {
    FileEntry::from_path(
        format!("{}/{}", dir, name),
        name.to_string(),
        EntryMeta { is_dir, is_symlink: false, permissions: 0o755, len, modified: Some((0, 0)), owner_uid: 7 },
    )
}

fn app() -> App {
    App::new(DirListing {
        path: "/w".to_string(),
        entries: vec![entry("/w", "a.txt", false, 2048), entry("/w", "sub", true, 0)],
    })
}

#[test]
fn truncate_path_keeps_end() {
    assert_eq!(truncate_path("/usr/local/bin", 20), "/usr/local/bin");
    assert_eq!(truncate_path("/usr/local/bin", 10), "...cal/bin");
    assert_eq!(truncate_path("/usr/local/bin", 3), "/usr/local/bin");
    assert_eq!(truncate_path("/usr/local/bin", 4), "...n");
    assert!(path_cut_fits("/usr/local/bin", 10));
    assert!(path_cut_fits("/é", 4));
    assert!(!path_cut_fits("/éé", 4));
}

#[test]
fn truncate_str_keeps_start() {
    assert_eq!(truncate_str("hello", 5), "hello");
    assert_eq!(truncate_str("hello world", 8), "hello...");
    assert_eq!(truncate_str("hello", 3), "hel");
    assert_eq!(truncate_str("hello", 0), "");
    assert!(str_cut_fits("héllo", 6));
    assert!(!str_cut_fits("héllo", 5));
    assert!(!str_cut_fits("héllo", 2));
}

#[test]
fn palette_colours() {
    assert_eq!(Tone::Green.rgb(), (0, 255, 200));
    assert_eq!(Tone::DimGreen.rgb(), (0, 128, 100));
    assert_eq!(Tone::Bg.rgb(), (0, 8, 0));
    assert_eq!(Tone::Alert.rgb(), (255, 80, 80));
}

#[test]
fn title_spans() {
    let t = title_line();
    assert_eq!(t.len(), 3);
    assert_eq!(t[0].text, " PHOSPHOR-FM ");
    assert_eq!(t[0].fg, Some(Tone::Bg));
    assert!(t[0].bold);
}

#[test]
fn status_line_by_mode() {
    let mut a = app();
    let s = status_line(&a);
    assert_eq!(s.len(), 1);
    assert!(s[0].text.starts_with(" j/k:nav"));
    a.set_status("Copied 1 item(s) to /w".to_string());
    let s = status_line(&a);
    assert_eq!(s[0].text, " Copied 1 item(s) to /w");
    assert_eq!(s[0].fg, Some(Tone::Yellow));
    a.input_mode = InputMode::NewDir;
    a.input_buffer = "x".to_string();
    let s = status_line(&a);
    assert_eq!(s.len(), 3);
    assert_eq!(s[0].text, " new directory: ");
    assert_eq!(s[1].text, "x");
    assert_eq!(s[2].text, "\u{2588}");
    a.input_mode = InputMode::ConfirmDelete;
    assert_eq!(status_line(&a)[0].fg, Some(Tone::Alert));
}

#[test]
fn info_lines_describe_current_entry() {
    let mut a = app();
    a.left.selected.insert(1);
    a.progress = Some((1, 2));
    a.left.filter = "t".to_string();
    let (l1, l2) = info_lines(&a);
    assert_eq!(l1[0].text, " /w ");
    assert_eq!(l1[1].text, "| 2 files | 1 selected | Progress: 1/2 | filter: 't'");
    assert_eq!(l2[0].text, " -rwxr-xr-x uid:7 2.0K 1970-01-01 00:00 a.txt");
    a.left.filter = "zzz".to_string();
    let (_, l2) = info_lines(&a);
    assert_eq!(l2[0].text, " ");
}

#[test]
fn file_pane_rows() {
    let mut a = app();
    let v = file_pane_view(&mut a.left, 50, 48, 3, true, "LEFT");
    assert_eq!(v.title, " LEFT \u{2502} /w \u{2502} 2 files \u{2502} sort:Name ");
    assert_eq!(v.border, Tone::Green);
    assert_eq!(v.rows.len(), 3);
    let r0: Vec<String> = v.rows[0].iter().map(|s| s.text.clone()).collect();
    assert_eq!(
        r0,
        vec![
            "  ".to_string(),
            " /".to_string(),
            format!("sub{}", " ".repeat(15)),
            "    <DIR>".to_string(),
            " 1970-01-01 00:00".to_string()
        ]
    );
    assert_eq!(v.rows[0][0].bg, Some(Tone::BgHighlight));
    assert!(v.rows[0][2].bold);
    assert_eq!(v.rows[1][1].text, " *");
    assert_eq!(v.rows[1][1].fg, Some(Tone::Cyan));
    assert_eq!(v.rows[1][3].text, "     2.0K");
    assert_eq!(v.rows[2].len(), 1);
    assert_eq!(v.rows[2][0].text, " ".repeat(48));
    assert_eq!(v.rows[2][0].fg, None);
}

#[test]
fn file_pane_scrolls_and_marks_selection() {
    let mut a = app();
    a.left.cursor = 1;
    a.left.selected.insert(1);
    let v = file_pane_view(&mut a.left, 35, 33, 1, false, "RIGHT");
    assert_eq!(a.left.scroll_offset, 1);
    assert_eq!(v.border, Tone::DimGreen);
    assert_eq!(v.rows.len(), 1);
    assert_eq!(v.rows[0][0].text, "\u{25cf} ");
    assert_eq!(v.rows[0][0].bg, Some(Tone::BgSelected));
    assert_eq!(v.rows[0][2].text, "a.t");
    assert!(!v.rows[0][2].bold);
    assert_eq!(v.title, " RIGHT \u{2502} /w \u{2502} 2 files \u{2502} sort:Name ");
}

#[test]
fn shortened_texts_take_exactly_the_limit() {
    let s = "ümlaut-name.txt";
    for max in 0..s.len() {
        if str_cut_fits(s, max) {
            assert_eq!(truncate_str(s, max).len(), max, "limit {}", max);
        }
    }
    let p = "/home/ü/dir/ü";
    for max in 4..p.len() {
        if path_cut_fits(p, max) {
            assert_eq!(truncate_path(p, max).len(), max, "limit {}", max);
        }
    }
}

#[test]
fn preview_follows_left_pane() {
    let mut a = app();
    assert_eq!(preview_target(&a), Some("/w/sub".to_string()));
    a.left.cursor = 1;
    assert_eq!(preview_target(&a), Some("/w/a.txt".to_string()));
    a.right.cursor = 0;
    a.left.filter = "zzz".to_string();
    assert_eq!(preview_target(&a), None);
    assert_eq!(no_preview_lines(), vec!["No file selected".to_string()]);
}
