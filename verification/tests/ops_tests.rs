use phosphor_fm::ops::{
    dir_bytes_fit, dir_preview, dir_summary, file_preview_lines, format_bytes, hex_preview, is_binary,
    is_plain_name, lines_of,
};

#[test]
fn format_bytes_units() {
    assert_eq!(format_bytes(0), "0 B");
    assert_eq!(format_bytes(1023), "1023 B");
    assert_eq!(format_bytes(2048), "2.0 KB");
    assert_eq!(format_bytes(1280), "1.2 KB");
    assert_eq!(format_bytes(3 * 1024 * 1024 + 512 * 1024), "3.5 MB");
    assert_eq!(format_bytes(1024 * 1024 * 1024), "1.0 GB");
}

#[test]
fn dir_summary_lines() {
    let l = dir_summary("/srv", 3, 2, 4096);
    assert_eq!(
        l,
        vec!["Directory: /srv", "", "  Files:       3", "  Directories: 2", "  Total size:  4.0 KB"]
    );
}

#[test]
fn hex_preview_short_data() {
    let l = hex_preview(&[0x41, 0x00, 0x7e, 0x7f]);
    assert_eq!(l.len(), 3);
    assert_eq!(l[0], "Hex dump (first 4 bytes):");
    assert_eq!(l[1], "");
    assert_eq!(l[2], format!("00000000  41 00 7e 7f{}  |A.~.|", " ".repeat(37)));
}

#[test]
fn hex_preview_rows_and_padding() {
    let data: Vec<u8> = (0u8..20).collect();
    let l = hex_preview(&data);
    assert_eq!(l.len(), 4);
    assert_eq!(l[2], "00000000  00 01 02 03 04 05 06 07 08 09 0a 0b 0c 0d 0e 0f  |................|");
    assert_eq!(l[3], format!("00000010  10 11 12 13{}  |....|", " ".repeat(37)));
    let nine: Vec<u8> = vec![0x61; 9];
    let m = hex_preview(&nine);
    assert_eq!(m[2], format!("00000000  {}{}  |aaaaaaaaa|", vec!["61"; 9].join(" "), " ".repeat(21)));
}

#[test]
fn hex_preview_limits_to_256_bytes() {
    let data = vec![0xffu8; 300];
    let l = hex_preview(&data);
    assert_eq!(l[0], "Hex dump (first 256 bytes):");
    assert_eq!(l.len(), 2 + 16 + 1);
    assert_eq!(l[17].get(0..8), Some("000000f0"));
    assert_eq!(l[18], "... (44 more bytes)");
}

#[test]
fn hex_preview_recognises_formats() {
    let mut png = vec![0x89, 0x50, 0x4e, 0x47, 0x0d, 0x0a, 0x1a, 0x0a];
    png.extend_from_slice(&[0, 0, 0, 13, b'I', b'H', b'D', b'R']);
    png.extend_from_slice(&[0, 0, 1, 0, 0, 0, 0, 200]);
    let l = hex_preview(&png);
    assert_eq!(l[0], "Format: PNG image");
    assert_eq!(l[1], "Dimensions: 256x200");
    assert_eq!(l[2], "");
    assert_eq!(l[3], "Hex dump (first 24 bytes):");
    let short_png = vec![0x89, 0x50, 0x4e, 0x47, 0, 0, 0, 0];
    assert_eq!(hex_preview(&short_png)[1], "");
    let gif = b"GIF89a\x40\x01\xf0\x00".to_vec();
    let g = hex_preview(&gif);
    assert_eq!(g[0], "Format: GIF image");
    assert_eq!(g[1], "Dimensions: 320x240");
    let jpeg = vec![0xff, 0xd8, 0xff, 0xe0, 0, 0, 0, 0];
    assert_eq!(hex_preview(&jpeg)[0], "Format: JPEG image");
    let webp = b"RIFF\x00\x00\x00\x00WEBPVP8 ".to_vec();
    assert_eq!(hex_preview(&webp)[0], "Format: WebP image");
    let elf = b"\x7fELF\x02\x01\x01\x00".to_vec();
    let e = hex_preview(&elf);
    assert_eq!(e[0], "Format: ELF binary");
    assert_eq!(e[1], "");
    let short = b"\x7fELF".to_vec();
    assert_eq!(hex_preview(&short)[0], "Hex dump (first 4 bytes):");
}

#[test]
fn binary_detection_threshold() {
    assert!(!is_binary(b"hello\tworld\r\n\x1b[0m"));
    let mut d = vec![b'a'; 90];
    d.extend_from_slice(&[0u8; 10]);
    assert!(!is_binary(&d));
    d.push(0);
    assert!(is_binary(&d));
    assert!(!is_binary(&[]));
}

#[test]
fn lines_like_str_lines() {
    let cases = ["", "a", "a\n", "a\r\nb", "\n\nx", "x\r", "one\ntwo\r\n\r\nthree"];
    for c in cases.iter() {
        let expected: Vec<String> = c.lines().map(|s| s.to_string()).collect();
        assert_eq!(lines_of(c), expected, "case {:?}", c);
    }
}

#[test]
fn file_preview_cases() {
    assert_eq!(file_preview_lines(&Ok(Vec::new()), 5), vec!["(empty file)"]);
    assert_eq!(file_preview_lines(&Err("No such file".to_string()), 5), vec!["Error reading file: No such file"]);
    let text = b"l1\nl2\r\nl3\nl4\n".to_vec();
    assert_eq!(file_preview_lines(&Ok(text.clone()), 10), vec!["l1", "l2", "l3", "l4"]);
    assert_eq!(file_preview_lines(&Ok(text.clone()), 2), vec!["l1", "l2", "... (2 more lines)"]);
    assert_eq!(file_preview_lines(&Ok(text), 4), vec!["l1", "l2", "l3", "l4"]);
    let lossy = vec![b'o', b'k', 0xff, b'!'];
    assert_eq!(file_preview_lines(&Ok(lossy), 3), vec!["ok\u{fffd}!"]);
    let bin = vec![0u8, 1, 2, 3];
    assert_eq!(file_preview_lines(&Ok(bin), 3)[0], "Hex dump (first 4 bytes):");
}

#[test]
fn hex_rows_share_a_width() {
    for n in 1..=16usize {
        let data = vec![0x20u8; n];
        let row = hex_preview(&data)[2].clone();
        let bar = row.find('|').unwrap();
        let expected = if n > 8 { 10 + 47 + 2 } else { 10 + 48 + 2 };
        assert_eq!(bar, expected, "row of {} bytes", n);
    }
}

#[test]
fn dir_preview_counts_files_and_dirs() {
    let items = vec![Some((false, 1000)), Some((true, 4096)), None, Some((false, 2000)), Some((true, 0))];
    assert!(dir_bytes_fit(&items));
    let l = dir_preview("/srv", &items);
    assert_eq!(l, dir_summary("/srv", 2, 2, 3000));
    assert_eq!(l[2], "  Files:       2");
    assert_eq!(l[3], "  Directories: 2");
    assert_eq!(l[4], "  Total size:  2.9 KB");
    assert_eq!(dir_preview("/e", &[]), dir_summary("/e", 0, 0, 0));
}

#[test]
fn dir_bytes_fit_detects_overflow() {
    assert!(dir_bytes_fit(&[Some((false, u64::MAX)), Some((true, 5)), None]));
    assert!(!dir_bytes_fit(&[Some((false, u64::MAX)), Some((false, 1))]));
    assert!(dir_bytes_fit(&[Some((false, u64::MAX)), Some((false, 0))]));
}

#[test]
fn plain_names_stay_in_directory() {
    assert!(is_plain_name("notes.txt"));
    assert!(is_plain_name(".hidden"));
    assert!(is_plain_name("..."));
    assert!(!is_plain_name(""));
    assert!(!is_plain_name("."));
    assert!(!is_plain_name(".."));
    assert!(!is_plain_name("../x"));
    assert!(!is_plain_name("a/b"));
}
