use syncmob::util::{
    candidate_name, clamp_str, human_bytes, is_cgnat, is_lan_addr, sanitize_filename,
    truncate_keeping_extension, unique_path, IpAddr, MAX_NAME_LEN,
};

fn v4(a: u8, b: u8, c: u8, d: u8) -> IpAddr {
    IpAddr::V4(u32::from_be_bytes([a, b, c, d]))
}

#[test]
fn traversal_is_stripped() {
    assert_eq!(sanitize_filename("../../etc/passwd"), "passwd");
    assert_eq!(
        sanitize_filename(r"..\..\windows\system32\evil.dll"),
        "evil.dll"
    );
    assert_eq!(sanitize_filename("/absolute/path.txt"), "path.txt");
    assert_eq!(sanitize_filename(".."), "received_file");
    assert_eq!(sanitize_filename("."), "received_file");
    assert_eq!(sanitize_filename(""), "received_file");
}

#[test]
fn ads_and_illegal_chars_are_removed() {
    assert_eq!(sanitize_filename("report.txt:$DATA"), "report.txt$DATA");
    assert_eq!(sanitize_filename("a<b>c|d?e*f.txt"), "abcdef.txt");
    assert_eq!(sanitize_filename("bad\u{0}name.txt"), "badname.txt");
}

#[test]
fn trailing_dots_are_removed() {
    assert_eq!(sanitize_filename("payload.exe."), "payload.exe");
    assert_eq!(sanitize_filename("payload.exe   "), "payload.exe");
}

#[test]
fn reserved_names_are_escaped() {
    assert_eq!(sanitize_filename("CON"), "_CON");
    assert_eq!(sanitize_filename("nul.txt"), "_nul.txt");
    assert_eq!(sanitize_filename("com1.log"), "_com1.log");
}

#[test]
fn long_names_keep_extension() {
    let long = "x".repeat(400) + ".tar.gz";
    let out = sanitize_filename(&long);
    assert!(out.len() <= MAX_NAME_LEN);
    assert!(out.ends_with(".gz"));
}

#[test]
fn lan_filter() {
    assert!(is_lan_addr(v4(192, 168, 1, 5)));
    assert!(is_lan_addr(v4(10, 0, 0, 1)));
    assert!(is_lan_addr(v4(172, 16, 9, 9)));
    assert!(!is_lan_addr(v4(8, 8, 8, 8)));
    assert!(!is_lan_addr(v4(172, 32, 0, 1)));
}

#[test]
fn lan_filter_knows_the_special_ranges() {
    assert!(is_lan_addr(v4(127, 0, 0, 1)));
    assert!(is_lan_addr(v4(169, 254, 3, 4)));
    assert!(is_lan_addr(v4(100, 64, 0, 1)));
    assert!(is_lan_addr(v4(100, 127, 255, 255)));
    assert!(!is_lan_addr(v4(100, 128, 0, 0)));
    assert!(!is_lan_addr(v4(100, 63, 255, 255)));
    assert!(is_cgnat(u32::from_be_bytes([100, 100, 1, 1])));
    assert!(is_lan_addr(IpAddr::V6(1)));
    assert!(is_lan_addr(IpAddr::V6(0xfc00u128 << 112)));
    assert!(is_lan_addr(IpAddr::V6(0xfdffu128 << 112)));
    assert!(is_lan_addr(IpAddr::V6(0xfe80u128 << 112)));
    assert!(is_lan_addr(IpAddr::V6(0xfebfu128 << 112)));
    assert!(!is_lan_addr(IpAddr::V6(0xfec0u128 << 112)));
    assert!(!is_lan_addr(IpAddr::V6(0x2001u128 << 112)));
}

#[test]
fn sanitised_names_are_single_components() {
    for raw in ["a/b\\c", "..", "....", "x:y", "\u{7}bell", "con ", "a\u{202e}b", "ü/ö.txt"] {
        let name = sanitize_filename(raw);
        assert!(!name.is_empty());
        assert!(!name.contains('/') && !name.contains('\\') && !name.contains(':'));
        assert!(name != "." && name != "..");
    }
}

#[test]
fn truncation_counts_bytes() {
    let name = "ж".repeat(200) + ".txt";
    let out = truncate_keeping_extension(&name, 20);
    assert!(out.len() <= 20);
    assert_eq!(out, "ж".repeat(8) + ".txt");
    assert_eq!(truncate_keeping_extension("short.txt", 20), "short.txt");
}

#[test]
fn clamping_flattens_and_marks_the_cut() {
    assert_eq!(clamp_str("abc", 3), "abc");
    assert_eq!(clamp_str("abcd", 3), "abc…");
    assert_eq!(clamp_str("a\r\nb\0c", 10), "a  b c");
    let once = clamp_str("привет, мир", 4);
    assert_eq!(clamp_str(&once, 4), once);
}

#[test]
fn sizes_for_people() {
    assert_eq!(human_bytes(0), "0 B");
    assert_eq!(human_bytes(1023), "1023 B");
    assert_eq!(human_bytes(1024), "1.0 KiB");
    assert_eq!(human_bytes(1536), "1.5 KiB");
    assert_eq!(human_bytes(1024 * 1024 - 1), "1024.0 KiB");
    assert_eq!(human_bytes(1024 * 1024), "1.0 MiB");
    assert_eq!(human_bytes(5 * 1024 * 1024 * 1024), "5.0 GiB");
    assert_eq!(human_bytes(u64::MAX), "16777216.0 TiB");
}

#[test]
fn sizes_agree_with_floating_point() {
    let units = ["B", "KiB", "MiB", "GiB", "TiB"];
    let mut seed: u64 = 0x1234_5678_9abc_def1;
    for round in 0..20_000u32 {
        seed ^= seed << 13;
        seed ^= seed >> 7;
        seed ^= seed << 17;
        let n = if round % 3 == 0 { seed & !0x1f } else { seed } >> (round % 64);
        let mut v = n as f64;
        let mut i = 0;
        while v >= 1024.0 && i < units.len() - 1 {
            v /= 1024.0;
            i += 1;
        }
        let expected = if i == 0 {
            format!("{n} {}", units[0])
        } else {
            format!("{v:.1} {}", units[i])
        };
        assert_eq!(human_bytes(n), expected, "{n}");
    }
    // Ties: a half of the last digit goes to the even neighbour.
    for k in 0..400u64 {
        let n = 1024 + 51 * k + k / 5;
        let v = n as f64 / 1024.0;
        assert_eq!(human_bytes(n), format!("{v:.1} KiB"));
    }
    assert_eq!(human_bytes(1280), format!("{:.1} KiB", 1.25f64));
    assert_eq!(human_bytes(1792), format!("{:.1} KiB", 1.75f64));
}

#[test]
fn free_names_are_tried_in_order() {
    let mut u = unique_path("downloads", "a.txt");
    assert_eq!(u.path(), "downloads/a.txt");
    assert!(!u.settled());
    u.answer(true);
    assert_eq!(u.path(), "downloads/a (1).txt");
    u.answer(true);
    assert_eq!(u.path(), "downloads/a (2).txt");
    u.answer(false);
    assert!(u.settled());
    assert_eq!(u.path(), "downloads/a (2).txt");
    assert_eq!(candidate_name("noext", 3), "noext (3)");
}

#[test]
fn no_name_is_taken_unasked() {
    let mut u = unique_path("downloads", "a.txt");
    for n in 1..20_000u64 {
        u.answer(true);
        assert!(!u.settled());
        assert_eq!(u.path(), format!("downloads/a ({n}).txt"));
    }
    u.answer(false);
    assert!(u.settled());
    assert_eq!(u.path(), "downloads/a (19999).txt");
}

#[test]
fn sanitised_names_fit() {
    for raw in [
        "con.".to_string() + &"x".repeat(300),
        "nul.".to_string() + &"y".repeat(116),
        "nul.".to_string() + &"y".repeat(115),
        "x".repeat(400) + ".tar.gz",
        "ж".repeat(400),
        "a.".to_string() + &"z".repeat(200),
    ] {
        let out = sanitize_filename(&raw);
        assert!(out.len() <= MAX_NAME_LEN, "{out}");
        assert!(!out.is_empty());
    }
    let exact = "nul.".to_string() + &"y".repeat(115);
    assert_eq!(sanitize_filename(&exact), format!("_{exact}"));
    assert!(sanitize_filename(&("con.".to_string() + &"x".repeat(300))).starts_with("_con."));
}

#[test]
fn cut_names_end_in_no_dot_or_space() {
    for raw in [
        "a".repeat(119) + " " + &"b".repeat(50),
        "a".repeat(119) + "." + &"b".repeat(50),
        "a".repeat(100) + &" ".repeat(100) + "b",
        "con.".to_string() + &"x".repeat(114) + " " + &"y".repeat(50),
    ] {
        let out = sanitize_filename(&raw);
        assert!(out.len() <= MAX_NAME_LEN);
        assert!(!out.ends_with('.') && !out.ends_with(' '), "{out:?}");
    }
    assert_eq!(sanitize_filename(&("a".repeat(119) + " " + &"b".repeat(50))), "a".repeat(119));
}

#[test]
fn sanitising_twice_changes_nothing() {
    for raw in [
        "CON".to_string(),
        "_CON".to_string(),
        "CON .txt".to_string(),
        "../../x".to_string(),
        " .a. ".to_string(),
        "a".repeat(119) + " " + &"b".repeat(50),
        "con.".to_string() + &"x".repeat(300),
        "x".repeat(400) + ".tar.gz",
        "a.".to_string() + &"z".repeat(200),
    ] {
        let once = sanitize_filename(&raw);
        assert_eq!(sanitize_filename(&once), once);
    }
}
