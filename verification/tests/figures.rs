use localtex::export::png_export_stem;
use localtex::search::{lowered_contains, text_matches};
use localtex::sysmon::{
    cpu_jiffies_from, cpu_sum_fits_exec, drive_stats_from, fmt_bytes, fmt_used_total,
    mem_fits_exec, mem_info_from, rss_fits_exec, self_rss_from, DiskSnapshot,
};

const GB: u64 = 1024 * 1024 * 1024;
const MB: u64 = 1024 * 1024;

fn float_fmt_bytes(bytes: u64) -> String {
    if bytes >= GB {
        format!("{:.1} GB", bytes as f64 / GB as f64)
    } else if bytes >= MB {
        format!("{:.0} MB", bytes as f64 / MB as f64)
    } else {
        format!("{} KB", bytes / 1024)
    }
}

#[test]
fn fmt_bytes_scales() {
    assert_eq!(fmt_bytes(512), "0 KB");
    assert_eq!(fmt_bytes(3 * 1024), "3 KB");
    assert_eq!(fmt_bytes(244 * 1024 * 1024), "244 MB");
    assert_eq!(fmt_bytes(5 * 1024 * 1024 * 1024 + 536_870_912), "5.5 GB");
}

#[test]
fn fmt_used_total_shares_unit() {
    let gb = 1024 * 1024 * 1024;
    assert_eq!(fmt_used_total(11 * gb + 246_960_742, 60 * gb + 536_870_912), "11.2 / 60.5 GB");
    assert_eq!(fmt_used_total(300 * 1024 * 1024, 512 * 1024 * 1024), "300 MB / 512 MB");
}

#[test]
fn fmt_bytes_agrees_with_float_formatting() {
    let mut values = vec![
        0,
        1023,
        1024,
        MB - 1,
        MB,
        MB + MB / 2,
        2 * MB + MB / 2,
        3 * MB + MB / 2,
        GB - 1,
        GB,
        2 * GB + GB / 4,
        2 * GB + 3 * GB / 4,
        GB + GB / 20,
        (1u64 << 53) - 1,
        1u64 << 53,
        (1u64 << 53) + 1,
        (1u64 << 54) + 3,
        u64::MAX,
        u64::MAX - 1024,
    ];
    let mut x: u64 = 0x9e37_79b9_7f4a_7c15;
    for _ in 0..2000 {
        x ^= x << 13;
        x ^= x >> 7;
        x ^= x << 17;
        values.push(x);
        values.push(x >> 20);
        values.push(x >> 34);
    }
    for v in values {
        assert_eq!(fmt_bytes(v), float_fmt_bytes(v), "bytes {v}");
        let expect = format!("{:.1} / {:.1} GB", v as f64 / GB as f64, (v | GB) as f64 / GB as f64);
        assert_eq!(fmt_used_total(v, v | GB), expect, "used {v}");
    }
}

#[test]
fn app_footprint_adds_the_parts() {
    let d = DiskSnapshot { drive_total: None, drive_free: Some(1), models: 10, snips: 20, binary: 3 };
    assert_eq!(d.app_footprint(), 33);
}

#[test]
fn proc_stat_first_line_gives_total_and_idle() {
    let stat = "cpu  10 20 30 40 50 6 7\ncpu0 1 2 3 4 5\n";
    assert!(cpu_sum_fits_exec(stat));
    assert_eq!(cpu_jiffies_from(stat), Some((163, 90)));
    assert_eq!(cpu_jiffies_from("cpu 1 2 3 4\n"), None);
    assert_eq!(cpu_jiffies_from(""), None);
    assert_eq!(cpu_jiffies_from("cpu 1 x 2 3 4 5"), Some((15, 9)));
    let big = format!("cpu {} 1 1 1 1", u64::MAX);
    assert!(!cpu_sum_fits_exec(&big));
}

#[test]
fn meminfo_gives_total_and_used() {
    let text = "MemTotal:       16000 kB\nMemFree: 1 kB\nMemAvailable:    6000 kB\n";
    assert!(mem_fits_exec(text));
    assert_eq!(mem_info_from(text), (Some(16000 * 1024), Some(10000 * 1024)));
    assert_eq!(mem_info_from("MemTotal: 5 kB\n"), (Some(5120), None));
    assert_eq!(mem_info_from("MemTotal: 1 kB\nMemAvailable: 2 kB"), (Some(1024), Some(0)));
    assert_eq!(mem_info_from(""), (None, None));
    assert!(!mem_fits_exec(&format!("MemTotal: {} kB", u64::MAX)));
}

#[test]
fn statm_and_drive_figures() {
    assert!(rss_fits_exec("100 25 3", 4096));
    assert_eq!(self_rss_from("100 25 3", 4096), Some(25 * 4096));
    assert_eq!(self_rss_from("100 25 3", 16384), Some(25 * 16384));
    assert_eq!(self_rss_from("100 25 3", -1), Some(25 * 4096));
    assert_eq!(self_rss_from("100", 4096), None);
    assert!(!rss_fits_exec(&format!("1 {}", u64::MAX), 4096));
    assert_eq!(drive_stats_from(10, 4, 0), (Some(10), Some(4)));
    assert_eq!(drive_stats_from(10, 4, 512), (Some(5120), Some(2048)));
}

#[test]
fn png_export_stem_empty_falls_back() {
    assert_eq!(png_export_stem(""), "snip");
    assert_eq!(png_export_stem("   "), "snip");
    assert_eq!(png_export_stem("/\\:*?\"<>|"), "snip");
}

#[test]
fn png_export_stem_strips_slashes_and_illegal() {
    assert_eq!(png_export_stem("a/b\\c:d"), "abcd");
    assert_eq!(png_export_stem("hello   world"), "hello world");
    assert_eq!(png_export_stem(" CAPM expected return "), "CAPM expected return");
    assert_eq!(png_export_stem("a\nb"), "ab");
}

#[test]
fn png_export_stem_caps_long_names() {
    let long = "x".repeat(120);
    let stem = png_export_stem(&long);
    assert_eq!(stem.chars().count(), 80);
    assert!(stem.chars().all(|c| c == 'x'));
}

#[test]
fn png_export_stem_trims_after_the_cap() {
    let s = format!("{} tail", "y".repeat(79));
    assert_eq!(png_export_stem(&s), "y".repeat(79));
    assert_eq!(png_export_stem("a\u{3000}\u{3000}b\u{85}c"), "a bc");
}

#[test]
fn text_matches_ignores_case_and_blank_queries() {
    assert!(text_matches("  ", "anything"));
    assert!(text_matches(" Navier ", "the NAVIER–Stokes equations"));
    assert!(!text_matches("euler", "the Navier–Stokes equations"));
    assert!(text_matches("ΣΑ", "σα"));
    assert!(lowered_contains("abc", "bc"));
    assert!(!lowered_contains("abc", "cb"));
}
