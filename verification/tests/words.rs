//! Numbers, times, texts and sets.

use nexterm::number::{parse_i32, parse_u16, push_digits, push_padded, push_spaced};
use nexterm::places::CellSet;
use nexterm::readable::{fmt_clock, fmt_mem_mb, fmt_mtime, fmt_perms, fmt_size, split_disk_size};
use nexterm::text::{contains, is_before, is_white, to_chars, to_string, trim};

#[test]
fn sizes_read_like_rounded_doubles() {
    assert_eq!(fmt_size(0), "0 B");
    assert_eq!(fmt_size(1023), "1023 B");
    assert_eq!(fmt_size(1024), "1.0 K");
    assert_eq!(fmt_size(1280), "1.2 K");
    assert_eq!(fmt_size(1792), "1.8 K");
    assert_eq!(fmt_size(1_048_575), "1024.0 K");
    assert_eq!(fmt_size(1_048_576), "1.0 M");
    assert_eq!(fmt_size(1_073_741_824), "1.0 G");
    let mut n: u64 = 1;
    for _ in 0..20_000 {
        n = n.wrapping_mul(6364136223846793005).wrapping_add(1442695040888963407);
        let v = n >> (n % 60);
        let want = if v >= 1_073_741_824 {
            format!("{:.1} G", v as f64 / 1_073_741_824.0)
        } else if v >= 1_048_576 {
            format!("{:.1} M", v as f64 / 1_048_576.0)
        } else if v >= 1024 {
            format!("{:.1} K", v as f64 / 1024.0)
        } else {
            format!("{} B", v)
        };
        assert_eq!(fmt_size(v), want);
    }
    assert_eq!(fmt_size(u64::MAX), format!("{:.1} G", u64::MAX as f64 / 1_073_741_824.0));
}

#[test]
fn memory_reads_like_rounded_doubles() {
    assert_eq!(fmt_mem_mb(512), "512 MB");
    assert_eq!(fmt_mem_mb(1536), "1.50 GB");
    assert_eq!(fmt_mem_mb(2_097_152), "2.00 TB");
    let mut n: u64 = 7;
    for _ in 0..20_000 {
        n = n.wrapping_mul(6364136223846793005).wrapping_add(1442695040888963407);
        let v = n >> (n % 60);
        let want = if v >= 1_048_576 {
            format!("{:.2} TB", v as f64 / 1_048_576.0)
        } else if v >= 1024 {
            format!("{:.2} GB", v as f64 / 1024.0)
        } else {
            format!("{} MB", v)
        };
        assert_eq!(fmt_mem_mb(v), want);
    }
}

#[test]
fn permissions_are_nine_letters() {
    assert_eq!(fmt_perms(0o755), "rwxr-xr-x");
    assert_eq!(fmt_perms(0o640), "rw-r-----");
    assert_eq!(fmt_perms(0), "---------");
    assert_eq!(fmt_perms(0o100777), "rwxrwxrwx");
}

#[test]
fn dates_follow_the_calendar() {
    assert_eq!(fmt_mtime(0), "-");
    assert_eq!(fmt_mtime(60), "1970-01-01 00:01");
    assert_eq!(fmt_mtime(951_782_400), "2000-02-29 00:00");
    assert_eq!(fmt_mtime(1_709_164_799), "2024-02-28 23:59");
    assert_eq!(fmt_mtime(1_709_164_800), "2024-02-29 00:00");
    assert_eq!(fmt_mtime(1_709_251_200), "2024-03-01 00:00");
    assert_eq!(fmt_mtime(1_735_689_599), "2024-12-31 23:59");
    assert_eq!(fmt_mtime(4_107_542_400), "2100-03-01 00:00");
}

#[test]
fn dates_grow_with_the_seconds() {
    let mut last = fmt_mtime(1);
    for day in 1..2_000u64 {
        let now = fmt_mtime(day * 86_400 + 1);
        assert!(last < now);
        last = now;
    }
}

#[test]
fn clocks_and_disks() {
    assert_eq!(fmt_clock(7, 5, 9), "07:05:09");
    assert_eq!(split_disk_size(" 1.2T "), Ok(("1.2".to_string(), 'T')));
    assert_eq!(split_disk_size("500G"), Ok(("500".to_string(), 'G')));
    assert_eq!(split_disk_size("100M"), Err("100M".to_string()));
    assert_eq!(split_disk_size("  "), Err("".to_string()));
}

#[test]
fn numbers_are_written_and_read() {
    let mut s = String::from("x");
    push_digits(&mut s, 0);
    push_digits(&mut s, u64::MAX);
    assert_eq!(s, format!("x0{}", u64::MAX));
    let mut s = String::new();
    push_padded(&mut s, 7, 3);
    push_spaced(&mut s, 42, 4);
    push_spaced(&mut s, 12345, 4);
    assert_eq!(s, "007  4212345");
    for v in ["0", "+7", "-7", "2147483647", "-2147483648", "2147483648", "", "-", "1x", " 1"] {
        assert_eq!(parse_i32(v.as_bytes()), v.parse::<i32>().ok(), "{v}");
        assert_eq!(parse_u16(v.as_bytes()), v.parse::<u16>().ok(), "{v}");
    }
    for v in ["65535", "65536", "+22", "0022", "99999999999999999999"] {
        assert_eq!(parse_u16(v.as_bytes()), v.parse::<u16>().ok(), "{v}");
    }
}

#[test]
fn whitespace_is_the_standard_one() {
    for u in 0..=0x10ffffu32 {
        if let Some(c) = char::from_u32(u) {
            assert_eq!(is_white(c), c.is_whitespace(), "{u:x}");
        }
    }
}

#[test]
fn trimming_and_order_follow_the_standard() {
    for s in ["", "  ", " a b ", "\u{3000}x\t", "x"] {
        assert_eq!(to_string(&trim(&to_chars(s))), s.trim());
    }
    let words = ["", "a", "ab", "b", "Z", "é", "漢", "😀", "aé"];
    for a in words {
        for b in words {
            assert_eq!(is_before(&to_chars(a), &to_chars(b)), a < b, "{a} {b}");
            assert_eq!(contains(&to_chars(a), &to_chars(b)), a.contains(b), "{a} {b}");
        }
    }
}

#[test]
fn cell_sets_hold_each_cell_once() {
    let s = CellSet::of(&vec![(3, 1), (0, 9), (3, 1), (2, 2)]);
    assert_eq!(s.items, vec![(0, 9), (2, 2), (3, 1)]);
    assert!(s.contains(2, 2) && !s.contains(2, 1));
    let mut t = CellSet::new();
    t.insert(2, 2);
    t.insert(3, 1);
    assert!(!s.same(&t));
    t.insert(0, 9);
    t.insert(0, 9);
    assert!(s.same(&t));
}
