use rlm::error::Error;
use rlm::limit::MemoryLimit;
use rlm::util::{build_limit, format_bytes};

#[test]
fn build_limit_reads_every_field() {
    let limit = build_limit(Some("2G"), Some("50%"), Some("100M"), Some("1K")).unwrap();
    assert_eq!(limit.memory.unwrap().bytes(), 2 * 1024 * 1024 * 1024);
    assert_eq!(limit.cpu.unwrap().percent(), 50);
    let io = limit.io.unwrap();
    assert_eq!(io.read_bps, Some(100 * 1024 * 1024));
    assert_eq!(io.write_bps, Some(1024));
}

#[test]
fn build_limit_skips_absent_and_empty_fields() {
    let limit = build_limit(None, Some(""), Some(""), None).unwrap();
    assert!(limit.memory.is_none());
    assert!(limit.cpu.is_none());
    assert!(limit.io.is_none());

    let limit = build_limit(Some(""), None, None, Some("5")).unwrap();
    assert!(limit.memory.is_none());
    let io = limit.io.unwrap();
    assert_eq!(io.read_bps, None);
    assert_eq!(io.write_bps, Some(5));
}

#[test]
fn build_limit_reports_the_first_malformed_field() {
    match build_limit(Some("x"), Some("y"), None, None) {
        Err(Error::InvalidMemory(text)) => assert_eq!(text, "x"),
        other => panic!("unexpected {:?}", other),
    }
    match build_limit(Some("1"), Some("y"), Some("z"), None) {
        Err(Error::InvalidCpu(text)) => assert_eq!(text, "y"),
        other => panic!("unexpected {:?}", other),
    }
    match build_limit(None, None, Some("1"), Some("0")) {
        Err(Error::InvalidMemory(text)) => assert_eq!(text, "value cannot be zero"),
        other => panic!("unexpected {:?}", other),
    }
    match build_limit(None, None, Some(" "), Some("0")) {
        Err(Error::InvalidMemory(text)) => assert_eq!(text, "empty value"),
        other => panic!("unexpected {:?}", other),
    }
}

#[test]
fn format_bytes_picks_the_largest_unit() {
    assert_eq!(format_bytes(0), "0B");
    assert_eq!(format_bytes(512), "512B");
    assert_eq!(format_bytes(1023), "1023B");
    assert_eq!(format_bytes(1024), "1.0K");
    assert_eq!(format_bytes(1536), "1.5K");
    assert_eq!(format_bytes(1024 * 1024 - 1), "1024.0K");
    assert_eq!(format_bytes(1024 * 1024), "1.0M");
    assert_eq!(format_bytes(2 * 1024 * 1024 * 1024), "2.0G");
    assert_eq!(format_bytes(1024u64.pow(4)), "1.0T");
    assert_eq!(format_bytes(u64::MAX), "16777216.0T");
}

#[test]
fn format_bytes_rounds_to_one_decimal_ties_to_even() {
    // 1.25 and 1.75 are ties; 1.35 is not quite one.
    assert_eq!(format_bytes(1280), "1.2K");
    assert_eq!(format_bytes(1792), "1.8K");
    assert_eq!(format_bytes(1100), "1.1K");
    assert_eq!(format_bytes(1075), "1.0K");
    assert_eq!(format_bytes(1076), "1.1K");
    assert_eq!(format_bytes(2047), "2.0K");
    assert_eq!(format_bytes(1024 + 51), "1.0K");
    assert_eq!(format_bytes(1024 + 52), "1.1K");
}

#[test]
fn format_bytes_of_counts_beyond_exact_doubles() {
    assert_eq!(format_bytes(1u64 << 53), "8192.0T");
    assert_eq!(format_bytes((1u64 << 53) + 1), "8192.0T");
    assert_eq!(format_bytes(1u64 << 63), "8388608.0T");
}

#[test]
fn shown_bytes_do_not_read_back() {
    for bytes in [1u64, 500, 1024, 1536, 1 << 20, 1 << 30, 1 << 40, u64::MAX] {
        assert!(MemoryLimit::parse(&format_bytes(bytes)).is_err());
    }
    let parsed = MemoryLimit::parse("1K").unwrap().bytes();
    assert_eq!(format_bytes(parsed), "1.0K");
    assert!(MemoryLimit::parse("1.0K").is_err());
}

fn shown_with_floats(bytes: u64) -> String {
    const KB: u64 = 1024;
    const MB: u64 = KB * 1024;
    const GB: u64 = MB * 1024;
    const TB: u64 = GB * 1024;
    if bytes >= TB {
        format!("{:.1}T", bytes as f64 / TB as f64)
    } else if bytes >= GB {
        format!("{:.1}G", bytes as f64 / GB as f64)
    } else if bytes >= MB {
        format!("{:.1}M", bytes as f64 / MB as f64)
    } else if bytes >= KB {
        format!("{:.1}K", bytes as f64 / KB as f64)
    } else {
        format!("{}B", bytes)
    }
}

#[test]
fn format_bytes_agrees_with_floating_point_division() {
    let mut samples: Vec<u64> = Vec::new();
    for shift in 0..64u32 {
        let p = 1u64 << shift;
        for delta in [0u64, 1, 2, 3, 51, 52, 102, 103, 511, 512, 513, 1023] {
            samples.push(p.wrapping_add(delta));
            samples.push(p.wrapping_sub(delta));
            samples.push(p.wrapping_add(p / 20).wrapping_add(delta));
            samples.push(p.wrapping_add(p / 4).wrapping_sub(delta));
            samples.push(p.wrapping_add(p / 40 * 3).wrapping_add(delta));
        }
    }
    // Ties at the first decimal, small and beyond the exact range of doubles.
    for k in 0..2000u64 {
        samples.push((2 * k + 1) * 256);
        samples.push((2 * k + 1) * (1u64 << 18));
        samples.push((2 * k + 1) * (1u64 << 28));
        samples.push((2 * k + 1) * (1u64 << 38));
        samples.push(((2 * k + 1) * 5).wrapping_mul(1u64 << 38).wrapping_add(1u64 << 62));
        samples.push(((2 * k + 1) * 5).wrapping_mul(1u64 << 38).wrapping_add((1u64 << 62) - 1));
        samples.push(((2 * k + 1) * 5).wrapping_mul(1u64 << 38).wrapping_add((1u64 << 62) + 1));
    }
    let mut x: u64 = 0x9E3779B97F4A7C15;
    for _ in 0..20000 {
        x ^= x << 13;
        x ^= x >> 7;
        x ^= x << 17;
        samples.push(x);
        samples.push(x >> 11);
        samples.push(x >> 23);
        samples.push(x >> 37);
        samples.push(x >> 50);
    }
    samples.push(u64::MAX);
    samples.push(0);
    for bytes in samples {
        assert_eq!(format_bytes(bytes), shown_with_floats(bytes), "for {}", bytes);
    }
}
