use rlm::error::Error;
use rlm::limit::{CpuLimit, IoLimit, MemoryLimit};

#[test]
fn parse_memory_units() {
    assert_eq!(MemoryLimit::parse("1024").unwrap().bytes(), 1024);
    assert_eq!(MemoryLimit::parse("1K").unwrap().bytes(), 1024);
    assert_eq!(MemoryLimit::parse("1k").unwrap().bytes(), 1024);
    assert_eq!(MemoryLimit::parse("1M").unwrap().bytes(), 1024 * 1024);
    assert_eq!(MemoryLimit::parse("1m").unwrap().bytes(), 1024 * 1024);
    assert_eq!(
        MemoryLimit::parse("2G").unwrap().bytes(),
        2 * 1024 * 1024 * 1024
    );
    assert_eq!(
        MemoryLimit::parse("1T").unwrap().bytes(),
        1024 * 1024 * 1024 * 1024
    );
}

#[test]
fn parse_memory_with_whitespace() {
    assert_eq!(
        MemoryLimit::parse("  512M  ").unwrap().bytes(),
        512 * 1024 * 1024
    );
}

#[test]
fn parse_memory_errors() {
    assert!(MemoryLimit::parse("").is_err());
    assert!(MemoryLimit::parse("abc").is_err());
    assert!(MemoryLimit::parse("-1G").is_err());
    assert!(MemoryLimit::parse("0M").is_err());
    assert!(MemoryLimit::parse("0").is_err());
}

#[test]
fn parse_memory_overflow() {
    assert!(MemoryLimit::parse("999999999999999999T").is_err());
}

#[test]
fn parse_cpu_percent() {
    assert_eq!(CpuLimit::parse("50%").unwrap().percent(), 50);
    assert_eq!(CpuLimit::parse("150").unwrap().percent(), 150);
    assert_eq!(CpuLimit::parse("  75%  ").unwrap().percent(), 75);
}

#[test]
fn parse_cpu_errors() {
    assert!(CpuLimit::parse("abc").is_err());
    assert!(CpuLimit::parse("-50%").is_err());
}

#[test]
fn io_limit_is_empty() {
    let empty = IoLimit::default();
    assert!(empty.is_empty());

    let with_read = IoLimit {
        read_bps: Some(1000),
        write_bps: None,
    };
    assert!(!with_read.is_empty());

    let with_write = IoLimit {
        read_bps: None,
        write_bps: Some(1000),
    };
    assert!(!with_write.is_empty());
}

#[test]
fn parse_io_bps() {
    assert_eq!(IoLimit::parse_bps("100M").unwrap(), 100 * 1024 * 1024);
    assert_eq!(IoLimit::parse_bps("1G").unwrap(), 1024 * 1024 * 1024);
}

fn memory_error(s: &str) -> String {
    match MemoryLimit::parse(s) {
        Err(Error::InvalidMemory(text)) => text,
        other => panic!("expected a memory error for {:?}, got {:?}", s, other),
    }
}

fn cpu_error(s: &str) -> String {
    match CpuLimit::parse(s) {
        Err(Error::InvalidCpu(text)) => text,
        other => panic!("expected a cpu error for {:?}, got {:?}", s, other),
    }
}

#[test]
fn memory_error_texts() {
    assert_eq!(memory_error(""), "empty value");
    assert_eq!(memory_error("   "), "empty value");
    assert_eq!(memory_error(" abc "), "abc");
    assert_eq!(memory_error("K"), "K");
    assert_eq!(memory_error("1.5G"), "1.5G");
    assert_eq!(memory_error("12B"), "12B");
    assert_eq!(memory_error("0"), "value cannot be zero");
    assert_eq!(memory_error("000T"), "value cannot be zero");
    assert_eq!(memory_error("999999999999999999T"), "value too large (overflow)");
    assert_eq!(memory_error("99999999999999999999"), "99999999999999999999");
}

#[test]
fn memory_limits_of_the_range() {
    assert_eq!(
        MemoryLimit::parse("18446744073709551615").unwrap().bytes(),
        u64::MAX
    );
    assert_eq!(memory_error("18446744073709551616"), "18446744073709551616");
    assert_eq!(
        MemoryLimit::parse("16777215T").unwrap().bytes(),
        16777215u64 * 1024 * 1024 * 1024 * 1024
    );
    assert_eq!(memory_error("16777216T"), "value too large (overflow)");
    assert_eq!(MemoryLimit::parse("007k").unwrap().bytes(), 7 * 1024);
    assert_eq!(MemoryLimit::parse("\t3g\n").unwrap().bytes(), 3 * 1024 * 1024 * 1024);
    assert_eq!(MemoryLimit::parse("5t").unwrap().bytes(), 5 * 1024u64.pow(4));
}

#[test]
fn memory_rejects_signs_and_inner_space() {
    assert!(MemoryLimit::parse("+5").is_err());
    assert!(MemoryLimit::parse("5 K").is_err());
    assert!(MemoryLimit::parse("5KK").is_err());
    assert!(MemoryLimit::parse("٣").is_err());
}

#[test]
fn cpu_range_and_errors() {
    assert_eq!(CpuLimit::parse("1").unwrap().percent(), 1);
    assert_eq!(CpuLimit::parse("10000%").unwrap().percent(), 10000);
    assert_eq!(cpu_error("0"), "value cannot be zero");
    assert_eq!(cpu_error("0%"), "value cannot be zero");
    assert_eq!(cpu_error("10001"), "value too large (max 10000% = 100 cores)");
    assert_eq!(cpu_error("4294967296"), "4294967296");
    assert_eq!(cpu_error(" abc% "), "abc");
    assert_eq!(cpu_error("50%%"), "50%");
    assert_eq!(cpu_error("50 %"), "50 ");
    assert_eq!(cpu_error(""), "");
}

#[test]
fn cpu_round_trips_over_the_whole_range() {
    for p in 1u32..=10000 {
        assert_eq!(CpuLimit::parse(&format!("{}", p)).unwrap().percent(), p);
        assert_eq!(CpuLimit::parse(&format!(" {}% ", p)).unwrap().percent(), p);
    }
}

#[test]
fn bandwidth_errors_are_memory_errors() {
    assert!(matches!(IoLimit::parse_bps("0"), Err(Error::InvalidMemory(_))));
    assert!(matches!(IoLimit::parse_bps("fast"), Err(Error::InvalidMemory(_))));
    assert_eq!(IoLimit::parse_bps(" 7 ").unwrap(), 7);
}
