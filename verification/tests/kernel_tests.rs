use rlm::error::{Error, IoFailure, IoKind};
use rlm::kernel::{
    classify, cpu_max_content, io_max_content, memory_max_content, parse_device_numbers,
    parse_members, pid_group, read_first_pid, sanitize_cgroup_name, subtree_control_content,
    virtual_device, GroupKind,
};
use rlm::limit::IoLimit;
use rlm::status::{parse_cpu_quota, parse_io_limits, parse_memory_max};
use rlm::cgroup::parse_uid;

#[test]
fn sanitize_accepts_and_rejects() {
    assert!(sanitize_cgroup_name("../etc").is_err());
    assert!(sanitize_cgroup_name("a/b").is_err());
    assert!(sanitize_cgroup_name("").is_err());
    assert_eq!(sanitize_cgroup_name("pid-1234").unwrap(), "pid-1234");
    assert_eq!(sanitize_cgroup_name("run-99_x").unwrap(), "run-99_x");
}

#[test]
fn sanitize_gives_the_reason() {
    let reason = |name: &str| match sanitize_cgroup_name(name) {
        Err(Error::InvalidArgs(text)) => text,
        other => panic!("unexpected {:?}", other),
    };
    assert_eq!(reason(""), "cgroup name cannot be empty");
    assert_eq!(reason("a/b"), "cgroup name contains invalid characters");
    assert_eq!(reason("a\\b"), "cgroup name contains invalid characters");
    assert_eq!(reason("a..b"), "cgroup name contains invalid characters");
    assert_eq!(reason(".."), "cgroup name contains invalid characters");
    assert_eq!(
        reason("a.b"),
        "cgroup name must contain only alphanumeric characters, dashes, or underscores"
    );
    assert_eq!(
        reason("naïve"),
        "cgroup name must contain only alphanumeric characters, dashes, or underscores"
    );
    assert_eq!(
        reason("a b"),
        "cgroup name must contain only alphanumeric characters, dashes, or underscores"
    );
    assert!(sanitize_cgroup_name("A-Z_a-z_0-9").is_ok());
    assert!(sanitize_cgroup_name("-").is_ok());
}

#[test]
fn group_names_and_kinds() {
    assert_eq!(pid_group(0), "pid-0");
    assert_eq!(pid_group(4294967295), "pid-4294967295");
    assert_eq!(classify("pid-1234"), GroupKind::PidDirect(Some(1234)));
    assert_eq!(classify("pid-"), GroupKind::PidDirect(None));
    assert_eq!(classify("pid-12a"), GroupKind::PidDirect(None));
    assert_eq!(classify("pid-4294967296"), GroupKind::PidDirect(None));
    assert_eq!(classify("run-77"), GroupKind::LaunchDerived);
    assert_eq!(classify("gtk-77-3"), GroupKind::LaunchDerived);
    assert_eq!(classify("unlimit"), GroupKind::Foreign);
    assert_eq!(classify("pid"), GroupKind::Foreign);
    assert_eq!(classify(""), GroupKind::Foreign);
}

#[test]
fn limit_file_contents() {
    assert_eq!(memory_max_content(1), "1");
    assert_eq!(memory_max_content(u64::MAX), "18446744073709551615");
    assert_eq!(cpu_max_content(50), "50000 100000");
    assert_eq!(cpu_max_content(1), "1000 100000");
    assert_eq!(cpu_max_content(10000), "10000000 100000");
    let both = IoLimit {
        read_bps: Some(10),
        write_bps: Some(20),
    };
    assert_eq!(
        io_max_content(&vec![(8, 0), (259, 1)], &both),
        "8:0 rbps=10 wbps=20\n259:1 rbps=10 wbps=20\n"
    );
    let read = IoLimit {
        read_bps: Some(10),
        write_bps: None,
    };
    assert_eq!(io_max_content(&vec![(8, 16)], &read), "8:16 rbps=10\n");
    assert_eq!(io_max_content(&vec![], &both), "");
}

#[test]
fn controllers_are_matched_as_words() {
    assert_eq!(
        subtree_control_content("cpuset cpu io memory hugetlb pids"),
        Some("+memory +cpu +io".to_string())
    );
    assert_eq!(subtree_control_content("memory\n"), Some("+memory".to_string()));
    assert_eq!(subtree_control_content("io cpu"), Some("+cpu +io".to_string()));
    assert_eq!(subtree_control_content("cpuset"), None);
    assert_eq!(subtree_control_content(""), None);
}

#[test]
fn devices() {
    assert!(virtual_device("loop0"));
    assert!(virtual_device("ram15"));
    assert!(virtual_device("dm-3"));
    assert!(virtual_device("nbd0"));
    assert!(virtual_device("zram0"));
    assert!(!virtual_device("sda"));
    assert!(!virtual_device("nvme0n1"));
    assert!(!virtual_device("dm"));
    assert_eq!(parse_device_numbers("8:0\n"), Some((8, 0)));
    assert_eq!(parse_device_numbers("  259:12 "), Some((259, 12)));
    assert_eq!(parse_device_numbers("8"), None);
    assert_eq!(parse_device_numbers("8:"), None);
    assert_eq!(parse_device_numbers(":0"), None);
    assert_eq!(parse_device_numbers("8:0:1"), None);
    assert_eq!(parse_device_numbers("a:b"), None);
}

#[test]
fn membership_files() {
    assert_eq!(parse_members("12\n34\n"), vec![12, 34]);
    assert_eq!(parse_members(" 12 \r\nx\n\n34"), vec![12, 34]);
    assert_eq!(parse_members(""), Vec::<u32>::new());
    assert_eq!(read_first_pid("12\n34\n"), Some(12));
    assert_eq!(read_first_pid("x\n34\n"), None);
    assert_eq!(read_first_pid(""), None);
    assert_eq!(read_first_pid("\n12\n"), None);
}

#[test]
fn memory_ceiling_is_decoded() {
    assert_eq!(parse_memory_max("max\n"), None);
    assert_eq!(parse_memory_max("1048576\n"), Some(1048576));
    assert_eq!(parse_memory_max(""), None);
    assert_eq!(parse_memory_max("12 34"), None);
    assert_eq!(parse_memory_max(&memory_max_content(777)), Some(777));
}

#[test]
fn cpu_quota_is_decoded() {
    assert_eq!(parse_cpu_quota("max 100000\n"), None);
    assert_eq!(parse_cpu_quota("max"), None);
    assert_eq!(parse_cpu_quota("50000 100000\n"), Some(50));
    assert_eq!(parse_cpu_quota("150000\t100000"), Some(150));
    assert_eq!(parse_cpu_quota("1 3"), Some(33));
    assert_eq!(parse_cpu_quota("50000"), None);
    assert_eq!(parse_cpu_quota("50000 0"), None);
    assert_eq!(parse_cpu_quota("a b"), None);
    // The product saturates and the quotient is cut to 32 bits.
    assert_eq!(
        parse_cpu_quota("18446744073709551615 1"),
        Some(u64::MAX as u32)
    );
    assert_eq!(parse_cpu_quota("18446744073709551615 4294967296"), Some(4294967295));
    for percent in [1u32, 50, 100, 9999, 10000] {
        assert_eq!(parse_cpu_quota(&cpu_max_content(percent)), Some(percent));
    }
}

#[test]
fn io_ceilings_are_decoded() {
    assert_eq!(parse_io_limits(""), (None, None));
    assert_eq!(
        parse_io_limits("8:0 rbps=1048576 wbps=max riops=max wiops=max\n"),
        (Some(1048576), None)
    );
    assert_eq!(
        parse_io_limits("8:0 rbps=max wbps=5\n259:0 rbps=7 wbps=9\n"),
        (Some(7), Some(5))
    );
    assert_eq!(parse_io_limits("rbps=1 wbps=2"), (None, Some(2)));
    assert_eq!(parse_io_limits("8:0 rbps=x wbps=2 rbps=3"), (Some(3), Some(2)));
    let both = IoLimit {
        read_bps: Some(10),
        write_bps: Some(20),
    };
    assert_eq!(
        parse_io_limits(&io_max_content(&vec![(8, 0), (8, 16)], &both)),
        (Some(10), Some(20))
    );
}

#[test]
fn uid_line_of_the_status() {
    assert_eq!(
        parse_uid("Name:\tx\nUid:\t1000\t1000\t1000\t1000\nGid:\t5\n"),
        Some("1000".to_string())
    );
    assert_eq!(parse_uid("Uid:\n"), None);
    assert_eq!(parse_uid("Name:\tx\n"), None);
    assert_eq!(parse_uid("Uid: 0 0\nUid: 1 1\n"), Some("0".to_string()));
}

#[test]
fn error_messages() {
    assert_eq!(
        Error::ProcessNotFound(12).message(),
        "process with pid 12 not found (process may have exited)"
    );
    assert_eq!(
        Error::ProcessNameNotFound("foo".to_string()).message(),
        "no process found matching 'foo'\n  hint: check process name with `ps aux | grep foo`"
    );
    assert_eq!(
        Error::Cgroup("x".to_string()).message(),
        "cgroup operation failed: x"
    );
    assert_eq!(
        Error::InvalidMemory("abc".to_string()).message(),
        "invalid memory value: abc\n  hint: use format like '512M', '2G', or '1024' (bytes)"
    );
    assert_eq!(
        Error::InvalidCpu("abc".to_string()).message(),
        "invalid cpu value: abc\n  hint: use percentage like '50%' or '150%' (for 1.5 cores)"
    );
    assert_eq!(
        Error::InvalidArgs("bad".to_string()).message(),
        "invalid arguments: bad"
    );
    assert!(Error::PermissionDenied {
        path: "/p".to_string()
    }
    .message()
    .starts_with("permission denied: /p\n  hint: run as root, or enable cgroup delegation:\n"));
    assert_eq!(
        Error::CgroupsV2NotAvailable("/sys/fs/cgroup".to_string()).message(),
        "cgroups v2 not available at /sys/fs/cgroup\n  hint: ensure your kernel supports cgroups v2 (Linux 4.5+) and it's mounted"
    );
    assert_eq!(Error::Config("c".to_string()).message(), "config error: c");
    assert_eq!(
        Error::Io(IoFailure {
            kind: IoKind::Other,
            message: "boom".to_string()
        })
        .message(),
        "boom"
    );
}
