use rlm::config::{user_config_path, user_config_path_in};
use rlm::error::Error;
use rlm::kernel::sanitize_cgroup_name;
use rlm::launch::{
    check_command, launch_group, Supervisor, Watch, EXIT_FAILURE, POLL_INTERVAL_MS,
};

#[test]
fn launch_group_names() {
    assert_eq!(launch_group(1), "run-1");
    assert_eq!(launch_group(4294967295), "run-4294967295");
    assert!(sanitize_cgroup_name(&launch_group(31337)).is_ok());
}

#[test]
fn a_command_needs_a_program() {
    assert!(check_command(&vec!["ls".to_string(), "-l".to_string()]).is_ok());
    match check_command(&Vec::new()) {
        Err(Error::InvalidArgs(text)) => assert_eq!(text, "command is required"),
        other => panic!("unexpected {:?}", other),
    }
}

#[test]
fn the_child_is_signalled_once() {
    let mut s = Supervisor::new();
    let looks = [false, false, true, true, false, true];
    let sent: Vec<bool> = looks.iter().map(|c| s.wants_signal(*c)).collect();
    assert_eq!(sent, vec![false, false, true, false, false, false]);
    assert!(s.signalled);

    let mut quiet = Supervisor::new();
    assert!(!quiet.wants_signal(false));
    assert!(!quiet.signalled);
}

#[test]
fn exit_codes() {
    let s = Supervisor::new();
    assert_eq!(POLL_INTERVAL_MS, 100);
    assert_eq!(s.after_look(None), Watch::Wait(100));
    assert_eq!(s.after_look(Some(Some(0))), Watch::Exit(0));
    assert_eq!(s.after_look(Some(Some(3))), Watch::Exit(3));
    assert_eq!(s.after_look(Some(Some(256))), Watch::Exit(0));
    assert_eq!(s.after_look(Some(Some(257))), Watch::Exit(1));
    assert_eq!(s.after_look(Some(Some(-1))), Watch::Exit(255));
    assert_eq!(s.after_look(Some(Some(i32::MIN))), Watch::Exit(0));
    assert_eq!(s.after_look(Some(Some(i32::MAX))), Watch::Exit(255));
    assert_eq!(s.after_look(Some(None)), Watch::Exit(EXIT_FAILURE));
}

#[test]
fn the_user_configuration_lies_below_the_configuration_directory() {
    assert_eq!(
        user_config_path_in(Some("/home/u/.config".to_string())),
        Some("/home/u/.config/rlm/config.yaml".to_string())
    );
    assert_eq!(user_config_path_in(None), None);
    if let Some(path) = user_config_path() {
        assert!(path.ends_with("/rlm/config.yaml"));
        assert!(path.len() > "/rlm/config.yaml".len());
    }
}
