use rlm::config::{
    builtin_presets, check_config_size, profile_file, Config, Profile, MAX_CONFIG_SIZE,
};
use rlm::error::Error;

fn profile(memory: Option<&str>, cpu: Option<&str>) -> Profile {
    Profile {
        match_exe: Vec::new(),
        memory: memory.map(String::from),
        cpu: cpu.map(String::from),
        io_read: None,
        io_write: None,
    }
}

#[test]
fn presets_are_the_four() {
    let presets = builtin_presets();
    let names: Vec<&str> = presets.iter().map(|p| p.name.as_str()).collect();
    assert_eq!(names, vec!["Light", "Medium", "Heavy", "Browser"]);
    assert_eq!(presets[0].profile.memory.as_deref(), Some("512M"));
    assert_eq!(presets[0].profile.cpu.as_deref(), Some("25%"));
    assert_eq!(presets[1].profile.io_read.as_deref(), Some("50M"));
    assert_eq!(presets[1].profile.io_write.as_deref(), Some("25M"));
    assert_eq!(presets[2].profile.memory.as_deref(), Some("4G"));
    assert_eq!(
        presets[3].profile.match_exe,
        vec!["firefox".to_string(), "chrome".to_string(), "chromium".to_string()]
    );
    for p in &presets {
        assert!(p.profile.to_limit().is_ok());
    }
}

#[test]
fn profile_to_limit() {
    let limit = builtin_presets()[1].profile.to_limit().unwrap();
    assert_eq!(limit.memory.unwrap().bytes(), 2 * 1024 * 1024 * 1024);
    assert_eq!(limit.cpu.unwrap().percent(), 50);
    let io = limit.io.unwrap();
    assert_eq!(io.read_bps, Some(50 * 1024 * 1024));
    assert_eq!(io.write_bps, Some(25 * 1024 * 1024));

    let limit = Profile::default().to_limit().unwrap();
    assert!(limit.memory.is_none() && limit.cpu.is_none() && limit.io.is_none());

    // An empty string is read, and refused.
    match profile(Some(""), None).to_limit() {
        Err(Error::InvalidMemory(text)) => assert_eq!(text, "empty value"),
        other => panic!("unexpected {:?}", other),
    }
    // The bandwidths are read before memory and CPU.
    let mut p = profile(Some("x"), Some("y"));
    p.io_write = Some("z".to_string());
    match p.to_limit() {
        Err(Error::InvalidMemory(text)) => assert_eq!(text, "z"),
        other => panic!("unexpected {:?}", other),
    }
    match profile(Some("1G"), Some("0")).to_limit() {
        Err(Error::InvalidCpu(text)) => assert_eq!(text, "value cannot be zero"),
        other => panic!("unexpected {:?}", other),
    }
}

#[test]
fn user_profiles_override_presets() {
    let mut config = Config::default();
    assert!(config.is_empty());
    assert_eq!(config.get_profile("Light").unwrap().memory.as_deref(), Some("512M"));
    assert!(config.get_profile("Mine").is_none());

    config.insert("Light".to_string(), profile(Some("1M"), None));
    config.insert("Mine".to_string(), profile(Some("2M"), None));
    config.insert("Mine".to_string(), profile(Some("3M"), None));
    assert!(config.contains("Mine"));
    assert!(!config.contains("Heavy"));
    assert_eq!(config.get_profile("Light").unwrap().memory.as_deref(), Some("1M"));
    assert_eq!(config.get_profile("Mine").unwrap().memory.as_deref(), Some("3M"));
    assert_eq!(config.get_profile("Heavy").unwrap().memory.as_deref(), Some("4G"));

    let all = config.all_profiles();
    let got: Vec<(&str, Option<&str>)> = all
        .iter()
        .map(|p| (p.name.as_str(), p.profile.memory.as_deref()))
        .collect();
    assert_eq!(
        got,
        vec![
            ("Light", Some("1M")),
            ("Medium", Some("2G")),
            ("Heavy", Some("4G")),
            ("Browser", Some("4G")),
            ("Mine", Some("3M")),
        ]
    );
}

#[test]
fn layers_override_each_other() {
    let mut system = Config::default();
    system.insert("a".to_string(), profile(Some("1"), None));
    system.insert("b".to_string(), profile(Some("2"), None));
    let mut user = Config::default();
    user.insert("b".to_string(), profile(Some("3"), None));
    user.insert("c".to_string(), profile(Some("4"), None));
    let config = Config::load(vec![system, user]);
    assert_eq!(config.get_profile("a").unwrap().memory.as_deref(), Some("1"));
    assert_eq!(config.get_profile("b").unwrap().memory.as_deref(), Some("3"));
    assert_eq!(config.get_profile("c").unwrap().memory.as_deref(), Some("4"));
    assert!(Config::load(Vec::new()).is_empty());
}

#[test]
fn profile_for_an_executable() {
    let mut config = Config::default();
    assert!(config.find_profile_for_exe("firefox").is_none());
    let mut editors = profile(Some("1G"), None);
    editors.match_exe = vec!["vim".to_string(), "emacs".to_string()];
    let mut all = profile(Some("2G"), None);
    all.match_exe = vec!["emacs".to_string()];
    config.insert("editors".to_string(), editors);
    config.insert("all".to_string(), all);
    assert_eq!(
        config.find_profile_for_exe("emacs").unwrap().memory.as_deref(),
        Some("1G")
    );
    assert_eq!(
        config.find_profile_for_exe("vim").unwrap().memory.as_deref(),
        Some("1G")
    );
    assert!(config.find_profile_for_exe("vi").is_none());
}

#[test]
fn config_files() {
    assert!(check_config_size("/etc/rlm/config.yaml", 0).is_ok());
    assert!(check_config_size("/etc/rlm/config.yaml", MAX_CONFIG_SIZE).is_ok());
    match check_config_size("/etc/rlm/config.yaml", MAX_CONFIG_SIZE + 1) {
        Err(Error::Config(text)) => assert_eq!(
            text,
            "config file /etc/rlm/config.yaml exceeds maximum size of 1MB"
        ),
        other => panic!("unexpected {:?}", other),
    }
    assert!(profile_file("games.yaml"));
    assert!(profile_file("games.yml"));
    assert!(profile_file(".yml"));
    assert!(!profile_file("games.yaml.bak"));
    assert!(!profile_file("yaml"));
    assert!(!profile_file("games.json"));
}
