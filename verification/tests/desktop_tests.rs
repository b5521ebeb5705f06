use rlm::desktop::parse_desktop_file;

fn entry(content: &str) -> Option<(String, String, bool)> {
    parse_desktop_file(content).map(|a| (a.name, a.command, a.is_cli))
}

#[test]
fn a_plain_entry() {
    let content = "[Desktop Entry]\nType=Application\nName=Firefox\nExec=firefox %u\nIcon=firefox\n";
    assert_eq!(
        entry(content),
        Some(("Firefox".to_string(), "firefox".to_string(), false))
    );
}

#[test]
fn arguments_quotes_and_field_codes() {
    let content = "[Desktop Entry]\n  Name=My Editor  \nExec=\"/opt/my editor/bin\"   --new-window  %F \"%U\" \"\"  file\n";
    assert_eq!(
        entry(content),
        Some((
            "My Editor".to_string(),
            "/opt/my editor/bin --new-window file".to_string(),
            false
        ))
    );
}

#[test]
fn env_wrappers_are_passed_over() {
    let content = "[Desktop Entry]\nName=App\nExec=env A=1 B=two app --flag=x %U\n";
    assert_eq!(
        entry(content),
        Some(("App".to_string(), "app --flag=x".to_string(), false))
    );
    let only_env = "[Desktop Entry]\nName=App\nExec=env A=1\nExec=real\n";
    assert_eq!(
        entry(only_env),
        Some(("App".to_string(), "real".to_string(), false))
    );
}

#[test]
fn the_first_name_and_command_win() {
    let content = "[Desktop Entry]\nName=One\nName=Two\nExec=one\nExec=two\n";
    assert_eq!(
        entry(content),
        Some(("One".to_string(), "one".to_string(), false))
    );
}

#[test]
fn only_the_entry_section_counts() {
    let content = "Name=Outside\n[Desktop Action new]\nName=Action\nExec=action\n[Desktop Entry]\nName=Inside\nExec=inside\n[Other]\nHidden=true\nType=Link\n";
    assert_eq!(
        entry(content),
        Some(("Inside".to_string(), "inside".to_string(), false))
    );
}

#[test]
fn entries_that_are_not_shown() {
    assert_eq!(entry("[Desktop Entry]\nName=A\nExec=a\nNoDisplay=true\n"), None);
    assert_eq!(entry("[Desktop Entry]\nHidden=true\nName=A\nExec=a\n"), None);
    assert_eq!(entry("[Desktop Entry]\nName=A\nExec=a\nType=Link\n"), None);
    assert_eq!(entry("[Desktop Entry]\nName=A\n"), None);
    assert_eq!(entry("[Desktop Entry]\nExec=a\n"), None);
    assert_eq!(entry("[Desktop Entry]\nName=A\nExec=%U\n"), None);
    assert_eq!(entry(""), None);
    assert_eq!(
        entry("[Desktop Entry]\nName=A\nExec=a\nNoDisplay=false\nType=Application\n"),
        Some(("A".to_string(), "a".to_string(), false))
    );
}
