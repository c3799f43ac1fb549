use lumin::apps::{App, MacApp};
use lumin::desktop_entry::{
    parse_entry_from_string, parse_exec_key, parse_from_hashmap, parse_string_list, Action,
    DesktopEntry, EntryType, ParseError,
};

#[test]
fn can_parse_entry_from_str() {
    let parsed = parse_entry_from_string(
        "[Desktop Entry]\nType=Application\nCategories=System;TerminalEmulator;",
    )
    .unwrap();
    assert_eq!(parsed.len(), 1);
    let section = parsed.get("Desktop Entry").expect("has the main group");
    assert_eq!(section.len(), 2);
    assert_eq!(section.get("Type").map(|s| s.as_str()), Some("Application"));
    assert_eq!(
        section.get("Categories").map(|s| s.as_str()),
        Some("System;TerminalEmulator;")
    );
}

#[test]
fn can_parse_string_list() {
    let input = Some("t1;t2;t\\;3;");
    let output = parse_string_list(input);
    println!("{output:#?}");
    assert!(output == vec!["t1".to_string(), "t2".to_string(), "t;3".to_string()]);
}

#[test]
fn can_parse_exec_key() {
    assert_eq!(parse_exec_key(r#"\\"#, None, None), "\\".to_string());
    assert_eq!(parse_exec_key(r#"\`"#, None, None), "`".to_string());
    assert_eq!(parse_exec_key(r#"\%"#, None, None), "%".to_string());
    // Test % escaping
    assert_eq!(
        parse_exec_key(r#"%i"#, Some("icontext"), None),
        "--icon icontext".to_string()
    );
    assert_eq!(
        parse_exec_key(r#"%c"#, None, Some("name")),
        "name".to_string()
    );
}

#[test]
fn can_parse_full_app() {
    let test = r#"
[Desktop Entry]
Type=Application
TryExec=execme
Name=Test Name
Exec=alacritty
Icon=Alacritty
Terminal=false
Categories=System;TerminalEmulator;
GenericName=Terminal
Comment=A fast, cross-platform, OpenGL terminal emulator
Actions=New;

[Desktop Action New]
Name=New Terminal
Exec=testaction
    "#;

    let entry = parse_from_hashmap(parse_entry_from_string(test).unwrap()).unwrap();

    assert_eq!(entry.name, "Test Name");
    assert_eq!(entry.entry_type, EntryType::Application);
    assert_eq!(
        entry.categories,
        vec!["System".to_string(), "TerminalEmulator".to_string()]
    );
    assert_eq!(
        entry.action_list[0],
        Action {
            name: "New Terminal".to_string(),
            exec_cmd: Some("testaction".to_string()),
            icon_path: None
        }
    );
}

#[test]
fn can_parse_app_from_desktop_entry() {
    let entry = DesktopEntry {
        name: "anki".to_string(),
        exec_cmd: "/usr/bin/flatpak run --branch=stable net.ankiweb.Anki @@ @@".to_string(),
        working_dir: Some("/".to_string()),
        ..Default::default()
    };
    let app = App {
        name: "anki".to_string(),
        cmd: "/usr/bin/flatpak".to_string(),
        args: ["run", "--branch=stable", "net.ankiweb.Anki", "@@", "@@"]
            .iter()
            .map(|k| k.to_string())
            .collect(),
        working_dir: Some("/".to_string()),
        subname: None,
        icon: None,
    };

    assert_eq!(app, App::from(entry));
}

#[test]
fn missing_required_fields_are_reported() {
    let no_name = "[Desktop Entry]\nType=Application\nExec=run";
    let parsed = parse_entry_from_string(no_name).unwrap();
    assert!(matches!(
        parse_from_hashmap(parsed),
        Err(ParseError::MissingRequiredField)
    ));

    let no_section = "Type=Application";
    let parsed = parse_entry_from_string(no_section).unwrap();
    assert!(matches!(
        parse_from_hashmap(parsed),
        Err(ParseError::DesktopEntryHeaderNotFound)
    ));

    let hidden = "[Desktop Entry]\nType=Application\nName=n\nExec=e\nNoDisplay=true";
    let parsed = parse_entry_from_string(hidden).unwrap();
    assert!(matches!(
        parse_from_hashmap(parsed),
        Err(ParseError::NoDisplayTrue)
    ));

    let odd = "[Desktop Entry]\nType=Fancy\nName=n\nExec=e";
    let parsed = parse_entry_from_string(odd).unwrap();
    assert!(matches!(
        parse_from_hashmap(parsed),
        Err(ParseError::UnknownApplicationType)
    ));
}

#[test]
fn link_entries_require_a_url() {
    let link = "[Desktop Entry]\nType=Link\nName=n\nExec=e";
    let parsed = parse_entry_from_string(link).unwrap();
    assert!(matches!(
        parse_from_hashmap(parsed),
        Err(ParseError::MissingRequiredField)
    ));

    let link = "[Desktop Entry]\nType=Link\nName=n\nExec=e\nURL=https://example.org";
    let entry = parse_from_hashmap(parse_entry_from_string(link).unwrap()).unwrap();
    assert_eq!(entry.url.as_deref(), Some("https://example.org"));
}

#[test]
fn mac_app_names_strip_the_bundle_suffix() {
    let app = MacApp::new_from_path("/Applications/Notes.app".to_string()).unwrap();
    assert_eq!(app.name, "Notes");
    assert_eq!(app.path, "/Applications/Notes.app");
}
