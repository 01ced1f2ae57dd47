use sky_wayland::apps::{
    application_dirs, check_accessibility_status, check_steam_program, desktop_id,
    gtk_launch_name, installed_apps, is_desktop_app_not_found, is_desktop_file, is_withheld,
    judge_file, parse_desktop_bool, parse_desktop_entry, parse_first_exec_arg, plan_launch,
    program_files, resolve_desktop_app, resolve_from_apps, steam_program, steam_program_missing,
    Candidate, DesktopApp, Discovery, Launch,
};
use sky_wayland::order::{not_after, sort_texts};
use sky_wayland::process::{
    is_session_ancestor, parse_numeric_pid, parse_process_stat_line, process_family,
    process_is_same_or_descendant, processes_related, ProcessStat, ProcessTable,
};

fn app(id: &str, name: &str) -> DesktopApp {
    DesktopApp {
        id: id.to_owned(),
        name: name.to_owned(),
        executable: None,
        hidden: false,
        no_display: false,
    }
}

#[test]
fn parses_only_base_desktop_entry_fields() {
    let parsed = parse_desktop_entry(
        "[Desktop Entry]\nType=Application\nName=Editor\nName[de]=Editor DE\n\
         Exec=\"/opt/My Editor/bin/editor\" %U\nHidden=false\nNoDisplay=true\n\
         DBusActivatable=true\n\n[Other]\nName=Wrong\n",
    )
    .unwrap();

    assert_eq!(parsed.name, "Editor");
    assert_eq!(
        parsed.executable.as_deref(),
        Some("/opt/My Editor/bin/editor")
    );
    assert!(!parsed.hidden);
    assert!(parsed.no_display);
    assert!(parsed.dbus_activatable);
}

/// Takes in a file as it stands below an application directory.
fn offer(found: &mut Discovery, path: &[&str], contents: &str, available: bool) {
    let parts: Vec<String> = path.iter().map(|part| part.to_string()).collect();
    let id = desktop_id(&parts);
    assert!(is_desktop_file(path[path.len() - 1]));
    found.take_file(&id, contents.as_bytes(), available);
    assert!(found.is_claimed(&id));
}

#[test]
fn precedence_and_hidden_entries_mask_lower_roots() {
    let mut found = Discovery::new();
    offer(
        &mut found,
        &["masked.desktop"],
        "[Desktop Entry]\nType=Application\nName=Hidden\nHidden=true\n",
        true,
    );
    offer(
        &mut found,
        &["nested", "tool.desktop"],
        "[Desktop Entry]\nType=Application\nName=Nested\n",
        true,
    );
    offer(
        &mut found,
        &["nested-visible.desktop"],
        "[Desktop Entry]\nType=Application\nName=High\nExec=high\n",
        true,
    );
    offer(
        &mut found,
        &["masked.desktop"],
        "[Desktop Entry]\nType=Application\nName=Must Not Leak\n",
        true,
    );
    offer(
        &mut found,
        &["nested-visible.desktop"],
        "[Desktop Entry]\nType=Application\nName=Low\n",
        true,
    );

    let apps = installed_apps(&found);
    assert_eq!(
        apps.iter().map(|app| app.id.as_str()).collect::<Vec<_>>(),
        vec!["nested-tool.desktop", "nested-visible.desktop"]
    );
    assert_eq!(
        apps.iter()
            .find(|app| app.id == "nested-visible.desktop")
            .unwrap()
            .name,
        "High"
    );
    assert_eq!(resolve_desktop_app("high", &found).unwrap().id, "nested-visible.desktop");
}

#[test]
fn an_entry_whose_program_is_missing_is_not_listed() {
    let text = "[Desktop Entry]\nType=Application\nName=Tool\nTryExec=tool\n";
    let mut found = Discovery::new();
    offer(&mut found, &["tool.desktop"], text, false);
    assert!(installed_apps(&found).is_empty());
    let mut found = Discovery::new();
    offer(&mut found, &["tool.desktop"], text, true);
    assert_eq!(installed_apps(&found).len(), 1);
}

#[test]
fn bytes_that_are_not_text_are_replaced() {
    let mut bytes = b"[Desktop Entry]\nType=Application\nName=A".to_vec();
    bytes.push(0xff);
    match judge_file("a.desktop", &bytes) {
        Candidate::Accept(app) => assert_eq!(app.name, "A\u{fffd}"),
        other => panic!("{other:?}"),
    }
}

#[test]
fn entries_of_other_kinds_are_none() {
    assert!(parse_desktop_entry("[Desktop Entry]\nType=Link\nName=A\n").is_none());
    assert!(parse_desktop_entry("[Desktop Entry]\nType=Application\nName=\n").is_none());
    assert!(parse_desktop_entry("Type=Application\nName=A\n").is_none());
    let crlf = parse_desktop_entry("[Desktop Entry]\r\nType=Application\r\n# x\r\nName = A \r\n");
    assert_eq!(crlf.unwrap().name, "A");
    let base = "[Desktop Entry]\nType=Application\nName=A\n";
    let other = format!("{base}[Other]\nName=B\nHidden=true\n");
    let entry = parse_desktop_entry(&other).unwrap();
    assert_eq!((entry.name.as_str(), entry.hidden), ("A", false));
    assert!(parse_desktop_bool(" TRUE "));
    assert!(!parse_desktop_bool("yes"));
}

#[test]
fn the_program_of_a_command_line_is_unquoted() {
    assert_eq!(parse_first_exec_arg("  run --now").as_deref(), Some("run"));
    assert_eq!(parse_first_exec_arg("'a b' c").as_deref(), Some("a b"));
    assert_eq!(parse_first_exec_arg("a\\ b c").as_deref(), Some("a b"));
    assert_eq!(parse_first_exec_arg("\"a\\\"b\"").as_deref(), Some("a\"b"));
    assert_eq!(parse_first_exec_arg("'a\\b'").as_deref(), Some("a\\b"));
    assert_eq!(parse_first_exec_arg("\"open"), None);
    assert_eq!(parse_first_exec_arg("a\\"), None);
    assert_eq!(parse_first_exec_arg("%U"), None);
    assert_eq!(parse_first_exec_arg("\"\""), None);
    assert_eq!(parse_first_exec_arg("   "), None);
}

#[test]
fn exact_resolution_rejects_ambiguity_and_substrings() {
    let apps = vec![
        app("one.desktop", "Editor"),
        app("two.desktop", "EDITOR"),
        app("terminal.desktop", "Terminal"),
    ];

    assert_eq!(
        resolve_from_apps("terminal", &apps).unwrap().id,
        "terminal.desktop"
    );
    let ambiguity = resolve_from_apps("editor", &apps).unwrap_err().message;
    assert!(ambiguity.contains("one.desktop"));
    assert!(ambiguity.contains("two.desktop"));
    assert!(resolve_from_apps("Term", &apps).is_err());
    assert!(resolve_from_apps(" ", &apps).is_err());
}

#[test]
fn only_a_missing_application_counts_as_not_found() {
    let apps = vec![app("b.desktop", "Same"), app("a.desktop", "same")];
    let missing = resolve_from_apps("Other", &apps).unwrap_err();
    assert!(is_desktop_app_not_found(&missing));
    assert_eq!(missing.message, "no desktop application exactly matches \"Other\"");
    let ambiguous = resolve_from_apps("SAME", &apps).unwrap_err();
    assert!(!is_desktop_app_not_found(&ambiguous));
    assert_eq!(
        ambiguous.message,
        "desktop application name \"SAME\" is ambiguous; matching IDs: a.desktop, b.desktop"
    );
    assert_eq!(
        resolve_from_apps(" ", &apps).unwrap_err().message,
        "desktop application query must not be empty"
    );
}

#[test]
fn names_fold_beyond_ascii() {
    let apps = vec![app("x.desktop", "ÄRGER")];
    assert_eq!(resolve_from_apps("ärger", &apps).unwrap().id, "x.desktop");
}

#[test]
fn steam_rejects_wrapper_executables() {
    let error = check_steam_program(Some("flatpak"), "/usr/bin/flatpak")
        .unwrap_err()
        .message;
    assert!(error.contains("unsupported") || error.contains("not an executable"));
    assert!(check_steam_program(Some("steam"), "/usr/bin/steam").is_ok());
    assert!(check_steam_program(Some("steam-runtime"), "/usr/bin/steam-runtime").is_ok());
    assert!(check_steam_program(None, "/").is_err());
    assert!(steam_program_missing(Some("x")).message.contains("not an executable file"));
    assert_eq!(
        steam_program_missing(None).message,
        "steam.desktop has no safely parseable Exec executable and /usr/bin/steam is not executable"
    );
    assert_eq!(steam_program(Some("steam-runtime")), "steam-runtime");
    assert_eq!(steam_program(None), "/usr/bin/steam");
}

#[test]
fn applications_are_launched_by_their_kind() {
    let mut hidden = app("a.desktop", "A");
    hidden.hidden = true;
    assert_eq!(
        plan_launch(&hidden).unwrap_err().message,
        "hidden desktop application a.desktop cannot be launched"
    );
    let mut steam = app("steam.desktop", "Steam");
    steam.executable = Some(String::new());
    assert!(matches!(plan_launch(&steam), Ok(Launch::Steam(None))));
    assert!(matches!(plan_launch(&app("a.desktop", "A")), Ok(Launch::Desktop)));
    assert_eq!(gtk_launch_name("a.desktop").unwrap(), "a");
    assert_eq!(
        gtk_launch_name("a").unwrap_err().message,
        "desktop ID \"a\" does not end in .desktop"
    );
    assert!(is_withheld("GTK_A11Y", "NONE"));
    assert!(!is_withheld("GTK_A11Y", "atspi"));
    assert!(is_withheld("NO_AT_BRIDGE", "anything"));
    assert!(is_withheld("QT_ACCESSIBILITY", "0"));
    assert!(!is_withheld("QT_ACCESSIBILITY", "1"));
    assert!(!is_withheld("PATH", "0"));
    assert!(check_accessibility_status(true, true).is_ok());
    assert_eq!(
        check_accessibility_status(true, false).unwrap_err().message,
        "AT-SPI status verification failed: ScreenReaderEnabled=true, IsEnabled=false"
    );
}

#[test]
fn parses_stat_with_spaces_and_parentheses_in_comm() {
    let stat = parse_process_stat_line("321 (a tricky) process) S 123 456 789 0 0").unwrap();
    assert_eq!(
        stat,
        ProcessStat {
            ppid: 123,
            session: 789
        }
    );
}

#[test]
fn bad_process_lines_are_refused() {
    let messages: Vec<String> = [
        "1 x S 1 1 1",
        "1 (x) S 1 1",
        "1 (x) S a 1 1",
        "1 (x) S 1 1 99999999999",
    ]
    .iter()
    .map(|line| parse_process_stat_line(line).unwrap_err().message)
    .collect();
    assert_eq!(
        messages,
        vec![
            "process stat has no closing command parenthesis",
            "process stat is missing state, PPid, process group, or session fields",
            "process stat PPid is not an unsigned integer: invalid digit found in string",
            "process stat session is not an unsigned integer: number too large to fit in target type",
        ]
    );
    assert_eq!(parse_numeric_pid("42"), Some(42));
    assert_eq!(parse_numeric_pid("self"), None);
}

fn table(entries: &[(u32, u32, u32)]) -> ProcessTable {
    let mut table = ProcessTable::new();
    for (pid, ppid, session) in entries {
        table.insert(*pid, ProcessStat { ppid: *ppid, session: *session });
    }
    table
}

#[test]
fn relation_graph_requires_directional_ancestry() {
    let parents = table(&[(10, 1, 7), (20, 10, 7), (30, 10, 7), (40, 20, 7)]);
    assert!(process_is_same_or_descendant(&parents, 10, 40));
    assert!(!process_is_same_or_descendant(&parents, 40, 10));
    assert!(!process_is_same_or_descendant(&parents, 20, 30));
    assert!(process_is_same_or_descendant(&parents, 20, 20));
}

#[test]
fn relations_end_at_the_session_and_at_the_system() {
    let t = table(&[(1, 0, 1), (10, 1, 5), (20, 10, 5), (30, 20, 6), (40, 30, 6), (50, 51, 9), (51, 50, 9)]);
    assert!(processes_related(&t, 10, 20));
    assert!(processes_related(&t, 20, 10));
    assert!(!processes_related(&t, 20, 30));
    assert!(is_session_ancestor(&t, 30, 40));
    assert!(!processes_related(&t, 1, 10));
    assert!(!processes_related(&t, 99, 99));
    assert!(is_session_ancestor(&t, 51, 50));
    assert!(!is_session_ancestor(&t, 50, 50));
}

#[test]
fn a_family_reaches_up_within_the_session_and_down_beyond_it() {
    let t = table(&[(10, 1, 5), (20, 10, 5), (30, 20, 6), (40, 30, 6), (60, 10, 5)]);
    let family = process_family(20, ProcessStat { ppid: 10, session: 5 }, t).unwrap();
    let mut members: Vec<u32> = family.into_iter().collect();
    members.sort();
    assert_eq!(members, vec![10, 20, 30, 40]);
    let error = process_family(1, ProcessStat { ppid: 0, session: 0 }, ProcessTable::new());
    assert_eq!(error.unwrap_err().message, "PID 1 is not a user-session process");
    let t = table(&[(0, 20, 5), (10, 0, 5), (20, 10, 5), (30, 20, 5), (31, 0, 5)]);
    let family = process_family(20, ProcessStat { ppid: 10, session: 5 }, t).unwrap();
    let mut members: Vec<u32> = family.into_iter().collect();
    members.sort();
    assert_eq!(members, vec![10, 20, 30]);
    let orphan = process_family(9, ProcessStat { ppid: 8, session: 5 }, ProcessTable::new());
    assert_eq!(orphan.unwrap_err().message, "failed to read parent PID 8");
}

#[test]
fn texts_are_sorted_by_their_characters() {
    let texts: Vec<String> = ["b", "a", "ab", "", "Z"].iter().map(|s| s.to_string()).collect();
    let mut expected = texts.clone();
    expected.sort();
    assert_eq!(sort_texts(&texts), expected);
    assert!(not_after("a", "a"));
    assert!(!not_after("b", "a"));
}

#[test]
fn desktop_files_are_known_by_their_names() {
    assert!(is_desktop_file("a.desktop"));
    assert!(!is_desktop_file(".desktop"));
    assert!(!is_desktop_file("a.desktop.bak"));
    assert!(!is_desktop_file("desktop"));
}

#[test]
fn listed_applications_stand_strictly_in_order() {
    let text = |name: &str| format!("[Desktop Entry]\nType=Application\nName={name}\nExec=a %u\n");
    let mut found = Discovery::new();
    offer(&mut found, &["b.desktop"], &text("B"), true);
    offer(&mut found, &["a.desktop"], &text("A"), true);
    offer(&mut found, &["b.desktop"], &text("C"), true);
    offer(&mut found, &["c.desktop"], &text(""), true);
    let listed: Vec<(String, String)> =
        installed_apps(&found).into_iter().map(|app| (app.id, app.name)).collect();
    assert_eq!(
        listed,
        vec![
            ("a.desktop".to_owned(), "A".to_owned()),
            ("b.desktop".to_owned(), "B".to_owned()),
        ]
    );
}

fn dirs(data_home: Option<&str>, home: Option<&str>, data_dirs: Option<&str>) -> Vec<String> {
    application_dirs(
        data_home.map(|dir| dir.as_bytes()),
        home.map(|dir| dir.as_bytes()),
        data_dirs.map(|dirs| dirs.as_bytes()),
    )
    .into_iter()
    .map(|path| String::from_utf8(path).unwrap())
    .collect()
}

#[test]
fn applications_lie_below_the_data_directories() {
    let usual = ["/usr/local/share/applications", "/usr/share/applications"];
    assert_eq!(
        dirs(None, Some("/home/a"), None),
        ["/home/a/.local/share/applications", usual[0], usual[1]]
    );
    assert_eq!(
        dirs(None, None, Some("")),
        [".local/share/applications", usual[0], usual[1]]
    );
    assert_eq!(
        dirs(Some("/data/"), Some("/home/a"), Some(":/x::/y/:z:")),
        ["/data/applications", "/x/applications", "/y/applications", "z/applications"]
    );
    assert_eq!(dirs(Some(""), Some("/home/a"), Some(":")), ["applications"]);
    assert_eq!(
        application_dirs(Some(&[0xff]), None, Some(b"/\xfe")),
        [b"\xff/applications".to_vec(), b"/\xfe/applications".to_vec()]
    );
}

#[test]
fn other_groups_of_a_file_change_nothing() {
    let base = "[Desktop Entry]\nType=Application\nName=A\nExec=a\n";
    let more = format!(
        "{base}[Desktop Action new]\nName=B\nHidden=true\n\n[X-Other]\nType=Link\nExec=b\n"
    );
    let plain = parse_desktop_entry(base).unwrap();
    let grouped = parse_desktop_entry(&more).unwrap();
    assert_eq!(grouped.name, plain.name);
    assert_eq!(grouped.executable, plain.executable);
    assert_eq!(grouped.hidden, plain.hidden);
}

fn files(program: &str, search: Option<&str>) -> Vec<String> {
    program_files(program.as_bytes(), search.map(|dirs| dirs.as_bytes()))
        .into_iter()
        .map(|path| String::from_utf8(path).unwrap())
        .collect()
}

#[test]
fn a_program_is_searched_by_its_name_alone() {
    let search = Some("/bin:/usr/bin/:");
    for path in ["/bin/a", "/", "./a", "a/b", "a//b", "../a"] {
        assert_eq!(files(path, search), [path]);
        assert_eq!(files(path, None), [path]);
    }
    for name in ["a", "a/", "a/.", "a/./", ".", ".."] {
        let found = [format!("/bin/{name}"), format!("/usr/bin/{name}"), name.to_owned()];
        assert_eq!(files(name, search), found);
    }
    assert_eq!(files("a", None), Vec::<String>::new());
    assert_eq!(files("", Some("/bin")), ["/bin/"]);
}
