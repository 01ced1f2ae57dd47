use sky_wayland::apps::DesktopApp;
use sky_wayland::binary64::Real;
use sky_wayland::element::{
    accessibility_warning, check_action, check_extents, check_selection, check_value_taken,
    click_action, describe_state, find_action, find_text_offsets, is_in_picture, plan_selection,
    require_component, require_editable, require_text, selection_call, settle_time,
    validate_finite_point, Selection, SelectionCall,
};
use sky_wayland::engine::{
    canonical_identity, choose_marked_root, choose_root, exact_id_identity, list_apps, normalize_app,
    root_name_matches_window, RootInfo,
};
use sky_wayland::fault::{Fault, FaultKind};
use sky_wayland::kwin::WindowInfo;
use sky_wayland::resolve::{
    begin_resolution, resume_resolution, take_candidate, Answer, Need, Turn, LAUNCH_TIMEOUT_NS,
};
use sky_wayland::session::{Session, Sessions};
use sky_wayland::tree::{
    begin_value, choose_name, contents_asked, escape, format_node_line, resume_value, shown_value,
    tree_is_actionable, truncate, usable_actions, usable_bounds, FocusedElement, NodeDetails,
    NodeLine, TreeWalk, ValueQuery, ValueTurn, MAX_DEPTH, MAX_NODES,
};

fn number(x: f64) -> Real {
    Real { bits: x.to_bits() }
}

fn window(uuid: &str, x: f64, y: f64, width: f64, height: f64) -> WindowInfo {
    WindowInfo {
        uuid: uuid.to_string(),
        caption: "test".to_string(),
        resource_class: "test".to_string(),
        resource_name: "test".to_string(),
        desktop_file: "test.desktop".to_string(),
        pid: 4242,
        x: number(x),
        y: number(y),
        width: number(width),
        height: number(height),
        minimized: false,
        fullscreen: false,
    }
}

#[test]
fn rejects_empty_app_arguments() {
    assert!(normalize_app("").is_err());
    assert!(normalize_app("Unnamed").is_err());
    assert_eq!(canonical_identity("Steam.desktop"), "steam");
    assert_ne!(canonical_identity("ste"), canonical_identity("steam"));
}

#[test]
fn app_names_are_trimmed_and_lowered() {
    assert_eq!(normalize_app("  ÄBC ").unwrap(), "äbc");
    assert_eq!(
        normalize_app(" unNamed ").unwrap_err().message,
        "app must be non-empty and cannot be \"Unnamed\""
    );
    assert_eq!(exact_id_identity("a@{b}"), Some("a"));
    assert_eq!(exact_id_identity("a@b"), None);
}

#[test]
fn descendant_roots_require_exact_window_identity_names() {
    let mut target = window("{a}", 0.0, 0.0, 10.0, 10.0);
    target.caption = "Visual Studio Code".to_owned();
    target.resource_class = "code".to_owned();
    target.resource_name = "code".to_owned();
    target.desktop_file = "code.desktop".to_owned();
    assert!(root_name_matches_window("Code", &target));
    assert!(root_name_matches_window("code.desktop", &target));
    assert!(root_name_matches_window("Visual Studio Code", &target));
    assert!(!root_name_matches_window("terminal-code-launcher", &target));
    assert!(!root_name_matches_window("", &target));
}

#[test]
fn shallow_application_tree_is_not_actionable() {
    let root = NodeLine {
        index: 0,
        depth: 0,
        role: "application".to_string(),
        name: "App".to_string(),
        value: None,
        focused: false,
        editable: false,
        selected: false,
        actions: vec![],
        bounds: None,
    };
    let window = NodeLine {
        index: 1,
        depth: 1,
        role: "frame".to_string(),
        name: "App".to_string(),
        value: None,
        focused: true,
        editable: false,
        selected: false,
        actions: vec![],
        bounds: Some((0, 0, 800, 600)),
    };
    assert!(!tree_is_actionable(&vec![root, window]));
}

#[test]
fn rejects_non_finite_coordinates() {
    assert!(validate_finite_point(number(f64::NAN), number(0.0)).is_err());
    assert!(validate_finite_point(number(0.0), number(f64::INFINITY)).is_err());
}

#[test]
fn finds_unicode_character_offsets() {
    assert_eq!(
        find_text_offsets("α hello β hello γ", "hello", Some("β "), Some(" γ")),
        Some((10, 15))
    );
}

#[test]
fn text_is_found_as_matches_do_not_overlap() {
    assert_eq!(find_text_offsets("aaab", "aa", None, None), Some((0, 2)));
    assert_eq!(find_text_offsets("aaab", "aa", None, Some("b")), None);
    assert_eq!(find_text_offsets("abc", "", None, None), None);
    assert_eq!(find_text_offsets("abc", "c", Some("ab"), Some("")), Some((2, 3)));
    assert_eq!(
        plan_selection("abc", "b", None, None, None, 3).unwrap(),
        Selection::Span(1, 2)
    );
    assert_eq!(
        plan_selection("abc", "b", None, None, Some("cursor_before"), 3).unwrap(),
        Selection::Caret(1)
    );
    assert_eq!(
        plan_selection("abc", "b", None, None, Some("cursor_after"), 3).unwrap(),
        Selection::Caret(2)
    );
    assert_eq!(
        plan_selection("abc", "b", None, None, Some("all"), 3).unwrap_err().message,
        "invalid selection_type \"all\"; expected text, cursor_before, or cursor_after"
    );
    assert_eq!(
        plan_selection("abc", "x", None, None, None, 3).unwrap_err().message,
        "text \"x\" not found in element 3"
    );
    assert_eq!(
        check_selection(Selection::Span(1, 2), false).unwrap_err().message,
        "AT-SPI Text rejected the requested selection"
    );
    assert_eq!(
        check_selection(Selection::Caret(1), false).unwrap_err().message,
        "AT-SPI Text rejected the requested caret position"
    );
    let span = Selection::Span(1, 2);
    assert_eq!(selection_call(span, Some(1)), SelectionCall::Replace(1, 2));
    assert_eq!(selection_call(span, Some(0)), SelectionCall::Insert(1, 2));
    assert_eq!(selection_call(span, Some(-1)), SelectionCall::Insert(1, 2));
    assert_eq!(selection_call(span, None), SelectionCall::Insert(1, 2));
    assert_eq!(
        selection_call(Selection::Caret(3), Some(1)),
        SelectionCall::Caret(3)
    );
}

#[test]
fn actions_are_found_by_name() {
    let names = vec!["Focus".to_owned(), "PRESS".to_owned(), "click".to_owned()];
    assert_eq!(find_action(&names, "press", 1).unwrap(), 1);
    assert_eq!(
        find_action(&names, "jump", 4).unwrap_err().message,
        "action \"jump\" is not exposed by element 4"
    );
    assert_eq!(click_action(&names).as_deref(), Some("PRESS"));
    assert_eq!(click_action(&vec!["Focus".to_owned()]), None);
    assert_eq!(
        check_action("jump", false).unwrap_err().message,
        "AT-SPI action \"jump\" reported failure"
    );
    assert_eq!(
        require_component(2, false).unwrap_err().message,
        "element 2 has no screen bounds"
    );
    assert_eq!(
        require_editable(2, false).unwrap_err().message,
        "element 2 does not implement AT-SPI EditableText"
    );
    assert_eq!(
        require_text(2, false).unwrap_err().message,
        "element 2 does not implement AT-SPI Text"
    );
    assert_eq!(
        check_value_taken(false).unwrap_err().message,
        "AT-SPI EditableText rejected the new value"
    );
    assert!(check_extents(2, -5, 0, 1, 1).is_ok());
    assert_eq!(
        check_extents(2, -5, 0, 0, 1).unwrap_err().message,
        "element 2 has invalid screen bounds (-5,0,0,1)"
    );
}

#[test]
fn pictures_are_half_open() {
    assert!(is_in_picture(number(0.0), number(0.0), 10, 5));
    assert!(is_in_picture(number(9.999), number(4.5), 10, 5));
    assert!(!is_in_picture(number(10.0), number(0.0), 10, 5));
    assert!(!is_in_picture(number(0.0), number(-0.001), 10, 5));
}

#[test]
fn settling_is_bounded() {
    assert_eq!(settle_time(None).unwrap(), 200);
    assert_eq!(settle_time(Some(2_000)).unwrap(), 2_000);
    assert_eq!(
        settle_time(Some(2_001)).unwrap_err().message,
        "settle_ms must be at most 2000"
    );
}

fn line(index: i64, depth: usize) -> NodeLine {
    NodeLine {
        index,
        depth,
        role: "entry".to_owned(),
        name: "a\"b\\\n".to_owned(),
        value: Some("v".to_owned()),
        focused: true,
        editable: true,
        selected: true,
        actions: vec!["click".to_owned(), "jump".to_owned()],
        bounds: Some((-1, 2, 3, 4)),
    }
}

#[test]
fn nodes_are_shown_on_one_line() {
    assert_eq!(
        format_node_line(&line(7, 2)),
        "    [7] entry \"a\\\"b\\\\\\n\" value:\"v\" *focused* [editable] *selected* \
         actions:[click,jump] @(-1,2,3×4)"
    );
    assert_eq!(escape("\\\"\n\r"), "\\\\\\\"\\n\\r");
    assert_ne!(escape("\n"), escape("\\n"));
    assert_eq!(truncate("abcd", 3), "abc…");
    assert_eq!(truncate("äöü", 3), "äöü");
    assert_eq!(shown_value(""), None);
    assert_eq!(shown_value(&"x".repeat(201)).unwrap().chars().count(), 201);
    assert_eq!(usable_bounds((0, 0, 1, 0)), None);
    assert_eq!(usable_bounds((0, 0, 1, 1)), Some((0, 0, 1, 1)));
    assert_eq!(
        usable_actions(&vec![" ".to_owned(), "a".to_owned(), String::new()]),
        vec!["a"]
    );
    assert_eq!(
        choose_name(" ".to_owned(), "d".to_owned(), false, false).as_deref(),
        Some("d")
    );
    assert_eq!(choose_name("n".to_owned(), "d".to_owned(), true, true), None);
    assert_eq!(choose_name(String::new(), String::new(), false, false), None);
    assert!(tree_is_actionable(&vec![line(0, 0)]));
}

fn details(name: &str, focused: bool) -> NodeDetails {
    NodeDetails {
        role: "item".to_owned(),
        name: name.to_owned(),
        value: None,
        focused,
        editable: false,
        selected: false,
        actions: vec![],
        bounds: None,
    }
}

#[test]
fn a_tree_is_walked_in_document_order() {
    let mut walk = TreeWalk::new(1);
    while let Some((object, depth)) = walk.next() {
        let children = match object {
            1 => vec![Some(2), None, Some(3)],
            2 => vec![Some(4)],
            _ => vec![],
        };
        walk.expand(depth, children);
        if object != 2 {
            walk.record(object, depth, details(&format!("n{object}"), object >= 3));
        }
    }
    let tree = walk.finish();
    assert_eq!(tree.objects, vec![1, 4, 3]);
    assert_eq!(
        tree.text,
        "[0] item \"n1\"\n    [1] item \"n4\" *focused*\n  [2] item \"n3\" *focused*"
    );
    assert!(!tree.actionable);
    let focused = tree.focused.unwrap();
    assert_eq!((focused.index, focused.name.as_str()), (1, "n4"));
}

#[test]
fn a_tree_is_cut_at_its_limits() {
    let mut walk = TreeWalk::new(0);
    let mut visited = 0;
    while let Some((object, depth)) = walk.next() {
        visited += 1;
        walk.expand(depth, vec![Some(object + 1)]);
    }
    assert_eq!(visited, 41);
    assert_eq!(walk.finish().text, "[accessibility tree truncated]");
    let mut wide = TreeWalk::new(0);
    let mut visited = 0;
    while let Some((object, depth)) = wide.next() {
        visited += 1;
        if object == 0 {
            wide.expand(depth, (1..2_000).map(Some).collect());
            wide.record(object, depth, details("r", false));
        }
    }
    assert_eq!(visited, MAX_NODES);
    assert_eq!(
        wide.finish().text,
        "[0] item \"r\"\n[accessibility tree truncated]"
    );
}

fn visits(root: usize, children: &dyn Fn(usize) -> Vec<Option<usize>>) -> (usize, String) {
    let mut walk = TreeWalk::new(root);
    let mut visited = 0;
    while let Some((object, depth)) = walk.next() {
        visited += 1;
        let listed = if object == 0 {
            Some(details("r", false))
        } else {
            None
        };
        walk.note(object, depth, children(object), listed);
    }
    (visited, walk.finish().text)
}

#[test]
fn a_walk_is_truncated_where_a_limit_is_passed() {
    let whole = "[0] item \"r\"".to_owned();
    let cut = "[0] item \"r\"\n[accessibility tree truncated]".to_owned();
    let wide = |count: usize| {
        move |object: usize| -> Vec<Option<usize>> {
            if object == 0 {
                (1..count).map(Some).collect()
            } else {
                vec![None]
            }
        }
    };
    assert_eq!(visits(0, &wide(MAX_NODES)), (MAX_NODES, whole.clone()));
    assert_eq!(visits(0, &wide(MAX_NODES + 1)), (MAX_NODES, cut.clone()));
    let deep = |last: usize| {
        move |object: usize| -> Vec<Option<usize>> {
            if object < last {
                vec![Some(object + 1)]
            } else {
                vec![]
            }
        }
    };
    assert_eq!(visits(0, &deep(MAX_DEPTH)), (MAX_DEPTH + 1, whole));
    assert_eq!(visits(0, &deep(MAX_DEPTH + 1)), (MAX_DEPTH + 1, cut));
}

fn shown(
    interfaces: (bool, bool),
    text: Option<&str>,
    number: Option<&str>,
    contents: Option<&str>,
) -> (Vec<ValueQuery>, Option<String>) {
    let mut asked = Vec::new();
    let mut turn = begin_value(interfaces.0, interfaces.1);
    loop {
        turn = match turn {
            ValueTurn::Ask(query) => {
                asked.push(query);
                let reply = match query {
                    ValueQuery::Text => text,
                    ValueQuery::Number => number,
                    ValueQuery::Contents => contents,
                };
                resume_value(query, reply.map(|reply| reply.to_owned()))
            }
            ValueTurn::Done(shown) => return (asked, shown),
        };
    }
}

#[test]
fn a_value_is_its_text_or_number_and_else_the_contents() {
    let some = |value: &str| Some(value.to_owned());
    assert_eq!(
        shown((true, true), Some("a"), Some("1"), Some("c")),
        (vec![ValueQuery::Text], some("a"))
    );
    let both = vec![ValueQuery::Text, ValueQuery::Number];
    assert_eq!(
        shown((true, true), Some(""), Some("0.5"), Some("c")),
        (both.clone(), some("0.5"))
    );
    assert_eq!(
        shown((true, false), None, Some("1"), None),
        (both.clone(), some("1"))
    );
    assert_eq!(shown((true, true), None, None, Some("c")), (both, None));
    let contents = vec![ValueQuery::Contents];
    assert_eq!(
        shown((false, true), Some("a"), Some("1"), Some("c")),
        (contents.clone(), some("c"))
    );
    assert_eq!(
        shown((false, true), None, None, Some("")),
        (contents.clone(), None)
    );
    assert_eq!(shown((false, true), None, None, None), (contents, None));
    assert_eq!(
        shown((false, false), Some("a"), Some("1"), Some("c")),
        (vec![], None)
    );
    let long = "x".repeat(201);
    let cut = some(&format!("{}…", "x".repeat(200)));
    assert_eq!(shown((true, false), Some(&long), None, None).1, cut);
    assert_eq!(shown((false, true), None, None, Some(&long)).1, cut);
    assert_eq!(
        shown((true, false), None, Some(&long), None).1,
        Some(long.clone())
    );
    assert_eq!(
        [-1, 0, 200, 201, i32::MAX].map(contents_asked),
        [-1, 0, 200, 201, 201]
    );
}

#[test]
fn the_state_is_headed_by_warning_and_focus() {
    let focused = Some(FocusedElement {
        index: 2,
        role: "entry".to_owned(),
        name: "a\"".to_owned(),
    });
    let warning = accessibility_warning("x", false);
    assert!(accessibility_warning("x", true).is_none());
    assert_eq!(
        describe_state("tree", &focused, &None),
        "focus: [2] entry \"a\\\"\"\ntree"
    );
    assert_eq!(
        describe_state("tree", &None, &warning),
        "accessibility-warning: PID-correlated AT-SPI tree for \"x\" has no bounded or interactive \
         controls; fully quit and relaunch this Electron app with accessibility enabled \
         (ACCESSIBILITY_ENABLED=1). Screenshot-relative coordinate actions remain \
         available.\nfocus: none reported\ntree"
    );
}

#[test]
fn apps_are_listed_by_identifier() {
    let mut unnamed = window("{u}", 0.0, 0.0, 1.0, 1.0);
    unnamed.desktop_file = " Unnamed ".to_owned();
    let mut quiet = window("{q}", 0.0, 0.0, 1.0, 1.0);
    quiet.caption = " ".to_owned();
    quiet.desktop_file = "Alpha.desktop".to_owned();
    let listed = list_apps(&vec![window("{t}", 0.0, 0.0, 1.0, 1.0), unnamed, quiet]);
    let shown: Vec<(String, Option<String>)> =
        listed.into_iter().map(|app| (app.id, app.display_name)).collect();
    assert_eq!(
        shown,
        vec![
            ("alpha@{q}".to_owned(), Some("Alpha.desktop".to_owned())),
            ("test@{t}".to_owned(), Some("test".to_owned())),
        ]
    );
}

fn root(name: &str, pid: u32, descendant: bool) -> RootInfo {
    RootInfo { name: name.to_owned(), pid, descendant }
}

#[test]
fn one_correlated_root_is_chosen() {
    let mut target = window("{a}", 0.0, 0.0, 1.0, 1.0);
    target.pid = 10;
    let roots = vec![
        root("other", 11, true),
        root("Test", 12, true),
        root("test", 13, false),
        root(" ", 10, false),
    ];
    assert_eq!(choose_root(&roots, &target).unwrap(), 1);
    assert_eq!(
        choose_root(&vec![root("x", 5, false)], &target).unwrap_err().message,
        "window {a} (PID 10, identity \"test.desktop\") has no strictly correlated AT-SPI root (no \
         related or identity-matching roots); the already-running app must be fully restarted with \
         accessibility enabled"
    );
    assert_eq!(
        choose_root(&vec![root("x", 10, false), root("test", 12, true)], &target)
            .unwrap_err()
            .message,
        "window {a} (PID 10) has ambiguous strictly correlated AT-SPI roots: \"x\" (PID 10), \
         \"test\" (PID 12); evidence: \"x\" (PID 10, exact_pid=true, descendant=false, \
         name_match=false); \"test\" (PID 12, exact_pid=false, descendant=true, name_match=true)"
    );
}

#[test]
fn sessions_are_kept_per_app_and_checked() {
    let mut sessions: Sessions<u32, ()> = Sessions::new();
    let place = window("{a}", 0.0, 0.0, 1.0, 1.0);
    assert_eq!(
        sessions.session("App").map(|_| ()).unwrap_err().message,
        "no screenshot session for \"App\"; call get_app_state first"
    );
    sessions.insert("app".to_owned(), Session::new(place.clone(), (), vec![7, 8]));
    sessions.insert("other".to_owned(), Session::new(place.clone(), (), vec![]));
    let session = sessions.session(" APP ").unwrap();
    assert_eq!(*session.object("App", 1).unwrap(), 8);
    assert_eq!(
        session.object("App", 2).unwrap_err().message,
        "unknown element_index 2 for \"App\"; call get_app_state again"
    );
    assert!(session.object("App", -1).is_err());
    assert!(session.confirm(&place, true).is_ok());
    assert_eq!(
        session.confirm(&place, false).unwrap_err().message,
        "app window identity or geometry changed; call get_app_state again"
    );
    let mut renamed = place.clone();
    renamed.desktop_file = "other".to_owned();
    assert!(session.confirm(&renamed, true).is_err());
    assert_eq!(
        session
            .confirm(&window("{b}", 0.0, 0.0, 1.0, 1.0), true)
            .unwrap_err()
            .message,
        "stale app session: screenshot window UUID {a} changed to {b}; call get_app_state again"
    );
    sessions.insert("app".to_owned(), Session::new(place, (), vec![9]));
    assert_eq!(*sessions.session("app").unwrap().object("app", 0).unwrap(), 9);
}

fn desktop(id: &str) -> DesktopApp {
    DesktopApp {
        id: id.to_owned(),
        name: "Test".to_owned(),
        executable: None,
        hidden: false,
        no_display: false,
    }
}

fn missing(kind: FaultKind) -> Fault {
    Fault { kind, message: "missing".to_owned() }
}

#[test]
fn a_running_window_is_activated() {
    let Turn::Ask(Need::App(app), way) = begin_resolution("Test") else {
        panic!("no application was asked for");
    };
    assert_eq!(app, "Test");
    let turn = resume_resolution(way, Answer::App(Ok(desktop("test.desktop"))), 0);
    let Turn::Ask(Need::Window(lookup), way) = turn else {
        panic!("no window was asked for");
    };
    assert_eq!(lookup, "test.desktop");
    let found = window("{a}", 0.0, 0.0, 1.0, 1.0);
    let Turn::Ask(Need::Activate(target), way) =
        resume_resolution(way, Answer::Window(Ok(found)), 0)
    else {
        panic!("the window was not activated");
    };
    assert_eq!(target.uuid, "{a}");
    match resume_resolution(way, Answer::Done(Ok(())), 0) {
        Turn::Done(Ok(window)) => assert_eq!(window.uuid, "{a}"),
        _ => panic!("the resolution did not end"),
    }
}

#[test]
fn another_window_is_refused() {
    let Turn::Ask(_, way) = begin_resolution("other") else {
        panic!("nothing was asked for");
    };
    let answer = Answer::App(Err(missing(FaultKind::DesktopAppNotFound)));
    let Turn::Ask(Need::Window(lookup), way) = resume_resolution(way, answer, 0) else {
        panic!("no window was asked for");
    };
    assert_eq!(lookup, "other");
    let found = window("{a}", 0.0, 0.0, 1.0, 1.0);
    match resume_resolution(way, Answer::Window(Ok(found)), 0) {
        Turn::Done(Err(fault)) => assert_eq!(
            fault.message,
            "KWin resolved \"other\" to non-exact window identity \"test.desktop\"; use an exact \
             app ID from list_apps"
        ),
        _ => panic!("another window was taken"),
    }
    match begin_resolution(" ") {
        Turn::Done(Err(fault)) => {
            assert_eq!(fault.message, "app must be non-empty and cannot be \"Unnamed\"")
        }
        _ => panic!("an empty name was taken"),
    }
}

#[test]
fn a_missing_window_is_launched_and_awaited() {
    let Turn::Ask(_, way) = begin_resolution("test") else {
        panic!("nothing was asked for");
    };
    let Turn::Ask(_, way) = resume_resolution(way, Answer::App(Ok(desktop("test.desktop"))), 0)
    else {
        panic!("no window was asked for");
    };
    let absent = || Answer::Window(Err(missing(FaultKind::WindowNotFound)));
    let Turn::Ask(Need::Launch(app), way) = resume_resolution(way, absent(), 0) else {
        panic!("nothing was launched");
    };
    assert_eq!(app.id, "test.desktop");
    let Turn::Ask(Need::Window(_), way) = resume_resolution(way, Answer::Done(Ok(())), 5) else {
        panic!("the window was not looked for");
    };
    let Turn::Ask(Need::Pause(250), way) = resume_resolution(way, absent(), 6) else {
        panic!("there was no pause");
    };
    let Turn::Ask(Need::Window(_), way) = resume_resolution(way, Answer::Done(Ok(())), 7) else {
        panic!("the window was not looked for again");
    };
    match resume_resolution(way, absent(), 5 + LAUNCH_TIMEOUT_NS) {
        Turn::Done(Err(fault)) => assert_eq!(
            fault.message,
            "launched desktop application test.desktop but no exact actionable KWin window \
             appeared within 20 seconds"
        ),
        _ => panic!("waited beyond the deadline"),
    }
}

#[test]
fn decisions_follow_what_was_compared() {
    let mut target = window("{a}", 0.0, 0.0, 1.0, 1.0);
    target.pid = 10;
    let roots = vec![root("x", 11, true), root("y", 12, true)];
    assert_eq!(choose_marked_root(&roots, &target, &vec![false, true]).unwrap(), 1);
    assert!(choose_marked_root(&roots, &target, &vec![true, true]).is_err());
    assert!(choose_marked_root(&roots, &target, &vec![false, false]).is_err());
    assert!(matches!(
        take_candidate("x".to_owned(), target.clone(), true),
        Turn::Ask(Need::Activate(_), _)
    ));
    assert!(matches!(take_candidate("x".to_owned(), target, false), Turn::Done(Err(_))));
}
