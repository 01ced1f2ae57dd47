use sky_wayland::binary64::Real;
use sky_wayland::capture::{
    bgra_to_rgba, capture_refusal, encode_png, frame_is_blank, parse_capture_metadata, read_frame,
    report_png, unpremultiply, within_limit, CaptureMetadata, Captures, PngFailure, Verdict,
    MAX_RAW_BYTES,
};
use sky_wayland::compositor::{
    after_removal, after_unloading, check_screenshot_version, check_script_id, check_unloaded,
    ensure_listed, plugin_name, request_id, snapshot_script, Activation, CompositorSnapshot, Front,
};
use sky_wayland::fault::Fault;
use sky_wayland::kwin::{
    admit_window, exact_window_id, is_named, is_window_not_found, parse_exact_window_id,
    parse_window_metadata, resolve_by_marks, resolve_records, score, MetaValue, Metadata,
    WindowInfo, WindowRecord,
};

fn number(x: f64) -> Real {
    Real { bits: x.to_bits() }
}

fn window(
    uuid: &str,
    desktop_file: &str,
    class: &str,
    name: &str,
    caption: &str,
    minimized: bool,
    geometry: (f64, f64),
) -> WindowRecord {
    WindowRecord {
        info: WindowInfo {
            uuid: uuid.to_owned(),
            caption: caption.to_owned(),
            resource_class: class.to_owned(),
            resource_name: name.to_owned(),
            desktop_file: desktop_file.to_owned(),
            pid: 42,
            x: number(10.0),
            y: number(20.0),
            width: number(geometry.0),
            height: number(geometry.1),
            minimized,
            fullscreen: false,
        },
        window_type: 0,
        skip_taskbar: false,
    }
}

#[test]
fn resolution_prefers_exact_desktop_identity() {
    let records = vec![
        window(
            "a",
            "org.kde.kate.desktop",
            "kate",
            "kate",
            "notes",
            false,
            (800.0, 600.0),
        ),
        window(
            "b",
            "org.kde.katepart",
            "katepart",
            "katepart",
            "kate",
            false,
            (900.0, 700.0),
        ),
    ];
    assert_eq!(resolve_records(&records, "org.kde.kate").unwrap().uuid, "a");
}

#[test]
fn resolution_never_guesses_between_equal_matches() {
    let records = vec![
        window("a", "kate", "kate", "kate", "kate", true, (1200.0, 800.0)),
        window("b", "kate", "kate", "kate", "kate", false, (800.0, 600.0)),
        window("c", "kate", "kate", "kate", "kate", false, (1000.0, 700.0)),
    ];
    let error = resolve_records(&records, "kate").unwrap_err().message;
    assert!(error.contains("kate@a"));
    assert!(error.contains("kate@b"));
    assert!(error.contains("kate@c"));
    assert_eq!(
        error,
        "application \"kate\" is ambiguous; candidates: kate@a, kate@b, kate@c"
    );
}

#[test]
fn resolution_rejects_unsafe_ambiguity_and_empty_names() {
    let records = vec![
        window("a", "kate", "kate", "kate", "one", false, (800.0, 600.0)),
        window("b", "kate", "kate", "kate", "two", false, (1000.0, 700.0)),
    ];
    assert!(resolve_records(&records, "kate")
        .unwrap_err()
        .message
        .contains("ambiguous"));
    assert!(resolve_records(&records, "").is_err());
    assert!(resolve_records(&records, "Unnamed").is_err());
}

#[test]
fn exact_window_ids_detect_stale_and_mismatched_records() {
    let records = vec![window(
        "{abc}",
        "org.kde.kate.desktop",
        "kate",
        "kate",
        "notes",
        false,
        (800.0, 600.0),
    )];
    let exact = exact_window_id(&records[0].info);
    assert_eq!(resolve_records(&records, &exact).unwrap().uuid, "{abc}");
    assert!(resolve_records(&records, "wrong@{abc}")
        .unwrap_err()
        .message
        .contains("mismatch"));
    assert!(resolve_records(&records, "org.kde.kate@{stale}")
        .unwrap_err()
        .message
        .contains("stale"));
}

#[test]
fn a_missing_window_is_told_from_other_failures() {
    let records = vec![window("{a}", "Kate.desktop", "k", "k", "a \"b\"", false, (1.0, 1.0))];
    let missing = resolve_records(&records, "vim").unwrap_err();
    assert!(is_window_not_found(&missing));
    assert_eq!(
        missing.message,
        "application \"vim\" not found; available windows: kate (\"a \\\"b\\\"\")"
    );
    let stale = resolve_records(&records, "kate@{b}").unwrap_err();
    assert!(!is_window_not_found(&stale));
    assert_eq!(
        stale.message,
        "exact window ID \"kate@{b}\" is stale; UUID {b} is not present in fresh KWin records"
    );
    assert_eq!(
        resolve_records(&records, "vim@{a}").unwrap_err().message,
        "exact window ID \"vim@{a}\" identity mismatch: UUID {a} currently belongs to \"kate\""
    );
    assert_eq!(
        resolve_records(&records, "@{a}").unwrap_err().message,
        "invalid exact window ID \"@{a}\"; expected <identity>@{<uuid>}"
    );
    assert_eq!(
        resolve_records(&records, " UNNAMED.desktop ").unwrap_err().message,
        "application query must be non-empty and cannot be \"Unnamed\""
    );
}

#[test]
fn names_are_compared_without_case_and_suffix() {
    let record = window("{a}", "", "Some.Desktop", "ÄPP", " Title ", false, (1.0, 1.0));
    assert_eq!(score(&record.info, "some"), Some(100));
    assert_eq!(score(&record.info, "äpp"), Some(100));
    assert_eq!(score(&record.info, "title"), Some(100));
    assert_eq!(score(&record.info, "titl"), None);
    assert_eq!(exact_window_id(&record.info), "some.desktop@{a}");
    assert_eq!(parse_exact_window_id("a@b@{c}").unwrap(), Some(("a@b", "{c}")));
    assert_eq!(parse_exact_window_id("a@{c").unwrap(), None);
    assert_eq!(parse_exact_window_id("a").unwrap(), None);
    assert!(parse_exact_window_id("a@{}").is_err());
}

#[test]
fn converts_premultiplied_bgra_with_stride() {
    let raw = [
        25, 50, 100, 128, 0xaa, 0xbb, 0xcc, 0xdd, 0, 0, 0, 0, 0xee, 0xff, 0x11, 0x22,
    ];
    let rgba = bgra_to_rgba(&raw, 1, 2, 8, 6).unwrap();
    assert_eq!(rgba, [199, 100, 50, 128, 0, 0, 0, 0]);
}

#[test]
fn straight_pixels_are_only_reordered() {
    assert_eq!(
        bgra_to_rgba(&[25, 50, 100, 128], 1, 1, 4, 5).unwrap(),
        [100, 50, 25, 128]
    );
    assert_eq!(
        bgra_to_rgba(&[0; 7], 1, 1, 8, 5).unwrap_err().message,
        "KWin screenshot byte count mismatch: expected 8, received 7"
    );
    assert_eq!(unpremultiply(200, 100), 255);
    assert_eq!(unpremultiply(1, 2), 128);
    for alpha in 1..=255_u8 {
        for channel in 0..=alpha {
            let undone = u32::from(unpremultiply(channel, alpha));
            assert_eq!((undone * u32::from(alpha) + 127) / 255, u32::from(channel));
        }
    }
}

#[test]
fn detects_nearly_black_frames() {
    let black = [0_u8, 0, 0, 255].repeat(1_000);
    assert!(frame_is_blank(&black));
    let mut visible = black;
    for pixel in visible.chunks_exact_mut(4).take(6) {
        pixel[..3].fill(255);
    }
    assert!(!frame_is_blank(&visible));
}

#[test]
fn an_empty_frame_is_not_blank_and_a_transparent_one_is() {
    assert!(!frame_is_blank(&[]));
    assert!(frame_is_blank(&[255, 255, 255, 0]));
    assert!(frame_is_blank(&[8, 8, 8, 255]));
    assert!(!frame_is_blank(&[9, 8, 8, 255]));
}

fn text(value: &str) -> MetaValue<String> {
    MetaValue::Text(value.to_owned())
}

fn complete() -> Metadata {
    vec![
        ("uuid".to_owned(), text("abc")),
        ("caption".to_owned(), text("Editor")),
        ("resourceClass".to_owned(), text("kate")),
        ("resourceName".to_owned(), text("kate")),
        ("desktopFile".to_owned(), text("org.kde.kate")),
        ("pid".to_owned(), MetaValue::Int32(123)),
        ("x".to_owned(), MetaValue::Double(number(1.0))),
        ("y".to_owned(), MetaValue::Double(number(2.0))),
        ("width".to_owned(), MetaValue::Double(number(800.0))),
        ("height".to_owned(), MetaValue::Double(number(600.0))),
        ("minimized".to_owned(), MetaValue::Boolean(false)),
        ("fullscreen".to_owned(), MetaValue::Boolean(false)),
        ("type".to_owned(), MetaValue::Int32(0)),
        ("skipTaskbar".to_owned(), MetaValue::Boolean(false)),
    ]
}

fn with(mut metadata: Metadata, key: &str, value: MetaValue<String>) -> Metadata {
    metadata.retain(|entry| entry.0 != key);
    metadata.push((key.to_owned(), value));
    metadata
}

#[test]
fn parses_complete_window_metadata() {
    let parsed = parse_window_metadata(&complete()).unwrap();
    assert_eq!(parsed.info.uuid, "abc");
    assert_eq!(parsed.info.pid, 123);
    assert_eq!(f64::from_bits(parsed.info.width.bits), 800.0);
}

#[test]
fn incomplete_window_metadata_is_refused() {
    let fails = |metadata: Metadata| parse_window_metadata(&metadata).unwrap_err().message;
    assert_eq!(fails(vec![]), "missing metadata field uuid");
    assert_eq!(fails(with(complete(), "uuid", text(" "))), "uuid is empty");
    assert!(fails(with(complete(), "uuid", MetaValue::Other))
        .starts_with("metadata field uuid is not a string"));
    assert!(fails(with(complete(), "pid", MetaValue::Int32(-1))).starts_with("pid is negative"));
    assert!(fails(with(complete(), "pid", MetaValue::Uint32(1)))
        .starts_with("metadata field pid is not int32"));
    assert!(fails(with(complete(), "x", MetaValue::Int32(1)))
        .starts_with("metadata field x is not double"));
    assert!(fails(with(complete(), "minimized", MetaValue::Int32(1)))
        .starts_with("metadata field minimized is not boolean"));
}

#[test]
fn only_normal_windows_are_admitted() {
    assert!(admit_window("abc", &complete()).unwrap().is_some());
    assert!(admit_window("abc", &vec![]).unwrap().is_none());
    assert!(admit_window("abc", &with(complete(), "type", MetaValue::Int32(1)))
        .unwrap()
        .is_none());
    assert!(admit_window("abc", &with(complete(), "skipTaskbar", MetaValue::Boolean(true)))
        .unwrap()
        .is_none());
    assert!(admit_window("abc", &with(complete(), "width", MetaValue::Double(number(0.0))))
        .unwrap()
        .is_none());
    assert_eq!(
        admit_window("def", &complete()).unwrap_err().message,
        "KWin returned UUID abc for requested window def"
    );
    assert!(admit_window("abc", &with(complete(), "uuid", text("")))
        .unwrap_err()
        .message
        .starts_with("invalid metadata for KWin window abc: uuid is empty"));
}

fn picture(width: u32, height: u32, stride: u32) -> Metadata {
    vec![
        ("type".to_owned(), text("raw")),
        ("windowId".to_owned(), text("abc")),
        ("format".to_owned(), MetaValue::Uint32(5)),
        ("width".to_owned(), MetaValue::Uint32(width)),
        ("height".to_owned(), MetaValue::Uint32(height)),
        ("stride".to_owned(), MetaValue::Uint32(stride)),
        ("scale".to_owned(), MetaValue::Double(number(1.5))),
    ]
}

#[test]
fn capture_metadata_is_checked_field_by_field() {
    let good = parse_capture_metadata(&picture(2, 3, 9), "abc").unwrap();
    assert_eq!((good.format, good.width, good.height, good.stride), (5, 2, 3, 9));
    let fails = |metadata: Metadata| parse_capture_metadata(&metadata, "abc").unwrap_err().message;
    assert_eq!(
        fails(with(picture(2, 3, 9), "type", text("png"))),
        "KWin returned unsupported screenshot type \"png\""
    );
    assert_eq!(
        fails(with(picture(2, 3, 9), "windowId", text("x"))),
        "KWin screenshot UUID mismatch: expected abc, received x"
    );
    assert_eq!(
        fails(with(picture(2, 3, 9), "format", MetaValue::Uint32(4))),
        "unsupported KWin QImage format 4; expected ARGB32 or ARGB32_Premultiplied"
    );
    assert_eq!(
        fails(picture(0, 3, 9)),
        "KWin returned invalid screenshot dimensions or scale"
    );
    assert_eq!(
        fails(with(picture(2, 3, 9), "scale", MetaValue::Double(number(-1.0)))),
        "KWin returned invalid screenshot dimensions or scale"
    );
    assert_eq!(fails(picture(u32::MAX, 1, 9)), "KWin screenshot row size overflow");
    assert_eq!(
        fails(picture(3, 1, 9)),
        "KWin screenshot stride 9 is smaller than row size 12"
    );
    assert_eq!(
        fails(picture(3, 1 << 20, 1 << 20)),
        "KWin screenshot exceeds the 268435456-byte safety limit"
    );
}

#[test]
fn frames_are_read_whole() {
    let (meta, rgba) = read_frame(&picture(1, 2, 4), &[1, 2, 3, 4, 5, 6, 7, 8], "abc").unwrap();
    assert_eq!((meta.width, meta.height), (1, 2));
    assert_eq!(rgba, vec![3, 2, 1, 4, 7, 6, 5, 8]);
    assert!(read_frame(&picture(1, 2, 4), &[0; 7], "abc").is_err());
    assert!(within_limit(MAX_RAW_BYTES - 1, 1).is_ok());
    assert_eq!(
        within_limit(MAX_RAW_BYTES, 1).unwrap_err().message,
        "KWin screenshot exceeds the 268435456-byte safety limit"
    );
    assert!(within_limit(usize::MAX, usize::MAX).is_err());
}

#[test]
fn pictures_are_encoded_as_png() {
    let rgba = [10, 20, 30, 255, 40, 50, 60, 128];
    let bytes = encode_png(2, 1, &rgba).unwrap();
    assert_eq!(&bytes[..8], &[0x89, b'P', b'N', b'G', 0x0d, 0x0a, 0x1a, 0x0a]);
    let decoder = png::Decoder::new(std::io::Cursor::new(bytes));
    let mut reader = decoder.read_info().unwrap();
    let mut pixels = vec![0; reader.output_buffer_size().unwrap()];
    let info = reader.next_frame(&mut pixels).unwrap();
    assert_eq!((info.width, info.height), (2, 1));
    assert_eq!(&pixels[..8], &rgba);
    assert!(encode_png(2, 1, &rgba[..7])
        .unwrap_err()
        .message
        .starts_with("failed to encode screenshot PNG: "));
    assert!(encode_png(0, 1, &[])
        .unwrap_err()
        .message
        .starts_with("failed to create PNG header: "));
    assert_eq!(
        report_png(Err(PngFailure::Header("h".to_owned()))).unwrap_err().message,
        "failed to create PNG header: h"
    );
}

fn frame() -> CaptureMetadata {
    CaptureMetadata { format: 5, width: 1, height: 1, stride: 4, scale: number(2.0) }
}

#[test]
fn blank_captures_are_tried_three_times() {
    let target = window("{a}", "k", "k", "k", "k", false, (1.0, 1.0)).info;
    let mut captures = Captures::start(&target).unwrap();
    let black = [0, 0, 0, 255];
    assert!(matches!(captures.judge(frame(), &black), Verdict::Retry));
    assert!(matches!(captures.judge(frame(), &black), Verdict::Retry));
    match captures.judge(frame(), &black) {
        Verdict::Failed(fault) => assert_eq!(
            fault.message,
            "KWin returned 3 consecutive blank captures for window {a}; the compositor did not \
             render a usable frame"
        ),
        _ => panic!("accepted a blank frame"),
    }
}

#[test]
fn a_visible_capture_is_accepted() {
    let target = window("{a}", "k", "k", "k", "k", false, (1.0, 1.0)).info;
    let mut captures = Captures::start(&target).unwrap();
    assert!(matches!(captures.judge(frame(), &[0, 0, 0, 255]), Verdict::Retry));
    match captures.judge(frame(), &[255, 0, 0, 255]) {
        Verdict::Accepted(shot) => {
            assert_eq!((shot.width, shot.height), (1, 1));
            assert_eq!(shot.scale, number(2.0));
            assert_eq!(shot.png, encode_png(1, 1, &[255, 0, 0, 255]).unwrap());
        }
        _ => panic!("refused a visible frame"),
    }
    let hidden = window("{a}", "k", "k", "k", "k", true, (1.0, 1.0)).info;
    assert_eq!(
        Captures::start(&hidden).unwrap_err().message,
        "cannot capture minimized KWin window UUID {a}"
    );
}

#[test]
fn a_refused_capture_names_the_missing_permission() {
    for why in ["org.x.NotAuthorized: no", "NoAuthorized"] {
        assert_eq!(
            capture_refusal("{a}", why.to_owned()).message,
            "KWin denied ScreenShot2 authorization; the desktop entry must declare \
             X-KDE-DBUS-Restricted-Interfaces=org.kde.KWin.ScreenShot2"
        );
    }
    assert_eq!(
        capture_refusal("{a}", "gone".to_owned()).message,
        "failed to capture KWin window {a}: gone"
    );
}

#[test]
fn the_discovery_script_quotes_its_destination() {
    assert_eq!(
        snapshot_script(":1.\"2\"\n\u{1}é", 7),
        "const snapshot = {\nwindows: workspace.windowList().map(w => w.internalId.toString()),\n\
         activeWindow: workspace.activeWindow ? workspace.activeWindow.internalId.toString() : null\n\
         };\ncallDBus(\":1.\\\"2\\\"\\n\\u0001é\", \"/org/openai/CodexComputerUse/KWinBridge\", \
         \"org.openai.CodexComputerUse.KWinBridge\", \"Snapshot\", 7, JSON.stringify(snapshot));\n"
    );
    assert_eq!(request_id(0x8000_0005), 5);
    assert_eq!(request_id(u64::MAX), i32::MAX);
    assert_eq!(plugin_name(12, 34), "codex_computer_use_12_34");
}

#[test]
fn compositor_answers_are_checked() {
    assert!(check_screenshot_version(5).is_ok());
    assert_eq!(
        check_screenshot_version(4).unwrap_err().message,
        "KWin ScreenShot2 version 4 is unsupported; version 5 or newer is required"
    );
    assert!(check_script_id(0).is_ok());
    assert_eq!(
        check_script_id(-1).unwrap_err().message,
        "KWin rejected the discovery script"
    );
    assert!(check_unloaded(true).is_ok());
    assert_eq!(
        check_unloaded(false).unwrap_err().message,
        "KWin refused to unload the discovery script"
    );
    assert_eq!(
        ensure_listed("capture", "{b}", &vec!["{a}".to_owned()]).unwrap_err().message,
        "cannot capture stale KWin window UUID {b}"
    );
    let snapshot = || CompositorSnapshot { windows: vec![], active_window: None };
    assert!(after_removal(Ok(snapshot()), Ok(())).is_ok());
    assert_eq!(
        after_removal(Ok(snapshot()), Err(Fault::of("b"))).unwrap_err().message,
        "b"
    );
    assert_eq!(
        after_removal(Err(Fault::of("a")), Err(Fault::of("b"))).unwrap_err().message,
        "KWin snapshot operation failed: a; temp-file cleanup also failed: b"
    );
    assert_eq!(
        after_unloading(Err(Fault::of("a")), Err(Fault::of("b"))).unwrap_err().message,
        "KWin discovery script operation failed: a; unloading also failed: b"
    );
    assert_eq!(
        after_unloading(Err(Fault::of("a")), Ok(())).unwrap_err().message,
        "a"
    );
}

#[test]
fn activation_is_verified_four_times() {
    let windows = vec!["{a}".to_owned(), "{b}".to_owned()];
    let (mut activation, id) = Activation::start("{a}", &windows).unwrap();
    assert_eq!(id, "0_{a}");
    let other = Some("{b}".to_owned());
    assert!(matches!(activation.reported(&other), Front::Ask(100)));
    assert!(matches!(activation.reported(&None), Front::Ask(200)));
    assert!(matches!(activation.reported(&other), Front::Ask(300)));
    match activation.reported(&other) {
        Front::Failed(fault) => assert_eq!(
            fault.message,
            "KWin did not activate window UUID {a} within verification deadline"
        ),
        _ => panic!("asked a fifth time"),
    }
    let (mut activation, _) = Activation::start("{a}", &windows).unwrap();
    assert!(matches!(activation.reported(&Some("{a}".to_owned())), Front::Reached));
    assert_eq!(
        Activation::start("{c}", &windows).unwrap_err().message,
        "cannot activate stale KWin window UUID {c}"
    );
}

#[test]
fn one_marked_window_is_found() {
    let records = vec![
        window("a", "kate", "kate", "kate", "one", false, (1.0, 1.0)),
        window("b", "kate", "kate", "kate", "two", false, (1.0, 1.0)),
    ];
    let found = |query: &str, marks: Vec<bool>| resolve_by_marks(&records, "q", query, &marks);
    assert_eq!(found("q", vec![false, true]).unwrap().uuid, "b");
    assert!(found("q", vec![true, true]).unwrap_err().message.contains("ambiguous"));
    assert!(is_window_not_found(&found("q", vec![false, false]).unwrap_err()));
    assert!(found("unnamed", vec![false, true]).is_err());
    assert!(is_named("x", "q", "q"));
    assert!(!is_named("", "", ""));
}
