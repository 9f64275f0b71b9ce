//! The inspector driven by messages and clicks.
use kittest_inspector::animation::{
    animation_frames, animation_name, cel, cel_from, encode_failure, log_line, Delay,
};
use kittest_inspector::controls::{Click, InputKind, Tone, COPYING, MAX_RESIZE, MIN_RESIZE};
use kittest_inspector::details::{Outlined, WidgetSection};
use kittest_inspector::id::Id;
use kittest_inspector::inspector::{
    Command, Frame, Hello, InspectorApp, Message, PlayState, Received, TestOutcome,
};
use kittest_inspector::outline::{
    caption, is_highlighted, missing_line, GridRow, NodeFacts, NodeList, Toggled,
};
use kittest_inspector::pointer::{under_pointer, Candidate};
use kittest_inspector::screenshot::{Picture, Screenshot};
use kittest_inspector::source::SourceView;

type App = InspectorApp<u8, char>;

fn frame(step: u64) -> Frame<u8> {
    Frame {
        step,
        screenshot: None,
        logical_size: None,
        nodes: None,
        source: None,
        payload: 7,
    }
}

/// A picture of four pixels, one of them see-through.
fn pixels() -> Vec<u8> {
    vec![255, 0, 0, 255, 0, 255, 0, 255, 0, 0, 255, 255, 1, 2, 3, 0]
}

fn png() -> Vec<u8> {
    let image = image::RgbaImage::from_raw(2, 2, pixels()).expect("four pixels");
    let mut bytes = std::io::Cursor::new(Vec::new());
    image.write_to(&mut bytes, image::ImageFormat::Png).expect("it can be encoded");
    bytes.into_inner()
}

fn imaged(step: u64) -> Frame<u8> {
    Frame {
        screenshot: Some(Screenshot { width: 2, height: 2, png: png() }),
        logical_size: Some((640, 0)),
        ..frame(step)
    }
}

fn hear(app: &mut App, message: Message<u8>) -> Option<Command<char>> {
    let (command, again) = app.receive(Received::Message(message));
    assert!(again, "there may be more");
    command
}

fn with_frames(steps: u64) -> App {
    let mut app = App::new();
    for step in 0..steps {
        assert!(hear(&mut app, Message::Frame(frame(step))).is_none());
    }
    app
}

fn rows(rows: &[GridRow]) -> Vec<(&str, &str)> {
    rows.iter().map(|row| (row.name.as_str(), row.value.as_str())).collect()
}

fn node(id: u64, role: &str) -> NodeFacts {
    NodeFacts {
        id: Id(id),
        role: role.to_owned(),
        bounds: None,
        label: None,
        value: None,
        description: None,
        placeholder: None,
        tooltip: None,
        class_name: None,
        author_id: None,
        keyboard_shortcut: None,
        disabled: false,
        hidden: false,
        read_only: false,
        selected: None,
        toggled: None,
        children: Vec::new(),
    }
}

#[test]
fn a_new_inspector_waits_for_a_blocked_harness() {
    let app = App::new();
    assert_eq!(app.play_state, PlayState::Paused);
    assert!(app.harness_blocked() && app.connected);
    assert!(app.view_frame().is_none() && !app.is_live_view());
    assert_eq!(app.status().words, "harness blocked");
    assert_eq!(app.scrub_position(), None);
}

#[test]
fn a_peer_that_can_stream_is_asked_to() {
    let hello = |continuous_screenshots, can_stream_screenshots| {
        let mut app = App::new();
        let reply = hear(
            &mut app,
            Message::Hello(Hello {
                label: Some("menu test".to_owned()),
                continuous_screenshots,
                can_stream_screenshots,
            }),
        );
        assert_eq!(app.peer_label.as_deref(), Some("menu test"));
        reply
    };
    assert!(matches!(hello(false, true), Some(Command::SetContinuousScreenshots(true))));
    assert!(hello(true, true).is_none());
    assert!(hello(false, false).is_none());
    assert!(hello(true, false).is_none());
}

#[test]
fn a_live_view_follows_and_a_replayed_one_stays() {
    let mut app = with_frames(3);
    assert!(app.is_live_view() && app.take_scroll() && !app.take_scroll());
    assert_eq!(app.view_frame().map(|frame| (frame.step, frame.payload)), Some((2, 7)));

    assert!(app.click(Click::Back).is_none());
    assert!(!app.is_live_view() && app.take_scroll());
    hear(&mut app, Message::Frame(frame(3)));
    assert_eq!((app.view_index, app.history.len()), (1, 4));
    assert!(!app.take_scroll());

    app.click(Click::Forward);
    assert_eq!(app.view_index, 2);
    app.click(Click::Live);
    assert!(app.is_live_view());
    app.click(Click::Scrub(1));
    assert_eq!((app.view_index, app.scrub_position()), (0, Some(1)));
    assert_eq!(app.scrub_text(), "/ 4");
    assert!(!app.is_enabled(Click::Back) && !app.is_enabled(Click::Scrub(5)));
    app.set_view_index(99);
    assert!(app.is_live_view());
}

#[test]
fn a_whole_session_adds_up() {
    let hello = |label: &str| {
        Message::Hello(Hello {
            label: Some(label.to_owned()),
            continuous_screenshots: true,
            can_stream_screenshots: true,
        })
    };
    let ended = |ok| Message::Finished(TestOutcome { ok, message: None, source: None });
    let messages = || {
        vec![
            hello("first"),
            Message::Frame(frame(10)),
            Message::Blocked(true),
            Message::Frame(imaged(11)),
            ended(true),
            hello("second"),
            Message::Blocked(false),
            Message::Frame(imaged(12)),
            ended(false),
            Message::Blocked(false),
        ]
    };
    let check = |app: &App| {
        let steps: Vec<u64> = app.history.iter().map(|frame| frame.step).collect();
        assert_eq!(steps[steps.len() - 3..], [10, 11, 12]);
        assert_eq!(app.peer_label.as_deref(), Some("second"));
        assert_eq!(app.resize_target, Some((640, 1)));
        assert!(!app.harness_blocked(), "as the last message about it says");
        assert_eq!(app.test_outcome.as_ref().map(|outcome| outcome.ok), Some(false));
        assert!(app.scroll_pending && app.connected);
    };

    let mut live = App::new();
    for message in messages() {
        hear(&mut live, message);
    }
    check(&live);
    assert!(live.is_live_view());
    assert_eq!(live.play_state, PlayState::Paused);

    let mut replayed = with_frames(3);
    replayed.click(Click::Scrub(1));
    for message in messages() {
        hear(&mut replayed, message);
    }
    check(&replayed);
    assert_eq!(replayed.view_index, 0);

    // Clicks in between change nothing of what the peer told.
    let mut busy = App::new();
    for message in messages() {
        for click in [Click::Play, Click::Back, Click::Control(true), Click::Live, Click::Run] {
            busy.click(click);
        }
        hear(&mut busy, message);
    }
    check(&busy);
}

#[test]
fn a_blocked_harness_is_paused_and_can_be_driven() {
    let mut app = with_frames(1);
    hear(&mut app, Message::Blocked(false));
    assert!(!app.is_enabled(Click::Step) && !app.is_enabled(Click::Run));
    assert_eq!(app.status().words, "harness running");
    assert!(matches!(app.click(Click::Play), Some(Command::Play)));
    assert_eq!(app.play_state, PlayState::Playing);
    assert!(app.click(Click::Step).is_none(), "it is not blocked");
    assert_eq!(app.play_state, PlayState::Playing);

    hear(&mut app, Message::Blocked(true));
    assert_eq!(app.play_state, PlayState::Paused);
    assert!(matches!(app.click(Click::Run), Some(Command::Run)));
    assert_eq!(app.play_state, PlayState::Playing);
    assert!(matches!(app.click(Click::Step), Some(Command::Step)));
    assert_eq!(app.play_state, PlayState::Paused);
    app.click(Click::Play);
    assert!(matches!(app.click(Click::Pause), Some(Command::Pause)));
    assert_eq!(app.play_state, PlayState::Paused);
}

#[test]
fn an_outcome_is_told_and_stays() {
    let outcome = |ok, message: Option<&str>| {
        let mut app = with_frames(1);
        app.take_scroll();
        hear(&mut app, Message::Blocked(false));
        let message = message.map(str::to_owned);
        hear(&mut app, Message::Finished(TestOutcome { ok, message, source: None }));
        assert!(app.harness_blocked() && app.take_scroll());
        app.receive(Received::Disconnected);
        let status = app.status();
        (status.tone, status.words)
    };
    assert_eq!(outcome(true, Some("fine")), (Tone::Passed, "✅ test passed".to_owned()));
    assert_eq!(outcome(false, Some("no")), (Tone::Failed, "❌ test failed: no".to_owned()));
    assert_eq!(
        outcome(false, None),
        (Tone::Failed, "❌ test failed: (no message)".to_owned())
    );
}

#[test]
fn a_lost_peer_is_sent_nothing() {
    let mut app = with_frames(1);
    app.click(Click::Control(true));
    app.forward_event(InputKind::Typed, false, false, 'x');
    assert!(matches!(app.receive(Received::Empty), (None, false)));
    assert!(matches!(app.receive(Received::Disconnected), (None, false)));
    assert_eq!(app.status().words, "harness disconnected");
    for click in [Click::Play, Click::Pause, Click::Step, Click::Run, Click::Screenshot, Click::Resize] {
        assert!(app.click(click).is_none());
    }
    assert!(app.request_pixels().is_none());
    assert!(app.flush_events().is_none());
    assert_eq!(app.queued_events, ['x']);
    app.release_control();
    assert!(!app.control_enabled && app.queued_events.is_empty());
}

#[test]
fn one_request_for_pixels_is_under_way_at_a_time() {
    let mut app = App::new();
    assert!(app.request_pixels().is_none(), "there is no frame yet");
    hear(&mut app, Message::Frame(frame(0)));
    assert!(matches!(app.request_pixels(), Some(Command::Screenshot)));
    assert!(app.request_pixels().is_none());
    hear(&mut app, Message::Frame(frame(1)));
    assert!(app.request_pixels().is_none(), "no pixels have arrived");
    hear(&mut app, Message::Frame(imaged(2)));
    assert!(!app.awaiting_screenshot);
    assert!(matches!(app.request_pixels(), Some(Command::Screenshot)), "nothing is shown yet");
    assert!(matches!(app.load_picture(), Ok(Some(_))));
    hear(&mut app, Message::Frame(imaged(3)));
    assert!(app.request_pixels().is_none());
    assert!(matches!(app.click(Click::Screenshot), Some(Command::Screenshot)));
    assert!(app.awaiting_screenshot);
}

#[test]
fn pixels_are_decoded_once_for_each_frame() {
    let mut app = App::new();
    assert!(matches!(app.load_picture(), Ok(None)));
    hear(&mut app, Message::Frame(imaged(5)));
    let picture = app.load_picture().expect("a good picture").expect("it is due");
    assert_eq!((picture.width, picture.height), (2, 2));
    assert_eq!(picture.rgba, pixels());
    assert_eq!(app.textured_step, Some(5));
    assert!(matches!(app.load_picture(), Ok(None)), "it is shown");

    hear(&mut app, Message::Frame(frame(6)));
    assert!(matches!(app.load_picture(), Ok(None)), "a frame without pixels changes nothing");
    assert_eq!(app.textured_step, Some(5));

    let mut broken = imaged(7);
    broken.screenshot = Some(Screenshot { width: 2, height: 2, png: vec![1, 2, 3] });
    hear(&mut app, Message::Frame(broken));
    let err = app.load_picture().expect_err("no picture at all");
    let reason = image::load_from_memory(&[1, 2, 3]).expect_err("no picture").to_string();
    assert_eq!(err, format!("decode screenshot PNG failed: {reason}"));
    assert_eq!(app.textured_step, Some(5));
    assert!(app.due_screenshot().is_some(), "it stays due");

    for (width, height, png) in [(0, 2, png()), (2, 0, png()), (2, 2, Vec::new())] {
        let mut empty = frame(8);
        empty.screenshot = Some(Screenshot { width, height, png });
        hear(&mut app, Message::Frame(empty));
        assert!(matches!(app.load_picture(), Ok(None)));
    }
}

#[test]
fn the_first_size_is_the_peers_and_the_rest_are_the_users() {
    let mut app = with_frames(1);
    assert!(!app.is_enabled(Click::Resize));
    app.set_resize_target(5, 5);
    assert_eq!(app.resize_target, None);
    let mut unscaled = imaged(1);
    unscaled.logical_size = None;
    hear(&mut app, Message::Frame(unscaled));
    assert_eq!(app.resize_target, None);
    hear(&mut app, Message::Frame(imaged(2)));
    assert_eq!(app.resize_target, Some((640, 1)), "no size is empty");
    let mut larger = imaged(3);
    larger.logical_size = Some((800, 600));
    hear(&mut app, Message::Frame(larger));
    assert_eq!(app.resize_target, Some((640, 1)));
    app.set_resize_target(0, 100_000);
    assert_eq!(app.resize_target, Some((MIN_RESIZE, MAX_RESIZE)));
    app.set_resize_target(320, 200);
    assert!(matches!(
        app.click(Click::Resize),
        Some(Command::Resize { width: 320, height: 200 })
    ));
}

#[test]
fn a_frame_without_a_screenshot_seeds_no_size() {
    let mut app = App::new();
    let mut sized = frame(0);
    sized.logical_size = Some((10, 10));
    hear(&mut app, Message::Frame(sized));
    assert_eq!(app.resize_target, None);
}

#[test]
fn events_are_forwarded_in_control_mode() {
    let mut app = with_frames(1);
    assert!(app.flush_events().is_none());
    app.click(Click::Control(true));
    assert!(!app.is_enabled(Click::Play), "the harness is driven by hand");
    let cases = [
        (InputKind::PointerMoved, true, false, 'a', true),
        (InputKind::PointerMoved, false, true, 'b', false),
        (InputKind::PointerButton, true, false, 'c', true),
        (InputKind::PointerButton, false, true, 'd', false),
        (InputKind::PointerGone, false, false, 'e', true),
        (InputKind::MouseWheel, true, false, 'f', false),
        (InputKind::MouseWheel, false, true, 'g', true),
        (InputKind::Typed, false, false, 'h', true),
        (InputKind::Other, true, true, 'i', false),
    ];
    for (kind, inside, hovered, event, _) in cases {
        app.forward_event(kind, inside, hovered, event);
    }
    let expected: Vec<char> = cases.iter().filter(|case| case.4).map(|case| case.3).collect();
    assert_eq!(app.queued_events, expected);
    match app.flush_events() {
        Some(Command::Handle { events }) => assert_eq!(events, expected),
        _ => panic!("the events were queued"),
    }
    assert!(app.flush_events().is_none(), "each is sent once");

    app.forward_event(InputKind::Typed, false, false, 'z');
    app.click(Click::Control(false));
    assert!(app.queued_events.is_empty(), "events that wait are dropped");
}

#[test]
fn a_selection_is_pinned_until_it_is_cleared() {
    let mut app = with_frames(1);
    assert_eq!((app.target(), app.target_title()), (None, "Widget".to_owned()));
    app.hover_image(Some(Id(1)));
    assert_eq!((app.target(), app.target_title()), (Some(Id(1)), "Hovered widget".to_owned()));
    app.click(Click::Image);
    app.clear_hover();
    app.touch_line(Id(2), false, true);
    assert_eq!((app.target(), app.target_title()), (Some(Id(1)), "Selected widget".to_owned()));
    assert_eq!(app.outlined(), [(Id(1), Outlined::Selected), (Id(2), Outlined::Hovered)]);
    app.touch_line(Id(2), true, false);
    assert_eq!(app.outlined(), [(Id(2), Outlined::Selected)]);
    app.click(Click::ClearSelection);
    assert_eq!(app.outlined(), [(Id(2), Outlined::Hovered)]);
    assert!(!app.is_enabled(Click::ClearSelection));

    app.click(Click::Control(true));
    app.hover_image(Some(Id(9)));
    assert_eq!(app.hovered_node, Some(Id(2)), "in control mode the image is not inspected");
    app.click(Click::Image);
    assert_eq!(app.selected_node, None);
    assert!(app.outlined().is_empty());
}

#[test]
fn the_source_of_the_outcome_takes_priority() {
    let source = |path: &str| SourceView {
        path: path.to_owned(),
        contents: None,
        call_site_line: None,
        event_lines: Vec::new(),
        panic_line: None,
    };
    let mut app = App::new();
    assert!(app.source_shown().is_none());
    let mut sourced = frame(0);
    sourced.source = Some(source("frame.rs"));
    hear(&mut app, Message::Frame(sourced));
    assert_eq!(app.source_shown().map(|s| s.path.as_str()), Some("frame.rs"));
    let outcome = TestOutcome { ok: false, message: None, source: None };
    hear(&mut app, Message::Finished(outcome));
    assert_eq!(app.source_shown().map(|s| s.path.as_str()), Some("frame.rs"));
    let outcome = TestOutcome { ok: false, message: None, source: Some(source("panic.rs")) };
    hear(&mut app, Message::Finished(outcome));
    assert_eq!(app.source_shown().map(|s| s.path.as_str()), Some("panic.rs"));
}

#[test]
fn the_frame_grid_tells_what_is_known() {
    let mut app = App::new();
    assert!(app.frame_rows("1.00").is_none());
    hear(&mut app, Message::Frame(frame(12)));
    assert_eq!(
        rows(&app.frame_rows("1.00").expect("a frame is displayed")),
        [("Step:", "12"), ("Pixels per point:", "1.00"), ("AccessKit nodes:", "0")]
    );
    app.peer_label = Some("menu test".to_owned());
    let mut full = imaged(13);
    full.nodes = Some(NodeList { root: None, nodes: vec![node(1, "Window")] });
    hear(&mut app, Message::Frame(full));
    assert_eq!(
        rows(&app.frame_rows("2.00").expect("a frame is displayed")),
        [
            ("Peer:", "menu test"),
            ("Step:", "13"),
            ("Size (px):", "2 × 2"),
            ("Pixels per point:", "2.00"),
            ("AccessKit nodes:", "1"),
        ]
    );
}

#[test]
fn the_widget_section_describes_the_node_in_focus() {
    let mut app = App::new();
    assert!(app.widget_section().is_none());
    hear(&mut app, Message::Frame(frame(0)));
    app.hover_image(Some(Id(255)));
    assert!(matches!(app.widget_section(), Some(WidgetSection::Hint)), "no nodes came along");

    let mut check_box = node(255, "CheckBox");
    check_box.bounds = Some("(0.0, 0.0)".to_owned());
    check_box.label = Some("On".to_owned());
    check_box.value = Some(String::new());
    check_box.description = Some("d".to_owned());
    check_box.placeholder = Some("p".to_owned());
    check_box.tooltip = Some("t".to_owned());
    check_box.class_name = Some("c".to_owned());
    check_box.author_id = Some("a".to_owned());
    check_box.keyboard_shortcut = Some("Ctrl+O".to_owned());
    check_box.disabled = true;
    check_box.hidden = true;
    check_box.read_only = true;
    check_box.selected = Some(false);
    check_box.toggled = Some(Toggled::Mixed);
    check_box.children = vec![Id(3), Id(4)];
    let mut full = frame(1);
    full.nodes = Some(NodeList { root: None, nodes: vec![check_box, node(7, "Label")] });
    hear(&mut app, Message::Frame(full));
    match app.widget_section() {
        Some(WidgetSection::Details(found)) => assert_eq!(
            rows(&found),
            [
                ("ID:", "255"),
                ("Role:", "CheckBox"),
                ("Bounds:", "(0.0, 0.0)"),
                ("Label:", "On"),
                ("Description:", "d"),
                ("Placeholder:", "p"),
                ("Tooltip:", "t"),
                ("Class:", "c"),
                ("Author ID:", "a"),
                ("Keyboard:", "Ctrl+O"),
                ("Flags:", "Disabled, Hidden, Read-only, Unselected"),
                ("Toggled:", "Mixed"),
                ("Children:", "2"),
            ]
        ),
        other => panic!("{other:?}"),
    }
    app.touch_line(Id(7), true, false);
    match app.widget_section() {
        Some(WidgetSection::Details(found)) => {
            assert_eq!(rows(&found), [("ID:", "7"), ("Role:", "Label")]);
        }
        other => panic!("{other:?}"),
    }
    app.touch_line(Id(8), true, false);
    assert!(matches!(app.widget_section(), Some(WidgetSection::NotInTree)));
}

#[test]
fn toggles_are_spelled_as_accesskit_spells_them() {
    for (ours, theirs) in [
        (Toggled::Off, accesskit::Toggled::False),
        (Toggled::On, accesskit::Toggled::True),
        (Toggled::Mixed, accesskit::Toggled::Mixed),
    ] {
        let mut node = node(1, "CheckBox");
        node.toggled = Some(ours);
        node.selected = Some(true);
        assert_eq!(
            rows(&node.details())[2..],
            [("Flags:", "Selected"), ("Toggled:", format!("{theirs:?}").as_str())]
        );
    }
}

#[test]
fn an_outline_line_quotes_the_label_or_the_value() {
    let mut button = node(1, "Button");
    assert_eq!(button.outline_line(), "Button");
    button.value = Some("v\n\"w\"".to_owned());
    assert_eq!(button.outline_line(), r#"Button  "v\n\"w\"""#);
    button.label = Some("OK".to_owned());
    assert_eq!(button.outline_line(), r#"Button  "OK""#);
    button.label = Some(String::new());
    assert_eq!(button.outline_line(), "Button");
    assert_eq!(caption("Link", Some("here")), "Link  here");
    assert_eq!(missing_line(Id(18)), "(missing 18)");
}

#[test]
fn an_outline_starts_at_the_declared_root_or_at_an_orphan() {
    let mut parent = node(1, "Window");
    parent.children = vec![Id(2)];
    let child = node(2, "Label");
    let mut list = NodeList { root: None, nodes: vec![child.clone(), parent.clone()] };
    assert_eq!(list.roots(), [Id(1)], "the label is listed as a child");
    assert!(list.lists(Id(2)) && !list.lists(Id(1)));
    list.root = Some(Id(2));
    assert_eq!(list.roots(), [Id(2)]);

    let mut looped = child.clone();
    looped.children = vec![Id(1)];
    let ring = NodeList { root: None, nodes: vec![looped, parent] };
    assert_eq!(ring.roots(), [Id(2), Id(1)], "every node is some node's child");
    assert!(NodeList { root: None, nodes: Vec::new() }.roots().is_empty());
}

#[test]
fn the_last_of_two_nodes_with_one_id_is_outlined_and_the_first_described() {
    let list = NodeList { root: None, nodes: vec![node(1, "First"), node(1, "Last")] };
    assert_eq!(list.find(Id(1)).map(|node| node.role.as_str()), Some("First"));
    assert_eq!(list.lookup(Id(1)).map(|node| node.role.as_str()), Some("Last"));
    assert!(list.find(Id(2)).is_none() && list.lookup(Id(2)).is_none());
}

#[test]
fn a_line_is_highlighted_while_its_node_is_selected_or_hovered() {
    assert!(is_highlighted(Id(1), Some(Id(1)), None));
    assert!(is_highlighted(Id(1), None, Some(Id(1))));
    assert!(!is_highlighted(Id(1), Some(Id(2)), Some(Id(3))));
    assert!(!is_highlighted(Id(1), None, None));
}

#[test]
fn the_pointer_means_the_smallest_widget() {
    let candidate = |id, area| Candidate { id: Id(id), area };
    assert_eq!(under_pointer(&Vec::new()), None);
    let nested = vec![
        candidate(1, Some(100)),
        candidate(2, Some(10)),
        candidate(3, Some(50)),
        candidate(4, Some(10)),
    ];
    assert_eq!(under_pointer(&nested), Some(Id(2)));
    let unknown = vec![candidate(1, None), candidate(2, Some(10))];
    assert_eq!(under_pointer(&unknown), Some(Id(1)), "nothing is known to be smaller");
}

#[test]
fn an_animation_holds_the_screenshots_and_holds_the_last_frame() {
    assert_eq!(
        animation_frames(&Vec::<Frame<u8>>::new()).expect_err("there is nothing to show"),
        "history is empty"
    );
    let history = vec![imaged(0), frame(1), imaged(2)];
    assert_eq!(animation_frames(&history).expect("there are frames"), [0, 2]);
    let first = cel(&history, 0, 10).expect("it has a screenshot").expect("a good picture");
    assert_eq!(first.delay, Delay { numer: 1000, denom: 10 });
    assert_eq!(first.picture.rgba, pixels());
    assert!(cel(&history, 1, 10).is_none() && cel(&history, 3, 10).is_none());
    let last = cel(&history, 2, 10).expect("it has a screenshot").expect("a good picture");
    assert_eq!(last.delay, Delay { numer: 1000, denom: 1 });
}

/// The loop point is the last picture, not the last frame of the history.
#[test]
fn the_last_picture_is_held_though_frames_without_one_follow() {
    let history = vec![imaged(0), imaged(1), frame(2), frame(3)];
    let delay = |index| cel(&history, index, 10).expect("imaged").expect("a good picture").delay;
    assert_eq!(animation_frames(&history).expect("there are frames"), [0, 1]);
    assert_eq!(delay(0), Delay { numer: 1000, denom: 10 });
    assert_eq!(delay(1), Delay { numer: 1000, denom: 1 });
    let only = cel(&vec![imaged(0), frame(1)], 0, 10).expect("imaged").expect("a good picture");
    assert_eq!(only.delay, Delay { numer: 1000, denom: 1 });
}

#[test]
fn a_broken_screenshot_is_named_by_its_frame() {
    let mut broken = imaged(0);
    broken.screenshot = Some(Screenshot { width: 1, height: 1, png: vec![0] });
    let err = cel(&vec![frame(9), broken], 1, 10).expect("it has a screenshot");
    let reason = image::load_from_memory(&[0]).expect_err("no picture").to_string();
    assert_eq!(
        err.expect_err("no picture at all"),
        format!("frame 1: decode screenshot PNG failed: {reason}")
    );
    let picture = Picture { width: 1, height: 1, rgba: vec![1, 2, 3, 4] };
    let cel = cel_from(0, 2, 25, Ok(picture)).expect("it is decoded");
    assert_eq!((cel.picture.rgba, cel.delay.denom), (vec![1, 2, 3, 4], 25));
    assert_eq!(encode_failure(4, "too large"), "encode frame 4: too large");
}

#[test]
fn copying_says_so_and_needs_a_history() {
    let mut app = App::new();
    assert!(app.click(Click::CopyGif).is_none());
    assert_eq!(app.status_message, None);
    hear(&mut app, Message::Frame(frame(0)));
    app.click(Click::CopyGif);
    assert_eq!(app.status_message.as_deref(), Some(COPYING));
}

#[test]
fn files_and_log_lines_carry_the_time() {
    assert_eq!(animation_name(1700000000123), "kittest_inspector_1700000000123.gif");
    assert_eq!(log_line(0, "started"), "[0] started");
}
