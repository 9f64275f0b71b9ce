//! Queries run against a real egui frame.
//!
//! The hand-built trees pin one rule each. This file builds a small but ordinary app — panels, a
//! heading, buttons, a text field, a check box, a slider, a collapsing section — and lays out an
//! actual frame with AccessKit enabled. That is where the rules meet egui's real output: the
//! containers it emits, where it puts a widget's text, and how deep the nesting gets.
use kittest_inspector::id::Id;
use kittest_inspector::limit::count;
use kittest_inspector::node::{Node, Tree};
use kittest_inspector::query::{Exclusion, Locator, Query, QueryFilter};
use kittest_inspector::resolve::resolve_unique;
use kittest_inspector::walk::query;
use kittest_inspector::widget::{widget_detail, Widget, MAX_TEXT_CHARS, TRUNCATION_MARKER};

/// Logical size of the frame the tests lay out. Wide enough that nothing is clipped, which would
/// otherwise show up as a `hidden` flag that differs between platforms.
const SCREEN_SIZE: egui::Vec2 = egui::vec2(1280.0, 900.0);

/// A label long enough to wrap over several lines, to show whether an agent is handed the whole
/// text or only what fits.
const LONG_LABEL: &str = "This paragraph is here to be long: it wraps over several lines in the central panel, so the frame has to lay it out as more than one run of text. An agent reading the tree should still get every word of it, because the text it can read is the only thing telling it what this part of the app is for.";

/// The demo app's mutable state, so its widgets report real values rather than defaults.
struct DemoApp {
    search: String,
    wrap_lines: bool,
    volume: f32,
    project: usize,

    /// egui's own gallery, for coverage of the widget kinds we wouldn't think to write out:
    /// combo box, radio group, colour picker, progress bar, hyperlink, and the rest.
    gallery: egui_demo_lib::WidgetGallery,
}

impl Default for DemoApp {
    fn default() -> Self {
        Self {
            search: "tree".to_owned(),
            wrap_lines: true,
            volume: 42.0,
            project: 1,
            gallery: egui_demo_lib::WidgetGallery::default(),
        }
    }
}

impl DemoApp {
    fn ui(&mut self, ui: &mut egui::Ui) {
        // The gallery shows an image, which needs a loader to be anything but a broken icon.
        egui_extras::install_image_loaders(ui.ctx());

        egui::Panel::top("toolbar").show(ui, |ui| {
            ui.horizontal(|ui| {
                ui.label("Search");
                ui.text_edit_singleline(&mut self.search);
                ui.button("Run").clicked();
            });
        });

        egui::Panel::left("projects").show(ui, |ui| {
            ui.heading("Projects");
            for (i, name) in ["egui", "kittest", "rerun"].iter().enumerate() {
                ui.selectable_value(&mut self.project, i, *name);
            }
        });

        // An agent panel living inside the app it drives, as a host embedding this server has.
        // It echoes the user's own words, so a text query hits it before it hits the app.
        egui::Panel::right("agent chat").show(ui, |ui| {
            ui.heading("Chat");
            ui.label("where is the volume slider?");
            ui.label("Second row of the settings panel.");
        });

        egui::CentralPanel::default().show(ui, |ui| {
            ui.label("Settings");
            ui.label(LONG_LABEL);
            ui.checkbox(&mut self.wrap_lines, "Wrap long lines");
            ui.add(egui::Slider::new(&mut self.volume, 0.0..=100.0).text("Volume"));
            egui::CollapsingHeader::new("Advanced").default_open(true).show(ui, |ui| {
                ui.label("Nothing to see here");
                ui.add_enabled(false, egui::Button::new("Reset"));
            });

            // Neither of these is a widget an agent can act on, so neither should reach it.
            ui.separator();
            ui.add_space(16.0);

            egui_demo_lib::View::ui(&mut self.gallery, ui);
        });
    }
}

fn capture(node: &accesskit_consumer::Node<'_>) -> Node {
    Node {
        id: Id(node.locate().0 .0),
        role: format!("{:?}", node.role()),
        label: node.label(),
        value: node.value(),
        bounds: node.bounding_box(),
        focused: node.is_focused_in_tree(),
        disabled: node.is_disabled(),
        hidden: node.is_hidden(),
        parent_id: node.parent().map(|parent| Id(parent.locate().0 .0)),
        children: node.children().map(|child| capture(&child)).collect(),
    }
}

/// Lay out two frames of the demo app and hand back the AccessKit tree of the second.
///
/// Two, because egui sizes several containers from what the previous frame measured — one pass
/// alone would give a half-laid-out app.
fn demo_app_tree() -> Tree {
    let ctx = egui::Context::default();
    ctx.enable_accesskit();
    let input = egui::RawInput {
        screen_rect: Some(egui::Rect::from_min_size(egui::Pos2::ZERO, SCREEN_SIZE)),
        ..Default::default()
    };

    let mut app = DemoApp::default();
    // These frames are never painted: nothing here consumes the texture deltas an output
    // carries, and dropping one that still holds them panics.
    ctx.run_ui(input.clone(), |ui| app.ui(ui)).drop_without_applying_deltas();
    let mut output = ctx.run_ui(input, |ui| app.ui(ui));
    let update = output
        .platform_output
        .accesskit_update
        .take()
        .expect("accesskit is enabled, so every frame carries an update");
    output.drop_without_applying_deltas();
    let tree = accesskit_consumer::Tree::new(update, false);
    let root = capture(&tree.state().root());
    Tree { root }
}

fn query_app(filter: &QueryFilter) -> Vec<Widget> {
    query(&demo_app_tree(), filter).expect("no missing `root`")
}

/// A long label is cut short, but stays findable: the filters match the whole text, so a phrase
/// from past the cut still resolves to the node that holds it.
#[test]
fn a_long_label_is_cut_short_but_still_matchable() {
    let matched = query(
        &demo_app_tree(),
        &QueryFilter {
            query: Query {
                // Deep into the paragraph, well past where the text is cut.
                content_contains: Some("every word of it".to_owned()),
                ..Default::default()
            },
            ..Default::default()
        },
    )
    .expect("no missing `root`");
    let label = matched.first().expect("the long label matched");
    let text = label.value.as_deref().expect("a label's text is its value");
    assert!(
        LONG_LABEL.starts_with(text.trim_end_matches(TRUNCATION_MARKER)),
        "what came back is the start of the label: {text}"
    );
    assert!(
        text.ends_with(TRUNCATION_MARKER),
        "and it is marked as cut: {text}"
    );
    assert!(text.chars().count() < LONG_LABEL.chars().count());
    assert!(
        label.children.is_empty(),
        "the per-line runs repeat the label, so they are folded into it"
    );
}

/// The cut is not a loss: the tree hands out an `id`, and that `id` turns back into the whole
/// text. This is the contract that lets a tree stay small.
#[test]
fn get_widget_returns_the_text_the_tree_cut_short() {
    let app_tree = demo_app_tree();
    let matched = query(
        &app_tree,
        &QueryFilter {
            query: Query {
                content_contains: Some("every word of it".to_owned()),
                ..Default::default()
            },
            ..Default::default()
        },
    )
    .expect("no missing `root`");
    let label = matched.first().expect("the long label matched");
    let cut = label.value.as_deref().expect("a label's text is its value");
    assert!(
        cut.ends_with(TRUNCATION_MARKER),
        "the tree cut it short: {cut}"
    );

    let id = Id::parse(&label.id.text()).expect("the tree's own id parses");
    let node = resolve_unique(&app_tree, &Locator::Id { id })
        .expect("the id the tree just handed out resolves");
    let full = widget_detail(node).value.expect("the same text, in full");
    assert_eq!(full, LONG_LABEL);
    assert!(MAX_TEXT_CHARS < full.chars().count(), "past the cut");
}

/// An exclusion takes a whole subtree with it: the chat panel's own text no longer answers a
/// query meant for the app.
#[test]
fn an_excluded_panel_takes_its_text_with_it() {
    let filter = |exclude| QueryFilter {
        query: Query {
            content_contains: Some("volume".to_owned()),
            ..Default::default()
        },
        exclude,
        ..Default::default()
    };

    let tree = demo_app_tree();
    let unfiltered = query(&tree, &filter(None)).expect("no missing `root`");
    assert!(
        unfiltered
            .iter()
            .any(|node| node.value.as_deref() == Some("where is the volume slider?")),
        "the chat's echo of the question is in the way"
    );

    // The panel itself carries no text, so it is excluded by the id of the node holding it.
    let chat_panel = find_container_of(
        &query(&tree, &QueryFilter::default()).expect("no missing `root`"),
        "Chat",
    )
    .expect("the chat panel is in the tree");
    let excluded = query(
        &tree,
        &filter(Some(Exclusion { id: Some(chat_panel), ..Default::default() })),
    )
    .expect("no missing `root`");
    assert!(
        !excluded
            .iter()
            .any(|node| node.value.as_deref() == Some("where is the volume slider?")),
        "and gone with its panel"
    );
    assert!(
        excluded.iter().any(|node| node.label.as_deref() == Some("Volume")),
        "while the slider itself still answers"
    );
}

/// The id of the nearest node above a `heading`, i.e. the container that holds that section.
fn find_container_of(nodes: &[Widget], heading: &str) -> Option<Id> {
    nodes.iter().find_map(|node| {
        let holds_heading =
            node.children.iter().any(|child| child.value.as_deref() == Some(heading));
        if holds_heading {
            Some(node.id)
        } else {
            find_container_of(&node.children, heading)
        }
    })
}

/// Nothing an agent can act on should reach it without an `id` to act on it with, and the
/// pruning rules shouldn't leave a node that carries nothing at all.
#[test]
fn every_returned_node_is_actionable() {
    fn check(nodes: &[Widget]) {
        for node in nodes {
            assert!(!node.id.text().is_empty(), "every node is addressable");
            assert!(
                node.role.is_some()
                    || node.label.is_some()
                    || node.value.is_some()
                    || !node.children.is_empty(),
                "a node that says nothing should have been pruned: {node:?}"
            );
            check(&node.children);
        }
    }

    let nodes = query(&demo_app_tree(), &QueryFilter::default()).expect("no missing `root`");
    assert!(!nodes.is_empty(), "the app has widgets");
    check(&nodes);
}

/// Every button, lifted out of the panels and rows that hold them.
#[test]
fn buttons_come_without_their_panels() {
    let buttons = query_app(&QueryFilter {
        query: Query { role: Some("Button".to_owned()), ..Default::default() },
        ..Default::default()
    });
    assert!(buttons.iter().all(|node| node.role.as_deref() == Some("Button")));
    let labels: Vec<&str> = buttons.iter().filter_map(|node| node.label.as_deref()).collect();
    assert!(labels.contains(&"Run"), "{labels:?}");
    let reset = buttons
        .iter()
        .find(|node| node.label.as_deref() == Some("Reset"))
        .expect("it is on screen");
    assert!(reset.disabled);
}

/// A tight limit keeps the top of the app, and says how many children each cut node lost.
#[test]
fn a_tight_limit_is_used_up() {
    let whole = query_app(&QueryFilter { limit: usize::MAX, ..Default::default() });
    let cut = query_app(&QueryFilter { limit: 12, ..Default::default() });
    assert!(count(&whole) > 12);
    assert_eq!(count(&cut), 12);
    assert_eq!(cut.len(), whole.len(), "every root is there");
    assert!(cut.iter().any(|node| lost(node) > 0));
}

fn lost(node: &Widget) -> usize {
    node.omitted_children + node.children.iter().map(lost).sum::<usize>()
}
