//! Queries on hand-built accessibility trees, one rule each.
use accesskit::{Node as AkNode, NodeId, Role, Tree as AkTree, TreeId, TreeUpdate};
use kittest_inspector::id::Id;
use kittest_inspector::limit::{count, count_within, height, prune};
use kittest_inspector::node::{Node, Tree};
use kittest_inspector::query::{Exclusion, Locator, Query, QueryFilter};
use kittest_inspector::resolve::{resolve_unique, ResolveError};
use kittest_inspector::roles::{check_role, known_roles, roles_in_tree, validate_role};
use kittest_inspector::walk::query;
use kittest_inspector::widget::{widget_detail, Widget, MAX_TEXT_CHARS, TRUNCATION_MARKER};

/// What the queries read of a consumer node.
fn capture_node(node: &accesskit_consumer::Node<'_>) -> Node {
    Node {
        id: Id(node.locate().0 .0),
        role: format!("{:?}", node.role()),
        label: node.label(),
        value: node.value(),
        bounds: node.bounding_box(),
        focused: node.is_focused_in_tree(),
        disabled: node.is_disabled(),
        hidden: node.is_hidden(),
        parent_id: node.parent().map(|parent| Id(parent.locate().0 .0)),
        children: node.children().map(|child| capture_node(&child)).collect(),
    }
}

fn capture(tree: &accesskit_consumer::Tree) -> Tree {
    Tree { root: capture_node(&tree.state().root()) }
}

/// ```text
/// root(Window)
/// ├── scaffold(Unknown)          — holds two things, so it stays
/// │   ├── button(Button "OK")
/// │   └── toggle(CheckBox "On")
/// ├── wrapper(GenericContainer)  — holds one thing and says nothing, so it collapses
/// │   └── link(Link "Docs")
/// ├── text(Unknown, label "hi")
/// ├── valued(Unknown, value "42")
/// └── noise(Unknown)             — says nothing at all, so it goes
/// ```
fn test_tree() -> Tree {
    let mut root = AkNode::new(Role::Window);
    root.set_children(vec![NodeId(0x2), NodeId(0x7), NodeId(0xff), NodeId(0x5), NodeId(0x4)]);
    let mut scaffold = AkNode::new(Role::Unknown);
    scaffold.set_children(vec![NodeId(0x3), NodeId(0x6)]);
    let mut button = AkNode::new(Role::Button);
    button.set_label("OK");
    let mut toggle = AkNode::new(Role::CheckBox);
    toggle.set_label("On");
    let mut wrapper = AkNode::new(Role::GenericContainer);
    wrapper.set_children(vec![NodeId(0x8)]);
    let mut link = AkNode::new(Role::Link);
    link.set_label("Docs");
    let mut text = AkNode::new(Role::Unknown);
    text.set_label("hi");
    let mut valued = AkNode::new(Role::Unknown);
    valued.set_value("42");
    let noise = AkNode::new(Role::Unknown);

    capture(&accesskit_consumer::Tree::new(
        TreeUpdate {
            nodes: vec![
                (NodeId(0x1), root),
                (NodeId(0x2), scaffold),
                (NodeId(0x3), button),
                (NodeId(0x6), toggle),
                (NodeId(0x7), wrapper),
                (NodeId(0x8), link),
                (NodeId(0xff), text),
                (NodeId(0x5), valued),
                (NodeId(0x4), noise),
            ],
            tree: Some(AkTree::new(NodeId(0x1))),
            tree_id: TreeId::ROOT,
            focus: NodeId(0x1),
        },
        false,
    ))
}

/// Two chains of the same depth under one root, to watch a `limit` spread across both rather
/// than drain the first: `root → a0 → a1 → a2` and `root → b0 → b1 → b2`.
fn deep_tree() -> Tree {
    let mut nodes = Vec::new();
    let mut root = AkNode::new(Role::Window);
    root.set_children(vec![NodeId(0xa0), NodeId(0xb0)]);
    nodes.push((NodeId(0x1), root));

    for (branch, base) in [("a", 0xa0), ("b", 0xb0)] {
        for depth in 0..3u64 {
            let id = base + depth;
            let mut node = AkNode::new(Role::Label);
            node.set_label(format!("{branch}{depth}"));
            if depth < 2 {
                node.set_children(vec![NodeId(id + 1)]);
            }
            nodes.push((NodeId(id), node));
        }
    }

    capture(&accesskit_consumer::Tree::new(
        TreeUpdate {
            nodes,
            tree: Some(AkTree::new(NodeId(0x1))),
            tree_id: TreeId::ROOT,
            focus: NodeId(0x1),
        },
        false,
    ))
}

fn query_all(filter: &QueryFilter) -> Vec<Widget> {
    query(&test_tree(), filter).expect("the filter names no missing `root`")
}

fn texts(nodes: &[Widget]) -> Vec<String> {
    nodes.iter().map(|node| node.id.text()).collect()
}

fn plain(id: u64, role: &str) -> Node {
    Node {
        id: Id(id),
        role: role.to_owned(),
        label: None,
        value: None,
        bounds: None,
        focused: false,
        disabled: false,
        hidden: false,
        parent_id: None,
        children: Vec::new(),
    }
}

#[test]
fn unfiltered_query_keeps_the_hierarchy_and_drops_scaffolding() {
    let nodes = query_all(&QueryFilter::default());
    assert_eq!(nodes.len(), 1, "one root");
    let root = &nodes[0];
    assert_eq!(root.id, Id(0x1));
    assert_eq!(root.role.as_deref(), Some("Window"));
    // `noise` says nothing, so it's gone; `wrapper` collapses into the link it held; `scaffold`
    // stays, because it holds two things.
    let ids: Vec<String> = root.children.iter().map(|n| n.id.text()).collect();
    assert_eq!(
        ids,
        ["2", "8", "ff", "5"],
        "`8` is the link, standing where its wrapper did"
    );
    assert_eq!(root.children[0].role, None, "`Unknown` is omitted");
    assert_eq!(root.children[0].children[0].id, Id(0x3));
    assert_eq!(count(&nodes), 7);
}

#[test]
fn a_filter_lifts_matches_past_their_unmatched_ancestors() {
    let nodes = query_all(&QueryFilter {
        query: Query { role: Some("button".to_owned()), ..Default::default() },
        ..Default::default()
    });
    assert_eq!(nodes.len(), 1);
    assert_eq!(
        nodes[0].id,
        Id(0x3),
        "the button, not its scaffold or the root"
    );
    assert!(nodes[0].children.is_empty());
}

#[test]
fn a_container_holding_one_thing_and_saying_nothing_collapses() {
    let nodes = query_all(&QueryFilter::default());
    let ids = |nodes: &[Widget]| -> Vec<String> {
        nodes.iter().map(|node| node.id.text()).collect()
    };
    assert!(
        !ids(&nodes[0].children).contains(&"7".to_owned()),
        "`wrapper` had nothing to add and one child to add it to"
    );

    // Unless that role is what the caller asked for — an empty result would be worse.
    let asked = query_all(&QueryFilter {
        query: Query { role: Some("genericcontainer".to_owned()), ..Default::default() },
        ..Default::default()
    });
    assert_eq!(ids(&asked), ["7"]);
}

/// An `Unknown` node has no role to show, but can be asked for by that name like any other.
#[test]
fn an_unknown_container_does_not_collapse_when_asked_for() {
    let mut root = plain(1, "Window");
    let mut outer = plain(2, "Unknown");
    let mut inner = plain(3, "Unknown");
    inner.label = Some("hi".to_owned());
    outer.children.push(inner);
    root.children.push(outer);
    let tree = Tree { root };

    let asked = QueryFilter {
        query: Query { role: Some("unknown".to_owned()), ..Default::default() },
        ..Default::default()
    };
    let nodes = query(&tree, &asked).expect("no root is named");
    assert_eq!(texts(&nodes), ["2"]);
    assert_eq!(texts(&nodes[0].children), ["3"]);
    assert!(!nodes[0].is_pass_through(&asked));

    let whole = query(&tree, &QueryFilter::default()).expect("no root is named");
    assert_eq!(texts(&whole[0].children), ["3"], "without being asked for it collapses");
    assert!(nodes[0].is_pass_through(&QueryFilter::default()));
    let empty = QueryFilter {
        query: Query { role: Some(String::new()), ..Default::default() },
        ..Default::default()
    };
    assert!(nodes[0].is_pass_through(&empty), "the empty text names no role");
}

#[test]
fn an_exclusion_drops_the_matching_node_and_everything_under_it() {
    let nodes = query_all(&QueryFilter {
        exclude: Some(Exclusion {
            query: Query { role: Some("unknown".to_owned()), ..Default::default() },
            ..Default::default()
        }),
        ..Default::default()
    });
    // `scaffold` is excluded, so the button and the check box below it go too, though neither
    // matches the exclusion itself. Only the link is left, whose own wrapper is a
    // `GenericContainer` rather than `Unknown`.
    let ids: Vec<String> = nodes[0].children.iter().map(|n| n.id.text()).collect();
    assert_eq!(
        ids,
        ["8"],
        "the excluded subtrees took their contents with them"
    );
}

/// Every field that takes an id reads it with [`Id::parse`].
#[test]
fn a_malformed_id_is_an_error_rather_than_no_id() {
    let err = Id::parse("not-hex").expect_err("`not-hex` is not an id");
    assert!(err.to_string().contains("invalid widget id"), "{err}");

    let err = Id::parse("0x12ab").expect_err("the `0x` prefix is not part of the format");
    assert!(err.to_string().contains("invalid widget id"), "{err}");

    let filter = QueryFilter { root: Some("12ab".parse().expect("plain hex")), ..Default::default() };
    assert_eq!(filter.root, Some(Id(0x12ab)));
}

#[test]
fn a_root_walks_one_subtree_and_a_missing_one_is_an_error() {
    let nodes = query_all(&QueryFilter {
        // `scaffold`, which holds the button and the check box.
        root: Some(Id(0x2)),
        ..Default::default()
    });
    assert_eq!(count(&nodes), 3, "the subtree, not the app");
    assert_eq!(nodes[0].id, Id(0x2));
    assert_eq!(nodes[0].children[0].label.as_deref(), Some("OK"));

    let err = query(
        &test_tree(),
        &QueryFilter { root: Some(Id(0xdead)), ..Default::default() },
    )
    .expect_err("no widget has that id")
    .message(None);
    assert!(err.contains("dead"), "{err}");
    assert_eq!(err, "no node found matching id `dead`");
}

#[test]
fn an_empty_exclusion_excludes_nothing() {
    let all = query_all(&QueryFilter::default());
    let with_empty_exclusion = query_all(&QueryFilter {
        exclude: Some(Exclusion::default()),
        ..Default::default()
    });
    assert_eq!(count(&all), count(&with_empty_exclusion));
}

#[test]
fn a_limit_spreads_across_branches_instead_of_draining_one() {
    // Levels 0..=2 are 1 + 2 + 2 = 5 nodes, so they all fit; level 3 does not.
    let nodes = query(&deep_tree(), &QueryFilter { limit: 5, ..Default::default() })
        .expect("no `root` to miss");
    assert_eq!(count(&nodes), 5);

    let labels = |nodes: &[Widget]| -> Vec<String> {
        nodes.iter().filter_map(|node| node.label.clone()).collect()
    };
    let top = labels(&nodes[0].children);
    assert_eq!(
        top,
        ["a0", "b0"],
        "both branches, not one branch twice as deep"
    );
    for branch in &nodes[0].children {
        assert_eq!(
            labels(&branch.children).len(),
            1,
            "one level deeper, in both"
        );
        assert_eq!(
            branch.children[0].omitted_children, 1,
            "and each says what it is hiding"
        );
    }
}

#[test]
fn limit_keeps_whole_levels_and_says_what_it_dropped() {
    // The root (1) fits, the level below (4) doesn't, so the root is kept whole and the one
    // node the budget has left goes to its first child.
    let nodes = query_all(&QueryFilter { limit: 2, ..Default::default() });
    assert_eq!(count(&nodes), 2);
    assert_eq!(nodes[0].children.len(), 1);
    assert_eq!(nodes[0].omitted_children, 3, "the link, `ff` and `5`");
    assert_eq!(
        nodes[0].children[0].omitted_children, 2,
        "and both widgets below the kept child"
    );

    // A budget that fits every level leaves the tree alone.
    let whole = query_all(&QueryFilter::default());
    assert_eq!(count(&whole), 7);
    assert!(whole.iter().all(|node| node.omitted_children == 0));

    assert!(query_all(&QueryFilter { limit: 0, ..Default::default() }).is_empty());
}

#[test]
fn a_limit_below_the_number_of_roots_keeps_the_first_ones() {
    let forest = |limit: usize| {
        query_all(&QueryFilter {
            query: Query { role: Some("unknown".to_owned()), ..Default::default() },
            limit,
            ..Default::default()
        })
    };
    assert_eq!(texts(&forest(usize::MAX)), ["ff", "5"]);
    assert_eq!(texts(&forest(1)), ["ff"]);

    let by_text = query_all(&QueryFilter {
        query: Query { content_contains: Some("O".to_owned()), ..Default::default() },
        limit: 2,
        ..Default::default()
    });
    assert_eq!(texts(&by_text), ["3", "6"], "OK, On and Docs match; the first two fit");
}

#[test]
fn levels_are_counted_from_the_roots() {
    let whole = query(&deep_tree(), &QueryFilter::default()).expect("no root is named");
    assert_eq!(height(&whole), 4);
    assert_eq!(count_within(&whole, 0), 1);
    assert_eq!(count_within(&whole, 1), 3);
    assert_eq!(count_within(&whole, 2), 5);
    assert_eq!(count_within(&whole, 3), 7);
    assert_eq!(count_within(&whole, 30), count(&whole));
    assert_eq!(height(&Vec::new()), 0);
}

#[test]
fn a_limit_keeps_a_start_of_the_level_order() {
    fn paths(nodes: &[Widget], above: &str, depth: usize) -> Vec<String> {
        nodes
            .iter()
            .flat_map(|node| {
                let path = format!("{above}/{}", node.id.text());
                if depth == 0 { vec![path] } else { paths(&node.children, &path, depth - 1) }
            })
            .collect()
    }
    let level_order = |limit: usize| -> Vec<String> {
        let nodes = query(&deep_tree(), &QueryFilter { limit, ..Default::default() })
            .expect("no root is named");
        (0..height(&nodes)).flat_map(|depth| paths(&nodes, "", depth)).collect()
    };
    let whole = level_order(usize::MAX);
    assert_eq!(
        whole,
        [
            "/1", "/1/a0", "/1/b0", "/1/a0/a1", "/1/b0/b1", "/1/a0/a1/a2", "/1/b0/b1/b2"
        ]
    );
    for limit in 0..9 {
        assert_eq!(level_order(limit), whole[..limit.min(7)], "{limit}");
    }
}

#[test]
fn pruning_spends_on_the_level_below_the_kept_ones() {
    for (depth, extra, kept, left) in
        [(0, 0, 1, 0), (0, 1, 2, 0), (0, 5, 3, 3), (1, 1, 4, 0), (2, 9, 7, 7), (3, 2, 7, 2)]
    {
        let mut nodes = query(&deep_tree(), &QueryFilter::default()).expect("no root is named");
        let mut rest = extra;
        prune(&mut nodes, depth, &mut rest);
        assert_eq!((count(&nodes), rest), (kept, left), "{depth} {extra}");
    }
}

#[test]
fn a_limit_is_used_up_below_a_root_too() {
    for (limit, expected) in [(0, 0), (1, 1), (2, 2), (3, 3), (9, 3)] {
        let nodes = query_all(&QueryFilter { root: Some(Id(0x2)), limit, ..Default::default() });
        assert_eq!(count(&nodes), expected, "{limit}");
    }
}

#[test]
fn omitted_children_come_back_from_a_query_at_their_parent() {
    let cut = query_all(&QueryFilter { limit: 1, ..Default::default() });
    assert_eq!(cut[0].omitted_children, 4);
    let below = query_all(&QueryFilter { root: Some(cut[0].id), ..Default::default() });
    assert_eq!(below[0].children.len(), 4);
}

#[test]
fn matching_ignores_ascii_case_only() {
    let mut root = plain(1, "Window");
    let mut label = plain(2, "Label");
    label.value = Some("Ärger and MORE".to_owned());
    root.children.push(label);
    let tree = Tree { root };
    let hits = |needle: &str| {
        query(
            &tree,
            &QueryFilter {
                query: Query { value_contains: Some(needle.to_owned()), ..Default::default() },
                ..Default::default()
            },
        )
        .expect("no root is named")
        .len()
    };
    assert_eq!(hits("more"), 1);
    assert_eq!(hits("Ärger AND"), 1);
    assert_eq!(hits("ärger"), 0);
    assert_eq!(hits(""), 1, "a widget with no value holds the empty text, but says nothing");
}

#[test]
fn hidden_widgets_are_skipped_unless_asked_for() {
    let mut root = plain(1, "Window");
    let mut hidden = plain(2, "Button");
    hidden.label = Some("Later".to_owned());
    hidden.hidden = true;
    root.children.push(hidden);
    let tree = Tree { root };
    let visible = query(&tree, &QueryFilter::default()).expect("no root is named");
    assert!(visible[0].children.is_empty());
    let all = query(&tree, &QueryFilter { visible_only: false, ..Default::default() })
        .expect("no root is named");
    assert_eq!(all[0].children[0].label.as_deref(), Some("Later"));
    assert!(all[0].children[0].hidden);
}

#[test]
fn lines_of_text_are_folded_into_the_widget_that_holds_them() {
    let mut root = plain(1, "Label");
    root.value = Some("one two".to_owned());
    for (id, line) in [(2, "one "), (3, "two"), (4, "three")] {
        let mut run = plain(id, "TextRun");
        run.value = Some(line.to_owned());
        root.children.push(run);
    }
    let nodes = query(&Tree { root }, &QueryFilter::default()).expect("no root is named");
    assert_eq!(texts(&nodes[0].children), ["4"], "only the line that is nowhere else stays");
}

#[test]
fn a_long_line_of_text_is_folded_though_it_is_cut() {
    let long: String = "x".repeat(MAX_TEXT_CHARS + 20);
    let mut root = plain(1, "Label");
    root.label = Some(long.clone());
    let mut run = plain(2, "TextRun");
    run.value = Some(long);
    root.children.push(run);
    let nodes = query(&Tree { root }, &QueryFilter::default()).expect("no root is named");
    assert!(nodes[0].children.is_empty());
    let label = nodes[0].label.as_deref().expect("it has one");
    assert_eq!(label.chars().count(), MAX_TEXT_CHARS + TRUNCATION_MARKER.chars().count());
    assert!(label.ends_with(TRUNCATION_MARKER));
}

#[test]
fn a_text_of_just_the_limit_is_not_cut() {
    let text: String = "ä".repeat(MAX_TEXT_CHARS);
    let mut root = plain(1, "Label");
    root.label = Some(text.clone());
    let nodes = query(&Tree { root }, &QueryFilter::default()).expect("no root is named");
    assert_eq!(nodes[0].label, Some(text));
}

#[test]
fn a_locator_needs_an_id_or_a_constraint() {
    assert!(Locator::from_fields(None, Query::default()).is_none());
    assert!(matches!(
        Locator::from_fields(Some(Id(3)), Query::default()),
        Some(Locator::Id { id: Id(3) })
    ));
    let query = Query { role: Some("Button".to_owned()), ..Default::default() };
    assert!(!query.is_empty());
    assert!(matches!(
        Locator::from_fields(Some(Id(3)), query.clone()),
        Some(Locator::Id { id: Id(3) })
    ));
    assert!(matches!(Locator::from_fields(None, query), Some(Locator::Match { .. })));
}

#[test]
fn a_locator_that_matches_one_node_resolves_to_it() {
    let tree = test_tree();
    let node = resolve_unique(&tree, &Locator::Id { id: Id(0x6) }).expect("the check box");
    assert_eq!(node.label.as_deref(), Some("On"));
    let detail = widget_detail(node);
    assert_eq!((detail.id, detail.parent_id), (Id(0x6), Some(Id(0x2))));
    assert_eq!(detail.role, "CheckBox");

    let docs = Query { label_contains: Some("doc".to_owned()), ..Default::default() };
    let node = resolve_unique(&tree, &Locator::Match { query: docs }).expect("the link");
    assert_eq!(node.id, Id(0x8));
}

#[test]
fn a_locator_that_matches_none_or_several_is_an_error() {
    let tree = test_tree();
    let locator = Locator::Match {
        query: Query {
            role: Some("Slider".to_owned()),
            value_contains: Some("1".to_owned()),
            ..Default::default()
        },
    };
    let err = resolve_unique(&tree, &locator).expect_err("there is no slider");
    assert!(matches!(err, ResolveError::NotFound { .. }));
    assert_eq!(
        err.message(None),
        "no node found matching role `Slider` and value containing `1`"
    );

    let locator = Locator::Match {
        query: Query { content_contains: Some("o".to_owned()), ..Default::default() },
    };
    let err = resolve_unique(&tree, &locator).expect_err("three widgets match");
    match &err {
        ResolveError::Ambiguous { what, matches } => {
            assert_eq!(what, "label or value containing `o`");
            let ids: Vec<Id> = matches.iter().map(|detail| detail.id).collect();
            assert_eq!(ids, [Id(0x3), Id(0x6), Id(0x8)]);
        }
        ResolveError::NotFound { .. } => panic!("they were found"),
    }
    let start = "label or value containing `o` matched 3 nodes — narrow the locator \
        (`content_contains`/`role`/`label_contains`/`value_contains`), or target a specific `id`. \
        Matches:\n";
    assert_eq!(err.message(Some("[]")), format!("{start}[]"));
    assert_eq!(err.message(None), format!("{start}3 nodes"));
}

#[test]
fn a_query_describes_its_constraints() {
    assert_eq!(Query::default().describe(), "the locator");
    let all = Query {
        content_contains: Some("c".to_owned()),
        role: Some("r".to_owned()),
        label_contains: Some("l".to_owned()),
        value_contains: Some("v".to_owned()),
    };
    assert_eq!(
        all.describe(),
        "label or value containing `c` and role `r` and label containing `l` and value containing `v`"
    );
}

#[test]
fn known_roles_are_those_of_accesskit() {
    let known = known_roles();
    let all: Vec<String> = (0u8..=u8::MAX).map_while(Role::n).map(|role| format!("{role:?}")).collect();
    assert_eq!(known, all);
    assert!(known.len() > 100);
    assert_eq!(known[0], "Unknown");
    assert!(known.contains(&"GenericContainer".to_owned()));
    assert!(known.contains(&"TextRun".to_owned()));
}

#[test]
fn a_role_is_valid_if_accesskit_has_it() {
    assert_eq!(validate_role("bUTTON", None), Ok(()));
    assert_eq!(
        validate_role("Buton", None),
        Err("unknown role `Buton` — roles present in the current tree: (no nodes in the current tree)"
            .to_owned())
    );
    let tree = test_tree();
    assert_eq!(
        validate_role("nope", Some(&tree)),
        Err("unknown role `nope` — roles present in the current tree: \
             Button, CheckBox, GenericContainer, Link, Unknown, Window"
            .to_owned())
    );
    let mine = vec!["Gadget".to_owned()];
    assert_eq!(check_role("gadget", &mine, None), Ok(()));
    assert!(check_role("Button", &mine, None).is_err());
}

#[test]
fn the_roles_of_a_tree_are_sorted_and_distinct() {
    assert_eq!(
        roles_in_tree(&test_tree()),
        ["Button", "CheckBox", "GenericContainer", "Link", "Unknown", "Window"]
    );
}

#[test]
fn a_copy_of_a_widget_is_the_same_widget() {
    let nodes = query_all(&QueryFilter { limit: 4, ..Default::default() });
    assert_eq!(format!("{:?}", nodes.clone()), format!("{nodes:?}"));
}

#[test]
fn bounds_are_handed_on_as_they_are() {
    let mut root = plain(1, "Window");
    root.bounds = Some(accesskit::Rect { x0: 1.0, y0: 2.0, x1: 30.0, y1: 40.0 });
    let detail = widget_detail(&root);
    assert_eq!(
        detail.bounds,
        Some(accesskit::Rect { x0: 1.0, y0: 2.0, x1: 30.0, y1: 40.0 })
    );
}
