//! What the inspector says about the displayed frame and the widget in focus.
use vstd::prelude::*;
use vstd::string::*;

use crate::id::Id;
use crate::inspector::{Frame, InspectorApp, StateV};
use crate::outline;
use crate::outline::GridRow;
use crate::source::SourceView;
use crate::text;

verus! {

/// What the widget section shows.
#[derive(Debug, Clone)]
pub enum WidgetSection {
    /// The details of the widget in focus, row by row.
    Details(Vec<GridRow>),
    /// The widget in focus is not part of the displayed frame.
    NotInTree,
    /// Nothing is in focus, or the frame has no nodes.
    Hint,
}

/// What a [`WidgetSection`] holds.
pub enum WidgetSectionV {
    Details(Seq<(Seq<char>, Seq<char>)>),
    NotInTree,
    Hint,
}

impl View for WidgetSection {
    type V = WidgetSectionV;

    open spec fn view(&self) -> WidgetSectionV {
        match *self {
            WidgetSection::Details(rows) => WidgetSectionV::Details(outline::rows_view(rows@)),
            WidgetSection::NotInTree => WidgetSectionV::NotInTree,
            WidgetSection::Hint => WidgetSectionV::Hint,
        }
    }
}

/// Why a widget is outlined on the image.
#[derive(Debug, Clone, Copy, PartialEq, Eq, Structural)]
pub enum Outlined {
    Selected,
    Hovered,
}

impl<P> Frame<P> {
    /// How many nodes came with the frame.
    pub open spec fn node_count(self) -> nat {
        match self.nodes {
            Some(list) => list.nodes@.len(),
            None => 0,
        }
    }

    /// The size of the screenshot in words.
    pub open spec fn size_words(self) -> Option<Seq<char>> {
        match self.screenshot {
            Some(shot) => Some(
                text::numeral(shot.width as nat, 10) + " × "@ + text::numeral(
                    shot.height as nat,
                    10,
                ),
            ),
            None => None,
        }
    }
}

impl<P, E> StateV<P, E> {
    /// The widget to describe: the selected one, else the hovered one.
    pub open spec fn focus(self) -> Option<Id> {
        if self.selected_node is Some {
            self.selected_node
        } else {
            self.hovered_node
        }
    }

    pub open spec fn focus_title(self) -> Seq<char> {
        if self.selected_node is Some {
            "Selected widget"@
        } else if self.hovered_node is Some {
            "Hovered widget"@
        } else {
            "Widget"@
        }
    }

    /// The source to show for a frame: that of the outcome, once there is one, else the frame's.
    pub open spec fn source_for(self, frame: Frame<P>) -> Option<SourceView> {
        match self.test_outcome {
            Some(outcome) if outcome.source is Some => outcome.source,
            _ => frame.source,
        }
    }

    /// What the widget section shows for a frame.
    pub open spec fn section_for(self, frame: Frame<P>) -> WidgetSectionV {
        match (self.focus(), frame.nodes) {
            (Some(id), Some(list)) => match outline::first_with(list.nodes@, id) {
                Some(node) => WidgetSectionV::Details(node.rows()),
                None => WidgetSectionV::NotInTree,
            },
            _ => WidgetSectionV::Hint,
        }
    }

    /// What is said of a frame, row by row; `scale` tells its pixels per point.
    pub open spec fn frame_rows_for(self, frame: Frame<P>, scale: Seq<char>) -> Seq<
        (Seq<char>, Seq<char>),
    > {
        outline::row_if("Peer:"@, self.peer_label) + seq![
            ("Step:"@, text::numeral(frame.step as nat, 10)),
        ] + outline::row_if("Size (px):"@, frame.size_words()) + seq![
            ("Pixels per point:"@, scale),
            ("AccessKit nodes:"@, text::numeral(frame.node_count(), 10)),
        ]
    }

    /// The widgets to outline on the image, while it is inspected and not controlled.
    pub open spec fn outlines(self) -> Seq<(Id, Outlined)> {
        if self.control_enabled {
            Seq::empty()
        } else {
            (match self.selected_node {
                Some(id) => seq![(id, Outlined::Selected)],
                None => Seq::empty(),
            }) + (match self.hovered_node {
                Some(id) if self.selected_node != Some(id) => seq![(id, Outlined::Hovered)],
                _ => Seq::empty(),
            })
        }
    }
}

impl<P, E> InspectorApp<P, E> {
    /// The widget to describe: the selected one, else the hovered one.
    pub fn target(&self) -> (r: Option<Id>)
        ensures
            r == self@.focus(),
            self.selected_node is Some ==> r == self.selected_node,
            self.selected_node is None ==> r == self.hovered_node,
    {
        if self.selected_node.is_some() {
            self.selected_node
        } else {
            self.hovered_node
        }
    }

    /// The title of the widget section.
    pub fn target_title(&self) -> (r: String)
        ensures
            r@ == self@.focus_title(),
            self.selected_node is Some ==> r@ == "Selected widget"@,
            self.selected_node is None && self.hovered_node is Some ==> r@ == "Hovered widget"@,
            self.selected_node is None && self.hovered_node is None ==> r@ == "Widget"@,
    {
        if self.selected_node.is_some() {
            "Selected widget".to_owned()
        } else if self.hovered_node.is_some() {
            "Hovered widget".to_owned()
        } else {
            "Widget".to_owned()
        }
    }

    /// The source to show, if a frame is displayed and there is any. Once the test has finished,
    /// the outcome's source takes priority, so that failures jump to the panic site.
    pub fn source_shown(&self) -> (r: Option<&SourceView>)
        ensures
            r is Some <==> self@.shown() is Some && self@.source_for(self@.shown()->0) is Some,
            r is Some ==> *r->0 == self@.source_for(self@.shown()->0)->0,
            self.view_index >= self.history@.len() ==> r is None,
            self.view_index < self.history@.len() && self.test_outcome is Some
                && self.test_outcome->0.source is Some ==> r is Some && Some(*r->0)
                == self.test_outcome->0.source,
            self.view_index < self.history@.len() && !(self.test_outcome is Some
                && self.test_outcome->0.source is Some) ==> {
                &&& r is Some <==> self.history@[self.view_index as int].source is Some
                &&& r is Some ==> Some(*r->0) == self.history@[self.view_index as int].source
            },
    {
        let frame = match self.view_frame() {
            None => return None,
            Some(frame) => frame,
        };
        if let Some(outcome) = &self.test_outcome {
            if let Some(source) = &outcome.source {
                return Some(source);
            }
        }
        match &frame.source {
            Some(source) => Some(source),
            None => None,
        }
    }

    /// Whether the source is to be scrolled into view; it is so once.
    pub fn take_scroll(&mut self) -> (r: bool)
        requires
            old(self)@.wf(),
        ensures
            r == old(self)@.scroll_pending,
            r == old(self).scroll_pending && !final(self).scroll_pending,
            final(self)@ == (StateV { scroll_pending: false, ..old(self)@ }),
            final(self)@.wf(),
    {
        let pending = self.scroll_pending;
        self.scroll_pending = false;
        pending
    }

    /// What the widget section shows, if a frame is displayed.
    pub fn widget_section(&self) -> (r: Option<WidgetSection>)
        ensures
            r is Some <==> self@.shown() is Some,
            r is Some ==> r->0@ == self@.section_for(self@.shown()->0),
            r is Some <==> self.view_index < self.history@.len(),
            self.view_index < self.history@.len() && self.selected_node is None
                && self.hovered_node is None ==> (r matches Some(WidgetSection::Hint)),
            self.view_index < self.history@.len()
                && self.history@[self.view_index as int].nodes is None ==> (
            r matches Some(WidgetSection::Hint)),
            self.view_index < self.history@.len() ==> (
            self.history@[self.view_index as int].nodes matches Some(list) ==> (match (
                self.selected_node,
                self.hovered_node,
            ) {
                (Some(id), _) => Some(id),
                (None, hovered) => hovered,
            } matches Some(id) ==> match outline::first_with(list.nodes@, id) {
                Some(node) => {
                    &&& r matches Some(WidgetSection::Details(rows))
                    &&& outline::rows_view(rows@) == node.rows()
                },
                None => r matches Some(WidgetSection::NotInTree),
            })),
    {
        let frame = match self.view_frame() {
            None => return None,
            Some(frame) => frame,
        };
        match (self.target(), &frame.nodes) {
            (Some(id), Some(list)) => match list.find(id) {
                Some(node) => Some(WidgetSection::Details(node.details())),
                None => Some(WidgetSection::NotInTree),
            },
            _ => Some(WidgetSection::Hint),
        }
    }

    /// What is said of the displayed frame, row by row; `scale` tells its pixels per point.
    pub fn frame_rows(&self, scale: &str) -> (r: Option<Vec<GridRow>>)
        ensures
            r is Some <==> self@.shown() is Some,
            r is Some ==> outline::rows_view(r->0@) == self@.frame_rows_for(
                self@.shown()->0,
                scale@,
            ),
            r is Some <==> self.view_index < self.history@.len(),
            r is Some ==> ({
                let frame = self.history@[self.view_index as int];
                outline::rows_view(r->0@) == (match self.peer_label {
                    Some(label) => seq![("Peer:"@, label@)],
                    None => Seq::empty(),
                }) + seq![("Step:"@, text::numeral(frame.step as nat, 10))] + (
                match frame.screenshot {
                    Some(shot) => seq![
                        (
                            "Size (px):"@,
                            text::numeral(shot.width as nat, 10) + " × "@ + text::numeral(
                                shot.height as nat,
                                10,
                            ),
                        ),
                    ],
                    None => Seq::empty(),
                }) + seq![
                    ("Pixels per point:"@, scale@),
                    (
                        "AccessKit nodes:"@,
                        text::numeral(
                            match frame.nodes {
                                Some(list) => list.nodes@.len(),
                                None => 0,
                            },
                            10,
                        ),
                    ),
                ]
            }),
    {
        let frame = match self.view_frame() {
            None => return None,
            Some(frame) => frame,
        };
        let mut rows: Vec<GridRow> = Vec::new();
        assert(outline::rows_view(rows@) =~= Seq::empty());
        let label = match &self.peer_label {
            Some(label) => Some(label.clone()),
            None => None,
        };
        outline::push_row(&mut rows, "Peer:", label);
        outline::push_row(&mut rows, "Step:", Some(text::numeral_text(frame.step as u128, 10)));
        let size = match &frame.screenshot {
            Some(shot) => {
                let mut words = text::numeral_text(shot.width as u128, 10);
                words.append(" × ");
                words.append(text::numeral_text(shot.height as u128, 10).as_str());
                Some(words)
            },
            None => None,
        };
        outline::push_row(&mut rows, "Size (px):", size);
        outline::push_row(&mut rows, "Pixels per point:", Some(scale.to_owned()));
        let count: usize = match &frame.nodes {
            Some(list) => list.nodes.len(),
            None => 0,
        };
        outline::push_row(
            &mut rows,
            "AccessKit nodes:",
            Some(text::numeral_text(count as u128, 10)),
        );
        assert(outline::rows_view(rows@) =~= self@.frame_rows_for(*frame, scale@));
        Some(rows)
    }

    /// The widgets to outline on the image, while it is inspected and not controlled.
    pub fn outlined(&self) -> (r: Vec<(Id, Outlined)>)
        ensures
            r@ == self@.outlines(),
            self.control_enabled ==> r@.len() == 0,
            !self.control_enabled ==> {
                &&& forall|id: Id|
                    #![trigger r@.contains((id, Outlined::Selected))]
                    r@.contains((id, Outlined::Selected)) <==> self.selected_node == Some(id)
                &&& forall|id: Id|
                    #![trigger r@.contains((id, Outlined::Hovered))]
                    r@.contains((id, Outlined::Hovered)) <==> self.hovered_node == Some(id)
                        && self.selected_node != Some(id)
                &&& r@.len() <= 2
                &&& r@.len() == 2 ==> r@[0].1 is Selected
                &&& r@.len() == 1 ==> self.selected_node is None || self.hovered_node is None
                    || self.hovered_node == self.selected_node
            },
    {
        let mut r: Vec<(Id, Outlined)> = Vec::new();
        if self.control_enabled {
            return r;
        }
        if let Some(id) = self.selected_node {
            r.push((id, Outlined::Selected));
        }
        if let Some(id) = self.hovered_node {
            let same = match self.selected_node {
                Some(selected) => selected == id,
                None => false,
            };
            if !same {
                r.push((id, Outlined::Hovered));
            }
        }
        assert(r@ =~= self@.outlines());
        proof {
            let ids = r@;
            assert forall|id: Id|
                #![trigger ids.contains((id, Outlined::Selected))]
                ids.contains((id, Outlined::Selected)) <==> self.selected_node == Some(id) by {
                if self.selected_node == Some(id) {
                    assert(ids[0] == (id, Outlined::Selected));
                }
            }
            assert forall|id: Id|
                #![trigger ids.contains((id, Outlined::Hovered))]
                ids.contains((id, Outlined::Hovered)) <==> self.hovered_node == Some(id)
                    && self.selected_node != Some(id) by {
                if self.hovered_node == Some(id) && self.selected_node != Some(id) {
                    assert(ids[ids.len() - 1] == (id, Outlined::Hovered));
                }
            }
        }
        r
    }

    /// Forgets the hovered widget: each frame finds it anew.
    pub fn clear_hover(&mut self)
        requires
            old(self)@.wf(),
        ensures
            final(self)@ == (StateV { hovered_node: None, ..old(self)@ }),
            final(self).hovered_node is None,
            final(self)@.wf(),
    {
        self.hovered_node = None;
    }

    /// The pointer is over this widget. On the image that counts only while it is inspected and
    /// not controlled.
    pub fn hover_image(&mut self, node: Option<Id>)
        requires
            old(self)@.wf(),
        ensures
            final(self)@ == if old(self)@.control_enabled {
                old(self)@
            } else {
                StateV { hovered_node: node, ..old(self)@ }
            },
            final(self).hovered_node == (if old(self).control_enabled {
                old(self).hovered_node
            } else {
                node
            }),
            final(self)@.wf(),
    {
        if !self.control_enabled {
            self.hovered_node = node;
        }
    }

    /// A line of the outline was clicked or hovered.
    pub fn touch_line(&mut self, id: Id, clicked: bool, hovered: bool)
        requires
            old(self)@.wf(),
        ensures
            final(self)@ == (StateV {
                selected_node: if clicked {
                    Some(id)
                } else {
                    old(self)@.selected_node
                },
                hovered_node: if hovered {
                    Some(id)
                } else {
                    old(self)@.hovered_node
                },
                ..old(self)@
            }),
            clicked ==> final(self).selected_node == Some(id),
            !clicked ==> final(self).selected_node == old(self).selected_node,
            hovered ==> final(self).hovered_node == Some(id),
            !hovered ==> final(self).hovered_node == old(self).hovered_node,
            final(self)@.wf(),
    {
        if clicked {
            self.selected_node = Some(id);
        }
        if hovered {
            self.hovered_node = Some(id);
        }
    }
}

}
