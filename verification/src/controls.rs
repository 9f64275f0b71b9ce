//! The inspector's controls: which are enabled, what they do, and the status beside them.
use vstd::prelude::*;
use vstd::string::*;

use crate::inspector;
use crate::inspector::{Command, CommandV, InspectorApp, PlayState, StateV};
use crate::text;

verus! {

/// The least width or height to ask for, in logical points.
pub const MIN_RESIZE: u32 = 1;

/// The greatest width or height to ask for, in logical points.
pub const MAX_RESIZE: u32 = 8192;

/// Shown once a copy of the history is under way.
pub const COPYING: &'static str = "Encoding + copying GIF on background thread — see log";

/// Something the user did to a control.
#[derive(Debug, Clone, Copy, PartialEq, Eq, Structural)]
pub enum Click {
    Play,
    /// Block the harness at its next hook.
    Pause,
    /// Advance one frame.
    Step,
    /// Let the harness run until the next run has ended.
    Run,
    /// To the previous frame in history.
    Back,
    /// To the next frame in history.
    Forward,
    /// To the newest frame.
    Live,
    /// To the frame with this number, counted from one.
    Scrub(usize),
    /// Copy the history as an animation.
    CopyGif,
    /// Forward events to the peer, or stop doing so.
    Control(bool),
    Screenshot,
    /// Ask for the chosen size.
    Resize,
    /// Stop pinning the selected widget.
    ClearSelection,
    /// The rendered frame itself.
    Image,
}

/// How the status is to be read.
#[derive(Debug, Clone, Copy, PartialEq, Eq, Structural)]
pub enum Tone {
    Plain,
    Passed,
    Failed,
}

/// The status beside the controls.
#[derive(Debug, Clone)]
pub struct Status {
    pub tone: Tone,
    pub words: String,
}

/// What kind of input event waits to be forwarded.
#[derive(Debug, Clone, Copy, PartialEq, Eq, Structural)]
pub enum InputKind {
    PointerMoved,
    PointerButton,
    PointerGone,
    MouseWheel,
    /// Text, keys, clipboard and input-method events.
    Typed,
    Other,
}

/// Pointer moves and buttons are forwarded inside the image, the wheel while the image is
/// hovered, and the pointer leaving and anything typed always.
pub open spec fn forwards(kind: InputKind, inside_image: bool, image_hovered: bool) -> bool {
    match kind {
        InputKind::PointerMoved => inside_image,
        InputKind::PointerButton => inside_image,
        InputKind::PointerGone => true,
        InputKind::MouseWheel => image_hovered,
        InputKind::Typed => true,
        InputKind::Other => false,
    }
}

pub open spec fn bounded(n: u32) -> u32 {
    if n < MIN_RESIZE {
        MIN_RESIZE
    } else if n > MAX_RESIZE {
        MAX_RESIZE
    } else {
        n
    }
}

impl<P, E> StateV<P, E> {
    /// Can the user do this?
    pub open spec fn enables(self, click: Click) -> bool {
        match click {
            Click::Play => self.connected && !self.control_enabled,
            Click::Pause => self.connected,
            Click::Step => self.connected && self.harness_blocked,
            Click::Run => self.connected && self.harness_blocked,
            Click::Back => self.view_index > 0,
            Click::Forward => self.view_index + 1 < self.history.len(),
            Click::Live => self.view_index + 1 < self.history.len(),
            Click::Scrub(number) => 1 <= number <= self.history.len(),
            Click::CopyGif => self.history.len() > 0,
            Click::Control(on) => self.connected,
            Click::Screenshot => self.connected,
            Click::Resize => self.connected && self.resize_target is Some,
            Click::ClearSelection => self.selected_node is Some,
            Click::Image => !self.control_enabled,
        }
    }

    /// The state after the user did this. A disabled control does nothing.
    pub open spec fn clicked(self, click: Click) -> StateV<P, E> {
        if !self.enables(click) {
            self
        } else {
            match click {
                Click::Play => StateV { play_state: PlayState::Playing, ..self },
                Click::Pause => StateV { play_state: PlayState::Paused, ..self },
                Click::Step => StateV { play_state: PlayState::Paused, ..self },
                Click::Run => StateV { play_state: PlayState::Playing, ..self },
                Click::Back => self.viewing(self.view_index - 1),
                Click::Forward => self.viewing(self.view_index + 1),
                Click::Live => self.viewing(self.history.len() - 1),
                Click::Scrub(number) => self.viewing(number - 1),
                Click::CopyGif => StateV { status_message: Some(COPYING@), ..self },
                Click::Control(on) => self.controlling(on),
                Click::Screenshot => StateV { awaiting_screenshot: true, ..self },
                Click::Resize => self,
                Click::ClearSelection => StateV { selected_node: None, ..self },
                Click::Image => StateV { selected_node: self.hovered_node, ..self },
            }
        }
    }

    /// What the peer is sent when the user does this.
    pub open spec fn sends(self, click: Click) -> Option<CommandV<E>> {
        if !self.enables(click) {
            None
        } else {
            match click {
                Click::Play => Some(CommandV::Play),
                Click::Pause => Some(CommandV::Pause),
                Click::Step => Some(CommandV::Step),
                Click::Run => Some(CommandV::Run),
                Click::Screenshot => Some(CommandV::Screenshot),
                Click::Resize => {
                    let (width, height) = self.resize_target->0;
                    Some(CommandV::Resize { width, height })
                },
                _ => None,
            }
        }
    }

    /// Control mode on or off. Events that wait are dropped when it ends.
    pub open spec fn controlling(self, on: bool) -> StateV<P, E> {
        StateV {
            control_enabled: on,
            queued_events: if on {
                self.queued_events
            } else {
                Seq::empty()
            },
            ..self
        }
    }

    /// What the status says, and how it is to be read.
    pub open spec fn status_shown(self) -> (Tone, Seq<char>) {
        match self.test_outcome {
            Some(outcome) => if outcome.ok {
                (Tone::Passed, "✅ test passed"@)
            } else {
                (
                    Tone::Failed,
                    "❌ test failed: "@ + match outcome.message {
                        Some(message) => message@,
                        None => "(no message)"@,
                    },
                )
            },
            None => (
                Tone::Plain,
                if !self.connected {
                    "harness disconnected"@
                } else if self.harness_blocked {
                    "harness blocked"@
                } else {
                    "harness running"@
                },
            ),
        }
    }
}

impl<P, E> InspectorApp<P, E> {
    /// Can the user do this?
    pub fn is_enabled(&self, click: Click) -> (r: bool)
        requires
            self@.wf(),
        ensures
            r == self@.enables(click),
            r == match click {
                Click::Play => self.connected && !self.control_enabled,
                Click::Pause | Click::Screenshot | Click::Control(_) => self.connected,
                Click::Step | Click::Run => self.connected && self.harness_blocked,
                Click::Back => self.view_index > 0,
                Click::Forward | Click::Live => self.view_index + 1 < self.history@.len(),
                Click::Scrub(number) => 1 <= number && number <= self.history@.len(),
                Click::CopyGif => self.history@.len() > 0,
                Click::Resize => self.connected && self.resize_target is Some,
                Click::ClearSelection => self.selected_node is Some,
                Click::Image => !self.control_enabled,
            },
    {
        match click {
            Click::Play => self.connected && !self.control_enabled,
            Click::Pause => self.connected,
            Click::Step => self.connected && self.harness_blocked(),
            Click::Run => self.connected && self.harness_blocked(),
            Click::Back => self.view_index > 0,
            Click::Forward => self.history.len() > 0 && self.view_index < self.history.len() - 1,
            Click::Live => self.history.len() > 0 && self.view_index < self.history.len() - 1,
            Click::Scrub(number) => 1 <= number && number <= self.history.len(),
            Click::CopyGif => self.history.len() > 0,
            Click::Control(_) => self.connected,
            Click::Screenshot => self.connected,
            Click::Resize => self.connected && self.resize_target.is_some(),
            Click::ClearSelection => self.selected_node.is_some(),
            Click::Image => !self.control_enabled,
        }
    }

    /// Does what the user asked for, if it is enabled, and says what to send to the peer.
    pub fn click(&mut self, click: Click) -> (r: Option<Command<E>>)
        requires
            old(self)@.wf(),
        ensures
            final(self)@ == old(self)@.clicked(click),
            click is Play && old(self).connected && !old(self).control_enabled ==> final(self).play_state
                is Playing && r == Some(Command::<E>::Play),
            click is Pause && old(self).connected ==> final(self).play_state is Paused && r == Some(
                Command::<E>::Pause,
            ),
            click is Step && old(self).connected && old(self).harness_blocked ==> final(self).play_state
                is Paused && r == Some(Command::<E>::Step),
            click is Run && old(self).connected && old(self).harness_blocked ==> final(self).play_state
                is Playing && r == Some(Command::<E>::Run),
            click is Screenshot && old(self).connected ==> final(self).awaiting_screenshot && r
                == Some(Command::<E>::Screenshot),
            click is Resize && old(self).connected ==> (old(self).resize_target matches Some((w, h))
                ==> r == Some(Command::<E>::Resize { width: w, height: h })),
            !(click is Play || click is Pause || click is Step || click is Run || click is Screenshot
                || click is Resize) ==> r is None,
            r is None && !(click is Back || click is Forward || click is Live || click is Scrub
                || click is CopyGif || click is Control || click is ClearSelection || click is Image)
                ==> final(self)@ == old(self)@,
            !(click is Play || click is Pause || click is Step || click is Run) ==> final(self).play_state
                == old(self).play_state,
            !(click is Screenshot) ==> final(self).awaiting_screenshot == old(self).awaiting_screenshot,
            click is Back && old(self).view_index > 0 ==> final(self).view_index + 1 == old(self).view_index,
            click is Forward && old(self).view_index + 1 < old(self).history@.len() ==> final(
                self).view_index == old(self).view_index + 1,
            click is Live && old(self).history@.len() > 0 ==> final(self).view_index + 1 == old(
                self).history@.len(),
            (click matches Click::Scrub(number) ==> (1 <= number && number <= old(self).history@.len()
                ==> final(self).view_index + 1 == number)),
            !(click is Back || click is Forward || click is Live || click is Scrub) ==> final(
                self).view_index == old(self).view_index,
            final(self).scroll_pending <==> old(self).scroll_pending || final(self).view_index != old(
                self).view_index,
            click is CopyGif && old(self).history@.len() > 0 ==> final(self).status_message is Some
                && final(self).status_message->0@
                == "Encoding + copying GIF on background thread — see log"@,
            !(click is CopyGif && old(self).history@.len() > 0) ==> text::opt_view(
                final(self).status_message,
            ) == text::opt_view(old(self).status_message),
            (click matches Click::Control(on) ==> (old(self).connected ==> {
                &&& final(self).control_enabled == on
                &&& on ==> final(self).queued_events@ == old(self).queued_events@
                &&& !on ==> final(self).queued_events@.len() == 0
            })),
            !(click is Control && old(self).connected) ==> final(self).control_enabled == old(
                self).control_enabled && final(self).queued_events@ == old(self).queued_events@,
            click is ClearSelection ==> final(self).selected_node is None,
            click is Image && !old(self).control_enabled ==> final(self).selected_node == old(
                self).hovered_node,
            !(click is ClearSelection || click is Image && !old(self).control_enabled) ==> final(
                self).selected_node == old(self).selected_node,
            final(self).history@ == old(self).history@,
            final(self).harness_blocked == old(self).harness_blocked,
            final(self).test_outcome == old(self).test_outcome,
            final(self).textured_step == old(self).textured_step,
            final(self).connected == old(self).connected,
            final(self).hovered_node == old(self).hovered_node,
            final(self).resize_target == old(self).resize_target,
            text::opt_view(final(self).peer_label) == text::opt_view(old(self).peer_label),
            inspector::command_view(r) == old(self)@.sends(click),
            final(self)@.wf(),
    {
        if !self.is_enabled(click) {
            return None;
        }
        match click {
            Click::Play => {
                self.play_state = PlayState::Playing;
                Some(Command::Play)
            },
            Click::Pause => {
                self.play_state = PlayState::Paused;
                Some(Command::Pause)
            },
            Click::Step => {
                self.play_state = PlayState::Paused;
                Some(Command::Step)
            },
            Click::Run => {
                self.play_state = PlayState::Playing;
                Some(Command::Run)
            },
            Click::Back => {
                self.set_view_index(self.view_index - 1);
                None
            },
            Click::Forward => {
                let total: usize = self.history.len();
                assert(self.view_index + 1 < total);
                self.set_view_index(self.view_index + 1);
                None
            },
            Click::Live => {
                self.set_view_index(self.history.len() - 1);
                None
            },
            Click::Scrub(number) => {
                self.set_view_index(number - 1);
                None
            },
            Click::CopyGif => {
                self.status_message = Some(COPYING.to_owned());
                None
            },
            Click::Control(on) => {
                self.set_control(on);
                None
            },
            Click::Screenshot => {
                self.awaiting_screenshot = true;
                Some(Command::Screenshot)
            },
            Click::Resize => match self.resize_target {
                Some((width, height)) => Some(Command::Resize { width, height }),
                None => None,
            },
            Click::ClearSelection => {
                self.selected_node = None;
                None
            },
            Click::Image => {
                self.selected_node = self.hovered_node;
                None
            },
        }
    }

    fn set_control(&mut self, on: bool)
        requires
            old(self)@.wf(),
        ensures
            final(self)@ == old(self)@.controlling(on),
            final(self)@.wf(),
    {
        self.control_enabled = on;
        if !on {
            self.queued_events = Vec::new();
        }
        assert(self@ =~= old(self)@.controlling(on));
    }

    /// Ends control mode once the peer is gone: there is nothing to drive.
    pub fn release_control(&mut self)
        requires
            old(self)@.wf(),
        ensures
            final(self)@ == if old(self)@.connected {
                old(self)@
            } else {
                old(self)@.controlling(false)
            },
            final(self)@.wf(),
            old(self).connected ==> final(self).control_enabled == old(self).control_enabled
                && final(self).queued_events@ == old(self).queued_events@,
            !old(self).connected ==> !final(self).control_enabled && final(self).queued_events@.len() == 0,
    {
        if !self.connected {
            self.set_control(false);
        }
    }

    /// Changes the size to ask for, once there is one.
    pub fn set_resize_target(&mut self, width: u32, height: u32)
        requires
            old(self)@.wf(),
        ensures
            final(self)@ == if old(self)@.resize_target is Some {
                StateV { resize_target: Some((bounded(width), bounded(height))), ..old(self)@ }
            } else {
                old(self)@
            },
            old(self).resize_target is Some ==> {
                &&& final(self).resize_target matches Some((w, h))
                &&& 1 <= w <= 8192 && 1 <= h <= 8192
                &&& 1 <= width <= 8192 ==> w == width
                &&& 1 <= height <= 8192 ==> h == height
                &&& width == 0 ==> w == 1
                &&& height == 0 ==> h == 1
                &&& width > 8192 ==> w == 8192
                &&& height > 8192 ==> h == 8192
            },
            final(self)@.wf(),
    {
        if self.resize_target.is_some() {
            self.resize_target = Some((bound(width), bound(height)));
        }
    }

    /// Queues an input event for the peer, if events of its kind are forwarded where it
    /// happened.
    pub fn forward_event(
        &mut self,
        kind: InputKind,
        inside_image: bool,
        image_hovered: bool,
        event: E,
    )
        requires
            old(self)@.wf(),
            old(self)@.control_enabled,
        ensures
            final(self)@ == if forwards(kind, inside_image, image_hovered) {
                StateV { queued_events: old(self)@.queued_events.push(event), ..old(self)@ }
            } else {
                old(self)@
            },
            kind is PointerMoved || kind is PointerButton ==> final(self).queued_events@ == (
            if inside_image {
                old(self).queued_events@.push(event)
            } else {
                old(self).queued_events@
            }),
            kind is MouseWheel ==> final(self).queued_events@ == (if image_hovered {
                old(self).queued_events@.push(event)
            } else {
                old(self).queued_events@
            }),
            kind is PointerGone || kind is Typed ==> final(self).queued_events@ == old(self).queued_events@.push(event),
            kind is Other ==> final(self).queued_events@ == old(self).queued_events@,
            final(self)@.wf(),
    {
        let forwarded = match kind {
            InputKind::PointerMoved => inside_image,
            InputKind::PointerButton => inside_image,
            InputKind::PointerGone => true,
            InputKind::MouseWheel => image_hovered,
            InputKind::Typed => true,
            InputKind::Other => false,
        };
        if forwarded {
            self.queued_events.push(event);
        }
    }

    /// What the status says, and how it is to be read.
    pub fn status(&self) -> (r: Status)
        ensures
            (r.tone, r.words@) == self@.status_shown(),
            self.test_outcome matches Some(outcome) ==> {
                &&& outcome.ok ==> r.tone is Passed && r.words@ == "✅ test passed"@
                &&& !outcome.ok && outcome.message is None ==> r.tone is Failed && r.words@
                    == "❌ test failed: "@ + "(no message)"@
                &&& !outcome.ok ==> (outcome.message matches Some(message) ==> r.tone is Failed
                    && r.words@ == "❌ test failed: "@ + message@)
            },
            self.test_outcome is None ==> r.tone is Plain,
            self.test_outcome is None && !self.connected ==> r.words@ == "harness disconnected"@,
            self.test_outcome is None && self.connected && self.harness_blocked ==> r.words@
                == "harness blocked"@,
            self.test_outcome is None && self.connected && !self.harness_blocked ==> r.words@
                == "harness running"@,
    {
        match &self.test_outcome {
            Some(outcome) => {
                if outcome.ok {
                    Status { tone: Tone::Passed, words: "✅ test passed".to_owned() }
                } else {
                    let mut words = "❌ test failed: ".to_owned();
                    match &outcome.message {
                        Some(message) => words.append(message.as_str()),
                        None => words.append("(no message)"),
                    }
                    Status { tone: Tone::Failed, words }
                }
            },
            None => {
                let words = if !self.connected {
                    "harness disconnected".to_owned()
                } else if self.harness_blocked() {
                    "harness blocked".to_owned()
                } else {
                    "harness running".to_owned()
                };
                Status { tone: Tone::Plain, words }
            },
        }
    }

    /// The number of the displayed frame, counted from one, once there is a frame.
    pub fn scrub_position(&self) -> (r: Option<usize>)
        requires
            self@.wf(),
        ensures
            r is Some <==> self@.history.len() > 0,
            r is Some ==> r->0 == self@.view_index + 1,
            r is Some <==> self.history@.len() > 0,
            r is Some ==> r->0 == self.view_index + 1,
    {
        if self.history.len() > 0 {
            Some(self.view_index + 1)
        } else {
            None
        }
    }

    /// What stands beside the number of the displayed frame: how many there are.
    pub fn scrub_text(&self) -> (r: String)
        ensures
            r@ == "/ "@ + text::numeral(self@.history.len(), 10),
            r@ == "/ "@ + text::numeral(self.history@.len(), 10),
    {
        let mut words = "/ ".to_owned();
        words.append(text::numeral_text(self.history.len() as u128, 10).as_str());
        words
    }
}

fn bound(n: u32) -> (r: u32)
    ensures
        r == bounded(n),
{
    if n < MIN_RESIZE {
        MIN_RESIZE
    } else if n > MAX_RESIZE {
        MAX_RESIZE
    } else {
        n
    }
}

}
