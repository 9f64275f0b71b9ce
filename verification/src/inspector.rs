//! The state of the inspector, and what messages from the peer do to it.
use vstd::prelude::*;
use vstd::string::*;

use crate::id::Id;
use crate::outline::NodeList;
use crate::screenshot;
use crate::screenshot::{Picture, Screenshot};
use crate::source::SourceView;
use crate::text;

verus! {

/// The inspector's view of the harness mode.
///
/// The harness itself holds the source of truth. It is mirrored here so the UI can pick the
/// right button states: what we *asked for* plus whatever the harness says.
#[derive(Debug, Clone, Copy, PartialEq, Eq, Structural)]
pub enum PlayState {
    /// We've asked the harness to play, or it's otherwise running freely.
    Playing,
    /// The harness is blocked at a hook.
    Paused,
}

/// The final outcome of a test.
#[derive(Debug, Clone)]
pub struct TestOutcome {
    pub ok: bool,
    pub message: Option<String>,
    /// Overrides the latest frame's source, so that the panic line is visible even though no
    /// extra frame was sent at the end.
    pub source: Option<SourceView>,
}

/// A frame that the peer sent. `P` is what comes with it that nothing here reads.
#[derive(Debug, Clone)]
pub struct Frame<P> {
    pub step: u64,
    pub screenshot: Option<Screenshot>,
    /// The size of the screenshot in logical points, if the frame tells how to compute it.
    pub logical_size: Option<(u32, u32)>,
    pub nodes: Option<NodeList>,
    pub source: Option<SourceView>,
    pub payload: P,
}

/// How a peer introduces itself.
#[derive(Debug, Clone)]
pub struct Hello {
    /// A name for the peer, such as that of a test or an app.
    pub label: Option<String>,
    /// Every frame of the peer already carries a screenshot.
    pub continuous_screenshots: bool,
    /// The peer can be asked to send a screenshot with every frame.
    pub can_stream_screenshots: bool,
}

/// What the peer sends.
#[derive(Debug, Clone)]
pub enum Message<P> {
    Hello(Hello),
    Frame(Frame<P>),
    /// The harness is blocked at a hook, or no longer.
    Blocked(bool),
    /// The test has ended; the harness waits to be dismissed.
    Finished(TestOutcome),
}

/// What a look at the peer's messages found.
#[derive(Debug, Clone)]
pub enum Received<P> {
    Message(Message<P>),
    /// Nothing waits to be read.
    Empty,
    /// The peer is gone.
    Disconnected,
}

/// What the inspector asks of the peer. `E` is an input event.
#[derive(Debug, Clone)]
pub enum Command<E> {
    Play,
    Pause,
    Step,
    Run,
    Screenshot,
    SetContinuousScreenshots(bool),
    Resize { width: u32, height: u32 },
    Handle { events: Vec<E> },
}

/// What a [`Command`] holds.
pub enum CommandV<E> {
    Play,
    Pause,
    Step,
    Run,
    Screenshot,
    SetContinuousScreenshots(bool),
    Resize { width: u32, height: u32 },
    Handle { events: Seq<E> },
}

impl<E> View for Command<E> {
    type V = CommandV<E>;

    open spec fn view(&self) -> CommandV<E> {
        match *self {
            Command::Play => CommandV::Play,
            Command::Pause => CommandV::Pause,
            Command::Step => CommandV::Step,
            Command::Run => CommandV::Run,
            Command::Screenshot => CommandV::Screenshot,
            Command::SetContinuousScreenshots(on) => CommandV::SetContinuousScreenshots(on),
            Command::Resize { width, height } => CommandV::Resize { width, height },
            Command::Handle { events } => CommandV::Handle { events: events@ },
        }
    }
}

pub open spec fn command_view<E>(command: Option<Command<E>>) -> Option<CommandV<E>> {
    match command {
        Some(command) => Some(command@),
        None => None,
    }
}

/// The state of the inspector. `P` comes with frames, `E` is an input event; neither is read.
#[derive(Debug)]
pub struct InspectorApp<P, E> {
    pub play_state: PlayState,
    /// Mirrors the harness's blocking state.
    pub harness_blocked: bool,
    /// Set once the test has ended.
    pub test_outcome: Option<TestOutcome>,
    /// Every frame the peer has ever sent, in order. Supports back/forward replay.
    pub history: Vec<Frame<P>>,
    /// Index into `history` of the currently displayed frame.
    pub view_index: usize,
    /// The step of the frame whose pixels were shown last; `None` until there were any.
    pub textured_step: Option<u64>,
    pub connected: bool,
    /// Currently hovered widget.
    pub hovered_node: Option<Id>,
    /// Last clicked widget (sticky).
    pub selected_node: Option<Id>,
    /// When on, pointer and keyboard events are forwarded to the peer.
    pub control_enabled: bool,
    /// Events that wait to be forwarded.
    pub queued_events: Vec<E>,
    /// Set when the viewed frame changes; the source panel consumes it to scroll once.
    pub scroll_pending: bool,
    /// Transient status line.
    pub status_message: Option<String>,
    /// The size to ask for, in logical points. Comes from the first frame that has one;
    /// thereafter the user owns the values.
    pub resize_target: Option<(u32, u32)>,
    /// A screenshot was asked for, and no frame with pixels has arrived since.
    pub awaiting_screenshot: bool,
    /// The name that the peer gave.
    pub peer_label: Option<String>,
}

/// What an [`InspectorApp`] holds.
#[verifier::ext_equal]
pub struct StateV<P, E> {
    pub play_state: PlayState,
    pub harness_blocked: bool,
    pub test_outcome: Option<TestOutcome>,
    pub history: Seq<Frame<P>>,
    pub view_index: int,
    pub textured_step: Option<u64>,
    pub connected: bool,
    pub hovered_node: Option<Id>,
    pub selected_node: Option<Id>,
    pub control_enabled: bool,
    pub queued_events: Seq<E>,
    pub scroll_pending: bool,
    pub status_message: Option<Seq<char>>,
    pub resize_target: Option<(u32, u32)>,
    pub awaiting_screenshot: bool,
    pub peer_label: Option<Seq<char>>,
}

impl<P, E> View for InspectorApp<P, E> {
    type V = StateV<P, E>;

    open spec fn view(&self) -> StateV<P, E> {
        StateV {
            play_state: self.play_state,
            harness_blocked: self.harness_blocked,
            test_outcome: self.test_outcome,
            history: self.history@,
            view_index: self.view_index as int,
            textured_step: self.textured_step,
            connected: self.connected,
            hovered_node: self.hovered_node,
            selected_node: self.selected_node,
            control_enabled: self.control_enabled,
            queued_events: self.queued_events@,
            scroll_pending: self.scroll_pending,
            status_message: text::opt_view(self.status_message),
            resize_target: self.resize_target,
            awaiting_screenshot: self.awaiting_screenshot,
            peer_label: text::opt_view(self.peer_label),
        }
    }
}

pub open spec fn at_least_one(n: u32) -> u32 {
    if n == 0 {
        1
    } else {
        n
    }
}

impl<P, E> StateV<P, E> {
    /// The state before anything has arrived.
    pub open spec fn initial() -> StateV<P, E> {
        StateV {
            play_state: PlayState::Paused,
            harness_blocked: true,
            test_outcome: None,
            history: Seq::empty(),
            view_index: 0,
            textured_step: None,
            connected: true,
            hovered_node: None,
            selected_node: None,
            control_enabled: false,
            queued_events: Seq::empty(),
            scroll_pending: false,
            status_message: None,
            resize_target: None,
            awaiting_screenshot: false,
            peer_label: None,
        }
    }

    /// The index is that of a frame once there is one; events wait only while they may be
    /// forwarded; and a size to ask for is never empty.
    pub open spec fn wf(self) -> bool {
        &&& 0 <= self.view_index
        &&& self.view_index < self.history.len() || (self.history.len() == 0 && self.view_index
            == 0)
        &&& !self.control_enabled ==> self.queued_events.len() == 0
        &&& self.resize_target matches Some((w, h)) ==> w >= 1 && h >= 1
    }

    /// The frame currently being displayed.
    pub open spec fn shown(self) -> Option<Frame<P>> {
        if 0 <= self.view_index < self.history.len() {
            Some(self.history[self.view_index])
        } else {
            None
        }
    }

    /// The newest frame is the one displayed.
    pub open spec fn live(self) -> bool {
        self.history.len() > 0 && self.view_index + 1 == self.history.len()
    }

    /// Frame `idx` displayed, or the newest one if there is no frame `idx`. Displaying another
    /// frame scrolls its source into view.
    pub open spec fn viewing(self, idx: int) -> StateV<P, E> {
        let newest = if self.history.len() == 0 {
            0
        } else {
            self.history.len() - 1
        };
        let at = if idx < newest {
            idx
        } else {
            newest
        };
        if at == self.view_index {
            self
        } else {
            StateV { view_index: at, scroll_pending: true, ..self }
        }
    }

    /// The size to ask for, after a frame: the first frame that tells one sets it.
    pub open spec fn seeded(self, frame: Frame<P>) -> Option<(u32, u32)> {
        if self.resize_target is None && frame.screenshot is Some && frame.logical_size is Some {
            let (w, h) = frame.logical_size->0;
            Some((at_least_one(w), at_least_one(h)))
        } else {
            self.resize_target
        }
    }

    /// The state with one more frame. A display of the newest frame moves on to it.
    pub open spec fn with_frame(self, frame: Frame<P>) -> StateV<P, E> {
        let follows = self.live() || self.history.len() == 0;
        StateV {
            history: self.history.push(frame),
            resize_target: self.seeded(frame),
            awaiting_screenshot: self.awaiting_screenshot && frame.screenshot is None,
            view_index: if follows {
                self.history.len() as int
            } else {
                self.view_index
            },
            scroll_pending: self.scroll_pending || follows,
            ..self
        }
    }

    /// The state after a message.
    pub open spec fn after_message(self, message: Message<P>) -> StateV<P, E> {
        match message {
            Message::Hello(hello) => StateV { peer_label: text::opt_view(hello.label), ..self },
            Message::Frame(frame) => self.with_frame(frame),
            Message::Blocked(blocking) => StateV {
                harness_blocked: blocking,
                play_state: if blocking {
                    PlayState::Paused
                } else {
                    self.play_state
                },
                ..self
            },
            Message::Finished(outcome) => StateV {
                test_outcome: Some(outcome),
                play_state: PlayState::Paused,
                harness_blocked: true,
                scroll_pending: true,
                ..self
            },
        }
    }

    /// The state after a look at the peer's messages.
    pub open spec fn after(self, received: Received<P>) -> StateV<P, E> {
        match received {
            Received::Message(message) => self.after_message(message),
            Received::Empty => self,
            Received::Disconnected => StateV { connected: false, ..self },
        }
    }

    /// No picture has been shown yet, there is a frame, and no request is under way.
    pub open spec fn lacks_pixels(self) -> bool {
        self.connected && self.history.len() > 0 && self.textured_step is None
            && !self.awaiting_screenshot
    }

    /// The pixels of the displayed frame are there and not the ones shown.
    pub open spec fn picture_due(self) -> bool {
        &&& self.shown() matches Some(frame)
        &&& self.textured_step != Some(frame.step)
        &&& frame.screenshot matches Some(shot)
        &&& shot.has_pixels()
    }

    /// Queued events can be sent.
    pub open spec fn can_flush(self) -> bool {
        self.queued_events.len() > 0 && self.connected
    }
}

/// What a message makes the inspector ask for: every frame should carry a screenshot.
pub open spec fn reply<P, E>(received: Received<P>) -> Option<CommandV<E>> {
    match received {
        Received::Message(Message::Hello(hello)) if !hello.continuous_screenshots
            && hello.can_stream_screenshots => Some(CommandV::SetContinuousScreenshots(true)),
        _ => None,
    }
}

impl<P, E> InspectorApp<P, E> {
    /// An inspector that has not heard from its peer yet.
    pub fn new() -> (r: InspectorApp<P, E>)
        ensures
            r@ == StateV::<P, E>::initial(),
            r@.wf(),
            r.play_state == PlayState::Paused && r.harness_blocked && r.connected,
            r.test_outcome is None && r.history@.len() == 0 && r.view_index == 0,
            r.textured_step is None && r.hovered_node is None && r.selected_node is None,
            !r.control_enabled && r.queued_events@.len() == 0 && !r.scroll_pending,
            r.status_message is None && r.resize_target is None && !r.awaiting_screenshot,
            r.peer_label is None,
    {
        let r = InspectorApp {
            play_state: PlayState::Paused,
            harness_blocked: true,
            test_outcome: None,
            history: Vec::new(),
            view_index: 0,
            textured_step: None,
            connected: true,
            hovered_node: None,
            selected_node: None,
            control_enabled: false,
            queued_events: Vec::new(),
            scroll_pending: false,
            status_message: None,
            resize_target: None,
            awaiting_screenshot: false,
            peer_label: None,
        };
        assert(r@ =~= StateV::<P, E>::initial());
        r
    }

    /// The frame currently being displayed. `None` only before the first frame ever arrives.
    pub fn view_frame(&self) -> (r: Option<&Frame<P>>)
        ensures
            r is Some <==> self@.shown() is Some,
            r is Some ==> *r->0 == self@.shown()->0,
            self@.wf() ==> (r is None <==> self@.history.len() == 0),
            r is Some <==> self.view_index < self.history@.len(),
            r is Some ==> *r->0 == self.history@[self.view_index as int],
    {
        if self.view_index < self.history.len() {
            Some(&self.history[self.view_index])
        } else {
            None
        }
    }

    /// True when the most recent frame is displayed (so new arrivals keep moving the view
    /// forward).
    pub fn is_live_view(&self) -> (r: bool)
        requires
            self@.wf(),
        ensures
            r == self@.live(),
            r <==> self.view_index + 1 == self.history@.len(),
    {
        self.history.len() > 0 && self.view_index == self.history.len() - 1
    }

    /// Display the frame with this index, or the newest one if there is none.
    pub fn set_view_index(&mut self, idx: usize)
        requires
            old(self)@.wf(),
        ensures
            final(self)@ == old(self)@.viewing(idx as int),
            final(self)@.wf(),
            idx < old(self).history@.len() ==> final(self).view_index == idx,
            idx >= old(self).history@.len() && old(self).history@.len() > 0 ==> final(self).view_index == old(self).history@.len() - 1,
            old(self).history@.len() == 0 ==> final(self).view_index == 0,
            final(self).scroll_pending <==> old(self).scroll_pending || final(self).view_index
                != old(self).view_index,
            final(self)@ == (StateV {
                view_index: final(self)@.view_index,
                scroll_pending: final(self)@.scroll_pending,
                ..old(self)@
            }),
    {
        let newest: usize = self.history.len().saturating_sub(1);
        let at: usize = if idx < newest {
            idx
        } else {
            newest
        };
        if at != self.view_index {
            self.view_index = at;
            self.scroll_pending = true;
        }
        assert(self@ =~= old(self)@.viewing(idx as int));
    }

    /// True if the harness last said that it is blocked at a hook.
    pub fn harness_blocked(&self) -> (r: bool)
        ensures
            r == self@.harness_blocked,
            r == self.harness_blocked,
    {
        self.harness_blocked
    }

    /// Takes in one more frame.
    pub fn take_frame(&mut self, frame: Frame<P>)
        requires
            old(self)@.wf(),
        ensures
            final(self)@ == old(self)@.with_frame(frame),
            final(self)@.wf(),
            final(self).history@ == old(self).history@.push(frame),
            old(self).history@.len() == 0 || old(self).view_index + 1 == old(self).history@.len()
                ==> final(self).view_index == old(self).history@.len() && final(self).scroll_pending,
            !(old(self).history@.len() == 0 || old(self).view_index + 1 == old(self).history@.len()) ==> final(self).view_index == old(self).view_index && final(self).scroll_pending == old(self).scroll_pending,
            final(self).awaiting_screenshot <==> old(self).awaiting_screenshot
                && frame.screenshot is None,
            old(self).resize_target is Some || frame.screenshot is None
                || frame.logical_size is None ==> final(self).resize_target == old(self).resize_target,
            old(self).resize_target is None && frame.screenshot is Some ==> (
            frame.logical_size matches Some((w, h)) ==> final(self).resize_target == Some(
                (if w == 0 {
                    1u32
                } else {
                    w
                }, if h == 0 {
                    1u32
                } else {
                    h
                }),
            )),
            final(self)@ == (StateV {
                history: final(self)@.history,
                view_index: final(self)@.view_index,
                scroll_pending: final(self)@.scroll_pending,
                awaiting_screenshot: final(self)@.awaiting_screenshot,
                resize_target: final(self)@.resize_target,
                ..old(self)@
            }),
    {
        let was_live = self.is_live_view() || self.history.len() == 0;
        // The user owns the size to ask for once there is one.
        if self.resize_target.is_none() && frame.screenshot.is_some() {
            if let Some((w, h)) = frame.logical_size {
                self.resize_target = Some((not_zero(w), not_zero(h)));
            }
        }
        if frame.screenshot.is_some() {
            // The request under way is satisfied.
            self.awaiting_screenshot = false;
        }
        self.history.push(frame);
        if was_live {
            self.view_index = self.history.len() - 1;
            self.scroll_pending = true;
        }
        assert(self@ =~= old(self)@.with_frame(frame));
    }

    /// Takes in what a look at the peer's messages found, and says what to send in return and
    /// whether to look again.
    pub fn receive(&mut self, received: Received<P>) -> (r: (Option<Command<E>>, bool))
        requires
            old(self)@.wf(),
        ensures
            final(self)@ == old(self)@.after(received),
            final(self)@.wf(),
            command_view(r.0) == reply::<P, E>(received),
            r.1 == (received is Message),
            (r.0 matches Some(command) ==> command == Command::<E>::SetContinuousScreenshots(true)),
            r.0 is Some <==> (received matches Received::Message(Message::Hello(hello))
                && !hello.continuous_screenshots && hello.can_stream_screenshots),
    {
        match received {
            Received::Empty => (None, false),
            Received::Disconnected => {
                self.connected = false;
                (None, false)
            },
            Received::Message(Message::Hello(hello)) => {
                let streams = !hello.continuous_screenshots && hello.can_stream_screenshots;
                self.peer_label = hello.label;
                if streams {
                    (Some(Command::SetContinuousScreenshots(true)), true)
                } else {
                    (None, true)
                }
            },
            Received::Message(Message::Frame(frame)) => {
                self.take_frame(frame);
                (None, true)
            },
            Received::Message(Message::Blocked(blocking)) => {
                self.harness_blocked = blocking;
                if blocking {
                    self.play_state = PlayState::Paused;
                }
                (None, true)
            },
            Received::Message(Message::Finished(outcome)) => {
                self.test_outcome = Some(outcome);
                self.play_state = PlayState::Paused;
                // The harness is blocked, waiting to be dismissed.
                self.harness_blocked = true;
                // The source panel scrolls to the panic line.
                self.scroll_pending = true;
                (None, true)
            },
        }
    }

    /// Asks for a screenshot as soon as there is a frame but nothing to show. One request is
    /// under way at a time.
    pub fn request_pixels(&mut self) -> (r: Option<Command<E>>)
        requires
            old(self)@.wf(),
        ensures
            final(self)@ == (StateV {
                awaiting_screenshot: old(self)@.awaiting_screenshot || old(self)@.lacks_pixels(),
                ..old(self)@
            }),
            command_view(r) == if old(self)@.lacks_pixels() {
                Some(CommandV::<E>::Screenshot)
            } else {
                None
            },
            r is Some <==> old(self).connected && old(self).history@.len() > 0 && old(self).textured_step is None && !old(self).awaiting_screenshot,
            (r matches Some(command) ==> command == Command::<E>::Screenshot),
            final(self).awaiting_screenshot <==> old(self).awaiting_screenshot || r is Some,
            final(self)@.wf(),
    {
        if self.connected && self.history.len() > 0 && self.textured_step.is_none()
            && !self.awaiting_screenshot {
            self.awaiting_screenshot = true;
            Some(Command::Screenshot)
        } else {
            None
        }
    }

    /// The screenshot to decode, if the displayed frame has one that is not shown yet. A frame
    /// without pixels leaves the previous picture in place.
    pub fn due_screenshot(&self) -> (r: Option<&Screenshot>)
        ensures
            r is Some <==> self@.picture_due(),
            r is Some ==> *r->0 == self@.shown()->0.screenshot->0,
            r is Some <==> {
                &&& self.view_index < self.history@.len()
                &&& self.textured_step != Some(self.history@[self.view_index as int].step)
                &&& self.history@[self.view_index as int].screenshot matches Some(shot)
                &&& shot.width > 0 && shot.height > 0 && shot.png@.len() > 0
            },
            r is Some ==> Some(*r->0) == self.history@[self.view_index as int].screenshot,
    {
        let frame = match self.view_frame() {
            None => return None,
            Some(frame) => frame,
        };
        if let Some(step) = self.textured_step {
            if step == frame.step {
                return None;
            }
        }
        match &frame.screenshot {
            Some(shot) if shot.is_imaged() => Some(shot),
            _ => None,
        }
    }

    /// Takes in what became of the screenshot that was due: pixels to show, or the reason why
    /// there are none, in which case it stays due.
    pub fn take_picture(&mut self, decoded: Result<Picture, String>) -> (r: Result<
        Picture,
        String,
    >)
        requires
            old(self)@.wf(),
            old(self)@.picture_due(),
        ensures
            decoded matches Ok(picture) ==> r == decoded && final(self)@ == (StateV {
                textured_step: Some(old(self)@.shown()->0.step),
                ..old(self)@
            }),
            decoded matches Err(err) ==> {
                &&& r matches Err(words)
                &&& words@ == "decode screenshot PNG failed: "@ + err@
                &&& final(self)@ == old(self)@
            },
            final(self)@.wf(),
            decoded is Ok ==> final(self).textured_step == Some(
                old(self).history@[old(self).view_index as int].step,
            ),
            decoded is Err ==> final(self).textured_step == old(self).textured_step,
    {
        match decoded {
            Ok(picture) => {
                self.textured_step = Some(self.history[self.view_index].step);
                Ok(picture)
            },
            Err(err) => Err(screenshot::decode_failure(err.as_str())),
        }
    }

    /// Decodes the screenshot that is due, if one is. The pixels, if they come back, are to be
    /// shown.
    pub fn load_picture(&mut self) -> (r: Result<Option<Picture>, String>)
        requires
            old(self)@.wf(),
        ensures
            !old(self)@.picture_due() ==> r == Ok::<Option<Picture>, String>(None) && final(self)@
                == old(self)@,
            old(self)@.picture_due() ==> exists|outcome: Result<(u32, u32, Seq<u8>), Seq<char>>|
                {
                    &&& #[trigger] screenshot::decodes_to(
                        old(self)@.shown()->0.screenshot->0.png@,
                        outcome,
                    )
                    &&& match outcome {
                        Ok(pixels) => {
                            &&& r matches Ok(Some(picture))
                            &&& picture@ == pixels
                            &&& final(self)@ == (StateV {
                                textured_step: Some(old(self)@.shown()->0.step),
                                ..old(self)@
                            })
                        },
                        Err(err) => {
                            &&& r matches Err(words)
                            &&& words@ == "decode screenshot PNG failed: "@ + err
                            &&& final(self)@ == old(self)@
                        },
                    }
                },
            r matches Ok(Some(picture)) ==> picture.wf(),
            final(self)@.wf(),
    {
        let decoded = match self.due_screenshot() {
            None => return Ok(None),
            Some(shot) => screenshot::decode(&shot.png),
        };
        let ghost outcome = screenshot::outcome_view(decoded);
        assert(screenshot::decodes_to(old(self)@.shown()->0.screenshot->0.png@, outcome));
        match self.take_picture(decoded) {
            Ok(picture) => Ok(Some(picture)),
            Err(words) => Err(words),
        }
    }

    /// Hands out the accumulated events as a single command, if any are queued. Does not change
    /// the harness's mode.
    pub fn flush_events(&mut self) -> (r: Option<Command<E>>)
        requires
            old(self)@.wf(),
        ensures
            old(self)@.can_flush() ==> {
                &&& command_view(r) == Some(CommandV::Handle { events: old(self)@.queued_events })
                &&& final(self)@ == (StateV { queued_events: Seq::empty(), ..old(self)@ })
            },
            !old(self)@.can_flush() ==> r is None && final(self)@ == old(self)@,
            final(self)@.wf(),
            r is Some <==> old(self).queued_events@.len() > 0 && old(self).connected,
            (r matches Some(command) ==> {
                &&& command matches Command::Handle { events }
                &&& events@ == old(self).queued_events@
                &&& final(self).queued_events@.len() == 0
            }),
            r is None ==> final(self).queued_events@ == old(self).queued_events@,
    {
        if self.queued_events.len() == 0 || !self.connected {
            return None;
        }
        let mut events: Vec<E> = Vec::new();
        std::mem::swap(&mut events, &mut self.queued_events);
        Some(Command::Handle { events })
    }
}

fn not_zero(n: u32) -> (r: u32)
    ensures
        r == at_least_one(n),
{
    if n == 0 {
        1
    } else {
        n
    }
}

}
