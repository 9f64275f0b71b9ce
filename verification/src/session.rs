//! What holds of the inspector over any number of messages and clicks.
use vstd::prelude::*;

use crate::controls;
use crate::controls::{Click, InputKind};
use crate::inspector;
use crate::inspector::{CommandV, Frame, Message, PlayState, Received, StateV, TestOutcome};
use crate::text;

verus! {

/// The message brings a frame.
pub open spec fn brings_frame<P>(received: Received<P>) -> bool {
    received matches Received::Message(Message::Frame(frame))
}

/// The message brings a frame with a screenshot.
pub open spec fn brings_pixels<P>(received: Received<P>) -> bool {
    received matches Received::Message(Message::Frame(frame)) && frame.screenshot is Some
}

/// Nothing that arrives and nothing the user does breaks the state: a frame is displayed as soon
/// as there is one, events wait only in control mode, and the size to ask for is never empty.
pub proof fn law_the_state_stays_sound<P, E>(
    s: StateV<P, E>,
    received: Received<P>,
    click: Click,
)
    requires
        s.wf(),
    ensures
        StateV::<P, E>::initial().wf(),
        s.after(received).wf(),
        s.clicked(click).wf(),
        s.shown() is None <==> s.history.len() == 0,
{
}

/// Frames are only ever added, at the end, one for each frame message; nothing else changes the
/// history.
pub proof fn law_history_is_kept<P, E>(s: StateV<P, E>, received: Received<P>, click: Click)
    ensures
        s.history.is_prefix_of(s.after(received).history),
        s.after(received).history.len() == s.history.len() + if brings_frame(received) {
            1int
        } else {
            0
        },
        received matches Received::Message(Message::Frame(frame)) ==> s.after(
            received,
        ).history.last() == frame,
        s.clicked(click).history == s.history,
{
}

/// A display of the newest frame follows: the next frame is displayed as soon as it arrives, and
/// its source is scrolled into view.
pub proof fn law_a_live_view_follows<P, E>(s: StateV<P, E>, frame: Frame<P>)
    requires
        s.live() || s.history.len() == 0,
    ensures
        s.with_frame(frame).live(),
        s.with_frame(frame).shown() == Some(frame),
        s.with_frame(frame).scroll_pending,
{
}

/// A display of an earlier frame stays where it is, whatever arrives.
pub proof fn law_a_replayed_view_stays<P, E>(s: StateV<P, E>, received: Received<P>)
    requires
        s.wf(),
        s.history.len() > 0,
        !s.live(),
    ensures
        s.after(received).shown() == s.shown(),
        s.after(received).view_index == s.view_index,
        !s.after(received).live(),
{
}

/// A harness that says it is blocked, or that its test has ended, is paused and can be stepped
/// if it is connected.
pub proof fn law_a_blocked_harness_is_paused<P, E>(s: StateV<P, E>, received: Received<P>)
    requires
        received == Received::Message(Message::<P>::Blocked(true)) || received matches Received::Message(
            Message::Finished(outcome),
        ),
    ensures
        s.after(received).play_state == PlayState::Paused,
        s.after(received).harness_blocked,
        s.after(received).enables(Click::Step) <==> s.connected,
        s.after(received).enables(Click::Run) <==> s.connected,
{
}

/// Once a test has ended its outcome stays, and is what the status tells.
pub proof fn law_an_outcome_stays<P, E>(s: StateV<P, E>, received: Received<P>, click: Click)
    requires
        s.test_outcome is Some,
    ensures
        s.after(received).test_outcome is Some,
        !(received matches Received::Message(Message::Finished(outcome))) ==> s.after(
            received,
        ).test_outcome == s.test_outcome,
        s.clicked(click).test_outcome == s.test_outcome,
        s.clicked(click).status_shown() == s.status_shown(),
{
}

/// A request for a screenshot is not repeated until pixels have arrived.
pub proof fn law_one_request_is_under_way<P, E>(s: StateV<P, E>, received: Received<P>)
    requires
        s.awaiting_screenshot,
    ensures
        !s.lacks_pixels(),
        s.after(received).awaiting_screenshot <==> !brings_pixels(received),
{
}

/// The size to ask for comes from the first frame that tells one, and from the user after that.
pub proof fn law_the_user_owns_the_size<P, E>(s: StateV<P, E>, received: Received<P>)
    ensures
        s.resize_target is Some ==> s.after(received).resize_target == s.resize_target,
        s.after(received).resize_target != s.resize_target ==> brings_pixels(received),
{
}

/// One step back undoes one step forward, and the other way round.
pub proof fn law_back_and_forward_undo_each_other<P, E>(s: StateV<P, E>)
    requires
        s.wf(),
    ensures
        s.enables(Click::Forward) ==> s.clicked(Click::Forward).clicked(Click::Back).shown()
            == s.shown(),
        s.enables(Click::Back) ==> s.clicked(Click::Back).clicked(Click::Forward).shown()
            == s.shown(),
{
}

/// The newest frame and every numbered frame can be reached from anywhere in the history.
pub proof fn law_every_frame_can_be_displayed<P, E>(s: StateV<P, E>, number: usize)
    requires
        s.wf(),
        s.history.len() > 0,
    ensures
        s.clicked(Click::Live).live(),
        1 <= number <= s.history.len() ==> s.clicked(Click::Scrub(number)).shown() == Some(
            s.history[number - 1],
        ),
{
}

/// Another frame on display is scrolled into view; a step to the displayed frame changes
/// nothing.
pub proof fn law_a_change_of_frame_scrolls<P, E>(s: StateV<P, E>, idx: int)
    requires
        s.wf(),
        idx >= 0,
    ensures
        s.viewing(idx).view_index != s.view_index ==> s.viewing(idx).scroll_pending,
        s.viewing(idx).view_index == s.view_index ==> s.viewing(idx) == s,
        s.viewing(idx).viewing(idx) == s.viewing(idx),
        idx < s.history.len() ==> s.viewing(idx).view_index == idx,
        idx >= s.history.len() && s.history.len() > 0 ==> s.viewing(idx).live(),
{
}

/// A disabled control does nothing and sends nothing.
pub proof fn law_a_disabled_control_is_inert<P, E>(s: StateV<P, E>, click: Click)
    requires
        !s.enables(click),
    ensures
        s.clicked(click) == s,
        s.sends(click) is None,
{
}

/// Nothing is sent to a peer that is gone, and nothing that arrives or is clicked brings it back.
pub proof fn law_a_lost_peer_is_sent_nothing<P, E>(
    s: StateV<P, E>,
    received: Received<P>,
    click: Click,
)
    requires
        !s.connected,
    ensures
        s.sends(click) is None,
        !s.lacks_pixels(),
        !s.can_flush(),
        !s.after(received).connected,
        !s.clicked(click).connected,
{
}

/// Events that wait when control mode ends are never sent. While it lasts, Play is disabled and
/// a click on the image selects nothing.
pub proof fn law_control_mode_ends_clean<P, E>(s: StateV<P, E>)
    ensures
        s.controlling(false).queued_events.len() == 0,
        !s.controlling(false).can_flush(),
        !s.controlling(true).enables(Click::Play),
        !s.controlling(true).enables(Click::Image),
        s.controlling(true).queued_events == s.queued_events,
{
}

/// Pixels are decoded once: a picture that is shown is not due again until another frame is
/// displayed.
pub proof fn law_a_shown_picture_is_not_due<P, E>(s: StateV<P, E>)
    requires
        s.picture_due(),
    ensures
        !(StateV { textured_step: Some(s.shown()->0.step), ..s }).picture_due(),
        !(StateV { textured_step: Some(s.shown()->0.step), ..s }).lacks_pixels(),
{
}

/// A selected widget stays in focus wherever the pointer goes, and is outlined once.
pub proof fn law_a_selection_is_sticky<P, E>(s: StateV<P, E>, received: Received<P>)
    requires
        s.selected_node is Some,
    ensures
        s.focus() == s.selected_node,
        s.after(received).focus() == s.focus(),
        s.clicked(Click::ClearSelection).focus() == s.hovered_node,
        !s.control_enabled && s.hovered_node == s.selected_node ==> s.outlines().len() == 1,
{
}

/// The source of the outcome is shown for every frame, once there is one.
pub proof fn law_the_panic_site_is_shown<P, E>(s: StateV<P, E>, frame: Frame<P>)
    requires
        s.test_outcome is Some,
        s.test_outcome->0.source is Some,
    ensures
        s.source_for(frame) == s.test_outcome->0.source,
        s.source_for(frame)->0.panic_line is Some ==> s.source_for(frame)->0.focus()
            == s.test_outcome->0.source->0.panic_line,
{
}

/// The state after looks at the peer's messages, one after the other.
pub open spec fn after_all<P, E>(s: StateV<P, E>, rs: Seq<Received<P>>) -> StateV<P, E>
    decreases rs.len(),
{
    if rs.len() == 0 {
        s
    } else {
        after_all(s, rs.drop_last()).after(rs.last())
    }
}

/// The frames that the messages bring, in order.
pub open spec fn frames_of<P>(rs: Seq<Received<P>>) -> Seq<Frame<P>>
    decreases rs.len(),
{
    if rs.len() == 0 {
        Seq::empty()
    } else {
        let before = frames_of(rs.drop_last());
        match rs.last() {
            Received::Message(Message::Frame(frame)) => before.push(frame),
            _ => before,
        }
    }
}

/// Whether the harness is blocked, as the last message that speaks of it says; `blocked` if none
/// does. A test that has ended blocks its harness.
pub open spec fn blocked_after<P>(blocked: bool, rs: Seq<Received<P>>) -> bool
    decreases rs.len(),
{
    if rs.len() == 0 {
        blocked
    } else {
        match rs.last() {
            Received::Message(Message::Blocked(blocking)) => blocking,
            Received::Message(Message::Finished(outcome)) => true,
            _ => blocked_after(blocked, rs.drop_last()),
        }
    }
}

/// One of the messages tells that the harness is blocked, or that its test has ended.
pub open spec fn told_blocked<P>(rs: Seq<Received<P>>) -> bool {
    exists|i: int|
        0 <= i < rs.len() && {
            ||| (#[trigger] rs[i]) == Received::Message(Message::<P>::Blocked(true))
            ||| rs[i] matches Received::Message(Message::Finished(outcome))
        }
}

/// The outcome that the last message with one tells; `outcome` if there is none.
pub open spec fn outcome_after<P>(
    outcome: Option<TestOutcome>,
    rs: Seq<Received<P>>,
) -> Option<TestOutcome>
    decreases rs.len(),
{
    if rs.len() == 0 {
        outcome
    } else {
        match rs.last() {
            Received::Message(Message::Finished(outcome)) => Some(outcome),
            _ => outcome_after(outcome, rs.drop_last()),
        }
    }
}

/// The name that the last greeting gives; `label` if there is none.
pub open spec fn label_after<P>(label: Option<Seq<char>>, rs: Seq<Received<P>>) -> Option<Seq<char>>
    decreases rs.len(),
{
    if rs.len() == 0 {
        label
    } else {
        match rs.last() {
            Received::Message(Message::Hello(hello)) => text::opt_view(hello.label),
            _ => label_after(label, rs.drop_last()),
        }
    }
}

/// The size to ask for after the frames: `size` if there was one, else that of the first frame
/// with a screenshot that tells one.
pub open spec fn size_after<P>(size: Option<(u32, u32)>, frames: Seq<Frame<P>>) -> Option<(u32, u32)>
    decreases frames.len(),
{
    if frames.len() == 0 {
        size
    } else {
        let before = size_after(size, frames.drop_last());
        let frame = frames.last();
        if before is None && frame.screenshot is Some && frame.logical_size is Some {
            let (w, h) = frame.logical_size->0;
            Some((inspector::at_least_one(w), inspector::at_least_one(h)))
        } else {
            before
        }
    }
}

/// One of the messages tells that the test has ended.
pub open spec fn told_finished<P>(rs: Seq<Received<P>>) -> bool {
    exists|i: int|
        0 <= i < rs.len() && (
        #[trigger] rs[i] matches Received::Message(Message::Finished(outcome)))
}

/// Whatever arrives, and however much of it: the frames are added to the history in order; a
/// display of the newest frame, or of none, is one of the newest frame afterwards, and any other
/// stays; the harness's state, the outcome and the peer's name are those that the last message
/// about them tells; the source scrolls if another frame is displayed or the test has ended; a
/// request for a screenshot waits until pixels come; the size to ask for comes from the first
/// frame that tells one, if there was none; a peer that is gone stays gone; and what the user
/// chose is untouched.
pub proof fn law_messages_add_up<P, E>(s: StateV<P, E>, rs: Seq<Received<P>>)
    requires
        s.wf(),
    ensures
        after_all(s, rs).wf(),
        after_all(s, rs).history == s.history + frames_of(rs),
        s.live() ==> after_all(s, rs).live(),
        s.history.len() == 0 && frames_of(rs).len() > 0 ==> after_all(s, rs).live(),
        s.history.len() > 0 && !s.live() ==> {
            &&& after_all(s, rs).view_index == s.view_index
            &&& after_all(s, rs).shown() == s.shown()
            &&& !after_all(s, rs).live()
        },
        after_all(s, rs).harness_blocked == blocked_after(s.harness_blocked, rs),
        after_all(s, rs).play_state == if told_blocked(rs) {
            PlayState::Paused
        } else {
            s.play_state
        },
        after_all(s, rs).test_outcome == outcome_after(s.test_outcome, rs),
        after_all(s, rs).peer_label == label_after(s.peer_label, rs),
        after_all(s, rs).awaiting_screenshot <==> s.awaiting_screenshot && forall|i: int|
            0 <= i < rs.len() ==> !brings_pixels(#[trigger] rs[i]),
        after_all(s, rs).connected <==> s.connected && forall|i: int|
            0 <= i < rs.len() ==> !((#[trigger] rs[i]) is Disconnected),
        after_all(s, rs).scroll_pending <==> s.scroll_pending || told_finished(rs) || (
        frames_of(rs).len() > 0 && (s.live() || s.history.len() == 0)),
        after_all(s, rs).resize_target == size_after(s.resize_target, frames_of(rs)),
        after_all(s, rs) == (StateV {
            history: after_all(s, rs).history,
            view_index: after_all(s, rs).view_index,
            scroll_pending: after_all(s, rs).scroll_pending,
            harness_blocked: after_all(s, rs).harness_blocked,
            play_state: after_all(s, rs).play_state,
            test_outcome: after_all(s, rs).test_outcome,
            peer_label: after_all(s, rs).peer_label,
            awaiting_screenshot: after_all(s, rs).awaiting_screenshot,
            connected: after_all(s, rs).connected,
            resize_target: after_all(s, rs).resize_target,
            ..s
        }),
    decreases rs.len(),
{
    if rs.len() > 0 {
        let before = rs.drop_last();
        let n = before.len() as int;
        law_messages_add_up(s, before);
        assert(rs[n] == rs.last());
        assert forall|i: int| 0 <= i < n implies #[trigger] rs[i] == before[i] by {}
        assert(after_all(s, rs).history =~= s.history + frames_of(rs));
        assert(told_blocked(rs) <==> told_blocked(before) || told_blocked(seq![rs.last()])) by {
            if told_blocked(before) {
                let i = choose|i: int|
                    0 <= i < before.len() && {
                        ||| (#[trigger] before[i]) == Received::Message(Message::<P>::Blocked(true))
                        ||| before[i] matches Received::Message(Message::Finished(outcome))
                    };
                assert(rs[i] == before[i]);
            }
            assert(seq![rs.last()][0] == rs[n]);
        }
        assert(seq![rs.last()][0] == rs.last());
        if told_finished(before) {
            let i = choose|i: int|
                0 <= i < before.len() && (
                #[trigger] before[i] matches Received::Message(Message::Finished(outcome)));
            assert(rs[i] == before[i]);
        }
        if let Received::Message(Message::Frame(frame)) = rs.last() {
            assert(frames_of(rs).drop_last() =~= frames_of(before));
        }
    } else {
        assert(after_all(s, rs).history =~= s.history + frames_of(rs));
    }
}

/// Something that happens in a session.
pub enum Happening<P> {
    Received(Received<P>),
    Clicked(Click),
}

/// The state after what happened, one thing after the other.
pub open spec fn lived<P, E>(s: StateV<P, E>, hs: Seq<Happening<P>>) -> StateV<P, E>
    decreases hs.len(),
{
    if hs.len() == 0 {
        s
    } else {
        let before = lived(s, hs.drop_last());
        match hs.last() {
            Happening::Received(received) => before.after(received),
            Happening::Clicked(click) => before.clicked(click),
        }
    }
}

/// What arrived among all that happened, in order.
pub open spec fn arrivals<P>(hs: Seq<Happening<P>>) -> Seq<Received<P>>
    decreases hs.len(),
{
    if hs.len() == 0 {
        Seq::empty()
    } else {
        let before = arrivals(hs.drop_last());
        match hs.last() {
            Happening::Received(received) => before.push(received),
            Happening::Clicked(click) => before,
        }
    }
}

/// Over a whole session of messages and clicks, in any order, the state stays sound, and what
/// the peer told is kept whatever the user does: the history is the frames that arrived, in order,
/// and the harness's blocking, the outcome and the peer's name are those last told. Nothing brings
/// back a peer that is gone.
pub proof fn law_a_session_keeps_what_it_is_told<P, E>(s: StateV<P, E>, hs: Seq<Happening<P>>)
    requires
        s.wf(),
    ensures
        lived(s, hs).wf(),
        lived(s, hs).history == s.history + frames_of(arrivals(hs)),
        lived(s, hs).harness_blocked == blocked_after(s.harness_blocked, arrivals(hs)),
        lived(s, hs).test_outcome == outcome_after(s.test_outcome, arrivals(hs)),
        lived(s, hs).peer_label == label_after(s.peer_label, arrivals(hs)),
        lived(s, hs).connected ==> s.connected,
        s.resize_target is Some ==> lived(s, hs).resize_target == s.resize_target,
    decreases hs.len(),
{
    if hs.len() > 0 {
        law_a_session_keeps_what_it_is_told(s, hs.drop_last());
        let before = arrivals(hs.drop_last());
        if let Happening::Received(received) = hs.last() {
            assert(before.push(received).drop_last() =~= before);
        }
    }
    assert(lived(s, hs).history =~= s.history + frames_of(arrivals(hs)));
}

/// What is forwarded to the peer depends on where an event happened: a pointer move or button
/// exactly on whether it was inside the image, hovered or not; the wheel exactly on whether the
/// image is hovered, wherever the pointer was; the pointer leaving and anything typed are always
/// forwarded, and nothing else ever is.
pub proof fn law_events_are_forwarded_by_their_place(inside: bool, hovered: bool)
    ensures
        controls::forwards(InputKind::PointerMoved, inside, hovered) <==> inside,
        controls::forwards(InputKind::PointerButton, inside, hovered) <==> inside,
        controls::forwards(InputKind::MouseWheel, inside, hovered) <==> hovered,
        controls::forwards(InputKind::PointerGone, inside, hovered),
        controls::forwards(InputKind::Typed, inside, hovered),
        !controls::forwards(InputKind::Other, inside, hovered),
{
}

/// A state is sound exactly if the displayed frame is there or there is no frame at all, no event
/// waits outside control mode, and the size to ask for has neither a width nor a height of zero.
pub proof fn law_what_a_sound_state_is<P, E>(s: StateV<P, E>)
    ensures
        s.wf() <==> {
            &&& s.history.len() == 0 ==> s.view_index == 0
            &&& s.history.len() > 0 ==> 0 <= s.view_index < s.history.len()
            &&& s.control_enabled || s.queued_events.len() == 0
            &&& s.resize_target matches Some((w, h)) ==> w != 0 && h != 0
        },
{
}

/// A peer is asked to stream screenshots exactly if it greets, does not stream yet, and can.
/// Nothing else that arrives is answered.
pub proof fn law_only_a_greeting_is_answered<P, E>(received: Received<P>)
    ensures
        inspector::reply::<P, E>(received) is Some <==> (received matches Received::Message(
            Message::Hello(hello),
        ) && !hello.continuous_screenshots && hello.can_stream_screenshots),
        inspector::reply::<P, E>(received) matches Some(command) ==> command
            == CommandV::<E>::SetContinuousScreenshots(true),
{
}

/// Events that wait can be sent exactly while the peer is there; a screenshot is asked for exactly
/// while it is there, a frame has come, nothing was ever shown and no request is under way; and a
/// picture is due exactly if the displayed frame has one that is not the one shown.
pub proof fn law_when_there_is_something_to_do<P, E>(s: StateV<P, E>)
    ensures
        s.can_flush() <==> s.connected && s.queued_events.len() > 0,
        s.lacks_pixels() <==> s.connected && s.history.len() > 0 && s.textured_step is None
            && !s.awaiting_screenshot,
        s.picture_due() <==> {
            &&& 0 <= s.view_index < s.history.len()
            &&& s.textured_step != Some(s.history[s.view_index].step)
            &&& s.history[s.view_index].screenshot matches Some(shot)
            &&& shot.width > 0 && shot.height > 0 && shot.png@.len() > 0
        },
{
}

/// Which controls can be used: those that speak to the peer only while it is there, Play not in
/// control mode, Step and Run only while the harness is blocked, those of the history only where
/// there is somewhere to go, and so on.
pub proof fn law_what_each_control_needs<P, E>(s: StateV<P, E>, number: usize, on: bool)
    ensures
        s.enables(Click::Play) <==> s.connected && !s.control_enabled,
        s.enables(Click::Pause) <==> s.connected,
        s.enables(Click::Step) <==> s.connected && s.harness_blocked,
        s.enables(Click::Run) <==> s.connected && s.harness_blocked,
        s.enables(Click::Screenshot) <==> s.connected,
        s.enables(Click::Control(on)) <==> s.connected,
        s.enables(Click::Resize) <==> s.connected && s.resize_target is Some,
        s.enables(Click::Back) <==> s.view_index > 0,
        s.enables(Click::Forward) <==> s.view_index + 1 < s.history.len(),
        s.enables(Click::Live) <==> s.view_index + 1 < s.history.len(),
        s.enables(Click::Scrub(number)) <==> 1 <= number <= s.history.len(),
        s.enables(Click::CopyGif) <==> s.history.len() > 0,
        s.enables(Click::ClearSelection) <==> s.selected_node is Some,
        s.enables(Click::Image) <==> !s.control_enabled,
{
}

/// What is asked of the peer: each of Play, Pause, Step, Run, Screenshot and Resize, where it is
/// enabled, sends the command of its name, Resize with the chosen size. No other control sends
/// anything.
pub proof fn law_what_each_control_sends<P, E>(s: StateV<P, E>, click: Click)
    ensures
        s.sends(Click::Play) == (if s.connected && !s.control_enabled {
            Some(CommandV::<E>::Play)
        } else {
            None
        }),
        s.sends(Click::Pause) == (if s.connected {
            Some(CommandV::<E>::Pause)
        } else {
            None
        }),
        s.sends(Click::Step) == (if s.connected && s.harness_blocked {
            Some(CommandV::<E>::Step)
        } else {
            None
        }),
        s.sends(Click::Run) == (if s.connected && s.harness_blocked {
            Some(CommandV::<E>::Run)
        } else {
            None
        }),
        s.sends(Click::Screenshot) == (if s.connected {
            Some(CommandV::<E>::Screenshot)
        } else {
            None
        }),
        s.resize_target matches Some((w, h)) ==> s.sends(Click::Resize) == (if s.connected {
            Some(CommandV::<E>::Resize { width: w, height: h })
        } else {
            None
        }),
        s.resize_target is None ==> s.sends(Click::Resize) is None,
        s.sends(click) is Some ==> click is Play || click is Pause || click is Step || click is Run
            || click is Screenshot || click is Resize,
{
}

/// What a control changes where it is enabled: Play and Run set playing, Pause and Step set
/// paused; Back, Forward, Live and a number move the view; Screenshot notes the request; a copy
/// notes that it is under way; control mode is set, and its events dropped when it ends; and the
/// selection is cleared, or set to what is hovered.
pub proof fn law_what_each_control_changes<P, E>(s: StateV<P, E>, number: usize, on: bool)
    requires
        s.wf(),
    ensures
        s.enables(Click::Play) ==> s.clicked(Click::Play) == (StateV {
            play_state: PlayState::Playing,
            ..s
        }),
        s.enables(Click::Run) ==> s.clicked(Click::Run) == (StateV {
            play_state: PlayState::Playing,
            ..s
        }),
        s.enables(Click::Pause) ==> s.clicked(Click::Pause) == (StateV {
            play_state: PlayState::Paused,
            ..s
        }),
        s.enables(Click::Step) ==> s.clicked(Click::Step) == (StateV {
            play_state: PlayState::Paused,
            ..s
        }),
        s.enables(Click::Back) ==> s.clicked(Click::Back) == (StateV {
            view_index: s.view_index - 1,
            scroll_pending: true,
            ..s
        }),
        s.enables(Click::Forward) ==> s.clicked(Click::Forward) == (StateV {
            view_index: s.view_index + 1,
            scroll_pending: true,
            ..s
        }),
        s.enables(Click::Live) ==> s.clicked(Click::Live) == (StateV {
            view_index: s.history.len() - 1,
            scroll_pending: true,
            ..s
        }),
        s.enables(Click::Scrub(number)) ==> s.clicked(Click::Scrub(number)) == (StateV {
            view_index: number - 1,
            scroll_pending: s.scroll_pending || s.view_index != number - 1,
            ..s
        }),
        s.enables(Click::Screenshot) ==> s.clicked(Click::Screenshot) == (StateV {
            awaiting_screenshot: true,
            ..s
        }),
        s.enables(Click::CopyGif) ==> s.clicked(Click::CopyGif) == (StateV {
            status_message: Some("Encoding + copying GIF on background thread — see log"@),
            ..s
        }),
        s.enables(Click::Control(on)) ==> s.clicked(Click::Control(on)) == (StateV {
            control_enabled: on,
            queued_events: if on {
                s.queued_events
            } else {
                Seq::empty()
            },
            ..s
        }),
        s.clicked(Click::Resize) == s,
        s.clicked(Click::ClearSelection) == (StateV { selected_node: None, ..s }),
        s.enables(Click::Image) ==> s.clicked(Click::Image) == (StateV {
            selected_node: s.hovered_node,
            ..s
        }),
{
}

}
