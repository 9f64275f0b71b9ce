//! The history as an animation: which frames are in it, how long each is shown, and what can go
//! wrong.
use vstd::prelude::*;
use vstd::string::*;

use crate::inspector::Frame;
use crate::screenshot;
use crate::screenshot::Picture;
use crate::text;

verus! {

/// How long a picture is shown: a number of milliseconds, as a fraction.
#[derive(Debug, Clone, Copy, PartialEq, Eq, Structural)]
pub struct Delay {
    pub numer: u32,
    pub denom: u32,
}

/// One picture of an animation.
#[derive(Debug, Clone)]
pub struct Cel {
    pub picture: Picture,
    pub delay: Delay,
}

/// The indices, in order, of the frames that have a screenshot.
pub open spec fn imaged<P>(history: Seq<Frame<P>>) -> Seq<usize>
    decreases history.len(),
{
    if history.len() == 0 {
        Seq::empty()
    } else {
        let before = imaged(history.drop_last());
        if history.last().screenshot is Some {
            before.push((history.len() - 1) as usize)
        } else {
            before
        }
    }
}

/// How long the frame with this index is shown, where the pictures of the animation end before
/// index `total`: the last picture for one second, so that the loop point is obvious, and any
/// other for one part in `rate` of a second.
pub open spec fn delay_of(index: int, total: int, rate: u32) -> Delay {
    Delay {
        numer: 1000,
        denom: if index == total - 1 {
            1
        } else {
            rate
        },
    }
}

/// The indices of the frames that make up the animation of a history; there is none of an empty
/// one.
pub fn animation_frames<P>(history: &Vec<Frame<P>>) -> (r: Result<Vec<usize>, String>)
    ensures
        r is Err <==> history@.len() == 0,
        r matches Err(words) ==> words@ == "history is empty"@,
        r matches Ok(indices) ==> indices@ == imaged(history@),
        r matches Ok(indices) ==> forall|i: usize| #[trigger]
            indices@.contains(i) <==> i < history@.len() && history@[i as int].screenshot is Some,
        r matches Ok(indices) ==> forall|k: int, l: int|
            0 <= k < l < indices@.len() ==> indices@[k] < indices@[l],
{
    if history.len() == 0 {
        return Err("history is empty".to_owned());
    }
    let ghost all = history@;
    let mut r: Vec<usize> = Vec::new();
    let mut i: usize = 0;
    while i < history.len()
        invariant
            i <= history@.len(),
            all == history@,
            r@ == imaged(all.take(i as int)),
        decreases history.len() - i,
    {
        assert(all.take(i + 1).drop_last() =~= all.take(i as int));
        if history[i].screenshot.is_some() {
            r.push(i);
        }
        i += 1;
    }
    assert(all.take(i as int) =~= all);
    proof {
        law_an_animation_holds_every_screenshot_in_order(all);
        assert forall|k: usize| #[trigger] r@.contains(k) implies k < all.len()
            && all[k as int].screenshot is Some by {
            let at = r@.index_of(k);
            assert(imaged(all)[at] < all.len());
            assert(imaged(all).contains(k));
            assert(all[k as int].screenshot is Some <==> imaged(all).contains(k as int as usize));
        }
        assert forall|k: usize| k < all.len() && all[k as int].screenshot is Some implies #[trigger] r@.contains(
            k,
        ) by {
            assert(all[k as int].screenshot is Some <==> imaged(all).contains(k as int as usize));
        }
    }
    Ok(r)
}

/// The picture of an animation that a decoded screenshot gives, or why there is none. The
/// pictures of the animation end before index `total`.
pub fn cel_from(index: usize, total: usize, rate: u32, decoded: Result<Picture, String>) -> (r:
    Result<Cel, String>)
    requires
        index < total,
    ensures
        decoded matches Ok(picture) ==> {
            &&& r matches Ok(cel)
            &&& cel.picture == picture
            &&& cel.delay == delay_of(index as int, total as int, rate)
            &&& cel.delay.numer == 1000
            &&& index + 1 == total ==> cel.delay.denom == 1
            &&& index + 1 < total ==> cel.delay.denom == rate
        },
        decoded matches Err(err) ==> {
            &&& r matches Err(words)
            &&& words@ == "frame "@ + text::numeral(index as nat, 10) + ": "@
                + "decode screenshot PNG failed: "@ + err@
        },
{
    match decoded {
        Ok(picture) => {
            let denom: u32 = if index == total - 1 {
                1
            } else {
                rate
            };
            Ok(Cel { picture, delay: Delay { numer: 1000, denom } })
        },
        Err(err) => {
            let mut words = "frame ".to_owned();
            words.append(text::numeral_text(index as u128, 10).as_str());
            words.append(": ");
            words.append("decode screenshot PNG failed: ");
            words.append(err.as_str());
            Err(words)
        },
    }
}

/// Where the pictures of the animation of a history end: one past the last frame that has a
/// screenshot. The frame with this index has one.
fn pictures_end<P>(history: &Vec<Frame<P>>, index: usize) -> (r: usize)
    requires
        index < history@.len(),
        history@[index as int].screenshot is Some,
    ensures
        index < r,
        r == imaged(history@).last() + 1,
{
    let ghost all = history@;
    let mut end: usize = history.len();
    assert(all.take(end as int) =~= all);
    while history[end - 1].screenshot.is_none()
        invariant
            index < end <= history@.len(),
            all == history@,
            all[index as int].screenshot is Some,
            imaged(all) == imaged(all.take(end as int)),
        decreases end,
    {
        assert(all.take(end as int).drop_last() =~= all.take(end - 1));
        end -= 1;
    }
    assert(all.take(end as int).last().screenshot is Some);
    end
}

/// Decodes one picture of the animation of a history: the frame with this index, if it has a
/// screenshot.
pub fn cel<P>(history: &Vec<Frame<P>>, index: usize, rate: u32) -> (r: Option<Result<Cel, String>>)
    ensures
        r is Some <==> index < history@.len() && history@[index as int].screenshot is Some,
        r is Some ==> exists|outcome: Result<(u32, u32, Seq<u8>), Seq<char>>|
            {
                &&& #[trigger] screenshot::decodes_to(
                    history@[index as int].screenshot->0.png@,
                    outcome,
                )
                &&& match outcome {
                    Ok(pixels) => {
                        &&& r->0 matches Ok(cel)
                        &&& cel.picture@ == pixels
                        &&& cel.delay == delay_of(index as int, imaged(history@).last() + 1, rate)
                    },
                    Err(err) => {
                        &&& r->0 matches Err(words)
                        &&& words@ == "frame "@ + text::numeral(index as nat, 10) + ": "@
                            + "decode screenshot PNG failed: "@ + err
                    },
                }
            },
        r matches Some(Ok(cel)) ==> cel.picture.wf(),
{
    if index >= history.len() {
        return None;
    }
    match &history[index].screenshot {
        None => None,
        Some(shot) => {
            let decoded = screenshot::decode(&shot.png);
            let ghost outcome = screenshot::outcome_view(decoded);
            assert(screenshot::decodes_to(shot.png@, outcome));
            Some(cel_from(index, pictures_end(history, index), rate, decoded))
        },
    }
}

/// Why a picture could not be added to the animation.
pub fn encode_failure(index: usize, err: &str) -> (r: String)
    ensures
        r@ == "encode frame "@ + text::numeral(index as nat, 10) + ": "@ + err@,
{
    let mut words = "encode frame ".to_owned();
    words.append(text::numeral_text(index as u128, 10).as_str());
    words.append(": ");
    words.append(err);
    words
}

/// The name of the file for an animation made at a time, in milliseconds.
pub fn animation_name(time: u128) -> (r: String)
    ensures
        r@ == "kittest_inspector_"@ + text::numeral(time as nat, 10) + ".gif"@,
{
    let mut name = "kittest_inspector_".to_owned();
    name.append(text::numeral_text(time, 10).as_str());
    name.append(".gif");
    name
}

/// A line of the log, written at a time, in milliseconds.
pub fn log_line(time: u128, msg: &str) -> (r: String)
    ensures
        r@ == "["@ + text::numeral(time as nat, 10) + "] "@ + msg@,
{
    let mut line = "[".to_owned();
    line.append(text::numeral_text(time, 10).as_str());
    line.append("] ");
    line.append(msg);
    line
}

/// An animation holds exactly the frames that have a screenshot, each once, in the order of the
/// history.
pub proof fn law_an_animation_holds_every_screenshot_in_order<P>(history: Seq<Frame<P>>)
    requires
        history.len() <= usize::MAX,
    ensures
        forall|i: int|
            0 <= i < history.len() ==> ((#[trigger] history[i]).screenshot is Some <==> imaged(
                history,
            ).contains(i as usize)),
        forall|k: int, l: int|
            0 <= k < l < imaged(history).len() ==> imaged(history)[k] < imaged(history)[l],
        forall|k: int|
            0 <= k < imaged(history).len() ==> (#[trigger] imaged(history)[k]) < history.len(),
    decreases history.len(),
{
    if history.len() > 0 {
        let rest = history.drop_last();
        let last = (history.len() - 1) as usize;
        law_an_animation_holds_every_screenshot_in_order(rest);
        let before = imaged(rest);
        let after = imaged(history);
        assert forall|i: int| 0 <= i < history.len() implies ((
        #[trigger] history[i]).screenshot is Some <==> after.contains(i as usize)) by {
            if i < rest.len() {
                assert(rest[i] == history[i]);
                assert(before.contains(i as usize) ==> after.contains(i as usize)) by {
                    if before.contains(i as usize) {
                        let k = before.index_of(i as usize);
                        assert(after[k] == i as usize);
                    }
                }
                assert(after.contains(i as usize) ==> before.contains(i as usize)) by {
                    if after.contains(i as usize) {
                        let k = after.index_of(i as usize);
                        assert(after[k] != last);
                        assert(before[k] == i as usize);
                    }
                }
            } else {
                assert(!before.contains(last)) by {
                    if before.contains(last) {
                        let k = before.index_of(last);
                        assert(before[k] < rest.len());
                    }
                }
                if history[i].screenshot is Some {
                    assert(after[after.len() - 1] == last);
                }
            }
        }
        assert forall|k: int, l: int| 0 <= k < l < after.len() implies after[k] < after[l] by {
            if l < before.len() {
                assert(before[k] < before[l]);
            } else {
                assert(before[k] < rest.len());
            }
        }
        assert forall|k: int| 0 <= k < after.len() implies (#[trigger] after[k])
            < history.len() by {
            if k < before.len() {
                assert(before[k] < rest.len());
            }
        }
    }
}

/// The last picture of an animation is held for one second, whatever frames without a picture
/// come after it in the history, and every other one is shown for one part in `rate` of a second.
pub proof fn law_the_last_picture_is_held<P>(history: Seq<Frame<P>>, rate: u32, k: int)
    requires
        history.len() <= usize::MAX,
        0 <= k < imaged(history).len(),
    ensures
        delay_of(imaged(history)[k] as int, imaged(history).last() + 1, rate) == (Delay {
            numer: 1000,
            denom: if k == imaged(history).len() - 1 {
                1
            } else {
                rate
            },
        }),
{
    law_an_animation_holds_every_screenshot_in_order(history);
    let last = imaged(history).len() - 1;
    if k < last {
        assert(imaged(history)[k] < imaged(history)[last]);
    }
}

}
