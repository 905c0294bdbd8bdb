//! Animated cursors: which frame of an animation shows at a given time.

use vstd::prelude::*;

verus! {

/// The frame, from position `i` on, whose time slot holds `m` milliseconds
/// counted from the start of frame `i`; none when `m` runs past the last
/// frame.
pub open spec fn frame_from(delays: Seq<u32>, m: int, i: int) -> Option<int>
    decreases delays.len() - i,
{
    if i < 0 || i >= delays.len() {
        None
    } else if m < delays[i] {
        Some(i)
    } else {
        frame_from(delays, m - delays[i], i + 1)
    }
}

/// The frame that shows `millis` milliseconds into an animation whose
/// frames last `delays` and which repeats every `total_delay` milliseconds:
/// none without frames; the first frame when the animation does not move or
/// the time falls past the last frame's slot.
pub open spec fn frame_at(delays: Seq<u32>, total_delay: u32, millis: u32) -> Option<int> {
    if delays.len() == 0 {
        None
    } else if total_delay == 0 {
        Some(0)
    } else {
        match frame_from(delays, (millis % total_delay) as int, 0) {
            Some(i) => Some(i),
            None => Some(0),
        }
    }
}

/// The position of the frame that shows `millis` milliseconds into the
/// animation (see `frame_at`).
pub fn get_frame(delays: &Vec<u32>, total_delay: u32, millis: u32) -> (r: Option<usize>)
    ensures
        match r {
            Some(i) => frame_at(delays@, total_delay, millis) == Some(i as int) && i < delays@.len(),
            None => frame_at(delays@, total_delay, millis) is None,
        },
{
    if delays.len() == 0 {
        return None;
    }
    if total_delay == 0 {
        return Some(0);
    }
    let mut m = millis % total_delay;
    let ghost m0 = (millis % total_delay) as int;
    let mut i: usize = 0;
    while i < delays.len()
        invariant
            i <= delays@.len(),
            delays@.len() > 0,
            total_delay > 0,
            m0 == (millis % total_delay) as int,
            frame_from(delays@, m0, 0) == frame_from(delays@, m as int, i as int),
        decreases delays@.len() - i,
    {
        if m < delays[i] {
            return Some(i);
        }
        m = m - delays[i];
        i = i + 1;
    }
    Some(0)
}

/// The total delay of frames `j` up to but not including `k`.
pub open spec fn delays_between(delays: Seq<u32>, j: int, k: int) -> int
    decreases k - j,
{
    if j >= k {
        0
    } else {
        delays[j] + delays_between(delays, j + 1, k)
    }
}

/// The frame found from frame `j` on is the one whose slot holds `m`,
/// counted from the start of frame `j`; none when `m` lies past every slot.
proof fn lemma_frame_slot(delays: Seq<u32>, m: int, j: int)
    requires
        0 <= j <= delays.len(),
        m >= 0,
    ensures
        frame_from(delays, m, j) matches Some(i) ==> j <= i < delays.len()
            && delays_between(delays, j, i) <= m < delays_between(delays, j, i + 1),
        frame_from(delays, m, j) is None ==> m >= delays_between(delays, j, delays.len() as int),
    decreases delays.len() - j,
{
    if j < delays.len() && m >= delays[j] {
        lemma_frame_slot(delays, m - delays[j], j + 1);
        if let Some(i) = frame_from(delays, m, j) {
            assert(delays_between(delays, j, i) == delays[j] + delays_between(delays, j + 1, i));
            assert(delays_between(delays, j, i + 1) == delays[j] + delays_between(delays, j + 1, i + 1));
        }
        assert(delays_between(delays, j, delays.len() as int) == delays[j] + delays_between(delays, j + 1, delays.len() as int));
    } else if j < delays.len() {
        assert(delays_between(delays, j, j + 1) == delays[j] + delays_between(delays, j + 1, j + 1));
    }
}

/// An animation shows, at a time within its cycle, the frame whose slot
/// holds that time: frame `i` shows from the sum of the delays before it up
/// to that sum plus its own delay. Past the last slot, and for an animation
/// that does not move, the first frame shows.
pub proof fn law_frame_slot(delays: Seq<u32>, total_delay: u32, millis: u32)
    requires
        delays.len() > 0,
        total_delay > 0,
    ensures
        ({
            let m = (millis % total_delay) as int;
            match frame_at(delays, total_delay, millis) {
                Some(i) => (0 <= i < delays.len() && delays_between(delays, 0, i) <= m < delays_between(delays, 0, i + 1))
                    || (i == 0 && m >= delays_between(delays, 0, delays.len() as int)),
                None => false,
            }
        }),
{
    lemma_frame_slot(delays, (millis % total_delay) as int, 0);
}

} // verus!
