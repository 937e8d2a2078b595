//! Playback of a state in the state editor: the current frame, whether it
//! plays, and which spawns show at the current frame.

use vstd::prelude::*;

verus! {

/// The frame after `frame` in a loop of `duration` frames; a state with no
/// frames stays at 0.
pub open spec fn next_frame(frame: usize, duration: usize) -> usize {
    if duration > 0 {
        (vstd::wrapping::usize_specs::wrapping_add(frame, 1usize) % duration) as usize
    } else {
        0
    }
}

/// The frame reached from frame 0 after `n` steps of a loop of `duration`
/// frames.
pub open spec fn frame_after(n: nat, duration: usize) -> usize
    decreases n,
{
    if n == 0 {
        0
    } else {
        next_frame(frame_after((n - 1) as nat, duration), duration)
    }
}

/// The current frame and whether it advances.
pub struct Playback {
    pub frame: usize,
    pub is_playing: bool,
}

impl Playback {
    /// Frame 0, playing.
    pub fn new() -> (r: Self)
        ensures
            r.frame == 0,
            r.is_playing,
    {
        Playback { frame: 0, is_playing: true }
    }

    /// One update of a state of `duration` frames: a playing state moves to
    /// the next frame, looping.
    pub fn tick(&mut self, duration: usize)
        ensures
            final(self).is_playing == old(self).is_playing,
            old(self).is_playing ==> final(self).frame == next_frame(old(self).frame, duration),
            !old(self).is_playing ==> final(self).frame == old(self).frame,
    {
        if self.is_playing {
            self.frame = self.frame.wrapping_add(1);
            if duration > 0 {
                self.frame = self.frame % duration;
            } else {
                self.frame = 0;
            }
        }
    }

    /// "Play".
    pub fn play(&mut self)
        ensures
            final(self).is_playing,
            final(self).frame == old(self).frame,
    {
        self.is_playing = true;
    }

    /// "Stop".
    pub fn stop(&mut self)
        ensures
            !final(self).is_playing,
            final(self).frame == old(self).frame,
    {
        self.is_playing = false;
    }

    /// The frame slider moved to `frame`: playback stops there.
    pub fn seek(&mut self, frame: usize)
        ensures
            !final(self).is_playing,
            final(self).frame == frame,
    {
        self.frame = frame;
        self.is_playing = false;
    }
}

/// A looping frame counter stays within the loop.
pub proof fn lemma_next_frame_in_range(frame: usize, duration: usize)
    ensures
        duration > 0 ==> next_frame(frame, duration) < duration,
        duration == 0 ==> next_frame(frame, duration) == 0,
{
}

/// From frame 0, playback reaches frame `n % duration` after `n` steps: it
/// goes through every frame in order and starts over after the last.
pub proof fn lemma_playback_loops(n: nat, duration: usize)
    requires
        duration > 0,
    ensures
        frame_after(n, duration) == n % (duration as nat),
    decreases n,
{
    if n > 0 {
        lemma_playback_loops((n - 1) as nat, duration);
        let d = duration as int;
        let prev = frame_after((n - 1) as nat, duration);
        assert(prev == ((n - 1) as nat) % (duration as nat));
        assert(prev < duration);
        assert(vstd::wrapping::usize_specs::wrapping_add(prev, 1usize) == prev + 1);
        vstd::arithmetic::div_mod::lemma_add_mod_noop((n - 1) as int, 1, d);
        if d == 1 {
            vstd::arithmetic::div_mod::lemma_mod_multiples_basic(prev + 1, 1);
            vstd::arithmetic::div_mod::lemma_mod_multiples_basic(n as int, 1);
        } else {
            vstd::arithmetic::div_mod::lemma_small_mod(1, duration as nat);
        }
        assert(((n - 1) as int) + 1 == n as int);
        assert((prev + 1) % d == (n as int) % d);
        assert(next_frame(prev, duration) == ((prev + 1) % d) as usize);
        assert(frame_after(n, duration) == next_frame(prev, duration));
        assert(0 <= (n as int) % d < d);
        assert((n as int) % d == n % (duration as nat));
    } else {
        vstd::arithmetic::div_mod::lemma_small_mod(0, duration as nat);
    }
}

/// The frame of a looping preview after `ticks` updates, when the
/// animation has frames.
pub fn shown_frame(ticks: usize, duration: usize) -> (r: Option<usize>)
    ensures
        duration > 0 ==> r == Some((ticks % duration) as usize),
        duration == 0 ==> r is None,
{
    if duration > 0 {
        Some(ticks % duration)
    } else {
        None
    }
}

/// How many frames ago a spawn at `spawn_frame` happened, if it did.
pub fn frames_since(current: usize, spawn_frame: usize) -> (r: Option<usize>)
    ensures
        current >= spawn_frame ==> r == Some((current - spawn_frame) as usize),
        current < spawn_frame ==> r is None,
{
    current.checked_sub(spawn_frame)
}

/// The spawns to mark at the current frame: those at that frame, or all
/// of them when `show_all` is set. Hands back their indices in order.
pub fn spawns_to_mark(frames: &Vec<usize>, current: usize, show_all: bool) -> (r: Vec<usize>)
    ensures
        r@ == Seq::new(frames@.len(), |i: int| i as usize).filter(
            |i: usize| show_all || frames@[i as int] == current,
        ),
{
    let ghost all = Seq::new(frames@.len(), |i: int| i as usize);
    let ghost pred = |i: usize| show_all || frames@[i as int] == current;
    let mut r: Vec<usize> = Vec::new();
    let mut i: usize = 0;
    while i < frames.len()
        invariant
            i <= frames.len(),
            all == Seq::new(frames@.len(), |i: int| i as usize),
            pred == (|i: usize| show_all || frames@[i as int] == current),
            r@ == all.subrange(0, i as int).filter(pred),
        decreases frames.len() - i,
    {
        if show_all || frames[i] == current {
            r.push(i);
        }
        proof {
            assert(all.subrange(0, i + 1) =~= all.subrange(0, i as int).push(i));
            all.subrange(0, i as int).lemma_filter_push(i, pred);
        }
        i = i + 1;
    }
    proof {
        assert(all.subrange(0, i as int) =~= all);
    }
    r
}

} // verus!
