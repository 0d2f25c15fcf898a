use vstd::arithmetic::div_mod::lemma_small_mod;
use vstd::prelude::*;

verus! {

/// Shortest time a frame stays on screen, in milliseconds. Animations may
/// encode a zero delay; showing such frames for no time at all would spin
/// the event loop, so every delay is at least this long.
pub const MIN_FRAME_DELAY_MS: u64 = 10;

/// An RGBA raster: `width * height` pixels of four bytes each, row by row.
pub struct Raster {
    pub width: u32,
    pub height: u32,
    pub pixels: Vec<u8>,
}

/// One frame of an animation and how long it is shown, as a number of
/// milliseconds written as the fraction `delay_numer / delay_denom`.
pub struct Frame {
    pub raster: Raster,
    pub delay_numer: u32,
    pub delay_denom: u32,
}

/// A decoded image: one still raster, or the frames of an animation.
pub enum ImageSet {
    Still(Raster),
    Animated(Vec<Frame>),
}

impl ImageSet {
    /// An animation has at least one frame.
    pub open spec fn well_formed(&self) -> bool {
        match self {
            ImageSet::Still(_) => true,
            ImageSet::Animated(frames) => frames@.len() > 0,
        }
    }

    pub open spec fn count(&self) -> nat {
        match self {
            ImageSet::Still(_) => 1,
            ImageSet::Animated(frames) => frames@.len(),
        }
    }
}

/// How long a frame with the encoded delay `numer / denom` milliseconds is
/// shown: the whole milliseconds of the fraction, and never less than
/// `MIN_FRAME_DELAY_MS`.
pub open spec fn frame_delay_ms(numer: u32, denom: u32) -> nat {
    if denom == 0 || ((numer / denom) as nat) < MIN_FRAME_DELAY_MS {
        MIN_FRAME_DELAY_MS as nat
    } else {
        (numer / denom) as nat
    }
}

proof fn lemma_delay_fits(numer: u32, denom: u32)
    ensures
        frame_delay_ms(numer, denom) <= u32::MAX,
{
    if denom != 0 {
        let (n, d) = (numer as int, denom as int);
        assert(n / d <= n) by (nonlinear_arith)
            requires n >= 0, d >= 1;
    }
}

fn delay_ms(numer: u32, denom: u32) -> (r: u64)
    ensures
        r == frame_delay_ms(numer, denom),
{
    if denom == 0 {
        MIN_FRAME_DELAY_MS
    } else {
        let whole = (numer / denom) as u64;
        if whole < MIN_FRAME_DELAY_MS {
            MIN_FRAME_DELAY_MS
        } else {
            whole
        }
    }
}

/// The image on display: its decoded frames, the frame shown now, and the
/// instant (in milliseconds on a monotonic clock) at which that frame was
/// shown.
pub struct Image {
    set: ImageSet,
    current_frame: usize,
    last_frame_instant: u64,
}

impl Image {
    pub closed spec fn set(&self) -> &ImageSet {
        &self.set
    }

    pub closed spec fn frame_index(&self) -> nat {
        self.current_frame as nat
    }

    pub closed spec fn shown_at(&self) -> nat {
        self.last_frame_instant as nat
    }

    /// The frame index is within the set, and the set is well formed.
    pub open spec fn well_formed(&self) -> bool {
        &&& self.set().well_formed()
        &&& self.frame_index() < self.set().count()
    }

    /// The instant the next frame is due: none for a still image, else the
    /// instant the current frame was shown plus its delay, when that instant
    /// can be written on the clock.
    pub open spec fn next_due(&self) -> Option<nat> {
        match self.set() {
            ImageSet::Still(_) => None,
            ImageSet::Animated(frames) => {
                let f = frames@[self.frame_index() as int];
                let due = self.shown_at() + frame_delay_ms(f.delay_numer, f.delay_denom);
                if due <= u64::MAX {
                    Some(due)
                } else {
                    None
                }
            },
        }
    }

    /// Starts showing `set` from its first frame at instant `now`.
    pub fn new(set: ImageSet, now: u64) -> (r: Image)
        requires
            set.well_formed(),
        ensures
            r.well_formed(),
            *r.set() == set,
            r.frame_index() == 0,
            r.shown_at() == now,
    {
        Image { set, current_frame: 0, last_frame_instant: now }
    }

    pub fn is_animated(&self) -> (r: bool)
        ensures
            r == (self.set() is Animated),
    {
        match &self.set {
            ImageSet::Still(_) => false,
            ImageSet::Animated(_) => true,
        }
    }

    pub fn frame_count(&self) -> (r: usize)
        ensures
            r == self.set().count(),
    {
        match &self.set {
            ImageSet::Still(_) => 1,
            ImageSet::Animated(frames) => frames.len(),
        }
    }

    pub fn current_frame(&self) -> (r: usize)
        ensures
            r == self.frame_index(),
    {
        self.current_frame
    }

    /// The pixels of the frame shown now.
    pub fn raster(&self) -> (r: &Raster)
        requires
            self.well_formed(),
        ensures
            match self.set() {
                ImageSet::Still(s) => r == s,
                ImageSet::Animated(frames) => r == &frames@[self.frame_index() as int].raster,
            },
    {
        match &self.set {
            ImageSet::Still(s) => s,
            ImageSet::Animated(frames) => &frames[self.current_frame].raster,
        }
    }

    /// When the next frame is due; `None` when no timer is needed.
    pub fn time_next_frame(&self) -> (r: Option<u64>)
        requires
            self.well_formed(),
        ensures
            r matches Some(t) ==> self.next_due() == Some(t as nat),
            r is None ==> self.next_due() is None,
    {
        match &self.set {
            ImageSet::Still(_) => None,
            ImageSet::Animated(frames) => {
                let f = &frames[self.current_frame];
                self.last_frame_instant.checked_add(delay_ms(f.delay_numer, f.delay_denom))
            },
        }
    }

    /// Shows the following frame, the first one after the last, from `now` on.
    pub fn next_frame(&mut self, now: u64)
        requires
            old(self).well_formed(),
        ensures
            final(self).well_formed(),
            final(self).set() == old(self).set(),
            final(self).frame_index() == (old(self).frame_index() + 1) % old(self).set().count(),
            final(self).shown_at() == now,
    {
        let count = self.frame_count();
        if self.current_frame + 1 >= count {
            proof {
                let n = count as int;
                assert(n % n == 0) by (nonlinear_arith)
                    requires n > 0;
            }
            self.current_frame = 0;
        } else {
            proof {
                lemma_small_mod((self.current_frame + 1) as nat, count as nat);
            }
            self.current_frame = self.current_frame + 1;
        }
        self.last_frame_instant = now;
    }

    /// Moves on while a frame is due at `now`. A frame that moves on is
    /// shown from `now`, and every delay is positive, so at most one step is
    /// taken however late the call comes, and afterwards no frame is due at
    /// `now`. Returns whether a step was taken.
    pub fn advance_if_due(&mut self, now: u64) -> (r: bool)
        requires
            old(self).well_formed(),
        ensures
            final(self).well_formed(),
            final(self).set() == old(self).set(),
            r == (old(self).next_due() matches Some(t) && t <= now),
            r ==> final(self).frame_index() == (old(self).frame_index() + 1) % old(self).set().count()
                && final(self).shown_at() == now,
            !r ==> *final(self) == *old(self),
            final(self).next_due() matches Some(t) ==> t > now,
            r && now as int + u32::MAX as int <= u64::MAX ==> final(self).next_due() is Some,
    {
        let due = self.time_next_frame();
        match due {
            Some(t) => {
                if t <= now {
                    self.next_frame(now);
                    proof {
                        if let ImageSet::Animated(frames) = self.set() {
                            let f = frames@[self.frame_index() as int];
                            lemma_delay_fits(f.delay_numer, f.delay_denom);
                        }
                    }
                    true
                } else {
                    false
                }
            },
            None => false,
        }
    }
}

} // verus!
