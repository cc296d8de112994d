//! When the clients' content updates reach the screen, and when the next may
//! be applied.
//!
//! The shell reports each frame of a view it shows, once, on the refresh that
//! first shows it. That report answers the presentation feedback of the frame
//! and clears the fifo barriers its updates set. An update targeted at a time
//! is applied a refresh ahead of the first vblank at or after it.

use vstd::prelude::*;

use crate::action::Action;

verus! {

/// Assumed until the shell reports the display's own.
pub const DEFAULT_REFRESH_NS: u64 = 16_666_667;

/// How early a vblank may fall and still count as "at" a target time: clock
/// rounding between the client's arithmetic and ours.
pub const TARGET_SLACK_NS: u64 = 500_000;

/// The display's refresh cycle, as last reported.
#[derive(Clone, Copy, Debug, PartialEq, Eq, Structural)]
pub struct FrameClock {
    pub ust_ns: u64,
    pub refresh_ns: u64,
}

/// The least of `n` and the largest `u64`.
pub open spec fn clamp_u64(n: int) -> int {
    if n > u64::MAX {
        u64::MAX as int
    } else {
        n
    }
}

/// `a - b`, or 0 where that would be negative.
pub open spec fn monus(a: int, b: int) -> int {
    if a < b {
        0
    } else {
        a - b
    }
}

impl FrameClock {
    /// A refresh takes time.
    pub open spec fn wf(self) -> bool {
        self.refresh_ns > 0
    }

    /// The `k`th vblank counted from the last reported one.
    pub open spec fn vblank(self, k: int) -> int {
        self.ust_ns + k * self.refresh_ns
    }

    /// How many vblanks after the last reported one the first after `t` is.
    pub open spec fn vblanks_until(self, t: int) -> int {
        if t < self.ust_ns {
            0
        } else {
            (t - self.ust_ns) / (self.refresh_ns as int) + 1
        }
    }

    /// The first predicted vblank after `t`.
    pub open spec fn vblank_after(self, t: int) -> int {
        clamp_u64(self.vblank(self.vblanks_until(t)))
    }

    /// The latest target an update applied at `now` can meet.
    pub open spec fn due_at(self, now: int) -> int {
        clamp_u64(self.vblank_after(now) + TARGET_SLACK_NS)
    }

    /// What `release_at` takes the vblank after: the instant before the
    /// target less its slack.
    pub open spec fn before_target(self, target: int) -> int {
        monus(monus(target, TARGET_SLACK_NS as int), 1)
    }

    /// When an update for `target` is to be applied.
    pub open spec fn release_for(self, target: int) -> int {
        monus(self.vblank_after(self.before_target(target)), self.refresh_ns as int)
    }

    /// The count of refreshes up to `t` fits a `u64`; only a 1 ns refresh
    /// over the whole range of times does not.
    pub open spec fn counts(self, t: int) -> bool {
        self.vblanks_until(t) <= u64::MAX
    }

    /// A frame started to show at `ust_ns`; `refresh_ns` is 0 when unknown.
    /// A report of an older frame never moves the phase back.
    pub fn update(&mut self, ust_ns: u64, refresh_ns: u32)
        ensures
            final(self).ust_ns == if ust_ns > old(self).ust_ns {
                ust_ns
            } else {
                old(self).ust_ns
            },
            final(self).refresh_ns == if refresh_ns > 0 {
                refresh_ns as u64
            } else {
                old(self).refresh_ns
            },
            old(self).wf() ==> final(self).wf(),
    {
        if ust_ns > self.ust_ns {
            self.ust_ns = ust_ns;
        }
        if refresh_ns > 0 {
            self.refresh_ns = refresh_ns as u64;
        }
    }

    /// The first predicted vblank after `t`, or the end of time where that
    /// is past it.
    pub fn next_vblank(&self, t: u64) -> (at: u64)
        requires
            self.wf(),
            self.counts(t as int),
        ensures
            at == self.vblank_after(t as int),
    {
        if t < self.ust_ns {
            assert(self.vblank(0) == self.ust_ns) by (nonlinear_arith);
            return self.ust_ns;
        }
        let periods: u64 = (t - self.ust_ns) / self.refresh_ns + 1;
        let ahead: u64 = match periods.checked_mul(self.refresh_ns) {
            Some(ahead) => ahead,
            None => u64::MAX,
        };
        self.ust_ns.saturating_add(ahead)
    }

    /// The latest target an update applied at `now_ns` can meet: that of the
    /// next vblank, which is when it will be shown.
    pub fn due(&self, now_ns: u64) -> (at: u64)
        requires
            self.wf(),
            self.counts(now_ns as int),
        ensures
            at == self.due_at(now_ns as int),
    {
        self.next_vblank(now_ns).saturating_add(TARGET_SLACK_NS)
    }

    /// The latest time an update may be applied to be shown at the first
    /// vblank at or after `target_ns`: one refresh before that vblank.
    pub fn release_at(&self, target_ns: u64) -> (at: u64)
        requires
            self.wf(),
        ensures
            at == self.release_for(target_ns as int),
    {
        proof {
            times_before_the_end_count(*self, self.before_target(target_ns as int));
        }
        let target: u64 = target_ns.saturating_sub(TARGET_SLACK_NS);
        let vblank: u64 = self.next_vblank(target.saturating_sub(1));
        vblank.saturating_sub(self.refresh_ns)
    }
}

impl Default for FrameClock {
    fn default() -> (clock: Self)
        ensures
            clock.ust_ns == 0,
            clock.refresh_ns == DEFAULT_REFRESH_NS,
            clock.refresh_ns == 16_666_667,
            clock.wf(),
    {
        FrameClock { ust_ns: 0, refresh_ns: DEFAULT_REFRESH_NS }
    }
}

/// Frames of a view held for their report, before the oldest is taken as
/// never shown. Far more than the shell keeps in flight.
pub const MAX_IN_FLIGHT: usize = 16;

/// How long a frame of a view on screen may go unreported before its fifo
/// barriers are cleared anyway, so a client can always make progress.
pub const STALE_NS: u64 = 250_000_000;

/// What the shell reported for a shown frame.
#[derive(Clone, Copy, Debug, PartialEq, Eq, Structural)]
pub struct Report {
    pub seq: u64,
    pub ust_ns: u64,
    pub refresh_ns: u32,
    pub msc: u64,
    pub flags: u32,
}

/// What the client of shown content is told of it: when it was turned to
/// light, how long a refresh takes if that is known, the display's counter,
/// and how exact all that is.
#[derive(Clone, Copy, Debug, PartialEq, Eq, Structural)]
pub struct Told {
    pub time_ns: u64,
    pub refresh_ns: Option<u32>,
    pub msc: u64,
    pub flags: u32,
}

/// The flags of wp_presentation_feedback: vsync, hardware clock, hardware
/// completion, zero copy. No other goes to a client.
pub const PRESENTED_FLAGS: u32 = 0xf;

impl Report {
    /// What the client of content that the frame shows is told. A refresh of 0
    /// is one that is not known.
    pub open spec fn telling(self) -> Told {
        Told {
            time_ns: self.ust_ns,
            refresh_ns: if self.refresh_ns == 0 {
                None
            } else {
                Some(self.refresh_ns)
            },
            msc: self.msc,
            flags: self.flags & PRESENTED_FLAGS,
        }
    }

    /// What the client of content that the frame shows is told.
    pub fn told(self) -> (told: Told)
        ensures
            told == self.telling(),
    {
        Told {
            time_ns: self.ust_ns,
            refresh_ns: if self.refresh_ns == 0 {
                None
            } else {
                Some(self.refresh_ns)
            },
            msc: self.msc,
            flags: self.flags & PRESENTED_FLAGS,
        }
    }
}

/// A surface's content generation: bumped by each of its content updates, so
/// a frame can tell whether the content it shows is still the one a feedback
/// was asked for.
#[derive(Clone, Copy, Debug, PartialEq, Eq, Structural)]
pub struct Generation(pub u64);

/// The content generation of a surface; 0 before its first content update.
pub fn generation(of: Option<Generation>) -> (n: u64)
    ensures
        n == match of {
            Some(g) => g.0,
            None => 0,
        },
{
    match of {
        Some(g) => g.0,
        None => 0,
    }
}

/// A surface's content update was applied.
pub fn bump_generation(of: Option<Generation>) -> (next: Generation)
    requires
        of matches Some(g) ==> g.0 < u64::MAX,
    ensures
        next.0 == match of {
            Some(g) => g.0 + 1,
            None => 1,
        },
{
    match of {
        Some(g) => Generation(g.0 + 1),
        None => Generation(1),
    }
}

/// A feedback callback and the content it was asked for.
#[derive(Clone, Copy, Debug, PartialEq, Eq, Structural)]
pub struct Feedback {
    pub layer_id: u32,
    pub generation: u64,
    pub callback: u64,
}

impl Feedback {
    /// The content, as frames list what they show.
    pub open spec fn content(self) -> (u32, u64) {
        (self.layer_id, self.generation)
    }
}

/// What a tree's current content updates wait on the screen for: their
/// presentation feedback and fifo barriers, taken as the tree is submitted.
#[derive(Clone, Debug)]
pub struct Taken {
    pub feedback: Vec<Feedback>,
    pub barriers: Vec<u64>,
}

/// What `feedback` hears when none of its content is shown.
pub open spec fn discards(feedback: Seq<Feedback>) -> Seq<Action> {
    feedback.map_values(|f: Feedback| Action::Discarded(f.callback))
}

/// The clearing of each of `barriers`.
pub open spec fn clears(barriers: Seq<u64>) -> Seq<Action> {
    barriers.map_values(|b: u64| Action::Cleared(b))
}

/// What `feedback` hears when a frame showing `shown` reaches the screen:
/// `told`, where its content is in it.
pub open spec fn answers(
    feedback: Seq<Feedback>,
    shown: Seq<(u32, u64)>,
    told: Told,
) -> Seq<Action> {
    feedback.map_values(
        |f: Feedback|
            if shown.contains(f.content()) {
                Action::Presented(f.callback, told)
            } else {
                Action::Discarded(f.callback)
            },
    )
}

/// Ask for each of `barriers` to be cleared.
pub fn push_clears(out: &mut Vec<Action>, barriers: &Vec<u64>)
    ensures
        final(out)@ == old(out)@ + clears(barriers@),
{
    let mut i: usize = 0;
    while i < barriers.len()
        invariant
            i <= barriers.len(),
            out@ == old(out)@ + clears(barriers@.take(i as int)),
        decreases barriers.len() - i,
    {
        proof {
            assert(barriers@.take(i + 1) == barriers@.take(i as int).push(barriers@[i as int]));
            assert(clears(barriers@.take(i + 1)) == clears(barriers@.take(i as int)).push(
                Action::Cleared(barriers@[i as int]),
            ));
        }
        out.push(Action::Cleared(barriers[i]));
        i += 1;
    }
    assert(barriers@.take(i as int) == barriers@);
}

fn push_discards(out: &mut Vec<Action>, feedback: &Vec<Feedback>)
    ensures
        final(out)@ == old(out)@ + discards(feedback@),
{
    let mut i: usize = 0;
    while i < feedback.len()
        invariant
            i <= feedback.len(),
            out@ == old(out)@ + discards(feedback@.take(i as int)),
        decreases feedback.len() - i,
    {
        proof {
            assert(feedback@.take(i + 1) == feedback@.take(i as int).push(feedback@[i as int]));
            assert(discards(feedback@.take(i + 1)) == discards(feedback@.take(i as int)).push(
                Action::Discarded(feedback@[i as int].callback),
            ));
        }
        out.push(Action::Discarded(feedback[i].callback));
        i += 1;
    }
    assert(feedback@.take(i as int) == feedback@);
}

/// Whether `shown` lists `layer_id` at `generation`.
fn shows(shown: &Vec<(u32, u64)>, layer_id: u32, generation: u64) -> (found: bool)
    ensures
        found == shown@.contains((layer_id, generation)),
{
    let mut i: usize = 0;
    while i < shown.len()
        invariant
            i <= shown.len(),
            forall|j: int| 0 <= j < i ==> shown@[j] != (layer_id, generation),
        decreases shown.len() - i,
    {
        if shown[i].0 == layer_id && shown[i].1 == generation {
            assert(shown@[i as int] == (layer_id, generation));
            return true;
        }
        i += 1;
    }
    false
}

fn push_answers(
    out: &mut Vec<Action>,
    feedback: &Vec<Feedback>,
    shown: &Vec<(u32, u64)>,
    told: Told,
)
    ensures
        final(out)@ == old(out)@ + answers(feedback@, shown@, told),
{
    let mut i: usize = 0;
    while i < feedback.len()
        invariant
            i <= feedback.len(),
            out@ == old(out)@ + answers(feedback@.take(i as int), shown@, told),
        decreases feedback.len() - i,
    {
        let f = feedback[i];
        let act = if shows(shown, f.layer_id, f.generation) {
            Action::Presented(f.callback, told)
        } else {
            Action::Discarded(f.callback)
        };
        proof {
            assert(feedback@.take(i + 1) == feedback@.take(i as int).push(feedback@[i as int]));
            assert(answers(feedback@.take(i + 1), shown@, told) == answers(
                feedback@.take(i as int),
                shown@,
                told,
            ).push(act));
        }
        out.push(act);
        i += 1;
    }
    assert(feedback@.take(i as int) == feedback@);
}

impl Taken {
    /// Nothing taken.
    pub fn new() -> (taken: Taken)
        ensures
            taken.feedback@ == Seq::<Feedback>::empty(),
            taken.barriers@ == Seq::<u64>::empty(),
    {
        Taken { feedback: Vec::new(), barriers: Vec::new() }
    }

    /// Take what one surface's content waits for: its feedback `callbacks`,
    /// asked for at `generation`, and its fifo barrier, if it set one.
    pub fn from_surface(
        &mut self,
        layer_id: u32,
        generation: u64,
        callbacks: &Vec<u64>,
        barrier: Option<u64>,
    )
        ensures
            final(self).feedback@ == old(self).feedback@ + callbacks@.map_values(
                |callback: u64| Feedback { layer_id, generation, callback },
            ),
            final(self).barriers@ == match barrier {
                Some(b) => old(self).barriers@.push(b),
                None => old(self).barriers@,
            },
    {
        let ghost make = |callback: u64| Feedback { layer_id, generation, callback };
        let mut i: usize = 0;
        while i < callbacks.len()
            invariant
                i <= callbacks.len(),
                make == (|callback: u64| Feedback { layer_id, generation, callback }),
                self.feedback@ == old(self).feedback@ + callbacks@.take(i as int).map_values(make),
                self.barriers@ == old(self).barriers@,
            decreases callbacks.len() - i,
        {
            proof {
                assert(callbacks@.take(i + 1) == callbacks@.take(i as int).push(
                    callbacks@[i as int],
                ));
                assert(callbacks@.take(i + 1).map_values(make) == callbacks@.take(
                    i as int,
                ).map_values(make).push(make(callbacks@[i as int])));
            }
            self.feedback.push(Feedback { layer_id, generation, callback: callbacks[i] });
            i += 1;
        }
        assert(callbacks@.take(i as int) == callbacks@);
        if let Some(b) = barrier {
            self.barriers.push(b);
        }
    }

    pub fn has_barriers(&self) -> (any: bool)
        ensures
            any == (self.barriers@.len() > 0),
    {
        self.barriers.len() > 0
    }

    /// Nothing of it will be shown: the feedback is discarded, and the
    /// barriers are handed back to be cleared on the clock.
    pub fn not_shown(self, out: &mut Vec<Action>) -> (barriers: Vec<u64>)
        ensures
            final(out)@ == old(out)@ + discards(self.feedback@),
            barriers@ == self.barriers@,
    {
        push_discards(out, &self.feedback);
        self.barriers
    }
}

/// A submitted frame, until the shell reports it or it is taken as never
/// shown.
#[derive(Debug)]
pub struct Frame {
    pub seq: u64,
    pub submitted_ns: u64,
    /// The content generation of each layer it shows, by layer id.
    pub shown: Vec<(u32, u64)>,
    pub feedback: Vec<Feedback>,
    pub barriers: Vec<u64>,
}

/// A frame, as plain values.
pub struct FrameModel {
    pub seq: u64,
    pub submitted_ns: u64,
    pub shown: Seq<(u32, u64)>,
    pub feedback: Seq<Feedback>,
    pub barriers: Seq<u64>,
}

impl FrameModel {
    /// What is done with a frame that is never shown: its feedback is
    /// discarded and its barriers clear.
    pub open spec fn unshown(self) -> Seq<Action> {
        discards(self.feedback) + clears(self.barriers)
    }

    /// The frame with its barriers cleared.
    pub open spec fn released(self) -> FrameModel {
        FrameModel { barriers: Seq::empty(), ..self }
    }
}

impl View for Frame {
    type V = FrameModel;

    open spec fn view(&self) -> FrameModel {
        FrameModel {
            seq: self.seq,
            submitted_ns: self.submitted_ns,
            shown: self.shown@,
            feedback: self.feedback@,
            barriers: self.barriers@,
        }
    }
}

/// A view's frames awaiting the shell's report, oldest first.
#[derive(Debug)]
pub struct Frames {
    pub frames: Vec<Frame>,
}

impl View for Frames {
    type V = Seq<FrameModel>;

    open spec fn view(&self) -> Seq<FrameModel> {
        self.frames@.map_values(|f: Frame| f@)
    }
}

/// How many frames at the front are numbered `seq` or less.
pub open spec fn up_to(frames: Seq<FrameModel>, seq: u64) -> int
    decreases frames.len(),
{
    if frames.len() == 0 || frames[0].seq > seq {
        0
    } else {
        1 + up_to(frames.drop_first(), seq)
    }
}

/// What the frame numbered `seq` shows; nothing when it is not there any
/// more: it was already taken as never shown, and then nothing of the frames
/// before it counts as shown either.
pub open spec fn shown_by(frames: Seq<FrameModel>, seq: u64) -> Seq<(u32, u64)>
    decreases frames.len(),
{
    if frames.len() == 0 {
        Seq::empty()
    } else if frames[0].seq == seq {
        frames[0].shown
    } else {
        shown_by(frames.drop_first(), seq)
    }
}

/// What is done with `frames` when content `shown` is on screen in place of
/// them all: each feedback hears whether its content was shown, each barrier
/// clears.
pub open spec fn reported(
    frames: Seq<FrameModel>,
    shown: Seq<(u32, u64)>,
    told: Told,
) -> Seq<Action> {
    frames.flat_map(|f: FrameModel| answers(f.feedback, shown, told) + clears(f.barriers))
}

/// What is done with frames none of which will be shown.
pub open spec fn all_unshown(frames: Seq<FrameModel>) -> Seq<Action> {
    frames.flat_map(|f: FrameModel| f.unshown())
}

/// Whether any of `frames` holds a barrier.
pub open spec fn any_barrier(frames: Seq<FrameModel>) -> bool {
    exists|i: int| 0 <= i < frames.len() && (#[trigger] frames[i]).barriers.len() > 0
}

/// The frame, released if it was submitted before `before_ns`.
pub open spec fn released_before(frame: FrameModel, before_ns: u64) -> FrameModel {
    if frame.submitted_ns < before_ns {
        frame.released()
    } else {
        frame
    }
}

/// The clearing of the barriers of the frames submitted before `before_ns`.
pub open spec fn clears_before(frames: Seq<FrameModel>, before_ns: u64) -> Seq<Action> {
    frames.flat_map(
        |f: FrameModel|
            if f.submitted_ns < before_ns {
                clears(f.barriers)
            } else {
                Seq::empty()
            },
    )
}

/// Whether a frame submitted before `before_ns` holds a barrier.
pub open spec fn any_barrier_before(frames: Seq<FrameModel>, before_ns: u64) -> bool {
    exists|i: int|
        0 <= i < frames.len() && (#[trigger] frames[i]).barriers.len() > 0
            && frames[i].submitted_ns < before_ns
}

/// When the oldest frame still holding a barrier goes stale.
pub open spec fn stale_at(frames: Seq<FrameModel>) -> Option<u64>
    decreases frames.len(),
{
    if frames.len() == 0 {
        None
    } else if frames[0].barriers.len() > 0 {
        Some(clamp_u64(frames[0].submitted_ns + STALE_NS) as u64)
    } else {
        stale_at(frames.drop_first())
    }
}

/// The feedback whose content is among `shown`.
pub open spec fn seen(feedback: Seq<Feedback>, shown: Seq<(u32, u64)>) -> Seq<Feedback> {
    feedback.filter(|f: Feedback| shown.contains(f.content()))
}

/// The feedback whose content is not among `shown`.
pub open spec fn unseen(feedback: Seq<Feedback>, shown: Seq<(u32, u64)>) -> Seq<Feedback> {
    feedback.filter(|f: Feedback| !shown.contains(f.content()))
}

/// The frames once `frame` is submitted; the oldest makes room for it.
pub open spec fn with_frame(frames: Seq<FrameModel>, frame: FrameModel) -> Seq<FrameModel> {
    if frames.len() < MAX_IN_FLIGHT {
        frames.push(frame)
    } else {
        frames.drop_first().push(frame)
    }
}

/// The frame that makes room for another, if one has to.
pub open spec fn displaced(frames: Seq<FrameModel>) -> Seq<FrameModel> {
    if frames.len() < MAX_IN_FLIGHT {
        Seq::empty()
    } else {
        frames.take(1)
    }
}

fn push_unshown(out: &mut Vec<Action>, frame: &Frame)
    ensures
        final(out)@ == old(out)@ + frame@.unshown(),
{
    push_discards(out, &frame.feedback);
    push_clears(out, &frame.barriers);
}

impl Frames {
    /// No more frames than are kept in flight.
    pub open spec fn wf(self) -> bool {
        self@.len() <= MAX_IN_FLIGHT
    }

    /// No frame in flight.
    pub fn new() -> (frames: Frames)
        ensures
            frames@ == Seq::<FrameModel>::empty(),
            frames.wf(),
    {
        Frames { frames: Vec::new() }
    }

    /// Frame `seq` was submitted at `now_ns`, showing `shown` (layer id and
    /// content generation of each layer). Feedback for surfaces it does not
    /// show is discarded now. Returns whether barriers were cleared to make
    /// room.
    pub fn push(
        &mut self,
        seq: u64,
        now_ns: u64,
        shown: Vec<(u32, u64)>,
        taken: Taken,
        out: &mut Vec<Action>,
    ) -> (released: bool)
        requires
            old(self).wf(),
        ensures
            final(self).wf(),
            final(self)@ == with_frame(
                old(self)@,
                (FrameModel {
                    seq,
                    submitted_ns: now_ns,
                    shown: shown@,
                    feedback: seen(taken.feedback@, shown@),
                    barriers: taken.barriers@,
                }),
            ),
            final(out)@ == old(out)@ + discards(unseen(taken.feedback@, shown@)) + all_unshown(
                displaced(old(self)@),
            ),
            released == any_barrier(displaced(old(self)@)),
    {
        let mut kept: Vec<Feedback> = Vec::new();
        let mut i: usize = 0;
        let ghost pred = |f: Feedback| shown@.contains(f.content());
        let ghost unpred = |f: Feedback| !shown@.contains(f.content());
        proof {
            assert(taken.feedback@.take(0) == Seq::<Feedback>::empty());
            assert(Seq::<Feedback>::empty().filter(pred) == Seq::<Feedback>::empty()) by {
                reveal(Seq::filter);
            }
            assert(Seq::<Feedback>::empty().filter(unpred) == Seq::<Feedback>::empty()) by {
                reveal(Seq::filter);
            }
            assert(discards(Seq::<Feedback>::empty()) == Seq::<Action>::empty());
        }
        while i < taken.feedback.len()
            invariant
                i <= taken.feedback.len(),
                pred == (|f: Feedback| shown@.contains(f.content())),
                unpred == (|f: Feedback| !shown@.contains(f.content())),
                kept@ == taken.feedback@.take(i as int).filter(pred),
                out@ == old(out)@ + discards(taken.feedback@.take(i as int).filter(unpred)),
            decreases taken.feedback.len() - i,
        {
            let f = taken.feedback[i];
            proof {
                let done = taken.feedback@.take(i as int);
                assert(taken.feedback@.take(i + 1) == done.push(f));
                done.lemma_filter_push(f, pred);
                done.lemma_filter_push(f, unpred);
                assert(discards(done.filter(unpred).push(f)) == discards(done.filter(unpred)).push(
                    Action::Discarded(f.callback),
                ));
            }
            if shows(&shown, f.layer_id, f.generation) {
                kept.push(f);
            } else {
                out.push(Action::Discarded(f.callback));
            }
            i += 1;
        }
        assert(taken.feedback@.take(i as int) == taken.feedback@);
        let frame = Frame {
            seq,
            submitted_ns: now_ns,
            shown,
            feedback: kept,
            barriers: taken.barriers,
        };
        let ghost before = self@;
        self.frames.push(frame);
        assert(self@ == before.push(frame@));
        if self.frames.len() > MAX_IN_FLIGHT {
            let gone = self.frames.remove(0);
            assert(self@ == before.drop_first().push(frame@));
            push_unshown(out, &gone);
            proof {
                let g = |f: FrameModel| f.unshown();
                assert(gone@ == before[0]);
                assert(before.take(1) == Seq::<FrameModel>::empty().push(before[0]));
                before.take(1).lemma_flat_map_singleton(g);
                assert(before.take(1)[0].barriers == gone.barriers@);
            }
            gone.barriers.len() > 0
        } else {
            assert(all_unshown(Seq::empty()) == Seq::<Action>::empty()) by {
                reveal(Seq::flatten);
            }
            false
        }
    }

    /// The shell showed frame `report.seq`. Frames before it were replaced
    /// before they were shown, but content of theirs still in it was shown with
    /// it. Returns whether any barrier was cleared.
    pub fn presented(&mut self, report: Report, out: &mut Vec<Action>) -> (released: bool)
        ensures
            final(self)@ == old(self)@.skip(up_to(old(self)@, report.seq)),
            old(self).wf() ==> final(self).wf(),
            final(out)@ == old(out)@ + reported(
                old(self)@.take(up_to(old(self)@, report.seq)),
                shown_by(old(self)@, report.seq),
                report.telling(),
            ),
            released == any_barrier(old(self)@.take(up_to(old(self)@, report.seq))),
    {
        let seq: u64 = report.seq;
        let told = report.told();
        let ghost before = self@;
        let shown: Vec<(u32, u64)> = self.shown_in(seq);
        let ghost g = |f: FrameModel| answers(f.feedback, shown@, told) + clears(f.barriers);
        let ghost mut k: int = 0;
        let mut released: bool = false;
        proof {
            assert(before.skip(0) == before);
            assert(before.take(0) == Seq::<FrameModel>::empty());
            assert(before.take(0).flat_map(g) == Seq::<Action>::empty()) by {
                reveal(Seq::flatten);
            }
        }
        while self.frames.len() > 0 && self.frames[0].seq <= seq
            invariant
                0 <= k <= before.len(),
                seq == report.seq,
                self@ == before.skip(k),
                g == (|f: FrameModel| answers(f.feedback, shown@, told) + clears(f.barriers)),
                k + up_to(before.skip(k), seq) == up_to(before, seq),
                out@ == old(out)@ + before.take(k).flat_map(g),
                released == any_barrier(before.take(k)),
            decreases self.frames.len(),
        {
            let frame = self.frames.remove(0);
            proof {
                assert(before[k] == before.skip(k)[0]);
                assert(before.skip(k)[0] == frame@);
                assert(before.skip(k).drop_first() == before.skip(k + 1));
                assert(self@ == before.skip(k + 1));
                before.lemma_flat_map_take_append(g, k);
                assert(before.take(k + 1) == before.take(k).push(frame@));
                assert(before.take(k + 1)[k] == frame@);
                if any_barrier(before.take(k)) {
                    let i = choose|i: int|
                        0 <= i < k && (#[trigger] before.take(k)[i]).barriers.len() > 0;
                    assert(before.take(k + 1)[i] == before.take(k)[i]);
                }
                if any_barrier(before.take(k + 1)) && frame.barriers@.len() == 0 {
                    let i = choose|i: int|
                        0 <= i < k + 1 && (#[trigger] before.take(k + 1)[i]).barriers.len() > 0;
                    assert(before.take(k)[i] == before.take(k + 1)[i]);
                }
            }
            push_answers(out, &frame.feedback, &shown, told);
            push_clears(out, &frame.barriers);
            released = released || frame.barriers.len() > 0;
            proof {
                k = k + 1;
            }
        }
        proof {
            assert(self@.len() == self.frames@.len());
            if self@.len() > 0 {
                assert(self@[0] == self.frames@[0]@);
            }
            assert(up_to(before.skip(k), seq) == 0);
        }
        released
    }

    fn shown_in(&self, seq: u64) -> (shown: Vec<(u32, u64)>)
        ensures
            shown@ == shown_by(self@, seq),
    {
        let mut i: usize = 0;
        assert(self@.skip(0) == self@);
        while i < self.frames.len()
            invariant
                i <= self.frames.len(),
                shown_by(self@.skip(i as int), seq) == shown_by(self@, seq),
            decreases self.frames.len() - i,
        {
            assert(self@.skip(i as int)[0] == self.frames@[i as int]@);
            assert(self@.skip(i as int).drop_first() == self@.skip(i + 1));
            if self.frames[i].seq == seq {
                return copy_shown(&self.frames[i].shown);
            }
            i += 1;
        }
        Vec::new()
    }

    /// Clear the barriers of frames submitted before `before_ns`, keeping
    /// them for their report. Returns whether any was cleared.
    pub fn release_older(&mut self, before_ns: u64, out: &mut Vec<Action>) -> (released: bool)
        ensures
            final(self)@ == old(self)@.map_values(
                |f: FrameModel| released_before(f, before_ns),
            ),
            old(self).wf() ==> final(self).wf(),
            final(out)@ == old(out)@ + clears_before(old(self)@, before_ns),
            released == any_barrier_before(old(self)@, before_ns),
    {
        let ghost before = self@;
        let ghost g = |f: FrameModel|
            if f.submitted_ns < before_ns {
                clears(f.barriers)
            } else {
                Seq::empty()
            };
        let mut released: bool = false;
        let mut i: usize = 0;
        proof {
            assert(before.take(0) == Seq::<FrameModel>::empty());
            assert(before.take(0).flat_map(g) == Seq::<Action>::empty()) by {
                reveal(Seq::flatten);
            }
        }
        while i < self.frames.len()
            invariant
                i <= self.frames.len(),
                self.frames.len() == before.len(),
                g == (|f: FrameModel|
                    if f.submitted_ns < before_ns {
                        clears(f.barriers)
                    } else {
                        Seq::empty()
                    }),
                forall|j: int|
                    0 <= j < i ==> (#[trigger] self.frames@[j])@ == released_before(
                        before[j],
                        before_ns,
                    ),
                forall|j: int| i <= j < before.len() ==> (#[trigger] self.frames@[j])@ == before[j],
                out@ == old(out)@ + before.take(i as int).flat_map(g),
                released == exists|j: int|
                    0 <= j < i && (#[trigger] before[j]).barriers.len() > 0
                        && before[j].submitted_ns < before_ns,
            decreases self.frames.len() - i,
        {
            proof {
                before.lemma_flat_map_take_append(g, i as int);
                assert(self.frames@[i as int]@ == before[i as int]);
            }
            if self.frames[i].submitted_ns < before_ns {
                let frame = &mut self.frames[i];
                push_clears(out, &frame.barriers);
                released = released || frame.barriers.len() > 0;
                frame.barriers.clear();
            }
            i += 1;
        }
        assert(before.take(i as int) == before);
        assert(self@ == before.map_values(|f: FrameModel| released_before(f, before_ns)));
        released
    }

    /// Clear every barrier, keeping the frames for their report.
    pub fn release_all(&mut self, out: &mut Vec<Action>) -> (released: bool)
        ensures
            final(self)@ == old(self)@.map_values(
                |f: FrameModel| released_before(f, u64::MAX),
            ),
            old(self).wf() ==> final(self).wf(),
            final(out)@ == old(out)@ + clears_before(old(self)@, u64::MAX),
            released == any_barrier_before(old(self)@, u64::MAX),
    {
        self.release_older(u64::MAX, out)
    }

    /// When the oldest frame still holding a barrier goes stale.
    pub fn next_stale(&self) -> (at: Option<u64>)
        ensures
            at == stale_at(self@),
    {
        let mut i: usize = 0;
        assert(self@.skip(0) == self@);
        while i < self.frames.len()
            invariant
                i <= self.frames.len(),
                stale_at(self@.skip(i as int)) == stale_at(self@),
            decreases self.frames.len() - i,
        {
            assert(self@.skip(i as int)[0] == self.frames@[i as int]@);
            assert(self@.skip(i as int).drop_first() == self@.skip(i + 1));
            if self.frames[i].barriers.len() > 0 {
                return Some(self.frames[i].submitted_ns.saturating_add(STALE_NS));
            }
            i += 1;
        }
        None
    }

    /// The view is gone or unbound: nothing more will be shown.
    pub fn clear(&mut self, out: &mut Vec<Action>) -> (released: bool)
        ensures
            final(self)@ == Seq::<FrameModel>::empty(),
            final(self).wf(),
            final(out)@ == old(out)@ + all_unshown(old(self)@),
            released == any_barrier(old(self)@),
    {
        let ghost before = self@;
        let ghost g = |f: FrameModel| f.unshown();
        let mut released: bool = false;
        let mut i: usize = 0;
        proof {
            assert(before.take(0) == Seq::<FrameModel>::empty());
            assert(before.take(0).flat_map(g) == Seq::<Action>::empty()) by {
                reveal(Seq::flatten);
            }
        }
        while i < self.frames.len()
            invariant
                i <= self.frames.len(),
                self@ == before,
                g == (|f: FrameModel| f.unshown()),
                out@ == old(out)@ + before.take(i as int).flat_map(g),
                released == exists|j: int| 0 <= j < i && (#[trigger] before[j]).barriers.len() > 0,
            decreases self.frames.len() - i,
        {
            proof {
                before.lemma_flat_map_take_append(g, i as int);
                assert(self.frames@[i as int]@ == before[i as int]);
            }
            push_unshown(out, &self.frames[i]);
            released = released || self.frames[i].barriers.len() > 0;
            i += 1;
        }
        assert(before.take(i as int) == before);
        self.frames.clear();
        released
    }
}

fn copy_shown(shown: &Vec<(u32, u64)>) -> (copy: Vec<(u32, u64)>)
    ensures
        copy@ == shown@,
{
    let mut copy: Vec<(u32, u64)> = Vec::new();
    let mut i: usize = 0;
    while i < shown.len()
        invariant
            i <= shown.len(),
            copy@ == shown@.take(i as int),
        decreases shown.len() - i,
    {
        copy.push(shown[i]);
        i += 1;
    }
    copy
}

/// At any time but the very last one the refreshes up to it can be counted.
pub proof fn times_before_the_end_count(clock: FrameClock, t: int)
    requires
        clock.wf(),
        0 <= t < u64::MAX,
    ensures
        clock.counts(t),
        0 <= clock.vblank_after(t) <= u64::MAX,
{
    let r = clock.refresh_ns as int;
    let u = clock.ust_ns as int;
    if t >= u {
        vstd::arithmetic::div_mod::lemma_div_is_ordered_by_denominator(t - u, 1, r);
        vstd::arithmetic::div_mod::lemma_div_pos_is_pos(t - u, r);
        let k = clock.vblanks_until(t);
        assert(0 <= k * r) by (nonlinear_arith)
            requires
                0 <= k,
                0 < r,
        ;
    }
}

/// The predicted vblank after `t` is a vblank, comes after `t`, and no vblank
/// of the cycle falls between the two.
pub proof fn vblank_after_is_the_first(clock: FrameClock, t: int, k: int)
    requires
        clock.wf(),
        0 <= t,
        clock.vblank(clock.vblanks_until(t)) <= u64::MAX,
        0 <= k,
        clock.vblank(k) > t,
    ensures
        clock.vblank_after(t) == clock.vblank(clock.vblanks_until(t)),
        clock.vblanks_until(t) >= 0,
        clock.vblank_after(t) > t,
        clock.vblank_after(t) <= clock.vblank(k),
{
    let r = clock.refresh_ns as int;
    let u = clock.ust_ns as int;
    if t < u {
        assert(clock.vblank(0) == u) by (nonlinear_arith)
            requires
                u == clock.ust_ns,
        ;
        assert(0 <= k * r) by (nonlinear_arith)
            requires
                0 <= k,
                0 < r,
        ;
    } else {
        let q = (t - u) / r;
        vstd::arithmetic::div_mod::lemma_fundamental_div_mod(t - u, r);
        vstd::arithmetic::div_mod::lemma_mod_bound(t - u, r);
        vstd::arithmetic::div_mod::lemma_div_pos_is_pos(t - u, r);
        assert((q + 1) * r == q * r + r) by (nonlinear_arith);
        assert(r * q == q * r) by (nonlinear_arith);
        if k <= q {
            assert(k * r <= q * r) by (nonlinear_arith)
                requires
                    k <= q,
                    0 < r,
            ;
            assert(false);
        }
        assert((q + 1) * r <= k * r) by (nonlinear_arith)
            requires
                q + 1 <= k,
                0 < r,
        ;
    }
}

/// An update held until its release time is due when that time comes: the
/// vblank it is then applied for is the one its target asked for.
pub proof fn released_updates_are_due(clock: FrameClock, target: int)
    requires
        clock.wf(),
        0 <= target <= u64::MAX,
        clock.vblank(clock.vblanks_until(clock.before_target(target))) <= u64::MAX,
    ensures
        clock.due_at(clock.release_for(target)) >= target,
{
    let r = clock.refresh_ns as int;
    let u = clock.ust_ns as int;
    let b = clock.before_target(target);
    let k = clock.vblanks_until(b);
    let v = clock.vblank(k);
    let at = clock.release_for(target);
    assert(clock.vblank(0) == u) by (nonlinear_arith)
        requires
            u == clock.ust_ns,
    ;
    if b < u {
        assert(k == 0);
        assert(at < u || at == 0);
        if at >= u {
            // The clock has seen no report yet and the target is at its start.
            assert(u == 0);
            assert(false);
        }
        assert(clock.vblank_after(at) == u);
    } else {
        let q = (b - u) / r;
        vstd::arithmetic::div_mod::lemma_fundamental_div_mod(b - u, r);
        vstd::arithmetic::div_mod::lemma_mod_bound(b - u, r);
        vstd::arithmetic::div_mod::lemma_div_pos_is_pos(b - u, r);
        assert((q + 1) * r == q * r + r) by (nonlinear_arith);
        assert(r * q == q * r) by (nonlinear_arith);
        assert(at == u + q * r);
        assert((at - u) / r == q) by (nonlinear_arith)
            requires
                at - u == q * r,
                0 < r,
        ;
        assert(clock.vblanks_until(at) == k);
        assert(clock.vblank_after(at) == v);
        assert(v > b);
    }
}

/// What a client is told of shown content is what the shell reported: the time
/// it was shown, the refresh unless that is 0, the counter, and the flags that
/// wp_presentation_feedback has.
pub proof fn a_client_is_told_what_was_reported(report: Report)
    ensures
        report.telling().time_ns == report.ust_ns,
        report.refresh_ns != 0 ==> report.telling().refresh_ns == Some(report.refresh_ns),
        report.refresh_ns == 0 ==> report.telling().refresh_ns is None,
        report.telling().msc == report.msc,
        report.telling().flags == report.flags & 0xf,
{
}

/// Each feedback is answered with its own callback: shown where the frame
/// shows its surface's layer at the generation it was asked for, discarded
/// otherwise.
pub proof fn each_feedback_hears_of_its_content(
    feedback: Seq<Feedback>,
    shown: Seq<(u32, u64)>,
    told: Told,
    i: int,
)
    requires
        0 <= i < feedback.len(),
    ensures
        answers(feedback, shown, told).len() == feedback.len(),
        shown.contains((feedback[i].layer_id, feedback[i].generation)) ==> answers(
            feedback,
            shown,
            told,
        )[i] == Action::Presented(feedback[i].callback, told),
        !shown.contains((feedback[i].layer_id, feedback[i].generation)) ==> answers(
            feedback,
            shown,
            told,
        )[i] == Action::Discarded(feedback[i].callback),
        discards(feedback).len() == feedback.len(),
        discards(feedback)[i] == Action::Discarded(feedback[i].callback),
        seen(feedback, shown).contains(feedback[i]) <==> shown.contains(
            (feedback[i].layer_id, feedback[i].generation),
        ),
        unseen(feedback, shown).contains(feedback[i]) <==> !shown.contains(
            (feedback[i].layer_id, feedback[i].generation),
        ),
{
    let f = feedback[i];
    assert(feedback.contains(f));
    crate::maps::what_a_filter_keeps(feedback, |f: Feedback| shown.contains(f.content()), f);
    crate::maps::what_a_filter_keeps(feedback, |f: Feedback| !shown.contains(f.content()), f);
}

/// Each barrier is cleared, by its own number.
pub proof fn each_barrier_is_cleared(barriers: Seq<u64>, i: int)
    requires
        0 <= i < barriers.len(),
    ensures
        clears(barriers).len() == barriers.len(),
        clears(barriers)[i] == Action::Cleared(barriers[i]),
{
}

/// A view keeps its last 16 frames for their report: a frame is added behind
/// them, and the oldest makes room where there are as many.
pub proof fn the_last_frames_are_kept(frames: Seq<FrameModel>, frame: FrameModel)
    requires
        frames.len() <= 16,
    ensures
        with_frame(frames, frame).last() == frame,
        frames.len() < 16 ==> with_frame(frames, frame).drop_last() == frames && displaced(
            frames,
        ).len() == 0,
        frames.len() == 16 ==> with_frame(frames, frame).drop_last() == frames.drop_first()
            && displaced(frames) == seq![frames[0]],
        with_frame(frames, frame).len() <= 16,
{
    assert(frames.push(frame).drop_last() =~= frames);
    assert(frames.drop_first().push(frame).drop_last() =~= frames.drop_first());
    if frames.len() == 16 {
        assert(frames.take(1) =~= seq![frames[0]]);
    }
}

/// A report covers the frames at the front that are numbered no higher, all of
/// them, and what was shown is what the frame of its number shows.
pub proof fn what_a_report_covers(frames: Seq<FrameModel>, seq: u64, i: int)
    ensures
        0 <= up_to(frames, seq) <= frames.len(),
        0 <= i < up_to(frames, seq) ==> frames[i].seq <= seq,
        up_to(frames, seq) < frames.len() ==> frames[up_to(frames, seq)].seq > seq,
        0 <= i < frames.len() && frames[i].seq == seq && (forall|j: int|
            0 <= j < i ==> (#[trigger] frames[j]).seq != seq) ==> shown_by(frames, seq)
            == frames[i].shown,
        (forall|j: int| 0 <= j < frames.len() ==> (#[trigger] frames[j]).seq != seq) ==> shown_by(
            frames,
            seq,
        ).len() == 0,
    decreases frames.len(),
{
    if frames.len() > 0 {
        let d = frames.drop_first();
        what_a_report_covers(d, seq, i - 1);
        assert forall|j: int| 0 <= j < d.len() implies #[trigger] d[j] == frames[j + 1] by {}
        if 0 < i < frames.len() && frames[i].seq == seq && (forall|j: int|
            0 <= j < i ==> (#[trigger] frames[j]).seq != seq) {
            assert(frames[0].seq != seq);
            assert forall|j: int| 0 <= j < i - 1 implies (#[trigger] d[j]).seq != seq by {
                assert(frames[j + 1].seq != seq);
            }
        }
        if forall|j: int| 0 <= j < frames.len() ==> (#[trigger] frames[j]).seq != seq {
            assert(frames[0].seq != seq);
            assert forall|j: int| 0 <= j < d.len() implies (#[trigger] d[j]).seq != seq by {
                assert(frames[j + 1].seq != seq);
            }
        }
    }
}

/// A view's barriers go stale a quarter of a second after the oldest of its
/// frames that holds any was submitted.
pub proof fn when_barriers_go_stale(frames: Seq<FrameModel>, i: int)
    ensures
        0 <= i < frames.len() && frames[i].barriers.len() > 0 && (forall|j: int|
            0 <= j < i ==> (#[trigger] frames[j]).barriers.len() == 0) && frames[i].submitted_ns
            + 250_000_000 <= u64::MAX ==> stale_at(frames) == Some(
            (frames[i].submitted_ns + 250_000_000) as u64,
        ),
        (forall|j: int| 0 <= j < frames.len() ==> (#[trigger] frames[j]).barriers.len() == 0)
            ==> stale_at(frames) is None,
    decreases frames.len(),
{
    if frames.len() > 0 {
        let d = frames.drop_first();
        when_barriers_go_stale(d, i - 1);
        assert forall|j: int| 0 <= j < d.len() implies #[trigger] d[j] == frames[j + 1] by {}
        if 0 < i < frames.len() && frames[i].barriers.len() > 0 && (forall|j: int|
            0 <= j < i ==> (#[trigger] frames[j]).barriers.len() == 0) {
            assert(frames[0].barriers.len() == 0);
            assert forall|j: int| 0 <= j < i - 1 implies (#[trigger] d[j]).barriers.len()
                == 0 by {
                assert(frames[j + 1].barriers.len() == 0);
            }
        }
        if forall|j: int| 0 <= j < frames.len() ==> (#[trigger] frames[j]).barriers.len() == 0 {
            assert(frames[0].barriers.len() == 0);
            assert forall|j: int| 0 <= j < d.len() implies (#[trigger] d[j]).barriers.len()
                == 0 by {
                assert(frames[j + 1].barriers.len() == 0);
            }
        }
    }
}

/// A frame released early keeps all but its barriers; one submitted later is
/// as it was.
pub proof fn releasing_takes_the_barriers_only(frame: FrameModel, before_ns: u64)
    ensures
        released_before(frame, before_ns).seq == frame.seq,
        released_before(frame, before_ns).submitted_ns == frame.submitted_ns,
        released_before(frame, before_ns).shown == frame.shown,
        released_before(frame, before_ns).feedback == frame.feedback,
        frame.submitted_ns < before_ns ==> released_before(frame, before_ns).barriers.len() == 0,
        frame.submitted_ns >= before_ns ==> released_before(frame, before_ns) == frame,
{
}

/// The vblanks of a clock are a refresh apart, counted from the last one
/// reported; the next after a time is the first of them that is later.
pub proof fn the_next_vblank_is_the_first_later_one(clock: FrameClock, t: int, k: int)
    requires
        clock.refresh_ns > 0,
        0 <= t,
        0 <= k,
        clock.ust_ns + k * clock.refresh_ns <= u64::MAX,
    ensures
        clock.ust_ns + k * clock.refresh_ns > t && (k == 0 || clock.ust_ns + (k - 1)
            * clock.refresh_ns <= t) ==> clock.vblank_after(t) == clock.ust_ns + k
            * clock.refresh_ns,
{
    let r = clock.refresh_ns as int;
    let u = clock.ust_ns as int;
    if u + k * r > t && (k == 0 || u + (k - 1) * r <= t) {
        if t < u {
            if k > 0 {
                assert(0 <= (k - 1) * r) by (nonlinear_arith)
                    requires
                        k > 0,
                        r > 0,
                ;
            }
            assert(clock.vblank(0) == u) by (nonlinear_arith)
                requires
                    u == clock.ust_ns,
            ;
            assert(0 * r == 0);
        } else {
            assert(k > 0) by {
                if k == 0 {
                    assert(0 * r == 0);
                }
            }
            assert((k - 1) * r + r == k * r) by (nonlinear_arith);
            vstd::arithmetic::div_mod::lemma_fundamental_div_mod_converse(
                t - u,
                r,
                k - 1,
                t - u - (k - 1) * r,
            );
        }
    }
}

/// An update for a target time is applied one refresh ahead of the first
/// vblank at or after the target, where one half a millisecond early still
/// counts; an update applied now is due for targets up to that much after the
/// next vblank.
pub proof fn an_update_is_applied_a_refresh_ahead(clock: FrameClock, target: int, k: int)
    requires
        clock.refresh_ns > 0,
        500_000 < target <= u64::MAX,
        0 <= k,
        clock.ust_ns + k * clock.refresh_ns <= u64::MAX,
        clock.ust_ns + k * clock.refresh_ns >= target - 500_000,
        k == 0 || clock.ust_ns + (k - 1) * clock.refresh_ns < target - 500_000,
    ensures
        clock.ust_ns + k * clock.refresh_ns >= clock.refresh_ns ==> clock.release_for(target)
            == clock.ust_ns + k * clock.refresh_ns - clock.refresh_ns,
        clock.ust_ns + k * clock.refresh_ns < clock.refresh_ns ==> clock.release_for(target) == 0,
{
    the_next_vblank_is_the_first_later_one(clock, target - 500_000 - 1, k);
}

/// What is due at a time is what the next vblank shows, and half a millisecond
/// more.
pub proof fn what_is_due(clock: FrameClock, now: int)
    ensures
        clock.vblank_after(now) + 500_000 <= u64::MAX ==> clock.due_at(now) == clock.vblank_after(
            now,
        ) + 500_000,
{
}

} // verus!
