//! What is owed to clients: every presentation feedback is answered exactly
//! once, and every fifo barrier clears exactly once.

use vstd::multiset::Multiset;
use vstd::prelude::*;

use crate::action::Action;
use crate::buffers::BufferKey;
use crate::holds::HoldsModel;
use crate::pacing::{Loose, PacingModel};
use crate::state::{StateModel, ViewModel};
use crate::submit::{Fence, Layer};
use crate::timing::{Feedback, FrameModel, Report, Taken, Told};

verus! {

/// All that `f` counts over `s`.
pub open spec fn tally<A>(s: Seq<A>, f: spec_fn(A) -> Multiset<u64>) -> Multiset<u64>
    decreases s.len(),
{
    if s.len() == 0 {
        Multiset::empty()
    } else {
        tally(s.drop_last(), f).add(f(s.last()))
    }
}

/// The feedback callbacks `actions` answer.
pub open spec fn answered(actions: Seq<Action>) -> Multiset<u64> {
    tally(
        actions,
        |a: Action|
            match a {
                Action::Presented(c, _) => Multiset::singleton(c),
                Action::Discarded(c) => Multiset::singleton(c),
                _ => Multiset::empty(),
            },
    )
}

/// The barriers `actions` clear.
pub open spec fn cleared(actions: Seq<Action>) -> Multiset<u64> {
    tally(
        actions,
        |a: Action|
            match a {
                Action::Cleared(b) => Multiset::singleton(b),
                _ => Multiset::empty(),
            },
    )
}

/// The callbacks of `feedback`.
pub open spec fn callbacks(feedback: Seq<Feedback>) -> Multiset<u64> {
    tally(feedback, |f: Feedback| Multiset::singleton(f.callback))
}

/// `barriers`, each as often as it is listed.
pub open spec fn counted(barriers: Seq<u64>) -> Multiset<u64> {
    tally(barriers, |b: u64| Multiset::singleton(b))
}

/// The callbacks that `frames` still owe an answer.
pub open spec fn awaiting(frames: Seq<FrameModel>) -> Multiset<u64> {
    tally(frames, |f: FrameModel| callbacks(f.feedback))
}

/// The barriers that `frames` still hold.
pub open spec fn holding(frames: Seq<FrameModel>) -> Multiset<u64> {
    tally(frames, |f: FrameModel| counted(f.barriers))
}

proof fn tally_concat<A>(a: Seq<A>, b: Seq<A>, f: spec_fn(A) -> Multiset<u64>)
    ensures
        tally(a + b, f) == tally(a, f).add(tally(b, f)),
    decreases b.len(),
{
    if b.len() == 0 {
        assert(a + b == a);
    } else {
        assert((a + b).drop_last() == a + b.drop_last());
        tally_concat(a, b.drop_last(), f);
    }
}

proof fn tally_push<A>(a: Seq<A>, x: A, f: spec_fn(A) -> Multiset<u64>)
    ensures
        tally(a.push(x), f) == tally(a, f).add(f(x)),
{
    assert(a.push(x).drop_last() == a);
}

/// A tally over a mapped sequence counts what the items map to.
proof fn tally_map<A, B>(
    s: Seq<A>,
    m: spec_fn(A) -> B,
    f: spec_fn(B) -> Multiset<u64>,
    g: spec_fn(A) -> Multiset<u64>,
)
    requires
        forall|i: int| 0 <= i < s.len() ==> f(m(#[trigger] s[i])) == g(s[i]),
    ensures
        tally(s.map_values(m), f) == tally(s, g),
    decreases s.len(),
{
    if s.len() > 0 {
        assert(s.map_values(m).drop_last() == s.drop_last().map_values(m));
        assert forall|i: int| 0 <= i < s.drop_last().len() implies f(
            m(#[trigger] s.drop_last()[i]),
        ) == g(s.drop_last()[i]) by {
            assert(s.drop_last()[i] == s[i]);
        }
        tally_map(s.drop_last(), m, f, g);
        assert(f(m(s[s.len() - 1])) == g(s[s.len() - 1]));
    }
}

proof fn tally_nothing<A>(s: Seq<A>, f: spec_fn(A) -> Multiset<u64>)
    requires
        forall|i: int| 0 <= i < s.len() ==> f(#[trigger] s[i]) == Multiset::<u64>::empty(),
    ensures
        tally(s, f) == Multiset::<u64>::empty(),
    decreases s.len(),
{
    if s.len() > 0 {
        assert forall|i: int| 0 <= i < s.drop_last().len() implies f(#[trigger] s.drop_last()[i])
            == Multiset::<u64>::empty() by {
            assert(s.drop_last()[i] == s[i]);
        }
        tally_nothing(s.drop_last(), f);
        assert(f(s[s.len() - 1]) == Multiset::<u64>::empty());
    }
}

proof fn tally_flat_map<A, B>(
    s: Seq<A>,
    m: spec_fn(A) -> Seq<B>,
    f: spec_fn(B) -> Multiset<u64>,
    g: spec_fn(A) -> Multiset<u64>,
)
    requires
        forall|i: int| 0 <= i < s.len() ==> tally(m(#[trigger] s[i]), f) == g(s[i]),
    ensures
        tally(s.flat_map(m), f) == tally(s, g),
    decreases s.len(),
{
    if s.len() == 0 {
        assert(s.flat_map(m) == Seq::<B>::empty()) by {
            reveal(Seq::flatten);
        }
    } else {
        let d = s.drop_last();
        assert forall|i: int| 0 <= i < d.len() implies tally(m(#[trigger] d[i]), f) == g(d[i]) by {
            assert(d[i] == s[i]);
        }
        tally_flat_map(d, m, f, g);
        assert(s == d.push(s.last()));
        d.lemma_flat_map_push(m, s.last());
        tally_concat(d.flat_map(m), m(s.last()), f);
        assert(tally(m(s[s.len() - 1]), f) == g(s[s.len() - 1]));
    }
}

proof fn tally_filter<A>(s: Seq<A>, p: spec_fn(A) -> bool, f: spec_fn(A) -> Multiset<u64>)
    ensures
        tally(s, f) == tally(s.filter(p), f).add(tally(s.filter(|x: A| !p(x)), f)),
    decreases s.len(),
{
    let np = |x: A| !p(x);
    if s.len() == 0 {
        assert(s.filter(p) == s) by {
            reveal(Seq::filter);
        }
        assert(s.filter(np) == s) by {
            reveal(Seq::filter);
        }
    } else {
        let d = s.drop_last();
        let x = s.last();
        assert(s == d.push(x));
        tally_filter(d, p, f);
        d.lemma_filter_push(x, p);
        d.lemma_filter_push(x, np);
        if p(x) {
            tally_push(d.filter(p), x, f);
        } else {
            tally_push(d.filter(np), x, f);
        }
    }
}

/// What the pieces that actions are made of answer and clear.
proof fn pieces(feedback: Seq<Feedback>, barriers: Seq<u64>)
    ensures
        answered(crate::timing::discards(feedback)) == callbacks(feedback),
        cleared(crate::timing::discards(feedback)) == Multiset::<u64>::empty(),
        answered(crate::timing::clears(barriers)) == Multiset::<u64>::empty(),
        cleared(crate::timing::clears(barriers)) == counted(barriers),
{
    let one = |f: Feedback| Multiset::singleton(f.callback);
    let ans = |a: Action|
        match a {
            Action::Presented(c, _) => Multiset::singleton(c),
            Action::Discarded(c) => Multiset::singleton(c),
            _ => Multiset::empty(),
        };
    let clr = |a: Action|
        match a {
            Action::Cleared(b) => Multiset::singleton(b),
            _ => Multiset::empty(),
        };
    let discard = |f: Feedback| Action::Discarded(f.callback);
    let clear = |b: u64| Action::Cleared(b);
    tally_map(feedback, discard, ans, one);
    tally_map(barriers, clear, clr, |b: u64| Multiset::singleton(b));
    tally_nothing(crate::timing::discards(feedback), clr);
    tally_nothing(crate::timing::clears(barriers), ans);
}

/// What the answers of a report answer and clear.
proof fn answer_pieces(feedback: Seq<Feedback>, shown: Seq<(u32, u64)>, told: Told)
    ensures
        answered(crate::timing::answers(feedback, shown, told)) == callbacks(feedback),
        cleared(crate::timing::answers(feedback, shown, told)) == Multiset::<u64>::empty(),
{
    let one = |f: Feedback| Multiset::singleton(f.callback);
    let ans = |a: Action|
        match a {
            Action::Presented(c, _) => Multiset::singleton(c),
            Action::Discarded(c) => Multiset::singleton(c),
            _ => Multiset::empty(),
        };
    let clr = |a: Action|
        match a {
            Action::Cleared(b) => Multiset::singleton(b),
            _ => Multiset::empty(),
        };
    let answer = |f: Feedback|
        if shown.contains(f.content()) {
            Action::Presented(f.callback, told)
        } else {
            Action::Discarded(f.callback)
        };
    tally_map(feedback, answer, ans, one);
    tally_nothing(crate::timing::answers(feedback, shown, told), clr);
}

/// What a sequence of actions answers and clears is what its parts do.
pub proof fn actions_add_up(a: Seq<Action>, b: Seq<Action>)
    ensures
        answered(a + b) == answered(a).add(answered(b)),
        cleared(a + b) == cleared(a).add(cleared(b)),
{
    tally_concat(
        a,
        b,
        |a: Action|
            match a {
                Action::Presented(c, _) => Multiset::singleton(c),
                Action::Discarded(c) => Multiset::singleton(c),
                _ => Multiset::empty(),
            },
    );
    tally_concat(
        a,
        b,
        |a: Action|
            match a {
                Action::Cleared(b) => Multiset::singleton(b),
                _ => Multiset::empty(),
            },
    );
}

/// A view that shows nothing more settles all its frames owed.
pub proof fn clearing_settles_everything(frames: Seq<FrameModel>)
    ensures
        answered(crate::timing::all_unshown(frames)) == awaiting(frames),
        cleared(crate::timing::all_unshown(frames)) == holding(frames),
{
    let ans = |a: Action|
        match a {
            Action::Presented(c, _) => Multiset::singleton(c),
            Action::Discarded(c) => Multiset::singleton(c),
            _ => Multiset::empty(),
        };
    let clr = |a: Action|
        match a {
            Action::Cleared(b) => Multiset::singleton(b),
            _ => Multiset::empty(),
        };
    let m = |f: FrameModel| f.unshown();
    assert forall|i: int| 0 <= i < frames.len() implies tally(m(#[trigger] frames[i]), ans)
        == callbacks(frames[i].feedback) && tally(m(frames[i]), clr) == counted(
        frames[i].barriers,
    ) by {
        let f = frames[i];
        pieces(f.feedback, f.barriers);
        actions_add_up(
            crate::timing::discards(f.feedback),
            crate::timing::clears(f.barriers),
        );
    }
    tally_flat_map(frames, m, ans, |f: FrameModel| callbacks(f.feedback));
    tally_flat_map(frames, m, clr, |f: FrameModel| counted(f.barriers));
}

/// Submitting a frame neither loses nor doubles a callback or a barrier: what
/// was owed before and what came with the frame is answered and cleared now,
/// or owed after.
pub proof fn submitting_settles_or_keeps(
    frames: Seq<FrameModel>,
    frame: FrameModel,
    feedback: Seq<Feedback>,
)
    requires
        frame.feedback == crate::timing::seen(feedback, frame.shown),
    ensures
        ({
            let after = crate::timing::with_frame(frames, frame);
            let acts = crate::timing::discards(crate::timing::unseen(feedback, frame.shown))
                + crate::timing::all_unshown(crate::timing::displaced(frames));
            &&& awaiting(frames).add(callbacks(feedback)) == answered(acts).add(awaiting(after))
            &&& holding(frames).add(counted(frame.barriers)) == cleared(acts).add(holding(after))
        }),
{
    let one = |f: Feedback| Multiset::singleton(f.callback);
    let aw = |f: FrameModel| callbacks(f.feedback);
    let ho = |f: FrameModel| counted(f.barriers);
    let p = |f: Feedback| frame.shown.contains(f.content());
    let rest = crate::timing::unseen(feedback, frame.shown);
    let gone = crate::timing::displaced(frames);
    tally_filter(feedback, p, one);
    assert(feedback.filter(|x: Feedback| !p(x)) == rest) by {
        assert((|x: Feedback| !p(x)) =~= (|f: Feedback| !frame.shown.contains(f.content())));
    }
    pieces(rest, Seq::empty());
    clearing_settles_everything(gone);
    actions_add_up(crate::timing::discards(rest), crate::timing::all_unshown(gone));
    if frames.len() < crate::timing::MAX_IN_FLIGHT {
        tally_push(frames, frame, aw);
        tally_push(frames, frame, ho);
    } else {
        assert(frames == frames.take(1) + frames.drop_first());
        tally_concat(frames.take(1), frames.drop_first(), aw);
        tally_concat(frames.take(1), frames.drop_first(), ho);
        tally_push(frames.drop_first(), frame, aw);
        tally_push(frames.drop_first(), frame, ho);
    }
}

/// A report answers each callback of the frames it covers once and clears each
/// of their barriers once; the frames after it keep theirs.
pub proof fn a_report_settles_what_it_covers(frames: Seq<FrameModel>, seq: u64, told: Told)
    ensures
        ({
            let n = crate::timing::up_to(frames, seq);
            let acts = crate::timing::reported(
                frames.take(n),
                crate::timing::shown_by(frames, seq),
                told,
            );
            &&& awaiting(frames) == answered(acts).add(awaiting(frames.skip(n)))
            &&& holding(frames) == cleared(acts).add(holding(frames.skip(n)))
        }),
{
    let n = crate::timing::up_to(frames, seq);
    up_to_is_a_prefix(frames, seq);
    let shown = crate::timing::shown_by(frames, seq);
    let covered = frames.take(n);
    let aw = |f: FrameModel| callbacks(f.feedback);
    let ho = |f: FrameModel| counted(f.barriers);
    assert(frames == covered + frames.skip(n));
    tally_concat(covered, frames.skip(n), aw);
    tally_concat(covered, frames.skip(n), ho);
    let ans = |a: Action|
        match a {
            Action::Presented(c, _) => Multiset::singleton(c),
            Action::Discarded(c) => Multiset::singleton(c),
            _ => Multiset::empty(),
        };
    let clr = |a: Action|
        match a {
            Action::Cleared(b) => Multiset::singleton(b),
            _ => Multiset::empty(),
        };
    let m = |f: FrameModel|
        crate::timing::answers(f.feedback, shown, told) + crate::timing::clears(f.barriers);
    assert forall|i: int| 0 <= i < covered.len() implies tally(m(#[trigger] covered[i]), ans)
        == callbacks(covered[i].feedback) && tally(m(covered[i]), clr) == counted(
        covered[i].barriers,
    ) by {
        let f = covered[i];
        pieces(f.feedback, f.barriers);
        answer_pieces(f.feedback, shown, told);
        actions_add_up(
            crate::timing::answers(f.feedback, shown, told),
            crate::timing::clears(f.barriers),
        );
    }
    tally_flat_map(covered, m, ans, aw);
    tally_flat_map(covered, m, clr, ho);
}

/// Only frames numbered up to the report's are covered by it.
pub proof fn up_to_is_a_prefix(frames: Seq<FrameModel>, seq: u64)
    ensures
        0 <= crate::timing::up_to(frames, seq) <= frames.len(),
        forall|i: int|
            0 <= i < crate::timing::up_to(frames, seq) ==> (#[trigger] frames[i]).seq <= seq,
    decreases frames.len(),
{
    if frames.len() > 0 && frames[0].seq <= seq {
        let rest = frames.drop_first();
        up_to_is_a_prefix(rest, seq);
        assert forall|i: int| 0 <= i < crate::timing::up_to(frames, seq) implies (
        #[trigger] frames[i]).seq <= seq by {
            if i > 0 {
                assert(rest[i - 1] == frames[i]);
            }
        }
    }
}

/// Releasing frames clears the barriers they held, once, and keeps every
/// callback for its report.
pub proof fn releasing_clears_and_keeps(frames: Seq<FrameModel>, before_ns: u64)
    ensures
        ({
            let after = frames.map_values(
                |f: FrameModel| crate::timing::released_before(f, before_ns),
            );
            let acts = crate::timing::clears_before(frames, before_ns);
            &&& awaiting(after) == awaiting(frames)
            &&& answered(acts) == Multiset::<u64>::empty()
            &&& holding(frames) == cleared(acts).add(holding(after))
        }),
    decreases frames.len(),
{
    let r = |f: FrameModel| crate::timing::released_before(f, before_ns);
    let g = |f: FrameModel|
        if f.submitted_ns < before_ns {
            crate::timing::clears(f.barriers)
        } else {
            Seq::empty()
        };
    let after = frames.map_values(r);
    let acts = crate::timing::clears_before(frames, before_ns);
    if frames.len() == 0 {
        assert(acts == Seq::<Action>::empty()) by {
            reveal(Seq::flatten);
        }
        assert(after == frames);
    } else {
        let d = frames.drop_last();
        let f = frames.last();
        releasing_clears_and_keeps(d, before_ns);
        assert(frames == d.push(f));
        assert(after.drop_last() == d.map_values(r));
        d.lemma_flat_map_push(g, f);
        actions_add_up(crate::timing::clears_before(d, before_ns), g(f));
        pieces(Seq::empty(), f.barriers);
        assert(answered(Seq::<Action>::empty()) == Multiset::<u64>::empty());
        assert(cleared(Seq::<Action>::empty()) == Multiset::<u64>::empty());
        assert(counted(Seq::<u64>::empty()) == Multiset::<u64>::empty());
    }
}

/// Whether `actions` answer no callback and clear no barrier.
pub open spec fn silent(actions: Seq<Action>) -> bool {
    forall|i: int|
        0 <= i < actions.len() ==> !((#[trigger] actions[i]) is Presented) && !(actions[i] is Discarded)
            && !(actions[i] is Cleared)
}

proof fn silence(actions: Seq<Action>)
    requires
        silent(actions),
    ensures
        answered(actions) == Multiset::<u64>::empty(),
        cleared(actions) == Multiset::<u64>::empty(),
{
    tally_nothing(
        actions,
        |a: Action|
            match a {
                Action::Presented(c, _) => Multiset::singleton(c),
                Action::Discarded(c) => Multiset::singleton(c),
                _ => Multiset::empty(),
            },
    );
    tally_nothing(
        actions,
        |a: Action|
            match a {
                Action::Cleared(b) => Multiset::singleton(b),
                _ => Multiset::empty(),
            },
    );
}

/// Actions that settle something, between others that do not.
proof fn amid_silence(before: Seq<Action>, middle: Seq<Action>, after: Seq<Action>)
    requires
        silent(before),
        silent(after),
    ensures
        answered(before + middle + after) == answered(middle),
        cleared(before + middle + after) == cleared(middle),
{
    silence(before);
    silence(after);
    actions_add_up(before, middle);
    actions_add_up(before + middle, after);
    assert(answered(before + middle + after) =~= answered(middle));
    assert(cleared(before + middle + after) =~= cleared(middle));
}

proof fn holding_is_silent(
    holds: HoldsModel,
    layers: Seq<Layer>,
    fences: Seq<Fence>,
    seq: u64,
)
    ensures
        silent(crate::submit::holding(holds, layers, fences, seq).1),
    decreases layers.len(),
{
    if layers.len() > 0 {
        holding_is_silent(holds, layers.drop_last(), fences, seq);
    }
}

proof fn unwatching_is_silent(v: i32, fenced: Seq<(u64, BufferKey)>)
    ensures
        silent(crate::holds::unwatched(v, fenced)),
    decreases fenced.len(),
{
    let g = |h: (u64, BufferKey)|
        seq![Action::DropFence { view_id: v, key: h.0 }, crate::holds::dropped(h.1)];
    if fenced.len() == 0 {
        assert(fenced.flat_map(g) =~= Seq::<Action>::empty()) by {
            reveal(Seq::flatten);
        }
    } else {
        let d = fenced.drop_last();
        unwatching_is_silent(v, d);
        assert(fenced == d.push(fenced.last()));
        d.lemma_flat_map_push(g, fenced.last());
    }
}

/// The barriers of `loose`.
pub open spec fn loose_barriers(loose: Seq<Loose>) -> Multiset<u64> {
    tally(loose, |l: Loose| Multiset::singleton(l.barrier))
}

proof fn loose_pieces(loose: Seq<Loose>)
    ensures
        answered(crate::pacing::loose_clears(loose)) == Multiset::<u64>::empty(),
        cleared(crate::pacing::loose_clears(loose)) == loose_barriers(loose),
{
    let clr = |a: Action|
        match a {
            Action::Cleared(b) => Multiset::singleton(b),
            _ => Multiset::empty(),
        };
    let ans = |a: Action|
        match a {
            Action::Presented(c, _) => Multiset::singleton(c),
            Action::Discarded(c) => Multiset::singleton(c),
            _ => Multiset::empty(),
        };
    tally_map(
        loose,
        |l: Loose| Action::Cleared(l.barrier),
        clr,
        |l: Loose| Multiset::singleton(l.barrier),
    );
    tally_nothing(crate::pacing::loose_clears(loose), ans);
}

/// Barriers put on the clock clear exactly once: at once, or when they are
/// due.
pub proof fn the_clock_keeps_each_barrier(
    p: PacingModel,
    client: Option<u64>,
    barriers: Seq<u64>,
    now: u64,
)
    ensures
        loose_barriers(p.loose).add(counted(barriers)) == cleared(
            p.loose_actions(client, barriers, now),
        ).add(loose_barriers(p.holding_loose(client, barriers, now).loose)),
        answered(p.loose_actions(client, barriers, now)) == Multiset::<u64>::empty(),
{
    let one = |l: Loose| Multiset::singleton(l.barrier);
    let acts = p.loose_actions(client, barriers, now);
    if barriers.len() == 0 {
        silence(acts);
        assert(counted(barriers) == Multiset::<u64>::empty());
        assert(loose_barriers(p.loose).add(counted(barriers)) =~= cleared(acts).add(
            loose_barriers(p.loose),
        ));
    } else if client is None {
        pieces(Seq::empty(), barriers);
        assert(loose_barriers(p.loose).add(counted(barriers)) =~= cleared(acts).add(
            loose_barriers(p.loose),
        ));
    } else {
        let due = p.refresh_after(now);
        let new = crate::pacing::loosened(barriers, client->0, due);
        let all = p.loose + new;
        let e = p.excess(barriers.len() as int);
        tally_concat(p.loose, new, one);
        tally_map(
            barriers,
            |barrier: u64| Loose { barrier, client: client->0, due_ns: due },
            one,
            |b: u64| Multiset::singleton(b),
        );
        assert(all == all.take(e) + all.skip(e));
        tally_concat(all.take(e), all.skip(e), one);
        loose_pieces(all.take(e));
        let tail = p.scheduling(due);
        silence(tail);
        actions_add_up(crate::pacing::loose_clears(all.take(e)), tail);
        assert(loose_barriers(p.loose).add(counted(barriers)) =~= cleared(acts).add(
            loose_barriers(all.skip(e)),
        ));
    }
}

/// The callbacks that view `v` still owes an answer.
pub open spec fn owed(s: StateModel, v: i32) -> Multiset<u64> {
    awaiting(s.views[v].frames)
}

/// A frame the shell took neither loses nor doubles a callback or a barrier.
pub proof fn an_accepted_frame_settles_or_keeps(
    s: StateModel,
    v: i32,
    layers: Seq<Layer>,
    fences: Seq<Fence>,
    taken: Taken,
    now: u64,
)
    requires
        s.views.contains_key(v),
    ensures
        ({
            let step = s.accepting(v, layers, fences, taken, now);
            &&& owed(s, v).add(callbacks(taken.feedback@)) == answered(step.1).add(
                owed(step.0, v),
            )
            &&& holding(s.views[v].frames).add(counted(taken.barriers@)) == cleared(step.1).add(
                holding(step.0.views[v].frames),
            )
        }),
{
    let step = s.accepting(v, layers, fences, taken, now);
    let view = s.views[v];
    let frame = s.frame_of(v, layers, taken, now);
    let gone = crate::timing::displaced(view.frames);
    let held = crate::submit::holding(view.holds, layers, fences, frame.seq).1;
    let middle = crate::timing::discards(
        crate::timing::unseen(taken.feedback@, crate::submit::contents(layers)),
    ) + crate::timing::all_unshown(gone);
    let freed = s.freed_client(v, crate::timing::any_barrier(gone)).map_values(
        |c: u64| Action::Unblock(c),
    );
    holding_is_silent(view.holds, layers, fences, frame.seq);
    submitting_settles_or_keeps(view.frames, frame, taken.feedback@);
    let head = held + middle + freed;
    let tail = step.1.skip(head.len() as int);
    assert(step.1 == held + middle + (freed + tail));
    assert(silent(tail));
    amid_silence(held, middle, freed + tail);
}

/// Of a frame the shell did not take, every callback is answered at once, and
/// every barrier clears, now or on the clock.
pub proof fn a_refused_frame_settles_everything(
    s: StateModel,
    v: i32,
    layers: Seq<Layer>,
    taken: Taken,
    now: u64,
)
    requires
        s.views.contains_key(v),
    ensures
        ({
            let step = s.refusing(v, layers, taken, now);
            &&& answered(step.1) == callbacks(taken.feedback@)
            &&& loose_barriers(s.pacing.loose).add(counted(taken.barriers@)) == cleared(
                step.1,
            ).add(loose_barriers(step.0.pacing.loose))
            &&& step.0.views[v].frames == s.views[v].frames
        }),
{
    let step = s.refusing(v, layers, taken, now);
    let drops = crate::submit::layer_drops(layers);
    let disc = crate::timing::discards(taken.feedback@);
    let loose = s.pacing.loose_actions(s.client_of(v), taken.barriers@, now);
    pieces(taken.feedback@, Seq::empty());
    the_clock_keeps_each_barrier(s.pacing, s.client_of(v), taken.barriers@, now);
    let head = drops + disc + loose;
    let tail = step.1.skip(head.len() as int);
    assert(step.1 == drops + (disc + loose) + tail);
    assert(silent(tail));
    amid_silence(drops, disc + loose, tail);
    actions_add_up(disc, loose);
    assert(answered(step.1) =~= callbacks(taken.feedback@));
    assert(cleared(step.1) =~= cleared(loose));
}

/// A report answers each callback of the frames it covers once and clears each
/// of their barriers once; what it does not cover is still owed.
pub proof fn a_report_settles_or_keeps(s: StateModel, v: i32, report: Report)
    requires
        s.views.contains_key(v),
    ensures
        ({
            let step = s.presenting(v, report);
            &&& owed(s, v) == answered(step.1).add(owed(step.0, v))
            &&& holding(s.views[v].frames) == cleared(step.1).add(
                holding(step.0.views[v].frames),
            )
        }),
{
    let step = s.presenting(v, report);
    let view = s.views[v];
    let n = crate::timing::up_to(view.frames, report.seq);
    let released = crate::holds::drops(
        view.holds.unfenced.filter(crate::holds::before_frame(report.seq)),
    );
    let middle = crate::timing::reported(
        view.frames.take(n),
        crate::timing::shown_by(view.frames, report.seq),
        report.telling(),
    );
    a_report_settles_what_it_covers(view.frames, report.seq, report.telling());
    let head = released + middle;
    let tail = step.1.skip(head.len() as int);
    assert(step.1 == released + middle + tail);
    assert(silent(tail));
    amid_silence(released, middle, tail);
}

/// A view that is unbound settles all it owed.
pub proof fn an_unbound_view_owes_nothing(s: StateModel, v: i32)
    requires
        s.views.contains_key(v),
    ensures
        ({
            let step = s.unbinding(v);
            &&& answered(step.1) == owed(s, v)
            &&& cleared(step.1) == holding(s.views[v].frames)
            &&& step.0.views[v].frames == Seq::<FrameModel>::empty()
            &&& step.0.views[v].holds.fenced.len() == 0
            &&& step.0.views[v].holds.unfenced.len() == 0
        }),
{
    let step = s.unbinding(v);
    let frames = s.views[v].frames;
    let a = s.dropping_frames(v);
    let view = a.0.clearing(v).0.views[v];
    unwatching_is_silent(v, view.holds.fenced);
    clearing_settles_everything(frames);
    let middle = crate::timing::all_unshown(frames);
    let tail = step.1.skip(middle.len() as int);
    assert(step.1 == Seq::<Action>::empty() + middle + tail);
    assert(silent(tail));
    amid_silence(Seq::empty(), middle, tail);
}

/// A tick clears the barriers it takes off a view's frames, once, and keeps
/// every callback for its report.
pub proof fn a_tick_clears_and_keeps(v: i32, view: ViewModel, now: u64)
    ensures
        answered(crate::reports::tick_actions(v, view, now)) == Multiset::<u64>::empty(),
        awaiting(crate::reports::ticked(view, now).frames) == awaiting(view.frames),
        holding(view.frames) == cleared(crate::reports::tick_actions(v, view, now)).add(
            holding(crate::reports::ticked(view, now).frames),
        ),
{
    let limit = crate::reports::release_limit(view, now);
    releasing_clears_and_keeps(view.frames, limit);
    let acts = crate::timing::clears_before(view.frames, limit);
    let whole = crate::reports::tick_actions(v, view, now);
    let tail = whole.skip(acts.len() as int);
    assert(whole == Seq::<Action>::empty() + acts + tail);
    assert(silent(tail));
    amid_silence(Seq::empty(), acts, tail);
}

/// A tick clears each loose barrier that is due, once, and keeps the others.
pub proof fn a_tick_clears_what_is_due(loose: Seq<Loose>, now: u64)
    ensures
        loose_barriers(loose) == cleared(
            crate::pacing::loose_clears(loose.filter(crate::pacing::due_by(now))),
        ).add(loose_barriers(loose.filter(crate::pacing::due_after(now)))),
{
    let one = |l: Loose| Multiset::singleton(l.barrier);
    let p = crate::pacing::due_by(now);
    tally_filter(loose, p, one);
    assert((|l: Loose| !p(l)) =~= crate::pacing::due_after(now));
    loose_pieces(loose.filter(p));
}

} // verus!
