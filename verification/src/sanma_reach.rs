//! Riichi acceptance in a three-player replay: a riichi declaration is accepted before
//! the next draw or call of anyone, the call of the riichi dahai included.
use vstd::prelude::*;

use crate::event::EventV;
use crate::kyoku_end::end_events;
use crate::sanma::{
    accept_reach, after_discard, all_consumed, dahai, discard_phase, done, draw_phase,
    final_reach, initial_state, lemma_next_discard_remaining, lemma_next_take_remaining,
    next_discard, next_take, other_seats, push_dora, push_event, remaining, result_follows,
    ron_leaves_phantoms, sanma_kyoku_events, sanma_replays, try_call, try_end, wf_state,
    with_solutions, Last, ReplayCtx, ReplayState, Sols,
};
use crate::sanma_laws::lemma_end_events;
use crate::sanma_order::{ctx_discards, discard_stream_of_seat, is_take, lemma_seat_streams_seats};
use crate::tile::Tile;

verus! {

/// No draw or call stands strictly between positions `i` and `j` of `evs`.
pub open spec fn no_take_between(evs: Seq<EventV>, i: int, j: int) -> bool {
    forall|k: int| i < k < j ==> !is_take(#[trigger] evs[k])
}

/// The riichi of seat `a` is accepted strictly between positions `i` and `j` of `evs`.
pub open spec fn accepted_between(evs: Seq<EventV>, a: u8, i: int, j: int) -> bool {
    exists|k: int| i < k < j && #[trigger] evs[k] == (EventV::ReachAccepted { actor: a })
}

/// Every riichi declaration in `evs` is accepted before the next draw or call, whoever
/// makes it: a call of the riichi dahai comes after the acceptance.
pub open spec fn riichi_accepted_before_takes(evs: Seq<EventV>) -> bool {
    forall|i: int, j: int|
        0 <= i < j < evs.len() && (#[trigger] evs[i]) is Reach && is_take(#[trigger] evs[j])
            && no_take_between(evs, i, j) ==> accepted_between(evs, evs[i]->Reach_actor, i, j)
}

/// Every riichi declaration with no draw or call after it is accepted already, or is the
/// one waiting for acceptance.
pub open spec fn riichi_waiting(evs: Seq<EventV>, pending: Option<u8>) -> bool {
    forall|i: int|
        0 <= i < evs.len() && (#[trigger] evs[i]) is Reach && no_take_between(evs, i, evs.len() as int)
            ==> accepted_between(evs, evs[i]->Reach_actor, i, evs.len() as int) || pending == Some(
            evs[i]->Reach_actor,
        )
}

pub open spec fn sols_riichi_ok(sols: Sols) -> bool {
    forall|i: int| 0 <= i < sols.len() ==> #[trigger] riichi_accepted_before_takes(sols[i])
}

pub open spec fn riichi_ok(s: ReplayState) -> bool {
    &&& riichi_accepted_before_takes(s.events)
    &&& riichi_waiting(s.events, s.reach_pending)
    &&& sols_riichi_ok(s.solutions)
}

/// Pushing an event that is no draw, call or riichi declaration.
proof fn lemma_push_plain(evs: Seq<EventV>, pending: Option<u8>, e: EventV)
    requires
        riichi_accepted_before_takes(evs),
        riichi_waiting(evs, pending),
        !is_take(e),
        !(e is Reach),
    ensures
        riichi_accepted_before_takes(evs.push(e)),
        riichi_waiting(evs.push(e), pending),
{
    let all = evs.push(e);
    let n = evs.len() as int;
    assert forall|i: int, j: int|
        0 <= i < j < all.len() && (#[trigger] all[i]) is Reach && is_take(#[trigger] all[j])
            && no_take_between(all, i, j) implies accepted_between(all, all[i]->Reach_actor, i, j) by {
        assert(j < n);
        assert(all[i] == evs[i] && all[j] == evs[j]);
        assert(no_take_between(evs, i, j)) by {
            assert forall|k: int| i < k < j implies !is_take(#[trigger] evs[k]) by {
                assert(all[k] == evs[k]);
            }
        }
        let k = choose|k: int|
            i < k < j && #[trigger] evs[k] == (EventV::ReachAccepted { actor: evs[i]->Reach_actor });
        assert(all[k] == evs[k]);
    }
    assert forall|i: int|
        0 <= i < all.len() && (#[trigger] all[i]) is Reach && no_take_between(all, i, all.len() as int)
            implies accepted_between(all, all[i]->Reach_actor, i, all.len() as int) || pending
            == Some(all[i]->Reach_actor) by {
        assert(i < n);
        assert(all[i] == evs[i]);
        assert(no_take_between(evs, i, n)) by {
            assert forall|k: int| i < k < n implies !is_take(#[trigger] evs[k]) by {
                assert(all[k] == evs[k]);
            }
        }
        if accepted_between(evs, evs[i]->Reach_actor, i, n) {
            let k = choose|k: int|
                i < k < n && #[trigger] evs[k] == (EventV::ReachAccepted { actor: evs[i]->Reach_actor });
            assert(all[k] == evs[k]);
        }
    }
}

/// Pushing a draw or a call while no riichi waits for acceptance.
proof fn lemma_push_take(evs: Seq<EventV>, e: EventV)
    requires
        riichi_accepted_before_takes(evs),
        riichi_waiting(evs, None),
        is_take(e),
    ensures
        riichi_accepted_before_takes(evs.push(e)),
        riichi_waiting(evs.push(e), None),
{
    let all = evs.push(e);
    let n = evs.len() as int;
    assert forall|i: int, j: int|
        0 <= i < j < all.len() && (#[trigger] all[i]) is Reach && is_take(#[trigger] all[j])
            && no_take_between(all, i, j) implies accepted_between(all, all[i]->Reach_actor, i, j) by {
        assert(all[i] == evs[i]);
        if j < n {
            assert(all[j] == evs[j]);
            assert(no_take_between(evs, i, j)) by {
                assert forall|k: int| i < k < j implies !is_take(#[trigger] evs[k]) by {
                    assert(all[k] == evs[k]);
                }
            }
            let k = choose|k: int|
                i < k < j && #[trigger] evs[k] == (EventV::ReachAccepted { actor: evs[i]->Reach_actor });
            assert(all[k] == evs[k]);
        } else {
            assert(no_take_between(evs, i, n)) by {
                assert forall|k: int| i < k < n implies !is_take(#[trigger] evs[k]) by {
                    assert(all[k] == evs[k]);
                }
            }
            let k = choose|k: int|
                i < k < n && #[trigger] evs[k] == (EventV::ReachAccepted { actor: evs[i]->Reach_actor });
            assert(all[k] == evs[k]);
        }
    }
    assert forall|i: int|
        0 <= i < all.len() && (#[trigger] all[i]) is Reach && no_take_between(all, i, all.len() as int)
            implies accepted_between(all, all[i]->Reach_actor, i, all.len() as int) || None::<u8>
            == Some(all[i]->Reach_actor) by {
        assert(i < n);
        assert(!is_take(all[n]));
    }
}

/// Pushing a riichi declaration while none waits: it becomes the one waiting.
proof fn lemma_push_reach(evs: Seq<EventV>, a: u8)
    requires
        riichi_accepted_before_takes(evs),
        riichi_waiting(evs, None),
    ensures
        riichi_accepted_before_takes(evs.push(EventV::Reach { actor: a })),
        riichi_waiting(evs.push(EventV::Reach { actor: a }), Some(a)),
{
    let e = EventV::Reach { actor: a };
    let all = evs.push(e);
    let n = evs.len() as int;
    assert forall|i: int, j: int|
        0 <= i < j < all.len() && (#[trigger] all[i]) is Reach && is_take(#[trigger] all[j])
            && no_take_between(all, i, j) implies accepted_between(all, all[i]->Reach_actor, i, j) by {
        assert(j < n);
        assert(all[i] == evs[i] && all[j] == evs[j]);
        assert(no_take_between(evs, i, j)) by {
            assert forall|k: int| i < k < j implies !is_take(#[trigger] evs[k]) by {
                assert(all[k] == evs[k]);
            }
        }
        let k = choose|k: int|
            i < k < j && #[trigger] evs[k] == (EventV::ReachAccepted { actor: evs[i]->Reach_actor });
        assert(all[k] == evs[k]);
    }
    assert forall|i: int|
        0 <= i < all.len() && (#[trigger] all[i]) is Reach && no_take_between(all, i, all.len() as int)
            implies accepted_between(all, all[i]->Reach_actor, i, all.len() as int) || Some(a)
            == Some(all[i]->Reach_actor) by {
        if i < n {
            assert(all[i] == evs[i]);
            assert(no_take_between(evs, i, n)) by {
                assert forall|k: int| i < k < n implies !is_take(#[trigger] evs[k]) by {
                    assert(all[k] == evs[k]);
                }
            }
            let k = choose|k: int|
                i < k < n && #[trigger] evs[k] == (EventV::ReachAccepted { actor: evs[i]->Reach_actor });
            assert(all[k] == evs[k]);
        }
    }
}

proof fn lemma_accept(s: ReplayState)
    requires
        riichi_ok(s),
    ensures
        riichi_ok(accept_reach(s)),
        accept_reach(s).reach_pending is None,
        accept_reach(s).take_idxs == s.take_idxs,
        accept_reach(s).discard_idxs == s.discard_idxs,
{
    if let Some(a) = s.reach_pending {
        let evs = s.events;
        let e = EventV::ReachAccepted { actor: a };
        lemma_push_plain(evs, s.reach_pending, e);
        let all = evs.push(e);
        let n = evs.len() as int;
        assert forall|i: int|
            0 <= i < all.len() && (#[trigger] all[i]) is Reach && no_take_between(all, i, all.len() as int)
                implies accepted_between(all, all[i]->Reach_actor, i, all.len() as int) || None::<u8>
                == Some(all[i]->Reach_actor) by {
            assert(i < n);
            assert(all[i] == evs[i]);
            assert(no_take_between(evs, i, n)) by {
                assert forall|k: int| i < k < n implies !is_take(#[trigger] evs[k]) by {
                    assert(all[k] == evs[k]);
                }
            }
            if accepted_between(evs, evs[i]->Reach_actor, i, n) {
                let k = choose|k: int|
                    i < k < n && #[trigger] evs[k] == (EventV::ReachAccepted { actor: evs[i]->Reach_actor });
                assert(all[k] == evs[k]);
            } else {
                assert(all[n] == e);
            }
        }
    }
}

proof fn lemma_dora(c: ReplayCtx, s: ReplayState)
    requires
        riichi_ok(s),
    ensures
        push_dora(c, s) matches Ok(x) ==> riichi_ok(x) && x.reach_pending == s.reach_pending,
{
    if s.dora_idx < c.kyoku.dora_indicators.len() {
        lemma_push_plain(
            s.events,
            s.reach_pending,
            EventV::Dora { dora_marker: c.kyoku.dora_indicators[s.dora_idx as int] },
        );
    }
}

proof fn lemma_try_end(c: ReplayCtx, s: ReplayState, last: Last)
    requires
        riichi_ok(s),
    ensures
        sols_riichi_ok(try_end(c, s, last)),
{
    if !(done(s) || !(all_consumed(c, s) || ron_leaves_phantoms(c, s, last)) || !result_follows(
        c.kyoku,
        last,
    )) {
        let fr = final_reach(c.kyoku, s);
        let tail = fr + end_events(c.kyoku);
        let sol = s.events + fr + end_events(c.kyoku);
        assert(sol =~= s.events + tail);
        lemma_end_events(c.kyoku);
        let n = s.events.len() as int;
        assert forall|j: int| 0 <= j < tail.len() implies !is_take(#[trigger] tail[j]) by {
            if j < fr.len() {
                assert(tail[j] == fr[j]);
            } else {
                assert(tail[j] == end_events(c.kyoku)[j - fr.len()]);
            }
        }
        assert forall|i: int, j: int|
            0 <= i < j < sol.len() && (#[trigger] sol[i]) is Reach && is_take(#[trigger] sol[j])
                && no_take_between(sol, i, j) implies accepted_between(sol, sol[i]->Reach_actor, i, j) by {
            if j >= n {
                assert(sol[j] == tail[j - n]);
            }
            assert(j < n);
            assert(sol[i] == s.events[i] && sol[j] == s.events[j]);
            assert(no_take_between(s.events, i, j)) by {
                assert forall|k: int| i < k < j implies !is_take(#[trigger] s.events[k]) by {
                    assert(sol[k] == s.events[k]);
                }
            }
            let k = choose|k: int|
                i < k < j && #[trigger] s.events[k] == (EventV::ReachAccepted {
                    actor: s.events[i]->Reach_actor,
                });
            assert(sol[k] == s.events[k]);
        }
        let sols = try_end(c, s, last);
        assert forall|i: int| 0 <= i < sols.len() implies #[trigger] riichi_accepted_before_takes(
            sols[i],
        ) by {
            if i < s.solutions.len() {
                assert(sols[i] == s.solutions[i]);
            } else {
                assert(sols[i] == sol);
            }
        }
    }
}

proof fn lemma_draw_phase(c: ReplayCtx, s: ReplayState, actor: int, last: Last)
    requires
        wf_state(c, s, actor),
        ctx_discards(c),
        riichi_ok(s),
    ensures
        draw_phase(c, s, actor, last) matches Ok(sols) ==> sols_riichi_ok(sols),
    decreases remaining(c, s), 0nat,
{
    if done(s) {
    } else if s.take_idxs[actor] >= c.takes[actor].len() {
        lemma_try_end(c, s, last);
    } else {
        let item = c.takes[actor][s.take_idxs[actor] as int];
        if let EventV::Tsumo { pai, .. } = item {
            lemma_next_take_remaining(c, s, actor);
            let s1 = accept_reach(next_take(s, actor));
            lemma_accept(next_take(s, actor));
            let s2 = if s1.need_dora_at_tsumo {
                push_dora(c, s1)
            } else {
                Ok(s1)
            };
            lemma_dora(c, s1);
            if let Ok(s2) = s2 {
                let e = EventV::Tsumo { actor: actor as u8, pai };
                lemma_push_take(s2.events, e);
                let s3 = ReplayState {
                    need_dora_at_tsumo: false,
                    events: s2.events.push(e),
                    last_draw: s2.last_draw.update(actor, pai),
                    ..s2
                };
                lemma_discard_phase(c, s3, actor, Last::Draw(actor as usize));
            }
        }
    }
}

proof fn lemma_discard_phase(c: ReplayCtx, s: ReplayState, actor: int, end: Last)
    requires
        wf_state(c, s, actor),
        ctx_discards(c),
        riichi_ok(s),
        s.reach_pending is None,
    ensures
        discard_phase(c, s, actor, end) matches Ok(sols) ==> sols_riichi_ok(sols),
    decreases remaining(c, s), 4nat,
{
    if done(s) {
    } else if s.discard_idxs[actor] >= c.discards[actor].len() {
        lemma_try_end(c, s, end);
    } else {
        let item = c.discards[actor][s.discard_idxs[actor] as int];
        lemma_next_discard_remaining(c, s, actor);
        let s1 = next_discard(s, actor);
        match item {
            EventV::Nukidora { .. } => {
                let s2 = if s1.need_dora_at_discard {
                    ReplayState { need_dora_at_discard: false, need_dora_at_tsumo: true, ..s1 }
                } else {
                    s1
                };
                lemma_push_plain(s2.events, s2.reach_pending, item);
                lemma_draw_phase(c, push_event(s2, item), actor, Last::Discard(actor as usize));
            },
            EventV::Ankan { .. } => {
                let s2 = if s1.need_dora_at_discard {
                    match push_dora(c, s1) {
                        Ok(x) => Ok(ReplayState { need_dora_at_discard: false, ..x }),
                        Err(e) => Err(e),
                    }
                } else {
                    Ok(s1)
                };
                lemma_dora(c, s1);
                if let Ok(s2) = s2 {
                    lemma_push_plain(s2.events, s2.reach_pending, item);
                    lemma_dora(c, push_event(s2, item));
                    if let Ok(s3) = push_dora(c, push_event(s2, item)) {
                        lemma_draw_phase(c, s3, actor, Last::Other);
                    }
                }
            },
            EventV::Kakan { .. } => {
                let s2 = if s1.need_dora_at_discard {
                    ReplayState { need_dora_at_tsumo: true, ..s1 }
                } else {
                    s1
                };
                lemma_push_plain(s2.events, s2.reach_pending, item);
                let s3 = ReplayState { need_dora_at_discard: true, ..push_event(s2, item) };
                lemma_draw_phase(c, s3, actor, Last::Discard(actor as usize));
            },
            EventV::Reach { actor: a } => {
                assert(discard_stream_of_seat(c.discards[actor], actor as u8));
                assert(item.actor() == Some(actor as u8));
                lemma_push_reach(s1.events, a);
                let s2 = ReplayState { reach_pending: Some(actor as u8), ..push_event(s1, item) };
                if s2.discard_idxs[actor] < c.discards[actor].len() {
                    lemma_dahai(c, s2, actor, c.discards[actor][s2.discard_idxs[actor] as int]);
                }
            },
            EventV::Dahai { .. } => {
                lemma_dahai(c, s, actor, item);
            },
            _ => {},
        }
    }
}

proof fn lemma_dahai(c: ReplayCtx, s: ReplayState, actor: int, item: EventV)
    requires
        wf_state(c, s, actor),
        ctx_discards(c),
        riichi_ok(s),
    ensures
        dahai(c, s, actor, item) matches Ok(sols) ==> sols_riichi_ok(sols),
    decreases remaining(c, s), 3nat,
{
    if let EventV::Dahai { pai, tsumogiri, .. } = item {
        let pai = if tsumogiri {
            s.last_draw[actor]
        } else {
            pai
        };
        if pai@ != 37 && s.discard_idxs[actor] < c.discards[actor].len() {
            lemma_next_discard_remaining(c, s, actor);
            let s1 = next_discard(s, actor);
            let s2 = if s1.need_dora_at_discard {
                match push_dora(c, s1) {
                    Ok(x) => Ok(ReplayState { need_dora_at_discard: false, ..x }),
                    Err(e) => Err(e),
                }
            } else {
                Ok(s1)
            };
            lemma_dora(c, s1);
            if let Ok(s2) = s2 {
                let e = EventV::Dahai { actor: actor as u8, pai, tsumogiri };
                lemma_push_plain(s2.events, s2.reach_pending, e);
                lemma_after_discard(c, push_event(s2, e), actor, pai);
            }
        }
    }
}

proof fn lemma_after_discard(c: ReplayCtx, s: ReplayState, actor: int, pai: Tile)
    requires
        wf_state(c, s, actor),
        ctx_discards(c),
        riichi_ok(s),
    ensures
        after_discard(c, s, actor, pai) matches Ok(sols) ==> sols_riichi_ok(sols),
    decreases remaining(c, s), 2nat,
{
    let (c1, c2) = other_seats(actor);
    lemma_try_call(c, s, actor, c1, pai);
    if let Ok(sols1) = try_call(c, s, actor, c1, pai) {
        lemma_try_call(c, with_solutions(s, sols1), actor, c2, pai);
        if let Ok(sols2) = try_call(c, with_solutions(s, sols1), actor, c2, pai) {
            let s2 = with_solutions(s, sols2);
            let shimocha = (actor + 1) % 3;
            if !done(s2) {
                lemma_try_end(c, s2, Last::Discard(actor as usize));
                if s2.take_idxs[shimocha] < c.takes[shimocha].len()
                    && c.takes[shimocha][s2.take_idxs[shimocha] as int] is Tsumo {
                    let s3 = with_solutions(s2, try_end(c, s2, Last::Discard(actor as usize)));
                    lemma_draw_phase(c, s3, shimocha, Last::Discard(actor as usize));
                }
            }
        }
    }
}

proof fn lemma_try_call(c: ReplayCtx, s: ReplayState, actor: int, caller: int, pai: Tile)
    requires
        wf_state(c, s, actor),
        0 <= caller < 3,
        ctx_discards(c),
        riichi_ok(s),
    ensures
        try_call(c, s, actor, caller, pai) matches Ok(sols) ==> sols_riichi_ok(sols),
    decreases remaining(c, s), 1nat,
{
    if !done(s) && s.take_idxs[caller] < c.takes[caller].len() {
        let take = c.takes[caller][s.take_idxs[caller] as int];
        if let Some((target, called)) = take.naki_info() {
            if target == actor as u8 && crate::tile::deaka_id(called@) == crate::tile::deaka_id(
                pai@,
            ) {
                assert(wf_state(c, s, caller));
                lemma_next_take_remaining(c, s, caller);
                let s1 = accept_reach(next_take(s, caller));
                lemma_accept(next_take(s, caller));
                match take {
                    EventV::Pon { .. } => {
                        lemma_push_take(s1.events, take);
                        lemma_discard_phase(c, push_event(s1, take), caller, Last::Other);
                    },
                    EventV::Daiminkan { .. } => {
                        let s2 = if s1.need_dora_at_discard {
                            push_dora(c, s1)
                        } else {
                            Ok(s1)
                        };
                        lemma_dora(c, s1);
                        if let Ok(s2) = s2 {
                            lemma_push_take(s2.events, take);
                            let s3 = ReplayState {
                                need_dora_at_discard: true,
                                ..push_event(s2, take)
                            };
                            let di = s3.discard_idxs[caller];
                            if di < c.discards[caller].len() {
                                lemma_next_discard_remaining(c, s3, caller);
                            }
                            let s4 = if di < c.discards[caller].len() && (
                            c.discards[caller][di as int] matches EventV::Dahai {
                                pai: p,
                                tsumogiri: false,
                                ..
                            } && p@ == 37) {
                                next_discard(s3, caller)
                            } else {
                                s3
                            };
                            lemma_draw_phase(c, s4, caller, Last::Other);
                        }
                    },
                    _ => {},
                }
            }
        }
    }
}

/// In a converted three-player kyoku, every riichi declaration is accepted before the
/// next draw or call of any seat: a call of the riichi dahai comes after the
/// `reach_accepted` of the declarer, and so does the next draw.
pub proof fn lemma_sanma_riichi_accepted_before_takes(
    k: crate::tenhou::KyokuV,
    start: EventV,
    oya: int,
    ts: Seq<Seq<EventV>>,
    ds: Seq<Seq<EventV>>,
    evs: Seq<EventV>,
)
    requires
        0 <= oya < 3,
        start is StartKyoku,
        crate::sanma::seat_streams(k.action_tables, 3) == Ok::<
            (Seq<Seq<EventV>>, Seq<Seq<EventV>>),
            crate::error::ConvertErrorV,
        >((ts, ds)),
        ts.len() == 3,
        ds.len() == 3,
        forall|a: int| 0 <= a < 3 ==> #[trigger] ts[a].len() <= usize::MAX,
        forall|a: int| 0 <= a < 3 ==> #[trigger] ds[a].len() <= usize::MAX,
        sanma_kyoku_events(k, start, oya) == Ok::<Seq<EventV>, crate::error::ConvertErrorV>(evs),
    ensures
        riichi_accepted_before_takes(evs),
{
    let c = ReplayCtx { kyoku: k, takes: ts, discards: ds };
    let s = initial_state(start);
    lemma_seat_streams_seats(k.action_tables, 3);
    assert(ctx_discards(c));
    assert(wf_state(c, s, oya));
    assert(riichi_ok(s)) by {
        assert forall|i: int, j: int|
            0 <= i < j < s.events.len() && (#[trigger] s.events[i]) is Reach && is_take(
                #[trigger] s.events[j],
            ) && no_take_between(s.events, i, j) implies accepted_between(
            s.events,
            s.events[i]->Reach_actor,
            i,
            j,
        ) by {}
    }
    lemma_draw_phase(c, s, oya, Last::Other);
    crate::sanma::lemma_sanma_single_replay(k, start, oya, evs);
    let sols = draw_phase(c, s, oya, Last::Other)->Ok_0;
    assert(sanma_replays(k, start, oya) == Ok::<Sols, crate::error::ConvertErrorV>(sols));
    assert(riichi_accepted_before_takes(sols[0]));
}

} // verus!
