//! What every complete three-player replay looks like: one kyoku, framed by its
//! `start_kyoku` and `end_kyoku`, in which each tsumogiri discards the tile that its
//! player drew last and the dora events reveal the recorded indicators in order.
use vstd::prelude::*;

use crate::event::EventV;
use crate::kyoku_end::{end_events, hora_event};
use crate::sanma::{
    accept_reach, after_discard, all_consumed, ron_leaves_phantoms, dahai, done, result_follows, discard_phase, draw_phase, final_reach, initial_state,
    lemma_next_discard_remaining, lemma_next_take_remaining, next_discard, next_take,
    other_seats, push_dora, push_event, remaining, try_call, try_end, wf_state, with_solutions,
    Last, ReplayCtx, ReplayState, Sols,
};
use crate::tenhou::{EndStatusV, HoraDetailV};
use crate::tile::{group_tile_ids, tile_from_id, Tile};

verus! {

broadcast use group_tile_ids;

/// The tile of the latest draw by seat `a` in `evs`, or the unknown tile when it has
/// drawn none.
pub open spec fn latest_draw(evs: Seq<EventV>, a: u8) -> Tile
    decreases evs.len(),
{
    if evs.len() == 0 {
        tile_from_id(37)
    } else if evs.last() is Tsumo && evs.last()->Tsumo_actor == a {
        evs.last()->Tsumo_pai
    } else {
        latest_draw(evs.drop_last(), a)
    }
}

/// Every tsumogiri dahai of `evs` discards a known tile, the one its player drew last
/// before it.
pub open spec fn tsumogiri_follows_draw(evs: Seq<EventV>) -> bool {
    forall|i: int|
        0 <= i < evs.len() && (#[trigger] evs[i]) is Dahai && evs[i]->Dahai_tsumogiri ==> {
            &&& evs[i]->Dahai_pai == latest_draw(evs.take(i), evs[i]->Dahai_actor)
            &&& evs[i]->Dahai_pai@ != 37
        }
}

/// The indicators of the dora events of `evs`, in order.
pub open spec fn dora_markers(evs: Seq<EventV>) -> Seq<Tile>
    decreases evs.len(),
{
    if evs.len() == 0 {
        seq![]
    } else if evs.last() is Dora {
        dora_markers(evs.drop_last()).push(evs.last()->Dora_dora_marker)
    } else {
        dora_markers(evs.drop_last())
    }
}

/// The dora events of `evs` reveal the indicators `ind` after the first, in order, up to
/// some point.
pub open spec fn reveals_in_order(evs: Seq<EventV>, ind: Seq<Tile>) -> bool {
    &&& dora_markers(evs).len() + 1 <= ind.len()
    &&& dora_markers(evs) == ind.subrange(1, dora_markers(evs).len() + 1int)
}

pub proof fn lemma_count_dora_markers(evs: Seq<EventV>)
    ensures
        crate::sanma::count_dora(evs) == dora_markers(evs).len(),
    decreases evs.len(),
{
    if evs.len() > 0 {
        lemma_count_dora_markers(evs.drop_last());
    }
}

proof fn lemma_dora_markers_concat(a: Seq<EventV>, b: Seq<EventV>)
    requires
        forall|i: int| 0 <= i < b.len() ==> !((#[trigger] b[i]) is Dora),
    ensures
        dora_markers(a + b) == dora_markers(a),
    decreases b.len(),
{
    if b.len() == 0 {
        assert(a + b =~= a);
    } else {
        let bl = b.drop_last();
        assert forall|i: int| 0 <= i < bl.len() implies !((#[trigger] bl[i]) is Dora) by {
            assert(bl[i] == b[i]);
        }
        lemma_dora_markers_concat(a, bl);
        assert((a + b).drop_last() =~= a + bl);
        assert((a + b).last() == b.last());
    }
}

/// `evs` is the beginning of one kyoku: `start` and then no other `start_kyoku` and no
/// `end_kyoku`, with every tsumogiri following its draw.
pub open spec fn open_kyoku(evs: Seq<EventV>, start: EventV) -> bool {
    &&& evs.len() >= 1
    &&& evs[0] == start
    &&& start is StartKyoku
    &&& forall|i: int| 1 <= i < evs.len() ==> !((#[trigger] evs[i]) is StartKyoku)
    &&& forall|i: int| 0 <= i < evs.len() ==> !((#[trigger] evs[i]) is EndKyoku)
    &&& tsumogiri_follows_draw(evs)
}

/// `evs` is the events of one kyoku: `start`, then no other `start_kyoku`, and
/// `end_kyoku` as its last event and only there.
pub open spec fn framed_kyoku(evs: Seq<EventV>, start: EventV) -> bool {
    &&& evs.len() >= 2
    &&& evs[0] == start
    &&& start is StartKyoku
    &&& evs.last() is EndKyoku
    &&& forall|i: int| 1 <= i < evs.len() ==> !((#[trigger] evs[i]) is StartKyoku)
    &&& forall|i: int| 0 <= i < evs.len() - 1 ==> !((#[trigger] evs[i]) is EndKyoku)
}

/// `evs` is one whole kyoku, with every tsumogiri following its draw.
pub open spec fn whole_kyoku(evs: Seq<EventV>, start: EventV) -> bool {
    &&& framed_kyoku(evs, start)
    &&& tsumogiri_follows_draw(evs)
}

pub open spec fn all_whole(sols: Sols, start: EventV, ind: Seq<Tile>) -> bool {
    forall|i: int|
        0 <= i < sols.len() ==> whole_kyoku(#[trigger] sols[i], start) && reveals_in_order(
            sols[i],
            ind,
        )
}

/// The events of the replay state are within one kyoku begun by `start`, and the state
/// remembers each player's latest draw.
pub open spec fn replay_core(s: ReplayState, start: EventV) -> bool {
    &&& open_kyoku(s.events, start)
    &&& s.last_draw.len() == 3
    &&& forall|a: int| 0 <= a < 3 ==> #[trigger] s.last_draw[a] == latest_draw(s.events, a as u8)
}

/// The replay state is within one kyoku begun by `start`, remembers each player's latest
/// draw, has revealed the dora indicators `ind` in order up to `dora_idx`, and has found
/// only whole kyokus.
pub open spec fn replay_ok(s: ReplayState, start: EventV, ind: Seq<Tile>) -> bool {
    &&& replay_core(s, start)
    &&& ind.len() <= usize::MAX
    &&& 1 <= s.dora_idx <= ind.len()
    &&& dora_markers(s.events) == ind.subrange(1, s.dora_idx as int)
    &&& all_whole(s.solutions, start, ind)
}

proof fn lemma_push_core(s: ReplayState, e: EventV, start: EventV)
    requires
        replay_core(s, start),
        !(e is StartKyoku),
        !(e is EndKyoku),
        !(e is Tsumo),
        !(e is Dahai),
    ensures
        replay_core(push_event(s, e), start),
{
    let evs = s.events.push(e);
    assert(evs.drop_last() =~= s.events);
    assert forall|a: int| 0 <= a < 3 implies #[trigger] s.last_draw[a] == latest_draw(evs, a as u8) by {
        assert(evs.drop_last() =~= s.events);
    }
    assert forall|i: int|
        0 <= i < evs.len() && (#[trigger] evs[i]) is Dahai && evs[i]->Dahai_tsumogiri implies {
            &&& evs[i]->Dahai_pai == latest_draw(evs.take(i), evs[i]->Dahai_actor)
            &&& evs[i]->Dahai_pai@ != 37
        } by {
        assert(i < s.events.len());
        assert(evs.take(i) =~= s.events.take(i));
        assert(s.events[i] == evs[i]);
    }
}

proof fn lemma_push_other(s: ReplayState, e: EventV, start: EventV, ind: Seq<Tile>)
    requires
        replay_ok(s, start, ind),
        !(e is StartKyoku),
        !(e is EndKyoku),
        !(e is Tsumo),
        !(e is Dahai),
        !(e is Dora),
    ensures
        replay_ok(push_event(s, e), start, ind),
{
    lemma_push_core(s, e, start);
    assert(s.events.push(e).drop_last() =~= s.events);
}

proof fn lemma_push_tsumo(s: ReplayState, actor: int, pai: Tile, start: EventV, ind: Seq<Tile>)
    requires
        replay_ok(s, start, ind),
        0 <= actor < 3,
    ensures
        replay_ok(
            ReplayState {
                events: s.events.push(EventV::Tsumo { actor: actor as u8, pai }),
                last_draw: s.last_draw.update(actor, pai),
                ..s
            },
            start,
            ind,
        ),
{
    let e = EventV::Tsumo { actor: actor as u8, pai };
    let evs = s.events.push(e);
    assert(evs.drop_last() =~= s.events);
    let ld = s.last_draw.update(actor, pai);
    assert forall|a: int| 0 <= a < 3 implies #[trigger] ld[a] == latest_draw(evs, a as u8) by {
        assert(evs.drop_last() =~= s.events);
    }
    assert forall|i: int|
        0 <= i < evs.len() && (#[trigger] evs[i]) is Dahai && evs[i]->Dahai_tsumogiri implies {
            &&& evs[i]->Dahai_pai == latest_draw(evs.take(i), evs[i]->Dahai_actor)
            &&& evs[i]->Dahai_pai@ != 37
        } by {
        assert(i < s.events.len());
        assert(evs.take(i) =~= s.events.take(i));
        assert(s.events[i] == evs[i]);
    }
}

proof fn lemma_push_dahai(s: ReplayState, actor: int, pai: Tile, tsumogiri: bool, start: EventV, ind: Seq<Tile>)
    requires
        replay_ok(s, start, ind),
        0 <= actor < 3,
        pai@ != 37,
        tsumogiri ==> pai == s.last_draw[actor],
    ensures
        replay_ok(push_event(s, EventV::Dahai { actor: actor as u8, pai, tsumogiri }), start, ind),
{
    let e = EventV::Dahai { actor: actor as u8, pai, tsumogiri };
    let evs = s.events.push(e);
    assert(evs.drop_last() =~= s.events);
    assert forall|a: int| 0 <= a < 3 implies #[trigger] s.last_draw[a] == latest_draw(evs, a as u8) by {
        assert(evs.drop_last() =~= s.events);
    }
    assert forall|i: int|
        0 <= i < evs.len() && (#[trigger] evs[i]) is Dahai && evs[i]->Dahai_tsumogiri implies {
            &&& evs[i]->Dahai_pai == latest_draw(evs.take(i), evs[i]->Dahai_actor)
            &&& evs[i]->Dahai_pai@ != 37
        } by {
        if i < s.events.len() {
            assert(evs.take(i) =~= s.events.take(i));
            assert(s.events[i] == evs[i]);
        } else {
            assert(evs.take(i) =~= s.events);
            assert(s.last_draw[actor] == latest_draw(s.events, actor as u8));
        }
    }
}

proof fn lemma_push_dora(c: ReplayCtx, s: ReplayState, start: EventV, ind: Seq<Tile>)
    requires
        replay_ok(s, start, ind),
        ind == c.kyoku.dora_indicators,
    ensures
        push_dora(c, s) matches Ok(x) ==> replay_ok(x, start, ind),
{
    if s.dora_idx < c.kyoku.dora_indicators.len() {
        let e = EventV::Dora { dora_marker: ind[s.dora_idx as int] };
        let evs = s.events.push(e);
        lemma_push_core(s, e, start);
        assert(evs.drop_last() =~= s.events);
        assert(dora_markers(evs) =~= ind.subrange(1, s.dora_idx + 1));
    }
}

proof fn lemma_accept_reach(s: ReplayState, start: EventV, ind: Seq<Tile>)
    requires
        replay_ok(s, start, ind),
    ensures
        replay_ok(accept_reach(s), start, ind),
{
    if let Some(actor) = s.reach_pending {
        lemma_push_other(s, EventV::ReachAccepted { actor }, start, ind);
    }
}

pub proof fn lemma_end_events(k: crate::tenhou::KyokuV)
    ensures
        end_events(k).len() >= 1,
        end_events(k).last() is EndKyoku,
        forall|i: int|
            0 <= i < end_events(k).len() - 1 ==> (#[trigger] end_events(k)[i]) is Hora
                || end_events(k)[i] is Ryukyoku,
{
    match k.end_status {
        EndStatusV::Hora { details } => {
            let hs = details.map_values(|d: HoraDetailV| hora_event(d, k.ura_indicators));
            assert(end_events(k) == hs.push(EventV::EndKyoku));
            assert forall|i: int| 0 <= i < end_events(k).len() - 1 implies (#[trigger] end_events(
                k,
            )[i]) is Hora || end_events(k)[i] is Ryukyoku by {
                assert(end_events(k)[i] == hs[i]);
            }
        },
        EndStatusV::Ryukyoku { .. } => {},
    }
}

proof fn lemma_try_end(c: ReplayCtx, s: ReplayState, last: Last, start: EventV, ind: Seq<Tile>)
    requires
        replay_ok(s, start, ind),
        ind == c.kyoku.dora_indicators,
    ensures
        all_whole(try_end(c, s, last), start, ind),
{
    let sols = try_end(c, s, last);
    if !(done(s) || !(all_consumed(c, s) || ron_leaves_phantoms(c, s, last)) || !result_follows(
        c.kyoku,
        last,
    )) {
        let tail = final_reach(c.kyoku, s) + end_events(c.kyoku);
        let sol = s.events + final_reach(c.kyoku, s) + end_events(c.kyoku);
        assert(sol =~= s.events + tail);
        lemma_end_events(c.kyoku);
        assert(sols == s.solutions.push(sol));
        assert forall|j: int| 0 <= j < tail.len() implies !((#[trigger] tail[j]) is StartKyoku)
            && !(tail[j] is Dahai) && (j < tail.len() - 1 ==> !(tail[j] is EndKyoku)) && (j
            == tail.len() - 1 ==> tail[j] is EndKyoku) by {
            let fr = final_reach(c.kyoku, s);
            if j < fr.len() {
                assert(tail[j] == fr[j]);
            } else {
                assert(tail[j] == end_events(c.kyoku)[j - fr.len()]);
            }
        }
        assert forall|j: int| 0 <= j < tail.len() implies !((#[trigger] tail[j]) is Dora) by {
            let fr = final_reach(c.kyoku, s);
            if j < fr.len() {
                assert(tail[j] == fr[j]);
            } else {
                assert(tail[j] == end_events(c.kyoku)[j - fr.len()]);
            }
        }
        lemma_dora_markers_concat(s.events, tail);
        assert(whole_kyoku(sol, start)) by {
            assert forall|i: int| 1 <= i < sol.len() implies !((#[trigger] sol[i]) is StartKyoku) by {
                if i >= s.events.len() {
                    assert(sol[i] == tail[i - s.events.len()]);
                }
            }
            assert forall|i: int| 0 <= i < sol.len() - 1 implies !((#[trigger] sol[i]) is EndKyoku) by {
                if i >= s.events.len() {
                    assert(sol[i] == tail[i - s.events.len()]);
                }
            }
            assert(sol.last() == tail.last());
            assert forall|i: int|
                0 <= i < sol.len() && (#[trigger] sol[i]) is Dahai && sol[i]->Dahai_tsumogiri implies {
                    &&& sol[i]->Dahai_pai == latest_draw(sol.take(i), sol[i]->Dahai_actor)
                    &&& sol[i]->Dahai_pai@ != 37
                } by {
                if i >= s.events.len() {
                    assert(sol[i] == tail[i - s.events.len()]);
                } else {
                    assert(sol.take(i) =~= s.events.take(i));
                    assert(sol[i] == s.events[i]);
                }
            }
        }
        assert forall|i: int| 0 <= i < sols.len() implies whole_kyoku(#[trigger] sols[i], start) by {
            if i < s.solutions.len() {
                assert(sols[i] == s.solutions[i]);
            }
        }
    }
}

proof fn lemma_draw_phase(c: ReplayCtx, s: ReplayState, actor: int, last: Last, start: EventV, ind: Seq<Tile>)
    requires
        wf_state(c, s, actor),
        replay_ok(s, start, ind),
        ind == c.kyoku.dora_indicators,
    ensures
        draw_phase(c, s, actor, last) matches Ok(sols) ==> all_whole(sols, start, ind),
    decreases remaining(c, s), 0nat,
{
    if done(s) {
    } else if s.take_idxs[actor] >= c.takes[actor].len() {
        lemma_try_end(c, s, last, start, ind);
    } else {
        if let EventV::Tsumo { pai, .. } = c.takes[actor][s.take_idxs[actor] as int] {
            lemma_next_take_remaining(c, s, actor);
            let s1 = accept_reach(next_take(s, actor));
            lemma_accept_reach(next_take(s, actor), start, ind);
            let s2 = if s1.need_dora_at_tsumo {
                push_dora(c, s1)
            } else {
                Ok(s1)
            };
            lemma_push_dora(c, s1, start, ind);
            if let Ok(s2) = s2 {
                let s3 = ReplayState {
                    need_dora_at_tsumo: false,
                    events: s2.events.push(EventV::Tsumo { actor: actor as u8, pai }),
                    last_draw: s2.last_draw.update(actor, pai),
                    ..s2
                };
                lemma_push_tsumo(s2, actor, pai, start, ind);
                lemma_discard_phase(c, s3, actor, Last::Draw(actor as usize), start, ind);
            }
        }
    }
}

proof fn lemma_discard_phase(
    c: ReplayCtx,
    s: ReplayState,
    actor: int,
    end: Last,
    start: EventV,
    ind: Seq<Tile>,
)
    requires
        wf_state(c, s, actor),
        replay_ok(s, start, ind),
        ind == c.kyoku.dora_indicators,
    ensures
        discard_phase(c, s, actor, end) matches Ok(sols) ==> all_whole(sols, start, ind),
    decreases remaining(c, s), 4nat,
{
    if done(s) {
    } else if s.discard_idxs[actor] >= c.discards[actor].len() {
        lemma_try_end(c, s, end, start, ind);
    } else {
        let item = c.discards[actor][s.discard_idxs[actor] as int];
        lemma_next_discard_remaining(c, s, actor);
        let s1 = next_discard(s, actor);
        match item {
            EventV::Nukidora { .. } => {
                let s2 = if s1.need_dora_at_discard {
                    ReplayState { need_dora_at_discard: false, need_dora_at_tsumo: true, ..s1 }
                } else {
                    s1
                };
                lemma_push_other(s2, item, start, ind);
                lemma_draw_phase(c, push_event(s2, item), actor, Last::Discard(actor as usize), start, ind);
            },
            EventV::Ankan { .. } => {
                let s2 = if s1.need_dora_at_discard {
                    match push_dora(c, s1) {
                        Ok(x) => Ok(ReplayState { need_dora_at_discard: false, ..x }),
                        Err(e) => Err(e),
                    }
                } else {
                    Ok(s1)
                };
                lemma_push_dora(c, s1, start, ind);
                if let Ok(s2) = s2 {
                    lemma_push_other(s2, item, start, ind);
                    lemma_push_dora(c, push_event(s2, item), start, ind);
                    if let Ok(s3) = push_dora(c, push_event(s2, item)) {
                        lemma_draw_phase(c, s3, actor, Last::Other, start, ind);
                    }
                }
            },
            EventV::Kakan { .. } => {
                let s2 = if s1.need_dora_at_discard {
                    ReplayState { need_dora_at_tsumo: true, ..s1 }
                } else {
                    s1
                };
                lemma_push_other(s2, item, start, ind);
                let s3 = ReplayState { need_dora_at_discard: true, ..push_event(s2, item) };
                lemma_draw_phase(c, s3, actor, Last::Discard(actor as usize), start, ind);
            },
            EventV::Reach { .. } => {
                lemma_push_other(s1, item, start, ind);
                let s2 = ReplayState { reach_pending: Some(actor as u8), ..push_event(s1, item) };
                if s2.discard_idxs[actor] < c.discards[actor].len() {
                    lemma_dahai(c, s2, actor, c.discards[actor][s2.discard_idxs[actor] as int], start, ind);
                }
            },
            EventV::Dahai { .. } => {
                lemma_dahai(c, s, actor, item, start, ind);
            },
            _ => {},
        }
    }
}

proof fn lemma_dahai(c: ReplayCtx, s: ReplayState, actor: int, item: EventV, start: EventV, ind: Seq<Tile>)
    requires
        wf_state(c, s, actor),
        replay_ok(s, start, ind),
        ind == c.kyoku.dora_indicators,
    ensures
        dahai(c, s, actor, item) matches Ok(sols) ==> all_whole(sols, start, ind),
    decreases remaining(c, s), 3nat,
{
    if let EventV::Dahai { pai, tsumogiri, .. } = item {
        let pai = if tsumogiri {
            s.last_draw[actor]
        } else {
            pai
        };
        if pai@ != 37 && s.discard_idxs[actor] < c.discards[actor].len() {
            lemma_next_discard_remaining(c, s, actor);
            let s1 = next_discard(s, actor);
            let s2 = if s1.need_dora_at_discard {
                match push_dora(c, s1) {
                    Ok(x) => Ok(ReplayState { need_dora_at_discard: false, ..x }),
                    Err(e) => Err(e),
                }
            } else {
                Ok(s1)
            };
            lemma_push_dora(c, s1, start, ind);
            if let Ok(s2) = s2 {
                assert(s2.last_draw == s.last_draw);
                lemma_push_dahai(s2, actor, pai, tsumogiri, start, ind);
                lemma_after_discard(
                    c,
                    push_event(s2, EventV::Dahai { actor: actor as u8, pai, tsumogiri }),
                    actor,
                    pai,
                    start,
                    ind,
                );
            }
        }
    }
}

proof fn lemma_after_discard(c: ReplayCtx, s: ReplayState, actor: int, pai: Tile, start: EventV, ind: Seq<Tile>)
    requires
        wf_state(c, s, actor),
        replay_ok(s, start, ind),
        ind == c.kyoku.dora_indicators,
    ensures
        after_discard(c, s, actor, pai) matches Ok(sols) ==> all_whole(sols, start, ind),
    decreases remaining(c, s), 2nat,
{
    let (c1, c2) = other_seats(actor);
    lemma_try_call(c, s, actor, c1, pai, start, ind);
    if let Ok(sols1) = try_call(c, s, actor, c1, pai) {
        lemma_try_call(c, with_solutions(s, sols1), actor, c2, pai, start, ind);
        if let Ok(sols2) = try_call(c, with_solutions(s, sols1), actor, c2, pai) {
            let s2 = with_solutions(s, sols2);
            let shimocha = (actor + 1) % 3;
            if !done(s2) {
                if s2.take_idxs[shimocha] < c.takes[shimocha].len()
                    && c.takes[shimocha][s2.take_idxs[shimocha] as int] is Tsumo {
                    lemma_try_end(c, s2, Last::Discard(actor as usize), start, ind);
                    let s3 = with_solutions(s2, try_end(c, s2, Last::Discard(actor as usize)));
                    lemma_draw_phase(c, s3, shimocha, Last::Discard(actor as usize), start, ind);
                } else {
                    lemma_try_end(c, s2, Last::Discard(actor as usize), start, ind);
                }
            }
        }
    }
}

proof fn lemma_try_call(
    c: ReplayCtx,
    s: ReplayState,
    actor: int,
    caller: int,
    pai: Tile,
    start: EventV,
    ind: Seq<Tile>,
)
    requires
        wf_state(c, s, actor),
        0 <= caller < 3,
        replay_ok(s, start, ind),
        ind == c.kyoku.dora_indicators,
    ensures
        try_call(c, s, actor, caller, pai) matches Ok(sols) ==> all_whole(sols, start, ind),
    decreases remaining(c, s), 1nat,
{
    if !done(s) && s.take_idxs[caller] < c.takes[caller].len() {
        let take = c.takes[caller][s.take_idxs[caller] as int];
        if let Some((target, called)) = take.naki_info() {
            if target == actor as u8 && crate::tile::deaka_id(called@) == crate::tile::deaka_id(pai@) {
                lemma_next_take_remaining(c, s, caller);
                let s1 = accept_reach(next_take(s, caller));
                lemma_accept_reach(next_take(s, caller), start, ind);
                match take {
                    EventV::Pon { .. } => {
                        lemma_push_other(s1, take, start, ind);
                        lemma_discard_phase(c, push_event(s1, take), caller, Last::Other, start, ind);
                    },
                    EventV::Daiminkan { .. } => {
                        let s2 = if s1.need_dora_at_discard {
                            push_dora(c, s1)
                        } else {
                            Ok(s1)
                        };
                        lemma_push_dora(c, s1, start, ind);
                        if let Ok(s2) = s2 {
                            lemma_push_other(s2, take, start, ind);
                            let s3 = ReplayState { need_dora_at_discard: true, ..push_event(s2, take) };
                            let di = s3.discard_idxs[caller];
                            if di < c.discards[caller].len() {
                                lemma_next_discard_remaining(c, s3, caller);
                            }
                            let s4 = if di < c.discards[caller].len() && (
                            c.discards[caller][di as int] matches EventV::Dahai {
                                pai: p,
                                tsumogiri: false,
                                ..
                            } && p@ == 37) {
                                next_discard(s3, caller)
                            } else {
                                s3
                            };
                            lemma_draw_phase(c, s4, caller, Last::Other, start, ind);
                        }
                    },
                    _ => {},
                }
            }
        }
    }
}

/// Every complete replay of a three-player kyoku begun by a `start_kyoku` event is one
/// whole kyoku: that event, then no other `start_kyoku`, `end_kyoku` last and only
/// there, and each tsumogiri discarding the known tile its player drew last; its dora
/// events reveal the recorded indicators after the first, in their order.
pub proof fn lemma_replays_are_whole_kyokus(c: ReplayCtx, start: EventV, oya: int)
    requires
        wf_state(c, initial_state(start), oya),
        start is StartKyoku,
        1 <= c.kyoku.dora_indicators.len() <= usize::MAX,
    ensures
        draw_phase(c, initial_state(start), oya, Last::Other) matches Ok(sols) ==> all_whole(
            sols,
            start,
            c.kyoku.dora_indicators,
        ),
{
    let s = initial_state(start);
    let ind = c.kyoku.dora_indicators;
    assert forall|a: u8| #[trigger] latest_draw(s.events, a) == tile_from_id(37) by {
        reveal_with_fuel(latest_draw, 2);
        assert(s.events.drop_last() =~= Seq::<EventV>::empty());
    }
    assert(dora_markers(s.events) =~= ind.subrange(1, 1)) by {
        reveal_with_fuel(dora_markers, 2);
        assert(s.events.drop_last() =~= Seq::<EventV>::empty());
    }
    assert(replay_ok(s, start, ind));
    lemma_draw_phase(c, s, oya, Last::Other, start, ind);
}

} // verus!
