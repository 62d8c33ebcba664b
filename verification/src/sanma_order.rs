//! The streams in a three-player replay: each seat's draws and calls appear in the order
//! of its take stream, and its discards, kans, nukidora and riichi in the order of its
//! discard stream, with the placeholder after a daiminkan left out; all of each stream, or
//! all but a trailing draw and its tsumogiri that a ron left unread.
use vstd::prelude::*;

use crate::event::EventV;
use crate::kyoku_end::end_events;
use crate::naki::{
    discard_item_events, discards_to_events, naki_discard_events, naki_take_event, take_item_event,
    takes_to_events,
};
use crate::sanma::{
    accept_reach, after_discard, all_consumed, dahai, discard_phase, done, draw_phase,
    final_reach, initial_state, lemma_next_discard_remaining, lemma_next_take_remaining,
    next_discard, next_take, other_seats, phantom_tail, push_dora, push_event, remaining,
    result_follows, ron_leaves_phantoms, sanma_kyoku_events, sanma_replays, seat_consumed,
    seat_streams, try_call, try_end, wf_state, with_solutions, Last, ReplayCtx, ReplayState,
    Sols,
};
use crate::sanma_laws::lemma_end_events;
use crate::tenhou::ActionTableV;
use crate::tile::{group_tile_ids, tile_from_id, Tile};

verus! {

broadcast use group_tile_ids;

/// A draw or a call.
pub open spec fn is_take(e: EventV) -> bool {
    e is Tsumo || e is Chi || e is Pon || e is Daiminkan
}

/// The draws and calls of seat `a` in `evs`, in order.
pub open spec fn takes_of(evs: Seq<EventV>, a: u8) -> Seq<EventV>
    decreases evs.len(),
{
    if evs.len() == 0 {
        seq![]
    } else if is_take(evs.last()) && evs.last().actor() == Some(a) {
        takes_of(evs.drop_last(), a).push(evs.last())
    } else {
        takes_of(evs.drop_last(), a)
    }
}

/// A discard, a kan from the hand, a nukidora or a riichi.
pub open spec fn is_discard(e: EventV) -> bool {
    e is Dahai || e is Reach || e is Ankan || e is Kakan || e is Nukidora
}

/// The event with the tile of a tsumogiri left unknown, as the discard stream writes it.
pub open spec fn shape(e: EventV) -> EventV {
    match e {
        EventV::Dahai { actor, tsumogiri: true, .. } => EventV::Dahai {
            actor,
            pai: tile_from_id(37),
            tsumogiri: true,
        },
        _ => e,
    }
}

/// The discards, kans, nukidora and riichi of seat `a` in `evs`, in order, each with the
/// tile of a tsumogiri left unknown.
pub open spec fn discards_of(evs: Seq<EventV>, a: u8) -> Seq<EventV>
    decreases evs.len(),
{
    if evs.len() == 0 {
        seq![]
    } else if is_discard(evs.last()) && evs.last().actor() == Some(a) {
        discards_of(evs.drop_last(), a).push(shape(evs.last()))
    } else {
        discards_of(evs.drop_last(), a)
    }
}

/// The discard with no known tile that the record leaves after a daiminkan.
pub open spec fn is_placeholder(e: EventV) -> bool {
    e matches EventV::Dahai { pai, tsumogiri: false, .. } && pai@ == 37
}

/// The items of a discard stream that are played: all but the placeholders.
pub open spec fn played(d: Seq<EventV>) -> Seq<EventV>
    decreases d.len(),
{
    if d.len() == 0 {
        seq![]
    } else if is_placeholder(d.last()) {
        played(d.drop_last())
    } else {
        played(d.drop_last()).push(d.last())
    }
}

/// Every item of seat `a`'s take stream is a draw or a call by `a`.
pub open spec fn stream_of_seat(t: Seq<EventV>, a: u8) -> bool {
    forall|i: int| 0 <= i < t.len() ==> is_take(#[trigger] t[i]) && t[i].actor() == Some(a)
}

/// The take stream of each of the three seats holds that seat's draws and calls.
pub open spec fn ctx_takes(c: ReplayCtx) -> bool {
    forall|a: int| 0 <= a < 3 ==> #[trigger] stream_of_seat(c.takes[a], a as u8)
}

/// Every item of seat `a`'s discard stream is a discard, kan, nukidora or riichi by `a`,
/// with the tile of a tsumogiri unknown.
pub open spec fn discard_stream_of_seat(d: Seq<EventV>, a: u8) -> bool {
    forall|i: int|
        0 <= i < d.len() ==> is_discard(#[trigger] d[i]) && d[i].actor() == Some(a) && shape(d[i])
            == d[i]
}

/// The discard stream of each of the three seats holds that seat's discards.
pub open spec fn ctx_discards(c: ReplayCtx) -> bool {
    forall|a: int| 0 <= a < 3 ==> #[trigger] discard_stream_of_seat(c.discards[a], a as u8)
}

/// The discards of seat `a` in `evs` are the played items among its first `n`.
pub open spec fn seat_discarded(c: ReplayCtx, evs: Seq<EventV>, idxs: Seq<usize>, a: int) -> bool {
    &&& idxs[a] <= c.discards[a].len()
    &&& discards_of(evs, a as u8) == played(c.discards[a].take(idxs[a] as int))
}

pub open spec fn discards_read(c: ReplayCtx, evs: Seq<EventV>, idxs: Seq<usize>) -> bool {
    forall|a: int| 0 <= a < 3 ==> #[trigger] seat_discarded(c, evs, idxs, a)
}

/// The draws and calls of seat `a` in `evs` are its first `n` take items.
pub open spec fn seat_read(c: ReplayCtx, evs: Seq<EventV>, idxs: Seq<usize>, a: int) -> bool {
    &&& idxs[a] <= c.takes[a].len()
    &&& takes_of(evs, a as u8) == c.takes[a].take(idxs[a] as int)
}

pub open spec fn takes_read(c: ReplayCtx, evs: Seq<EventV>, idxs: Seq<usize>) -> bool {
    forall|a: int| 0 <= a < 3 ==> #[trigger] seat_read(c, evs, idxs, a)
}

/// In the replay `sol`, seat `a` draws and calls its whole take stream in order, or all
/// of it but a trailing draw.
pub open spec fn seat_takes_in_order(t: Seq<EventV>, sol: Seq<EventV>, a: u8) -> bool {
    ||| takes_of(sol, a) == t
    ||| t.len() > 0 && t.last() is Tsumo && takes_of(sol, a) == t.drop_last()
}

/// In the replay `sol`, seat `a` plays the played items of its whole discard stream in
/// order, or of all of it but a trailing tsumogiri.
pub open spec fn seat_discards_in_order(d: Seq<EventV>, sol: Seq<EventV>, a: u8) -> bool {
    ||| discards_of(sol, a) == played(d)
    ||| d.len() > 0 && d.last() is Dahai && d.last()->Dahai_tsumogiri && discards_of(sol, a)
        == played(d.drop_last())
}

pub open spec fn seat_in_order(c: ReplayCtx, sol: Seq<EventV>, a: int) -> bool {
    &&& seat_takes_in_order(c.takes[a], sol, a as u8)
    &&& seat_discards_in_order(c.discards[a], sol, a as u8)
}

pub open spec fn sol_in_order(c: ReplayCtx, sol: Seq<EventV>) -> bool {
    forall|a: int| 0 <= a < 3 ==> #[trigger] seat_in_order(c, sol, a)
}

pub open spec fn sols_in_order(c: ReplayCtx, sols: Sols) -> bool {
    forall|i: int| 0 <= i < sols.len() ==> #[trigger] sol_in_order(c, sols[i])
}

pub open spec fn ctx_ok(c: ReplayCtx) -> bool {
    ctx_takes(c) && ctx_discards(c)
}

pub open spec fn order_ok(c: ReplayCtx, s: ReplayState) -> bool {
    &&& takes_read(c, s.events, s.take_idxs)
    &&& discards_read(c, s.events, s.discard_idxs)
    &&& sols_in_order(c, s.solutions)
}

/// `e2` has the draws, calls and discards of `e1`.
pub open spec fn same_takes(e1: Seq<EventV>, e2: Seq<EventV>) -> bool {
    &&& forall|b: u8| #[trigger] takes_of(e2, b) == takes_of(e1, b)
    &&& forall|b: u8| #[trigger] discards_of(e2, b) == discards_of(e1, b)
}

proof fn lemma_push_take(evs: Seq<EventV>, e: EventV, b: u8)
    ensures
        takes_of(evs.push(e), b) == if is_take(e) && e.actor() == Some(b) {
            takes_of(evs, b).push(e)
        } else {
            takes_of(evs, b)
        },
        discards_of(evs.push(e), b) == if is_discard(e) && e.actor() == Some(b) {
            discards_of(evs, b).push(shape(e))
        } else {
            discards_of(evs, b)
        },
{
    assert(evs.push(e).drop_last() =~= evs);
}

proof fn lemma_push_nontake(evs: Seq<EventV>, e: EventV)
    requires
        !is_take(e),
        !is_discard(e),
    ensures
        same_takes(evs, evs.push(e)),
{
    assert forall|b: u8| #[trigger] takes_of(evs.push(e), b) == takes_of(evs, b) by {
        lemma_push_take(evs, e, b);
    }
    assert forall|b: u8| #[trigger] discards_of(evs.push(e), b) == discards_of(evs, b) by {
        lemma_push_take(evs, e, b);
    }
}

proof fn lemma_concat_nontakes(evs: Seq<EventV>, m: Seq<EventV>)
    requires
        forall|j: int| 0 <= j < m.len() ==> !is_take(#[trigger] m[j]) && !is_discard(m[j]),
    ensures
        same_takes(evs, evs + m),
    decreases m.len(),
{
    if m.len() == 0 {
        assert(evs + m =~= evs);
    } else {
        let p = m.drop_last();
        assert forall|j: int| 0 <= j < p.len() implies !is_take(#[trigger] p[j]) && !is_discard(
            p[j],
        ) by {
            assert(p[j] == m[j]);
        }
        lemma_concat_nontakes(evs, p);
        assert(evs + m =~= (evs + p).push(m.last()));
        assert(!is_take(m[m.len() - 1]) && !is_discard(m[m.len() - 1]));
        lemma_push_nontake(evs + p, m.last());
    }
}

proof fn lemma_same_read(c: ReplayCtx, e1: Seq<EventV>, e2: Seq<EventV>, idxs: Seq<usize>, didxs: Seq<usize>)
    requires
        takes_read(c, e1, idxs),
        discards_read(c, e1, didxs),
        same_takes(e1, e2),
    ensures
        takes_read(c, e2, idxs),
        discards_read(c, e2, didxs),
{
    assert forall|a: int| 0 <= a < 3 implies #[trigger] seat_read(c, e2, idxs, a) by {
        assert(seat_read(c, e1, idxs, a));
        assert(takes_of(e2, a as u8) == takes_of(e1, a as u8));
    }
    assert forall|a: int| 0 <= a < 3 implies #[trigger] seat_discarded(c, e2, didxs, a) by {
        assert(seat_discarded(c, e1, didxs, a));
        assert(discards_of(e2, a as u8) == discards_of(e1, a as u8));
    }
}

proof fn lemma_accept_reach(s: ReplayState)
    ensures
        same_takes(s.events, accept_reach(s).events),
        accept_reach(s).take_idxs == s.take_idxs,
        accept_reach(s).discard_idxs == s.discard_idxs,
        accept_reach(s).solutions == s.solutions,
{
    if let Some(actor) = s.reach_pending {
        lemma_push_nontake(s.events, EventV::ReachAccepted { actor });
    } else {
        assert forall|b: u8| #[trigger] takes_of(accept_reach(s).events, b) == takes_of(s.events, b) by {}
        assert forall|b: u8| #[trigger] discards_of(accept_reach(s).events, b) == discards_of(s.events, b) by {}
    }
}

proof fn lemma_push_dora(c: ReplayCtx, s: ReplayState)
    ensures
        push_dora(c, s) matches Ok(x) ==> same_takes(s.events, x.events) && x.take_idxs
            == s.take_idxs && x.discard_idxs == s.discard_idxs && x.solutions == s.solutions,
{
    if s.dora_idx < c.kyoku.dora_indicators.len() {
        lemma_push_nontake(
            s.events,
            EventV::Dora { dora_marker: c.kyoku.dora_indicators[s.dora_idx as int] },
        );
    }
}

/// Reading the next discard item `item` of seat `a` and emitting `e` for it after events
/// that are no draws, calls or discards.
proof fn lemma_read_discard(
    c: ReplayCtx,
    s: ReplayState,
    a: int,
    mid: Seq<EventV>,
    item: EventV,
    e: EventV,
)
    requires
        wf_state(c, s, a),
        ctx_ok(c),
        takes_read(c, s.events, s.take_idxs),
        discards_read(c, s.events, s.discard_idxs),
        s.discard_idxs[a] < c.discards[a].len(),
        item == c.discards[a][s.discard_idxs[a] as int],
        !is_placeholder(item),
        is_discard(e),
        e.actor() == Some(a as u8),
        shape(e) == item,
        same_takes(s.events, mid),
    ensures
        takes_read(c, mid.push(e), s.take_idxs),
        discards_read(c, mid.push(e), next_discard(s, a).discard_idxs),
{
    let idxs = next_discard(s, a).discard_idxs;
    let evs = mid.push(e);
    assert forall|b: int| 0 <= b < 3 implies #[trigger] seat_read(c, evs, s.take_idxs, b) by {
        assert(seat_read(c, s.events, s.take_idxs, b));
        lemma_push_take(mid, e, b as u8);
        assert(takes_of(mid, b as u8) == takes_of(s.events, b as u8));
    }
    assert forall|b: int| 0 <= b < 3 implies #[trigger] seat_discarded(c, evs, idxs, b) by {
        assert(seat_discarded(c, s.events, s.discard_idxs, b));
        lemma_push_take(mid, e, b as u8);
        assert(discards_of(mid, b as u8) == discards_of(s.events, b as u8));
        if b == a {
            let d = c.discards[a];
            let i = s.discard_idxs[a] as int;
            assert(d.take(i + 1).drop_last() =~= d.take(i));
            assert(d.take(i + 1).last() == item);
        } else {
            assert(b as u8 != a as u8);
        }
    }
}

proof fn lemma_push_other(c: ReplayCtx, s: ReplayState, e: EventV)
    requires
        order_ok(c, s),
        !is_take(e),
        !is_discard(e),
    ensures
        order_ok(c, push_event(s, e)),
{
    lemma_push_nontake(s.events, e);
    lemma_same_read(c, s.events, s.events.push(e), s.take_idxs, s.discard_idxs);
}

/// Reading and emitting the next discard item of seat `a`, which is no placeholder.
proof fn lemma_push_discard(c: ReplayCtx, s: ReplayState, a: int, item: EventV)
    requires
        wf_state(c, s, a),
        ctx_ok(c),
        order_ok(c, s),
        s.discard_idxs[a] < c.discards[a].len(),
        item == c.discards[a][s.discard_idxs[a] as int],
        !is_placeholder(item),
    ensures
        order_ok(c, push_event(next_discard(s, a), item)),
{
    assert(discard_stream_of_seat(c.discards[a], a as u8));
    assert(same_takes(s.events, s.events)) by {
        assert forall|b: u8| #[trigger] takes_of(s.events, b) == takes_of(s.events, b) by {}
        assert forall|b: u8| #[trigger] discards_of(s.events, b) == discards_of(s.events, b) by {}
    }
    lemma_read_discard(c, s, a, s.events, item, item);
}

/// Skipping the placeholder that is the next discard item of seat `a`.
proof fn lemma_skip_placeholder(c: ReplayCtx, s: ReplayState, a: int)
    requires
        wf_state(c, s, a),
        discards_read(c, s.events, s.discard_idxs),
        s.discard_idxs[a] < c.discards[a].len(),
        is_placeholder(c.discards[a][s.discard_idxs[a] as int]),
    ensures
        discards_read(c, s.events, next_discard(s, a).discard_idxs),
{
    let idxs = next_discard(s, a).discard_idxs;
    assert forall|b: int| 0 <= b < 3 implies #[trigger] seat_discarded(c, s.events, idxs, b) by {
        assert(seat_discarded(c, s.events, s.discard_idxs, b));
        if b == a {
            let d = c.discards[a];
            let i = s.discard_idxs[a] as int;
            assert(d.take(i + 1).drop_last() =~= d.take(i));
            assert(d.take(i + 1).last() == d[i]);
        }
    }
}

/// Reading the next take item of seat `a` and emitting it after events that are no takes.
proof fn lemma_read_take(c: ReplayCtx, s: ReplayState, a: int, mid: Seq<EventV>, item: EventV)
    requires
        wf_state(c, s, a),
        ctx_ok(c),
        takes_read(c, s.events, s.take_idxs),
        s.take_idxs[a] < c.takes[a].len(),
        item == c.takes[a][s.take_idxs[a] as int],
        discards_read(c, s.events, s.discard_idxs),
        same_takes(s.events, mid),
    ensures
        takes_read(c, mid.push(item), next_take(s, a).take_idxs),
        discards_read(c, mid.push(item), s.discard_idxs),
{
    let idxs = next_take(s, a).take_idxs;
    let evs = mid.push(item);
    assert(stream_of_seat(c.takes[a], a as u8));
    assert(is_take(item) && item.actor() == Some(a as u8));
    assert forall|b: int| 0 <= b < 3 implies #[trigger] seat_discarded(c, evs, s.discard_idxs, b) by {
        assert(seat_discarded(c, s.events, s.discard_idxs, b));
        lemma_push_take(mid, item, b as u8);
        assert(discards_of(mid, b as u8) == discards_of(s.events, b as u8));
    }
    assert forall|b: int| 0 <= b < 3 implies #[trigger] seat_read(c, evs, idxs, b) by {
        assert(seat_read(c, s.events, s.take_idxs, b));
        lemma_push_take(mid, item, b as u8);
        assert(takes_of(mid, b as u8) == takes_of(s.events, b as u8));
        if b == a {
            assert(c.takes[a].take(idxs[a] as int) =~= c.takes[a].take(
                s.take_idxs[a] as int,
            ).push(item));
        } else {
            assert(b as u8 != a as u8);
        }
    }
}

proof fn lemma_try_end(c: ReplayCtx, s: ReplayState, last: Last)
    requires
        wf_state(c, s, 0),
        order_ok(c, s),
    ensures
        sols_in_order(c, try_end(c, s, last)),
{
    if !(done(s) || !(all_consumed(c, s) || ron_leaves_phantoms(c, s, last)) || !result_follows(
        c.kyoku,
        last,
    )) {
        let fr = final_reach(c.kyoku, s);
        let tail = fr + end_events(c.kyoku);
        let sol = s.events + fr + end_events(c.kyoku);
        assert(sol =~= s.events + tail);
        lemma_end_events(c.kyoku);
        assert forall|j: int| 0 <= j < tail.len() implies !is_take(#[trigger] tail[j])
            && !is_discard(tail[j]) by {
            if j < fr.len() {
                assert(tail[j] == fr[j]);
            } else {
                assert(tail[j] == end_events(c.kyoku)[j - fr.len()]);
            }
        }
        lemma_concat_nontakes(s.events, tail);
        assert forall|a: int| 0 <= a < 3 implies #[trigger] seat_in_order(c, sol, a) by {
            assert(seat_read(c, s.events, s.take_idxs, a));
            assert(seat_discarded(c, s.events, s.discard_idxs, a));
            assert(takes_of(sol, a as u8) == takes_of(s.events, a as u8));
            assert(discards_of(sol, a as u8) == discards_of(s.events, a as u8));
            let t = c.takes[a];
            let i = s.take_idxs[a] as int;
            let d = c.discards[a];
            let di = s.discard_idxs[a] as int;
            if all_consumed(c, s) {
                assert(t.take(i) =~= t);
                assert(d.take(di) =~= d);
            } else {
                assert(seat_consumed(c, s, a) || (phantom_tail(c, s, a)));
                if seat_consumed(c, s, a) {
                    assert(t.take(i) =~= t);
                    assert(d.take(di) =~= d);
                } else {
                    assert(t.take(i) =~= t.drop_last());
                    assert(t.last() == t[i]);
                    assert(d.take(di) =~= d.drop_last());
                    assert(d.last() == d[di]);
                }
            }
        }
        let sols = try_end(c, s, last);
        assert forall|i: int| 0 <= i < sols.len() implies #[trigger] sol_in_order(c, sols[i]) by {
            if i < s.solutions.len() {
                assert(sols[i] == s.solutions[i]);
            } else {
                assert(sols[i] == sol);
            }
        }
    }
}

proof fn lemma_draw_phase(c: ReplayCtx, s: ReplayState, actor: int, last: Last)
    requires
        wf_state(c, s, actor),
        ctx_ok(c),
        order_ok(c, s),
    ensures
        draw_phase(c, s, actor, last) matches Ok(sols) ==> sols_in_order(c, sols),
    decreases remaining(c, s), 0nat,
{
    if done(s) {
    } else if s.take_idxs[actor] >= c.takes[actor].len() {
        lemma_try_end(c, s, last);
    } else {
        let item = c.takes[actor][s.take_idxs[actor] as int];
        if let EventV::Tsumo { pai, .. } = item {
            lemma_next_take_remaining(c, s, actor);
            let s1 = accept_reach(next_take(s, actor));
            lemma_accept_reach(next_take(s, actor));
            let s2 = if s1.need_dora_at_tsumo {
                push_dora(c, s1)
            } else {
                Ok(s1)
            };
            lemma_push_dora(c, s1);
            if let Ok(s2) = s2 {
                let e = EventV::Tsumo { actor: actor as u8, pai };
                assert(stream_of_seat(c.takes[actor], actor as u8));
                assert(e == item);
                assert(same_takes(s.events, s2.events));
                lemma_read_take(c, s, actor, s2.events, item);
                let s3 = ReplayState {
                    need_dora_at_tsumo: false,
                    events: s2.events.push(e),
                    last_draw: s2.last_draw.update(actor, pai),
                    ..s2
                };
                lemma_discard_phase(c, s3, actor, Last::Draw(actor as usize));
            }
        }
    }
}

proof fn lemma_discard_phase(c: ReplayCtx, s: ReplayState, actor: int, end: Last)
    requires
        wf_state(c, s, actor),
        ctx_ok(c),
        order_ok(c, s),
    ensures
        discard_phase(c, s, actor, end) matches Ok(sols) ==> sols_in_order(c, sols),
    decreases remaining(c, s), 4nat,
{
    if done(s) {
    } else if s.discard_idxs[actor] >= c.discards[actor].len() {
        lemma_try_end(c, s, end);
    } else {
        let item = c.discards[actor][s.discard_idxs[actor] as int];
        lemma_next_discard_remaining(c, s, actor);
        let s1 = next_discard(s, actor);
        assert(discard_stream_of_seat(c.discards[actor], actor as u8));
        match item {
            EventV::Nukidora { .. } => {
                let s2 = if s1.need_dora_at_discard {
                    ReplayState { need_dora_at_discard: false, need_dora_at_tsumo: true, ..s1 }
                } else {
                    s1
                };
                lemma_push_discard(c, s, actor, item);
                assert(order_ok(c, push_event(s2, item)));
                lemma_draw_phase(c, push_event(s2, item), actor, Last::Discard(actor as usize));
            },
            EventV::Ankan { .. } => {
                let s2 = if s1.need_dora_at_discard {
                    match push_dora(c, s1) {
                        Ok(x) => Ok(ReplayState { need_dora_at_discard: false, ..x }),
                        Err(e) => Err(e),
                    }
                } else {
                    Ok(s1)
                };
                lemma_push_dora(c, s1);
                lemma_same_refl(s.events);
                if let Ok(s2) = s2 {
                    lemma_read_discard(c, s, actor, s2.events, item, item);
                    assert(order_ok(c, push_event(s2, item)));
                    lemma_push_dora(c, push_event(s2, item));
                    if let Ok(s3) = push_dora(c, push_event(s2, item)) {
                        lemma_same_read(
                            c,
                            push_event(s2, item).events,
                            s3.events,
                            s3.take_idxs,
                            s3.discard_idxs,
                        );
                        lemma_draw_phase(c, s3, actor, Last::Other);
                    }
                }
            },
            EventV::Kakan { .. } => {
                let s2 = if s1.need_dora_at_discard {
                    ReplayState { need_dora_at_tsumo: true, ..s1 }
                } else {
                    s1
                };
                lemma_push_discard(c, s, actor, item);
                let s3 = ReplayState { need_dora_at_discard: true, ..push_event(s2, item) };
                assert(order_ok(c, s3));
                lemma_draw_phase(c, s3, actor, Last::Discard(actor as usize));
            },
            EventV::Reach { .. } => {
                lemma_push_discard(c, s, actor, item);
                let s2 = ReplayState { reach_pending: Some(actor as u8), ..push_event(s1, item) };
                assert(order_ok(c, s2));
                if s2.discard_idxs[actor] < c.discards[actor].len() {
                    lemma_dahai(c, s2, actor, c.discards[actor][s2.discard_idxs[actor] as int]);
                }
            },
            EventV::Dahai { .. } => {
                lemma_dahai(c, s, actor, item);
            },
            _ => {},
        }
    }
}

proof fn lemma_same_refl(evs: Seq<EventV>)
    ensures
        same_takes(evs, evs),
{
    assert forall|b: u8| #[trigger] takes_of(evs, b) == takes_of(evs, b) by {}
    assert forall|b: u8| #[trigger] discards_of(evs, b) == discards_of(evs, b) by {}
}

proof fn lemma_dahai(c: ReplayCtx, s: ReplayState, actor: int, item: EventV)
    requires
        wf_state(c, s, actor),
        ctx_ok(c),
        order_ok(c, s),
        s.discard_idxs[actor] < c.discards[actor].len() ==> item == c.discards[actor][s.discard_idxs[actor] as int],
    ensures
        dahai(c, s, actor, item) matches Ok(sols) ==> sols_in_order(c, sols),
    decreases remaining(c, s), 3nat,
{
    if let EventV::Dahai { pai, tsumogiri, .. } = item {
        let pai = if tsumogiri {
            s.last_draw[actor]
        } else {
            pai
        };
        if pai@ != 37 && s.discard_idxs[actor] < c.discards[actor].len() {
            lemma_next_discard_remaining(c, s, actor);
            let s1 = next_discard(s, actor);
            let s2 = if s1.need_dora_at_discard {
                match push_dora(c, s1) {
                    Ok(x) => Ok(ReplayState { need_dora_at_discard: false, ..x }),
                    Err(e) => Err(e),
                }
            } else {
                Ok(s1)
            };
            lemma_push_dora(c, s1);
            lemma_same_refl(s.events);
            if let Ok(s2) = s2 {
                let e = EventV::Dahai { actor: actor as u8, pai, tsumogiri };
                assert(discard_stream_of_seat(c.discards[actor], actor as u8));
                assert(shape(item) == item);
                assert(shape(e) == item);
                lemma_read_discard(c, s, actor, s2.events, item, e);
                assert(order_ok(c, push_event(s2, e)));
                lemma_after_discard(c, push_event(s2, e), actor, pai);
            }
        }
    }
}

proof fn lemma_after_discard(c: ReplayCtx, s: ReplayState, actor: int, pai: Tile)
    requires
        wf_state(c, s, actor),
        ctx_ok(c),
        order_ok(c, s),
    ensures
        after_discard(c, s, actor, pai) matches Ok(sols) ==> sols_in_order(c, sols),
    decreases remaining(c, s), 2nat,
{
    let (c1, c2) = other_seats(actor);
    lemma_try_call(c, s, actor, c1, pai);
    if let Ok(sols1) = try_call(c, s, actor, c1, pai) {
        lemma_try_call(c, with_solutions(s, sols1), actor, c2, pai);
        if let Ok(sols2) = try_call(c, with_solutions(s, sols1), actor, c2, pai) {
            let s2 = with_solutions(s, sols2);
            let shimocha = (actor + 1) % 3;
            if !done(s2) {
                lemma_try_end(c, s2, Last::Discard(actor as usize));
                if s2.take_idxs[shimocha] < c.takes[shimocha].len()
                    && c.takes[shimocha][s2.take_idxs[shimocha] as int] is Tsumo {
                    let s3 = with_solutions(s2, try_end(c, s2, Last::Discard(actor as usize)));
                    lemma_draw_phase(c, s3, shimocha, Last::Discard(actor as usize));
                }
            }
        }
    }
}

proof fn lemma_try_call(c: ReplayCtx, s: ReplayState, actor: int, caller: int, pai: Tile)
    requires
        wf_state(c, s, actor),
        0 <= caller < 3,
        ctx_ok(c),
        order_ok(c, s),
    ensures
        try_call(c, s, actor, caller, pai) matches Ok(sols) ==> sols_in_order(c, sols),
    decreases remaining(c, s), 1nat,
{
    if !done(s) && s.take_idxs[caller] < c.takes[caller].len() {
        let take = c.takes[caller][s.take_idxs[caller] as int];
        if let Some((target, called)) = take.naki_info() {
            if target == actor as u8 && crate::tile::deaka_id(called@) == crate::tile::deaka_id(
                pai@,
            ) {
                assert(wf_state(c, s, caller));
                lemma_next_take_remaining(c, s, caller);
                let s1 = accept_reach(next_take(s, caller));
                lemma_accept_reach(next_take(s, caller));
                match take {
                    EventV::Pon { .. } => {
                        lemma_read_take(c, s, caller, s1.events, take);
                        assert(order_ok(c, push_event(s1, take)));
                        lemma_discard_phase(c, push_event(s1, take), caller, Last::Other);
                    },
                    EventV::Daiminkan { .. } => {
                        let s2 = if s1.need_dora_at_discard {
                            push_dora(c, s1)
                        } else {
                            Ok(s1)
                        };
                        lemma_push_dora(c, s1);
                        if let Ok(s2) = s2 {
                            assert(same_takes(s.events, s2.events));
                            lemma_read_take(c, s, caller, s2.events, take);
                            let s3 = ReplayState {
                                need_dora_at_discard: true,
                                ..push_event(s2, take)
                            };
                            let di = s3.discard_idxs[caller];
                            if di < c.discards[caller].len() {
                                lemma_next_discard_remaining(c, s3, caller);
                            }
                            assert(order_ok(c, s3));
                            let s4 = if di < c.discards[caller].len() && (
                            c.discards[caller][di as int] matches EventV::Dahai {
                                pai: p,
                                tsumogiri: false,
                                ..
                            } && p@ == 37) {
                                next_discard(s3, caller)
                            } else {
                                s3
                            };
                            if di < c.discards[caller].len() && is_placeholder(
                                c.discards[caller][di as int],
                            ) {
                                assert(wf_state(c, s3, caller));
                                lemma_skip_placeholder(c, s3, caller);
                            }
                            assert(order_ok(c, s4));
                            lemma_draw_phase(c, s4, caller, Last::Other);
                        }
                    },
                    _ => {},
                }
            }
        }
    }
}

proof fn lemma_take_item_seat(actor: u8, item: crate::tenhou::ActionItem)
    ensures
        take_item_event(actor, 3, item) matches Ok(e) ==> is_take(e) && e.actor() == Some(actor),
{
    if let crate::tenhou::ActionItem::Naki(s) = item {
        let r = naki_take_event(actor, 3, s);
        assert(r matches Ok(e) ==> is_take(e) && e.actor() == Some(actor));
    }
}

proof fn lemma_takes_seat(actor: u8, items: Seq<crate::tenhou::ActionItem>)
    ensures
        takes_to_events(actor, 3, items) matches Ok(t) ==> stream_of_seat(t, actor),
    decreases items.len(),
{
    if items.len() > 0 {
        lemma_takes_seat(actor, items.drop_last());
        lemma_take_item_seat(actor, items.last());
        if let Ok(t) = takes_to_events(actor, 3, items) {
            let p = t.drop_last();
            assert forall|i: int| 0 <= i < t.len() implies is_take(#[trigger] t[i]) && t[i].actor()
                == Some(actor) by {
                if i < t.len() - 1 {
                    assert(t[i] == p[i]);
                }
            }
        }
    }
}

pub(crate) proof fn lemma_discard_item_seat(actor: u8, item: crate::tenhou::ActionItem)
    ensures
        discard_item_events(actor, item) matches Ok(d) ==> discard_stream_of_seat(d, actor),
{
    if let Ok(d) = discard_item_events(actor, item) {
        if let crate::tenhou::ActionItem::Naki(s) = item {
            assert(naki_discard_events(actor, s) == Ok::<Seq<EventV>, crate::error::ConvertErrorV>(d));
        }
        assert forall|i: int| 0 <= i < d.len() implies is_discard(#[trigger] d[i]) && d[i].actor()
            == Some(actor) && shape(d[i]) == d[i] by {
            if let EventV::Dahai { pai, tsumogiri: true, .. } = d[i] {
                assert(pai@ == 37);
                assert(tile_from_id(pai@) == pai);
            }
        }
    }
}

proof fn lemma_discards_seat(actor: u8, items: Seq<crate::tenhou::ActionItem>)
    ensures
        discards_to_events(actor, items) matches Ok(d) ==> discard_stream_of_seat(d, actor),
    decreases items.len(),
{
    if items.len() > 0 {
        lemma_discards_seat(actor, items.drop_last());
        lemma_discard_item_seat(actor, items.last());
        if let Ok(d) = discards_to_events(actor, items) {
            if let Ok(r) = discards_to_events(actor, items.drop_last()) {
                if let Ok(m) = discard_item_events(actor, items.last()) {
                    assert(d == r + m);
                    assert forall|i: int| 0 <= i < d.len() implies is_discard(#[trigger] d[i])
                        && d[i].actor() == Some(actor) && shape(d[i]) == d[i] by {
                        if i < r.len() {
                            assert(d[i] == r[i]);
                        } else {
                            assert(d[i] == m[i - r.len()]);
                        }
                    }
                }
            }
        }
    }
}

pub(crate) proof fn lemma_seat_streams_seats(tables: Seq<ActionTableV>, n: nat)
    requires
        n <= 3,
    ensures
        seat_streams(tables, n) matches Ok((ts, ds)) ==> ts.len() == n && ds.len() == n && (
        forall|a: int| 0 <= a < n ==> #[trigger] stream_of_seat(ts[a], a as u8)) && (forall|a: int|
            0 <= a < n ==> #[trigger] discard_stream_of_seat(ds[a], a as u8)),
    decreases n,
{
    if n > 0 {
        lemma_seat_streams_seats(tables, (n - 1) as nat);
        lemma_takes_seat((n - 1) as u8, tables[n - 1].takes);
        lemma_discards_seat((n - 1) as u8, tables[n - 1].discards);
        if let Ok((ts, ds)) = seat_streams(tables, n) {
            if let Ok((ts0, ds0)) = seat_streams(tables, (n - 1) as nat) {
                assert forall|a: int| 0 <= a < n implies #[trigger] stream_of_seat(
                    ts[a],
                    a as u8,
                ) by {
                    if a < n - 1 {
                        assert(ts[a] == ts0[a]);
                    }
                }
                assert forall|a: int| 0 <= a < n implies #[trigger] discard_stream_of_seat(
                    ds[a],
                    a as u8,
                ) by {
                    if a < n - 1 {
                        assert(ds[a] == ds0[a]);
                    }
                }
            }
        }
    }
}

/// In a converted three-player kyoku, each seat draws and calls the items of its take
/// stream in their recorded order, and plays the items of its discard stream in their
/// recorded order, the placeholder after a daiminkan left out and the tile of each
/// tsumogiri aside: all of each stream, or all but a trailing draw and its tsumogiri
/// that a ron left unread.
pub proof fn lemma_sanma_streams_in_order(
    k: crate::tenhou::KyokuV,
    start: EventV,
    oya: int,
    ts: Seq<Seq<EventV>>,
    ds: Seq<Seq<EventV>>,
    evs: Seq<EventV>,
)
    requires
        0 <= oya < 3,
        start is StartKyoku,
        seat_streams(k.action_tables, 3) == Ok::<
            (Seq<Seq<EventV>>, Seq<Seq<EventV>>),
            crate::error::ConvertErrorV,
        >((ts, ds)),
        forall|a: int| 0 <= a < 3 ==> #[trigger] ts[a].len() <= usize::MAX,
        forall|a: int| 0 <= a < 3 ==> #[trigger] ds[a].len() <= usize::MAX,
        sanma_kyoku_events(k, start, oya) == Ok::<Seq<EventV>, crate::error::ConvertErrorV>(evs),
    ensures
        forall|a: int| 0 <= a < 3 ==> #[trigger] seat_takes_in_order(ts[a], evs, a as u8),
        forall|a: int| 0 <= a < 3 ==> #[trigger] seat_discards_in_order(ds[a], evs, a as u8),
{
    let c = ReplayCtx { kyoku: k, takes: ts, discards: ds };
    let s = initial_state(start);
    lemma_seat_streams_seats(k.action_tables, 3);
    assert(wf_state(c, s, oya));
    assert(ctx_ok(c));
    assert(s.events.drop_last() =~= Seq::<EventV>::empty());
    assert(s.events.last() == start);
    assert forall|a: int| 0 <= a < 3 implies #[trigger] seat_read(c, s.events, s.take_idxs, a) by {
        assert(takes_of(s.events, a as u8) =~= seq![]) by {
            reveal_with_fuel(takes_of, 2);
        }
        assert(c.takes[a].take(0) =~= seq![]);
    }
    assert forall|a: int| 0 <= a < 3 implies #[trigger] seat_discarded(c, s.events, s.discard_idxs, a) by {
        assert(discards_of(s.events, a as u8) =~= seq![]) by {
            reveal_with_fuel(discards_of, 2);
        }
        assert(c.discards[a].take(0) =~= seq![]);
        assert(played(c.discards[a].take(0)) =~= seq![]);
    }
    lemma_draw_phase(c, s, oya, Last::Other);
    crate::sanma::lemma_sanma_single_replay(k, start, oya, evs);
    let sols = draw_phase(c, s, oya, Last::Other)->Ok_0;
    assert(sanma_replays(k, start, oya) == Ok::<Sols, crate::error::ConvertErrorV>(sols));
    assert(sol_in_order(c, sols[0]));
    assert forall|a: int| 0 <= a < 3 implies #[trigger] seat_takes_in_order(ts[a], evs, a as u8) by {
        assert(seat_in_order(c, sols[0], a));
    }
    assert forall|a: int| 0 <= a < 3 implies #[trigger] seat_discards_in_order(ds[a], evs, a as u8) by {
        assert(seat_in_order(c, sols[0], a));
    }
}

} // verus!
