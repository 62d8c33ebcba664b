//! What a call in a four-player replay claims: the tile of the latest dahai before it,
//! from the seat that discarded last, which is not the caller.
use vstd::prelude::*;

use crate::event::EventV;
use crate::kyoku_end::end_events;
use crate::naki::{discard_item_events, discards_to_events, take_item_event, takes_to_events};
use crate::sanma_laws::lemma_end_events;
use crate::sanma_order::is_discard;
use crate::tenhou::ActionTableV;
use crate::tile::{group_tile_ids, tile_from_id, Tile};
use crate::yonma::{
    finalize, lemma_y_step, naki_mismatch, record_discard, y_after_discard, y_after_take,
    choice_states, choices_code, y_choose, y_dora, y_init, y_remaining, y_retry, y_run, y_step,
    y_wf, yonma_kyoku_events, yonma_seat_streams, yonma_streams, YCtx, YState, YStep,
};

verus! {

broadcast use group_tile_ids;

/// A chi, pon or daiminkan.
pub open spec fn is_call(e: EventV) -> bool {
    e is Chi || e is Pon || e is Daiminkan
}

/// The tile of the latest dahai in `evs`, or the unknown tile when there is none.
pub open spec fn latest_dahai_tile(evs: Seq<EventV>) -> Tile
    decreases evs.len(),
{
    if evs.len() == 0 {
        tile_from_id(37)
    } else if evs.last() is Dahai {
        evs.last()->Dahai_pai
    } else {
        latest_dahai_tile(evs.drop_last())
    }
}

/// A dahai, a riichi or a nukidora: a discard that others may answer.
pub open spec fn is_turn_discard(e: EventV) -> bool {
    e is Dahai || e is Reach || e is Nukidora
}

/// The seat of the latest dahai, riichi or nukidora in `evs`, if any.
pub open spec fn latest_discarder(evs: Seq<EventV>) -> Option<u8>
    decreases evs.len(),
{
    if evs.len() == 0 {
        None
    } else if is_turn_discard(evs.last()) {
        evs.last().actor()
    } else {
        latest_discarder(evs.drop_last())
    }
}

/// The call `e`, after the events `before`, claims the tile of the latest dahai, from the
/// seat that discarded last, which is not its caller.
pub open spec fn claims_latest(before: Seq<EventV>, e: EventV) -> bool {
    &&& e.naki_info() matches Some((target, pai))
    &&& pai == latest_dahai_tile(before)
    &&& latest_discarder(before) matches Some(x) ==> target == x && e.actor() != Some(x)
}

/// Every call in `evs` claims the tile of the latest dahai before it, from the seat that
/// discarded last, which is not its caller.
pub open spec fn calls_claim_latest(evs: Seq<EventV>) -> bool {
    forall|i: int|
        0 <= i < evs.len() && is_call(#[trigger] evs[i]) ==> claims_latest(evs.take(i), evs[i])
}

/// Neither a discard nor a call.
pub open spec fn plain(e: EventV) -> bool {
    !is_discard(e) && !is_call(e)
}

/// The take stream of seat `a`: draws and calls by `a`.
pub open spec fn y_take_seat(t: Seq<EventV>, a: u8) -> bool {
    forall|i: int|
        0 <= i < t.len() ==> (#[trigger] t[i] is Tsumo || is_call(t[i])) && t[i].actor() == Some(a)
}

/// The discard stream of seat `a`: discards, kans, nukidora and riichi by `a`.
pub open spec fn y_discard_seat(d: Seq<EventV>, a: u8) -> bool {
    forall|i: int| 0 <= i < d.len() ==> is_discard(#[trigger] d[i]) && d[i].actor() == Some(a)
}

pub open spec fn y_ctx_seats(c: YCtx) -> bool {
    &&& forall|a: int| 0 <= a < 4 ==> #[trigger] y_take_seat(c.takes[a], a as u8)
    &&& forall|a: int| 0 <= a < 4 ==> #[trigger] y_discard_seat(c.discards[a], a as u8)
}

/// The state remembers the latest dahai tile and the last discarder of its events, and
/// every call so far claimed as it should.
pub open spec fn y_calls_ok(st: YState) -> bool {
    &&& st.last_discard == latest_dahai_tile(st.events)
    &&& st.last_actor == latest_discarder(st.events)
    &&& calls_claim_latest(st.events)
}

pub open spec fn y_step_calls(r: YStep) -> bool {
    match r {
        YStep::Continue(s2) => y_calls_ok(s2),
        YStep::Done(s2) => calls_claim_latest(s2.events),
        YStep::Fail(_) => true,
    }
}

proof fn lemma_push(evs: Seq<EventV>, e: EventV)
    requires
        calls_claim_latest(evs),
        is_call(e) ==> claims_latest(evs, e),
    ensures
        calls_claim_latest(evs.push(e)),
        latest_dahai_tile(evs.push(e)) == if e is Dahai {
            e->Dahai_pai
        } else {
            latest_dahai_tile(evs)
        },
        latest_discarder(evs.push(e)) == if is_turn_discard(e) {
            e.actor()
        } else {
            latest_discarder(evs)
        },
{
    let all = evs.push(e);
    assert(all.drop_last() =~= evs);
    assert forall|i: int| 0 <= i < all.len() && is_call(#[trigger] all[i]) implies claims_latest(
        all.take(i),
        all[i],
    ) by {
        if i < evs.len() {
            assert(all.take(i) =~= evs.take(i));
            assert(all[i] == evs[i]);
        } else {
            assert(all.take(i) =~= evs);
        }
    }
}

proof fn lemma_concat_plain(evs: Seq<EventV>, m: Seq<EventV>)
    requires
        calls_claim_latest(evs),
        forall|j: int| 0 <= j < m.len() ==> plain(#[trigger] m[j]),
    ensures
        calls_claim_latest(evs + m),
    decreases m.len(),
{
    if m.len() == 0 {
        assert(evs + m =~= evs);
    } else {
        let p = m.drop_last();
        assert forall|j: int| 0 <= j < p.len() implies plain(#[trigger] p[j]) by {
            assert(p[j] == m[j]);
        }
        lemma_concat_plain(evs, p);
        assert(evs + m =~= (evs + p).push(m.last()));
        assert(plain(m[m.len() - 1]));
        lemma_push(evs + p, m.last());
    }
}

proof fn lemma_finish(c: YCtx, st: YState)
    requires
        calls_claim_latest(st.events),
    ensures
        calls_claim_latest(st.events + end_events(c.kyoku)),
{
    lemma_end_events(c.kyoku);
    let tail = end_events(c.kyoku);
    assert forall|j: int| 0 <= j < tail.len() implies plain(#[trigger] tail[j]) by {}
    lemma_concat_plain(st.events, tail);
}

proof fn lemma_dora(c: YCtx, st: YState)
    requires
        y_calls_ok(st),
    ensures
        y_dora(c, st) matches Ok(x) ==> y_calls_ok(x),
{
    if st.dora_idx < c.kyoku.dora_indicators.len() {
        lemma_push(
            st.events,
            EventV::Dora { dora_marker: c.kyoku.dora_indicators[st.dora_idx as int] },
        );
    }
}

/// After the discard `d` by the player on turn: the events remember the latest dahai
/// tile; the last discarder is the player on turn unless `d` is a kan, which leaves it.
proof fn lemma_choose(c: YCtx, st: YState, d: EventV)
    requires
        calls_claim_latest(st.events),
        st.last_discard == latest_dahai_tile(st.events),
        (d is Ankan || d is Kakan) ==> st.last_actor == latest_discarder(st.events),
        !(d is Ankan || d is Kakan) ==> latest_discarder(st.events) == Some(st.actor as u8),
    ensures
        y_step_calls(y_choose(c, st, d)),
{
    lemma_finish(c, st);
    if d is Ankan {
        lemma_dora(c, st);
    }
}

proof fn lemma_after_discard(c: YCtx, st: YState, d: EventV)
    requires
        y_wf(c, st),
        y_ctx_seats(c),
        calls_claim_latest(st.events),
        st.last_discard == latest_dahai_tile(st.events),
        is_discard(d),
        d.actor() == Some(st.actor as u8),
        (d is Ankan || d is Kakan) ==> st.last_actor == latest_discarder(st.events),
        !(d is Ankan || d is Kakan) ==> latest_discarder(st.events) == Some(st.actor as u8),
    ensures
        y_step_calls(y_after_discard(c, st, d)),
{
    let a = st.actor as int;
    if d is Reach {
        let st1 = YState { reach_flag: Some(a as usize), ..st };
        if st1.discard_idxs[a] < c.discards[a].len() {
            let dh = c.discards[a][st1.discard_idxs[a] as int];
            assert(y_discard_seat(c.discards[a], a as u8));
            let st2 = record_discard(
                YState {
                    discard_idxs: st1.discard_idxs.update(a, (st1.discard_idxs[a] + 1) as usize),
                    ..st1
                },
                dh,
            );
            lemma_push(st2.events, dh);
            lemma_choose(c, YState { events: st2.events.push(dh), ..st2 }, d);
        }
    } else {
        lemma_choose(c, st, d);
    }
}

proof fn lemma_after_take(c: YCtx, st: YState)
    requires
        y_wf(c, st),
        y_ctx_seats(c),
        y_calls_ok(st),
    ensures
        y_step_calls(y_after_take(c, st)),
{
    let a = st.actor as int;
    lemma_finish(c, st);
    if st.discard_idxs[a] < c.discards[a].len() {
        let d = c.discards[a][st.discard_idxs[a] as int];
        assert(y_discard_seat(c.discards[a], a as u8));
        let st1 = record_discard(
            YState {
                discard_idxs: st.discard_idxs.update(a, (st.discard_idxs[a] + 1) as usize),
                ..st
            },
            d,
        );
        let pre = YState { last_discard: st.last_discard, ..st1 };
        assert(y_calls_ok(pre));
        lemma_dora(c, pre);
        let st2 = if st1.need_dora_at_discard {
            if d is Dahai || d is Ankan {
                match y_dora(c, st1) {
                    Ok(x) => Ok(YState { need_dora_at_discard: false, ..x }),
                    Err(e) => Err(e),
                }
            } else if d is Kakan {
                Ok(YState { need_dora_at_tsumo: true, ..st1 })
            } else {
                Ok(st1)
            }
        } else {
            Ok(st1)
        };
        if let Ok(st2) = st2 {
            assert(calls_claim_latest(st2.events));
            assert(latest_dahai_tile(st2.events) == latest_dahai_tile(st.events));
            assert(latest_discarder(st2.events) == latest_discarder(st.events));
            lemma_push(st2.events, d);
            lemma_after_discard(c, YState { events: st2.events.push(d), ..st2 }, d);
        }
    }
}

proof fn lemma_step(c: YCtx, st: YState)
    requires
        y_wf(c, st),
        y_ctx_seats(c),
        y_calls_ok(st),
    ensures
        y_step_calls(y_step(c, st)),
{
    let a = st.actor as int;
    if st.take_idxs[a] < c.takes[a].len() {
        let take = c.takes[a][st.take_idxs[a] as int];
        assert(y_take_seat(c.takes[a], a as u8));
        let st1 = YState {
            take_idxs: st.take_idxs.update(a, (st.take_idxs[a] + 1) as usize),
            ..st
        };
        if !naki_mismatch(take, st) {
            let st2 = match st1.reach_flag {
                Some(r) => YState {
                    reach_flag: None,
                    events: st1.events.push(EventV::ReachAccepted { actor: r as u8 }),
                    ..st1
                },
                None => st1,
            };
            if let Some(r) = st1.reach_flag {
                lemma_push(st1.events, EventV::ReachAccepted { actor: r as u8 });
            }
            assert(y_calls_ok(st2));
            lemma_dora(c, st2);
            if take is Daiminkan {
                let st3 = if st2.need_dora_at_discard {
                    y_dora(c, st2)
                } else {
                    Ok(st2)
                };
                if let Ok(st3) = st3 {
                    assert(claims_latest(st3.events, take));
                    lemma_push(st3.events, take);
                }
            } else {
                let st3 = if take is Tsumo && st2.need_dora_at_tsumo {
                    match y_dora(c, st2) {
                        Ok(x) => Ok(YState { need_dora_at_tsumo: false, ..x }),
                        Err(e) => Err(e),
                    }
                } else {
                    Ok(st2)
                };
                if let Ok(st3) = st3 {
                    assert(y_calls_ok(st3));
                    assert(is_call(take) ==> claims_latest(st3.events, take));
                    lemma_push(st3.events, take);
                    lemma_after_take(c, YState { events: st3.events.push(take), ..st3 });
                }
            }
        }
    }
}

proof fn lemma_run(c: YCtx, st: YState)
    requires
        y_wf(c, st),
        y_ctx_seats(c),
        y_calls_ok(st),
    ensures
        y_run(c, st).0 matches Ok(evs) ==> calls_claim_latest(evs),
    decreases y_remaining(c, st),
{
    reveal(y_run);
    lemma_y_step(c, st);
    lemma_step(c, st);
    if let YStep::Continue(s2) = y_step(c, st) {
        lemma_run(c, s2);
    }
}

proof fn lemma_retry(
    c: YCtx,
    start: EventV,
    oya: usize,
    bt: Map<u8, i32>,
    first: crate::error::ConvertErrorV,
    seen: Set<int>,
)
    requires
        y_wf(c, y_init(c, start, oya, bt)),
        y_ctx_seats(c),
        start is StartKyoku,
    ensures
        y_retry(c, start, oya, bt, first, seen) matches Ok(evs) ==> calls_claim_latest(evs),
    decreases choice_states() - seen.len(),
{
    if !(seen.contains(choices_code(bt)) || !seen.finite() || seen.len() >= choice_states()) {
        let st = y_init(c, start, oya, bt);
        lemma_init(c, start, oya, bt);
        lemma_run(c, st);
        let (r, bt2) = y_run(c, st);
        if r is Err && !bt2.is_empty() {
            assert(y_wf(c, y_init(c, start, oya, bt2)));
            lemma_retry(c, start, oya, bt2, first, seen.insert(choices_code(bt)));
        }
    }
}

proof fn lemma_init(c: YCtx, start: EventV, oya: usize, bt: Map<u8, i32>)
    requires
        start is StartKyoku,
    ensures
        y_calls_ok(y_init(c, start, oya, bt)),
{
    let st = y_init(c, start, oya, bt);
    let e0: Seq<EventV> = seq![];
    assert(st.events =~= e0.push(start));
    lemma_push(e0, start);
}

proof fn lemma_take_item_seat(actor: u8, item: crate::tenhou::ActionItem)
    ensures
        take_item_event(actor, 4, item) matches Ok(e) ==> (e is Tsumo || is_call(e)) && e.actor()
            == Some(actor),
{
}

proof fn lemma_takes_seat(actor: u8, items: Seq<crate::tenhou::ActionItem>)
    ensures
        takes_to_events(actor, 4, items) matches Ok(t) ==> y_take_seat(t, actor),
    decreases items.len(),
{
    if items.len() > 0 {
        lemma_takes_seat(actor, items.drop_last());
        lemma_take_item_seat(actor, items.last());
        if let Ok(t) = takes_to_events(actor, 4, items) {
            let p = t.drop_last();
            assert forall|i: int| 0 <= i < t.len() implies (#[trigger] t[i] is Tsumo || is_call(t[i]))
                && t[i].actor() == Some(actor) by {
                if i < t.len() - 1 {
                    assert(t[i] == p[i]);
                }
            }
        }
    }
}

proof fn lemma_discards_seat(actor: u8, items: Seq<crate::tenhou::ActionItem>)
    ensures
        discards_to_events(actor, items) matches Ok(d) ==> y_discard_seat(d, actor),
    decreases items.len(),
{
    if items.len() > 0 {
        lemma_discards_seat(actor, items.drop_last());
        crate::sanma_order::lemma_discard_item_seat(actor, items.last());
        if let Ok(d) = discards_to_events(actor, items) {
            let r = discards_to_events(actor, items.drop_last())->Ok_0;
            let m = discard_item_events(actor, items.last())->Ok_0;
            assert(d == r + m);
            assert(crate::sanma_order::discard_stream_of_seat(m, actor));
            assert forall|i: int| 0 <= i < d.len() implies is_discard(#[trigger] d[i]) && d[i].actor()
                == Some(actor) by {
                if i < r.len() {
                    assert(d[i] == r[i]);
                } else {
                    assert(d[i] == m[i - r.len()]);
                    assert(is_discard(m[i - r.len()]));
                }
            }
        }
    }
}

proof fn lemma_finalize_seat(takes: Seq<EventV>, ds: Seq<EventV>, t: nat, di: nat, actor: u8)
    requires
        y_discard_seat(ds, actor),
    ensures
        y_discard_seat(finalize(takes, ds, t, di), actor),
    decreases takes.len() - t,
{
    if t < takes.len() && di < ds.len() {
        let di1 = if ds[di as int] is Reach {
            di + 1
        } else {
            di
        };
        if di1 < ds.len() {
            match ds[di1 as int] {
                EventV::Dahai { pai, tsumogiri, actor: x } => {
                    if tsumogiri {
                        let ds2 = match takes[t as int] {
                            EventV::Tsumo { pai: tsumo, .. } => ds.update(
                                di1 as int,
                                EventV::Dahai { pai: tsumo, tsumogiri, actor: x },
                            ),
                            _ => ds,
                        };
                        assert forall|i: int| 0 <= i < ds2.len() implies is_discard(#[trigger] ds2[i])
                            && ds2[i].actor() == Some(actor) by {
                            assert(ds[di1 as int].actor() == Some(actor));
                            assert(i == di1 || ds2[i] == ds[i]);
                        }
                        lemma_finalize_seat(takes, ds2, t + 1, di1 + 1, actor);
                    } else if pai@ == 37 {
                        let ds2 = ds.remove(di1 as int);
                        assert forall|i: int| 0 <= i < ds2.len() implies is_discard(#[trigger] ds2[i])
                            && ds2[i].actor() == Some(actor) by {
                            if i < di1 {
                                assert(ds2[i] == ds[i]);
                            } else {
                                assert(ds2[i] == ds[i + 1]);
                            }
                        }
                        lemma_finalize_seat(takes, ds2, t + 1, di1, actor);
                    } else {
                        lemma_finalize_seat(takes, ds, t + 1, di1 + 1, actor);
                    }
                },
                _ => {
                    lemma_finalize_seat(takes, ds, t + 1, di1 + 1, actor);
                },
            }
        }
    }
}

pub(crate) proof fn lemma_streams_seats(tables: Seq<ActionTableV>, n: nat)
    requires
        n <= 4,
    ensures
        yonma_streams(tables, n) matches Ok((ts, ds)) ==> ts.len() == n && ds.len() == n && (
        forall|a: int| 0 <= a < n ==> #[trigger] y_take_seat(ts[a], a as u8)) && (forall|a: int|
            0 <= a < n ==> #[trigger] y_discard_seat(ds[a], a as u8)),
    decreases n,
{
    if n > 0 {
        let m = (n - 1) as nat;
        lemma_streams_seats(tables, m);
        lemma_takes_seat(m as u8, tables[m as int].takes);
        lemma_discards_seat(m as u8, tables[m as int].discards);
        if let Ok((ts, ds)) = yonma_streams(tables, n) {
            let prev = yonma_streams(tables, m)->Ok_0;
            let t = takes_to_events(m as u8, 4, tables[m as int].takes)->Ok_0;
            let d = discards_to_events(m as u8, tables[m as int].discards)->Ok_0;
            lemma_finalize_seat(t, d, 0, 0, m as u8);
            assert(yonma_seat_streams(m as u8, tables[m as int].takes, tables[m as int].discards)
                == Ok::<(Seq<EventV>, Seq<EventV>), crate::error::ConvertErrorV>(
                (t, finalize(t, d, 0, 0)),
            ));
            assert forall|a: int| 0 <= a < n implies #[trigger] y_take_seat(ts[a], a as u8) by {
                if a < m {
                    assert(ts[a] == prev.0[a]);
                }
            }
            assert forall|a: int| 0 <= a < n implies #[trigger] y_discard_seat(ds[a], a as u8) by {
                if a < m {
                    assert(ds[a] == prev.1[a]);
                }
            }
        }
    }
}

/// In a converted four-player kyoku, every call claims the tile of the latest dahai
/// before it, from the seat whose dahai, riichi or nukidora came last, and that seat is
/// not the caller.
pub proof fn lemma_yonma_calls_claim_latest_discard(
    k: crate::tenhou::KyokuV,
    start: EventV,
    oya: usize,
    evs: Seq<EventV>,
)
    requires
        oya < 4,
        start is StartKyoku,
        yonma_streams(k.action_tables, 4) matches Ok((ts, ds)) && (forall|a: int|
            0 <= a < 4 ==> #[trigger] ts[a].len() <= usize::MAX) && (forall|a: int|
            0 <= a < 4 ==> #[trigger] ds[a].len() <= usize::MAX),
        yonma_kyoku_events(k, start, oya) == Ok::<Seq<EventV>, crate::error::ConvertErrorV>(evs),
    ensures
        calls_claim_latest(evs),
{
    let (ts, ds) = yonma_streams(k.action_tables, 4)->Ok_0;
    let c = YCtx { kyoku: k, takes: ts, discards: ds };
    lemma_streams_seats(k.action_tables, 4);
    assert(y_ctx_seats(c));
    let st = y_init(c, start, oya, Map::empty());
    assert(y_wf(c, st));
    lemma_init(c, start, oya, Map::empty());
    lemma_run(c, st);
    let (r, bt) = y_run(c, st);
    if r is Err && !bt.is_empty() {
        assert(y_wf(c, y_init(c, start, oya, bt)));
        lemma_retry(c, start, oya, bt, r->Err_0, Set::empty());
    }
}

} // verus!
