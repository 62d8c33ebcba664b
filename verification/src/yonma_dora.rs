//! Kan dora in a four-player replay: an ankan reveals the next dora indicator at once,
//! and the dora events reveal the recorded indicators after the first, in order.
use vstd::prelude::*;

use crate::event::EventV;
use crate::kyoku_end::end_events;
use crate::sanma_laws::{dora_markers, lemma_end_events};
use crate::sanma_order::is_discard;
use crate::tenhou::ActionTableV;
use crate::tile::Tile;
use crate::yonma::{
    choice_states, choices_code, finalize, followed_at, lemma_reach_followed_remove,
    lemma_reach_followed_update, lemma_y_step, reach_followed, record_discard, y_after_discard,
    y_after_take, y_choose, y_dora, y_init, y_remaining, y_retry, y_run, y_step, y_wf,
    yonma_kyoku_events, yonma_seat_streams, yonma_streams, YCtx, YState, YStep,
};
use crate::yonma_calls::{is_call, lemma_streams_seats, y_ctx_seats};

verus! {

/// An event that may follow an ankan: the dora it reveals, or the end of the kyoku.
pub open spec fn after_ankan(e: EventV) -> bool {
    e is Dora || e is Hora || e is Ryukyoku || e is EndKyoku
}

/// Every ankan in `evs` is directly followed by a dora event or by the end of the kyoku.
pub open spec fn ankans_reveal(evs: Seq<EventV>) -> bool {
    forall|i: int|
        0 <= i < evs.len() && (#[trigger] evs[i]) is Ankan ==> i + 1 < evs.len() && after_ankan(
            evs[i + 1],
        )
}

/// Every ankan of `evs` but a last one is directly followed by a dora event or by the end
/// of the kyoku.
pub open spec fn ankans_reveal_but_last(evs: Seq<EventV>) -> bool {
    forall|i: int|
        0 <= i < evs.len() - 1 && (#[trigger] evs[i]) is Ankan ==> after_ankan(evs[i + 1])
}

/// The dora events of `evs` reveal the indicators after the first, in order, up to `n`.
pub open spec fn dora_revealed(evs: Seq<EventV>, ind: Seq<Tile>, n: usize) -> bool {
    &&& 1 <= n <= ind.len() <= usize::MAX
    &&& dora_markers(evs) == ind.subrange(1, n as int)
}

pub open spec fn y_dora_ok(c: YCtx, st: YState) -> bool {
    &&& st.events.len() >= 1
    &&& !(st.events.last() is Ankan)
    &&& ankans_reveal_but_last(st.events)
    &&& dora_revealed(st.events, c.kyoku.dora_indicators, st.dora_idx)
}

pub open spec fn y_step_dora(c: YCtx, r: YStep) -> bool {
    match r {
        YStep::Continue(s2) => y_dora_ok(c, s2),
        YStep::Done(s2) => ankans_reveal(s2.events) && dora_markers(s2.events).len() + 1
            <= c.kyoku.dora_indicators.len() && dora_markers(s2.events)
            == c.kyoku.dora_indicators.subrange(1, dora_markers(s2.events).len() + 1int),
        YStep::Fail(_) => true,
    }
}

proof fn lemma_push(evs: Seq<EventV>, e: EventV)
    requires
        evs.len() >= 1,
        ankans_reveal_but_last(evs),
        evs.last() is Ankan ==> after_ankan(e),
    ensures
        ankans_reveal_but_last(evs.push(e)),
        dora_markers(evs.push(e)) == if e is Dora {
            dora_markers(evs).push(e->Dora_dora_marker)
        } else {
            dora_markers(evs)
        },
{
    let all = evs.push(e);
    assert(all.drop_last() =~= evs);
    assert forall|i: int| 0 <= i < all.len() - 1 && (#[trigger] all[i]) is Ankan implies after_ankan(
        all[i + 1],
    ) by {
        if i < evs.len() - 1 {
            assert(all[i] == evs[i] && all[i + 1] == evs[i + 1]);
        } else {
            assert(all[i] == evs.last());
        }
    }
}

/// A stream event: neither a dora nor an end of the kyoku.
pub open spec fn stream_item(e: EventV) -> bool {
    !(e is Dora) && !after_ankan(e)
}

proof fn lemma_stream_items(c: YCtx, a: int, i: int)
    requires
        y_ctx_seats(c),
        0 <= a < 4,
    ensures
        0 <= i < c.takes[a].len() ==> stream_item(c.takes[a][i]) && !(c.takes[a][i] is Ankan),
        0 <= i < c.discards[a].len() ==> stream_item(c.discards[a][i]) && is_discard(c.discards[a][i]),
{
    assert(crate::yonma_calls::y_take_seat(c.takes[a], a as u8));
    assert(crate::yonma_calls::y_discard_seat(c.discards[a], a as u8));
}

proof fn lemma_dora(c: YCtx, st: YState)
    requires
        st.events.len() >= 1,
        ankans_reveal_but_last(st.events),
        dora_revealed(st.events, c.kyoku.dora_indicators, st.dora_idx),
    ensures
        y_dora(c, st) matches Ok(x) ==> x.events.len() >= 1 && !(x.events.last() is Ankan)
            && ankans_reveal_but_last(x.events) && dora_revealed(
            x.events,
            c.kyoku.dora_indicators,
            x.dora_idx,
        ),
{
    if st.dora_idx < c.kyoku.dora_indicators.len() {
        let ind = c.kyoku.dora_indicators;
        let e = EventV::Dora { dora_marker: ind[st.dora_idx as int] };
        lemma_push(st.events, e);
        let x = y_dora(c, st)->Ok_0;
        assert(x.events == st.events.push(e));
        assert(x.dora_idx == st.dora_idx + 1);
        assert(dora_markers(st.events.push(e)) =~= ind.subrange(1, st.dora_idx + 1));
        assert(x.events.last() == e);
    }
}

proof fn lemma_finish(c: YCtx, st: YState)
    requires
        st.events.len() >= 1,
        ankans_reveal_but_last(st.events),
        dora_revealed(st.events, c.kyoku.dora_indicators, st.dora_idx),
    ensures
        y_step_dora(c, YStep::Done(YState { events: st.events + end_events(c.kyoku), ..st })),
{
    lemma_end_events(c.kyoku);
    let tail = end_events(c.kyoku);
    let all = st.events + tail;
    assert forall|j: int| 0 <= j < tail.len() implies after_ankan(#[trigger] tail[j]) && !(
    tail[j] is Dora) && !(tail[j] is Ankan) by {}
    lemma_concat(st.events, tail);
    assert forall|i: int| 0 <= i < all.len() && (#[trigger] all[i]) is Ankan implies i + 1
        < all.len() && after_ankan(all[i + 1]) by {
        if i >= st.events.len() {
            assert(all[i] == tail[i - st.events.len()]);
        } else if i == st.events.len() - 1 {
            assert(all[i + 1] == tail[0]);
        } else {
            assert(all[i] == st.events[i] && all[i + 1] == st.events[i + 1]);
        }
    }
}

proof fn lemma_concat(evs: Seq<EventV>, m: Seq<EventV>)
    requires
        evs.len() >= 1,
        forall|j: int| 0 <= j < m.len() ==> !((#[trigger] m[j]) is Dora) && !(m[j] is Ankan),
    ensures
        dora_markers(evs + m) == dora_markers(evs),
    decreases m.len(),
{
    if m.len() == 0 {
        assert(evs + m =~= evs);
    } else {
        let p = m.drop_last();
        assert forall|j: int| 0 <= j < p.len() implies !((#[trigger] p[j]) is Dora) && !(
        p[j] is Ankan) by {
            assert(p[j] == m[j]);
        }
        lemma_concat(evs, p);
        assert((evs + m).drop_last() =~= evs + p);
        assert((evs + m).last() == m[m.len() - 1]);
    }
}

proof fn lemma_choose(c: YCtx, st: YState, d: EventV)
    requires
        st.events.len() >= 1,
        ankans_reveal_but_last(st.events),
        dora_revealed(st.events, c.kyoku.dora_indicators, st.dora_idx),
        st.events.last() is Ankan ==> d is Ankan,
    ensures
        y_step_dora(c, y_choose(c, st, d)),
{
    lemma_finish(c, st);
    if d is Ankan {
        lemma_dora(c, st);
    }
}

proof fn lemma_after_take(c: YCtx, st: YState)
    requires
        y_wf(c, st),
        y_ctx_seats(c),
        forall|a: int| 0 <= a < 4 ==> #[trigger] reach_followed(c.discards[a]),
        y_dora_ok(c, st),
    ensures
        y_step_dora(c, y_after_take(c, st)),
{
    let a = st.actor as int;
    lemma_finish(c, st);
    if st.discard_idxs[a] < c.discards[a].len() {
        let d = c.discards[a][st.discard_idxs[a] as int];
        lemma_stream_items(c, a, st.discard_idxs[a] as int);
        let st1 = record_discard(
            YState {
                discard_idxs: st.discard_idxs.update(a, (st.discard_idxs[a] + 1) as usize),
                ..st
            },
            d,
        );
        lemma_dora(c, st1);
        let st2 = if st1.need_dora_at_discard {
            if d is Dahai || d is Ankan {
                match y_dora(c, st1) {
                    Ok(x) => Ok(YState { need_dora_at_discard: false, ..x }),
                    Err(e) => Err(e),
                }
            } else if d is Kakan {
                Ok(YState { need_dora_at_tsumo: true, ..st1 })
            } else {
                Ok(st1)
            }
        } else {
            Ok(st1)
        };
        if let Ok(st2) = st2 {
            lemma_push(st2.events, d);
            let st3 = YState { events: st2.events.push(d), ..st2 };
            if d is Reach {
                let st4 = YState { reach_flag: Some(a as usize), ..st3 };
                if st4.discard_idxs[a] < c.discards[a].len() {
                    let i = st4.discard_idxs[a] as int;
                    let dh = c.discards[a][i];
                    assert(reach_followed(c.discards[a]));
                    assert(followed_at(c.discards[a], i - 1));
                    assert(dh is Dahai);
                    let st5 = record_discard(
                        YState {
                            discard_idxs: st4.discard_idxs.update(
                                a,
                                (st4.discard_idxs[a] + 1) as usize,
                            ),
                            ..st4
                        },
                        dh,
                    );
                    lemma_push(st5.events, dh);
                    lemma_choose(c, YState { events: st5.events.push(dh), ..st5 }, d);
                }
            } else {
                lemma_choose(c, st3, d);
            }
        }
    }
}

proof fn lemma_step(c: YCtx, st: YState)
    requires
        y_wf(c, st),
        y_ctx_seats(c),
        forall|a: int| 0 <= a < 4 ==> #[trigger] reach_followed(c.discards[a]),
        y_dora_ok(c, st),
    ensures
        y_step_dora(c, y_step(c, st)),
{
    let a = st.actor as int;
    if st.take_idxs[a] < c.takes[a].len() {
        let take = c.takes[a][st.take_idxs[a] as int];
        lemma_stream_items(c, a, st.take_idxs[a] as int);
        let st1 = YState {
            take_idxs: st.take_idxs.update(a, (st.take_idxs[a] + 1) as usize),
            ..st
        };
        let st2 = match st1.reach_flag {
            Some(r) => YState {
                reach_flag: None,
                events: st1.events.push(EventV::ReachAccepted { actor: r as u8 }),
                ..st1
            },
            None => st1,
        };
        if let Some(r) = st1.reach_flag {
            lemma_push(st1.events, EventV::ReachAccepted { actor: r as u8 });
        }
        assert(y_dora_ok(c, st2));
        lemma_dora(c, st2);
        if take is Daiminkan {
            let st3 = if st2.need_dora_at_discard {
                y_dora(c, st2)
            } else {
                Ok(st2)
            };
            if let Ok(st3) = st3 {
                lemma_push(st3.events, take);
            }
        } else {
            let st3 = if take is Tsumo && st2.need_dora_at_tsumo {
                match y_dora(c, st2) {
                    Ok(x) => Ok(YState { need_dora_at_tsumo: false, ..x }),
                    Err(e) => Err(e),
                }
            } else {
                Ok(st2)
            };
            if let Ok(st3) = st3 {
                lemma_push(st3.events, take);
                lemma_after_take(c, YState { events: st3.events.push(take), ..st3 });
            }
        }
    }
}

proof fn lemma_run(c: YCtx, st: YState)
    requires
        y_wf(c, st),
        y_ctx_seats(c),
        forall|a: int| 0 <= a < 4 ==> #[trigger] reach_followed(c.discards[a]),
        y_dora_ok(c, st),
    ensures
        y_run(c, st).0 matches Ok(evs) ==> ankans_reveal(evs) && dora_markers(evs).len() + 1
            <= c.kyoku.dora_indicators.len() && dora_markers(evs)
            == c.kyoku.dora_indicators.subrange(1, dora_markers(evs).len() + 1int),
    decreases y_remaining(c, st),
{
    reveal(y_run);
    lemma_y_step(c, st);
    lemma_step(c, st);
    if let YStep::Continue(s2) = y_step(c, st) {
        lemma_run(c, s2);
    }
}

proof fn lemma_init(c: YCtx, start: EventV, oya: usize, bt: Map<u8, i32>)
    requires
        start is StartKyoku,
        1 <= c.kyoku.dora_indicators.len() <= usize::MAX,
    ensures
        y_dora_ok(c, y_init(c, start, oya, bt)),
{
    let st = y_init(c, start, oya, bt);
    let e0: Seq<EventV> = seq![];
    assert(st.events =~= e0.push(start));
    assert(e0.push(start).drop_last() =~= e0);
    assert(dora_markers(st.events) =~= c.kyoku.dora_indicators.subrange(1, 1)) by {
        reveal_with_fuel(dora_markers, 2);
    }
}

proof fn lemma_retry(
    c: YCtx,
    start: EventV,
    oya: usize,
    bt: Map<u8, i32>,
    first: crate::error::ConvertErrorV,
    seen: Set<int>,
)
    requires
        y_wf(c, y_init(c, start, oya, bt)),
        y_ctx_seats(c),
        forall|a: int| 0 <= a < 4 ==> #[trigger] reach_followed(c.discards[a]),
        start is StartKyoku,
        1 <= c.kyoku.dora_indicators.len() <= usize::MAX,
    ensures
        y_retry(c, start, oya, bt, first, seen) matches Ok(evs) ==> ankans_reveal(evs)
            && dora_markers(evs).len() + 1 <= c.kyoku.dora_indicators.len() && dora_markers(evs)
            == c.kyoku.dora_indicators.subrange(1, dora_markers(evs).len() + 1int),
    decreases choice_states() - seen.len(),
{
    if !(seen.contains(choices_code(bt)) || !seen.finite() || seen.len() >= choice_states()) {
        let st = y_init(c, start, oya, bt);
        lemma_init(c, start, oya, bt);
        lemma_run(c, st);
        let (r, bt2) = y_run(c, st);
        if r is Err && !bt2.is_empty() {
            assert(y_wf(c, y_init(c, start, oya, bt2)));
            lemma_retry(c, start, oya, bt2, first, seen.insert(choices_code(bt)));
        }
    }
}

proof fn lemma_finalize_reach_followed(takes: Seq<EventV>, ds: Seq<EventV>, t: nat, di: nat)
    requires
        reach_followed(ds),
    ensures
        reach_followed(finalize(takes, ds, t, di)),
    decreases takes.len() - t,
{
    if t < takes.len() && di < ds.len() {
        let di1 = if ds[di as int] is Reach {
            di + 1
        } else {
            di
        };
        if di1 < ds.len() {
            match ds[di1 as int] {
                EventV::Dahai { pai, tsumogiri, actor } => {
                    if tsumogiri {
                        match takes[t as int] {
                            EventV::Tsumo { pai: tsumo, .. } => {
                                lemma_reach_followed_update(
                                    ds,
                                    di1 as int,
                                    EventV::Dahai { pai: tsumo, tsumogiri, actor },
                                );
                                lemma_finalize_reach_followed(
                                    takes,
                                    ds.update(di1 as int, EventV::Dahai { pai: tsumo, tsumogiri, actor }),
                                    t + 1,
                                    di1 + 1,
                                );
                            },
                            _ => {
                                lemma_finalize_reach_followed(takes, ds, t + 1, di1 + 1);
                            },
                        }
                    } else if pai@ == 37 {
                        lemma_reach_followed_remove(ds, di1 as int);
                        lemma_finalize_reach_followed(takes, ds.remove(di1 as int), t + 1, di1);
                    } else {
                        lemma_finalize_reach_followed(takes, ds, t + 1, di1 + 1);
                    }
                },
                _ => {
                    lemma_finalize_reach_followed(takes, ds, t + 1, di1 + 1);
                },
            }
        }
    }
}

proof fn lemma_streams_reach_followed(tables: Seq<ActionTableV>, n: nat)
    requires
        n <= 4,
    ensures
        yonma_streams(tables, n) matches Ok((ts, ds)) ==> ds.len() == n && forall|a: int|
            0 <= a < n ==> #[trigger] reach_followed(ds[a]),
    decreases n,
{
    if n > 0 {
        let m = (n - 1) as nat;
        lemma_streams_reach_followed(tables, m);
        if let Ok((ts, ds)) = yonma_streams(tables, n) {
            let prev = yonma_streams(tables, m)->Ok_0;
            let t = crate::naki::takes_to_events(m as u8, 4, tables[m as int].takes)->Ok_0;
            let d = crate::naki::discards_to_events(m as u8, tables[m as int].discards)->Ok_0;
            crate::yonma::lemma_discards_reach_followed(m as u8, tables[m as int].discards);
            lemma_finalize_reach_followed(t, d, 0, 0);
            assert(yonma_seat_streams(m as u8, tables[m as int].takes, tables[m as int].discards)
                == Ok::<(Seq<EventV>, Seq<EventV>), crate::error::ConvertErrorV>(
                (t, finalize(t, d, 0, 0)),
            ));
            assert forall|a: int| 0 <= a < n implies #[trigger] reach_followed(ds[a]) by {
                if a < m {
                    assert(ds[a] == prev.1[a]);
                }
            }
        }
    }
}

/// In a converted four-player kyoku, every ankan is directly followed by the dora it
/// reveals, or by the end of the kyoku when it was the last action; and the dora events
/// reveal the recorded indicators after the first, in their order, one each.
pub proof fn lemma_yonma_kan_dora(k: crate::tenhou::KyokuV, start: EventV, oya: usize, evs: Seq<EventV>)
    requires
        oya < 4,
        start is StartKyoku,
        1 <= k.dora_indicators.len() <= usize::MAX,
        yonma_streams(k.action_tables, 4) matches Ok((ts, ds)) && (forall|a: int|
            0 <= a < 4 ==> #[trigger] ts[a].len() <= usize::MAX) && (forall|a: int|
            0 <= a < 4 ==> #[trigger] ds[a].len() <= usize::MAX),
        yonma_kyoku_events(k, start, oya) == Ok::<Seq<EventV>, crate::error::ConvertErrorV>(evs),
    ensures
        forall|i: int|
            0 <= i < evs.len() && (#[trigger] evs[i]) is Ankan ==> i + 1 < evs.len() && (evs[i
                + 1] is Dora || evs[i + 1] is Hora || evs[i + 1] is Ryukyoku || evs[i + 1] is EndKyoku),
        dora_markers(evs).len() + 1 <= k.dora_indicators.len(),
        dora_markers(evs) == k.dora_indicators.subrange(1, dora_markers(evs).len() + 1int),
{
    let (ts, ds) = yonma_streams(k.action_tables, 4)->Ok_0;
    let c = YCtx { kyoku: k, takes: ts, discards: ds };
    lemma_streams_seats(k.action_tables, 4);
    lemma_streams_reach_followed(k.action_tables, 4);
    assert(y_ctx_seats(c));
    let st = y_init(c, start, oya, Map::empty());
    assert(y_wf(c, st));
    lemma_init(c, start, oya, Map::empty());
    lemma_run(c, st);
    let (r, bt) = y_run(c, st);
    if r is Err && !bt.is_empty() {
        assert(y_wf(c, y_init(c, start, oya, bt)));
        lemma_retry(c, start, oya, bt, r->Err_0, Set::empty());
    }
}

} // verus!
