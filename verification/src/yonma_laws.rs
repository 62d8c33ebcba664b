//! What a successful four-player replay looks like: the events of one kyoku, framed by
//! its `start_kyoku` and `end_kyoku`.
use vstd::prelude::*;

use crate::event::EventV;
use crate::kyoku_end::end_events;
use crate::naki::{discard_item_events, discards_to_events, take_item_event, takes_to_events};
use crate::sanma_laws::{framed_kyoku, lemma_end_events};
use crate::tenhou::ActionTableV;
use crate::yonma::{
    finalize, lemma_y_step, record_discard, y_after_discard, y_after_take, y_choose, y_dora,
    choice_states, choices_code, choices_ok, y_init, y_remaining, y_retry, y_run, y_search_result, y_step, y_wf,
    yonma_seat_streams, yonma_streams, YCtx,
    YState, YStep,
};

verus! {

/// An event that a take or discard stream can hold: neither `start_kyoku` nor
/// `end_kyoku`.
pub open spec fn stream_event(e: EventV) -> bool {
    !(e is StartKyoku) && !(e is EndKyoku)
}

pub open spec fn stream_ok(evs: Seq<EventV>) -> bool {
    forall|i: int| 0 <= i < evs.len() ==> stream_event(#[trigger] evs[i])
}

proof fn lemma_takes_stream(actor: u8, n: usize, items: Seq<crate::tenhou::ActionItem>)
    requires
        takes_to_events(actor, n, items) is Ok,
    ensures
        stream_ok(takes_to_events(actor, n, items)->Ok_0),
    decreases items.len(),
{
    if items.len() > 0 {
        lemma_takes_stream(actor, n, items.drop_last());
        let r = takes_to_events(actor, n, items.drop_last())->Ok_0;
        let ev = take_item_event(actor, n, items.last())->Ok_0;
        assert(stream_event(ev));
        let all = r.push(ev);
        assert(takes_to_events(actor, n, items)->Ok_0 == all);
        assert forall|i: int| 0 <= i < all.len() implies stream_event(#[trigger] all[i]) by {
            if i < r.len() {
                assert(all[i] == r[i]);
            }
        }
    }
}

proof fn lemma_discard_item_stream(actor: u8, item: crate::tenhou::ActionItem)
    requires
        discard_item_events(actor, item) is Ok,
    ensures
        stream_ok(discard_item_events(actor, item)->Ok_0),
{
    let evs = discard_item_events(actor, item)->Ok_0;
    assert forall|i: int| 0 <= i < evs.len() implies stream_event(#[trigger] evs[i]) by {}
}

proof fn lemma_discards_stream(actor: u8, items: Seq<crate::tenhou::ActionItem>)
    requires
        discards_to_events(actor, items) is Ok,
    ensures
        stream_ok(discards_to_events(actor, items)->Ok_0),
    decreases items.len(),
{
    if items.len() > 0 {
        lemma_discards_stream(actor, items.drop_last());
        let r = discards_to_events(actor, items.drop_last())->Ok_0;
        let evs = discard_item_events(actor, items.last())->Ok_0;
        lemma_discard_item_stream(actor, items.last());
        let all = r + evs;
        assert(discards_to_events(actor, items)->Ok_0 == all);
        assert forall|i: int| 0 <= i < all.len() implies stream_event(#[trigger] all[i]) by {
            if i < r.len() {
                assert(all[i] == r[i]);
            } else {
                assert(all[i] == evs[i - r.len()]);
            }
        }
    }
}

proof fn lemma_finalize_stream(takes: Seq<EventV>, ds: Seq<EventV>, t: nat, di: nat)
    requires
        stream_ok(ds),
    ensures
        stream_ok(finalize(takes, ds, t, di)),
    decreases takes.len() - t,
{
    if t < takes.len() && di < ds.len() {
        let di1 = if ds[di as int] is Reach {
            di + 1
        } else {
            di
        };
        if di1 < ds.len() {
            match ds[di1 as int] {
                EventV::Dahai { pai, tsumogiri, actor } => {
                    if tsumogiri {
                        let ds2 = match takes[t as int] {
                            EventV::Tsumo { pai: tsumo, .. } => ds.update(
                                di1 as int,
                                EventV::Dahai { pai: tsumo, tsumogiri, actor },
                            ),
                            _ => ds,
                        };
                        assert forall|i: int| 0 <= i < ds2.len() implies stream_event(#[trigger] ds2[i]) by {
                            assert(i == di1 || ds2[i] == ds[i]);
                        }
                        lemma_finalize_stream(takes, ds2, t + 1, di1 + 1);
                    } else if pai@ == 37 {
                        let ds2 = ds.remove(di1 as int);
                        assert forall|i: int| 0 <= i < ds2.len() implies stream_event(#[trigger] ds2[i]) by {
                            if i < di1 {
                                assert(ds2[i] == ds[i]);
                            } else {
                                assert(ds2[i] == ds[i + 1]);
                            }
                        }
                        lemma_finalize_stream(takes, ds2, t + 1, di1);
                    } else {
                        lemma_finalize_stream(takes, ds, t + 1, di1 + 1);
                    }
                },
                _ => {
                    lemma_finalize_stream(takes, ds, t + 1, di1 + 1);
                },
            }
        }
    }
}

proof fn lemma_seat_streams_shape(actor: u8, takes: Seq<crate::tenhou::ActionItem>, discards: Seq<crate::tenhou::ActionItem>)
    requires
        yonma_seat_streams(actor, takes, discards) is Ok,
    ensures
        stream_ok(yonma_seat_streams(actor, takes, discards)->Ok_0.0),
        stream_ok(yonma_seat_streams(actor, takes, discards)->Ok_0.1),
{
    let t = takes_to_events(actor, 4, takes)->Ok_0;
    let d = discards_to_events(actor, discards)->Ok_0;
    lemma_takes_stream(actor, 4, takes);
    lemma_discards_stream(actor, discards);
    lemma_finalize_stream(t, d, 0, 0);
}

proof fn lemma_yonma_streams_shape(tables: Seq<ActionTableV>, n: nat)
    requires
        yonma_streams(tables, n) is Ok,
    ensures
        yonma_streams(tables, n)->Ok_0.0.len() == n,
        yonma_streams(tables, n)->Ok_0.1.len() == n,
        forall|a: int| 0 <= a < n ==> #[trigger] stream_ok(yonma_streams(tables, n)->Ok_0.0[a]),
        forall|a: int| 0 <= a < n ==> #[trigger] stream_ok(yonma_streams(tables, n)->Ok_0.1[a]),
    decreases n,
{
    if n > 0 {
        let m = (n - 1) as nat;
        lemma_yonma_streams_shape(tables, m);
        let prev = yonma_streams(tables, m)->Ok_0;
        let seat = yonma_seat_streams(m as u8, tables[m as int].takes, tables[m as int].discards)->Ok_0;
        crate::yonma::lemma_yonma_streams_step(tables, m);
        lemma_seat_streams_shape(m as u8, tables[m as int].takes, tables[m as int].discards);
        let cur = yonma_streams(tables, n)->Ok_0;
        assert(cur.0 == prev.0.push(seat.0));
        assert(cur.1 == prev.1.push(seat.1));
        assert forall|a: int| 0 <= a < n implies #[trigger] stream_ok(cur.0[a]) by {
            if a < m {
                assert(cur.0[a] == prev.0[a]);
            }
        }
        assert forall|a: int| 0 <= a < n implies #[trigger] stream_ok(cur.1[a]) by {
            if a < m {
                assert(cur.1[a] == prev.1[a]);
            }
        }
    }
}

/// Every stream of the replay data holds only stream events.
pub open spec fn y_ctx_ok(c: YCtx) -> bool {
    &&& forall|a: int| 0 <= a < 4 ==> #[trigger] stream_ok(c.takes[a])
    &&& forall|a: int| 0 <= a < 4 ==> #[trigger] stream_ok(c.discards[a])
}

/// `evs` is the beginning of one kyoku: `start` and then no other `start_kyoku` and no
/// `end_kyoku`.
pub open spec fn y_open(evs: Seq<EventV>, start: EventV) -> bool {
    &&& evs.len() >= 1
    &&& evs[0] == start
    &&& start is StartKyoku
    &&& forall|i: int| 1 <= i < evs.len() ==> !((#[trigger] evs[i]) is StartKyoku)
    &&& forall|i: int| 0 <= i < evs.len() ==> !((#[trigger] evs[i]) is EndKyoku)
}

proof fn lemma_y_push(evs: Seq<EventV>, e: EventV, start: EventV)
    requires
        y_open(evs, start),
        stream_event(e),
    ensures
        y_open(evs.push(e), start),
{
    let all = evs.push(e);
    assert forall|i: int| 0 <= i < all.len() implies !((#[trigger] all[i]) is EndKyoku) && (i >= 1
        ==> !(all[i] is StartKyoku)) by {
        if i < evs.len() {
            assert(all[i] == evs[i]);
        }
    }
}

proof fn lemma_y_dora(c: YCtx, st: YState, start: EventV)
    requires
        y_open(st.events, start),
    ensures
        y_dora(c, st) matches Ok(x) ==> y_open(x.events, start),
{
    if st.dora_idx < c.kyoku.dora_indicators.len() {
        lemma_y_push(
            st.events,
            EventV::Dora { dora_marker: c.kyoku.dora_indicators[st.dora_idx as int] },
            start,
        );
    }
}

proof fn lemma_y_finish(c: YCtx, st: YState, start: EventV)
    requires
        y_open(st.events, start),
    ensures
        framed_kyoku(st.events + end_events(c.kyoku), start),
{
    let tail = end_events(c.kyoku);
    let all = st.events + tail;
    lemma_end_events(c.kyoku);
    assert forall|i: int| 1 <= i < all.len() implies !((#[trigger] all[i]) is StartKyoku) by {
        if i >= st.events.len() {
            assert(all[i] == tail[i - st.events.len()]);
        }
    }
    assert forall|i: int| 0 <= i < all.len() - 1 implies !((#[trigger] all[i]) is EndKyoku) by {
        if i >= st.events.len() {
            assert(all[i] == tail[i - st.events.len()]);
        }
    }
    assert(all.last() == tail.last());
}

/// The shape of the events after a turn: still within the kyoku, or the whole kyoku when
/// the replay ends.
pub open spec fn y_step_shaped(r: YStep, start: EventV) -> bool {
    match r {
        YStep::Continue(s2) => y_open(s2.events, start),
        YStep::Done(s2) => framed_kyoku(s2.events, start),
        YStep::Fail(_) => true,
    }
}

proof fn lemma_y_choose_shape(c: YCtx, st: YState, d: EventV, start: EventV)
    requires
        y_open(st.events, start),
    ensures
        y_step_shaped(y_choose(c, st, d), start),
{
    lemma_y_finish(c, st, start);
    lemma_y_dora(c, st, start);
}

proof fn lemma_y_after_discard_shape(c: YCtx, st: YState, d: EventV, start: EventV)
    requires
        y_wf(c, st),
        y_ctx_ok(c),
        y_open(st.events, start),
    ensures
        y_step_shaped(y_after_discard(c, st, d), start),
{
    let a = st.actor as int;
    if d is Reach {
        let st1 = YState { reach_flag: Some(a as usize), ..st };
        if st1.discard_idxs[a] < c.discards[a].len() {
            let dh = c.discards[a][st1.discard_idxs[a] as int];
            assert(stream_ok(c.discards[a]));
            let st2 = record_discard(
                YState {
                    discard_idxs: st1.discard_idxs.update(a, (st1.discard_idxs[a] + 1) as usize),
                    ..st1
                },
                dh,
            );
            lemma_y_push(st2.events, dh, start);
            lemma_y_choose_shape(c, YState { events: st2.events.push(dh), ..st2 }, d, start);
        }
    } else {
        lemma_y_choose_shape(c, st, d, start);
    }
}

proof fn lemma_y_after_take_shape(c: YCtx, st: YState, start: EventV)
    requires
        y_wf(c, st),
        y_ctx_ok(c),
        y_open(st.events, start),
    ensures
        y_step_shaped(y_after_take(c, st), start),
{
    let a = st.actor as int;
    lemma_y_finish(c, st, start);
    if st.discard_idxs[a] < c.discards[a].len() {
        let d = c.discards[a][st.discard_idxs[a] as int];
        assert(stream_ok(c.discards[a]));
        let st1 = record_discard(
            YState {
                discard_idxs: st.discard_idxs.update(a, (st.discard_idxs[a] + 1) as usize),
                ..st
            },
            d,
        );
        lemma_y_dora(c, st1, start);
        let st2 = if st1.need_dora_at_discard {
            if d is Dahai || d is Ankan {
                match y_dora(c, st1) {
                    Ok(x) => Ok(YState { need_dora_at_discard: false, ..x }),
                    Err(e) => Err(e),
                }
            } else if d is Kakan {
                Ok(YState { need_dora_at_tsumo: true, ..st1 })
            } else {
                Ok(st1)
            }
        } else {
            Ok(st1)
        };
        if let Ok(st2) = st2 {
            lemma_y_push(st2.events, d, start);
            lemma_y_after_discard_shape(c, YState { events: st2.events.push(d), ..st2 }, d, start);
        }
    }
}

proof fn lemma_y_step_shape(c: YCtx, st: YState, start: EventV)
    requires
        y_wf(c, st),
        y_ctx_ok(c),
        y_open(st.events, start),
    ensures
        y_step_shaped(y_step(c, st), start),
{
    let a = st.actor as int;
    if st.take_idxs[a] < c.takes[a].len() {
        let take = c.takes[a][st.take_idxs[a] as int];
        assert(stream_ok(c.takes[a]));
        let st1 = YState {
            take_idxs: st.take_idxs.update(a, (st.take_idxs[a] + 1) as usize),
            ..st
        };
        let st2 = match st1.reach_flag {
            Some(r) => YState {
                reach_flag: None,
                events: st1.events.push(EventV::ReachAccepted { actor: r as u8 }),
                ..st1
            },
            None => st1,
        };
        if let Some(r) = st1.reach_flag {
            lemma_y_push(st1.events, EventV::ReachAccepted { actor: r as u8 }, start);
        }
        lemma_y_dora(c, st2, start);
        if take is Daiminkan {
            let st3 = if st2.need_dora_at_discard {
                y_dora(c, st2)
            } else {
                Ok(st2)
            };
            if let Ok(st3) = st3 {
                lemma_y_push(st3.events, take, start);
            }
        } else {
            let st3 = if take is Tsumo && st2.need_dora_at_tsumo {
                match y_dora(c, st2) {
                    Ok(x) => Ok(YState { need_dora_at_tsumo: false, ..x }),
                    Err(e) => Err(e),
                }
            } else {
                Ok(st2)
            };
            if let Ok(st3) = st3 {
                lemma_y_push(st3.events, take, start);
                lemma_y_after_take_shape(c, YState { events: st3.events.push(take), ..st3 }, start);
            }
        }
    }
}

proof fn lemma_y_run_shape(c: YCtx, st: YState, start: EventV)
    requires
        y_wf(c, st),
        y_ctx_ok(c),
        y_open(st.events, start),
    ensures
        y_run(c, st).0 matches Ok(evs) ==> framed_kyoku(evs, start),
    decreases y_remaining(c, st),
{
    reveal(y_run);
    lemma_y_step(c, st);
    lemma_y_step_shape(c, st, start);
    if let YStep::Continue(s2) = y_step(c, st) {
        lemma_y_run_shape(c, s2, start);
    }
}

proof fn lemma_y_retry_shape(
    c: YCtx,
    start: EventV,
    oya: usize,
    bt: Map<u8, i32>,
    first: crate::error::ConvertErrorV,
    seen: Set<int>,
)
    requires
        y_wf(c, y_init(c, start, oya, bt)),
        y_ctx_ok(c),
        start is StartKyoku,
    ensures
        y_retry(c, start, oya, bt, first, seen) matches Ok(evs) ==> framed_kyoku(evs, start),
    decreases choice_states() - seen.len(),
{
    if !(seen.contains(choices_code(bt)) || !seen.finite() || seen.len() >= choice_states()) {
        let st = y_init(c, start, oya, bt);
        lemma_y_run_shape(c, st, start);
        let (r, bt2) = y_run(c, st);
        if r is Err && !bt2.is_empty() {
            assert(y_wf(c, y_init(c, start, oya, bt2)));
            lemma_y_retry_shape(c, start, oya, bt2, first, seen.insert(choices_code(bt)));
        }
    }
}

/// Every successful replay of a four-player kyoku begun by a `start_kyoku` event is the
/// events of one kyoku: that event, then no other `start_kyoku`, and `end_kyoku` last and
/// only there.
pub proof fn lemma_yonma_replay_framed(
    tables: Seq<ActionTableV>,
    c: YCtx,
    start: EventV,
    oya: usize,
)
    requires
        yonma_streams(tables, 4) == Ok::<
            (Seq<Seq<EventV>>, Seq<Seq<EventV>>),
            crate::error::ConvertErrorV,
        >((c.takes, c.discards)),
        forall|a: int| 0 <= a < 4 ==> #[trigger] c.takes[a].len() <= usize::MAX,
        forall|a: int| 0 <= a < 4 ==> #[trigger] c.discards[a].len() <= usize::MAX,
        oya < 4,
        start is StartKyoku,
    ensures
        y_search_result(c, start, oya) matches Ok(evs) ==> framed_kyoku(evs, start),
{
    lemma_yonma_streams_shape(tables, 4);
    let st = y_init(c, start, oya, Map::empty());
    assert(y_wf(c, st));
    lemma_y_run_shape(c, st, start);
    let (r, bt) = y_run(c, st);
    if r is Err && !bt.is_empty() {
        assert(y_wf(c, y_init(c, start, oya, bt)));
        lemma_y_retry_shape(c, start, oya, bt, r->Err_0, Set::empty());
    }
}

proof fn lemma_y_choose_choices(c: YCtx, st: YState, d: EventV)
    requires
        choices_ok(st.backtracks),
    ensures
        match y_choose(c, st, d) {
            YStep::Continue(s2) => choices_ok(s2.backtracks),
            YStep::Done(s2) => choices_ok(s2.backtracks),
            YStep::Fail(_) => true,
        },
{
    let ld = st.last_discard@;
    assert(choices_ok(st.backtracks.insert(ld, 1)));
    assert(choices_ok(st.backtracks.insert(ld, 0)));
    assert(choices_ok(st.backtracks.remove(ld)));
}

proof fn lemma_y_after_take_choices(c: YCtx, st: YState)
    requires
        choices_ok(st.backtracks),
    ensures
        match y_after_take(c, st) {
            YStep::Continue(s2) => choices_ok(s2.backtracks),
            YStep::Done(s2) => choices_ok(s2.backtracks),
            YStep::Fail(_) => true,
        },
{
    let a = st.actor as int;
    if st.discard_idxs[a] < c.discards[a].len() {
        let d = c.discards[a][st.discard_idxs[a] as int];
        let st1 = record_discard(
            YState {
                discard_idxs: st.discard_idxs.update(a, (st.discard_idxs[a] + 1) as usize),
                ..st
            },
            d,
        );
        let st2 = if st1.need_dora_at_discard {
            if d is Dahai || d is Ankan {
                match y_dora(c, st1) {
                    Ok(x) => Ok(YState { need_dora_at_discard: false, ..x }),
                    Err(e) => Err(e),
                }
            } else if d is Kakan {
                Ok(YState { need_dora_at_tsumo: true, ..st1 })
            } else {
                Ok(st1)
            }
        } else {
            Ok(st1)
        };
        if let Ok(st2) = st2 {
            let st3 = YState { events: st2.events.push(d), ..st2 };
            if d is Reach {
                let st4 = YState { reach_flag: Some(a as usize), ..st3 };
                if st4.discard_idxs[a] < c.discards[a].len() {
                    let dh = c.discards[a][st4.discard_idxs[a] as int];
                    let st5 = record_discard(
                        YState {
                            discard_idxs: st4.discard_idxs.update(
                                a,
                                (st4.discard_idxs[a] + 1) as usize,
                            ),
                            ..st4
                        },
                        dh,
                    );
                    lemma_y_choose_choices(c, YState { events: st5.events.push(dh), ..st5 }, d);
                }
            } else {
                lemma_y_choose_choices(c, st3, d);
            }
        }
    }
}

proof fn lemma_y_step_choices(c: YCtx, st: YState)
    requires
        choices_ok(st.backtracks),
    ensures
        match y_step(c, st) {
            YStep::Continue(s2) => choices_ok(s2.backtracks),
            YStep::Done(s2) => choices_ok(s2.backtracks),
            YStep::Fail(_) => true,
        },
{
    let a = st.actor as int;
    if st.take_idxs[a] < c.takes[a].len() {
        let take = c.takes[a][st.take_idxs[a] as int];
        let st1 = YState {
            take_idxs: st.take_idxs.update(a, (st.take_idxs[a] + 1) as usize),
            ..st
        };
        let st2 = match st1.reach_flag {
            Some(r) => YState {
                reach_flag: None,
                events: st1.events.push(EventV::ReachAccepted { actor: r as u8 }),
                ..st1
            },
            None => st1,
        };
        if !(take is Daiminkan) {
            let st3 = if take is Tsumo && st2.need_dora_at_tsumo {
                match y_dora(c, st2) {
                    Ok(x) => Ok(YState { need_dora_at_tsumo: false, ..x }),
                    Err(e) => Err(e),
                }
            } else {
                Ok(st2)
            };
            if let Ok(st3) = st3 {
                lemma_y_after_take_choices(c, YState { events: st3.events.push(take), ..st3 });
            }
        }
    }
}

/// A replay leaves every choice at an ambiguous call at 1 (the first dahai) or 0 (the
/// second) when it found them so.
pub proof fn lemma_y_run_choices(c: YCtx, st: YState)
    requires
        y_wf(c, st),
        choices_ok(st.backtracks),
    ensures
        choices_ok(y_run(c, st).1),
    decreases y_remaining(c, st),
{
    reveal(y_run);
    lemma_y_step(c, st);
    lemma_y_step_choices(c, st);
    if let YStep::Continue(s2) = y_step(c, st) {
        lemma_y_run_choices(c, s2);
    }
}

} // verus!
