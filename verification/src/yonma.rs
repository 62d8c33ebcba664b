//! Four-player conversion.
//!
//! Each player's take stream is replayed turn by turn. After a discard, the
//! next actor is the player whose next take calls that tile from the
//! discarder (pon and kan before chi), or else the shimocha. When the
//! discarder discards the same tile again later, it is not clear which of the
//! two discards a call belongs to; the first is tried first, and a failed
//! replay retries with the second.
use vstd::prelude::*;

use ahash::AHashMap;

use crate::error::{ConvertError, ConvertErrorV};
use crate::event::{events_view, Event, EventV};
use crate::kyoku_end::{end_events, end_kyoku};
use crate::naki::{
    discard_action_to_events, discards_to_events, take_action_to_events, takes_to_events,
};
use crate::tenhou::{ActionItem, ActionTableV, Kyoku, KyokuV};
use crate::tile::{group_tile_ids, tile_from_id, Tile};
use crate::sanma_laws::framed_kyoku;
use crate::yonma_laws::lemma_yonma_replay_framed;
use crate::tile_map::{
    tile_map_entries, tile_map_get, tile_map_insert, tile_map_is_empty, tile_map_new,
    tile_map_remove,
};

verus! {

broadcast use group_tile_ids;

// ---------------------------------------------------------------------------
// Filling in the discard streams.
// ---------------------------------------------------------------------------

/// A riichi declaration at `i` is followed by its dahai, which is not a daiminkan
/// placeholder.
pub open spec fn followed_at(ds: Seq<EventV>, i: int) -> bool {
    0 <= i < ds.len() && ds[i] is Reach ==> i + 1 < ds.len() && ds[i + 1] is Dahai && (ds[i
        + 1]->Dahai_tsumogiri || ds[i + 1]->Dahai_pai@ != 37)
}

/// Every riichi declaration is followed by its dahai, which is not a daiminkan placeholder.
pub open spec fn reach_followed(ds: Seq<EventV>) -> bool {
    forall|i: int| #[trigger] followed_at(ds, i)
}

/// The discard stream with tsumogiri tiles filled in from the matching draw and the
/// placeholder after each daiminkan removed, reading the take stream from `t` and the
/// discard stream from `di`.
pub open spec fn finalize(takes: Seq<EventV>, ds: Seq<EventV>, t: nat, di: nat) -> Seq<EventV>
    decreases takes.len() - t,
{
    if t >= takes.len() || di >= ds.len() {
        ds
    } else {
        let di1 = if ds[di as int] is Reach {
            di + 1
        } else {
            di
        };
        if di1 >= ds.len() {
            // not reached: a riichi declaration is always followed by its dahai
            ds
        } else {
            match ds[di1 as int] {
                EventV::Dahai { pai, tsumogiri, actor } => {
                    if tsumogiri {
                        let ds2 = match takes[t as int] {
                            EventV::Tsumo { pai: tsumo, .. } => ds.update(
                                di1 as int,
                                EventV::Dahai { pai: tsumo, tsumogiri, actor },
                            ),
                            _ => ds,
                        };
                        finalize(takes, ds2, t + 1, di1 + 1)
                    } else if pai@ == 37 {
                        finalize(takes, ds.remove(di1 as int), t + 1, di1)
                    } else {
                        finalize(takes, ds, t + 1, di1 + 1)
                    }
                },
                _ => finalize(takes, ds, t + 1, di1 + 1),
            }
        }
    }
}

pub(crate) proof fn lemma_reach_followed_update(ds: Seq<EventV>, i: int, e: EventV)
    requires
        reach_followed(ds),
        0 <= i < ds.len(),
        ds[i] is Dahai,
        e is Dahai,
        e->Dahai_tsumogiri == ds[i]->Dahai_tsumogiri,
        ds[i]->Dahai_tsumogiri,
    ensures
        reach_followed(ds.update(i, e)),
{
    let u = ds.update(i, e);
    assert forall|j: int| #[trigger] followed_at(u, j) by {
        assert(followed_at(ds, j));
    }
}

pub(crate) proof fn lemma_reach_followed_remove(ds: Seq<EventV>, i: int)
    requires
        reach_followed(ds),
        0 <= i < ds.len(),
        ds[i] is Dahai,
        !ds[i]->Dahai_tsumogiri,
        ds[i]->Dahai_pai@ == 37,
    ensures
        reach_followed(ds.remove(i)),
{
    let u = ds.remove(i);
    assert forall|j: int| #[trigger] followed_at(u, j) by {
        if 0 <= j < u.len() && u[j] is Reach {
            if j < i {
                assert(followed_at(ds, j));
            } else {
                assert(followed_at(ds, j + 1));
            }
        }
    }
}

/// Fills in the tsumogiri tiles of a four-player discard stream and drops the
/// placeholders that follow daiminkans.
fn finalize_discards(takes: &Vec<Event>, discards: &mut Vec<Event>)
    requires
        reach_followed(events_view(old(discards)@)),
    ensures
        events_view(final(discards)@) == finalize(
            events_view(takes@),
            events_view(old(discards)@),
            0,
            0,
        ),
{
    let ghost tv = events_view(takes@);
    let ghost goal = finalize(tv, events_view(discards@), 0, 0);
    let mut di: usize = 0;
    let mut t: usize = 0;
    while t < takes.len() && di < discards.len()
        invariant
            tv == events_view(takes@),
            t <= takes@.len(),
            reach_followed(events_view(discards@)),
            finalize(tv, events_view(discards@), t as nat, di as nat) == goal,
        decreases takes.len() - t,
    {
        let ghost ds = events_view(discards@);
        let is_reach = match &discards[di] {
            Event::Reach { .. } => true,
            _ => false,
        };
        if is_reach {
            assert(followed_at(ds, di as int));
            di += 1;
        }
        assert(di < ds.len());
        let entry = match &discards[di] {
            Event::Dahai { pai, tsumogiri, actor } => Some((*pai, *tsumogiri, *actor)),
            _ => None,
        };
        if let Some((pai, tsumogiri, actor)) = entry {
            if tsumogiri {
                let tsumo = match &takes[t] {
                    Event::Tsumo { pai: tsumo, .. } => Some(*tsumo),
                    _ => None,
                };
                if let Some(tsumo) = tsumo {
                    let ev = Event::Dahai { pai: tsumo, tsumogiri, actor };
                    discards.set(di, ev);
                    assert(events_view(discards@) =~= ds.update(di as int, ev@));
                    proof {
                        lemma_reach_followed_update(ds, di as int, ev@);
                    }
                }
            } else if pai.is_unknown() {
                discards.remove(di);
                assert(events_view(discards@) =~= ds.remove(di as int));
                proof {
                    lemma_reach_followed_remove(ds, di as int);
                }
                t += 1;
                continue;
            }
        }
        di += 1;
        t += 1;
    }
}

proof fn lemma_item_reach_followed(actor: u8, item: ActionItem)
    requires
        crate::naki::discard_item_events(actor, item) is Ok,
    ensures
        reach_followed(crate::naki::discard_item_events(actor, item)->Ok_0),
{
    let evs = crate::naki::discard_item_events(actor, item)->Ok_0;
    assert forall|i: int| #[trigger] followed_at(evs, i) by {}
}

pub(crate) proof fn lemma_discards_reach_followed(actor: u8, items: Seq<ActionItem>)
    requires
        discards_to_events(actor, items) is Ok,
    ensures
        reach_followed(discards_to_events(actor, items)->Ok_0),
    decreases items.len(),
{
    if items.len() > 0 {
        lemma_discards_reach_followed(actor, items.drop_last());
        let r = discards_to_events(actor, items.drop_last())->Ok_0;
        let evs = crate::naki::discard_item_events(actor, items.last())->Ok_0;
        let all = r + evs;
        assert(discards_to_events(actor, items)->Ok_0 == all);
        lemma_item_reach_followed(actor, items.last());
        assert forall|i: int| #[trigger] followed_at(all, i) by {
            if 0 <= i < all.len() && all[i] is Reach {
                if i < r.len() {
                    assert(followed_at(r, i));
                } else {
                    assert(followed_at(evs, i - r.len()));
                }
            }
        }
    }
}

/// The take and discard streams of a four-player seat, with the discard stream filled in.
pub open spec fn yonma_seat_streams(actor: u8, takes: Seq<ActionItem>, discards: Seq<ActionItem>) -> Result<
    (Seq<EventV>, Seq<EventV>),
    ConvertErrorV,
> {
    match takes_to_events(actor, 4, takes) {
        Err(e) => Err(e),
        Ok(t) => match discards_to_events(actor, discards) {
            Err(e) => Err(e),
            Ok(d) => Ok((t, finalize(t, d, 0, 0))),
        },
    }
}

fn parse_takes_and_discards_to_mjai(actor: u8, takes: &[ActionItem], discards: &[ActionItem]) -> (res:
    Result<(Vec<Event>, Vec<Event>), ConvertError>)
    requires
        actor <= 252,
    ensures
        match res {
            Ok((t, d)) => yonma_seat_streams(actor, takes@, discards@) == Ok::<
                (Seq<EventV>, Seq<EventV>),
                ConvertErrorV,
            >((events_view(t@), events_view(d@))),
            Err(e) => yonma_seat_streams(actor, takes@, discards@) == Err::<
                (Seq<EventV>, Seq<EventV>),
                ConvertErrorV,
            >(e@),
        },
{
    let mjai_takes = match take_action_to_events(actor, 4, takes) {
        Ok(t) => t,
        Err(e) => {
            return Err(e);
        },
    };
    let mut mjai_discards = match discard_action_to_events(actor, discards) {
        Ok(d) => d,
        Err(e) => {
            return Err(e);
        },
    };
    proof {
        lemma_discards_reach_followed(actor, discards@);
    }
    finalize_discards(&mjai_takes, &mut mjai_discards);
    Ok((mjai_takes, mjai_discards))
}


// ---------------------------------------------------------------------------
// Replaying the streams.
// ---------------------------------------------------------------------------

/// The recorded data that a four-player replay reads: the kyoku and every player's take
/// and discard streams as events.
pub struct YCtx {
    pub kyoku: KyokuV,
    pub takes: Seq<Seq<EventV>>,
    pub discards: Seq<Seq<EventV>>,
}

/// The state of one four-player replay: the events so far, the next dora indicator,
/// how many of each tile each player still has to discard, how far each stream has been
/// read, the riichi waiting for acceptance, the last discard and its discarder, the
/// pending kan dora, the player on turn, and the choices made at ambiguous calls.
#[verifier::ext_equal]
pub struct YState {
    pub events: Seq<EventV>,
    pub dora_idx: usize,
    pub counts: Seq<Map<u8, i32>>,
    pub take_idxs: Seq<usize>,
    pub discard_idxs: Seq<usize>,
    pub reach_flag: Option<usize>,
    pub last_discard: Tile,
    pub last_actor: Option<u8>,
    pub need_dora_at_discard: bool,
    pub need_dora_at_tsumo: bool,
    pub actor: usize,
    pub backtracks: Map<u8, i32>,
}

/// What one turn of a replay leads to.
pub enum YStep {
    Continue(YState),
    Done(YState),
    Fail(ConvertErrorV),
}

/// How many times each tile occurs as a dahai in a discard stream.
pub open spec fn dahai_counts(ds: Seq<EventV>) -> Map<u8, i32>
    decreases ds.len(),
{
    if ds.len() == 0 {
        Map::empty()
    } else {
        let m = dahai_counts(ds.drop_last());
        match ds.last() {
            EventV::Dahai { pai, .. } => if m.dom().contains(pai@) {
                m.insert(pai@, m[pai@].wrapping_add(1))
            } else {
                m.insert(pai@, 1)
            },
            _ => m,
        }
    }
}

/// One fewer of tile `k` still to be discarded.
pub open spec fn dec_count(m: Map<u8, i32>, k: u8) -> Map<u8, i32> {
    if m.dom().contains(k) {
        m.insert(k, m[k].wrapping_sub(1))
    } else {
        m
    }
}

pub open spec fn y_wf(c: YCtx, st: YState) -> bool {
    &&& c.takes.len() == 4
    &&& c.discards.len() == 4
    &&& st.take_idxs.len() == 4
    &&& st.discard_idxs.len() == 4
    &&& st.counts.len() == 4
    &&& st.actor < 4
    &&& forall|a: int| 0 <= a < 4 ==> #[trigger] c.takes[a].len() <= usize::MAX
    &&& forall|a: int| 0 <= a < 4 ==> #[trigger] c.discards[a].len() <= usize::MAX
}

pub open spec fn y_remaining(c: YCtx, st: YState) -> nat {
    crate::sanma::gap(c.takes[0].len(), st.take_idxs[0]) + crate::sanma::gap(
        c.takes[1].len(),
        st.take_idxs[1],
    ) + crate::sanma::gap(c.takes[2].len(), st.take_idxs[2]) + crate::sanma::gap(
        c.takes[3].len(),
        st.take_idxs[3],
    )
}

pub open spec fn y_insufficient_dora(k: KyokuV) -> ConvertErrorV {
    ConvertErrorV::InsufficientDoraIndicators { kyoku: k.meta.kyoku_num, honba: k.meta.honba }
}

/// Reveals the next dora indicator.
pub open spec fn y_dora(c: YCtx, st: YState) -> Result<YState, ConvertErrorV> {
    if st.dora_idx < c.kyoku.dora_indicators.len() {
        Ok(
            YState {
                events: st.events.push(
                    EventV::Dora { dora_marker: c.kyoku.dora_indicators[st.dora_idx as int] },
                ),
                dora_idx: (st.dora_idx + 1) as usize,
                ..st
            },
        )
    } else {
        Err(y_insufficient_dora(c.kyoku))
    }
}

/// Whether a call does not fit the last discard: another tile, or a discarder that is
/// not the called seat or is the caller.
pub open spec fn naki_mismatch(take: EventV, st: YState) -> bool {
    match take.naki_info() {
        Some((target, pai)) => pai != st.last_discard || (st.last_actor matches Some(la) && (la
            != target || la == st.actor as u8)),
        None => false,
    }
}

/// Records `d` as the last discard of the player on turn, when it is a dahai.
pub open spec fn record_discard(st: YState, d: EventV) -> YState {
    match d {
        EventV::Dahai { pai, .. } => YState {
            last_discard: pai,
            counts: st.counts.update(
                st.actor as int,
                dec_count(st.counts[st.actor as int], pai@),
            ),
            ..st
        },
        _ => st,
    }
}

/// The priority with which seat `b` calls the last discard, if its next take calls it.
pub open spec fn call_priority(c: YCtx, st: YState, b: int) -> Option<int> {
    if b == st.actor as int || st.take_idxs[b] >= c.takes[b].len() {
        None
    } else {
        let take = c.takes[b][st.take_idxs[b] as int];
        match take.naki_info() {
            Some((target, pai)) => if target == st.actor as u8 && pai == st.last_discard {
                Some(take.naki_to_ord())
            } else {
                None
            },
            None => None,
        }
    }
}

/// Keeps the later of two equally ranked candidates, as `max_by_key` does.
pub open spec fn pick(best: Option<(int, int)>, b: int, prio: Option<int>) -> Option<(int, int)> {
    match prio {
        None => best,
        Some(o) => match best {
            None => Some((b, o)),
            Some((_, bo)) => if o >= bo {
                Some((b, o))
            } else {
                best
            },
        },
    }
}

/// The caller with the highest priority, the last one among equals.
pub open spec fn best_caller(c: YCtx, st: YState) -> Option<(int, int)> {
    pick(
        pick(
            pick(pick(None, 0, call_priority(c, st, 0)), 1, call_priority(c, st, 1)),
            2,
            call_priority(c, st, 2),
        ),
        3,
        call_priority(c, st, 3),
    )
}

pub open spec fn with_actor(st: YState, a: int) -> YState {
    YState { actor: a as usize, ..st }
}

pub open spec fn finish(c: YCtx, st: YState) -> YStep {
    YStep::Done(YState { events: st.events + end_events(c.kyoku), ..st })
}

pub open spec fn all_takes_consumed(c: YCtx, st: YState) -> bool {
    forall|a: int| 0 <= a < 4 ==> #[trigger] st.take_idxs[a] >= c.takes[a].len()
}

/// After the discard `d` (and the dahai of a riichi): the end of the kyoku, the
/// replacement draw after a kan, or the next player.
pub open spec fn y_choose(c: YCtx, st: YState, d: EventV) -> YStep {
    if all_takes_consumed(c, st) {
        finish(c, st)
    } else if d is Ankan {
        match y_dora(c, st) {
            Err(e) => YStep::Fail(e),
            Ok(x) => YStep::Continue(x),
        }
    } else if d is Kakan {
        YStep::Continue(YState { need_dora_at_discard: true, ..st })
    } else {
        let a = st.actor as int;
        let st1 = YState { last_actor: Some(a as u8), ..st };
        let shimocha = (a + 1) % 4;
        let ld = st1.last_discard@;
        match best_caller(c, st1) {
            None => YStep::Continue(with_actor(st1, shimocha)),
            Some((b, _)) => {
                if st1.discard_idxs[a] >= c.discards[a].len() {
                    YStep::Continue(with_actor(st1, b))
                } else if !(st1.counts[a].dom().contains(ld) && st1.counts[a][ld] > 0) {
                    YStep::Continue(with_actor(st1, b))
                } else if !st1.backtracks.dom().contains(ld) {
                    // try taking the first dahai as the one called
                    YStep::Continue(
                        with_actor(YState { backtracks: st1.backtracks.insert(ld, 1), ..st1 }, b),
                    )
                } else if st1.backtracks[ld] != 0 {
                    // the first dahai failed: try the second
                    YStep::Continue(
                        with_actor(
                            YState { backtracks: st1.backtracks.insert(ld, 0), ..st1 },
                            shimocha,
                        ),
                    )
                } else {
                    // both failed: backtrack further
                    YStep::Continue(
                        with_actor(YState { backtracks: st1.backtracks.remove(ld), ..st1 }, shimocha),
                    )
                }
            },
        }
    }
}

/// After the discard `d` has been emitted: the dahai that a riichi declaration announces.
pub open spec fn y_after_discard(c: YCtx, st: YState, d: EventV) -> YStep {
    let a = st.actor as int;
    if d is Reach {
        let st1 = YState { reach_flag: Some(a as usize), ..st };
        if st1.discard_idxs[a] >= c.discards[a].len() {
            YStep::Fail(
                ConvertErrorV::InsufficientDiscards {
                    kyoku: c.kyoku.meta.kyoku_num,
                    honba: c.kyoku.meta.honba,
                    actor: a as u8,
                },
            )
        } else {
            let dh = c.discards[a][st1.discard_idxs[a] as int];
            let st2 = record_discard(
                YState {
                    discard_idxs: st1.discard_idxs.update(a, (st1.discard_idxs[a] + 1) as usize),
                    ..st1
                },
                dh,
            );
            y_choose(c, YState { events: st2.events.push(dh), ..st2 }, d)
        }
    } else {
        y_choose(c, st, d)
    }
}

/// After the take has been emitted: the end of the kyoku when the player on turn has no
/// discard left, else their next discard.
pub open spec fn y_after_take(c: YCtx, st: YState) -> YStep {
    let a = st.actor as int;
    if st.discard_idxs[a] >= c.discards[a].len() {
        finish(c, st)
    } else {
        let d = c.discards[a][st.discard_idxs[a] as int];
        let st1 = record_discard(
            YState {
                discard_idxs: st.discard_idxs.update(a, (st.discard_idxs[a] + 1) as usize),
                ..st
            },
            d,
        );
        let st2 = if st1.need_dora_at_discard {
            if d is Dahai || d is Ankan {
                match y_dora(c, st1) {
                    Ok(x) => Ok(YState { need_dora_at_discard: false, ..x }),
                    Err(e) => Err(e),
                }
            } else if d is Kakan {
                Ok(YState { need_dora_at_tsumo: true, ..st1 })
            } else {
                Ok(st1)
            }
        } else {
            Ok(st1)
        };
        match st2 {
            Err(e) => YStep::Fail(e),
            Ok(st2) => y_after_discard(c, YState { events: st2.events.push(d), ..st2 }, d),
        }
    }
}

/// One turn: the take of the player on turn, then their discard.
pub open spec fn y_step(c: YCtx, st: YState) -> YStep {
    let a = st.actor as int;
    if st.take_idxs[a] >= c.takes[a].len() {
        YStep::Fail(
            ConvertErrorV::InsufficientTakes {
                kyoku: c.kyoku.meta.kyoku_num,
                honba: c.kyoku.meta.honba,
                actor: a as u8,
            },
        )
    } else {
        let take = c.takes[a][st.take_idxs[a] as int];
        let st1 = YState {
            take_idxs: st.take_idxs.update(a, (st.take_idxs[a] + 1) as usize),
            ..st
        };
        if naki_mismatch(take, st) {
            YStep::Fail(
                ConvertErrorV::UnexpectedNaki {
                    action: take,
                    last_discard: st.last_discard,
                    last_actor: st.last_actor,
                    kyoku: c.kyoku.meta.kyoku_num,
                    honba: c.kyoku.meta.honba,
                    actor: a as u8,
                },
            )
        } else {
            let st2 = match st1.reach_flag {
                Some(r) => YState {
                    reach_flag: None,
                    events: st1.events.push(EventV::ReachAccepted { actor: r as u8 }),
                    ..st1
                },
                None => st1,
            };
            if take is Daiminkan {
                let st3 = if st2.need_dora_at_discard {
                    y_dora(c, st2)
                } else {
                    Ok(st2)
                };
                match st3 {
                    Err(e) => YStep::Fail(e),
                    Ok(st3) => YStep::Continue(
                        YState {
                            events: st3.events.push(take),
                            need_dora_at_discard: true,
                            ..st3
                        },
                    ),
                }
            } else {
                let st3 = if take is Tsumo && st2.need_dora_at_tsumo {
                    match y_dora(c, st2) {
                        Ok(x) => Ok(YState { need_dora_at_tsumo: false, ..x }),
                        Err(e) => Err(e),
                    }
                } else {
                    Ok(st2)
                };
                match st3 {
                    Err(e) => YStep::Fail(e),
                    Ok(st3) => y_after_take(c, YState { events: st3.events.push(take), ..st3 }),
                }
            }
        }
    }
}


proof fn lemma_pick(best: Option<(int, int)>, b: int, prio: Option<int>)
    requires
        best matches Some((x, _)) ==> 0 <= x < 4,
        0 <= b < 4,
    ensures
        pick(best, b, prio) matches Some((x, _)) ==> 0 <= x < 4,
{
}

proof fn lemma_best_caller(c: YCtx, st: YState)
    ensures
        best_caller(c, st) matches Some((x, _)) ==> 0 <= x < 4,
{
    let p0 = pick(None, 0, call_priority(c, st, 0));
    let p1 = pick(p0, 1, call_priority(c, st, 1));
    let p2 = pick(p1, 2, call_priority(c, st, 2));
    lemma_pick(None, 0, call_priority(c, st, 0));
    lemma_pick(p0, 1, call_priority(c, st, 1));
    lemma_pick(p1, 2, call_priority(c, st, 2));
    lemma_pick(p2, 3, call_priority(c, st, 3));
}

/// The state after a turn keeps the shape and has fewer takes left to read.
pub open spec fn y_advanced(c: YCtx, st: YState, s2: YState) -> bool {
    &&& y_wf(c, s2)
    &&& y_remaining(c, s2) < y_remaining(c, st)
}

proof fn lemma_y_choose(c: YCtx, st: YState, d: EventV)
    requires
        y_wf(c, st),
    ensures
        y_choose(c, st, d) matches YStep::Continue(s2) ==> y_wf(c, s2) && s2.take_idxs
            == st.take_idxs,
{
    lemma_best_caller(c, YState { last_actor: Some(st.actor as u8), ..st });
}

proof fn lemma_y_after_discard(c: YCtx, st: YState, d: EventV)
    requires
        y_wf(c, st),
    ensures
        y_after_discard(c, st, d) matches YStep::Continue(s2) ==> y_wf(c, s2) && s2.take_idxs
            == st.take_idxs,
{
    let a = st.actor as int;
    if d is Reach {
        let st1 = YState { reach_flag: Some(a as usize), ..st };
        if st1.discard_idxs[a] < c.discards[a].len() {
            let dh = c.discards[a][st1.discard_idxs[a] as int];
            let st2 = record_discard(
                YState {
                    discard_idxs: st1.discard_idxs.update(a, (st1.discard_idxs[a] + 1) as usize),
                    ..st1
                },
                dh,
            );
            lemma_y_choose(c, YState { events: st2.events.push(dh), ..st2 }, d);
        }
    } else {
        lemma_y_choose(c, st, d);
    }
}

proof fn lemma_y_after_take(c: YCtx, st: YState)
    requires
        y_wf(c, st),
    ensures
        y_after_take(c, st) matches YStep::Continue(s2) ==> y_wf(c, s2) && s2.take_idxs
            == st.take_idxs,
{
    let a = st.actor as int;
    if st.discard_idxs[a] < c.discards[a].len() {
        let d = c.discards[a][st.discard_idxs[a] as int];
        let st1 = record_discard(
            YState {
                discard_idxs: st.discard_idxs.update(a, (st.discard_idxs[a] + 1) as usize),
                ..st
            },
            d,
        );
        let st2 = if st1.need_dora_at_discard {
            if d is Dahai || d is Ankan {
                match y_dora(c, st1) {
                    Ok(x) => Ok(YState { need_dora_at_discard: false, ..x }),
                    Err(e) => Err(e),
                }
            } else if d is Kakan {
                Ok(YState { need_dora_at_tsumo: true, ..st1 })
            } else {
                Ok(st1)
            }
        } else {
            Ok(st1)
        };
        if let Ok(st2) = st2 {
            lemma_y_after_discard(c, YState { events: st2.events.push(d), ..st2 }, d);
        }
    }
}

/// Every turn that does not end the replay reads one more take and keeps the shape.
pub proof fn lemma_y_step(c: YCtx, st: YState)
    requires
        y_wf(c, st),
    ensures
        y_step(c, st) matches YStep::Continue(s2) ==> y_advanced(c, st, s2),
{
    let a = st.actor as int;
    if st.take_idxs[a] < c.takes[a].len() {
        let take = c.takes[a][st.take_idxs[a] as int];
        let st1 = YState {
            take_idxs: st.take_idxs.update(a, (st.take_idxs[a] + 1) as usize),
            ..st
        };
        assert(y_remaining(c, st1) < y_remaining(c, st));
        if !naki_mismatch(take, st) {
            let st2 = match st1.reach_flag {
                Some(r) => YState {
                    reach_flag: None,
                    events: st1.events.push(EventV::ReachAccepted { actor: r as u8 }),
                    ..st1
                },
                None => st1,
            };
            if !(take is Daiminkan) {
                let st3 = if take is Tsumo && st2.need_dora_at_tsumo {
                    match y_dora(c, st2) {
                        Ok(x) => Ok(YState { need_dora_at_tsumo: false, ..x }),
                        Err(e) => Err(e),
                    }
                } else {
                    Ok(st2)
                };
                if let Ok(st3) = st3 {
                    lemma_y_after_take(c, YState { events: st3.events.push(take), ..st3 });
                }
            }
        }
    }
}

/// The outcome of one replay from `st`: the events or the error it ends with, and the
/// choices at ambiguous calls as it leaves them.
#[verifier::opaque]
pub open spec fn y_run(c: YCtx, st: YState) -> (Result<Seq<EventV>, ConvertErrorV>, Map<u8, i32>)
    decreases y_remaining(c, st),
    when y_wf(c, st)
{
    match y_step(c, st) {
        YStep::Continue(s2) => {
            proof {
                lemma_y_step(c, st);
            }
            y_run(c, s2)
        },
        YStep::Done(s2) => (Ok(s2.events), s2.backtracks),
        YStep::Fail(e) => (Err(e), st.backtracks),
    }
}

/// The state a replay starts from: `start` emitted, `oya` on turn, nothing read, and the
/// choices `bt` at ambiguous calls.
pub open spec fn y_init(c: YCtx, start: EventV, oya: usize, bt: Map<u8, i32>) -> YState {
    YState {
        events: seq![start],
        dora_idx: 1,
        counts: seq![
            dahai_counts(c.discards[0]),
            dahai_counts(c.discards[1]),
            dahai_counts(c.discards[2]),
            dahai_counts(c.discards[3]),
        ],
        take_idxs: seq![0usize, 0usize, 0usize, 0usize],
        discard_idxs: seq![0usize, 0usize, 0usize, 0usize],
        reach_flag: None,
        last_discard: tile_from_id(37),
        last_actor: None,
        need_dora_at_discard: false,
        need_dora_at_tsumo: false,
        actor: oya,
        backtracks: bt,
    }
}

/// How the choices at ambiguous calls treat the tile `k`: 0 when it has no choice yet,
/// 1 when the first dahai is taken as the one called, 2 when the second is.
pub open spec fn choice_digit(m: Map<u8, i32>, k: u8) -> u8 {
    if !m.dom().contains(k) {
        0
    } else if m[k] != 0 {
        1
    } else {
        2
    }
}

/// The choices at ambiguous calls as one digit per tile identifier.
pub open spec fn choice_digits(m: Map<u8, i32>) -> Seq<u8> {
    Seq::new(256, |i: int| choice_digit(m, i as u8))
}

/// The number whose base-3 digits, most significant first, are `d`.
pub open spec fn base3(d: Seq<u8>) -> int
    decreases d.len(),
{
    if d.len() == 0 {
        0
    } else {
        3 * base3(d.drop_last()) + d.last()
    }
}

pub open spec fn pow3(n: nat) -> int
    decreases n,
{
    if n == 0 {
        1
    } else {
        3 * pow3((n - 1) as nat)
    }
}

/// A number that tells the choices at ambiguous calls apart.
pub open spec fn choices_code(m: Map<u8, i32>) -> int {
    base3(choice_digits(m))
}

/// How many different codes choices can have.
pub open spec fn choice_states() -> int {
    pow3(256)
}

/// Every choice is 1 (the first dahai) or 0 (the second).
pub open spec fn choices_ok(m: Map<u8, i32>) -> bool {
    forall|k: u8| m.dom().contains(k) ==> (#[trigger] m[k] == 0 || m[k] == 1)
}

/// A retry from the choices `bt` after the first replay failed with `first`; `seen` holds
/// the codes of the choices that earlier retries started from. A retry that would start
/// from choices already tried repeats the same replays without end; there the first
/// error is the answer. Otherwise the replays go on until one succeeds, or one fails with
/// no ambiguous choice left to revisit, when the first error is the answer.
pub open spec fn y_retry(
    c: YCtx,
    start: EventV,
    oya: usize,
    bt: Map<u8, i32>,
    first: ConvertErrorV,
    seen: Set<int>,
) -> Result<Seq<EventV>, ConvertErrorV>
    decreases choice_states() - seen.len(),
{
    if seen.contains(choices_code(bt)) || !seen.finite() || seen.len() >= choice_states() {
        Err(first)
    } else {
        let (r, bt2) = y_run(c, y_init(c, start, oya, bt));
        match r {
            Ok(evs) => Ok(evs),
            Err(_) => if bt2.is_empty() {
                Err(first)
            } else {
                y_retry(c, start, oya, bt2, first, seen.insert(choices_code(bt)))
            },
        }
    }
}

/// The answer the replays come to: the first replay's, when it succeeds or leaves no
/// choice to revisit, else that of the retries.
pub open spec fn y_search_result(c: YCtx, start: EventV, oya: usize) -> Result<
    Seq<EventV>,
    ConvertErrorV,
> {
    let (r, bt) = y_run(c, y_init(c, start, oya, Map::empty()));
    match r {
        Ok(evs) => Ok(evs),
        Err(e) => if bt.is_empty() {
            Err(e)
        } else {
            y_retry(c, start, oya, bt, e, Set::empty())
        },
    }
}

proof fn lemma_base3_range(d: Seq<u8>)
    requires
        forall|j: int| 0 <= j < d.len() ==> #[trigger] d[j] < 3,
    ensures
        0 <= base3(d) < pow3(d.len()),
    decreases d.len(),
{
    if d.len() > 0 {
        let p = d.drop_last();
        assert forall|j: int| 0 <= j < p.len() implies #[trigger] p[j] < 3 by {
            assert(p[j] == d[j]);
        }
        lemma_base3_range(p);
        assert(d.last() == d[d.len() - 1]);
    }
}

proof fn lemma_base3_injective(a: Seq<u8>, b: Seq<u8>)
    requires
        a.len() == b.len(),
        forall|j: int| 0 <= j < a.len() ==> #[trigger] a[j] < 3,
        forall|j: int| 0 <= j < b.len() ==> #[trigger] b[j] < 3,
        base3(a) == base3(b),
    ensures
        a == b,
    decreases a.len(),
{
    if a.len() > 0 {
        let pa = a.drop_last();
        let pb = b.drop_last();
        assert(a.last() == a[a.len() - 1]);
        assert(b.last() == b[b.len() - 1]);
        assert(a.last() == b.last() && base3(pa) == base3(pb));
        assert forall|j: int| 0 <= j < pa.len() implies #[trigger] pa[j] < 3 by {
            assert(pa[j] == a[j]);
        }
        assert forall|j: int| 0 <= j < pb.len() implies #[trigger] pb[j] < 3 by {
            assert(pb[j] == b[j]);
        }
        lemma_base3_injective(pa, pb);
        assert(a =~= pa.push(a.last()));
        assert(b =~= pb.push(b.last()));
    }
}

proof fn lemma_choice_digits(m: Map<u8, i32>)
    ensures
        choice_digits(m).len() == 256,
        forall|j: int| 0 <= j < 256 ==> #[trigger] choice_digits(m)[j] < 3,
        0 <= choices_code(m) < choice_states(),
{
    lemma_base3_range(choice_digits(m));
}

/// Choices whose codes are equal are the same choices.
pub proof fn lemma_choices_code_injective(m1: Map<u8, i32>, m2: Map<u8, i32>)
    requires
        choices_ok(m1),
        choices_ok(m2),
        choices_code(m1) == choices_code(m2),
    ensures
        m1 == m2,
{
    lemma_choice_digits(m1);
    lemma_choice_digits(m2);
    lemma_base3_injective(choice_digits(m1), choice_digits(m2));
    assert forall|k: u8| #[trigger] m1.dom().contains(k) == m2.dom().contains(k) && (
    m1.dom().contains(k) ==> m1[k] == m2[k]) by {
        assert(choice_digits(m1)[k as int] == choice_digit(m1, k));
        assert(choice_digits(m2)[k as int] == choice_digit(m2, k));
    }
    assert(m1 =~= m2);
}

/// Sets of codes of choices hold fewer than all codes while a code is missing.
proof fn lemma_seen_room(seen: Set<int>, code: int)
    requires
        seen.finite(),
        forall|x: int| seen.contains(x) ==> 0 <= x < choice_states(),
        0 <= code < choice_states(),
        !seen.contains(code),
    ensures
        seen.len() < choice_states(),
{
    vstd::set_lib::lemma_int_range(0, choice_states());
    let all = vstd::set_lib::set_int_range(0, choice_states());
    assert(seen.insert(code).subset_of(all));
    vstd::set_lib::lemma_len_subset(seen.insert(code), all);
}

/// A retry from choices not tried before is run: the search is cut short only at choices
/// that an earlier retry started from, where the same replays would repeat without end
/// (codes tell choices apart, `lemma_choices_code_injective`, and replays keep every
/// choice at 1 or 0, `lemma_y_run_choices`).
pub proof fn lemma_retry_runs_untried(
    c: YCtx,
    start: EventV,
    oya: usize,
    bt: Map<u8, i32>,
    first: ConvertErrorV,
    seen: Set<int>,
)
    requires
        seen.finite(),
        forall|x: int| seen.contains(x) ==> 0 <= x < choice_states(),
        !seen.contains(choices_code(bt)),
    ensures
        y_retry(c, start, oya, bt, first, seen) == match y_run(c, y_init(c, start, oya, bt)) {
            (Ok(evs), _) => Ok::<Seq<EventV>, ConvertErrorV>(evs),
            (Err(_), bt2) => if bt2.is_empty() {
                Err::<Seq<EventV>, ConvertErrorV>(first)
            } else {
                y_retry(c, start, oya, bt2, first, seen.insert(choices_code(bt)))
            },
        },
        forall|x: int| seen.insert(choices_code(bt)).contains(x) ==> 0 <= x < choice_states(),
{
    lemma_choice_digits(bt);
    lemma_seen_room(seen, choices_code(bt));
}

// ---------------------------------------------------------------------------
// The replay, as executed.
// ---------------------------------------------------------------------------

/// Whether a turn ends the replay.
#[derive(Clone, Copy, Debug, PartialEq, Eq, Structural)]
pub enum Flow {
    Continue,
    Done,
}

/// The executed turn `r`, leaving `after`, is the turn `expect` that the replay
/// prescribes from `before`; a failing turn keeps the choices at ambiguous calls.
pub open spec fn flow_matches(
    r: Result<Flow, ConvertError>,
    after: YState,
    before: YState,
    expect: YStep,
) -> bool {
    match expect {
        YStep::Continue(s) => r == Ok::<Flow, ConvertError>(Flow::Continue) && after == s,
        YStep::Done(s) => r == Ok::<Flow, ConvertError>(Flow::Done) && after == s,
        YStep::Fail(e) => r is Err && r->Err_0@ == e && after.backtracks == before.backtracks,
    }
}

pub open spec fn maps_view(v: Seq<AHashMap<u8, i32>>) -> Seq<Map<u8, i32>> {
    v.map_values(|m: AHashMap<u8, i32>| tile_map_entries(m))
}

struct YonmaAttempt<'a> {
    kyoku: &'a Kyoku,
    takes: &'a Vec<Vec<Event>>,
    discards: &'a Vec<Vec<Event>>,
    events: Vec<Event>,
    dora_idx: usize,
    counts: Vec<AHashMap<u8, i32>>,
    take_idxs: [usize; 4],
    discard_idxs: [usize; 4],
    reach_flag: Option<usize>,
    last_discard: Tile,
    last_actor: Option<u8>,
    need_dora_at_discard: bool,
    need_dora_at_tsumo: bool,
    actor: usize,
    backtracks: AHashMap<u8, i32>,
}

impl<'a> YonmaAttempt<'a> {
    spec fn ctx(&self) -> YCtx {
        YCtx {
            kyoku: self.kyoku@,
            takes: crate::sanma::streams_view(self.takes@),
            discards: crate::sanma::streams_view(self.discards@),
        }
    }

    spec fn state(&self) -> YState {
        YState {
            events: events_view(self.events@),
            dora_idx: self.dora_idx,
            counts: maps_view(self.counts@),
            take_idxs: self.take_idxs@,
            discard_idxs: self.discard_idxs@,
            reach_flag: self.reach_flag,
            last_discard: self.last_discard,
            last_actor: self.last_actor,
            need_dora_at_discard: self.need_dora_at_discard,
            need_dora_at_tsumo: self.need_dora_at_tsumo,
            actor: self.actor,
            backtracks: tile_map_entries(self.backtracks),
        }
    }

    spec fn wf(&self) -> bool {
        &&& self.takes@.len() == 4
        &&& self.discards@.len() == 4
        &&& self.counts@.len() == 4
        &&& self.actor < 4
    }

    /// The recorded data is the same.
    spec fn same_data(&self, other: &Self) -> bool {
        &&& self.kyoku == other.kyoku
        &&& self.takes == other.takes
        &&& self.discards == other.discards
    }

    proof fn lemma_wf(&self)
        requires
            self.wf(),
        ensures
            y_wf(self.ctx(), self.state()),
            forall|a: int|
                0 <= a < 4 ==> #[trigger] self.ctx().takes[a].len() == self.takes@[a]@.len()
                    && self.ctx().discards[a].len() == self.discards@[a]@.len(),
            forall|a: int, i: int|
                0 <= a < 4 && 0 <= i < self.takes@[a]@.len() ==> #[trigger] self.ctx().takes[a][i]
                    == self.takes@[a]@[i]@,
            forall|a: int, i: int|
                0 <= a < 4 && 0 <= i < self.discards@[a]@.len()
                    ==> #[trigger] self.ctx().discards[a][i] == self.discards@[a]@[i]@,
    {
        assert forall|a: int| 0 <= a < 4 implies #[trigger] self.ctx().takes[a].len()
            <= usize::MAX by {
            assert(self.takes@[a].len() == self.takes@[a]@.len());
        }
        assert forall|a: int| 0 <= a < 4 implies #[trigger] self.ctx().discards[a].len()
            <= usize::MAX by {
            assert(self.discards@[a].len() == self.discards@[a]@.len());
        }
    }

    fn push_event(&mut self, e: Event)
        ensures
            final(self).same_data(old(self)),
            final(self).wf() == old(self).wf(),
            final(self).state() == (YState {
                events: old(self).state().events.push(e@),
                ..old(self).state()
            }),
    {
        let ghost before = events_view(self.events@);
        self.events.push(e);
        assert(events_view(self.events@) =~= before.push(e@));
    }

    /// Reveals the next dora indicator.
    fn dora(&mut self) -> (res: Result<(), ConvertError>)
        ensures
            final(self).same_data(old(self)),
            final(self).wf() == old(self).wf(),
            match y_dora(old(self).ctx(), old(self).state()) {
                Ok(s) => res is Ok && final(self).state() == s,
                Err(e) => res is Err && res->Err_0@ == e && final(self).state() == old(
                    self,
                ).state(),
            },
    {
        if self.dora_idx < self.kyoku.dora_indicators.len() {
            let dora_marker = self.kyoku.dora_indicators[self.dora_idx];
            self.dora_idx = self.dora_idx + 1;
            self.push_event(Event::Dora { dora_marker });
            Ok(())
        } else {
            Err(
                ConvertError::InsufficientDoraIndicators {
                    kyoku: self.kyoku.meta.kyoku_num,
                    honba: self.kyoku.meta.honba,
                },
            )
        }
    }

    /// Records `d` as the last discard of the player on turn, when it is a dahai.
    fn record_discard(&mut self, d: &Event)
        requires
            old(self).wf(),
        ensures
            final(self).same_data(old(self)),
            final(self).wf(),
            final(self).state() == record_discard(old(self).state(), d@),
    {
        if let Event::Dahai { pai, .. } = d {
            let a = self.actor;
            self.last_discard = *pai;
            let k = pai.as_u8();
            let ghost m0 = maps_view(self.counts@);
            match tile_map_get(&self.counts[a], k) {
                Some(v) => {
                    tile_map_insert(&mut self.counts[a], k, v.wrapping_sub(1));
                },
                None => {},
            }
            assert(maps_view(self.counts@) =~= m0.update(
                a as int,
                dec_count(m0[a as int], k),
            ));
        }
    }

    fn all_takes_consumed(&self) -> (res: bool)
        requires
            self.wf(),
        ensures
            res == all_takes_consumed(self.ctx(), self.state()),
    {
        proof {
            self.lemma_wf();
        }
        let takes = self.takes;
        let res = self.take_idxs[0] >= takes[0].len() && self.take_idxs[1] >= takes[1].len()
            && self.take_idxs[2] >= takes[2].len() && self.take_idxs[3] >= takes[3].len();
        assert(res == all_takes_consumed(self.ctx(), self.state())) by {
            if !res {
                let a: int = if self.take_idxs[0] < takes[0].len() {
                    0
                } else if self.take_idxs[1] < takes[1].len() {
                    1
                } else if self.take_idxs[2] < takes[2].len() {
                    2
                } else {
                    3
                };
                assert(self.state().take_idxs[a] < self.ctx().takes[a].len());
            }
        }
        res
    }

    /// Closes the kyoku with its result events.
    fn finish(&mut self) -> (res: Result<Flow, ConvertError>)
        requires
            old(self).wf(),
        ensures
            final(self).same_data(old(self)),
            final(self).wf(),
            flow_matches(res, final(self).state(), old(self).state(), finish(old(self).ctx(), old(self).state())),
    {
        let ghost before = events_view(self.events@);
        end_kyoku(&mut self.events, self.kyoku);
        assert(events_view(self.events@) == before + end_events(self.kyoku@));
        Ok(Flow::Done)
    }

    /// The priority with which seat `b` calls the last discard, if its next take calls it.
    fn call_priority(&self, b: usize) -> (res: Option<i8>)
        requires
            self.wf(),
            b < 4,
        ensures
            match call_priority(self.ctx(), self.state(), b as int) {
                Some(o) => res matches Some(r) && r as int == o,
                None => res is None,
            },
    {
        proof {
            self.lemma_wf();
        }
        let takes = self.takes;
        if b == self.actor || self.take_idxs[b] >= takes[b].len() {
            return None;
        }
        let take = &takes[b][self.take_idxs[b]];
        match take.naki_info() {
            Some((target, pai)) => {
                if target == self.actor as u8 && pai == self.last_discard {
                    Some(take.naki_to_ord())
                } else {
                    None
                }
            },
            None => None,
        }
    }

    /// The caller with the highest priority, the last one among equals.
    fn best_caller(&self) -> (res: Option<usize>)
        requires
            self.wf(),
        ensures
            match best_caller(self.ctx(), self.state()) {
                Some((b, _)) => res == Some(b as usize),
                None => res is None,
            },
    {
        let ghost c = self.ctx();
        let ghost st = self.state();
        let mut best: Option<(usize, i8)> = None;
        let mut b: usize = 0;
        while b < 4
            invariant
                self.wf(),
                c == self.ctx(),
                st == self.state(),
                b <= 4,
                pair_view(best) == best_upto(c, st, b as int),
            decreases 4 - b,
        {
            let prio = self.call_priority(b);
            best = match prio {
                None => best,
                Some(o) => match best {
                    None => Some((b, o)),
                    Some((_, bo)) => if o >= bo {
                        Some((b, o))
                    } else {
                        best
                    },
                },
            };
            b += 1;
        }
        proof {
            reveal_with_fuel(best_upto, 5);
            lemma_best_caller(c, st);
        }
        match best {
            Some((b, _)) => Some(b),
            None => None,
        }
    }

    /// After the discard `d`: the end of the kyoku, the replacement draw after a kan, or
    /// the next player.
    fn next_turn(&mut self, d: &Event) -> (res: Result<Flow, ConvertError>)
        requires
            old(self).wf(),
        ensures
            final(self).same_data(old(self)),
            final(self).wf(),
            flow_matches(res, final(self).state(), old(self).state(), y_choose(old(self).ctx(), old(self).state(), d@)),
    {
        proof {
            self.lemma_wf();
            lemma_best_caller(self.ctx(), YState { last_actor: Some(self.actor as u8), ..self.state() });
        }
        if self.all_takes_consumed() {
            return self.finish();
        }
        match d {
            Event::Ankan { .. } => {
                return match self.dora() {
                    Ok(()) => Ok(Flow::Continue),
                    Err(e) => Err(e),
                };
            },
            Event::Kakan { .. } => {
                self.need_dora_at_discard = true;
                return Ok(Flow::Continue);
            },
            _ => {},
        }
        let a = self.actor;
        self.last_actor = Some(a as u8);
        let shimocha = (a + 1) % 4;
        let ld = self.last_discard.as_u8();
        match self.best_caller() {
            None => {
                self.actor = shimocha;
            },
            Some(b) => {
                let discards = self.discards;
                if self.discard_idxs[a] >= discards[a].len() {
                    self.actor = b;
                } else {
                    let has_same = match tile_map_get(&self.counts[a], ld) {
                        Some(v) => v > 0,
                        None => false,
                    };
                    if !has_same {
                        self.actor = b;
                    } else {
                        match tile_map_get(&self.backtracks, ld) {
                            None => {
                                // try taking the first dahai as the one called
                                tile_map_insert(&mut self.backtracks, ld, 1);
                                self.actor = b;
                            },
                            Some(v) => {
                                if v != 0 {
                                    // the first dahai failed: try the second
                                    tile_map_insert(&mut self.backtracks, ld, 0);
                                } else {
                                    // both failed: backtrack further
                                    tile_map_remove(&mut self.backtracks, ld);
                                }
                                self.actor = shimocha;
                            },
                        }
                    }
                }
            },
        }
        Ok(Flow::Continue)
    }

    /// After the discard `d` has been emitted: the dahai that a riichi declaration
    /// announces, then the next turn.
    fn after_discard(&mut self, d: &Event) -> (res: Result<Flow, ConvertError>)
        requires
            old(self).wf(),
        ensures
            final(self).same_data(old(self)),
            final(self).wf(),
            flow_matches(res, final(self).state(), old(self).state(), y_after_discard(old(self).ctx(), old(self).state(), d@)),
    {
        proof {
            self.lemma_wf();
        }
        let a = self.actor;
        if let Event::Reach { .. } = d {
            self.reach_flag = Some(a);
            let discards = self.discards;
            if self.discard_idxs[a] >= discards[a].len() {
                return Err(
                    ConvertError::InsufficientDiscards {
                        kyoku: self.kyoku.meta.kyoku_num,
                        honba: self.kyoku.meta.honba,
                        actor: a as u8,
                    },
                );
            }
            let dh = discards[a][self.discard_idxs[a]].duplicate();
            self.discard_idxs[a] = self.discard_idxs[a] + 1;
            self.record_discard(&dh);
            self.push_event(dh);
        }
        self.next_turn(d)
    }

    /// After the take has been emitted: the end of the kyoku when the player on turn has
    /// no discard left, else their next discard.
    fn after_take(&mut self) -> (res: Result<Flow, ConvertError>)
        requires
            old(self).wf(),
        ensures
            final(self).same_data(old(self)),
            final(self).wf(),
            flow_matches(res, final(self).state(), old(self).state(), y_after_take(old(self).ctx(), old(self).state())),
    {
        proof {
            self.lemma_wf();
        }
        let a = self.actor;
        let discards = self.discards;
        if self.discard_idxs[a] >= discards[a].len() {
            return self.finish();
        }
        let d = discards[a][self.discard_idxs[a]].duplicate();
        self.discard_idxs[a] = self.discard_idxs[a] + 1;
        self.record_discard(&d);
        if self.need_dora_at_discard {
            match &d {
                Event::Dahai { .. } | Event::Ankan { .. } => {
                    match self.dora() {
                        Ok(()) => {},
                        Err(e) => {
                            return Err(e);
                        },
                    }
                    self.need_dora_at_discard = false;
                },
                Event::Kakan { .. } => {
                    self.need_dora_at_tsumo = true;
                },
                _ => {},
            }
        }
        self.push_event(d.duplicate());
        self.after_discard(&d)
    }

    /// One turn: the take of the player on turn, then their discard.
    fn step(&mut self) -> (res: Result<Flow, ConvertError>)
        requires
            old(self).wf(),
        ensures
            final(self).same_data(old(self)),
            final(self).wf(),
            flow_matches(res, final(self).state(), old(self).state(), y_step(old(self).ctx(), old(self).state())),
    {
        proof {
            self.lemma_wf();
        }
        let a = self.actor;
        let takes = self.takes;
        if self.take_idxs[a] >= takes[a].len() {
            return Err(
                ConvertError::InsufficientTakes {
                    kyoku: self.kyoku.meta.kyoku_num,
                    honba: self.kyoku.meta.honba,
                    actor: a as u8,
                },
            );
        }
        let take = &takes[a][self.take_idxs[a]];
        if let Some((target, pai)) = take.naki_info() {
            let mismatch = pai != self.last_discard || match self.last_actor {
                Some(la) => la != target || la == a as u8,
                None => false,
            };
            if mismatch {
                return Err(
                    ConvertError::UnexpectedNaki {
                        action: take.duplicate(),
                        last_discard: self.last_discard,
                        last_actor: self.last_actor,
                        kyoku: self.kyoku.meta.kyoku_num,
                        honba: self.kyoku.meta.honba,
                        actor: a as u8,
                    },
                );
            }
        }
        self.take_idxs[a] = self.take_idxs[a] + 1;
        if let Some(r) = self.reach_flag {
            self.reach_flag = None;
            self.push_event(Event::ReachAccepted { actor: r as u8 });
        }
        if let Event::Daiminkan { .. } = take {
            if self.need_dora_at_discard {
                match self.dora() {
                    Ok(()) => {},
                    Err(e) => {
                        return Err(e);
                    },
                }
            }
            self.push_event(take.duplicate());
            self.need_dora_at_discard = true;
            return Ok(Flow::Continue);
        }
        if let Event::Tsumo { .. } = take {
            if self.need_dora_at_tsumo {
                match self.dora() {
                    Ok(()) => {},
                    Err(e) => {
                        return Err(e);
                    },
                }
                self.need_dora_at_tsumo = false;
            }
        }
        self.push_event(take.duplicate());
        self.after_take()
    }

    /// Plays turns until the replay ends.
    fn run(&mut self) -> (res: Result<(), ConvertError>)
        requires
            old(self).wf(),
        ensures
            final(self).same_data(old(self)),
            match res {
                Ok(()) => y_run(old(self).ctx(), old(self).state()) == (
                Ok::<Seq<EventV>, ConvertErrorV>(events_view(final(self).events@)),
                tile_map_entries(final(self).backtracks),
                ),
                Err(e) => y_run(old(self).ctx(), old(self).state()) == (
                Err::<Seq<EventV>, ConvertErrorV>(e@),
                tile_map_entries(final(self).backtracks),
                ),
            },
    {
        proof {
            self.lemma_wf();
        }
        let ghost c = self.ctx();
        let ghost goal = y_run(c, self.state());
        loop
            invariant
                self.wf(),
                self.same_data(old(self)),
                self.ctx() == c,
                c == old(self).ctx(),
                goal == y_run(old(self).ctx(), old(self).state()),
                y_wf(c, self.state()),
                y_run(c, self.state()) == goal,
            decreases y_remaining(c, self.state()),
        {
            let ghost before = self.state();
            proof {
                lemma_y_step(c, before);
                reveal(y_run);
            }
            match self.step() {
                Ok(Flow::Continue) => {
                    proof {
                        self.lemma_wf();
                    }
                },
                Ok(Flow::Done) => {
                    return Ok(());
                },
                Err(e) => {
                    return Err(e);
                },
            }
        }
    }
}

impl<'a> YonmaAttempt<'a> {
    /// A replay of the given streams from `start`, with `oya` on turn and the choices
    /// `backtracks` at ambiguous calls.
    fn new(
        kyoku: &'a Kyoku,
        takes: &'a Vec<Vec<Event>>,
        discards: &'a Vec<Vec<Event>>,
        start: Event,
        oya: usize,
        backtracks: AHashMap<u8, i32>,
    ) -> (res: Self)
        requires
            takes@.len() == 4,
            discards@.len() == 4,
            oya < 4,
        ensures
            res.wf(),
            res.kyoku == kyoku,
            res.takes == takes,
            res.discards == discards,
            res.state() == y_init(res.ctx(), start@, oya, tile_map_entries(backtracks)),
    {
        let mut counts: Vec<AHashMap<u8, i32>> = Vec::new();
        counts.push(dahai_counts_of(&discards[0]));
        counts.push(dahai_counts_of(&discards[1]));
        counts.push(dahai_counts_of(&discards[2]));
        counts.push(dahai_counts_of(&discards[3]));
        let ghost sv = start@;
        let res = YonmaAttempt {
            kyoku,
            takes,
            discards,
            events: vec![start],
            dora_idx: 1,
            counts,
            take_idxs: [0; 4],
            discard_idxs: [0; 4],
            reach_flag: None,
            last_discard: Tile::unknown(),
            last_actor: None,
            need_dora_at_discard: false,
            need_dora_at_tsumo: false,
            actor: oya,
            backtracks,
        };
        assert(events_view(res.events@) =~= seq![sv]);
        assert(res.take_idxs@ =~= seq![0usize, 0usize, 0usize, 0usize]);
        assert(res.discard_idxs@ =~= seq![0usize, 0usize, 0usize, 0usize]);
        assert(maps_view(res.counts@) =~= seq![
            dahai_counts(res.ctx().discards[0]),
            dahai_counts(res.ctx().discards[1]),
            dahai_counts(res.ctx().discards[2]),
            dahai_counts(res.ctx().discards[3]),
        ]);
        res
    }
}

/// How many times each tile occurs as a dahai in a discard stream.
fn dahai_counts_of(ds: &Vec<Event>) -> (res: AHashMap<u8, i32>)
    ensures
        tile_map_entries(res) == dahai_counts(events_view(ds@)),
{
    let mut m = tile_map_new();
    let mut i: usize = 0;
    assert(tile_map_entries(m) =~= Map::empty());
    while i < ds.len()
        invariant
            i <= ds@.len(),
            tile_map_entries(m) == dahai_counts(events_view(ds@).take(i as int)),
        decreases ds.len() - i,
    {
        assert(events_view(ds@).take(i + 1).drop_last() =~= events_view(ds@).take(i as int));
        if let Event::Dahai { pai, .. } = &ds[i] {
            let k = pai.as_u8();
            match tile_map_get(&m, k) {
                Some(v) => tile_map_insert(&mut m, k, v.wrapping_add(1)),
                None => tile_map_insert(&mut m, k, 1),
            }
        }
        i += 1;
    }
    assert(events_view(ds@).take(i as int) =~= events_view(ds@));
    m
}

pub open spec fn pair_view(o: Option<(usize, i8)>) -> Option<(int, int)> {
    match o {
        Some((b, p)) => Some((b as int, p as int)),
        None => None,
    }
}

/// The best caller among the seats below `n`.
pub open spec fn best_upto(c: YCtx, st: YState, n: int) -> Option<(int, int)>
    decreases n,
{
    if n <= 0 {
        None
    } else {
        pick(best_upto(c, st, n - 1), n - 1, call_priority(c, st, n - 1))
    }
}


// ---------------------------------------------------------------------------
// The kyoku.
// ---------------------------------------------------------------------------

/// The take and discard streams of the first `n` seats of a four-player kyoku, read in
/// seat order; the first error met is returned.
pub open spec fn yonma_streams(tables: Seq<ActionTableV>, n: nat) -> Result<
    (Seq<Seq<EventV>>, Seq<Seq<EventV>>),
    ConvertErrorV,
>
    decreases n,
{
    if n == 0 {
        Ok((seq![], seq![]))
    } else {
        match yonma_streams(tables, (n - 1) as nat) {
            Err(e) => Err(e),
            Ok((ts, ds)) => match yonma_seat_streams(
                (n - 1) as u8,
                tables[n - 1].takes,
                tables[n - 1].discards,
            ) {
                Err(e) => Err(e),
                Ok((t, d)) => Ok((ts.push(t), ds.push(d))),
            },
        }
    }
}

pub(crate) proof fn lemma_yonma_streams_step(tables: Seq<ActionTableV>, n: nat)
    ensures
        yonma_streams(tables, n + 1) == match yonma_streams(tables, n) {
            Err(e) => Err(e),
            Ok((ts, ds)) => match yonma_seat_streams(
                n as u8,
                tables[n as int].takes,
                tables[n as int].discards,
            ) {
                Err(e) => Err(e),
                Ok((t, d)) => Ok((ts.push(t), ds.push(d))),
            },
        },
{
}

proof fn lemma_yonma_streams_err(tables: Seq<ActionTableV>, n: nat, m: nat)
    requires
        n <= m,
        yonma_streams(tables, n) is Err,
    ensures
        yonma_streams(tables, m) == yonma_streams(tables, n),
    decreases m - n,
{
    if n < m {
        lemma_yonma_streams_err(tables, n, (m - 1) as nat);
    }
}

/// The data a four-player replay of kyoku `k` reads, given its streams.
pub open spec fn yonma_ctx(k: KyokuV, ts: Seq<Seq<EventV>>, ds: Seq<Seq<EventV>>) -> YCtx {
    YCtx { kyoku: k, takes: ts, discards: ds }
}

/// The events of a four-player kyoku after `start`, with `oya` on turn first.
pub open spec fn yonma_kyoku_events(k: KyokuV, start: EventV, oya: usize) -> Result<
    Seq<EventV>,
    ConvertErrorV,
> {
    match yonma_streams(k.action_tables, 4) {
        Err(e) => Err(e),
        Ok((ts, ds)) => y_search_result(yonma_ctx(k, ts, ds), start, oya),
    }
}

/// The take and discard streams of the four seats as events.
fn yonma_streams_of(kyoku: &Kyoku) -> (res: Result<(Vec<Vec<Event>>, Vec<Vec<Event>>), ConvertError>)
    requires
        kyoku.action_tables@.len() >= 4,
    ensures
        match res {
            Ok((t, d)) => yonma_streams(kyoku@.action_tables, 4) == Ok::<
                (Seq<Seq<EventV>>, Seq<Seq<EventV>>),
                ConvertErrorV,
            >((crate::sanma::streams_view(t@), crate::sanma::streams_view(d@))) && t@.len() == 4
                && d@.len() == 4,
            Err(e) => yonma_streams(kyoku@.action_tables, 4) == Err::<
                (Seq<Seq<EventV>>, Seq<Seq<EventV>>),
                ConvertErrorV,
            >(e@),
        },
{
    let ghost tables = kyoku@.action_tables;
    let mut takes: Vec<Vec<Event>> = Vec::new();
    let mut discards: Vec<Vec<Event>> = Vec::new();
    let mut actor: usize = 0;
    assert(crate::sanma::streams_view(takes@) =~= seq![]);
    assert(crate::sanma::streams_view(discards@) =~= seq![]);
    while actor < 4
        invariant
            actor <= 4,
            tables == kyoku@.action_tables,
            kyoku.action_tables@.len() >= 4,
            yonma_streams(tables, actor as nat) == Ok::<
                (Seq<Seq<EventV>>, Seq<Seq<EventV>>),
                ConvertErrorV,
            >((crate::sanma::streams_view(takes@), crate::sanma::streams_view(discards@))),
            takes@.len() == actor,
            discards@.len() == actor,
        decreases 4 - actor,
    {
        let table = &kyoku.action_tables[actor];
        proof {
            lemma_yonma_streams_step(tables, actor as nat);
            assert(tables[actor as int] == table@);
        }
        let (t, d) = match parse_takes_and_discards_to_mjai(
            actor as u8,
            table.takes.as_slice(),
            table.discards.as_slice(),
        ) {
            Ok(p) => p,
            Err(e) => {
                proof {
                    lemma_yonma_streams_err(tables, (actor + 1) as nat, 4);
                }
                return Err(e);
            },
        };
        let ghost tv = crate::sanma::streams_view(takes@);
        let ghost dv = crate::sanma::streams_view(discards@);
        takes.push(t);
        discards.push(d);
        assert(crate::sanma::streams_view(takes@) =~= tv.push(events_view(t@)));
        assert(crate::sanma::streams_view(discards@) =~= dv.push(events_view(d@)));
        actor += 1;
    }
    Ok((takes, discards))
}

/// The choices at ambiguous calls as one digit per tile identifier.
fn choice_digits_of(m: &AHashMap<u8, i32>) -> (res: Vec<u8>)
    ensures
        res@ == choice_digits(tile_map_entries(*m)),
{
    let mut res: Vec<u8> = Vec::new();
    let mut k: usize = 0;
    while k < 256
        invariant
            k <= 256,
            res@.len() == k,
            forall|j: int| 0 <= j < k ==> #[trigger] res@[j] == choice_digit(tile_map_entries(*m), j as u8),
        decreases 256 - k,
    {
        let d: u8 = match tile_map_get(m, k as u8) {
            None => 0,
            Some(v) => if v != 0 {
                1
            } else {
                2
            },
        };
        res.push(d);
        k += 1;
    }
    assert(res@ =~= choice_digits(tile_map_entries(*m)));
    res
}

fn same_digits(a: &Vec<u8>, b: &Vec<u8>) -> (res: bool)
    ensures
        res == (a@ == b@),
{
    if a.len() != b.len() {
        return false;
    }
    let mut i: usize = 0;
    while i < a.len()
        invariant
            a@.len() == b@.len(),
            i <= a@.len(),
            forall|j: int| 0 <= j < i ==> a@[j] == b@[j],
        decreases a.len() - i,
    {
        if a[i] != b[i] {
            return false;
        }
        i += 1;
    }
    assert(a@ =~= b@);
    true
}

fn seen_before(list: &Vec<Vec<u8>>, d: &Vec<u8>) -> (res: bool)
    ensures
        res == exists|i: int| 0 <= i < list@.len() && #[trigger] list@[i]@ == d@,
{
    let mut i: usize = 0;
    while i < list.len()
        invariant
            i <= list@.len(),
            forall|j: int| 0 <= j < i ==> #[trigger] list@[j]@ != d@,
        decreases list.len() - i,
    {
        if same_digits(&list[i], d) {
            return true;
        }
        i += 1;
    }
    false
}

/// Replays the streams, revisiting the choices at ambiguous calls after each failed
/// replay, until a replay succeeds, or no choice is left to revisit, or a retry would
/// start from choices already tried and so repeat the same replays without end.
#[verifier::rlimit(40)]
fn search<'a>(
    kyoku: &'a Kyoku,
    takes: &'a Vec<Vec<Event>>,
    discards: &'a Vec<Vec<Event>>,
    start_kyoku: &Event,
    oya: usize,
) -> (res: Result<Vec<Event>, ConvertError>)
    requires
        takes@.len() == 4,
        discards@.len() == 4,
        oya < 4,
    ensures
        y_search_result(
            yonma_ctx(
                kyoku@,
                crate::sanma::streams_view(takes@),
                crate::sanma::streams_view(discards@),
            ),
            start_kyoku@,
            oya,
        ) == match res {
            Ok(v) => Ok::<Seq<EventV>, ConvertErrorV>(events_view(v@)),
            Err(e) => Err::<Seq<EventV>, ConvertErrorV>(e@),
        },
{
    let ghost start = start_kyoku@;
    let ghost c = yonma_ctx(
        kyoku@,
        crate::sanma::streams_view(takes@),
        crate::sanma::streams_view(discards@),
    );
    let ghost answer = y_search_result(c, start, oya);
    let backtracks = tile_map_new();
    assert(tile_map_entries(backtracks) =~= Map::<u8, i32>::empty());
    let mut attempt = YonmaAttempt::new(
        kyoku,
        takes,
        discards,
        start_kyoku.duplicate(),
        oya,
        backtracks,
    );
    assert(attempt.ctx() == c);
    let first_error = match attempt.run() {
        Ok(()) => {
            return Ok(attempt.events);
        },
        Err(err) => err,
    };
    let mut backtracks = attempt.backtracks;
    if tile_map_is_empty(&backtracks) {
        return Err(first_error);
    }
    let mut tried: Vec<Vec<u8>> = Vec::new();
    let ghost mut seen: Set<int> = Set::empty();
    loop
        invariant
            takes@.len() == 4,
            discards@.len() == 4,
            oya < 4,
            c == yonma_ctx(
                kyoku@,
                crate::sanma::streams_view(takes@),
                crate::sanma::streams_view(discards@),
            ),
            answer == y_search_result(c, start, oya),
            answer == y_retry(c, start, oya, tile_map_entries(backtracks), first_error@, seen),
            start == start_kyoku@,
            seen.finite(),
            forall|x: int| seen.contains(x) ==> 0 <= x < choice_states(),
            forall|x: int|
                seen.contains(x) <==> exists|i: int|
                    0 <= i < tried@.len() && base3(#[trigger] tried@[i]@) == x,
            forall|i: int|
                0 <= i < tried@.len() ==> (#[trigger] tried@[i])@.len() == 256 && forall|j: int|
                    0 <= j < 256 ==> tried@[i]@[j] < 3,
        decreases choice_states() - seen.len(),
    {
        let ghost bt0 = tile_map_entries(backtracks);
        let digits = choice_digits_of(&backtracks);
        proof {
            lemma_choice_digits(bt0);
        }
        if seen_before(&tried, &digits) {
            proof {
                let i = choose|i: int| 0 <= i < tried@.len() && #[trigger] tried@[i]@ == digits@;
                assert(base3(tried@[i]@) == choices_code(bt0));
            }
            return Err(first_error);
        }
        proof {
            if seen.contains(choices_code(bt0)) {
                let i = choose|i: int|
                    0 <= i < tried@.len() && base3(#[trigger] tried@[i]@) == choices_code(bt0);
                lemma_base3_injective(tried@[i]@, digits@);
                assert(false);
            }
            lemma_seen_room(seen, choices_code(bt0));
        }
        let mut attempt = YonmaAttempt::new(
            kyoku,
            takes,
            discards,
            start_kyoku.duplicate(),
            oya,
            backtracks,
        );
        assert(attempt.ctx() == c);
        match attempt.run() {
            Ok(()) => {
                return Ok(attempt.events);
            },
            Err(_) => {
                backtracks = attempt.backtracks;
                if tile_map_is_empty(&backtracks) {
                    return Err(first_error);
                }
                let ghost old_tried = tried@;
                tried.push(digits);
                proof {
                    let code = choices_code(bt0);
                    let s2 = seen.insert(code);
                    assert forall|x: int|
                        s2.contains(x) <==> exists|i: int|
                            0 <= i < tried@.len() && base3(#[trigger] tried@[i]@) == x by {
                        if s2.contains(x) {
                            if x == code {
                                assert(base3(tried@[old_tried.len() as int]@) == x);
                            } else {
                                let i = choose|i: int|
                                    0 <= i < old_tried.len() && base3(#[trigger] old_tried[i]@) == x;
                                assert(tried@[i] == old_tried[i]);
                            }
                        }
                        if exists|i: int| 0 <= i < tried@.len() && base3(#[trigger] tried@[i]@) == x {
                            let i = choose|i: int|
                                0 <= i < tried@.len() && base3(#[trigger] tried@[i]@) == x;
                            if i < old_tried.len() {
                                assert(tried@[i] == old_tried[i]);
                            }
                        }
                    }
                    assert forall|i: int|
                        0 <= i < tried@.len() implies (#[trigger] tried@[i])@.len() == 256 && forall|j: int|
                            0 <= j < 256 ==> tried@[i]@[j] < 3 by {
                        if i < old_tried.len() {
                            assert(tried@[i] == old_tried[i]);
                        }
                    }
                    seen = s2;
                }
            },
        }
    }
}

/// Converts a four-player kyoku. Each player's take stream is replayed turn by turn;
/// when the caller of a discard is ambiguous, the first reading is tried first, and a
/// failed replay is retried with the other, until a replay succeeds or none is left to
/// try, when the first error met is returned. A retry that would start from choices
/// already tried would repeat the same replays without end; the search returns the first
/// error there.
pub(crate) fn tenhou_yonma_kyoku_to_mjai_events(kyoku: &Kyoku, start_kyoku: Event, oya: u8) -> (res:
    Result<Vec<Event>, ConvertError>)
    requires
        kyoku.action_tables@.len() >= 4,
        oya < 4,
    ensures
        match res {
            Ok(v) => yonma_kyoku_events(kyoku@, start_kyoku@, oya as usize) == Ok::<
                Seq<EventV>,
                ConvertErrorV,
            >(events_view(v@)),
            Err(e) => yonma_kyoku_events(kyoku@, start_kyoku@, oya as usize) == Err::<
                Seq<EventV>,
                ConvertErrorV,
            >(e@),
        },
        start_kyoku@ is StartKyoku ==> (res matches Ok(v) ==> framed_kyoku(
            events_view(v@),
            start_kyoku@,
        )),
{
    let (takes, discards) = match yonma_streams_of(kyoku) {
        Ok(p) => p,
        Err(e) => {
            return Err(e);
        },
    };
    let res = search(kyoku, &takes, &discards, &start_kyoku, oya as usize);
    proof {
        let c = yonma_ctx(
            kyoku@,
            crate::sanma::streams_view(takes@),
            crate::sanma::streams_view(discards@),
        );
        let start = start_kyoku@;
        if start is StartKyoku {
            assert forall|a: int| 0 <= a < 4 implies #[trigger] c.takes[a].len() <= usize::MAX by {
                assert(c.takes[a].len() == takes@[a]@.len());
                assert(takes@[a].len() == takes@[a]@.len());
            }
            assert forall|a: int| 0 <= a < 4 implies #[trigger] c.discards[a].len() <= usize::MAX by {
                assert(c.discards[a].len() == discards@[a]@.len());
                assert(discards@[a].len() == discards@[a]@.len());
            }
            lemma_yonma_replay_framed(kyoku@.action_tables, c, start, oya as usize);
        }
    }
    res
}

} // verus!
