//! Three-player conversion.
//!
//! Tenhou records one take stream and one discard stream per player. The
//! streams do not carry timing information, so the converter must interleave
//! them. The interleaving is fully determined by the physical rules of the
//! game:
//!
//!   * A player who is on turn draws the next item of their take stream, which
//!     must be a plain draw, then plays the next item of their discard stream.
//!   * After a discard of tile T by X, either some player Y whose next take is
//!     "call T from X" makes that call now, or X's shimocha draws. Both options
//!     are explored; declining a call is legal, but it must lead to a
//!     consistent replay of everyone's streams.
//!   * Nukidora, ankan, kakan and daiminkan are followed by a replacement draw
//!     of the same player.
//!   * The kyoku ends exactly when every stream is fully consumed and the last
//!     event is compatible with the recorded result (a tsumo right after the
//!     winner's draw, or a discard-like event by the ron target). A ron may also
//!     end it while the other seats still hold, unread, only their next draw and
//!     the tsumogiri of it: the record can carry those after the game ended.
//!
//! The search records complete interleavings, stopping at the second one. A
//! kyoku is converted only when exactly one exists.
use vstd::prelude::*;

use crate::error::{ConvertError, ConvertErrorV};
use crate::event::{copy_events, events_view, Event, EventV};
use crate::kyoku_end::{end_events, end_kyoku};
use crate::naki::{
    discard_action_to_events, discards_to_events, take_action_to_events, takes_to_events,
};
use crate::tenhou::{details_view, ActionTableV, EndStatus, EndStatusV, HoraDetailV, Kyoku, KyokuV};
use crate::sanma_laws::{
    dora_markers, lemma_count_dora_markers, lemma_replays_are_whole_kyokus, whole_kyoku,
};
use crate::tile::{deaka_id, group_tile_ids, tile_from_id, Tile};

verus! {

broadcast use group_tile_ids;

/// What the most recent event was, for deciding whether the kyoku may end here.
#[derive(Clone, Copy, Debug, PartialEq, Eq, Structural)]
pub enum Last {
    /// A draw by this actor; only a tsumo win can follow.
    Draw(usize),
    /// A dahai, kakan or nukidora by this actor; only a ron on this actor can follow.
    Discard(usize),
    /// Anything else; only ryukyoku can follow.
    Other,
}

/// The recorded data that a replay reads: the kyoku and every player's take and
/// discard streams as events.
pub struct ReplayCtx {
    pub kyoku: KyokuV,
    pub takes: Seq<Seq<EventV>>,
    pub discards: Seq<Seq<EventV>>,
}

/// The state of a replay: the events so far, how far each stream has been read, the
/// last drawn tile of each player, how many dora indicators have been revealed, the
/// riichi waiting for acceptance, the pending kan dora, and the complete replays found.
pub struct ReplayState {
    pub events: Seq<EventV>,
    pub take_idxs: Seq<usize>,
    pub discard_idxs: Seq<usize>,
    pub last_draw: Seq<Tile>,
    pub dora_idx: usize,
    pub reach_pending: Option<u8>,
    pub need_dora_at_discard: bool,
    pub need_dora_at_tsumo: bool,
    pub solutions: Seq<Seq<EventV>>,
}

/// The search stops once it has found this many complete replays.
pub const MAX_SOLUTIONS: usize = 2;

pub type Sols = Seq<Seq<EventV>>;

pub open spec fn done(s: ReplayState) -> bool {
    s.solutions.len() >= MAX_SOLUTIONS
}

pub open spec fn gap(len: nat, idx: usize) -> nat {
    if idx < len {
        (len - idx) as nat
    } else {
        0
    }
}

/// How many stream items are still unread.
pub open spec fn remaining(c: ReplayCtx, s: ReplayState) -> nat {
    gap(c.takes[0].len(), s.take_idxs[0]) + gap(c.takes[1].len(), s.take_idxs[1]) + gap(
        c.takes[2].len(),
        s.take_idxs[2],
    ) + gap(c.discards[0].len(), s.discard_idxs[0]) + gap(c.discards[1].len(), s.discard_idxs[1])
        + gap(c.discards[2].len(), s.discard_idxs[2])
}

/// The shape a replay state has for three players, with `actor` one of them.
pub open spec fn wf_state(c: ReplayCtx, s: ReplayState, actor: int) -> bool {
    &&& 0 <= actor < 3
    &&& c.takes.len() == 3
    &&& c.discards.len() == 3
    &&& s.take_idxs.len() == 3
    &&& s.discard_idxs.len() == 3
    &&& s.last_draw.len() == 3
    &&& forall|a: int| 0 <= a < 3 ==> #[trigger] c.takes[a].len() <= usize::MAX
    &&& forall|a: int| 0 <= a < 3 ==> #[trigger] c.discards[a].len() <= usize::MAX
}

pub proof fn lemma_next_take_remaining(c: ReplayCtx, s: ReplayState, a: int)
    requires
        wf_state(c, s, a),
        s.take_idxs[a] < c.takes[a].len(),
    ensures
        remaining(c, next_take(s, a)) < remaining(c, s),
{
    let t = next_take(s, a);
    assert(t.take_idxs[a] == s.take_idxs[a] + 1);
    assert(forall|b: int| 0 <= b < 3 && b != a ==> t.take_idxs[b] == s.take_idxs[b]);
    assert(t.discard_idxs == s.discard_idxs);
}

pub proof fn lemma_next_discard_remaining(c: ReplayCtx, s: ReplayState, a: int)
    requires
        wf_state(c, s, a),
        s.discard_idxs[a] < c.discards[a].len(),
    ensures
        remaining(c, next_discard(s, a)) < remaining(c, s),
{
    let t = next_discard(s, a);
    assert(t.discard_idxs[a] == s.discard_idxs[a] + 1);
    assert(forall|b: int| 0 <= b < 3 && b != a ==> t.discard_idxs[b] == s.discard_idxs[b]);
    assert(t.take_idxs == s.take_idxs);
}

pub open spec fn all_consumed(c: ReplayCtx, s: ReplayState) -> bool {
    forall|a: int|
        0 <= a < 3 ==> s.take_idxs[a] >= c.takes[a].len() && s.discard_idxs[a]
            >= c.discards[a].len()
}

/// Whether a win can follow the last event: a tsumo after the winner's draw, a ron
/// after the target's discard.
pub open spec fn win_follows(d: HoraDetailV, last: Last) -> bool {
    if d.who == d.target {
        last == Last::Draw(d.who as usize)
    } else {
        last == Last::Discard(d.target as usize)
    }
}

/// Whether every recorded win can follow the last event.
pub open spec fn wins_follow(details: Seq<HoraDetailV>, last: Last) -> bool {
    forall|i: int| 0 <= i < details.len() ==> #[trigger] win_follows(details[i], last)
}

/// Whether the recorded result can follow the last event.
pub open spec fn result_follows(k: KyokuV, last: Last) -> bool {
    match k.end_status {
        EndStatusV::Ryukyoku { .. } => true,
        EndStatusV::Hora { details } => wins_follow(details, last),
    }
}

/// A riichi declared on the very last discard is accepted when the kyoku ends in a
/// ryukyoku.
pub open spec fn final_reach(k: KyokuV, s: ReplayState) -> Seq<EventV> {
    match (s.reach_pending, k.end_status) {
        (Some(actor), EndStatusV::Ryukyoku { .. }) => seq![EventV::ReachAccepted { actor }],
        _ => seq![],
    }
}

/// Seat `b` has read all its takes and discards.
pub open spec fn seat_consumed(c: ReplayCtx, s: ReplayState, b: int) -> bool {
    s.take_idxs[b] >= c.takes[b].len() && s.discard_idxs[b] >= c.discards[b].len()
}

/// What seat `b` has left unread is one plain draw and the tsumogiri of it: nothing else.
pub open spec fn phantom_tail(c: ReplayCtx, s: ReplayState, b: int) -> bool {
    let ti = s.take_idxs[b] as int;
    let di = s.discard_idxs[b] as int;
    &&& ti + 1 == c.takes[b].len()
    &&& c.takes[b][ti] is Tsumo
    &&& di + 1 == c.discards[b].len()
    &&& c.discards[b][di] is Dahai
    &&& c.discards[b][di]->Dahai_tsumogiri
}

/// A ron on seat `t` may end the kyoku while the other seats still hold, unread, their
/// next draw and its tsumogiri, which the record can carry after the game ended; every
/// other stream is fully read.
pub open spec fn ron_leaves_phantoms(c: ReplayCtx, s: ReplayState, last: Last) -> bool {
    match (c.kyoku.end_status, last) {
        (EndStatusV::Hora { .. }, Last::Discard(t)) => forall|b: int|
            0 <= b < 3 ==> #[trigger] seat_consumed(c, s, b) || (b != t as int && phantom_tail(
                c,
                s,
                b,
            )),
        _ => false,
    }
}

/// The solutions after trying to end the kyoku here.
pub open spec fn try_end(c: ReplayCtx, s: ReplayState, last: Last) -> Sols {
    if done(s) || !(all_consumed(c, s) || ron_leaves_phantoms(c, s, last)) || !result_follows(
        c.kyoku,
        last,
    ) {
        s.solutions
    } else {
        s.solutions.push(s.events + final_reach(c.kyoku, s) + end_events(c.kyoku))
    }
}

pub open spec fn push_event(s: ReplayState, e: EventV) -> ReplayState {
    ReplayState { events: s.events.push(e), ..s }
}

pub open spec fn with_solutions(s: ReplayState, solutions: Sols) -> ReplayState {
    ReplayState { solutions, ..s }
}

pub open spec fn next_take(s: ReplayState, a: int) -> ReplayState {
    ReplayState { take_idxs: s.take_idxs.update(a, (s.take_idxs[a] + 1) as usize), ..s }
}

pub open spec fn next_discard(s: ReplayState, a: int) -> ReplayState {
    ReplayState { discard_idxs: s.discard_idxs.update(a, (s.discard_idxs[a] + 1) as usize), ..s }
}

pub open spec fn accept_reach(s: ReplayState) -> ReplayState {
    match s.reach_pending {
        Some(actor) => ReplayState {
            reach_pending: None,
            events: s.events.push(EventV::ReachAccepted { actor }),
            ..s
        },
        None => s,
    }
}

pub open spec fn insufficient_dora(k: KyokuV) -> ConvertErrorV {
    ConvertErrorV::InsufficientDoraIndicators { kyoku: k.meta.kyoku_num, honba: k.meta.honba }
}

/// Reveals the next dora indicator.
pub open spec fn push_dora(c: ReplayCtx, s: ReplayState) -> Result<ReplayState, ConvertErrorV> {
    if s.dora_idx < c.kyoku.dora_indicators.len() {
        Ok(
            ReplayState {
                dora_idx: (s.dora_idx + 1) as usize,
                events: s.events.push(
                    EventV::Dora { dora_marker: c.kyoku.dora_indicators[s.dora_idx as int] },
                ),
                ..s
            },
        )
    } else {
        Err(insufficient_dora(c.kyoku))
    }
}

/// `actor` is on turn and must draw.
pub open spec fn draw_phase(c: ReplayCtx, s: ReplayState, actor: int, last: Last) -> Result<
    Sols,
    ConvertErrorV,
>
    decreases remaining(c, s), 0nat,
    when wf_state(c, s, actor)
{
    if done(s) {
        Ok(s.solutions)
    } else if s.take_idxs[actor] >= c.takes[actor].len() {
        Ok(try_end(c, s, last))
    } else {
        match c.takes[actor][s.take_idxs[actor] as int] {
            EventV::Tsumo { pai, .. } => {
                proof {
                    lemma_next_take_remaining(c, s, actor);
                }
                let s1 = accept_reach(next_take(s, actor));
                let s2 = if s1.need_dora_at_tsumo {
                    push_dora(c, s1)
                } else {
                    Ok(s1)
                };
                match s2 {
                    Err(e) => Err(e),
                    Ok(s2) => {
                        let s3 = ReplayState {
                            need_dora_at_tsumo: false,
                            events: s2.events.push(EventV::Tsumo { actor: actor as u8, pai }),
                            last_draw: s2.last_draw.update(actor, pai),
                            ..s2
                        };
                        discard_phase(c, s3, actor, Last::Draw(actor as usize))
                    },
                }
            },
            _ => Ok(s.solutions),
        }
    }
}

/// `actor` holds 14 tiles (after a draw or a pon) and must act. When their discard
/// stream is used up, the kyoku may end here, with `end` as what came last: their draw
/// after a draw, which a tsumo win may follow, or `Last::Other` after a pon, which only
/// a ryukyoku may follow.
pub open spec fn discard_phase(c: ReplayCtx, s: ReplayState, actor: int, end: Last) -> Result<
    Sols,
    ConvertErrorV,
>
    decreases remaining(c, s), 4nat,
    when wf_state(c, s, actor)
{
    if done(s) {
        Ok(s.solutions)
    } else if s.discard_idxs[actor] >= c.discards[actor].len() {
        Ok(try_end(c, s, end))
    } else {
        let item = c.discards[actor][s.discard_idxs[actor] as int];
        proof {
            lemma_next_discard_remaining(c, s, actor);
        }
        let s1 = next_discard(s, actor);
        match item {
            EventV::Nukidora { .. } => {
                let s2 = if s1.need_dora_at_discard {
                    ReplayState { need_dora_at_discard: false, need_dora_at_tsumo: true, ..s1 }
                } else {
                    s1
                };
                draw_phase(c, push_event(s2, item), actor, Last::Discard(actor as usize))
            },
            EventV::Ankan { .. } => {
                let s2 = if s1.need_dora_at_discard {
                    match push_dora(c, s1) {
                        Ok(x) => Ok(ReplayState { need_dora_at_discard: false, ..x }),
                        Err(e) => Err(e),
                    }
                } else {
                    Ok(s1)
                };
                match s2 {
                    Err(e) => Err(e),
                    Ok(s2) => match push_dora(c, push_event(s2, item)) {
                        Err(e) => Err(e),
                        Ok(s3) => draw_phase(c, s3, actor, Last::Other),
                    },
                }
            },
            EventV::Kakan { .. } => {
                let s2 = if s1.need_dora_at_discard {
                    ReplayState { need_dora_at_tsumo: true, ..s1 }
                } else {
                    s1
                };
                let s3 = ReplayState { need_dora_at_discard: true, ..push_event(s2, item) };
                draw_phase(c, s3, actor, Last::Discard(actor as usize))
            },
            EventV::Reach { .. } => {
                let s2 = ReplayState { reach_pending: Some(actor as u8), ..push_event(s1, item) };
                if s2.discard_idxs[actor] < c.discards[actor].len() {
                    dahai(c, s2, actor, c.discards[actor][s2.discard_idxs[actor] as int])
                } else {
                    Err(
                        ConvertErrorV::InsufficientDiscards {
                            kyoku: c.kyoku.meta.kyoku_num,
                            honba: c.kyoku.meta.honba,
                            actor: actor as u8,
                        },
                    )
                }
            },
            EventV::Dahai { .. } => dahai(c, s, actor, item),
            _ => Ok(s.solutions),
        }
    }
}

/// `actor` plays the dahai `item`, the next item of their discard stream.
pub open spec fn dahai(c: ReplayCtx, s: ReplayState, actor: int, item: EventV) -> Result<
    Sols,
    ConvertErrorV,
>
    decreases remaining(c, s), 3nat,
    when wf_state(c, s, actor)
{
    match item {
        EventV::Dahai { pai, tsumogiri, .. } => {
            let pai = if tsumogiri {
                s.last_draw[actor]
            } else {
                pai
            };
            if pai@ == 37 {
                // either a tsumogiri with no preceding draw, or a stray daiminkan placeholder
                Ok(s.solutions)
            } else if s.discard_idxs[actor] >= c.discards[actor].len() {
                // not reached: the item is always read from the stream
                Ok(s.solutions)
            } else {
                proof {
                    lemma_next_discard_remaining(c, s, actor);
                }
                let s1 = next_discard(s, actor);
                let s2 = if s1.need_dora_at_discard {
                    match push_dora(c, s1) {
                        Ok(x) => Ok(ReplayState { need_dora_at_discard: false, ..x }),
                        Err(e) => Err(e),
                    }
                } else {
                    Ok(s1)
                };
                match s2 {
                    Err(e) => Err(e),
                    Ok(s2) => after_discard(
                        c,
                        push_event(s2, EventV::Dahai { actor: actor as u8, pai, tsumogiri }),
                        actor,
                        pai,
                    ),
                }
            }
        },
        _ => Ok(s.solutions),
    }
}

/// The state in which `actor`'s dahai `item` leaves the replay before the continuations
/// are explored: the discard read, a pending kan dora revealed, and the dahai emitted with
/// the tile of the latest draw for a tsumogiri; unchanged when that tile is unknown.
pub open spec fn dahai_state(c: ReplayCtx, s: ReplayState, actor: int, item: EventV) -> ReplayState {
    match item {
        EventV::Dahai { pai, tsumogiri, .. } => {
            let pai = if tsumogiri {
                s.last_draw[actor]
            } else {
                pai
            };
            if pai@ == 37 || s.discard_idxs[actor] >= c.discards[actor].len() {
                s
            } else {
                let s1 = next_discard(s, actor);
                let s2 = if s1.need_dora_at_discard {
                    match push_dora(c, s1) {
                        Ok(x) => ReplayState { need_dora_at_discard: false, ..x },
                        Err(_) => s1,
                    }
                } else {
                    s1
                };
                push_event(s2, EventV::Dahai { actor: actor as u8, pai, tsumogiri })
            }
        },
        _ => s,
    }
}

/// The two other seats, in increasing order.
pub open spec fn other_seats(actor: int) -> (int, int) {
    if actor == 0 {
        (1, 2)
    } else if actor == 1 {
        (0, 2)
    } else {
        (0, 1)
    }
}

/// `actor` has just discarded `pai`: every legal continuation is explored.
pub open spec fn after_discard(c: ReplayCtx, s: ReplayState, actor: int, pai: Tile) -> Result<
    Sols,
    ConvertErrorV,
>
    decreases remaining(c, s), 2nat,
    when wf_state(c, s, actor)
{
    let (c1, c2) = other_seats(actor);
    match try_call(c, s, actor, c1, pai) {
        Err(e) => Err(e),
        Ok(sols1) => match try_call(c, with_solutions(s, sols1), actor, c2, pai) {
            Err(e) => Err(e),
            Ok(sols2) => {
                let s2 = with_solutions(s, sols2);
                let shimocha = (actor + 1) % 3;
                if done(s2) {
                    Ok(sols2)
                } else if s2.take_idxs[shimocha] < c.takes[shimocha].len()
                    && c.takes[shimocha][s2.take_idxs[shimocha] as int] is Tsumo {
                    // a ron may end the kyoku here, with trailing draws left unread;
                    // else nobody calls and the shimocha draws
                    let s3 = with_solutions(s2, try_end(c, s2, Last::Discard(actor as usize)));
                    draw_phase(c, s3, shimocha, Last::Discard(actor as usize))
                } else {
                    // nobody can act, so the kyoku ends on this discard
                    Ok(try_end(c, s2, Last::Discard(actor as usize)))
                }
            },
        },
    }
}

/// The branch where `caller` calls the tile `pai` that `actor` has just discarded.
pub open spec fn try_call(c: ReplayCtx, s: ReplayState, actor: int, caller: int, pai: Tile) -> Result<
    Sols,
    ConvertErrorV,
>
    decreases remaining(c, s), 1nat,
    when wf_state(c, s, actor) && 0 <= caller < 3
{
    if done(s) {
        Ok(s.solutions)
    } else if s.take_idxs[caller] >= c.takes[caller].len() {
        Ok(s.solutions)
    } else {
        let take = c.takes[caller][s.take_idxs[caller] as int];
        match take.naki_info() {
            None => Ok(s.solutions),
            Some((target, called)) => {
                if target != actor as u8 || deaka_id(called@) != deaka_id(pai@) {
                    Ok(s.solutions)
                } else {
                    proof {
                        lemma_next_take_remaining(c, s, caller);
                    }
                    let s1 = accept_reach(next_take(s, caller));
                    match take {
                        EventV::Pon { .. } => discard_phase(c, push_event(s1, take), caller, Last::Other),
                        EventV::Daiminkan { .. } => {
                            let s2 = if s1.need_dora_at_discard {
                                push_dora(c, s1)
                            } else {
                                Ok(s1)
                            };
                            match s2 {
                                Err(e) => Err(e),
                                Ok(s2) => {
                                    let s3 = ReplayState {
                                        need_dora_at_discard: true,
                                        ..push_event(s2, take)
                                    };
                                    let di = s3.discard_idxs[caller];
                                    proof {
                                        if di < c.discards[caller].len() {
                                            lemma_next_discard_remaining(c, s3, caller);
                                        }
                                    }
                                    let s4 = if di < c.discards[caller].len() && (
                                    c.discards[caller][di as int] matches EventV::Dahai {
                                        pai: p,
                                        tsumogiri: false,
                                        ..
                                    } && p@ == 37) {
                                        // the placeholder Tenhou leaves for the missing discard
                                        next_discard(s3, caller)
                                    } else {
                                        s3
                                    };
                                    draw_phase(c, s4, caller, Last::Other)
                                },
                            }
                        },
                        _ => Ok(s.solutions),
                    }
                }
            },
        }
    }
}

/// The number of dora events in a sequence.
pub open spec fn count_dora(evs: Seq<EventV>) -> nat
    decreases evs.len(),
{
    if evs.len() == 0 {
        0
    } else {
        count_dora(evs.drop_last()) + if evs.last() is Dora {
            1nat
        } else {
            0nat
        }
    }
}

/// The state a replay starts from.
pub open spec fn initial_state(start: EventV) -> ReplayState {
    ReplayState {
        events: seq![start],
        take_idxs: seq![0usize, 0usize, 0usize],
        discard_idxs: seq![0usize, 0usize, 0usize],
        last_draw: seq![tile_from_id(37), tile_from_id(37), tile_from_id(37)],
        dora_idx: 1,
        reach_pending: None,
        need_dora_at_discard: false,
        need_dora_at_tsumo: false,
        solutions: seq![],
    }
}

/// What the search concludes from the replays it found: the one replay, when there is
/// exactly one and it reveals every recorded dora indicator.
pub open spec fn conclude(k: KyokuV, sols: Sols) -> Result<Seq<EventV>, ConvertErrorV> {
    if sols.len() == 0 {
        Err(ConvertErrorV::NoValidSanmaOrder { kyoku: k.meta.kyoku_num, honba: k.meta.honba })
    } else if sols.len() == 1 {
        let revealed = 1 + count_dora(sols[0]);
        if revealed < k.dora_indicators.len() {
            Err(
                ConvertErrorV::UnconsumedDoraIndicators {
                    kyoku: k.meta.kyoku_num,
                    honba: k.meta.honba,
                    unconsumed: (k.dora_indicators.len() - revealed) as usize,
                },
            )
        } else {
            Ok(sols[0])
        }
    } else {
        Err(ConvertErrorV::AmbiguousSanmaOrder { kyoku: k.meta.kyoku_num, honba: k.meta.honba })
    }
}

// ---------------------------------------------------------------------------
// The replay.
// ---------------------------------------------------------------------------

pub struct SanmaReplay<'a> {
    pub kyoku: &'a Kyoku,
    pub takes: &'a Vec<Vec<Event>>,
    pub discards: &'a Vec<Vec<Event>>,
    pub events: Vec<Event>,
    pub take_idxs: [usize; 3],
    pub discard_idxs: [usize; 3],
    pub last_draw: [Tile; 3],
    pub dora_idx: usize,
    pub reach_pending: Option<u8>,
    pub need_dora_at_discard: bool,
    pub need_dora_at_tsumo: bool,
    pub solutions: Vec<Vec<Event>>,
}

#[derive(Clone, Copy)]
pub struct Snapshot {
    pub events_len: usize,
    pub take_idxs: [usize; 3],
    pub discard_idxs: [usize; 3],
    pub last_draw: [Tile; 3],
    pub dora_idx: usize,
    pub reach_pending: Option<u8>,
    pub need_dora_at_discard: bool,
    pub need_dora_at_tsumo: bool,
}

/// `a` is a prefix of `b`.
pub open spec fn prefix_of(a: Seq<Event>, b: Seq<Event>) -> bool {
    a.len() <= b.len() && forall|i: int| 0 <= i < a.len() ==> #[trigger] b[i] == a[i]
}

proof fn lemma_extends_trans<'a>(a: &SanmaReplay<'a>, b: &SanmaReplay<'a>, c: &SanmaReplay<'a>)
    requires
        a.extends(b),
        b.extends(c),
    ensures
        a.extends(c),
{
}

pub open spec fn streams_view(v: Seq<Vec<Event>>) -> Seq<Seq<EventV>> {
    v.map_values(|s: Vec<Event>| events_view(s@))
}

impl<'a> SanmaReplay<'a> {
    pub open spec fn ctx(&self) -> ReplayCtx {
        ReplayCtx {
            kyoku: self.kyoku@,
            takes: streams_view(self.takes@),
            discards: streams_view(self.discards@),
        }
    }

    pub open spec fn state(&self) -> ReplayState {
        ReplayState {
            events: events_view(self.events@),
            take_idxs: self.take_idxs@,
            discard_idxs: self.discard_idxs@,
            last_draw: self.last_draw@,
            dora_idx: self.dora_idx,
            reach_pending: self.reach_pending,
            need_dora_at_discard: self.need_dora_at_discard,
            need_dora_at_tsumo: self.need_dora_at_tsumo,
            solutions: streams_view(self.solutions@),
        }
    }

    pub open spec fn wf(&self) -> bool {
        &&& self.takes@.len() == 3
        &&& self.discards@.len() == 3
        &&& forall|a: int|
            0 <= a < 3 ==> self.take_idxs@[a] <= self.takes@[a]@.len() && self.discard_idxs@[a]
                <= self.discards@[a]@.len()
    }

    /// The same replay, with the recorded data and the stream positions unchanged and the
    /// events so far kept as a prefix.
    pub open spec fn extends(&self, old: &Self) -> bool {
        &&& self.kyoku == old.kyoku
        &&& self.takes == old.takes
        &&& self.discards == old.discards
        &&& self.wf()
        &&& prefix_of(old.events@, self.events@)
    }

    fn snapshot(&self) -> (res: Snapshot)
        ensures
            res.events_len == self.events@.len(),
            res.take_idxs == self.take_idxs,
            res.discard_idxs == self.discard_idxs,
            res.last_draw == self.last_draw,
            res.dora_idx == self.dora_idx,
            res.reach_pending == self.reach_pending,
            res.need_dora_at_discard == self.need_dora_at_discard,
            res.need_dora_at_tsumo == self.need_dora_at_tsumo,
    {
        Snapshot {
            events_len: self.events.len(),
            take_idxs: self.take_idxs,
            discard_idxs: self.discard_idxs,
            last_draw: self.last_draw,
            dora_idx: self.dora_idx,
            reach_pending: self.reach_pending,
            need_dora_at_discard: self.need_dora_at_discard,
            need_dora_at_tsumo: self.need_dora_at_tsumo,
        }
    }

    fn restore(&mut self, snapshot: Snapshot)
        ensures
            final(self).kyoku == old(self).kyoku,
            final(self).takes == old(self).takes,
            final(self).discards == old(self).discards,
            final(self).solutions == old(self).solutions,
            snapshot.events_len <= old(self).events@.len() ==> final(self).events@ == old(
                self,
            ).events@.subrange(0, snapshot.events_len as int),
            final(self).take_idxs == snapshot.take_idxs,
            final(self).discard_idxs == snapshot.discard_idxs,
            final(self).last_draw == snapshot.last_draw,
            final(self).dora_idx == snapshot.dora_idx,
            final(self).reach_pending == snapshot.reach_pending,
            final(self).need_dora_at_discard == snapshot.need_dora_at_discard,
            final(self).need_dora_at_tsumo == snapshot.need_dora_at_tsumo,
    {
        self.events.truncate(snapshot.events_len);
        self.take_idxs = snapshot.take_idxs;
        self.discard_idxs = snapshot.discard_idxs;
        self.last_draw = snapshot.last_draw;
        self.dora_idx = snapshot.dora_idx;
        self.reach_pending = snapshot.reach_pending;
        self.need_dora_at_discard = snapshot.need_dora_at_discard;
        self.need_dora_at_tsumo = snapshot.need_dora_at_tsumo;
    }

    fn done(&self) -> (res: bool)
        ensures
            res == done(self.state()),
    {
        self.solutions.len() >= MAX_SOLUTIONS
    }

    fn push_event(&mut self, e: Event)
        ensures
            final(self).state() == push_event(old(self).state(), e@),
            final(self).kyoku == old(self).kyoku,
            final(self).takes == old(self).takes,
            final(self).discards == old(self).discards,
            final(self).events@ == old(self).events@.push(e),
    {
        self.events.push(e);
        assert(events_view(self.events@) =~= events_view(old(self).events@).push(e@));
    }

    fn push_dora(&mut self) -> (res: Result<(), ConvertError>)
        requires
            old(self).wf(),
        ensures
            final(self).kyoku == old(self).kyoku,
            final(self).takes == old(self).takes,
            final(self).discards == old(self).discards,
            final(self).wf(),
            match res {
                Ok(()) => push_dora(old(self).ctx(), old(self).state()) == Ok::<
                    ReplayState,
                    ConvertErrorV,
                >(final(self).state()) && prefix_of(old(self).events@, final(self).events@),
                Err(e) => push_dora(old(self).ctx(), old(self).state()) == Err::<
                    ReplayState,
                    ConvertErrorV,
                >(e@) && *final(self) == *old(self),
            },
    {
        if self.dora_idx >= self.kyoku.dora_indicators.len() {
            return Err(
                ConvertError::InsufficientDoraIndicators {
                    kyoku: self.kyoku.meta.kyoku_num,
                    honba: self.kyoku.meta.honba,
                },
            );
        }
        let dora_marker = self.kyoku.dora_indicators[self.dora_idx];
        self.dora_idx += 1;
        self.events.push(Event::Dora { dora_marker });
        assert(events_view(self.events@) =~= events_view(old(self).events@).push(
            EventV::Dora { dora_marker },
        ));
        Ok(())
    }

    fn accept_pending_reach(&mut self)
        requires
            old(self).wf(),
        ensures
            final(self).state() == accept_reach(old(self).state()),
            final(self).kyoku == old(self).kyoku,
            final(self).takes == old(self).takes,
            final(self).discards == old(self).discards,
            final(self).wf(),
            prefix_of(old(self).events@, final(self).events@),
    {
        if let Some(actor) = self.reach_pending {
            self.reach_pending = None;
            self.events.push(Event::ReachAccepted { actor });
            assert(events_view(self.events@) =~= events_view(old(self).events@).push(
                EventV::ReachAccepted { actor },
            ));
        }
    }

    fn all_consumed(&self) -> (res: bool)
        requires
            self.wf(),
        ensures
            res == all_consumed(self.ctx(), self.state()),
    {
        let mut a: usize = 0;
        while a < 3
            invariant
                self.wf(),
                a <= 3,
                forall|b: int|
                    0 <= b < a ==> self.take_idxs@[b] >= self.takes@[b]@.len()
                        && self.discard_idxs@[b] >= self.discards@[b]@.len(),
            decreases 3 - a,
        {
            assert(streams_view(self.takes@)[a as int].len() == self.takes@[a as int]@.len());
            assert(streams_view(self.discards@)[a as int].len() == self.discards@[a as int]@.len());
            if !(self.take_idxs[a] >= self.takes[a].len() && self.discard_idxs[a]
                >= self.discards[a].len()) {
                assert(!(self.state().take_idxs[a as int] >= self.ctx().takes[a as int].len()
                    && self.state().discard_idxs[a as int] >= self.ctx().discards[a as int].len()));
                return false;
            }
            a += 1;
        }
        assert forall|b: int| 0 <= b < 3 implies self.take_idxs@[b] >= streams_view(
            self.takes@,
        )[b].len() && self.discard_idxs@[b] >= streams_view(self.discards@)[b].len() by {
            assert(streams_view(self.takes@)[b].len() == self.takes@[b]@.len());
            assert(streams_view(self.discards@)[b].len() == self.discards@[b]@.len());
        }
        true
    }

    fn phantom_tail(&self, b: usize) -> (res: bool)
        requires
            self.wf(),
            b < 3,
        ensures
            res == phantom_tail(self.ctx(), self.state(), b as int),
    {
        let ti = self.take_idxs[b];
        let di = self.discard_idxs[b];
        let takes = &self.takes[b];
        let discards = &self.discards[b];
        proof {
            self.lemma_stream_len(b as int);
        }
        if !(ti < takes.len() && ti + 1 == takes.len() && di < discards.len() && di + 1
            == discards.len()) {
            return false;
        }
        proof {
            assert(self.ctx().takes[b as int][ti as int] == takes@[ti as int]@);
            assert(self.ctx().discards[b as int][di as int] == discards@[di as int]@);
        }
        let take_ok = match &takes[ti] {
            Event::Tsumo { .. } => true,
            _ => false,
        };
        let discard_ok = match &discards[di] {
            Event::Dahai { tsumogiri, .. } => *tsumogiri,
            _ => false,
        };
        take_ok && discard_ok
    }

    fn ron_leaves_phantoms(&self, last: Last) -> (res: bool)
        requires
            self.wf(),
        ensures
            res == ron_leaves_phantoms(self.ctx(), self.state(), last),
    {
        let t = match (&self.kyoku.end_status, last) {
            (EndStatus::Hora { .. }, Last::Discard(t)) => t,
            _ => {
                return false;
            },
        };
        let mut b: usize = 0;
        while b < 3
            invariant
                self.wf(),
                b <= 3,
                last == Last::Discard(t),
                self.kyoku@.end_status is Hora,
                forall|x: int|
                    0 <= x < b ==> #[trigger] seat_consumed(self.ctx(), self.state(), x) || (x
                        != t as int && phantom_tail(self.ctx(), self.state(), x)),
            decreases 3 - b,
        {
            proof {
                self.lemma_stream_len(b as int);
            }
            let consumed = self.take_idxs[b] >= self.takes[b].len() && self.discard_idxs[b]
                >= self.discards[b].len();
            if !consumed && (b == t || !self.phantom_tail(b)) {
                assert(!(seat_consumed(self.ctx(), self.state(), b as int) || (b as int
                    != t as int && phantom_tail(self.ctx(), self.state(), b as int))));
                return false;
            }
            b += 1;
        }
        true
    }

    fn result_follows(&self, last: Last) -> (res: bool)
        ensures
            res == result_follows(self.kyoku@, last),
    {
        match &self.kyoku.end_status {
            EndStatus::Ryukyoku { .. } => true,
            EndStatus::Hora { details } => {
                let mut i: usize = 0;
                while i < details.len()
                    invariant
                        self.kyoku.end_status == (EndStatus::Hora { details: *details }),
                        i <= details@.len(),
                        forall|j: int| 0 <= j < i ==> #[trigger] win_follows(details_view(details@)[j], last),
                    decreases details.len() - i,
                {
                    let detail = &details[i];
                    let ok = if detail.who == detail.target {
                        last == Last::Draw(detail.who as usize)
                    } else {
                        last == Last::Discard(detail.target as usize)
                    };
                    assert(details_view(details@)[i as int] == detail@);
                    if !ok {
                        assert(self.kyoku@.end_status == (EndStatusV::Hora {
                            details: details_view(details@),
                        }));
                        assert(!win_follows(details_view(details@)[i as int], last));
                        return false;
                    }
                    i += 1;
                }
                assert(self.kyoku@.end_status == (EndStatusV::Hora {
                    details: details_view(details@),
                }));
                true
            },
        }
    }

    /// Records a solution if every stream is consumed, or a ron leaves only trailing
    /// draws and their tsumogiri unread, and the recorded result can follow the last event.
    fn try_end(&mut self, last: Last)
        requires
            old(self).wf(),
        ensures
            final(self).extends(old(self)),
            final(self).events == old(self).events,
            final(self).state() == with_solutions(
                old(self).state(),
                streams_view(final(self).solutions@),
            ),
            streams_view(final(self).solutions@) == try_end(
                old(self).ctx(),
                old(self).state(),
                last,
            ),
    {
        if self.done() || !(self.all_consumed() || self.ron_leaves_phantoms(last)) {
            return;
        }
        if !self.result_follows(last) {
            return;
        }
        let mut events = copy_events(&self.events);
        let ghost base = events_view(events@);
        match (self.reach_pending, &self.kyoku.end_status) {
            (Some(actor), EndStatus::Ryukyoku { .. }) => {
                events.push(Event::ReachAccepted { actor });
            },
            _ => {},
        }
        assert(events_view(events@) =~= base + final_reach(self.kyoku@, self.state()));
        end_kyoku(&mut events, self.kyoku);
        let ghost sols = streams_view(self.solutions@);
        self.solutions.push(events);
        assert(streams_view(self.solutions@) =~= sols.push(events_view(events@)));
    }

    pub open spec fn measure(&self) -> nat {
        remaining(self.ctx(), self.state())
    }

    proof fn lemma_wf_state(&self, actor: int)
        requires
            self.wf(),
            0 <= actor < 3,
        ensures
            wf_state(self.ctx(), self.state(), actor),
    {
        assert forall|a: int| 0 <= a < 3 implies #[trigger] self.ctx().takes[a].len()
            <= usize::MAX by {
            assert(self.ctx().takes[a].len() == self.takes@[a]@.len());
            assert(self.takes@[a].len() == self.takes@[a]@.len());
        }
        assert forall|a: int| 0 <= a < 3 implies #[trigger] self.ctx().discards[a].len()
            <= usize::MAX by {
            assert(self.ctx().discards[a].len() == self.discards@[a]@.len());
            assert(self.discards@[a].len() == self.discards@[a]@.len());
        }
    }

    proof fn lemma_stream_len(&self, a: int)
        requires
            self.wf(),
            0 <= a < 3,
        ensures
            self.ctx().takes[a].len() == self.takes@[a]@.len(),
            self.ctx().discards[a].len() == self.discards@[a]@.len(),
    {
    }

    /// `actor` is on turn and must draw.
    fn draw_phase(&mut self, actor: usize, last: Last) -> (res: Result<(), ConvertError>)
        requires
            old(self).wf(),
            actor < 3,
        ensures
            final(self).extends(old(self)),
            match res {
                Ok(()) => draw_phase(old(self).ctx(), old(self).state(), actor as int, last)
                    == Ok::<Sols, ConvertErrorV>(streams_view(final(self).solutions@)),
                Err(e) => draw_phase(old(self).ctx(), old(self).state(), actor as int, last)
                    == Err::<Sols, ConvertErrorV>(e@),
            },
        decreases old(self).measure(), 0nat,
    {
        proof {
            self.lemma_wf_state(actor as int);
            self.lemma_stream_len(actor as int);
        }
        let ghost c = self.ctx();
        let ghost s = self.state();
        if self.done() {
            return Ok(());
        }
        let takes = self.takes;
        if self.take_idxs[actor] >= takes[actor].len() {
            self.try_end(last);
            return Ok(());
        }
        let pai = match &takes[actor][self.take_idxs[actor]] {
            Event::Tsumo { pai, .. } => *pai,
            _ => {
                return Ok(());
            },
        };
        self.take_idxs[actor] = self.take_idxs[actor] + 1;
        assert(self.state() == next_take(s, actor as int));
        self.accept_pending_reach();
        let ghost s1 = self.state();
        assert(s1 == accept_reach(next_take(s, actor as int)));
        if self.need_dora_at_tsumo {
            match self.push_dora() {
                Ok(()) => {},
                Err(e) => {
                    return Err(e);
                },
            }
            self.need_dora_at_tsumo = false;
        }
        let ghost s2 = self.state();
        self.push_event(Event::Tsumo { actor: actor as u8, pai });
        self.last_draw[actor] = pai;
        assert(self.state() == (ReplayState {
            need_dora_at_tsumo: false,
            events: s2.events.push(EventV::Tsumo { actor: actor as u8, pai }),
            last_draw: s2.last_draw.update(actor as int, pai),
            ..s2
        }));
        proof {
            lemma_next_take_remaining(c, s, actor as int);
        }
        let ghost mid = *self;
        let res = self.discard_phase(actor, Last::Draw(actor));
        proof {
            lemma_extends_trans(self, &mid, old(self));
        }
        res
    }

    /// `actor` holds 14 tiles (after a draw or a pon) and must act.
    #[verifier::rlimit(80)]
    fn discard_phase(&mut self, actor: usize, end: Last) -> (res: Result<(), ConvertError>)
        requires
            old(self).wf(),
            actor < 3,
        ensures
            final(self).extends(old(self)),
            match res {
                Ok(()) => discard_phase(old(self).ctx(), old(self).state(), actor as int, end)
                    == Ok::<Sols, ConvertErrorV>(streams_view(final(self).solutions@)),
                Err(e) => discard_phase(old(self).ctx(), old(self).state(), actor as int, end)
                    == Err::<Sols, ConvertErrorV>(e@),
            },
        decreases old(self).measure(), 4nat,
    {
        proof {
            self.lemma_wf_state(actor as int);
            self.lemma_stream_len(actor as int);
        }
        let ghost c = self.ctx();
        let ghost s = self.state();
        if self.done() {
            return Ok(());
        }
        let discards = self.discards;
        if self.discard_idxs[actor] >= discards[actor].len() {
            self.try_end(end);
            return Ok(());
        }
        let item = discards[actor][self.discard_idxs[actor]].duplicate();
        assert(item@ == c.discards[actor as int][s.discard_idxs[actor as int] as int]);
        proof {
            lemma_next_discard_remaining(c, s, actor as int);
        }
        match item {
            Event::Nukidora { .. } => {
                self.discard_idxs[actor] = self.discard_idxs[actor] + 1;
                if self.need_dora_at_discard {
                    self.need_dora_at_discard = false;
                    self.need_dora_at_tsumo = true;
                }
                self.push_event(item);
                let ghost mid = *self;
                let res = self.draw_phase(actor, Last::Discard(actor));
                proof {
                    lemma_extends_trans(self, &mid, old(self));
                }
                res
            },
            Event::Ankan { .. } => {
                self.discard_idxs[actor] = self.discard_idxs[actor] + 1;
                if self.need_dora_at_discard {
                    match self.push_dora() {
                        Ok(()) => {},
                        Err(e) => {
                            return Err(e);
                        },
                    }
                    self.need_dora_at_discard = false;
                }
                self.push_event(item);
                match self.push_dora() {
                    Ok(()) => {},
                    Err(e) => {
                        return Err(e);
                    },
                }
                let ghost mid = *self;
                let res = self.draw_phase(actor, Last::Other);
                proof {
                    lemma_extends_trans(self, &mid, old(self));
                }
                res
            },
            Event::Kakan { .. } => {
                self.discard_idxs[actor] = self.discard_idxs[actor] + 1;
                if self.need_dora_at_discard {
                    self.need_dora_at_tsumo = true;
                }
                self.need_dora_at_discard = true;
                self.push_event(item);
                let ghost mid = *self;
                let res = self.draw_phase(actor, Last::Discard(actor));
                proof {
                    lemma_extends_trans(self, &mid, old(self));
                }
                res
            },
            Event::Reach { .. } => {
                self.discard_idxs[actor] = self.discard_idxs[actor] + 1;
                self.push_event(item);
                self.reach_pending = Some(actor as u8);
                if self.discard_idxs[actor] >= discards[actor].len() {
                    return Err(
                        ConvertError::InsufficientDiscards {
                            kyoku: self.kyoku.meta.kyoku_num,
                            honba: self.kyoku.meta.honba,
                            actor: actor as u8,
                        },
                    );
                }
                let dahai = discards[actor][self.discard_idxs[actor]].duplicate();
                let ghost mid = *self;
                let res = self.dahai(actor, dahai);
                proof {
                    lemma_extends_trans(self, &mid, old(self));
                }
                res
            },
            Event::Dahai { .. } => self.dahai(actor, item),
            _ => Ok(()),
        }
    }

    /// `actor` plays the dahai `item`, the next item of their discard stream.
    fn dahai(&mut self, actor: usize, item: Event) -> (res: Result<(), ConvertError>)
        requires
            old(self).wf(),
            actor < 3,
            old(self).discard_idxs@[actor as int] < old(self).discards@[actor as int]@.len(),
        ensures
            final(self).extends(old(self)),
            res is Ok ==> final(self).state() == with_solutions(
                dahai_state(old(self).ctx(), old(self).state(), actor as int, item@),
                streams_view(final(self).solutions@),
            ),
            match res {
                Ok(()) => dahai(old(self).ctx(), old(self).state(), actor as int, item@) == Ok::<
                    Sols,
                    ConvertErrorV,
                >(streams_view(final(self).solutions@)),
                Err(e) => dahai(old(self).ctx(), old(self).state(), actor as int, item@) == Err::<
                    Sols,
                    ConvertErrorV,
                >(e@),
            },
        decreases old(self).measure(), 3nat,
    {
        proof {
            self.lemma_wf_state(actor as int);
            self.lemma_stream_len(actor as int);
        }
        let ghost c = self.ctx();
        let ghost s = self.state();
        let (pai, tsumogiri) = match item {
            Event::Dahai { pai, tsumogiri, .. } => (pai, tsumogiri),
            _ => {
                return Ok(());
            },
        };
        let pai = if tsumogiri {
            self.last_draw[actor]
        } else {
            pai
        };
        if pai.is_unknown() {
            return Ok(());
        }
        proof {
            lemma_next_discard_remaining(c, s, actor as int);
        }
        self.discard_idxs[actor] = self.discard_idxs[actor] + 1;
        if self.need_dora_at_discard {
            match self.push_dora() {
                Ok(()) => {},
                Err(e) => {
                    return Err(e);
                },
            }
            self.need_dora_at_discard = false;
        }
        self.push_event(Event::Dahai { actor: actor as u8, pai, tsumogiri });
        let ghost mid = *self;
        let res = self.after_discard(actor, pai);
        proof {
            lemma_extends_trans(self, &mid, old(self));
        }
        res
    }

    /// The branch where `caller` calls the tile `pai` that `actor` has just discarded;
    /// the replay is brought back to where it was, with the solutions found kept.
    #[verifier::rlimit(80)]
    fn try_call(&mut self, actor: usize, caller: usize, pai: Tile) -> (res: Result<(), ConvertError>)
        requires
            old(self).wf(),
            actor < 3,
            caller < 3,
        ensures
            final(self).extends(old(self)),
            match res {
                Ok(()) => {
                    &&& try_call(old(self).ctx(), old(self).state(), actor as int, caller as int, pai)
                        == Ok::<Sols, ConvertErrorV>(streams_view(final(self).solutions@))
                    &&& final(self).state() == with_solutions(
                        old(self).state(),
                        streams_view(final(self).solutions@),
                    )
                },
                Err(e) => try_call(old(self).ctx(), old(self).state(), actor as int, caller as int, pai)
                    == Err::<Sols, ConvertErrorV>(e@),
            },
        decreases old(self).measure(), 1nat,
    {
        proof {
            self.lemma_wf_state(actor as int);
            self.lemma_stream_len(caller as int);
        }
        let ghost c = self.ctx();
        let ghost s = self.state();
        if self.done() {
            return Ok(());
        }
        let takes = self.takes;
        let discards = self.discards;
        if self.take_idxs[caller] >= takes[caller].len() {
            return Ok(());
        }
        let take = takes[caller][self.take_idxs[caller]].duplicate();
        let (target, called) = match take.naki_info() {
            Some(info) => info,
            None => {
                return Ok(());
            },
        };
        if target != actor as u8 || called.deaka().as_u8() != pai.deaka().as_u8() {
            return Ok(());
        }
        let snapshot = self.snapshot();
        proof {
            lemma_next_take_remaining(c, s, caller as int);
        }
        self.take_idxs[caller] = self.take_idxs[caller] + 1;
        self.accept_pending_reach();
        match take {
            Event::Pon { .. } => {
                self.push_event(take);
                let ghost mid = *self;
                match self.discard_phase(caller, Last::Other) {
                    Ok(()) => {},
                    Err(e) => {
                        proof {
                            lemma_extends_trans(self, &mid, old(self));
                        }
                        return Err(e);
                    },
                }
                proof {
                    lemma_extends_trans(self, &mid, old(self));
                }
            },
            Event::Daiminkan { .. } => {
                if self.need_dora_at_discard {
                    match self.push_dora() {
                        Ok(()) => {},
                        Err(e) => {
                            return Err(e);
                        },
                    }
                }
                self.push_event(take);
                self.need_dora_at_discard = true;
                let di = self.discard_idxs[caller];
                if di < discards[caller].len() {
                    let placeholder = match &discards[caller][di] {
                        Event::Dahai { pai, tsumogiri: false, .. } => pai.is_unknown(),
                        _ => false,
                    };
                    if placeholder {
                        self.discard_idxs[caller] = di + 1;
                    }
                }
                let ghost mid = *self;
                match self.draw_phase(caller, Last::Other) {
                    Ok(()) => {},
                    Err(e) => {
                        proof {
                            lemma_extends_trans(self, &mid, old(self));
                        }
                        return Err(e);
                    },
                }
                proof {
                    lemma_extends_trans(self, &mid, old(self));
                }
            },
            _ => {},
        }
        self.restore(snapshot);
        assert(self.events@ =~= old(self).events@);
        Ok(())
    }

    /// `actor` has just discarded `pai`: every legal continuation is explored.
    #[verifier::rlimit(80)]
    fn after_discard(&mut self, actor: usize, pai: Tile) -> (res: Result<(), ConvertError>)
        requires
            old(self).wf(),
            actor < 3,
        ensures
            final(self).extends(old(self)),
            res is Ok ==> final(self).state() == with_solutions(
                old(self).state(),
                streams_view(final(self).solutions@),
            ),
            match res {
                Ok(()) => after_discard(old(self).ctx(), old(self).state(), actor as int, pai)
                    == Ok::<Sols, ConvertErrorV>(streams_view(final(self).solutions@)),
                Err(e) => after_discard(old(self).ctx(), old(self).state(), actor as int, pai)
                    == Err::<Sols, ConvertErrorV>(e@),
            },
        decreases old(self).measure(), 2nat,
    {
        proof {
            self.lemma_wf_state(actor as int);
        }
        let ghost c = self.ctx();
        let ghost s = self.state();
        let (c1, c2): (usize, usize) = if actor == 0 {
            (1, 2)
        } else if actor == 1 {
            (0, 2)
        } else {
            (0, 1)
        };
        let snapshot = self.snapshot();
        match self.try_call(actor, c1, pai) {
            Ok(()) => {},
            Err(e) => {
                return Err(e);
            },
        }
        let ghost mid1 = *self;
        match self.try_call(actor, c2, pai) {
            Ok(()) => {},
            Err(e) => {
                proof {
                    lemma_extends_trans(self, &mid1, old(self));
                }
                return Err(e);
            },
        }
        proof {
            lemma_extends_trans(self, &mid1, old(self));
        }
        if self.done() {
            return Ok(());
        }
        let shimocha = (actor + 1) % 3;
        let takes = self.takes;
        proof {
            self.lemma_stream_len(shimocha as int);
        }
        let shimocha_draws = self.take_idxs[shimocha] < takes[shimocha].len() && match &takes[shimocha][self.take_idxs[shimocha]] {
            Event::Tsumo { .. } => true,
            _ => false,
        };
        if shimocha_draws {
            let ghost pre = *self;
            self.try_end(Last::Discard(actor));
            proof {
                lemma_extends_trans(self, &pre, old(self));
            }
            let ghost mid = *self;
            match self.draw_phase(shimocha, Last::Discard(actor)) {
                Ok(()) => {},
                Err(e) => {
                    proof {
                        lemma_extends_trans(self, &mid, old(self));
                    }
                    return Err(e);
                },
            }
            proof {
                lemma_extends_trans(self, &mid, old(self));
            }
            self.restore(snapshot);
            assert(self.events@ =~= old(self).events@);
        } else {
            self.try_end(Last::Discard(actor));
        }
        Ok(())
    }
}


// ---------------------------------------------------------------------------
// The kyoku.
// ---------------------------------------------------------------------------

/// The take and discard streams of the first `n` seats, read in seat order; the first
/// error met is returned.
pub open spec fn seat_streams(tables: Seq<ActionTableV>, n: nat) -> Result<
    (Seq<Seq<EventV>>, Seq<Seq<EventV>>),
    ConvertErrorV,
>
    decreases n,
{
    if n == 0 {
        Ok((seq![], seq![]))
    } else {
        match seat_streams(tables, (n - 1) as nat) {
            Err(e) => Err(e),
            Ok((ts, ds)) => match takes_to_events((n - 1) as u8, 3, tables[n - 1].takes) {
                Err(e) => Err(e),
                Ok(t) => match discards_to_events((n - 1) as u8, tables[n - 1].discards) {
                    Err(e) => Err(e),
                    Ok(d) => Ok((ts.push(t), ds.push(d))),
                },
            },
        }
    }
}

/// The events of a three-player kyoku after `start`, with `oya` drawing first: the one
/// complete replay of the streams, or why there is none.
pub open spec fn sanma_kyoku_events(k: KyokuV, start: EventV, oya: int) -> Result<
    Seq<EventV>,
    ConvertErrorV,
> {
    match seat_streams(k.action_tables, 3) {
        Err(e) => Err(e),
        Ok((ts, ds)) => match draw_phase(
            ReplayCtx { kyoku: k, takes: ts, discards: ds },
            initial_state(start),
            oya,
            Last::Other,
        ) {
            Err(e) => Err(e),
            Ok(sols) => conclude(k, sols),
        },
    }
}

fn count_dora_events(events: &Vec<Event>) -> (res: usize)
    ensures
        res == count_dora(events_view(events@)),
{
    let mut n: usize = 0;
    let mut i: usize = 0;
    while i < events.len()
        invariant
            i <= events@.len(),
            n <= i,
            n == count_dora(events_view(events@).take(i as int)),
        decreases events.len() - i,
    {
        assert(events_view(events@).take(i + 1).drop_last() =~= events_view(events@).take(
            i as int,
        ));
        if let Event::Dora { .. } = &events[i] {
            n += 1;
        }
        i += 1;
    }
    assert(events_view(events@).take(i as int) =~= events_view(events@));
    n
}

proof fn lemma_seat_streams_step(tables: Seq<ActionTableV>, n: nat)
    ensures
        seat_streams(tables, n + 1) == match seat_streams(tables, n) {
            Err(e) => Err(e),
            Ok((ts, ds)) => match takes_to_events(n as u8, 3, tables[n as int].takes) {
                Err(e) => Err(e),
                Ok(t) => match discards_to_events(n as u8, tables[n as int].discards) {
                    Err(e) => Err(e),
                    Ok(d) => Ok((ts.push(t), ds.push(d))),
                },
            },
        },
{
}

proof fn lemma_seat_streams_err(tables: Seq<ActionTableV>, n: nat, m: nat)
    requires
        n <= m,
        seat_streams(tables, n) is Err,
    ensures
        seat_streams(tables, m) == seat_streams(tables, n),
    decreases m - n,
{
    if n < m {
        lemma_seat_streams_err(tables, n, (m - 1) as nat);
    }
}

/// The take and discard streams of the three seats as events.
fn sanma_streams(kyoku: &Kyoku) -> (res: Result<(Vec<Vec<Event>>, Vec<Vec<Event>>), ConvertError>)
    requires
        kyoku.action_tables@.len() == 3,
    ensures
        match res {
            Ok((t, d)) => seat_streams(kyoku@.action_tables, 3) == Ok::<
                (Seq<Seq<EventV>>, Seq<Seq<EventV>>),
                ConvertErrorV,
            >((streams_view(t@), streams_view(d@))) && t@.len() == 3 && d@.len() == 3,
            Err(e) => seat_streams(kyoku@.action_tables, 3) == Err::<
                (Seq<Seq<EventV>>, Seq<Seq<EventV>>),
                ConvertErrorV,
            >(e@),
        },
{
    let ghost tables = kyoku@.action_tables;
    let mut takes: Vec<Vec<Event>> = Vec::new();
    let mut discards: Vec<Vec<Event>> = Vec::new();
    let mut actor: usize = 0;
    assert(streams_view(takes@) =~= seq![]);
    assert(streams_view(discards@) =~= seq![]);
    while actor < 3
        invariant
            actor <= 3,
            tables == kyoku@.action_tables,
            kyoku.action_tables@.len() == 3,
            seat_streams(tables, actor as nat) == Ok::<
                (Seq<Seq<EventV>>, Seq<Seq<EventV>>),
                ConvertErrorV,
            >((streams_view(takes@), streams_view(discards@))),
            takes@.len() == actor,
            discards@.len() == actor,
        decreases 3 - actor,
    {
        let table = &kyoku.action_tables[actor];
        proof {
            lemma_seat_streams_step(tables, actor as nat);
            assert(tables[actor as int] == table@);
        }
        let t = match take_action_to_events(actor as u8, 3, table.takes.as_slice()) {
            Ok(t) => t,
            Err(e) => {
                proof {
                    lemma_seat_streams_err(tables, (actor + 1) as nat, 3);
                }
                return Err(e);
            },
        };
        let d = match discard_action_to_events(actor as u8, table.discards.as_slice()) {
            Ok(d) => d,
            Err(e) => {
                proof {
                    lemma_seat_streams_err(tables, (actor + 1) as nat, 3);
                }
                return Err(e);
            },
        };
        let ghost tv = streams_view(takes@);
        let ghost dv = streams_view(discards@);
        takes.push(t);
        discards.push(d);
        assert(streams_view(takes@) =~= tv.push(events_view(t@)));
        assert(streams_view(discards@) =~= dv.push(events_view(d@)));
        actor += 1;
    }
    Ok((takes, discards))
}

/// What the replays found amount to, as `conclude` states it.
fn conclude_replays(kyoku: &Kyoku, solutions: Vec<Vec<Event>>) -> (res: Result<
    Vec<Event>,
    ConvertError,
>)
    ensures
        match res {
            Ok(v) => conclude(kyoku@, streams_view(solutions@)) == Ok::<
                Seq<EventV>,
                ConvertErrorV,
            >(events_view(v@)),
            Err(e) => conclude(kyoku@, streams_view(solutions@)) == Err::<
                Seq<EventV>,
                ConvertErrorV,
            >(e@),
        },
{
    let mut solutions = solutions;
    let ghost sols = streams_view(solutions@);
    let n = solutions.len();
    if n == 0 {
        Err(ConvertError::NoValidSanmaOrder { kyoku: kyoku.meta.kyoku_num, honba: kyoku.meta.honba })
    } else if n == 1 {
        let events = solutions.pop().unwrap();
        assert(events_view(events@) == sols[0]);
        let revealed = count_dora_events(&events);
        let total = kyoku.dora_indicators.len();
        if total > 0 && revealed < total - 1 {
            Err(
                ConvertError::UnconsumedDoraIndicators {
                    kyoku: kyoku.meta.kyoku_num,
                    honba: kyoku.meta.honba,
                    unconsumed: total - 1 - revealed,
                },
            )
        } else {
            Ok(events)
        }
    } else {
        Err(ConvertError::AmbiguousSanmaOrder { kyoku: kyoku.meta.kyoku_num, honba: kyoku.meta.honba })
    }
}

/// Converts a three-player kyoku: the streams of the three seats are replayed from the
/// draw of `oya`, and the kyoku is converted when exactly one complete replay exists.
pub(crate) fn tenhou_sanma_kyoku_to_mjai_events(kyoku: &Kyoku, start_kyoku: Event, oya: u8) -> (res:
    Result<Vec<Event>, ConvertError>)
    requires
        kyoku.action_tables@.len() == 3,
        oya < 3,
    ensures
        match res {
            Ok(v) => sanma_kyoku_events(kyoku@, start_kyoku@, oya as int) == Ok::<
                Seq<EventV>,
                ConvertErrorV,
            >(events_view(v@)),
            Err(e) => sanma_kyoku_events(kyoku@, start_kyoku@, oya as int) == Err::<
                Seq<EventV>,
                ConvertErrorV,
            >(e@),
        },
        start_kyoku@ is StartKyoku && kyoku@.dora_indicators.len() >= 1 ==> (res matches Ok(v)
            ==> whole_kyoku(events_view(v@), start_kyoku@) && dora_markers(events_view(v@))
            == kyoku@.dora_indicators.subrange(1, kyoku@.dora_indicators.len() as int)),
{
    let (takes, discards) = match sanma_streams(kyoku) {
        Ok(p) => p,
        Err(e) => {
            return Err(e);
        },
    };
    let ghost start = start_kyoku@;
    let ghost c = ReplayCtx {
        kyoku: kyoku@,
        takes: streams_view(takes@),
        discards: streams_view(discards@),
    };
    let sols = match replay_streams(kyoku, &takes, &discards, start_kyoku, oya) {
        Ok(sols) => sols,
        Err(e) => {
            return Err(e);
        },
    };
    let ghost sv = streams_view(sols@);
    let res = conclude_replays(kyoku, sols);
    proof {
        if start is StartKyoku && kyoku@.dora_indicators.len() >= 1 && res is Ok {
            assert(kyoku@.dora_indicators.len() == kyoku.dora_indicators.len());
            assert forall|a: int| 0 <= a < 3 implies #[trigger] c.takes[a].len() <= usize::MAX by {
                assert(c.takes[a].len() == takes@[a]@.len());
                assert(takes@[a].len() == takes@[a]@.len());
            }
            assert forall|a: int| 0 <= a < 3 implies #[trigger] c.discards[a].len() <= usize::MAX by {
                assert(c.discards[a].len() == discards@[a]@.len());
                assert(discards@[a].len() == discards@[a]@.len());
            }
            lemma_replays_are_whole_kyokus(c, start, oya as int);
            assert(whole_kyoku(sv[0], start));
            lemma_count_dora_markers(sv[0]);
        }
    }
    res
}

/// Replays the three seats' streams from `start`, with `oya` drawing first, and gives
/// the complete replays found.
fn replay_streams(
    kyoku: &Kyoku,
    takes: &Vec<Vec<Event>>,
    discards: &Vec<Vec<Event>>,
    start_kyoku: Event,
    oya: u8,
) -> (res: Result<Vec<Vec<Event>>, ConvertError>)
    requires
        takes@.len() == 3,
        discards@.len() == 3,
        oya < 3,
    ensures
        match res {
            Ok(sols) => draw_phase(
                ReplayCtx {
                    kyoku: kyoku@,
                    takes: streams_view(takes@),
                    discards: streams_view(discards@),
                },
                initial_state(start_kyoku@),
                oya as int,
                Last::Other,
            ) == Ok::<Sols, ConvertErrorV>(streams_view(sols@)),
            Err(e) => draw_phase(
                ReplayCtx {
                    kyoku: kyoku@,
                    takes: streams_view(takes@),
                    discards: streams_view(discards@),
                },
                initial_state(start_kyoku@),
                oya as int,
                Last::Other,
            ) == Err::<Sols, ConvertErrorV>(e@),
        },
{
    let ghost start = start_kyoku@;
    let mut replay = SanmaReplay {
        kyoku,
        takes,
        discards,
        events: vec![start_kyoku],
        take_idxs: [0; 3],
        discard_idxs: [0; 3],
        last_draw: [Tile::unknown(); 3],
        dora_idx: 1,
        reach_pending: None,
        need_dora_at_discard: false,
        need_dora_at_tsumo: false,
        solutions: Vec::new(),
    };
    assert(replay.state() == initial_state(start)) by {
        assert(events_view(replay.events@) =~= seq![start]);
        assert(replay.take_idxs@ =~= seq![0usize, 0usize, 0usize]);
        assert(replay.discard_idxs@ =~= seq![0usize, 0usize, 0usize]);
        assert(replay.last_draw@ =~= seq![tile_from_id(37), tile_from_id(37), tile_from_id(37)]);
        assert(streams_view(replay.solutions@) =~= seq![]);
    }
    assert(replay.wf());
    match replay.draw_phase(oya as usize, Last::Other) {
        Ok(()) => Ok(replay.solutions),
        Err(e) => Err(e),
    }
}

/// The replays of a three-player kyoku from `start`, with `oya` drawing first.
pub open spec fn sanma_replays(k: KyokuV, start: EventV, oya: int) -> Result<Sols, ConvertErrorV> {
    match seat_streams(k.action_tables, 3) {
        Err(e) => Err(e),
        Ok((ts, ds)) => draw_phase(
            ReplayCtx { kyoku: k, takes: ts, discards: ds },
            initial_state(start),
            oya,
            Last::Other,
        ),
    }
}

/// A three-player kyoku is converted only when its streams have exactly one complete
/// replay; the events are that replay, and it reveals every recorded dora indicator.
pub proof fn lemma_sanma_single_replay(k: KyokuV, start: EventV, oya: int, evs: Seq<EventV>)
    requires
        sanma_kyoku_events(k, start, oya) == Ok::<Seq<EventV>, ConvertErrorV>(evs),
    ensures
        sanma_replays(k, start, oya) matches Ok(sols) && sols.len() == 1 && sols[0] == evs,
        1 + count_dora(evs) >= k.dora_indicators.len(),
{
}

} // verus!
