//! Sanity checks on three-player output.
use vstd::prelude::*;

use crate::error::{ConvertError, ConvertErrorV};
use crate::event::{events_view, Event, EventV};
use crate::tile::{group_tile_ids, tile_from_id, Tile};

verus! {

broadcast use group_tile_ids;

/// Tiles that a three-player game does not use: 2m to 8m and the red 5m.
pub open spec fn is_four_player_only(t: Tile) -> bool {
    1 <= t@ <= 7 || t@ == 34
}

pub open spec fn tile_check(t: Tile) -> Result<(), ConvertErrorV> {
    if is_four_player_only(t) {
        Err(ConvertErrorV::InvalidSanmaTile(t))
    } else {
        Ok(())
    }
}

/// Checks tiles in order; the first four-player-only tile is the error.
pub open spec fn tiles_check(ts: Seq<Tile>) -> Result<(), ConvertErrorV>
    decreases ts.len(),
{
    if ts.len() == 0 {
        Ok(())
    } else {
        match tiles_check(ts.drop_last()) {
            Err(e) => Err(e),
            Ok(()) => tile_check(ts.last()),
        }
    }
}

/// Checks rows of tiles in reading order.
pub open spec fn rows_check(rows: Seq<Seq<Tile>>) -> Result<(), ConvertErrorV>
    decreases rows.len(),
{
    if rows.len() == 0 {
        Ok(())
    } else {
        match rows_check(rows.drop_last()) {
            Err(e) => Err(e),
            Ok(()) => tiles_check(rows.last()),
        }
    }
}

/// The error for an event that does not fit a three-player game.
pub open spec fn not_sanma(e: EventV) -> ConvertErrorV {
    ConvertErrorV::UnexpectedNaki {
        action: e,
        last_discard: tile_from_id(37),
        last_actor: None,
        kyoku: 0,
        honba: 0,
        actor: 3,
    }
}

/// The tile check of one event of a three-player game.
pub open spec fn event_tiles_check(e: EventV) -> Result<(), ConvertErrorV> {
    match e {
        EventV::StartKyoku { dora_marker, scores, tehais, .. } => {
            if scores.len() != 3 || tehais.len() != 3 {
                Err(not_sanma(e))
            } else {
                match tile_check(dora_marker) {
                    Err(err) => Err(err),
                    Ok(()) => rows_check(tehais),
                }
            }
        },
        EventV::StartGame { names, .. } => if names.len() != 3 {
            Err(not_sanma(e))
        } else {
            Ok(())
        },
        EventV::Tsumo { pai, .. } => tile_check(pai),
        EventV::Dahai { pai, .. } => tile_check(pai),
        EventV::Nukidora { pai, .. } => tile_check(pai),
        EventV::Kakan { pai, .. } => tile_check(pai),
        EventV::Dora { dora_marker } => tile_check(dora_marker),
        EventV::Chi { pai, consumed, .. } => tiles_check(seq![pai, consumed[0], consumed[1]]),
        EventV::Pon { pai, consumed, .. } => tiles_check(seq![pai, consumed[0], consumed[1]]),
        EventV::Daiminkan { pai, consumed, .. } => tiles_check(
            seq![pai, consumed[0], consumed[1], consumed[2]],
        ),
        EventV::Ankan { consumed, .. } => tiles_check(
            seq![consumed[0], consumed[1], consumed[2], consumed[3]],
        ),
        EventV::Hora { ura_markers: Some(ura), .. } => tiles_check(ura),
        _ => Ok(()),
    }
}

/// The check of one event of a three-player game: no chi, no fourth seat, no
/// four-player-only tile.
pub open spec fn sanma_event_check(e: EventV) -> Result<(), ConvertErrorV> {
    if e is Chi {
        Err(ConvertErrorV::SanmaChi)
    } else if e.actor() matches Some(a) && a >= 3 {
        Err(not_sanma(e))
    } else {
        event_tiles_check(e)
    }
}

/// Checks events in order; the first failing event decides the error.
pub open spec fn sanma_events_check(es: Seq<EventV>) -> Result<(), ConvertErrorV>
    decreases es.len(),
{
    if es.len() == 0 {
        Ok(())
    } else {
        match sanma_events_check(es.drop_last()) {
            Err(e) => Err(e),
            Ok(()) => sanma_event_check(es.last()),
        }
    }
}

/// Rejects the tiles that a three-player game does not use.
pub fn validate_sanma_tile(tile: Tile) -> (res: Result<(), ConvertError>)
    ensures
        match res {
            Ok(()) => tile_check(tile) is Ok,
            Err(e) => tile_check(tile) == Err::<(), ConvertErrorV>(e@),
        },
{
    let id = tile.as_u8();
    if (1 <= id && id <= 7) || id == 34 {
        Err(ConvertError::InvalidSanmaTile(tile))
    } else {
        Ok(())
    }
}

fn validate_sanma_tiles(ts: &[Tile]) -> (res: Result<(), ConvertError>)
    ensures
        match res {
            Ok(()) => tiles_check(ts@) is Ok,
            Err(e) => tiles_check(ts@) == Err::<(), ConvertErrorV>(e@),
        },
{
    let mut i: usize = 0;
    assert(ts@.take(0) =~= seq![]);
    while i < ts.len()
        invariant
            i <= ts@.len(),
            tiles_check(ts@.take(i as int)) is Ok,
        decreases ts.len() - i,
    {
        assert(ts@.take(i + 1).drop_last() =~= ts@.take(i as int));
        match validate_sanma_tile(ts[i]) {
            Ok(()) => {},
            Err(e) => {
                proof {
                    lemma_tiles_check_err_prefix(ts@, i + 1);
                }
                return Err(e);
            },
        }
        i += 1;
    }
    assert(ts@.take(ts@.len() as int) =~= ts@);
    Ok(())
}

proof fn lemma_tiles_check_err_prefix(ts: Seq<Tile>, k: int)
    requires
        0 <= k <= ts.len(),
        tiles_check(ts.take(k)) is Err,
    ensures
        tiles_check(ts) == tiles_check(ts.take(k)),
    decreases ts.len() - k,
{
    if k < ts.len() {
        assert(ts.take(k + 1).drop_last() =~= ts.take(k));
        lemma_tiles_check_err_prefix(ts, k + 1);
    } else {
        assert(ts.take(k) =~= ts);
    }
}

proof fn lemma_rows_check_err_prefix(rows: Seq<Seq<Tile>>, k: int)
    requires
        0 <= k <= rows.len(),
        rows_check(rows.take(k)) is Err,
    ensures
        rows_check(rows) == rows_check(rows.take(k)),
    decreases rows.len() - k,
{
    if k < rows.len() {
        assert(rows.take(k + 1).drop_last() =~= rows.take(k));
        lemma_rows_check_err_prefix(rows, k + 1);
    } else {
        assert(rows.take(k) =~= rows);
    }
}

proof fn lemma_events_check_err_prefix(es: Seq<EventV>, k: int)
    requires
        0 <= k <= es.len(),
        sanma_events_check(es.take(k)) is Err,
    ensures
        sanma_events_check(es) == sanma_events_check(es.take(k)),
    decreases es.len() - k,
{
    if k < es.len() {
        assert(es.take(k + 1).drop_last() =~= es.take(k));
        lemma_events_check_err_prefix(es, k + 1);
    } else {
        assert(es.take(k) =~= es);
    }
}

fn validate_sanma_rows(rows: &Vec<Vec<Tile>>) -> (res: Result<(), ConvertError>)
    ensures
        match res {
            Ok(()) => rows_check(crate::event::tile_rows_view(rows@)) is Ok,
            Err(e) => rows_check(crate::event::tile_rows_view(rows@)) == Err::<(), ConvertErrorV>(
                e@,
            ),
        },
{
    let ghost rv = crate::event::tile_rows_view(rows@);
    let mut i: usize = 0;
    assert(rv.take(0) =~= seq![]);
    while i < rows.len()
        invariant
            i <= rows@.len(),
            rv == crate::event::tile_rows_view(rows@),
            rows_check(rv.take(i as int)) is Ok,
        decreases rows.len() - i,
    {
        assert(rv.take(i + 1).drop_last() =~= rv.take(i as int));
        assert(rv.take(i + 1).last() == rows@[i as int]@);
        match validate_sanma_tiles(rows[i].as_slice()) {
            Ok(()) => {},
            Err(e) => {
                proof {
                    lemma_rows_check_err_prefix(rv, i + 1);
                }
                return Err(e);
            },
        }
        i += 1;
    }
    assert(rv.take(rv.len() as int) =~= rv);
    Ok(())
}

fn not_sanma_error(event: &Event) -> (res: ConvertError)
    ensures
        res@ == not_sanma(event@),
{
    ConvertError::UnexpectedNaki {
        action: event.duplicate(),
        last_discard: Tile::unknown(),
        last_actor: None,
        kyoku: 0,
        honba: 0,
        actor: 3,
    }
}

/// The tile check of one event of a three-player game.
pub fn validate_sanma_event_tiles(event: &Event) -> (res: Result<(), ConvertError>)
    ensures
        match res {
            Ok(()) => event_tiles_check(event@) is Ok,
            Err(e) => event_tiles_check(event@) == Err::<(), ConvertErrorV>(e@),
        },
{
    match event {
        Event::StartKyoku { dora_marker, scores, tehais, .. } => {
            if scores.len() != 3 || tehais.len() != 3 {
                return Err(not_sanma_error(event));
            }
            match validate_sanma_tile(*dora_marker) {
                Ok(()) => {},
                Err(e) => {
                    return Err(e);
                },
            }
            validate_sanma_rows(tehais)
        },
        Event::StartGame { names, .. } => {
            if names.len() != 3 {
                Err(not_sanma_error(event))
            } else {
                Ok(())
            }
        },
        Event::Tsumo { pai, .. } => validate_sanma_tile(*pai),
        Event::Dahai { pai, .. } => validate_sanma_tile(*pai),
        Event::Nukidora { pai, .. } => validate_sanma_tile(*pai),
        Event::Kakan { pai, .. } => validate_sanma_tile(*pai),
        Event::Dora { dora_marker } => validate_sanma_tile(*dora_marker),
        Event::Chi { pai, consumed, .. } => {
            let ts = [*pai, consumed[0], consumed[1]];
            assert(ts@ =~= seq![*pai, consumed[0], consumed[1]]);
            validate_sanma_tiles(&ts)
        },
        Event::Pon { pai, consumed, .. } => {
            let ts = [*pai, consumed[0], consumed[1]];
            assert(ts@ =~= seq![*pai, consumed[0], consumed[1]]);
            validate_sanma_tiles(&ts)
        },
        Event::Daiminkan { pai, consumed, .. } => {
            let ts = [*pai, consumed[0], consumed[1], consumed[2]];
            assert(ts@ =~= seq![*pai, consumed[0], consumed[1], consumed[2]]);
            validate_sanma_tiles(&ts)
        },
        Event::Ankan { consumed, .. } => {
            let ts = [consumed[0], consumed[1], consumed[2], consumed[3]];
            assert(ts@ =~= seq![consumed[0], consumed[1], consumed[2], consumed[3]]);
            validate_sanma_tiles(&ts)
        },
        Event::Hora { ura_markers: Some(ura), .. } => validate_sanma_tiles(ura.as_slice()),
        _ => Ok(()),
    }
}

/// Checks a converted three-player game: no chi, no fourth seat, no four-player-only
/// tile; the first failing event decides the error.
pub fn validate_sanma_mjai(events: &[Event]) -> (res: Result<(), ConvertError>)
    ensures
        match res {
            Ok(()) => sanma_events_check(events_view(events@)) is Ok,
            Err(e) => sanma_events_check(events_view(events@)) == Err::<(), ConvertErrorV>(e@),
        },
{
    let ghost ev = events_view(events@);
    let mut i: usize = 0;
    assert(ev.take(0) =~= seq![]);
    while i < events.len()
        invariant
            i <= events@.len(),
            ev == events_view(events@),
            sanma_events_check(ev.take(i as int)) is Ok,
        decreases events.len() - i,
    {
        assert(ev.take(i + 1).drop_last() =~= ev.take(i as int));
        assert(ev.take(i + 1).last() == events@[i as int]@);
        let event = &events[i];
        let is_chi = match event {
            Event::Chi { .. } => true,
            _ => false,
        };
        if is_chi {
            proof {
                lemma_events_check_err_prefix(ev, i + 1);
            }
            return Err(ConvertError::SanmaChi);
        }
        let bad_actor = match event.actor() {
            Some(actor) => actor >= 3,
            None => false,
        };
        if bad_actor {
            proof {
                lemma_events_check_err_prefix(ev, i + 1);
            }
            return Err(not_sanma_error(event));
        }
        match validate_sanma_event_tiles(event) {
            Ok(()) => {},
            Err(e) => {
                proof {
                    lemma_events_check_err_prefix(ev, i + 1);
                }
                return Err(e);
            },
        }
        i += 1;
    }
    assert(ev.take(ev.len() as int) =~= ev);
    Ok(())
}

} // verus!
