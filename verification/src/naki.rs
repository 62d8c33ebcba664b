//! Reading the take and discard lists of one player into mjai events.
use vstd::prelude::*;

use crate::error::{ConvertError, ConvertErrorV};
use crate::event::{events_view, Event, EventV};
use crate::tenhou::ActionItem;
use crate::text::{
    bytes_to_string_lossy, find_byte, find_byte_in, parse_u8_decimal, parse_u8_decimal_bytes,
    str_equals, utf8_lossy,
};
use crate::tile::{group_tile_ids, tenhou_id_to_mjai_id, tile_from_id, Tile};

verus! {

broadcast use group_tile_ids;

/// The text that names a byte string in an error: its decoding when it is valid UTF-8.
pub open spec fn bytes_text(b: Seq<u8>) -> Seq<char> {
    if vstd::utf8::valid_utf8(b) {
        vstd::utf8::decode_utf8(b)
    } else {
        utf8_lossy(b)
    }
}

/// The tile that a Tenhou tile number written in decimal denotes.
pub open spec fn spec_tile_from_tenhou_bytes(b: Seq<u8>) -> Result<Tile, ConvertErrorV> {
    match parse_u8_decimal(b) {
        Some(v) => match tenhou_id_to_mjai_id(v) {
            Some(id) => Ok(tile_from_id(id)),
            None => Err(ConvertErrorV::InvalidTile(bytes_text(b))),
        },
        None => Err(ConvertErrorV::InvalidTile(bytes_text(b))),
    }
}

/// Reads a Tenhou tile number written in decimal, such as `b"53"`.
pub fn tiles_from_tenhou_bytes(b: &[u8]) -> (res: Result<Tile, ConvertError>)
    ensures
        match res {
            Ok(t) => spec_tile_from_tenhou_bytes(b@) == Ok::<Tile, ConvertErrorV>(t),
            Err(e) => spec_tile_from_tenhou_bytes(b@) == Err::<Tile, ConvertErrorV>(e@),
        },
{
    match parse_u8_decimal_bytes(b) {
        Some(id) => match Tile::from_tenhou_id(id) {
            Some(t) => Ok(t),
            None => Err(ConvertError::InvalidTile(bytes_to_string_lossy(b))),
        },
        None => Err(ConvertError::InvalidTile(bytes_to_string_lossy(b))),
    }
}

/// The seat that a meld string calls from, given the position of its call marker.
pub open spec fn spec_relative_target(actor: u8, num_players: usize, naki_marker_idx: usize) -> u8 {
    if num_players == 4 && naki_marker_idx == 0 {
        ((actor + 3) % 4) as u8
    } else if num_players == 4 && (naki_marker_idx == 4 || naki_marker_idx == 6) {
        ((actor + 1) % 4) as u8
    } else if num_players == 3 && naki_marker_idx == 0 {
        ((actor + 2) % 3) as u8
    } else if num_players == 3 && (naki_marker_idx == 4 || naki_marker_idx == 6) {
        ((actor + 1) % 3) as u8
    } else if naki_marker_idx == 2 {
        ((actor + 2) % 4) as u8
    } else {
        actor
    }
}

/// A call marker at position 0, 2, 4 or 6 names another seat of the table: the seat is
/// below the number of players and is not the caller. In a three-player game the
/// position 2 does not occur for the second seat. A marker at position 4 and one at
/// position 0 name seats in opposite directions, so each undoes the other.
pub proof fn lemma_relative_target_other_seat(actor: u8, num_players: usize, naki_marker_idx: usize)
    requires
        num_players == 3 || num_players == 4,
        actor < num_players,
        naki_marker_idx == 0 || naki_marker_idx == 2 || naki_marker_idx == 4 || naki_marker_idx
            == 6,
        num_players == 3 && naki_marker_idx == 2 ==> actor != 1,
    ensures
        spec_relative_target(actor, num_players, naki_marker_idx) < num_players,
        spec_relative_target(actor, num_players, naki_marker_idx) != actor,
        spec_relative_target(spec_relative_target(actor, num_players, 4), num_players, 0) == actor,
{
}

fn relative_target(actor: u8, num_players: usize, naki_marker_idx: usize) -> (res: u8)
    requires
        actor <= 252,
    ensures
        res == spec_relative_target(actor, num_players, naki_marker_idx),
{
    if num_players == 4 && naki_marker_idx == 0 {
        (actor + 3) % 4
    } else if num_players == 4 && (naki_marker_idx == 4 || naki_marker_idx == 6) {
        (actor + 1) % 4
    } else if num_players == 3 && naki_marker_idx == 0 {
        (actor + 2) % 3
    } else if num_players == 3 && (naki_marker_idx == 4 || naki_marker_idx == 6) {
        (actor + 1) % 3
    } else if naki_marker_idx == 2 {
        (actor + 2) % 4
    } else {
        actor
    }
}

pub open spec fn tile_in(b: Seq<u8>, lo: int, hi: int) -> Result<Tile, ConvertErrorV> {
    spec_tile_from_tenhou_bytes(b.subrange(lo, hi))
}

/// Three tiles read from three slices in order; the first that fails decides the error.
pub open spec fn three_tiles(b: Seq<u8>, r: (int, int), s: (int, int), t: (int, int)) -> Result<
    (Tile, Tile, Tile),
    ConvertErrorV,
> {
    match tile_in(b, r.0, r.1) {
        Err(e) => Err(e),
        Ok(x) => match tile_in(b, s.0, s.1) {
            Err(e) => Err(e),
            Ok(y) => match tile_in(b, t.0, t.1) {
                Err(e) => Err(e),
                Ok(z) => Ok((x, y, z)),
            },
        },
    }
}

/// Four tiles read from four slices in order; the first that fails decides the error.
pub open spec fn four_tiles(
    b: Seq<u8>,
    r: (int, int),
    s: (int, int),
    t: (int, int),
    u: (int, int),
) -> Result<(Tile, Tile, Tile, Tile), ConvertErrorV> {
    match three_tiles(b, r, s, t) {
        Err(e) => Err(e),
        Ok((x, y, z)) => match tile_in(b, u.0, u.1) {
            Err(e) => Err(e),
            Ok(w) => Ok((x, y, z, w)),
        },
    }
}

pub open spec fn naki_bytes(s: String) -> Seq<u8> {
    vstd::utf8::encode_utf8(s@)
}

pub open spec fn pon_of(actor: u8, target: u8, ts: Result<(Tile, Tile, Tile), ConvertErrorV>) -> Result<
    EventV,
    ConvertErrorV,
> {
    match ts {
        Ok((p, a, b)) => Ok(EventV::Pon { actor, target, pai: p, consumed: [a, b] }),
        Err(e) => Err(e),
    }
}

pub open spec fn daiminkan_of(
    actor: u8,
    target: u8,
    ts: Result<(Tile, Tile, Tile, Tile), ConvertErrorV>,
) -> Result<EventV, ConvertErrorV> {
    match ts {
        Ok((p, a, b, c)) => Ok(EventV::Daiminkan { actor, target, pai: p, consumed: [a, b, c] }),
        Err(e) => Err(e),
    }
}

/// The event of a meld string in a take list: chi, pon or daiminkan.
pub open spec fn naki_take_event(actor: u8, num_players: usize, s: String) -> Result<
    EventV,
    ConvertErrorV,
> {
    let b = naki_bytes(s);
    if find_byte(b, 99) is Some {
        // chi, marked by 'c'
        if num_players == 3 {
            Err(ConvertErrorV::SanmaChi)
        } else if b.len() != 7 {
            Err(ConvertErrorV::InvalidNaki(s@))
        } else {
            match three_tiles(b, (1, 3), (3, 5), (5, 7)) {
                Ok((p, x, y)) => Ok(
                    EventV::Chi {
                        actor,
                        target: spec_relative_target(actor, num_players, 0),
                        pai: p,
                        consumed: [x, y],
                    },
                ),
                Err(e) => Err(e),
            }
        }
    } else if find_byte(b, 112) is Some {
        // pon, marked by 'p'
        let idx = find_byte(b, 112)->0;
        if b.len() != 7 {
            Err(ConvertErrorV::InvalidNaki(s@))
        } else if idx == 0 {
            pon_of(
                actor,
                spec_relative_target(actor, num_players, 0),
                three_tiles(b, (1, 3), (3, 5), (5, 7)),
            )
        } else if idx == 2 {
            pon_of(
                actor,
                spec_relative_target(actor, num_players, 2),
                three_tiles(b, (3, 5), (0, 2), (5, 7)),
            )
        } else if idx == 4 {
            pon_of(
                actor,
                spec_relative_target(actor, num_players, 4),
                three_tiles(b, (5, 7), (0, 2), (2, 4)),
            )
        } else {
            Err(ConvertErrorV::InvalidNaki(s@))
        }
    } else if find_byte(b, 109) is Some {
        // daiminkan, marked by 'm'
        let idx = find_byte(b, 109)->0;
        if b.len() != 9 {
            Err(ConvertErrorV::InvalidNaki(s@))
        } else if idx == 0 {
            daiminkan_of(
                actor,
                spec_relative_target(actor, num_players, 0),
                four_tiles(b, (1, 3), (3, 5), (5, 7), (7, 9)),
            )
        } else if idx == 2 {
            daiminkan_of(
                actor,
                spec_relative_target(actor, num_players, 2),
                four_tiles(b, (3, 5), (0, 2), (5, 7), (7, 9)),
            )
        } else if idx == 6 {
            daiminkan_of(
                actor,
                spec_relative_target(actor, num_players, 6),
                four_tiles(b, (7, 9), (0, 2), (2, 4), (4, 6)),
            )
        } else {
            Err(ConvertErrorV::InvalidNaki(s@))
        }
    } else {
        Err(ConvertErrorV::InvalidNaki(s@))
    }
}

/// The seat that a call takes from, by where its marker stands in the meld string: a
/// marker in front names the kamicha, one at position 2 the toimen, one at position 4 or
/// 6 the shimocha.
pub open spec fn seat_by_marker(actor: u8, num_players: usize, marker_idx: nat) -> int {
    if marker_idx == 0 {
        (actor + num_players - 1) % (num_players as int)
    } else if marker_idx == 2 {
        (actor + 2) % 4
    } else {
        (actor + 1) % (num_players as int)
    }
}

/// Every call read from a meld string takes from the seat its marker names: a chi from
/// the kamicha, a pon ('p' at position 0, 2 or 4) and a daiminkan ('m' at position 0, 2
/// or 6) from the seat of that position; in particular a marker at position 4 or 6
/// names the shimocha and one in front the kamicha.
pub proof fn lemma_call_target_by_marker(actor: u8, num_players: usize, s: String)
    requires
        num_players == 3 || num_players == 4,
    ensures
        naki_take_event(actor, num_players, s) matches Ok(e) ==> {
            let b = naki_bytes(s);
            match e {
                EventV::Chi { actor: a, target, .. } => a == actor && target == seat_by_marker(
                    actor,
                    num_players,
                    0,
                ),
                EventV::Pon { actor: a, target, .. } => {
                    &&& a == actor
                    &&& find_byte(b, 112) matches Some(i)
                    &&& (i == 0 || i == 2 || i == 4)
                    &&& target == seat_by_marker(actor, num_players, i)
                },
                EventV::Daiminkan { actor: a, target, .. } => {
                    &&& a == actor
                    &&& find_byte(b, 109) matches Some(i)
                    &&& (i == 0 || i == 2 || i == 6)
                    &&& target == seat_by_marker(actor, num_players, i)
                },
                _ => false,
            }
        },
{
}

/// The event of one item of a take list.
pub open spec fn take_item_event(actor: u8, num_players: usize, item: ActionItem) -> Result<
    EventV,
    ConvertErrorV,
> {
    match item {
        ActionItem::Tsumogiri(_) => Err(ConvertErrorV::UnexpectedTsumogiri),
        ActionItem::Tile(pai) => Ok(EventV::Tsumo { actor, pai }),
        ActionItem::Naki(s) => naki_take_event(actor, num_players, s),
    }
}

/// The events of a take list; the first item that fails decides the error.
pub open spec fn takes_to_events(actor: u8, num_players: usize, items: Seq<ActionItem>) -> Result<
    Seq<EventV>,
    ConvertErrorV,
>
    decreases items.len(),
{
    if items.len() == 0 {
        Ok(seq![])
    } else {
        match takes_to_events(actor, num_players, items.drop_last()) {
            Err(e) => Err(e),
            Ok(r) => match take_item_event(actor, num_players, items.last()) {
                Ok(ev) => Ok(r.push(ev)),
                Err(e) => Err(e),
            },
        }
    }
}

pub open spec fn kakan_of(actor: u8, ts: Result<(Tile, Tile, Tile, Tile), ConvertErrorV>) -> Result<
    Seq<EventV>,
    ConvertErrorV,
> {
    match ts {
        Ok((p, a, b, c)) => Ok(seq![EventV::Kakan { actor, pai: p, consumed: [a, b, c] }]),
        Err(e) => Err(e),
    }
}

/// The events of a meld string in a discard list: kakan, ankan, nukidora or riichi.
pub open spec fn naki_discard_events(actor: u8, s: String) -> Result<Seq<EventV>, ConvertErrorV> {
    let b = naki_bytes(s);
    if find_byte(b, 107) is Some {
        // kakan, marked by 'k'
        let idx = find_byte(b, 107)->0;
        if b.len() != 9 {
            Err(ConvertErrorV::InvalidNaki(s@))
        } else if idx == 0 {
            kakan_of(actor, four_tiles(b, (1, 3), (3, 5), (5, 7), (7, 9)))
        } else if idx == 2 {
            kakan_of(actor, four_tiles(b, (3, 5), (0, 2), (5, 7), (7, 9)))
        } else if idx == 4 {
            kakan_of(actor, four_tiles(b, (5, 7), (0, 2), (2, 4), (7, 9)))
        } else {
            Err(ConvertErrorV::InvalidNaki(s@))
        }
    } else if find_byte(b, 97) is Some {
        // ankan, marked by 'a'
        if b.len() != 9 {
            Err(ConvertErrorV::InvalidNaki(s@))
        } else {
            match four_tiles(b, (7, 9), (0, 2), (2, 4), (4, 6)) {
                Ok((p, x, y, z)) => Ok(seq![EventV::Ankan { actor, consumed: [x, y, z, p] }]),
                Err(e) => Err(e),
            }
        }
    } else if find_byte(b, 102) is Some {
        // nukidora, written "f44"
        if s@ != "f44"@ {
            Err(ConvertErrorV::InvalidNaki(s@))
        } else {
            Ok(seq![EventV::Nukidora { actor, pai: tile_from_id(30) }])
        }
    } else {
        // riichi with its discard, such as "r35"; "r60" discards the drawn tile
        if b.len() != 3 {
            Err(ConvertErrorV::InvalidNaki(s@))
        } else if b[1] == 54 && b[2] == 48 {
            Ok(
                seq![
                    EventV::Reach { actor },
                    EventV::Dahai { actor, pai: tile_from_id(37), tsumogiri: true },
                ],
            )
        } else {
            match tile_in(b, 1, 3) {
                Ok(p) => Ok(
                    seq![
                        EventV::Reach { actor },
                        EventV::Dahai { actor, pai: p, tsumogiri: p@ == 37 },
                    ],
                ),
                Err(e) => Err(e),
            }
        }
    }
}

/// The events of one item of a discard list.
pub open spec fn discard_item_events(actor: u8, item: ActionItem) -> Result<
    Seq<EventV>,
    ConvertErrorV,
> {
    match item {
        ActionItem::Tile(pai) => Ok(seq![EventV::Dahai { actor, pai, tsumogiri: false }]),
        ActionItem::Tsumogiri(_) => Ok(
            seq![EventV::Dahai { actor, pai: tile_from_id(37), tsumogiri: true }],
        ),
        ActionItem::Naki(s) => naki_discard_events(actor, s),
    }
}

/// The events of a discard list; the first item that fails decides the error.
pub open spec fn discards_to_events(actor: u8, items: Seq<ActionItem>) -> Result<
    Seq<EventV>,
    ConvertErrorV,
>
    decreases items.len(),
{
    if items.len() == 0 {
        Ok(seq![])
    } else {
        match discards_to_events(actor, items.drop_last()) {
            Err(e) => Err(e),
            Ok(r) => match discard_item_events(actor, items.last()) {
                Ok(evs) => Ok(r + evs),
                Err(e) => Err(e),
            },
        }
    }
}

fn tile_at(b: &[u8], lo: usize, hi: usize) -> (res: Result<Tile, ConvertError>)
    requires
        lo <= hi <= b@.len(),
    ensures
        match res {
            Ok(t) => tile_in(b@, lo as int, hi as int) == Ok::<Tile, ConvertErrorV>(t),
            Err(e) => tile_in(b@, lo as int, hi as int) == Err::<Tile, ConvertErrorV>(e@),
        },
{
    tiles_from_tenhou_bytes(&b[lo..hi])
}

fn tiles3(b: &[u8], r: (usize, usize), s: (usize, usize), t: (usize, usize)) -> (res: Result<
    (Tile, Tile, Tile),
    ConvertError,
>)
    requires
        r.0 <= r.1 <= b@.len(),
        s.0 <= s.1 <= b@.len(),
        t.0 <= t.1 <= b@.len(),
    ensures
        match res {
            Ok(v) => three_tiles(
                b@,
                (r.0 as int, r.1 as int),
                (s.0 as int, s.1 as int),
                (t.0 as int, t.1 as int),
            ) == Ok::<(Tile, Tile, Tile), ConvertErrorV>(v),
            Err(e) => three_tiles(
                b@,
                (r.0 as int, r.1 as int),
                (s.0 as int, s.1 as int),
                (t.0 as int, t.1 as int),
            ) == Err::<(Tile, Tile, Tile), ConvertErrorV>(e@),
        },
{
    let x = match tile_at(b, r.0, r.1) {
        Ok(x) => x,
        Err(e) => {
            return Err(e);
        },
    };
    let y = match tile_at(b, s.0, s.1) {
        Ok(y) => y,
        Err(e) => {
            return Err(e);
        },
    };
    let z = match tile_at(b, t.0, t.1) {
        Ok(z) => z,
        Err(e) => {
            return Err(e);
        },
    };
    Ok((x, y, z))
}

fn tiles4(b: &[u8], r: (usize, usize), s: (usize, usize), t: (usize, usize), u: (usize, usize)) -> (res:
    Result<(Tile, Tile, Tile, Tile), ConvertError>)
    requires
        r.0 <= r.1 <= b@.len(),
        s.0 <= s.1 <= b@.len(),
        t.0 <= t.1 <= b@.len(),
        u.0 <= u.1 <= b@.len(),
    ensures
        match res {
            Ok(v) => four_tiles(
                b@,
                (r.0 as int, r.1 as int),
                (s.0 as int, s.1 as int),
                (t.0 as int, t.1 as int),
                (u.0 as int, u.1 as int),
            ) == Ok::<(Tile, Tile, Tile, Tile), ConvertErrorV>(v),
            Err(e) => four_tiles(
                b@,
                (r.0 as int, r.1 as int),
                (s.0 as int, s.1 as int),
                (t.0 as int, t.1 as int),
                (u.0 as int, u.1 as int),
            ) == Err::<(Tile, Tile, Tile, Tile), ConvertErrorV>(e@),
        },
{
    let (x, y, z) = match tiles3(b, r, s, t) {
        Ok(v) => v,
        Err(e) => {
            return Err(e);
        },
    };
    let w = match tile_at(b, u.0, u.1) {
        Ok(w) => w,
        Err(e) => {
            return Err(e);
        },
    };
    Ok((x, y, z, w))
}

fn naki_take_to_event(actor: u8, num_players: usize, naki_string: &String) -> (res: Result<
    Event,
    ConvertError,
>)
    requires
        actor <= 252,
    ensures
        match res {
            Ok(ev) => naki_take_event(actor, num_players, *naki_string) == Ok::<
                EventV,
                ConvertErrorV,
            >(ev@),
            Err(e) => naki_take_event(actor, num_players, *naki_string) == Err::<
                EventV,
                ConvertErrorV,
            >(e@),
        },
{
    let naki = naki_string.as_str().as_bytes();
    assert(naki@ == naki_bytes(*naki_string));
    if find_byte_in(naki, 99).is_some() {
        if num_players == 3 {
            return Err(ConvertError::SanmaChi);
        }
        if naki.len() != 7 {
            return Err(ConvertError::InvalidNaki(naki_string.clone()));
        }
        let (p, x, y) = match tiles3(naki, (1, 3), (3, 5), (5, 7)) {
            Ok(v) => v,
            Err(e) => {
                return Err(e);
            },
        };
        Ok(
            Event::Chi {
                actor,
                target: relative_target(actor, num_players, 0),
                pai: p,
                consumed: [x, y],
            },
        )
    } else if let Some(idx) = find_byte_in(naki, 112) {
        if naki.len() != 7 {
            return Err(ConvertError::InvalidNaki(naki_string.clone()));
        }
        let (target, ts) = if idx == 0 {
            (relative_target(actor, num_players, 0), tiles3(naki, (1, 3), (3, 5), (5, 7)))
        } else if idx == 2 {
            (relative_target(actor, num_players, 2), tiles3(naki, (3, 5), (0, 2), (5, 7)))
        } else if idx == 4 {
            (relative_target(actor, num_players, 4), tiles3(naki, (5, 7), (0, 2), (2, 4)))
        } else {
            return Err(ConvertError::InvalidNaki(naki_string.clone()));
        };
        match ts {
            Ok((p, x, y)) => Ok(Event::Pon { actor, target, pai: p, consumed: [x, y] }),
            Err(e) => Err(e),
        }
    } else if let Some(idx) = find_byte_in(naki, 109) {
        if naki.len() != 9 {
            return Err(ConvertError::InvalidNaki(naki_string.clone()));
        }
        let (target, ts) = if idx == 0 {
            (
                relative_target(actor, num_players, 0),
                tiles4(naki, (1, 3), (3, 5), (5, 7), (7, 9)),
            )
        } else if idx == 2 {
            (
                relative_target(actor, num_players, 2),
                tiles4(naki, (3, 5), (0, 2), (5, 7), (7, 9)),
            )
        } else if idx == 6 {
            (
                relative_target(actor, num_players, 6),
                tiles4(naki, (7, 9), (0, 2), (2, 4), (4, 6)),
            )
        } else {
            return Err(ConvertError::InvalidNaki(naki_string.clone()));
        };
        match ts {
            Ok((p, x, y, z)) => Ok(Event::Daiminkan { actor, target, pai: p, consumed: [x, y, z] }),
            Err(e) => Err(e),
        }
    } else {
        Err(ConvertError::InvalidNaki(naki_string.clone()))
    }
}

/// Reads the take list of `actor` into tsumo, chi, pon and daiminkan events.
pub fn take_action_to_events(actor: u8, num_players: usize, takes: &[ActionItem]) -> (res: Result<
    Vec<Event>,
    ConvertError,
>)
    requires
        actor <= 252 || forall|i: int| 0 <= i < takes@.len() ==> !(#[trigger] takes@[i] is Naki),
    ensures
        match res {
            Ok(v) => takes_to_events(actor, num_players, takes@) == Ok::<
                Seq<EventV>,
                ConvertErrorV,
            >(events_view(v@)),
            Err(e) => takes_to_events(actor, num_players, takes@) == Err::<
                Seq<EventV>,
                ConvertErrorV,
            >(e@),
        },
{
    let mut ret: Vec<Event> = Vec::new();
    let mut i: usize = 0;
    assert(takes@.take(0) =~= seq![]);
    assert(events_view(ret@) =~= seq![]);
    while i < takes.len()
        invariant
            actor <= 252 || forall|j: int| 0 <= j < takes@.len() ==> !(#[trigger] takes@[j] is Naki),
            i <= takes@.len(),
            takes_to_events(actor, num_players, takes@.take(i as int)) == Ok::<
                Seq<EventV>,
                ConvertErrorV,
            >(events_view(ret@)),
        decreases takes.len() - i,
    {
        assert(takes@.take(i + 1).drop_last() =~= takes@.take(i as int));
        assert(takes@.take(i + 1).last() == takes@[i as int]);
        let ev = match &takes[i] {
            ActionItem::Tsumogiri(_) => Err(ConvertError::UnexpectedTsumogiri),
            ActionItem::Tile(pai) => Ok(Event::Tsumo { actor, pai: *pai }),
            ActionItem::Naki(naki_string) => {
                assert(takes@[i as int] is Naki);
                naki_take_to_event(actor, num_players, naki_string)
            },
        };
        match ev {
            Ok(ev) => {
                let ghost old_ret = ret@;
                ret.push(ev);
                assert(events_view(ret@) =~= events_view(old_ret).push(ev@));
            },
            Err(e) => {
                proof {
                    lemma_takes_err_prefix(actor, num_players, takes@, i + 1);
                }
                return Err(e);
            },
        }
        i += 1;
    }
    assert(takes@.take(takes@.len() as int) =~= takes@);
    Ok(ret)
}

proof fn lemma_takes_err_prefix(actor: u8, num_players: usize, items: Seq<ActionItem>, k: int)
    requires
        0 <= k <= items.len(),
        takes_to_events(actor, num_players, items.take(k)) is Err,
    ensures
        takes_to_events(actor, num_players, items) == takes_to_events(
            actor,
            num_players,
            items.take(k),
        ),
    decreases items.len() - k,
{
    if k < items.len() {
        assert(items.take(k + 1).drop_last() =~= items.take(k));
        lemma_takes_err_prefix(actor, num_players, items, k + 1);
    } else {
        assert(items.take(k) =~= items);
    }
}

proof fn lemma_discards_err_prefix(actor: u8, items: Seq<ActionItem>, k: int)
    requires
        0 <= k <= items.len(),
        discards_to_events(actor, items.take(k)) is Err,
    ensures
        discards_to_events(actor, items) == discards_to_events(actor, items.take(k)),
    decreases items.len() - k,
{
    if k < items.len() {
        assert(items.take(k + 1).drop_last() =~= items.take(k));
        lemma_discards_err_prefix(actor, items, k + 1);
    } else {
        assert(items.take(k) =~= items);
    }
}

fn naki_discard_to_events(actor: u8, naki_string: &String) -> (res: Result<
    Vec<Event>,
    ConvertError,
>)
    ensures
        match res {
            Ok(v) => naki_discard_events(actor, *naki_string) == Ok::<
                Seq<EventV>,
                ConvertErrorV,
            >(events_view(v@)),
            Err(e) => naki_discard_events(actor, *naki_string) == Err::<
                Seq<EventV>,
                ConvertErrorV,
            >(e@),
        },
{
    let naki = naki_string.as_str().as_bytes();
    assert(naki@ == naki_bytes(*naki_string));
    let mut ret: Vec<Event> = Vec::new();
    if let Some(idx) = find_byte_in(naki, 107) {
        if naki.len() != 9 {
            return Err(ConvertError::InvalidNaki(naki_string.clone()));
        }
        let ts = if idx == 0 {
            tiles4(naki, (1, 3), (3, 5), (5, 7), (7, 9))
        } else if idx == 2 {
            tiles4(naki, (3, 5), (0, 2), (5, 7), (7, 9))
        } else if idx == 4 {
            tiles4(naki, (5, 7), (0, 2), (2, 4), (7, 9))
        } else {
            return Err(ConvertError::InvalidNaki(naki_string.clone()));
        };
        match ts {
            Ok((p, x, y, z)) => {
                ret.push(Event::Kakan { actor, pai: p, consumed: [x, y, z] });
                assert(events_view(ret@) =~= seq![
                    EventV::Kakan { actor, pai: p, consumed: [x, y, z] },
                ]);
                Ok(ret)
            },
            Err(e) => Err(e),
        }
    } else if find_byte_in(naki, 97).is_some() {
        if naki.len() != 9 {
            return Err(ConvertError::InvalidNaki(naki_string.clone()));
        }
        match tiles4(naki, (7, 9), (0, 2), (2, 4), (4, 6)) {
            Ok((p, x, y, z)) => {
                ret.push(Event::Ankan { actor, consumed: [x, y, z, p] });
                assert(events_view(ret@) =~= seq![
                    EventV::Ankan { actor, consumed: [x, y, z, p] },
                ]);
                Ok(ret)
            },
            Err(e) => Err(e),
        }
    } else if find_byte_in(naki, 102).is_some() {
        if !str_equals(naki_string.as_str(), "f44") {
            return Err(ConvertError::InvalidNaki(naki_string.clone()));
        }
        let north = Tile::north();
        ret.push(Event::Nukidora { actor, pai: north });
        assert(events_view(ret@) =~= seq![EventV::Nukidora { actor, pai: tile_from_id(30) }]);
        Ok(ret)
    } else {
        if naki.len() != 3 {
            return Err(ConvertError::InvalidNaki(naki_string.clone()));
        }
        let pai = if naki[1] == 54 && naki[2] == 48 {
            Tile::unknown()
        } else {
            match tile_at(naki, 1, 3) {
                Ok(p) => p,
                Err(e) => {
                    return Err(e);
                },
            }
        };
        let tsumogiri = pai.is_unknown();
        ret.push(Event::Reach { actor });
        ret.push(Event::Dahai { actor, pai, tsumogiri });
        assert(events_view(ret@) =~= seq![
            EventV::Reach { actor },
            EventV::Dahai { actor, pai, tsumogiri },
        ]);
        Ok(ret)
    }
}

/// Reads the discard list of `actor` into dahai, kakan, ankan, nukidora and riichi events.
/// A tsumogiri entry gives a dahai of the unknown tile, to be filled in later.
pub fn discard_action_to_events(actor: u8, discards: &[ActionItem]) -> (res: Result<
    Vec<Event>,
    ConvertError,
>)
    ensures
        match res {
            Ok(v) => discards_to_events(actor, discards@) == Ok::<Seq<EventV>, ConvertErrorV>(
                events_view(v@),
            ),
            Err(e) => discards_to_events(actor, discards@) == Err::<Seq<EventV>, ConvertErrorV>(
                e@,
            ),
        },
{
    let mut ret: Vec<Event> = Vec::new();
    let mut i: usize = 0;
    assert(discards@.take(0) =~= seq![]);
    assert(events_view(ret@) =~= seq![]);
    while i < discards.len()
        invariant
            i <= discards@.len(),
            discards_to_events(actor, discards@.take(i as int)) == Ok::<
                Seq<EventV>,
                ConvertErrorV,
            >(events_view(ret@)),
        decreases discards.len() - i,
    {
        assert(discards@.take(i + 1).drop_last() =~= discards@.take(i as int));
        assert(discards@.take(i + 1).last() == discards@[i as int]);
        let ghost old_ret = ret@;
        match &discards[i] {
            ActionItem::Tile(pai) => {
                ret.push(Event::Dahai { actor, pai: *pai, tsumogiri: false });
                assert(events_view(ret@) =~= events_view(old_ret) + seq![
                    EventV::Dahai { actor, pai: *pai, tsumogiri: false },
                ]);
            },
            ActionItem::Tsumogiri(_) => {
                ret.push(Event::Dahai { actor, pai: Tile::unknown(), tsumogiri: true });
                assert(events_view(ret@) =~= events_view(old_ret) + seq![
                    EventV::Dahai { actor, pai: tile_from_id(37), tsumogiri: true },
                ]);
            },
            ActionItem::Naki(naki_string) => {
                match naki_discard_to_events(actor, naki_string) {
                    Ok(evs) => {
                        let mut evs = evs;
                        let ghost added = evs@;
                        ret.append(&mut evs);
                        assert(events_view(ret@) =~= events_view(old_ret) + events_view(added));
                    },
                    Err(e) => {
                        proof {
                            lemma_discards_err_prefix(actor, discards@, i + 1);
                        }
                        return Err(e);
                    },
                }
            },
        }
        i += 1;
    }
    assert(discards@.take(discards@.len() as int) =~= discards@);
    Ok(ret)
}

} // verus!
