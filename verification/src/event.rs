use vstd::prelude::*;

use crate::tile::Tile;

verus! {

/// An mjai event.
#[derive(Debug, Clone, PartialEq, Eq)]
pub enum Event {
    StartGame { kyoku_first: u8, aka_flag: bool, names: Vec<String> },
    StartKyoku {
        bakaze: Tile,
        dora_marker: Tile,
        kyoku: u8,
        honba: u8,
        kyotaku: u8,
        oya: u8,
        scores: Vec<i32>,
        tehais: Vec<Vec<Tile>>,
    },
    Tsumo { actor: u8, pai: Tile },
    Dahai { actor: u8, pai: Tile, tsumogiri: bool },
    Chi { actor: u8, target: u8, pai: Tile, consumed: [Tile; 2] },
    Pon { actor: u8, target: u8, pai: Tile, consumed: [Tile; 2] },
    Daiminkan { actor: u8, target: u8, pai: Tile, consumed: [Tile; 3] },
    Kakan { actor: u8, pai: Tile, consumed: [Tile; 3] },
    Ankan { actor: u8, consumed: [Tile; 4] },
    Nukidora { actor: u8, pai: Tile },
    Dora { dora_marker: Tile },
    Reach { actor: u8 },
    ReachAccepted { actor: u8 },
    Hora { actor: u8, target: u8, deltas: Option<Vec<i32>>, ura_markers: Option<Vec<Tile>> },
    Ryukyoku { deltas: Option<Vec<i32>> },
    EndKyoku,
    EndGame,
}

/// The mathematical value of an [`Event`]: the same data, with sequences in place of vectors.
pub enum EventV {
    StartGame { kyoku_first: u8, aka_flag: bool, names: Seq<Seq<char>> },
    StartKyoku {
        bakaze: Tile,
        dora_marker: Tile,
        kyoku: u8,
        honba: u8,
        kyotaku: u8,
        oya: u8,
        scores: Seq<i32>,
        tehais: Seq<Seq<Tile>>,
    },
    Tsumo { actor: u8, pai: Tile },
    Dahai { actor: u8, pai: Tile, tsumogiri: bool },
    Chi { actor: u8, target: u8, pai: Tile, consumed: [Tile; 2] },
    Pon { actor: u8, target: u8, pai: Tile, consumed: [Tile; 2] },
    Daiminkan { actor: u8, target: u8, pai: Tile, consumed: [Tile; 3] },
    Kakan { actor: u8, pai: Tile, consumed: [Tile; 3] },
    Ankan { actor: u8, consumed: [Tile; 4] },
    Nukidora { actor: u8, pai: Tile },
    Dora { dora_marker: Tile },
    Reach { actor: u8 },
    ReachAccepted { actor: u8 },
    Hora { actor: u8, target: u8, deltas: Option<Seq<i32>>, ura_markers: Option<Seq<Tile>> },
    Ryukyoku { deltas: Option<Seq<i32>> },
    EndKyoku,
    EndGame,
}

pub open spec fn strings_view(v: Seq<String>) -> Seq<Seq<char>> {
    v.map_values(|s: String| s@)
}

pub open spec fn tile_rows_view(v: Seq<Vec<Tile>>) -> Seq<Seq<Tile>> {
    v.map_values(|row: Vec<Tile>| row@)
}

pub open spec fn opt_vec_view<T>(o: Option<Vec<T>>) -> Option<Seq<T>> {
    match o {
        Some(v) => Some(v@),
        None => None,
    }
}

/// The values of a sequence of events.
pub open spec fn events_view(v: Seq<Event>) -> Seq<EventV> {
    v.map_values(|e: Event| e@)
}

impl View for Event {
    type V = EventV;

    open spec fn view(&self) -> EventV {
        match self {
            Event::StartGame { kyoku_first, aka_flag, names } => EventV::StartGame {
                kyoku_first: *kyoku_first,
                aka_flag: *aka_flag,
                names: strings_view(names@),
            },
            Event::StartKyoku {
                bakaze,
                dora_marker,
                kyoku,
                honba,
                kyotaku,
                oya,
                scores,
                tehais,
            } => EventV::StartKyoku {
                bakaze: *bakaze,
                dora_marker: *dora_marker,
                kyoku: *kyoku,
                honba: *honba,
                kyotaku: *kyotaku,
                oya: *oya,
                scores: scores@,
                tehais: tile_rows_view(tehais@),
            },
            Event::Tsumo { actor, pai } => EventV::Tsumo { actor: *actor, pai: *pai },
            Event::Dahai { actor, pai, tsumogiri } => EventV::Dahai {
                actor: *actor,
                pai: *pai,
                tsumogiri: *tsumogiri,
            },
            Event::Chi { actor, target, pai, consumed } => EventV::Chi {
                actor: *actor,
                target: *target,
                pai: *pai,
                consumed: *consumed,
            },
            Event::Pon { actor, target, pai, consumed } => EventV::Pon {
                actor: *actor,
                target: *target,
                pai: *pai,
                consumed: *consumed,
            },
            Event::Daiminkan { actor, target, pai, consumed } => EventV::Daiminkan {
                actor: *actor,
                target: *target,
                pai: *pai,
                consumed: *consumed,
            },
            Event::Kakan { actor, pai, consumed } => EventV::Kakan {
                actor: *actor,
                pai: *pai,
                consumed: *consumed,
            },
            Event::Ankan { actor, consumed } => EventV::Ankan {
                actor: *actor,
                consumed: *consumed,
            },
            Event::Nukidora { actor, pai } => EventV::Nukidora { actor: *actor, pai: *pai },
            Event::Dora { dora_marker } => EventV::Dora { dora_marker: *dora_marker },
            Event::Reach { actor } => EventV::Reach { actor: *actor },
            Event::ReachAccepted { actor } => EventV::ReachAccepted { actor: *actor },
            Event::Hora { actor, target, deltas, ura_markers } => EventV::Hora {
                actor: *actor,
                target: *target,
                deltas: opt_vec_view(*deltas),
                ura_markers: opt_vec_view(*ura_markers),
            },
            Event::Ryukyoku { deltas } => EventV::Ryukyoku { deltas: opt_vec_view(*deltas) },
            Event::EndKyoku => EventV::EndKyoku,
            Event::EndGame => EventV::EndGame,
        }
    }
}

impl EventV {
    /// For a call on a discard (chi, pon, daiminkan): the seat it is called from and the tile.
    pub open spec fn naki_info(self) -> Option<(u8, Tile)> {
        match self {
            EventV::Chi { target, pai, .. } => Some((target, pai)),
            EventV::Pon { target, pai, .. } => Some((target, pai)),
            EventV::Daiminkan { target, pai, .. } => Some((target, pai)),
            _ => None,
        }
    }

    /// The seat that performs the event, if the event has one.
    pub open spec fn actor(self) -> Option<u8> {
        match self {
            EventV::Tsumo { actor, .. } => Some(actor),
            EventV::Dahai { actor, .. } => Some(actor),
            EventV::Chi { actor, .. } => Some(actor),
            EventV::Pon { actor, .. } => Some(actor),
            EventV::Daiminkan { actor, .. } => Some(actor),
            EventV::Kakan { actor, .. } => Some(actor),
            EventV::Ankan { actor, .. } => Some(actor),
            EventV::Nukidora { actor, .. } => Some(actor),
            EventV::Reach { actor } => Some(actor),
            EventV::ReachAccepted { actor } => Some(actor),
            EventV::Hora { actor, .. } => Some(actor),
            _ => None,
        }
    }

    /// Priority of a call when several players call the same discard: pon and kan before chi.
    pub open spec fn naki_to_ord(self) -> int {
        match self {
            EventV::Chi { .. } => 0,
            EventV::Pon { .. } => 1,
            EventV::Daiminkan { .. } => 1,
            _ => -1,
        }
    }
}

/// Copies a vector of `Copy` values element by element.
pub fn copy_vec<T: Copy>(v: &Vec<T>) -> (res: Vec<T>)
    ensures
        res@ == v@,
{
    let mut res: Vec<T> = Vec::new();
    let mut i: usize = 0;
    while i < v.len()
        invariant
            i <= v.len(),
            res@ == v@.take(i as int),
        decreases v.len() - i,
    {
        res.push(v[i]);
        i += 1;
        assert(res@ =~= v@.take(i as int));
    }
    assert(v@.take(v.len() as int) =~= v@);
    res
}

/// Copies a vector of strings.
pub fn copy_strings(v: &Vec<String>) -> (res: Vec<String>)
    ensures
        strings_view(res@) == strings_view(v@),
{
    let mut res: Vec<String> = Vec::new();
    let mut i: usize = 0;
    while i < v.len()
        invariant
            i <= v.len(),
            res@ == v@.take(i as int),
        decreases v.len() - i,
    {
        res.push(v[i].clone());
        i += 1;
        assert(res@ =~= v@.take(i as int));
    }
    assert(v@.take(v.len() as int) =~= v@);
    res
}

/// Copies a vector of tile rows.
pub fn copy_tile_rows(v: &Vec<Vec<Tile>>) -> (res: Vec<Vec<Tile>>)
    ensures
        tile_rows_view(res@) == tile_rows_view(v@),
{
    let mut res: Vec<Vec<Tile>> = Vec::new();
    let mut i: usize = 0;
    while i < v.len()
        invariant
            i <= v.len(),
            res.len() == i,
            forall|j: int| 0 <= j < i ==> #[trigger] res@[j]@ == v@[j]@,
        decreases v.len() - i,
    {
        res.push(copy_vec(&v[i]));
        i += 1;
    }
    assert(tile_rows_view(res@) =~= tile_rows_view(v@));
    res
}

fn copy_opt_vec<T: Copy>(o: &Option<Vec<T>>) -> (res: Option<Vec<T>>)
    ensures
        opt_vec_view(res) == opt_vec_view(*o),
{
    match o {
        Some(v) => Some(copy_vec(v)),
        None => None,
    }
}

impl Event {
    /// A copy of this event with the same value.
    pub fn duplicate(&self) -> (res: Event)
        ensures
            res@ == self@,
    {
        match self {
            Event::StartGame { kyoku_first, aka_flag, names } => Event::StartGame {
                kyoku_first: *kyoku_first,
                aka_flag: *aka_flag,
                names: copy_strings(names),
            },
            Event::StartKyoku {
                bakaze,
                dora_marker,
                kyoku,
                honba,
                kyotaku,
                oya,
                scores,
                tehais,
            } => Event::StartKyoku {
                bakaze: *bakaze,
                dora_marker: *dora_marker,
                kyoku: *kyoku,
                honba: *honba,
                kyotaku: *kyotaku,
                oya: *oya,
                scores: copy_vec(scores),
                tehais: copy_tile_rows(tehais),
            },
            Event::Tsumo { actor, pai } => Event::Tsumo { actor: *actor, pai: *pai },
            Event::Dahai { actor, pai, tsumogiri } => Event::Dahai {
                actor: *actor,
                pai: *pai,
                tsumogiri: *tsumogiri,
            },
            Event::Chi { actor, target, pai, consumed } => Event::Chi {
                actor: *actor,
                target: *target,
                pai: *pai,
                consumed: *consumed,
            },
            Event::Pon { actor, target, pai, consumed } => Event::Pon {
                actor: *actor,
                target: *target,
                pai: *pai,
                consumed: *consumed,
            },
            Event::Daiminkan { actor, target, pai, consumed } => Event::Daiminkan {
                actor: *actor,
                target: *target,
                pai: *pai,
                consumed: *consumed,
            },
            Event::Kakan { actor, pai, consumed } => Event::Kakan {
                actor: *actor,
                pai: *pai,
                consumed: *consumed,
            },
            Event::Ankan { actor, consumed } => Event::Ankan { actor: *actor, consumed: *consumed },
            Event::Nukidora { actor, pai } => Event::Nukidora { actor: *actor, pai: *pai },
            Event::Dora { dora_marker } => Event::Dora { dora_marker: *dora_marker },
            Event::Reach { actor } => Event::Reach { actor: *actor },
            Event::ReachAccepted { actor } => Event::ReachAccepted { actor: *actor },
            Event::Hora { actor, target, deltas, ura_markers } => Event::Hora {
                actor: *actor,
                target: *target,
                deltas: copy_opt_vec(deltas),
                ura_markers: copy_opt_vec(ura_markers),
            },
            Event::Ryukyoku { deltas } => Event::Ryukyoku { deltas: copy_opt_vec(deltas) },
            Event::EndKyoku => Event::EndKyoku,
            Event::EndGame => Event::EndGame,
        }
    }

    /// For a call on a discard (chi, pon, daiminkan): the seat it is called from and the tile.
    pub fn naki_info(&self) -> (res: Option<(u8, Tile)>)
        ensures
            res == self@.naki_info(),
    {
        match self {
            Event::Chi { target, pai, .. } => Some((*target, *pai)),
            Event::Pon { target, pai, .. } => Some((*target, *pai)),
            Event::Daiminkan { target, pai, .. } => Some((*target, *pai)),
            _ => None,
        }
    }

    /// Priority of a call when several players call the same discard: pon and kan before chi.
    pub fn naki_to_ord(&self) -> (res: i8)
        ensures
            res as int == self@.naki_to_ord(),
    {
        match self {
            Event::Chi { .. } => 0,
            Event::Pon { .. } => 1,
            Event::Daiminkan { .. } => 1,
            _ => -1,
        }
    }

    /// The seat that performs the event, if the event has one.
    pub fn actor(&self) -> (res: Option<u8>)
        ensures
            res == self@.actor(),
    {
        match self {
            Event::Tsumo { actor, .. } => Some(*actor),
            Event::Dahai { actor, .. } => Some(*actor),
            Event::Chi { actor, .. } => Some(*actor),
            Event::Pon { actor, .. } => Some(*actor),
            Event::Daiminkan { actor, .. } => Some(*actor),
            Event::Kakan { actor, .. } => Some(*actor),
            Event::Ankan { actor, .. } => Some(*actor),
            Event::Nukidora { actor, .. } => Some(*actor),
            Event::Reach { actor } => Some(*actor),
            Event::ReachAccepted { actor } => Some(*actor),
            Event::Hora { actor, .. } => Some(*actor),
            _ => None,
        }
    }
}

/// Copies a vector of events.
pub fn copy_events(v: &Vec<Event>) -> (res: Vec<Event>)
    ensures
        events_view(res@) == events_view(v@),
{
    let mut res: Vec<Event> = Vec::new();
    let mut i: usize = 0;
    while i < v.len()
        invariant
            i <= v.len(),
            res.len() == i,
            forall|j: int| 0 <= j < i ==> #[trigger] res@[j]@ == v@[j]@,
        decreases v.len() - i,
    {
        res.push(v[i].duplicate());
        i += 1;
    }
    assert(events_view(res@) =~= events_view(v@));
    res
}

} // verus!
