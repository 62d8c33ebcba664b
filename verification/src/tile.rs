use vstd::prelude::*;

verus! {

/// Number of distinct tile identifiers, including the unknown tile.
pub const TILE_KINDS: u8 = 38;

/// Identifier of the unknown tile `?`.
pub const UNKNOWN_TILE_ID: u8 = 37;

/// A mahjong tile in mjai numbering.
///
/// `0..=8` are 1m..9m, `9..=17` are 1p..9p, `18..=26` are 1s..9s,
/// `27..=33` are E S W N P F C, `34..=36` are the red fives 5mr 5pr 5sr
/// and `37` is the unknown tile `?`.
#[derive(Clone, Copy, Debug, PartialEq, Eq, Structural, Hash)]
pub struct Tile(u8);

impl View for Tile {
    type V = u8;

    closed spec fn view(&self) -> u8 {
        self.0
    }
}

/// The identifier with the red-five flag removed.
pub open spec fn deaka_id(id: u8) -> u8 {
    if id == 34 {
        4
    } else if id == 35 {
        13
    } else if id == 36 {
        22
    } else {
        id
    }
}

/// The tile that a Tenhou tile number denotes, if any.
///
/// Tenhou numbers suits as `11..=19` (man), `21..=29` (pin), `31..=39` (sou),
/// `41..=47` (honors) and the red fives as `51`, `52`, `53`.
pub open spec fn tenhou_id_to_mjai_id(v: u8) -> Option<u8> {
    if 11 <= v <= 19 || 21 <= v <= 29 || 31 <= v <= 39 || 41 <= v <= 47 {
        Some(((v / 10 - 1) * 9 + (v % 10 - 1)) as u8)
    } else if 51 <= v <= 53 {
        Some((v - 51 + 34) as u8)
    } else {
        None
    }
}

impl Tile {
    /// Well-formed tiles have an identifier below `TILE_KINDS`.
    pub open spec fn wf(self) -> bool {
        self@ < TILE_KINDS
    }

    /// Builds a tile from its mjai identifier.
    pub fn try_from_u8(id: u8) -> (res: Option<Tile>)
        ensures
            match res {
                Some(t) => id < TILE_KINDS && t@ == id,
                None => id >= TILE_KINDS,
            },
    {
        if id < TILE_KINDS {
            Some(Tile(id))
        } else {
            None
        }
    }

    /// The unknown tile `?`.
    pub fn unknown() -> (res: Tile)
        ensures
            res@ == UNKNOWN_TILE_ID,
    {
        Tile(UNKNOWN_TILE_ID)
    }

    /// The north wind, the tile of a nukidora.
    pub fn north() -> (res: Tile)
        ensures
            res@ == 30,
    {
        Tile(30)
    }

    /// The round wind tile for a round index (0 east, 1 south, 2 west, otherwise north).
    pub fn wind(round: u8) -> (res: Tile)
        ensures
            res@ == (if round < 3 { 27 + round } else { 30 }),
    {
        if round < 3 {
            Tile(27 + round)
        } else {
            Tile(30)
        }
    }

    /// The mjai identifier.
    pub fn as_u8(self) -> (res: u8)
        ensures
            res == self@,
    {
        self.0
    }

    /// Whether this is the unknown tile `?`.
    pub fn is_unknown(self) -> (res: bool)
        ensures
            res == (self@ == UNKNOWN_TILE_ID),
    {
        self.0 == UNKNOWN_TILE_ID
    }

    /// The same tile with the red-five flag removed.
    pub fn deaka(self) -> (res: Tile)
        ensures
            res@ == deaka_id(self@),
    {
        if self.0 == 34 {
            Tile(4)
        } else if self.0 == 35 {
            Tile(13)
        } else if self.0 == 36 {
            Tile(22)
        } else {
            self
        }
    }

    /// Converts a Tenhou tile number into a tile.
    pub fn from_tenhou_id(v: u8) -> (res: Option<Tile>)
        ensures
            match res {
                Some(t) => tenhou_id_to_mjai_id(v) == Some(t@) && t.wf(),
                None => tenhou_id_to_mjai_id(v) is None,
            },
    {
        if (11 <= v && v <= 19) || (21 <= v && v <= 29) || (31 <= v && v <= 39) || (41 <= v
            && v <= 47) {
            Some(Tile((v / 10 - 1) * 9 + (v % 10 - 1)))
        } else if 51 <= v && v <= 53 {
            Some(Tile(v - 51 + 34))
        } else {
            None
        }
    }
}


/// The tile with the given identifier.
pub closed spec fn tile_from_id(id: u8) -> Tile {
    Tile(id)
}

pub broadcast proof fn lemma_tile_from_id_view(id: u8)
    ensures
        #[trigger] tile_from_id(id)@ == id,
{
}

pub broadcast proof fn lemma_tile_from_view(t: Tile)
    ensures
        #[trigger] tile_from_id(t@) == t,
{
}

pub broadcast group group_tile_ids {
    lemma_tile_from_id_view,
    lemma_tile_from_view,
}

} // verus!
