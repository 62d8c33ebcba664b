use vstd::prelude::*;

use crate::event::{Event, EventV};
use crate::tile::Tile;

verus! {

/// Why a Tenhou log could not be converted into mjai events.
#[derive(Debug, Clone)]
pub enum ConvertError {
    InvalidNaki(String),
    InvalidTile(String),
    InvalidSanmaTile(Tile),
    SanmaChi,
    NoValidSanmaOrder { kyoku: u8, honba: u8 },
    AmbiguousSanmaOrder { kyoku: u8, honba: u8 },
    InsufficientDoraIndicators { kyoku: u8, honba: u8 },
    UnconsumedDoraIndicators { kyoku: u8, honba: u8, unconsumed: usize },
    InsufficientTakes { kyoku: u8, honba: u8, actor: u8 },
    InsufficientDiscards { kyoku: u8, honba: u8, actor: u8 },
    UnexpectedTsumogiri,
    UnexpectedNaki {
        action: Event,
        last_discard: Tile,
        last_actor: Option<u8>,
        kyoku: u8,
        honba: u8,
        actor: u8,
    },
}

/// The mathematical value of a [`ConvertError`].
pub enum ConvertErrorV {
    InvalidNaki(Seq<char>),
    InvalidTile(Seq<char>),
    InvalidSanmaTile(Tile),
    SanmaChi,
    NoValidSanmaOrder { kyoku: u8, honba: u8 },
    AmbiguousSanmaOrder { kyoku: u8, honba: u8 },
    InsufficientDoraIndicators { kyoku: u8, honba: u8 },
    UnconsumedDoraIndicators { kyoku: u8, honba: u8, unconsumed: usize },
    InsufficientTakes { kyoku: u8, honba: u8, actor: u8 },
    InsufficientDiscards { kyoku: u8, honba: u8, actor: u8 },
    UnexpectedTsumogiri,
    UnexpectedNaki {
        action: EventV,
        last_discard: Tile,
        last_actor: Option<u8>,
        kyoku: u8,
        honba: u8,
        actor: u8,
    },
}

impl View for ConvertError {
    type V = ConvertErrorV;

    open spec fn view(&self) -> ConvertErrorV {
        match self {
            ConvertError::InvalidNaki(s) => ConvertErrorV::InvalidNaki(s@),
            ConvertError::InvalidTile(s) => ConvertErrorV::InvalidTile(s@),
            ConvertError::InvalidSanmaTile(t) => ConvertErrorV::InvalidSanmaTile(*t),
            ConvertError::SanmaChi => ConvertErrorV::SanmaChi,
            ConvertError::NoValidSanmaOrder { kyoku, honba } => ConvertErrorV::NoValidSanmaOrder {
                kyoku: *kyoku,
                honba: *honba,
            },
            ConvertError::AmbiguousSanmaOrder { kyoku, honba } =>
                ConvertErrorV::AmbiguousSanmaOrder { kyoku: *kyoku, honba: *honba },
            ConvertError::InsufficientDoraIndicators { kyoku, honba } =>
                ConvertErrorV::InsufficientDoraIndicators { kyoku: *kyoku, honba: *honba },
            ConvertError::UnconsumedDoraIndicators { kyoku, honba, unconsumed } =>
                ConvertErrorV::UnconsumedDoraIndicators {
                kyoku: *kyoku,
                honba: *honba,
                unconsumed: *unconsumed,
            },
            ConvertError::InsufficientTakes { kyoku, honba, actor } =>
                ConvertErrorV::InsufficientTakes { kyoku: *kyoku, honba: *honba, actor: *actor },
            ConvertError::InsufficientDiscards { kyoku, honba, actor } =>
                ConvertErrorV::InsufficientDiscards {
                kyoku: *kyoku,
                honba: *honba,
                actor: *actor,
            },
            ConvertError::UnexpectedTsumogiri => ConvertErrorV::UnexpectedTsumogiri,
            ConvertError::UnexpectedNaki {
                action,
                last_discard,
                last_actor,
                kyoku,
                honba,
                actor,
            } => ConvertErrorV::UnexpectedNaki {
                action: action@,
                last_discard: *last_discard,
                last_actor: *last_actor,
                kyoku: *kyoku,
                honba: *honba,
                actor: *actor,
            },
        }
    }
}

} // verus!
