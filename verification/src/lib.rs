pub mod consts;
pub mod conv;
pub mod error;
pub mod event;
pub mod kyoku_end;
pub mod naki;
pub mod rankings;
pub mod sanma;
pub mod sanma_laws;
pub mod sanma_order;
pub mod sanma_reach;
pub mod tenhou;
pub mod text;
pub mod tile;
pub mod tile_map;
pub mod validate;
pub mod yonma;
pub mod yonma_calls;
pub mod yonma_dora;
pub mod yonma_laws;

pub use conv::tenhou_to_mjai;
pub use error::ConvertError;
pub use event::Event;
pub use naki::tiles_from_tenhou_bytes;
pub use tile::Tile;
