pub mod atlas;
pub mod builder;
pub mod codec;
pub mod fontname;
pub mod ranges;
pub mod transform;

pub use atlas::{AtlasModel, CInfo, FontAtlas, Rect};
pub use builder::{build, texture_bytes};
pub use codec::{decode, encode, DecodeError};
pub use fontname::font_base_name;
pub use ranges::select_ranges;
pub use transform::build_atlas;
