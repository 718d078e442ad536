//! The constants of the tile service.

use vstd::prelude::*;

verus! {

/// The number of pixels along one edge of a tile.
pub const PIXELS_PER_TILE_ARRIS: u16 = 256;

/// The pattern of a tile's URL.
pub const URL_PATTERN: &'static str = "https://cyberjapandata.gsi.go.jp/xyz/{id}/{z}/{x}/{y}{ext}";

/// The placeholder of the tile's column.
pub const URL_PATTERN_X: &'static str = "{x}";

/// The placeholder of the tile's row.
pub const URL_PATTERN_Y: &'static str = "{y}";

/// The placeholder of the zoom level.
pub const URL_PATTERN_Z: &'static str = "{z}";

/// The placeholder of the layer's id.
pub const URL_PATTERN_ID: &'static str = "{id}";

/// The placeholder of the extension.
pub const URL_PATTERN_EXT: &'static str = "{ext}";

/// The id of the elevation tiles that are encoded as images.
pub const ID_DEM_PNG: &'static str = "dem_png";

/// The id of the elevation tiles that are encoded as text.
pub const ID_DEM_TXT: &'static str = "dem";

pub const ID_DEM5A_PNG: &'static str = "dem5a_png";

pub const ID_DEM5B_PNG: &'static str = "dem5b_png";

pub const ID_DEM5C_PNG: &'static str = "dem5c_png";

/// The extension of elevation tiles encoded as text.
pub const EXT_DEM_TXT: &'static str = ".txt";

/// The extension of elevation tiles encoded as images.
pub const EXT_DEM_PNG: &'static str = ".png";

pub const ID_COCOTILE: &'static str = "cocotile";

pub const EXT_COCOTILE: &'static str = ".csv";

} // verus!
