//! Run configuration: directories, mosaic parameters and the regions to
//! redact, with the rules a configuration must meet and the arithmetic that
//! places a region on a concrete image.

use std::path::PathBuf;
use vstd::prelude::*;

verus! {

/// `std::path::PathBuf`, carried through the library as an opaque value.
#[verifier::external_type_specification]
#[verifier::external_body]
pub struct ExPathBuf(std::path::PathBuf);

pub struct Config {
    pub paths: PathConfig,
    pub mosaic: MosaicConfig,
    pub regions: Vec<Region>,
}

pub struct PathConfig {
    pub input_dir: PathBuf,
    pub output_dir: PathBuf,
    /// Lower-case file extensions, without the dot.
    pub supported_formats: Vec<String>,
}

pub struct MosaicConfig {
    pub block_size: u32,
    pub blur_strength: u32,
}

/// A named rectangle. Non-negative `x` / `y` count from the top-left corner
/// of the image, negative ones from its bottom-right corner.
pub struct Region {
    pub name: String,
    pub x: i32,
    pub y: i32,
    pub width: u32,
    pub height: u32,
}

/// Why a configuration is refused.
#[derive(Debug, Clone, Copy, PartialEq, Eq, Structural)]
pub enum ConfigError {
    InputDirMissing,
    ZeroBlockSize,
    BlurStrengthOutOfRange,
    /// The region at `index` has zero width or zero height.
    EmptyRegion { index: usize },
}

/// The first pixel of a region along one axis of length `extent`: the offset
/// itself when it is non-negative, else counted back from the far edge and
/// never below zero; in both cases no further than the last pixel.
pub open spec fn resolve_offset(offset: i32, extent: u32) -> int {
    let start: int = if offset >= 0 {
        offset as int
    } else if extent + offset > 0 {
        extent + offset
    } else {
        0
    };
    let last: int = if extent > 0 {
        extent - 1
    } else {
        0
    };
    if start < last {
        start
    } else {
        last
    }
}

/// The length that is left of `length` when it starts at `start` and may not
/// pass `extent`.
pub open spec fn resolve_span(length: u32, start: int, extent: u32) -> int {
    if length <= extent - start {
        length as int
    } else {
        extent - start
    }
}

fn resolve_axis(offset: i32, extent: u32) -> (start: u32)
    ensures
        start == resolve_offset(offset, extent),
{
    let from_edge: u32 = if offset >= 0 {
        offset as u32
    } else {
        let shifted: i64 = (extent as i64) + (offset as i64);
        if shifted > 0 {
            shifted as u32
        } else {
            0
        }
    };
    let last: u32 = extent.saturating_sub(1);
    if from_edge < last {
        from_edge
    } else {
        last
    }
}

impl MosaicConfig {
    /// A positive block size and a blur strength from 1 to 10.
    pub open spec fn well_formed(&self) -> bool {
        self.block_size > 0 && 1 <= self.blur_strength <= 10
    }
}

impl Region {
    pub open spec fn is_empty(&self) -> bool {
        self.width == 0 || self.height == 0
    }

    /// The rectangle `(x, y, width, height)` that this region covers on an
    /// image of the given size.
    pub open spec fn resolved(&self, img_width: u32, img_height: u32) -> (int, int, int, int) {
        let x: int = resolve_offset(self.x, img_width);
        let y: int = resolve_offset(self.y, img_height);
        (x, y, resolve_span(self.width, x, img_width), resolve_span(self.height, y, img_height))
    }

    /// Places the region on an image of `img_width` by `img_height` pixels and
    /// returns `(x, y, width, height)`. Nothing is refused: a region that
    /// leaves the image is cut down to what lies inside it.
    pub fn to_absolute_coords(&self, img_width: u32, img_height: u32) -> (rect: (u32, u32, u32, u32))
        ensures
            (rect.0 as int, rect.1 as int, rect.2 as int, rect.3 as int) == self.resolved(
                img_width,
                img_height,
            ),
            rect.0 + rect.2 <= img_width,
            rect.1 + rect.3 <= img_height,
    {
        let x: u32 = resolve_axis(self.x, img_width);
        let y: u32 = resolve_axis(self.y, img_height);
        let room_x: u32 = img_width - x;
        let room_y: u32 = img_height - y;
        let width: u32 = if self.width <= room_x {
            self.width
        } else {
            room_x
        };
        let height: u32 = if self.height <= room_y {
            self.height
        } else {
            room_y
        };
        (x, y, width, height)
    }
}

impl Config {
    /// Everything that `validate` asks of the configuration itself.
    pub open spec fn well_formed(&self) -> bool {
        &&& self.mosaic.well_formed()
        &&& forall|i: int| 0 <= i < self.regions@.len() ==> !(#[trigger] self.regions@[i]).is_empty()
    }

    /// Checks the configuration, in this order: the input directory exists
    /// (the caller looks and passes the answer), the block size is not zero,
    /// the blur strength lies in 1 to 10, and no region is empty. The first
    /// rule that fails gives the error; for an empty region, the first one.
    pub fn validate(&self, input_dir_exists: bool) -> (outcome: Result<(), ConfigError>)
        ensures
            outcome is Ok <==> input_dir_exists && self.well_formed(),
            !input_dir_exists ==> outcome == Err::<(), ConfigError>(ConfigError::InputDirMissing),
            input_dir_exists && self.mosaic.block_size == 0 ==> outcome == Err::<(), ConfigError>(
                ConfigError::ZeroBlockSize,
            ),
            input_dir_exists && self.mosaic.block_size != 0 && !(1 <= self.mosaic.blur_strength
                <= 10) ==> outcome == Err::<(), ConfigError>(ConfigError::BlurStrengthOutOfRange),
            input_dir_exists && self.mosaic.well_formed() && !self.well_formed() ==> (match outcome {
                Err(ConfigError::EmptyRegion { index }) => {
                    &&& index < self.regions@.len()
                    &&& self.regions@[index as int].is_empty()
                    &&& forall|j: int| 0 <= j < index ==> !(#[trigger] self.regions@[j]).is_empty()
                },
                _ => false,
            }),
    {
        if !input_dir_exists {
            return Err(ConfigError::InputDirMissing);
        }
        if self.mosaic.block_size == 0 {
            return Err(ConfigError::ZeroBlockSize);
        }
        if self.mosaic.blur_strength == 0 || self.mosaic.blur_strength > 10 {
            return Err(ConfigError::BlurStrengthOutOfRange);
        }
        let mut index: usize = 0;
        while index < self.regions.len()
            invariant
                input_dir_exists,
                self.mosaic.well_formed(),
                index <= self.regions@.len(),
                forall|j: int| 0 <= j < index ==> !(#[trigger] self.regions@[j]).is_empty(),
            decreases self.regions@.len() - index,
        {
            let region = &self.regions[index];
            if region.width == 0 || region.height == 0 {
                return Err(ConfigError::EmptyRegion { index });
            }
            index = index + 1;
        }
        Ok(())
    }
}

/// A non-negative offset is kept, but for the clamp to the last pixel of the
/// image (to zero on an image without pixels).
pub proof fn lemma_near_corner_offset(region: Region, img_width: u32, img_height: u32)
    requires
        region.x >= 0,
        region.y >= 0,
    ensures
        region.resolved(img_width, img_height).0 == (if img_width == 0 {
            0
        } else if region.x <= img_width - 1 {
            region.x as int
        } else {
            img_width - 1
        }),
        region.resolved(img_width, img_height).1 == (if img_height == 0 {
            0
        } else if region.y <= img_height - 1 {
            region.y as int
        } else {
            img_height - 1
        }),
{
}

/// An offset of `-k` with `0 < k <= img_width` starts `k` pixels before the
/// right edge.
pub proof fn lemma_far_corner_offset(region: Region, img_width: u32, img_height: u32, k: int)
    requires
        region.x == -k,
        0 < k <= img_width,
    ensures
        region.resolved(img_width, img_height).0 == img_width - k,
{
}

/// A resolved rectangle lies inside the image, whatever the region.
pub proof fn lemma_resolved_in_bounds(region: Region, img_width: u32, img_height: u32)
    ensures
        0 <= region.resolved(img_width, img_height).0,
        0 <= region.resolved(img_width, img_height).1,
        0 <= region.resolved(img_width, img_height).2,
        0 <= region.resolved(img_width, img_height).3,
        region.resolved(img_width, img_height).0 + region.resolved(img_width, img_height).2
            <= img_width,
        region.resolved(img_width, img_height).1 + region.resolved(img_width, img_height).3
            <= img_height,
{
}

} // verus!
