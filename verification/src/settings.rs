//! The integer part of a render configuration, and the errors of building one.

use vstd::prelude::*;

verus! {

/// Why a configuration was rejected before any pixel was evaluated.
#[derive(Clone, Copy, Debug, PartialEq, Eq, Structural)]
pub enum ConfigError {
    /// The image width is zero.
    ZeroWidth,
    /// The image height is zero.
    ZeroHeight,
    /// The numeric precision is zero bits.
    ZeroPrecision,
    /// The iteration cap is zero.
    ZeroMaxIter,
    /// The centre is not a complex-number literal.
    InvalidCenter,
    /// The scale is not a real-number literal.
    InvalidScale,
}

impl ConfigError {
    /// The text shown to the user for this error.
    pub open spec fn spec_message(self) -> Seq<char> {
        match self {
            ConfigError::ZeroWidth => "Width must be a positive integer"@,
            ConfigError::ZeroHeight => "Height must be a positive integer"@,
            ConfigError::ZeroPrecision => "Precision must be a positive number of bits"@,
            ConfigError::ZeroMaxIter => "Max iterations must be a positive integer"@,
            ConfigError::InvalidCenter => "Center was not a valid complex number"@,
            ConfigError::InvalidScale => "Scale was not a valid real number"@,
        }
    }

    /// A description of the error for the user.
    pub fn message(&self) -> (text: String)
        ensures
            text@ == self.spec_message(),
    {
        match self {
            ConfigError::ZeroWidth => "Width must be a positive integer".to_owned(),
            ConfigError::ZeroHeight => "Height must be a positive integer".to_owned(),
            ConfigError::ZeroPrecision => "Precision must be a positive number of bits".to_owned(),
            ConfigError::ZeroMaxIter => "Max iterations must be a positive integer".to_owned(),
            ConfigError::InvalidCenter => "Center was not a valid complex number".to_owned(),
            ConfigError::InvalidScale => "Scale was not a valid real number".to_owned(),
        }
    }
}

/// Width of the image when none is given.
pub const DEFAULT_WIDTH: u32 = 1000;

/// Height of the image when none is given.
pub const DEFAULT_HEIGHT: u32 = 1000;

/// Precision in bits of every coordinate when none is given.
pub const DEFAULT_PRECISION: u32 = 53;

/// Iteration cap when none is given.
pub const DEFAULT_MAX_ITER: usize = 100;

/// The literal of the centre of the image when none is given.
pub const DEFAULT_CENTER: &'static str = "(-0.235125, 0.827215)";

/// The literal of the distance between two neighbouring pixels when none is given.
pub const DEFAULT_SCALE: &'static str = "4.0e-5";

/// The path of the image file when none is given.
pub const DEFAULT_OUTPUT: &'static str = "mandelbrot.png";

/// The size of the image, the precision of its coordinates and the iteration cap.
///
/// A value built by [`RenderSettings::new`] or [`RenderSettings::default`] is
/// well formed: none of its four numbers is zero.
#[derive(Clone, Copy, Debug, PartialEq, Eq, Structural)]
pub struct RenderSettings {
    /// Number of pixel columns.
    pub width: u32,
    /// Number of pixel rows.
    pub height: u32,
    /// Number of significant bits of every coordinate.
    pub precision: u32,
    /// The iteration count at which a point is taken to be in the set.
    pub max_iter: usize,
}

/// The error, if any, of the four integers of a configuration. Width is
/// looked at first, then height, precision and the iteration cap.
pub open spec fn integer_error(width: u32, height: u32, precision: u32, max_iter: usize) -> Option<
    ConfigError,
> {
    if width == 0 {
        Some(ConfigError::ZeroWidth)
    } else if height == 0 {
        Some(ConfigError::ZeroHeight)
    } else if precision == 0 {
        Some(ConfigError::ZeroPrecision)
    } else if max_iter == 0 {
        Some(ConfigError::ZeroMaxIter)
    } else {
        None
    }
}

impl RenderSettings {
    /// No dimension, precision or iteration cap is zero.
    pub open spec fn wf(self) -> bool {
        &&& self.width > 0
        &&& self.height > 0
        &&& self.precision > 0
        &&& self.max_iter > 0
    }

    /// Checks the four integers of a configuration and keeps them if all are positive.
    pub fn new(width: u32, height: u32, precision: u32, max_iter: usize) -> (r: Result<
        RenderSettings,
        ConfigError,
    >)
        ensures
            match integer_error(width, height, precision, max_iter) {
                Some(e) => r == Err::<RenderSettings, ConfigError>(e),
                None => r == Ok::<RenderSettings, ConfigError>(
                    (RenderSettings { width, height, precision, max_iter }),
                ),
            },
            r is Ok ==> r->Ok_0.wf(),
    {
        if width == 0 {
            Err(ConfigError::ZeroWidth)
        } else if height == 0 {
            Err(ConfigError::ZeroHeight)
        } else if precision == 0 {
            Err(ConfigError::ZeroPrecision)
        } else if max_iter == 0 {
            Err(ConfigError::ZeroMaxIter)
        } else {
            Ok(RenderSettings { width, height, precision, max_iter })
        }
    }

    /// Number of pixels of the image.
    pub open spec fn pixel_count(self) -> int {
        self.width * self.height
    }
}

impl Default for RenderSettings {
    /// A 1000 by 1000 image at 53 bits with at most 100 iterations.
    fn default() -> (r: RenderSettings)
        ensures
            r == (RenderSettings {
                width: DEFAULT_WIDTH,
                height: DEFAULT_HEIGHT,
                precision: DEFAULT_PRECISION,
                max_iter: DEFAULT_MAX_ITER,
            }),
            r.wf(),
    {
        RenderSettings {
            width: DEFAULT_WIDTH,
            height: DEFAULT_HEIGHT,
            precision: DEFAULT_PRECISION,
            max_iter: DEFAULT_MAX_ITER,
        }
    }
}

} // verus!
