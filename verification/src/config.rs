//! The render configuration: the checked integers together with the centre
//! of the image and the two steps between neighbouring pixels.

use crate::settings::{integer_error, ConfigError, RenderSettings};
use vstd::prelude::*;

verus! {

/// Everything a render reads. It is built once and not changed afterwards.
pub struct RenderConfig<Z> {
    /// Image size, precision and iteration cap.
    pub settings: RenderSettings,
    /// The coordinate of the pixel at offset `(0, 0)`.
    pub center: Z,
    /// The distance along the real axis between two neighbouring columns.
    pub step_x: Z,
    /// The step between two neighbouring rows: `step_x` turned by a quarter turn.
    pub step_y: Z,
}

/// What reading the two literals may have given, and what was made of it.
///
/// `center` and `scale` read a literal at a precision and give `None` for a
/// malformed one; `rotate` turns the horizontal step into the vertical one.
pub open spec fn is_assembled<Z, C, S, R>(
    settings: RenderSettings,
    center: C,
    scale: S,
    rotate: R,
    r: Result<RenderConfig<Z>, ConfigError>,
) -> bool where C: FnOnce(u32) -> Option<Z>, S: FnOnce(u32) -> Option<Z>, R: FnOnce(&Z) -> Z {
    match r {
        Ok(config) => {
            &&& config.settings == settings
            &&& center.ensures((settings.precision,), Some(config.center))
            &&& scale.ensures((settings.precision,), Some(config.step_x))
            &&& rotate.ensures((&config.step_x,), config.step_y)
        },
        Err(ConfigError::InvalidCenter) => center.ensures((settings.precision,), None),
        Err(ConfigError::InvalidScale) => {
            &&& exists|c: Z| #[trigger] center.ensures((settings.precision,), Some(c))
            &&& scale.ensures((settings.precision,), None)
        },
        Err(_) => false,
    }
}

impl<Z> RenderConfig<Z> {
    /// The integers of the configuration are all positive.
    pub open spec fn wf(self) -> bool {
        self.settings.wf()
    }

    /// Joins checked settings with the outcome of reading the two literals:
    /// a missing centre is reported first, then a missing scale.
    pub fn assemble(
        settings: RenderSettings,
        center: Option<Z>,
        steps: Option<(Z, Z)>,
    ) -> (r: Result<RenderConfig<Z>, ConfigError>)
        ensures
            center is None ==> r is Err && r->Err_0 == ConfigError::InvalidCenter,
            center is Some && steps is None ==> r is Err && r->Err_0 == ConfigError::InvalidScale,
            center is Some && steps is Some ==> r is Ok && r->Ok_0 == (RenderConfig {
                settings,
                center: center->Some_0,
                step_x: steps->Some_0.0,
                step_y: steps->Some_0.1,
            }),
    {
        match center {
            None => Err(ConfigError::InvalidCenter),
            Some(center) => match steps {
                None => Err(ConfigError::InvalidScale),
                Some((step_x, step_y)) => Ok(RenderConfig { settings, center, step_x, step_y }),
            },
        }
    }

    /// Checks a whole configuration before anything is rendered.
    ///
    /// The integers are checked first, in the order width, height, precision,
    /// iteration cap. Only with a valid precision are the literals read: the
    /// centre, and the scale, whose quarter turn becomes the vertical step. A
    /// malformed centre is reported before a malformed scale.
    pub fn new<C, S, R>(
        width: u32,
        height: u32,
        precision: u32,
        max_iter: usize,
        center: C,
        scale: S,
        rotate: R,
    ) -> (r: Result<RenderConfig<Z>, ConfigError>) where
        C: FnOnce(u32) -> Option<Z>,
        S: FnOnce(u32) -> Option<Z>,
        R: FnOnce(&Z) -> Z,

        requires
            integer_error(width, height, precision, max_iter) is None ==> center.requires(
                (precision,),
            ) && scale.requires((precision,)),
            forall|z: Z| #[trigger] rotate.requires((&z,)),
        ensures
            match integer_error(width, height, precision, max_iter) {
                Some(e) => r is Err && r->Err_0 == e,
                None => is_assembled(
                    (RenderSettings { width, height, precision, max_iter }),
                    center,
                    scale,
                    rotate,
                    r,
                ),
            },
            r matches Ok(config) ==> config.wf(),
    {
        let settings = match RenderSettings::new(width, height, precision, max_iter) {
            Ok(settings) => settings,
            Err(e) => {
                return Err(e);
            },
        };
        let center_value = center(precision);
        let steps = match scale(precision) {
            Some(step_x) => {
                let step_y = rotate(&step_x);
                Some((step_x, step_y))
            },
            None => None,
        };
        Self::assemble(settings, center_value, steps)
    }
}

} // verus!
