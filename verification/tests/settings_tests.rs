use mandelbrot::settings::{
    ConfigError, RenderSettings, DEFAULT_CENTER, DEFAULT_HEIGHT, DEFAULT_MAX_ITER,
    DEFAULT_OUTPUT, DEFAULT_PRECISION, DEFAULT_SCALE, DEFAULT_WIDTH,
};

#[test]
fn settings_keep_positive_integers() {
    let s = RenderSettings::new(4, 3, 53, 10).unwrap();
    assert_eq!(s, RenderSettings { width: 4, height: 3, precision: 53, max_iter: 10 });
}

#[test]
fn settings_accept_smallest_values() {
    let s = RenderSettings::new(1, 1, 1, 1).unwrap();
    assert_eq!(s, RenderSettings { width: 1, height: 1, precision: 1, max_iter: 1 });
}

#[test]
fn settings_accept_largest_values() {
    let s = RenderSettings::new(u32::MAX, u32::MAX, u32::MAX, usize::MAX).unwrap();
    assert_eq!(s.width, u32::MAX);
    assert_eq!(s.height, u32::MAX);
    assert_eq!(s.precision, u32::MAX);
    assert_eq!(s.max_iter, usize::MAX);
}

#[test]
fn settings_reject_zero_width() {
    assert_eq!(RenderSettings::new(0, 3, 53, 10), Err(ConfigError::ZeroWidth));
}

#[test]
fn settings_reject_zero_height() {
    assert_eq!(RenderSettings::new(4, 0, 53, 10), Err(ConfigError::ZeroHeight));
}

#[test]
fn settings_reject_zero_precision() {
    assert_eq!(RenderSettings::new(4, 3, 0, 10), Err(ConfigError::ZeroPrecision));
}

#[test]
fn settings_reject_zero_max_iter() {
    assert_eq!(RenderSettings::new(4, 3, 53, 0), Err(ConfigError::ZeroMaxIter));
}

#[test]
fn settings_report_first_zero_in_order() {
    assert_eq!(RenderSettings::new(0, 0, 0, 0), Err(ConfigError::ZeroWidth));
    assert_eq!(RenderSettings::new(1, 0, 0, 0), Err(ConfigError::ZeroHeight));
    assert_eq!(RenderSettings::new(1, 1, 0, 0), Err(ConfigError::ZeroPrecision));
    assert_eq!(RenderSettings::new(1, 1, 1, 0), Err(ConfigError::ZeroMaxIter));
}

#[test]
fn settings_default_values() {
    let s = RenderSettings::default();
    assert_eq!(s.width, 1000);
    assert_eq!(s.height, 1000);
    assert_eq!(s.precision, 53);
    assert_eq!(s.max_iter, 100);
    assert_eq!(
        s,
        RenderSettings {
            width: DEFAULT_WIDTH,
            height: DEFAULT_HEIGHT,
            precision: DEFAULT_PRECISION,
            max_iter: DEFAULT_MAX_ITER
        }
    );
}

#[test]
fn settings_default_passes_validation() {
    let s = RenderSettings::default();
    assert_eq!(RenderSettings::new(s.width, s.height, s.precision, s.max_iter), Ok(s));
}

#[test]
fn error_messages_name_the_field() {
    assert_eq!(ConfigError::ZeroWidth.message(), "Width must be a positive integer");
    assert_eq!(ConfigError::ZeroHeight.message(), "Height must be a positive integer");
    assert_eq!(
        ConfigError::ZeroPrecision.message(),
        "Precision must be a positive number of bits"
    );
    assert_eq!(ConfigError::ZeroMaxIter.message(), "Max iterations must be a positive integer");
    assert_eq!(ConfigError::InvalidCenter.message(), "Center was not a valid complex number");
    assert_eq!(ConfigError::InvalidScale.message(), "Scale was not a valid real number");
}

#[test]
fn default_literals() {
    assert_eq!(DEFAULT_CENTER, "(-0.235125, 0.827215)");
    assert_eq!(DEFAULT_SCALE, "4.0e-5");
    assert_eq!(DEFAULT_OUTPUT, "mandelbrot.png");
}
