use mandelbrot::config::RenderConfig;
use mandelbrot::settings::{ConfigError, RenderSettings};

fn quarter_turn(z: &(i64, i64)) -> (i64, i64) {
    (-z.1, z.0)
}

#[test]
fn config_new_keeps_what_was_read() {
    let config =
        RenderConfig::new(4, 3, 53, 10, |_| Some((7, 9)), |_| Some((2, 0)), quarter_turn).unwrap();
    assert_eq!(
        config.settings,
        RenderSettings { width: 4, height: 3, precision: 53, max_iter: 10 }
    );
    assert_eq!(config.center, (7, 9));
    assert_eq!(config.step_x, (2, 0));
    assert_eq!(config.step_y, (0, 2));
}

#[test]
fn config_new_hands_precision_to_the_readers() {
    let config = RenderConfig::new(
        1,
        1,
        113,
        1,
        |p| Some((p as i64, 0)),
        |p| Some((2 * p as i64, 0)),
        quarter_turn,
    )
    .unwrap();
    assert_eq!(config.center, (113, 0));
    assert_eq!(config.step_x, (226, 0));
    assert_eq!(config.step_y, (0, 226));
}

#[test]
fn config_new_rejects_malformed_center() {
    let r = RenderConfig::new(4, 3, 53, 10, |_| None, |_| Some((2, 0)), quarter_turn);
    assert_eq!(r.err(), Some(ConfigError::InvalidCenter));
}

#[test]
fn config_new_rejects_malformed_scale() {
    let r = RenderConfig::new(4, 3, 53, 10, |_| Some((7, 9)), |_| None, quarter_turn);
    assert_eq!(r.err(), Some(ConfigError::InvalidScale));
}

#[test]
fn config_new_reports_center_before_scale() {
    let r: Result<RenderConfig<(i64, i64)>, ConfigError> =
        RenderConfig::new(4, 3, 53, 10, |_| None, |_| None, quarter_turn);
    assert_eq!(r.err(), Some(ConfigError::InvalidCenter));
}

#[test]
fn config_new_reports_integers_before_literals() {
    let read = |_: u32| -> Option<(i64, i64)> { None };
    assert_eq!(
        RenderConfig::new(0, 3, 53, 10, read, read, quarter_turn).err(),
        Some(ConfigError::ZeroWidth)
    );
    assert_eq!(
        RenderConfig::new(4, 0, 53, 10, read, read, quarter_turn).err(),
        Some(ConfigError::ZeroHeight)
    );
    assert_eq!(
        RenderConfig::new(4, 3, 0, 10, read, read, quarter_turn).err(),
        Some(ConfigError::ZeroPrecision)
    );
    assert_eq!(
        RenderConfig::new(4, 3, 53, 0, read, read, quarter_turn).err(),
        Some(ConfigError::ZeroMaxIter)
    );
}

#[test]
fn config_new_reads_nothing_at_zero_precision() {
    let read = |p: u32| -> Option<(i64, i64)> {
        assert!(p > 0);
        Some((0, 0))
    };
    let r = RenderConfig::new(4, 3, 0, 10, read, read, quarter_turn);
    assert_eq!(r.err(), Some(ConfigError::ZeroPrecision));
}

#[test]
fn config_assemble_joins_the_parts() {
    let settings = RenderSettings::new(2, 2, 53, 5).unwrap();
    let config = RenderConfig::assemble(settings, Some(1u8), Some((2u8, 3u8))).unwrap();
    assert_eq!(config.settings, settings);
    assert_eq!(config.center, 1);
    assert_eq!(config.step_x, 2);
    assert_eq!(config.step_y, 3);
}

#[test]
fn config_assemble_reports_missing_parts() {
    let settings = RenderSettings::new(2, 2, 53, 5).unwrap();
    assert_eq!(
        RenderConfig::<u8>::assemble(settings, None, Some((2, 3))).err(),
        Some(ConfigError::InvalidCenter)
    );
    assert_eq!(
        RenderConfig::<u8>::assemble(settings, Some(1), None).err(),
        Some(ConfigError::InvalidScale)
    );
    assert_eq!(
        RenderConfig::<u8>::assemble(settings, None, None).err(),
        Some(ConfigError::InvalidCenter)
    );
}
