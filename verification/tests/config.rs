use qfo::config::{Config, ConfigError};
use qfo::layers::Layer;

fn layer(v: u8) -> Layer {
    Layer::try_from(v).unwrap()
}

#[test]
fn from_raw_defaults_the_base_layer_to_zero() {
    let cfg = Config::from_raw(0x3297, 0x4974, None, None, vec![vec!["Steam".to_string()]])
        .unwrap();
    assert_eq!(cfg.vendor_id, 0x3297);
    assert_eq!(cfg.product_id, 0x4974);
    assert_eq!(cfg.base_layer, Layer::zero());
    assert_eq!(cfg.detect_steam_games_layer, None);
    assert_eq!(cfg.rules.layer("Steam"), Some(layer(1)));
}

#[test]
fn from_raw_applies_the_base_layer_override() {
    let cfg = Config::from_raw(1, 2, Some(4), Some(5), vec![vec!["Steam".to_string()]])
        .unwrap();
    assert_eq!(cfg.base_layer, layer(4));
    assert_eq!(cfg.detect_steam_games_layer, Some(layer(5)));
    assert_eq!(cfg.rules.layer("Steam"), Some(layer(5)));
}

#[test]
fn from_raw_rejects_an_out_of_range_base_layer() {
    let err = Config::from_raw(1, 2, Some(40), None, Vec::new()).unwrap_err();
    match err {
        ConfigError::Layer(e) => assert_eq!(e.value(), 40),
        other => panic!("expected a layer error, got {:?}", other),
    }
}

#[test]
fn from_raw_rejects_an_out_of_range_marker_layer() {
    let err = Config::from_raw(1, 2, Some(0), Some(32), Vec::new()).unwrap_err();
    match err {
        ConfigError::Layer(e) => assert_eq!(e.value(), 32),
        other => panic!("expected a layer error, got {:?}", other),
    }
}

#[test]
fn from_raw_passes_rule_errors_through() {
    let err = Config::from_raw(1, 2, Some(30), None, vec![vec!["A".to_string()]]).unwrap_err();
    assert_eq!(err, ConfigError::TooManyLayers(1));

    let err = Config::from_raw(
        1,
        2,
        None,
        None,
        vec![vec!["A".to_string()], vec!["A".to_string()]],
    )
    .unwrap_err();
    assert_eq!(
        err,
        ConfigError::DuplicateTitle {
            title: "A".to_string(),
            layer: layer(2),
            title_index: 0,
        }
    );
}
