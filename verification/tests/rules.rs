use qfo::config::{ClassRules, ConfigError};
use qfo::layers::{Layer, MAX_LAYERS};

fn layer(v: u8) -> Layer {
    Layer::try_from(v).unwrap()
}

fn raw(lists: &[&[&str]]) -> Vec<Vec<String>> {
    lists
        .iter()
        .map(|l| l.iter().map(|s| s.to_string()).collect())
        .collect()
}

#[test]
fn build_maps_each_name_to_its_list_layer() {
    let rules = ClassRules::with_raw_layers(
        raw(&[&["Steam", "Firefox"], &["Alacritty"]]),
        Layer::zero(),
    )
    .unwrap();
    assert_eq!(rules.layer("Steam"), Some(layer(1)));
    assert_eq!(rules.layer("Firefox"), Some(layer(1)));
    assert_eq!(rules.layer("Alacritty"), Some(layer(2)));
    assert_eq!(rules.layer("unlisted"), None);
    assert_eq!(rules.layer("steam"), None, "matching is case-sensitive");
}

#[test]
fn build_starts_above_the_base_layer() {
    let rules = ClassRules::with_raw_layers(raw(&[&["Steam"]]), layer(3)).unwrap();
    assert_eq!(rules.layer("Steam"), Some(layer(4)));
}

#[test]
fn duplicate_in_one_list_reports_title_layer_and_index() {
    let err = ClassRules::with_raw_layers(raw(&[&["A", "B", "A"]]), Layer::zero()).unwrap_err();
    assert_eq!(
        err,
        ConfigError::DuplicateTitle {
            title: "A".to_string(),
            layer: layer(1),
            title_index: 2,
        }
    );
}

#[test]
fn duplicate_across_lists_reports_the_second_occurrence() {
    let err =
        ClassRules::with_raw_layers(raw(&[&["A"], &["B", "A"]]), Layer::zero()).unwrap_err();
    assert_eq!(
        err,
        ConfigError::DuplicateTitle {
            title: "A".to_string(),
            layer: layer(2),
            title_index: 1,
        }
    );
}

#[test]
fn duplicate_scan_is_fail_fast_first_duplicate_wins() {
    // both A and B repeat; the first repeated occurrence in scan order is A's
    let err =
        ClassRules::with_raw_layers(raw(&[&["A", "B", "A", "B"]]), Layer::zero()).unwrap_err();
    assert_eq!(
        err,
        ConfigError::DuplicateTitle {
            title: "A".to_string(),
            layer: layer(1),
            title_index: 2,
        }
    );
}

#[test]
fn too_many_lists_fail_before_any_name_is_looked_at() {
    // capacity above base 0 is MAX_LAYERS - 1 lists minus one: 31 lists fail
    let lists: Vec<Vec<String>> = (0..MAX_LAYERS - 1).map(|_| Vec::new()).collect();
    let err = ClassRules::with_raw_layers(lists, Layer::zero()).unwrap_err();
    assert_eq!(err, ConfigError::TooManyLayers(MAX_LAYERS - 1));

    // even a duplicate-ridden input reports the capacity error first
    let mut lists: Vec<Vec<String>> = (0..MAX_LAYERS - 1).map(|_| Vec::new()).collect();
    lists[0] = vec!["A".to_string(), "A".to_string()];
    let err = ClassRules::with_raw_layers(lists, Layer::zero()).unwrap_err();
    assert_eq!(err, ConfigError::TooManyLayers(MAX_LAYERS - 1));
}

#[test]
fn capacity_shrinks_with_a_higher_base_layer() {
    // above base 30 only the one layer 31 remains, so even one list is too many
    let err = ClassRules::with_raw_layers(raw(&[&["A"]]), layer(30)).unwrap_err();
    assert_eq!(err, ConfigError::TooManyLayers(1));
    // and the empty configuration still builds
    let rules = ClassRules::with_raw_layers(raw(&[]), layer(30)).unwrap();
    assert_eq!(rules.layer("A"), None);
}

#[test]
fn largest_accepted_configuration_builds() {
    // base 0 leaves room for MAX_LAYERS - 2 lists
    let lists: Vec<Vec<String>> = (0..MAX_LAYERS - 2).map(|i| vec![format!("w{}", i)]).collect();
    let rules = ClassRules::with_raw_layers(lists, Layer::zero()).unwrap();
    assert_eq!(rules.layer("w0"), Some(layer(1)));
    assert_eq!(
        rules.layer(&format!("w{}", MAX_LAYERS - 3)),
        Some(layer(MAX_LAYERS as u8 - 2))
    );
}

#[test]
fn building_twice_gives_the_same_mapping() {
    let input = &[
        &["Steam", "Firefox"] as &[&str],
        &["Alacritty"],
        &["mpv", "vlc"],
    ];
    let r1 = ClassRules::with_raw_layers(raw(input), layer(2)).unwrap();
    let r2 = ClassRules::with_raw_layers(raw(input), layer(2)).unwrap();
    for name in ["Steam", "Firefox", "Alacritty", "mpv", "vlc", "other"] {
        assert_eq!(r1.layer(name), r2.layer(name));
    }
}
