use qfo::config::ClassRules;
use qfo::layers::Layer;
use qfo::policy::{decode, Command, Identity, SwitchPolicy};

fn layer(v: u8) -> Layer {
    Layer::try_from(v).unwrap()
}

fn steam_rules() -> ClassRules {
    // base 0: the third list lands on layer 3
    let lists = vec![Vec::new(), Vec::new(), vec!["Steam".to_string()]];
    ClassRules::with_raw_layers(lists, Layer::zero()).unwrap()
}

#[test]
fn decode_prefers_a_resolved_class_name_over_the_marker() {
    // the marker must never be considered once a class name resolved,
    // whatever it says and whether or not a marker layer is configured
    for vendor_configured in [false, true] {
        for marker in [false, true] {
            let id = decode(Some("Steam".to_string()), vendor_configured, marker);
            assert_eq!(id, Identity::ClassName("Steam".to_string()));
        }
    }
}

#[test]
fn decode_uses_the_marker_only_when_configured() {
    assert_eq!(decode(None, true, true), Identity::VendorMarker);
    assert_eq!(decode(None, true, false), Identity::Unresolvable);
    assert_eq!(decode(None, false, true), Identity::Unresolvable);
    assert_eq!(decode(None, false, false), Identity::Unresolvable);
}

#[test]
fn unresolvable_is_idempotent_and_silent() {
    let rules = steam_rules();
    let mut policy = SwitchPolicy::new(Layer::zero(), Some(layer(5)));
    for _ in 0..3 {
        assert_eq!(policy.decide(&Identity::Unresolvable, &rules), Command::NoOp);
    }
    // the state stayed Default: an unmatched class name stays quiet
    let unmatched = Identity::ClassName("Firefox".to_string());
    assert_eq!(policy.decide(&unmatched, &rules), Command::NoOp);

    // and in Custom state, unresolvable identities keep the flag alive
    let matched = Identity::ClassName("Steam".to_string());
    assert_eq!(policy.decide(&matched, &rules), Command::SetLayer(layer(3)));
    for _ in 0..3 {
        assert_eq!(policy.decide(&Identity::Unresolvable, &rules), Command::NoOp);
    }
    assert_eq!(policy.decide(&unmatched, &rules), Command::SetLayer(Layer::zero()));
}

#[test]
fn sticky_custom_resets_to_base_exactly_once() {
    let rules = steam_rules();
    let mut policy = SwitchPolicy::new(Layer::zero(), None);
    let matched = Identity::ClassName("Steam".to_string());
    let unmatched = Identity::ClassName("Firefox".to_string());
    assert_eq!(policy.decide(&matched, &rules), Command::SetLayer(layer(3)));
    assert_eq!(policy.decide(&unmatched, &rules), Command::SetLayer(Layer::zero()));
    assert_eq!(policy.decide(&unmatched, &rules), Command::NoOp);
}

#[test]
fn vendor_marker_without_a_configured_layer_counts_as_no_match() {
    let rules = steam_rules();
    let mut policy = SwitchPolicy::new(Layer::zero(), None);
    assert_eq!(policy.decide(&Identity::VendorMarker, &rules), Command::NoOp);
    let matched = Identity::ClassName("Steam".to_string());
    assert_eq!(policy.decide(&matched, &rules), Command::SetLayer(layer(3)));
    assert_eq!(
        policy.decide(&Identity::VendorMarker, &rules),
        Command::SetLayer(Layer::zero())
    );
    assert_eq!(policy.decide(&Identity::VendorMarker, &rules), Command::NoOp);
}

#[test]
fn full_scenario_steam_rule_and_marker_layer() {
    // base layer 0, rule Steam -> layer 3, vendor-marker layer 5
    let rules = steam_rules();
    let mut policy = SwitchPolicy::new(Layer::zero(), Some(layer(5)));
    let commands = [
        policy.decide(&Identity::ClassName("Steam".to_string()), &rules),
        policy.decide(&Identity::ClassName("Firefox".to_string()), &rules),
        policy.decide(&Identity::VendorMarker, &rules),
        policy.decide(&Identity::ClassName("Firefox".to_string()), &rules),
    ];
    assert_eq!(
        commands,
        [
            Command::SetLayer(layer(3)),
            Command::SetLayer(layer(0)),
            Command::SetLayer(layer(5)),
            Command::SetLayer(layer(0)),
        ]
    );
}
