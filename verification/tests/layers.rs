use qfo::layers::{Layer, MAX_LAYERS};

#[test]
fn try_from_accepts_every_firmware_ordinal() {
    for v in 0..MAX_LAYERS as u8 {
        let layer = Layer::try_from(v).unwrap();
        assert_eq!(layer.ordinal(), v);
    }
}

#[test]
fn try_from_rejects_out_of_range_ordinals() {
    let err = Layer::try_from(MAX_LAYERS as u8).unwrap_err();
    assert_eq!(err.value(), MAX_LAYERS as u8);
    let err = Layer::try_from(255).unwrap_err();
    assert_eq!(err.value(), 255);
}

#[test]
fn zero_is_the_lowest_layer() {
    assert_eq!(Layer::zero().ordinal(), 0);
    assert_eq!(Layer::zero(), Layer::try_from(0).unwrap());
}

#[test]
fn layers_order_by_ordinal() {
    assert!(Layer::try_from(1).unwrap() < Layer::try_from(2).unwrap());
    assert!(Layer::zero() < Layer::try_from(31).unwrap());
    assert!(Layer::try_from(5).unwrap() <= Layer::try_from(5).unwrap());
}

#[test]
fn iter_lists_all_layers_in_ascending_order() {
    let all = Layer::iter();
    assert_eq!(all.len(), MAX_LAYERS);
    for (i, layer) in all.iter().enumerate() {
        assert_eq!(layer.ordinal() as usize, i);
    }
}
