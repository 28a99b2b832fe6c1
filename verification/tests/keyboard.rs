use qfo::keyboard::{code_to_result, set_layer_report, KeyboardError};
use qfo::layers::Layer;

#[test]
fn the_report_is_a_zero_id_and_the_ordinal() {
    let layer = Layer::try_from(3).unwrap();
    assert_eq!(set_layer_report(layer), vec![0u8, 3u8]);
    assert_eq!(set_layer_report(Layer::zero()), vec![0u8, 0u8]);
}

#[test]
fn acknowledgement_codes_decode_to_success_or_rejection() {
    assert_eq!(code_to_result(0), Ok(()));
    assert_eq!(code_to_result(1), Err(KeyboardError::InvalidLayer(1)));
}
