//! The byte-level protocol spoken to the keyboard: the layer-set report
//! sent to the device and the acknowledgement code read back.

use vstd::prelude::*;

use crate::layers::Layer;

verus! {

/// Errors the keyboard's acknowledgement can carry.
#[derive(Debug, Clone, Copy, PartialEq, Eq, Structural)]
pub enum KeyboardError {
    /// The device rejected the layer; carries the acknowledgement code.
    InvalidLayer(u8),
}

/// The report that asks the device to switch to `layer`: a zero report id
/// followed by the layer's ordinal.
pub fn set_layer_report(layer: Layer) -> (r: Vec<u8>)
    ensures
        r@.len() == 2,
        r@[0] == 0u8,
        r@[1] as int == layer.spec_ordinal(),
{
    let mut v: Vec<u8> = Vec::new();
    v.push(0);
    v.push(layer.ordinal());
    v
}

/// Reads the device's one-byte acknowledgement: zero is success, one says
/// the layer was rejected. The device defines no other codes, so none other
/// is accepted here.
pub fn code_to_result(code: u8) -> (r: Result<(), KeyboardError>)
    requires
        code == 0 || code == 1,
    ensures
        r is Ok <==> code == 0,
        r matches Err(e) ==> e == KeyboardError::InvalidLayer(code),
{
    if code == 0 {
        Ok(())
    } else {
        Err(KeyboardError::InvalidLayer(code))
    }
}

} // verus!
