//! Bounded keyboard layer ordinals.

use vstd::prelude::*;

verus! {

/// The number of layer slots the keyboard firmware can address.
pub const MAX_LAYERS: usize = 32;

/// One addressable keyboard key-mapping mode, identified by its ordinal.
///
/// A `Layer` is immutable once constructed; `try_from` is the validated
/// constructor, so every layer in circulation addresses a firmware slot.
#[derive(Clone, Copy, Debug, PartialEq, Eq, Structural, PartialOrd, Ord)]
pub struct Layer {
    ordinal: u8,
}

/// Error for an ordinal outside `0 .. MAX_LAYERS`; carries the rejected value.
#[derive(Clone, Copy, Debug, PartialEq, Eq, Structural)]
pub struct LayerParseError(u8);

impl LayerParseError {
    /// The ordinal that was rejected.
    pub closed spec fn spec_value(self) -> u8 {
        self.0
    }

    pub fn value(self) -> (r: u8)
        ensures
            r == self.spec_value(),
    {
        self.0
    }
}

impl Layer {
    /// The ordinal selecting this layer among the firmware's slots.
    pub closed spec fn spec_ordinal(self) -> int {
        self.ordinal as int
    }

    /// Every layer addresses one of the firmware's `MAX_LAYERS` slots.
    pub open spec fn wf(self) -> bool {
        0 <= self.spec_ordinal() < MAX_LAYERS as int
    }

    /// Validated constructor: accepts exactly the ordinals the firmware has.
    pub fn try_from(value: u8) -> (r: Result<Layer, LayerParseError>)
        ensures
            r is Ok <==> (value as int) < MAX_LAYERS as int,
            r matches Ok(layer) ==> layer.wf() && layer.spec_ordinal() == value as int,
            r matches Err(e) ==> e.spec_value() == value,
    {
        if (value as usize) < MAX_LAYERS {
            Ok(Layer { ordinal: value })
        } else {
            Err(LayerParseError(value))
        }
    }

    /// The lowest layer, the default base when configuration names none.
    pub fn zero() -> (r: Layer)
        ensures
            r.wf(),
            r.spec_ordinal() == 0,
    {
        Layer { ordinal: 0 }
    }

    pub fn ordinal(self) -> (r: u8)
        ensures
            r as int == self.spec_ordinal(),
    {
        self.ordinal
    }

    /// All layers, in ascending ordinal order.
    pub fn iter() -> (r: Vec<Layer>)
        ensures
            r@.len() == MAX_LAYERS as int,
            forall|i: int| 0 <= i < r@.len() ==> (#[trigger] r@[i]).spec_ordinal() == i,
    {
        let mut v: Vec<Layer> = Vec::new();
        let mut i: usize = 0;
        while i < MAX_LAYERS
            invariant
                i <= MAX_LAYERS,
                v@.len() == i as int,
                forall|k: int| 0 <= k < i as int ==> (#[trigger] v@[k]).spec_ordinal() == k,
            decreases MAX_LAYERS - i,
        {
            v.push(Layer { ordinal: i as u8 });
            i = i + 1;
        }
        v
    }
}

/// A layer is nothing but its ordinal: equal ordinals mean equal layers.
pub proof fn lemma_layer_determined_by_ordinal(l1: Layer, l2: Layer)
    requires
        l1.spec_ordinal() == l2.spec_ordinal(),
    ensures
        l1 == l2,
{
}

} // verus!
