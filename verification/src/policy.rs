//! Focus-identity decoding and the stateful layer-switching policy.

use vstd::prelude::*;

use crate::config::ClassRules;
use crate::layers::Layer;

verus! {

/// What one focus-change notification resolved to.
#[derive(Debug, Clone, PartialEq, Eq)]
pub enum Identity {
    /// The focused window's class name.
    ClassName(String),
    /// No class name, but the vendor's game marker is set on the window.
    VendorMarker,
    /// Neither signal could be resolved; the notification carries nothing.
    Unresolvable,
}

/// What the policy asks the keyboard to do after a notification.
#[derive(Debug, Clone, Copy, PartialEq, Eq, Structural)]
pub enum Command {
    /// Switch the keyboard to this layer.
    SetLayer(Layer),
    /// Leave the keyboard alone.
    NoOp,
}

/// The identity one notification resolves to, by strict precedence: a class
/// name wins outright; the vendor marker counts only when no class name came
/// through, a marker layer is configured, and the marker is set; anything
/// else is unresolvable. A failed or undecodable class-name lookup and a
/// failed marker lookup are both handed in as `None` or `false`: lookup
/// races are expected and fall through, they are never an error.
pub open spec fn spec_decode(class: Option<String>, vendor_configured: bool, marker: bool) -> Identity {
    match class {
        Some(c) => Identity::ClassName(c),
        None => if vendor_configured && marker {
            Identity::VendorMarker
        } else {
            Identity::Unresolvable
        },
    }
}

/// Resolves one focus-change notification to an [`Identity`].
///
/// `class` is the focused window's class name, if its lookup succeeded and
/// decoded as text; `vendor_configured` says whether a vendor-marker layer
/// is configured at all; `marker` is the marker lookup's outcome (`false`
/// when it failed or was never made).
pub fn decode(class: Option<String>, vendor_configured: bool, marker: bool) -> (r: Identity)
    ensures
        r == spec_decode(class, vendor_configured, marker),
{
    match class {
        Some(c) => Identity::ClassName(c),
        None => {
            if vendor_configured && marker {
                Identity::VendorMarker
            } else {
                Identity::Unresolvable
            }
        },
    }
}

/// The policy's transition function: from the sticky-custom flag and one
/// identity to the next flag and the command to issue.
///
/// A matched class name or a configured vendor marker switches to the mapped
/// layer and marks the switch custom. An unmatched class name (or a vendor
/// marker with no layer configured) resets to the base layer only when the
/// previous switch was custom, and otherwise stays quiet, so a layer the
/// user chose by hand is never clobbered twice. An unresolvable identity
/// changes nothing.
pub open spec fn spec_decide(
    custom: bool,
    identity: Identity,
    table: Map<Seq<char>, Layer>,
    vendor_marker_layer: Option<Layer>,
    base_layer: Layer,
) -> (bool, Command) {
    match identity {
        Identity::ClassName(c) => {
            if table.dom().contains(c@) {
                (true, Command::SetLayer(table[c@]))
            } else if custom {
                (false, Command::SetLayer(base_layer))
            } else {
                (false, Command::NoOp)
            }
        },
        Identity::VendorMarker => {
            match vendor_marker_layer {
                Some(l) => (true, Command::SetLayer(l)),
                None => {
                    if custom {
                        (false, Command::SetLayer(base_layer))
                    } else {
                        (false, Command::NoOp)
                    }
                },
            }
        },
        Identity::Unresolvable => (custom, Command::NoOp),
    }
}

/// The stateful switching policy. Its one piece of state is the
/// sticky-custom flag: whether the last applied layer came from a rule match
/// or vendor marker rather than a fall-back to base. The flag reflects the
/// last *attempted* command; whether the hardware accepted it is the
/// caller's affair and never rolls the state back.
pub struct SwitchPolicy {
    last_switch_was_custom: bool,
    base_layer: Layer,
    vendor_marker_layer: Option<Layer>,
}

impl SwitchPolicy {
    /// Whether the last applied layer was a custom switch.
    pub closed spec fn is_custom(self) -> bool {
        self.last_switch_was_custom
    }

    /// The layer fallen back to when focus leaves ruled windows.
    pub closed spec fn spec_base(self) -> Layer {
        self.base_layer
    }

    /// The layer applied on a vendor marker, where one is configured.
    pub closed spec fn spec_vendor(self) -> Option<Layer> {
        self.vendor_marker_layer
    }

    /// A fresh policy: no custom switch outstanding.
    pub fn new(base_layer: Layer, vendor_marker_layer: Option<Layer>) -> (r: SwitchPolicy)
        ensures
            !r.is_custom(),
            r.spec_base() == base_layer,
            r.spec_vendor() == vendor_marker_layer,
    {
        SwitchPolicy { last_switch_was_custom: false, base_layer, vendor_marker_layer }
    }

    /// Decides what the keyboard should do for one resolved identity, and
    /// advances the sticky-custom flag, exactly as [`spec_decide`] says.
    pub fn decide(&mut self, identity: &Identity, table: &ClassRules) -> (cmd: Command)
        ensures
            final(self).spec_base() == old(self).spec_base(),
            final(self).spec_vendor() == old(self).spec_vendor(),
            (final(self).is_custom(), cmd) == spec_decide(
                old(self).is_custom(),
                *identity,
                table@,
                old(self).spec_vendor(),
                old(self).spec_base(),
            ),
    {
        match identity {
            Identity::ClassName(c) => {
                match table.layer(c.as_str()) {
                    Some(l) => {
                        self.last_switch_was_custom = true;
                        Command::SetLayer(l)
                    },
                    None => {
                        if self.last_switch_was_custom {
                            self.last_switch_was_custom = false;
                            Command::SetLayer(self.base_layer)
                        } else {
                            Command::NoOp
                        }
                    },
                }
            },
            Identity::VendorMarker => {
                match self.vendor_marker_layer {
                    Some(l) => {
                        self.last_switch_was_custom = true;
                        Command::SetLayer(l)
                    },
                    None => {
                        if self.last_switch_was_custom {
                            self.last_switch_was_custom = false;
                            Command::SetLayer(self.base_layer)
                        } else {
                            Command::NoOp
                        }
                    },
                }
            },
            Identity::Unresolvable => Command::NoOp,
        }
    }
}

/// An unresolvable identity never changes the state and never issues a
/// command — so a run of them, of any length, leaves the policy exactly
/// where it stood.
pub proof fn lemma_unresolvable_noop(
    custom: bool,
    table: Map<Seq<char>, Layer>,
    vendor_marker_layer: Option<Layer>,
    base_layer: Layer,
)
    ensures
        spec_decide(custom, Identity::Unresolvable, table, vendor_marker_layer, base_layer) == (
            custom,
            Command::NoOp,
        ),
{
}

/// Sticky-custom: after a matched class name, the first unmatched class name
/// resets to the base layer, and a second unmatched one is left alone — the
/// reset fires exactly once.
pub proof fn lemma_sticky_custom(
    custom: bool,
    matched: String,
    unmatched1: String,
    unmatched2: String,
    table: Map<Seq<char>, Layer>,
    vendor_marker_layer: Option<Layer>,
    base_layer: Layer,
)
    requires
        table.dom().contains(matched@),
        !table.dom().contains(unmatched1@),
        !table.dom().contains(unmatched2@),
    ensures
        ({
            let (s1, cmd1) = spec_decide(
                custom,
                Identity::ClassName(matched),
                table,
                vendor_marker_layer,
                base_layer,
            );
            let (s2, cmd2) = spec_decide(
                s1,
                Identity::ClassName(unmatched1),
                table,
                vendor_marker_layer,
                base_layer,
            );
            let (s3, cmd3) = spec_decide(
                s2,
                Identity::ClassName(unmatched2),
                table,
                vendor_marker_layer,
                base_layer,
            );
            &&& cmd1 == Command::SetLayer(table[matched@])
            &&& cmd2 == Command::SetLayer(base_layer)
            &&& cmd3 == Command::NoOp
            &&& !s3
        }),
{
}

/// Class-name precedence: once a class name resolves, the vendor marker is
/// never consulted — the decoded identity is the class name whatever the
/// marker would have said, even if that class is unmapped.
pub proof fn lemma_class_name_precedence(
    c: String,
    vendor_configured: bool,
    marker1: bool,
    marker2: bool,
)
    ensures
        spec_decode(Some(c), vendor_configured, marker1) == Identity::ClassName(c),
        spec_decode(Some(c), vendor_configured, marker1) == spec_decode(
            Some(c),
            vendor_configured,
            marker2,
        ),
{
}

} // verus!
