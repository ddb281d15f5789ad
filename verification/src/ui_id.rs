//! The widget identifier of the user interface toolkit, as the document
//! carries it.

use vstd::prelude::*;

verus! {

/// `egui::Id`, the identifier that the toolkit gives to a widget. The
/// document stores such a value and hands it back; it never looks inside.
#[verifier::external_type_specification]
#[verifier::external_body]
pub struct ExId(egui::Id);

} // verus!
