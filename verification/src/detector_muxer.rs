use vstd::prelude::*;
use crate::decimal::{decimal, usize_to_decimal};

verus! {

/// The name of the variable that holds the signal of the primary detector.
pub const VIEWER_PRIMARY_SIGNAL_VAR: &'static str = "ViewerSignal";

/// The name of the variable that holds the alive-pixel mask of the primary detector.
pub const VIEWER_PRIMARY_MASK_VAR: &'static str = "alive_pixels";

/// The name of the variable that holds the test object transform.
pub const VIEWER_TEST_OBJECT_KEY: &'static str = "test_object_transform";

fn named_for(id: usize, primary: &str, prefix: &str) -> (r: String)
    ensures
        r@ == (if id == 0 { primary@ } else { prefix@ + decimal(id as nat) }),
{
    if id == 0 {
        String::from_str(primary)
    } else {
        let mut r = String::from_str(prefix);
        let digits = usize_to_decimal(id);
        r.append(digits.as_str());
        r
    }
}

/// The variable that holds the signal of detector `id`.
pub fn get_signal_var(id: usize) -> (r: String)
    ensures
        r@ == (if id == 0 { "ViewerSignal"@ } else { "ViewerSignalAux"@ + decimal(id as nat) }),
{
    named_for(id, "ViewerSignal", "ViewerSignalAux")
}

/// The variable that holds the alive-pixel mask of detector `id`.
pub fn get_mask_var(id: usize) -> (r: String)
    ensures
        r@ == (if id == 0 { "alive_pixels"@ } else { "alive_pixels_aux_"@ + decimal(id as nat) }),
{
    named_for(id, "alive_pixels", "alive_pixels_aux_")
}

/// The variable that holds the transform of detector `id`.
pub fn get_transform_var(id: usize) -> (r: String)
    ensures
        r@ == (if id == 0 { "detector_transform"@ } else { "detector_transform_aux_"@ + decimal(id as nat) }),
{
    named_for(id, "detector_transform", "detector_transform_aux_")
}

} // verus!
