//! Values drawn from outside the library: fresh identifiers and the clock.
use vstd::prelude::*;

verus! {

/// Relies on uuid's `Uuid::new_v4` and its `Display`: a random identifier in
/// text form.
#[verifier::external_body]
pub(crate) fn new_id() -> (r: String) {
    uuid::Uuid::new_v4().to_string()
}

/// Relies on chrono's `Local::now` formatted with `%H:%M:%S`: the local time
/// of day as text.
#[verifier::external_body]
pub(crate) fn clock_text() -> (r: String) {
    chrono::Local::now().format("%H:%M:%S").to_string()
}

} // verus!
