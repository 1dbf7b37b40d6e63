use vstd::prelude::*;

verus! {

/// Which generation of the control-group interface a record belongs to.
///
/// The two generations use different file layouts, so every record that is
/// derived from the process tables carries this tag.
#[derive(Debug, Clone, Copy, PartialEq, Eq, Structural)]
pub enum CgroupVersion {
    V1,
    V2,
}

} // verus!
