use vstd::prelude::*;
use crate::model::Model;

verus! {

/// A source of models: whatever supplies the items to show.
pub trait ModelUpdater {
    /// The model as it stands now.
    fn get_model<'a>(&'a self) -> Model;
}

} // verus!
