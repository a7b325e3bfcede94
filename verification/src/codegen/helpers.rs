use vstd::prelude::*;

verus! {

/// A conversion between generated values or types that may fail, with a message.
pub trait TryIntoOverride<T>: Sized {
    fn try_into_override(self) -> Result<T, String>;
}

} // verus!
