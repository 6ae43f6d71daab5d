//! Custom content: components whose text is produced by application code.
use vstd::prelude::*;

use crate::component::RawTextComponent;
use crate::resolving::TextResolutor;

verus! {

/// The identity and payload of a piece of custom content.
#[derive(Debug)]
pub struct CustomData {
    pub id: String,
    pub payload: Payload,
}

impl Clone for CustomData {
    fn clone(&self) -> (r: Self)
        ensures
            r == *self,
    {
        CustomData { id: self.id.clone(), payload: self.payload }
    }
}

/// Extra data carried by custom content.
#[derive(Debug, Clone, Copy, PartialEq, Eq, Structural, Default)]
pub enum Payload {
    #[default]
    Empty,
}

impl Payload {
    /// Whether the payload carries no data.
    pub fn is_empty(&self) -> (r: bool)
        ensures
            r == (*self == Payload::Empty),
    {
        *self == Payload::Empty
    }
}

/// Application content that can describe itself as [`CustomData`].
pub trait CustomContentExt {
    /// The data that `as_data` returns. A verified implementation defines it; the
    /// default names no particular value.
    open spec fn data(&self) -> CustomData {
        arbitrary()
    }

    /// Describes this content as custom data.
    fn as_data(&self) -> (r: CustomData)
        ensures
            r == self.data(),
    ;
}

/// Application content that can produce its own component, given a resolutor,
/// a context value and the payload it was stored with.
pub trait CustomContent<Ctx>: CustomContentExt {
    fn resolve<R: TextResolutor + ?Sized>(&self, resolutor: &R, context: Ctx, payload: Payload) -> RawTextComponent;
}

} // verus!
