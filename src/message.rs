use std::any::{Any, TypeId};
use vstd::prelude::*;

use crate::entity::Entity;

verus! {

#[verifier::external_type_specification]
#[verifier::external_body]
pub struct ExTypeId(TypeId);

/// An owned message value whose concrete type is known only at run time.
///
/// Holds std's `Box<dyn Any + Send + Sync>`, which Verus cannot represent: the struct is
/// opaque to the verifier and is only handled through the functions below.
#[verifier::external_body]
pub struct ErasedMessage {
    inner: Box<dyn Any + Send + Sync>,
}

/// Relies on `Box::new` and the unsizing coercion to `Box<dyn Any + Send + Sync>`.
#[verifier::external_body]
fn erase<M: Any + Send + Sync>(message: M) -> ErasedMessage {
    ErasedMessage { inner: Box::new(message) }
}

/// Relies on `Box::<dyn Any + Send + Sync>::downcast`: `Ok` with the value exactly when the
/// boxed value has type `M`, and the box handed back unchanged otherwise.
#[verifier::external_body]
fn recover<M: Any>(erased: ErasedMessage) -> Result<M, ErasedMessage> {
    match erased.inner.downcast::<M>() {
        Ok(b) => Ok(*b),
        Err(inner) => Err(ErasedMessage { inner }),
    }
}

/// Relies on `<dyn Any>::downcast_ref`: `Some` exactly when the value has type `M`.
#[verifier::external_body]
fn recover_ref<M: Any>(erased: &ErasedMessage) -> Option<&M> {
    erased.inner.downcast_ref::<M>()
}

/// Relies on `TypeId::of`: the run-time tag of the type `M`.
#[verifier::external_body]
pub(crate) fn type_tag<M: Any>() -> TypeId {
    TypeId::of::<M>()
}

/// Relies on `TypeId`'s `==`: two tags compare equal exactly when they are the same value.
#[verifier::external_body]
pub(crate) fn same_tag(a: &TypeId, b: &TypeId) -> (r: bool)
    ensures
        r == (*a == *b),
{
    *a == *b
}

/// Error message of a recovery attempted with the wrong type.
fn wrong_type_message() -> (r: String)
    ensures
        r@ == "Wrong message type"@,
{
    let r = String::from_str("Wrong message type");
    proof {
        reveal_strlit("Wrong message type");
    }
    r
}

/// One message: a type-erased payload, the tag of its type and the entity it is sent to.
pub struct MessageBox {
    message: ErasedMessage,
    message_type: TypeId,
    target: Entity,
}

impl MessageBox {
    /// The tag of the payload's type.
    pub closed spec fn tag(&self) -> TypeId {
        self.message_type
    }

    /// The entity the message is addressed to.
    pub closed spec fn spec_target(&self) -> Entity {
        self.target
    }

    /// Downcasts the box to a concrete message. Fails with "Wrong message type"
    /// when `M` is not the type the box was created with; on failure nothing is recovered.
    pub fn downcast<M: Any>(self) -> (r: Result<M, String>)
        ensures
            r matches Err(s) ==> s@ == "Wrong message type"@,
    {
        let expected = type_tag::<M>();
        if same_tag(&self.message_type, &expected) {
            match recover::<M>(self.message) {
                Ok(m) => Ok(m),
                Err(_) => Err(wrong_type_message()),
            }
        } else {
            Err(wrong_type_message())
        }
    }

    /// Downcasts the box as a reference to a concrete message; same failure as `downcast`.
    pub fn downcast_ref<M: Any>(&self) -> (r: Result<&M, String>)
        ensures
            r matches Err(s) ==> s@ == "Wrong message type"@,
    {
        let expected = type_tag::<M>();
        if same_tag(&self.message_type, &expected) {
            match recover_ref::<M>(&self.message) {
                Some(m) => Ok(m),
                None => Err(wrong_type_message()),
            }
        } else {
            Err(wrong_type_message())
        }
    }

    /// Checks whether the box holds a message of the given type tag.
    pub fn has_tag(&self, tag: &TypeId) -> (r: bool)
        ensures
            r == (self.tag() == *tag),
    {
        same_tag(&self.message_type, tag)
    }

    /// Checks whether `M` is the type of the message.
    pub fn is_type<M: Any>(&self) -> bool {
        let expected = type_tag::<M>();
        self.has_tag(&expected)
    }

    /// Creates a new box for `message`, addressed to `target`.
    pub fn new<M: Any + Send + Sync>(message: M, target: Entity) -> (r: Self)
        ensures
            r.spec_target() == target,
    {
        let message_type = type_tag::<M>();
        MessageBox { message: erase(message), target, message_type }
    }

    /// Returns the tag of the message's type.
    pub fn message_type(&self) -> (r: TypeId)
        ensures
            r == self.tag(),
    {
        self.message_type
    }

    /// Returns the target of the message.
    pub fn target(&self) -> (r: Entity)
        ensures
            r == self.spec_target(),
    {
        self.target
    }
}

} // verus!
