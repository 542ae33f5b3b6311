use std::any::TypeId;
use vstd::prelude::*;

verus! {

#[verifier::external_type_specification]
#[verifier::external_body]
pub struct ExTypeId(TypeId);

/// Relies on `TypeId::of`: the identifier of the type `T` in this program.
pub assume_specification<T: ?Sized + 'static>[ TypeId::of::<T> ]() -> TypeId;

/// Relies on `<TypeId as PartialEq>::eq`: two identifiers compare equal exactly
/// when they are the same identifier.
pub assume_specification[ <TypeId as PartialEq>::eq ](a: &TypeId, b: &TypeId) -> (r: bool)
    ensures
        r == (*a == *b),
;

/// The identity of a binding: the capability's type, and an optional name that
/// opens a separate slot for the same type.
pub struct BindingKey {
    type_id: TypeId,
    name: Option<String>,
}

/// What identifies a slot: the type identifier and the name's characters.
pub type KeyView = (TypeId, Option<Seq<char>>);

pub open spec fn name_view(name: Option<String>) -> Option<Seq<char>> {
    match name {
        Some(s) => Some(s@),
        None => None,
    }
}

impl BindingKey {
    pub closed spec fn view(&self) -> KeyView {
        (self.type_id, name_view(self.name))
    }

    /// The key of the type with identifier `type_id`, under `name` if given.
    pub fn new(type_id: TypeId, name: Option<String>) -> (r: BindingKey)
        ensures
            r@ == (type_id, name_view(name)),
    {
        BindingKey { type_id, name }
    }

    /// The unnamed key of the capability type `T`.
    pub fn of<T: ?Sized + 'static>() -> (r: BindingKey)
        ensures
            r@.1 is None,
    {
        BindingKey { type_id: TypeId::of::<T>(), name: None }
    }

    /// The key of the capability type `T` under `name`.
    pub fn named<T: ?Sized + 'static>(name: String) -> (r: BindingKey)
        ensures
            r@.1 == Some(name@),
    {
        BindingKey { type_id: TypeId::of::<T>(), name: Some(name) }
    }

    /// Whether two keys name the same slot.
    pub fn same(&self, other: &BindingKey) -> (r: bool)
        ensures
            r == (self@ == other@),
    {
        if self.type_id != other.type_id {
            return false;
        }
        match (&self.name, &other.name) {
            (None, None) => true,
            (Some(a), Some(b)) => *a == *b,
            _ => false,
        }
    }
}

} // verus!
