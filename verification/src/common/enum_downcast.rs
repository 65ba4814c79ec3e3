//! Typed access to the variants of an enum: each payload type says how it is
//! found inside the enum and how it is put back.
use vstd::prelude::*;

verus! {

/// A payload type `Self` of one variant of the enum `E`.
pub trait EnumDowncast<E>: Sized {
    /// The payload of `from`, if `from` is the variant that holds `Self`.
    spec fn downcast_spec(from: E) -> Option<Self>;

    /// The variant that holds `item`.
    spec fn upcast_spec(item: Self) -> E;

    /// Finding a payload that was put in gives it back.
    proof fn lemma_downcast_upcast(item: Self)
        ensures
            Self::downcast_spec(Self::upcast_spec(item)) == Some(item),
    ;

    /// A payload found in `from` puts back into `from` itself.
    proof fn lemma_upcast_downcast(from: E)
        ensures
            Self::downcast_spec(from) matches Some(item) ==> Self::upcast_spec(item) == from,
    ;

    /// The payload of `from`, by value.
    fn enum_downcast(from: E) -> (item: Option<Self>)
        ensures
            item == Self::downcast_spec(from),
    ;

    /// The payload of `from`, by reference.
    fn enum_downcast_ref(from: &E) -> (item: Option<&Self>)
        ensures
            match item {
                Some(x) => Self::downcast_spec(*from) == Some(*x),
                None => Self::downcast_spec(*from) is None,
            },
    ;

    /// The payload of `from`, by mutable reference: what is written through
    /// it ends up in `from`.
    fn enum_downcast_mut(from: &mut E) -> (item: Option<&mut Self>)
        ensures
            match item {
                Some(x) => {
                    &&& Self::downcast_spec(*old(from)) == Some(*x)
                    &&& *final(from) == Self::upcast_spec(*final(x))
                },
                None => {
                    &&& Self::downcast_spec(*old(from)) is None
                    &&& *final(from) == *old(from)
                },
            },
    ;
}

/// An enum whose payloads are reached through [`EnumDowncast`].
pub trait EnumDispatcher: Sized {
    /// The payload of type `T`, by value.
    fn downcast<T: EnumDowncast<Self>>(self) -> (item: Option<T>)
        ensures
            item == T::downcast_spec(self),
    {
        T::enum_downcast(self)
    }

    /// The payload of type `T`, by reference.
    fn downcast_ref<T: EnumDowncast<Self>>(&self) -> (item: Option<&T>)
        ensures
            match item {
                Some(x) => T::downcast_spec(*self) == Some(*x),
                None => T::downcast_spec(*self) is None,
            },
    {
        T::enum_downcast_ref(self)
    }

    /// The payload of type `T`, by mutable reference.
    fn downcast_mut<T: EnumDowncast<Self>>(&mut self) -> (item: Option<&mut T>)
        ensures
            match item {
                Some(x) => {
                    &&& T::downcast_spec(*old(self)) == Some(*x)
                    &&& *final(self) == T::upcast_spec(*final(x))
                },
                None => {
                    &&& T::downcast_spec(*old(self)) is None
                    &&& *final(self) == *old(self)
                },
            },
    {
        T::enum_downcast_mut(self)
    }
}

} // verus!
