//! The capabilities a pool asks of its collaborators, and the contract of a
//! pool itself.

use vstd::prelude::*;
use vstd::std_specs::cmp::PartialEqSpec;

verus! {

/// An object that can be pooled: it can be reset to a clean, reusable state.
pub trait Resource: Sized {
    /// Whether the resource is in its clean baseline state, ready for reuse.
    spec fn is_clean(&self) -> bool;

    /// Resets the resource to its clean baseline state, whatever state it was
    /// in. A resource that is clean already is left as it is, so that
    /// resetting twice is the same as resetting once.
    fn clear(&mut self)
        ensures
            final(self).is_clean(),
            old(self).is_clean() ==> *final(self) == *old(self),
    ;
}

/// A description identifies a class of interchangeable resources and knows how
/// to construct a resource of that class in a given context.
///
/// Descriptions are the keys of a pool, which compares them with `==` and keeps
/// clones of them; see [`lawful_description`].
pub trait Info<R: Resource>: PartialEq + Eq + Clone + Sized {
    /// Auxiliary input of construction that is no part of a resource's identity.
    type Context;

    /// Why construction failed.
    type Error;

    /// Constructs a resource for `info`, or reports why it could not.
    fn try_create(info: &Self, ctx: &Self::Context) -> (res: Result<R, Self::Error>)
    ;

    /// Constructs a resource for `info` where construction cannot fail.
    fn create(info: &Self, ctx: &Self::Context) -> (r: R)
        requires
            forall|res: Result<R, Self::Error>| #[trigger]
                call_ensures(Self::try_create, (info, ctx), res) ==> res is Ok,
        ensures
            call_ensures(Self::try_create, (info, ctx), Ok(r)),
    {
        match Self::try_create(info, ctx) {
            Ok(r) => r,
            Err(_) => vstd::pervasive::unreached(),
        }
    }
}

/// `r` is a resource that constructing for `info` in `ctx` may return.
pub open spec fn creates<R: Resource, I: Info<R>>(info: &I, ctx: &I::Context, r: R) -> bool {
    call_ensures(I::try_create, (info, ctx), Ok(r))
}

/// `e` is a failure that constructing for `info` in `ctx` may report.
pub open spec fn creation_fails_with<R: Resource, I: Info<R>>(
    info: &I,
    ctx: &I::Context,
    e: I::Error,
) -> bool {
    call_ensures(I::try_create, (info, ctx), Err::<R, I::Error>(e))
}

/// Constructing for `info` in `ctx` returns a resource, whatever happens.
pub open spec fn creation_never_fails<R: Resource, I: Info<R>>(info: &I, ctx: &I::Context) -> bool {
    forall|res: Result<R, I::Error>| #[trigger]
        call_ensures(I::try_create, (info, ctx), res) ==> res is Ok
}

/// What a pool relies on in its keys: `==` on descriptions decides whether two
/// descriptions are the same value, and a clone is the same value as its
/// source.
pub open spec fn lawful_description<I: PartialEq + Clone>() -> bool {
    &&& I::obeys_eq_spec()
    &&& forall|a: I, b: I| #[trigger] a.eq_spec(&b) <==> (a == b)
    &&& forall|a: I, b: I| #[trigger] cloned::<I>(a, b) ==> a == b
}

/// A pool of resources of type `R`, keyed by descriptions of type `I`.
pub trait Pool<R: Resource, I: Info<R>> {
    /// The handle through which a leased resource is used and given back.
    type Lease;

    /// The resource that `lease` wraps.
    spec fn leased(lease: &Self::Lease) -> R;

    /// Leases a resource for `info`, constructing one in `ctx` where the pool
    /// has none to reuse.
    ///
    /// For use where construction cannot fail.
    fn lease(&mut self, info: &I, ctx: &I::Context) -> (lease: Self::Lease)
        requires
            lawful_description::<I>(),
            creation_never_fails::<R, I>(info, ctx),
        ensures
            Self::leased(&lease).is_clean() || creates::<R, I>(info, ctx, Self::leased(&lease)),
    {
        match self.try_lease(info, ctx) {
            Ok(lease) => lease,
            Err(_) => vstd::pervasive::unreached(),
        }
    }

    /// Leases a resource for `info`, constructing one in `ctx` where the pool
    /// has none to reuse. A failure of construction is handed on unchanged.
    ///
    /// A reused resource is clean; a new one is whatever construction returned.
    fn try_lease(&mut self, info: &I, ctx: &I::Context) -> (res: Result<Self::Lease, I::Error>)
        requires
            lawful_description::<I>(),
        ensures
            res matches Ok(lease) ==> Self::leased(&lease).is_clean() || creates::<R, I>(
                info,
                ctx,
                Self::leased(&lease),
            ),
            res matches Err(e) ==> creation_fails_with::<R, I>(info, ctx, e),
            creation_never_fails::<R, I>(info, ctx) ==> res is Ok,
    ;
}

} // verus!
