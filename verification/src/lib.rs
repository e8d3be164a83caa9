//! Flattening of OpenAPI-style API description documents.
//!
//! The crate ingests a declarative API description document (a tree of
//! objects that may point at each other through `$ref` pointers into a
//! central `components` registry) and turns it into a flat, typed list of
//! callable operations ("entrypoints"). The pipeline has three stages:
//! resolving `$ref` pointers against a registry with cycle and validity
//! checks, collapsing heterogeneous schema shapes into a small closed type
//! algebra, and walking the path/operation tree to materialize per-operation
//! argument and response signatures.
//!
//! Parsing raw YAML or JSON text into the document object graph, and
//! serializing it back out, are external concerns: the functions here work
//! on already materialized, strongly shaped objects.

use vstd::prelude::*;

pub mod errors;
pub mod objects;
pub mod process;
pub mod strmap;
pub mod text;

use crate::errors::RefErrorModel;
use crate::errors::ReferenceError;
use crate::objects::Ref;
use crate::strmap::StrMap;
use crate::text::last_slash;
use crate::text::pointer_key;
use vstd::string::StrSliceExecFns;

verus! {

/// A value that is either present inline (`Concrete`) or indicated by a
/// named `$ref` pointer (`Ref`) into a registry. Exactly one of the two
/// forms is active at any time.
#[derive(Debug, PartialEq)]
pub enum MaybeRef<T> {
    Concrete(T),
    Ref(Ref),
}

/// Ghost model of a `MaybeRef`: the pointer is reduced to its character
/// sequence and the payload to its own model type `M`.
pub enum MaybeRefModel<M> {
    Concrete(M),
    Ref(Seq<char>),
}

/// What resolving a `MaybeRef` against a registry (modelled as a map from
/// key to registered value) returns, for every combination of value and
/// registry:
/// - a `Concrete` value resolves to itself, whatever the registry holds;
/// - a `Ref` whose pointer has no `/` separator is an invalid pointer;
/// - otherwise the text after the last `/` is the lookup key: a missing key
///   fails with `NotFound`, a key registered as another `Ref` fails with
///   `RecursiveReference` (one level of indirection only), and a key
///   registered as `Concrete` resolves to the registered value.
pub open spec fn resolve_in_map<T>(m: MaybeRef<T>, reg: Map<Seq<char>, MaybeRef<T>>) -> Result<
    T,
    RefErrorModel,
> {
    match m {
        MaybeRef::Concrete(t) => Ok(t),
        MaybeRef::Ref(r) => {
            let p = r.ref_@;
            if last_slash(p) < 0 {
                Err(RefErrorModel::InvalidPointer)
            } else {
                let key = pointer_key(p);
                if !reg.contains_key(key) {
                    Err(RefErrorModel::NotFound(key))
                } else {
                    match reg[key] {
                        MaybeRef::Concrete(t) => Ok(t),
                        MaybeRef::Ref(_) => Err(RefErrorModel::RecursiveReference),
                    }
                }
            }
        },
    }
}

/// Resolution against an optional registry: with no registry at hand, a
/// `Concrete` value still resolves to itself and a `Ref` fails with
/// `NotConcrete`.
pub open spec fn resolve_opt_in_map<T>(
    m: MaybeRef<T>,
    reg: Option<Map<Seq<char>, MaybeRef<T>>>,
) -> Result<T, RefErrorModel> {
    match reg {
        Some(r) => resolve_in_map(m, r),
        None => match m {
            MaybeRef::Concrete(t) => Ok(t),
            MaybeRef::Ref(_) => Err(RefErrorModel::NotConcrete),
        },
    }
}

impl<T> MaybeRef<T> {
    /// Resolve this value against a registry: a `Concrete` value is returned
    /// as it is; a `Ref` is parsed by splitting its pointer at the last `/`
    /// and the trailing name segment is looked up in the registry. A target
    /// that is itself a `Ref` is never chased further.
    pub fn resolve_ref<'a>(&'a self, map: &'a StrMap<MaybeRef<T>>) -> (r: Result<
        &'a T,
        ReferenceError,
    >)
        requires
            map.wf(),
        ensures
            match r {
                Ok(t) => resolve_in_map(*self, map.as_map()) == Ok::<T, RefErrorModel>(*t),
                Err(e) => resolve_in_map(*self, map.as_map()) == Err::<T, RefErrorModel>(e@),
            },
    {
        match self {
            MaybeRef::Concrete(inner) => Ok(inner),
            MaybeRef::Ref(r) => {
                match text::rfind_slash(r.ref_.as_str()) {
                    None => Err(ReferenceError::InvalidPointer),
                    Some(loc) => {
                        let ptr = r.ref_.as_str();
                        proof {
                            text::lemma_last_slash(r.ref_@);
                        }
                        let n = ptr.unicode_len();
                        let name = ptr.substring_char(loc + 1, n);
                        proof {
                            assert(name@ =~= pointer_key(r.ref_@));
                        }
                        match map.get(name) {
                            Some(MaybeRef::Concrete(inner)) => Ok(inner),
                            Some(MaybeRef::Ref(_)) => Err(ReferenceError::RecursiveReference),
                            None => Err(ReferenceError::NotFound(name.to_owned())),
                        }
                    },
                }
            },
        }
    }

    /// Return the inner value of a `Concrete`; a `Ref` fails with
    /// `NotConcrete`. This is resolution without a registry.
    pub fn as_result<'a>(&'a self) -> (r: Result<&'a T, ReferenceError>)
        ensures
            match r {
                Ok(t) => resolve_opt_in_map(*self, None) == Ok::<T, RefErrorModel>(*t),
                Err(e) => resolve_opt_in_map(*self, None) == Err::<T, RefErrorModel>(e@),
            },
    {
        match self {
            MaybeRef::Concrete(t) => Ok(t),
            MaybeRef::Ref(_) => Err(ReferenceError::NotConcrete),
        }
    }

    /// Resolve against a registry when one is at hand, and fall back to
    /// `as_result` when none is.
    pub fn resolve_ref_opt<'a>(&'a self, maybe_map: &'a Option<StrMap<MaybeRef<T>>>) -> (r: Result<
        &'a T,
        ReferenceError,
    >)
        requires
            maybe_map matches Some(m) ==> m.wf(),
        ensures
            match r {
                Ok(t) => resolve_opt_in_map(*self, opt_reg_model(*maybe_map)) == Ok::<
                    T,
                    RefErrorModel,
                >(*t),
                Err(e) => resolve_opt_in_map(*self, opt_reg_model(*maybe_map)) == Err::<
                    T,
                    RefErrorModel,
                >(e@),
            },
    {
        match maybe_map {
            Some(map) => self.resolve_ref(map),
            None => self.as_result(),
        }
    }
}

/// The registry view of an optional registry slice.
pub open spec fn opt_reg_model<T>(reg: Option<StrMap<MaybeRef<T>>>) -> Option<
    Map<Seq<char>, MaybeRef<T>>,
> {
    match reg {
        Some(m) => Some(m.as_map()),
        None => None,
    }
}

/// Resolving a `Concrete` value never consults the registry and always
/// succeeds, for any registry including none at all.
pub proof fn lemma_resolve_concrete<T>(t: T, reg: Option<Map<Seq<char>, MaybeRef<T>>>)
    ensures
        resolve_opt_in_map(MaybeRef::Concrete(t), reg) == Ok::<T, RefErrorModel>(t),
{
}

/// Resolving a `Reference` whose registered target is itself a `Reference`
/// always fails with `RecursiveReference`, regardless of what the chain
/// eventually points to.
pub proof fn lemma_resolve_recursive<T>(r: Ref, reg: Map<Seq<char>, MaybeRef<T>>)
    requires
        last_slash(r.ref_@) >= 0,
        reg.contains_key(pointer_key(r.ref_@)),
        reg[pointer_key(r.ref_@)] is Ref,
    ensures
        resolve_in_map(MaybeRef::Ref(r), reg) == Err::<T, RefErrorModel>(
            RefErrorModel::RecursiveReference,
        ),
{
}

} // verus!
