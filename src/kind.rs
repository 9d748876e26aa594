//! The two kinds of object that can be seeds, and what each hashes.
use vstd::prelude::*;

use crate::object::{ConfigMap, Secret};
use crate::utils::{content_hash, opt_view, seed_hash};

verus! {

/// Kind of a seed; part of its identity, since a ConfigMap and a Secret may
/// share a namespace and a name.
#[derive(Debug, Clone, Copy, PartialEq, Eq, Hash, Structural)]
pub enum SproutKind {
    ConfigMap,
    Secret,
}

impl SproutKind {
    /// The kind's name as the cluster spells it.
    pub open spec fn spec_name(self) -> Seq<char> {
        match self {
            SproutKind::ConfigMap => "ConfigMap"@,
            SproutKind::Secret => "Secret"@,
        }
    }

    /// The kind's name as the cluster spells it.
    pub fn to_string(&self) -> (s: String)
        ensures
            s@ == self.spec_name(),
    {
        match self {
            SproutKind::ConfigMap => "ConfigMap".to_string(),
            SproutKind::Secret => "Secret".to_string(),
        }
    }
}

/// An object that can be a seed: it knows its kind and hashes its payload.
pub trait AsSproutKind {
    spec fn kind_spec() -> SproutKind;

    /// The payload that the content hash covers.
    spec fn payload_spec(&self) -> Map<Seq<char>, Seq<u8>>;

    fn sprout_kind() -> (k: SproutKind)
        ensures
            k == Self::kind_spec(),
    ;

    /// The content hash: `None` for an empty payload.
    fn hash(&self) -> (h: Option<String>)
        ensures
            opt_view(h) == content_hash(self.payload_spec()),
    ;
}

impl AsSproutKind for ConfigMap {
    open spec fn kind_spec() -> SproutKind {
        SproutKind::ConfigMap
    }

    open spec fn payload_spec(&self) -> Map<Seq<char>, Seq<u8>> {
        self.payload_view()
    }

    fn sprout_kind() -> (k: SproutKind) {
        SproutKind::ConfigMap
    }

    fn hash(&self) -> (h: Option<String>) {
        let p = self.payload();
        seed_hash(&p)
    }
}

impl AsSproutKind for Secret {
    open spec fn kind_spec() -> SproutKind {
        SproutKind::Secret
    }

    open spec fn payload_spec(&self) -> Map<Seq<char>, Seq<u8>> {
        self.payload_view()
    }

    fn sprout_kind() -> (k: SproutKind) {
        SproutKind::Secret
    }

    fn hash(&self) -> (h: Option<String>) {
        let p = self.payload();
        seed_hash(&p)
    }
}

/// The kind of the type `T`.
pub fn infer_kind<T: AsSproutKind>() -> (k: SproutKind)
    ensures
        k == T::kind_spec(),
{
    T::sprout_kind()
}

/// The kind of a value.
pub fn kind_of<T: AsSproutKind>(_val: &T) -> (k: SproutKind)
    ensures
        k == T::kind_spec(),
{
    T::sprout_kind()
}

} // verus!
