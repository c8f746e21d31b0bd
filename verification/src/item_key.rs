use vstd::prelude::*;

verus! {

/// Capability of an item type to project a comparable, hashable identity
/// key; global-duplicate suppression treats two items as "the same" exactly
/// when their keys compare equal.  The projection must be pure: `key` always
/// returns `key_spec`, a function of the item alone.
pub trait ItemKey {
    type Key: core::fmt::Debug + PartialEq + Eq + core::hash::Hash;

    /// The identity key of this item, as a mathematical function.
    spec fn key_spec(&self) -> Self::Key;

    /// Projects the identity key out of an item.
    fn key(&self) -> (k: Self::Key)
        ensures
            k == self.key_spec(),
    ;
}

impl ItemKey for u8 {
    type Key = u8;

    open spec fn key_spec(&self) -> u8 {
        *self
    }

    fn key(&self) -> u8 {
        *self
    }
}

impl ItemKey for u16 {
    type Key = u16;

    open spec fn key_spec(&self) -> u16 {
        *self
    }

    fn key(&self) -> u16 {
        *self
    }
}

impl ItemKey for u32 {
    type Key = u32;

    open spec fn key_spec(&self) -> u32 {
        *self
    }

    fn key(&self) -> u32 {
        *self
    }
}

impl ItemKey for u64 {
    type Key = u64;

    open spec fn key_spec(&self) -> u64 {
        *self
    }

    fn key(&self) -> u64 {
        *self
    }
}

impl ItemKey for u128 {
    type Key = u128;

    open spec fn key_spec(&self) -> u128 {
        *self
    }

    fn key(&self) -> u128 {
        *self
    }
}

impl ItemKey for usize {
    type Key = usize;

    open spec fn key_spec(&self) -> usize {
        *self
    }

    fn key(&self) -> usize {
        *self
    }
}

impl ItemKey for i8 {
    type Key = i8;

    open spec fn key_spec(&self) -> i8 {
        *self
    }

    fn key(&self) -> i8 {
        *self
    }
}

impl ItemKey for i16 {
    type Key = i16;

    open spec fn key_spec(&self) -> i16 {
        *self
    }

    fn key(&self) -> i16 {
        *self
    }
}

impl ItemKey for i32 {
    type Key = i32;

    open spec fn key_spec(&self) -> i32 {
        *self
    }

    fn key(&self) -> i32 {
        *self
    }
}

impl ItemKey for i64 {
    type Key = i64;

    open spec fn key_spec(&self) -> i64 {
        *self
    }

    fn key(&self) -> i64 {
        *self
    }
}

impl ItemKey for i128 {
    type Key = i128;

    open spec fn key_spec(&self) -> i128 {
        *self
    }

    fn key(&self) -> i128 {
        *self
    }
}

impl ItemKey for isize {
    type Key = isize;

    open spec fn key_spec(&self) -> isize {
        *self
    }

    fn key(&self) -> isize {
        *self
    }
}

impl ItemKey for String {
    type Key = String;

    open spec fn key_spec(&self) -> String {
        *self
    }

    fn key(&self) -> String {
        self.clone()
    }
}

/// A record that pairs a payload with an explicit identity key, for item
/// types whose identity is one field rather than the whole value.
#[derive(Clone, Debug, PartialEq, Eq)]
pub struct Keyed<K, V> {
    pub key: K,
    pub value: V,
}

impl<K: core::fmt::Debug + PartialEq + Eq + core::hash::Hash + Copy, V> ItemKey for Keyed<K, V> {
    type Key = K;

    open spec fn key_spec(&self) -> K {
        self.key
    }

    fn key(&self) -> K {
        self.key
    }
}

} // verus!
