//! The registry of bridgeable assets, keyed by a 32-byte asset key.
use vstd::prelude::*;

use crate::bytes::{copy_bytes, same_key};
use crate::error::BridgeError;

verus! {

/// How an asset's units are conserved across chains.
#[derive(PartialEq, Eq, Structural, Debug, Clone, Copy)]
pub enum CustodyMode {
    /// Units sent out are held in escrow here and released when they come back.
    LockUnlock,
    /// Units sent out are destroyed here and created anew when they come back.
    MintBurn,
}

/// A registered asset: its local identifier and its custody mode.
pub struct KnownAsset {
    pub local_identifier: Vec<u8>,
    pub mode: CustodyMode,
}

/// What a registry entry denotes: the local identifier's bytes and the mode.
pub struct AssetEntry {
    pub local_identifier: Seq<u8>,
    pub mode: CustodyMode,
}

impl View for KnownAsset {
    type V = AssetEntry;

    open spec fn view(&self) -> AssetEntry {
        AssetEntry { local_identifier: self.local_identifier@, mode: self.mode }
    }
}

/// A map from asset key to registered asset; at most one entry per key.
pub struct AssetRegistry {
    keys: Vec<[u8; 32]>,
    assets: Vec<KnownAsset>,
    contents: Ghost<Map<Seq<u8>, AssetEntry>>,
}

impl View for AssetRegistry {
    type V = Map<Seq<u8>, AssetEntry>;

    closed spec fn view(&self) -> Map<Seq<u8>, AssetEntry> {
        self.contents@
    }
}

impl AssetRegistry {
    #[verifier::type_invariant]
    closed spec fn inv(self) -> bool {
        &&& self.keys@.len() == self.assets@.len()
        &&& forall|i: int, j: int|
            0 <= i < j < self.keys@.len() ==> self.keys@[i]@ != self.keys@[j]@
        &&& forall|k: Seq<u8>|
            self.contents@.contains_key(k) <==> exists|i: int|
                0 <= i < self.keys@.len() && self.keys@[i]@ == k
        &&& forall|i: int|
            0 <= i < self.keys@.len() ==> self.contents@[#[trigger] self.keys@[i]@]
                == self.assets@[i]@
    }

    /// An empty registry.
    pub fn new() -> (r: AssetRegistry)
        ensures
            r@ == Map::<Seq<u8>, AssetEntry>::empty(),
    {
        AssetRegistry { keys: Vec::new(), assets: Vec::new(), contents: Ghost(Map::empty()) }
    }

    /// The position of `key`, if it has an entry.
    fn position(&self, key: &[u8; 32]) -> (r: Option<usize>)
        ensures
            r is Some <==> self@.contains_key(key@),
            r matches Some(i) ==> i < self.keys@.len() && self.keys@[i as int]@ == key@,
    {
        proof {
            use_type_invariant(self);
        }
        let mut i: usize = 0;
        while i < self.keys.len()
            invariant
                i <= self.keys@.len(),
                forall|j: int| 0 <= j < i ==> self.keys@[j]@ != key@,
            decreases self.keys.len() - i,
        {
            if same_key(&self.keys[i], key) {
                proof {
                    use_type_invariant(self);
                    assert(self.keys@[i as int]@ == key@);
                }
                return Some(i);
            }
            i = i + 1;
        }
        None
    }

    /// Registers `asset` under `key`, replacing any earlier entry for it.
    pub fn register(&mut self, key: &[u8; 32], asset: KnownAsset)
        ensures
            final(self)@ == old(self)@.insert(key@, asset@),
    {
        proof {
            use_type_invariant(&*self);
        }
        let pos = self.position(key);
        let mut taken = AssetRegistry::new();
        std::mem::swap(self, &mut taken);
        let AssetRegistry { mut keys, mut assets, contents } = taken;
        let ghost new_contents = contents@.insert(key@, asset@);
        match pos {
            Some(i) => {
                assets.set(i, asset);
                assert forall|j: int| 0 <= j < keys@.len() implies new_contents[
                    #[trigger] keys@[j]@] == assets@[j]@ by {
                    if j != i {
                        assert(keys@[j]@ != keys@[i as int]@);
                    }
                }
            },
            None => {
                keys.push(*key);
                assets.push(asset);
                let ghost n = keys@.len();
                assert forall|k: Seq<u8>| new_contents.contains_key(k) implies exists|i: int|
                    0 <= i < keys@.len() && keys@[i]@ == k by {
                    if k == key@ {
                        assert(keys@[n - 1]@ == k);
                    } else {
                        let i = choose|i: int| 0 <= i < old(self).keys@.len() && old(self).keys@[i]@ == k;
                        assert(keys@[i]@ == k);
                    }
                }
                assert forall|j: int| 0 <= j < keys@.len() implies new_contents[
                    #[trigger] keys@[j]@] == assets@[j]@ by {
                    if j < n - 1 {
                        assert(keys@[j] == old(self).keys@[j]);
                    }
                }
            },
        }
        *self = AssetRegistry { keys, assets, contents: Ghost(new_contents) };
    }

    /// Removes the entry for `key`; nothing changes when there is none.
    pub fn unregister(&mut self, key: &[u8; 32])
        ensures
            final(self)@ == old(self)@.remove(key@),
    {
        proof {
            use_type_invariant(&*self);
        }
        match self.position(key) {
            Some(i) => {
                let mut taken = AssetRegistry::new();
                std::mem::swap(self, &mut taken);
                let AssetRegistry { mut keys, mut assets, contents } = taken;
                let ghost old_keys = keys@;
                let ghost new_contents = contents@.remove(key@);
                keys.remove(i);
                assets.remove(i);
                assert forall|a: int, b: int| 0 <= a < b < keys@.len() implies keys@[a]@
                    != keys@[b]@ by {
                    let oa = if a < i { a } else { a + 1 };
                    let ob = if b < i { b } else { b + 1 };
                    assert(keys@[a] == old_keys[oa]);
                    assert(keys@[b] == old_keys[ob]);
                }
                assert forall|j: int| 0 <= j < keys@.len() implies #[trigger] keys@[j]@
                    != key@ by {
                    let oj = if j < i { j } else { j + 1 };
                    assert(keys@[j] == old_keys[oj]);
                    assert(old_keys[i as int]@ == key@);
                }
                assert forall|j: int| 0 <= j < keys@.len() implies new_contents.contains_key(
                    #[trigger] keys@[j]@) by {
                    let oj = if j < i { j } else { j + 1 };
                    assert(keys@[j] == old_keys[oj]);
                    assert(contents@.contains_key(old_keys[oj]@));
                }
                assert forall|k: Seq<u8>| (exists|j: int| 0 <= j < keys@.len() && keys@[j]@ == k)
                    implies #[trigger] new_contents.contains_key(k) by {
                    let j = choose|j: int| 0 <= j < keys@.len() && keys@[j]@ == k;
                    assert(new_contents.contains_key(keys@[j]@));
                }
                assert forall|k: Seq<u8>| new_contents.contains_key(k) implies exists|j: int|
                    0 <= j < keys@.len() && keys@[j]@ == k by {
                    let j = choose|j: int| 0 <= j < old_keys.len() && old_keys[j]@ == k;
                    if j < i {
                        assert(keys@[j]@ == k);
                    } else {
                        assert(keys@[j - 1]@ == k);
                    }
                }
                assert forall|j: int| 0 <= j < keys@.len() implies new_contents[
                    #[trigger] keys@[j]@] == assets@[j]@ by {
                    if j < i {
                        assert(keys@[j] == old_keys[j]);
                    } else {
                        assert(keys@[j] == old_keys[j + 1]);
                    }
                }
                assert(keys@.len() == assets@.len());
                assert(forall|k: Seq<u8>|
                    new_contents.contains_key(k) <==> exists|j: int|
                        0 <= j < keys@.len() && keys@[j]@ == k);
                *self = AssetRegistry { keys, assets, contents: Ghost(new_contents) };
            },
            None => {
                assert(self.contents@.remove(key@) =~= self.contents@);
            },
        }
    }

    /// The asset registered under `key`, or `UnknownAsset`.
    pub fn resolve(&self, key: &[u8; 32]) -> (r: Result<KnownAsset, BridgeError>)
        ensures
            r is Ok <==> self@.contains_key(key@),
            r matches Ok(a) ==> a@ == self@[key@],
            r matches Err(e) ==> e == BridgeError::UnknownAsset,
    {
        proof {
            use_type_invariant(self);
        }
        match self.position(key) {
            Some(i) => {
                let a = &self.assets[i];
                Ok(KnownAsset { local_identifier: copy_bytes(&a.local_identifier), mode: a.mode })
            },
            None => Err(BridgeError::UnknownAsset),
        }
    }
}

} // verus!
