//! The registry of remote chains: a chain's name and its contract address,
//! looked up in either direction.
use vstd::prelude::*;
use vstd::slice::slice_to_vec;

use crate::bytes::{copy_bytes, same_bytes};
use crate::error::BridgeError;

verus! {

/// A map from byte strings to byte strings; at most one entry per key.
pub struct ByteMap {
    keys: Vec<Vec<u8>>,
    vals: Vec<Vec<u8>>,
    contents: Ghost<Map<Seq<u8>, Seq<u8>>>,
}

impl View for ByteMap {
    type V = Map<Seq<u8>, Seq<u8>>;

    closed spec fn view(&self) -> Map<Seq<u8>, Seq<u8>> {
        self.contents@
    }
}

impl ByteMap {
    #[verifier::type_invariant]
    closed spec fn inv(self) -> bool {
        &&& self.keys@.len() == self.vals@.len()
        &&& forall|i: int, j: int|
            0 <= i < j < self.keys@.len() ==> self.keys@[i]@ != self.keys@[j]@
        &&& forall|k: Seq<u8>|
            self.contents@.contains_key(k) <==> exists|i: int|
                0 <= i < self.keys@.len() && self.keys@[i]@ == k
        &&& forall|i: int|
            0 <= i < self.keys@.len() ==> self.contents@[#[trigger] self.keys@[i]@]
                == self.vals@[i]@
    }

    /// An empty map.
    pub fn new() -> (r: ByteMap)
        ensures
            r@ == Map::<Seq<u8>, Seq<u8>>::empty(),
    {
        ByteMap { keys: Vec::new(), vals: Vec::new(), contents: Ghost(Map::empty()) }
    }

    fn position(&self, key: &[u8]) -> (r: Option<usize>)
        ensures
            r is Some <==> self@.contains_key(key@),
            r matches Some(i) ==> i < self.keys@.len() && self.keys@[i as int]@ == key@,
    {
        proof {
            use_type_invariant(self);
        }
        let mut i: usize = 0;
        while i < self.keys.len()
            invariant
                i <= self.keys@.len(),
                forall|j: int| 0 <= j < i ==> self.keys@[j]@ != key@,
            decreases self.keys.len() - i,
        {
            if same_bytes(self.keys[i].as_slice(), key) {
                proof {
                    use_type_invariant(self);
                    assert(self.keys@[i as int]@ == key@);
                }
                return Some(i);
            }
            i = i + 1;
        }
        None
    }

    /// Maps `key` to `val`, replacing any earlier value.
    pub fn insert(&mut self, key: &[u8], val: &[u8])
        ensures
            final(self)@ == old(self)@.insert(key@, val@),
    {
        proof {
            use_type_invariant(&*self);
        }
        let pos = self.position(key);
        let mut taken = ByteMap::new();
        std::mem::swap(self, &mut taken);
        let ByteMap { mut keys, mut vals, contents } = taken;
        let ghost new_contents = contents@.insert(key@, val@);
        match pos {
            Some(i) => {
                vals.set(i, slice_to_vec(val));
                assert forall|j: int| 0 <= j < keys@.len() implies new_contents[
                    #[trigger] keys@[j]@] == vals@[j]@ by {
                    if j != i {
                        assert(keys@[j]@ != keys@[i as int]@);
                    }
                }
            },
            None => {
                keys.push(slice_to_vec(key));
                vals.push(slice_to_vec(val));
                let ghost n = keys@.len();
                assert forall|k: Seq<u8>| new_contents.contains_key(k) implies exists|i: int|
                    0 <= i < keys@.len() && keys@[i]@ == k by {
                    if k == key@ {
                        assert(keys@[n - 1]@ == k);
                    } else {
                        let i = choose|i: int|
                            0 <= i < old(self).keys@.len() && old(self).keys@[i]@ == k;
                        assert(keys@[i]@ == k);
                    }
                }
                assert forall|j: int| 0 <= j < keys@.len() implies new_contents[
                    #[trigger] keys@[j]@] == vals@[j]@ by {
                    if j < n - 1 {
                        assert(keys@[j] == old(self).keys@[j]);
                    }
                }
            },
        }
        *self = ByteMap { keys, vals, contents: Ghost(new_contents) };
    }

    /// Removes the entry for `key` and returns its value, if there was one.
    pub fn take(&mut self, key: &[u8]) -> (r: Option<Vec<u8>>)
        ensures
            final(self)@ == old(self)@.remove(key@),
            r is Some <==> old(self)@.contains_key(key@),
            r matches Some(v) ==> v@ == old(self)@[key@],
    {
        proof {
            use_type_invariant(&*self);
        }
        match self.position(key) {
            Some(i) => {
                let mut taken = ByteMap::new();
                std::mem::swap(self, &mut taken);
                let ByteMap { mut keys, mut vals, contents } = taken;
                let ghost old_keys = keys@;
                let ghost new_contents = contents@.remove(key@);
                keys.remove(i);
                let v = vals.remove(i);
                assert forall|a: int, b: int| 0 <= a < b < keys@.len() implies keys@[a]@
                    != keys@[b]@ by {
                    let oa = if a < i { a } else { a + 1 };
                    let ob = if b < i { b } else { b + 1 };
                    assert(keys@[a] == old_keys[oa]);
                    assert(keys@[b] == old_keys[ob]);
                }
                assert forall|j: int| 0 <= j < keys@.len() implies #[trigger] keys@[j]@
                    != key@ by {
                    let oj = if j < i { j } else { j + 1 };
                    assert(keys@[j] == old_keys[oj]);
                    assert(old_keys[i as int]@ == key@);
                }
                assert forall|j: int| 0 <= j < keys@.len() implies new_contents.contains_key(
                    #[trigger] keys@[j]@) by {
                    let oj = if j < i { j } else { j + 1 };
                    assert(keys@[j] == old_keys[oj]);
                    assert(contents@.contains_key(old_keys[oj]@));
                }
                assert forall|k: Seq<u8>| new_contents.contains_key(k) implies exists|j: int|
                    0 <= j < keys@.len() && keys@[j]@ == k by {
                    let j = choose|j: int| 0 <= j < old_keys.len() && old_keys[j]@ == k;
                    if j < i {
                        assert(keys@[j]@ == k);
                    } else {
                        assert(keys@[j - 1]@ == k);
                    }
                }
                assert forall|j: int| 0 <= j < keys@.len() implies new_contents[
                    #[trigger] keys@[j]@] == vals@[j]@ by {
                    if j < i {
                        assert(keys@[j] == old_keys[j]);
                    } else {
                        assert(keys@[j] == old_keys[j + 1]);
                    }
                }
                assert(forall|k: Seq<u8>|
                    new_contents.contains_key(k) <==> exists|j: int|
                        0 <= j < keys@.len() && keys@[j]@ == k);
                *self = ByteMap { keys, vals, contents: Ghost(new_contents) };
                Some(v)
            },
            None => {
                assert(self@.remove(key@) =~= self@);
                None
            },
        }
    }

    /// The value for `key`, if there is one.
    pub fn get(&self, key: &[u8]) -> (r: Option<Vec<u8>>)
        ensures
            r is Some <==> self@.contains_key(key@),
            r matches Some(v) ==> v@ == self@[key@],
    {
        proof {
            use_type_invariant(self);
        }
        match self.position(key) {
            Some(i) => Some(copy_bytes(&self.vals[i])),
            None => None,
        }
    }
}

/// The links between remote chain names and remote contract addresses, kept
/// in both directions.
pub struct ChainRegistry {
    addresses: ByteMap,
    names: ByteMap,
}

impl ChainRegistry {
    /// The address recorded for each chain name.
    pub closed spec fn addresses(&self) -> Map<Seq<u8>, Seq<u8>> {
        self.addresses@
    }

    /// The chain name recorded for each address.
    pub closed spec fn names(&self) -> Map<Seq<u8>, Seq<u8>> {
        self.names@
    }

    /// A registry with no links.
    pub fn new() -> (r: ChainRegistry)
        ensures
            r.addresses() == Map::<Seq<u8>, Seq<u8>>::empty(),
            r.names() == Map::<Seq<u8>, Seq<u8>>::empty(),
    {
        ChainRegistry { addresses: ByteMap::new(), names: ByteMap::new() }
    }

    /// Links `name` and `address` in both directions, replacing whatever
    /// either of them was linked to before.
    pub fn link(&mut self, name: &[u8], address: &[u8])
        ensures
            final(self).addresses() == old(self).addresses().insert(name@, address@),
            final(self).names() == old(self).names().insert(address@, name@),
    {
        self.addresses.insert(name, address);
        self.names.insert(address, name);
    }

    /// Removes the link of `name`: its address entry, and the name entry of
    /// the address it had. Nothing changes when `name` is not linked.
    pub fn unlink(&mut self, name: &[u8])
        ensures
            final(self).addresses() == old(self).addresses().remove(name@),
            final(self).names() == if old(self).addresses().contains_key(name@) {
                old(self).names().remove(old(self).addresses()[name@])
            } else {
                old(self).names()
            },
    {
        match self.addresses.take(name) {
            Some(address) => {
                let _ = self.names.take(address.as_slice());
            },
            None => {},
        }
    }

    /// The address linked to `name`, or `UnknownChain`.
    pub fn address_of(&self, name: &[u8]) -> (r: Result<Vec<u8>, BridgeError>)
        ensures
            r is Ok <==> self.addresses().contains_key(name@),
            r matches Ok(a) ==> a@ == self.addresses()[name@],
            r matches Err(e) ==> e == BridgeError::UnknownChain,
    {
        match self.addresses.get(name) {
            Some(a) => Ok(a),
            None => Err(BridgeError::UnknownChain),
        }
    }

    /// The chain name linked to `address`, or `UnknownChain`.
    pub fn name_of(&self, address: &[u8]) -> (r: Result<Vec<u8>, BridgeError>)
        ensures
            r is Ok <==> self.names().contains_key(address@),
            r matches Ok(n) ==> n@ == self.names()[address@],
            r matches Err(e) ==> e == BridgeError::UnknownChain,
    {
        match self.names.get(address) {
            Some(n) => Ok(n),
            None => Err(BridgeError::UnknownChain),
        }
    }
}

/// Linking `name` and `address` makes each look up the other; unlinking
/// `name` afterwards makes both lookups fail. The three registries are the
/// states before the link, after it, and after the unlink.
pub proof fn lemma_link_symmetry(
    before: ChainRegistry,
    linked: ChainRegistry,
    unlinked: ChainRegistry,
    name: Seq<u8>,
    address: Seq<u8>,
)
    requires
        linked.addresses() == before.addresses().insert(name, address),
        linked.names() == before.names().insert(address, name),
        unlinked.addresses() == linked.addresses().remove(name),
        unlinked.names() == if linked.addresses().contains_key(name) {
            linked.names().remove(linked.addresses()[name])
        } else {
            linked.names()
        },
    ensures
        linked.addresses().contains_key(name),
        linked.addresses()[name] == address,
        linked.names().contains_key(address),
        linked.names()[address] == name,
        !unlinked.addresses().contains_key(name),
        !unlinked.names().contains_key(address),
{
}

} // verus!
