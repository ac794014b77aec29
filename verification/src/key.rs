//! Object keys and the set of keys already claimed during a run.
//!
//! An identifier names the same object whatever its letter case. It is
//! folded to a key once, where it enters, and only keys are compared
//! afterwards.

use vstd::prelude::*;
use vstd::utf8::encode_utf8;

verus! {

/// An ASCII upper-case letter becomes its lower-case form; every other
/// byte stays.
pub open spec fn lower_byte(b: u8) -> u8 {
    if 0x41 <= b <= 0x5A {
        (b + 0x20) as u8
    } else {
        b
    }
}

/// Every byte folded by `lower_byte`.
pub open spec fn lowered(bytes: Seq<u8>) -> Seq<u8> {
    Seq::new(bytes.len(), |i: int| lower_byte(bytes[i]))
}

/// The key of an identifier: its UTF-8 bytes with the ASCII letters in
/// lower case.
pub open spec fn object_key(id: Seq<char>) -> Seq<u8> {
    lowered(encode_utf8(id))
}

/// Letter case is of no account. A capital letter folds to the same byte
/// as its small form, so two byte strings that differ only in the case of
/// their ASCII letters have one key.
pub proof fn lemma_case_is_ignored(a: Seq<u8>, b: Seq<u8>)
    requires
        a.len() == b.len(),
        forall|i: int|
            0 <= i < a.len() ==> a[i] == b[i] || (0x41 <= a[i] <= 0x5A && b[i] == a[i] + 0x20) || (
            0x41 <= b[i] <= 0x5A && a[i] == b[i] + 0x20),
    ensures
        lowered(a) == lowered(b),
{
    assert(lowered(a) =~= lowered(b));
}

/// Folding a second time changes nothing.
pub proof fn lemma_lowered_idempotent(bytes: Seq<u8>)
    ensures
        lowered(lowered(bytes)) == lowered(bytes),
{
    assert(lowered(lowered(bytes)) =~= lowered(bytes));
}

pub(crate) fn fold_byte(b: u8) -> (r: u8)
    ensures
        r == lower_byte(b),
{
    if 0x41 <= b && b <= 0x5A {
        b + 0x20
    } else {
        b
    }
}

/// The canonical form of an identifier.
#[derive(Debug)]
pub struct ObjectKey {
    bytes: Vec<u8>,
}

impl View for ObjectKey {
    type V = Seq<u8>;

    closed spec fn view(&self) -> Seq<u8> {
        self.bytes@
    }
}

impl ObjectKey {
    /// Folds an identifier to its key.
    pub fn new(id: &str) -> (key: ObjectKey)
        ensures
            key@ == object_key(id@),
    {
        let raw = id.as_bytes();
        let mut bytes: Vec<u8> = Vec::new();
        let mut i: usize = 0;
        while i < raw.len()
            invariant
                i <= raw.len(),
                raw@ == encode_utf8(id@),
                bytes@.len() == i,
                forall|j: int| 0 <= j < i ==> bytes@[j] == lower_byte(raw@[j]),
            decreases raw.len() - i,
        {
            bytes.push(fold_byte(raw[i]));
            i = i + 1;
        }
        assert(bytes@ =~= object_key(id@));
        ObjectKey { bytes }
    }

    /// The bytes of the key.
    pub fn as_bytes(&self) -> (bytes: &Vec<u8>)
        ensures
            bytes@ == self@,
    {
        &self.bytes
    }

    /// Whether two keys are the same.
    pub fn matches(&self, other: &ObjectKey) -> (same: bool)
        ensures
            same == (self@ == other@),
    {
        if self.bytes.len() != other.bytes.len() {
            return false;
        }
        let mut i: usize = 0;
        while i < self.bytes.len()
            invariant
                i <= self.bytes.len(),
                self.bytes.len() == other.bytes.len(),
                forall|j: int| 0 <= j < i ==> self.bytes@[j] == other.bytes@[j],
            decreases self.bytes.len() - i,
        {
            if self.bytes[i] != other.bytes[i] {
                return false;
            }
            i = i + 1;
        }
        assert(self.bytes@ =~= other.bytes@);
        true
    }
}

/// The keys that records emitted so far have claimed. A key is claimed
/// once and stays claimed for the rest of the run.
#[derive(Debug)]
pub struct ClaimedSet {
    keys: Vec<ObjectKey>,
}

impl View for ClaimedSet {
    type V = Set<Seq<u8>>;

    closed spec fn view(&self) -> Set<Seq<u8>> {
        Set::new(|k: Seq<u8>| exists|i: int| 0 <= i < self.keys.len() && self.keys[i]@ == k)
    }
}

impl ClaimedSet {
    /// The set in which nothing is claimed.
    pub fn new() -> (set: ClaimedSet)
        ensures
            set@ == Set::<Seq<u8>>::empty(),
    {
        let set = ClaimedSet { keys: Vec::new() };
        assert(set@ =~= Set::<Seq<u8>>::empty());
        set
    }

    /// Whether the key is claimed.
    pub fn contains(&self, key: &ObjectKey) -> (found: bool)
        ensures
            found == self@.contains(key@),
    {
        let mut i: usize = 0;
        while i < self.keys.len()
            invariant
                i <= self.keys.len(),
                forall|j: int| 0 <= j < i ==> self.keys[j]@ != key@,
            decreases self.keys.len() - i,
        {
            if self.keys[i].matches(key) {
                return true;
            }
            i = i + 1;
        }
        false
    }

    /// Claims the key. True the first time a key is seen, false on every
    /// later call with that key.
    pub fn claim(&mut self, key: ObjectKey) -> (fresh: bool)
        ensures
            fresh == !old(self)@.contains(key@),
            final(self)@ == old(self)@.insert(key@),
    {
        if self.contains(&key) {
            assert(self@ =~= self@.insert(key@));
            false
        } else {
            let ghost before = self.keys@;
            let ghost k = key@;
            self.keys.push(key);
            assert(self@ =~= old(self)@.insert(k)) by {
                assert forall|x: Seq<u8>| self@.contains(x) <==> old(self)@.insert(k).contains(
                    x,
                ) by {
                    if old(self)@.insert(k).contains(x) {
                        if x == k {
                            assert(self.keys[before.len() as int]@ == x);
                        } else {
                            let i = choose|i: int| 0 <= i < before.len() && before[i]@ == x;
                            assert(self.keys[i]@ == x);
                        }
                    }
                }
            }
            true
        }
    }
}

} // verus!
