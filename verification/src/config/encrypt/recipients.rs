//! The keys that a secret is encrypted for.

use super::utils::{fingerprints_equal, holds_fingerprint, normal_fingerprint};
use super::Key;
use vstd::prelude::*;

verus! {

/// Whether all of `keys` belong to one engine.
pub open spec fn same_protocol(keys: Seq<Key>) -> bool {
    forall|i: int| 0 <= i < keys.len() ==> (#[trigger] keys[i]).protocol_of() == keys[0].protocol_of()
}

/// Whether `key` is one of `keys`, by fingerprint.
pub open spec fn holds_key(keys: Seq<Key>, key: Key) -> bool {
    exists|i: int| 0 <= i < keys.len() && (#[trigger] keys[i]).same_key(&key)
}

/// `keys` without those that are one of `gone`.
pub open spec fn without(keys: Seq<Key>, gone: Seq<Key>) -> Seq<Key>
    decreases keys.len(),
{
    if keys.len() == 0 {
        keys
    } else if holds_key(gone, keys.last()) {
        without(keys.drop_last(), gone)
    } else {
        without(keys.drop_last(), gone).push(keys.last())
    }
}

/// Checks whether all of `keys` belong to one engine; none or one always do.
pub fn keys_same_protocol(keys: &Vec<Key>) -> (same: bool)
    ensures
        same == same_protocol(keys@),
{
    if keys.len() < 2 {
        true
    } else {
        let protocol = keys[0].protocol();
        let mut i: usize = 1;
        while i < keys.len()
            invariant
                1 <= i <= keys.len(),
                protocol == keys@[0].protocol_of(),
                forall|j: int| 0 <= j < i ==> (#[trigger] keys@[j]).protocol_of() == protocol,
            decreases keys.len() - i,
        {
            if keys[i].protocol() != protocol {
                return false;
            }
            i += 1;
        }
        true
    }
}

/// Whether `key` is one of `keys`, by fingerprint.
fn contains_key(keys: &Vec<Key>, key: &Key) -> (found: bool)
    ensures
        found == holds_key(keys@, *key),
{
    let mut i: usize = 0;
    while i < keys.len()
        invariant
            i <= keys.len(),
            forall|j: int| 0 <= j < i ==> !(#[trigger] keys@[j]).same_key(key),
        decreases keys.len() - i,
    {
        if keys[i] == *key {
            return true;
        }
        i += 1;
    }
    false
}

/// The keys that secrets are encrypted for. All belong to one engine.
#[derive(Clone, Debug)]
pub struct Recipients {
    keys: Vec<Key>,
}

impl View for Recipients {
    type V = Seq<Key>;

    closed spec fn view(&self) -> Seq<Key> {
        self.keys@
    }
}

impl Recipients {
    /// The recipients `keys`, which belong to one engine.
    pub fn from(keys: Vec<Key>) -> (made: Self)
        requires
            same_protocol(keys@),
        ensures
            made@ == keys@,
    {
        Self { keys }
    }

    /// The keys, in the order in which they were added.
    pub fn keys(&self) -> (keys: &Vec<Key>)
        ensures
            keys@ == self@,
    {
        &self.keys
    }

    /// The keys, handed over.
    pub fn into_keys(self) -> (keys: Vec<Key>)
        ensures
            keys@ == self@,
    {
        self.keys
    }

    /// Adds `key`, which belongs to the engine of the keys already there.
    pub fn add(&mut self, key: Key)
        requires
            same_protocol(old(self)@.push(key)),
        ensures
            final(self)@ == old(self)@.push(key),
    {
        self.keys.push(key);
    }

    /// Removes every key that equals `key`; the others keep their order.
    pub fn remove(&mut self, key: &Key)
        ensures
            final(self)@ == without(old(self)@, seq![*key]),
    {
        let ghost gone = seq![*key];
        let mut all: Vec<Key> = Vec::new();
        core::mem::swap(&mut self.keys, &mut all);
        let ghost given = all@;
        let mut kept: Vec<Key> = Vec::new();
        assert(given.take(0) =~= Seq::<Key>::empty());
        for held in it: all
            invariant
                it.seq() == given,
                gone == seq![*key],
                kept@ == without(given.take(it.index() as int), gone),
        {
            let ghost prefix = given.take(it.index() + 1);
            assert(prefix.drop_last() =~= given.take(it.index() as int));
            assert(prefix.last() == held);
            let same = held == *key;
            proof {
                if same {
                    assert(held.same_key(&gone[0]));
                }
            }
            if !same {
                kept.push(held);
            }
        }
        assert(given.take(given.len() as int) =~= given);
        self.keys = kept;
    }

    /// Removes every key that equals one of `keys`; the others keep their
    /// order.
    pub fn remove_all(&mut self, keys: &Vec<Key>)
        ensures
            final(self)@ == without(old(self)@, keys@),
    {
        let mut all: Vec<Key> = Vec::new();
        core::mem::swap(&mut self.keys, &mut all);
        let ghost given = all@;
        let mut kept: Vec<Key> = Vec::new();
        assert(given.take(0) =~= Seq::<Key>::empty());
        for held in it: all
            invariant
                it.seq() == given,
                kept@ == without(given.take(it.index() as int), keys@),
        {
            let ghost prefix = given.take(it.index() + 1);
            assert(prefix.drop_last() =~= given.take(it.index() as int));
            assert(prefix.last() == held);
            if !contains_key(keys, &held) {
                kept.push(held);
            }
        }
        assert(given.take(given.len() as int) =~= given);
        self.keys = kept;
    }

    /// Whether one of the keys has the fingerprint `fingerprint`.
    pub fn has_fingerprint(&self, fingerprint: &str) -> (found: bool)
        ensures
            found == holds_fingerprint(self@, fingerprint@),
    {
        super::utils::keys_contain_fingerprint(&self.keys, fingerprint)
    }
}

/// Whether one of the keys of `recipients` has the fingerprint of one of
/// `secrets`, the private keys of the keychain.
pub fn contains_own_secret_key(recipients: &Recipients, secrets: &Recipients) -> (found: bool)
    ensures
        found == exists|i: int|
            0 <= i < recipients@.len() && holds_fingerprint(
                secrets@,
                normal_fingerprint((#[trigger] recipients@[i]).fingerprint_text()),
            ),
{
    let mut i: usize = 0;
    while i < recipients.keys.len()
        invariant
            i <= recipients.keys.len(),
            forall|j: int|
                0 <= j < i ==> !holds_fingerprint(
                    secrets@,
                    normal_fingerprint((#[trigger] recipients@[j]).fingerprint_text()),
                ),
        decreases recipients.keys.len() - i,
    {
        let own = recipients.keys[i].fingerprint(false);
        if secrets.has_fingerprint(own.as_str()) {
            assert(holds_fingerprint(
                secrets@,
                normal_fingerprint(recipients@[i as int].fingerprint_text()),
            ));
            return true;
        }
        i += 1;
    }
    false
}

} // verus!
