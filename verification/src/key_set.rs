//! The set of keys that a store holds.

use vstd::prelude::*;

use crate::record::Key;

verus! {

/// The byte strings of a sequence of keys.
pub open spec fn key_views(keys: Seq<Key>) -> Seq<Seq<u8>> {
    keys.map_values(|key: Key| key@)
}

/// A set of keys. No key occurs in it twice.
#[derive(Debug)]
pub struct KeySet {
    keys: Vec<Key>,
}

impl View for KeySet {
    type V = Set<Seq<u8>>;

    closed spec fn view(&self) -> Set<Seq<u8>> {
        key_views(self.keys@).to_set()
    }
}

/// The members of a duplicate-free sequence with one more at its end.
pub(crate) proof fn lemma_push(s: Seq<Seq<u8>>, x: Seq<u8>)
    requires
        s.no_duplicates(),
        !s.contains(x),
    ensures
        s.push(x).no_duplicates(),
        forall|y: Seq<u8>| #[trigger] s.push(x).contains(y) <==> s.contains(y) || y == x,
        s.push(x).to_set() == s.to_set().insert(x),
{
    let longer = s.push(x);
    assert forall|y: Seq<u8>| #[trigger] longer.contains(y) <==> s.contains(y) || y == x by {
        if s.contains(y) {
            let i = choose|i: int| 0 <= i < s.len() && s[i] == y;
            assert(longer[i] == y);
        }
        assert(longer[s.len() as int] == x);
    }
    assert(longer.to_set() =~= s.to_set().insert(x));
}

/// The members of a duplicate-free sequence without the one at `i`.
proof fn lemma_remove(s: Seq<Seq<u8>>, i: int)
    requires
        s.no_duplicates(),
        0 <= i < s.len(),
    ensures
        s.remove(i).no_duplicates(),
        s.remove(i).to_set() == s.to_set().remove(s[i]),
{
    let rest = s.remove(i);
    assert forall|x: Seq<u8>| rest.contains(x) == (s.contains(x) && x != s[i]) by {
        if rest.contains(x) {
            let j = choose|j: int| 0 <= j < rest.len() && rest[j] == x;
            let k = if j < i { j } else { j + 1 };
            assert(s[k] == x);
        }
        if s.contains(x) && x != s[i] {
            let k = choose|k: int| 0 <= k < s.len() && s[k] == x;
            let j = if k < i { k } else { k - 1 };
            assert(rest[j] == x);
        }
    }
    assert(rest.to_set() =~= s.to_set().remove(s[i]));
}

impl KeySet {
    /// No key occurs twice.
    pub closed spec fn wf(&self) -> bool {
        key_views(self.keys@).no_duplicates()
    }

    /// The keys of the set, in some order.
    pub closed spec fn listed(&self) -> Seq<Seq<u8>> {
        key_views(self.keys@)
    }

    /// The list holds each member of the set once.
    pub proof fn listed_once(&self)
        requires
            self.wf(),
        ensures
            self.listed().no_duplicates(),
            self.listed().to_set() == self@,
            self@.finite(),
            self@.len() == self.listed().len(),
    {
        self.listed().unique_seq_to_set();
        vstd::seq_lib::seq_to_set_is_finite(self.listed());
    }

    /// The empty set.
    pub fn new() -> (set: KeySet)
        ensures
            set.wf(),
            set@ == Set::<Seq<u8>>::empty(),
    {
        let set: KeySet = KeySet { keys: Vec::new() };
        assert(set@ =~= Set::<Seq<u8>>::empty());
        set
    }

    /// The number of keys.
    pub fn len(&self) -> (len: usize)
        requires
            self.wf(),
        ensures
            len == self@.len(),
            self@.finite(),
    {
        proof {
            self.listed_once();
        }
        self.keys.len()
    }

    /// The keys, in some order.
    pub fn as_slice(&self) -> (keys: &[Key])
        ensures
            key_views(keys@) == self.listed(),
    {
        self.keys.as_slice()
    }

    /// Where `key` stands, if it is a member.
    fn position(&self, key: &Key) -> (position: Option<usize>)
        ensures
            match position {
                Some(i) => i < self.keys@.len() && self.keys@[i as int]@ == key@ && self@.contains(
                    key@,
                ),
                None => !self@.contains(key@),
            },
    {
        let mut i: usize = 0;
        while i < self.keys.len()
            invariant
                i <= self.keys@.len(),
                forall|j: int| 0 <= j < i ==> (#[trigger] self.keys@[j])@ != key@,
            decreases self.keys@.len() - i,
        {
            if self.keys[i].same_as(key) {
                assert(key_views(self.keys@)[i as int] == key@);
                return Some(i);
            }
            i = i + 1;
        }
        None
    }

    /// Tells whether `key` is a member.
    pub fn contains(&self, key: &Key) -> (found: bool)
        ensures
            found == self@.contains(key@),
    {
        self.position(key).is_some()
    }

    /// Adds `key`.
    pub fn insert(&mut self, key: Key)
        requires
            old(self).wf(),
        ensures
            final(self).wf(),
            final(self)@ == old(self)@.insert(key@),
    {
        if !self.contains(&key) {
            let ghost before = key_views(self.keys@);
            self.keys.push(key);
            proof {
                lemma_push(before, key@);
                assert(key_views(self.keys@) =~= before.push(key@));
            }
        } else {
            assert(self@ =~= old(self)@.insert(key@));
        }
    }

    /// Takes `key` out, if it is a member.
    pub fn remove(&mut self, key: &Key)
        requires
            old(self).wf(),
        ensures
            final(self).wf(),
            final(self)@ == old(self)@.remove(key@),
    {
        match self.position(key) {
            Some(i) => {
                let ghost before = key_views(self.keys@);
                let _ = self.keys.remove(i);
                proof {
                    lemma_remove(before, i as int);
                    assert(key_views(self.keys@) =~= before.remove(i as int));
                }
            },
            None => {
                assert(self@ =~= old(self)@.remove(key@));
            },
        }
    }
}

/// The byte strings of keys are those of each key, in the same order.
pub proof fn views_of_keys_are_complete(keys: Seq<Key>)
    ensures
        key_views(keys).len() == keys.len(),
        forall|i: int| 0 <= i < keys.len() ==> #[trigger] key_views(keys)[i] == keys[i]@,
{
}

} // verus!
