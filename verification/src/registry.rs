//! The set of filter endpoints that are currently live.

use vstd::prelude::*;

verus! {

/// The texts of a sequence of strings.
pub open spec fn texts(v: Seq<String>) -> Seq<Seq<char>> {
    Seq::new(v.len(), |i: int| v[i]@)
}

/// A set of endpoint addresses. Two addresses are the same endpoint exactly
/// when they are the same text.
pub struct FilterRegistry {
    endpoints: Vec<String>,
}

impl FilterRegistry {
    /// The addresses in storage order, each as its text.
    pub closed spec fn names(&self) -> Seq<Seq<char>> {
        texts(self.endpoints@)
    }

    /// No address is stored twice.
    pub closed spec fn wf(&self) -> bool {
        self.names().no_duplicates()
    }

    /// The registered addresses, as a set of texts.
    pub closed spec fn view(&self) -> Set<Seq<char>> {
        self.names().to_set()
    }

    /// The set is finite and has as many members as addresses are stored.
    pub proof fn lemma_cardinality(&self)
        requires
            self.wf(),
        ensures
            self@.finite(),
            self@.len() == self.names().len(),
    {
        self.names().unique_seq_to_set();
        vstd::seq_lib::seq_to_set_is_finite(self.names());
    }

    /// An empty registry.
    pub fn new() -> (r: Self)
        ensures
            r.wf(),
            r@ == Set::<Seq<char>>::empty(),
    {
        let r = FilterRegistry { endpoints: Vec::new() };
        assert(r.names().to_set() =~= Set::<Seq<char>>::empty());
        r
    }

    fn position(&self, key: &String) -> (at: Option<usize>)
        ensures
            match at {
                Some(i) => i < self.names().len() && self.names()[i as int] == key@,
                None => !self.names().contains(key@),
            },
    {
        let mut i: usize = 0;
        while i < self.endpoints.len()
            invariant
                i <= self.endpoints@.len(),
                forall|j: int| 0 <= j < i ==> self.names()[j] != key@,
            decreases self.endpoints@.len() - i,
        {
            if self.endpoints[i] == *key {
                return Some(i);
            }
            i = i + 1;
        }
        None
    }

    /// Whether `url` is registered.
    pub fn contains(&self, url: &str) -> (b: bool)
        ensures
            b == self@.contains(url@),
    {
        let key: String = url.to_owned();
        self.position(&key).is_some()
    }

    /// The number of registered endpoints.
    pub fn len(&self) -> (n: usize)
        requires
            self.wf(),
        ensures
            n == self@.len(),
    {
        proof {
            self.lemma_cardinality();
        }
        self.endpoints.len()
    }

    /// Whether no endpoint is registered.
    pub fn is_empty(&self) -> (b: bool)
        requires
            self.wf(),
        ensures
            b == (self@ == Set::<Seq<char>>::empty()),
    {
        proof {
            self.lemma_cardinality();
            if self.names().len() > 0 {
                assert(self.names().contains(self.names()[0]));
            } else {
                assert(self@ =~= Set::<Seq<char>>::empty());
            }
        }
        self.endpoints.len() == 0
    }

    /// Adds `url`. Registering an address that is already present changes
    /// nothing. Returns whether the address was new.
    pub fn register(&mut self, url: String) -> (added: bool)
        requires
            old(self).wf(),
        ensures
            final(self).wf(),
            final(self)@ == old(self)@.insert(url@),
            added == !old(self)@.contains(url@),
            !added ==> *final(self) == *old(self),
    {
        match self.position(&url) {
            Some(_) => {
                assert(self@.insert(url@) =~= self@);
                false
            },
            None => {
                let ghost before = self.names();
                self.endpoints.push(url);
                proof {
                    assert(self.names() =~= before.push(url@));
                    before.lemma_push_to_set_commute(url@);
                    assert forall|i: int, j: int|
                        0 <= i < self.names().len() && 0 <= j < self.names().len() && i
                            != j implies self.names()[i] != self.names()[j] by {
                        if i < before.len() {
                            assert(before.contains(before[i]));
                        }
                        if j < before.len() {
                            assert(before.contains(before[j]));
                        }
                    }
                }
                true
            },
        }
    }

    /// Removes `url` if it is present. Unregistering an absent address
    /// changes nothing. Returns whether the address was present.
    pub fn unregister(&mut self, url: &str) -> (removed: bool)
        requires
            old(self).wf(),
        ensures
            final(self).wf(),
            final(self)@ == old(self)@.remove(url@),
            removed == old(self)@.contains(url@),
            !removed ==> *final(self) == *old(self),
    {
        let key: String = url.to_owned();
        match self.position(&key) {
            None => {
                assert(self@.remove(url@) =~= self@);
                false
            },
            Some(at) => {
                let ghost before = self.names();
                let _gone: String = self.endpoints.remove(at);
                proof {
                    let after = self.names();
                    assert(after =~= before.remove(at as int));
                    assert forall|s: Seq<char>| after.contains(s) <==> (before.contains(s) && s
                        != url@) by {
                        if after.contains(s) {
                            let k = choose|k: int| 0 <= k < after.len() && after[k] == s;
                            if k < at {
                                assert(before[k] == s);
                            } else {
                                assert(before[k + 1] == s);
                            }
                        }
                        if before.contains(s) && s != url@ {
                            let k = choose|k: int| 0 <= k < before.len() && before[k] == s;
                            if k < at {
                                assert(after[k] == s);
                            } else {
                                assert(after[k - 1] == s);
                            }
                        }
                    }
                    assert(after.to_set() =~= before.to_set().remove(url@));
                }
                true
            },
        }
    }

    /// An independent copy of the current members, one entry per endpoint.
    pub fn snapshot(&self) -> (members: Vec<String>)
        requires
            self.wf(),
        ensures
            texts(members@) == self.names(),
            texts(members@).no_duplicates(),
            texts(members@).to_set() == self@,
            members@.len() == self@.len(),
    {
        let mut members: Vec<String> = Vec::new();
        let mut i: usize = 0;
        while i < self.endpoints.len()
            invariant
                i <= self.endpoints@.len(),
                members@.len() == i,
                forall|j: int| 0 <= j < i ==> #[trigger] members@[j]@ == self.names()[j],
            decreases self.endpoints@.len() - i,
        {
            members.push(self.endpoints[i].clone());
            i = i + 1;
        }
        proof {
            self.lemma_cardinality();
            assert(texts(members@) =~= self.names());
        }
        members
    }
}

impl Default for FilterRegistry {
    /// An empty registry.
    fn default() -> (r: Self)
        ensures
            r.wf(),
            r@ == Set::<Seq<char>>::empty(),
    {
        FilterRegistry::new()
    }
}

/// Registering is idempotent: a second registration of the same address
/// changes nothing, so after two registrations into an empty registry
/// there is one member.
pub proof fn lemma_register_twice(members: Set<Seq<char>>, url: Seq<char>)
    ensures
        members.insert(url).insert(url) == members.insert(url),
        Set::<Seq<char>>::empty().insert(url).insert(url).len() == 1,
{
    assert(members.insert(url).insert(url) =~= members.insert(url));
    assert(Set::<Seq<char>>::empty().insert(url).insert(url) =~= Set::<Seq<char>>::empty().insert(
        url,
    ));
}

/// Unregistering an address that is no member changes nothing.
pub proof fn lemma_unregister_absent(members: Set<Seq<char>>, url: Seq<char>)
    requires
        !members.contains(url),
    ensures
        members.remove(url) == members,
{
    assert(members.remove(url) =~= members);
}

} // verus!
