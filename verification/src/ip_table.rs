//! A small table keyed by IP address: a map whose keys are compared by their bits.

use crate::addr::IpAddress;
use vstd::prelude::*;

verus! {

/// A finite map from IP addresses to values of type `V`.
pub struct IpTable<V> {
    keys: Vec<IpAddress>,
    values: Vec<V>,
}

impl<V> IpTable<V> {
    /// Every key stands once, beside its value.
    pub closed spec fn wf(&self) -> bool {
        &&& self.keys@.len() == self.values@.len()
        &&& self.keys@.no_duplicates()
    }

    /// The map that the table holds.
    pub closed spec fn view(&self) -> Map<IpAddress, V> {
        Map::new(
            |k: IpAddress| self.keys@.contains(k),
            |k: IpAddress| self.values@[self.keys@.index_of(k)],
        )
    }

    /// The number of keys.
    pub closed spec fn spec_len(&self) -> nat {
        self.keys@.len()
    }

    pub fn new() -> (r: IpTable<V>)
        ensures
            r.wf(),
            r@ == Map::<IpAddress, V>::empty(),
            r.spec_len() == 0,
    {
        let r = IpTable { keys: Vec::new(), values: Vec::new() };
        assert(r@ =~= Map::<IpAddress, V>::empty());
        r
    }

    pub fn len(&self) -> (r: usize)
        ensures
            r == self.spec_len(),
    {
        self.keys.len()
    }

    fn position(&self, key: IpAddress) -> (r: Option<usize>)
        requires
            self.wf(),
        ensures
            match r {
                Some(i) => i < self.keys@.len() && self.keys@[i as int] == key
                    && self.keys@.index_of(key) == i,
                None => !self.keys@.contains(key),
            },
    {
        let mut i: usize = 0;
        while i < self.keys.len()
            invariant
                self.wf(),
                i <= self.keys@.len(),
                forall|k: int| 0 <= k < i ==> self.keys@[k] != key,
            decreases self.keys@.len() - i,
        {
            if self.keys[i] == key {
                proof {
                    assert(self.keys@.contains(key));
                    let j = self.keys@.index_of(key);
                    assert(self.keys@[j] == key);
                    assert(j == i);
                }
                return Some(i);
            }
            i = i + 1;
        }
        None
    }

    /// Whether the table holds `key`.
    pub fn contains(&self, key: IpAddress) -> (r: bool)
        requires
            self.wf(),
        ensures
            r == self@.dom().contains(key),
    {
        self.position(key).is_some()
    }

    /// The value of `key`, if the table holds it.
    pub fn get(&self, key: IpAddress) -> (r: Option<&V>)
        requires
            self.wf(),
        ensures
            match r {
                Some(value) => self@.dom().contains(key) && self@[key] == *value,
                None => !self@.dom().contains(key),
            },
    {
        match self.position(key) {
            Some(i) => Some(&self.values[i]),
            None => None,
        }
    }

    /// Takes `key` and its value out of the table.
    pub fn take(&mut self, key: IpAddress) -> (r: Option<V>)
        requires
            old(self).wf(),
        ensures
            final(self).wf(),
            final(self)@ == old(self)@.remove(key),
            match r {
                Some(value) => old(self)@.dom().contains(key) && old(self)@[key] == value
                    && final(self).spec_len() + 1 == old(self).spec_len(),
                None => !old(self)@.dom().contains(key) && final(self).spec_len() == old(
                    self,
                ).spec_len(),
            },
    {
        match self.position(key) {
            Some(i) => {
                let ghost keys = self.keys@;
                let ghost values = self.values@;
                let _ = self.keys.remove(i);
                let value = self.values.remove(i);
                proof {
                    assert(self.keys@ =~= keys.remove(i as int));
                    assert(self.keys@.no_duplicates()) by {
                        assert forall|a: int, b: int|
                            0 <= a < self.keys@.len() && 0 <= b < self.keys@.len() && a
                                != b implies self.keys@[a] != self.keys@[b] by {
                            let a0 = if a < i {
                                a
                            } else {
                                a + 1
                            };
                            let b0 = if b < i {
                                b
                            } else {
                                b + 1
                            };
                            assert(keys[a0] != keys[b0]);
                        }
                    }
                    assert forall|k: IpAddress| #[trigger]
                        self.keys@.contains(k) <==> (keys.contains(k) && k != key) by {
                        if self.keys@.contains(k) {
                            let j = choose|j: int| 0 <= j < self.keys@.len() && self.keys@[j] == k;
                            let j0 = if j < i {
                                j
                            } else {
                                j + 1
                            };
                            assert(keys[j0] == k);
                        }
                        if keys.contains(k) && k != key {
                            let j = choose|j: int| 0 <= j < keys.len() && keys[j] == k;
                            let j1 = if j < i {
                                j
                            } else {
                                j - 1
                            };
                            assert(self.keys@[j1] == k);
                        }
                    }
                    assert forall|k: IpAddress| self.keys@.contains(k) implies self.values@[self.keys@.index_of(
                        k,
                    )] == values[keys.index_of(k)] by {
                        let j = self.keys@.index_of(k);
                        let j0 = if j < i {
                            j
                        } else {
                            j + 1
                        };
                        assert(keys[j0] == k);
                        assert(keys.index_of(k) == j0);
                    }
                    assert(self@ =~= old(self)@.remove(key));
                }
                Some(value)
            },
            None => {
                assert(self@ =~= old(self)@.remove(key));
                None
            },
        }
    }

    /// Sets the value of `key`.
    pub fn put(&mut self, key: IpAddress, value: V)
        requires
            old(self).wf(),
        ensures
            final(self).wf(),
            final(self)@ == old(self)@.insert(key, value),
            final(self).spec_len() == if old(self)@.dom().contains(key) {
                old(self).spec_len()
            } else {
                old(self).spec_len() + 1
            },
    {
        let _ = self.take(key);
        assert(!self@.dom().contains(key));
        assert(self@.dom().contains(key) == self.keys@.contains(key));
        let ghost keys = self.keys@;
        let ghost values = self.values@;
        let ghost before = self@;
        self.keys.push(key);
        self.values.push(value);
        proof {
            assert(!keys.contains(key));
            assert forall|k: IpAddress| #[trigger]
                self.keys@.contains(k) <==> (keys.contains(k) || k == key) by {
                if self.keys@.contains(k) {
                    let j = choose|j: int| 0 <= j < self.keys@.len() && self.keys@[j] == k;
                    if j < keys.len() {
                        assert(keys[j] == k);
                    }
                }
                if keys.contains(k) {
                    let j = choose|j: int| 0 <= j < keys.len() && keys[j] == k;
                    assert(self.keys@[j] == k);
                }
                if k == key {
                    assert(self.keys@[keys.len() as int] == k);
                }
            }
            assert forall|k: IpAddress| keys.contains(k) implies self.values@[self.keys@.index_of(k)]
                == values[keys.index_of(k)] by {
                let j = keys.index_of(k);
                assert(self.keys@[j] == k);
                assert(self.keys@.index_of(k) == j);
            }
            assert(self.keys@[keys.len() as int] == key);
            assert(self.keys@.index_of(key) == keys.len());
            assert(self@ =~= before.insert(key, value));
            assert(before.insert(key, value) =~= old(self)@.insert(key, value));
        }
    }

    /// Empties the table.
    pub fn clear(&mut self)
        ensures
            final(self).wf(),
            final(self)@ == Map::<IpAddress, V>::empty(),
            final(self).spec_len() == 0,
    {
        self.keys.clear();
        self.values.clear();
        assert(self@ =~= Map::<IpAddress, V>::empty());
    }
}

} // verus!
