//! The OUT side's set of already-paired IN identifiers.

use vstd::prelude::*;

use crate::ids::PeerId;

verus! {

/// The set of IN peers this OUT is already connected to.  `match_in`
/// skips announcements from these peers.
pub struct InIdSet {
    ids: Vec<PeerId>,
}

impl InIdSet {
    /// No identifier is stored twice.
    pub closed spec fn wf(&self) -> bool {
        forall|i: int, j: int|
            0 <= i < j < self.ids@.len() ==> self.ids@[i].value != self.ids@[j].value
    }

    /// The mathematical set of registered identifier values.
    pub closed spec fn view(&self) -> Set<u128> {
        Set::new(|v: u128| exists|i: int| 0 <= i < self.ids@.len() && self.ids@[i].value == v)
    }

    /// An empty set.
    pub fn new() -> (r: Self)
        ensures
            r.wf(),
            r@ == Set::<u128>::empty(),
    {
        let r = InIdSet { ids: Vec::new() };
        proof {
            assert(r@ =~= Set::<u128>::empty());
        }
        r
    }

    /// Whether `id` is registered.
    pub fn contains(&self, id: PeerId) -> (b: bool)
        ensures
            b == self@.contains(id.value),
    {
        let mut i: usize = 0;
        while i < self.ids.len()
            invariant
                i <= self.ids@.len(),
                forall|k: int| 0 <= k < i ==> self.ids@[k].value != id.value,
            decreases self.ids@.len() - i,
        {
            if self.ids[i].value == id.value {
                return true;
            }
            i = i + 1;
        }
        proof {
            assert(!self@.contains(id.value));
        }
        false
    }

    /// Registers `id`; a second registration changes nothing.
    pub fn register_in(&mut self, id: PeerId)
        requires
            old(self).wf(),
        ensures
            final(self).wf(),
            final(self)@ == old(self)@.insert(id.value),
    {
        if !self.contains(id) {
            self.ids.push(id);
            proof {
                assert(self@ =~= old(self)@.insert(id.value)) by {
                    assert(forall|v: u128|
                        old(self)@.contains(v) ==> #[trigger] self@.contains(v)) by {
                        assert(forall|k: int|
                            0 <= k < old(self).ids@.len() ==> self.ids@[k] == old(self).ids@[k]);
                    }
                    assert(self@.contains(id.value)) by {
                        assert(self.ids@[old(self).ids@.len() as int].value == id.value);
                    }
                    assert(forall|v: u128|
                        #[trigger] self@.contains(v) ==> v == id.value || old(self)@.contains(v));
                }
            }
        } else {
            proof {
                assert(self@ =~= old(self)@.insert(id.value));
            }
        }
    }

    /// Unregisters `id`; absent identifiers are left alone.
    pub fn unregister_in(&mut self, id: PeerId)
        requires
            old(self).wf(),
        ensures
            final(self).wf(),
            final(self)@ == old(self)@.remove(id.value),
    {
        let mut i: usize = 0;
        while i < self.ids.len()
            invariant
                old(self).wf(),
                *self == *old(self),
                i <= self.ids@.len(),
                forall|k: int| 0 <= k < i ==> self.ids@[k].value != id.value,
            decreases self.ids@.len() - i,
        {
            if self.ids[i].value == id.value {
                let last = self.ids.len() - 1;
                self.ids.swap_remove(i);
                proof {
                    assert(self.wf()) by {
                        assert(forall|k: int|
                            0 <= k < self.ids@.len() ==> #[trigger] self.ids@[k] == (if k == i {
                                old(self).ids@[last as int]
                            } else {
                                old(self).ids@[k]
                            }));
                    }
                    assert(self@ =~= old(self)@.remove(id.value)) by {
                        assert(forall|k: int|
                            0 <= k < self.ids@.len() ==> (#[trigger] self.ids@[k]
                                == old(self).ids@[k as int] || self.ids@[k]
                                == old(self).ids@[last as int]));
                        assert(forall|v: u128|
                            #[trigger] self@.contains(v) ==> old(self)@.contains(v) && v
                                != id.value);
                        assert(forall|v: u128|
                            old(self)@.contains(v) && v != id.value ==> #[trigger] self@.contains(
                                v,
                            )) by {
                            assert forall|v: u128|
                                old(self)@.contains(v) && v != id.value implies #[trigger] self@
                                .contains(v) by {
                                let k = choose|k: int|
                                    0 <= k < old(self).ids@.len() && old(self).ids@[k].value == v;
                                if k == i {
                                    assert(false);
                                } else if k == last {
                                    assert(self.ids@[i as int].value == v);
                                } else {
                                    assert(self.ids@[k].value == v);
                                }
                            }
                        }
                    }
                }
                return ;
            }
            i = i + 1;
        }
        proof {
            assert(!old(self)@.contains(id.value));
            assert(self@ =~= old(self)@.remove(id.value));
        }
    }
}

} // verus!
