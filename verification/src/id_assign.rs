//! Document-id assignment per (account, collection): freed ids are
//! recycled smallest-first, then fresh ids are handed out in order.

use vstd::prelude::*;

use crate::bitmaps::{
    rb_from_range, rb_is_empty, rb_max, rb_min, rb_of, rb_remove, rb_xor_assign,
};
use crate::collection::Collection;
use crate::document::{AccountId, DocumentId};
use crate::errors::StoreError;

verus! {

/// Cache key of one id assigner.
#[derive(Debug, Clone, Copy, Hash, PartialEq, Eq, Structural)]
pub struct IdCacheKey {
    pub account_id: AccountId,
    pub collection: Collection,
}

impl IdCacheKey {
    pub fn new(account_id: AccountId, collection: Collection) -> (r: Self)
        ensures
            r == (IdCacheKey { account_id, collection }),
    {
        IdCacheKey { account_id, collection }
    }

    /// Equality of cache keys by value.
    pub fn eq_key(&self, other: &IdCacheKey) -> (r: bool)
        ensures
            r == (*self == *other),
    {
        let r = self.account_id == other.account_id && crate::collection::collection_to_u8(
            self.collection,
        ) == crate::collection::collection_to_u8(other.collection);
        proof {
            if crate::collection::collection_key(self.collection)
                == crate::collection::collection_key(other.collection) {
                assert(self.collection == other.collection);
            }
        }
        r
    }
}

/// Assigns document ids for one (account, collection): the freed ids below
/// `next_id`, then `next_id` upward. The ghost sets record which ids were
/// used when the assigner was built and which it has handed out since.
pub struct IdAssigner {
    pub freed_ids: Option<roaring::RoaringBitmap>,
    pub next_id: DocumentId,
    pub initial_ids: Ghost<Set<u32>>,
    pub assigned_ids: Ghost<Set<u32>>,
}

impl IdAssigner {
    /// The set of ids currently free for recycling.
    pub open spec fn freed_set(self) -> Set<u32> {
        match self.freed_ids {
            Some(b) => rb_of(b),
            None => Set::empty(),
        }
    }

    /// Internal invariant: freed ids sit below `next_id` and are exactly
    /// the ids there that were neither initially used nor assigned since;
    /// nothing at or above `next_id` was ever used or assigned.
    pub open spec fn wf(self) -> bool {
        &&& (self.freed_ids matches Some(b) ==> rb_of(b) != Set::<u32>::empty() && rb_of(
            b,
        ).finite())
        &&& forall|x: u32| self.freed_set().contains(x) ==> x < self.next_id
        &&& forall|x: u32|
            x < self.next_id ==> ((#[trigger] self.freed_set().contains(x)) == !(
            self.initial_ids@.contains(x) || self.assigned_ids@.contains(x)))
        &&& forall|x: u32|
            x >= self.next_id ==> !(#[trigger] self.initial_ids@.contains(x))
                && !self.assigned_ids@.contains(x)
    }

    /// Whether another id can still be handed out.
    pub open spec fn can_assign(self) -> bool {
        self.freed_ids is Some || self.next_id < u32::MAX
    }

    /// Builds an assigner from the current document-id bitmap:
    /// `next_id` is one past the largest used id, and the freed set holds
    /// every unused id below it.
    pub fn new(used_ids: Option<roaring::RoaringBitmap>) -> (r: IdAssigner)
        requires
            used_ids matches Some(b) ==> rb_of(b) != Set::<u32>::empty() && rb_of(b).finite()
                && !rb_of(b).contains(u32::MAX),
        ensures
            r.wf(),
            r.assigned_ids@ == Set::<u32>::empty(),
            match used_ids {
                Some(b) => {
                    &&& r.initial_ids@ == rb_of(b)
                    &&& rb_of(b).contains((r.next_id - 1) as u32)
                    &&& forall|x: u32| rb_of(b).contains(x) ==> x < r.next_id
                },
                None => r.initial_ids@ == Set::<u32>::empty() && r.next_id == 0
                    && r.freed_ids is None,
            },
    {
        match used_ids {
            Some(used) => {
                let max = rb_max(&used).unwrap();
                let next_id = max + 1;
                let mut freed = rb_from_range(next_id);
                rb_xor_assign(&mut freed, &used);
                proof {
                    assert(rb_of(freed) =~= Set::new(|x: u32| x < next_id).difference(
                        rb_of(used),
                    ));
                }
                let freed_ids = if !rb_is_empty(&freed) {
                    Some(freed)
                } else {
                    None
                };
                let r = IdAssigner {
                    freed_ids,
                    next_id,
                    initial_ids: Ghost(rb_of(used)),
                    assigned_ids: Ghost(Set::empty()),
                };
                r
            },
            None => IdAssigner {
                freed_ids: None,
                next_id: 0,
                initial_ids: Ghost(Set::empty()),
                assigned_ids: Ghost(Set::empty()),
            },
        }
    }

    /// Hands out the next id: the smallest freed id if any is left, else
    /// the next fresh one. The returned id was never in the initial bitmap
    /// nor returned before in this assigner's lifetime.
    pub fn assign_document_id(&mut self) -> (id: DocumentId)
        requires
            old(self).wf(),
            old(self).can_assign(),
        ensures
            final(self).wf(),
            !old(self).initial_ids@.contains(id),
            !old(self).assigned_ids@.contains(id),
            final(self).initial_ids@ == old(self).initial_ids@,
            final(self).assigned_ids@ == old(self).assigned_ids@.insert(id),
            match old(self).freed_ids {
                Some(b) => rb_of(b).contains(id) && (forall|x: u32|
                    rb_of(b).contains(x) ==> id <= x) && final(self).next_id == old(self).next_id
                    && final(self).freed_set() == rb_of(b).remove(id),
                None => id == old(self).next_id && final(self).next_id == old(self).next_id + 1
                    && final(self).freed_ids is None,
            },
    {
        if self.freed_ids.is_some() {
            let mut freed = self.freed_ids.take().unwrap();
            let ghost f0 = rb_of(freed);
            let id = rb_min(&freed).unwrap();
            proof {
                assert(old(self).freed_set() == f0);
                assert(old(self).freed_set().contains(id));
                assert(id < old(self).next_id);
                assert(!old(self).initial_ids@.contains(id));
                assert(!old(self).assigned_ids@.contains(id));
            }
            rb_remove(&mut freed, id);
            if !rb_is_empty(&freed) {
                self.freed_ids = Some(freed);
            }
            proof {
                self.assigned_ids@ = self.assigned_ids@.insert(id);
            }
            proof {
                assert(self.freed_set() =~= old(self).freed_set().remove(id));
                assert(self.next_id == old(self).next_id);
                assert forall|x: u32| x < self.next_id implies ((
                #[trigger] self.freed_set().contains(x)) == !(self.initial_ids@.contains(x)
                    || self.assigned_ids@.contains(x))) by {
                    assert(old(self).freed_set().contains(x) == !(old(
                        self,
                    ).initial_ids@.contains(x) || old(self).assigned_ids@.contains(x)));
                }
                assert forall|x: u32| self.freed_set().contains(x) implies x < self.next_id by {
                    assert(old(self).freed_set().contains(x));
                }
                assert forall|x: u32| x >= self.next_id implies !(
                #[trigger] self.initial_ids@.contains(x)) && !self.assigned_ids@.contains(x) by {
                    assert(!old(self).initial_ids@.contains(x));
                    assert(!old(self).assigned_ids@.contains(x));
                }
            }
            id
        } else {
            let id = self.next_id;
            self.next_id = self.next_id + 1;
            proof {
                self.assigned_ids@ = self.assigned_ids@.insert(id);
            }
            proof {
                assert(self.freed_set() =~= Set::<u32>::empty());
                assert forall|x: u32| x < self.next_id implies ((
                #[trigger] self.freed_set().contains(x)) == !(self.initial_ids@.contains(x)
                    || self.assigned_ids@.contains(x))) by {
                    if x < old(self).next_id {
                        assert(old(self).freed_set().contains(x) == !(old(
                            self,
                        ).initial_ids@.contains(x) || old(self).assigned_ids@.contains(x)));
                    }
                }
                assert forall|x: u32| x >= self.next_id implies !(
                #[trigger] self.initial_ids@.contains(x)) && !self.assigned_ids@.contains(x) by {
                    assert(!old(self).initial_ids@.contains(x));
                    assert(!old(self).assigned_ids@.contains(x));
                }
            }
            id
        }
    }
}

/// The store facade that caches one id assigner per (account, collection).
pub struct JMAPStore {
    pub id_assigner: Vec<(IdCacheKey, IdAssigner)>,
}

/// The cached assigner of a key, if one was built.
pub open spec fn find_assigner(s: Seq<(IdCacheKey, IdAssigner)>, key: IdCacheKey) -> Option<
    IdAssigner,
> {
    if exists|i: int| 0 <= i < s.len() && (#[trigger] s[i]).0 == key {
        Some(s[choose|i: int| 0 <= i < s.len() && (#[trigger] s[i]).0 == key].1)
    } else {
        None
    }
}

impl JMAPStore {
    pub open spec fn wf(self) -> bool {
        &&& forall|i: int, j: int|
            0 <= i < j < self.id_assigner@.len() ==> (#[trigger] self.id_assigner@[i]).0 != (
            #[trigger] self.id_assigner@[j]).0
        &&& forall|i: int|
            0 <= i < self.id_assigner@.len() ==> (#[trigger] self.id_assigner@[i]).1.wf()
    }

    pub fn new() -> (r: JMAPStore)
        ensures
            r.wf(),
            r.id_assigner@.len() == 0,
    {
        JMAPStore { id_assigner: Vec::new() }
    }

    /// Assigns a document id for (account, collection). On the first call
    /// for a key the assigner is initialized from `used_ids`, the current
    /// document-id bitmap of that collection; later calls ignore
    /// `used_ids` and continue the cached session. Fails only when the id
    /// space of the collection is exhausted.
    pub fn assign_document_id(
        &mut self,
        account_id: AccountId,
        collection: Collection,
        used_ids: Option<roaring::RoaringBitmap>,
    ) -> (r: Result<DocumentId, StoreError>)
        requires
            old(self).wf(),
            used_ids matches Some(b) ==> rb_of(b) != Set::<u32>::empty() && rb_of(b).finite()
                && !rb_of(b).contains(u32::MAX),
        ensures
            final(self).wf(),
            r matches Ok(id) ==> match find_assigner(
                old(self).id_assigner@,
                IdCacheKey { account_id, collection },
            ) {
                Some(a) => !a.initial_ids@.contains(id) && !a.assigned_ids@.contains(id),
                None => match used_ids {
                    Some(b) => !rb_of(b).contains(id),
                    None => id == 0,
                },
            },
            (r is Err) == match find_assigner(
                old(self).id_assigner@,
                IdCacheKey { account_id, collection },
            ) {
                Some(a) => !a.can_assign(),
                None => used_ids matches Some(b) && (forall|x: u32|
                    x < u32::MAX ==> rb_of(b).contains(x)),
            },
    {
        let key = IdCacheKey::new(account_id, collection);
        proof {
            assert(key == (IdCacheKey { account_id, collection }));
        }
        let mut i: usize = 0;
        while i < self.id_assigner.len()
            invariant
                0 <= i <= self.id_assigner@.len(),
                self == old(self),
                old(self).wf(),
                key == (IdCacheKey { account_id, collection }),
                forall|j: int|
                    0 <= j < i ==> (#[trigger] self.id_assigner@[j]).0 != (IdCacheKey {
                        account_id,
                        collection,
                    }),
            decreases self.id_assigner@.len() - i,
        {
            let entry_key = self.id_assigner[i].0;
            proof {
                assert(entry_key == self.id_assigner@[i as int].0);
            }
            if entry_key.eq_key(&key) {
                proof {
                    let s = self.id_assigner@;
                    let k = choose|k: int| 0 <= k < s.len() && (#[trigger] s[k]).0 == key;
                    if k < i as int {
                        assert(s[k].0 != s[i as int].0);
                    } else if k > i as int {
                        assert(s[i as int].0 != s[k].0);
                    }
                    assert(find_assigner(s, key) == Some(s[i as int].1));
                }
                let ghost pre = self.id_assigner@[i as int].1;
                let can = self.id_assigner[i].1.freed_ids.is_some() || self.id_assigner[i].1.next_id
                    < u32::MAX;
                if !can {
                    return Err(StoreError::InternalError);
                }
                let id = self.id_assigner[i].1.assign_document_id();
                proof {
                    assert forall|a: int, b: int|
                        0 <= a < b < self.id_assigner@.len() implies (
                    #[trigger] self.id_assigner@[a]).0 != (#[trigger] self.id_assigner@[b]).0 by {
                        assert(self.id_assigner@[a].0 == old(self).id_assigner@[a].0);
                        assert(self.id_assigner@[b].0 == old(self).id_assigner@[b].0);
                    }
                    assert forall|a: int|
                        0 <= a < self.id_assigner@.len() implies (
                    #[trigger] self.id_assigner@[a]).1.wf() by {
                        if a != i as int {
                            assert(self.id_assigner@[a] == old(self).id_assigner@[a]);
                        }
                    }
                }
                proof {
                    assert(find_assigner(
                        old(self).id_assigner@,
                        IdCacheKey { account_id, collection },
                    ) == Some(pre));
                    assert(!pre.initial_ids@.contains(id));
                    assert(!pre.assigned_ids@.contains(id));
                }
                return Ok(id);
            }
            proof {
                assert(!(entry_key == key));
                assert(self.id_assigner@[i as int].0 != (IdCacheKey { account_id, collection }));
            }
            i = i + 1;
        }
        proof {
            assert(find_assigner(old(self).id_assigner@, IdCacheKey { account_id, collection })
                is None) by {
                if exists|k: int|
                    0 <= k < old(self).id_assigner@.len() && (#[trigger] old(
                        self,
                    ).id_assigner@[k]).0 == key {
                    let k = choose|k: int|
                        0 <= k < old(self).id_assigner@.len() && (#[trigger] old(
                            self,
                        ).id_assigner@[k]).0 == key;
                }
            }
        }
        let ghost used0 = used_ids;
        let mut assigner = IdAssigner::new(used_ids);
        let can = assigner.freed_ids.is_some() || assigner.next_id < u32::MAX;
        proof {
            // the fresh assigner is exhausted exactly when every id below
            // the ceiling was already used
            match used0 {
                Some(b) => {
                    if !can {
                        assert forall|x: u32| x < u32::MAX implies rb_of(b).contains(x) by {
                            assert(!assigner.freed_set().contains(x));
                        }
                    } else {
                        if forall|x: u32| x < u32::MAX ==> rb_of(b).contains(x) {
                            assert(assigner.next_id == u32::MAX) by {
                                if assigner.next_id < u32::MAX {
                                    assert(rb_of(b).contains(assigner.next_id));
                                }
                            }
                            assert(assigner.freed_set() =~= Set::<u32>::empty()) by {
                                assert forall|x: u32| !assigner.freed_set().contains(x) by {
                                    if assigner.freed_set().contains(x) {
                                        assert(x < assigner.next_id);
                                        assert(rb_of(b).contains(x));
                                    }
                                }
                            }
                            assert(!(assigner.freed_ids is Some));
                        }
                    }
                },
                None => {
                    assert(can);
                },
            }
        }
        if !can {
            return Err(StoreError::InternalError);
        }
        let id = assigner.assign_document_id();
        self.id_assigner.push((key, assigner));
        proof {
            assert forall|a: int, b: int|
                0 <= a < b < self.id_assigner@.len() implies (
            #[trigger] self.id_assigner@[a]).0 != (#[trigger] self.id_assigner@[b]).0 by {
                if b < self.id_assigner@.len() - 1 {
                } else {
                    assert(self.id_assigner@[a].0 != key);
                }
            }
        }
        Ok(id)
    }
}

} // verus!
