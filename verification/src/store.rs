//! The ordered collection of pods, keyed by identifier.

use indexmap::IndexMap;
use vstd::prelude::*;

use crate::model::{
    distinct, has_id, ids, index_of, lemma_index_of, lemma_removed_distinct,
    lemma_update_at_distinct, lemma_upserted_distinct, removed, upserted,
};
use crate::ordered_map::{
    entries, map_get_index, map_get_index_of, map_insert_full, map_len, map_new, map_set_index,
    map_shift_remove_full,
};
use crate::pod::{Pod, PodReport, PodView};

verus! {

/// An ordered collection of pods in which no identifier occurs twice. A pod
/// keeps the place at which it was inserted; removing one moves those after
/// it up by one.
#[derive(Debug)]
pub struct PodStore {
    map: IndexMap<String, Pod>,
}

/// The pods of the map's pairs, in order.
spec fn values(pairs: Seq<(Seq<char>, Pod)>) -> Seq<PodView> {
    pairs.map_values(|e: (Seq<char>, Pod)| e.1@)
}

/// Every pair's key is the identifier of its pod.
spec fn keyed(pairs: Seq<(Seq<char>, Pod)>) -> bool {
    forall|i: int| 0 <= i < pairs.len() ==> (#[trigger] pairs[i]).0 == pairs[i].1.id@
}

/// The identifiers of `names`, each by its characters.
pub open spec fn names_view(names: Seq<String>) -> Seq<Seq<char>> {
    names.map_values(|s: String| s@)
}

impl View for PodStore {
    type V = Seq<PodView>;

    closed spec fn view(&self) -> Seq<PodView> {
        values(entries(self.map))
    }
}

impl Default for PodStore {
    /// An empty store, as [`PodStore::new`] makes it.
    fn default() -> (store: PodStore)
        ensures
            store.wf(),
            store@ == Seq::<PodView>::empty(),
    {
        PodStore::new()
    }
}

impl PodStore {
    /// The store's invariant: each pod is filed under its own identifier, and
    /// no identifier occurs twice.
    pub closed spec fn wf(&self) -> bool {
        keyed(entries(self.map)) && distinct(self@)
    }

    /// A well-formed store holds no identifier twice.
    pub proof fn lemma_wf_distinct(&self)
        requires
            self.wf(),
        ensures
            distinct(self@),
    {
    }

    /// An empty store.
    pub fn new() -> (store: PodStore)
        ensures
            store.wf(),
            store@ == Seq::<PodView>::empty(),
    {
        let store = PodStore { map: map_new() };
        proof {
            reveal(distinct);
        }
        store
    }

    /// The number of pods.
    pub fn len(&self) -> (n: usize)
        ensures
            n == self@.len(),
    {
        map_len(&self.map)
    }

    /// The pod at position `index`, if there is one.
    pub fn at(&self, index: usize) -> (found: Option<&Pod>)
        ensures
            match found {
                Some(pod) => index < self@.len() && pod@ == self@[index as int],
                None => index >= self@.len(),
            },
    {
        match map_get_index(&self.map, index) {
            Some((_, pod)) => Some(pod),
            None => None,
        }
    }

    /// The position of the pod `id`, if the store holds it.
    pub fn position(&self, id: &str) -> (found: Option<usize>)
        requires
            self.wf(),
        ensures
            match found {
                Some(index) => has_id(self@, id@) && index == index_of(self@, id@),
                None => !has_id(self@, id@),
            },
    {
        let found = map_get_index_of(&self.map, id);
        proof {
            match found {
                Some(index) => {
                    lemma_index_of(self@, index as int);
                },
                None => {
                    if has_id(self@, id@) {
                        let i = index_of(self@, id@);
                    }
                },
            }
        }
        found
    }

    /// The pod `id`, if the store holds it.
    pub fn get(&self, id: &str) -> (found: Option<&Pod>)
        requires
            self.wf(),
        ensures
            match found {
                Some(pod) => has_id(self@, id@) && pod@ == self@[index_of(self@, id@)],
                None => !has_id(self@, id@),
            },
    {
        match self.position(id) {
            Some(index) => self.at(index),
            None => None,
        }
    }

    /// The identifiers of the pods, in order.
    pub fn ids(&self) -> (names: Vec<String>)
        ensures
            names_view(names@) == ids(self@),
    {
        let mut names: Vec<String> = Vec::new();
        let n: usize = self.len();
        let mut i: usize = 0;
        while i < n
            invariant
                n == self@.len(),
                i <= n,
                names@.len() == i,
                forall|j: int| 0 <= j < i ==> (#[trigger] names@[j])@ == self@[j].id,
            decreases n - i,
        {
            match self.at(i) {
                Some(pod) => {
                    names.push(pod.id.clone());
                },
                None => {},
            }
            i = i + 1;
        }
        names
    }

    /// Applies the listing entry `report`: the pod it names takes the reported
    /// state in place, or, where the store has no such pod, a new pod is
    /// appended. Returns the pod's position and whether it is new.
    pub fn insert_or_update(&mut self, report: &PodReport) -> (done: (usize, bool))
        requires
            old(self).wf(),
            report.id.is_some(),
        ensures
            final(self).wf(),
            final(self)@ == upserted(old(self)@, report@),
            done.1 == !has_id(old(self)@, report@.id.unwrap()),
            done.0 == (if done.1 {
                old(self)@.len() as int
            } else {
                index_of(old(self)@, report@.id.unwrap())
            }),
    {
        proof {
            lemma_upserted_distinct(self@, report@);
        }
        let id: &String = match &report.id {
            Some(id) => id,
            None => {
                return (0, false);
            },
        };
        match self.position(id.as_str()) {
            Some(index) => {
                let updated = match self.at(index) {
                    Some(pod) => pod.update(report),
                    None => Pod::new(report),
                };
                map_set_index(&mut self.map, index, updated);
                assert(self@ =~= upserted(old(self)@, report@));
                (index, false)
            },
            None => {
                let n: usize = self.len();
                proof {
                    assert forall|j: int| 0 <= j < entries(self.map).len() implies entries(
                        self.map,
                    )[j].0 != id@ by {
                        assert(self@[j].id == entries(self.map)[j].0);
                    }
                }
                let _ = map_insert_full(&mut self.map, id.clone(), Pod::new(report));
                assert(self@ =~= upserted(old(self)@, report@));
                (n, true)
            },
        }
    }

    /// Takes the pod `id` out of the store and returns it with the position it
    /// had. The pods after it move up by one; a store without such a pod stays
    /// as it is.
    pub fn remove(&mut self, id: &str) -> (taken: Option<(usize, Pod)>)
        requires
            old(self).wf(),
        ensures
            final(self).wf(),
            final(self)@ == removed(old(self)@, id@),
            match taken {
                Some((index, pod)) => has_id(old(self)@, id@) && index == index_of(
                    old(self)@,
                    id@,
                ) && pod@ == old(self)@[index as int],
                None => !has_id(old(self)@, id@),
            },
    {
        proof {
            lemma_removed_distinct(self@, id@);
        }
        match map_shift_remove_full(&mut self.map, id) {
            Some((index, _, pod)) => {
                proof {
                    lemma_index_of(old(self)@, index as int);
                    assert(self@ =~= removed(old(self)@, id@));
                }
                Some((index, pod))
            },
            None => {
                proof {
                    if has_id(old(self)@, id@) {
                        let i = index_of(old(self)@, id@);
                    }
                }
                None
            },
        }
    }

    /// Sets the selection of the pod at position `index`.
    pub fn set_selected(&mut self, index: usize, selected: bool)
        requires
            old(self).wf(),
            index < old(self)@.len(),
        ensures
            final(self).wf(),
            final(self)@ == old(self)@.update(
                index as int,
                old(self)@[index as int].with_selected(selected),
            ),
    {
        let pod = match self.at(index) {
            Some(pod) => pod.select(selected),
            None => {
                return ;
            },
        };
        map_set_index(&mut self.map, index, pod);
        proof {
            assert(self@ =~= old(self)@.update(
                index as int,
                old(self)@[index as int].with_selected(selected),
            ));
            lemma_update_at_distinct(
                old(self)@,
                index as int,
                old(self)@[index as int].with_selected(selected),
            );
        }
    }
}

} // verus!
