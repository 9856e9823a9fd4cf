//! A set of artifact mappings, kept as a list in which nothing occurs twice.

use vstd::prelude::*;
use crate::model::ArtifactMapping;
use crate::model::MappingView;

verus! {

/// The views of a list of mappings.
pub open spec fn mapping_views(list: Seq<ArtifactMapping>) -> Seq<MappingView> {
    list.map_values(|m: ArtifactMapping| m@)
}

/// Mappings to publish; an identical pair is held once.
#[derive(Clone, Debug)]
pub struct ArtifactSet {
    items: Vec<ArtifactMapping>,
}

impl ArtifactSet {
    /// The mappings held, in the order in which they were first inserted.
    pub closed spec fn listed(&self) -> Seq<MappingView> {
        mapping_views(self.items@)
    }

    /// No mapping is listed twice.
    pub open spec fn wf(&self) -> bool {
        self.listed().no_duplicates()
    }

    /// The mappings held, as a set.
    pub open spec fn view(&self) -> Set<MappingView> {
        self.listed().to_set()
    }

    /// The empty set.
    pub fn new() -> (s: Self)
        ensures
            s.wf(),
            s@ == Set::<MappingView>::empty(),
            s.listed() == Seq::<MappingView>::empty(),
    {
        let s = ArtifactSet { items: Vec::new() };
        assert(s.listed() =~= Seq::<MappingView>::empty());
        assert(s@ =~= Set::<MappingView>::empty());
        s
    }

    /// How many mappings are held.
    pub fn len(&self) -> (n: usize)
        ensures
            n == self.listed().len(),
            self.wf() ==> n == self@.len(),
    {
        proof {
            if self.wf() {
                self.listed().unique_seq_to_set();
            }
        }
        self.items.len()
    }

    /// Whether an identical mapping is held.
    pub fn contains(&self, mapping: &ArtifactMapping) -> (b: bool)
        ensures
            b == self@.contains(mapping@),
    {
        let mut i: usize = 0;
        while i < self.items.len()
            invariant
                i <= self.items.len(),
                forall|k: int| 0 <= k < i ==> self.listed()[k] != mapping@,
            decreases self.items.len() - i,
        {
            let held = &self.items[i];
            if held.local_file == mapping.local_file
                && held.root_relative_target_dir == mapping.root_relative_target_dir {
                assert(self.listed()[i as int] == mapping@);
                return true;
            }
            i += 1;
        }
        false
    }

    /// Adds a mapping unless an identical one is held; says whether it was new.
    pub fn insert(&mut self, mapping: ArtifactMapping) -> (fresh: bool)
        requires
            old(self).wf(),
        ensures
            final(self).wf(),
            final(self)@ == old(self)@.insert(mapping@),
            fresh == !old(self)@.contains(mapping@),
            final(self).listed() == if fresh {
                old(self).listed().push(mapping@)
            } else {
                old(self).listed()
            },
    {
        if self.contains(&mapping) {
            assert(self@ =~= self@.insert(mapping@));
            false
        } else {
            let ghost before = self.listed();
            self.items.push(mapping);
            assert(self.listed() =~= before.push(mapping@));
            assert(self@ =~= before.to_set().insert(mapping@)) by {
                assert forall|m: MappingView| self@.contains(m) <==> before.to_set().insert(
                    mapping@,
                ).contains(m) by {
                    if before.contains(m) {
                        let k = choose|k: int| 0 <= k < before.len() && before[k] == m;
                        assert(self.listed()[k] == m);
                    }
                    if m == mapping@ {
                        assert(self.listed()[before.len() as int] == m);
                    }
                }
            }
            true
        }
    }

    /// The mappings as a list without repetition.
    pub fn to_vec(self) -> (list: Vec<ArtifactMapping>)
        ensures
            mapping_views(list@) == self.listed(),
    {
        self.items
    }
}

} // verus!
