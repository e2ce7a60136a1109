//! A pool of allocators, cleared when given back, so that their storage
//! is reused.

use vstd::prelude::*;

use super::allocator::{AllocatorIdCounter, HtmlAllocator, MAX_ALLOCATIONS};
use super::meta::MetaDb;

verus! {

/// An allocator is taken back into the pool while it has had fewer
/// generations than this.
pub const MAX_REUSE_GENERATION: u8 = 20;

pub struct AllocatorPool {
    max_id: u32,
    metadb: Option<&'static MetaDb>,
    allocators: Vec<HtmlAllocator>,
    counter: AllocatorIdCounter,
}

impl AllocatorPool {
    pub closed spec fn spec_metadb(&self) -> Option<&'static MetaDb> {
        self.metadb
    }

    pub closed spec fn spec_max_id(&self) -> u32 {
        self.max_id
    }

    pub closed spec fn pooled(&self) -> Seq<HtmlAllocator> {
        self.allocators@
    }

    /// The allocator is empty, within its limits, and as the pool makes
    /// them.
    pub open spec fn fresh(&self, a: HtmlAllocator) -> bool {
        &&& a.wf()
        &&& a.nodes_view().len() == 0
        &&& a.atts_view().len() == 0
        &&& a.ids_view().len() == 0
        &&& a.metadb_view() == self.spec_metadb()
        &&& a.region().generation() <= MAX_REUSE_GENERATION
    }

    pub closed spec fn wf(&self) -> bool {
        &&& self.max_id <= MAX_ALLOCATIONS
        &&& self.counter.wf()
        &&& forall|i: int| 0 <= i < self.allocators@.len() ==> self.fresh(#[trigger] self.allocators@[i])
    }

    pub fn new_with_metadb(max_id: u32, metadb: Option<&'static MetaDb>) -> (r: AllocatorPool)
        requires
            max_id <= MAX_ALLOCATIONS,
        ensures
            r.wf(),
            r.spec_metadb() == metadb,
            r.spec_max_id() == max_id,
            r.pooled().len() == 0,
    {
        AllocatorPool { max_id, metadb, allocators: Vec::new(), counter: AllocatorIdCounter::new() }
    }

    /// An empty allocator: one given back earlier, or a new one.
    pub fn get(&mut self) -> (r: HtmlAllocator)
        requires
            old(self).wf(),
        ensures
            final(self).wf(),
            final(self).spec_metadb() == old(self).spec_metadb(),
            final(self).spec_max_id() == old(self).spec_max_id(),
            final(self).fresh(r),
            old(self).pooled().len() > 0 ==> final(self).pooled() == old(self).pooled().drop_last()
                && r == old(self).pooled().last(),
            old(self).pooled().len() == 0 ==> final(self).pooled().len() == 0
                && r.nodes_cap() == old(self).spec_max_id(),
    {
        match self.allocators.pop() {
            Some(a) => {
                assert(self.fresh(old(self).allocators@[old(self).allocators@.len() - 1]));
                a
            },
            None => HtmlAllocator::new_with_metadb(self.max_id, self.metadb, &mut self.counter),
        }
    }

    /// Takes `a` back, cleared, unless it has had many generations
    /// already (then its storage is dropped).
    pub fn put_back(&mut self, a: HtmlAllocator)
        requires
            old(self).wf(),
            a.wf(),
            a.metadb_view() == old(self).spec_metadb(),
        ensures
            final(self).wf(),
            final(self).spec_metadb() == old(self).spec_metadb(),
            final(self).spec_max_id() == old(self).spec_max_id(),
            a.region().generation() < MAX_REUSE_GENERATION ==> final(self).pooled().len()
                == old(self).pooled().len() + 1 && final(self).pooled().drop_last() == old(self).pooled()
                && final(self).pooled().last().region().generation() == a.region().generation() + 1,
            a.region().generation() >= MAX_REUSE_GENERATION ==> final(self).pooled() == old(self).pooled(),
    {
        let mut a = a;
        if a.regionid().generation_number() < MAX_REUSE_GENERATION {
            a.clear();
            self.allocators.push(a);
            assert(self.allocators@.drop_last() =~= old(self).allocators@);
        }
    }
}

} // verus!
