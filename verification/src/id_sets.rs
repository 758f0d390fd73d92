//! Ordered sets of resource and column identities, walked in ascending
//! identity order as ordered sets of them are.
use vstd::prelude::*;
use crate::identity::{ColumnId, ResourceId};

verus! {

/// Column identities are ordered by resource, then by ordinal.
pub open spec fn column_lt(a: ColumnId, b: ColumnId) -> bool {
    a.resource_spec()@ < b.resource_spec()@ || (a.resource_spec()@ == b.resource_spec()@
        && a.ordinal_spec() < b.ordinal_spec())
}

pub(crate) fn column_less(a: ColumnId, b: ColumnId) -> (r: bool)
    ensures
        r == column_lt(a, b),
{
    let ra = a.resource().get();
    let rb = b.resource().get();
    ra < rb || (ra == rb && a.ordinal() < b.ordinal())
}

pub proof fn lemma_column_order(a: ColumnId, b: ColumnId)
    ensures
        !column_lt(a, b) && !column_lt(b, a) ==> a == b,
        column_lt(a, b) ==> a != b,
{
    ColumnId::lemma_identity(a, b);
    ResourceId::lemma_view_injective(a.resource_spec(), b.resource_spec());
}

pub proof fn lemma_column_lt_transitive(a: ColumnId, b: ColumnId, c: ColumnId)
    requires
        column_lt(a, b),
        column_lt(b, c),
    ensures
        column_lt(a, c),
{
}

/// A set of column identities.
#[derive(Debug, PartialEq, Eq)]
pub struct ColumnSet {
    items: Vec<ColumnId>,
}

impl Clone for ColumnSet {
    fn clone(&self) -> (r: Self)
        ensures
            r.members() == self.members(),
    {
        proof {
            use_type_invariant(self);
        }
        ColumnSet { items: self.items.clone() }
    }
}

impl ColumnSet {
    #[verifier::type_invariant]
    closed spec fn ordered(self) -> bool {
        forall|i: int, j: int|
            0 <= i < j < self.items@.len() ==> column_lt(
                #[trigger] self.items@[i],
                #[trigger] self.items@[j],
            )
    }

    /// The members in ascending order.
    pub closed spec fn members(&self) -> Seq<ColumnId> {
        self.items@
    }

    pub open spec fn has(&self, c: ColumnId) -> bool {
        self.members().contains(c)
    }

    pub fn new() -> (r: Self)
        ensures
            r.members() == Seq::<ColumnId>::empty(),
    {
        ColumnSet { items: Vec::new() }
    }

    pub fn len(&self) -> (r: usize)
        ensures
            r == self.members().len(),
    {
        self.items.len()
    }

    /// The member at position `i` in ascending order.
    pub fn at(&self, i: usize) -> (r: ColumnId)
        requires
            i < self.members().len(),
        ensures
            r == self.members()[i as int],
    {
        self.items[i]
    }

    /// The members ascend strictly.
    pub fn ascending(&self)
        ensures
            forall|i: int, j: int|
                0 <= i < j < self.members().len() ==> column_lt(
                    #[trigger] self.members()[i],
                    #[trigger] self.members()[j],
                ),
    {
        proof {
            use_type_invariant(self);
        }
    }

    /// The first position whose member is not below `c`.
    fn position(&self, c: ColumnId) -> (r: usize)
        ensures
            r <= self.members().len(),
            forall|i: int| 0 <= i < r ==> column_lt(#[trigger] self.members()[i], c),
            forall|i: int| r <= i < self.members().len() ==> !column_lt(#[trigger] self.members()[i], c),
    {
        proof {
            use_type_invariant(self);
        }
        let mut i: usize = 0;
        while i < self.items.len()
            invariant
                i <= self.items@.len(),
                forall|j: int| 0 <= j < i ==> column_lt(#[trigger] self.items@[j], c),
                forall|a: int, b: int|
                    0 <= a < b < self.items@.len() ==> column_lt(
                        #[trigger] self.items@[a],
                        #[trigger] self.items@[b],
                    ),
            decreases self.items.len() - i,
        {
            if !column_less(self.items[i], c) {
                proof {
                    assert forall|j: int| i <= j < self.items@.len() implies !column_lt(
                        #[trigger] self.items@[j],
                        c,
                    ) by {
                        if j > i {
                            assert(column_lt(self.items@[i as int], self.items@[j]));
                        }
                    }
                }
                return i;
            }
            i = i + 1;
        }
        i
    }

    pub fn contains(&self, c: ColumnId) -> (r: bool)
        ensures
            r == self.has(c),
    {
        let p = self.position(c);
        let r = p < self.items.len() && !column_less(c, self.items[p]);
        proof {
            if r {
                lemma_column_order(c, self.items@[p as int]);
            }
            if self.has(c) {
                let j = choose|j: int| 0 <= j < self.members().len() && self.members()[j] == c;
                lemma_column_order(c, c);
                if j >= p {
                    if j > p {
                        use_type_invariant(self);
                        assert(column_lt(self.items@[p as int], self.items@[j]));
                    }
                }
            }
        }
        r
    }

    /// Adds `c`; true when it was not a member before.
    pub fn insert(&mut self, c: ColumnId) -> (r: bool)
        ensures
            r == !old(self).has(c),
            forall|x: ColumnId| #[trigger] final(self).has(x) == (old(self).has(x) || x == c),
    {
        proof {
            use_type_invariant(&*self);
        }
        let present = self.contains(c);
        if present {
            return false;
        }
        let p = self.position(c);
        let ghost before = self.items@;
        let mut items: Vec<ColumnId> = Vec::new();
        std::mem::swap(&mut items, &mut self.items);
        items.insert(p, c);
        proof {
            assert(items@ =~= before.take(p as int).push(c) + before.skip(p as int));
            assert forall|a: int, b: int| 0 <= a < b < items@.len() implies column_lt(
                #[trigger] items@[a],
                #[trigger] items@[b],
            ) by {
                if b < p {
                } else if b == p {
                } else if a < p {
                    assert(!column_lt(before[b - 1], c));
                    lemma_column_order(c, before[b - 1]);
                    assert(column_lt(items@[a], c));
                } else if a == p {
                    assert(!column_lt(before[b - 1], c));
                    lemma_column_order(c, before[b - 1]);
                } else {
                    assert(column_lt(before[a - 1], before[b - 1]));
                }
            }
            assert forall|x: ColumnId| #[trigger] items@.contains(x) == (before.contains(x) || x == c) by {
                if items@.contains(x) {
                    let j = choose|j: int| 0 <= j < items@.len() && items@[j] == x;
                    if j < p {
                        assert(before[j] == x);
                    } else if j > p {
                        assert(before[j - 1] == x);
                    }
                }
                if before.contains(x) {
                    let j = choose|j: int| 0 <= j < before.len() && before[j] == x;
                    if j < p {
                        assert(items@[j] == x);
                    } else {
                        assert(items@[j + 1] == x);
                    }
                }
                if x == c {
                    assert(items@[p as int] == x);
                }
            }
        }
        self.items = items;
        true
    }
}

/// A set of resource identities.
#[derive(Debug, PartialEq, Eq)]
pub struct ResourceSet {
    items: Vec<ResourceId>,
}

impl Clone for ResourceSet {
    fn clone(&self) -> (r: Self)
        ensures
            r.members() == self.members(),
    {
        proof {
            use_type_invariant(self);
        }
        ResourceSet { items: self.items.clone() }
    }
}

impl ResourceSet {
    #[verifier::type_invariant]
    closed spec fn ordered(self) -> bool {
        forall|i: int, j: int|
            0 <= i < j < self.items@.len() ==> (#[trigger] self.items@[i])@
                < (#[trigger] self.items@[j])@
    }

    /// The members in ascending order.
    pub closed spec fn members(&self) -> Seq<ResourceId> {
        self.items@
    }

    pub open spec fn has(&self, r: ResourceId) -> bool {
        self.members().contains(r)
    }

    pub fn new() -> (r: Self)
        ensures
            r.members() == Seq::<ResourceId>::empty(),
    {
        ResourceSet { items: Vec::new() }
    }

    pub fn len(&self) -> (r: usize)
        ensures
            r == self.members().len(),
    {
        self.items.len()
    }

    /// The member at position `i` in ascending order.
    pub fn at(&self, i: usize) -> (r: ResourceId)
        requires
            i < self.members().len(),
        ensures
            r == self.members()[i as int],
    {
        self.items[i]
    }

    /// The members, ascending strictly.
    pub fn to_vec(&self) -> (r: Vec<ResourceId>)
        ensures
            r@ == self.members(),
            forall|i: int, j: int| 0 <= i < j < r@.len() ==> (#[trigger] r@[i])@ < (#[trigger] r@[j])@,
    {
        proof {
            use_type_invariant(self);
        }
        let mut out: Vec<ResourceId> = Vec::new();
        let mut i: usize = 0;
        while i < self.items.len()
            invariant
                i <= self.items@.len(),
                out@ == self.items@.take(i as int),
            decreases self.items.len() - i,
        {
            out.push(self.items[i]);
            assert(self.items@.take(i + 1) =~= self.items@.take(i as int).push(self.items@[i as int]));
            i = i + 1;
        }
        assert(self.items@.take(i as int) =~= self.items@);
        out
    }

    /// Adds `x`; true when it was not a member before.
    pub fn insert(&mut self, x: ResourceId) -> (r: bool)
        ensures
            r == !old(self).has(x),
            forall|y: ResourceId| #[trigger] final(self).has(y) == (old(self).has(y) || y == x),
    {
        proof {
            use_type_invariant(&*self);
        }
        let ghost before = self.items@;
        let key = x.get();
        let mut p: usize = 0;
        while p < self.items.len() && self.items[p].get() < key
            invariant
                p <= before.len(),
                self.items@ == before,
                forall|j: int| 0 <= j < p ==> (#[trigger] before[j])@ < key,
            decreases before.len() - p,
        {
            p = p + 1;
        }
        if p < self.items.len() && self.items[p].get() == key {
            proof {
                ResourceId::lemma_view_injective(before[p as int], x);
            }
            return false;
        }
        proof {
            assert forall|j: int| p <= j < before.len() implies (#[trigger] before[j])@ > key by {
                if j > p {
                    assert(before[p as int]@ < before[j]@);
                }
            }
            if before.contains(x) {
                let j = choose|j: int| 0 <= j < before.len() && before[j] == x;
            }
        }
        let mut items: Vec<ResourceId> = Vec::new();
        std::mem::swap(&mut items, &mut self.items);
        items.insert(p, x);
        proof {
            assert(items@ =~= before.take(p as int).push(x) + before.skip(p as int));
            assert forall|y: ResourceId| #[trigger] items@.contains(y) == (before.contains(y) || y == x) by {
                if items@.contains(y) {
                    let j = choose|j: int| 0 <= j < items@.len() && items@[j] == y;
                    if j < p {
                        assert(before[j] == y);
                    } else if j > p {
                        assert(before[j - 1] == y);
                    }
                }
                if before.contains(y) {
                    let j = choose|j: int| 0 <= j < before.len() && before[j] == y;
                    if j < p {
                        assert(items@[j] == y);
                    } else {
                        assert(items@[j + 1] == y);
                    }
                }
                if y == x {
                    assert(items@[p as int] == y);
                }
            }
        }
        self.items = items;
        true
    }
}

} // verus!
