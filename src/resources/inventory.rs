use vstd::prelude::*;

verus! {

/// Kinds of resource that an inventory counts.
#[derive(Clone, Copy, Debug, PartialEq, Eq, Hash, Structural)]
pub enum InventoryResource {
    Wheat,
}

/// Number of resource kinds, and so of slots in an inventory.
pub const RESOURCE_KINDS: usize = 1;

impl InventoryResource {
    /// The slot that holds this resource's amount.
    pub open spec fn slot(self) -> int {
        match self {
            InventoryResource::Wheat => 0,
        }
    }

    pub fn index(self) -> (r: usize)
        ensures
            r as int == self.slot(),
            r < RESOURCE_KINDS,
    {
        match self {
            InventoryResource::Wheat => 0,
        }
    }

    /// The resource held in slot `i`.
    pub open spec fn spec_at_slot(i: int) -> InventoryResource {
        InventoryResource::Wheat
    }

    pub fn at_slot(i: usize) -> (r: InventoryResource)
        requires
            i < RESOURCE_KINDS,
        ensures
            r == Self::spec_at_slot(i as int),
            r.slot() == i,
    {
        InventoryResource::Wheat
    }

    pub fn name(self) -> (r: &'static str)
        ensures
            self == InventoryResource::Wheat ==> r@ == "Wheat"@,
    {
        match self {
            InventoryResource::Wheat => "Wheat",
        }
    }
}

/// Slots are exactly the resources.
pub proof fn lemma_slot_range(r: InventoryResource)
    ensures
        0 <= r.slot() < RESOURCE_KINDS,
        InventoryResource::spec_at_slot(r.slot()) == r,
{
}

/// The amount in a slot, with an empty slot counting as zero.
pub open spec fn slot_amount(o: Option<i32>) -> int {
    match o {
        Some(a) => a as int,
        None => 0,
    }
}

/// Resource counters: one slot per resource kind, empty where the
/// resource has no entry.
pub struct Inventory {
    slots: Vec<Option<i32>>,
}

impl Inventory {
    pub open spec fn wf(&self) -> bool {
        self.slot_seq().len() == RESOURCE_KINDS
    }

    pub closed spec fn slot_seq(&self) -> Seq<Option<i32>> {
        self.slots@
    }

    /// The entries of the inventory: resource to amount.
    pub open spec fn view(&self) -> Map<InventoryResource, int> {
        Map::new(
            |r: InventoryResource| self.slot_seq()[r.slot()] is Some,
            |r: InventoryResource| slot_amount(self.slot_seq()[r.slot()]),
        )
    }

    /// The amount of `r`, zero where it has no entry.
    pub open spec fn held(&self, r: InventoryResource) -> int {
        if self@.contains_key(r) {
            self@[r]
        } else {
            0
        }
    }

    proof fn lemma_held(&self, r: InventoryResource)
        requires
            self.wf(),
        ensures
            self.held(r) == slot_amount(self.slots@[r.slot()]),
    {
    }

    pub fn new() -> (r: Inventory)
        ensures
            r.wf(),
            r@ == Map::<InventoryResource, int>::empty(),
    {
        let r = Inventory { slots: vec![None] };
        assert(r@ =~= Map::<InventoryResource, int>::empty());
        r
    }

    /// The amount of `resource`, zero where it has no entry.
    pub fn amount(&self, resource: InventoryResource) -> (r: i32)
        requires
            self.wf(),
        ensures
            r == self.held(resource),
    {
        match self.slots[resource.index()] {
            Some(a) => a,
            None => 0,
        }
    }

    pub fn add(&mut self, resource: InventoryResource, amount: i32)
        requires
            old(self).wf(),
            i32::MIN <= old(self).held(resource) + amount <= i32::MAX,
        ensures
            final(self).wf(),
            final(self)@ == old(self)@.insert(resource, old(self).held(resource) + amount),
    {
        let i = resource.index();
        let current = match self.slots[i] {
            Some(a) => a,
            None => 0,
        };
        self.slots.set(i, Some(current + amount));
        assert(self@ =~= old(self)@.insert(resource, old(self).held(resource) + amount));
    }

    /// Takes up to `amount` of `resource` out. Where the inventory holds at
    /// least `amount`, that much is taken and returned; otherwise the entry is
    /// removed and what it held is returned.
    pub fn remove(&mut self, resource: InventoryResource, amount: i32) -> (r: i32)
        requires
            old(self).wf(),
            old(self).held(resource) >= amount ==> old(self).held(resource) - amount <= i32::MAX,
        ensures
            final(self).wf(),
            old(self).held(resource) >= amount ==> r == amount && final(self)@ == old(self)@.insert(
                resource,
                old(self).held(resource) - amount,
            ),
            old(self).held(resource) < amount ==> r == old(self).held(resource) && final(self)@
                == old(self)@.remove(resource),
    {
        let i = resource.index();
        let current = match self.slots[i] {
            Some(a) => a,
            None => 0,
        };
        if current >= amount {
            self.slots.set(i, Some(current - amount));
            assert(self@ =~= old(self)@.insert(resource, old(self).held(resource) - amount));
            amount
        } else {
            self.slots.set(i, None);
            assert(self@ =~= old(self)@.remove(resource));
            current
        }
    }

    /// Moves everything `other` holds into this inventory and empties `other`.
    pub fn move_full_inventory_from(&mut self, other: &mut Inventory)
        requires
            old(self).wf(),
            old(other).wf(),
            forall|r: InventoryResource|
                i32::MIN <= #[trigger] old(self).held(r) + #[trigger] old(other).held(r) <= i32::MAX,
        ensures
            final(self).wf(),
            final(other).wf(),
            final(other)@ == Map::<InventoryResource, int>::empty(),
            final(self)@ == Map::new(
                |r: InventoryResource| old(self)@.contains_key(r) || old(other)@.contains_key(r),
                |r: InventoryResource| old(self).held(r) + old(other).held(r),
            ),
    {
        let mut i: usize = 0;
        while i < RESOURCE_KINDS
            invariant
                self.wf(),
                other.wf(),
                old(self).wf(),
                *other == *old(other),
                forall|r: InventoryResource|
                    i32::MIN <= #[trigger] old(self).held(r) + #[trigger] old(other).held(r) <= i32::MAX,
                i <= RESOURCE_KINDS,
                forall|j: int|
                    0 <= j < i ==> #[trigger] self.slots@[j] == (match (old(self).slots@[j], other.slots@[j]) {
                        (None, None) => None,
                        (a, b) => Some((slot_amount(a) + slot_amount(b)) as i32),
                    }),
                forall|j: int| i <= j < RESOURCE_KINDS ==> #[trigger] self.slots@[j] == old(self).slots@[j],
            decreases RESOURCE_KINDS - i,
        {
            if let Some(a) = other.slots[i] {
                let resource = InventoryResource::at_slot(i);
                let current = match self.slots[i] {
                    Some(c) => c,
                    None => 0,
                };
                proof {
                    old(self).lemma_held(resource);
                    old(other).lemma_held(resource);
                    assert(i32::MIN <= old(self).held(resource) + old(other).held(resource) <= i32::MAX);
                }
                self.slots.set(i, Some(current + a));
            }
            i = i + 1;
        }
        other.slots.set(0, None);
        let ghost want = Map::new(
            |r: InventoryResource| old(self)@.contains_key(r) || old(other)@.contains_key(r),
            |r: InventoryResource| old(self).held(r) + old(other).held(r),
        );
        assert forall|r: InventoryResource| #[trigger] self@.contains_key(r) == want.contains_key(r)
            && (want.contains_key(r) ==> self@[r] == want[r]) by {
            lemma_slot_range(r);
        }
        assert(self@ =~= want);
        assert(other@ =~= Map::<InventoryResource, int>::empty());
    }
}

} // verus!
