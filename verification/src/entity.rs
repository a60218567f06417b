use vstd::prelude::*;

verus! {

/// Hands out entity ids 1, 2, ..., `i32::MAX`, then starts again at 1.
pub struct EntityAllocator {
    next_id: i32,
}

/// The id handed out after `id`.
pub open spec fn next_after(id: i32) -> i32 {
    if id == i32::MAX {
        1
    } else {
        (id + 1) as i32
    }
}

/// The id that a fresh allocator hands out at its `k`-th allocation,
/// counting from zero.
pub open spec fn nth_allocation(k: nat) -> i32
    decreases k,
{
    if k == 0 {
        1
    } else {
        next_after(nth_allocation((k - 1) as nat))
    }
}

impl View for EntityAllocator {
    type V = i32;

    /// The id the next allocation hands out.
    closed spec fn view(&self) -> i32 {
        self.next_id
    }
}

impl EntityAllocator {
    pub fn new() -> (r: Self)
        ensures
            r@ == 1,
    {
        Self { next_id: 1 }
    }

    /// Hands out the next id.
    pub fn allocate(&mut self) -> (id: i32)
        ensures
            id == old(self)@,
            final(self)@ == next_after(old(self)@),
    {
        let id = self.next_id;
        self.next_id = if self.next_id == i32::MAX {
            1
        } else {
            self.next_id + 1
        };
        id
    }
}

/// Law: a fresh allocator hands out `k + 1` at its `k`-th allocation for
/// every `k` below `i32::MAX`, and 1 again at allocation `i32::MAX`.
pub proof fn lemma_allocation_sequence(k: nat)
    ensures
        k < i32::MAX ==> nth_allocation(k) == k + 1,
        k == i32::MAX ==> nth_allocation(k) == 1,
    decreases k,
{
    if k > 0 {
        lemma_allocation_sequence((k - 1) as nat);
    }
}

/// Law: a fresh allocator hands out `(k mod i32::MAX) + 1` at its `k`-th
/// allocation, counting from zero, for every `k`: always between 1 and
/// `i32::MAX`, going from `i32::MAX` back to 1.
pub proof fn lemma_allocation_cycle(k: nat)
    ensures
        nth_allocation(k) == (k % (i32::MAX as nat)) + 1,
    decreases k,
{
    let m = i32::MAX as nat;
    if k > 0 {
        lemma_allocation_cycle((k - 1) as nat);
        let r = ((k - 1) as nat) % m;
        if r == m - 1 {
            assert(k % m == 0) by (nonlinear_arith)
                requires
                    r == ((k - 1) as nat) % m,
                    r == m - 1,
                    m > 0,
                    k > 0,
            ;
        } else {
            assert(k % m == r + 1) by (nonlinear_arith)
                requires
                    r == ((k - 1) as nat) % m,
                    r < m - 1,
                    m > 0,
                    k > 0,
            ;
        }
    }
}

/// Law: any `i32::MAX` consecutive allocations of a fresh allocator are all
/// different.
pub proof fn lemma_allocations_distinct(j: nat, k: nat)
    requires
        j < k < j + i32::MAX,
    ensures
        nth_allocation(j) != nth_allocation(k),
{
    let m = i32::MAX as nat;
    lemma_allocation_cycle(j);
    lemma_allocation_cycle(k);
    assert(j % m != k % m) by (nonlinear_arith)
        requires
            j < k < j + m,
            m > 0,
    ;
}

/// A player's entity data.
#[derive(Debug, Clone, Copy, PartialEq, Eq, Structural)]
pub struct PlayerEntity {}

impl PlayerEntity {
    pub fn new() -> (r: Self)
        ensures
            r == (PlayerEntity {}),
    {
        PlayerEntity {}
    }
}

#[derive(Debug, Clone, Copy, PartialEq, Eq, Structural)]
pub enum EntityData {
    Player(PlayerEntity),
}

/// An entity in the world: its id and what kind of entity it is.
pub struct Entity {
    pub id: i32,
    pub data: EntityData,
}

impl Entity {
    /// An entity with the next id of `allocator`.
    pub fn new(allocator: &mut EntityAllocator, data: EntityData) -> (r: Self)
        ensures
            r.id == old(allocator)@,
            r.data == data,
            final(allocator)@ == next_after(old(allocator)@),
    {
        Self { id: allocator.allocate(), data }
    }
}

} // verus!
