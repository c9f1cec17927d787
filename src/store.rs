use vstd::prelude::*;
use crate::order::{Order, OrderView, with_status};
use crate::status::{Status, advanced, reverted};

verus! {

/// Why a store operation did not take place.
#[derive(PartialEq, Eq, Structural, Clone, Copy, Debug)]
pub enum StoreError {
    /// An order with that tracking code is already stored.
    DuplicateKey,
    /// No order has that tracking code.
    NotFound,
}

/// Direction of an administrative status change.
#[derive(PartialEq, Eq, Structural, Clone, Copy, Debug)]
pub enum Step {
    Advance,
    Revert,
}

/// The status after one step, clamped at both ends.
pub open spec fn stepped(s: Status, d: Step) -> Status {
    match d {
        Step::Advance => advanced(s),
        Step::Revert => reverted(s),
    }
}

/// Some stored order has tracking code `id`.
pub open spec fn has_id(s: Seq<OrderView>, id: Seq<char>) -> bool {
    exists|i: int| 0 <= i < s.len() && #[trigger] s[i].id == id
}

/// No two stored orders share a tracking code.
pub open spec fn ids_unique(s: Seq<OrderView>) -> bool {
    forall|i: int, j: int|
        0 <= i < s.len() && 0 <= j < s.len() && i != j ==> #[trigger] s[i].id != #[trigger] s[j].id
}

/// An order as every stored order must be: a positive quantity and a non-empty name.
pub open spec fn valid_order(o: OrderView) -> bool {
    o.quantity > 0 && o.customer_name.len() > 0
}

/// Every stored order is valid.
pub open spec fn orders_valid(s: Seq<OrderView>) -> bool {
    forall|i: int| 0 <= i < s.len() ==> valid_order(#[trigger] s[i])
}

/// The orders after changing the status of the one at `i` by one step.
pub open spec fn step_at(s: Seq<OrderView>, i: int, d: Step) -> Seq<OrderView> {
    s.update(i, with_status(s[i], stepped(s[i].status, d)))
}

/// All orders, in insertion order, with tracking codes kept unique.
pub struct OrderStore {
    orders: Vec<Order>,
}

impl View for OrderStore {
    type V = Seq<OrderView>;

    closed spec fn view(&self) -> Seq<OrderView> {
        self.orders@.map_values(|o: Order| o@)
    }
}

impl OrderStore {
    /// The store's invariant: tracking codes are unique and every order is valid.
    pub open spec fn wf(&self) -> bool {
        ids_unique(self@) && orders_valid(self@)
    }

    /// An empty store.
    pub fn new() -> (r: OrderStore)
        ensures
            r.wf(),
            r@ == Seq::<OrderView>::empty(),
    {
        OrderStore { orders: Vec::new() }
    }

    /// Number of stored orders.
    pub fn len(&self) -> (r: usize)
        ensures
            r == self@.len(),
    {
        self.orders.len()
    }

    /// Position of the order with tracking code `id`, if any.
    pub fn position(&self, id: &str) -> (r: Option<usize>)
        requires
            self.wf(),
        ensures
            r matches Some(i) ==> i < self@.len() && self@[i as int].id == id@,
            r is None <==> !has_id(self@, id@),
    {
        let key = id.to_owned();
        let mut i: usize = 0;
        while i < self.orders.len()
            invariant
                i <= self.orders@.len(),
                key@ == id@,
                forall|k: int| 0 <= k < i ==> self@[k].id != id@,
            decreases self.orders@.len() - i,
        {
            if self.orders[i].id == key {
                assert(self@[i as int].id == id@);
                return Some(i);
            }
            i = i + 1;
        }
        None
    }

    /// Whether an order with tracking code `id` is stored.
    pub fn contains(&self, id: &str) -> (r: bool)
        requires
            self.wf(),
        ensures
            r == has_id(self@, id@),
    {
        self.position(id).is_some()
    }

    /// Stores a new order at the end; a tracking code already in use is refused.
    pub fn insert(&mut self, order: Order) -> (r: Result<(), StoreError>)
        requires
            old(self).wf(),
            valid_order(order@),
        ensures
            final(self).wf(),
            r is Ok <==> !has_id(old(self)@, order@.id),
            r is Ok ==> final(self)@ == old(self)@.push(order@),
            r is Err ==> r == Err::<(), StoreError>(StoreError::DuplicateKey) && final(self)@ == old(self)@,
    {
        if self.contains(order.id.as_str()) {
            return Err(StoreError::DuplicateKey);
        }
        let ghost before = self@;
        self.orders.push(order);
        proof {
            assert(self@ =~= before.push(order@));
            lemma_push_keeps_unique(before, order@);
            assert forall|k: int| 0 <= k < self@.len() implies valid_order(#[trigger] self@[k]) by {
                if k < before.len() {
                    assert(self@[k] == before[k]);
                }
            }
        }
        Ok(())
    }

    /// A copy of the order with tracking code `id`.
    pub fn get(&self, id: &str) -> (r: Result<Order, StoreError>)
        requires
            self.wf(),
        ensures
            r is Err <==> !has_id(self@, id@),
            r matches Err(e) ==> e == StoreError::NotFound,
            r matches Ok(o) ==> o@.id == id@ && exists|i: int| 0 <= i < self@.len() && self@[i] == o@,
    {
        match self.position(id) {
            Some(i) => Ok(self.orders[i].duplicate()),
            None => Err(StoreError::NotFound),
        }
    }

    /// All orders in insertion order.
    pub fn list_all(&self) -> (r: &Vec<Order>)
        ensures
            r@.map_values(|o: Order| o@) == self@,
    {
        &self.orders
    }

    /// Moves the status of order `id` one step; at either end the status stays as it is.
    /// Returns the new status.
    pub fn update_status(&mut self, id: &str, d: Step) -> (r: Result<Status, StoreError>)
        requires
            old(self).wf(),
        ensures
            final(self).wf(),
            r is Err <==> !has_id(old(self)@, id@),
            r matches Err(e) ==> e == StoreError::NotFound && final(self)@ == old(self)@,
            r matches Ok(s) ==> exists|i: int|
                0 <= i < old(self)@.len() && old(self)@[i].id == id@
                && s == stepped(old(self)@[i].status, d)
                && final(self)@ == step_at(old(self)@, i, d),
    {
        match self.position(id) {
            None => Err(StoreError::NotFound),
            Some(i) => {
                let ghost before = self@;
                let cur = self.orders[i].status;
                let next = match d {
                    Step::Advance => cur.advance(),
                    Step::Revert => cur.revert(),
                };
                let mut o = self.orders.remove(i);
                o.status = next;
                self.orders.insert(i, o);
                proof {
                    assert(self@ =~= step_at(before, i as int, d));
                    assert forall|a: int, b: int|
                        0 <= a < self@.len() && 0 <= b < self@.len() && a != b
                        implies #[trigger] self@[a].id != #[trigger] self@[b].id by {
                        assert(self@[a].id == before[a].id);
                        assert(self@[b].id == before[b].id);
                    }
                    assert forall|k: int| 0 <= k < self@.len() implies valid_order(#[trigger] self@[k]) by {
                        assert(self@[k].quantity == before[k].quantity);
                        assert(self@[k].customer_name == before[k].customer_name);
                    }
                }
                Ok(next)
            }
        }
    }

    /// Advances order `id` one stage (see `update_status`).
    pub fn advance(&mut self, id: &str) -> (r: Result<Status, StoreError>)
        requires
            old(self).wf(),
        ensures
            final(self).wf(),
            r is Err <==> !has_id(old(self)@, id@),
            r matches Err(e) ==> e == StoreError::NotFound && final(self)@ == old(self)@,
            r matches Ok(s) ==> exists|i: int|
                0 <= i < old(self)@.len() && old(self)@[i].id == id@
                && s == advanced(old(self)@[i].status)
                && final(self)@ == step_at(old(self)@, i, Step::Advance),
    {
        self.update_status(id, Step::Advance)
    }

    /// Reverts order `id` one stage (see `update_status`).
    pub fn revert(&mut self, id: &str) -> (r: Result<Status, StoreError>)
        requires
            old(self).wf(),
        ensures
            final(self).wf(),
            r is Err <==> !has_id(old(self)@, id@),
            r matches Err(e) ==> e == StoreError::NotFound && final(self)@ == old(self)@,
            r matches Ok(s) ==> exists|i: int|
                0 <= i < old(self)@.len() && old(self)@[i].id == id@
                && s == reverted(old(self)@[i].status)
                && final(self)@ == step_at(old(self)@, i, Step::Revert),
    {
        self.update_status(id, Step::Revert)
    }

    /// Removes order `id` for good.
    pub fn delete(&mut self, id: &str) -> (r: Result<(), StoreError>)
        requires
            old(self).wf(),
        ensures
            final(self).wf(),
            r is Err <==> !has_id(old(self)@, id@),
            r matches Err(e) ==> e == StoreError::NotFound && final(self)@ == old(self)@,
            r is Ok ==> exists|i: int|
                0 <= i < old(self)@.len() && old(self)@[i].id == id@
                && final(self)@ == old(self)@.remove(i),
            !has_id(final(self)@, id@),
    {
        match self.position(id) {
            None => Err(StoreError::NotFound),
            Some(i) => {
                let ghost before = self@;
                let _removed = self.orders.remove(i);
                proof {
                    assert(self@ =~= before.remove(i as int));
                    lemma_remove_keeps_unique(before, i as int);
                    assert forall|k: int| 0 <= k < self@.len() implies valid_order(#[trigger] self@[k]) by {
                        let k2 = if k < i { k } else { k + 1 };
                        assert(self@[k] == before[k2]);
                    }
                    lemma_removed_id_gone(before, i as int);
                }
                Ok(())
            }
        }
    }
}

/// Appending an order whose code is not in use keeps codes unique.
pub proof fn lemma_push_keeps_unique(s: Seq<OrderView>, o: OrderView)
    requires
        ids_unique(s),
        !has_id(s, o.id),
    ensures
        ids_unique(s.push(o)),
        has_id(s.push(o), o.id),
{
    let t = s.push(o);
    assert(t[s.len() as int] == o);
    assert forall|i: int, j: int|
        0 <= i < t.len() && 0 <= j < t.len() && i != j implies #[trigger] t[i].id != #[trigger] t[j].id by {
        if i < s.len() && j < s.len() {
            assert(t[i] == s[i] && t[j] == s[j]);
        } else if i < s.len() {
            assert(t[i] == s[i]);
        } else {
            assert(t[j] == s[j]);
        }
    }
}

/// Removing an order keeps codes unique.
pub proof fn lemma_remove_keeps_unique(s: Seq<OrderView>, i: int)
    requires
        ids_unique(s),
        0 <= i < s.len(),
    ensures
        ids_unique(s.remove(i)),
{
    let t = s.remove(i);
    assert forall|a: int, b: int|
        0 <= a < t.len() && 0 <= b < t.len() && a != b implies #[trigger] t[a].id != #[trigger] t[b].id by {
        let a2 = if a < i { a } else { a + 1 };
        let b2 = if b < i { b } else { b + 1 };
        assert(t[a] == s[a2]);
        assert(t[b] == s[b2]);
    }
}

/// Once the order at `i` is removed, its code is found nowhere in the store.
pub proof fn lemma_removed_id_gone(s: Seq<OrderView>, i: int)
    requires
        ids_unique(s),
        0 <= i < s.len(),
    ensures
        !has_id(s.remove(i), s[i].id),
{
    let t = s.remove(i);
    if has_id(t, s[i].id) {
        let k = choose|k: int| 0 <= k < t.len() && #[trigger] t[k].id == s[i].id;
        let k2 = if k < i { k } else { k + 1 };
        assert(t[k] == s[k2]);
    }
}

/// At the ends of the stage order a step changes nothing: reverting a `Shipped` order or advancing
/// a `Delivered` one leaves the whole store as it was.
pub proof fn lemma_step_clamped_at_ends(s: Seq<OrderView>, i: int)
    requires
        0 <= i < s.len(),
    ensures
        s[i].status == Status::Shipped ==> step_at(s, i, Step::Revert) == s,
        s[i].status == Status::Delivered ==> step_at(s, i, Step::Advance) == s,
{
    if s[i].status == Status::Shipped {
        assert(step_at(s, i, Step::Revert) =~= s);
    }
    if s[i].status == Status::Delivered {
        assert(step_at(s, i, Step::Advance) =~= s);
    }
}

/// Advancing an `InTransit` order and then reverting it gives back the store as it was.
pub proof fn lemma_advance_then_revert(s: Seq<OrderView>, i: int)
    requires
        0 <= i < s.len(),
        s[i].status == Status::InTransit,
    ensures
        step_at(step_at(s, i, Step::Advance), i, Step::Revert) == s,
        step_at(s, i, Step::Advance)[i].status == Status::Delivered,
{
    assert(step_at(step_at(s, i, Step::Advance), i, Step::Revert) =~= s);
}

/// In a store with unique codes, the order at `i` is the only one with its code, so a second
/// operation on that code acts on the same order.
pub proof fn lemma_code_names_one_order(s: Seq<OrderView>, i: int, j: int)
    requires
        ids_unique(s),
        0 <= i < s.len(),
        0 <= j < s.len(),
        s[i].id == s[j].id,
    ensures
        i == j,
{
}

} // verus!
