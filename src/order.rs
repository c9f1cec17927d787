use vstd::prelude::*;
use crate::status::Status;

verus! {

/// A placed order, keyed by its public tracking code.
#[derive(Debug)]
pub struct Order {
    pub id: String,
    pub customer_name: String,
    pub quantity: u32,
    pub customer_email: String,
    pub sender_email: String,
    pub reference: String,
    pub status: Status,
}

/// The abstract value of an order: its text fields as character sequences.
pub struct OrderView {
    pub id: Seq<char>,
    pub customer_name: Seq<char>,
    pub quantity: u32,
    pub customer_email: Seq<char>,
    pub sender_email: Seq<char>,
    pub reference: Seq<char>,
    pub status: Status,
}

impl View for Order {
    type V = OrderView;

    open spec fn view(&self) -> OrderView {
        OrderView {
            id: self.id@,
            customer_name: self.customer_name@,
            quantity: self.quantity,
            customer_email: self.customer_email@,
            sender_email: self.sender_email@,
            reference: self.reference@,
            status: self.status,
        }
    }
}

/// The same order with another status.
pub open spec fn with_status(o: OrderView, s: Status) -> OrderView {
    OrderView { status: s, ..o }
}

impl Order {
    /// A field-by-field copy.
    pub fn duplicate(&self) -> (r: Order)
        ensures
            r@ == self@,
    {
        Order {
            id: self.id.clone(),
            customer_name: self.customer_name.clone(),
            quantity: self.quantity,
            customer_email: self.customer_email.clone(),
            sender_email: self.sender_email.clone(),
            reference: self.reference.clone(),
            status: self.status,
        }
    }
}

} // verus!
