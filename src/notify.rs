use vstd::prelude::*;
use crate::checkout::Receipt;

verus! {

/// One outbound email, ready to hand to the mail transport.
#[derive(Debug)]
pub struct Notification {
    pub sender_name: String,
    pub sender_address: String,
    pub recipient_name: String,
    pub recipient_address: String,
    pub subject: String,
    pub body: String,
}

/// The confirmation email for a placed order; `body` is the rendered message text.
pub fn confirmation_email(rc: &Receipt, sender: &str, body: String) -> (r: Notification)
    ensures
        r.sender_name@ == "coolbeans.biz"@,
        r.sender_address@ == sender@,
        r.recipient_name@ == rc.name@,
        r.recipient_address@ == rc.email@,
        r.subject@ == "Cool bean shipment"@,
        r.body@ == body@,
{
    Notification {
        sender_name: "coolbeans.biz".to_owned(),
        sender_address: sender.to_owned(),
        recipient_name: rc.name.clone(),
        recipient_address: rc.email.clone(),
        subject: "Cool bean shipment".to_owned(),
        body,
    }
}

/// The log line for one delivery attempt.
pub fn delivery_report(n: &Notification, sent: bool) -> (r: String)
    ensures
        r@ == "Sent to "@ + n.recipient_address@ + (if sent { " [Success]"@ } else { " [Fail]"@ }),
{
    let head = "Sent to ".to_owned();
    let line = head.concat(n.recipient_address.as_str());
    if sent {
        line.concat(" [Success]")
    } else {
        line.concat(" [Fail]")
    }
}

/// A first-in, first-out queue that holds at most `capacity` items.
/// A full queue refuses an item and hands it back: nothing is dropped.
/// It keeps a ghost record of every item it accepted and every item it handed out.
pub struct BoundedQueue<T> {
    items: Vec<T>,
    capacity: usize,
    accepted: Ghost<Seq<T>>,
    handed_out: Ghost<Seq<T>>,
}

impl<T> View for BoundedQueue<T> {
    type V = Seq<T>;

    closed spec fn view(&self) -> Seq<T> {
        self.items@
    }
}

impl<T> BoundedQueue<T> {
    pub closed spec fn spec_capacity(&self) -> nat {
        self.capacity as nat
    }

    /// Every item ever accepted, in the order `try_enqueue` accepted them.
    pub closed spec fn accepted(&self) -> Seq<T> {
        self.accepted@
    }

    /// Every item ever handed out, in the order `dequeue` returned them.
    pub closed spec fn handed_out(&self) -> Seq<T> {
        self.handed_out@
    }

    /// Never more items than the capacity, room for at least one, and what was accepted is what
    /// was handed out followed by what is still queued.
    pub open spec fn wf(&self) -> bool {
        0 < self.spec_capacity() && self@.len() <= self.spec_capacity()
        && self.accepted() == self.handed_out() + self@
    }

    /// An empty queue of the given capacity.
    pub fn new(capacity: usize) -> (r: BoundedQueue<T>)
        requires
            capacity > 0,
        ensures
            r.wf(),
            r@ == Seq::<T>::empty(),
            r.spec_capacity() == capacity,
            r.accepted() == Seq::<T>::empty(),
            r.handed_out() == Seq::<T>::empty(),
    {
        let q = BoundedQueue { items: Vec::new(), capacity, accepted: Ghost(Seq::empty()), handed_out: Ghost(Seq::empty()) };
        assert(q.handed_out() + q@ =~= q.accepted());
        q
    }

    pub fn capacity(&self) -> (r: usize)
        ensures
            r == self.spec_capacity(),
    {
        self.capacity
    }

    pub fn len(&self) -> (r: usize)
        ensures
            r == self@.len(),
    {
        self.items.len()
    }

    pub fn is_full(&self) -> (r: bool)
        ensures
            r == (self@.len() >= self.spec_capacity()),
    {
        self.items.len() >= self.capacity
    }

    /// Adds `x` at the back, or hands it back unchanged when the queue is full.
    pub fn try_enqueue(&mut self, x: T) -> (r: Result<(), T>)
        requires
            old(self).wf(),
        ensures
            final(self).wf(),
            final(self).spec_capacity() == old(self).spec_capacity(),
            final(self).handed_out() == old(self).handed_out(),
            r is Ok <==> old(self)@.len() < old(self).spec_capacity(),
            r is Ok ==> final(self)@ == old(self)@.push(x) && final(self).accepted() == old(self).accepted().push(x),
            r matches Err(y) ==> y == x && final(self)@ == old(self)@ && final(self).accepted() == old(self).accepted(),
    {
        if self.items.len() >= self.capacity {
            return Err(x);
        }
        let ghost a = self.accepted@;
        self.items.push(x);
        self.accepted = Ghost(a.push(x));
        assert(self.handed_out() + self@ =~= self.accepted());
        Ok(())
    }

    /// Takes the item at the front, the one enqueued earliest.
    pub fn dequeue(&mut self) -> (r: Option<T>)
        requires
            old(self).wf(),
        ensures
            final(self).wf(),
            final(self).spec_capacity() == old(self).spec_capacity(),
            final(self).accepted() == old(self).accepted(),
            r is None <==> old(self)@.len() == 0,
            r is None ==> final(self)@ == old(self)@ && final(self).handed_out() == old(self).handed_out(),
            r matches Some(x) ==> x == old(self)@[0] && final(self)@ == old(self)@.drop_first()
                && final(self).handed_out() == old(self).handed_out().push(x),
    {
        if self.items.len() == 0 {
            return None;
        }
        let ghost h = self.handed_out@;
        let x = self.items.remove(0);
        assert(self.items@ =~= old(self)@.drop_first());
        self.handed_out = Ghost(h.push(x));
        assert(self.handed_out() + self@ =~= self.accepted());
        Some(x)
    }
}

/// Delivery order is enqueue order, and nothing is lost: the items handed out so far are the
/// first ones accepted, in the same order, and the rest of what was accepted is exactly what is
/// still queued.
pub proof fn lemma_delivery_order<T>(q: &BoundedQueue<T>)
    requires
        q.wf(),
    ensures
        q.handed_out() == q.accepted().take(q.handed_out().len() as int),
        q.accepted().skip(q.handed_out().len() as int) == q@,
        q.accepted().len() == q.handed_out().len() + q@.len(),
{
    assert(q.accepted().take(q.handed_out().len() as int) =~= q.handed_out());
    assert(q.accepted().skip(q.handed_out().len() as int) =~= q@);
}

} // verus!
