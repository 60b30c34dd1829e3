//! A small ticket-resale market: an event's organizer configures whether
//! resale is allowed; sellers list tickets and buyers take the cheapest
//! listed ticket whose price their bid covers.

use vstd::prelude::*;

verus! {

/// A ticket listed for an event: which event it belongs to, its asking
/// price, the identity of its current owner, and whether it is listed.
pub struct Ticket {
    pub event_id: u64,
    pub price: u64,
    pub owner: String,
    pub is_for_sale: bool,
}

impl Ticket {
    /// Build a ticket with exactly the given fields.
    pub fn new(event_id: u64, price: u64, owner: String, is_for_sale: bool) -> (r: Ticket)
        ensures
            r.event_id == event_id,
            r.price == price,
            r.owner@ == owner@,
            r.is_for_sale == is_for_sale,
    {
        Ticket {
            event_id,
            price,
            owner,
            is_for_sale,
        }
    }
}

/// An event whose tickets can be resold: its organizer, pricing and date
/// metadata, whether resale is allowed, and the list of listed tickets.
pub struct Event {
    pub organizer: String,
    pub initial_price: u64,
    pub total_tickets: u64,
    pub event_date: u64,
    pub is_sale_allowed: bool,
    pub tickets: Vec<Ticket>,
}

/// Position `i` holds the cheapest ticket of `s`, earliest such position
/// first: nothing is cheaper, and everything before it is strictly dearer.
pub open spec fn cheapest_at(s: Seq<Ticket>, i: int) -> bool {
    &&& 0 <= i < s.len()
    &&& forall|j: int| 0 <= j < s.len() ==> s[i].price <= s[j].price
    &&& forall|j: int| 0 <= j < i ==> s[i].price < s[j].price
}

/// The position of the first cheapest ticket, or `None` for an empty list.
fn cheapest_index(tickets: &Vec<Ticket>) -> (r: Option<usize>)
    ensures
        match r {
            Some(i) => cheapest_at(tickets@, i as int),
            None => tickets@.len() == 0,
        },
{
    if tickets.len() == 0 {
        return None;
    }
    let mut best: usize = 0;
    let mut i: usize = 1;
    while i < tickets.len()
        invariant
            0 < i <= tickets@.len(),
            best < i,
            forall|j: int| 0 <= j < i ==> tickets@[best as int].price <= tickets@[j].price,
            forall|j: int| 0 <= j < best ==> tickets@[best as int].price < tickets@[j].price,
        decreases tickets@.len() - i,
    {
        if tickets[i].price < tickets[best].price {
            best = i;
        }
        i += 1;
    }
    Some(best)
}

impl Event {
    /// Build an event with exactly the given fields and no tickets listed.
    pub fn new(organizer: String, initial_price: u64, total_tickets: u64, event_date: u64, is_sale_allowed: bool) -> (r: Event)
        ensures
            r.organizer@ == organizer@,
            r.initial_price == initial_price,
            r.total_tickets == total_tickets,
            r.event_date == event_date,
            r.is_sale_allowed == is_sale_allowed,
            r.tickets@.len() == 0,
    {
        Event {
            organizer,
            initial_price,
            total_tickets,
            event_date,
            is_sale_allowed,
            tickets: Vec::new(),
        }
    }

    /// Buy the cheapest listed ticket: rejected when the event forbids
    /// resale, when nothing is listed, or when the bid is below the cheapest
    /// asking price; otherwise the first cheapest ticket changes owner to
    /// the buyer and leaves sale.
    pub fn buy_ticket(&mut self, event_id: u64, buyer: String, buying_price: u64) -> (r: Result<(), &'static str>)
        ensures
            !old(self).is_sale_allowed ==> r == Err::<(), &'static str>("Ticket sales not allowed for this event")
                && *final(self) == *old(self),
            old(self).is_sale_allowed && old(self).tickets@.len() == 0
                ==> r == Err::<(), &'static str>("No tickets available") && *final(self) == *old(self),
            old(self).is_sale_allowed
                && (forall|j: int| 0 <= j < old(self).tickets@.len() ==> buying_price < old(self).tickets@[j].price)
                && old(self).tickets@.len() > 0
                ==> r == Err::<(), &'static str>("Buying price is lower than the cheapest available ticket")
                    && *final(self) == *old(self),
            old(self).is_sale_allowed
                && (exists|j: int| 0 <= j < old(self).tickets@.len() && buying_price >= old(self).tickets@[j].price)
                ==> ({
                    &&& r == Ok::<(), &'static str>(())
                    &&& final(self).organizer == old(self).organizer
                    &&& final(self).initial_price == old(self).initial_price
                    &&& final(self).total_tickets == old(self).total_tickets
                    &&& final(self).event_date == old(self).event_date
                    &&& final(self).is_sale_allowed == old(self).is_sale_allowed
                    &&& final(self).tickets@.len() == old(self).tickets@.len()
                    &&& exists|i: int| cheapest_at(old(self).tickets@, i)
                        && (forall|j: int| 0 <= j < old(self).tickets@.len() && j != i
                            ==> final(self).tickets@[j] == old(self).tickets@[j])
                        && final(self).tickets@[i].event_id == old(self).tickets@[i].event_id
                        && final(self).tickets@[i].price == old(self).tickets@[i].price
                        && final(self).tickets@[i].owner@ == buyer@
                        && final(self).tickets@[i].is_for_sale == false
                }),
    {
        if !self.is_sale_allowed {
            return Err("Ticket sales not allowed for this event");
        }
        let ci = match cheapest_index(&self.tickets) {
            Some(i) => i,
            None => {
                return Err("No tickets available");
            }
        };
        if buying_price < self.tickets[ci].price {
            return Err("Buying price is lower than the cheapest available ticket");
        }
        let eid = self.tickets[ci].event_id;
        let price = self.tickets[ci].price;
        self.tickets.set(ci, Ticket { event_id: eid, price: price, owner: buyer, is_for_sale: false });
        Ok(())
    }

    /// List a new ticket for this event at the seller's price. Rejected
    /// when the event forbids resale; otherwise the ticket is appended to
    /// the list, owned by the seller and marked for sale.
    pub fn sell_ticket(&mut self, event_id: u64, seller: String, selling_price: u64) -> (r: Result<(), &'static str>)
        ensures
            !old(self).is_sale_allowed ==> r == Err::<(), &'static str>("Ticket sales not allowed for this event")
                && *final(self) == *old(self),
            old(self).is_sale_allowed ==> ({
                let n = old(self).tickets@.len() as int;
                &&& r == Ok::<(), &'static str>(())
                &&& final(self).organizer == old(self).organizer
                &&& final(self).initial_price == old(self).initial_price
                &&& final(self).total_tickets == old(self).total_tickets
                &&& final(self).event_date == old(self).event_date
                &&& final(self).is_sale_allowed == old(self).is_sale_allowed
                &&& final(self).tickets@.len() == n + 1
                &&& final(self).tickets@.subrange(0, n) == old(self).tickets@
                &&& final(self).tickets@[n].event_id == event_id
                &&& final(self).tickets@[n].price == selling_price
                &&& final(self).tickets@[n].owner@ == seller@
                &&& final(self).tickets@[n].is_for_sale == true
            }),
    {
        if !self.is_sale_allowed {
            return Err("Ticket sales not allowed for this event");
        }
        let new_ticket = Ticket::new(event_id, selling_price, seller, true);
        self.tickets.push(new_ticket);
        proof {
            assert(final(self).tickets@.subrange(0, old(self).tickets@.len() as int)
                =~= old(self).tickets@);
        }
        Ok(())
    }

    /// A shared reference to the first cheapest ticket of `tickets`, or an
    /// error when the list is empty.
    pub fn get_cheapest_ticket<'a>(&self, tickets: &'a Vec<Ticket>) -> (r: Result<&'a Ticket, &'static str>)
        ensures
            tickets@.len() == 0 ==> r == Err::<&'a Ticket, &'static str>("No tickets available"),
            tickets@.len() > 0 ==> (r matches Ok(t)
                && exists|i: int| cheapest_at(tickets@, i) && *t == tickets@[i]),
    {
        match cheapest_index(tickets) {
            Some(i) => Ok(&tickets[i]),
            None => Err("No tickets available"),
        }
    }

    /// Mutable access to this event's ticket list; the event id is taken
    /// for interface symmetry with the other operations.
    pub fn get_tickets_mut(&mut self, event_id: u64) -> (r: &mut Vec<Ticket>)
        ensures
            *r == old(self).tickets,
            final(self).tickets == *final(r),
            final(self).organizer == old(self).organizer,
            final(self).initial_price == old(self).initial_price,
            final(self).total_tickets == old(self).total_tickets,
            final(self).event_date == old(self).event_date,
            final(self).is_sale_allowed == old(self).is_sale_allowed,
    {
        &mut self.tickets
    }
}

} // verus!
