use upvote_engine::market::{Event, Ticket};

fn event_with_sales(is_sale_allowed: bool) -> Event {
    Event::new("Organizer1".to_string(), 100, 1000, 1643443200, is_sale_allowed)
}

#[test]
fn ticket_new_sets_every_field() {
    let t = Ticket::new(5, 80, "alice".to_string(), true);
    assert_eq!(t.event_id, 5);
    assert_eq!(t.price, 80);
    assert_eq!(t.owner, "alice");
    assert!(t.is_for_sale);
}

#[test]
fn event_new_sets_every_field_and_lists_nothing() {
    let e = event_with_sales(true);
    assert_eq!(e.organizer, "Organizer1");
    assert_eq!(e.initial_price, 100);
    assert_eq!(e.total_tickets, 1000);
    assert_eq!(e.event_date, 1643443200);
    assert!(e.is_sale_allowed);
    assert!(e.tickets.is_empty());
}

#[test]
fn sell_ticket_appends_a_listed_ticket() {
    let mut e = event_with_sales(true);
    assert_eq!(e.sell_ticket(5, "alice".to_string(), 80), Ok(()));
    assert_eq!(e.tickets.len(), 1);
    assert_eq!(e.tickets[0].event_id, 5);
    assert_eq!(e.tickets[0].price, 80);
    assert_eq!(e.tickets[0].owner, "alice");
    assert!(e.tickets[0].is_for_sale);
}

#[test]
fn sell_ticket_rejected_when_sales_not_allowed() {
    let mut e = event_with_sales(false);
    assert_eq!(
        e.sell_ticket(5, "alice".to_string(), 80),
        Err("Ticket sales not allowed for this event")
    );
    assert!(e.tickets.is_empty());
}

#[test]
fn buy_ticket_rejected_when_sales_not_allowed() {
    let mut e = event_with_sales(false);
    assert_eq!(
        e.buy_ticket(5, "bob".to_string(), 500),
        Err("Ticket sales not allowed for this event")
    );
}

#[test]
fn buy_ticket_rejected_when_nothing_listed() {
    let mut e = event_with_sales(true);
    assert_eq!(e.buy_ticket(5, "bob".to_string(), 500), Err("No tickets available"));
}

#[test]
fn buy_ticket_rejected_when_bid_below_cheapest() {
    let mut e = event_with_sales(true);
    assert_eq!(e.sell_ticket(5, "alice".to_string(), 80), Ok(()));
    assert_eq!(e.sell_ticket(5, "carol".to_string(), 60), Ok(()));
    assert_eq!(
        e.buy_ticket(5, "bob".to_string(), 59),
        Err("Buying price is lower than the cheapest available ticket")
    );
    assert_eq!(e.tickets[0].owner, "alice");
    assert_eq!(e.tickets[1].owner, "carol");
}

#[test]
fn buy_ticket_transfers_the_cheapest_ticket() {
    let mut e = event_with_sales(true);
    assert_eq!(e.sell_ticket(5, "alice".to_string(), 80), Ok(()));
    assert_eq!(e.sell_ticket(5, "carol".to_string(), 60), Ok(()));
    assert_eq!(e.buy_ticket(5, "bob".to_string(), 60), Ok(()));
    assert_eq!(e.tickets.len(), 2);
    assert_eq!(e.tickets[0].owner, "alice");
    assert!(e.tickets[0].is_for_sale);
    assert_eq!(e.tickets[1].owner, "bob");
    assert_eq!(e.tickets[1].price, 60);
    assert!(!e.tickets[1].is_for_sale);
}

#[test]
fn buy_ticket_picks_the_first_of_equally_cheap_tickets() {
    let mut e = event_with_sales(true);
    assert_eq!(e.sell_ticket(5, "alice".to_string(), 70), Ok(()));
    assert_eq!(e.sell_ticket(5, "carol".to_string(), 70), Ok(()));
    assert_eq!(e.buy_ticket(5, "bob".to_string(), 200), Ok(()));
    assert_eq!(e.tickets[0].owner, "bob");
    assert_eq!(e.tickets[1].owner, "carol");
}

#[test]
fn get_cheapest_ticket_finds_the_minimum_price() {
    let mut e = event_with_sales(true);
    assert_eq!(e.sell_ticket(5, "alice".to_string(), 80), Ok(()));
    assert_eq!(e.sell_ticket(5, "carol".to_string(), 60), Ok(()));
    assert_eq!(e.sell_ticket(5, "dan".to_string(), 90), Ok(()));
    let tickets = std::mem::take(&mut e.tickets);
    let cheapest = e.get_cheapest_ticket(&tickets).unwrap();
    assert_eq!(cheapest.price, 60);
    assert_eq!(cheapest.owner, "carol");
}

#[test]
fn get_cheapest_ticket_errs_on_empty_list() {
    let e = event_with_sales(true);
    let tickets: Vec<Ticket> = Vec::new();
    assert_eq!(
        e.get_cheapest_ticket(&tickets).map(|t| t.price),
        Err("No tickets available")
    );
}

#[test]
fn get_tickets_mut_exposes_the_ticket_list() {
    let mut e = event_with_sales(true);
    assert_eq!(e.sell_ticket(5, "alice".to_string(), 80), Ok(()));
    let tickets = e.get_tickets_mut(5);
    assert_eq!(tickets.len(), 1);
    tickets[0].price = 75;
    assert_eq!(e.tickets[0].price, 75);
}
