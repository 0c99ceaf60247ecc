//! Module-visibility walkthrough, flattened into one module: the restaurant
//! example's public enum, a record with one public and one private field,
//! and the order-fixing call chain.

use vstd::prelude::*;

verus! {

/// A public enum makes all of its variants public.
#[derive(Debug)]
pub enum Appetizer {
    Soup,
    Salad,
}

/// A breakfast order: the toast is the customer's choice and public, the
/// seasonal fruit is the kitchen's and private.
pub struct Breakfast {
    pub toast: String,
    seasonal_fruit: String,
}

impl Breakfast {
    /// The customer's choice of toast.
    pub closed spec fn toast_spec(&self) -> Seq<char> {
        self.toast@
    }

    /// The kitchen's pick of fruit.
    pub closed spec fn fruit_spec(&self) -> Seq<char> {
        self.seasonal_fruit@
    }

    /// The summer breakfast: the chosen toast with the seasonal default of
    /// peaches.
    pub fn summer(toast: &str) -> (r: Breakfast)
        ensures
            r.toast_spec() == toast@,
            r.fruit_spec() == "peaches"@,
    {
        Breakfast { toast: String::from_str(toast), seasonal_fruit: String::from_str("peaches") }
    }
}

/// Adds a party to the host's waitlist.
pub fn add_to_waitlist() {
}

/// Seats a customer by way of the hosting shortcut.
pub fn eat_at_restaurant() {
    add_to_waitlist();
}

/// Hands a finished order to its table.
pub fn deliver_order() {
}

/// Cooks one order.
pub fn cook_order() {
}

/// Re-cooks and re-delivers an order that went out wrong.
pub fn fix_incorrect_order() {
    cook_order();
    deliver_order();
}

} // verus!
