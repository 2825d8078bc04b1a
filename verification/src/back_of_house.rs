//! The kitchen side of the restaurant example: orders and the breakfast menu.

use vstd::prelude::*;

verus! {

/// Cook one order.  It has no observable effect of its own.
pub fn cook_order() {
}

/// Redo an order that came out wrong: cook it again and deliver it.
pub fn fix_incorrect_order() {
    cook_order();
    crate::serve_order();
}

/// A breakfast: the customer picks the toast, the kitchen picks the fruit.
pub struct Breakfast {
    pub toast: String,
    seasonal_fruit: String,
}

impl Breakfast {
    /// The toast, as contracts speak of it.
    pub closed spec fn spec_toast(self) -> Seq<char> {
        self.toast@
    }

    /// The fruit, as contracts speak of it.
    pub closed spec fn spec_fruit(self) -> Seq<char> {
        self.seasonal_fruit@
    }

    /// The summer breakfast: the chosen toast with peaches on the side.
    pub fn summer(toast: &str) -> (r: Breakfast)
        ensures
            r.spec_toast() == toast@,
            r.spec_fruit() == "peaches"@,
    {
        Breakfast { toast: toast.to_owned(), seasonal_fruit: "peaches".to_owned() }
    }

    /// The fruit that comes with the breakfast; the kitchen's choice, so the
    /// field itself stays private.
    pub fn fruit(&self) -> (r: &String)
        ensures
            r@ == self.spec_fruit(),
    {
        &self.seasonal_fruit
    }
}

/// A starter course.
#[derive(Debug, PartialEq, Eq, Structural)]
pub enum Appetizer {
    Soup,
    Salad,
}

} // verus!
