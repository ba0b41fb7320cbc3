use vstd::prelude::*;

verus! {

/// Identifies an order.
pub type OrderId = u32;

/// A dish of the menu.
pub type Dish = u8;

/// A number of portions.
pub type Quantity = u8;

/// What an order asks for.
#[derive(Debug, Clone, Copy, PartialEq, Eq, Structural)]
pub enum OrderType {
    /// Portions to add to an order.
    Submission,
    /// Portions to take off an order.
    Cancellation,
    /// Portions the kitchen has cooked.
    Cooked,
}

/// An order line: the order it belongs to, the dish, its kind and the number
/// of portions.
#[derive(Debug, Clone, Copy, PartialEq, Eq, Structural)]
pub struct Order {
    pub order_id: OrderId,
    pub dish: Option<Dish>,
    pub ordertype: OrderType,
    pub quantity: Quantity,
}

impl Default for Order {
    /// A submission of no portion, for no dish, under order 0.
    fn default() -> (r: Order)
        ensures
            r.order_id == 0,
            r.dish is None,
            r.ordertype == OrderType::Submission,
            r.quantity == 0,
    {
        Order { order_id: 0, dish: None, ordertype: OrderType::Submission, quantity: 0 }
    }
}

} // verus!
