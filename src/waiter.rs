use crate::order::{Dish, Order, OrderId, OrderType, Quantity};
use vstd::prelude::*;

verus! {

/// The index of the first order of `orders` with id `id`.
pub open spec fn first_with_id(orders: Seq<Order>, id: OrderId) -> Option<int>
    decreases orders.len(),
{
    if orders.len() == 0 {
        None
    } else {
        match first_with_id(orders.drop_last(), id) {
            Some(k) => Some(k),
            None => if orders.last().order_id == id {
                Some(orders.len() - 1)
            } else {
                None
            },
        }
    }
}

/// `orders` without those with id `id`.
pub open spec fn without_id(orders: Seq<Order>, id: OrderId) -> Seq<Order>
    decreases orders.len(),
{
    if orders.len() == 0 {
        orders
    } else if orders.last().order_id == id {
        without_id(orders.drop_last(), id)
    } else {
        without_id(orders.drop_last(), id).push(orders.last())
    }
}

/// `orders` after `o` takes portions off the first order with its id: fewer
/// portions if more remain, else every order with that id goes.
pub open spec fn withdraw(orders: Seq<Order>, o: Order) -> Seq<Order> {
    match first_with_id(orders, o.order_id) {
        Some(k) => if orders[k].quantity > o.quantity {
            orders.update(k, Order { quantity: (orders[k].quantity - o.quantity) as u8, ..orders[k] })
        } else {
            without_id(orders, o.order_id)
        },
        None => orders,
    }
}

/// `orders` after receiving `o` with `menu` in force: an order of no portion,
/// or for a dish off the menu, is ignored; a submission adds its portions to
/// the first order with its id (saturating at the largest quantity), or is
/// appended; a cancellation withdraws; anything else is ignored.
pub open spec fn receive_one(orders: Seq<Order>, menu: Seq<Dish>, o: Order) -> Seq<Order> {
    if o.quantity == 0 {
        orders
    } else if o.dish matches Some(d) && !menu.contains(d) {
        orders
    } else {
        match o.ordertype {
            OrderType::Submission => match first_with_id(orders, o.order_id) {
                Some(k) => orders.update(
                    k,
                    Order { quantity: orders[k].quantity.saturating_add(o.quantity), ..orders[k] },
                ),
                None => orders.push(o),
            },
            OrderType::Cancellation => withdraw(orders, o),
            OrderType::Cooked => orders,
        }
    }
}

/// `orders` after receiving every order of `list`, in turn.
pub open spec fn receive_all(orders: Seq<Order>, menu: Seq<Dish>, list: Seq<Order>) -> Seq<Order>
    decreases list.len(),
{
    if list.len() == 0 {
        orders
    } else {
        receive_one(receive_all(orders, menu, list.drop_last()), menu, list.last())
    }
}

/// `orders` after serving every cooked order of `list`, in turn.
pub open spec fn serve_all(orders: Seq<Order>, list: Seq<Order>) -> Seq<Order>
    decreases list.len(),
{
    if list.len() == 0 {
        orders
    } else {
        withdraw(serve_all(orders, list.drop_last()), list.last())
    }
}

/// Whether an order of `orders` is for dish `d`.
pub open spec fn has_dish(orders: Seq<Order>, d: Dish) -> bool {
    exists|i: int| 0 <= i < orders.len() && #[trigger] orders[i].dish == Some(d)
}

/// The portions of dish `d` over `orders`, summed saturating at the largest
/// quantity.
pub open spec fn dish_total(orders: Seq<Order>, d: Dish) -> Quantity
    decreases orders.len(),
{
    if orders.len() == 0 {
        0
    } else if orders.last().dish == Some(d) {
        dish_total(orders.drop_last(), d).saturating_add(orders.last().quantity)
    } else {
        dish_total(orders.drop_last(), d)
    }
}

/// `(dish, portions)` for every dish ordered among the `k` largest dish
/// numbers, largest first.
pub open spec fn summary_top(orders: Seq<Order>, k: nat) -> Seq<(Dish, Quantity)>
    decreases k,
{
    if k == 0 {
        Seq::empty()
    } else {
        let d = (256 - k) as u8;
        let rest = summary_top(orders, (k - 1) as nat);
        if has_dish(orders, d) {
            rest.push((d, dish_total(orders, d)))
        } else {
            rest
        }
    }
}

/// `(dish, portions)` for every dish ordered, largest dish first.
pub open spec fn dish_summary(orders: Seq<Order>) -> Seq<(Dish, Quantity)> {
    summary_top(orders, 256)
}

/// A waiter: the menu, and the open orders.
#[derive(Debug, PartialEq, Clone)]
pub struct Waiter {
    pub menu: Vec<Dish>,
    pub orders: Vec<Order>,
}

/// Whether `menu` holds `dish`.
fn on_menu(menu: &Vec<Dish>, dish: Dish) -> (r: bool)
    ensures
        r == menu@.contains(dish),
{
    for i in 0..menu.len()
        invariant
            forall|j: int| 0 <= j < i ==> menu@[j] != dish,
    {
        if menu[i] == dish {
            return true;
        }
    }
    false
}

/// The first index found stays the first in longer prefixes.
proof fn lemma_first_with_id_extends(orders: Seq<Order>, id: OrderId, j: int, k: int)
    requires
        0 <= j <= orders.len(),
        first_with_id(orders.take(j), id) == Some(k),
    ensures
        first_with_id(orders, id) == Some(k),
    decreases orders.len() - j,
{
    if j < orders.len() {
        assert(orders.take(j + 1).drop_last() =~= orders.take(j));
        lemma_first_with_id_extends(orders, id, j + 1, k);
    } else {
        assert(orders.take(j) =~= orders);
    }
}

/// A found index is in range and carries the id.
proof fn lemma_first_with_id_found(orders: Seq<Order>, id: OrderId)
    ensures
        first_with_id(orders, id) matches Some(k) ==> 0 <= k < orders.len() && orders[k].order_id
            == id,
    decreases orders.len(),
{
    if orders.len() > 0 {
        lemma_first_with_id_found(orders.drop_last(), id);
    }
}

/// The index of the first order of `orders` with id `id`.
fn find_order(orders: &Vec<Order>, id: OrderId) -> (r: Option<usize>)
    ensures
        match r {
            Some(k) => first_with_id(orders@, id) == Some(k as int) && k < orders@.len(),
            None => first_with_id(orders@, id) is None,
        },
{
    proof {
        assert(orders@.take(0) =~= Seq::<Order>::empty());
    }
    for i in 0..orders.len()
        invariant
            first_with_id(orders@.take(i as int), id) is None,
    {
        proof {
            assert(orders@.take(i + 1).drop_last() =~= orders@.take(i as int));
        }
        if orders[i].order_id == id {
            proof {
                lemma_first_with_id_extends(orders@, id, i + 1, i as int);
            }
            return Some(i);
        }
    }
    proof {
        assert(orders@.take(orders.len() as int) =~= orders@);
    }
    None
}

/// `orders` without those with id `id`.
fn remove_id(orders: &Vec<Order>, id: OrderId) -> (r: Vec<Order>)
    ensures
        r@ == without_id(orders@, id),
{
    let mut r: Vec<Order> = Vec::new();
    proof {
        assert(orders@.take(0) =~= Seq::<Order>::empty());
    }
    for i in 0..orders.len()
        invariant
            r@ == without_id(orders@.take(i as int), id),
    {
        proof {
            assert(orders@.take(i + 1).drop_last() =~= orders@.take(i as int));
        }
        if orders[i].order_id != id {
            r.push(orders[i]);
        }
    }
    proof {
        assert(orders@.take(orders.len() as int) =~= orders@);
    }
    r
}

impl Waiter {
    /// A waiter with `menu` and no orders.
    pub fn new(menu: Vec<Dish>) -> (r: Waiter)
        ensures
            r.menu@ == menu@,
            r.orders@ == Seq::<Order>::empty(),
    {
        Waiter { menu, orders: Vec::new() }
    }

    /// Replaces the menu.
    pub fn update_menu(&mut self, menu: Vec<Dish>)
        ensures
            final(self).menu@ == menu@,
            final(self).orders@ == old(self).orders@,
    {
        self.menu = menu;
    }

    /// Takes the portions of `o` off the first order with its id.
    fn withdraw_order(&mut self, o: Order)
        ensures
            final(self).orders@ == withdraw(old(self).orders@, o),
            final(self).menu@ == old(self).menu@,
    {
        match find_order(&self.orders, o.order_id) {
            Some(k) => {
                let existing = self.orders[k].quantity;
                if existing > o.quantity {
                    let mut updated = self.orders[k];
                    updated.quantity = existing - o.quantity;
                    self.orders.set(k, updated);
                } else {
                    self.orders = remove_id(&self.orders, o.order_id);
                }
            },
            None => {},
        }
    }

    /// Receives each order of `order_list` in turn, as [`receive_one`] says.
    pub fn receive_orders(&mut self, order_list: Vec<Order>)
        ensures
            final(self).orders@ == receive_all(old(self).orders@, old(self).menu@, order_list@),
            final(self).menu@ == old(self).menu@,
    {
        proof {
            assert(order_list@.take(0) =~= Seq::<Order>::empty());
        }
        for i in 0..order_list.len()
            invariant
                self.menu@ == old(self).menu@,
                self.orders@ == receive_all(
                    old(self).orders@,
                    old(self).menu@,
                    order_list@.take(i as int),
                ),
        {
            proof {
                assert(order_list@.take(i + 1).drop_last() =~= order_list@.take(i as int));
            }
            let order = order_list[i];
            let accepted = order.quantity != 0 && match order.dish {
                Some(dish) => on_menu(&self.menu, dish),
                None => true,
            };
            if accepted {
                match order.ordertype {
                    OrderType::Submission => {
                        match find_order(&self.orders, order.order_id) {
                            Some(k) => {
                                let mut updated = self.orders[k];
                                updated.quantity = updated.quantity.saturating_add(order.quantity);
                                self.orders.set(k, updated);
                            },
                            None => {
                                self.orders.push(order);
                            },
                        }
                    },
                    OrderType::Cancellation => {
                        self.withdraw_order(order);
                    },
                    OrderType::Cooked => {},
                }
            }
        }
        proof {
            assert(order_list@.take(order_list.len() as int) =~= order_list@);
        }
    }

    /// Serves each cooked order of `cooked_dish` in turn: its portions come
    /// off the first order with its id, which goes when none remain.
    pub fn serve_orders(&mut self, cooked_dish: Vec<Order>)
        ensures
            final(self).orders@ == serve_all(old(self).orders@, cooked_dish@),
            final(self).menu@ == old(self).menu@,
    {
        proof {
            assert(cooked_dish@.take(0) =~= Seq::<Order>::empty());
        }
        for i in 0..cooked_dish.len()
            invariant
                self.menu@ == old(self).menu@,
                self.orders@ == serve_all(old(self).orders@, cooked_dish@.take(i as int)),
        {
            proof {
                assert(cooked_dish@.take(i + 1).drop_last() =~= cooked_dish@.take(i as int));
            }
            self.withdraw_order(cooked_dish[i]);
        }
        proof {
            assert(cooked_dish@.take(cooked_dish.len() as int) =~= cooked_dish@);
        }
    }

    /// The first `levels` entries of the dish summary (portions per ordered
    /// dish, largest dish first), padded with `(0, 0)`.
    pub fn report_remaining_orders(&mut self, levels: u8) -> (r: Vec<(Dish, Quantity)>)
        ensures
            *final(self) == *old(self),
            r@.len() == levels,
            forall|i: int|
                0 <= i < levels ==> #[trigger] r@[i] == if i < dish_summary(old(self).orders@).len() {
                    dish_summary(old(self).orders@)[i]
                } else {
                    (0u8, 0u8)
                },
    {
        let ghost orders = self.orders@;
        let mut summary: Vec<(Dish, Quantity)> = Vec::new();
        let mut k: u16 = 0;
        while k < 256
            invariant
                k <= 256,
                orders == self.orders@,
                summary@ == summary_top(orders, k as nat),
            decreases 256 - k,
        {
            let dish = (255 - k) as u8;
            let mut total: Quantity = 0;
            let mut present = false;
            proof {
                assert(orders.take(0) =~= Seq::<Order>::empty());
            }
            for j in 0..self.orders.len()
                invariant
                    orders == self.orders@,
                    total == dish_total(orders.take(j as int), dish),
                    present == has_dish(orders.take(j as int), dish),
            {
                proof {
                    assert(orders.take(j + 1).drop_last() =~= orders.take(j as int));
                    if has_dish(orders.take(j + 1), dish) && !(orders[j as int].dish == Some(dish)) {
                        let w = choose|w: int|
                            0 <= w < j + 1 && #[trigger] orders.take(j + 1)[w].dish == Some(dish);
                        assert(orders.take(j as int)[w].dish == Some(dish));
                    }
                }
                if self.orders[j].dish == Some(dish) {
                    total = total.saturating_add(self.orders[j].quantity);
                    present = true;
                    proof {
                        assert(orders.take(j + 1)[j as int].dish == Some(dish));
                    }
                }
            }
            proof {
                assert(orders.take(orders.len() as int) =~= orders);
            }
            if present {
                summary.push((dish, total));
            }
            k = k + 1;
        }
        let mut result: Vec<(Dish, Quantity)> = Vec::new();
        for i in 0..levels
            invariant
                summary@ == dish_summary(orders),
                orders == old(self).orders@,
                result@.len() == i,
                forall|t: int|
                    0 <= t < i ==> #[trigger] result@[t] == if t < summary@.len() {
                        summary@[t]
                    } else {
                        (0u8, 0u8)
                    },
        {
            if (i as usize) < summary.len() {
                result.push(summary[i as usize]);
            } else {
                result.push((0, 0));
            }
        }
        result
    }
}

} // verus!
