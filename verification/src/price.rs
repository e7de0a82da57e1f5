//! Prices as pairs of coin amounts.

use vstd::prelude::*;

verus! {

/// An amount of one currency.
#[derive(Debug, Clone)]
pub struct Coin {
    pub amount: u128,
    pub symbol: String,
}

/// A price: the base amount and the quote amount it trades for.
#[derive(Debug, Clone)]
pub struct Price {
    pub amount: Coin,
    pub amount_quote: Coin,
}

impl Price {
    pub fn new(symbol1: String, base: u128, symbol2: String, quote: u128) -> (r: Price)
        ensures
            r.amount.symbol@ == symbol1@,
            r.amount.amount == base,
            r.amount_quote.symbol@ == symbol2@,
            r.amount_quote.amount == quote,
    {
        Price::new_from_coins(
            Coin { amount: base, symbol: symbol1 },
            Coin { amount: quote, symbol: symbol2 },
        )
    }

    pub fn new_from_coins(amount: Coin, amount_quote: Coin) -> (r: Price)
        ensures
            r.amount == amount,
            r.amount_quote == amount_quote,
    {
        Price { amount, amount_quote }
    }

    /// A degenerate price: either side's amount is zero.
    pub fn is_zero(&self) -> (r: bool)
        ensures
            r == (self.amount.amount == 0 || self.amount_quote.amount == 0),
    {
        self.amount.amount == 0 || self.amount_quote.amount == 0
    }
}

} // verus!
