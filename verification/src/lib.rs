//! Trinomial-lattice option pricing.
//!
//! The crate has two stages. `lattice` builds a sparse triangular grid of
//! asset prices: a dense rectangular store of optional cells where a cell is
//! defined exactly when the corresponding price path is reachable at that
//! time step. `valuation` walks such a grid backwards, column by column, from
//! the terminal payoffs to the root, and returns the discounted value at the
//! root.
//!
//! Both stages are generic in the cell type and in the arithmetic applied to
//! cells (the up and down moves, the payoff, and the one-step discounted
//! combination), so the grid topology, the bounds safety, and the shape of
//! the backward recurrence are verified once for every choice of arithmetic.

pub mod errors;
pub mod lattice;
pub mod valuation;

pub use errors::PricingError;
pub use lattice::StockPriceTree;
pub use valuation::TrinomialOptionPricing;
