/// Laws of the two-coin pool: scale invariance and the no-arbitrage fixed point.
pub mod arbitrage_laws;
/// Pools: the constant-function market maker and its two-coin constant-product kind.
pub mod cfmms;
/// The failures of the library.
pub mod error;
/// Vectors of net amounts: what the stored trades add up to, token by token.
pub mod flows;
/// The numeric interface that pools, objectives and the router compute with.
pub mod math;
/// Objectives: what the router optimises, and the liquidation of a basket.
pub mod objectives;
/// The operators and comparisons of the standard library on the signed decimal.
pub mod operators;
/// The router: stored trades, the function handed to the minimizer, net flows.
pub mod router;
/// The signed decimal: a magnitude with a sign.
pub mod signed_decimal256;
/// The magnitude: an unsigned 256-bit decimal, computed by `cosmwasm_std`.
pub mod unsigned_decimal;
/// Operations on vectors of signed decimals.
pub mod vector_math;
