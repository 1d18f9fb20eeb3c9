//! Conversion of monetary amounts between Bitcoin denominations and fiat
//! currencies.
//!
//! Amounts, exchange rates and conversion results are held as exact decimal
//! and rational numbers built from integers, so every computation in this
//! crate is exact; rounding happens only where a caller asks for it, and then
//! half away from zero.  The crate covers the amount-string parser (thousand
//! separators, trailing SI symbols), the currency registry, the memoized
//! exchange-rate provider, and the conversion engine.  Network access, the
//! command line, configuration files and table rendering live outside it.

pub mod amount;
pub mod convert;
pub mod currencies;
pub mod currency;
pub mod decimal;
pub mod exchange_rate_provider;
pub mod rational;
pub mod text;
