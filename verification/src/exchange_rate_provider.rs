//! The exchange-rate cache / provider.
//!
//! A provider owns an injected data source and an optional rate
//! snapshot.  [`ExchangeRateProvider::fetch`] asks the data source for a
//! full price list at most once per provider: once a snapshot is stored
//! the provider never touches the data source again.  A snapshot maps
//! every fiat currency to a positive price — units of that currency per
//! one bitcoin — and prices a fiat currency in the base unit by the exact
//! reciprocal of its price.

use vstd::prelude::*;

use crate::currency::fiat::Fiat;
use crate::decimal::Dec;
use crate::rational::{pow10, lemma_pow10_positive, Rat};

verus! {

/// Error for a failed or malformed exchange-rate response.  Fatal to the
/// conversion that needed the rates; nothing is retried.
#[derive(Debug, PartialEq, Eq)]
pub struct RateFetchError {
    pub msg: String,
}

/// The injected data-source capability: fetch, in one piece, a mapping
/// from fiat currency to its price in that currency per one bitcoin.
/// Implementations live outside this crate (a ticker client, a test
/// double); nothing here assumes anything about what they return.
pub trait ExchangeRateApiConsumer {
    fn fetch_api(&mut self) -> Result<Vec<(Fiat, Dec)>, RateFetchError>;
}

/// A price is usable when it is strictly positive and small enough that
/// both it and its reciprocal are representable as `u128` fractions.
pub open spec fn valid_price(d: Dec) -> bool {
    &&& !d.neg
    &&& d.mant >= 1
    &&& d.spec_num() <= u128::MAX
    &&& d.spec_den() <= u128::MAX
}

/// The first price listed for `f`, if any.
pub open spec fn spec_lookup(rates: Seq<(Fiat, Dec)>, f: Fiat) -> Option<Dec>
    decreases rates.len(),
{
    if rates.len() == 0 {
        None
    } else if rates[0].0 == f {
        Some(rates[0].1)
    } else {
        spec_lookup(rates.drop_first(), f)
    }
}

/// The list holds a usable price for `f`.
pub open spec fn usable_price(rates: Seq<(Fiat, Dec)>, f: Fiat) -> bool {
    spec_lookup(rates, f) matches Some(d) && valid_price(d)
}

/// Whether `d` is a usable price; see [`valid_price`].
fn validate_price(d: &Dec) -> (b: bool)
    ensures
        b == valid_price(*d),
{
    if d.mant >= 1 && !d.neg {
        proof {
            if d.exp >= 0 {
                lemma_pow10_positive(d.exp as nat);
                assert(d.mant * pow10(d.exp as nat) >= 0) by (nonlinear_arith)
                    requires
                        d.mant >= 0,
                        pow10(d.exp as nat) >= 0,
                ;
            }
        }
        match d.to_rat() {
            Some(_) => true,
            None => false,
        }
    } else {
        false
    }
}

/// Find the price listed for `f` and check it is usable.
fn require_price(rates: &Vec<(Fiat, Dec)>, f: Fiat) -> (r: Result<Dec, RateFetchError>)
    ensures
        match r {
            Ok(d) => spec_lookup(rates@, f) == Some(d) && valid_price(d),
            Err(_) => !usable_price(rates@, f),
        },
{
    let n = rates.len();
    let mut i: usize = 0;
    proof {
        assert(rates@.skip(0) =~= rates@);
    }
    while i < n
        invariant
            0 <= i <= n,
            n == rates@.len(),
            spec_lookup(rates@, f) == spec_lookup(rates@.skip(i as int), f),
        decreases n - i,
    {
        proof {
            assert(rates@.skip(i as int).drop_first() =~= rates@.skip(i + 1));
            assert(rates@.skip(i as int)[0] == rates@[i as int]);
        }
        if rates[i].0 == f {
            let d = rates[i].1;
            if validate_price(&d) {
                return Ok(d);
            } else {
                return Err(RateFetchError {
                    msg: String::from_str("exchange-rate response holds an unusable price"),
                });
            }
        }
        i = i + 1;
    }
    proof {
        assert(rates@.skip(n as int) =~= Seq::<(Fiat, Dec)>::empty());
    }
    Err(RateFetchError { msg: String::from_str("exchange-rate response misses a currency") })
}

/// An immutable exchange-rate snapshot: one positive price per fiat
/// currency, units of that currency per one bitcoin.
#[derive(Clone, Copy, Debug)]
pub struct RateSnapshot {
    ars: Dec,
    aud: Dec,
    brl: Dec,
    cad: Dec,
    chf: Dec,
    clp: Dec,
    cny: Dec,
    czk: Dec,
    dkk: Dec,
    eur: Dec,
    gbp: Dec,
    hkd: Dec,
    huf: Dec,
    inr: Dec,
    isk: Dec,
    jpy: Dec,
    krw: Dec,
    nzd: Dec,
    pln: Dec,
    ron: Dec,
    rub: Dec,
    sek: Dec,
    sgd: Dec,
    thb: Dec,
    try_: Dec,
    twd: Dec,
    usd: Dec,
}

impl RateSnapshot {
    /// The stored price of `f`: units of `f` per one bitcoin.
    pub closed spec fn spec_price(self, f: Fiat) -> Dec {
        match f {
            Fiat::ARS => self.ars,
            Fiat::AUD => self.aud,
            Fiat::BRL => self.brl,
            Fiat::CAD => self.cad,
            Fiat::CHF => self.chf,
            Fiat::CLP => self.clp,
            Fiat::CNY => self.cny,
            Fiat::CZK => self.czk,
            Fiat::DKK => self.dkk,
            Fiat::EUR => self.eur,
            Fiat::GBP => self.gbp,
            Fiat::HKD => self.hkd,
            Fiat::HUF => self.huf,
            Fiat::INR => self.inr,
            Fiat::ISK => self.isk,
            Fiat::JPY => self.jpy,
            Fiat::KRW => self.krw,
            Fiat::NZD => self.nzd,
            Fiat::PLN => self.pln,
            Fiat::RON => self.ron,
            Fiat::RUB => self.rub,
            Fiat::SEK => self.sek,
            Fiat::SGD => self.sgd,
            Fiat::THB => self.thb,
            Fiat::TRY => self.try_,
            Fiat::TWD => self.twd,
            Fiat::USD => self.usd,
        }
    }

    /// Every stored price is usable.
    pub open spec fn wf(self) -> bool {
        forall|f: Fiat| valid_price(#[trigger] self.spec_price(f))
    }

    /// The value of one unit of `f` in the base unit: the exact
    /// reciprocal of the stored price.
    pub open spec fn spec_btc_value(self, f: Fiat) -> Rat {
        Rat {
            neg: false,
            num: self.spec_price(f).spec_den() as u128,
            den: self.spec_price(f).spec_num() as u128,
        }
    }

    /// Build a snapshot from a fetched price list.  Succeeds exactly when
    /// the list holds a usable price for every fiat currency; the first
    /// listing of each currency is taken.
    pub fn new(rates: &Vec<(Fiat, Dec)>) -> (r: Result<RateSnapshot, RateFetchError>)
        ensures
            match r {
                Ok(s) => {
                    &&& s.wf()
                    &&& forall|f: Fiat| spec_lookup(rates@, f) == Some(#[trigger] s.spec_price(f))
                },
                Err(_) => exists|f: Fiat| !#[trigger] usable_price(rates@, f),
            },
    {
        let s = RateSnapshot {
            ars: require_price(rates, Fiat::ARS)?,
            aud: require_price(rates, Fiat::AUD)?,
            brl: require_price(rates, Fiat::BRL)?,
            cad: require_price(rates, Fiat::CAD)?,
            chf: require_price(rates, Fiat::CHF)?,
            clp: require_price(rates, Fiat::CLP)?,
            cny: require_price(rates, Fiat::CNY)?,
            czk: require_price(rates, Fiat::CZK)?,
            dkk: require_price(rates, Fiat::DKK)?,
            eur: require_price(rates, Fiat::EUR)?,
            gbp: require_price(rates, Fiat::GBP)?,
            hkd: require_price(rates, Fiat::HKD)?,
            huf: require_price(rates, Fiat::HUF)?,
            inr: require_price(rates, Fiat::INR)?,
            isk: require_price(rates, Fiat::ISK)?,
            jpy: require_price(rates, Fiat::JPY)?,
            krw: require_price(rates, Fiat::KRW)?,
            nzd: require_price(rates, Fiat::NZD)?,
            pln: require_price(rates, Fiat::PLN)?,
            ron: require_price(rates, Fiat::RON)?,
            rub: require_price(rates, Fiat::RUB)?,
            sek: require_price(rates, Fiat::SEK)?,
            sgd: require_price(rates, Fiat::SGD)?,
            thb: require_price(rates, Fiat::THB)?,
            try_: require_price(rates, Fiat::TRY)?,
            twd: require_price(rates, Fiat::TWD)?,
            usd: require_price(rates, Fiat::USD)?,
        };
        Ok(s)
    }

    /// The value of one unit of `currency` in the base unit: the exact
    /// reciprocal of the snapshot's price for it.
    pub fn btc_value(&self, currency: &Fiat) -> (r: Rat)
        requires
            self.wf(),
        ensures
            r == self.spec_btc_value(*currency),
            r.wf(),
            !r.neg,
            r.num >= 1,
    {
        let price = match currency {
            Fiat::ARS => self.ars,
            Fiat::AUD => self.aud,
            Fiat::BRL => self.brl,
            Fiat::CAD => self.cad,
            Fiat::CHF => self.chf,
            Fiat::CLP => self.clp,
            Fiat::CNY => self.cny,
            Fiat::CZK => self.czk,
            Fiat::DKK => self.dkk,
            Fiat::EUR => self.eur,
            Fiat::GBP => self.gbp,
            Fiat::HKD => self.hkd,
            Fiat::HUF => self.huf,
            Fiat::INR => self.inr,
            Fiat::ISK => self.isk,
            Fiat::JPY => self.jpy,
            Fiat::KRW => self.krw,
            Fiat::NZD => self.nzd,
            Fiat::PLN => self.pln,
            Fiat::RON => self.ron,
            Fiat::RUB => self.rub,
            Fiat::SEK => self.sek,
            Fiat::SGD => self.sgd,
            Fiat::THB => self.thb,
            Fiat::TRY => self.try_,
            Fiat::TWD => self.twd,
            Fiat::USD => self.usd,
        };
        proof {
            assert(valid_price(self.spec_price(*currency)));
            if price.exp >= 0 {
                lemma_pow10_positive(price.exp as nat);
                assert(price.mant * pow10(price.exp as nat) >= 1) by (nonlinear_arith)
                    requires
                        price.mant >= 1,
                        pow10(price.exp as nat) >= 1,
                ;
            } else {
                lemma_pow10_positive((-price.exp) as nat);
            }
        }
        let rat = match price.to_rat() {
            Some(v) => v,
            None => {
                proof {
                    assert(false);
                }
                Rat { neg: false, num: 1, den: 1 }
            },
        };
        Rat { neg: false, num: rat.den, den: rat.num }
    }
}

/// The exchange-rate provider: the injected data source plus the rate
/// snapshot, absent until the first successful fetch.
pub struct ExchangeRateProvider<T: ExchangeRateApiConsumer> {
    pub data_source: T,
    pub data: Option<RateSnapshot>,
}

impl<T: ExchangeRateApiConsumer> ExchangeRateProvider<T> {
    /// Any snapshot the provider holds is well formed.
    pub open spec fn wf(self) -> bool {
        self.data matches Some(s) ==> s.wf()
    }

    /// Whether a snapshot has been stored.
    pub open spec fn populated(self) -> bool {
        self.data is Some
    }

    /// A provider in the empty state, owning its data source.
    pub fn new(data_source: T) -> (r: Self)
        ensures
            r.wf(),
            !r.populated(),
    {
        ExchangeRateProvider { data_source, data: None }
    }

    /// Obtain a rate snapshot, asking the data source only when none is
    /// stored yet.  On a provider that is already populated this returns
    /// at once, touching neither the snapshot nor the data source.  A
    /// failed or unusable response leaves the provider empty and is
    /// reported as the fetch error.
    pub fn fetch(&mut self) -> (r: Result<(), RateFetchError>)
        requires
            old(self).wf(),
        ensures
            final(self).wf(),
            r is Ok <==> final(self).populated(),
            old(self).populated() ==> *final(self) == *old(self) && r is Ok,
            r is Err ==> final(self).data is None,
    {
        if self.data.is_some() {
            return Ok(());
        }
        let rates = match self.data_source.fetch_api() {
            Ok(rates) => rates,
            Err(e) => {
                return Err(e);
            },
        };
        match RateSnapshot::new(&rates) {
            Ok(snap) => {
                self.data = Some(snap);
                Ok(())
            },
            Err(e) => Err(e),
        }
    }

    /// The value of one unit of `currency` in the base unit, from the
    /// stored snapshot.  Callable only once the provider is populated.
    pub fn btc_value(&self, currency: &Fiat) -> (r: Rat)
        requires
            self.wf(),
            self.populated(),
        ensures
            r == self.data->0.spec_btc_value(*currency),
            r.wf(),
            !r.neg,
            r.num >= 1,
    {
        match &self.data {
            Some(snap) => snap.btc_value(currency),
            None => {
                proof {
                    assert(false);
                }
                Rat { neg: false, num: 1, den: 1 }
            },
        }
    }
}

} // verus!
