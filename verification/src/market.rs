//! A toy stock market: companies are listed with a price and a stock count,
//! stocks are added, bought and sold at the quoted price, and a company's
//! price can be redrawn at random.

use rand::Rng;
use vstd::prelude::*;
use vstd::string::StringExecFns;

use crate::assoc::assoc_contains;
use crate::assoc::assoc_distinct;
use crate::assoc::assoc_keys;
use crate::assoc::assoc_lookup;
use crate::assoc::lemma_assoc_at;
use crate::assoc::lemma_assoc_iff;
use crate::assoc::lemma_assoc_update;

verus! {

pub type StockPrice = usize;

pub const DEFAULT_PRICE: StockPrice = 10;

#[derive(Debug, Clone, Copy, PartialEq, Eq, Structural)]
pub enum MarketError {
    CompanyAlreadyExists,
    CompanyNotFound,
    NoStocksLeft,
    WrongPrice,
}

impl MarketError {
    /// The error's description, one fixed line per variant.
    pub fn message(&self) -> (r: String)
        ensures
            r@ == self.spec_message(),
    {
        proof {
            reveal_strlit("company with given name already exists");
            reveal_strlit("company with given name not found");
            reveal_strlit("no stocks left");
            reveal_strlit("suggested and real stock prices don't match");
        }
        match self {
            MarketError::CompanyAlreadyExists => String::from_str(
                "company with given name already exists",
            ),
            MarketError::CompanyNotFound => String::from_str("company with given name not found"),
            MarketError::NoStocksLeft => String::from_str("no stocks left"),
            MarketError::WrongPrice => String::from_str(
                "suggested and real stock prices don't match",
            ),
        }
    }

    pub open spec fn spec_message(self) -> Seq<char> {
        match self {
            MarketError::CompanyAlreadyExists => "company with given name already exists"@,
            MarketError::CompanyNotFound => "company with given name not found"@,
            MarketError::NoStocksLeft => "no stocks left"@,
            MarketError::WrongPrice => "suggested and real stock prices don't match"@,
        }
    }
}

#[derive(Debug, Clone, Copy, PartialEq, Eq, Structural)]
pub struct Stock {
    pub price: StockPrice,
    pub number: usize,
}

impl View for Stock {
    type V = Stock;

    open spec fn view(&self) -> Stock {
        *self
    }
}

impl DeepView for Stock {
    type V = Stock;

    open spec fn deep_view(&self) -> Stock {
        *self
    }
}

/// The listed companies with their stocks, keyed by company name.
pub struct Market {
    stocks: Vec<(String, Stock)>,
}

/// The names under which stocks are listed, in listing order.
pub open spec fn company_keys(rs: Seq<(Seq<char>, Stock)>) -> Seq<Seq<char>> {
    assoc_keys(rs)
}

/// `x` occurs among `ids`.
pub open spec fn has_key(ids: Seq<Seq<char>>, x: Seq<char>) -> bool {
    assoc_contains(ids, x)
}

/// No name occurs twice.
pub open spec fn keys_distinct(ids: Seq<Seq<char>>) -> bool {
    assoc_distinct(ids)
}

/// The stock listed under `k`, if any.
pub open spec fn stock_lookup(rs: Seq<(Seq<char>, Stock)>, k: Seq<char>) -> Option<Stock> {
    assoc_lookup(rs, k)
}

impl Market {
    /// The listing as a sequence of (name, stock) pairs.
    pub closed spec fn stocks_view(self) -> Seq<(Seq<char>, Stock)> {
        self.stocks.deep_view()
    }

    /// One stock per company name.
    pub open spec fn wf(self) -> bool {
        keys_distinct(company_keys(self.stocks_view()))
    }

    /// What the market lists under a name.
    pub open spec fn spec_stock(self, company: Seq<char>) -> Option<Stock> {
        stock_lookup(self.stocks_view(), company)
    }

    pub fn new() -> (r: Self)
        ensures
            r.stocks_view() == Seq::<(Seq<char>, Stock)>::empty(),
            r.wf(),
    {
        let r = Market { stocks: Vec::new() };
        proof {
            assert(r.stocks_view() =~= Seq::<(Seq<char>, Stock)>::empty());
        }
        r
    }

    /// Lists a new company with the default price and no stocks; a name
    /// already listed is refused unchanged.
    pub fn add_company(&mut self, company: String) -> (r: Result<(), MarketError>)
        requires
            old(self).wf(),
        ensures
            final(self).wf(),
            old(self).spec_stock(company@) is Some ==> r == Err::<(), MarketError>(
                MarketError::CompanyAlreadyExists,
            ) && *final(self) == *old(self),
            old(self).spec_stock(company@) is None ==> r is Ok && final(self).stocks_view() == old(
                self,
            ).stocks_view().push((company@, Stock { price: DEFAULT_PRICE, number: 0 })),
    {
        proof {
            lemma_assoc_iff(self.stocks_view(), company@);
        }
        match self.find_company(&company) {
            Some(i) => {
                proof {
                    assert(company_keys(self.stocks_view())[i as int] == company@);
                }
                return Err(MarketError::CompanyAlreadyExists);
            },
            None => {},
        }
        let ghost before = self.stocks_view();
        self.stocks.push((company, Stock { price: DEFAULT_PRICE, number: 0 }));
        proof {
            assert(self.stocks_view() =~= before.push(
                (self.stocks@.last().0@, Stock { price: DEFAULT_PRICE, number: 0 }),
            ));
            assert(company_keys(self.stocks_view()) =~= company_keys(before).push(
                self.stocks@.last().0@,
            ));
            lemma_assoc_iff(before, self.stocks@.last().0@);
        }
        Ok(())
    }

    /// One more stock for the company; unknown names are refused unchanged.
    pub fn add_stock(&mut self, company: &String) -> (r: Result<(), MarketError>)
        requires
            old(self).wf(),
            old(self).spec_stock(company@) matches Some(st) ==> st.number < usize::MAX,
        ensures
            final(self).wf(),
            old(self).spec_stock(company@) is None ==> r == Err::<(), MarketError>(
                MarketError::CompanyNotFound,
            ) && *final(self) == *old(self),
            old(self).spec_stock(company@) matches Some(st) ==> {
                &&& r is Ok
                &&& final(self).spec_stock(company@) == Some(
                    Stock { price: st.price, number: (st.number + 1) as usize },
                )
                &&& (forall|k: Seq<char>|
                    k != company@ ==> final(self).spec_stock(k) == old(self).spec_stock(k))
                &&& company_keys(final(self).stocks_view()) == company_keys(
                    old(self).stocks_view(),
                )
            },
    {
        let i = match self.find_company(company) {
            Some(i) => i,
            None => {
                proof {
                    lemma_assoc_iff(self.stocks_view(), company@);
                }
                return Err(MarketError::CompanyNotFound);
            },
        };
        let st = self.stocks[i].1;
        let name = self.stocks[i].0.clone();
        proof {
            lemma_assoc_at(self.stocks_view(), i as int);
        }
        let updated = Stock { price: st.price, number: st.number + 1 };
        self.set_stock(i, name, updated);
        Ok(())
    }

    /// The stock listed under the name, or `CompanyNotFound`.
    pub fn get_stock(&self, company: &String) -> (r: Result<Stock, MarketError>)
        requires
            self.wf(),
        ensures
            r == match self.spec_stock(company@) {
                Some(st) => Ok::<Stock, MarketError>(st),
                None => Err::<Stock, MarketError>(MarketError::CompanyNotFound),
            },
    {
        match self.find_company(company) {
            Some(i) => {
                proof {
                    lemma_assoc_at(self.stocks_view(), i as int);
                }
                Ok(self.stocks[i].1)
            },
            None => {
                proof {
                    lemma_assoc_iff(self.stocks_view(), company@);
                }
                Err(MarketError::CompanyNotFound)
            },
        }
    }

    /// Buying takes one stock away, but only at the quoted price and only
    /// while stocks are left; every refusal leaves the market unchanged.
    pub fn buy(&mut self, company: &String, price: StockPrice) -> (r: Result<(), MarketError>)
        requires
            old(self).wf(),
        ensures
            final(self).wf(),
            old(self).spec_stock(company@) is None ==> r == Err::<(), MarketError>(
                MarketError::CompanyNotFound,
            ) && *final(self) == *old(self),
            old(self).spec_stock(company@) matches Some(st) ==> {
                &&& st.price != price ==> r == Err::<(), MarketError>(MarketError::WrongPrice)
                    && *final(self) == *old(self)
                &&& st.price == price && st.number == 0 ==> r == Err::<(), MarketError>(
                    MarketError::NoStocksLeft,
                ) && *final(self) == *old(self)
                &&& st.price == price && st.number > 0 ==> {
                    &&& r is Ok
                    &&& final(self).spec_stock(company@) == Some(
                        Stock { price: st.price, number: (st.number - 1) as usize },
                    )
                    &&& (forall|k: Seq<char>|
                        k != company@ ==> final(self).spec_stock(k) == old(self).spec_stock(k))
                    &&& company_keys(final(self).stocks_view()) == company_keys(
                        old(self).stocks_view(),
                    )
                }
            },
    {
        let i = match self.find_company(company) {
            Some(i) => i,
            None => {
                proof {
                    lemma_assoc_iff(self.stocks_view(), company@);
                }
                return Err(MarketError::CompanyNotFound);
            },
        };
        let st = self.stocks[i].1;
        proof {
            lemma_assoc_at(self.stocks_view(), i as int);
        }
        if st.price == price {
            if st.number > 0 {
                let name = self.stocks[i].0.clone();
                let updated = Stock { price: st.price, number: st.number - 1 };
                self.set_stock(i, name, updated);
                Ok(())
            } else {
                Err(MarketError::NoStocksLeft)
            }
        } else {
            Err(MarketError::WrongPrice)
        }
    }

    /// Selling hands one stock back and yields the quoted price.
    pub fn sell(&mut self, company: &String) -> (r: Result<StockPrice, MarketError>)
        requires
            old(self).wf(),
            old(self).spec_stock(company@) matches Some(st) ==> st.number < usize::MAX,
        ensures
            final(self).wf(),
            old(self).spec_stock(company@) is None ==> r == Err::<StockPrice, MarketError>(
                MarketError::CompanyNotFound,
            ) && *final(self) == *old(self),
            old(self).spec_stock(company@) matches Some(st) ==> {
                &&& r == Ok::<StockPrice, MarketError>(st.price)
                &&& final(self).spec_stock(company@) == Some(
                    Stock { price: st.price, number: (st.number + 1) as usize },
                )
                &&& (forall|k: Seq<char>|
                    k != company@ ==> final(self).spec_stock(k) == old(self).spec_stock(k))
                &&& company_keys(final(self).stocks_view()) == company_keys(
                    old(self).stocks_view(),
                )
            },
    {
        let i = match self.find_company(company) {
            Some(i) => i,
            None => {
                proof {
                    lemma_assoc_iff(self.stocks_view(), company@);
                }
                return Err(MarketError::CompanyNotFound);
            },
        };
        let st = self.stocks[i].1;
        let name = self.stocks[i].0.clone();
        proof {
            lemma_assoc_at(self.stocks_view(), i as int);
        }
        let updated = Stock { price: st.price, number: st.number + 1 };
        self.set_stock(i, name, updated);
        Ok(st.price)
    }

    /// Redraws the company's price at random; the new price is returned and
    /// lies in the drawing range, whatever was drawn.
    pub fn change_stock_price(&mut self, company: &String) -> (r: Result<StockPrice, MarketError>)
        requires
            old(self).wf(),
        ensures
            final(self).wf(),
            old(self).spec_stock(company@) is None ==> r == Err::<StockPrice, MarketError>(
                MarketError::CompanyNotFound,
            ) && *final(self) == *old(self),
            old(self).spec_stock(company@) matches Some(st) ==> r matches Ok(p) && {
                &&& 1 <= p < 100
                &&& final(self).spec_stock(company@) == Some(
                    Stock { price: p, number: st.number },
                )
                &&& (forall|k: Seq<char>|
                    k != company@ ==> final(self).spec_stock(k) == old(self).spec_stock(k))
                &&& company_keys(final(self).stocks_view()) == company_keys(
                    old(self).stocks_view(),
                )
            },
    {
        let i = match self.find_company(company) {
            Some(i) => i,
            None => {
                proof {
                    lemma_assoc_iff(self.stocks_view(), company@);
                }
                return Err(MarketError::CompanyNotFound);
            },
        };
        let st = self.stocks[i].1;
        let name = self.stocks[i].0.clone();
        proof {
            lemma_assoc_at(self.stocks_view(), i as int);
        }
        let new_price = Self::random_price();
        let updated = Stock { price: new_price, number: st.number };
        self.set_stock(i, name, updated);
        Ok(new_price)
    }

    /// Relies on `rand::Rng::gen_range` over `1..100`: a value drawn from
    /// the non-empty range, so at least 1 and below 100.
    #[verifier::external_body]
    fn random_price() -> (r: StockPrice)
        ensures
            1 <= r < 100,
    {
        rand::thread_rng().gen_range(1..100)
    }

    /// The index at which the company is listed.
    fn find_company(&self, company: &String) -> (r: Option<usize>)
        ensures
            match r {
                Some(i) => i < self.stocks_view().len() && self.stocks_view()[i as int].0
                    == company@,
                None => !has_key(company_keys(self.stocks_view()), company@),
            },
    {
        let mut i: usize = 0;
        while i < self.stocks.len()
            invariant
                0 <= i <= self.stocks_view().len(),
                self.stocks_view().len() == self.stocks@.len(),
                forall|j: int| 0 <= j < i ==> self.stocks_view()[j].0 != company@,
            decreases self.stocks@.len() - i,
        {
            if self.stocks[i].0 == *company {
                assert(self.stocks_view()[i as int].0 == company@);
                return Some(i);
            }
            i += 1;
        }
        proof {
            assert(forall|j: int|
                0 <= j < self.stocks_view().len() ==> company_keys(self.stocks_view())[j]
                    == self.stocks_view()[j].0);
        }
        None
    }

    /// Replaces the entry at `i`, keeping its key.
    fn set_stock(&mut self, i: usize, name: String, st: Stock)
        requires
            old(self).wf(),
            i < old(self).stocks_view().len(),
            name@ == old(self).stocks_view()[i as int].0,
        ensures
            final(self).wf(),
            final(self).stocks_view() == old(self).stocks_view().update(
                i as int,
                (name@, st),
            ),
            company_keys(final(self).stocks_view()) == company_keys(old(self).stocks_view()),
            final(self).spec_stock(name@) == Some(st),
            forall|k: Seq<char>|
                k != name@ ==> final(self).spec_stock(k) == old(self).spec_stock(k),
    {
        let ghost before = self.stocks_view();
        self.stocks.set(i, (name, st));
        proof {
            assert(self.stocks_view() =~= before.update(i as int, (before[i as int].0, st)));
            assert(company_keys(self.stocks_view()) =~= company_keys(before));
            lemma_assoc_update(before, i as int, st);
        }
    }
}

} // verus!
