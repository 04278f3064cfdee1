//! Users' accounts against the stock market: balances, per-user holdings,
//! and the decisions behind buying, selling and valuing stocks.  The market
//! itself answers over the wire; its answers (`StockView`, `Sold`) come in
//! as plain values and every decision on them is made here.

use vstd::prelude::*;
use vstd::string::StringExecFns;

use crate::assoc::assoc_contains;
use crate::assoc::assoc_distinct;
use crate::assoc::assoc_keys;
use crate::assoc::assoc_lookup;
use crate::assoc::lemma_assoc_at;
use crate::assoc::lemma_assoc_distinct_push;
use crate::assoc::lemma_assoc_iff;
use crate::assoc::lemma_assoc_update;
use crate::market::StockPrice;

verus! {

/// The market's answer to a price-and-number query.
#[derive(Debug, PartialEq, Eq)]
pub struct StockView {
    pub company: String,
    pub number: usize,
    pub price: StockPrice,
}

/// The market's answer to a sale: the price it paid.
#[derive(Debug, PartialEq, Eq)]
pub struct Sold {
    pub price: StockPrice,
}

/// The market's answer to a price change.
#[derive(Debug, PartialEq, Eq)]
pub struct PriceChanged {
    pub price: StockPrice,
}

/// One line of a user's portfolio: a company, its quoted price, and how
/// many of its stocks the user holds.
#[derive(Debug, PartialEq, Eq)]
pub struct PersonalStockView {
    pub company: String,
    pub price: StockPrice,
    pub number: usize,
}

impl View for StockView {
    type V = (Seq<char>, (usize, StockPrice));

    open spec fn view(&self) -> (Seq<char>, (usize, StockPrice)) {
        (self.company@, (self.number, self.price))
    }
}

impl DeepView for StockView {
    type V = (Seq<char>, (usize, StockPrice));

    open spec fn deep_view(&self) -> (Seq<char>, (usize, StockPrice)) {
        self.view()
    }
}

impl View for PersonalStockView {
    type V = (Seq<char>, (StockPrice, usize));

    open spec fn view(&self) -> (Seq<char>, (StockPrice, usize)) {
        (self.company@, (self.price, self.number))
    }
}

impl DeepView for PersonalStockView {
    type V = (Seq<char>, (StockPrice, usize));

    open spec fn deep_view(&self) -> (Seq<char>, (StockPrice, usize)) {
        self.view()
    }
}

/// A user's balance and holdings, the latter keyed by company name.
pub struct UserState {
    balance: usize,
    stocks: Vec<(String, usize)>,
}

impl View for UserState {
    type V = (usize, Seq<(Seq<char>, usize)>);

    closed spec fn view(&self) -> (usize, Seq<(Seq<char>, usize)>) {
        (self.balance, self.stocks.deep_view())
    }
}

impl DeepView for UserState {
    type V = (usize, Seq<(Seq<char>, usize)>);

    closed spec fn deep_view(&self) -> (usize, Seq<(Seq<char>, usize)>) {
        self.view()
    }
}

impl Default for UserState {
    /// A fresh account: no money, no stocks.
    fn default() -> (r: Self)
        ensures
            r@ == (0usize, Seq::<(Seq<char>, usize)>::empty()),
    {
        let r = UserState { balance: 0, stocks: Vec::new() };
        proof {
            assert(r.stocks.deep_view() =~= Seq::<(Seq<char>, usize)>::empty());
        }
        r
    }
}

pub type UserId = String;

/// The account book: one state per user identifier.
pub struct AccountService {
    users: Vec<(String, UserState)>,
}

impl AccountService {
    /// The book as a table: user id to (balance, holdings).
    pub closed spec fn users_view(self) -> Seq<(Seq<char>, (usize, Seq<(Seq<char>, usize)>))> {
        self.users.deep_view()
    }

    /// What the book holds for one user.
    pub open spec fn spec_user(self, id: Seq<char>) -> Option<
        (usize, Seq<(Seq<char>, usize)>),
    > {
        assoc_lookup(self.users_view(), id)
    }

    /// Each user once, and each user's holdings list each company once.
    pub open spec fn wf(self) -> bool {
        &&& assoc_distinct(assoc_keys(self.users_view()))
        &&& forall|i: int|
            0 <= i < self.users_view().len() ==> assoc_distinct(
                assoc_keys((#[trigger] self.users_view()[i]).1.1),
            )
    }

    pub fn new() -> (r: Self)
        ensures
            r.users_view() == Seq::<(Seq<char>, (usize, Seq<(Seq<char>, usize)>))>::empty(),
            r.wf(),
    {
        let r = AccountService { users: Vec::new() };
        proof {
            assert(r.users_view() =~= Seq::<
                (Seq<char>, (usize, Seq<(Seq<char>, usize)>)),
            >::empty());
        }
        r
    }

    /// Opens a fresh account; an identifier already in the book is refused
    /// unchanged.
    pub fn add_user(&mut self, id: UserId) -> (r: Result<(), String>)
        requires
            old(self).wf(),
        ensures
            final(self).wf(),
            old(self).spec_user(id@) is Some ==> (r matches Err(e) && e@
                == "user already exists"@ && *final(self) == *old(self)),
            old(self).spec_user(id@) is None ==> r is Ok && final(self).users_view() == old(
                self,
            ).users_view().push((id@, (0usize, Seq::<(Seq<char>, usize)>::empty()))),
    {
        proof {
            lemma_assoc_iff(self.users_view(), id@);
            reveal_strlit("user already exists");
        }
        match self.find_user(&id) {
            Some(i) => {
                proof {
                    assert(assoc_keys(self.users_view())[i as int] == id@);
                }
                Err(String::from_str("user already exists"))
            },
            None => {
                let ghost before = self.users_view();
                self.users.push((id, UserState::default()));
                proof {
                    assert(self.users_view() =~= before.push(
                        (self.users@.last().0@, (0usize, Seq::<(Seq<char>, usize)>::empty())),
                    ));
                    assert(assoc_keys(self.users_view()) =~= assoc_keys(before).push(
                        self.users@.last().0@,
                    ));
                    lemma_assoc_distinct_push(before, self.users@.last().0@);
                }
                Ok(())
            },
        }
    }

    /// Pays money into the user's account.
    pub fn replenish(&mut self, id: UserId, amount: usize) -> (r: Result<(), String>)
        requires
            old(self).wf(),
            old(self).spec_user(id@) matches Some(u) ==> u.0 + amount <= usize::MAX,
        ensures
            final(self).wf(),
            old(self).spec_user(id@) is None ==> (r matches Err(e) && e@ == "user not found"@
                && *final(self) == *old(self)),
            old(self).spec_user(id@) matches Some(u) ==> {
                &&& r is Ok
                &&& final(self).spec_user(id@) == Some(((u.0 + amount) as usize, u.1))
                &&& (forall|k: Seq<char>|
                    k != id@ ==> final(self).spec_user(k) == old(self).spec_user(k))
                &&& assoc_keys(final(self).users_view()) == assoc_keys(old(self).users_view())
            },
    {
        let i = match self.find_user(&id) {
            Some(i) => i,
            None => {
                proof {
                    lemma_assoc_iff(self.users_view(), id@);
                    reveal_strlit("user not found");
                }
                return Err(String::from_str("user not found"));
            },
        };
        proof {
            lemma_assoc_at(self.users_view(), i as int);
        }
        let ghost before = self.users_view();
        let mut entry = self.users.remove(i);
        entry.1.balance = entry.1.balance + amount;
        self.users.insert(i, entry);
        proof {
            assert(self.users_view() =~= before.update(
                i as int,
                (before[i as int].0, ((before[i as int].1.0 + amount) as usize, before[i as int].1.1)),
            ));
            assert(assoc_keys(self.users_view()) =~= assoc_keys(before));
            lemma_assoc_update(
                before,
                i as int,
                ((before[i as int].1.0 + amount) as usize, before[i as int].1.1),
            );
        }
        Ok(())
    }

    /// The user's portfolio, priced by the market's answers: one line per
    /// held company.  It fails when the book has no such user, and when the
    /// answers skip a held company — the market call for it failed.
    pub fn view_stocks(&self, id: UserId, prices: &Vec<StockView>) -> (r: Result<
        Vec<PersonalStockView>,
        String,
    >)
        requires
            self.wf(),
        ensures
            self.spec_user(id@) is None ==> (r matches Err(e) && e@ == "user not found"@),
            self.spec_user(id@) matches Some(u) ==> {
                &&& (r is Ok <==> (forall|i: int|
                    0 <= i < u.1.len() ==> assoc_lookup(
                        prices.deep_view(),
                        (#[trigger] u.1[i]).0,
                    ) is Some))
                &&& r matches Ok(v) ==> v.deep_view().len() == u.1.len() && (forall|i: int|
                    0 <= i < u.1.len() ==> v.deep_view()[i] == (
                        (#[trigger] u.1[i]).0,
                        (
                            assoc_lookup(prices.deep_view(), u.1[i].0).unwrap().1,
                            u.1[i].1,
                        ),
                    ))
            },
    {
        let i = match self.find_user(&id) {
            Some(i) => i,
            None => {
                proof {
                    lemma_assoc_iff(self.users_view(), id@);
                    reveal_strlit("user not found");
                }
                return Err(String::from_str("user not found"));
            },
        };
        proof {
            lemma_assoc_at(self.users_view(), i as int);
        }
        let owned = &self.users[i].1.stocks;
        proof {
            assert(owned.deep_view() == self.spec_user(id@).unwrap().1);
        }
        let mut views: Vec<PersonalStockView> = Vec::new();
        let mut j: usize = 0;
        while j < owned.len()
            invariant
                0 <= j <= owned@.len(),
                self.spec_user(id@) is Some,
                owned.deep_view() == self.spec_user(id@).unwrap().1,
                owned.deep_view().len() == owned@.len(),
                views.deep_view().len() == j,
                forall|t: int|
                    0 <= t < j ==> assoc_lookup(
                        prices.deep_view(),
                        (#[trigger] owned.deep_view()[t]).0,
                    ) is Some,
                forall|t: int|
                    0 <= t < j ==> views.deep_view()[t] == (
                        (#[trigger] owned.deep_view()[t]).0,
                        (
                            assoc_lookup(prices.deep_view(), owned.deep_view()[t].0).unwrap().1,
                            owned.deep_view()[t].1,
                        ),
                    ),
            decreases owned@.len() - j,
        {
            let company = &owned[j].0;
            let p = match find_price(prices, company) {
                Some(p) => p,
                None => {
                    proof {
                        lemma_assoc_iff(prices.deep_view(), company@);
                        assert(assoc_lookup(
                            prices.deep_view(),
                            owned.deep_view()[j as int].0,
                        ) is None);
                        reveal_strlit("price not available");
                    }
                    return Err(String::from_str("price not available"));
                },
            };
            views.push(
                PersonalStockView { company: company.clone(), price: p, number: owned[j].1 },
            );
            j += 1;
        }
        Ok(views)
    }

    /// The market value of the user's holdings: each line's price times its
    /// count, summed.
    pub fn get_total_stocks_value(&self, id: UserId, prices: &Vec<StockView>) -> (r: Result<
        StockPrice,
        String,
    >)
        requires
            self.wf(),
            self.spec_user(id@) matches Some(u) ==> holdings_value(u.1, prices.deep_view())
                <= usize::MAX,
        ensures
            self.spec_user(id@) is None ==> r is Err,
            self.spec_user(id@) matches Some(u) ==> {
                &&& (r is Ok <==> (forall|i: int|
                    0 <= i < u.1.len() ==> assoc_lookup(
                        prices.deep_view(),
                        (#[trigger] u.1[i]).0,
                    ) is Some))
                &&& r matches Ok(v) ==> v == holdings_value(u.1, prices.deep_view())
            },
    {
        let ghost u = self.spec_user(id@).unwrap();
        let stocks = match self.view_stocks(id, prices) {
            Ok(v) => v,
            Err(e) => {
                return Err(e);
            },
        };
        let mut sum: usize = 0;
        let mut j: usize = 0;
        proof {
            lemma_holdings_value_nonneg(u.1, prices.deep_view());
        }
        while j < stocks.len()
            invariant
                0 <= j <= stocks@.len(),
                stocks.deep_view().len() == stocks@.len(),
                stocks.deep_view().len() == u.1.len(),
                forall|t: int|
                    0 <= t < u.1.len() ==> stocks.deep_view()[t] == (
                        (#[trigger] u.1[t]).0,
                        (
                            assoc_lookup(prices.deep_view(), u.1[t].0).unwrap().1,
                            u.1[t].1,
                        ),
                    ),
                forall|t: int|
                    0 <= t < u.1.len() ==> assoc_lookup(
                        prices.deep_view(),
                        (#[trigger] u.1[t]).0,
                    ) is Some,
                sum == holdings_value(u.1.take(j as int), prices.deep_view()),
                holdings_value(u.1, prices.deep_view()) <= usize::MAX,
            decreases stocks@.len() - j,
        {
            proof {
                assert(u.1.take(j + 1).drop_last() =~= u.1.take(j as int));
                assert(u.1.take(j + 1).last() == u.1[j as int]);
                lemma_holdings_value_prefix(u.1, prices.deep_view(), j + 1);
                lemma_holdings_value_nonneg(u.1.take(j as int), prices.deep_view());
            }
            let line = &stocks[j];
            sum = sum + line.price * line.number;
            j += 1;
        }
        proof {
            assert(u.1.take(u.1.len() as int) =~= u.1);
        }
        Ok(sum)
    }

    /// Buys one stock of `company` at the market's quoted price: the price
    /// leaves the balance and the holding grows by one.  An unknown user or
    /// a balance below the price refuses the purchase unchanged.
    pub fn buy_stock(&mut self, id: UserId, company: String, price: StockPrice) -> (r: Result<
        (),
        String,
    >)
        requires
            old(self).wf(),
            old(self).spec_user(id@) matches Some(u) ==> (assoc_lookup(u.1, company@) matches
                Some(n) ==> n < usize::MAX),
        ensures
            final(self).wf(),
            old(self).spec_user(id@) is None ==> (r matches Err(e) && e@ == "user not found"@
                && *final(self) == *old(self)),
            old(self).spec_user(id@) matches Some(u) ==> {
                &&& u.0 < price ==> (r matches Err(e) && e@ == "Not enough money"@ && *final(self) == *old(self))
                &&& u.0 >= price ==> {
                    &&& r is Ok
                    &&& final(self).spec_user(id@) == Some(
                        (
                            (u.0 - price) as usize,
                            match assoc_lookup(u.1, company@) {
                                Some(n) => stocks_with(u.1, company@, (n + 1) as usize),
                                None => u.1.push((company@, 1usize)),
                            },
                        ),
                    )
                    &&& (forall|k: Seq<char>|
                        k != id@ ==> final(self).spec_user(k) == old(self).spec_user(k))
                    &&& assoc_keys(final(self).users_view()) == assoc_keys(
                        old(self).users_view(),
                    )
                }
            },
    {
        let i = match self.find_user(&id) {
            Some(i) => i,
            None => {
                proof {
                    lemma_assoc_iff(self.users_view(), id@);
                    reveal_strlit("user not found");
                }
                return Err(String::from_str("user not found"));
            },
        };
        proof {
            lemma_assoc_at(self.users_view(), i as int);
        }
        if self.users[i].1.balance < price {
            proof {
                reveal_strlit("Not enough money");
            }
            return Err(String::from_str("Not enough money"));
        }
        let ghost before = self.users_view();
        let ghost u = before[i as int].1;
        let mut entry = self.users.remove(i);
        entry.1.balance = entry.1.balance - price;
        let ghost owned = entry.1.stocks.deep_view();
        match find_stock(&entry.1.stocks, &company) {
            Some(j) => {
                proof {
                    lemma_assoc_at(owned, j as int);
                }
                let mut line = entry.1.stocks.remove(j);
                line.1 = line.1 + 1;
                entry.1.stocks.insert(j, line);
                proof {
                    assert(entry.1.stocks.deep_view() =~= owned.update(
                        j as int,
                        (owned[j as int].0, (owned[j as int].1 + 1) as usize),
                    ));
                    lemma_assoc_update(owned, j as int, (owned[j as int].1 + 1) as usize);
                    lemma_stocks_with(owned, j as int, (owned[j as int].1 + 1) as usize);
                    assert(assoc_keys(entry.1.stocks.deep_view()) =~= assoc_keys(owned));
                }
            },
            None => {
                proof {
                    lemma_assoc_iff(owned, company@);
                }
                entry.1.stocks.push((company, 1));
                proof {
                    assert(entry.1.stocks.deep_view() =~= owned.push(
                        (entry.1.stocks@.last().0@, 1usize),
                    ));
                    lemma_assoc_distinct_push(owned, entry.1.stocks@.last().0@);
                    assert(assoc_keys(entry.1.stocks.deep_view()) =~= assoc_keys(owned).push(
                        entry.1.stocks@.last().0@,
                    ));
                }
            },
        }
        let ghost new_user = (entry.1.balance, entry.1.stocks.deep_view());
        self.users.insert(i, entry);
        proof {
            assert(self.users_view() =~= before.update(
                i as int,
                (before[i as int].0, new_user),
            ));
            assert(assoc_keys(self.users_view()) =~= assoc_keys(before));
            lemma_assoc_update(before, i as int, new_user);
            assert(assoc_distinct(assoc_keys(new_user.1)));
            assert forall|i2: int| 0 <= i2 < self.users_view().len() implies assoc_distinct(
                assoc_keys((#[trigger] self.users_view()[i2]).1.1),
            ) by {
                if i2 == i {
                    assert(self.users_view()[i2].1 == new_user);
                } else {
                    assert(self.users_view()[i2] == before[i2]);
                    assert(assoc_distinct(assoc_keys(before[i2].1.1)));
                }
            }
        }
        Ok(())
    }

    /// Sells one stock of `company` back: the holding shrinks by one and
    /// the price the market paid lands on the balance.  Without such a
    /// stock in hand the sale is refused unchanged.
    pub fn sell_stock(&mut self, id: UserId, company: String, sold: Sold) -> (r: Result<
        (),
        String,
    >)
        requires
            old(self).wf(),
            old(self).spec_user(id@) matches Some(u) ==> u.0 + sold.price <= usize::MAX,
        ensures
            final(self).wf(),
            old(self).spec_user(id@) is None ==> (r matches Err(e) && e@ == "user not found"@
                && *final(self) == *old(self)),
            old(self).spec_user(id@) matches Some(u) ==> {
                &&& (assoc_lookup(u.1, company@) is None || assoc_lookup(u.1, company@)
                    == Some(0usize)) ==> (r matches Err(e) && e@ == "Not enough stocks"@
                    && *final(self) == *old(self))
                &&& (assoc_lookup(u.1, company@) matches Some(n) && n > 0) ==> {
                    &&& r is Ok
                    &&& final(self).spec_user(id@) == Some(
                        (
                            (u.0 + sold.price) as usize,
                            stocks_with(
                                u.1,
                                company@,
                                (assoc_lookup(u.1, company@).unwrap() - 1) as usize,
                            ),
                        ),
                    )
                    &&& (forall|k: Seq<char>|
                        k != id@ ==> final(self).spec_user(k) == old(self).spec_user(k))
                    &&& assoc_keys(final(self).users_view()) == assoc_keys(
                        old(self).users_view(),
                    )
                }
            },
    {
        let i = match self.find_user(&id) {
            Some(i) => i,
            None => {
                proof {
                    lemma_assoc_iff(self.users_view(), id@);
                    reveal_strlit("user not found");
                }
                return Err(String::from_str("user not found"));
            },
        };
        proof {
            lemma_assoc_at(self.users_view(), i as int);
            reveal_strlit("Not enough stocks");
        }
        let ghost before = self.users_view();
        let ghost owned = before[i as int].1.1;
        let j = match find_stock(&self.users[i].1.stocks, &company) {
            Some(j) => j,
            None => {
                proof {
                    lemma_assoc_iff(owned, company@);
                }
                return Err(String::from_str("Not enough stocks"));
            },
        };
        proof {
            lemma_assoc_at(owned, j as int);
        }
        if self.users[i].1.stocks[j].1 == 0 {
            return Err(String::from_str("Not enough stocks"));
        }
        let mut entry = self.users.remove(i);
        entry.1.balance = entry.1.balance + sold.price;
        let mut line = entry.1.stocks.remove(j);
        line.1 = line.1 - 1;
        entry.1.stocks.insert(j, line);
        proof {
            assert(entry.1.stocks.deep_view() =~= owned.update(
                j as int,
                (owned[j as int].0, (owned[j as int].1 - 1) as usize),
            ));
            lemma_assoc_update(owned, j as int, (owned[j as int].1 - 1) as usize);
            lemma_stocks_with(owned, j as int, (owned[j as int].1 - 1) as usize);
            assert(assoc_keys(entry.1.stocks.deep_view()) =~= assoc_keys(owned));
        }
        let ghost new_user = (entry.1.balance, entry.1.stocks.deep_view());
        self.users.insert(i, entry);
        proof {
            assert(self.users_view() =~= before.update(
                i as int,
                (before[i as int].0, new_user),
            ));
            assert(assoc_keys(self.users_view()) =~= assoc_keys(before));
            lemma_assoc_update(before, i as int, new_user);
            assert(assoc_distinct(assoc_keys(new_user.1)));
            assert forall|i2: int| 0 <= i2 < self.users_view().len() implies assoc_distinct(
                assoc_keys((#[trigger] self.users_view()[i2]).1.1),
            ) by {
                if i2 == i {
                    assert(self.users_view()[i2].1 == new_user);
                } else {
                    assert(self.users_view()[i2] == before[i2]);
                    assert(assoc_distinct(assoc_keys(before[i2].1.1)));
                }
            }
        }
        Ok(())
    }

    /// The index of the user's entry.
    fn find_user(&self, id: &String) -> (r: Option<usize>)
        ensures
            match r {
                Some(i) => i < self.users_view().len() && self.users_view()[i as int].0 == id@,
                None => !assoc_contains(assoc_keys(self.users_view()), id@),
            },
    {
        let mut i: usize = 0;
        while i < self.users.len()
            invariant
                0 <= i <= self.users@.len(),
                self.users_view().len() == self.users@.len(),
                forall|j: int| 0 <= j < i ==> self.users_view()[j].0 != id@,
            decreases self.users@.len() - i,
        {
            if self.users[i].0 == *id {
                assert(self.users_view()[i as int].0 == id@);
                return Some(i);
            }
            i += 1;
        }
        proof {
            assert(forall|j: int|
                0 <= j < self.users_view().len() ==> assoc_keys(self.users_view())[j]
                    == self.users_view()[j].0);
        }
        None
    }
}

/// The holdings table with one company's count replaced.
pub open spec fn stocks_with(
    owned: Seq<(Seq<char>, usize)>,
    company: Seq<char>,
    n: usize,
) -> Seq<(Seq<char>, usize)> {
    Seq::new(
        owned.len(),
        |i: int|
            if owned[i].0 == company {
                (owned[i].0, n)
            } else {
                owned[i]
            },
    )
}

/// Under pairwise different keys, updating the entry at `j` is exactly
/// `stocks_with` of its key.
proof fn lemma_stocks_with(owned: Seq<(Seq<char>, usize)>, j: int, n: usize)
    requires
        assoc_distinct(assoc_keys(owned)),
        0 <= j < owned.len(),
    ensures
        owned.update(j, (owned[j].0, n)) == stocks_with(owned, owned[j].0, n),
{
    assert(forall|t: int| 0 <= t < owned.len() ==> assoc_keys(owned)[t] == owned[t].0);
    assert forall|t: int| 0 <= t < owned.len() implies owned.update(j, (owned[j].0, n))[t]
        == stocks_with(owned, owned[j].0, n)[t] by {
        if t < j {
            assert(assoc_keys(owned)[t] != assoc_keys(owned)[j]);
        } else if t > j {
            assert(assoc_keys(owned)[j] != assoc_keys(owned)[t]);
        }
    }
    assert(owned.update(j, (owned[j].0, n)) =~= stocks_with(owned, owned[j].0, n));
}

/// The value of a holdings table under the market's answers: price times
/// count, summed in table order; lines without an answer count nothing.
pub open spec fn holdings_value(
    owned: Seq<(Seq<char>, usize)>,
    prices: Seq<(Seq<char>, (usize, StockPrice))>,
) -> int
    decreases owned.len(),
{
    if owned.len() == 0 {
        0
    } else {
        holdings_value(owned.drop_last(), prices) + (match assoc_lookup(
            prices,
            owned.last().0,
        ) {
            Some(v) => v.1 * owned.last().1,
            None => 0,
        })
    }
}

/// A holdings value is never negative.
proof fn lemma_holdings_value_nonneg(
    owned: Seq<(Seq<char>, usize)>,
    prices: Seq<(Seq<char>, (usize, StockPrice))>,
)
    ensures
        holdings_value(owned, prices) >= 0,
    decreases owned.len(),
{
    if owned.len() > 0 {
        lemma_holdings_value_nonneg(owned.drop_last(), prices);
    }
}

/// A prefix of the holdings is worth at most the whole.
proof fn lemma_holdings_value_prefix(
    owned: Seq<(Seq<char>, usize)>,
    prices: Seq<(Seq<char>, (usize, StockPrice))>,
    i: int,
)
    requires
        0 <= i <= owned.len(),
    ensures
        holdings_value(owned.take(i), prices) <= holdings_value(owned, prices),
    decreases owned.len() - i,
{
    if i == owned.len() {
        assert(owned.take(i) =~= owned);
    } else {
        lemma_holdings_value_prefix(owned, prices, i + 1);
        assert(owned.take(i + 1).drop_last() =~= owned.take(i));
        lemma_holdings_value_nonneg(owned.take(i + 1), prices);
    }
}

/// The index of the market's answer for a company, and its price.
fn find_price(prices: &Vec<StockView>, company: &String) -> (r: Option<StockPrice>)
    ensures
        match r {
            Some(p) => assoc_lookup(prices.deep_view(), company@) matches Some(v) && v.1 == p,
            None => !assoc_contains(assoc_keys(prices.deep_view()), company@),
        },
{
    let mut i: usize = 0;
    while i < prices.len()
        invariant
            0 <= i <= prices@.len(),
            prices.deep_view().len() == prices@.len(),
            forall|j: int| 0 <= j < i ==> prices.deep_view()[j].0 != company@,
        decreases prices@.len() - i,
    {
        if prices[i].company == *company {
            proof {
                assert(prices.deep_view()[i as int].0 == company@);
                lemma_assoc_first_hit(prices.deep_view(), i as int, company@);
            }
            return Some(prices[i].price);
        }
        i += 1;
    }
    proof {
        assert(forall|j: int|
            0 <= j < prices.deep_view().len() ==> assoc_keys(prices.deep_view())[j]
                == prices.deep_view()[j].0);
    }
    None
}

/// A first occurrence is what the lookup finds, pairwise different keys or
/// not.
proof fn lemma_assoc_first_hit<V>(rs: Seq<(Seq<char>, V)>, i: int, k: Seq<char>)
    requires
        0 <= i < rs.len(),
        rs[i].0 == k,
        forall|j: int| 0 <= j < i ==> rs[j].0 != k,
    ensures
        assoc_lookup(rs, k) == Some(rs[i].1),
    decreases i,
{
    if i > 0 {
        assert(rs.drop_first()[i - 1] == rs[i]);
        lemma_assoc_first_hit(rs.drop_first(), i - 1, k);
    }
}

/// The index of a company among the user's holdings.
fn find_stock(owned: &Vec<(String, usize)>, company: &String) -> (r: Option<usize>)
    ensures
        match r {
            Some(j) => j < owned.deep_view().len() && owned.deep_view()[j as int].0
                == company@,
            None => !assoc_contains(assoc_keys(owned.deep_view()), company@),
        },
{
    let mut i: usize = 0;
    while i < owned.len()
        invariant
            0 <= i <= owned@.len(),
            owned.deep_view().len() == owned@.len(),
            forall|j: int| 0 <= j < i ==> owned.deep_view()[j].0 != company@,
        decreases owned@.len() - i,
    {
        if owned[i].0 == *company {
            assert(owned.deep_view()[i as int].0 == company@);
            return Some(i);
        }
        i += 1;
    }
    proof {
        assert(forall|j: int|
            0 <= j < owned.deep_view().len() ==> assoc_keys(owned.deep_view())[j]
                == owned.deep_view()[j].0);
    }
    None
}

} // verus!
