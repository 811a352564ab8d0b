use vstd::prelude::*;

verus! {

/// Whether an integer can be held by an `i64`.
pub open spec fn fits(x: int) -> bool {
    i64::MIN <= x <= i64::MAX
}

/// The balance of one client. Amounts count ten-thousandths of a unit.
#[derive(Clone, Copy, Debug, PartialEq, Eq, Structural)]
pub struct Account {
    pub client: u16,
    pub available: i64,
    pub held: i64,
    pub total: i64,
    pub locked: bool,
}

impl Account {
    /// The total is the sum of the available and the held funds.
    pub open spec fn wf(self) -> bool {
        self.total == self.available + self.held
    }

    /// A fresh account: all balances zero, not locked.
    pub open spec fn fresh(client: u16) -> Account {
        Account { client, available: 0, held: 0, total: 0, locked: false }
    }

    /// The account after a deposit of `amount`, or `None` where a balance
    /// would leave the range of `i64`.
    pub open spec fn deposited(self, amount: i64) -> Option<Account> {
        let available = self.available + amount;
        let total = available + self.held;
        if fits(available) && fits(total) {
            Some(Account { available: available as i64, total: total as i64, ..self })
        } else {
            None
        }
    }

    /// The account after a withdrawal of `amount`: unchanged where the
    /// available funds do not cover it.
    pub open spec fn withdrawn(self, amount: i64) -> Option<Account> {
        if self.available < amount {
            Some(self)
        } else {
            let available = self.available - amount;
            let total = available + self.held;
            if fits(available) && fits(total) {
                Some(Account { available: available as i64, total: total as i64, ..self })
            } else {
                None
            }
        }
    }

    /// The account after `amount` moves from the available to the held funds.
    pub open spec fn disputed(self, amount: i64) -> Option<Account> {
        let available = self.available - amount;
        let held = self.held + amount;
        if fits(available) && fits(held) {
            Some(Account { available: available as i64, held: held as i64, ..self })
        } else {
            None
        }
    }

    /// The account after `amount` moves from the held back to the available funds.
    pub open spec fn resolved(self, amount: i64) -> Option<Account> {
        let available = self.available + amount;
        let held = self.held - amount;
        if fits(available) && fits(held) {
            Some(Account { available: available as i64, held: held as i64, ..self })
        } else {
            None
        }
    }

    /// The account after `amount` leaves the held funds, locked.
    pub open spec fn charged_back(self, amount: i64) -> Option<Account> {
        let held = self.held - amount;
        let total = self.available + held;
        if fits(held) && fits(total) {
            Some(Account { held: held as i64, total: total as i64, locked: true, ..self })
        } else {
            None
        }
    }

    pub fn new(client: u16) -> (r: Account)
        ensures
            r == Account::fresh(client),
            r.wf(),
    {
        Account { client, available: 0, held: 0, total: 0, locked: false }
    }

    /// Adds `amount` to the available funds. Returns `false`, and changes
    /// nothing, where a balance would overflow.
    pub fn deposit(&mut self, amount: i64) -> (ok: bool)
        requires
            old(self).wf(),
        ensures
            final(self).wf(),
            match old(self).deposited(amount) {
                Some(n) => ok && *final(self) == n,
                None => !ok && *final(self) == *old(self),
            },
    {
        match self.available.checked_add(amount) {
            None => false,
            Some(available) => match available.checked_add(self.held) {
                None => false,
                Some(total) => {
                    self.available = available;
                    self.total = total;
                    true
                },
            },
        }
    }

    /// Takes `amount` from the available funds where they cover it; does
    /// nothing otherwise. Returns `false`, and changes nothing, where a
    /// balance would overflow.
    pub fn withdraw(&mut self, amount: i64) -> (ok: bool)
        requires
            old(self).wf(),
        ensures
            final(self).wf(),
            match old(self).withdrawn(amount) {
                Some(n) => ok && *final(self) == n,
                None => !ok && *final(self) == *old(self),
            },
    {
        if self.available < amount {
            return true;
        }
        match self.available.checked_sub(amount) {
            None => false,
            Some(available) => match available.checked_add(self.held) {
                None => false,
                Some(total) => {
                    self.available = available;
                    self.total = total;
                    true
                },
            },
        }
    }

    /// Moves `amount` from the available to the held funds. Returns `false`,
    /// and changes nothing, where a balance would overflow.
    pub fn dispute(&mut self, amount: i64) -> (ok: bool)
        requires
            old(self).wf(),
        ensures
            final(self).wf(),
            match old(self).disputed(amount) {
                Some(n) => ok && *final(self) == n,
                None => !ok && *final(self) == *old(self),
            },
    {
        match self.available.checked_sub(amount) {
            None => false,
            Some(available) => match self.held.checked_add(amount) {
                None => false,
                Some(held) => {
                    self.available = available;
                    self.held = held;
                    true
                },
            },
        }
    }

    /// Moves `amount` from the held back to the available funds. Returns
    /// `false`, and changes nothing, where a balance would overflow.
    pub fn resolve(&mut self, amount: i64) -> (ok: bool)
        requires
            old(self).wf(),
        ensures
            final(self).wf(),
            match old(self).resolved(amount) {
                Some(n) => ok && *final(self) == n,
                None => !ok && *final(self) == *old(self),
            },
    {
        match self.available.checked_add(amount) {
            None => false,
            Some(available) => match self.held.checked_sub(amount) {
                None => false,
                Some(held) => {
                    self.available = available;
                    self.held = held;
                    true
                },
            },
        }
    }

    /// Removes `amount` from the held funds and locks the account. Returns
    /// `false`, and changes nothing, where a balance would overflow.
    pub fn chargeback(&mut self, amount: i64) -> (ok: bool)
        requires
            old(self).wf(),
        ensures
            final(self).wf(),
            match old(self).charged_back(amount) {
                Some(n) => ok && *final(self) == n,
                None => !ok && *final(self) == *old(self),
            },
    {
        match self.held.checked_sub(amount) {
            None => false,
            Some(held) => match self.available.checked_add(held) {
                None => false,
                Some(total) => {
                    self.held = held;
                    self.total = total;
                    self.locked = true;
                    true
                },
            },
        }
    }
}

} // verus!
