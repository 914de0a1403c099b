use std::collections::HashMap;
use vstd::prelude::*;

use crate::error::AppError;
use crate::transaction::{TransactionRecord, TransactionStatus, TransactionType};

verus! {

broadcast use vstd::std_specs::hash::group_hash_axioms;

/// The balances of one client, in ten-thousandths.
#[derive(Debug, Clone, Copy, PartialEq, Eq)]
pub struct ClientAccount {
    pub client: u16,
    pub available: u64,
    pub held: u64,
    pub total: u64,
    pub locked: bool,
}

/// What applying one record yields: the account, the ledger and the outcome.
pub type Applied = (ClientAccount, Map<u32, TransactionStatus>, Result<(), AppError>);

impl ClientAccount {
    /// The total is always the sum of the available and held funds.
    pub open spec fn wf(&self) -> bool {
        self.total == self.available + self.held
    }

    pub open spec fn fresh(client: u16) -> ClientAccount {
        ClientAccount { client, available: 0, held: 0, total: 0, locked: false }
    }

    /// The account with `delta` added to the available funds and the total.
    pub open spec fn credited(self, delta: int) -> ClientAccount {
        ClientAccount {
            available: (self.available + delta) as u64,
            total: (self.total + delta) as u64,
            ..self
        }
    }

    /// The account with `delta` moved from the available funds to the held ones.
    pub open spec fn held_more(self, delta: int) -> ClientAccount {
        ClientAccount {
            available: (self.available - delta) as u64,
            held: (self.held + delta) as u64,
            ..self
        }
    }

    /// The account after a chargeback of `amount`.
    pub open spec fn charged_back(self, amount: int) -> ClientAccount {
        ClientAccount {
            held: (self.held - amount) as u64,
            total: (self.total - amount) as u64,
            locked: true,
            ..self
        }
    }

    /// Applying one record to this account and the ledger, as the account
    /// state machine defines it.
    pub open spec fn step(self, ledger: Map<u32, TransactionStatus>, rec: TransactionRecord) -> Applied {
        if self.locked {
            (self, ledger, Err(AppError::AccountLocked))
        } else {
            match rec.kind {
                TransactionType::Deposit => {
                    if ledger.contains_key(rec.tx) {
                        (self, ledger, Err(AppError::DuplicateRecord))
                    } else if rec.amount is None {
                        (self, ledger, Err(AppError::InvalidTransactionFundAmount))
                    } else if self.total + rec.amount->0 > u64::MAX {
                        (self, ledger, Err(AppError::BalanceOverflow))
                    } else {
                        (
                            self.credited(rec.amount->0 as int),
                            ledger.insert(rec.tx, TransactionStatus::fresh(rec)),
                            Ok(()),
                        )
                    }
                },
                TransactionType::Withdrawal => {
                    if rec.amount is None {
                        (self, ledger, Err(AppError::InvalidTransactionFundAmount))
                    } else if self.available < rec.amount->0 {
                        (self, ledger, Err(AppError::NotEnoughFunds))
                    } else {
                        (self.credited(-(rec.amount->0 as int)), ledger, Ok(()))
                    }
                },
                TransactionType::Dispute => {
                    if !ledger.contains_key(rec.tx) {
                        (self, ledger, Ok(()))
                    } else {
                        let st = ledger[rec.tx];
                        if st.disputed {
                            (self, ledger, Err(AppError::DisputeAlreadyExists))
                        } else if st.deposited.amount is None {
                            (self, ledger, Err(AppError::InvalidTransactionFundAmount))
                        } else if self.available < st.deposited.amount->0 {
                            (self, ledger, Err(AppError::NotEnoughFunds))
                        } else {
                            (
                                self.held_more(st.deposited.amount->0 as int),
                                ledger.insert(rec.tx, TransactionStatus { disputed: true, ..st }),
                                Ok(()),
                            )
                        }
                    }
                },
                TransactionType::Resolve => {
                    if !ledger.contains_key(rec.tx) || !ledger[rec.tx].disputed {
                        (self, ledger, Ok(()))
                    } else {
                        let st = ledger[rec.tx];
                        if st.deposited.amount is None {
                            (self, ledger, Err(AppError::InvalidTransactionFundAmount))
                        } else if self.held < st.deposited.amount->0 {
                            (self, ledger, Err(AppError::NotEnoughFunds))
                        } else {
                            (
                                self.held_more(-(st.deposited.amount->0 as int)),
                                ledger.insert(
                                    rec.tx,
                                    TransactionStatus { disputed: false, resolved: true, ..st },
                                ),
                                Ok(()),
                            )
                        }
                    }
                },
                TransactionType::Chargeback => {
                    if !ledger.contains_key(rec.tx) || !ledger[rec.tx].disputed {
                        (self, ledger, Ok(()))
                    } else {
                        let st = ledger[rec.tx];
                        if st.deposited.amount is None {
                            (self, ledger, Err(AppError::InvalidTransactionFundAmount))
                        } else if self.held < st.deposited.amount->0 {
                            (self, ledger, Err(AppError::NotEnoughFunds))
                        } else {
                            (
                                self.charged_back(st.deposited.amount->0 as int),
                                ledger.insert(
                                    rec.tx,
                                    TransactionStatus { disputed: false, charged_back: true, ..st },
                                ),
                                Ok(()),
                            )
                        }
                    }
                },
            }
        }
    }

    /// A new unlocked account with all balances zero.
    pub fn new(client: u16) -> (r: ClientAccount)
        ensures
            r == ClientAccount::fresh(client),
    {
        ClientAccount { client, available: 0, held: 0, total: 0, locked: false }
    }

    /// Applies one record to this account and to the ledger of deposits.
    /// Records that the account state machine rejects leave both unchanged.
    pub fn apply_transaction_record(
        &mut self,
        transaction: &TransactionRecord,
        processed_transactions: &mut HashMap<u32, TransactionStatus>,
    ) -> (r: Result<(), AppError>)
        requires
            old(self).wf(),
        ensures
            final(self).wf(),
            *final(self) == old(self).step(old(processed_transactions)@, *transaction).0,
            final(processed_transactions)@ == old(self).step(
                old(processed_transactions)@,
                *transaction,
            ).1,
            r == old(self).step(old(processed_transactions)@, *transaction).2,
    {
        if self.locked {
            return Err(AppError::AccountLocked);
        }
        match transaction.kind {
            TransactionType::Deposit => {
                if processed_transactions.contains_key(&transaction.tx) {
                    return Err(AppError::DuplicateRecord);
                }
                match transaction.amount {
                    Some(amount) => {
                        let done = self.deposit(amount);
                        if done.is_err() {
                            return done;
                        }
                        processed_transactions.insert(
                            transaction.tx,
                            TransactionStatus {
                                deposited: *transaction,
                                disputed: false,
                                charged_back: false,
                                resolved: false,
                            },
                        );
                        Ok(())
                    },
                    None => Err(AppError::InvalidTransactionFundAmount),
                }
            },
            TransactionType::Withdrawal => {
                match transaction.amount {
                    Some(amount) => {
                        let done = self.withdraw(amount);
                        if done.is_err() {
                            return done;
                        }
                        Ok(())
                    },
                    None => Err(AppError::InvalidTransactionFundAmount),
                }
            },
            TransactionType::Dispute => {
                match processed_transactions.get(&transaction.tx) {
                    Some(found) => {
                        let status = *found;
                        if status.disputed {
                            return Err(AppError::DisputeAlreadyExists);
                        }
                        let amount = match status.deposited.amount {
                            Some(a) => a,
                            None => return Err(AppError::InvalidTransactionFundAmount),
                        };
                        let done = self.dispute(amount);
                        if done.is_err() {
                            return done;
                        }
                        processed_transactions.insert(
                            transaction.tx,
                            TransactionStatus { disputed: true, ..status },
                        );
                        Ok(())
                    },
                    None => Ok(()),
                }
            },
            TransactionType::Resolve => {
                match processed_transactions.get(&transaction.tx) {
                    Some(found) => {
                        let status = *found;
                        if !status.disputed {
                            return Ok(());
                        }
                        let amount = match status.deposited.amount {
                            Some(a) => a,
                            None => return Err(AppError::InvalidTransactionFundAmount),
                        };
                        let done = self.resolve(amount);
                        if done.is_err() {
                            return done;
                        }
                        processed_transactions.insert(
                            transaction.tx,
                            TransactionStatus { disputed: false, resolved: true, ..status },
                        );
                        Ok(())
                    },
                    None => Ok(()),
                }
            },
            TransactionType::Chargeback => {
                match processed_transactions.get(&transaction.tx) {
                    Some(found) => {
                        let status = *found;
                        if !status.disputed {
                            return Ok(());
                        }
                        let amount = match status.deposited.amount {
                            Some(a) => a,
                            None => return Err(AppError::InvalidTransactionFundAmount),
                        };
                        let done = self.chargeback(amount);
                        if done.is_err() {
                            return done;
                        }
                        processed_transactions.insert(
                            transaction.tx,
                            TransactionStatus { disputed: false, charged_back: true, ..status },
                        );
                        Ok(())
                    },
                    None => Ok(()),
                }
            },
        }
    }

    /// Credits `amount` to the available funds and the total.
    pub fn deposit(&mut self, amount: u64) -> (r: Result<(), AppError>)
        requires
            old(self).wf(),
        ensures
            final(self).wf(),
            r is Ok <==> old(self).total + amount <= u64::MAX,
            r is Ok ==> *final(self) == old(self).credited(amount as int),
            r is Err ==> r == Err::<(), AppError>(AppError::BalanceOverflow) && *final(self) == *old(self),
    {
        if amount > u64::MAX - self.total {
            return Err(AppError::BalanceOverflow);
        }
        self.available = self.available + amount;
        self.total = self.total + amount;
        Ok(())
    }

    /// Debits `amount` from the available funds and the total.
    pub fn withdraw(&mut self, amount: u64) -> (r: Result<(), AppError>)
        requires
            old(self).wf(),
        ensures
            final(self).wf(),
            r is Ok <==> amount <= old(self).available,
            r is Ok ==> *final(self) == old(self).credited(-(amount as int)),
            r is Err ==> r == Err::<(), AppError>(AppError::NotEnoughFunds) && *final(self) == *old(self),
    {
        if self.available >= amount {
            self.available = self.available - amount;
            self.total = self.total - amount;
            Ok(())
        } else {
            Err(AppError::NotEnoughFunds)
        }
    }

    /// Moves `amount` from the available funds to the held ones.
    pub fn dispute(&mut self, amount: u64) -> (r: Result<(), AppError>)
        requires
            old(self).wf(),
        ensures
            final(self).wf(),
            r is Ok <==> amount <= old(self).available,
            r is Ok ==> *final(self) == old(self).held_more(amount as int),
            r is Err ==> r == Err::<(), AppError>(AppError::NotEnoughFunds) && *final(self) == *old(self),
    {
        if self.available >= amount {
            self.available = self.available - amount;
            self.held = self.held + amount;
            Ok(())
        } else {
            Err(AppError::NotEnoughFunds)
        }
    }

    /// Moves `amount` from the held funds back to the available ones.
    pub fn resolve(&mut self, amount: u64) -> (r: Result<(), AppError>)
        requires
            old(self).wf(),
        ensures
            final(self).wf(),
            r is Ok <==> amount <= old(self).held,
            r is Ok ==> *final(self) == old(self).held_more(-(amount as int)),
            r is Err ==> r == Err::<(), AppError>(AppError::NotEnoughFunds) && *final(self) == *old(self),
    {
        if self.held >= amount {
            self.held = self.held - amount;
            self.available = self.available + amount;
            Ok(())
        } else {
            Err(AppError::NotEnoughFunds)
        }
    }

    /// Removes `amount` from the held funds and the total, and locks the account.
    pub fn chargeback(&mut self, amount: u64) -> (r: Result<(), AppError>)
        requires
            old(self).wf(),
        ensures
            final(self).wf(),
            r is Ok <==> amount <= old(self).held,
            r is Ok ==> *final(self) == old(self).charged_back(amount as int),
            r is Err ==> r == Err::<(), AppError>(AppError::NotEnoughFunds) && *final(self) == *old(self),
    {
        if self.held >= amount {
            self.held = self.held - amount;
            self.total = self.total - amount;
            self.locked = true;
            Ok(())
        } else {
            Err(AppError::NotEnoughFunds)
        }
    }
}

/// Every record, applied or refused, leaves the account balanced
/// (`total == available + held`) and bound to the same client.
pub proof fn lemma_step_keeps_balance(acct: ClientAccount, ledger: Map<u32, TransactionStatus>, rec: TransactionRecord)
    requires
        acct.wf(),
    ensures
        acct.step(ledger, rec).0.wf(),
        acct.step(ledger, rec).0.client == acct.client,
{
}

/// Once locked, an account refuses every record and neither it nor the
/// ledger changes.
pub proof fn lemma_locked_is_final(acct: ClientAccount, ledger: Map<u32, TransactionStatus>, rec: TransactionRecord)
    requires
        acct.locked,
    ensures
        acct.step(ledger, rec) == (acct, ledger, Err::<(), AppError>(AppError::AccountLocked)),
{
}

/// An account becomes locked only by a successful chargeback, and a
/// successful chargeback always locks it.
pub proof fn lemma_lock_only_by_chargeback(acct: ClientAccount, ledger: Map<u32, TransactionStatus>, rec: TransactionRecord)
    requires
        !acct.locked,
    ensures
        acct.step(ledger, rec).0.locked ==> rec.kind == TransactionType::Chargeback
            && acct.step(ledger, rec).2 is Ok,
        rec.kind == TransactionType::Chargeback && ledger.contains_key(rec.tx) && ledger[rec.tx].disputed
            && acct.step(ledger, rec).2 is Ok ==> acct.step(ledger, rec).0.locked,
{
}

/// A dispute that names a transaction id with no ledger entry changes
/// nothing, and is no failure on an unlocked account.
pub proof fn lemma_dispute_unknown_is_noop(acct: ClientAccount, ledger: Map<u32, TransactionStatus>, rec: TransactionRecord)
    requires
        rec.kind == TransactionType::Dispute,
        !ledger.contains_key(rec.tx),
    ensures
        acct.step(ledger, rec).0 == acct,
        acct.step(ledger, rec).1 == ledger,
        !acct.locked ==> acct.step(ledger, rec).2 is Ok,
{
}

/// A resolve or a chargeback that names a transaction that is not under
/// dispute (or has no ledger entry) changes nothing, and is no failure on an
/// unlocked account.
pub proof fn lemma_settle_undisputed_is_noop(acct: ClientAccount, ledger: Map<u32, TransactionStatus>, rec: TransactionRecord)
    requires
        rec.kind == TransactionType::Resolve || rec.kind == TransactionType::Chargeback,
        !ledger.contains_key(rec.tx) || !ledger[rec.tx].disputed,
    ensures
        acct.step(ledger, rec).0 == acct,
        acct.step(ledger, rec).1 == ledger,
        !acct.locked ==> acct.step(ledger, rec).2 is Ok,
{
}

/// After a dispute is resolved the same deposit can be disputed again: the
/// resolve succeeds, and the following dispute succeeds and brings back the
/// balances and the disputed mark that the first dispute had set.
pub proof fn lemma_redispute_after_resolve(
    acct: ClientAccount,
    ledger: Map<u32, TransactionStatus>,
    resolve: TransactionRecord,
    dispute: TransactionRecord,
)
    requires
        acct.wf(),
        !acct.locked,
        resolve.kind == TransactionType::Resolve,
        dispute.kind == TransactionType::Dispute,
        resolve.tx == dispute.tx,
        ledger.contains_key(resolve.tx),
        ledger[resolve.tx].disputed,
        ledger[resolve.tx].deposited.amount is Some,
        acct.held >= ledger[resolve.tx].deposited.amount->0,
    ensures
        ({
            let first = acct.step(ledger, resolve);
            let second = first.0.step(first.1, dispute);
            &&& first.2 is Ok
            &&& !first.1[resolve.tx].disputed
            &&& first.1[resolve.tx].resolved
            &&& second.2 is Ok
            &&& second.0 == acct
            &&& second.1[dispute.tx].disputed
        }),
{
}

/// A record changes no ledger entry but that of its own transaction id.
pub proof fn lemma_step_footprint(acct: ClientAccount, ledger: Map<u32, TransactionStatus>, rec: TransactionRecord, other: u32)
    requires
        other != rec.tx,
    ensures
        acct.step(ledger, rec).1.contains_key(other) == ledger.contains_key(other),
        ledger.contains_key(other) ==> acct.step(ledger, rec).1[other] == ledger[other],
{
}

/// A record reads the ledger only at its own transaction id: on two ledgers
/// that agree there it gives the same account, the same outcome and the same
/// entry there.
pub proof fn lemma_step_reads_own_entry(
    acct: ClientAccount,
    l1: Map<u32, TransactionStatus>,
    l2: Map<u32, TransactionStatus>,
    rec: TransactionRecord,
)
    requires
        l1.contains_key(rec.tx) == l2.contains_key(rec.tx),
        l1.contains_key(rec.tx) ==> l1[rec.tx] == l2[rec.tx],
    ensures
        acct.step(l1, rec).0 == acct.step(l2, rec).0,
        acct.step(l1, rec).2 == acct.step(l2, rec).2,
        acct.step(l1, rec).1.contains_key(rec.tx) == acct.step(l2, rec).1.contains_key(rec.tx),
        acct.step(l1, rec).1.contains_key(rec.tx) ==> acct.step(l1, rec).1[rec.tx] == acct.step(
            l2,
            rec,
        ).1[rec.tx],
{
}

} // verus!
