use std::collections::HashMap;
use vstd::prelude::*;

use crate::account::ClientAccount;
use crate::error::AppError;
use crate::report::{render_report, report_text};
use crate::transaction::{TransactionRecord, TransactionStatus, TransactionType};

verus! {

broadcast use vstd::std_specs::hash::group_hash_axioms;

/// The abstract state of an engine: the account registry keyed by client id
/// and the ledger of deposits keyed by transaction id.
pub type Books = (Map<u16, ClientAccount>, Map<u32, TransactionStatus>);

/// The state of a run that has processed nothing yet.
pub open spec fn empty_books() -> Books {
    (Map::empty(), Map::empty())
}

/// The account of `client`, or a fresh one if the client was never seen.
pub open spec fn account_of(accounts: Map<u16, ClientAccount>, client: u16) -> ClientAccount {
    if accounts.contains_key(client) {
        accounts[client]
    } else {
        ClientAccount::fresh(client)
    }
}

/// Every registered account is keyed by its own client id and balanced.
pub open spec fn books_wf(b: Books) -> bool {
    forall|c: u16| #[trigger]
        b.0.contains_key(c) ==> b.0[c].wf() && b.0[c].client == c
}

/// Routes one record to its client's account, registering the client on
/// first sight, and applies it there.
pub open spec fn engine_step(b: Books, rec: TransactionRecord) -> (Books, Result<(), AppError>) {
    let applied = account_of(b.0, rec.client).step(b.1, rec);
    ((b.0.insert(rec.client, applied.0), applied.1), applied.2)
}

/// Processes `recs` in order. In batch mode the first failure stops the run
/// and is returned; otherwise failures are dropped and the run goes on.
pub open spec fn run(b: Books, recs: Seq<TransactionRecord>, batch_mode: bool) -> (Books, Result<(), AppError>)
    decreases recs.len(),
{
    if recs.len() == 0 {
        (b, Ok(()))
    } else {
        let before = run(b, recs.drop_last(), batch_mode);
        if batch_mode && before.1 is Err {
            before
        } else {
            let after = engine_step(before.0, recs.last());
            (after.0, if batch_mode { after.1 } else { Ok(()) })
        }
    }
}

/// `s` lists every registered account once, in ascending order of client id.
pub open spec fn is_snapshot(s: Seq<ClientAccount>, accounts: Map<u16, ClientAccount>) -> bool {
    &&& forall|i: int, j: int| 0 <= i < j < s.len() ==> s[i].client < s[j].client
    &&& forall|i: int| 0 <= i < s.len() ==> accounts.contains_key(#[trigger] s[i].client)
        && accounts[s[i].client] == s[i]
    &&& forall|c: u16| accounts.contains_key(c) ==> exists|i: int| 0 <= i < s.len() && #[trigger] s[i].client == c
}

/// In a strictly ascending list of client ids each id is at least its position.
proof fn lemma_ascending_ids_bounded(ids: Seq<u16>, i: int)
    requires
        forall|a: int, b: int| 0 <= a < b < ids.len() ==> ids[a] < ids[b],
        0 <= i < ids.len(),
    ensures
        ids[i] >= i,
    decreases i,
{
    if i > 0 {
        lemma_ascending_ids_bounded(ids, i - 1);
    }
}

/// A prefix one record longer ends in that record.
proof fn lemma_take_one_more(recs: Seq<TransactionRecord>, i: int)
    requires
        0 <= i < recs.len(),
    ensures
        recs.take(i + 1).drop_last() == recs.take(i),
        recs.take(i + 1).last() == recs[i],
{
    assert(recs.take(i + 1).drop_last() =~= recs.take(i));
}

/// In batch mode nothing after the first failure is processed.
proof fn lemma_run_stops(b: Books, recs: Seq<TransactionRecord>, k: int, batch_mode: bool)
    requires
        batch_mode,
        0 <= k <= recs.len(),
        run(b, recs.take(k), batch_mode).1 is Err,
    ensures
        run(b, recs, batch_mode) == run(b, recs.take(k), batch_mode),
    decreases recs.len(),
{
    if k == recs.len() {
        assert(recs.take(k) =~= recs);
    } else {
        assert(recs.drop_last().take(k) =~= recs.take(k));
        lemma_run_stops(b, recs.drop_last(), k, batch_mode);
    }
}

/// A registry has exactly one snapshot.
pub proof fn lemma_snapshot_unique(s1: Seq<ClientAccount>, s2: Seq<ClientAccount>, accounts: Map<u16, ClientAccount>)
    requires
        is_snapshot(s1, accounts),
        is_snapshot(s2, accounts),
    ensures
        s1 == s2,
    decreases s1.len(),
{
    if s1.len() == 0 || s2.len() == 0 {
        if s1.len() > 0 {
            assert(accounts.contains_key(s1[0].client));
        }
        if s2.len() > 0 {
            assert(accounts.contains_key(s2[0].client));
        }
        assert(s1 =~= s2);
    } else {
        let n1 = s1.len() - 1;
        let n2 = s2.len() - 1;
        let c1 = s1[n1].client;
        let c2 = s2[n2].client;
        assert(accounts.contains_key(c1));
        assert(accounts.contains_key(c2));
        let i1 = choose|i: int| 0 <= i < s1.len() && #[trigger] s1[i].client == c2;
        let i2 = choose|i: int| 0 <= i < s2.len() && #[trigger] s2[i].client == c1;
        assert(c2 <= c1) by {
            if i1 < n1 {
                assert(s1[i1].client < s1[n1].client);
            }
        }
        assert(c1 <= c2) by {
            if i2 < n2 {
                assert(s2[i2].client < s2[n2].client);
            }
        }
        let rest = accounts.remove(c1);
        let t1 = s1.drop_last();
        let t2 = s2.drop_last();
        assert forall|c: u16| rest.contains_key(c) implies exists|i: int| 0 <= i < t1.len() && #[trigger] t1[i].client == c by {
            assert(accounts.contains_key(c));
            let i = choose|i: int| 0 <= i < s1.len() && #[trigger] s1[i].client == c;
            assert(t1[i].client == c);
        }
        assert forall|c: u16| rest.contains_key(c) implies exists|i: int| 0 <= i < t2.len() && #[trigger] t2[i].client == c by {
            assert(accounts.contains_key(c));
            let i = choose|i: int| 0 <= i < s2.len() && #[trigger] s2[i].client == c;
            assert(t2[i].client == c);
        }
        assert forall|i: int| 0 <= i < t1.len() implies rest.contains_key(#[trigger] t1[i].client)
            && rest[t1[i].client] == t1[i] by {
            assert(s1[i].client < s1[n1].client);
        }
        assert forall|i: int| 0 <= i < t2.len() implies rest.contains_key(#[trigger] t2[i].client)
            && rest[t2[i].client] == t2[i] by {
            assert(s2[i].client < s2[n2].client);
        }
        lemma_snapshot_unique(t1, t2, rest);
        assert(s1 =~= t1.push(s1[n1]));
        assert(s2 =~= t2.push(s2[n2]));
    }
}

/// Two engines that start from equal books and are fed the same records
/// end with equal books and the same outcome, and report the same text.
pub proof fn lemma_run_deterministic(
    b1: Books,
    b2: Books,
    recs: Seq<TransactionRecord>,
    batch_mode: bool,
    s1: Seq<ClientAccount>,
    s2: Seq<ClientAccount>,
)
    requires
        b1 == b2,
        is_snapshot(s1, run(b1, recs, batch_mode).0.0),
        is_snapshot(s2, run(b2, recs, batch_mode).0.0),
    ensures
        run(b1, recs, batch_mode) == run(b2, recs, batch_mode),
        s1 == s2,
        report_text(s1) == report_text(s2),
{
    lemma_snapshot_unique(s1, s2, run(b1, recs, batch_mode).0.0);
}

/// Every account stays balanced (`total == available + held`) and keyed by
/// its own id after every record of a run.
pub proof fn lemma_run_keeps_balance(b: Books, recs: Seq<TransactionRecord>, batch_mode: bool)
    requires
        books_wf(b),
    ensures
        books_wf(run(b, recs, batch_mode).0),
    decreases recs.len(),
{
    if recs.len() > 0 {
        lemma_run_keeps_balance(b, recs.drop_last(), batch_mode);
        let mid = run(b, recs.drop_last(), batch_mode).0;
        let rec = recs.last();
        let acct = account_of(mid.0, rec.client);
        crate::account::lemma_step_keeps_balance(acct, mid.1, rec);
        let next = engine_step(mid, rec).0;
        assert forall|c: u16| #[trigger] next.0.contains_key(c) implies next.0[c].wf() && next.0[c].client == c by {
            if c != rec.client {
                assert(mid.0.contains_key(c));
            }
        }
    }
}

/// Records of two different clients that name different transaction ids
/// can be applied in either order: the books and both outcomes are the same.
pub proof fn lemma_clients_commute(b: Books, r1: TransactionRecord, r2: TransactionRecord)
    requires
        r1.client != r2.client,
        r1.tx != r2.tx,
    ensures
        engine_step(engine_step(b, r1).0, r2).0 == engine_step(engine_step(b, r2).0, r1).0,
        engine_step(engine_step(b, r1).0, r2).1 == engine_step(b, r2).1,
        engine_step(engine_step(b, r2).0, r1).1 == engine_step(b, r1).1,
{
    let a1 = account_of(b.0, r1.client);
    let a2 = account_of(b.0, r2.client);
    let l = b.1;
    let l1 = a1.step(l, r1).1;
    let l2 = a2.step(l, r2).1;
    crate::account::lemma_step_footprint(a1, l, r1, r2.tx);
    crate::account::lemma_step_footprint(a2, l, r2, r1.tx);
    assert(account_of(b.0.insert(r1.client, a1.step(l, r1).0), r2.client) == a2);
    assert(account_of(b.0.insert(r2.client, a2.step(l, r2).0), r1.client) == a1);
    crate::account::lemma_step_reads_own_entry(a2, l, l1, r2);
    crate::account::lemma_step_reads_own_entry(a1, l, l2, r1);
    let l12 = a2.step(l1, r2).1;
    let l21 = a1.step(l2, r1).1;
    assert forall|k: u32| #[trigger] l12.contains_key(k) == l21.contains_key(k) && (l12.contains_key(k) ==> l12[k] == l21[k]) by {
        if k != r1.tx {
            crate::account::lemma_step_footprint(a1, l, r1, k);
            crate::account::lemma_step_footprint(a1, l2, r1, k);
        }
        if k != r2.tx {
            crate::account::lemma_step_footprint(a2, l, r2, k);
            crate::account::lemma_step_footprint(a2, l1, r2, k);
        }
    }
    assert(l12 =~= l21);
    assert(b.0.insert(r1.client, a1.step(l, r1).0).insert(r2.client, a2.step(l, r2).0) =~= b.0.insert(
        r2.client,
        a2.step(l, r2).0,
    ).insert(r1.client, a1.step(l, r1).0));
}

/// A record for a client whose account is locked is refused and changes
/// nothing.
pub proof fn lemma_engine_step_locked(b: Books, rec: TransactionRecord)
    requires
        b.0.contains_key(rec.client),
        b.0[rec.client].locked,
    ensures
        engine_step(b, rec) == (b, Err::<(), AppError>(AppError::AccountLocked)),
{
    assert(b.0.insert(rec.client, b.0[rec.client]) =~= b.0);
}

/// A locked account stays locked and unchanged through any later records.
pub proof fn lemma_locked_account_frozen(b: Books, recs: Seq<TransactionRecord>, batch_mode: bool, client: u16)
    requires
        b.0.contains_key(client),
        b.0[client].locked,
    ensures
        run(b, recs, batch_mode).0.0.contains_key(client),
        run(b, recs, batch_mode).0.0[client] == b.0[client],
    decreases recs.len(),
{
    if recs.len() > 0 {
        lemma_locked_account_frozen(b, recs.drop_last(), batch_mode, client);
        let mid = run(b, recs.drop_last(), batch_mode).0;
        if recs.last().client == client {
            lemma_engine_step_locked(mid, recs.last());
        }
    }
}

/// On a registered client, a dispute that names an unknown transaction, or
/// a resolve or chargeback that names one not under dispute, leaves the
/// books unchanged.
pub proof fn lemma_engine_ignores_stray_references(b: Books, rec: TransactionRecord)
    requires
        b.0.contains_key(rec.client),
        (rec.kind == TransactionType::Dispute && !b.1.contains_key(rec.tx)) || ((rec.kind
            == TransactionType::Resolve || rec.kind == TransactionType::Chargeback) && (
        !b.1.contains_key(rec.tx) || !b.1[rec.tx].disputed)),
    ensures
        engine_step(b, rec).0 == b,
{
    let acct = b.0[rec.client];
    if rec.kind == TransactionType::Dispute {
        crate::account::lemma_dispute_unknown_is_noop(acct, b.1, rec);
    } else {
        crate::account::lemma_settle_undisputed_is_noop(acct, b.1, rec);
    }
    assert(b.0.insert(rec.client, acct) =~= b.0);
}

/// Applies records to per-client accounts, one client's records strictly in
/// arrival order, and keeps the ledger of deposits that disputes refer to.
pub struct TransactionEngineService {
    client_account: HashMap<u16, ClientAccount>,
    clients: Vec<u16>,
    processed_transactions: HashMap<u32, TransactionStatus>,
}

impl View for TransactionEngineService {
    type V = Books;

    closed spec fn view(&self) -> Books {
        (self.client_account@, self.processed_transactions@)
    }
}

impl TransactionEngineService {
    /// The registry holds balanced accounts under their own ids, and
    /// `clients` lists its keys in strictly ascending order.
    pub closed spec fn wf(&self) -> bool {
        &&& books_wf(self@)
        &&& forall|i: int, j: int| 0 <= i < j < self.clients@.len() ==> self.clients@[i] < self.clients@[j]
        &&& forall|i: int| 0 <= i < self.clients@.len() ==> self.client_account@.contains_key(
            #[trigger] self.clients@[i],
        )
        &&& forall|c: u16| #[trigger]
            self.client_account@.contains_key(c) ==> self.clients@.contains(c)
    }

    /// An engine with no accounts and an empty ledger.
    pub fn new() -> (r: TransactionEngineService)
        ensures
            r.wf(),
            r@ == empty_books(),
    {
        let r = TransactionEngineService {
            client_account: HashMap::new(),
            clients: Vec::new(),
            processed_transactions: HashMap::new(),
        };
        assert(r.client_account@ == Map::<u16, ClientAccount>::empty());
        r
    }

    /// Adds `client` to the ordered list of known ids.
    fn register_client(&mut self, client: u16)
        requires
            forall|i: int, j: int| 0 <= i < j < old(self).clients@.len() ==> old(self).clients@[i] < old(self).clients@[j],
            !old(self).clients@.contains(client),
            old(self).clients@.len() < usize::MAX,
        ensures
            final(self).client_account == old(self).client_account,
            final(self).processed_transactions == old(self).processed_transactions,
            forall|i: int, j: int| 0 <= i < j < final(self).clients@.len() ==> final(self).clients@[i] < final(self).clients@[j],
            forall|c: u16| #[trigger] final(self).clients@.contains(c) <==> old(self).clients@.contains(c) || c == client,
    {
        let mut pos: usize = 0;
        while pos < self.clients.len() && self.clients[pos] < client
            invariant
                pos <= self.clients@.len(),
                forall|k: int| 0 <= k < pos ==> self.clients@[k] < client,
            decreases self.clients@.len() - pos,
        {
            pos = pos + 1;
        }
        let ghost before = self.clients@;
        self.clients.insert(pos, client);
        assert(forall|k: int| pos <= k < before.len() ==> before[k] > client) by {
            assert forall|k: int| pos <= k < before.len() implies before[k] > client by {
                assert(before[pos as int] >= client);
                assert(before[pos as int] != client);
            }
        }
        assert forall|c: u16| #[trigger] self.clients@.contains(c) <==> before.contains(c) || c == client by {
            if self.clients@.contains(c) {
                let k = choose|k: int| 0 <= k < self.clients@.len() && self.clients@[k] == c;
                if k < pos {
                    assert(before[k] == c);
                } else if k > pos {
                    assert(before[k - 1] == c);
                }
            }
            if before.contains(c) {
                let k = choose|k: int| 0 <= k < before.len() && before[k] == c;
                if k < pos {
                    assert(self.clients@[k] == c);
                } else {
                    assert(self.clients@[k + 1] == c);
                }
            }
            if c == client {
                assert(self.clients@[pos as int] == c);
            }
        }
    }

    /// Routes one record to its client's account, registering the client on
    /// first sight, and applies it there. Returns the record's outcome.
    pub fn process_record(&mut self, record: &TransactionRecord) -> (r: Result<(), AppError>)
        requires
            old(self).wf(),
        ensures
            final(self).wf(),
            final(self)@ == engine_step(old(self)@, *record).0,
            r == engine_step(old(self)@, *record).1,
    {
        let mut account = match self.client_account.get(&record.client) {
            Some(found) => {
                assert(self@.0 == self.client_account@);
                assert(self.client_account@.contains_key(record.client));
                *found
            },
            None => {
                if self.clients.len() > 0 {
                    let last = (self.clients.len() - 1) as usize;
                    proof {
                        lemma_ascending_ids_bounded(self.clients@, last as int);
                    }
                }
                self.register_client(record.client);
                ClientAccount::new(record.client)
            },
        };
        let ghost prior = account;
        let r = account.apply_transaction_record(record, &mut self.processed_transactions);
        proof {
            crate::account::lemma_step_keeps_balance(prior, old(self)@.1, *record);
        }
        self.client_account.insert(record.client, account);
        proof {
            assert(self.clients@.contains(record.client));
            assert forall|c: u16| #[trigger] self@.0.contains_key(c) implies self@.0[c].wf()
                && self@.0[c].client == c by {
                if c != record.client {
                    assert(old(self)@.0.contains_key(c));
                }
            }
            assert forall|c: u16| #[trigger] self.client_account@.contains_key(c) implies self.clients@.contains(c) by {
                if c != record.client {
                    assert(old(self).client_account@.contains_key(c));
                }
            }
            assert forall|i: int| 0 <= i < self.clients@.len() implies self.client_account@.contains_key(
                #[trigger] self.clients@[i],
            ) by {
                assert(self.clients@.contains(self.clients@[i]));
            }
        }
        r
    }

    /// Processes `records` in order. In batch mode the first failure stops
    /// the run and is returned; otherwise every record is processed and
    /// failures are dropped.
    pub fn begin_transactions(&mut self, records: &Vec<TransactionRecord>, batch_mode: bool) -> (r: Result<(), AppError>)
        requires
            old(self).wf(),
        ensures
            final(self).wf(),
            final(self)@ == run(old(self)@, records@, batch_mode).0,
            r == run(old(self)@, records@, batch_mode).1,
    {
        let ghost start = self@;
        let mut i: usize = 0;
        assert(records@.take(0) =~= Seq::<TransactionRecord>::empty());
        while i < records.len()
            invariant
                i <= records@.len(),
                start == old(self)@,
                self.wf(),
                run(start, records@.take(i as int), batch_mode) == (self@, Ok::<(), AppError>(())),
            decreases records@.len() - i,
        {
            proof {
                lemma_take_one_more(records@, i as int);
            }
            let outcome = self.process_record(&records[i]);
            assert(run(start, records@.take(i as int + 1), batch_mode) == (
                self@,
                if batch_mode { outcome } else { Ok(()) },
            ));
            if batch_mode && outcome.is_err() {
                proof {
                    lemma_run_stops(start, records@, i as int + 1, batch_mode);
                }
                return outcome;
            }
            i = i + 1;
        }
        assert(records@.take(i as int) =~= records@);
        Ok(())
    }

    /// Every account, in ascending order of client id.
    pub fn accounts(&self) -> (r: Vec<ClientAccount>)
        requires
            self.wf(),
        ensures
            is_snapshot(r@, self@.0),
    {
        let mut out: Vec<ClientAccount> = Vec::new();
        let mut i: usize = 0;
        while i < self.clients.len()
            invariant
                self.wf(),
                i <= self.clients@.len(),
                out@.len() == i,
                forall|k: int| 0 <= k < i ==> (#[trigger] out@[k]).client == self.clients@[k]
                    && out@[k] == self@.0[self.clients@[k]],
            decreases self.clients@.len() - i,
        {
            let client = self.clients[i];
            assert(self.client_account@.contains_key(self.clients@[i as int]));
            match self.client_account.get(&client) {
                Some(found) => {
                    assert(self@.0.contains_key(client));
                    out.push(*found);
                },
                None => {},
            }
            i = i + 1;
        }
        proof {
            assert forall|c: u16| self@.0.contains_key(c) implies exists|k: int|
                0 <= k < out@.len() && #[trigger] out@[k].client == c by {
                assert(self.client_account@.contains_key(c));
                assert(self.clients@.contains(c));
                let k = choose|k: int| 0 <= k < self.clients@.len() && self.clients@[k] == c;
                assert(out@[k].client == c);
            }
            assert forall|k: int| 0 <= k < out@.len() implies self@.0.contains_key(#[trigger] out@[k].client)
                && self@.0[out@[k].client] == out@[k] by {
                assert(self.client_account@.contains_key(self.clients@[k]));
            }
        }
        out
    }

    /// The report on every account: the header, then one row per client in
    /// ascending order of client id, each amount with four fractional digits.
    pub fn report_four_decimal_places(&self) -> (r: Vec<u8>)
        requires
            self.wf(),
        ensures
            exists|s: Seq<ClientAccount>| is_snapshot(s, self@.0) && r@ == report_text(s),
    {
        let accounts = self.accounts();
        render_report(&accounts)
    }
}

impl Default for TransactionEngineService {
    fn default() -> (r: TransactionEngineService)
        ensures
            r.wf(),
            r@ == empty_books(),
    {
        TransactionEngineService::new()
    }
}

} // verus!
