//! The lock registry: validates and applies the three mutating commands
//! (create, top-up, release) and answers the two read queries.
//!
//! Each command's outcome is pinned down by a spec-level transition function
//! over the registry's mathematical value, a map from `(depositor, lock id)`
//! to the lock's value. A failing command leaves the registry unchanged and
//! reports exactly one error; a successful release removes the record and
//! queues the transfer instructions in the same step.

use vstd::prelude::*;

use crate::balance::{
    add_balance, balance_is_empty, balance_to_generic, Balance, BalanceView, Coin, GenericBalance,
};
use crate::error::ContractError;
use crate::msg::{
    msg_views, str_views, AllLocksResponse, Cw20ReceiveMsg, ExecuteMsg, InstantiateMsg, LockInfo,
    QueryAnswer, QueryMsg, ReceiveMsg, Response, TransferMsg, TransferMsgView,
};
use crate::order::{lemma_lex_lt_total, lemma_lex_lt_trans, lex_lt, str_lt};
use crate::state::{Lock, LockEntry, LockView, State};

verus! {

/// The key a lock is stored under: the depositor and the chosen identifier.
pub open spec fn entry_key(e: LockEntry) -> (Seq<char>, Seq<char>) {
    (e.addr@, e.id@)
}

/// The registry value: the stored entries as a map from key to lock value.
pub open spec fn entries_map(s: Seq<LockEntry>) -> Map<(Seq<char>, Seq<char>), LockView>
    decreases s.len(),
{
    if s.len() == 0 {
        Map::empty()
    } else {
        entries_map(s.drop_last()).insert(entry_key(s.last()), s.last().lock@)
    }
}

/// No two stored entries share a key.
pub open spec fn entries_distinct(s: Seq<LockEntry>) -> bool {
    forall|i: int, j: int| 0 <= i < j < s.len() ==> entry_key(s[i]) != entry_key(s[j])
}

/// A key is in the registry value exactly when some entry holds it.
pub proof fn lemma_entries_map_dom(s: Seq<LockEntry>)
    ensures
        forall|k: (Seq<char>, Seq<char>)| #[trigger] entries_map(s).dom().contains(k) <==> (exists|
            i: int,
        | 0 <= i < s.len() && entry_key(s[i]) == k),
    decreases s.len(),
{
    if s.len() > 0 {
        lemma_entries_map_dom(s.drop_last());
        assert forall|k: (Seq<char>, Seq<char>)| #[trigger] entries_map(s).dom().contains(k)
            implies (exists|i: int| 0 <= i < s.len() && entry_key(s[i]) == k) by {
            if k == entry_key(s.last()) {
                assert(entry_key(s[s.len() - 1]) == k);
            } else {
                assert(entries_map(s.drop_last()).dom().contains(k));
                let i = choose|i: int| 0 <= i < s.drop_last().len() && entry_key(
                    s.drop_last()[i],
                ) == k;
                assert(s.drop_last()[i] == s[i]);
                assert(entry_key(s[i]) == k);
            }
        }
        assert forall|k: (Seq<char>, Seq<char>)| (exists|i: int|
            0 <= i < s.len() && entry_key(s[i]) == k) implies #[trigger] entries_map(
            s,
        ).dom().contains(k) by {
            let i = choose|i: int| 0 <= i < s.len() && entry_key(s[i]) == k;
            if i < s.len() - 1 {
                assert(s.drop_last()[i] == s[i]);
                assert(entry_key(s.drop_last()[i]) == k);
                assert(entries_map(s.drop_last()).dom().contains(k));
            }
        }
    }
}

/// With distinct keys, each entry's key maps to that entry's lock value.
pub proof fn lemma_entries_map_index(s: Seq<LockEntry>)
    requires
        entries_distinct(s),
    ensures
        forall|i: int| 0 <= i < s.len() ==> {
            &&& entries_map(s).dom().contains(#[trigger] entry_key(s[i]))
            &&& entries_map(s)[entry_key(s[i])] == s[i].lock@
        },
    decreases s.len(),
{
    if s.len() > 0 {
        lemma_entries_map_index(s.drop_last());
        assert forall|i: int| 0 <= i < s.len() implies {
            &&& entries_map(s).dom().contains(#[trigger] entry_key(s[i]))
            &&& entries_map(s)[entry_key(s[i])] == s[i].lock@
        } by {
            if i < s.len() - 1 {
                assert(entry_key(s.drop_last()[i]) == entry_key(s[i]));
                assert(entry_key(s[i]) != entry_key(s[s.len() - 1]));
            }
        }
    }
}

/// Appending an entry with a fresh key inserts it into the registry value.
pub proof fn lemma_entries_map_push(s: Seq<LockEntry>, e: LockEntry)
    requires
        entries_distinct(s),
        forall|i: int| 0 <= i < s.len() ==> entry_key(s[i]) != entry_key(e),
    ensures
        entries_distinct(s.push(e)),
        entries_map(s.push(e)) == entries_map(s).insert(entry_key(e), e.lock@),
{
    assert(s.push(e).drop_last() =~= s);
    assert(s.push(e).last() == e);
    assert forall|i: int, j: int| 0 <= i < j < s.push(e).len() implies entry_key(
        s.push(e)[i],
    ) != entry_key(s.push(e)[j]) by {
        if j < s.len() {
            assert(entry_key(s[i]) != entry_key(s[j]));
        } else {
            assert(s.push(e)[i] == s[i]);
        }
    }
}

/// Replacing the entry at `i` by one with the same key updates that key's
/// value in the registry value.
pub proof fn lemma_entries_map_update(s: Seq<LockEntry>, i: int, e: LockEntry)
    requires
        entries_distinct(s),
        0 <= i < s.len(),
        entry_key(e) == entry_key(s[i]),
    ensures
        entries_distinct(s.update(i, e)),
        entries_map(s.update(i, e)) == entries_map(s).insert(entry_key(e), e.lock@),
    decreases s.len(),
{
    assert forall|p: int, q: int| 0 <= p < q < s.update(i, e).len() implies entry_key(
        s.update(i, e)[p],
    ) != entry_key(s.update(i, e)[q]) by {
        assert(entry_key(s[p]) != entry_key(s[q]));
    }
    if i == s.len() - 1 {
        assert(s.update(i, e).drop_last() =~= s.drop_last());
        assert(s.update(i, e).last() == e);
        assert(entries_map(s.update(i, e)) =~= entries_map(s).insert(entry_key(e), e.lock@));
    } else {
        assert(s.update(i, e).drop_last() =~= s.drop_last().update(i, e));
        assert(s.update(i, e).last() == s.last());
        lemma_entries_map_update(s.drop_last(), i, e);
        assert(entry_key(s[i]) != entry_key(s[s.len() - 1]));
        assert(entries_map(s.update(i, e)) =~= entries_map(s).insert(entry_key(e), e.lock@));
    }
}

/// Removing the entry at `i` removes its key from the registry value.
pub proof fn lemma_entries_map_remove(s: Seq<LockEntry>, i: int)
    requires
        entries_distinct(s),
        0 <= i < s.len(),
    ensures
        entries_distinct(s.remove(i)),
        entries_map(s.remove(i)) == entries_map(s).remove(entry_key(s[i])),
    decreases s.len(),
{
    assert forall|p: int, q: int| 0 <= p < q < s.remove(i).len() implies entry_key(
        s.remove(i)[p],
    ) != entry_key(s.remove(i)[q]) by {
        let p0: int = if p < i {
            p
        } else {
            p + 1
        };
        let q0: int = if q < i {
            q
        } else {
            q + 1
        };
        assert(s.remove(i)[p] == s[p0]);
        assert(s.remove(i)[q] == s[q0]);
        assert(entry_key(s[p0]) != entry_key(s[q0]));
    }
    if i == s.len() - 1 {
        assert(s.remove(i) =~= s.drop_last());
        lemma_entries_map_dom(s.drop_last());
        assert forall|j: int| 0 <= j < s.drop_last().len() implies entry_key(
            s.drop_last()[j],
        ) != entry_key(s[i]) by {
            assert(s.drop_last()[j] == s[j]);
        }
        assert(!entries_map(s.drop_last()).dom().contains(entry_key(s[i])));
        assert(entries_map(s.remove(i)) =~= entries_map(s).remove(entry_key(s[i])));
    } else {
        assert(s.remove(i).drop_last() =~= s.drop_last().remove(i));
        assert(s.remove(i).last() == s.last());
        lemma_entries_map_remove(s.drop_last(), i);
        assert(entry_key(s[i]) != entry_key(s[s.len() - 1]));
        assert(entries_map(s.remove(i)) =~= entries_map(s).remove(entry_key(s[i])));
    }
}

/// The lock registry: the configuration and all stored locks.
pub struct Lockbox {
    state: State,
    locks: Vec<LockEntry>,
}

impl View for Lockbox {
    type V = Map<(Seq<char>, Seq<char>), LockView>;

    closed spec fn view(&self) -> Map<(Seq<char>, Seq<char>), LockView> {
        entries_map(self.locks@)
    }
}

impl Lockbox {
    /// The stored entries have pairwise distinct keys.
    pub closed spec fn wf(&self) -> bool {
        entries_distinct(self.locks@)
    }

    /// The configured longest allowed lock duration, in seconds.
    pub closed spec fn spec_max_lock_time(&self) -> u64 {
        self.state.max_lock_time
    }

    /// The identity recorded at initialization.
    pub closed spec fn spec_owner(&self) -> Seq<char> {
        self.state.owner@
    }

    /// A fresh registry with the given configuration and no locks.
    pub fn instantiate(msg: InstantiateMsg, sender: String) -> (r: Lockbox)
        ensures
            r.wf(),
            r@ == Map::<(Seq<char>, Seq<char>), LockView>::empty(),
            r.spec_max_lock_time() == msg.max_lock_time,
            r.spec_owner() == sender@,
    {
        Lockbox {
            state: State { max_lock_time: msg.max_lock_time, owner: sender },
            locks: Vec::new(),
        }
    }

    /// The configured longest allowed lock duration, in seconds.
    pub fn max_lock_time(&self) -> (r: u64)
        ensures
            r == self.spec_max_lock_time(),
    {
        self.state.max_lock_time
    }

    /// The identity recorded at initialization.
    pub fn owner(&self) -> (r: &String)
        ensures
            r@ == self.spec_owner(),
    {
        &self.state.owner
    }

    /// The stored entries, for handing the registry to a persistent store.
    pub fn entries(&self) -> (r: &Vec<LockEntry>)
        requires
            self.wf(),
        ensures
            entries_distinct(r@),
            entries_map(r@) == self@,
    {
        &self.locks
    }

    /// Rebuild a registry from stored entries, refusing a store that holds
    /// two entries under one key.
    #[verifier::loop_isolation(false)]
    pub fn from_entries(max_lock_time: u64, owner: String, entries: Vec<LockEntry>) -> (r: Option<
        Lockbox,
    >)
        ensures
            match r {
                Some(lb) => {
                    &&& lb.wf()
                    &&& lb@ == entries_map(entries@)
                    &&& lb.spec_max_lock_time() == max_lock_time
                    &&& lb.spec_owner() == owner@
                    &&& entries_distinct(entries@)
                },
                None => !entries_distinct(entries@),
            },
    {
        let mut i: usize = 0;
        while i < entries.len()
            invariant
                i <= entries@.len(),
                forall|p: int, q: int|
                    0 <= p < q < entries@.len() && q < i ==> entry_key(entries@[p]) != entry_key(
                        entries@[q],
                    ),
            decreases entries@.len() - i,
        {
            let mut j: usize = 0;
            while j < i
                invariant
                    j <= i,
                    i < entries@.len(),
                    forall|p: int|
                        0 <= p < j ==> entry_key(entries@[p]) != entry_key(entries@[i as int]),
                decreases i - j,
            {
                if entries[j].addr == entries[i].addr && entries[j].id == entries[i].id {
                    assert(entry_key(entries@[j as int]) == entry_key(entries@[i as int]));
                    return None;
                }
                proof {
                    if entry_key(entries@[j as int]) == entry_key(entries@[i as int]) {
                        assert(entries@[j as int].addr@ == entries@[i as int].addr@);
                        assert(entries@[j as int].id@ == entries@[i as int].id@);
                        assert(false);
                    }
                }
                j += 1;
            }
            i += 1;
        }
        Some(Lockbox { state: State { max_lock_time, owner }, locks: entries })
    }
}

/// The position of the entry stored under `(addr, id)`, if any.
#[verifier::loop_isolation(false)]
fn position_of(locks: &Vec<LockEntry>, addr: &String, id: &String) -> (r: Option<usize>)
    ensures
        match r {
            Some(i) => {
                &&& i < locks@.len()
                &&& entry_key(locks@[i as int]) == (addr@, id@)
            },
            None => forall|j: int|
                0 <= j < locks@.len() ==> entry_key(locks@[j]) != (addr@, id@),
        },
{
    let mut i: usize = 0;
    while i < locks.len()
        invariant
            i <= locks.len(),
            forall|j: int| 0 <= j < i ==> entry_key(locks@[j]) != (addr@, id@),
        decreases locks.len() - i,
    {
        if locks[i].addr == *addr && locks[i].id == *id {
            assert(entry_key(locks@[i as int]) == (addr@, id@));
            return Some(i);
        }
        proof {
            if entry_key(locks@[i as int]) == (addr@, id@) {
                assert(locks@[i as int].addr@ == addr@);
                assert(locks@[i as int].id@ == id@);
                assert(false);
            }
        }
        i += 1;
    }
    None
}

/// Why a create command fails, or `None` when it succeeds: the deposit must
/// be non-empty, the expiry strictly in the future but strictly closer than
/// the longest allowed duration, and the key free.
pub open spec fn create_err(
    m: Map<(Seq<char>, Seq<char>), LockView>,
    max_lock_time: u64,
    deposit: BalanceView,
    key: (Seq<char>, Seq<char>),
    expire: u64,
    now: u64,
) -> Option<ContractError> {
    if balance_is_empty(deposit) {
        Some(ContractError::EmptyBalance)
    } else if now >= expire {
        Some(ContractError::LowExpired)
    } else if expire - now >= max_lock_time {
        Some(ContractError::HighExpired)
    } else if m.dom().contains(key) {
        Some(ContractError::AlreadyInUse)
    } else {
        None
    }
}

/// The registry value after a successful create: a new lock created now,
/// holding exactly the deposit.
pub open spec fn create_next(
    m: Map<(Seq<char>, Seq<char>), LockView>,
    deposit: BalanceView,
    key: (Seq<char>, Seq<char>),
    expire: u64,
    now: u64,
) -> Map<(Seq<char>, Seq<char>), LockView> {
    m.insert(key, LockView { create: now, expire, funds: balance_to_generic(deposit) })
}

/// Why a top-up fails, or `None` when it succeeds: the deposit must be
/// non-empty, the lock must exist and not be expired (topping up exactly at
/// the expiry instant is still allowed), and the merge must not overflow.
pub open spec fn top_up_err(
    m: Map<(Seq<char>, Seq<char>), LockView>,
    deposit: BalanceView,
    key: (Seq<char>, Seq<char>),
    now: u64,
) -> Option<ContractError> {
    if balance_is_empty(deposit) {
        Some(ContractError::EmptyBalance)
    } else if !m.dom().contains(key) {
        Some(ContractError::NotFound)
    } else if now > m[key].expire {
        Some(ContractError::LockExpired)
    } else if add_balance(m[key].funds, deposit) is None {
        Some(ContractError::Overflow)
    } else {
        None
    }
}

/// The registry value after a successful top-up: the deposit merged into
/// the lock's funds, the instants unchanged.
pub open spec fn top_up_next(
    m: Map<(Seq<char>, Seq<char>), LockView>,
    deposit: BalanceView,
    key: (Seq<char>, Seq<char>),
) -> Map<(Seq<char>, Seq<char>), LockView> {
    m.insert(
        key,
        LockView {
            create: m[key].create,
            expire: m[key].expire,
            funds: add_balance(m[key].funds, deposit).unwrap(),
        },
    )
}

/// Why a release fails, or `None` when it succeeds: the lock must exist and
/// be strictly past its expiry (releasing exactly at the expiry instant is
/// rejected).
pub open spec fn release_err(
    m: Map<(Seq<char>, Seq<char>), LockView>,
    key: (Seq<char>, Seq<char>),
    now: u64,
) -> Option<ContractError> {
    if !m.dom().contains(key) {
        Some(ContractError::NotFound)
    } else if now <= m[key].expire {
        Some(ContractError::LockNotExpired)
    } else {
        None
    }
}

/// The registry value after a successful release: the record is gone.
pub open spec fn release_next(
    m: Map<(Seq<char>, Seq<char>), LockView>,
    key: (Seq<char>, Seq<char>),
) -> Map<(Seq<char>, Seq<char>), LockView> {
    m.remove(key)
}

/// The transfer instructions paying a balance out to `to`: one batched
/// native transfer when any native coins are held, followed by one order per
/// token issuer, in stored order.
pub open spec fn render_msgs(
    g: crate::balance::GenericBalanceView,
    to: Seq<char>,
) -> Seq<TransferMsgView> {
    let cw20_part = Seq::new(
        g.cw20.len(),
        |i: int|
            TransferMsgView::Cw20Transfer {
                contract: g.cw20[i].key,
                recipient: to,
                amount: g.cw20[i].amount,
            },
    );
    if g.native.len() == 0 {
        cw20_part
    } else {
        seq![TransferMsgView::Send { to, amount: g.native }] + cw20_part
    }
}

/// The transfer instructions paying `balance` out to `to`.
#[verifier::loop_isolation(false)]
pub fn send_tokens(to: &String, balance: &GenericBalance) -> (msgs: Vec<TransferMsg>)
    ensures
        msg_views(msgs@) == render_msgs(balance@, to@),
{
    let ghost target = render_msgs(balance@, to@);
    let ghost head: int = if balance.native@.len() == 0 {
        0
    } else {
        1
    };
    let mut msgs: Vec<TransferMsg> = Vec::new();
    if balance.native.len() > 0 {
        msgs.push(
            TransferMsg::Send {
                to_address: to.clone(),
                amount: crate::balance::duplicate_coins(&balance.native),
            },
        );
        proof {
            assert(msg_views(msgs@) =~= target.subrange(0, 1));
        }
    } else {
        proof {
            assert(msg_views(msgs@) =~= target.subrange(0, 0));
        }
    }
    let mut i: usize = 0;
    while i < balance.cw20.len()
        invariant
            i <= balance.cw20.len(),
            msgs@.len() == head + i,
            msg_views(msgs@) == target.subrange(0, head + i),
        decreases balance.cw20.len() - i,
    {
        msgs.push(
            TransferMsg::Cw20Transfer {
                contract_addr: balance.cw20[i].address.clone(),
                recipient: to.clone(),
                amount: balance.cw20[i].amount,
            },
        );
        proof {
            assert(target[head + i] == (TransferMsgView::Cw20Transfer {
                contract: balance@.cw20[i as int].key,
                recipient: to@,
                amount: balance@.cw20[i as int].amount,
            }));
            assert(msg_views(msgs@) =~= target.subrange(0, head + i + 1));
        }
        i += 1;
    }
    proof {
        assert(target.subrange(0, head + balance.cw20@.len()) =~= target);
    }
    msgs
}

impl Lockbox {
    /// Create a new lock under `(sender, id)`, holding the deposit until
    /// `expire`.
    pub fn try_lock(
        &mut self,
        now: u64,
        balance: Balance,
        sender: &String,
        id: String,
        expire: u64,
    ) -> (r: Result<Response, ContractError>)
        requires
            old(self).wf(),
        ensures
            final(self).wf(),
            final(self).spec_max_lock_time() == old(self).spec_max_lock_time(),
            final(self).spec_owner() == old(self).spec_owner(),
            match r {
                Ok(resp) => {
                    &&& create_err(
                        old(self)@,
                        old(self).spec_max_lock_time(),
                        balance@,
                        (sender@, id@),
                        expire,
                        now,
                    ) is None
                    &&& final(self)@ == create_next(
                        old(self)@,
                        balance@,
                        (sender@, id@),
                        expire,
                        now,
                    )
                    &&& resp@ == Seq::<TransferMsgView>::empty()
                },
                Err(e) => {
                    &&& create_err(
                        old(self)@,
                        old(self).spec_max_lock_time(),
                        balance@,
                        (sender@, id@),
                        expire,
                        now,
                    ) == Some(e)
                    &&& final(self)@ == old(self)@
                },
            },
    {
        if balance.is_empty() {
            return Err(ContractError::EmptyBalance);
        }
        if now >= expire {
            return Err(ContractError::LowExpired);
        }
        if expire - now >= self.state.max_lock_time {
            return Err(ContractError::HighExpired);
        }
        proof {
            lemma_entries_map_dom(self.locks@);
        }
        match position_of(&self.locks, sender, &id) {
            Some(_) => Err(ContractError::AlreadyInUse),
            None => {
                let entry = LockEntry {
                    addr: sender.clone(),
                    id,
                    lock: Lock {
                        create: now,
                        expire,
                        funds: GenericBalance::from_balance(balance),
                    },
                };
                proof {
                    lemma_entries_map_push(self.locks@, entry);
                }
                self.locks.push(entry);
                Ok(Response::empty())
            },
        }
    }

    /// Merge a further deposit into the existing, unexpired lock under
    /// `(sender, id)` without changing its expiry.
    pub fn try_increase_lock(
        &mut self,
        now: u64,
        balance: Balance,
        sender: &String,
        id: String,
    ) -> (r: Result<Response, ContractError>)
        requires
            old(self).wf(),
        ensures
            final(self).wf(),
            final(self).spec_max_lock_time() == old(self).spec_max_lock_time(),
            final(self).spec_owner() == old(self).spec_owner(),
            match r {
                Ok(resp) => {
                    &&& top_up_err(old(self)@, balance@, (sender@, id@), now) is None
                    &&& final(self)@ == top_up_next(old(self)@, balance@, (sender@, id@))
                    &&& resp@ == Seq::<TransferMsgView>::empty()
                },
                Err(e) => {
                    &&& top_up_err(old(self)@, balance@, (sender@, id@), now) == Some(e)
                    &&& final(self)@ == old(self)@
                },
            },
    {
        if balance.is_empty() {
            return Err(ContractError::EmptyBalance);
        }
        proof {
            lemma_entries_map_dom(self.locks@);
            lemma_entries_map_index(self.locks@);
        }
        match position_of(&self.locks, sender, &id) {
            None => Err(ContractError::NotFound),
            Some(i) => {
                if now > self.locks[i].lock.expire {
                    return Err(ContractError::LockExpired);
                }
                let mut funds = self.locks[i].lock.funds.duplicate();
                match funds.add_tokens(balance) {
                    Err(e) => Err(e),
                    Ok(()) => {
                        let stored = &self.locks[i];
                        let entry = LockEntry {
                            addr: stored.addr.clone(),
                            id: stored.id.clone(),
                            lock: Lock {
                                create: stored.lock.create,
                                expire: stored.lock.expire,
                                funds,
                            },
                        };
                        proof {
                            lemma_entries_map_update(self.locks@, i as int, entry);
                        }
                        let _ = self.locks.remove(i);
                        self.locks.insert(i, entry);
                        proof {
                            assert(self.locks@ =~= old(self).locks@.update(i as int, entry));
                        }
                        Ok(Response::empty())
                    },
                }
            },
        }
    }

    /// Pay out the expired lock under `(sender, id)` to the depositor and
    /// delete it in the same step, queuing the transfer instructions.
    pub fn try_unlock(&mut self, now: u64, sender: &String, id: String) -> (r: Result<
        Response,
        ContractError,
    >)
        requires
            old(self).wf(),
        ensures
            final(self).wf(),
            final(self).spec_max_lock_time() == old(self).spec_max_lock_time(),
            final(self).spec_owner() == old(self).spec_owner(),
            match r {
                Ok(resp) => {
                    &&& release_err(old(self)@, (sender@, id@), now) is None
                    &&& final(self)@ == release_next(old(self)@, (sender@, id@))
                    &&& resp@ == render_msgs(old(self)@[(sender@, id@)].funds, sender@)
                },
                Err(e) => {
                    &&& release_err(old(self)@, (sender@, id@), now) == Some(e)
                    &&& final(self)@ == old(self)@
                },
            },
    {
        proof {
            lemma_entries_map_dom(self.locks@);
            lemma_entries_map_index(self.locks@);
        }
        match position_of(&self.locks, sender, &id) {
            None => Err(ContractError::NotFound),
            Some(i) => {
                if now <= self.locks[i].lock.expire {
                    return Err(ContractError::LockNotExpired);
                }
                let messages = send_tokens(sender, &self.locks[i].lock.funds);
                proof {
                    lemma_entries_map_remove(self.locks@, i as int);
                }
                let _ = self.locks.remove(i);
                Ok(Response { messages })
            },
        }
    }
}

/// The public fields of a lock, under the identifier it was queried by.
pub fn to_lock_info(lock: &Lock, id: String) -> (info: LockInfo)
    ensures
        info@ == (crate::msg::LockInfoView {
            id: id@,
            create: lock.create,
            expire: lock.expire,
            native: lock@.funds.native,
            cw20: lock@.funds.cw20,
        }),
{
    LockInfo {
        id,
        create: lock.create,
        expire: lock.expire,
        native_balance: crate::balance::duplicate_coins(&lock.funds.native),
        cw20_balance: crate::balance::duplicate_cw20s(&lock.funds.cw20),
    }
}

/// Whether `v` occurs among the identifiers.
pub open spec fn contains_id(ids: Seq<Seq<char>>, v: Seq<char>) -> bool {
    exists|j: int| 0 <= j < ids.len() && ids[j] == v
}

/// Place an identifier into a strictly ascending list, keeping it sorted.
#[verifier::loop_isolation(false)]
fn insert_sorted(ids: &mut Vec<String>, id: String)
    requires
        forall|p: int, q: int|
            0 <= p < q < old(ids)@.len() ==> lex_lt(str_views(old(ids)@)[p], str_views(old(ids)@)[q]),
        forall|j: int| 0 <= j < old(ids)@.len() ==> str_views(old(ids)@)[j] != id@,
    ensures
        final(ids)@.len() == old(ids)@.len() + 1,
        forall|p: int, q: int|
            0 <= p < q < final(ids)@.len() ==> lex_lt(
                str_views(final(ids)@)[p],
                str_views(final(ids)@)[q],
            ),
        forall|v: Seq<char>| #[trigger] contains_id(str_views(final(ids)@), v) <==> (contains_id(
            str_views(old(ids)@),
            v,
        ) || v == id@),
{
    let ghost s0 = str_views(ids@);
    let mut p: usize = 0;
    let mut placing = true;
    while placing && p < ids.len()
        invariant
            p <= ids@.len(),
            ids@ == old(ids)@,
            forall|j: int| 0 <= j < p ==> lex_lt(s0[j], id@),
            !placing ==> p < ids@.len() && !lex_lt(s0[p as int], id@),
        decreases ids@.len() - p, if placing { 1int } else { 0int },
    {
        if str_lt(&ids[p], &id) {
            p += 1;
        } else {
            placing = false;
        }
    }
    proof {
        assert forall|q: int| p <= q < ids@.len() implies lex_lt(id@, s0[q]) by {
            lemma_lex_lt_total(id@, s0[p as int]);
            if q > p {
                lemma_lex_lt_trans(id@, s0[p as int], s0[q]);
            }
        }
    }
    ids.insert(p, id);
    proof {
        let s1 = str_views(ids@);
        assert forall|j: int| 0 <= j < s1.len() implies s1[j] == (if j < p {
            s0[j]
        } else if j == p {
            id@
        } else {
            s0[j - 1]
        }) by {
            if j < p {
                assert(ids@[j] == old(ids)@[j]);
            } else if j > p {
                assert(ids@[j] == old(ids)@[j - 1]);
            }
        }
        assert forall|v: Seq<char>| #[trigger] contains_id(s1, v) implies (contains_id(s0, v)
            || v == id@) by {
            let j = choose|j: int| 0 <= j < s1.len() && s1[j] == v;
            if j < p {
                assert(s0[j] == v);
            } else if j > p {
                assert(s0[j - 1] == v);
            }
        }
        assert forall|v: Seq<char>| (contains_id(s0, v) || v == id@) implies #[trigger] contains_id(
            s1,
            v,
        ) by {
            if v == id@ {
                assert(s1[p as int] == v);
            } else {
                let j = choose|j: int| 0 <= j < s0.len() && s0[j] == v;
                if j < p {
                    assert(s1[j] == v);
                } else {
                    assert(s1[j + 1] == v);
                }
            }
        }
    }
}

impl Lockbox {
    /// The details of the lock stored under `(address, id)`.
    pub fn query_lock(&self, address: &String, id: &String) -> (r: Result<LockInfo, ContractError>)
        requires
            self.wf(),
        ensures
            match r {
                Ok(info) => {
                    &&& self@.dom().contains((address@, id@))
                    &&& info@ == (crate::msg::LockInfoView {
                        id: id@,
                        create: self@[(address@, id@)].create,
                        expire: self@[(address@, id@)].expire,
                        native: self@[(address@, id@)].funds.native,
                        cw20: self@[(address@, id@)].funds.cw20,
                    })
                },
                Err(e) => {
                    &&& e == ContractError::NotFound
                    &&& !self@.dom().contains((address@, id@))
                },
            },
    {
        proof {
            lemma_entries_map_dom(self.locks@);
            lemma_entries_map_index(self.locks@);
        }
        match position_of(&self.locks, address, id) {
            None => Err(ContractError::NotFound),
            Some(i) => Ok(to_lock_info(&self.locks[i].lock, id.clone())),
        }
    }

    /// The identifiers of all locks of `address`, in strictly ascending
    /// lexicographic order.
    #[verifier::loop_isolation(false)]
    pub fn query_locks(&self, address: &String) -> (r: AllLocksResponse)
        requires
            self.wf(),
        ensures
            forall|p: int, q: int| 0 <= p < q < r@.len() ==> lex_lt(r@[p], r@[q]),
            forall|v: Seq<char>| #[trigger] contains_id(r@, v) <==> self@.dom().contains(
                (address@, v),
            ),
    {
        proof {
            lemma_entries_map_dom(self.locks@);
        }
        let mut ids: Vec<String> = Vec::new();
        let mut i: usize = 0;
        while i < self.locks.len()
            invariant
                i <= self.locks@.len(),
                forall|p: int, q: int|
                    0 <= p < q < ids@.len() ==> lex_lt(str_views(ids@)[p], str_views(ids@)[q]),
                forall|v: Seq<char>| #[trigger] contains_id(str_views(ids@), v) <==> (exists|
                    j: int,
                | 0 <= j < i && entry_key(self.locks@[j]) == (address@, v)),
            decreases self.locks@.len() - i,
        {
            if self.locks[i].addr == *address {
                let ghost before = str_views(ids@);
                proof {
                    if contains_id(before, self.locks@[i as int].id@) {
                        let j = choose|j: int|
                            0 <= j < i && entry_key(self.locks@[j]) == (
                            address@,
                            self.locks@[i as int].id@,
                            );
                        assert(entry_key(self.locks@[j]) == entry_key(self.locks@[i as int]));
                        assert(false);
                    }
                }
                insert_sorted(&mut ids, self.locks[i].id.clone());
                proof {
                    assert forall|v: Seq<char>| #[trigger] contains_id(str_views(ids@), v)
                        implies (exists|j: int|
                        0 <= j <= i && entry_key(self.locks@[j]) == (address@, v)) by {
                        if v == self.locks@[i as int].id@ {
                            assert(entry_key(self.locks@[i as int]) == (address@, v));
                        } else {
                            assert(contains_id(before, v));
                        }
                    }
                    assert forall|v: Seq<char>| (exists|j: int|
                        0 <= j <= i && entry_key(self.locks@[j]) == (address@, v))
                        implies #[trigger] contains_id(str_views(ids@), v) by {
                        let j = choose|j: int|
                            0 <= j <= i && entry_key(self.locks@[j]) == (address@, v);
                        if j < i {
                            assert(contains_id(before, v));
                        } else {
                            assert(v == self.locks@[i as int].id@);
                        }
                    }
                }
            } else {
                proof {
                    assert forall|v: Seq<char>| #[trigger] contains_id(str_views(ids@), v)
                        <==> (exists|j: int|
                        0 <= j <= i && entry_key(self.locks@[j]) == (address@, v)) by {
                        if exists|j: int|
                            0 <= j <= i && entry_key(self.locks@[j]) == (address@, v) {
                            let j = choose|j: int|
                                0 <= j <= i && entry_key(self.locks@[j]) == (address@, v);
                            assert(j < i);
                        }
                    }
                }
            }
            i += 1;
        }
        AllLocksResponse { locks: ids }
    }

    /// Answer a read-only query.
    pub fn query(&self, msg: QueryMsg) -> (r: Result<QueryAnswer, ContractError>)
        requires
            self.wf(),
        ensures
            match msg {
                QueryMsg::Lock { address, id } => match r {
                    Ok(QueryAnswer::Lock(info)) => {
                        &&& self@.dom().contains((address@, id@))
                        &&& info@ == (crate::msg::LockInfoView {
                            id: id@,
                            create: self@[(address@, id@)].create,
                            expire: self@[(address@, id@)].expire,
                            native: self@[(address@, id@)].funds.native,
                            cw20: self@[(address@, id@)].funds.cw20,
                        })
                    },
                    Err(e) => {
                        &&& e == ContractError::NotFound
                        &&& !self@.dom().contains((address@, id@))
                    },
                    Ok(QueryAnswer::AllLocks(_)) => false,
                },
                QueryMsg::AllLocks { address } => match r {
                    Ok(QueryAnswer::AllLocks(resp)) => {
                        &&& forall|p: int, q: int|
                            0 <= p < q < resp@.len() ==> lex_lt(resp@[p], resp@[q])
                        &&& forall|v: Seq<char>| #[trigger] contains_id(resp@, v)
                            <==> self@.dom().contains((address@, v))
                    },
                    _ => false,
                },
            },
    {
        match msg {
            QueryMsg::Lock { address, id } => match self.query_lock(&address, &id) {
                Ok(info) => Ok(QueryAnswer::Lock(info)),
                Err(e) => Err(e),
            },
            QueryMsg::AllLocks { address } => Ok(
                QueryAnswer::AllLocks(self.query_locks(&address)),
            ),
        }
    }

    /// Apply a deposit notification from a fungible-token contract: the
    /// calling contract `token` reports that `wrapper.sender` deposited
    /// `wrapper.amount` of its token, to be locked or merged as asked.
    pub fn try_recive(&mut self, now: u64, token: &String, wrapper: Cw20ReceiveMsg) -> (r: Result<
        Response,
        ContractError,
    >)
        requires
            old(self).wf(),
        ensures
            final(self).wf(),
            final(self).spec_max_lock_time() == old(self).spec_max_lock_time(),
            final(self).spec_owner() == old(self).spec_owner(),
            ({
                let deposit = BalanceView::Cw20(
                    crate::balance::AssetView { key: token@, amount: wrapper.amount },
                );
                match wrapper.msg {
                    ReceiveMsg::Lock { id, expire } => match r {
                        Ok(resp) => {
                            &&& create_err(
                                old(self)@,
                                old(self).spec_max_lock_time(),
                                deposit,
                                (wrapper.sender@, id@),
                                expire,
                                now,
                            ) is None
                            &&& final(self)@ == create_next(
                                old(self)@,
                                deposit,
                                (wrapper.sender@, id@),
                                expire,
                                now,
                            )
                            &&& resp@ == Seq::<TransferMsgView>::empty()
                        },
                        Err(e) => {
                            &&& create_err(
                                old(self)@,
                                old(self).spec_max_lock_time(),
                                deposit,
                                (wrapper.sender@, id@),
                                expire,
                                now,
                            ) == Some(e)
                            &&& final(self)@ == old(self)@
                        },
                    },
                    ReceiveMsg::IncreaseLock { id } => match r {
                        Ok(resp) => {
                            &&& top_up_err(old(self)@, deposit, (wrapper.sender@, id@), now)
                                is None
                            &&& final(self)@ == top_up_next(
                                old(self)@,
                                deposit,
                                (wrapper.sender@, id@),
                            )
                            &&& resp@ == Seq::<TransferMsgView>::empty()
                        },
                        Err(e) => {
                            &&& top_up_err(old(self)@, deposit, (wrapper.sender@, id@), now)
                                == Some(e)
                            &&& final(self)@ == old(self)@
                        },
                    },
                }
            }),
    {
        let Cw20ReceiveMsg { sender, amount, msg } = wrapper;
        let balance = Balance::Cw20(crate::balance::Cw20Coin { address: token.clone(), amount });
        match msg {
            ReceiveMsg::Lock { id, expire } => self.try_lock(now, balance, &sender, id, expire),
            ReceiveMsg::IncreaseLock { id } => self.try_increase_lock(now, balance, &sender, id),
        }
    }

    /// Classify and apply a mutating command. A lock or top-up command
    /// deposits the attached native `funds`; a deposit notification carries
    /// its own token deposit; a release command attaches nothing.
    pub fn execute(&mut self, now: u64, sender: &String, funds: Vec<Coin>, msg: ExecuteMsg) -> (r:
        Result<Response, ContractError>)
        requires
            old(self).wf(),
        ensures
            final(self).wf(),
            final(self).spec_max_lock_time() == old(self).spec_max_lock_time(),
            final(self).spec_owner() == old(self).spec_owner(),
            ({
                let native = BalanceView::Native(crate::balance::coin_views(funds@));
                match msg {
                    ExecuteMsg::Lock { id, expire } => match r {
                        Ok(resp) => {
                            &&& create_err(
                                old(self)@,
                                old(self).spec_max_lock_time(),
                                native,
                                (sender@, id@),
                                expire,
                                now,
                            ) is None
                            &&& final(self)@ == create_next(
                                old(self)@,
                                native,
                                (sender@, id@),
                                expire,
                                now,
                            )
                            &&& resp@ == Seq::<TransferMsgView>::empty()
                        },
                        Err(e) => {
                            &&& create_err(
                                old(self)@,
                                old(self).spec_max_lock_time(),
                                native,
                                (sender@, id@),
                                expire,
                                now,
                            ) == Some(e)
                            &&& final(self)@ == old(self)@
                        },
                    },
                    ExecuteMsg::IncreaseLock { id } => match r {
                        Ok(resp) => {
                            &&& top_up_err(old(self)@, native, (sender@, id@), now) is None
                            &&& final(self)@ == top_up_next(old(self)@, native, (sender@, id@))
                            &&& resp@ == Seq::<TransferMsgView>::empty()
                        },
                        Err(e) => {
                            &&& top_up_err(old(self)@, native, (sender@, id@), now) == Some(e)
                            &&& final(self)@ == old(self)@
                        },
                    },
                    ExecuteMsg::Unlock { id } => match r {
                        Ok(resp) => {
                            &&& release_err(old(self)@, (sender@, id@), now) is None
                            &&& final(self)@ == release_next(old(self)@, (sender@, id@))
                            &&& resp@ == render_msgs(old(self)@[(sender@, id@)].funds, sender@)
                        },
                        Err(e) => {
                            &&& release_err(old(self)@, (sender@, id@), now) == Some(e)
                            &&& final(self)@ == old(self)@
                        },
                    },
                    ExecuteMsg::Receive(wrapper) => {
                        let deposit = BalanceView::Cw20(
                            crate::balance::AssetView { key: sender@, amount: wrapper.amount },
                        );
                        match wrapper.msg {
                            ReceiveMsg::Lock { id, expire } => match r {
                                Ok(resp) => {
                                    &&& create_err(
                                        old(self)@,
                                        old(self).spec_max_lock_time(),
                                        deposit,
                                        (wrapper.sender@, id@),
                                        expire,
                                        now,
                                    ) is None
                                    &&& final(self)@ == create_next(
                                        old(self)@,
                                        deposit,
                                        (wrapper.sender@, id@),
                                        expire,
                                        now,
                                    )
                                    &&& resp@ == Seq::<TransferMsgView>::empty()
                                },
                                Err(e) => {
                                    &&& create_err(
                                        old(self)@,
                                        old(self).spec_max_lock_time(),
                                        deposit,
                                        (wrapper.sender@, id@),
                                        expire,
                                        now,
                                    ) == Some(e)
                                    &&& final(self)@ == old(self)@
                                },
                            },
                            ReceiveMsg::IncreaseLock { id } => match r {
                                Ok(resp) => {
                                    &&& top_up_err(
                                        old(self)@,
                                        deposit,
                                        (wrapper.sender@, id@),
                                        now,
                                    ) is None
                                    &&& final(self)@ == top_up_next(
                                        old(self)@,
                                        deposit,
                                        (wrapper.sender@, id@),
                                    )
                                    &&& resp@ == Seq::<TransferMsgView>::empty()
                                },
                                Err(e) => {
                                    &&& top_up_err(
                                        old(self)@,
                                        deposit,
                                        (wrapper.sender@, id@),
                                        now,
                                    ) == Some(e)
                                    &&& final(self)@ == old(self)@
                                },
                            },
                        }
                    },
                }
            }),
    {
        match msg {
            ExecuteMsg::Lock { id, expire } => self.try_lock(
                now,
                Balance::Native(funds),
                sender,
                id,
                expire,
            ),
            ExecuteMsg::IncreaseLock { id } => self.try_increase_lock(
                now,
                Balance::Native(funds),
                sender,
                id,
            ),
            ExecuteMsg::Unlock { id } => self.try_unlock(now, sender, id),
            ExecuteMsg::Receive(wrapper) => self.try_recive(now, sender, wrapper),
        }
    }
}

/// Creating a lock on a valid request succeeds, and the registry afterwards
/// holds under that key exactly a lock created now, expiring at `expire`,
/// with the deposited balance unchanged — so a subsequent lookup returns the
/// deposit.
pub proof fn lemma_create_then_query(
    m: Map<(Seq<char>, Seq<char>), LockView>,
    max_lock_time: u64,
    deposit: BalanceView,
    key: (Seq<char>, Seq<char>),
    expire: u64,
    now: u64,
)
    requires
        !balance_is_empty(deposit),
        now < expire,
        expire - now < max_lock_time,
        !m.dom().contains(key),
    ensures
        create_err(m, max_lock_time, deposit, key, expire, now) is None,
        create_next(m, deposit, key, expire, now).dom().contains(key),
        create_next(m, deposit, key, expire, now)[key] == (LockView {
            create: now,
            expire,
            funds: balance_to_generic(deposit),
        }),
{
}

/// Creating twice under one key fails: after a successful create, a second
/// create with the same `(depositor, lock id)` and an otherwise valid
/// request is rejected as already in use, whatever its deposit, expiry and
/// instant — and, the second command having failed, the first lock's
/// balance is untouched.
pub proof fn lemma_create_twice_in_use(
    m: Map<(Seq<char>, Seq<char>), LockView>,
    max_lock_time: u64,
    first_deposit: BalanceView,
    second_deposit: BalanceView,
    key: (Seq<char>, Seq<char>),
    first_expire: u64,
    first_now: u64,
    second_expire: u64,
    second_now: u64,
)
    requires
        create_err(m, max_lock_time, first_deposit, key, first_expire, first_now) is None,
        !balance_is_empty(second_deposit),
        second_now < second_expire,
        second_expire - second_now < max_lock_time,
    ensures
        create_err(
            create_next(m, first_deposit, key, first_expire, first_now),
            max_lock_time,
            second_deposit,
            key,
            second_expire,
            second_now,
        ) == Some(ContractError::AlreadyInUse),
        create_next(m, first_deposit, key, first_expire, first_now)[key].funds
            == balance_to_generic(first_deposit),
{
}

/// A lock's instants are well-placed: it was created strictly before its
/// expiry, and lasts strictly less than the configured maximum duration.
pub open spec fn lock_time_wf(l: LockView, max_lock_time: u64) -> bool {
    l.create < l.expire && l.expire - l.create < max_lock_time
}

/// Every stored lock has well-placed instants.
pub open spec fn registry_time_wf(
    m: Map<(Seq<char>, Seq<char>), LockView>,
    max_lock_time: u64,
) -> bool {
    forall|k: (Seq<char>, Seq<char>)| #[trigger] m.dom().contains(k) ==> lock_time_wf(
        m[k],
        max_lock_time,
    )
}

/// The three transitions keep every stored lock's instants well-placed: a
/// create places them inside the window, a top-up leaves them unchanged,
/// and a release only removes a record.
pub proof fn lemma_transitions_keep_time_wf(
    m: Map<(Seq<char>, Seq<char>), LockView>,
    max_lock_time: u64,
    deposit: BalanceView,
    key: (Seq<char>, Seq<char>),
    expire: u64,
    now: u64,
)
    requires
        registry_time_wf(m, max_lock_time),
    ensures
        create_err(m, max_lock_time, deposit, key, expire, now) is None
            ==> registry_time_wf(create_next(m, deposit, key, expire, now), max_lock_time),
        top_up_err(m, deposit, key, now) is None ==> registry_time_wf(
            top_up_next(m, deposit, key),
            max_lock_time,
        ),
        registry_time_wf(release_next(m, key), max_lock_time),
{
}

/// The expiry instant itself is the boundary, and the two commands treat it
/// asymmetrically: a lock can still be topped up exactly at its expiry
/// instant, while releasing is rejected then and first allowed one second
/// past it.
pub proof fn lemma_expiry_boundary(
    m: Map<(Seq<char>, Seq<char>), LockView>,
    deposit: BalanceView,
    key: (Seq<char>, Seq<char>),
)
    requires
        m.dom().contains(key),
        !balance_is_empty(deposit),
        add_balance(m[key].funds, deposit) is Some,
        m[key].expire < u64::MAX,
    ensures
        top_up_err(m, deposit, key, m[key].expire) is None,
        release_err(m, key, m[key].expire) == Some(ContractError::LockNotExpired),
        release_err(m, key, (m[key].expire + 1) as u64) is None,
{
}

/// Release happens exactly once: after a successful release, a second
/// release of the same key is rejected as not found, at any instant — so no
/// further transfer instructions are ever produced for it.
pub proof fn lemma_release_exactly_once(
    m: Map<(Seq<char>, Seq<char>), LockView>,
    key: (Seq<char>, Seq<char>),
    first_now: u64,
    second_now: u64,
)
    requires
        release_err(m, key, first_now) is None,
    ensures
        release_err(release_next(m, key), key, second_now) == Some(ContractError::NotFound),
{
}

} // verus!
