//! Commands, queries, and responses of the lockbox.
//!
//! An inbound command either carries a native deposit directly, or arrives as
//! a deposit notification from a fungible-token contract; both are normalized
//! into the same shape before reaching the registry.

use vstd::prelude::*;

use crate::balance::{AssetView, Coin, Cw20Coin};

verus! {

/// The one-time configuration of a fresh registry.
#[derive(Debug, Clone, PartialEq, Eq)]
pub struct InstantiateMsg {
    /// Longest allowed lock duration, in seconds (exclusive bound).
    pub max_lock_time: u64,
}

/// A deposit notification decoded from a fungible-token contract callback.
///
/// `sender` is the depositor on whose behalf the token contract reports the
/// deposit, and `amount` is denominated in the calling contract's token.
#[derive(Debug, Clone, PartialEq, Eq)]
pub struct Cw20ReceiveMsg {
    pub sender: String,
    pub amount: u128,
    pub msg: ReceiveMsg,
}

/// What a deposit notification asks for.
#[derive(Debug, Clone, PartialEq, Eq)]
pub enum ReceiveMsg {
    /// Lock the reported funds until `expire`.
    Lock { id: String, expire: u64 },
    /// Merge the reported funds into an existing lock.
    IncreaseLock { id: String },
}

/// A mutating command.
#[derive(Debug, Clone, PartialEq, Eq)]
pub enum ExecuteMsg {
    /// Lock the attached native funds until `expire`.
    Lock { id: String, expire: u64 },
    /// Merge the attached native funds into an existing lock.
    IncreaseLock { id: String },
    /// Pay out an expired lock to its depositor and delete it.
    Unlock { id: String },
    /// A deposit notification from a fungible-token contract.
    Receive(Cw20ReceiveMsg),
}

/// A read-only query.
#[derive(Debug, Clone, PartialEq, Eq)]
pub enum QueryMsg {
    /// The details of one lock.
    Lock { address: String, id: String },
    /// The identifiers of all locks of one depositor.
    AllLocks { address: String },
}

/// The public fields of one lock.
#[derive(Debug, Clone, PartialEq, Eq)]
pub struct LockInfo {
    pub id: String,
    pub create: u64,
    pub expire: u64,
    /// Funds in native coins.
    pub native_balance: Vec<Coin>,
    /// Funds in fungible tokens.
    pub cw20_balance: Vec<Cw20Coin>,
}

/// The identifiers of all locks of one depositor, in ascending order.
#[derive(Debug, Clone, PartialEq, Eq)]
pub struct AllLocksResponse {
    pub locks: Vec<String>,
}

/// The answer to a [`QueryMsg`].
#[derive(Debug, Clone, PartialEq, Eq)]
pub enum QueryAnswer {
    Lock(LockInfo),
    AllLocks(AllLocksResponse),
}

/// An outbound transfer instruction, queued by a release and executed later
/// by the surrounding message dispatcher.
#[derive(Debug, Clone, PartialEq, Eq)]
pub enum TransferMsg {
    /// One batched transfer of native coins to a recipient.
    Send { to_address: String, amount: Vec<Coin> },
    /// A transfer order addressed to the issuing token contract.
    Cw20Transfer { contract_addr: String, recipient: String, amount: u128 },
}

/// What a command produced: the transfer instructions it queued.
#[derive(Debug, Clone, PartialEq, Eq)]
pub struct Response {
    pub messages: Vec<TransferMsg>,
}

/// The mathematical value of a [`TransferMsg`].
pub ghost enum TransferMsgView {
    Send { to: Seq<char>, amount: Seq<AssetView> },
    Cw20Transfer { contract: Seq<char>, recipient: Seq<char>, amount: u128 },
}

/// The mathematical value of a [`LockInfo`].
pub ghost struct LockInfoView {
    pub id: Seq<char>,
    pub create: u64,
    pub expire: u64,
    pub native: Seq<AssetView>,
    pub cw20: Seq<AssetView>,
}

impl View for TransferMsg {
    type V = TransferMsgView;

    open spec fn view(&self) -> TransferMsgView {
        match self {
            TransferMsg::Send { to_address, amount } => (TransferMsgView::Send {
                to: to_address@,
                amount: crate::balance::coin_views(amount@),
            }),
            TransferMsg::Cw20Transfer { contract_addr, recipient, amount } => (
            TransferMsgView::Cw20Transfer {
                contract: contract_addr@,
                recipient: recipient@,
                amount: *amount,
            }),
        }
    }
}

/// The entry values of a sequence of transfer instructions.
pub open spec fn msg_views(s: Seq<TransferMsg>) -> Seq<TransferMsgView> {
    Seq::new(s.len(), |i: int| s[i]@)
}

impl View for Response {
    type V = Seq<TransferMsgView>;

    open spec fn view(&self) -> Seq<TransferMsgView> {
        msg_views(self.messages@)
    }
}

impl View for LockInfo {
    type V = LockInfoView;

    open spec fn view(&self) -> LockInfoView {
        LockInfoView {
            id: self.id@,
            create: self.create,
            expire: self.expire,
            native: crate::balance::coin_views(self.native_balance@),
            cw20: crate::balance::cw20_views(self.cw20_balance@),
        }
    }
}

/// The entry values of a sequence of lock identifiers.
pub open spec fn str_views(s: Seq<String>) -> Seq<Seq<char>> {
    Seq::new(s.len(), |i: int| s[i]@)
}

impl View for AllLocksResponse {
    type V = Seq<Seq<char>>;

    open spec fn view(&self) -> Seq<Seq<char>> {
        str_views(self.locks@)
    }
}

impl Response {
    /// A response that queues nothing.
    pub fn empty() -> (r: Response)
        ensures
            r@ == Seq::<TransferMsgView>::empty(),
    {
        let r = Response { messages: Vec::new() };
        proof {
            assert(r@ =~= Seq::<TransferMsgView>::empty());
        }
        r
    }
}

} // verus!
