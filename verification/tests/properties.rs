//! Scenario tests: merge order, boundary instants, overflow, token-contract
//! deposits, identifier ordering, and one end-to-end walk.

use cw_lockbox::balance::{Balance, Coin, Cw20Coin, GenericBalance};
use cw_lockbox::contract::Lockbox;
use cw_lockbox::error::ContractError;
use cw_lockbox::msg::{
    Cw20ReceiveMsg, ExecuteMsg, InstantiateMsg, QueryAnswer, QueryMsg, ReceiveMsg, TransferMsg,
};

fn coin(amount: u128, denom: &str) -> Coin {
    Coin { denom: denom.to_string(), amount }
}

fn coins(amount: u128, denom: &str) -> Vec<Coin> {
    vec![coin(amount, denom)]
}

fn new_lockbox(max_lock_time: u64) -> Lockbox {
    Lockbox::instantiate(InstantiateMsg { max_lock_time }, "creator".to_string())
}

fn lock_native(lb: &mut Lockbox, now: u64, sender: &str, id: &str, expire: u64, funds: Vec<Coin>) {
    let msg = ExecuteMsg::Lock { id: id.to_string(), expire };
    lb.execute(now, &sender.to_string(), funds, msg).unwrap();
}

#[test]
fn merge_deposits_in_either_order() {
    let base = GenericBalance {
        native: vec![coin(10, "earth"), coin(3, "moon")],
        cw20: vec![Cw20Coin { address: "issuer".to_string(), amount: 4 }],
    };
    let a = Balance::Native(vec![coin(5, "earth"), coin(1, "sun")]);
    let b = Balance::Cw20(Cw20Coin { address: "issuer".to_string(), amount: 6 });

    let mut ab = base.clone();
    ab.add_tokens(a.clone()).unwrap();
    ab.add_tokens(b.clone()).unwrap();

    let mut ba = base.clone();
    ba.add_tokens(b).unwrap();
    ba.add_tokens(a).unwrap();

    assert_eq!(ab, ba);
    assert_eq!(ab.native, vec![coin(15, "earth"), coin(3, "moon"), coin(1, "sun")]);
    assert_eq!(ab.cw20, vec![Cw20Coin { address: "issuer".to_string(), amount: 10 }]);
}

#[test]
fn merge_native_deposits_in_either_order() {
    let base = GenericBalance { native: vec![coin(7, "earth"), coin(2, "sun")], cw20: vec![] };
    let a = Balance::Native(coins(5, "earth"));
    let b = Balance::Native(coins(9, "sun"));

    let mut ab = base.clone();
    ab.add_tokens(a.clone()).unwrap();
    ab.add_tokens(b.clone()).unwrap();

    let mut ba = base.clone();
    ba.add_tokens(b).unwrap();
    ba.add_tokens(a).unwrap();

    assert_eq!(ab, ba);
    assert_eq!(ab.native, vec![coin(12, "earth"), coin(11, "sun")]);
}

#[test]
fn top_up_allowed_exactly_at_expiry() {
    let mut lb = new_lockbox(3600);
    lock_native(&mut lb, 0, "alice", "1", 200, coins(2, "token"));

    let msg = ExecuteMsg::IncreaseLock { id: "1".to_string() };
    let res = lb.execute(200, &"alice".to_string(), coins(3, "token"), msg);
    assert!(res.is_ok());
}

#[test]
fn release_rejected_exactly_at_expiry() {
    let mut lb = new_lockbox(3600);
    lock_native(&mut lb, 0, "alice", "1", 200, coins(2, "token"));

    let msg = ExecuteMsg::Unlock { id: "1".to_string() };
    let res = lb.execute(200, &"alice".to_string(), vec![], msg);
    match res {
        Err(ContractError::LockNotExpired) => {}
        _ => panic!("Must return LockNotExpired error"),
    }

    let msg = ExecuteMsg::Unlock { id: "1".to_string() };
    let res = lb.execute(201, &"alice".to_string(), vec![], msg);
    assert!(res.is_ok());
}

#[test]
fn expiry_at_exact_maximum_rejected() {
    let mut lb = new_lockbox(3600);

    let msg = ExecuteMsg::Lock { id: "1".to_string(), expire: 3600 };
    let res = lb.execute(0, &"alice".to_string(), coins(2, "token"), msg);
    match res {
        Err(ContractError::HighExpired) => {}
        _ => panic!("Must return HighExpired error"),
    }

    let msg = ExecuteMsg::Lock { id: "1".to_string(), expire: 3599 };
    let res = lb.execute(0, &"alice".to_string(), coins(2, "token"), msg);
    assert!(res.is_ok());
}

#[test]
fn expiry_in_past_rejected() {
    let mut lb = new_lockbox(3600);

    let msg = ExecuteMsg::Lock { id: "1".to_string(), expire: 100 };
    let res = lb.execute(100, &"alice".to_string(), coins(2, "token"), msg);
    match res {
        Err(ContractError::LowExpired) => {}
        _ => panic!("Must return LowExpired error"),
    }
}

#[test]
fn top_up_overflow_leaves_lock_unchanged() {
    let mut lb = new_lockbox(3600);
    lock_native(&mut lb, 0, "alice", "1", 200, coins(u128::MAX, "token"));

    let msg = ExecuteMsg::IncreaseLock { id: "1".to_string() };
    let res = lb.execute(100, &"alice".to_string(), coins(1, "token"), msg);
    match res {
        Err(ContractError::Overflow) => {}
        _ => panic!("Must return Overflow error"),
    }

    let info = match lb.query(QueryMsg::Lock {
        address: "alice".to_string(),
        id: "1".to_string(),
    }) {
        Ok(QueryAnswer::Lock(info)) => info,
        _ => panic!("lock must still exist"),
    };
    assert_eq!(coins(u128::MAX, "token"), info.native_balance);
}

#[test]
fn zero_amount_deposit_is_empty() {
    let mut lb = new_lockbox(3600);

    let msg = ExecuteMsg::Lock { id: "1".to_string(), expire: 200 };
    let res = lb.execute(0, &"alice".to_string(), coins(0, "token"), msg);
    match res {
        Err(ContractError::EmptyBalance) => {}
        _ => panic!("Must return EmptyBalance error"),
    }

    let wrapper = Cw20ReceiveMsg {
        sender: "alice".to_string(),
        amount: 0,
        msg: ReceiveMsg::Lock { id: "1".to_string(), expire: 200 },
    };
    let res = lb.execute(0, &"issuer".to_string(), vec![], ExecuteMsg::Receive(wrapper));
    match res {
        Err(ContractError::EmptyBalance) => {}
        _ => panic!("Must return EmptyBalance error"),
    }
}

#[test]
fn receive_locks_and_releases_tokens() {
    let mut lb = new_lockbox(3600);

    // the token contract "issuer" reports a deposit by "alice"
    let wrapper = Cw20ReceiveMsg {
        sender: "alice".to_string(),
        amount: 40,
        msg: ReceiveMsg::Lock { id: "7".to_string(), expire: 300 },
    };
    let res = lb.execute(0, &"issuer".to_string(), vec![], ExecuteMsg::Receive(wrapper)).unwrap();
    assert_eq!(0, res.messages.len());

    // a second notification tops the lock up
    let wrapper = Cw20ReceiveMsg {
        sender: "alice".to_string(),
        amount: 2,
        msg: ReceiveMsg::IncreaseLock { id: "7".to_string() },
    };
    let res = lb.execute(250, &"issuer".to_string(), vec![], ExecuteMsg::Receive(wrapper)).unwrap();
    assert_eq!(0, res.messages.len());

    // after expiry the depositor releases; one transfer order to the issuer
    let msg = ExecuteMsg::Unlock { id: "7".to_string() };
    let res = lb.execute(301, &"alice".to_string(), vec![], msg).unwrap();
    assert_eq!(1, res.messages.len());
    assert_eq!(
        res.messages[0],
        TransferMsg::Cw20Transfer {
            contract_addr: "issuer".to_string(),
            recipient: "alice".to_string(),
            amount: 42,
        }
    );
}

#[test]
fn locks_listed_in_ascending_order() {
    let mut lb = new_lockbox(3600);
    lock_native(&mut lb, 0, "alice", "b", 100, coins(1, "token"));
    lock_native(&mut lb, 0, "alice", "c", 100, coins(1, "token"));
    lock_native(&mut lb, 0, "alice", "a", 100, coins(1, "token"));
    lock_native(&mut lb, 0, "bob", "z", 100, coins(1, "token"));

    let resp = match lb.query(QueryMsg::AllLocks { address: "alice".to_string() }) {
        Ok(QueryAnswer::AllLocks(resp)) => resp,
        _ => panic!("unexpected answer kind"),
    };
    assert_eq!(vec!["a".to_string(), "b".to_string(), "c".to_string()], resp.locks);
}

#[test]
fn release_pays_out_batched_natives_then_tokens() {
    let mut lb = new_lockbox(3600);
    lock_native(&mut lb, 0, "alice", "1", 100, vec![coin(2, "earth"), coin(3, "moon")]);

    let wrapper = Cw20ReceiveMsg {
        sender: "alice".to_string(),
        amount: 9,
        msg: ReceiveMsg::IncreaseLock { id: "1".to_string() },
    };
    lb.execute(50, &"issuer".to_string(), vec![], ExecuteMsg::Receive(wrapper)).unwrap();

    let msg = ExecuteMsg::Unlock { id: "1".to_string() };
    let res = lb.execute(101, &"alice".to_string(), vec![], msg).unwrap();
    assert_eq!(2, res.messages.len());
    assert_eq!(
        res.messages[0],
        TransferMsg::Send {
            to_address: "alice".to_string(),
            amount: vec![coin(2, "earth"), coin(3, "moon")],
        }
    );
    assert_eq!(
        res.messages[1],
        TransferMsg::Cw20Transfer {
            contract_addr: "issuer".to_string(),
            recipient: "alice".to_string(),
            amount: 9,
        }
    );
}

#[test]
fn end_to_end_lock_top_up_release() {
    let mut lb = new_lockbox(3600);

    let msg = ExecuteMsg::Lock { id: "1".to_string(), expire: 200 };
    lb.execute(0, &"alice".to_string(), coins(2, "token"), msg).unwrap();

    let msg = ExecuteMsg::IncreaseLock { id: "1".to_string() };
    lb.execute(120, &"alice".to_string(), coins(5, "token"), msg).unwrap();

    let info = match lb.query(QueryMsg::Lock {
        address: "alice".to_string(),
        id: "1".to_string(),
    }) {
        Ok(QueryAnswer::Lock(info)) => info,
        _ => panic!("lock must exist"),
    };
    assert_eq!(coins(7, "token"), info.native_balance);

    let msg = ExecuteMsg::Unlock { id: "1".to_string() };
    let res = lb.execute(201, &"alice".to_string(), vec![], msg).unwrap();
    assert_eq!(1, res.messages.len());
    assert_eq!(
        res.messages[0],
        TransferMsg::Send { to_address: "alice".to_string(), amount: coins(7, "token") }
    );

    let res = lb.query(QueryMsg::Lock { address: "alice".to_string(), id: "1".to_string() });
    match res {
        Err(ContractError::NotFound) => {}
        _ => panic!("Must return NotFound error"),
    }

    // release happens exactly once
    let msg = ExecuteMsg::Unlock { id: "1".to_string() };
    let res = lb.execute(300, &"alice".to_string(), vec![], msg);
    match res {
        Err(ContractError::NotFound) => {}
        _ => panic!("Must return NotFound error"),
    }
}

#[test]
fn same_id_reusable_after_release() {
    let mut lb = new_lockbox(3600);
    lock_native(&mut lb, 0, "alice", "1", 100, coins(2, "token"));

    let msg = ExecuteMsg::Unlock { id: "1".to_string() };
    lb.execute(101, &"alice".to_string(), vec![], msg).unwrap();

    // the key is free again: a new lock under the same id is accepted
    lock_native(&mut lb, 150, "alice", "1", 300, coins(4, "token"));
    let info = match lb.query(QueryMsg::Lock {
        address: "alice".to_string(),
        id: "1".to_string(),
    }) {
        Ok(QueryAnswer::Lock(info)) => info,
        _ => panic!("lock must exist"),
    };
    assert_eq!(150, info.create);
    assert_eq!(300, info.expire);
}

#[test]
fn depositors_are_isolated() {
    let mut lb = new_lockbox(3600);
    lock_native(&mut lb, 0, "alice", "1", 100, coins(2, "token"));

    // bob cannot release alice's lock: his key space is his own
    let msg = ExecuteMsg::Unlock { id: "1".to_string() };
    let res = lb.execute(101, &"bob".to_string(), vec![], msg);
    match res {
        Err(ContractError::NotFound) => {}
        _ => panic!("Must return NotFound error"),
    }
}

#[test]
fn error_messages_describe_each_kind() {
    assert_eq!("Send some coins to lock funds", ContractError::EmptyBalance.message());
    assert_eq!("Expire time is lower", ContractError::LowExpired.message());
    assert_eq!("Expire time is higher", ContractError::HighExpired.message());
    assert_eq!("Lock id already in use", ContractError::AlreadyInUse.message());
    assert_eq!("Lock not found", ContractError::NotFound.message());
    assert_eq!("Lock has expired", ContractError::LockExpired.message());
    assert_eq!("Lock has not expired", ContractError::LockNotExpired.message());
    assert_eq!("Balance amount overflow", ContractError::Overflow.message());
}
