//! The registry walked through its commands: creation, top-up, release,
//! and the rejections along the way.

use cw_lockbox::balance::Coin;
use cw_lockbox::contract::Lockbox;
use cw_lockbox::error::ContractError;
use cw_lockbox::msg::{
    AllLocksResponse, ExecuteMsg, InstantiateMsg, LockInfo, QueryAnswer, QueryMsg, TransferMsg,
};

fn coins(amount: u128, denom: &str) -> Vec<Coin> {
    vec![Coin { denom: denom.to_string(), amount }]
}

fn query_lock_info(lb: &Lockbox, address: &str, id: &str) -> Result<LockInfo, ContractError> {
    match lb.query(QueryMsg::Lock { address: address.to_string(), id: id.to_string() }) {
        Ok(QueryAnswer::Lock(info)) => Ok(info),
        Ok(_) => panic!("unexpected answer kind"),
        Err(e) => Err(e),
    }
}

fn query_all_locks(lb: &Lockbox, address: &str) -> AllLocksResponse {
    match lb.query(QueryMsg::AllLocks { address: address.to_string() }) {
        Ok(QueryAnswer::AllLocks(resp)) => resp,
        _ => panic!("unexpected answer kind"),
    }
}

#[test]
fn proper_initialization() {
    let msg = InstantiateMsg { max_lock_time: 3600 };
    let lb = Lockbox::instantiate(msg, "creator".to_string());

    assert_eq!(3600, lb.max_lock_time());
    assert_eq!("creator", lb.owner().as_str());
    assert_eq!(0, query_all_locks(&lb, "creator").locks.len());
}

#[test]
fn lock() {
    let msg = InstantiateMsg { max_lock_time: 3600 };
    let mut lb = Lockbox::instantiate(msg, "creator".to_string());

    // empty funds
    let msg = ExecuteMsg::Lock { id: "1".to_string(), expire: 10 };
    let res = lb.execute(0, &"anyone".to_string(), vec![], msg);
    match res {
        Err(ContractError::EmptyBalance) => {}
        _ => panic!("Must return EmptyBalance error"),
    }

    // lower expire
    let msg = ExecuteMsg::Lock { id: "1".to_string(), expire: 10 };
    let res = lb.execute(100, &"anyone".to_string(), coins(2, "token"), msg);
    match res {
        Err(ContractError::LowExpired) => {}
        _ => panic!("Must return LowExpired error"),
    }

    // high expire
    let msg = ExecuteMsg::Lock { id: "1".to_string(), expire: 4000 };
    let res = lb.execute(0, &"anyone".to_string(), coins(2, "token"), msg);
    match res {
        Err(ContractError::HighExpired) => {}
        _ => panic!("Must return HighExpired error"),
    }

    // lock funds 1
    let msg = ExecuteMsg::Lock { id: "1".to_string(), expire: 200 };
    let _res = lb.execute(0, &"anyone".to_string(), coins(2, "token"), msg).unwrap();

    // should exists lock
    let value = query_lock_info(&lb, "anyone", "1").unwrap();
    assert_eq!(0, value.create);
    assert_eq!(200, value.expire);

    // try lock same id
    let msg = ExecuteMsg::Lock { id: "1".to_string(), expire: 200 };
    let res = lb.execute(0, &"anyone".to_string(), coins(2, "token"), msg);
    match res {
        Err(ContractError::AlreadyInUse) => {}
        _ => panic!("Must return AlreadyInUse error"),
    }

    // lock funds 2
    let msg = ExecuteMsg::Lock { id: "2".to_string(), expire: 300 };
    let _res = lb.execute(0, &"anyone".to_string(), coins(2, "token"), msg).unwrap();

    // should exists lock
    let value = query_lock_info(&lb, "anyone", "2").unwrap();
    assert_eq!(300, value.expire);

    let value = query_all_locks(&lb, "anyone");
    assert_eq!(2, value.locks.len())
}

#[test]
fn increase_lock() {
    let msg = InstantiateMsg { max_lock_time: 3600 };
    let mut lb = Lockbox::instantiate(msg, "creator".to_string());

    // lock funds
    let msg = ExecuteMsg::Lock { id: "1".to_string(), expire: 200 };
    let _res = lb.execute(100, &"anyone".to_string(), coins(2, "token"), msg).unwrap();

    // try increase lock invalid id
    let msg = ExecuteMsg::IncreaseLock { id: "2".to_string() };
    let res = lb.execute(100, &"anyone".to_string(), coins(5, "token"), msg);
    match res {
        Err(ContractError::NotFound) => {}
        _ => panic!("Must return NotFound error"),
    }

    // try increase lock after expire
    let msg = ExecuteMsg::IncreaseLock { id: "1".to_string() };
    let res = lb.execute(201, &"anyone".to_string(), coins(5, "token"), msg);
    match res {
        Err(ContractError::LockExpired) => {}
        _ => panic!("Must return LockExpired error"),
    }

    // increase valid lock
    let msg = ExecuteMsg::IncreaseLock { id: "1".to_string() };
    let res = lb.execute(120, &"anyone".to_string(), coins(5, "token"), msg).unwrap();
    assert_eq!(0, res.messages.len());

    // query funds lock
    let value = query_lock_info(&lb, "anyone", "1").unwrap();
    assert_eq!(coins(7, "token"), value.native_balance);
}

#[test]
fn unlock() {
    let msg = InstantiateMsg { max_lock_time: 3600 };
    let mut lb = Lockbox::instantiate(msg, "creator".to_string());

    // lock funds
    let msg = ExecuteMsg::Lock { id: "1".to_string(), expire: 400 };
    let _res = lb.execute(0, &"anyone".to_string(), coins(2, "token"), msg).unwrap();

    // cannot unlock until expire
    let msg = ExecuteMsg::Unlock { id: "1".to_string() };
    let res = lb.execute(100, &"anyone".to_string(), vec![], msg);
    match res {
        Err(ContractError::LockNotExpired) => {}
        _ => panic!("Must return LockNotExpired error"),
    }

    // unlock funds
    let msg = ExecuteMsg::Unlock { id: "1".to_string() };
    let res = lb.execute(401, &"anyone".to_string(), vec![], msg).unwrap();
    assert_eq!(1, res.messages.len());
    assert_eq!(
        res.messages[0],
        TransferMsg::Send { to_address: "anyone".to_string(), amount: coins(2, "token") }
    );

    // should lock completed
    let res = query_lock_info(&lb, "anyone", "1");
    match res {
        Err(ContractError::NotFound) => {}
        _ => panic!("Must return NotFound error"),
    }
}
