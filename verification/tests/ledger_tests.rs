use blog::ledger::{Address, Blog, LedgerError};
use blog::u256::U256;

fn addr(n: u128) -> Address {
    Address { hi: 0, lo: n }
}

fn points(n: u128) -> U256 {
    U256::from_u128(n)
}

#[test]
fn fresh_accounts_read_as_defaults() {
    let ledger = Blog::new();
    let a = addr(1);
    assert_eq!(ledger.get_points(a), U256::zero());
    assert_eq!(ledger.get_tasks(a), Vec::<String>::new());
    assert_eq!(ledger.get_activities(a), Vec::<String>::new());
}

#[test]
fn complete_task_credits_and_logs() {
    let mut ledger = Blog::new();
    let a = addr(1);
    assert_eq!(ledger.complete_task(a, points(5), "t".to_string()), Ok(()));
    assert_eq!(ledger.get_points(a), points(5));
    assert_eq!(ledger.get_tasks(a), vec!["t".to_string()]);
    assert_eq!(ledger.complete_task(a, points(7), "u".to_string()), Ok(()));
    assert_eq!(ledger.get_points(a), points(12));
    assert_eq!(ledger.get_tasks(a), vec!["t".to_string(), "u".to_string()]);
    assert_eq!(ledger.get_activities(a), Vec::<String>::new());
}

#[test]
fn complete_task_overflow_rejected_and_state_kept() {
    let mut ledger = Blog::new();
    let a = addr(1);
    let max = U256 { hi: u128::MAX, lo: u128::MAX };
    assert_eq!(ledger.complete_task(a, max, "all".to_string()), Ok(()));
    assert_eq!(ledger.get_points(a), max);
    assert_eq!(
        ledger.complete_task(a, points(1), "one more".to_string()),
        Err(LedgerError::ArithmeticOverflow)
    );
    assert_eq!(ledger.get_points(a), max);
    assert_eq!(ledger.get_tasks(a), vec!["all".to_string()]);
}

#[test]
fn transfer_moves_balance_and_logs_both_sides() {
    let mut ledger = Blog::new();
    let a = addr(1);
    let b = addr(2);
    assert_eq!(ledger.complete_task(a, points(100), "seed".to_string()), Ok(()));
    assert_eq!(
        ledger.transfer_token(a, b, points(30), "to b".to_string(), "from a".to_string()),
        Ok(())
    );
    assert_eq!(ledger.get_points(a), points(70));
    assert_eq!(ledger.get_points(b), points(30));
    assert_eq!(ledger.get_activities(a), vec!["to b".to_string()]);
    assert_eq!(ledger.get_activities(b), vec!["from a".to_string()]);
    assert_eq!(ledger.get_tasks(b), Vec::<String>::new());
}

#[test]
fn transfer_insufficient_rejected_and_state_kept() {
    let mut ledger = Blog::new();
    let a = addr(1);
    let b = addr(2);
    assert_eq!(ledger.complete_task(a, points(10), "seed".to_string()), Ok(()));
    assert_eq!(
        ledger.transfer_token(a, b, points(11), "s".to_string(), "r".to_string()),
        Err(LedgerError::InsufficientBalance)
    );
    assert_eq!(ledger.get_points(a), points(10));
    assert_eq!(ledger.get_points(b), U256::zero());
    assert_eq!(ledger.get_activities(a), Vec::<String>::new());
    assert_eq!(ledger.get_activities(b), Vec::<String>::new());
}

#[test]
fn transfer_overflow_rejected_and_state_kept() {
    let mut ledger = Blog::new();
    let a = addr(1);
    let b = addr(2);
    let max = U256 { hi: u128::MAX, lo: u128::MAX };
    assert_eq!(ledger.complete_task(a, points(5), "seed a".to_string()), Ok(()));
    assert_eq!(ledger.complete_task(b, max, "seed b".to_string()), Ok(()));
    assert_eq!(
        ledger.transfer_token(a, b, points(1), "s".to_string(), "r".to_string()),
        Err(LedgerError::ArithmeticOverflow)
    );
    assert_eq!(ledger.get_points(a), points(5));
    assert_eq!(ledger.get_points(b), max);
    assert_eq!(ledger.get_activities(a), Vec::<String>::new());
    assert_eq!(ledger.get_activities(b), Vec::<String>::new());
}

#[test]
fn self_transfer_keeps_balance_and_logs_twice() {
    let mut ledger = Blog::new();
    let a = addr(1);
    assert_eq!(ledger.complete_task(a, points(50), "seed".to_string()), Ok(()));
    assert_eq!(
        ledger.transfer_token(a, a, points(20), "out".to_string(), "in".to_string()),
        Ok(())
    );
    assert_eq!(ledger.get_points(a), points(50));
    assert_eq!(ledger.get_activities(a), vec!["out".to_string(), "in".to_string()]);
}

#[test]
fn transfer_of_zero_from_unseen_account() {
    let mut ledger = Blog::new();
    let a = addr(1);
    let b = addr(2);
    assert_eq!(
        ledger.transfer_token(a, b, U256::zero(), "s".to_string(), "r".to_string()),
        Ok(())
    );
    assert_eq!(ledger.get_points(a), U256::zero());
    assert_eq!(ledger.get_points(b), U256::zero());
    assert_eq!(ledger.get_activities(a), vec!["s".to_string()]);
    assert_eq!(ledger.get_activities(b), vec!["r".to_string()]);
}

#[test]
fn successful_transfers_conserve_the_total() {
    let mut ledger = Blog::new();
    let a = addr(1);
    let b = addr(2);
    let c = addr(3);
    assert_eq!(ledger.complete_task(a, points(60), "seed a".to_string()), Ok(()));
    assert_eq!(ledger.complete_task(b, points(40), "seed b".to_string()), Ok(()));
    let total = |l: &Blog| -> u128 {
        let pa = l.get_points(a);
        let pb = l.get_points(b);
        let pc = l.get_points(c);
        assert_eq!((pa.hi, pb.hi, pc.hi), (0, 0, 0));
        pa.lo + pb.lo + pc.lo
    };
    assert_eq!(total(&ledger), 100);
    assert_eq!(ledger.transfer_token(a, c, points(25), "s".to_string(), "r".to_string()), Ok(()));
    assert_eq!(total(&ledger), 100);
    assert_eq!(ledger.transfer_token(b, a, points(40), "s".to_string(), "r".to_string()), Ok(()));
    assert_eq!(total(&ledger), 100);
    assert_eq!(ledger.transfer_token(c, c, points(5), "s".to_string(), "r".to_string()), Ok(()));
    assert_eq!(total(&ledger), 100);
    // completing a task mints: the total is not conserved
    assert_eq!(ledger.complete_task(c, points(9), "mint".to_string()), Ok(()));
    assert_eq!(total(&ledger), 109);
}

#[test]
fn transfer_then_task_then_rejected_transfer() {
    let mut ledger = Blog::new();
    let a = addr(10);
    let b = addr(20);
    assert_eq!(ledger.complete_task(a, points(100), "seed".to_string()), Ok(()));
    assert_eq!(
        ledger.transfer_token(a, b, points(30), "sent".to_string(), "received".to_string()),
        Ok(())
    );
    assert_eq!(ledger.get_points(a), points(70));
    assert_eq!(ledger.get_points(b), points(30));
    assert_eq!(ledger.get_activities(a), vec!["sent".to_string()]);
    assert_eq!(ledger.get_activities(b), vec!["received".to_string()]);
    assert_eq!(ledger.complete_task(a, points(50), "task1".to_string()), Ok(()));
    assert_eq!(ledger.get_points(a), points(120));
    assert_eq!(ledger.get_tasks(a), vec!["seed".to_string(), "task1".to_string()]);
    assert_eq!(
        ledger.transfer_token(a, b, points(200), "s".to_string(), "r".to_string()),
        Err(LedgerError::InsufficientBalance)
    );
    assert_eq!(ledger.get_points(a), points(120));
    assert_eq!(ledger.get_points(b), points(30));
}

#[test]
fn distinct_accounts_do_not_share_records() {
    let mut ledger = Blog::new();
    let a = Address { hi: 1, lo: 7 };
    let b = Address { hi: 2, lo: 7 };
    assert_eq!(ledger.complete_task(a, points(3), "for a".to_string()), Ok(()));
    assert_eq!(ledger.get_points(b), U256::zero());
    assert_eq!(ledger.get_tasks(b), Vec::<String>::new());
    assert_eq!(ledger.get_tasks(a), vec!["for a".to_string()]);
}
