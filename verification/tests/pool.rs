use rlibrary_core::account::pool::{
    account_count, add_account, add_outcome, list_accounts, load_from_db, remove_by_user_id, remove_outcome, take_next,
    AccountPool,
};
use rlibrary_core::models::account::LoginResult;

fn acct(id: &str) -> LoginResult {
    LoginResult {
        remix_userid: id.to_string(),
        remix_userkey: format!("key-{id}"),
        username: "name".to_string(),
        email: "e@example.com".to_string(),
        password: "pw".to_string(),
    }
}

fn ids(list: &[LoginResult]) -> Vec<String> {
    list.iter().map(|a| a.remix_userid.clone()).collect()
}

#[test]
fn accounts_are_handed_out_in_turn() {
    let mut pool = AccountPool::new();
    for id in ["1", "2", "3"] {
        let row = add_account(&mut pool, acct(id));
        assert_eq!(row.remix_userid, id);
        assert_eq!(row.remix_userkey, format!("key-{id}"));
    }
    let mut seen = Vec::new();
    for _ in 0..7 {
        seen.push(take_next(&mut pool, Vec::new()).unwrap().remix_userid);
    }
    assert_eq!(seen, ["1", "2", "3", "1", "2", "3", "1"]);
    assert_eq!(ids(&list_accounts(&mut pool, Vec::new())), ["2", "3", "1"]);
}

#[test]
fn an_empty_pool_is_filled_from_the_store() {
    let rows = || vec![Some(acct("7")), None, Some(acct("8"))];
    let mut pool = AccountPool::new();
    assert_eq!(account_count(&pool), 0);
    assert!(take_next(&mut pool, Vec::new()).is_none());
    assert_eq!(take_next(&mut pool, rows()).unwrap().remix_userid, "7");
    assert_eq!(account_count(&pool), 2);
    // A pool that holds accounts is not filled again.
    load_from_db(&mut pool, rows());
    assert_eq!(ids(&pool.accounts), ["8", "7"]);
    let mut other = AccountPool::new();
    assert_eq!(ids(&list_accounts(&mut other, rows())), ["7", "8"]);
    assert_eq!(account_count(&other), 2);
}

#[test]
fn removing_takes_the_first_account_with_the_id() {
    let mut pool = AccountPool::new();
    let mut second = acct("1");
    second.remix_userkey = "other".to_string();
    add_account(&mut pool, acct("1"));
    add_account(&mut pool, acct("2"));
    add_account(&mut pool, second);
    assert!(remove_by_user_id(&mut pool, "9").is_none());
    assert_eq!(account_count(&pool), 3);
    let gone = remove_by_user_id(&mut pool, "1").unwrap();
    assert_eq!(gone.remix_userkey, "key-1");
    assert_eq!(ids(&pool.accounts), ["2", "1"]);
    assert_eq!(remove_by_user_id(&mut pool, "1").unwrap().remix_userkey, "other");
    assert_eq!(ids(&pool.accounts), ["2"]);
}

#[test]
fn removing_undoes_adding() {
    let mut pool = AccountPool::new();
    add_account(&mut pool, acct("1"));
    add_account(&mut pool, acct("2"));
    let back = remove_by_user_id(&mut pool, "2").unwrap();
    assert_eq!(back.remix_userid, "2");
    assert_eq!(ids(&pool.accounts), ["1"]);
}

#[test]
fn store_failures_are_reported() {
    assert_eq!(add_outcome(Ok(())), Ok(()));
    assert_eq!(add_outcome(Err("disk full".to_string())), Err("写入 DB 失败: disk full".to_string()));
    assert_eq!(remove_outcome(acct("1"), true).unwrap().remix_userid, "1");
    assert!(remove_outcome(acct("1"), false).is_none());
}
