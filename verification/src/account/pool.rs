//! The pool of accounts: kept in memory, filled from a store, handed out in turn.
//!
//! The store itself lies outside. Where a function may have to fill an empty pool, the
//! rows of the store are handed to it; a row that could not be read is `None`.

use vstd::prelude::*;

use crate::models::account::LoginResult;
use crate::text::{concat, same_text};

verus! {

/// The accounts in memory, the next one to be used first.
pub struct AccountPool {
    pub accounts: Vec<LoginResult>,
}

// ---------------------------------------------------------------------------
// Model
// ---------------------------------------------------------------------------

/// The rows that could be read, in order.
pub open spec fn readable(rows: Seq<Option<LoginResult>>) -> Seq<LoginResult>
    decreases rows.len(),
{
    if rows.len() == 0 {
        seq![]
    } else {
        match rows.last() {
            Some(a) => readable(rows.drop_last()).push(a),
            None => readable(rows.drop_last()),
        }
    }
}

/// The accounts after an empty pool has been filled from the store.
pub open spec fn filled(
    accounts: Seq<LoginResult>,
    rows: Seq<Option<LoginResult>>,
) -> Seq<LoginResult> {
    if accounts.len() == 0 {
        readable(rows)
    } else {
        accounts
    }
}

/// The first account moved behind all others.
pub open spec fn rotated(accounts: Seq<LoginResult>) -> Seq<LoginResult> {
    if accounts.len() == 0 {
        accounts
    } else {
        accounts.skip(1).push(accounts[0])
    }
}

/// The accounts after `n` of them were taken in turn.
pub open spec fn rotated_times(accounts: Seq<LoginResult>, n: nat) -> Seq<LoginResult>
    decreases n,
{
    if n == 0 {
        accounts
    } else {
        rotated(rotated_times(accounts, (n - 1) as nat))
    }
}

/// The first place at or after `from` that holds an account with the given user id.
pub open spec fn place_of(accounts: Seq<LoginResult>, id: Seq<char>, from: int) -> Option<int>
    decreases accounts.len() - from,
{
    if from < 0 || from >= accounts.len() {
        None
    } else if accounts[from].remix_userid@ == id {
        Some(from)
    } else {
        place_of(accounts, id, from + 1)
    }
}

// ---------------------------------------------------------------------------
// Code
// ---------------------------------------------------------------------------

impl AccountPool {
    /// A pool without accounts.
    pub fn new() -> (r: Self)
        ensures
            r.accounts@.len() == 0,
    {
        AccountPool { accounts: Vec::new() }
    }
}

/// Fills an empty pool with the rows of the store; a pool that holds accounts stays as it is.
pub fn load_from_db(pool: &mut AccountPool, rows: Vec<Option<LoginResult>>)
    ensures
        final(pool).accounts@ == filled(old(pool).accounts@, rows@),
{
    if pool.accounts.len() > 0 {
        return;
    }
    let mut i: usize = 0;
    assert(rows@.take(0) =~= seq![]);
    assert(pool.accounts@ =~= readable(rows@.take(0)));
    while i < rows.len()
        invariant
            i <= rows@.len(),
            old(pool).accounts@.len() == 0,
            pool.accounts@ == readable(rows@.take(i as int)),
        decreases rows@.len() - i,
    {
        assert(rows@.take(i + 1).drop_last() =~= rows@.take(i as int));
        assert(rows@.take(i + 1).last() == rows@[i as int]);
        if let Some(a) = &rows[i] {
            pool.accounts.push(a.clone());
        }
        i += 1;
    }
    assert(rows@.take(rows@.len() as int) =~= rows@);
}

/// Adds an account to the pool and returns the row to be written to the store, where it
/// replaces any row with the same user id.
pub fn add_account(pool: &mut AccountPool, acct: LoginResult) -> (row: LoginResult)
    ensures
        final(pool).accounts@ == old(pool).accounts@.push(acct),
        row == acct,
{
    let row = acct.clone();
    pool.accounts.push(acct);
    row
}

/// What adding an account reports once its row was written, or could not be.
pub fn add_outcome(written: Result<(), String>) -> (r: Result<(), String>)
    ensures
        match written {
            Ok(_) => r is Ok,
            Err(e) => r matches Err(m) && m@ == "写入 DB 失败: "@ + e@,
        },
{
    match written {
        Ok(_) => Ok(()),
        Err(e) => Err(concat("写入 DB 失败: ", e.as_str())),
    }
}

/// Takes the account at the head of the pool, puts it back at the tail and returns a copy.
/// An empty pool is filled from the store first.
pub fn take_next(pool: &mut AccountPool, rows: Vec<Option<LoginResult>>) -> (r: Option<LoginResult>)
    ensures
        final(pool).accounts@ == rotated(filled(old(pool).accounts@, rows@)),
        match r {
            Some(a) => filled(old(pool).accounts@, rows@).len() > 0 && a == filled(
                old(pool).accounts@,
                rows@,
            )[0],
            None => filled(old(pool).accounts@, rows@).len() == 0,
        },
{
    load_from_db(pool, rows);
    if pool.accounts.len() == 0 {
        return None;
    }
    let ghost before = pool.accounts@;
    let acct = pool.accounts.remove(0);
    pool.accounts.push(acct.clone());
    assert(pool.accounts@ =~= rotated(before));
    Some(acct)
}

/// All accounts, in the order in which they will be handed out. An empty pool is filled
/// from the store first.
pub fn list_accounts(pool: &mut AccountPool, rows: Vec<Option<LoginResult>>) -> (r: Vec<LoginResult>)
    ensures
        final(pool).accounts@ == filled(old(pool).accounts@, rows@),
        r@ == filled(old(pool).accounts@, rows@),
{
    load_from_db(pool, rows);
    let mut out: Vec<LoginResult> = Vec::new();
    for i in 0..pool.accounts.len()
        invariant
            out@ == pool.accounts@.take(i as int),
    {
        out.push(pool.accounts[i].clone());
    }
    assert(out@ =~= pool.accounts@);
    out
}

/// Takes the first account with the given user id out of the pool; the row with that id is
/// then to be deleted from the store.
pub fn remove_by_user_id(pool: &mut AccountPool, id: &str) -> (r: Option<LoginResult>)
    ensures
        match place_of(old(pool).accounts@, id@, 0) {
            Some(i) => r == Some(old(pool).accounts@[i]) && final(pool).accounts@
                == old(pool).accounts@.remove(i),
            None => r is None && final(pool).accounts@ == old(pool).accounts@,
        },
{
    let mut i: usize = 0;
    while i < pool.accounts.len()
        invariant
            i <= pool.accounts@.len(),
            pool.accounts@ == old(pool).accounts@,
            place_of(old(pool).accounts@, id@, 0) == place_of(old(pool).accounts@, id@, i as int),
        decreases pool.accounts@.len() - i,
    {
        if same_text(pool.accounts[i].remix_userid.as_str(), id) {
            return Some(pool.accounts.remove(i));
        }
        i += 1;
    }
    None
}

/// What removing an account reports: the account, provided that its row was deleted.
pub fn remove_outcome(acct: LoginResult, deleted: bool) -> (r: Option<LoginResult>)
    ensures
        r == (if deleted {
            Some(acct)
        } else {
            None
        }),
{
    if deleted {
        Some(acct)
    } else {
        None
    }
}

/// The number of accounts in memory.
pub fn account_count(pool: &AccountPool) -> (r: usize)
    ensures
        r == pool.accounts@.len(),
{
    pool.accounts.len()
}

// ---------------------------------------------------------------------------
// Laws
// ---------------------------------------------------------------------------

/// A store whose rows can all be read gives back the accounts that were written to it, in
/// their order.
pub proof fn law_store_gives_accounts_back(accounts: Seq<LoginResult>)
    ensures
        readable(accounts.map_values(|a: LoginResult| Some(a))) == accounts,
    decreases accounts.len(),
{
    let rows = accounts.map_values(|a: LoginResult| Some(a));
    if accounts.len() > 0 {
        let front = accounts.drop_last();
        law_store_gives_accounts_back(front);
        assert(rows.drop_last() =~= front.map_values(|a: LoginResult| Some(a)));
        assert(front.push(accounts.last()) =~= accounts);
    } else {
        assert(readable(rows) =~= accounts);
    }
}

/// Accounts are handed out in turn: after `n` of them were taken, those come first that
/// were not taken yet, and those taken follow in the order in which they were taken.
pub proof fn law_round_robin(accounts: Seq<LoginResult>, n: nat)
    requires
        n <= accounts.len(),
    ensures
        rotated_times(accounts, n) == accounts.skip(n as int) + accounts.take(n as int),
        n < accounts.len() ==> rotated_times(accounts, n)[0] == accounts[n as int],
    decreases n,
{
    if n > 0 {
        law_round_robin(accounts, (n - 1) as nat);
    }
    assert(rotated_times(accounts, n) =~= accounts.skip(n as int) + accounts.take(n as int));
}

/// Once every account was taken, the pool is as it was.
pub proof fn law_full_turn(accounts: Seq<LoginResult>)
    ensures
        rotated_times(accounts, accounts.len()) == accounts,
{
    law_round_robin(accounts, accounts.len());
    assert(accounts.skip(accounts.len() as int) + accounts.take(accounts.len() as int)
        =~= accounts);
}

/// Taking an account loses none and adds none.
pub proof fn law_rotation_keeps_accounts(accounts: Seq<LoginResult>)
    ensures
        rotated(accounts).to_multiset() == accounts.to_multiset(),
{
    broadcast use vstd::seq_lib::group_to_multiset_ensures;

    if accounts.len() > 0 {
        let head = seq![accounts[0]];
        let tail = accounts.skip(1);
        assert(accounts =~= head + tail);
        assert(rotated(accounts) =~= tail + head);
        vstd::seq_lib::lemma_multiset_commutative(head, tail);
        vstd::seq_lib::lemma_multiset_commutative(tail, head);
    }
}

/// An account is found at the first place that holds its id, and nowhere only where no
/// account has that id.
pub proof fn law_place_is_first(accounts: Seq<LoginResult>, id: Seq<char>, from: int)
    requires
        0 <= from,
    ensures
        match place_of(accounts, id, from) {
            Some(i) => from <= i < accounts.len() && accounts[i].remix_userid@ == id && forall|
                j: int,
            |
                from <= j < i ==> (#[trigger] accounts[j]).remix_userid@ != id,
            None => forall|j: int|
                from <= j < accounts.len() ==> (#[trigger] accounts[j]).remix_userid@ != id,
        },
    decreases accounts.len() - from,
{
    if from < accounts.len() && accounts[from].remix_userid@ != id {
        law_place_is_first(accounts, id, from + 1);
    }
}

/// Removing by id what was just added under a new id gives the account back and leaves the
/// pool as it was before.
pub proof fn law_remove_undoes_add(accounts: Seq<LoginResult>, acct: LoginResult)
    requires
        forall|j: int|
            0 <= j < accounts.len() ==> (#[trigger] accounts[j]).remix_userid@
                != acct.remix_userid@,
    ensures
        place_of(accounts.push(acct), acct.remix_userid@, 0) == Some(accounts.len() as int),
        accounts.push(acct)[accounts.len() as int] == acct,
        accounts.push(acct).remove(accounts.len() as int) == accounts,
{
    let more = accounts.push(acct);
    law_place_is_first(more, acct.remix_userid@, 0);
    assert(more[accounts.len() as int].remix_userid@ == acct.remix_userid@);
    if let Some(i) = place_of(more, acct.remix_userid@, 0) {
        if i < accounts.len() {
            assert(accounts[i] == more[i]);
        }
    }
    assert(more.remove(accounts.len() as int) =~= accounts);
}

/// An empty pool is filled with the rows that could be read, and a pool that holds accounts
/// keeps exactly those.
pub proof fn law_only_an_empty_pool_is_filled(
    accounts: Seq<LoginResult>,
    rows: Seq<Option<LoginResult>>,
)
    ensures
        accounts.len() > 0 ==> filled(accounts, rows) == accounts,
        filled(seq![], rows) == rows.filter_map(|r: Option<LoginResult>| r),
    decreases rows.len(),
{
    if rows.len() > 0 {
        law_only_an_empty_pool_is_filled(accounts, rows.drop_last());
    }
    assert(readable(rows) =~= rows.filter_map(|r: Option<LoginResult>| r));
}

/// The account that is taken is the first one, and it goes to the end, behind all others.
pub proof fn law_first_account_goes_last(first: LoginResult, others: Seq<LoginResult>)
    ensures
        rotated(seq![first] + others) == others + seq![first],
{
    assert((seq![first] + others).skip(1) =~= others);
    assert(rotated(seq![first] + others) =~= others + seq![first]);
}

} // verus!
