use finance_core::date::Date;
use finance_core::error::AppError;
use finance_core::store::Store;
use finance_core::types::{
    CreateAccountInput, CreateTagInput, CreateTransactionInput, TransactionFilters,
    UpdateTransactionInput,
};

fn d(year: i32, month: u8, day: u8) -> Date {
    Date { year, month, day }
}

fn account_input(name: &str, initial: i64) -> CreateAccountInput {
    CreateAccountInput {
        name: name.to_string(),
        account_type: "checking".to_string(),
        bank_id: None,
        owner_user_id: None,
        account_number: None,
        currency: None,
        initial_balance: Some(initial),
        color: None,
        icon: None,
        is_premium: None,
        premium_min_flow: None,
        credit_limit: None,
    }
}

fn tx_input(kind: &str, amount: i64, from: Option<i64>, to: Option<i64>) -> CreateTransactionInput {
    CreateTransactionInput {
        date: d(2024, 5, 1),
        amount,
        currency: None,
        transaction_type: kind.to_string(),
        from_account_id: from,
        to_account_id: to,
        category_id: None,
        description: Some("groceries and sundries".to_string()),
        owner_user_id: None,
        is_shared: None,
        status: None,
        notes: None,
    }
}

#[test]
fn account_creation_defaults() {
    let mut s = Store::new();
    let a = s.create_account(account_input("main", 10_000)).unwrap();
    assert_eq!(a.currency, "CZK");
    assert_eq!(a.initial_balance, 10_000);
    assert_eq!(a.current_balance, 10_000);
    assert!(a.active);
    assert_eq!(s.get_account_balance(a.id).unwrap(), 10_000);
}

#[test]
fn expense_decreases_and_delete_restores() {
    // creating an expense of X lowers the balance by exactly X, and
    // deleting that same transaction restores the pre-creation value
    let mut s = Store::new();
    let a = s.create_account(account_input("main", 10_000)).unwrap();
    let t = s
        .create_transaction(tx_input("expense", 2_500, Some(a.id), None))
        .unwrap();
    assert_eq!(s.get_account_balance(a.id).unwrap(), 7_500);
    s.delete_transaction(t.id).unwrap();
    assert_eq!(s.get_account_balance(a.id).unwrap(), 10_000);
    assert!(matches!(
        s.get_transaction_by_id(t.id),
        Err(AppError::NotFound(_))
    ));
}

#[test]
fn income_and_transfer_effects() {
    let mut s = Store::new();
    let a = s.create_account(account_input("from", 1_000)).unwrap();
    let b = s.create_account(account_input("to", 500)).unwrap();
    s.create_transaction(tx_input("income", 300, None, Some(b.id)))
        .unwrap();
    assert_eq!(s.get_account_balance(b.id).unwrap(), 800);
    s.create_transaction(tx_input("transfer", 400, Some(a.id), Some(b.id)))
        .unwrap();
    assert_eq!(s.get_account_balance(a.id).unwrap(), 600);
    assert_eq!(s.get_account_balance(b.id).unwrap(), 1_200);
}

#[test]
fn transfer_without_source_skips_both_legs() {
    let mut s = Store::new();
    let b = s.create_account(account_input("to", 500)).unwrap();
    s.create_transaction(tx_input("transfer", 400, None, Some(b.id)))
        .unwrap();
    assert_eq!(s.get_account_balance(b.id).unwrap(), 500);
}

#[test]
fn planned_transactions_never_touch_balances() {
    // a planned transaction changes no balance at creation nor at deletion
    let mut s = Store::new();
    let a = s.create_account(account_input("main", 10_000)).unwrap();
    let mut input = tx_input("expense", 2_500, Some(a.id), None);
    input.status = Some("planned".to_string());
    let t = s.create_transaction(input).unwrap();
    assert_eq!(s.get_account_balance(a.id).unwrap(), 10_000);
    s.delete_transaction(t.id).unwrap();
    assert_eq!(s.get_account_balance(a.id).unwrap(), 10_000);
}

#[test]
fn unknown_type_rejected() {
    let mut s = Store::new();
    let r = s.create_transaction(tx_input("wager", 10, None, None));
    assert!(matches!(r, Err(AppError::InvalidInput(_))));
    assert_eq!(s.get_transactions().len(), 0);
}

#[test]
fn update_does_not_rebalance() {
    // editing a transaction's amount rewrites the row only; balances are
    // deliberately left as they were
    let mut s = Store::new();
    let a = s.create_account(account_input("main", 10_000)).unwrap();
    let t = s
        .create_transaction(tx_input("expense", 2_500, Some(a.id), None))
        .unwrap();
    let upd = UpdateTransactionInput {
        date: d(2024, 5, 2),
        amount: 9_999,
        currency: "CZK".to_string(),
        transaction_type: "expense".to_string(),
        from_account_id: Some(a.id),
        to_account_id: None,
        category_id: None,
        description: None,
        owner_user_id: None,
        is_shared: false,
        status: "completed".to_string(),
        notes: None,
    };
    let t2 = s.update_transaction(t.id, upd).unwrap();
    assert_eq!(t2.amount, 9_999);
    assert_eq!(s.get_account_balance(a.id).unwrap(), 7_500);
}

#[test]
fn balance_invariant_across_a_sequence() {
    // current balance stays equal to the initial balance plus the signed
    // sum of all non-planned effects after every create/delete
    let mut s = Store::new();
    let a = s.create_account(account_input("main", 1_000)).unwrap();
    let t1 = s
        .create_transaction(tx_input("expense", 100, Some(a.id), None))
        .unwrap();
    s.create_transaction(tx_input("income", 250, None, Some(a.id)))
        .unwrap();
    s.create_transaction(tx_input("expense", 50, Some(a.id), None))
        .unwrap();
    assert_eq!(s.get_account_balance(a.id).unwrap(), 1_000 - 100 + 250 - 50);
    s.delete_transaction(t1.id).unwrap();
    assert_eq!(s.get_account_balance(a.id).unwrap(), 1_000 + 250 - 50);
}

#[test]
fn adjust_balance_primitive() {
    let mut s = Store::new();
    let a = s.create_account(account_input("main", 100)).unwrap();
    s.update_account_balance(a.id, -40).unwrap();
    assert_eq!(s.get_account_balance(a.id).unwrap(), 60);
    s.update_account_balance(a.id, 15).unwrap();
    assert_eq!(s.get_account_balance(a.id).unwrap(), 75);
    assert!(matches!(
        s.update_account_balance(9999, 1),
        Err(AppError::NotFound(_))
    ));
}

#[test]
fn balances_may_go_negative() {
    let mut s = Store::new();
    let a = s.create_account(account_input("main", 100)).unwrap();
    s.create_transaction(tx_input("expense", 500, Some(a.id), None))
        .unwrap();
    assert_eq!(s.get_account_balance(a.id).unwrap(), -400);
}

#[test]
fn set_balance_overwrites_both_columns() {
    let mut s = Store::new();
    let a = s.create_account(account_input("main", 100)).unwrap();
    let a2 = s.set_account_balance(a.id, 777).unwrap();
    assert_eq!(a2.current_balance, 777);
    assert_eq!(a2.initial_balance, 777);
}

#[test]
fn overflow_is_refused_not_wrapped() {
    let mut s = Store::new();
    let a = s.create_account(account_input("main", i64::MAX - 5)).unwrap();
    let r = s.update_account_balance(a.id, 10);
    assert!(matches!(r, Err(AppError::Database(_))));
    assert_eq!(s.get_account_balance(a.id).unwrap(), i64::MAX - 5);
}

#[test]
fn filtered_listing() {
    let mut s = Store::new();
    let a = s.create_account(account_input("main", 0)).unwrap();
    let mut t1 = tx_input("expense", 100, Some(a.id), None);
    t1.date = d(2024, 1, 10);
    t1.description = Some("rent for january".to_string());
    s.create_transaction(t1).unwrap();
    let mut t2 = tx_input("expense", 900, Some(a.id), None);
    t2.date = d(2024, 3, 10);
    t2.description = Some("car repair".to_string());
    s.create_transaction(t2).unwrap();
    let mut f = TransactionFilters {
        start_date: None,
        end_date: None,
        user_ids: None,
        account_ids: None,
        bank_ids: None,
        category_ids: None,
        tag_ids: None,
        types: None,
        statuses: None,
        min_amount: None,
        max_amount: None,
        search_query: None,
    };
    f.start_date = Some(d(2024, 2, 1));
    assert_eq!(s.get_transactions_filtered(f.clone()).len(), 1);
    f.start_date = None;
    f.max_amount = Some(500);
    assert_eq!(s.get_transactions_filtered(f.clone()).len(), 1);
    f.max_amount = None;
    f.search_query = Some("repair".to_string());
    let found = s.get_transactions_filtered(f.clone());
    assert_eq!(found.len(), 1);
    assert_eq!(found[0].amount, 900);
    f.search_query = Some("quarterly".to_string());
    assert_eq!(s.get_transactions_filtered(f).len(), 0);
}

#[test]
fn tags_link_and_unlink() {
    let mut s = Store::new();
    let a = s.create_account(account_input("main", 0)).unwrap();
    let t = s
        .create_transaction(tx_input("expense", 10, Some(a.id), None))
        .unwrap();
    let tag = s
        .create_tag(CreateTagInput { name: "food".to_string(), color: None })
        .unwrap();
    assert_eq!(tag.color, "#8B5CF6");
    s.add_tag_to_transaction(t.id, tag.id).unwrap();
    s.add_tag_to_transaction(t.id, tag.id).unwrap();
    assert_eq!(s.get_tags().len(), 1);
    s.remove_tag_from_transaction(t.id, tag.id).unwrap();
}

#[test]
fn listings_run_newest_first() {
    let mut s = Store::new();
    let a = s.create_account(account_input("main", 0)).unwrap();
    let mut t1 = tx_input("expense", 1, Some(a.id), None);
    t1.date = d(2024, 2, 1);
    let r1 = s.create_transaction(t1).unwrap();
    let mut t2 = tx_input("expense", 2, Some(a.id), None);
    t2.date = d(2024, 5, 1);
    let r2 = s.create_transaction(t2).unwrap();
    let mut t3 = tx_input("expense", 3, Some(a.id), None);
    t3.date = d(2024, 2, 1);
    let r3 = s.create_transaction(t3).unwrap();
    let listed = s.get_transactions();
    // dates descending; the tied date is broken by identifier descending
    assert_eq!(listed.len(), 3);
    assert_eq!(listed[0].id, r2.id);
    assert_eq!(listed[1].id, r3.id);
    assert_eq!(listed[2].id, r1.id);
}

#[test]
fn search_folds_ascii_case() {
    let mut s = Store::new();
    let a = s.create_account(account_input("main", 0)).unwrap();
    let mut t1 = tx_input("expense", 100, Some(a.id), None);
    t1.description = Some("Car REPAIR".to_string());
    s.create_transaction(t1).unwrap();
    let mut f = TransactionFilters {
        start_date: None,
        end_date: None,
        user_ids: None,
        account_ids: None,
        bank_ids: None,
        category_ids: None,
        tag_ids: None,
        types: None,
        statuses: None,
        min_amount: None,
        max_amount: None,
        search_query: None,
    };
    f.search_query = Some("repair".to_string());
    assert_eq!(s.get_transactions_filtered(f.clone()).len(), 1);
    f.search_query = Some("cAr rep".to_string());
    assert_eq!(s.get_transactions_filtered(f.clone()).len(), 1);
    f.search_query = Some("engine".to_string());
    assert_eq!(s.get_transactions_filtered(f).len(), 0);
}
