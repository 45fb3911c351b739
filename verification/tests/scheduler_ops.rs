use finance_core::date::Date;
use finance_core::store::Store;
use finance_core::types::{
    CreateAccountInput, CreateRecurringPaymentInput, UpdateRecurringPaymentInput,
};

fn d(year: i32, month: u8, day: u8) -> Date {
    Date { year, month, day }
}

fn account_input(name: &str, initial: i64) -> CreateAccountInput {
    CreateAccountInput {
        name: name.to_string(),
        account_type: "checking".to_string(),
        bank_id: None,
        owner_user_id: None,
        account_number: None,
        currency: None,
        initial_balance: Some(initial),
        color: None,
        icon: None,
        is_premium: None,
        premium_min_flow: None,
        credit_limit: None,
    }
}

fn payment_input(account_id: i64, amount: i64, value: i32) -> CreateRecurringPaymentInput {
    CreateRecurringPaymentInput {
        name: "subscription".to_string(),
        amount,
        currency: None,
        frequency: "daily".to_string(),
        frequency_value: Some(value),
        day_of_period: None,
        account_id,
        category_id: None,
        description: Some("streaming".to_string()),
    }
}

#[test]
fn creation_computes_first_next_date() {
    let mut s = Store::new();
    let a = s.create_account(account_input("main", 1_000)).unwrap();
    let p = s
        .create_recurring_payment(payment_input(a.id, 100, 1), d(2024, 1, 1))
        .unwrap();
    assert_eq!(p.next_execution_date, Some(d(2024, 1, 2)));
    assert_eq!(p.last_execution_date, None);
    assert!(p.active);
}

#[test]
fn sweep_posts_each_due_payment_once() {
    let mut s = Store::new();
    let a = s.create_account(account_input("main", 1_000)).unwrap();
    let p = s
        .create_recurring_payment(payment_input(a.id, 100, 1), d(2024, 1, 1))
        .unwrap();
    // not due yet on its creation day
    s.process_recurring_payments(d(2024, 1, 1)).unwrap();
    assert_eq!(s.get_transactions().len(), 0);
    assert_eq!(s.get_account_balance(a.id).unwrap(), 1_000);
    // due the next day: one completed expense posted, dates advanced
    s.process_recurring_payments(d(2024, 1, 2)).unwrap();
    let txs = s.get_transactions();
    assert_eq!(txs.len(), 1);
    assert_eq!(txs[0].amount, 100);
    assert_eq!(txs[0].date, d(2024, 1, 2));
    assert_eq!(txs[0].recurring_payment_id, Some(p.id));
    assert_eq!(s.get_account_balance(a.id).unwrap(), 900);
    let rows = s.get_recurring_payments();
    assert_eq!(rows[0].last_execution_date, Some(d(2024, 1, 2)));
    assert_eq!(rows[0].next_execution_date, Some(d(2024, 1, 3)));
    // the same day again: the date has advanced past it, nothing fires
    s.process_recurring_payments(d(2024, 1, 2)).unwrap();
    assert_eq!(s.get_transactions().len(), 1);
    assert_eq!(s.get_account_balance(a.id).unwrap(), 900);
}

#[test]
fn sweep_twice_reposts_a_still_due_payment() {
    // with a zero multiplier the recomputed date never passes the sweep
    // day, so a second sweep on the same day posts the payment again
    let mut s = Store::new();
    let a = s.create_account(account_input("main", 1_000)).unwrap();
    let p = s
        .create_recurring_payment(payment_input(a.id, 100, 0), d(2024, 1, 5))
        .unwrap();
    assert_eq!(p.next_execution_date, Some(d(2024, 1, 5)));
    s.process_recurring_payments(d(2024, 1, 5)).unwrap();
    s.process_recurring_payments(d(2024, 1, 5)).unwrap();
    let txs = s.get_transactions();
    assert_eq!(txs.len(), 2);
    assert!(txs.iter().all(|t| t.recurring_payment_id == Some(p.id)));
    assert_eq!(s.get_account_balance(a.id).unwrap(), 800);
}

#[test]
fn inactive_payments_are_skipped() {
    let mut s = Store::new();
    let a = s.create_account(account_input("main", 1_000)).unwrap();
    let p = s
        .create_recurring_payment(payment_input(a.id, 100, 0), d(2024, 1, 5))
        .unwrap();
    let upd = UpdateRecurringPaymentInput {
        name: p.name.clone(),
        amount: p.amount,
        currency: p.currency.clone(),
        frequency: "daily".to_string(),
        frequency_value: 0,
        day_of_period: None,
        account_id: p.account_id,
        category_id: None,
        description: None,
        active: false,
    };
    s.update_recurring_payment(p.id, upd).unwrap();
    s.process_recurring_payments(d(2024, 1, 5)).unwrap();
    assert_eq!(s.get_transactions().len(), 0);
    assert_eq!(s.get_account_balance(a.id).unwrap(), 1_000);
}

#[test]
fn missing_account_leg_is_skipped() {
    let mut s = Store::new();
    let mut input = payment_input(4242, 100, 0);
    input.name = "orphaned".to_string();
    s.create_recurring_payment(input, d(2024, 1, 5)).unwrap();
    s.process_recurring_payments(d(2024, 1, 5)).unwrap();
    // the posting row exists even though no balance could be adjusted
    assert_eq!(s.get_transactions().len(), 1);
}

#[test]
fn payment_deletion() {
    let mut s = Store::new();
    let a = s.create_account(account_input("main", 1_000)).unwrap();
    let p = s
        .create_recurring_payment(payment_input(a.id, 100, 1), d(2024, 1, 1))
        .unwrap();
    s.delete_recurring_payment(p.id).unwrap();
    assert_eq!(s.get_recurring_payments().len(), 0);
    s.delete_recurring_payment(p.id).unwrap();
}

#[test]
fn clock_driven_sweep_runs() {
    let mut s = Store::new();
    s.sweep().unwrap();
    assert_eq!(s.get_transactions().len(), 0);
}
