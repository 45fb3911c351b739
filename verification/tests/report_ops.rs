use finance_core::date::Date;
use finance_core::store::Store;
use finance_core::types::{CreateAccountInput, CreateCategoryInput, CreateTransactionInput};

fn d(year: i32, month: u8, day: u8) -> Date {
    Date { year, month, day }
}

fn tx(
    kind: &str,
    amount: i64,
    date: Date,
    from: Option<i64>,
    to: Option<i64>,
    category: Option<i64>,
    status: Option<&str>,
) -> CreateTransactionInput {
    CreateTransactionInput {
        date,
        amount,
        currency: None,
        transaction_type: kind.to_string(),
        from_account_id: from,
        to_account_id: to,
        category_id: category,
        description: None,
        owner_user_id: None,
        is_shared: None,
        status: status.map(|s| s.to_string()),
        notes: None,
    }
}

fn setup() -> (Store, i64, i64, i64) {
    let mut s = Store::new();
    let a = s
        .create_account(CreateAccountInput {
            name: "main".to_string(),
            account_type: "checking".to_string(),
            bank_id: None,
            owner_user_id: None,
            account_number: None,
            currency: None,
            initial_balance: Some(100_000),
            color: None,
            icon: None,
            is_premium: None,
            premium_min_flow: None,
            credit_limit: None,
        })
        .unwrap();
    let food = s
        .create_category(CreateCategoryInput {
            name: "food".to_string(),
            parent_category_id: None,
            icon: None,
            color: None,
            category_type: "expense".to_string(),
        })
        .unwrap();
    let travel = s
        .create_category(CreateCategoryInput {
            name: "travel".to_string(),
            parent_category_id: None,
            icon: None,
            color: None,
            category_type: "expense".to_string(),
        })
        .unwrap();
    (s, a.id, food.id, travel.id)
}

#[test]
fn monthly_summary_totals_and_breakdown() {
    let (mut s, a, food, travel) = setup();
    s.create_transaction(tx("income", 40_000, d(2024, 5, 2), None, Some(a), None, None))
        .unwrap();
    s.create_transaction(tx("expense", 1_200, d(2024, 5, 3), Some(a), None, Some(food), None))
        .unwrap();
    s.create_transaction(tx("expense", 800, d(2024, 5, 20), Some(a), None, Some(food), None))
        .unwrap();
    s.create_transaction(tx("expense", 5_000, d(2024, 5, 31), Some(a), None, Some(travel), None))
        .unwrap();
    // outside the month
    s.create_transaction(tx("expense", 999, d(2024, 6, 1), Some(a), None, Some(food), None))
        .unwrap();
    // planned rows are not counted
    s.create_transaction(tx(
        "expense",
        7_777,
        d(2024, 5, 10),
        Some(a),
        None,
        Some(food),
        Some("planned"),
    ))
    .unwrap();
    // an uncategorised expense counts toward the total but no category
    s.create_transaction(tx("expense", 100, d(2024, 5, 11), Some(a), None, None, None))
        .unwrap();

    let m = s.get_monthly_summary(2024, 5).unwrap();
    assert_eq!(m.total_income, 40_000);
    assert_eq!(m.total_expense, 1_200 + 800 + 5_000 + 100);
    assert_eq!(m.net_change, 40_000 - 7_100);
    assert_eq!(m.by_category.len(), 2);
    assert_eq!(m.by_category[0].category_id, food);
    assert_eq!(m.by_category[0].amount, 2_000);
    assert_eq!(m.by_category[0].transaction_count, 2);
    assert_eq!(m.by_category[1].category_id, travel);
    assert_eq!(m.by_category[1].amount, 5_000);
    assert_eq!(m.by_category[1].transaction_count, 1);
}

#[test]
fn december_window_wraps_the_year() {
    let (mut s, a, food, _) = setup();
    s.create_transaction(tx("expense", 500, d(2024, 12, 31), Some(a), None, Some(food), None))
        .unwrap();
    s.create_transaction(tx("expense", 900, d(2025, 1, 1), Some(a), None, Some(food), None))
        .unwrap();
    let m = s.get_monthly_summary(2024, 12).unwrap();
    assert_eq!(m.total_expense, 500);
}

#[test]
fn category_breakdown_range_is_inclusive() {
    let (mut s, a, food, _) = setup();
    s.create_transaction(tx("expense", 300, d(2024, 3, 1), Some(a), None, Some(food), None))
        .unwrap();
    s.create_transaction(tx("expense", 400, d(2024, 3, 31), Some(a), None, Some(food), None))
        .unwrap();
    s.create_transaction(tx("expense", 555, d(2024, 4, 1), Some(a), None, Some(food), None))
        .unwrap();
    let rows = s.get_category_breakdown(d(2024, 3, 1), d(2024, 3, 31)).unwrap();
    assert_eq!(rows.len(), 1);
    assert_eq!(rows[0].amount, 700);
    assert_eq!(rows[0].transaction_count, 2);
    let empty = s.get_category_breakdown(d(2023, 1, 1), d(2023, 12, 31)).unwrap();
    assert_eq!(empty.len(), 0);
}

#[test]
fn cash_flow_groups_days_with_running_balance() {
    let (mut s, a, food, _) = setup();
    s.create_transaction(tx("income", 1_000, d(2024, 7, 1), None, Some(a), None, None))
        .unwrap();
    s.create_transaction(tx("expense", 300, d(2024, 7, 1), Some(a), None, Some(food), None))
        .unwrap();
    s.create_transaction(tx("expense", 200, d(2024, 7, 3), Some(a), None, Some(food), None))
        .unwrap();
    // planned rows and rows outside the window are invisible
    s.create_transaction(tx(
        "expense",
        999,
        d(2024, 7, 2),
        Some(a),
        None,
        None,
        Some("planned"),
    ))
    .unwrap();
    s.create_transaction(tx("expense", 50, d(2024, 8, 1), Some(a), None, None, None))
        .unwrap();
    let rows = s.get_cash_flow_data(d(2024, 7, 1), d(2024, 7, 31)).unwrap();
    assert_eq!(rows.len(), 2);
    assert_eq!(rows[0].date, d(2024, 7, 1));
    assert_eq!(rows[0].income, 1_000);
    assert_eq!(rows[0].expense, 300);
    assert_eq!(rows[0].balance, 700);
    assert_eq!(rows[1].date, d(2024, 7, 3));
    assert_eq!(rows[1].income, 0);
    assert_eq!(rows[1].expense, 200);
    assert_eq!(rows[1].balance, 500);
    // an empty window yields an empty series
    let empty = s.get_cash_flow_data(d(2030, 1, 1), d(2030, 1, 31)).unwrap();
    assert_eq!(empty.len(), 0);
}

#[test]
fn cash_flow_includes_transfer_only_days() {
    let (mut s, a, _, _) = setup();
    s.create_transaction(tx("transfer", 400, d(2024, 7, 5), Some(a), None, None, None))
        .unwrap();
    let rows = s.get_cash_flow_data(d(2024, 7, 1), d(2024, 7, 31)).unwrap();
    // a day with only a transfer still appears, moving no balance
    assert_eq!(rows.len(), 1);
    assert_eq!(rows[0].date, d(2024, 7, 5));
    assert_eq!(rows[0].income, 0);
    assert_eq!(rows[0].expense, 0);
    assert_eq!(rows[0].balance, 0);
}
