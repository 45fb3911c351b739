use finance_core::date::Date;
use finance_core::error::AppError;
use finance_core::store::Store;
use finance_core::types::{
    CreateGoalInput, CreateSavingsGoalInput, CreateWithdrawalInput, UpdateSavingsGoalInput,
};

fn d(year: i32, month: u8, day: u8) -> Date {
    Date { year, month, day }
}

fn savings_input(name: &str, target: i64) -> CreateSavingsGoalInput {
    CreateSavingsGoalInput {
        name: name.to_string(),
        target_amount: target,
        currency: None,
        deadline: Some(d(2026, 12, 31)),
        account_id: None,
        auto_deposit_amount: None,
        auto_deposit_frequency: None,
    }
}

fn fund_input(name: &str, balance: Option<i64>) -> CreateGoalInput {
    CreateGoalInput {
        name: name.to_string(),
        goal_type: "fund".to_string(),
        icon: None,
        color: None,
        weekly_amount: None,
        day_of_week: None,
        monthly_contribution: Some(2_000),
        current_balance: balance,
        yearly_amount: None,
        target_month: None,
        current_saved: None,
        account_id: None,
        notes: None,
    }
}

#[test]
fn savings_goal_lifecycle() {
    let mut s = Store::new();
    let g = s.create_savings_goal(savings_input("vacation", 30_000)).unwrap();
    assert_eq!(g.current_amount, 0);
    assert_eq!(g.currency, "CZK");
    assert!(g.active);
    let upd = UpdateSavingsGoalInput {
        name: "vacation".to_string(),
        target_amount: 30_000,
        current_amount: 5_000,
        currency: "CZK".to_string(),
        deadline: g.deadline,
        account_id: None,
        auto_deposit_amount: Some(1_000),
        auto_deposit_frequency: Some("monthly".to_string()),
        active: true,
    };
    let g2 = s.update_savings_goal(g.id, upd).unwrap();
    assert_eq!(g2.current_amount, 5_000);
    assert_eq!(s.get_savings_goals().len(), 1);
    s.delete_savings_goal(g.id).unwrap();
    assert_eq!(s.get_savings_goals().len(), 0);
}

#[test]
fn fund_contributions_and_withdrawals() {
    let mut s = Store::new();
    let g = s.create_financial_goal(fund_input("barber", None)).unwrap();
    assert_eq!(g.current_balance, Some(0));
    let g2 = s.add_fund_contribution(g.id, 2_000).unwrap();
    assert_eq!(g2.current_balance, Some(2_000));
    let w = s
        .create_fund_withdrawal(
            CreateWithdrawalInput {
                goal_id: g.id,
                amount: 450,
                description: Some("haircut".to_string()),
                date: None,
            },
            d(2024, 4, 2),
        )
        .unwrap();
    assert_eq!(w.date, d(2024, 4, 2));
    let g3 = s.get_financial_goals();
    assert_eq!(g3.len(), 1);
    assert_eq!(g3[0].current_balance, Some(1_550));
    let ws = s.get_fund_withdrawals(g.id);
    assert_eq!(ws.len(), 1);
    assert_eq!(ws[0].amount, 450);
    assert_eq!(s.get_fund_withdrawals(g.id + 1).len(), 0);
    assert!(matches!(
        s.add_fund_contribution(9_999, 10),
        Err(AppError::NotFound(_))
    ));
    assert!(matches!(
        s.add_fund_contribution(g.id, i64::MAX),
        Err(AppError::Database(_))
    ));
}

#[test]
fn fund_soft_delete_hides_from_listing() {
    let mut s = Store::new();
    let g = s.create_financial_goal(fund_input("gifts", Some(100))).unwrap();
    s.delete_financial_goal(g.id).unwrap();
    assert_eq!(s.get_financial_goals().len(), 0);
}

#[test]
fn monthly_plan_upsert_keeps_the_key() {
    let mut s = Store::new();
    let g = s.create_financial_goal(fund_input("cleaning", None)).unwrap();
    assert!(s.get_monthly_plan(g.id, 2024, 5).unwrap().is_none());
    let p1 = s
        .create_or_update_monthly_plan(g.id, 2024, 5, 4, 0, 4_600, 0, None)
        .unwrap();
    assert_eq!(p1.planned_count, 4);
    let p2 = s
        .create_or_update_monthly_plan(g.id, 2024, 5, 4, 3, 4_600, 3_450, Some("done".to_string()))
        .unwrap();
    assert_eq!(p2.id, p1.id);
    assert_eq!(p2.realized_amount, 3_450);
    let got = s.get_monthly_plan(g.id, 2024, 5).unwrap().unwrap();
    assert_eq!(got.realized_count, 3);
    assert!(s.get_monthly_plan(g.id, 2024, 6).unwrap().is_none());
}

#[test]
fn monthly_plan_history_caps_at_the_latest() {
    let mut s = Store::new();
    let g = s.create_financial_goal(fund_input("cleaning", None)).unwrap();
    for month in 1..=6 {
        s.create_or_update_monthly_plan(g.id, 2024, month, 1, 0, 100, 0, None)
            .unwrap();
    }
    let all = s.get_monthly_plans_history(g.id, None);
    assert_eq!(all.len(), 6);
    let last_two = s.get_monthly_plans_history(g.id, Some(2));
    assert_eq!(last_two.len(), 2);
    assert_eq!(last_two[0].month, 5);
    assert_eq!(last_two[1].month, 6);
    let unlimited = s.get_monthly_plans_history(g.id, Some(-1));
    assert_eq!(unlimited.len(), 6);
}
