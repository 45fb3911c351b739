//! Row and input types of the store.
//!
//! Monetary amounts are integers in the currency's minor unit; dates are
//! [`crate::date::Date`] triples.  Row identifiers are store-assigned,
//! unique and immutable once assigned.

use crate::date::{Date, Frequency};
use vstd::prelude::*;

verus! {

/// Direction of a transaction's balance effect.
#[derive(Clone, Copy, Debug, PartialEq, Eq, Structural)]
pub enum TxType {
    Expense,
    Income,
    Transfer,
}

/// Whether a transaction has been posted against balances (`Completed`) or
/// is only recorded for future reference (`Planned`).
#[derive(Clone, Copy, Debug, PartialEq, Eq, Structural)]
pub enum TxStatus {
    Completed,
    Planned,
}

/// Kind of a financial goal or fund.
#[derive(Clone, Copy, Debug, PartialEq, Eq, Structural)]
pub enum GoalType {
    WeeklyVariable,
    Fund,
    YearlyGoal,
}

#[derive(Clone, Debug)]
pub struct User {
    pub id: i64,
    pub name: String,
    pub color: String,
    pub avatar: Option<String>,
    pub role: String,
    pub is_shared_user: bool,
    pub active: bool,
}

#[derive(Clone, Debug)]
pub struct CreateUserInput {
    pub name: String,
    pub color: Option<String>,
    pub avatar: Option<String>,
    pub role: Option<String>,
}

#[derive(Clone, Debug)]
pub struct UpdateUserInput {
    pub name: String,
    pub color: String,
    pub avatar: Option<String>,
    pub role: String,
    pub active: bool,
}

#[derive(Clone, Debug)]
pub struct Bank {
    pub id: i64,
    pub name: String,
    pub short_name: Option<String>,
    pub logo: Option<String>,
    pub color: String,
    pub notes: Option<String>,
    pub active: bool,
}

#[derive(Clone, Debug)]
pub struct CreateBankInput {
    pub name: String,
    pub short_name: Option<String>,
    pub logo: Option<String>,
    pub color: Option<String>,
    pub notes: Option<String>,
}

#[derive(Clone, Debug)]
pub struct UpdateBankInput {
    pub name: String,
    pub short_name: Option<String>,
    pub logo: Option<String>,
    pub color: String,
    pub notes: Option<String>,
    pub active: bool,
}

#[derive(Clone, Debug)]
pub struct Account {
    pub id: i64,
    pub name: String,
    pub account_type: String,
    pub bank_id: Option<i64>,
    pub owner_user_id: Option<i64>,
    pub account_number: Option<String>,
    pub currency: String,
    pub initial_balance: i64,
    pub current_balance: i64,
    pub color: Option<String>,
    pub icon: Option<String>,
    pub is_premium: bool,
    pub premium_min_flow: Option<i64>,
    pub credit_limit: Option<i64>,
    pub active: bool,
}

#[derive(Clone, Debug)]
pub struct CreateAccountInput {
    pub name: String,
    pub account_type: String,
    pub bank_id: Option<i64>,
    pub owner_user_id: Option<i64>,
    pub account_number: Option<String>,
    pub currency: Option<String>,
    pub initial_balance: Option<i64>,
    pub color: Option<String>,
    pub icon: Option<String>,
    pub is_premium: Option<bool>,
    pub premium_min_flow: Option<i64>,
    pub credit_limit: Option<i64>,
}

#[derive(Clone, Debug)]
pub struct UpdateAccountInput {
    pub name: String,
    pub account_type: String,
    pub bank_id: Option<i64>,
    pub owner_user_id: Option<i64>,
    pub account_number: Option<String>,
    pub currency: String,
    pub color: Option<String>,
    pub icon: Option<String>,
    pub is_premium: Option<bool>,
    pub premium_min_flow: Option<i64>,
    pub credit_limit: Option<i64>,
    pub active: bool,
    pub current_balance: Option<i64>,
}

pub struct Category {
    pub id: i64,
    pub name: String,
    pub parent_category_id: Option<i64>,
    pub icon: Option<String>,
    pub color: String,
    pub category_type: String,
    pub is_system: bool,
    pub children: Option<Vec<Category>>,
}

impl Category {
    /// A copy of this row's own fields, without any nested children.
    pub fn clone_flat(&self) -> (r: Category)
        ensures
            r == (Category { children: None, ..*self }),
    {
        Category {
            id: self.id,
            name: self.name.clone(),
            parent_category_id: self.parent_category_id,
            icon: self.icon.clone(),
            color: self.color.clone(),
            category_type: self.category_type.clone(),
            is_system: self.is_system,
            children: None,
        }
    }
}

#[derive(Clone, Debug)]
pub struct CreateCategoryInput {
    pub name: String,
    pub parent_category_id: Option<i64>,
    pub icon: Option<String>,
    pub color: Option<String>,
    pub category_type: String,
}

#[derive(Clone, Debug)]
pub struct UpdateCategoryInput {
    pub name: String,
    pub parent_category_id: Option<i64>,
    pub icon: Option<String>,
    pub color: String,
    pub category_type: String,
}

#[derive(Clone, Debug)]
pub struct Tag {
    pub id: i64,
    pub name: String,
    pub color: String,
}

#[derive(Clone, Debug)]
pub struct CreateTagInput {
    pub name: String,
    pub color: Option<String>,
}

#[derive(Clone, Debug)]
pub struct Transaction {
    pub id: i64,
    pub date: Date,
    pub amount: i64,
    pub currency: String,
    pub transaction_type: TxType,
    pub from_account_id: Option<i64>,
    pub to_account_id: Option<i64>,
    pub category_id: Option<i64>,
    pub description: Option<String>,
    pub owner_user_id: Option<i64>,
    pub is_shared: bool,
    pub status: TxStatus,
    pub recurring_payment_id: Option<i64>,
    pub flow_group_id: Option<i64>,
    pub notes: Option<String>,
}

#[derive(Clone, Debug)]
pub struct CreateTransactionInput {
    pub date: Date,
    pub amount: i64,
    pub currency: Option<String>,
    pub transaction_type: String,
    pub from_account_id: Option<i64>,
    pub to_account_id: Option<i64>,
    pub category_id: Option<i64>,
    pub description: Option<String>,
    pub owner_user_id: Option<i64>,
    pub is_shared: Option<bool>,
    pub status: Option<String>,
    pub notes: Option<String>,
}

#[derive(Clone, Debug)]
pub struct UpdateTransactionInput {
    pub date: Date,
    pub amount: i64,
    pub currency: String,
    pub transaction_type: String,
    pub from_account_id: Option<i64>,
    pub to_account_id: Option<i64>,
    pub category_id: Option<i64>,
    pub description: Option<String>,
    pub owner_user_id: Option<i64>,
    pub is_shared: bool,
    pub status: String,
    pub notes: Option<String>,
}

/// Filters of the transaction listing.  The listing applies the date range,
/// the amount range and the free-text search; the remaining fields are
/// carried for the presentation layer but do not narrow the listing.
#[derive(Clone, Debug)]
pub struct TransactionFilters {
    pub start_date: Option<Date>,
    pub end_date: Option<Date>,
    pub user_ids: Option<Vec<i64>>,
    pub account_ids: Option<Vec<i64>>,
    pub bank_ids: Option<Vec<i64>>,
    pub category_ids: Option<Vec<i64>>,
    pub tag_ids: Option<Vec<i64>>,
    pub types: Option<Vec<String>>,
    pub statuses: Option<Vec<String>>,
    pub min_amount: Option<i64>,
    pub max_amount: Option<i64>,
    pub search_query: Option<String>,
}

#[derive(Clone, Debug)]
pub struct RecurringPayment {
    pub id: i64,
    pub name: String,
    pub amount: i64,
    pub currency: String,
    pub frequency: Frequency,
    pub frequency_value: i32,
    pub day_of_period: Option<i32>,
    pub account_id: i64,
    pub category_id: Option<i64>,
    pub description: Option<String>,
    pub active: bool,
    pub next_execution_date: Option<Date>,
    pub last_execution_date: Option<Date>,
}

#[derive(Clone, Debug)]
pub struct CreateRecurringPaymentInput {
    pub name: String,
    pub amount: i64,
    pub currency: Option<String>,
    pub frequency: String,
    pub frequency_value: Option<i32>,
    pub day_of_period: Option<i32>,
    pub account_id: i64,
    pub category_id: Option<i64>,
    pub description: Option<String>,
}

#[derive(Clone, Debug)]
pub struct UpdateRecurringPaymentInput {
    pub name: String,
    pub amount: i64,
    pub currency: String,
    pub frequency: String,
    pub frequency_value: i32,
    pub day_of_period: Option<i32>,
    pub account_id: i64,
    pub category_id: Option<i64>,
    pub description: Option<String>,
    pub active: bool,
}

#[derive(Clone, Debug)]
pub struct FlowGroup {
    pub id: i64,
    pub name: String,
    pub description: Option<String>,
    pub color: String,
    pub is_template: bool,
}

#[derive(Clone, Debug)]
pub struct CreateFlowGroupInput {
    pub name: String,
    pub description: Option<String>,
    pub color: Option<String>,
    pub is_template: Option<bool>,
}

#[derive(Clone, Debug)]
pub struct UpdateFlowGroupInput {
    pub name: String,
    pub description: Option<String>,
    pub color: String,
    pub is_template: bool,
}

#[derive(Clone, Debug)]
pub struct HouseholdMember {
    pub id: Option<i64>,
    pub name: String,
    pub color: String,
    pub avatar: Option<String>,
}

#[derive(Clone, Debug)]
pub struct MemberIncome {
    pub id: Option<i64>,
    pub member_id: i64,
    pub name: String,
    pub amount: i64,
    pub frequency: String,
    pub day_of_month: Option<i32>,
    pub account_id: Option<i64>,
    pub is_active: bool,
}

#[derive(Clone, Debug)]
pub struct ScheduledTransfer {
    pub id: Option<i64>,
    pub name: String,
    pub from_account_id: i64,
    pub to_account_id: i64,
    pub amount: i64,
    pub day_of_month: i32,
    pub description: Option<String>,
    pub category: Option<String>,
    pub display_order: i32,
    pub is_active: bool,
}

#[derive(Clone, Debug)]
pub struct FixedExpense {
    pub id: Option<i64>,
    pub name: String,
    pub amount: i64,
    pub category: String,
    pub frequency: String,
    pub day_of_month: Option<i32>,
    pub account_id: Option<i64>,
    pub assigned_to: Option<String>,
    pub is_active: bool,
    pub notes: Option<String>,
}

#[derive(Clone, Debug)]
pub struct BudgetCategory {
    pub id: Option<i64>,
    pub name: String,
    pub budget_type: String,
    pub monthly_limit: i64,
    pub color: String,
    pub icon: Option<String>,
    pub assigned_to: Option<String>,
}

#[derive(Clone, Debug)]
pub struct CreateMemberInput {
    pub name: String,
    pub color: Option<String>,
    pub avatar: Option<String>,
}

#[derive(Clone, Debug)]
pub struct CreateIncomeInput {
    pub member_id: i64,
    pub name: String,
    pub amount: i64,
    pub frequency: Option<String>,
    pub day_of_month: Option<i32>,
    pub account_id: Option<i64>,
}

#[derive(Clone, Debug)]
pub struct CreateTransferInput {
    pub name: String,
    pub from_account_id: i64,
    pub to_account_id: i64,
    pub amount: i64,
    pub day_of_month: i32,
    pub description: Option<String>,
    pub category: Option<String>,
}

#[derive(Clone, Debug)]
pub struct CreateFixedExpenseInput {
    pub name: String,
    pub amount: i64,
    pub category: String,
    pub frequency: Option<String>,
    pub day_of_month: Option<i32>,
    pub account_id: Option<i64>,
    pub assigned_to: Option<String>,
    pub notes: Option<String>,
}

#[derive(Clone, Debug)]
pub struct CreateBudgetCategoryInput {
    pub name: String,
    pub budget_type: String,
    pub monthly_limit: i64,
    pub color: Option<String>,
    pub icon: Option<String>,
    pub assigned_to: Option<String>,
}

impl User {
    /// An exact copy of this row.
    pub fn clone_row(&self) -> (r: User)
        ensures
            r == *self,
    {
        User {
            id: self.id,
            name: self.name.clone(),
            color: self.color.clone(),
            avatar: clone_opt_string(&self.avatar),
            role: self.role.clone(),
            is_shared_user: self.is_shared_user,
            active: self.active,
        }
    }
}

impl Bank {
    /// An exact copy of this row.
    pub fn clone_row(&self) -> (r: Bank)
        ensures
            r == *self,
    {
        Bank {
            id: self.id,
            name: self.name.clone(),
            short_name: clone_opt_string(&self.short_name),
            logo: clone_opt_string(&self.logo),
            color: self.color.clone(),
            notes: clone_opt_string(&self.notes),
            active: self.active,
        }
    }
}

impl Account {
    /// An exact copy of this row.
    pub fn clone_row(&self) -> (r: Account)
        ensures
            r == *self,
    {
        Account {
            id: self.id,
            name: self.name.clone(),
            account_type: self.account_type.clone(),
            bank_id: self.bank_id,
            owner_user_id: self.owner_user_id,
            account_number: clone_opt_string(&self.account_number),
            currency: self.currency.clone(),
            initial_balance: self.initial_balance,
            current_balance: self.current_balance,
            color: clone_opt_string(&self.color),
            icon: clone_opt_string(&self.icon),
            is_premium: self.is_premium,
            premium_min_flow: self.premium_min_flow,
            credit_limit: self.credit_limit,
            active: self.active,
        }
    }
}

impl Tag {
    /// An exact copy of this row.
    pub fn clone_row(&self) -> (r: Tag)
        ensures
            r == *self,
    {
        Tag { id: self.id, name: self.name.clone(), color: self.color.clone() }
    }
}

impl Transaction {
    /// An exact copy of this row.
    pub fn clone_row(&self) -> (r: Transaction)
        ensures
            r == *self,
    {
        Transaction {
            id: self.id,
            date: self.date,
            amount: self.amount,
            currency: self.currency.clone(),
            transaction_type: self.transaction_type,
            from_account_id: self.from_account_id,
            to_account_id: self.to_account_id,
            category_id: self.category_id,
            description: clone_opt_string(&self.description),
            owner_user_id: self.owner_user_id,
            is_shared: self.is_shared,
            status: self.status,
            recurring_payment_id: self.recurring_payment_id,
            flow_group_id: self.flow_group_id,
            notes: clone_opt_string(&self.notes),
        }
    }
}

impl RecurringPayment {
    /// An exact copy of this row.
    pub fn clone_row(&self) -> (r: RecurringPayment)
        ensures
            r == *self,
    {
        RecurringPayment {
            id: self.id,
            name: self.name.clone(),
            amount: self.amount,
            currency: self.currency.clone(),
            frequency: self.frequency,
            frequency_value: self.frequency_value,
            day_of_period: self.day_of_period,
            account_id: self.account_id,
            category_id: self.category_id,
            description: clone_opt_string(&self.description),
            active: self.active,
            next_execution_date: self.next_execution_date,
            last_execution_date: self.last_execution_date,
        }
    }
}

impl FlowGroup {
    /// An exact copy of this row.
    pub fn clone_row(&self) -> (r: FlowGroup)
        ensures
            r == *self,
    {
        FlowGroup {
            id: self.id,
            name: self.name.clone(),
            description: clone_opt_string(&self.description),
            color: self.color.clone(),
            is_template: self.is_template,
        }
    }
}

impl HouseholdMember {
    /// An exact copy of this row.
    pub fn clone_row(&self) -> (r: HouseholdMember)
        ensures
            r == *self,
    {
        HouseholdMember {
            id: self.id,
            name: self.name.clone(),
            color: self.color.clone(),
            avatar: clone_opt_string(&self.avatar),
        }
    }
}

impl MemberIncome {
    /// An exact copy of this row.
    pub fn clone_row(&self) -> (r: MemberIncome)
        ensures
            r == *self,
    {
        MemberIncome {
            id: self.id,
            member_id: self.member_id,
            name: self.name.clone(),
            amount: self.amount,
            frequency: self.frequency.clone(),
            day_of_month: self.day_of_month,
            account_id: self.account_id,
            is_active: self.is_active,
        }
    }
}

impl ScheduledTransfer {
    /// An exact copy of this row.
    pub fn clone_row(&self) -> (r: ScheduledTransfer)
        ensures
            r == *self,
    {
        ScheduledTransfer {
            id: self.id,
            name: self.name.clone(),
            from_account_id: self.from_account_id,
            to_account_id: self.to_account_id,
            amount: self.amount,
            day_of_month: self.day_of_month,
            description: clone_opt_string(&self.description),
            category: clone_opt_string(&self.category),
            display_order: self.display_order,
            is_active: self.is_active,
        }
    }
}

impl FixedExpense {
    /// An exact copy of this row.
    pub fn clone_row(&self) -> (r: FixedExpense)
        ensures
            r == *self,
    {
        FixedExpense {
            id: self.id,
            name: self.name.clone(),
            amount: self.amount,
            category: self.category.clone(),
            frequency: self.frequency.clone(),
            day_of_month: self.day_of_month,
            account_id: self.account_id,
            assigned_to: clone_opt_string(&self.assigned_to),
            is_active: self.is_active,
            notes: clone_opt_string(&self.notes),
        }
    }
}

impl BudgetCategory {
    /// An exact copy of this row.
    pub fn clone_row(&self) -> (r: BudgetCategory)
        ensures
            r == *self,
    {
        BudgetCategory {
            id: self.id,
            name: self.name.clone(),
            budget_type: self.budget_type.clone(),
            monthly_limit: self.monthly_limit,
            color: self.color.clone(),
            icon: clone_opt_string(&self.icon),
            assigned_to: clone_opt_string(&self.assigned_to),
        }
    }
}

/// An exact copy of an optional string.
pub fn clone_opt_string(s: &Option<String>) -> (r: Option<String>)
    ensures
        r == *s,
{
    match s {
        Some(x) => Some(x.clone()),
        None => None,
    }
}

/// A bank-owned account as it appears inside a snapshot: the account's leaf
/// data without its credit attributes.
#[derive(Clone, Debug)]
pub struct AccountExtended {
    pub id: Option<i64>,
    pub name: String,
    pub account_type: String,
    pub bank_id: Option<i64>,
    pub owner_user_id: Option<i64>,
    pub account_number: Option<String>,
    pub currency: String,
    pub initial_balance: i64,
    pub current_balance: i64,
    pub color: Option<String>,
    pub icon: Option<String>,
    pub is_premium: bool,
    pub premium_min_flow: Option<i64>,
    pub active: bool,
}

impl AccountExtended {
    /// An exact copy of this row.
    pub fn clone_row(&self) -> (r: AccountExtended)
        ensures
            r == *self,
    {
        AccountExtended {
            id: self.id,
            name: self.name.clone(),
            account_type: self.account_type.clone(),
            bank_id: self.bank_id,
            owner_user_id: self.owner_user_id,
            account_number: clone_opt_string(&self.account_number),
            currency: self.currency.clone(),
            initial_balance: self.initial_balance,
            current_balance: self.current_balance,
            color: clone_opt_string(&self.color),
            icon: clone_opt_string(&self.icon),
            is_premium: self.is_premium,
            premium_min_flow: self.premium_min_flow,
            active: self.active,
        }
    }
}

/// A household member together with the incomes that reference it.
#[derive(Clone, Debug)]
pub struct HouseholdMemberWithIncomes {
    pub member: HouseholdMember,
    pub incomes: Vec<MemberIncome>,
}

/// A bank together with the accounts that reference it.
#[derive(Clone, Debug)]
pub struct BankWithAccounts {
    pub bank: Bank,
    pub accounts: Vec<AccountExtended>,
}

/// The nested payload of a full-graph snapshot.
#[derive(Clone, Debug)]
pub struct BackupData {
    pub household_members: Vec<HouseholdMemberWithIncomes>,
    pub banks: Vec<BankWithAccounts>,
    pub scheduled_transfers: Vec<ScheduledTransfer>,
    pub fixed_expenses: Vec<FixedExpense>,
    pub budget_categories: Vec<BudgetCategory>,
}

/// A versioned, timestamped point-in-time export of the full relational
/// graph.  Identifiers inside it are source-store identifiers and carry no
/// guarantee for any future store.
#[derive(Clone, Debug)]
pub struct FullBackup {
    pub version: String,
    pub created_at: String,
    pub data: BackupData,
}

/// Which transaction type a type string names; anything else is rejected
/// by the transaction processor.
pub open spec fn tx_type_of(s: Seq<char>) -> Option<TxType> {
    if s == "expense"@ {
        Some(TxType::Expense)
    } else if s == "income"@ {
        Some(TxType::Income)
    } else if s == "transfer"@ {
        Some(TxType::Transfer)
    } else {
        None
    }
}

/// Parse a transaction type string as the store understands it.
pub fn parse_tx_type(s: &String) -> (r: Option<TxType>)
    ensures
        r == tx_type_of(s@),
{
    if *s == "expense".to_owned() {
        Some(TxType::Expense)
    } else if *s == "income".to_owned() {
        Some(TxType::Income)
    } else if *s == "transfer".to_owned() {
        Some(TxType::Transfer)
    } else {
        None
    }
}

/// Which status an optional status string names: only the literal
/// `"planned"` keeps a transaction off the balances; anything else,
/// including an absent status, posts as completed.
pub open spec fn status_of(s: Option<String>) -> TxStatus {
    match s {
        Some(x) => if x@ == "planned"@ {
            TxStatus::Planned
        } else {
            TxStatus::Completed
        },
        None => TxStatus::Completed,
    }
}

/// Parse an optional status string as the store understands it.
pub fn parse_status(s: &Option<String>) -> (r: TxStatus)
    ensures
        r == status_of(*s),
{
    match s {
        Some(x) => {
            if *x == "planned".to_owned() {
                TxStatus::Planned
            } else {
                TxStatus::Completed
            }
        },
        None => TxStatus::Completed,
    }
}


#[derive(Clone, Debug)]
pub struct SavingsGoal {
    pub id: i64,
    pub name: String,
    pub target_amount: i64,
    pub current_amount: i64,
    pub currency: String,
    pub deadline: Option<Date>,
    pub account_id: Option<i64>,
    pub auto_deposit_amount: Option<i64>,
    pub auto_deposit_frequency: Option<String>,
    pub active: bool,
}

#[derive(Clone, Debug)]
pub struct CreateSavingsGoalInput {
    pub name: String,
    pub target_amount: i64,
    pub currency: Option<String>,
    pub deadline: Option<Date>,
    pub account_id: Option<i64>,
    pub auto_deposit_amount: Option<i64>,
    pub auto_deposit_frequency: Option<String>,
}

#[derive(Clone, Debug)]
pub struct UpdateSavingsGoalInput {
    pub name: String,
    pub target_amount: i64,
    pub current_amount: i64,
    pub currency: String,
    pub deadline: Option<Date>,
    pub account_id: Option<i64>,
    pub auto_deposit_amount: Option<i64>,
    pub auto_deposit_frequency: Option<String>,
    pub active: bool,
}

/// A financial goal or fund.  Which of the optional attribute groups is
/// meaningful depends on the goal type the `goal_type` string names.
#[derive(Clone, Debug)]
pub struct FinancialGoal {
    pub id: i64,
    pub name: String,
    pub goal_type: String,
    pub icon: Option<String>,
    pub color: Option<String>,
    pub weekly_amount: Option<i64>,
    pub day_of_week: Option<i32>,
    pub monthly_contribution: Option<i64>,
    pub current_balance: Option<i64>,
    pub yearly_amount: Option<i64>,
    pub target_month: Option<i32>,
    pub current_saved: Option<i64>,
    pub account_id: Option<i64>,
    pub notes: Option<String>,
    pub is_active: bool,
}

#[derive(Clone, Debug)]
pub struct CreateGoalInput {
    pub name: String,
    pub goal_type: String,
    pub icon: Option<String>,
    pub color: Option<String>,
    pub weekly_amount: Option<i64>,
    pub day_of_week: Option<i32>,
    pub monthly_contribution: Option<i64>,
    pub current_balance: Option<i64>,
    pub yearly_amount: Option<i64>,
    pub target_month: Option<i32>,
    pub current_saved: Option<i64>,
    pub account_id: Option<i64>,
    pub notes: Option<String>,
}

#[derive(Clone, Debug)]
pub struct UpdateGoalInput {
    pub name: String,
    pub goal_type: String,
    pub icon: Option<String>,
    pub color: Option<String>,
    pub weekly_amount: Option<i64>,
    pub day_of_week: Option<i32>,
    pub monthly_contribution: Option<i64>,
    pub current_balance: Option<i64>,
    pub yearly_amount: Option<i64>,
    pub target_month: Option<i32>,
    pub current_saved: Option<i64>,
    pub account_id: Option<i64>,
    pub notes: Option<String>,
    pub is_active: bool,
}

/// A withdrawal drawn from a fund-type financial goal.
#[derive(Clone, Debug)]
pub struct FundWithdrawal {
    pub id: i64,
    pub goal_id: i64,
    pub amount: i64,
    pub description: Option<String>,
    pub date: Date,
}

#[derive(Clone, Debug)]
pub struct CreateWithdrawalInput {
    pub goal_id: i64,
    pub amount: i64,
    pub description: Option<String>,
    pub date: Option<Date>,
}

/// One month's plan for a financial goal, keyed by goal, year and month.
#[derive(Clone, Debug)]
pub struct MonthlyPlan {
    pub id: i64,
    pub goal_id: i64,
    pub year: i32,
    pub month: i32,
    pub planned_count: i32,
    pub realized_count: i32,
    pub planned_amount: i64,
    pub realized_amount: i64,
    pub notes: Option<String>,
}

#[derive(Clone, Debug)]
pub struct CreateMonthlyPlanInput {
    pub goal_id: i64,
    pub year: i32,
    pub month: i32,
    pub planned_count: Option<i32>,
    pub planned_amount: Option<i64>,
}

#[derive(Clone, Debug)]
pub struct UpdateMonthlyPlanInput {
    pub realized_count: i32,
    pub realized_amount: i64,
    pub notes: Option<String>,
}

impl SavingsGoal {
    /// An exact copy of this row.
    pub fn clone_row(&self) -> (r: SavingsGoal)
        ensures
            r == *self,
    {
        SavingsGoal {
            id: self.id,
            name: self.name.clone(),
            target_amount: self.target_amount,
            current_amount: self.current_amount,
            currency: self.currency.clone(),
            deadline: self.deadline,
            account_id: self.account_id,
            auto_deposit_amount: self.auto_deposit_amount,
            auto_deposit_frequency: clone_opt_string(&self.auto_deposit_frequency),
            active: self.active,
        }
    }
}

impl FinancialGoal {
    /// An exact copy of this row.
    pub fn clone_row(&self) -> (r: FinancialGoal)
        ensures
            r == *self,
    {
        FinancialGoal {
            id: self.id,
            name: self.name.clone(),
            goal_type: self.goal_type.clone(),
            icon: clone_opt_string(&self.icon),
            color: clone_opt_string(&self.color),
            weekly_amount: self.weekly_amount,
            day_of_week: self.day_of_week,
            monthly_contribution: self.monthly_contribution,
            current_balance: self.current_balance,
            yearly_amount: self.yearly_amount,
            target_month: self.target_month,
            current_saved: self.current_saved,
            account_id: self.account_id,
            notes: clone_opt_string(&self.notes),
            is_active: self.is_active,
        }
    }
}

impl FundWithdrawal {
    /// An exact copy of this row.
    pub fn clone_row(&self) -> (r: FundWithdrawal)
        ensures
            r == *self,
    {
        FundWithdrawal {
            id: self.id,
            goal_id: self.goal_id,
            amount: self.amount,
            description: clone_opt_string(&self.description),
            date: self.date,
        }
    }
}

impl MonthlyPlan {
    /// An exact copy of this row.
    pub fn clone_row(&self) -> (r: MonthlyPlan)
        ensures
            r == *self,
    {
        MonthlyPlan {
            id: self.id,
            goal_id: self.goal_id,
            year: self.year,
            month: self.month,
            planned_count: self.planned_count,
            realized_count: self.realized_count,
            planned_amount: self.planned_amount,
            realized_amount: self.realized_amount,
            notes: clone_opt_string(&self.notes),
        }
    }
}

} // verus!
