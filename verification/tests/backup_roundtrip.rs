use finance_core::store::Store;
use finance_core::types::{
    CreateAccountInput, CreateBankInput, CreateBudgetCategoryInput, CreateCategoryInput,
    CreateFixedExpenseInput, CreateIncomeInput, CreateMemberInput, CreateTransactionInput,
    CreateTransferInput,
};

fn bank_account(name: &str, bank_id: i64, initial: i64) -> CreateAccountInput {
    CreateAccountInput {
        name: name.to_string(),
        account_type: "savings".to_string(),
        bank_id: Some(bank_id),
        owner_user_id: None,
        account_number: Some("123-456".to_string()),
        currency: Some("EUR".to_string()),
        initial_balance: Some(initial),
        color: Some("#112233".to_string()),
        icon: None,
        is_premium: None,
        premium_min_flow: None,
        credit_limit: None,
    }
}

fn populated_store() -> Store {
    let mut s = Store::new();
    let bank_a = s
        .create_bank(CreateBankInput {
            name: "First Bank".to_string(),
            short_name: Some("FB".to_string()),
            logo: None,
            color: Some("#0000AA".to_string()),
            notes: Some("main bank".to_string()),
        })
        .unwrap();
    let bank_b = s
        .create_bank(CreateBankInput {
            name: "Second Bank".to_string(),
            short_name: None,
            logo: Some("logo.png".to_string()),
            color: None,
            notes: None,
        })
        .unwrap();
    s.create_account(bank_account("alpha", bank_a.id, 1_000)).unwrap();
    s.create_account(bank_account("beta", bank_a.id, 2_000)).unwrap();
    s.create_account(bank_account("gamma", bank_b.id, 3_000)).unwrap();
    // an account without a bank stays out of the snapshot
    let mut standalone = bank_account("wallet", 0, 50);
    standalone.bank_id = None;
    s.create_account(standalone).unwrap();
    let m1 = s
        .create_household_member(CreateMemberInput {
            name: "Alex".to_string(),
            color: None,
            avatar: None,
        })
        .unwrap();
    s.create_household_member(CreateMemberInput {
        name: "Sam".to_string(),
        color: Some("#00FF00".to_string()),
        avatar: Some("sam.png".to_string()),
    })
    .unwrap();
    s.create_member_income(CreateIncomeInput {
        member_id: m1.id.unwrap(),
        name: "salary".to_string(),
        amount: 55_000,
        frequency: None,
        day_of_month: Some(25),
        account_id: None,
    })
    .unwrap();
    s.create_member_income(CreateIncomeInput {
        member_id: m1.id.unwrap(),
        name: "side work".to_string(),
        amount: 8_000,
        frequency: Some("weekly".to_string()),
        day_of_month: None,
        account_id: Some(3),
    })
    .unwrap();
    s.create_scheduled_transfer(CreateTransferInput {
        name: "to savings".to_string(),
        from_account_id: 3,
        to_account_id: 4,
        amount: 4_000,
        day_of_month: 1,
        description: Some("monthly move".to_string()),
        category: None,
    })
    .unwrap();
    s.create_fixed_expense(CreateFixedExpenseInput {
        name: "electricity".to_string(),
        amount: 1_800,
        category: "utilities".to_string(),
        frequency: None,
        day_of_month: Some(12),
        account_id: Some(3),
        assigned_to: None,
        notes: Some("green tariff".to_string()),
    })
    .unwrap();
    s.create_budget_category(CreateBudgetCategoryInput {
        name: "groceries".to_string(),
        budget_type: "monthly".to_string(),
        monthly_limit: 12_000,
        color: None,
        icon: None,
        assigned_to: Some("Alex".to_string()),
    })
    .unwrap();
    s
}

#[test]
fn export_groups_children_under_parents() {
    let s = populated_store();
    let b = s.export_full_backup("2024-06-01T00:00:00Z".to_string());
    assert_eq!(b.version, "1.0.0");
    assert_eq!(b.created_at, "2024-06-01T00:00:00Z");
    assert_eq!(b.data.banks.len(), 2);
    assert_eq!(b.data.banks[0].bank.name, "First Bank");
    assert_eq!(b.data.banks[0].accounts.len(), 2);
    assert_eq!(b.data.banks[1].accounts.len(), 1);
    assert_eq!(b.data.household_members.len(), 2);
    assert_eq!(b.data.household_members[0].incomes.len(), 2);
    assert_eq!(b.data.household_members[1].incomes.len(), 0);
    assert_eq!(b.data.scheduled_transfers.len(), 1);
    assert_eq!(b.data.fixed_expenses.len(), 1);
    assert_eq!(b.data.budget_categories.len(), 1);
}

#[test]
fn restore_reproduces_leaves_under_new_identifiers() {
    // exporting a full graph and restoring it into an empty store keeps
    // every leaf record and relationship while every identifier differs
    let s = populated_store();
    let b = s.export_full_backup("t0".to_string());
    let mut fresh = Store::new();
    // burn a few identifiers so the restored rows visibly get new ones
    for _ in 0..5 {
        fresh
            .create_tag(finance_core::types::CreateTagInput {
                name: "scratch".to_string(),
                color: None,
            })
            .unwrap();
    }
    fresh.import_full_backup(&b).unwrap();
    let b2 = fresh.export_full_backup("t1".to_string());

    assert_eq!(b2.data.banks.len(), b.data.banks.len());
    for (k, bank2) in b2.data.banks.iter().enumerate() {
        let bank1 = &b.data.banks[k];
        assert_eq!(bank2.bank.name, bank1.bank.name);
        assert_eq!(bank2.bank.short_name, bank1.bank.short_name);
        assert_eq!(bank2.bank.logo, bank1.bank.logo);
        assert_eq!(bank2.bank.color, bank1.bank.color);
        assert_eq!(bank2.bank.notes, bank1.bank.notes);
        assert_eq!(bank2.bank.active, bank1.bank.active);
        assert_ne!(bank2.bank.id, bank1.bank.id);
        assert_eq!(bank2.accounts.len(), bank1.accounts.len());
        for (j, acc2) in bank2.accounts.iter().enumerate() {
            let acc1 = &bank1.accounts[j];
            assert_eq!(acc2.name, acc1.name);
            assert_eq!(acc2.account_type, acc1.account_type);
            assert_eq!(acc2.account_number, acc1.account_number);
            assert_eq!(acc2.currency, acc1.currency);
            assert_eq!(acc2.initial_balance, acc1.initial_balance);
            assert_eq!(acc2.current_balance, acc1.current_balance);
            assert_ne!(acc2.id, acc1.id);
            assert_ne!(acc2.bank_id, acc1.bank_id);
            assert_eq!(acc2.bank_id, Some(bank2.bank.id));
        }
    }
    assert_eq!(
        b2.data.household_members.len(),
        b.data.household_members.len()
    );
    for (k, m2) in b2.data.household_members.iter().enumerate() {
        let m1 = &b.data.household_members[k];
        assert_eq!(m2.member.name, m1.member.name);
        assert_eq!(m2.member.color, m1.member.color);
        assert_eq!(m2.member.avatar, m1.member.avatar);
        assert_ne!(m2.member.id, m1.member.id);
        assert_eq!(m2.incomes.len(), m1.incomes.len());
        for (j, inc2) in m2.incomes.iter().enumerate() {
            let inc1 = &m1.incomes[j];
            assert_eq!(inc2.name, inc1.name);
            assert_eq!(inc2.amount, inc1.amount);
            assert_eq!(inc2.frequency, inc1.frequency);
            assert_eq!(inc2.day_of_month, inc1.day_of_month);
            assert_eq!(inc2.account_id, inc1.account_id);
            assert_eq!(inc2.is_active, inc1.is_active);
            assert_eq!(inc2.member_id, m2.member.id.unwrap());
        }
    }
    assert_eq!(b2.data.scheduled_transfers.len(), 1);
    let t2 = &b2.data.scheduled_transfers[0];
    let t1 = &b.data.scheduled_transfers[0];
    assert_eq!(t2.name, t1.name);
    assert_eq!(t2.amount, t1.amount);
    assert_eq!(t2.category, t1.category);
    assert_eq!(t2.display_order, t1.display_order);
    assert_eq!(b2.data.fixed_expenses.len(), 1);
    let e2 = &b2.data.fixed_expenses[0];
    let e1 = &b.data.fixed_expenses[0];
    assert_eq!(e2.name, e1.name);
    assert_eq!(e2.amount, e1.amount);
    assert_eq!(e2.category, e1.category);
    assert_eq!(e2.notes, e1.notes);
    // the expense's account reference survives the rebuild
    assert_eq!(e1.account_id, Some(3));
    assert_eq!(e2.account_id, Some(3));
    assert_eq!(b2.data.budget_categories.len(), 1);
    assert_eq!(b2.data.budget_categories[0].name, "groceries");
    assert_eq!(b2.data.budget_categories[0].monthly_limit, 12_000);
}

#[test]
fn import_clears_previous_contents_but_keeps_bankless_accounts() {
    let s = populated_store();
    let b = s.export_full_backup("t0".to_string());
    // import over a store that already holds similar data
    let mut target = populated_store();
    target.import_full_backup(&b).unwrap();
    let b2 = target.export_full_backup("t1".to_string());
    assert_eq!(b2.data.banks.len(), 2);
    assert_eq!(b2.data.household_members.len(), 2);
    assert_eq!(b2.data.scheduled_transfers.len(), 1);
    // the bankless wallet account survived the rebuild
    let accounts = target.get_accounts(Some(false));
    assert!(accounts.iter().any(|a| a.name == "wallet" && a.bank_id.is_none()));
    assert_eq!(accounts.len(), 4);
}

#[test]
fn export_rows_join_names() {
    let mut s = Store::new();
    let mut payer = bank_account("payer", 0, 100);
    payer.bank_id = None;
    let a = s.create_account(payer).unwrap();
    let c = s
        .create_category(CreateCategoryInput {
            name: "transport".to_string(),
            parent_category_id: None,
            icon: None,
            color: None,
            category_type: "expense".to_string(),
        })
        .unwrap();
    s.create_transaction(CreateTransactionInput {
        date: finance_core::date::Date { year: 2024, month: 9, day: 3 },
        amount: 120,
        currency: None,
        transaction_type: "expense".to_string(),
        from_account_id: Some(a.id),
        to_account_id: None,
        category_id: Some(c.id),
        description: Some("tram pass".to_string()),
        owner_user_id: None,
        is_shared: None,
        status: None,
        notes: None,
    })
    .unwrap();
    // a second row referencing rows that do not exist
    s.create_transaction(CreateTransactionInput {
        date: finance_core::date::Date { year: 2024, month: 9, day: 4 },
        amount: 5,
        currency: None,
        transaction_type: "expense".to_string(),
        from_account_id: Some(777_777),
        to_account_id: None,
        category_id: Some(888_888),
        description: None,
        owner_user_id: None,
        is_shared: None,
        status: None,
        notes: None,
    })
    .unwrap();
    let rows = s.transaction_export_rows(None);
    // newest first: the later row leads
    assert_eq!(rows.len(), 2);
    assert_eq!(rows[1].category_name.as_deref(), Some("transport"));
    assert_eq!(rows[1].from_account_name.as_deref(), Some("payer"));
    assert_eq!(rows[1].to_account_name, None);
    assert_eq!(rows[1].amount, 120);
    assert_eq!(rows[0].category_name, None);
    assert_eq!(rows[0].from_account_name, None);
    // the filters narrow the export
    let mut f = finance_core::types::TransactionFilters {
        start_date: None,
        end_date: None,
        user_ids: None,
        account_ids: None,
        bank_ids: None,
        category_ids: None,
        tag_ids: None,
        types: None,
        statuses: None,
        min_amount: None,
        max_amount: None,
        search_query: None,
    };
    f.max_amount = Some(100);
    let narrowed = s.transaction_export_rows(Some(f));
    assert_eq!(narrowed.len(), 1);
    assert_eq!(narrowed[0].amount, 5);
}
