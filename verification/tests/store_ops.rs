use finance_core::error::AppError;
use finance_core::store::Store;
use finance_core::types::{
    CreateAccountInput, CreateBankInput, CreateCategoryInput, CreateFlowGroupInput,
    CreateTransactionInput, CreateUserInput, UpdateBankInput, UpdateCategoryInput,
    UpdateUserInput,
};
use finance_core::categories::{build_category_tree, get_children};
use finance_core::date::Date;

fn account_input(name: &str, bank_id: Option<i64>) -> CreateAccountInput {
    CreateAccountInput {
        name: name.to_string(),
        account_type: "checking".to_string(),
        bank_id,
        owner_user_id: None,
        account_number: None,
        currency: None,
        initial_balance: None,
        color: None,
        icon: None,
        is_premium: None,
        premium_min_flow: None,
        credit_limit: None,
    }
}

#[test]
fn db_path_handle() {
    let mut s = Store::new();
    assert!(matches!(s.get_db_path(), Err(AppError::Internal(_))));
    s.init_database("/tmp/finance.db".to_string()).unwrap();
    assert_eq!(s.get_db_path().unwrap(), "/tmp/finance.db");
    assert!(matches!(
        s.init_database("/elsewhere.db".to_string()),
        Err(AppError::Internal(_))
    ));
}

#[test]
fn error_messages_name_their_kind() {
    assert_eq!(
        AppError::NotFound("row 7".to_string()).message(),
        "record not found: row 7"
    );
    assert_eq!(
        AppError::Io("disk gone".to_string()).message(),
        "io error: disk gone"
    );
    assert_eq!(
        AppError::Database("locked".to_string()).message(),
        "database error: locked"
    );
}

#[test]
fn users_crud_and_shared_protection() {
    let mut s = Store::new();
    let u = s
        .create_user(CreateUserInput {
            name: "Robin".to_string(),
            color: None,
            avatar: None,
            role: None,
        })
        .unwrap();
    assert_eq!(u.color, "#3B82F6");
    assert_eq!(u.role, "member");
    assert!(u.active);
    let got = s.get_user_by_id(u.id).unwrap();
    assert_eq!(got.name, "Robin");
    let upd = UpdateUserInput {
        name: "Robin II".to_string(),
        color: "#FFFFFF".to_string(),
        avatar: None,
        role: "admin".to_string(),
        active: true,
    };
    let u2 = s.update_user(u.id, upd).unwrap();
    assert_eq!(u2.name, "Robin II");
    s.delete_user(u.id).unwrap();
    assert_eq!(s.get_users(true).len(), 0);
    assert_eq!(s.get_users(false).len(), 1);
    assert!(matches!(s.get_user_by_id(999), Err(AppError::NotFound(_))));
}

#[test]
fn bank_names_are_unique_and_deletion_cascades() {
    let mut s = Store::new();
    let b = s
        .create_bank(CreateBankInput {
            name: "First Bank".to_string(),
            short_name: Some("FB".to_string()),
            logo: None,
            color: None,
            notes: None,
        })
        .unwrap();
    assert_eq!(b.color, "#10B981");
    let dup = s.create_bank(CreateBankInput {
        name: "First Bank".to_string(),
        short_name: None,
        logo: None,
        color: None,
        notes: None,
    });
    assert!(matches!(dup, Err(AppError::Database(_))));
    s.create_account(account_input("inside", Some(b.id))).unwrap();
    s.create_account(account_input("outside", None)).unwrap();
    s.delete_bank(b.id).unwrap();
    assert_eq!(s.get_banks(false).len(), 0);
    let accounts = s.get_accounts(Some(false));
    assert_eq!(accounts.len(), 1);
    assert_eq!(accounts[0].name, "outside");
    // the unique name is free again
    s.create_bank(CreateBankInput {
        name: "First Bank".to_string(),
        short_name: None,
        logo: None,
        color: None,
        notes: None,
    })
    .unwrap();
}

#[test]
fn bank_update_rewrites_fields_under_the_unique_name() {
    let mut s = Store::new();
    let alpha = s
        .create_bank(CreateBankInput {
            name: "Alpha".to_string(),
            short_name: Some("A".to_string()),
            logo: None,
            color: None,
            notes: None,
        })
        .unwrap();
    s.create_bank(CreateBankInput {
        name: "Beta".to_string(),
        short_name: None,
        logo: None,
        color: None,
        notes: None,
    })
    .unwrap();
    let upd = s
        .update_bank(
            alpha.id,
            UpdateBankInput {
                name: "Alpha Prime".to_string(),
                short_name: Some("AP".to_string()),
                logo: Some("alpha.png".to_string()),
                color: "#123456".to_string(),
                notes: Some("renamed".to_string()),
                active: false,
            },
        )
        .unwrap();
    assert_eq!(upd.id, alpha.id);
    assert_eq!(upd.short_name, Some("AP".to_string()));
    assert_eq!(upd.color, "#123456");
    assert!(!upd.active);
    // renaming onto another bank's name is refused and changes nothing
    let clash = s.update_bank(
        alpha.id,
        UpdateBankInput {
            name: "Beta".to_string(),
            short_name: None,
            logo: None,
            color: "#000000".to_string(),
            notes: None,
            active: true,
        },
    );
    assert!(matches!(clash, Err(AppError::Database(_))));
    let rows = s.get_banks(false);
    assert_eq!(rows[0].name, "Alpha Prime");
    assert_eq!(rows[0].short_name, Some("AP".to_string()));
    // a missing bank is reported as such
    let missing = s.update_bank(
        9_999,
        UpdateBankInput {
            name: "Gamma".to_string(),
            short_name: None,
            logo: None,
            color: "#000000".to_string(),
            notes: None,
            active: true,
        },
    );
    assert!(matches!(missing, Err(AppError::NotFound(_))));
}

#[test]
fn category_tree_and_cascade() {
    let mut s = Store::new();
    let root = s
        .create_category(CreateCategoryInput {
            name: "household".to_string(),
            parent_category_id: None,
            icon: None,
            color: None,
            category_type: "expense".to_string(),
        })
        .unwrap();
    let child = s
        .create_category(CreateCategoryInput {
            name: "repairs".to_string(),
            parent_category_id: Some(root.id),
            icon: None,
            color: None,
            category_type: "expense".to_string(),
        })
        .unwrap();
    s.create_category(CreateCategoryInput {
        name: "plumbing".to_string(),
        parent_category_id: Some(child.id),
        icon: None,
        color: None,
        category_type: "expense".to_string(),
    })
    .unwrap();
    let dangling = s.create_category(CreateCategoryInput {
        name: "orphan".to_string(),
        parent_category_id: Some(424242),
        icon: None,
        color: None,
        category_type: "expense".to_string(),
    });
    assert!(matches!(dangling, Err(AppError::Database(_))));

    let flat = s.get_categories();
    assert_eq!(flat.len(), 3);
    let kids = get_children(&flat, root.id);
    assert_eq!(kids.len(), 1);
    assert_eq!(kids[0].name, "repairs");
    let grand = kids[0].children.as_ref().unwrap();
    assert_eq!(grand.len(), 1);
    assert_eq!(grand[0].name, "plumbing");

    let tree = build_category_tree(flat);
    assert_eq!(tree.len(), 1);
    assert_eq!(tree[0].name, "household");

    let tree2 = s.get_category_tree();
    assert_eq!(tree2.len(), 1);

    // deleting the middle category removes its whole subtree
    s.delete_category(child.id).unwrap();
    let left = s.get_categories();
    assert_eq!(left.len(), 1);
    assert_eq!(left[0].name, "household");
    assert!(matches!(
        s.delete_category(999),
        Err(AppError::NotFound(_))
    ));
}

#[test]
fn flow_groups_attach_and_detach() {
    let mut s = Store::new();
    let f = s
        .create_flow_group(CreateFlowGroupInput {
            name: "holiday".to_string(),
            description: None,
            color: None,
            is_template: None,
        })
        .unwrap();
    assert_eq!(f.color, "#F59E0B");
    let got = s.get_flow_group_by_id(f.id).unwrap();
    assert_eq!(got.name, "holiday");
    let a = s.create_account(account_input("main", None)).unwrap();
    let t = s
        .create_transaction(CreateTransactionInput {
            date: Date { year: 2024, month: 7, day: 1 },
            amount: 10,
            currency: None,
            transaction_type: "expense".to_string(),
            from_account_id: Some(a.id),
            to_account_id: None,
            category_id: None,
            description: None,
            owner_user_id: None,
            is_shared: None,
            status: None,
            notes: None,
        })
        .unwrap();
    s.add_transaction_to_flow(f.id, t.id).unwrap();
    assert_eq!(
        s.get_transaction_by_id(t.id).unwrap().flow_group_id,
        Some(f.id)
    );
    s.delete_flow_group(f.id).unwrap();
    assert_eq!(s.get_transaction_by_id(t.id).unwrap().flow_group_id, None);
    assert!(matches!(
        s.get_flow_group_by_id(f.id),
        Err(AppError::NotFound(_))
    ));
}

#[test]
fn account_soft_delete_and_listing() {
    let mut s = Store::new();
    let a = s.create_account(account_input("one", None)).unwrap();
    s.create_account(account_input("two", None)).unwrap();
    s.delete_account(a.id).unwrap();
    assert_eq!(s.get_accounts(None).len(), 1);
    assert_eq!(s.get_accounts(Some(false)).len(), 2);
    let gone = s.get_account_by_id(a.id).unwrap();
    assert!(!gone.active);
}

#[test]
fn reparenting_forward_is_refused() {
    let mut s = Store::new();
    let first = s
        .create_category(CreateCategoryInput {
            name: "first".to_string(),
            parent_category_id: None,
            icon: None,
            color: None,
            category_type: "expense".to_string(),
        })
        .unwrap();
    let second = s
        .create_category(CreateCategoryInput {
            name: "second".to_string(),
            parent_category_id: None,
            icon: None,
            color: None,
            category_type: "expense".to_string(),
        })
        .unwrap();
    // a parent that would come after its child is refused, keeping the
    // stored table a parents-first forest
    let upd = UpdateCategoryInput {
        name: "first".to_string(),
        parent_category_id: Some(second.id),
        icon: None,
        color: "#6B7280".to_string(),
        category_type: "expense".to_string(),
    };
    assert!(matches!(
        s.update_category(first.id, upd),
        Err(AppError::InvalidInput(_))
    ));
    // the other direction is fine
    let upd2 = UpdateCategoryInput {
        name: "second".to_string(),
        parent_category_id: Some(first.id),
        icon: None,
        color: "#6B7280".to_string(),
        category_type: "expense".to_string(),
    };
    let c2 = s.update_category(second.id, upd2).unwrap();
    assert_eq!(c2.parent_category_id, Some(first.id));
}
