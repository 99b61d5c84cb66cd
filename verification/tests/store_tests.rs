use todolists::codec::encode;
use todolists::error::{CredentialError, TodoError};
use todolists::store::{Account, ListRow, Store, TodoList};
use todolists::task::Task;

fn item(name: &str, done: bool) -> Task {
    Task { name: name.to_string(), done }
}

/// A store with the accounts "alice" (id 1) and "bob" (id 2), whose hashes
/// are placeholders that accept no password.
fn two_accounts() -> Store {
    let mut store = Store::new();
    store.register_with_hash("alice", Some("hash-a".to_string())).unwrap();
    store.register_with_hash("bob", Some("hash-b".to_string())).unwrap();
    store
}

fn snapshot(store: &Store) -> (Vec<Option<Account>>, Vec<Vec<TodoList>>) {
    let accounts = (0..5).map(|id| store.find_account(id)).collect();
    let lists = (0..5).map(|id| store.lists_for(id)).collect();
    (accounts, lists)
}

#[test]
fn register_then_authenticate_succeeds() {
    let mut store = Store::new();
    let created = store.register("alice", "pw1").unwrap();
    assert_eq!(created.id, 1);
    assert_eq!(created.login, "alice");
    assert_ne!(created.credential_hash, "pw1");
    let found = store.authenticate("alice", "pw1").unwrap();
    assert_eq!(found.login, "alice");
    assert_eq!(found, created);
}

#[test]
fn authenticate_fails_the_same_way_for_both_causes() {
    let mut store = Store::new();
    store.register("alice", "pw1").unwrap();
    assert_eq!(store.authenticate("alice", "wrong"), Err(CredentialError::NotFound));
    assert_eq!(store.authenticate("nobody", "pw1"), Err(CredentialError::NotFound));
}

#[test]
fn logins_are_case_sensitive() {
    let mut store = two_accounts();
    assert!(!store.login_exists("Alice"));
    assert!(store.login_exists("alice"));
    let created = store.register_with_hash("Alice", Some("h".to_string())).unwrap();
    assert_eq!(created.id, 3);
}

#[test]
fn register_with_a_taken_login_fails_and_changes_nothing() {
    let mut store = two_accounts();
    store.create_list(1, "groceries").unwrap();
    let before = snapshot(&store);
    assert_eq!(store.register("alice", "other"), Err(CredentialError::DuplicateLogin));
    assert_eq!(
        store.register_with_hash("bob", Some("h".to_string())),
        Err(CredentialError::DuplicateLogin)
    );
    assert_eq!(store.register_with_hash("bob", None), Err(CredentialError::DuplicateLogin));
    assert_eq!(snapshot(&store), before);
    let next = store.register_with_hash("carol", Some("h".to_string())).unwrap();
    assert_eq!(next.id, 3);
}

#[test]
fn register_assigns_ids_in_order() {
    let mut store = Store::new();
    for (n, login) in ["a", "b", "c"].iter().enumerate() {
        let account = store.register_with_hash(login, Some(format!("h{}", n))).unwrap();
        assert_eq!(account.id, n as i64 + 1);
        assert_eq!(account.login, *login);
        assert_eq!(account.credential_hash, format!("h{}", n));
    }
}

#[test]
fn register_reports_a_failed_hashing() {
    let mut store = two_accounts();
    let before = snapshot(&store);
    assert_eq!(store.register_with_hash("carol", None), Err(CredentialError::HashingFailed));
    assert_eq!(snapshot(&store), before);
}

#[test]
fn register_reports_exhausted_ids() {
    let mut store = Store::new();
    let last = Account {
        id: i64::MAX - 1,
        login: "last".to_string(),
        credential_hash: "h".to_string(),
    };
    assert_eq!(store.restore_account(last), Ok(()));
    assert_eq!(
        store.register_with_hash("next", Some("h".to_string())),
        Err(CredentialError::IdsExhausted)
    );
    assert!(!store.login_exists("next"));
}

#[test]
fn decide_login_needs_an_account_and_an_accepted_password() {
    let account = Account { id: 4, login: "dan".to_string(), credential_hash: "h".to_string() };
    assert_eq!(Store::decide_login(Some(account.clone()), true), Ok(account.clone()));
    assert_eq!(Store::decide_login(Some(account), false), Err(CredentialError::NotFound));
    assert_eq!(Store::decide_login(None, true), Err(CredentialError::NotFound));
    assert_eq!(Store::decide_login(None, false), Err(CredentialError::NotFound));
}

#[test]
fn rename_login_checks_uniqueness_as_register_does() {
    let mut store = two_accounts();
    assert_eq!(store.rename_login(1, "bob"), Err(CredentialError::DuplicateLogin));
    assert_eq!(store.rename_login(1, "alice"), Err(CredentialError::DuplicateLogin));
    assert_eq!(store.rename_login(9, "zed"), Err(CredentialError::NoSuchAccount));
    assert_eq!(store.rename_login(1, "alicia"), Ok(()));
    assert_eq!(store.find_account(1).unwrap().login, "alicia");
    assert_eq!(store.find_account(1).unwrap().credential_hash, "hash-a");
    assert!(!store.login_exists("alice"));
    assert_eq!(store.find_by_login("alicia").unwrap().id, 1);
    assert_eq!(store.find_account(2).unwrap().login, "bob");
}

#[test]
fn change_password_to_the_current_one_is_refused() {
    let mut store = Store::new();
    let account = store.register("alice", "pw1").unwrap();
    assert_eq!(store.change_password(account.id, "pw1"), Err(CredentialError::SameAsCurrent));
    assert_eq!(store.find_account(account.id).unwrap().credential_hash, account.credential_hash);
}

#[test]
fn change_password_stores_a_hash_of_the_new_one() {
    let mut store = Store::new();
    let account = store.register("alice", "pw1").unwrap();
    assert_eq!(store.change_password(account.id, "pw2"), Ok(()));
    let stored = store.find_account(account.id).unwrap();
    assert_ne!(stored.credential_hash, account.credential_hash);
    assert_eq!(store.authenticate("alice", "pw2"), Ok(stored));
}

#[test]
fn change_password_of_an_unknown_account_is_refused() {
    let mut store = two_accounts();
    assert_eq!(store.change_password(7, "pw"), Err(CredentialError::NoSuchAccount));
}

#[test]
fn apply_password_change_decides_in_order() {
    let mut store = two_accounts();
    let new_hash = || Some("new".to_string());
    assert_eq!(store.apply_password_change(9, true, None), Err(CredentialError::NoSuchAccount));
    assert_eq!(store.apply_password_change(1, true, new_hash()), Err(CredentialError::SameAsCurrent));
    assert_eq!(store.apply_password_change(1, false, None), Err(CredentialError::HashingFailed));
    assert_eq!(store.find_account(1).unwrap().credential_hash, "hash-a");
    assert_eq!(store.apply_password_change(1, false, new_hash()), Ok(()));
    assert_eq!(store.find_account(1).unwrap().credential_hash, "new");
    assert_eq!(store.find_account(2).unwrap().credential_hash, "hash-b");
}

#[test]
fn delete_account_removes_the_account_and_its_lists() {
    let mut store = two_accounts();
    store.create_list(1, "groceries").unwrap();
    store.create_list(2, "work").unwrap();
    store.create_list(1, "home").unwrap();
    assert_eq!(store.delete_account(1), Ok(()));
    assert_eq!(store.find_account(1), None);
    assert!(!store.login_exists("alice"));
    assert_eq!(store.lists_for(1), Vec::new());
    assert_eq!(store.lists_for(2).len(), 1);
    assert_eq!(store.lists_for(2)[0].name, "work");
    assert_eq!(store.delete_account(1), Err(CredentialError::NoSuchAccount));
    let again = store.register_with_hash("alice", Some("h".to_string())).unwrap();
    assert_eq!(again.id, 3);
    assert_eq!(store.lists_for(3), Vec::new());
}

#[test]
fn create_list_starts_empty_and_not_done() {
    let mut store = two_accounts();
    assert_eq!(store.create_list(1, "groceries"), Ok(()));
    assert_eq!(
        store.lists_for(1),
        vec![TodoList { name: "groceries".to_string(), done: false, tasks: Vec::new() }]
    );
    assert_eq!(store.list_row(1, "groceries").unwrap().tasks, "[]");
    assert_eq!(store.lists_for(2), Vec::new());
}

#[test]
fn create_list_refuses_only_an_unknown_owner() {
    let mut store = two_accounts();
    assert_eq!(store.create_list(5, "x"), Err(TodoError::UnknownOwner));
    assert_eq!(store.lists_for(5), Vec::new());
    assert_eq!(store.create_list(1, "x"), Ok(()));
    assert_eq!(store.create_list(2, "x"), Ok(()));
    assert_eq!(store.lists_for(1).len(), 1);
    assert_eq!(store.lists_for(2).len(), 1);
}

#[test]
fn create_list_with_a_name_in_use_adds_a_further_list() {
    let mut store = two_accounts();
    store.create_list(1, "x").unwrap();
    store.add_task(1, "x", item("first", false)).unwrap();
    assert_eq!(store.create_list(1, "x"), Ok(()));
    let empty = |name: &str| TodoList { name: name.to_string(), done: false, tasks: Vec::new() };
    assert_eq!(
        store.lists_for(1),
        vec![
            TodoList { name: "x".to_string(), done: false, tasks: vec![item("first", false)] },
            empty("x"),
        ]
    );
}

/// A store in which "alice" has the lists "x" (with one task), "y" and a
/// second "x", in this order, and "bob" has a list "x".
fn with_two_of_one_name() -> Store {
    let mut store = two_accounts();
    store.create_list(1, "x").unwrap();
    store.add_task(1, "x", item("first", false)).unwrap();
    store.create_list(1, "y").unwrap();
    store.create_list(2, "x").unwrap();
    store.create_list(1, "x").unwrap();
    store
}

fn list(name: &str, done: bool, tasks: Vec<Task>) -> TodoList {
    TodoList { name: name.to_string(), done, tasks }
}

#[test]
fn a_pair_of_owner_and_name_names_the_first_such_list() {
    let mut store = with_two_of_one_name();
    assert_eq!(store.read_list(1, "x"), Some(list("x", false, vec![item("first", false)])));
    assert_eq!(store.add_task(1, "x", item("second", true)), Ok(()));
    assert_eq!(store.set_list_done(1, "x", true), Ok(()));
    assert_eq!(
        store.lists_for(1),
        vec![
            list("x", true, vec![item("first", false), item("second", true)]),
            list("y", false, Vec::new()),
            list("x", false, Vec::new()),
        ]
    );
    assert_eq!(store.lists_for(2), vec![list("x", false, Vec::new())]);
}

#[test]
fn delete_list_removes_at_most_one_row() {
    let mut store = with_two_of_one_name();
    assert_eq!(store.delete_list(1, "x"), Ok(()));
    assert_eq!(
        store.lists_for(1),
        vec![list("y", false, Vec::new()), list("x", false, Vec::new())]
    );
    assert_eq!(store.lists_for(2).len(), 1);
    assert_eq!(store.delete_list(1, "x"), Ok(()));
    assert_eq!(store.lists_for(1), vec![list("y", false, Vec::new())]);
    assert_eq!(store.delete_list(1, "x"), Err(TodoError::ListNotFound));
    assert_eq!(store.lists_for(2).len(), 1);
}

#[test]
fn rename_list_to_a_name_in_use_succeeds() {
    let mut store = with_two_of_one_name();
    assert_eq!(store.rename_list(1, "x", "y"), Ok(()));
    assert_eq!(
        store.lists_for(1),
        vec![
            list("y", false, vec![item("first", false)]),
            list("y", false, Vec::new()),
            list("x", false, Vec::new()),
        ]
    );
    assert_eq!(store.rename_list(1, "y", "y"), Ok(()));
    assert_eq!(store.lists_for(1).len(), 3);
    assert_eq!(store.lists_for(2), vec![list("x", false, Vec::new())]);
}

#[test]
fn lists_for_keeps_the_order_of_insertion() {
    let mut store = two_accounts();
    for name in ["c", "a", "b"] {
        store.create_list(1, name).unwrap();
        store.create_list(2, &format!("bob-{}", name)).unwrap();
    }
    let names: Vec<String> = store.lists_for(1).into_iter().map(|list| list.name).collect();
    assert_eq!(names, vec!["c", "a", "b"]);
}

#[test]
fn rename_list_is_scoped_to_the_owner() {
    let mut store = two_accounts();
    store.create_list(1, "a").unwrap();
    store.create_list(1, "b").unwrap();
    store.create_list(2, "a").unwrap();
    store.add_task(1, "a", item("t", false)).unwrap();
    assert_eq!(store.rename_list(1, "zz", "c"), Err(TodoError::ListNotFound));
    assert_eq!(store.rename_list(3, "a", "c"), Err(TodoError::ListNotFound));
    assert_eq!(store.rename_list(1, "a", "c"), Ok(()));
    let names: Vec<String> = store.lists_for(1).into_iter().map(|list| list.name).collect();
    assert_eq!(names, vec!["c", "b"]);
    assert_eq!(store.read_list(1, "c").unwrap().tasks, vec![item("t", false)]);
    assert_eq!(store.read_list(1, "a"), None);
    assert_eq!(store.lists_for(2)[0].name, "a");
}

#[test]
fn set_list_done_is_independent_of_the_tasks() {
    let mut store = two_accounts();
    store.create_list(1, "a").unwrap();
    store.add_task(1, "a", item("open", false)).unwrap();
    assert_eq!(store.set_list_done(1, "a", true), Ok(()));
    let list = store.read_list(1, "a").unwrap();
    assert!(list.done);
    assert_eq!(list.tasks, vec![item("open", false)]);
    assert_eq!(store.set_list_done(1, "a", false), Ok(()));
    assert!(!store.read_list(1, "a").unwrap().done);
    assert_eq!(store.set_list_done(2, "a", true), Err(TodoError::ListNotFound));
}

#[test]
fn delete_list_removes_one_list() {
    let mut store = two_accounts();
    store.create_list(1, "a").unwrap();
    store.create_list(1, "b").unwrap();
    store.create_list(2, "a").unwrap();
    assert_eq!(store.delete_list(1, "a"), Ok(()));
    assert_eq!(store.delete_list(1, "a"), Err(TodoError::ListNotFound));
    assert_eq!(store.lists_for(1).len(), 1);
    assert_eq!(store.lists_for(1)[0].name, "b");
    assert_eq!(store.lists_for(2).len(), 1);
}

#[test]
fn add_task_then_read_yields_one_more_with_the_new_task_last() {
    let mut store = two_accounts();
    store.create_list(1, "groceries").unwrap();
    let mut expected = Vec::new();
    for n in 0..4 {
        let before = store.read_list(1, "groceries").unwrap().tasks;
        assert_eq!(before.len(), n);
        let task = item(&format!("task {}", n), n % 2 == 1);
        expected.push(task.clone());
        assert_eq!(store.add_task(1, "groceries", task.clone()), Ok(()));
        let after = store.lists_for(1).remove(0).tasks;
        assert_eq!(after.len(), n + 1);
        assert_eq!(after.last(), Some(&task));
        assert_eq!(after, expected);
    }
    assert_eq!(store.list_row(1, "groceries").unwrap().tasks, encode(&expected));
}

#[test]
fn add_task_to_a_missing_list_is_refused() {
    let mut store = two_accounts();
    store.create_list(1, "a").unwrap();
    assert_eq!(store.add_task(2, "a", item("t", false)), Err(TodoError::ListNotFound));
    assert_eq!(store.add_task(1, "b", item("t", false)), Err(TodoError::ListNotFound));
    assert_eq!(store.read_list(1, "a").unwrap().tasks, Vec::new());
}

fn with_three_tasks() -> Store {
    let mut store = two_accounts();
    store.create_list(1, "a").unwrap();
    for name in ["x", "y", "z"] {
        store.add_task(1, "a", item(name, false)).unwrap();
    }
    store
}

#[test]
fn remove_task_yields_one_less_and_shifts_the_later_down() {
    let mut store = with_three_tasks();
    assert_eq!(store.remove_task(1, "a", 1), Ok(()));
    assert_eq!(store.read_list(1, "a").unwrap().tasks, vec![item("x", false), item("z", false)]);
    assert_eq!(store.remove_task(1, "a", 0), Ok(()));
    assert_eq!(store.read_list(1, "a").unwrap().tasks, vec![item("z", false)]);
    assert_eq!(store.remove_task(1, "a", 0), Ok(()));
    assert_eq!(store.read_list(1, "a").unwrap().tasks, Vec::new());
    assert_eq!(store.list_row(1, "a").unwrap().tasks, "[]");
}

#[test]
fn task_edits_refuse_a_stale_index() {
    let mut store = with_three_tasks();
    assert_eq!(store.remove_task(1, "a", 3), Err(TodoError::IndexOutOfRange));
    assert_eq!(store.rename_task(1, "a", 3, "n"), Err(TodoError::IndexOutOfRange));
    assert_eq!(store.toggle_task(1, "a", 3), Err(TodoError::IndexOutOfRange));
    assert_eq!(store.remove_task(1, "b", 0), Err(TodoError::ListNotFound));
    assert_eq!(store.rename_task(2, "a", 0, "n"), Err(TodoError::ListNotFound));
    assert_eq!(store.toggle_task(1, "b", 0), Err(TodoError::ListNotFound));
    assert_eq!(
        store.read_list(1, "a").unwrap().tasks,
        vec![item("x", false), item("y", false), item("z", false)]
    );
}

#[test]
fn rename_and_toggle_task_touch_one_task() {
    let mut store = with_three_tasks();
    assert_eq!(store.rename_task(1, "a", 2, "zed"), Ok(()));
    assert_eq!(store.toggle_task(1, "a", 0), Ok(()));
    assert_eq!(
        store.read_list(1, "a").unwrap().tasks,
        vec![item("x", true), item("y", false), item("zed", false)]
    );
    assert_eq!(store.toggle_task(1, "a", 0), Ok(()));
    assert_eq!(store.read_list(1, "a").unwrap().tasks[0], item("x", false));
}

#[test]
fn a_corrupt_text_reads_as_no_tasks() {
    let mut store = two_accounts();
    let row = ListRow {
        owner_id: 1,
        name: "broken".to_string(),
        done: true,
        tasks: "[{\"name\":\"lost\",".to_string(),
    };
    assert_eq!(store.restore_list(row), Ok(()));
    assert_eq!(
        store.lists_for(1),
        vec![TodoList { name: "broken".to_string(), done: true, tasks: Vec::new() }]
    );
    assert_eq!(store.add_task(1, "broken", item("fresh", false)), Ok(()));
    assert_eq!(store.read_list(1, "broken").unwrap().tasks, vec![item("fresh", false)]);
}

#[test]
fn restore_puts_rows_back_and_moves_the_next_id() {
    let mut store = Store::new();
    let row = |id: i64, login: &str| Account {
        id,
        login: login.to_string(),
        credential_hash: format!("hash-{}", id),
    };
    assert_eq!(store.restore_account(row(7, "g")), Ok(()));
    assert_eq!(store.restore_account(row(3, "c")), Ok(()));
    assert_eq!(store.restore_account(row(3, "other")), Err(CredentialError::DuplicateId));
    assert_eq!(store.restore_account(row(4, "g")), Err(CredentialError::DuplicateLogin));
    assert_eq!(store.restore_account(row(i64::MAX, "m")), Err(CredentialError::IdsExhausted));
    let list = |owner_id: i64, name: &str| ListRow {
        owner_id,
        name: name.to_string(),
        done: false,
        tasks: encode(&vec![item("kept", true)]),
    };
    assert_eq!(store.restore_list(list(3, "a")), Ok(()));
    assert_eq!(store.restore_list(list(3, "a")), Ok(()));
    assert_eq!(store.restore_list(list(4, "a")), Err(TodoError::UnknownOwner));
    assert_eq!(store.lists_for(3).len(), 2);
    assert_eq!(store.lists_for(4), Vec::new());
    assert_eq!(store.read_list(3, "a").unwrap().tasks, vec![item("kept", true)]);
    assert_eq!(store.find_account(7).unwrap().login, "g");
    let next = store.register_with_hash("new", Some("h".to_string())).unwrap();
    assert_eq!(next.id, 8);
}

#[test]
fn scenario_register_sign_in_create_list_add_task() {
    let mut store = Store::new();
    store.register("alice", "pw1").unwrap();
    let alice = store.authenticate("alice", "pw1").unwrap();
    assert_eq!(store.create_list(alice.id, "groceries"), Ok(()));
    assert_eq!(store.add_task(alice.id, "groceries", item("milk", false)), Ok(()));
    assert_eq!(
        store.lists_for(alice.id),
        vec![TodoList {
            name: "groceries".to_string(),
            done: false,
            tasks: vec![item("milk", false)],
        }]
    );
}

#[test]
fn reserved_ids_are_not_assigned_again() {
    let mut store = two_accounts();
    store.reserve_ids_through(1);
    let third = store.register_with_hash("carol", Some("h".to_string())).unwrap();
    assert_eq!(third.id, 3);
    store.reserve_ids_through(9);
    let next = store.register_with_hash("dan", Some("h".to_string())).unwrap();
    assert_eq!(next.id, 10);
    store.reserve_ids_through(i64::MAX);
    let after = store.register_with_hash("eve", Some("h".to_string())).unwrap();
    assert_eq!(after.id, 11);
    assert_eq!(store.find_account(1).unwrap().login, "alice");
}
