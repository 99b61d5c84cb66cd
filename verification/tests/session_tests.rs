use todolists::error::CredentialError;
use todolists::session::{Event, Notice, Reply, Session, State};
use todolists::store::{Account, Change, Store, TodoList};
use todolists::task::Task;

/// A hash, made at a low cost, of the password "a".
const HASH_OF_A: &str = "$2a$06$m0CrhHm10qJ3lXRY.5zDGO3rS2KdeeWLuGmsfGlMfOxih58VYVfxe";

fn alice() -> Account {
    Account { id: 1, login: "alice".to_string(), credential_hash: HASH_OF_A.to_string() }
}

fn text(s: &str) -> Event {
    Event::Text(s.to_string())
}

fn quiet(notice: Notice) -> Reply {
    Reply { notice, change: Change::Nothing }
}

/// A session at the main menu of "alice".
fn signed_in() -> Session {
    let mut store = Store::new();
    store.restore_account(alice()).unwrap();
    let session = Session::new(store);
    let (session, _) = session.step(Event::Confirm(Some(true)));
    let (session, reply) = session.step(Event::Credentials {
        login: "alice".to_string(),
        password: "a".to_string(),
    });
    assert_eq!(reply, quiet(Notice::LoggedIn));
    session
}

/// Feeds the inputs one after the other and gives the last reply.
fn run(mut session: Session, events: Vec<Event>) -> (Session, Reply) {
    let mut last = quiet(Notice::Proceed);
    for event in events {
        let (next, reply) = session.step(event);
        session = next;
        last = reply;
    }
    (session, last)
}

/// A session at the main menu of "alice" with the list "groceries" holding
/// the tasks "milk" and "eggs".
fn with_groceries() -> Session {
    let (session, reply) = run(
        signed_in(),
        vec![
            Event::Number(1),
            text("groceries"),
            Event::Number(2),
            Event::Number(1),
            Event::Number(4),
            text("milk"),
            Event::Number(2),
            Event::Number(1),
            Event::Number(4),
            text("eggs"),
        ],
    );
    assert_eq!(reply.notice, Notice::TaskAdded);
    session
}

fn tasks_of(session: &Session, list: &str) -> Vec<Task> {
    session.store().read_list(1, list).unwrap().tasks
}

fn item(name: &str, done: bool) -> Task {
    Task { name: name.to_string(), done }
}

#[test]
fn a_session_starts_anonymous() {
    let session = Session::new(Store::new());
    assert_eq!(*session.state(), State::Anonymous);
    assert!(!session.is_terminated());
}

#[test]
fn no_choice_asks_again() {
    let (session, reply) = Session::new(Store::new()).step(Event::Confirm(None));
    assert_eq!(*session.state(), State::Anonymous);
    assert_eq!(reply, quiet(Notice::NoChoice));
}

#[test]
fn the_anonymous_choice_leads_to_sign_in_or_registration() {
    let (session, reply) = Session::new(Store::new()).step(Event::Confirm(Some(true)));
    assert_eq!(*session.state(), State::Authenticating);
    assert_eq!(reply, quiet(Notice::Proceed));
    let (session, reply) = Session::new(Store::new()).step(Event::Confirm(Some(false)));
    assert_eq!(*session.state(), State::Registering);
    assert_eq!(reply, quiet(Notice::Proceed));
}

#[test]
fn an_input_of_the_wrong_kind_changes_nothing() {
    let (session, reply) = Session::new(Store::new()).step(Event::Number(1));
    assert_eq!(*session.state(), State::Anonymous);
    assert_eq!(reply, quiet(Notice::Unexpected));
    let (session, reply) = signed_in().step(text("1"));
    assert_eq!(*session.state(), State::Authenticated { account: alice() });
    assert_eq!(reply, quiet(Notice::Unexpected));
}

#[test]
fn a_failed_sign_in_asks_again_without_saying_why() {
    let mut store = Store::new();
    store.restore_account(alice()).unwrap();
    let (session, _) = Session::new(store).step(Event::Confirm(Some(true)));
    let (session, wrong_password) = session.step(Event::Credentials {
        login: "alice".to_string(),
        password: "b".to_string(),
    });
    assert_eq!(*session.state(), State::Authenticating);
    let (session, unknown_login) = session.step(Event::Credentials {
        login: "nobody".to_string(),
        password: "a".to_string(),
    });
    assert_eq!(*session.state(), State::Authenticating);
    assert_eq!(wrong_password, quiet(Notice::InvalidCredentials));
    assert_eq!(unknown_login, wrong_password);
    let (session, reply) = session.step(Event::Credentials {
        login: "alice".to_string(),
        password: "a".to_string(),
    });
    assert_eq!(reply, quiet(Notice::LoggedIn));
    assert_eq!(*session.state(), State::Authenticated { account: alice() });
}

#[test]
fn registration_creates_the_account_and_signs_in() {
    let (session, _) = Session::new(Store::new()).step(Event::Confirm(Some(false)));
    let (session, reply) = session.step(text("alice"));
    assert_eq!(reply, quiet(Notice::Proceed));
    let choosing = State::ChoosingPassword { login: "alice".to_string() };
    assert_eq!(*session.state(), choosing);
    let (session, reply) = session.step(Event::NewPassword {
        password: "pw1".to_string(),
        repeated: "pw2".to_string(),
    });
    assert_eq!(reply, quiet(Notice::PasswordsDiffer));
    assert_eq!(*session.state(), choosing);
    assert_eq!(session.store().find_account(1), None);
    let (session, reply) = session.step(Event::NewPassword {
        password: "pw1".to_string(),
        repeated: "pw1".to_string(),
    });
    assert_eq!(reply.notice, Notice::AccountCreated);
    assert_eq!(session.store().authenticate("alice", "pw1").unwrap().id, 1);
    let created = session.store().find_account(1).unwrap();
    assert_eq!(created.login, "alice");
    assert_eq!(reply.change, Change::AccountInserted { account: created.clone() });
    assert_eq!(*session.state(), State::Authenticated { account: created });
}

#[test]
fn registration_refuses_a_taken_login() {
    let mut store = Store::new();
    store.restore_account(alice()).unwrap();
    let (session, _) = Session::new(store).step(Event::Confirm(Some(false)));
    let (session, reply) = session.step(text("alice"));
    assert_eq!(reply, quiet(Notice::LoginTaken));
    assert_eq!(*session.state(), State::Registering);
    let (session, reply) = session.step(text("Alice"));
    assert_eq!(reply, quiet(Notice::Proceed));
    assert_eq!(*session.state(), State::ChoosingPassword { login: "Alice".to_string() });
    assert_eq!(session.store().find_account(1), Some(alice()));
    assert_eq!(session.store().find_account(2), None);
}

#[test]
fn a_number_outside_the_main_menu_is_asked_for_again() {
    let mut session = signed_in();
    for n in [0, 7, -1, 100, i64::MIN, i64::MAX] {
        let (next, reply) = session.step(Event::Number(n));
        assert_eq!(reply, quiet(Notice::OutOfRange { lo: 1, hi: 6 }));
        assert_eq!(*next.state(), State::Authenticated { account: alice() });
        session = next;
    }
    let (session, reply) = session.step(Event::Number(6));
    assert_eq!(reply, quiet(Notice::Exiting));
    assert!(session.is_terminated());
}

#[test]
fn a_number_outside_the_list_menu_is_asked_for_again() {
    let (session, _) = run(with_groceries(), vec![Event::Number(2), Event::Number(1)]);
    let viewing = State::ViewingList { account: alice(), list: "groceries".to_string() };
    assert_eq!(*session.state(), viewing);
    let (session, reply) = session.step(Event::Number(6));
    assert_eq!(reply, quiet(Notice::OutOfRange { lo: 1, hi: 5 }));
    assert_eq!(*session.state(), viewing);
    let (session, reply) = session.step(Event::Number(0));
    assert_eq!(reply, quiet(Notice::OutOfRange { lo: 1, hi: 5 }));
    assert_eq!(*session.state(), viewing);
}

#[test]
fn a_number_outside_the_task_menu_is_asked_for_again() {
    let (session, _) = run(
        with_groceries(),
        vec![Event::Number(2), Event::Number(1), Event::Number(1), Event::Number(2)],
    );
    let editing =
        State::EditingTask { account: alice(), list: "groceries".to_string(), index: 1 };
    assert_eq!(*session.state(), editing);
    let (session, reply) = session.step(Event::Number(4));
    assert_eq!(reply, quiet(Notice::OutOfRange { lo: 1, hi: 3 }));
    assert_eq!(*session.state(), editing);
    assert_eq!(tasks_of(&session, "groceries"), vec![item("milk", false), item("eggs", false)]);
}

#[test]
fn a_number_that_names_no_list_is_asked_for_again() {
    let (session, _) = run(with_groceries(), vec![Event::Number(1), text("work"), Event::Number(2)]);
    assert_eq!(*session.state(), State::ChoosingList { account: alice() });
    let (session, reply) = session.step(Event::Number(3));
    assert_eq!(reply, quiet(Notice::NoSuchPosition { count: 2 }));
    assert_eq!(*session.state(), State::ChoosingList { account: alice() });
    let (session, reply) = session.step(Event::Number(0));
    assert_eq!(reply, quiet(Notice::NoSuchPosition { count: 2 }));
    let (session, reply) = session.step(Event::Number(2));
    assert_eq!(reply, quiet(Notice::Proceed));
    assert_eq!(
        *session.state(),
        State::ViewingList { account: alice(), list: "work".to_string() }
    );
}

#[test]
fn a_number_that_names_no_task_is_asked_for_again() {
    let (session, _) =
        run(with_groceries(), vec![Event::Number(2), Event::Number(1), Event::Number(1)]);
    let choosing = State::ChoosingTask { account: alice(), list: "groceries".to_string() };
    assert_eq!(*session.state(), choosing);
    let (session, reply) = session.step(Event::Number(3));
    assert_eq!(reply, quiet(Notice::NoSuchPosition { count: 2 }));
    assert_eq!(*session.state(), choosing);
}

#[test]
fn selecting_without_lists_stays_at_the_main_menu() {
    let (session, reply) = signed_in().step(Event::Number(2));
    assert_eq!(reply, quiet(Notice::NoLists));
    assert_eq!(*session.state(), State::Authenticated { account: alice() });
}

#[test]
fn creating_a_list_reports_the_insertion() {
    let (session, reply) = run(signed_in(), vec![Event::Number(1), text("groceries")]);
    assert_eq!(
        reply,
        Reply {
            notice: Notice::ListCreated,
            change: Change::ListInserted { owner_id: 1, name: "groceries".to_string() },
        }
    );
    assert_eq!(*session.state(), State::Authenticated { account: alice() });
    assert_eq!(
        session.store().lists_for(1),
        vec![TodoList { name: "groceries".to_string(), done: false, tasks: Vec::new() }]
    );
    let (session, reply) = run(session, vec![Event::Number(1), text("groceries")]);
    assert_eq!(reply.notice, Notice::ListCreated);
    assert_eq!(session.store().lists_for(1).len(), 2);
}

#[test]
fn adding_tasks_reports_the_text_that_was_written() {
    let (session, reply) = run(
        signed_in(),
        vec![
            Event::Number(1),
            text("groceries"),
            Event::Number(2),
            Event::Number(1),
            Event::Number(4),
            text("milk"),
        ],
    );
    assert_eq!(
        reply,
        Reply {
            notice: Notice::TaskAdded,
            change: Change::TasksWritten {
                owner_id: 1,
                name: "groceries".to_string(),
                tasks: "[{\"name\":\"milk\",\"done\":false}]".to_string(),
            },
        }
    );
    assert_eq!(*session.state(), State::Authenticated { account: alice() });
    assert_eq!(tasks_of(&session, "groceries"), vec![item("milk", false)]);
}

#[test]
fn showing_the_tasks_of_an_empty_list_leads_back() {
    let (session, reply) = run(
        signed_in(),
        vec![Event::Number(1), text("empty"), Event::Number(2), Event::Number(1), Event::Number(1)],
    );
    assert_eq!(reply, quiet(Notice::NoTasks));
    assert_eq!(*session.state(), State::Authenticated { account: alice() });
}

#[test]
fn renaming_a_list() {
    let (session, reply) = run(
        with_groceries(),
        vec![Event::Number(2), Event::Number(1), Event::Number(2), text("food")],
    );
    assert_eq!(
        reply,
        Reply {
            notice: Notice::ListRenamed,
            change: Change::ListRenamed {
                owner_id: 1,
                name: "groceries".to_string(),
                new_name: "food".to_string(),
            },
        }
    );
    assert_eq!(session.store().read_list(1, "groceries"), None);
    assert_eq!(tasks_of(&session, "food"), vec![item("milk", false), item("eggs", false)]);
}

#[test]
fn toggling_a_list_needs_a_yes() {
    let to_toggle = || vec![Event::Number(2), Event::Number(1), Event::Number(3)];
    let (session, _) = run(with_groceries(), to_toggle());
    assert_eq!(
        *session.state(),
        State::TogglingList { account: alice(), list: "groceries".to_string() }
    );
    let (session, reply) = session.step(Event::Confirm(Some(false)));
    assert_eq!(reply, quiet(Notice::Unchanged));
    assert!(!session.store().read_list(1, "groceries").unwrap().done);
    let (session, _) = run(session, to_toggle());
    let (session, reply) = session.step(Event::Confirm(Some(true)));
    assert_eq!(
        reply,
        Reply {
            notice: Notice::ListStatusChanged,
            change: Change::ListDoneSet { owner_id: 1, name: "groceries".to_string(), done: true },
        }
    );
    assert!(session.store().read_list(1, "groceries").unwrap().done);
    let (session, _) = run(session, to_toggle());
    let (session, reply) = session.step(Event::Confirm(Some(true)));
    assert_eq!(reply.notice, Notice::ListStatusChanged);
    assert!(!session.store().read_list(1, "groceries").unwrap().done);
    assert_eq!(*session.state(), State::Authenticated { account: alice() });
}

#[test]
fn deleting_a_list_leads_back_to_the_main_menu() {
    let (session, reply) =
        run(with_groceries(), vec![Event::Number(2), Event::Number(1), Event::Number(5)]);
    assert_eq!(
        reply,
        Reply {
            notice: Notice::ListDeleted,
            change: Change::ListRemoved { owner_id: 1, name: "groceries".to_string() },
        }
    );
    assert_eq!(*session.state(), State::Authenticated { account: alice() });
    assert!(!session.is_terminated());
    assert_eq!(session.store().lists_for(1), Vec::new());
}

fn at_task(index: i64) -> Vec<Event> {
    vec![Event::Number(2), Event::Number(1), Event::Number(1), Event::Number(index)]
}

#[test]
fn renaming_a_task() {
    let (session, _) = run(with_groceries(), at_task(2));
    let (session, reply) = run(session, vec![Event::Number(1), text("bread")]);
    assert_eq!(
        reply,
        Reply {
            notice: Notice::TaskRenamed,
            change: Change::TasksWritten {
                owner_id: 1,
                name: "groceries".to_string(),
                tasks: "[{\"name\":\"milk\",\"done\":false},{\"name\":\"bread\",\"done\":false}]"
                    .to_string(),
            },
        }
    );
    assert_eq!(tasks_of(&session, "groceries"), vec![item("milk", false), item("bread", false)]);
    assert_eq!(*session.state(), State::Authenticated { account: alice() });
}

#[test]
fn toggling_a_task_needs_a_yes() {
    let (session, _) = run(with_groceries(), at_task(1));
    let (session, reply) = run(session, vec![Event::Number(2), Event::Confirm(None)]);
    assert_eq!(reply, quiet(Notice::Unchanged));
    assert_eq!(tasks_of(&session, "groceries"), vec![item("milk", false), item("eggs", false)]);
    let (session, _) = run(session, at_task(1));
    let (session, reply) = run(session, vec![Event::Number(2), Event::Confirm(Some(true))]);
    assert_eq!(reply.notice, Notice::TaskStatusChanged);
    assert_eq!(tasks_of(&session, "groceries"), vec![item("milk", true), item("eggs", false)]);
}

#[test]
fn deleting_a_task_leads_back_to_the_main_menu() {
    let (session, _) = run(with_groceries(), at_task(1));
    let (session, reply) = session.step(Event::Number(3));
    assert_eq!(
        reply,
        Reply {
            notice: Notice::TaskDeleted,
            change: Change::TasksWritten {
                owner_id: 1,
                name: "groceries".to_string(),
                tasks: "[{\"name\":\"eggs\",\"done\":false}]".to_string(),
            },
        }
    );
    assert_eq!(tasks_of(&session, "groceries"), vec![item("eggs", false)]);
    assert_eq!(*session.state(), State::Authenticated { account: alice() });
    assert!(!session.is_terminated());
}

#[test]
fn changing_the_login() {
    let mut store = Store::new();
    store.restore_account(alice()).unwrap();
    store
        .restore_account(Account {
            id: 2,
            login: "bob".to_string(),
            credential_hash: "h".to_string(),
        })
        .unwrap();
    let session = Session::new(store);
    let (session, _) = run(
        session,
        vec![
            Event::Confirm(Some(true)),
            Event::Credentials { login: "alice".to_string(), password: "a".to_string() },
            Event::Number(3),
        ],
    );
    let (session, reply) = session.step(text("bob"));
    assert_eq!(reply, quiet(Notice::LoginTaken));
    assert_eq!(*session.state(), State::ChangingLogin { account: alice() });
    let (session, reply) = session.step(text("alicia"));
    assert_eq!(
        reply,
        Reply {
            notice: Notice::LoginChanged,
            change: Change::LoginUpdated { account_id: 1, login: "alicia".to_string() },
        }
    );
    let renamed = Account { login: "alicia".to_string(), ..alice() };
    assert_eq!(*session.state(), State::Authenticated { account: renamed.clone() });
    assert_eq!(session.store().find_account(1), Some(renamed));
}

#[test]
fn changing_the_password_refuses_the_current_one() {
    let (session, _) = signed_in().step(Event::Number(4));
    let (session, reply) = session.step(Event::NewPassword {
        password: "x".to_string(),
        repeated: "y".to_string(),
    });
    assert_eq!(reply, quiet(Notice::PasswordsDiffer));
    let (session, reply) = session.step(Event::NewPassword {
        password: "a".to_string(),
        repeated: "a".to_string(),
    });
    assert_eq!(reply, quiet(Notice::SamePassword));
    assert_eq!(*session.state(), State::ChangingPassword { account: alice() });
    assert_eq!(session.store().find_account(1), Some(alice()));
}

#[test]
fn changing_the_password_stores_a_new_hash() {
    let (session, _) = signed_in().step(Event::Number(4));
    let (session, reply) = session.step(Event::NewPassword {
        password: "fresh".to_string(),
        repeated: "fresh".to_string(),
    });
    assert_eq!(reply.notice, Notice::PasswordChanged);
    let stored = session.store().find_account(1).unwrap();
    assert_ne!(stored.credential_hash, HASH_OF_A);
    assert_eq!(
        reply.change,
        Change::HashUpdated { account_id: 1, credential_hash: stored.credential_hash.clone() }
    );
    assert_eq!(*session.state(), State::Authenticated { account: stored });
}

#[test]
fn deleting_the_account_ends_the_session() {
    let (session, reply) = with_groceries().step(Event::Number(5));
    assert_eq!(
        reply,
        Reply { notice: Notice::AccountDeleted, change: Change::AccountRemoved { account_id: 1 } }
    );
    assert!(session.is_terminated());
    assert_eq!(session.store().find_account(1), None);
    assert_eq!(session.store().lists_for(1), Vec::new());
}

#[test]
fn an_ended_session_stays_ended() {
    let (session, _) = signed_in().step(Event::Number(6));
    let (session, reply) = run(
        session,
        vec![Event::Number(1), text("x"), Event::Confirm(Some(true)), Event::Confirm(None)],
    );
    assert_eq!(reply, quiet(Notice::Proceed));
    assert_eq!(*session.state(), State::Terminated);
    assert_eq!(session.store().find_account(1), Some(alice()));
}

fn store_with_alice() -> Store {
    let mut store = Store::new();
    store.restore_account(alice()).unwrap();
    store
}

#[test]
fn a_successful_registration_signs_in() {
    let (session, reply) = Session::conclude_registration(store_with_alice(), Ok(alice()));
    assert_eq!(*session.state(), State::Authenticated { account: alice() });
    assert_eq!(
        reply,
        Reply {
            notice: Notice::AccountCreated,
            change: Change::AccountInserted { account: alice() },
        }
    );
}

#[test]
fn a_failed_registration_leads_back_to_the_start() {
    for error in [CredentialError::HashingFailed, CredentialError::IdsExhausted] {
        let (session, reply) = Session::conclude_registration(Store::new(), Err(error));
        assert_eq!(*session.state(), State::Anonymous);
        assert_eq!(reply, quiet(Notice::Failure));
    }
}

#[test]
fn a_changed_password_is_read_anew() {
    let mut store = store_with_alice();
    store.apply_password_change(1, false, Some("new-hash".to_string())).unwrap();
    let (session, reply) = Session::conclude_password_change(store, alice(), Ok(()));
    let changed = Account { credential_hash: "new-hash".to_string(), ..alice() };
    assert_eq!(*session.state(), State::Authenticated { account: changed });
    assert_eq!(
        reply,
        Reply {
            notice: Notice::PasswordChanged,
            change: Change::HashUpdated {
                account_id: 1,
                credential_hash: "new-hash".to_string(),
            },
        }
    );
}

#[test]
fn a_refused_password_change_writes_nothing() {
    let (session, reply) = Session::conclude_password_change(
        store_with_alice(),
        alice(),
        Err(CredentialError::SameAsCurrent),
    );
    assert_eq!(*session.state(), State::ChangingPassword { account: alice() });
    assert_eq!(reply, quiet(Notice::SamePassword));
    let (session, reply) = Session::conclude_password_change(
        store_with_alice(),
        alice(),
        Err(CredentialError::HashingFailed),
    );
    assert_eq!(*session.state(), State::Authenticated { account: alice() });
    assert_eq!(reply, quiet(Notice::Failure));
    assert_eq!(session.store().find_account(1), Some(alice()));
}

#[test]
fn resume_keeps_a_state_that_the_store_holds() {
    let mut store = store_with_alice();
    store.create_list(1, "groceries").unwrap();
    store.add_task(1, "groceries", item("milk", false)).unwrap();
    let editing = || State::EditingTask {
        account: alice(),
        list: "groceries".to_string(),
        index: 0,
    };
    let session = Session::resume(store, editing());
    assert_eq!(*session.state(), editing());
    let (session, reply) = session.step(Event::Number(3));
    assert_eq!(reply.notice, Notice::TaskDeleted);
    assert_eq!(tasks_of(&session, "groceries"), Vec::new());
}

#[test]
fn resume_starts_over_where_the_store_lacks_what_the_state_needs() {
    let stale = Account { login: "renamed".to_string(), ..alice() };
    let session = Session::resume(store_with_alice(), State::Authenticated { account: stale });
    assert_eq!(*session.state(), State::Anonymous);
    let viewing = State::ViewingList { account: alice(), list: "gone".to_string() };
    assert_eq!(*Session::resume(store_with_alice(), viewing).state(), State::Anonymous);
    let mut store = store_with_alice();
    store.create_list(1, "groceries").unwrap();
    let editing =
        State::TogglingTask { account: alice(), list: "groceries".to_string(), index: 0 };
    assert_eq!(*Session::resume(store, editing).state(), State::Anonymous);
    let menu = State::Authenticated { account: alice() };
    assert_eq!(*Session::resume(Store::new(), menu).state(), State::Anonymous);
    assert_eq!(*Session::resume(Store::new(), State::Terminated).state(), State::Terminated);
}

#[test]
fn a_copy_of_a_state_equals_it() {
    let states = vec![
        State::Anonymous,
        State::Registering,
        State::ChoosingPassword { login: "new".to_string() },
        State::ChangingLogin { account: alice() },
        State::AddingTask { account: alice(), list: "a".to_string() },
        State::RenamingTask { account: alice(), list: "a".to_string(), index: 3 },
        State::Terminated,
    ];
    for state in states {
        assert_eq!(state.clone(), state);
    }
}

#[test]
fn renaming_a_list_to_a_name_in_use_succeeds() {
    let (session, _) = run(with_groceries(), vec![Event::Number(1), text("work")]);
    let (session, reply) = run(
        session,
        vec![Event::Number(2), Event::Number(2), Event::Number(2), text("groceries")],
    );
    assert_eq!(
        reply,
        Reply {
            notice: Notice::ListRenamed,
            change: Change::ListRenamed {
                owner_id: 1,
                name: "work".to_string(),
                new_name: "groceries".to_string(),
            },
        }
    );
    let lists = session.store().lists_for(1);
    assert_eq!(lists.len(), 2);
    assert_eq!(lists[0].name, "groceries");
    assert_eq!(lists[0].tasks.len(), 2);
    assert_eq!(lists[1].name, "groceries");
    assert_eq!(lists[1].tasks, Vec::new());
}
