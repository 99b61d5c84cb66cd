//! The menu-driven session.
//!
//! A session is a state machine over the store. Each state waits for one
//! input: a yes-or-no answer, a number, a line of text, or a filled-in form.
//! [`Session::step`] takes the input, works on the store and gives the state
//! that follows, what is to be told to the person at the terminal, and what
//! was written to the store. Reading the terminal and writing it, and keeping
//! a durable copy of the store, are left to the caller.
//!
//! Nobody is signed in at first. After signing in or registering the main
//! menu is shown; from it a list is chosen and worked on, or a task of it is
//! chosen and worked on. Every operation on a list or a task leads back to
//! the main menu. Deleting the account and leaving end the session.

use crate::codec::encode_tasks;
use crate::credential::opens;
use crate::error::CredentialError;
use crate::menu::{accept, accept_position, position_of, within};
use crate::store::{
    lemma_lists_for_are_lists, lemma_text_written, Account, AccountView, Change, Store, StoreView,
};
use crate::task::{Task, TaskView};
use vstd::prelude::*;

verus! {

/// Where a session stands, and with it the input that it waits for.
#[derive(Debug, PartialEq, Eq)]
pub enum State {
    /// Nobody is signed in. Waits for the answer to "sign in or register":
    /// yes signs in, no registers.
    Anonymous,
    /// Signing in. Waits for a login and a password.
    Authenticating,
    /// Registering. Waits for the login of the new account.
    Registering,
    /// Registering under a login that is free. Waits for a password and the
    /// password again.
    ChoosingPassword { login: String },
    /// Signed in, at the main menu. Waits for a number from 1 to 6: create a
    /// list, select a list, change the login, change the password, delete the
    /// account, leave.
    Authenticated { account: Account },
    /// Creating a list. Waits for its name.
    NamingList { account: Account },
    /// Selecting a list. Waits for the number of one of the account's lists.
    ChoosingList { account: Account },
    /// Changing the login. Waits for the new login.
    ChangingLogin { account: Account },
    /// Changing the password. Waits for the new password and the same again.
    ChangingPassword { account: Account },
    /// At the menu of a list. Waits for a number from 1 to 5: show the tasks,
    /// rename the list, change its status, add a task, delete the list.
    ViewingList { account: Account, list: String },
    /// Renaming a list. Waits for the new name.
    RenamingList { account: Account, list: String },
    /// Changing the status of a list. Waits for a yes or a no.
    TogglingList { account: Account, list: String },
    /// Adding a task. Waits for its name.
    AddingTask { account: Account, list: String },
    /// Selecting a task. Waits for the number of one of the list's tasks.
    ChoosingTask { account: Account, list: String },
    /// At the menu of a task. Waits for a number from 1 to 3: rename the
    /// task, change its status, delete the task.
    EditingTask { account: Account, list: String, index: usize },
    /// Renaming a task. Waits for the new name.
    RenamingTask { account: Account, list: String, index: usize },
    /// Changing the status of a task. Waits for a yes or a no.
    TogglingTask { account: Account, list: String, index: usize },
    /// The session has ended.
    Terminated,
}

/// One input from the terminal.
#[derive(Debug, PartialEq, Eq)]
pub enum Event {
    /// The answer to a yes-or-no question, or no answer.
    Confirm(Option<bool>),
    /// A number entered at a menu.
    Number(i64),
    /// A line of text.
    Text(String),
    /// A login and a password, for signing in.
    Credentials { login: String, password: String },
    /// A new password and the same again.
    NewPassword { password: String, repeated: String },
}

/// What is to be told to the person at the terminal.
#[derive(Debug, Clone, Copy, PartialEq, Eq, Structural)]
pub enum Notice {
    /// Nothing: the next question follows from the state.
    Proceed,
    /// The input is not of the kind that the state waits for.
    Unexpected,
    /// No answer was given.
    NoChoice,
    /// The number is not on the menu; the valid range is from `lo` to `hi`.
    OutOfRange { lo: i64, hi: i64 },
    /// The number names no item; the valid range is from 1 to `count`.
    NoSuchPosition { count: usize },
    /// Signed in.
    LoggedIn,
    /// Wrong login or password.
    InvalidCredentials,
    /// The login is already taken.
    LoginTaken,
    /// The password and its repetition differ.
    PasswordsDiffer,
    /// The account was created.
    AccountCreated,
    /// The operation failed and was abandoned.
    Failure,
    /// The list was created.
    ListCreated,
    /// The account has no lists to select from.
    NoLists,
    /// The login was changed.
    LoginChanged,
    /// The password was changed.
    PasswordChanged,
    /// The new password is the current one.
    SamePassword,
    /// The account was deleted.
    AccountDeleted,
    /// Leaving.
    Exiting,
    /// The list was renamed.
    ListRenamed,
    /// The status of the list was changed.
    ListStatusChanged,
    /// Nothing was changed.
    Unchanged,
    /// The task was added.
    TaskAdded,
    /// The list was deleted.
    ListDeleted,
    /// The list has no tasks to select from.
    NoTasks,
    /// The task was renamed.
    TaskRenamed,
    /// The status of the task was changed.
    TaskStatusChanged,
    /// The task was deleted.
    TaskDeleted,
}

/// The outcome of a step: what to tell, and what was written to the store.
#[derive(Debug, PartialEq, Eq)]
pub struct Reply {
    pub notice: Notice,
    pub change: Change,
}

/// The phases that a session goes through.
#[derive(Debug, Clone, Copy, PartialEq, Eq, Structural)]
pub enum Phase {
    Anonymous,
    Authenticating,
    Authenticated,
    ViewingList,
    EditingTask,
    Terminated,
}

impl Clone for State {
    fn clone(&self) -> (copy: Self)
        ensures
            copy.phase() == self.phase(),
    {
        match self {
            State::Anonymous => State::Anonymous,
            State::Authenticating => State::Authenticating,
            State::Registering => State::Registering,
            State::ChoosingPassword { login } => State::ChoosingPassword { login: login.clone() },
            State::Authenticated { account } => State::Authenticated { account: account.clone() },
            State::NamingList { account } => State::NamingList { account: account.clone() },
            State::ChoosingList { account } => State::ChoosingList { account: account.clone() },
            State::ChangingLogin { account } => State::ChangingLogin { account: account.clone() },
            State::ChangingPassword { account } => State::ChangingPassword {
                account: account.clone(),
            },
            State::ViewingList { account, list } => State::ViewingList {
                account: account.clone(),
                list: list.clone(),
            },
            State::RenamingList { account, list } => State::RenamingList {
                account: account.clone(),
                list: list.clone(),
            },
            State::TogglingList { account, list } => State::TogglingList {
                account: account.clone(),
                list: list.clone(),
            },
            State::AddingTask { account, list } => State::AddingTask {
                account: account.clone(),
                list: list.clone(),
            },
            State::ChoosingTask { account, list } => State::ChoosingTask {
                account: account.clone(),
                list: list.clone(),
            },
            State::EditingTask { account, list, index } => State::EditingTask {
                account: account.clone(),
                list: list.clone(),
                index: *index,
            },
            State::RenamingTask { account, list, index } => State::RenamingTask {
                account: account.clone(),
                list: list.clone(),
                index: *index,
            },
            State::TogglingTask { account, list, index } => State::TogglingTask {
                account: account.clone(),
                list: list.clone(),
                index: *index,
            },
            State::Terminated => State::Terminated,
        }
    }
}

impl State {
    /// The phase that a state belongs to.
    pub open spec fn phase(self) -> Phase {
        match self {
            State::Anonymous => Phase::Anonymous,
            State::Authenticating => Phase::Authenticating,
            State::Registering => Phase::Authenticating,
            State::ChoosingPassword { .. } => Phase::Authenticating,
            State::Authenticated { .. } => Phase::Authenticated,
            State::NamingList { .. } => Phase::Authenticated,
            State::ChoosingList { .. } => Phase::Authenticated,
            State::ChangingLogin { .. } => Phase::Authenticated,
            State::ChangingPassword { .. } => Phase::Authenticated,
            State::ViewingList { .. } => Phase::ViewingList,
            State::RenamingList { .. } => Phase::ViewingList,
            State::TogglingList { .. } => Phase::ViewingList,
            State::AddingTask { .. } => Phase::ViewingList,
            State::ChoosingTask { .. } => Phase::ViewingList,
            State::EditingTask { .. } => Phase::EditingTask,
            State::RenamingTask { .. } => Phase::EditingTask,
            State::TogglingTask { .. } => Phase::EditingTask,
            State::Terminated => Phase::Terminated,
        }
    }
}

/// Whether the account is a row of the store as the session holds it.
pub open spec fn known(store: StoreView, account: Account) -> bool {
    store.has_account(account.id as int) && store.accounts[store.account_index(account.id as int)]
        == account@
}

/// Whether what a state holds is in the store: its account, the list it
/// works on, and the task it works on.
pub open spec fn fits(store: StoreView, state: State) -> bool {
    match state {
        State::Anonymous => true,
        State::Authenticating => true,
        State::Registering => true,
        State::ChoosingPassword { .. } => true,
        State::Terminated => true,
        State::Authenticated { account } => known(store, account),
        State::NamingList { account } => known(store, account),
        State::ChoosingList { account } => known(store, account),
        State::ChangingLogin { account } => known(store, account),
        State::ChangingPassword { account } => known(store, account),
        State::ViewingList { account, list } => known(store, account) && store.has_list(
            account.id as int,
            list@,
        ),
        State::RenamingList { account, list } => known(store, account) && store.has_list(
            account.id as int,
            list@,
        ),
        State::TogglingList { account, list } => known(store, account) && store.has_list(
            account.id as int,
            list@,
        ),
        State::AddingTask { account, list } => known(store, account) && store.has_list(
            account.id as int,
            list@,
        ),
        State::ChoosingTask { account, list } => known(store, account) && store.has_list(
            account.id as int,
            list@,
        ),
        State::EditingTask { account, list, index } => known(store, account) && store.has_list(
            account.id as int,
            list@,
        ) && index < store.tasks_of(account.id as int, list@).len(),
        State::RenamingTask { account, list, index } => known(store, account) && store.has_list(
            account.id as int,
            list@,
        ) && index < store.tasks_of(account.id as int, list@).len(),
        State::TogglingTask { account, list, index } => known(store, account) && store.has_list(
            account.id as int,
            list@,
        ) && index < store.tasks_of(account.id as int, list@).len(),
    }
}

/// The step leaves the state as it was, writes nothing and tells `notice`.
pub open spec fn stays(pre: State, post: State, reply: Reply, notice: Notice) -> bool {
    post == pre && reply.notice == notice && reply.change is Nothing
}

/// The step leaves the state as it was, writes nothing and tells that the
/// valid numbers are those from 1 to `count`.
pub open spec fn asks_again(pre: State, post: State, reply: Reply, count: int) -> bool {
    &&& post == pre
    &&& reply.change is Nothing
    &&& reply.notice matches Notice::NoSuchPosition { count: stated }
    &&& stated == count
}

/// The step goes to the state `to`, writes nothing and tells `notice`.
pub open spec fn moves(post: State, reply: Reply, to: State, notice: Notice) -> bool {
    post == to && reply.notice == notice && reply.change is Nothing
}

/// The step goes back to the main menu of `account`, tells `notice`, and has
/// written the text `text` to the list `list` of the account.
pub open spec fn wrote(
    post: State,
    reply: Reply,
    account: Account,
    list: String,
    text: Seq<char>,
    notice: Notice,
) -> bool {
    &&& post == State::Authenticated { account }
    &&& reply.notice == notice
    &&& reply.change matches Change::TasksWritten { owner_id, name, tasks }
    &&& owner_id == account.id
    &&& name@ == list@
    &&& tasks@ == text
}

/// From `Anonymous`: yes goes on to signing in, no to registering, and no
/// answer asks again.
pub open spec fn from_anonymous(event: Event, post: State, reply: Reply) -> bool {
    match event {
        Event::Confirm(Some(true)) => moves(post, reply, State::Authenticating, Notice::Proceed),
        Event::Confirm(Some(false)) => moves(post, reply, State::Registering, Notice::Proceed),
        Event::Confirm(None) => stays(State::Anonymous, post, reply, Notice::NoChoice),
        _ => stays(State::Anonymous, post, reply, Notice::Unexpected),
    }
}

/// From `Authenticating`: accepted credentials lead to the main menu of
/// their account; any others are refused in one and the same way and asked
/// for again.
pub open spec fn from_authenticating(
    store: StoreView,
    event: Event,
    post: State,
    reply: Reply,
) -> bool {
    match event {
        Event::Credentials { login, password } => match store.authenticate(login@, password@) {
            Ok(found) => post matches State::Authenticated { account } && account@ == found
                && reply.notice == Notice::LoggedIn && reply.change is Nothing,
            Err(_) => stays(State::Authenticating, post, reply, Notice::InvalidCredentials),
        },
        _ => stays(State::Authenticating, post, reply, Notice::Unexpected),
    }
}

/// From `Registering`: a taken login is asked for again; a free one leads on
/// to the choice of a password.
pub open spec fn from_registering(store: StoreView, event: Event, post: State, reply: Reply) -> bool {
    match event {
        Event::Text(login) => {
            if store.has_login(login@) {
                stays(State::Registering, post, reply, Notice::LoginTaken)
            } else {
                moves(post, reply, State::ChoosingPassword { login }, Notice::Proceed)
            }
        },
        _ => stays(State::Registering, post, reply, Notice::Unexpected),
    }
}

/// From `ChoosingPassword`: a password that differs from its repetition is
/// asked for again, the login staying as it is. Otherwise the account is
/// created and signed in, unless the login was taken meanwhile or hashing
/// the password fails, which leads back to `Anonymous`.
pub open spec fn from_choosing_password(
    store: StoreView,
    login: String,
    event: Event,
    post: State,
    reply: Reply,
) -> bool {
    let pre = State::ChoosingPassword { login };
    match event {
        Event::NewPassword { password, repeated } => {
            if password@ != repeated@ {
                stays(pre, post, reply, Notice::PasswordsDiffer)
            } else if store.has_login(login@) {
                moves(post, reply, State::Anonymous, Notice::Failure)
            } else {
                ||| moves(post, reply, State::Anonymous, Notice::Failure)
                ||| {
                    &&& post matches State::Authenticated { account }
                    &&& reply.notice == Notice::AccountCreated
                    &&& reply.change matches Change::AccountInserted { account: inserted }
                    &&& inserted@ == account@
                    &&& account.id == store.next_id
                    &&& account.login@ == login@
                    &&& opens(password@, account.credential_hash@)
                    &&& store.apply(reply.change).authenticate(login@, password@) == Ok::<
                        AccountView,
                        CredentialError,
                    >(account@)
                }
            }
        },
        _ => stays(pre, post, reply, Notice::Unexpected),
    }
}

/// From the main menu.
pub open spec fn from_authenticated(
    store: StoreView,
    account: Account,
    event: Event,
    post: State,
    reply: Reply,
) -> bool {
    let pre = State::Authenticated { account };
    match event {
        Event::Number(n) => {
            if !within(n as int, 1, 6) {
                stays(pre, post, reply, Notice::OutOfRange { lo: 1, hi: 6 })
            } else if n == 1 {
                moves(post, reply, State::NamingList { account }, Notice::Proceed)
            } else if n == 2 {
                if store.lists_for(account.id as int).len() == 0 {
                    stays(pre, post, reply, Notice::NoLists)
                } else {
                    moves(post, reply, State::ChoosingList { account }, Notice::Proceed)
                }
            } else if n == 3 {
                moves(post, reply, State::ChangingLogin { account }, Notice::Proceed)
            } else if n == 4 {
                moves(post, reply, State::ChangingPassword { account }, Notice::Proceed)
            } else if n == 5 {
                if store.has_account(account.id as int) {
                    &&& post == State::Terminated
                    &&& reply.notice == Notice::AccountDeleted
                    &&& reply.change == (Change::AccountRemoved { account_id: account.id })
                } else {
                    stays(pre, post, reply, Notice::Failure)
                }
            } else {
                moves(post, reply, State::Terminated, Notice::Exiting)
            }
        },
        _ => stays(pre, post, reply, Notice::Unexpected),
    }
}

/// From `NamingList`: the list is created, whatever its name, and the main
/// menu follows.
pub open spec fn from_naming_list(
    store: StoreView,
    account: Account,
    event: Event,
    post: State,
    reply: Reply,
) -> bool {
    let menu = State::Authenticated { account };
    match event {
        Event::Text(name) => {
            if !store.has_account(account.id as int) {
                moves(post, reply, menu, Notice::Failure)
            } else {
                &&& post == menu
                &&& reply.notice == Notice::ListCreated
                &&& reply.change matches Change::ListInserted { owner_id, name: inserted }
                &&& owner_id == account.id
                &&& inserted@ == name@
            }
        },
        _ => stays(State::NamingList { account }, post, reply, Notice::Unexpected),
    }
}

/// From `ChoosingList`: a number that names one of the account's lists
/// leads to the menu of that list; any other number is asked for again.
pub open spec fn from_choosing_list(
    store: StoreView,
    account: Account,
    event: Event,
    post: State,
    reply: Reply,
) -> bool {
    let pre = State::ChoosingList { account };
    let lists = store.lists_for(account.id as int);
    match event {
        Event::Number(n) => {
            if lists.len() == 0 {
                moves(post, reply, State::Authenticated { account }, Notice::NoLists)
            } else {
                match position_of(n as int, lists.len() as int) {
                    None => asks_again(pre, post, reply, lists.len() as int),
                    Some(at) => {
                        &&& post matches State::ViewingList { account: holder, list }
                        &&& holder == account
                        &&& list@ == lists[at].name
                        &&& reply.notice == Notice::Proceed
                        &&& reply.change is Nothing
                    },
                }
            }
        },
        _ => stays(pre, post, reply, Notice::Unexpected),
    }
}

/// From `ChangingLogin`: a taken login is asked for again; otherwise the
/// login is changed and the main menu follows.
pub open spec fn from_changing_login(
    store: StoreView,
    account: Account,
    event: Event,
    post: State,
    reply: Reply,
) -> bool {
    let pre = State::ChangingLogin { account };
    match event {
        Event::Text(login) => {
            if !store.has_account(account.id as int) {
                moves(post, reply, State::Authenticated { account }, Notice::Failure)
            } else if store.has_login(login@) {
                stays(pre, post, reply, Notice::LoginTaken)
            } else {
                &&& post matches State::Authenticated { account: renamed }
                &&& renamed@ == store.with_login(account.id as int, login@).accounts[
                    store.account_index(account.id as int)]
                &&& reply.notice == Notice::LoginChanged
                &&& reply.change matches Change::LoginUpdated { account_id, login: updated }
                &&& account_id == account.id
                &&& updated@ == login@
            }
        },
        _ => stays(pre, post, reply, Notice::Unexpected),
    }
}

/// From `ChangingPassword`: a password that differs from its repetition and
/// one that the stored hash accepts, which is the current one, are asked for
/// again. Otherwise the password is changed, unless hashing it fails; either
/// way the main menu follows.
pub open spec fn from_changing_password(
    store: StoreView,
    account: Account,
    event: Event,
    post: State,
    reply: Reply,
) -> bool {
    let pre = State::ChangingPassword { account };
    let at = store.account_index(account.id as int);
    match event {
        Event::NewPassword { password, repeated } => {
            if password@ != repeated@ {
                stays(pre, post, reply, Notice::PasswordsDiffer)
            } else if !store.has_account(account.id as int) {
                moves(post, reply, State::Authenticated { account }, Notice::Failure)
            } else if opens(password@, store.accounts[at].credential_hash) {
                stays(pre, post, reply, Notice::SamePassword)
            } else {
                ||| moves(post, reply, State::Authenticated { account }, Notice::Failure)
                ||| {
                    &&& post matches State::Authenticated { account: changed }
                    &&& changed@ == (AccountView {
                        credential_hash: changed.credential_hash@,
                        ..store.accounts[at]
                    })
                    &&& opens(password@, changed.credential_hash@)
                    &&& reply.notice == Notice::PasswordChanged
                    &&& reply.change matches Change::HashUpdated { account_id, credential_hash }
                    &&& account_id == account.id
                    &&& credential_hash@ == changed.credential_hash@
                }
            }
        },
        _ => stays(pre, post, reply, Notice::Unexpected),
    }
}

/// From the menu of a list.
pub open spec fn from_viewing_list(
    store: StoreView,
    account: Account,
    list: String,
    event: Event,
    post: State,
    reply: Reply,
) -> bool {
    let pre = State::ViewingList { account, list };
    let menu = State::Authenticated { account };
    match event {
        Event::Number(n) => {
            if !within(n as int, 1, 5) {
                stays(pre, post, reply, Notice::OutOfRange { lo: 1, hi: 5 })
            } else if n == 1 {
                if !store.has_list(account.id as int, list@) {
                    moves(post, reply, menu, Notice::Failure)
                } else if store.tasks_of(account.id as int, list@).len() == 0 {
                    moves(post, reply, menu, Notice::NoTasks)
                } else {
                    moves(post, reply, State::ChoosingTask { account, list }, Notice::Proceed)
                }
            } else if n == 2 {
                moves(post, reply, State::RenamingList { account, list }, Notice::Proceed)
            } else if n == 3 {
                moves(post, reply, State::TogglingList { account, list }, Notice::Proceed)
            } else if n == 4 {
                moves(post, reply, State::AddingTask { account, list }, Notice::Proceed)
            } else {
                if store.has_list(account.id as int, list@) {
                    &&& post == menu
                    &&& reply.notice == Notice::ListDeleted
                    &&& reply.change matches Change::ListRemoved { owner_id, name }
                    &&& owner_id == account.id
                    &&& name@ == list@
                } else {
                    moves(post, reply, menu, Notice::Failure)
                }
            }
        },
        _ => stays(pre, post, reply, Notice::Unexpected),
    }
}

/// From `RenamingList`: the list is renamed, whatever the new name, and the
/// main menu follows.
pub open spec fn from_renaming_list(
    store: StoreView,
    account: Account,
    list: String,
    event: Event,
    post: State,
    reply: Reply,
) -> bool {
    let menu = State::Authenticated { account };
    match event {
        Event::Text(wanted) => {
            if !store.has_list(account.id as int, list@) {
                moves(post, reply, menu, Notice::Failure)
            } else {
                &&& post == menu
                &&& reply.notice == Notice::ListRenamed
                &&& reply.change matches Change::ListRenamed { owner_id, name, new_name }
                &&& owner_id == account.id
                &&& name@ == list@
                &&& new_name@ == wanted@
            }
        },
        _ => stays(State::RenamingList { account, list }, post, reply, Notice::Unexpected),
    }
}

/// From `TogglingList`: a yes flips the flag of the list; any other answer
/// leaves it. Either way the main menu follows.
pub open spec fn from_toggling_list(
    store: StoreView,
    account: Account,
    list: String,
    event: Event,
    post: State,
    reply: Reply,
) -> bool {
    let menu = State::Authenticated { account };
    match event {
        Event::Confirm(Some(true)) => {
            if !store.has_list(account.id as int, list@) {
                moves(post, reply, menu, Notice::Failure)
            } else {
                &&& post == menu
                &&& reply.notice == Notice::ListStatusChanged
                &&& reply.change matches Change::ListDoneSet { owner_id, name, done }
                &&& owner_id == account.id
                &&& name@ == list@
                &&& done == !store.list_named(account.id as int, list@).done
            }
        },
        Event::Confirm(_) => moves(post, reply, menu, Notice::Unchanged),
        _ => stays(State::TogglingList { account, list }, post, reply, Notice::Unexpected),
    }
}

/// From `AddingTask`: the task is added at the end of the list, not done,
/// and the main menu follows.
pub open spec fn from_adding_task(
    store: StoreView,
    account: Account,
    list: String,
    event: Event,
    post: State,
    reply: Reply,
) -> bool {
    let menu = State::Authenticated { account };
    match event {
        Event::Text(name) => {
            if !store.has_list(account.id as int, list@) {
                moves(post, reply, menu, Notice::Failure)
            } else {
                wrote(
                    post,
                    reply,
                    account,
                    list,
                    encode_tasks(
                        store.tasks_of(account.id as int, list@).push(
                            TaskView { name: name@, done: false },
                        ),
                    ),
                    Notice::TaskAdded,
                )
            }
        },
        _ => stays(State::AddingTask { account, list }, post, reply, Notice::Unexpected),
    }
}

/// From `ChoosingTask`: a number that names one of the list's tasks leads to
/// the menu of that task; any other number is asked for again.
pub open spec fn from_choosing_task(
    store: StoreView,
    account: Account,
    list: String,
    event: Event,
    post: State,
    reply: Reply,
) -> bool {
    let pre = State::ChoosingTask { account, list };
    let menu = State::Authenticated { account };
    let tasks = store.tasks_of(account.id as int, list@);
    match event {
        Event::Number(n) => {
            if !store.has_list(account.id as int, list@) {
                moves(post, reply, menu, Notice::Failure)
            } else if tasks.len() == 0 {
                moves(post, reply, menu, Notice::NoTasks)
            } else {
                match position_of(n as int, tasks.len() as int) {
                    None => asks_again(pre, post, reply, tasks.len() as int),
                    Some(at) => moves(
                        post,
                        reply,
                        State::EditingTask { account, list, index: at as usize },
                        Notice::Proceed,
                    ),
                }
            }
        },
        _ => stays(pre, post, reply, Notice::Unexpected),
    }
}

/// Whether the list and the task that a task state works on are there.
pub open spec fn task_there(store: StoreView, account: Account, list: String, index: usize) -> bool {
    store.has_list(account.id as int, list@) && index < store.tasks_of(
        account.id as int,
        list@,
    ).len()
}

/// From the menu of a task.
pub open spec fn from_editing_task(
    store: StoreView,
    account: Account,
    list: String,
    index: usize,
    event: Event,
    post: State,
    reply: Reply,
) -> bool {
    let pre = State::EditingTask { account, list, index };
    let tasks = store.tasks_of(account.id as int, list@);
    match event {
        Event::Number(n) => {
            if !within(n as int, 1, 3) {
                stays(pre, post, reply, Notice::OutOfRange { lo: 1, hi: 3 })
            } else if n == 1 {
                moves(post, reply, State::RenamingTask { account, list, index }, Notice::Proceed)
            } else if n == 2 {
                moves(post, reply, State::TogglingTask { account, list, index }, Notice::Proceed)
            } else {
                if task_there(store, account, list, index) {
                    wrote(
                        post,
                        reply,
                        account,
                        list,
                        encode_tasks(tasks.remove(index as int)),
                        Notice::TaskDeleted,
                    )
                } else {
                    moves(post, reply, State::Authenticated { account }, Notice::Failure)
                }
            }
        },
        _ => stays(pre, post, reply, Notice::Unexpected),
    }
}

/// From `RenamingTask`: the task gets the new name and the main menu
/// follows.
pub open spec fn from_renaming_task(
    store: StoreView,
    account: Account,
    list: String,
    index: usize,
    event: Event,
    post: State,
    reply: Reply,
) -> bool {
    let tasks = store.tasks_of(account.id as int, list@);
    match event {
        Event::Text(name) => {
            if task_there(store, account, list, index) {
                wrote(
                    post,
                    reply,
                    account,
                    list,
                    encode_tasks(
                        tasks.update(
                            index as int,
                            TaskView { name: name@, done: tasks[index as int].done },
                        ),
                    ),
                    Notice::TaskRenamed,
                )
            } else {
                moves(post, reply, State::Authenticated { account }, Notice::Failure)
            }
        },
        _ => stays(State::RenamingTask { account, list, index }, post, reply, Notice::Unexpected),
    }
}

/// From `TogglingTask`: a yes flips the flag of the task; any other answer
/// leaves it. Either way the main menu follows.
pub open spec fn from_toggling_task(
    store: StoreView,
    account: Account,
    list: String,
    index: usize,
    event: Event,
    post: State,
    reply: Reply,
) -> bool {
    let tasks = store.tasks_of(account.id as int, list@);
    match event {
        Event::Confirm(Some(true)) => {
            if task_there(store, account, list, index) {
                wrote(
                    post,
                    reply,
                    account,
                    list,
                    encode_tasks(
                        tasks.update(
                            index as int,
                            TaskView {
                                name: tasks[index as int].name,
                                done: !tasks[index as int].done,
                            },
                        ),
                    ),
                    Notice::TaskStatusChanged,
                )
            } else {
                moves(post, reply, State::Authenticated { account }, Notice::Failure)
            }
        },
        Event::Confirm(_) => moves(
            post,
            reply,
            State::Authenticated { account },
            Notice::Unchanged,
        ),
        _ => stays(State::TogglingTask { account, list, index }, post, reply, Notice::Unexpected),
    }
}

/// What a step may do: the store after it is the store before it with the
/// reported change made, and state and notice are those that the state
/// before it prescribes for the input.
pub open spec fn transition(
    store: StoreView,
    pre: State,
    event: Event,
    after: StoreView,
    post: State,
    reply: Reply,
) -> bool {
    &&& after == store.apply(reply.change)
    &&& match pre {
        State::Anonymous => from_anonymous(event, post, reply),
        State::Authenticating => from_authenticating(store, event, post, reply),
        State::Registering => from_registering(store, event, post, reply),
        State::ChoosingPassword { login } => from_choosing_password(
            store,
            login,
            event,
            post,
            reply,
        ),
        State::Authenticated { account } => from_authenticated(store, account, event, post, reply),
        State::NamingList { account } => from_naming_list(store, account, event, post, reply),
        State::ChoosingList { account } => from_choosing_list(store, account, event, post, reply),
        State::ChangingLogin { account } => from_changing_login(store, account, event, post, reply),
        State::ChangingPassword { account } => from_changing_password(
            store,
            account,
            event,
            post,
            reply,
        ),
        State::ViewingList { account, list } => from_viewing_list(
            store,
            account,
            list,
            event,
            post,
            reply,
        ),
        State::RenamingList { account, list } => from_renaming_list(
            store,
            account,
            list,
            event,
            post,
            reply,
        ),
        State::TogglingList { account, list } => from_toggling_list(
            store,
            account,
            list,
            event,
            post,
            reply,
        ),
        State::AddingTask { account, list } => from_adding_task(
            store,
            account,
            list,
            event,
            post,
            reply,
        ),
        State::ChoosingTask { account, list } => from_choosing_task(
            store,
            account,
            list,
            event,
            post,
            reply,
        ),
        State::EditingTask { account, list, index } => from_editing_task(
            store,
            account,
            list,
            index,
            event,
            post,
            reply,
        ),
        State::RenamingTask { account, list, index } => from_renaming_task(
            store,
            account,
            list,
            index,
            event,
            post,
            reply,
        ),
        State::TogglingTask { account, list, index } => from_toggling_task(
            store,
            account,
            list,
            index,
            event,
            post,
            reply,
        ),
        State::Terminated => stays(State::Terminated, post, reply, Notice::Proceed),
    }
}

/// A session: the store and the state that the session is in.
pub struct Session {
    store: Store,
    state: State,
}

/// A step that writes nothing.
fn quiet(store: Store, state: State, notice: Notice) -> (next: (Session, Reply))
    ensures
        next.0.store_view() == store@,
        next.0.current() == state,
        next.1.notice == notice,
        next.1.change is Nothing,
{
    (Session { store, state }, Reply { notice, change: Change::Nothing })
}

/// The step back to the main menu after the text of a list was rewritten.
fn written(
    store: Store,
    account: Account,
    list: String,
    notice: Notice,
    Ghost(before): Ghost<StoreView>,
    Ghost(text): Ghost<Seq<char>>,
) -> (next: (Session, Reply))
    requires
        before.wf(),
        known(before, account),
        before.has_list(account.id as int, list@),
        store@ == before.with_text(account.id as int, list@, text),
    ensures
        next.0.wf(),
        next.0.store_view() == before.apply(next.1.change),
        wrote(next.0.current(), next.1, account, list, text, notice),
{
    proof {
        lemma_text_written(before, account.id as int, list@, text);
    }
    let owner_id = account.id;
    match store.list_row(owner_id, list.as_str()) {
        Some(row) => {
            let change = Change::TasksWritten { owner_id, name: list, tasks: row.tasks };
            (Session { store, state: State::Authenticated { account } }, Reply { notice, change })
        },
        None => {
            assert(false);
            quiet(store, State::Authenticated { account }, notice)
        },
    }
}

fn at_anonymous(store: Store, event: Event) -> (next: (Session, Reply))
    requires
        store.wf(),
    ensures
        next.0.wf(),
        next.0.store_view() == store@.apply(next.1.change),
        from_anonymous(event, next.0.current(), next.1),
{
    match event {
        Event::Confirm(Some(true)) => quiet(store, State::Authenticating, Notice::Proceed),
        Event::Confirm(Some(false)) => quiet(store, State::Registering, Notice::Proceed),
        Event::Confirm(None) => quiet(store, State::Anonymous, Notice::NoChoice),
        _ => quiet(store, State::Anonymous, Notice::Unexpected),
    }
}

fn at_authenticating(store: Store, event: Event) -> (next: (Session, Reply))
    requires
        store.wf(),
    ensures
        next.0.wf(),
        next.0.store_view() == store@.apply(next.1.change),
        from_authenticating(store@, event, next.0.current(), next.1),
{
    match event {
        Event::Credentials { login, password } => {
            match store.authenticate(login.as_str(), password.as_str()) {
                Ok(account) => {
                    proof {
                        let at = store@.login_index(login@);
                        assert(store@.accounts[at].id == account.id);
                        lemma_account_at(store@, at);
                    }
                    quiet(store, State::Authenticated { account }, Notice::LoggedIn)
                },
                Err(_) => quiet(store, State::Authenticating, Notice::InvalidCredentials),
            }
        },
        _ => quiet(store, State::Authenticating, Notice::Unexpected),
    }
}

fn at_registering(store: Store, event: Event) -> (next: (Session, Reply))
    requires
        store.wf(),
    ensures
        next.0.wf(),
        next.0.store_view() == store@.apply(next.1.change),
        from_registering(store@, event, next.0.current(), next.1),
{
    match event {
        Event::Text(login) => {
            if store.login_exists(login.as_str()) {
                quiet(store, State::Registering, Notice::LoginTaken)
            } else {
                quiet(store, State::ChoosingPassword { login }, Notice::Proceed)
            }
        },
        _ => quiet(store, State::Registering, Notice::Unexpected),
    }
}

fn at_choosing_password(store: Store, login: String, event: Event) -> (next: (Session, Reply))
    requires
        store.wf(),
    ensures
        next.0.wf(),
        next.0.store_view() == store@.apply(next.1.change),
        from_choosing_password(store@, login, event, next.0.current(), next.1),
{
    let mut store = store;
    let ghost before = store@;
    match event {
        Event::NewPassword { password, repeated } => {
            if password != repeated {
                return quiet(store, State::ChoosingPassword { login }, Notice::PasswordsDiffer);
            }
            let outcome = store.register(login.as_str(), password.as_str());
            proof {
                if outcome is Ok {
                    let at = before.accounts.len() as int;
                    assert(store@.accounts[at] == outcome->Ok_0@);
                    lemma_account_at(store@, at);
                }
            }
            Session::conclude_registration(store, outcome)
        },
        _ => quiet(store, State::ChoosingPassword { login }, Notice::Unexpected),
    }
}

fn at_authenticated(store: Store, account: Account, event: Event) -> (next: (Session, Reply))
    requires
        store.wf(),
        known(store@, account),
    ensures
        next.0.wf(),
        next.0.store_view() == store@.apply(next.1.change),
        from_authenticated(store@, account, event, next.0.current(), next.1),
{
    let mut store = store;
    match event {
        Event::Number(n) => {
            let choice = match accept(n, 1, 6) {
                None => {
                    return quiet(
                        store,
                        State::Authenticated { account },
                        Notice::OutOfRange { lo: 1, hi: 6 },
                    );
                },
                Some(choice) => choice,
            };
            if choice == 1 {
                quiet(store, State::NamingList { account }, Notice::Proceed)
            } else if choice == 2 {
                let lists = store.lists_for(account.id);
                if lists.len() == 0 {
                    quiet(store, State::Authenticated { account }, Notice::NoLists)
                } else {
                    quiet(store, State::ChoosingList { account }, Notice::Proceed)
                }
            } else if choice == 3 {
                quiet(store, State::ChangingLogin { account }, Notice::Proceed)
            } else if choice == 4 {
                quiet(store, State::ChangingPassword { account }, Notice::Proceed)
            } else if choice == 5 {
                let account_id = account.id;
                match store.delete_account(account_id) {
                    Ok(()) => (
                        Session { store, state: State::Terminated },
                        Reply {
                            notice: Notice::AccountDeleted,
                            change: Change::AccountRemoved { account_id },
                        },
                    ),
                    Err(_) => quiet(store, State::Authenticated { account }, Notice::Failure),
                }
            } else {
                quiet(store, State::Terminated, Notice::Exiting)
            }
        },
        _ => quiet(store, State::Authenticated { account }, Notice::Unexpected),
    }
}

fn at_naming_list(store: Store, account: Account, event: Event) -> (next: (Session, Reply))
    requires
        store.wf(),
        known(store@, account),
    ensures
        next.0.wf(),
        next.0.store_view() == store@.apply(next.1.change),
        from_naming_list(store@, account, event, next.0.current(), next.1),
{
    let mut store = store;
    match event {
        Event::Text(name) => {
            let owner_id = account.id;
            match store.create_list(owner_id, name.as_str()) {
                Ok(()) => (
                    Session { store, state: State::Authenticated { account } },
                    Reply {
                        notice: Notice::ListCreated,
                        change: Change::ListInserted { owner_id, name },
                    },
                ),
                Err(_) => quiet(store, State::Authenticated { account }, Notice::Failure),
            }
        },
        _ => quiet(store, State::NamingList { account }, Notice::Unexpected),
    }
}

fn at_choosing_list(store: Store, account: Account, event: Event) -> (next: (Session, Reply))
    requires
        store.wf(),
        known(store@, account),
    ensures
        next.0.wf(),
        next.0.store_view() == store@.apply(next.1.change),
        from_choosing_list(store@, account, event, next.0.current(), next.1),
{
    match event {
        Event::Number(n) => {
            let lists = store.lists_for(account.id);
            if lists.len() == 0 {
                return quiet(store, State::Authenticated { account }, Notice::NoLists);
            }
            match accept_position(n, lists.len()) {
                None => quiet(
                    store,
                    State::ChoosingList { account },
                    Notice::NoSuchPosition { count: lists.len() },
                ),
                Some(at) => {
                    let list = lists[at].name.clone();
                    proof {
                        lemma_lists_for_are_lists(store@, account.id as int, at as int);
                    }
                    quiet(store, State::ViewingList { account, list }, Notice::Proceed)
                },
            }
        },
        _ => quiet(store, State::ChoosingList { account }, Notice::Unexpected),
    }
}

fn at_changing_login(store: Store, account: Account, event: Event) -> (next: (Session, Reply))
    requires
        store.wf(),
        known(store@, account),
    ensures
        next.0.wf(),
        next.0.store_view() == store@.apply(next.1.change),
        from_changing_login(store@, account, event, next.0.current(), next.1),
{
    let mut store = store;
    let ghost before = store@;
    match event {
        Event::Text(login) => {
            let account_id = account.id;
            match store.rename_login(account_id, login.as_str()) {
                Ok(()) => {
                    let renamed = Account {
                        id: account_id,
                        login: login.clone(),
                        credential_hash: account.credential_hash,
                    };
                    proof {
                        let at = before.account_index(account_id as int);
                        assert(store@.accounts[at] == renamed@);
                        lemma_account_at(store@, at);
                    }
                    (
                        Session { store, state: State::Authenticated { account: renamed } },
                        Reply {
                            notice: Notice::LoginChanged,
                            change: Change::LoginUpdated { account_id, login },
                        },
                    )
                },
                Err(CredentialError::DuplicateLogin) => quiet(
                    store,
                    State::ChangingLogin { account },
                    Notice::LoginTaken,
                ),
                Err(_) => quiet(store, State::Authenticated { account }, Notice::Failure),
            }
        },
        _ => quiet(store, State::ChangingLogin { account }, Notice::Unexpected),
    }
}

fn at_changing_password(store: Store, account: Account, event: Event) -> (next: (
    Session,
    Reply,
))
    requires
        store.wf(),
        known(store@, account),
    ensures
        next.0.wf(),
        next.0.store_view() == store@.apply(next.1.change),
        from_changing_password(store@, account, event, next.0.current(), next.1),
{
    let mut store = store;
    let ghost before = store@;
    match event {
        Event::NewPassword { password, repeated } => {
            if password != repeated {
                return quiet(store, State::ChangingPassword { account }, Notice::PasswordsDiffer);
            }
            let account_id = account.id;
            let outcome = store.change_password(account_id, password.as_str());
            proof {
                let at = before.account_index(account_id as int);
                if outcome is Ok {
                    assert(store@.accounts[at].id == account_id);
                    lemma_account_at(store@, at);
                }
            }
            Session::conclude_password_change(store, account, outcome)
        },
        _ => quiet(store, State::ChangingPassword { account }, Notice::Unexpected),
    }
}

fn at_viewing_list(store: Store, account: Account, list: String, event: Event) -> (next: (
    Session,
    Reply,
))
    requires
        store.wf(),
        known(store@, account),
        store@.has_list(account.id as int, list@),
    ensures
        next.0.wf(),
        next.0.store_view() == store@.apply(next.1.change),
        from_viewing_list(store@, account, list, event, next.0.current(), next.1),
{
    let mut store = store;
    match event {
        Event::Number(n) => {
            let choice = match accept(n, 1, 5) {
                None => {
                    return quiet(
                        store,
                        State::ViewingList { account, list },
                        Notice::OutOfRange { lo: 1, hi: 5 },
                    );
                },
                Some(choice) => choice,
            };
            if choice == 1 {
                match store.read_list(account.id, list.as_str()) {
                    None => quiet(store, State::Authenticated { account }, Notice::Failure),
                    Some(read) => {
                        if read.tasks.len() == 0 {
                            quiet(store, State::Authenticated { account }, Notice::NoTasks)
                        } else {
                            quiet(store, State::ChoosingTask { account, list }, Notice::Proceed)
                        }
                    },
                }
            } else if choice == 2 {
                quiet(store, State::RenamingList { account, list }, Notice::Proceed)
            } else if choice == 3 {
                quiet(store, State::TogglingList { account, list }, Notice::Proceed)
            } else if choice == 4 {
                quiet(store, State::AddingTask { account, list }, Notice::Proceed)
            } else {
                let owner_id = account.id;
                match store.delete_list(owner_id, list.as_str()) {
                    Ok(()) => (
                        Session { store, state: State::Authenticated { account } },
                        Reply {
                            notice: Notice::ListDeleted,
                            change: Change::ListRemoved { owner_id, name: list },
                        },
                    ),
                    Err(_) => quiet(store, State::Authenticated { account }, Notice::Failure),
                }
            }
        },
        _ => quiet(store, State::ViewingList { account, list }, Notice::Unexpected),
    }
}

fn at_renaming_list(store: Store, account: Account, list: String, event: Event) -> (next: (
    Session,
    Reply,
))
    requires
        store.wf(),
        known(store@, account),
        store@.has_list(account.id as int, list@),
    ensures
        next.0.wf(),
        next.0.store_view() == store@.apply(next.1.change),
        from_renaming_list(store@, account, list, event, next.0.current(), next.1),
{
    let mut store = store;
    match event {
        Event::Text(wanted) => {
            let owner_id = account.id;
            match store.rename_list(owner_id, list.as_str(), wanted.as_str()) {
                Ok(()) => (
                    Session { store, state: State::Authenticated { account } },
                    Reply {
                        notice: Notice::ListRenamed,
                        change: Change::ListRenamed { owner_id, name: list, new_name: wanted },
                    },
                ),
                Err(_) => quiet(store, State::Authenticated { account }, Notice::Failure),
            }
        },
        _ => quiet(store, State::RenamingList { account, list }, Notice::Unexpected),
    }
}

fn at_toggling_list(store: Store, account: Account, list: String, event: Event) -> (next: (
    Session,
    Reply,
))
    requires
        store.wf(),
        known(store@, account),
        store@.has_list(account.id as int, list@),
    ensures
        next.0.wf(),
        next.0.store_view() == store@.apply(next.1.change),
        from_toggling_list(store@, account, list, event, next.0.current(), next.1),
{
    let mut store = store;
    match event {
        Event::Confirm(Some(true)) => {
            let owner_id = account.id;
            let done = match store.read_list(owner_id, list.as_str()) {
                None => {
                    return quiet(store, State::Authenticated { account }, Notice::Failure);
                },
                Some(read) => !read.done,
            };
            match store.set_list_done(owner_id, list.as_str(), done) {
                Ok(()) => (
                    Session { store, state: State::Authenticated { account } },
                    Reply {
                        notice: Notice::ListStatusChanged,
                        change: Change::ListDoneSet { owner_id, name: list, done },
                    },
                ),
                Err(_) => quiet(store, State::Authenticated { account }, Notice::Failure),
            }
        },
        Event::Confirm(_) => quiet(store, State::Authenticated { account }, Notice::Unchanged),
        _ => quiet(store, State::TogglingList { account, list }, Notice::Unexpected),
    }
}

fn at_adding_task(store: Store, account: Account, list: String, event: Event) -> (next: (
    Session,
    Reply,
))
    requires
        store.wf(),
        known(store@, account),
        store@.has_list(account.id as int, list@),
    ensures
        next.0.wf(),
        next.0.store_view() == store@.apply(next.1.change),
        from_adding_task(store@, account, list, event, next.0.current(), next.1),
{
    let mut store = store;
    let ghost before = store@;
    match event {
        Event::Text(name) => {
            let task = Task { name, done: false };
            let ghost text = encode_tasks(
                before.tasks_of(account.id as int, list@).push(task@),
            );
            match store.add_task(account.id, list.as_str(), task) {
                Ok(()) => written(
                    store,
                    account,
                    list,
                    Notice::TaskAdded,
                    Ghost(before),
                    Ghost(text),
                ),
                Err(_) => quiet(store, State::Authenticated { account }, Notice::Failure),
            }
        },
        _ => quiet(store, State::AddingTask { account, list }, Notice::Unexpected),
    }
}

fn at_choosing_task(store: Store, account: Account, list: String, event: Event) -> (next: (
    Session,
    Reply,
))
    requires
        store.wf(),
        known(store@, account),
        store@.has_list(account.id as int, list@),
    ensures
        next.0.wf(),
        next.0.store_view() == store@.apply(next.1.change),
        from_choosing_task(store@, account, list, event, next.0.current(), next.1),
{
    match event {
        Event::Number(n) => {
            let read = match store.read_list(account.id, list.as_str()) {
                None => {
                    return quiet(store, State::Authenticated { account }, Notice::Failure);
                },
                Some(read) => read,
            };
            if read.tasks.len() == 0 {
                return quiet(store, State::Authenticated { account }, Notice::NoTasks);
            }
            match accept_position(n, read.tasks.len()) {
                None => quiet(
                    store,
                    State::ChoosingTask { account, list },
                    Notice::NoSuchPosition { count: read.tasks.len() },
                ),
                Some(index) => quiet(
                    store,
                    State::EditingTask { account, list, index },
                    Notice::Proceed,
                ),
            }
        },
        _ => quiet(store, State::ChoosingTask { account, list }, Notice::Unexpected),
    }
}

fn at_editing_task(
    store: Store,
    account: Account,
    list: String,
    index: usize,
    event: Event,
) -> (next: (Session, Reply))
    requires
        store.wf(),
        known(store@, account),
        task_there(store@, account, list, index),
    ensures
        next.0.wf(),
        next.0.store_view() == store@.apply(next.1.change),
        from_editing_task(store@, account, list, index, event, next.0.current(), next.1),
{
    let mut store = store;
    let ghost before = store@;
    match event {
        Event::Number(n) => {
            let choice = match accept(n, 1, 3) {
                None => {
                    return quiet(
                        store,
                        State::EditingTask { account, list, index },
                        Notice::OutOfRange { lo: 1, hi: 3 },
                    );
                },
                Some(choice) => choice,
            };
            if choice == 1 {
                quiet(store, State::RenamingTask { account, list, index }, Notice::Proceed)
            } else if choice == 2 {
                quiet(store, State::TogglingTask { account, list, index }, Notice::Proceed)
            } else {
                let ghost text = encode_tasks(
                    before.tasks_of(account.id as int, list@).remove(index as int),
                );
                match store.remove_task(account.id, list.as_str(), index) {
                    Ok(()) => written(
                        store,
                        account,
                        list,
                        Notice::TaskDeleted,
                        Ghost(before),
                        Ghost(text),
                    ),
                    Err(_) => quiet(store, State::Authenticated { account }, Notice::Failure),
                }
            }
        },
        _ => quiet(store, State::EditingTask { account, list, index }, Notice::Unexpected),
    }
}

fn at_renaming_task(
    store: Store,
    account: Account,
    list: String,
    index: usize,
    event: Event,
) -> (next: (Session, Reply))
    requires
        store.wf(),
        known(store@, account),
        task_there(store@, account, list, index),
    ensures
        next.0.wf(),
        next.0.store_view() == store@.apply(next.1.change),
        from_renaming_task(store@, account, list, index, event, next.0.current(), next.1),
{
    let mut store = store;
    let ghost before = store@;
    match event {
        Event::Text(name) => {
            let ghost tasks = before.tasks_of(account.id as int, list@);
            let ghost text = encode_tasks(
                tasks.update(
                    index as int,
                    TaskView { name: name@, done: tasks[index as int].done },
                ),
            );
            match store.rename_task(account.id, list.as_str(), index, name.as_str()) {
                Ok(()) => written(
                    store,
                    account,
                    list,
                    Notice::TaskRenamed,
                    Ghost(before),
                    Ghost(text),
                ),
                Err(_) => quiet(store, State::Authenticated { account }, Notice::Failure),
            }
        },
        _ => quiet(store, State::RenamingTask { account, list, index }, Notice::Unexpected),
    }
}

fn at_toggling_task(
    store: Store,
    account: Account,
    list: String,
    index: usize,
    event: Event,
) -> (next: (Session, Reply))
    requires
        store.wf(),
        known(store@, account),
        task_there(store@, account, list, index),
    ensures
        next.0.wf(),
        next.0.store_view() == store@.apply(next.1.change),
        from_toggling_task(store@, account, list, index, event, next.0.current(), next.1),
{
    let mut store = store;
    let ghost before = store@;
    match event {
        Event::Confirm(Some(true)) => {
            let ghost tasks = before.tasks_of(account.id as int, list@);
            let ghost text = encode_tasks(
                tasks.update(
                    index as int,
                    TaskView { name: tasks[index as int].name, done: !tasks[index as int].done },
                ),
            );
            match store.toggle_task(account.id, list.as_str(), index) {
                Ok(()) => written(
                    store,
                    account,
                    list,
                    Notice::TaskStatusChanged,
                    Ghost(before),
                    Ghost(text),
                ),
                Err(_) => quiet(store, State::Authenticated { account }, Notice::Failure),
            }
        },
        Event::Confirm(_) => quiet(store, State::Authenticated { account }, Notice::Unchanged),
        _ => quiet(store, State::TogglingTask { account, list, index }, Notice::Unexpected),
    }
}

/// Whether the account is a row of the store as it is given.
fn is_known(store: &Store, account: &Account) -> (yes: bool)
    requires
        store.wf(),
    ensures
        yes == known(store@, *account),
{
    match store.find_account(account.id) {
        None => false,
        Some(row) => row.login == account.login && row.credential_hash
            == account.credential_hash,
    }
}

/// Whether the account is a row of the store and has the list.
fn has_its_list(store: &Store, account: &Account, list: &String) -> (yes: bool)
    requires
        store.wf(),
    ensures
        yes == (known(store@, *account) && store@.has_list(account.id as int, list@)),
{
    is_known(store, account) && store.read_list(account.id, list.as_str()).is_some()
}

/// Whether the account is a row of the store and has the list and the task.
fn has_its_task(store: &Store, account: &Account, list: &String, index: usize) -> (yes: bool)
    requires
        store.wf(),
    ensures
        yes == (known(store@, *account) && task_there(store@, *account, *list, index)),
{
    if !is_known(store, account) {
        return false;
    }
    match store.read_list(account.id, list.as_str()) {
        None => false,
        Some(read) => index < read.tasks.len(),
    }
}

/// Whether the store holds what the state works on.
fn holds(store: &Store, state: &State) -> (yes: bool)
    requires
        store.wf(),
    ensures
        yes == fits(store@, *state),
{
    match state {
        State::Anonymous => true,
        State::Authenticating => true,
        State::Registering => true,
        State::ChoosingPassword { .. } => true,
        State::Terminated => true,
        State::Authenticated { account } => is_known(store, account),
        State::NamingList { account } => is_known(store, account),
        State::ChoosingList { account } => is_known(store, account),
        State::ChangingLogin { account } => is_known(store, account),
        State::ChangingPassword { account } => is_known(store, account),
        State::ViewingList { account, list } => has_its_list(store, account, list),
        State::RenamingList { account, list } => has_its_list(store, account, list),
        State::TogglingList { account, list } => has_its_list(store, account, list),
        State::AddingTask { account, list } => has_its_list(store, account, list),
        State::ChoosingTask { account, list } => has_its_list(store, account, list),
        State::EditingTask { account, list, index } => has_its_task(store, account, list, *index),
        State::RenamingTask { account, list, index } => has_its_task(store, account, list, *index),
        State::TogglingTask { account, list, index } => has_its_task(store, account, list, *index),
    }
}

/// In a well-formed store an account is found by its id where it stands.
proof fn lemma_account_at(store: StoreView, at: int)
    requires
        store.wf(),
        0 <= at < store.accounts.len(),
    ensures
        store.has_account(store.accounts[at].id),
        store.account_index(store.accounts[at].id) == at,
{
    let id = store.accounts[at].id;
    let found = store.account_index(id);
    if found != at {
        assert(store.accounts[found].id == id);
    }
}

impl Session {
    /// The value of the store that the session works on.
    pub closed spec fn store_view(&self) -> StoreView {
        self.store@
    }

    /// The state that the session is in.
    pub closed spec fn current(&self) -> State {
        self.state
    }

    /// Whether the store is well formed and holds what the state works on.
    pub open spec fn wf(&self) -> bool {
        self.store_view().wf() && fits(self.store_view(), self.current())
    }

    /// A session on `store` in which nobody is signed in.
    pub fn new(store: Store) -> (session: Session)
        requires
            store.wf(),
        ensures
            session.wf(),
            session.store_view() == store@,
            session.current() == State::Anonymous,
    {
        Session { store, state: State::Anonymous }
    }

    /// What the outcome of a registration means for the session: the new
    /// account is signed in and reported as inserted, and any failure leads
    /// back to where nobody is signed in.
    pub fn conclude_registration(store: Store, outcome: Result<Account, CredentialError>) -> (next:
        (Session, Reply))
        requires
            store.wf(),
            outcome matches Ok(account) ==> known(store@, account),
        ensures
            next.0.wf(),
            next.0.store_view() == store@,
            match outcome {
                Ok(account) => {
                    &&& next.0.current() == State::Authenticated { account }
                    &&& next.1.notice == Notice::AccountCreated
                    &&& next.1.change matches Change::AccountInserted { account: inserted }
                    &&& inserted@ == account@
                },
                Err(_) => moves(next.0.current(), next.1, State::Anonymous, Notice::Failure),
            },
    {
        match outcome {
            Ok(account) => {
                let inserted = account.clone();
                (
                    Session { store, state: State::Authenticated { account } },
                    Reply {
                        notice: Notice::AccountCreated,
                        change: Change::AccountInserted { account: inserted },
                    },
                )
            },
            Err(_) => quiet(store, State::Anonymous, Notice::Failure),
        }
    }

    /// What the outcome of changing the password of `account` means for the
    /// session: after a change the account is read anew and its hash
    /// reported as updated; the current password is asked for again; any
    /// other failure leads back to the main menu.
    pub fn conclude_password_change(
        store: Store,
        account: Account,
        outcome: Result<(), CredentialError>,
    ) -> (next: (Session, Reply))
        requires
            store.wf(),
            outcome is Ok ==> store@.has_account(account.id as int),
            outcome is Err ==> known(store@, account),
        ensures
            next.0.wf(),
            next.0.store_view() == store@,
            match outcome {
                Ok(_) => {
                    &&& next.0.current() matches State::Authenticated { account: changed }
                    &&& changed@ == store@.accounts[store@.account_index(account.id as int)]
                    &&& next.1.notice == Notice::PasswordChanged
                    &&& next.1.change matches Change::HashUpdated { account_id, credential_hash }
                    &&& account_id == account.id
                    &&& credential_hash@ == changed.credential_hash@
                },
                Err(CredentialError::SameAsCurrent) => stays(
                    State::ChangingPassword { account },
                    next.0.current(),
                    next.1,
                    Notice::SamePassword,
                ),
                Err(_) => moves(
                    next.0.current(),
                    next.1,
                    State::Authenticated { account },
                    Notice::Failure,
                ),
            },
    {
        let account_id = account.id;
        match outcome {
            Ok(()) => {
                match store.find_account(account_id) {
                    Some(changed) => {
                        let credential_hash = changed.credential_hash.clone();
                        (
                            Session { store, state: State::Authenticated { account: changed } },
                            Reply {
                                notice: Notice::PasswordChanged,
                                change: Change::HashUpdated { account_id, credential_hash },
                            },
                        )
                    },
                    None => {
                        assert(false);
                        quiet(store, State::Authenticated { account }, Notice::Failure)
                    },
                }
            },
            Err(CredentialError::SameAsCurrent) => quiet(
                store,
                State::ChangingPassword { account },
                Notice::SamePassword,
            ),
            Err(_) => quiet(store, State::Authenticated { account }, Notice::Failure),
        }
    }

    /// A session on `store` that goes on from `state`, if the store holds
    /// what the state works on, and in which nobody is signed in otherwise.
    ///
    /// This is for taking a session up again on a store that was read anew,
    /// after what a step wrote could not be made durable.
    pub fn resume(store: Store, state: State) -> (session: Session)
        requires
            store.wf(),
        ensures
            session.wf(),
            session.store_view() == store@,
            session.current() == (if fits(store@, state) {
                state
            } else {
                State::Anonymous
            }),
    {
        if holds(&store, &state) {
            Session { store, state }
        } else {
            Session { store, state: State::Anonymous }
        }
    }

    /// The state that the session is in.
    pub fn state(&self) -> (state: &State)
        ensures
            *state == self.current(),
    {
        &self.state
    }

    /// The store that the session works on.
    pub fn store(&self) -> (store: &Store)
        ensures
            store@ == self.store_view(),
    {
        &self.store
    }

    /// Whether the session has ended.
    pub fn is_terminated(&self) -> (ended: bool)
        ensures
            ended == (self.current() is Terminated),
    {
        match &self.state {
            State::Terminated => true,
            _ => false,
        }
    }

    /// Takes one input and gives the session that follows and the reply.
    ///
    /// An input of a kind that the state does not wait for, and a number
    /// outside the bounds of the state's menu, change nothing: the session
    /// stays in its state and the reply says what was wrong.
    pub fn step(self, event: Event) -> (next: (Session, Reply))
        requires
            self.wf(),
        ensures
            next.0.wf(),
            transition(
                self.store_view(),
                self.current(),
                event,
                next.0.store_view(),
                next.0.current(),
                next.1,
            ),
    {
        let Session { store, state } = self;
        match state {
            State::Anonymous => at_anonymous(store, event),
            State::Authenticating => at_authenticating(store, event),
            State::Registering => at_registering(store, event),
            State::ChoosingPassword { login } => at_choosing_password(store, login, event),
            State::Authenticated { account } => at_authenticated(store, account, event),
            State::NamingList { account } => at_naming_list(store, account, event),
            State::ChoosingList { account } => at_choosing_list(store, account, event),
            State::ChangingLogin { account } => at_changing_login(store, account, event),
            State::ChangingPassword { account } => at_changing_password(store, account, event),
            State::ViewingList { account, list } => at_viewing_list(store, account, list, event),
            State::RenamingList { account, list } => at_renaming_list(store, account, list, event),
            State::TogglingList { account, list } => at_toggling_list(store, account, list, event),
            State::AddingTask { account, list } => at_adding_task(store, account, list, event),
            State::ChoosingTask { account, list } => at_choosing_task(store, account, list, event),
            State::EditingTask { account, list, index } => at_editing_task(
                store,
                account,
                list,
                index,
                event,
            ),
            State::RenamingTask { account, list, index } => at_renaming_task(
                store,
                account,
                list,
                index,
                event,
            ),
            State::TogglingTask { account, list, index } => at_toggling_task(
                store,
                account,
                list,
                index,
                event,
            ),
            State::Terminated => quiet(store, State::Terminated, Notice::Proceed),
        }
    }
}

/// The numbers that a state accepts, where it waits for a number: the bounds
/// of its menu, or of the items it lets one select from.
pub open spec fn bounds(store: StoreView, state: State) -> Option<(int, int)> {
    match state {
        State::Authenticated { .. } => Some((1, 6)),
        State::ViewingList { .. } => Some((1, 5)),
        State::EditingTask { .. } => Some((1, 3)),
        State::ChoosingList { account } => Some(
            (1, store.lists_for(account.id as int).len() as int),
        ),
        State::ChoosingTask { account, list } => Some(
            (1, store.tasks_of(account.id as int, list@).len() as int),
        ),
        _ => None,
    }
}

/// Whether a notice states the valid range from `lo` to `hi`.
pub open spec fn states_range(notice: Notice, lo: int, hi: int) -> bool {
    match notice {
        Notice::OutOfRange { lo: low, hi: high } => low == lo && high == hi,
        Notice::NoSuchPosition { count } => lo == 1 && count == hi,
        _ => false,
    }
}

/// A number outside the bounds never advances the session: from a state that
/// has something to select from, the step leaves state and store as they
/// were, writes nothing, and states the valid range, so the number is asked
/// for again.
pub proof fn lemma_out_of_range_stays(
    store: StoreView,
    pre: State,
    n: i64,
    after: StoreView,
    post: State,
    reply: Reply,
)
    requires
        fits(store, pre),
        transition(store, pre, Event::Number(n), after, post, reply),
        bounds(store, pre) is Some,
    ensures
        ({
            let (lo, hi) = bounds(store, pre)->0;
            lo <= hi && !within(n as int, lo, hi) ==> post == pre && after == store
                && reply.change is Nothing && states_range(reply.notice, lo, hi)
        }),
{
}

/// Only a number within the bounds takes a menu state to another state.
pub proof fn lemma_advance_needs_valid_number(
    store: StoreView,
    pre: State,
    event: Event,
    after: StoreView,
    post: State,
    reply: Reply,
)
    requires
        transition(store, pre, event, after, post, reply),
        pre is Authenticated || pre is ViewingList || pre is EditingTask,
        post != pre,
    ensures
        ({
            let (lo, hi) = bounds(store, pre)->0;
            event matches Event::Number(n) && within(n as int, lo, hi)
        }),
{
}

/// A session that has ended stays ended and writes nothing.
pub proof fn lemma_terminated_stays(
    store: StoreView,
    event: Event,
    after: StoreView,
    post: State,
    reply: Reply,
)
    requires
        transition(store, State::Terminated, event, after, post, reply),
    ensures
        post == State::Terminated,
        after == store,
{
}

/// A failed sign-in asks for the credentials again: the session stays in
/// `Authenticating`, whether the login is unknown or the password wrong, and
/// the reply is the same in both cases.
pub proof fn lemma_failed_sign_in_asks_again(
    store: StoreView,
    login: String,
    password: String,
    after: StoreView,
    post: State,
    reply: Reply,
)
    requires
        transition(
            store,
            State::Authenticating,
            Event::Credentials { login, password },
            after,
            post,
            reply,
        ),
    ensures
        store.authenticate(login@, password@) is Err ==> post == State::Authenticating && after
            == store && reply.notice == Notice::InvalidCredentials,
{
}

/// Nobody gets past signing in without credentials that the store accepts,
/// or a registration: the main menu is reached from `Authenticating` only
/// with the account that the store gives for the credentials.
pub proof fn lemma_sign_in_needs_credentials(
    store: StoreView,
    event: Event,
    after: StoreView,
    post: State,
    reply: Reply,
)
    requires
        transition(store, State::Authenticating, event, after, post, reply),
        post != State::Authenticating,
    ensures
        event matches Event::Credentials { login, password } && store.authenticate(
            login@,
            password@,
        ) matches Ok(found) && post matches State::Authenticated { account } && account@ == found,
{
}

/// A step that reports no change leaves the store as it was.
pub proof fn lemma_nothing_written(
    store: StoreView,
    pre: State,
    event: Event,
    after: StoreView,
    post: State,
    reply: Reply,
)
    requires
        transition(store, pre, event, after, post, reply),
        reply.change is Nothing,
    ensures
        after == store,
{
}

} // verus!
