//! The accounts and todo-list relations and the operations on them.
//!
//! The store holds two relations. An account row has an id that the store
//! assigns, a login that no other account has, and the hash of a password. A
//! list row belongs to one account and has a name, a completion flag, and the
//! text of its task sequence in a single column (see [`crate::codec`]).
//!
//! A list is named by its owner and its name together. Nothing keeps an owner
//! from having several lists of one name: the pair then names the one that
//! was inserted first, and an operation on the pair works on that row alone.
//! Every edit of a task reads the whole text, changes the sequence and writes
//! the whole text back.
//!
//! An operation that finds no row to work on reports that as a failure and
//! changes nothing.

use crate::codec::{decode, decode_tasks, encode, encode_tasks, lemma_decode_encode};
use crate::credential::{hash_password, opens, password_matches, HASH_LENGTH};
use crate::error::{CredentialError, TodoError};
use crate::task::{
    append_task, remove_task_at, rename_task_at, task_views, toggle_task_at, Task, TaskView,
};
use vstd::prelude::*;

verus! {

/// A registered identity: a row of the accounts relation.
#[derive(Debug, PartialEq, Eq)]
pub struct Account {
    /// The key that the store assigned when the account was created.
    pub id: i64,
    /// The name the account signs in with.
    pub login: String,
    /// The hash of the account's password.
    pub credential_hash: String,
}

/// The mathematical value of an [`Account`].
pub ghost struct AccountView {
    pub id: int,
    pub login: Seq<char>,
    pub credential_hash: Seq<char>,
}

impl View for Account {
    type V = AccountView;

    open spec fn view(&self) -> AccountView {
        AccountView {
            id: self.id as int,
            login: self.login@,
            credential_hash: self.credential_hash@,
        }
    }
}

impl Clone for Account {
    fn clone(&self) -> (copy: Self)
        ensures
            copy@ == self@,
    {
        Account {
            id: self.id,
            login: self.login.clone(),
            credential_hash: self.credential_hash.clone(),
        }
    }
}

/// A row of the todo-list relation, with the task sequence as stored text.
#[derive(Debug, PartialEq, Eq)]
pub struct ListRow {
    /// The id of the account that the list belongs to.
    pub owner_id: i64,
    /// The name of the list.
    pub name: String,
    /// The completion flag of the list as a whole.
    pub done: bool,
    /// The text of the task sequence.
    pub tasks: String,
}

/// The mathematical value of a [`ListRow`].
pub ghost struct ListRowView {
    pub owner_id: int,
    pub name: Seq<char>,
    pub done: bool,
    pub tasks: Seq<char>,
}

impl View for ListRow {
    type V = ListRowView;

    open spec fn view(&self) -> ListRowView {
        ListRowView {
            owner_id: self.owner_id as int,
            name: self.name@,
            done: self.done,
            tasks: self.tasks@,
        }
    }
}

impl Clone for ListRow {
    fn clone(&self) -> (copy: Self)
        ensures
            copy@ == self@,
    {
        ListRow {
            owner_id: self.owner_id,
            name: self.name.clone(),
            done: self.done,
            tasks: self.tasks.clone(),
        }
    }
}

/// A todo list as it is handed to a reader: the row with its tasks decoded.
#[derive(Debug, PartialEq, Eq)]
pub struct TodoList {
    pub name: String,
    pub done: bool,
    pub tasks: Vec<Task>,
}

/// The mathematical value of a [`TodoList`].
pub ghost struct TodoListView {
    pub name: Seq<char>,
    pub done: bool,
    pub tasks: Seq<TaskView>,
}

impl View for TodoList {
    type V = TodoListView;

    open spec fn view(&self) -> TodoListView {
        TodoListView { name: self.name@, done: self.done, tasks: task_views(self.tasks@) }
    }
}

impl ListRowView {
    /// The row as a reader sees it. A text that is not the text of any task
    /// sequence reads as the empty sequence.
    pub open spec fn read(self) -> TodoListView {
        TodoListView { name: self.name, done: self.done, tasks: decode_tasks(self.tasks) }
    }
}

/// The mathematical value of a [`Store`]: its rows in the order in which they
/// were inserted, and the id that the next account will get.
pub ghost struct StoreView {
    pub accounts: Seq<AccountView>,
    pub lists: Seq<ListRowView>,
    pub next_id: int,
}

impl StoreView {
    /// Whether some account has the login.
    pub open spec fn has_login(self, login: Seq<char>) -> bool {
        exists|i: int| 0 <= i < self.accounts.len() && (#[trigger] self.accounts[i]).login == login
    }

    /// The position of the account with the login.
    pub open spec fn login_index(self, login: Seq<char>) -> int {
        choose|i: int| 0 <= i < self.accounts.len() && (#[trigger] self.accounts[i]).login == login
    }

    /// Whether some account has the id.
    pub open spec fn has_account(self, id: int) -> bool {
        exists|i: int| 0 <= i < self.accounts.len() && (#[trigger] self.accounts[i]).id == id
    }

    /// The position of the account with the id.
    pub open spec fn account_index(self, id: int) -> int {
        choose|i: int| 0 <= i < self.accounts.len() && (#[trigger] self.accounts[i]).id == id
    }

    /// Whether the owner has a list of the name.
    pub open spec fn has_list(self, owner_id: int, name: Seq<char>) -> bool {
        exists|k: int|
            0 <= k < self.lists.len() && (#[trigger] self.lists[k]).owner_id == owner_id
                && self.lists[k].name == name
    }

    /// Whether no row before position `k` is a list of the owner with the
    /// name.
    #[verifier::opaque]
    pub open spec fn none_before(self, k: int, owner_id: int, name: Seq<char>) -> bool {
        forall|j: int|
            0 <= j < k ==> !((#[trigger] self.lists[j]).owner_id == owner_id
                && self.lists[j].name == name)
    }

    /// The position of the owner's list of the name: of the first one, in
    /// the order of insertion, where the owner has several of that name.
    pub open spec fn list_index(self, owner_id: int, name: Seq<char>) -> int {
        choose|k: int|
            0 <= k < self.lists.len() && (#[trigger] self.lists[k]).owner_id == owner_id
                && self.lists[k].name == name && self.none_before(k, owner_id, name)
    }

    /// The invariant of the store: ids are below the next id and pairwise
    /// different; no two accounts share a login; every list belongs to an
    /// account.
    pub open spec fn wf(self) -> bool {
        &&& forall|i: int|
            0 <= i < self.accounts.len() ==> (#[trigger] self.accounts[i]).id < self.next_id
        &&& forall|i: int, j: int|
            #![trigger self.accounts[i], self.accounts[j]]
            0 <= i < j < self.accounts.len() ==> self.accounts[i].login != self.accounts[j].login
                && self.accounts[i].id != self.accounts[j].id
        &&& forall|k: int|
            0 <= k < self.lists.len() ==> self.has_account((#[trigger] self.lists[k]).owner_id)
    }

    /// The store with one more account, which gets the next id.
    pub open spec fn with_account(self, login: Seq<char>, credential_hash: Seq<char>) -> StoreView {
        StoreView {
            accounts: self.accounts.push(AccountView { id: self.next_id, login, credential_hash }),
            next_id: self.next_id + 1,
            ..self
        }
    }

    /// What signing in with a login and a password gives: the account with
    /// that login if the password is accepted for its hash, and otherwise the
    /// one failure that does not say which of the two was wrong.
    pub open spec fn authenticate(self, login: Seq<char>, password: Seq<char>) -> Result<
        AccountView,
        CredentialError,
    > {
        if self.has_login(login) && opens(
            password,
            self.accounts[self.login_index(login)].credential_hash,
        ) {
            Ok(self.accounts[self.login_index(login)])
        } else {
            Err(CredentialError::NotFound)
        }
    }

    /// The store with the login of the account `id` replaced.
    pub open spec fn with_login(self, id: int, login: Seq<char>) -> StoreView {
        let at = self.account_index(id);
        StoreView {
            accounts: self.accounts.update(at, AccountView { login, ..self.accounts[at] }),
            ..self
        }
    }

    /// The store with the password hash of the account `id` replaced.
    pub open spec fn with_hash(self, id: int, credential_hash: Seq<char>) -> StoreView {
        let at = self.account_index(id);
        StoreView {
            accounts: self.accounts.update(
                at,
                AccountView { credential_hash, ..self.accounts[at] },
            ),
            ..self
        }
    }

    /// The store without the account `id` and without the lists it owned.
    pub open spec fn without_account(self, id: int) -> StoreView {
        StoreView {
            accounts: self.accounts.remove(self.account_index(id)),
            lists: self.lists.filter(|row: ListRowView| row.owner_id != id),
            ..self
        }
    }

    /// The store with one more list of the owner, empty and not done.
    pub open spec fn with_list(self, owner_id: int, name: Seq<char>) -> StoreView {
        StoreView {
            lists: self.lists.push(
                ListRowView {
                    owner_id,
                    name,
                    done: false,
                    tasks: encode_tasks(Seq::<TaskView>::empty()),
                },
            ),
            ..self
        }
    }

    /// The lists of an owner as a reader sees them, in the order of
    /// insertion.
    pub open spec fn lists_for(self, owner_id: int) -> Seq<TodoListView> {
        self.lists.filter_map(read_if_owned_by(owner_id))
    }

    /// The owner's list of the name as a reader sees it.
    pub open spec fn list_named(self, owner_id: int, name: Seq<char>) -> TodoListView {
        self.lists[self.list_index(owner_id, name)].read()
    }

    /// The tasks of the owner's list of the name.
    pub open spec fn tasks_of(self, owner_id: int, name: Seq<char>) -> Seq<TaskView> {
        self.list_named(owner_id, name).tasks
    }

    /// The position of the owner's list of the name among the lists that
    /// [`StoreView::lists_for`] gives for the owner.
    pub open spec fn rank(self, owner_id: int, name: Seq<char>) -> int {
        self.lists.take(self.list_index(owner_id, name)).filter_map(
            read_if_owned_by(owner_id),
        ).len() as int
    }

    /// The store with the owner's list `name` renamed.
    pub open spec fn with_list_name(
        self,
        owner_id: int,
        name: Seq<char>,
        new_name: Seq<char>,
    ) -> StoreView {
        let at = self.list_index(owner_id, name);
        StoreView {
            lists: self.lists.update(at, ListRowView { name: new_name, ..self.lists[at] }),
            ..self
        }
    }

    /// The store with the flag of the owner's list `name` set.
    pub open spec fn with_list_done(self, owner_id: int, name: Seq<char>, done: bool) -> StoreView {
        let at = self.list_index(owner_id, name);
        StoreView { lists: self.lists.update(at, ListRowView { done, ..self.lists[at] }), ..self }
    }

    /// The store without the owner's list `name`.
    pub open spec fn without_list(self, owner_id: int, name: Seq<char>) -> StoreView {
        StoreView { lists: self.lists.remove(self.list_index(owner_id, name)), ..self }
    }

    /// The store with the text of the owner's list `name` replaced.
    pub open spec fn with_text(self, owner_id: int, name: Seq<char>, text: Seq<char>) -> StoreView {
        let at = self.list_index(owner_id, name);
        StoreView {
            lists: self.lists.update(at, ListRowView { tasks: text, ..self.lists[at] }),
            ..self
        }
    }

    /// The store with the text of the owner's list `name` rewritten to hold
    /// `tasks`.
    pub open spec fn with_tasks(
        self,
        owner_id: int,
        name: Seq<char>,
        tasks: Seq<TaskView>,
    ) -> StoreView {
        self.with_text(owner_id, name, encode_tasks(tasks))
    }

    /// The store with an account row put back as it was stored. The next id
    /// moves past the row's id.
    pub open spec fn with_account_row(self, row: AccountView) -> StoreView {
        StoreView {
            accounts: self.accounts.push(row),
            next_id: if row.id < self.next_id {
                self.next_id
            } else {
                row.id + 1
            },
            ..self
        }
    }

    /// The store with a list row put back as it was stored.
    pub open spec fn with_list_row(self, row: ListRowView) -> StoreView {
        StoreView { lists: self.lists.push(row), ..self }
    }

    /// The store after a change was made to it.
    pub open spec fn apply(self, change: Change) -> StoreView {
        match change {
            Change::Nothing => self,
            Change::AccountInserted { account } => self.with_account(
                account.login@,
                account.credential_hash@,
            ),
            Change::LoginUpdated { account_id, login } => self.with_login(account_id as int, login@),
            Change::HashUpdated { account_id, credential_hash } => self.with_hash(
                account_id as int,
                credential_hash@,
            ),
            Change::AccountRemoved { account_id } => self.without_account(account_id as int),
            Change::ListInserted { owner_id, name } => self.with_list(owner_id as int, name@),
            Change::ListRenamed { owner_id, name, new_name } => self.with_list_name(
                owner_id as int,
                name@,
                new_name@,
            ),
            Change::ListDoneSet { owner_id, name, done } => self.with_list_done(
                owner_id as int,
                name@,
                done,
            ),
            Change::ListRemoved { owner_id, name } => self.without_list(owner_id as int, name@),
            Change::TasksWritten { owner_id, name, tasks } => self.with_text(
                owner_id as int,
                name@,
                tasks@,
            ),
        }
    }
}

/// What an operation did to the stored relations, in the terms in which a
/// durable copy of them is brought up to date.
#[derive(Debug, PartialEq, Eq)]
pub enum Change {
    /// Nothing was written.
    Nothing,
    /// An account row was inserted under the id it carries.
    AccountInserted { account: Account },
    /// The login of an account was replaced.
    LoginUpdated { account_id: i64, login: String },
    /// The password hash of an account was replaced.
    HashUpdated { account_id: i64, credential_hash: String },
    /// An account row and all list rows of that owner were removed.
    AccountRemoved { account_id: i64 },
    /// A list row was inserted, not done and with the text of no tasks.
    ListInserted { owner_id: i64, name: String },
    /// A list row got a new name.
    ListRenamed { owner_id: i64, name: String, new_name: String },
    /// The flag of a list row was set.
    ListDoneSet { owner_id: i64, name: String, done: bool },
    /// A list row was removed.
    ListRemoved { owner_id: i64, name: String },
    /// The task text of a list row was replaced.
    TasksWritten { owner_id: i64, name: String, tasks: String },
}

/// Reads a row that belongs to the owner and passes over any other row.
pub open spec fn read_if_owned_by(owner_id: int) -> spec_fn(ListRowView) -> Option<TodoListView> {
    |row: ListRowView|
        if row.owner_id == owner_id {
            Some(row.read())
        } else {
            None::<TodoListView>
        }
}

/// The values of a sequence of lists, in order.
pub open spec fn list_views(lists: Seq<TodoList>) -> Seq<TodoListView> {
    lists.map_values(|list: TodoList| list@)
}

/// Among the rows up to one that is a list of the owner with the name there
/// is a first such row.
proof fn lemma_first_exists(store: StoreView, owner_id: int, name: Seq<char>, k: int)
    requires
        0 <= k < store.lists.len(),
        store.lists[k].owner_id == owner_id,
        store.lists[k].name == name,
    ensures
        exists|c: int|
            0 <= c < store.lists.len() && (#[trigger] store.lists[c]).owner_id == owner_id
                && store.lists[c].name == name && store.none_before(c, owner_id, name),
    decreases k,
{
    reveal(StoreView::none_before);
    if !store.none_before(k, owner_id, name) {
        let j = choose|j: int|
            0 <= j < k && (#[trigger] store.lists[j]).owner_id == owner_id && store.lists[j].name
                == name;
        lemma_first_exists(store, owner_id, name, j);
    }
}

/// Where the owner has a list of the name, the pair names a row: a list of
/// the owner with the name, before which there is no other.
pub proof fn lemma_first_list(store: StoreView, owner_id: int, name: Seq<char>)
    requires
        store.has_list(owner_id, name),
    ensures
        ({
            let at = store.list_index(owner_id, name);
            &&& 0 <= at < store.lists.len()
            &&& store.lists[at].owner_id == owner_id
            &&& store.lists[at].name == name
            &&& store.none_before(at, owner_id, name)
        }),
{
    let k = choose|k: int|
        0 <= k < store.lists.len() && (#[trigger] store.lists[k]).owner_id == owner_id
            && store.lists[k].name == name;
    lemma_first_exists(store, owner_id, name, k);
}

/// The first list of the owner with the name is where the pair points.
pub proof fn lemma_first_is_named(store: StoreView, owner_id: int, name: Seq<char>, at: int)
    requires
        0 <= at < store.lists.len(),
        store.lists[at].owner_id == owner_id,
        store.lists[at].name == name,
        store.none_before(at, owner_id, name),
    ensures
        store.has_list(owner_id, name),
        store.list_index(owner_id, name) == at,
{
    reveal(StoreView::none_before);
    lemma_first_list(store, owner_id, name);
    let found = store.list_index(owner_id, name);
    if found < at {
        assert(store.lists[found].owner_id == owner_id);
    } else if at < found {
        assert(store.lists[at].owner_id == owner_id);
    }
}

/// The accounts and the todo lists.
pub struct Store {
    accounts: Vec<Account>,
    lists: Vec<ListRow>,
    next_id: i64,
}

impl View for Store {
    type V = StoreView;

    closed spec fn view(&self) -> StoreView {
        StoreView {
            accounts: self.accounts@.map_values(|a: Account| a@),
            lists: self.lists@.map_values(|row: ListRow| row@),
            next_id: self.next_id as int,
        }
    }
}

impl Store {
    /// Whether the store's invariant holds. Every store that this module
    /// hands out is well formed.
    pub open spec fn wf(&self) -> bool {
        self@.wf()
    }

    /// The empty store. The first account will get the id 1.
    pub fn new() -> (store: Store)
        ensures
            store.wf(),
            store@.accounts.len() == 0,
            store@.lists.len() == 0,
            store@.next_id == 1,
    {
        Store { accounts: Vec::new(), lists: Vec::new(), next_id: 1 }
    }

    fn position_of_login(&self, login: &String) -> (found: Option<usize>)
        requires
            self.wf(),
        ensures
            found matches Some(at) ==> self@.has_login(login@) && at == self@.login_index(login@)
                && at < self.accounts.len(),
            found is None ==> !self@.has_login(login@),
    {
        let mut i: usize = 0;
        while i < self.accounts.len()
            invariant
                self.wf(),
                i <= self.accounts.len(),
                forall|j: int| 0 <= j < i ==> (#[trigger] self@.accounts[j]).login != login@,
            decreases self.accounts.len() - i,
        {
            if self.accounts[i].login == *login {
                assert(self@.accounts[i as int].login == login@);
                return Some(i);
            }
            i += 1;
        }
        None
    }

    fn position_of_account(&self, id: i64) -> (found: Option<usize>)
        requires
            self.wf(),
        ensures
            found matches Some(at) ==> self@.has_account(id as int) && at == self@.account_index(
                id as int,
            ) && at < self.accounts.len(),
            found is None ==> !self@.has_account(id as int),
    {
        let mut i: usize = 0;
        while i < self.accounts.len()
            invariant
                self.wf(),
                i <= self.accounts.len(),
                forall|j: int| 0 <= j < i ==> (#[trigger] self@.accounts[j]).id != id,
            decreases self.accounts.len() - i,
        {
            if self.accounts[i].id == id {
                assert(self@.accounts[i as int].id == id);
                return Some(i);
            }
            i += 1;
        }
        None
    }

    /// Whether some account has the login.
    pub fn login_exists(&self, login: &str) -> (exists: bool)
        requires
            self.wf(),
        ensures
            exists == self@.has_login(login@),
    {
        let key = login.to_owned();
        self.position_of_login(&key).is_some()
    }

    /// Creates an account from a login and the outcome of hashing its
    /// password.
    ///
    /// A login that some account already has is refused first, then a failed
    /// hashing, then an exhausted id space; in each case the store stays as it
    /// was. Otherwise the account is inserted under the next id and returned.
    pub fn register_with_hash(&mut self, login: &str, hashed: Option<String>) -> (result: Result<
        Account,
        CredentialError,
    >)
        requires
            old(self).wf(),
        ensures
            final(self).wf(),
            old(self)@.has_login(login@) ==> result == Err::<Account, CredentialError>(
                CredentialError::DuplicateLogin,
            ),
            !old(self)@.has_login(login@) && hashed is None ==> result == Err::<
                Account,
                CredentialError,
            >(CredentialError::HashingFailed),
            !old(self)@.has_login(login@) && hashed is Some && old(self)@.next_id == i64::MAX
                ==> result == Err::<Account, CredentialError>(CredentialError::IdsExhausted),
            !old(self)@.has_login(login@) && hashed is Some && old(self)@.next_id < i64::MAX
                ==> result is Ok,
            result is Err ==> final(self)@ == old(self)@,
            result matches Ok(account) ==> hashed matches Some(hash) && account@ == (AccountView {
                id: old(self)@.next_id,
                login: login@,
                credential_hash: hash@,
            }) && final(self)@ == old(self)@.with_account(login@, hash@),
    {
        let key = login.to_owned();
        if self.position_of_login(&key).is_some() {
            return Err(CredentialError::DuplicateLogin);
        }
        let hash = match hashed {
            None => {
                return Err(CredentialError::HashingFailed);
            },
            Some(hash) => hash,
        };
        if self.next_id == i64::MAX {
            return Err(CredentialError::IdsExhausted);
        }
        let account = Account { id: self.next_id, login: key, credential_hash: hash };
        let copy = account.clone();
        self.accounts.push(account);
        self.next_id = self.next_id + 1;
        proof {
            let before = old(self)@;
            let after = self@;
            assert(after.accounts =~= before.accounts.push(copy@));
            assert(after.lists =~= before.lists);
            assert forall|k: int| 0 <= k < after.lists.len() implies after.has_account(
                (#[trigger] after.lists[k]).owner_id,
            ) by {
                let owner = before.lists[k].owner_id;
                assert(before.has_account(owner));
                let at = before.account_index(owner);
                assert(after.accounts[at].id == owner);
            }
        }
        Ok(copy)
    }

    /// Creates an account: hashes the password and inserts the account under
    /// the next id.
    ///
    /// A login that some account already has is refused with
    /// `DuplicateLogin` before anything is hashed. Whether hashing succeeds is
    /// the hashing engine's to decide; whenever an account comes back, its
    /// hash accepts the password, so that signing in with the same login and
    /// password gives that account.
    pub fn register(&mut self, login: &str, password: &str) -> (result: Result<
        Account,
        CredentialError,
    >)
        requires
            old(self).wf(),
        ensures
            final(self).wf(),
            old(self)@.has_login(login@) ==> result == Err::<Account, CredentialError>(
                CredentialError::DuplicateLogin,
            ),
            result is Err ==> final(self)@ == old(self)@,
            result matches Err(e) ==> old(self)@.has_login(login@) || e
                == CredentialError::HashingFailed || (e == CredentialError::IdsExhausted && old(
                self,
            )@.next_id == i64::MAX),
            result matches Ok(account) ==> !old(self)@.has_login(login@) && opens(
                password@,
                account.credential_hash@,
            ) && account@ == (AccountView {
                id: old(self)@.next_id,
                login: login@,
                credential_hash: account.credential_hash@,
            }) && final(self)@ == old(self)@.with_account(login@, account.credential_hash@),
            result matches Ok(account) ==> final(self)@.authenticate(login@, password@) == Ok::<
                AccountView,
                CredentialError,
            >(account@),
            result matches Ok(account) ==> account.credential_hash@.len() == HASH_LENGTH && (
            password@.len() != HASH_LENGTH ==> account.credential_hash@ != password@),
    {
        if self.login_exists(login) {
            return Err(CredentialError::DuplicateLogin);
        }
        let hashed = hash_password(password);
        proof {
            if hashed is Some {
                lemma_register_then_authenticate(old(self)@, login@, password@, hashed->0@);
            }
        }
        self.register_with_hash(login, hashed)
    }

    /// What a lookup by login and a password check amount to: the account if
    /// one was found and its password accepted, and otherwise the one failure
    /// that does not say which of the two was wrong.
    pub fn decide_login(found: Option<Account>, accepted: bool) -> (result: Result<
        Account,
        CredentialError,
    >)
        ensures
            result == (if found is Some && accepted {
                Ok::<Account, CredentialError>(found->0)
            } else {
                Err::<Account, CredentialError>(CredentialError::NotFound)
            }),
    {
        match found {
            Some(account) => {
                if accepted {
                    Ok(account)
                } else {
                    Err(CredentialError::NotFound)
                }
            },
            None => Err(CredentialError::NotFound),
        }
    }

    /// The account with the login, if there is one.
    pub fn find_by_login(&self, login: &str) -> (found: Option<Account>)
        requires
            self.wf(),
        ensures
            found is Some == self@.has_login(login@),
            found matches Some(account) ==> account@ == self@.accounts[self@.login_index(login@)],
    {
        let key = login.to_owned();
        match self.position_of_login(&key) {
            Some(at) => Some(self.accounts[at].clone()),
            None => None,
        }
    }

    /// Signs in: looks the login up and checks the password against the hash
    /// of the account found.
    pub fn authenticate(&self, login: &str, password: &str) -> (result: Result<
        Account,
        CredentialError,
    >)
        requires
            self.wf(),
        ensures
            match self@.authenticate(login@, password@) {
                Ok(account) => result matches Ok(found) && found@ == account,
                Err(e) => result == Err::<Account, CredentialError>(e),
            },
    {
        let found = self.find_by_login(login);
        let accepted = match &found {
            Some(account) => password_matches(password, account.credential_hash.as_str()),
            None => false,
        };
        Store::decide_login(found, accepted)
    }

    /// The account with the id, if there is one.
    pub fn find_account(&self, account_id: i64) -> (found: Option<Account>)
        requires
            self.wf(),
        ensures
            found is Some == self@.has_account(account_id as int),
            found matches Some(account) ==> account@ == self@.accounts[self@.account_index(
                account_id as int,
            )],
    {
        match self.position_of_account(account_id) {
            Some(at) => Some(self.accounts[at].clone()),
            None => None,
        }
    }

    /// Gives the account a new login, unless some account, this one
    /// included, already has it.
    pub fn rename_login(&mut self, account_id: i64, new_login: &str) -> (result: Result<
        (),
        CredentialError,
    >)
        requires
            old(self).wf(),
        ensures
            final(self).wf(),
            result == (if !old(self)@.has_account(account_id as int) {
                Err::<(), CredentialError>(CredentialError::NoSuchAccount)
            } else if old(self)@.has_login(new_login@) {
                Err::<(), CredentialError>(CredentialError::DuplicateLogin)
            } else {
                Ok::<(), CredentialError>(())
            }),
            result is Err ==> final(self)@ == old(self)@,
            result is Ok ==> final(self)@ == old(self)@.with_login(account_id as int, new_login@),
    {
        let at = match self.position_of_account(account_id) {
            None => {
                return Err(CredentialError::NoSuchAccount);
            },
            Some(at) => at,
        };
        let key = new_login.to_owned();
        if self.position_of_login(&key).is_some() {
            return Err(CredentialError::DuplicateLogin);
        }
        self.accounts[at].login = key;
        proof {
            let before = old(self)@;
            let after = self@;
            assert(after.accounts =~= before.accounts.update(
                at as int,
                AccountView { login: new_login@, ..before.accounts[at as int] },
            ));
            assert(after.lists =~= before.lists);
            lemma_ids_kept(before, after);
        }
        Ok(())
    }

    /// Replaces the password hash of an account by the outcome of hashing a
    /// new password that is, or is not, the account's current one.
    ///
    /// An unknown id is refused first, then a password that is the current
    /// one, then a failed hashing; in each case the store stays as it was.
    pub fn apply_password_change(
        &mut self,
        account_id: i64,
        same_as_current: bool,
        hashed: Option<String>,
    ) -> (result: Result<(), CredentialError>)
        requires
            old(self).wf(),
        ensures
            final(self).wf(),
            result == (if !old(self)@.has_account(account_id as int) {
                Err::<(), CredentialError>(CredentialError::NoSuchAccount)
            } else if same_as_current {
                Err::<(), CredentialError>(CredentialError::SameAsCurrent)
            } else if hashed is None {
                Err::<(), CredentialError>(CredentialError::HashingFailed)
            } else {
                Ok::<(), CredentialError>(())
            }),
            result is Err ==> final(self)@ == old(self)@,
            result is Ok ==> final(self)@ == old(self)@.with_hash(account_id as int, hashed->0@),
    {
        let at = match self.position_of_account(account_id) {
            None => {
                return Err(CredentialError::NoSuchAccount);
            },
            Some(at) => at,
        };
        if same_as_current {
            return Err(CredentialError::SameAsCurrent);
        }
        let hash = match hashed {
            None => {
                return Err(CredentialError::HashingFailed);
            },
            Some(hash) => hash,
        };
        self.accounts[at].credential_hash = hash;
        proof {
            let before = old(self)@;
            let after = self@;
            assert(after.accounts =~= before.accounts.update(
                at as int,
                AccountView { credential_hash: hash@, ..before.accounts[at as int] },
            ));
            assert(after.lists =~= before.lists);
            lemma_ids_kept(before, after);
        }
        Ok(())
    }

    /// Gives the account a new password.
    ///
    /// The new password is checked against the stored hash: if the hash
    /// accepts it, it is the current password and the change is refused with
    /// `SameAsCurrent`, the stored hash staying as it was. Otherwise the new
    /// password is hashed and the hash stored; whenever that succeeds, the
    /// stored hash accepts the new password.
    pub fn change_password(&mut self, account_id: i64, new_password: &str) -> (result: Result<
        (),
        CredentialError,
    >)
        requires
            old(self).wf(),
        ensures
            final(self).wf(),
            !old(self)@.has_account(account_id as int) ==> result == Err::<(), CredentialError>(
                CredentialError::NoSuchAccount,
            ),
            old(self)@.has_account(account_id as int) && opens(
                new_password@,
                old(self)@.accounts[old(self)@.account_index(account_id as int)].credential_hash,
            ) ==> result == Err::<(), CredentialError>(CredentialError::SameAsCurrent),
            old(self)@.has_account(account_id as int) && !opens(
                new_password@,
                old(self)@.accounts[old(self)@.account_index(account_id as int)].credential_hash,
            ) ==> result is Ok || result == Err::<(), CredentialError>(
                CredentialError::HashingFailed,
            ),
            result is Err ==> final(self)@ == old(self)@,
            result is Ok ==> ({
                let at = old(self)@.account_index(account_id as int);
                let stored = final(self)@.accounts[at].credential_hash;
                &&& old(self)@.has_account(account_id as int)
                &&& !opens(new_password@, old(self)@.accounts[at].credential_hash)
                &&& opens(new_password@, stored)
                &&& final(self)@ == old(self)@.with_hash(account_id as int, stored)
            }),
    {
        let current = match self.find_account(account_id) {
            None => {
                return Err(CredentialError::NoSuchAccount);
            },
            Some(account) => account,
        };
        if password_matches(new_password, current.credential_hash.as_str()) {
            return Err(CredentialError::SameAsCurrent);
        }
        let hashed = hash_password(new_password);
        self.apply_password_change(account_id, false, hashed)
    }

    /// Removes the account and every list that it owns.
    pub fn delete_account(&mut self, account_id: i64) -> (result: Result<(), CredentialError>)
        requires
            old(self).wf(),
        ensures
            final(self).wf(),
            result == (if old(self)@.has_account(account_id as int) {
                Ok::<(), CredentialError>(())
            } else {
                Err::<(), CredentialError>(CredentialError::NoSuchAccount)
            }),
            result is Err ==> final(self)@ == old(self)@,
            result is Ok ==> final(self)@ == old(self)@.without_account(account_id as int),
    {
        let at = match self.position_of_account(account_id) {
            None => {
                return Err(CredentialError::NoSuchAccount);
            },
            Some(at) => at,
        };
        let ghost before = self@;
        let ghost keep = |row: ListRowView| row.owner_id != account_id as int;
        let mut kept: Vec<ListRow> = Vec::new();
        let mut k: usize = 0;
        proof {
            reveal(Seq::filter);
            assert(before.lists.take(0) =~= Seq::<ListRowView>::empty());
        }
        while k < self.lists.len()
            invariant
                k <= self.lists.len(),
                *self == *old(self),
                before == self@,
                keep == |row: ListRowView| row.owner_id != account_id as int,
                kept@.map_values(|row: ListRow| row@) == before.lists.take(k as int).filter(keep),
            decreases self.lists.len() - k,
        {
            proof {
                reveal(Seq::filter);
                assert(before.lists.take(k + 1).drop_last() =~= before.lists.take(k as int));
                assert(before.lists.take(k + 1).last() == before.lists[k as int]);
            }
            if self.lists[k].owner_id != account_id {
                kept.push(self.lists[k].clone());
                assert(kept@.map_values(|row: ListRow| row@) =~= before.lists.take(
                    k as int,
                ).filter(keep).push(before.lists[k as int]));
            }
            k += 1;
        }
        assert(before.lists.take(k as int) =~= before.lists);
        self.lists = kept;
        let _ = self.accounts.remove(at);
        proof {
            let after = self@;
            assert(after.lists =~= before.lists.filter(keep));
            assert(after.accounts =~= before.accounts.remove(at as int));
            assert(after == before.without_account(account_id as int));
            assert forall|i: int| 0 <= i < after.accounts.len() implies (
            #[trigger] after.accounts[i]).id < after.next_id by {
                if i < at {
                    assert(after.accounts[i] == before.accounts[i]);
                } else {
                    assert(after.accounts[i] == before.accounts[i + 1]);
                }
            }
            assert forall|i: int, j: int|
                #![trigger after.accounts[i], after.accounts[j]]
                0 <= i < j < after.accounts.len() implies after.accounts[i].login
                != after.accounts[j].login && after.accounts[i].id != after.accounts[j].id by {
                let i0 = if i < at { i } else { i + 1 };
                let j0 = if j < at { j } else { j + 1 };
                assert(after.accounts[i] == before.accounts[i0]);
                assert(after.accounts[j] == before.accounts[j0]);
            }
            assert forall|r: int| 0 <= r < after.lists.len() implies after.has_account(
                (#[trigger] after.lists[r]).owner_id,
            ) by {
                let row = after.lists[r];
                assert(before.lists.filter(keep).contains(row));
                before.lists.lemma_filter_contains_rev(keep, row);
                before.lists.lemma_filter_pred(keep, r);
                let m = choose|m: int| 0 <= m < before.lists.len() && before.lists[m] == row;
                assert(before.has_account(before.lists[m].owner_id));
                let c = before.account_index(row.owner_id);
                assert(before.accounts[c].id == row.owner_id);
                assert(c != at);
                let c1 = if c < at { c } else { c - 1 };
                assert(after.accounts[c1] == before.accounts[c]);
            }
        }
        Ok(())
    }

    /// Puts back an account row that was stored earlier, under the id it
    /// carries.
    ///
    /// A row whose id or login some account already has is refused, and so is
    /// the one id after which no further id could be assigned.
    pub fn restore_account(&mut self, row: Account) -> (result: Result<(), CredentialError>)
        requires
            old(self).wf(),
        ensures
            final(self).wf(),
            result == (if old(self)@.has_account(row.id as int) {
                Err::<(), CredentialError>(CredentialError::DuplicateId)
            } else if old(self)@.has_login(row.login@) {
                Err::<(), CredentialError>(CredentialError::DuplicateLogin)
            } else if row.id == i64::MAX {
                Err::<(), CredentialError>(CredentialError::IdsExhausted)
            } else {
                Ok::<(), CredentialError>(())
            }),
            result is Err ==> final(self)@ == old(self)@,
            result is Ok ==> final(self)@ == old(self)@.with_account_row(row@),
    {
        if self.position_of_account(row.id).is_some() {
            return Err(CredentialError::DuplicateId);
        }
        if self.position_of_login(&row.login).is_some() {
            return Err(CredentialError::DuplicateLogin);
        }
        if row.id == i64::MAX {
            return Err(CredentialError::IdsExhausted);
        }
        if row.id >= self.next_id {
            self.next_id = row.id + 1;
        }
        let ghost added = row@;
        self.accounts.push(row);
        proof {
            let before = old(self)@;
            let after = self@;
            assert(after.accounts =~= before.accounts.push(added));
            assert(after.lists =~= before.lists);
            assert(after == before.with_account_row(added));
            assert forall|k: int| 0 <= k < after.lists.len() implies after.has_account(
                (#[trigger] after.lists[k]).owner_id,
            ) by {
                let owner = before.lists[k].owner_id;
                assert(before.has_account(owner));
                assert(after.accounts[before.account_index(owner)].id == owner);
            }
        }
        Ok(())
    }

    /// Keeps every id up to and including `id` from being assigned again, so
    /// that an account created later is not taken for one that had the id
    /// before. The one id after which none is left changes nothing.
    pub fn reserve_ids_through(&mut self, id: i64)
        requires
            old(self).wf(),
        ensures
            final(self).wf(),
            final(self)@ == (StoreView {
                next_id: if old(self)@.next_id <= id < i64::MAX {
                    id + 1
                } else {
                    old(self)@.next_id
                },
                ..old(self)@
            }),
    {
        if self.next_id <= id && id < i64::MAX {
            self.next_id = id + 1;
        }
        proof {
            let before = old(self)@;
            let after = self@;
            assert(after.accounts =~= before.accounts);
            assert(after.lists =~= before.lists);
            assert forall|k: int| 0 <= k < after.lists.len() implies after.has_account(
                (#[trigger] after.lists[k]).owner_id,
            ) by {
                assert(before.has_account(before.lists[k].owner_id));
            }
        }
    }

    /// Puts back a list row that was stored earlier, with its text as it is.
    ///
    /// A row of an owner that is no account is refused. The text is not looked
    /// at: one that is not the text of any task sequence will read as no
    /// tasks.
    pub fn restore_list(&mut self, row: ListRow) -> (result: Result<(), TodoError>)
        requires
            old(self).wf(),
        ensures
            final(self).wf(),
            result == (if old(self)@.has_account(row.owner_id as int) {
                Ok::<(), TodoError>(())
            } else {
                Err::<(), TodoError>(TodoError::UnknownOwner)
            }),
            result is Err ==> final(self)@ == old(self)@,
            result is Ok ==> final(self)@ == old(self)@.with_list_row(row@),
    {
        if self.position_of_account(row.owner_id).is_none() {
            return Err(TodoError::UnknownOwner);
        }
        let ghost added = row@;
        self.lists.push(row);
        proof {
            let before = old(self)@;
            let after = self@;
            assert(after.lists =~= before.lists.push(added));
            assert(after.accounts =~= before.accounts);
            assert(after == before.with_list_row(added));
            assert forall|k: int| 0 <= k < after.lists.len() implies after.has_account(
                (#[trigger] after.lists[k]).owner_id,
            ) by {
                if k < before.lists.len() {
                    assert(before.has_account(before.lists[k].owner_id));
                }
            }
        }
        Ok(())
    }

    /// The stored row of the owner's list of the name, if there is one.
    pub fn list_row(&self, owner_id: i64, name: &str) -> (found: Option<ListRow>)
        requires
            self.wf(),
        ensures
            found is Some == self@.has_list(owner_id as int, name@),
            found matches Some(row) ==> row@ == self@.lists[self@.list_index(
                owner_id as int,
                name@,
            )],
    {
        let key = name.to_owned();
        match self.position_of_list(owner_id, &key) {
            None => None,
            Some(at) => Some(self.lists[at].clone()),
        }
    }

    fn position_of_list(&self, owner_id: i64, name: &String) -> (found: Option<usize>)
        requires
            self.wf(),
        ensures
            found matches Some(at) ==> self@.has_list(owner_id as int, name@) && at
                == self@.list_index(owner_id as int, name@) && at < self.lists.len(),
            found is None ==> !self@.has_list(owner_id as int, name@),
    {
        let mut k: usize = 0;
        while k < self.lists.len()
            invariant
                self.wf(),
                k <= self.lists.len(),
                forall|j: int|
                    0 <= j < k ==> !((#[trigger] self@.lists[j]).owner_id == owner_id
                        && self@.lists[j].name == name@),
            decreases self.lists.len() - k,
        {
            if self.lists[k].owner_id == owner_id && self.lists[k].name == *name {
                proof {
                    reveal(StoreView::none_before);
                    lemma_first_is_named(self@, owner_id as int, name@, k as int);
                }
                return Some(k);
            }
            k += 1;
        }
        None
    }

    /// Creates an empty list, not done, for the owner.
    ///
    /// Only an owner that is no account is refused. A name that the owner
    /// already uses gives a further list of that name, which the pair of
    /// owner and name does not reach while the earlier one is there.
    pub fn create_list(&mut self, owner_id: i64, name: &str) -> (result: Result<(), TodoError>)
        requires
            old(self).wf(),
        ensures
            final(self).wf(),
            result == (if old(self)@.has_account(owner_id as int) {
                Ok::<(), TodoError>(())
            } else {
                Err::<(), TodoError>(TodoError::UnknownOwner)
            }),
            result is Err ==> final(self)@ == old(self)@,
            result is Ok ==> final(self)@ == old(self)@.with_list(owner_id as int, name@),
    {
        if self.position_of_account(owner_id).is_none() {
            return Err(TodoError::UnknownOwner);
        }
        let key = name.to_owned();
        let none: Vec<Task> = Vec::new();
        assert(task_views(none@) =~= Seq::<TaskView>::empty());
        let row = ListRow { owner_id, name: key, done: false, tasks: encode(&none) };
        let ghost added = row@;
        self.lists.push(row);
        proof {
            let before = old(self)@;
            let after = self@;
            assert(after.lists =~= before.lists.push(added));
            assert(after.accounts =~= before.accounts);
            assert(after == before.with_list(owner_id as int, name@));
            assert forall|k: int| 0 <= k < after.lists.len() implies after.has_account(
                (#[trigger] after.lists[k]).owner_id,
            ) by {
                if k < before.lists.len() {
                    assert(before.has_account(before.lists[k].owner_id));
                }
            }
        }
        Ok(())
    }

    /// All lists of the owner with their tasks decoded, in the order of
    /// insertion. A row whose text cannot be read is handed out with no
    /// tasks.
    pub fn lists_for(&self, owner_id: i64) -> (lists: Vec<TodoList>)
        requires
            self.wf(),
        ensures
            list_views(lists@) == self@.lists_for(owner_id as int),
    {
        let ghost rows = self@.lists;
        let ghost read = read_if_owned_by(owner_id as int);
        let mut lists: Vec<TodoList> = Vec::new();
        let mut k: usize = 0;
        assert(rows.take(0) =~= Seq::<ListRowView>::empty());
        assert(list_views(lists@) =~= rows.take(0).filter_map(read));
        while k < self.lists.len()
            invariant
                k <= self.lists.len(),
                rows == self@.lists,
                read == read_if_owned_by(owner_id as int),
                list_views(lists@) == rows.take(k as int).filter_map(read),
            decreases self.lists.len() - k,
        {
            proof {
                rows.lemma_filter_map_take_succ(read, k as int);
            }
            if self.lists[k].owner_id == owner_id {
                let row = &self.lists[k];
                let list = TodoList {
                    name: row.name.clone(),
                    done: row.done,
                    tasks: decode(row.tasks.as_str()),
                };
                assert(list@ == rows[k as int].read());
                lists.push(list);
                assert(list_views(lists@) =~= rows.take(k as int).filter_map(read) + seq![
                    rows[k as int].read(),
                ]);
            }
            k += 1;
        }
        assert(rows.take(k as int) =~= rows);
        lists
    }

    /// The owner's list of the name with its tasks decoded, if there is one.
    pub fn read_list(&self, owner_id: i64, name: &str) -> (found: Option<TodoList>)
        requires
            self.wf(),
        ensures
            found is Some == self@.has_list(owner_id as int, name@),
            found matches Some(list) ==> list@ == self@.list_named(owner_id as int, name@),
    {
        let key = name.to_owned();
        match self.position_of_list(owner_id, &key) {
            None => None,
            Some(at) => {
                let row = &self.lists[at];
                Some(
                    TodoList {
                        name: row.name.clone(),
                        done: row.done,
                        tasks: decode(row.tasks.as_str()),
                    },
                )
            },
        }
    }

    /// Renames a list of the owner. Its flag and its tasks stay, and so does
    /// every other row, whatever name it has.
    pub fn rename_list(&mut self, owner_id: i64, name: &str, new_name: &str) -> (result: Result<
        (),
        TodoError,
    >)
        requires
            old(self).wf(),
        ensures
            final(self).wf(),
            result == (if old(self)@.has_list(owner_id as int, name@) {
                Ok::<(), TodoError>(())
            } else {
                Err::<(), TodoError>(TodoError::ListNotFound)
            }),
            result is Err ==> final(self)@ == old(self)@,
            result is Ok ==> final(self)@ == old(self)@.with_list_name(
                owner_id as int,
                name@,
                new_name@,
            ),
    {
        let key = name.to_owned();
        let at = match self.position_of_list(owner_id, &key) {
            None => {
                return Err(TodoError::ListNotFound);
            },
            Some(at) => at,
        };
        self.lists[at].name = new_name.to_owned();
        proof {
            let before = old(self)@;
            let after = self@;
            assert(after.lists =~= before.lists.update(
                at as int,
                ListRowView { name: new_name@, ..before.lists[at as int] },
            ));
            assert(after.accounts =~= before.accounts);
            lemma_owners_kept(before, after);
        }
        Ok(())
    }

    /// Sets the completion flag of a list of the owner.
    pub fn set_list_done(&mut self, owner_id: i64, name: &str, done: bool) -> (result: Result<
        (),
        TodoError,
    >)
        requires
            old(self).wf(),
        ensures
            final(self).wf(),
            result == (if old(self)@.has_list(owner_id as int, name@) {
                Ok::<(), TodoError>(())
            } else {
                Err::<(), TodoError>(TodoError::ListNotFound)
            }),
            result is Err ==> final(self)@ == old(self)@,
            result is Ok ==> final(self)@ == old(self)@.with_list_done(
                owner_id as int,
                name@,
                done,
            ),
    {
        let key = name.to_owned();
        let at = match self.position_of_list(owner_id, &key) {
            None => {
                return Err(TodoError::ListNotFound);
            },
            Some(at) => at,
        };
        self.lists[at].done = done;
        proof {
            let before = old(self)@;
            let after = self@;
            assert(after.lists =~= before.lists.update(
                at as int,
                ListRowView { done, ..before.lists[at as int] },
            ));
            assert(after.accounts =~= before.accounts);
            lemma_owners_kept(before, after);
        }
        Ok(())
    }

    /// Removes a list of the owner: one row, and where the owner has several
    /// lists of the name, the first of them.
    pub fn delete_list(&mut self, owner_id: i64, name: &str) -> (result: Result<(), TodoError>)
        requires
            old(self).wf(),
        ensures
            final(self).wf(),
            result == (if old(self)@.has_list(owner_id as int, name@) {
                Ok::<(), TodoError>(())
            } else {
                Err::<(), TodoError>(TodoError::ListNotFound)
            }),
            result is Err ==> final(self)@ == old(self)@,
            result is Ok ==> final(self)@ == old(self)@.without_list(owner_id as int, name@),
            result is Ok ==> final(self)@.lists.len() == old(self)@.lists.len() - 1,
    {
        let key = name.to_owned();
        let at = match self.position_of_list(owner_id, &key) {
            None => {
                return Err(TodoError::ListNotFound);
            },
            Some(at) => at,
        };
        let _ = self.lists.remove(at);
        proof {
            let before = old(self)@;
            let after = self@;
            assert(after.lists =~= before.lists.remove(at as int));
            assert(after.accounts =~= before.accounts);
            assert forall|k: int| 0 <= k < after.lists.len() implies after.has_account(
                (#[trigger] after.lists[k]).owner_id,
            ) by {
                let k0 = if k < at { k } else { k + 1 };
                assert(after.lists[k] == before.lists[k0]);
                assert(before.has_account(before.lists[k0].owner_id));
            }
        }
        Ok(())
    }

    /// Writes the text of `tasks` into the row at `at`.
    fn write_tasks(&mut self, at: usize, tasks: &Vec<Task>)
        requires
            old(self).wf(),
            at < old(self)@.lists.len(),
        ensures
            final(self).wf(),
            final(self)@ == (StoreView {
                lists: old(self)@.lists.update(
                    at as int,
                    ListRowView {
                        tasks: encode_tasks(task_views(tasks@)),
                        ..old(self)@.lists[at as int]
                    },
                ),
                ..old(self)@
            }),
    {
        self.lists[at].tasks = encode(tasks);
        proof {
            let before = old(self)@;
            let after = self@;
            assert(after.lists =~= before.lists.update(
                at as int,
                ListRowView {
                    tasks: encode_tasks(task_views(tasks@)),
                    ..before.lists[at as int]
                },
            ));
            assert(after.accounts =~= before.accounts);
            lemma_owners_kept(before, after);
        }
    }

    /// Appends a task to a list of the owner: reads the stored sequence, adds
    /// the task at its end and writes the whole sequence back.
    pub fn add_task(&mut self, owner_id: i64, list_name: &str, task: Task) -> (result: Result<
        (),
        TodoError,
    >)
        requires
            old(self).wf(),
        ensures
            final(self).wf(),
            result == (if old(self)@.has_list(owner_id as int, list_name@) {
                Ok::<(), TodoError>(())
            } else {
                Err::<(), TodoError>(TodoError::ListNotFound)
            }),
            result is Err ==> final(self)@ == old(self)@,
            result is Ok ==> final(self)@ == old(self)@.with_tasks(
                owner_id as int,
                list_name@,
                old(self)@.tasks_of(owner_id as int, list_name@).push(task@),
            ),
    {
        let key = list_name.to_owned();
        let at = match self.position_of_list(owner_id, &key) {
            None => {
                return Err(TodoError::ListNotFound);
            },
            Some(at) => at,
        };
        let mut tasks = decode(self.lists[at].tasks.as_str());
        append_task(&mut tasks, task);
        self.write_tasks(at, &tasks);
        Ok(())
    }

    /// Renames the task at `index` of a list of the owner: reads the stored
    /// sequence, renames the task and writes the whole sequence back.
    pub fn rename_task(
        &mut self,
        owner_id: i64,
        list_name: &str,
        index: usize,
        new_name: &str,
    ) -> (result: Result<(), TodoError>)
        requires
            old(self).wf(),
        ensures
            final(self).wf(),
            result == (if !old(self)@.has_list(owner_id as int, list_name@) {
                Err::<(), TodoError>(TodoError::ListNotFound)
            } else if index >= old(self)@.tasks_of(owner_id as int, list_name@).len() {
                Err::<(), TodoError>(TodoError::IndexOutOfRange)
            } else {
                Ok::<(), TodoError>(())
            }),
            result is Err ==> final(self)@ == old(self)@,
            result is Ok ==> ({
                let tasks = old(self)@.tasks_of(owner_id as int, list_name@);
                final(self)@ == old(self)@.with_tasks(
                    owner_id as int,
                    list_name@,
                    tasks.update(
                        index as int,
                        TaskView { name: new_name@, done: tasks[index as int].done },
                    ),
                )
            }),
    {
        let key = list_name.to_owned();
        let at = match self.position_of_list(owner_id, &key) {
            None => {
                return Err(TodoError::ListNotFound);
            },
            Some(at) => at,
        };
        let mut tasks = decode(self.lists[at].tasks.as_str());
        let ghost read = task_views(tasks@);
        match rename_task_at(&mut tasks, index, new_name.to_owned()) {
            Err(e) => Err(e),
            Ok(()) => {
                assert(read[index as int].done == old(self)@.tasks_of(
                    owner_id as int,
                    list_name@,
                )[index as int].done);
                self.write_tasks(at, &tasks);
                Ok(())
            },
        }
    }

    /// Flips the flag of the task at `index` of a list of the owner: reads
    /// the stored sequence, flips the flag and writes the whole sequence back.
    pub fn toggle_task(&mut self, owner_id: i64, list_name: &str, index: usize) -> (result: Result<
        (),
        TodoError,
    >)
        requires
            old(self).wf(),
        ensures
            final(self).wf(),
            result == (if !old(self)@.has_list(owner_id as int, list_name@) {
                Err::<(), TodoError>(TodoError::ListNotFound)
            } else if index >= old(self)@.tasks_of(owner_id as int, list_name@).len() {
                Err::<(), TodoError>(TodoError::IndexOutOfRange)
            } else {
                Ok::<(), TodoError>(())
            }),
            result is Err ==> final(self)@ == old(self)@,
            result is Ok ==> ({
                let tasks = old(self)@.tasks_of(owner_id as int, list_name@);
                final(self)@ == old(self)@.with_tasks(
                    owner_id as int,
                    list_name@,
                    tasks.update(
                        index as int,
                        TaskView { name: tasks[index as int].name, done: !tasks[index as int].done },
                    ),
                )
            }),
    {
        let key = list_name.to_owned();
        let at = match self.position_of_list(owner_id, &key) {
            None => {
                return Err(TodoError::ListNotFound);
            },
            Some(at) => at,
        };
        let mut tasks = decode(self.lists[at].tasks.as_str());
        match toggle_task_at(&mut tasks, index) {
            Err(e) => Err(e),
            Ok(()) => {
                self.write_tasks(at, &tasks);
                Ok(())
            },
        }
    }

    /// Removes the task at `index` of a list of the owner: reads the stored
    /// sequence, takes the task out and writes the whole sequence back.
    pub fn remove_task(&mut self, owner_id: i64, list_name: &str, index: usize) -> (result: Result<
        (),
        TodoError,
    >)
        requires
            old(self).wf(),
        ensures
            final(self).wf(),
            result == (if !old(self)@.has_list(owner_id as int, list_name@) {
                Err::<(), TodoError>(TodoError::ListNotFound)
            } else if index >= old(self)@.tasks_of(owner_id as int, list_name@).len() {
                Err::<(), TodoError>(TodoError::IndexOutOfRange)
            } else {
                Ok::<(), TodoError>(())
            }),
            result is Err ==> final(self)@ == old(self)@,
            result is Ok ==> final(self)@ == old(self)@.with_tasks(
                owner_id as int,
                list_name@,
                old(self)@.tasks_of(owner_id as int, list_name@).remove(index as int),
            ),
    {
        let key = list_name.to_owned();
        let at = match self.position_of_list(owner_id, &key) {
            None => {
                return Err(TodoError::ListNotFound);
            },
            Some(at) => at,
        };
        let mut tasks = decode(self.lists[at].tasks.as_str());
        match remove_task_at(&mut tasks, index) {
            Err(e) => Err(e),
            Ok(()) => {
                self.write_tasks(at, &tasks);
                Ok(())
            },
        }
    }
}

/// A store whose accounts stay and whose lists keep their owners stays well
/// formed.
proof fn lemma_owners_kept(before: StoreView, after: StoreView)
    requires
        before.wf(),
        after.accounts == before.accounts,
        after.next_id == before.next_id,
        after.lists.len() == before.lists.len(),
        forall|k: int|
            0 <= k < before.lists.len() ==> (#[trigger] after.lists[k]).owner_id
                == before.lists[k].owner_id,
    ensures
        after.wf(),
{
    assert forall|k: int| 0 <= k < after.lists.len() implies after.has_account(
        (#[trigger] after.lists[k]).owner_id,
    ) by {
        assert(before.has_account(before.lists[k].owner_id));
    }
}

/// A store whose accounts keep their ids keeps the owners of its lists.
proof fn lemma_ids_kept(before: StoreView, after: StoreView)
    requires
        before.accounts.len() == after.accounts.len(),
        forall|i: int|
            0 <= i < before.accounts.len() ==> (#[trigger] after.accounts[i]).id
                == before.accounts[i].id,
    ensures
        forall|id: int| before.has_account(id) ==> after.has_account(id),
{
    assert forall|id: int| before.has_account(id) implies after.has_account(id) by {
        let at = before.account_index(id);
        assert(after.accounts[at].id == id);
    }
}

/// Replacing one row by a row of the same owner replaces, among the lists
/// read for an owner, the reading of that row and nothing else.
proof fn lemma_read_after_update(
    rows: Seq<ListRowView>,
    at: int,
    row: ListRowView,
    owner_id: int,
)
    requires
        0 <= at < rows.len(),
        row.owner_id == rows[at].owner_id,
    ensures
        ({
            let read = read_if_owned_by(owner_id);
            let before = rows.filter_map(read);
            let after = rows.update(at, row).filter_map(read);
            let rank = rows.take(at).filter_map(read).len() as int;
            &&& rows[at].owner_id != owner_id ==> after == before
            &&& rows[at].owner_id == owner_id ==> 0 <= rank < before.len() && before[rank]
                == rows[at].read() && after == before.update(rank, row.read())
        }),
    decreases rows.len(),
{
    let read = read_if_owned_by(owner_id);
    let front = rows.drop_last();
    let changed = rows.update(at, row);
    if at == rows.len() - 1 {
        assert(changed.drop_last() =~= front);
        assert(rows.take(at) =~= front);
        assert(changed.last() == row);
        if rows[at].owner_id == owner_id {
            assert(changed.filter_map(read) =~= rows.filter_map(read).update(
                front.filter_map(read).len() as int,
                row.read(),
            ));
        }
    } else {
        assert(changed.drop_last() =~= front.update(at, row));
        assert(changed.last() == rows.last());
        assert(rows.take(at) =~= front.take(at));
        lemma_read_after_update(front, at, row, owner_id);
        if rows[at].owner_id == owner_id {
            let rank = front.take(at).filter_map(read).len() as int;
            assert(changed.filter_map(read) =~= rows.filter_map(read).update(rank, row.read()));
        }
    }
}

/// Register, then authenticate: an account that was just created signs in
/// with its login and any password that its stored hash accepts, and the
/// account that comes back is the one that was created.
pub proof fn lemma_register_then_authenticate(
    store: StoreView,
    login: Seq<char>,
    password: Seq<char>,
    credential_hash: Seq<char>,
)
    requires
        store.wf(),
        !store.has_login(login),
    ensures
        store.with_account(login, credential_hash).wf(),
        opens(password, credential_hash) ==> store.with_account(
            login,
            credential_hash,
        ).authenticate(login, password) == Ok::<AccountView, CredentialError>(
            AccountView { id: store.next_id, login, credential_hash },
        ),
{
    let after = store.with_account(login, credential_hash);
    let last = store.accounts.len() as int;
    assert(after.accounts[last].login == login);
    assert(after.has_login(login));
    let at = after.login_index(login);
    if at != last {
        assert(store.accounts[at].login == login);
    }
    assert forall|k: int| 0 <= k < after.lists.len() implies after.has_account(
        (#[trigger] after.lists[k]).owner_id,
    ) by {
        let owner = store.lists[k].owner_id;
        assert(store.has_account(owner));
        assert(after.accounts[store.account_index(owner)].id == owner);
    }
}

/// Rewriting the text of a list keeps the store well formed and the list
/// where it is.
pub proof fn lemma_text_written(store: StoreView, owner_id: int, name: Seq<char>, text: Seq<char>)
    requires
        store.wf(),
        store.has_list(owner_id, name),
    ensures
        ({
            let after = store.with_text(owner_id, name, text);
            &&& after.wf()
            &&& after.has_list(owner_id, name)
            &&& after.list_index(owner_id, name) == store.list_index(owner_id, name)
            &&& after.lists[after.list_index(owner_id, name)].tasks == text
        }),
{
    let after = store.with_text(owner_id, name, text);
    let at = store.list_index(owner_id, name);
    reveal(StoreView::none_before);
    lemma_first_list(store, owner_id, name);
    lemma_owners_kept(store, after);
    assert forall|j: int| 0 <= j < at implies !((#[trigger] after.lists[j]).owner_id == owner_id
        && after.lists[j].name == name) by {
        assert(store.lists[j] == after.lists[j]);
    }
    lemma_first_is_named(after, owner_id, name, at);
}

/// Write, then read: after the text of a list is rewritten to hold `tasks`,
/// the list reads back with exactly those tasks, at its old place among the
/// owner's lists and with its name and flag as before; every other list
/// reads as before.
pub proof fn lemma_write_then_read(
    store: StoreView,
    owner_id: int,
    name: Seq<char>,
    tasks: Seq<TaskView>,
)
    requires
        store.wf(),
        store.has_list(owner_id, name),
    ensures
        ({
            let after = store.with_tasks(owner_id, name, tasks);
            let rank = store.rank(owner_id, name);
            let lists = store.lists_for(owner_id);
            &&& after.wf()
            &&& after.has_list(owner_id, name)
            &&& after.tasks_of(owner_id, name) == tasks
            &&& 0 <= rank < lists.len()
            &&& lists[rank] == store.list_named(owner_id, name)
            &&& lists[rank].name == name
            &&& after.lists_for(owner_id) == lists.update(
                rank,
                TodoListView { tasks, ..lists[rank] },
            )
            &&& forall|other: int|
                other != owner_id ==> #[trigger] after.lists_for(other) == store.lists_for(other)
        }),
{
    let after = store.with_tasks(owner_id, name, tasks);
    let at = store.list_index(owner_id, name);
    let row = ListRowView { tasks: encode_tasks(tasks), ..store.lists[at] };
    lemma_first_list(store, owner_id, name);
    lemma_text_written(store, owner_id, name, encode_tasks(tasks));
    lemma_decode_encode(tasks);
    lemma_read_after_update(store.lists, at, row, owner_id);
    assert forall|other: int| other != owner_id implies #[trigger] after.lists_for(other)
        == store.lists_for(other) by {
        lemma_read_after_update(store.lists, at, row, other);
    }
}

/// Add, then read: after a task is added to a list of `n` tasks, the list
/// reads back with `n + 1` tasks, the old ones in their places and the new
/// one last.
pub proof fn lemma_add_task_then_read(
    store: StoreView,
    owner_id: int,
    name: Seq<char>,
    task: TaskView,
)
    requires
        store.wf(),
        store.has_list(owner_id, name),
    ensures
        ({
            let before = store.tasks_of(owner_id, name);
            let after = store.with_tasks(owner_id, name, before.push(task));
            let read = after.lists_for(owner_id)[store.rank(owner_id, name)];
            &&& read.name == name
            &&& read.tasks == after.tasks_of(owner_id, name)
            &&& read.tasks.len() == before.len() + 1
            &&& read.tasks.last() == task
            &&& forall|i: int| 0 <= i < before.len() ==> read.tasks[i] == before[i]
        }),
{
    let before = store.tasks_of(owner_id, name);
    lemma_write_then_read(store, owner_id, name, before.push(task));
}

/// Remove, then read: after the task at `index` is removed from a list of
/// `n` tasks, the list reads back with `n - 1` tasks: those before `index`
/// in their places and those after it moved down by one.
pub proof fn lemma_remove_task_then_read(
    store: StoreView,
    owner_id: int,
    name: Seq<char>,
    index: int,
)
    requires
        store.wf(),
        store.has_list(owner_id, name),
        0 <= index < store.tasks_of(owner_id, name).len(),
    ensures
        ({
            let before = store.tasks_of(owner_id, name);
            let after = store.with_tasks(owner_id, name, before.remove(index));
            let read = after.lists_for(owner_id)[store.rank(owner_id, name)];
            &&& read.name == name
            &&& read.tasks == after.tasks_of(owner_id, name)
            &&& read.tasks.len() == before.len() - 1
            &&& forall|i: int| 0 <= i < index ==> read.tasks[i] == before[i]
            &&& forall|i: int| index <= i < before.len() - 1 ==> read.tasks[i] == before[i + 1]
        }),
{
    let before = store.tasks_of(owner_id, name);
    lemma_write_then_read(store, owner_id, name, before.remove(index));
}

/// Every list read for an owner is a list of that owner.
pub proof fn lemma_lists_for_are_lists(store: StoreView, owner_id: int, at: int)
    requires
        0 <= at < store.lists_for(owner_id).len(),
    ensures
        store.has_list(owner_id, store.lists_for(owner_id)[at].name),
{
    let read = read_if_owned_by(owner_id);
    let list = store.lists_for(owner_id)[at];
    assert(store.lists.filter_map(read).contains(list));
    store.lists.lemma_filter_map_contains(read, list);
    let row = choose|row: ListRowView| #[trigger] store.lists.contains(row) && read(row) == Some(list);
    let k = choose|k: int| 0 <= k < store.lists.len() && store.lists[k] == row;
    assert(store.lists[k].owner_id == owner_id && store.lists[k].name == list.name);
}

} // verus!
