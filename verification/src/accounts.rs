//! The accounts the tool keeps: adding, deleting and looking up, and the form in which
//! they are stored.

use vstd::prelude::*;
use vstd::string::StringExecFns;
use vstd::utf8::encode_utf8;
use crate::obfuscation::{deobfuscate, encodable_len, obfuscate, obfuscated, revealed};
use crate::text::{chars_of, has_non_ws, is_trim_of, lemma_trim_law, string_of, trim, trim_chars};

verus! {

/// An account: its id, its display name and its password.
#[derive(Debug, Clone)]
pub struct Account {
    pub id: String,
    pub name: String,
    pub password: String,
}

/// What an `Account` holds, with its texts as character sequences.
pub struct AccountRecord {
    pub id: Seq<char>,
    pub name: Seq<char>,
    pub password: Seq<char>,
}

impl View for Account {
    type V = AccountRecord;

    open spec fn view(&self) -> AccountRecord {
        AccountRecord { id: self.id@, name: self.name@, password: self.password@ }
    }
}

/// The records of a list of accounts.
pub open spec fn account_records(v: Seq<Account>) -> Seq<AccountRecord> {
    v.map_values(|a: Account| a@)
}

proof fn lemma_account_records_push(v: Seq<Account>, a: Account)
    ensures
        account_records(v.push(a)) == account_records(v).push(a@),
{
    assert(account_records(v.push(a)) =~= account_records(v).push(a@));
}

impl Account {
    /// A copy of this account.
    pub fn duplicate(&self) -> (res: Account)
        ensures
            res@ == self@,
    {
        Account { id: self.id.clone(), name: self.name.clone(), password: self.password.clone() }
    }
}

/// `id` has the form that `Uuid::to_string` gives a version-4 UUID: 36 characters, hyphens
/// at places 8, 13, 18 and 23, lower-case hexadecimal digits elsewhere, the version digit
/// `4` at place 14 and one of `8`, `9`, `a`, `b` at place 19.
pub open spec fn is_uuid_v4_text(id: Seq<char>) -> bool {
    &&& id.len() == 36
    &&& forall|i: int|
        0 <= i < 36 ==> if i == 8 || i == 13 || i == 18 || i == 23 {
            id[i] == '-'
        } else {
            ('0' <= #[trigger] id[i] <= '9') || ('a' <= id[i] <= 'f')
        }
    &&& id[14] == '4'
    &&& (id[19] == '8' || id[19] == '9' || id[19] == 'a' || id[19] == 'b')
}

/// `Uuid::new_v4().to_string()`. Claimed, as the uuid crate's source shows: the text of a
/// random version-4 UUID in hyphenated lower-case form. Which UUID comes out is left
/// open; `new_v4` panics where the system's random source fails, which no argument
/// decides.
#[verifier::external_body]
fn new_account_id() -> (res: String)
    ensures
        is_uuid_v4_text(res@),
{
    uuid::Uuid::new_v4().to_string()
}

/// The accounts with id other than `id`, in their order.
pub open spec fn without_id(s: Seq<AccountRecord>, id: Seq<char>) -> Seq<AccountRecord>
    decreases s.len(),
{
    if s.len() == 0 {
        s
    } else if s.last().id == id {
        without_id(s.drop_last(), id)
    } else {
        without_id(s.drop_last(), id).push(s.last())
    }
}

/// The password of the first account with id `id`.
pub open spec fn password_for(s: Seq<AccountRecord>, id: Seq<char>) -> Option<Seq<char>>
    decreases s.len(),
{
    if s.len() == 0 {
        None
    } else if s[0].id == id {
        Some(s[0].password)
    } else {
        password_for(s.drop_first(), id)
    }
}

/// Some account of `s` has id `id`.
pub open spec fn has_id(s: Seq<AccountRecord>, id: Seq<char>) -> bool {
    exists|i: int| 0 <= i < s.len() && (#[trigger] s[i]).id == id
}

/// An account as it is stored: its password in stored form.
pub open spec fn stored_record(a: AccountRecord) -> AccountRecord {
    AccountRecord { password: obfuscated(a.password), ..a }
}

/// An account as it is read back: its password read from stored form where that
/// succeeds, else kept as it is.
pub open spec fn restored_record(a: AccountRecord) -> AccountRecord {
    match revealed(a.password) {
        Some(p) => AccountRecord { password: p, ..a },
        None => a,
    }
}

pub open spec fn stored_records(s: Seq<AccountRecord>) -> Seq<AccountRecord> {
    s.map_values(|a: AccountRecord| stored_record(a))
}

pub open spec fn restored_records(s: Seq<AccountRecord>) -> Seq<AccountRecord> {
    s.map_values(|a: AccountRecord| restored_record(a))
}

/// Every password of `s` has a stored form whose length fits in memory.
pub open spec fn storable(s: Seq<AccountRecord>) -> bool {
    forall|i: int| 0 <= i < s.len() ==> encodable_len(encode_utf8((#[trigger] s[i]).password).len())
}

/// The state of the tool: its accounts, and the directory of its data file once known.
pub struct AppState {
    accounts: Vec<Account>,
    data_dir: Option<String>,
}

/// What an `AppState` holds.
pub struct AppStateRecord {
    pub accounts: Seq<AccountRecord>,
    pub data_dir: Option<Seq<char>>,
}

impl View for AppState {
    type V = AppStateRecord;

    closed spec fn view(&self) -> AppStateRecord {
        AppStateRecord {
            accounts: account_records(self.accounts@),
            data_dir: match self.data_dir {
                Some(d) => Some(d@),
                None => None,
            },
        }
    }
}


/// `a` and `b` hold the same text.
fn same_text(a: &String, b: &String) -> (res: bool)
    ensures
        res == (a@ == b@),
{
    *a == *b
}

/// The record of the account that adding `name` with `password` under `id` creates.
pub open spec fn new_record(id: Seq<char>, name: Seq<char>, password: Seq<char>) -> AccountRecord {
    AccountRecord { id, name: trim(name), password }
}

/// What adding an account named `name` with `password` under `id` does to `s`: the name,
/// trimmed, must not be empty, nor the password.
pub open spec fn added(s: Seq<AccountRecord>, id: Seq<char>, name: Seq<char>, password: Seq<char>) -> Result<Seq<AccountRecord>, Seq<char>> {
    if trim(name).len() == 0 {
        Err("账户名称不能为空"@)
    } else if password.len() == 0 {
        Err("密码不能为空"@)
    } else {
        Ok(s.push(new_record(id, name, password)))
    }
}

/// `c` separates path components on a platform whose main separator is `sep`: `/` always
/// does, and on Windows (where `sep` is `\`) so does `\`.
pub open spec fn is_path_separator(c: char, sep: char) -> bool {
    c == '/' || c == sep
}

/// `dir` joined with the relative file name `file` on a platform whose main separator is
/// `sep`: `file` follows directly where `dir` is empty or already ends in a separator,
/// else after `sep`.
pub open spec fn joined_path(dir: Seq<char>, file: Seq<char>, sep: char) -> Seq<char> {
    if dir.len() == 0 || is_path_separator(dir.last(), sep) {
        dir + file
    } else {
        dir + seq![sep] + file
    }
}

/// A Windows directory that `PathBuf::push` treats otherwise: a drive alone (`C:`), or a
/// verbatim path (`\\?\...`), which std documents as normalized on a push.
pub open spec fn windows_special_dir(dir: Seq<char>) -> bool {
    ||| dir.len() == 2 && dir[1] == ':'
    ||| dir.len() >= 4 && is_path_separator(dir[0], '\\') && is_path_separator(dir[1], '\\')
        && dir[2] == '?' && is_path_separator(dir[3], '\\')
}

/// `res` is what joining `file` to `dir` gives on a platform whose main separator is `/`
/// (Unix) or `\` (Windows); for the Windows directories that std treats otherwise, nothing
/// is said.
pub open spec fn joined_on_some_platform(dir: Seq<char>, file: Seq<char>, res: Seq<char>) -> bool {
    exists|sep: char|
        (sep == '/' || sep == '\\') && (!(sep == '\\' && windows_special_dir(dir)) ==> res
            == #[trigger] joined_path(dir, file, sep))
}

/// A file name with no separator and no drive prefix.
pub open spec fn plain_file_name(file: Seq<char>) -> bool {
    file.len() > 0 && forall|i: int|
        0 <= i < file.len() ==> #[trigger] file[i] != '/' && file[i] != '\\' && file[i] != ':'
}

/// `Path::join` of the directory `dir` with the relative file name `file`, read back as
/// text (`Path::new` and `to_string_lossy` only convert: both parts come from `&str`, so
/// the text is exact). Claimed, as std documents `PathBuf::push` for a relative path: the
/// result is `dir`, then the platform's main separator unless `dir` is empty or already
/// ends in a separator, then `file`. The platform (Unix, main separator `/`; Windows, `\`)
/// is left open, and so is the result for a Windows drive alone (`C:`) and a verbatim
/// directory (`\\?\...`), which std normalizes.
#[verifier::external_body]
fn join_path(dir: &str, file: &str) -> (res: String)
    requires
        plain_file_name(file@),
    ensures
        joined_on_some_platform(dir@, file@, res@),
{
    std::path::Path::new(dir).join(file).to_string_lossy().into_owned()
}

impl AppState {
    /// The path of the data file, `accounts.json` in the data directory, which must be
    /// known: the directory, the platform's separator unless the directory is empty or
    /// already ends in one, then `accounts.json`.
    pub fn get_data_file(&self) -> (res: String)
        requires
            self@.data_dir is Some,
        ensures
            joined_on_some_platform(self@.data_dir->0, "accounts.json"@, res@),
    {
        proof {
            reveal_strlit("accounts.json");
        }
        match &self.data_dir {
            Some(dir) => join_path(dir.as_str(), "accounts.json"),
            None => String::new(),
        }
    }
}

impl AppState {
    /// A state with no accounts and no data directory yet.
    pub fn new() -> (res: AppState)
        ensures
            res@.accounts == Seq::<AccountRecord>::empty(),
            res@.data_dir is None,
    {
        let res = AppState { accounts: Vec::new(), data_dir: None };
        assert(account_records(res.accounts@) =~= Seq::<AccountRecord>::empty());
        res
    }

    /// The directory of the data file is known.
    pub fn has_data_dir(&self) -> (res: bool)
        ensures
            res == (self@.data_dir is Some),
    {
        self.data_dir.is_some()
    }

    /// Records the directory that holds the data file.
    pub fn set_data_dir(&mut self, dir: String)
        ensures
            final(self)@.accounts == old(self)@.accounts,
            final(self)@.data_dir == Some(dir@),
    {
        self.data_dir = Some(dir);
    }

    /// A copy of the accounts, in order.
    pub fn get_accounts(&self) -> (res: Vec<Account>)
        ensures
            account_records(res@) == self@.accounts,
    {
        let mut res: Vec<Account> = Vec::new();
        let mut i: usize = 0;
        while i < self.accounts.len()
            invariant
                i <= self.accounts@.len(),
                account_records(res@) == account_records(self.accounts@).take(i as int),
            decreases self.accounts@.len() - i,
        {
            let a = self.accounts[i].duplicate();
            proof {
                lemma_account_records_push(res@, a);
                assert(account_records(self.accounts@).take(i + 1) =~= account_records(
                    self.accounts@,
                ).take(i as int).push(a@));
            }
            res.push(a);
            i = i + 1;
        }
        assert(account_records(self.accounts@).take(i as int) =~= account_records(
            self.accounts@,
        ));
        res
    }

    /// Adds an account under the id `id`: its name trimmed, its password as given. An
    /// empty name (after trimming) or an empty password is refused, and nothing changes.
    pub fn add_account_with_id(&mut self, id: String, name: &String, password: String) -> (res:
        Result<(), String>)
        ensures
            final(self)@.data_dir == old(self)@.data_dir,
            match (res, added(old(self)@.accounts, id@, name@, password@)) {
                (Ok(_), Ok(s)) => final(self)@.accounts == s,
                (Err(e), Err(m)) => e@ == m && final(self)@.accounts == old(self)@.accounts,
                _ => false,
            },
    {
        let name_chars = chars_of(name.as_str());
        let trimmed = trim_chars(name_chars.as_slice());
        if trimmed.len() == 0 {
            return Err(String::from_str("账户名称不能为空"));
        }
        if password.as_str().is_empty() {
            return Err(String::from_str("密码不能为空"));
        }
        let account = Account { id, name: string_of(trimmed.as_slice()), password };
        proof {
            lemma_account_records_push(self.accounts@, account);
        }
        self.accounts.push(account);
        Ok(())
    }

    /// Adds an account named `name` with `password` under a fresh random id.
    pub fn add_account(&mut self, name: String, password: String) -> (res: Result<(), String>)
        ensures
            final(self)@.data_dir == old(self)@.data_dir,
            match res {
                Ok(_) => exists|id: Seq<char>|
                    is_uuid_v4_text(id) && #[trigger] added(old(self)@.accounts, id, name@, password@)
                        == Ok::<Seq<AccountRecord>, Seq<char>>(final(self)@.accounts),
                Err(e) => final(self)@.accounts == old(self)@.accounts && added(
                    old(self)@.accounts,
                    Seq::empty(),
                    name@,
                    password@,
                ) == Err::<Seq<AccountRecord>, Seq<char>>(e@),
            },
    {
        let name_chars = chars_of(name.as_str());
        let trimmed = trim_chars(name_chars.as_slice());
        if trimmed.len() == 0 || password.as_str().is_empty() {
            return self.add_account_with_id(String::new(), &name, password);
        }
        let id = new_account_id();
        let ghost id_text = id@;
        let res = self.add_account_with_id(id, &name, password);
        assert(added(old(self)@.accounts, id_text, name@, password@) == Ok::<
            Seq<AccountRecord>,
            Seq<char>,
        >(self@.accounts));
        res
    }

    /// Removes every account with id `id`, keeping the others in order.
    pub fn delete_account(&mut self, id: &String)
        ensures
            final(self)@.accounts == without_id(old(self)@.accounts, id@),
            final(self)@.data_dir == old(self)@.data_dir,
    {
        let mut kept: Vec<Account> = Vec::new();
        let mut i: usize = 0;
        assert(account_records(self.accounts@).take(0) =~= Seq::<AccountRecord>::empty());
        while i < self.accounts.len()
            invariant
                i <= self.accounts@.len(),
                account_records(kept@) == without_id(
                    account_records(self.accounts@).take(i as int),
                    id@,
                ),
            decreases self.accounts@.len() - i,
        {
            let ghost s = account_records(self.accounts@);
            proof {
                assert(s.take(i + 1).drop_last() =~= s.take(i as int));
                assert(s.take(i + 1).last() == self.accounts@[i as int]@);
            }
            if !same_text(&self.accounts[i].id, id) {
                let a = self.accounts[i].duplicate();
                proof {
                    lemma_account_records_push(kept@, a);
                }
                kept.push(a);
            }
            i = i + 1;
        }
        assert(account_records(self.accounts@).take(i as int) =~= account_records(
            self.accounts@,
        ));
        self.accounts = kept;
    }

    /// The password of the first account with id `account_id`; an error where there is none.
    pub fn password_of(&self, account_id: &String) -> (res: Result<String, String>)
        ensures
            match (res, password_for(self@.accounts, account_id@)) {
                (Ok(p), Some(q)) => p@ == q,
                (Err(e), None) => e@ == "账户不存在"@,
                _ => false,
            },
    {
        let ghost s = account_records(self.accounts@);
        let mut i: usize = 0;
        assert(s.skip(0) =~= s);
        while i < self.accounts.len()
            invariant
                i <= self.accounts@.len(),
                s == account_records(self.accounts@),
                password_for(s, account_id@) == password_for(s.skip(i as int), account_id@),
            decreases self.accounts@.len() - i,
        {
            proof {
                assert(s.skip(i as int).drop_first() =~= s.skip(i + 1));
                assert(s.skip(i as int)[0] == self.accounts@[i as int]@);
            }
            if same_text(&self.accounts[i].id, account_id) {
                return Ok(self.accounts[i].password.clone());
            }
            i = i + 1;
        }
        assert(s.skip(i as int) =~= Seq::<AccountRecord>::empty());
        Err(String::from_str("账户不存在"))
    }

    /// The accounts as they are written to the data file: each password in stored form.
    /// Reading them back gives the accounts again.
    pub fn save(&self) -> (res: Vec<Account>)
        requires
            storable(self@.accounts),
        ensures
            account_records(res@) == stored_records(self@.accounts),
            restored_records(account_records(res@)) == self@.accounts,
    {
        let ghost s = account_records(self.accounts@);
        let mut res: Vec<Account> = Vec::new();
        let mut i: usize = 0;
        while i < self.accounts.len()
            invariant
                i <= self.accounts@.len(),
                s == account_records(self.accounts@),
                storable(s),
                account_records(res@) == stored_records(s.take(i as int)),
                restored_records(account_records(res@)) == s.take(i as int),
            decreases self.accounts@.len() - i,
        {
            let a = &self.accounts[i];
            assert(s[i as int] == a@);
            let hidden = obfuscate(a.password.as_str());
            let b = Account { id: a.id.clone(), name: a.name.clone(), password: hidden };
            proof {
                lemma_account_records_push(res@, b);
                assert(stored_records(s.take(i + 1)) =~= stored_records(s.take(i as int)).push(
                    b@,
                ));
                assert(restored_records(account_records(res@).push(b@)) =~= restored_records(
                    account_records(res@),
                ).push(restored_record(b@)));
                assert(s.take(i + 1) =~= s.take(i as int).push(a@));
            }
            res.push(b);
            i = i + 1;
        }
        assert(s.take(i as int) =~= s);
        res
    }

    /// Replaces the accounts by those read from the data file: each password read from
    /// stored form where that succeeds, else kept as it is.
    pub fn load(&mut self, stored: Vec<Account>)
        ensures
            final(self)@.accounts == restored_records(account_records(stored@)),
            final(self)@.data_dir == old(self)@.data_dir,
    {
        let ghost s = account_records(stored@);
        let mut res: Vec<Account> = Vec::new();
        let mut i: usize = 0;
        while i < stored.len()
            invariant
                i <= stored@.len(),
                s == account_records(stored@),
                account_records(res@) == restored_records(s.take(i as int)),
            decreases stored@.len() - i,
        {
            let a = &stored[i];
            assert(s[i as int] == a@);
            let password = match deobfuscate(a.password.as_str()) {
                Ok(p) => p,
                Err(_) => a.password.clone(),
            };
            let b = Account { id: a.id.clone(), name: a.name.clone(), password };
            proof {
                lemma_account_records_push(res@, b);
                assert(restored_records(s.take(i + 1)) =~= restored_records(s.take(i as int)).push(
                    b@,
                ));
            }
            res.push(b);
            i = i + 1;
        }
        assert(s.take(i as int) =~= s);
        self.accounts = res;
    }
}


proof fn lemma_without_absent(s: Seq<AccountRecord>, id: Seq<char>)
    requires
        !has_id(s, id),
    ensures
        without_id(s, id) == s,
    decreases s.len(),
{
    if s.len() > 0 {
        assert(s.last() == s[s.len() - 1]);
        assert(!has_id(s.drop_last(), id)) by {
            if has_id(s.drop_last(), id) {
                let i = choose|i: int| 0 <= i < s.drop_last().len() && (#[trigger] s.drop_last()[i]).id == id;
                assert(s[i] == s.drop_last()[i]);
            }
        }
        lemma_without_absent(s.drop_last(), id);
        assert(s.drop_last().push(s.last()) =~= s);
    }
}

/// Deleting the id of an account just added, when no other account had that id, gives
/// back the accounts as they were before.
pub proof fn lemma_delete_undoes_add(s: Seq<AccountRecord>, a: AccountRecord)
    requires
        !has_id(s, a.id),
    ensures
        without_id(s.push(a), a.id) == s,
{
    assert(s.push(a).drop_last() =~= s);
    lemma_without_absent(s, a.id);
}

/// After an account is added under an id that no account had, looking that id up gives
/// the new account's password.
pub proof fn lemma_lookup_after_add(s: Seq<AccountRecord>, a: AccountRecord)
    requires
        !has_id(s, a.id),
    ensures
        password_for(s.push(a), a.id) == Some(a.password),
    decreases s.len(),
{
    if s.len() == 0 {
        assert(s.push(a)[0] == a);
    } else {
        assert(s.push(a)[0] == s[0]);
        assert(s.push(a).drop_first() =~= s.drop_first().push(a));
        assert(!has_id(s.drop_first(), a.id)) by {
            if has_id(s.drop_first(), a.id) {
                let i = choose|i: int| 0 <= i < s.drop_first().len() && (#[trigger] s.drop_first()[i]).id == a.id;
                assert(s[i + 1] == s.drop_first()[i]);
            }
        }
        lemma_lookup_after_add(s.drop_first(), a);
    }
}

/// Deleting an id leaves no account with that id, keeps every other account, and
/// never lengthens the list.
pub proof fn lemma_delete_removes(s: Seq<AccountRecord>, id: Seq<char>)
    ensures
        !has_id(without_id(s, id), id),
        forall|i: int| 0 <= i < s.len() && s[i].id != id ==> without_id(s, id).contains(#[trigger] s[i]),
        without_id(s, id).len() <= s.len(),
    decreases s.len(),
{
    if s.len() > 0 {
        lemma_delete_removes(s.drop_last(), id);
        let r = without_id(s.drop_last(), id);
        assert forall|i: int| 0 <= i < s.len() && s[i].id != id implies without_id(s, id).contains(
            #[trigger] s[i],
        ) by {
            if i < s.len() - 1 {
                assert(s[i] == s.drop_last()[i]);
                assert(r.contains(s.drop_last()[i]));
                let k = choose|k: int| 0 <= k < r.len() && r[k] == s.drop_last()[i];
                if s.last().id != id {
                    assert(r.push(s.last())[k] == r[k]);
                }
            } else {
                assert(r.push(s.last())[r.len() as int] == s[i]);
            }
        }
        if s.last().id != id {
            assert(!has_id(r.push(s.last()), id)) by {
                if has_id(r.push(s.last()), id) {
                    let i = choose|i: int| 0 <= i < r.push(s.last()).len() && (#[trigger] r.push(s.last())[i]).id == id;
                    if i < r.len() {
                        assert(r.push(s.last())[i] == r[i]);
                    }
                }
            }
        }
    }
}

/// After an id is deleted, looking it up finds no account.
pub proof fn lemma_lookup_after_delete(s: Seq<AccountRecord>, id: Seq<char>)
    ensures
        password_for(without_id(s, id), id) is None,
{
    lemma_delete_removes(s, id);
    lemma_password_for_absent(without_id(s, id), id);
}

proof fn lemma_password_for_absent(s: Seq<AccountRecord>, id: Seq<char>)
    requires
        !has_id(s, id),
    ensures
        password_for(s, id) is None,
    decreases s.len(),
{
    if s.len() > 0 {
        assert(s[0].id != id);
        assert(!has_id(s.drop_first(), id)) by {
            if has_id(s.drop_first(), id) {
                let i = choose|i: int| 0 <= i < s.drop_first().len() && (#[trigger] s.drop_first()[i]).id == id;
                assert(s[i + 1] == s.drop_first()[i]);
            }
        }
        lemma_password_for_absent(s.drop_first(), id);
    }
}


/// Adding an account succeeds exactly when the name holds a character that is not
/// whitespace and the password is not empty. It then appends one account after the
/// others, with the given id and password and the name cut down to its part between
/// leading and trailing whitespace: inner whitespace and every word are kept.
pub proof fn lemma_add_law(s: Seq<AccountRecord>, id: Seq<char>, name: Seq<char>, password: Seq<char>)
    ensures
        added(s, id, name, password) is Ok <==> has_non_ws(name) && password.len() > 0,
        added(s, id, name, password) matches Ok(r) ==> {
            &&& r.len() == s.len() + 1
            &&& r.drop_last() == s
            &&& r.last().id == id
            &&& r.last().password == password
            &&& is_trim_of(r.last().name, name)
        },
{
    lemma_trim_law(name);
    if let Ok(r) = added(s, id, name, password) {
        assert(r.drop_last() =~= s);
    }
}

} // verus!
