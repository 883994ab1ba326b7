use account_autofill::accounts::{Account, AppState};

fn is_uuid_v4(id: &str) -> bool {
    let b: Vec<char> = id.chars().collect();
    b.len() == 36
        && b.iter().enumerate().all(|(i, c)| {
            if i == 8 || i == 13 || i == 18 || i == 23 {
                *c == '-'
            } else {
                c.is_ascii_digit() || ('a'..='f').contains(c)
            }
        })
        && b[14] == '4'
        && "89ab".contains(b[19])
}

fn account(id: &str, name: &str, password: &str) -> Account {
    Account { id: id.to_string(), name: name.to_string(), password: password.to_string() }
}

#[test]
fn new_state_has_no_accounts() {
    let s = AppState::new();
    assert!(s.get_accounts().is_empty());
}

#[test]
fn add_account_trims_name_and_gives_uuid() {
    let mut s = AppState::new();
    assert_eq!(s.add_account("  GitHub \t".to_string(), "secret".to_string()), Ok(()));
    let accs = s.get_accounts();
    assert_eq!(accs.len(), 1);
    assert_eq!(accs[0].name, "GitHub");
    assert_eq!(accs[0].password, "secret");
    assert!(is_uuid_v4(&accs[0].id));
}

#[test]
fn add_account_ids_differ() {
    let mut s = AppState::new();
    s.add_account("a".to_string(), "1".to_string()).unwrap();
    s.add_account("b".to_string(), "2".to_string()).unwrap();
    let accs = s.get_accounts();
    assert_ne!(accs[0].id, accs[1].id);
    assert_eq!(accs[1].name, "b");
}

#[test]
fn add_account_refuses_blank_name() {
    let mut s = AppState::new();
    assert_eq!(
        s.add_account("   ".to_string(), "secret".to_string()),
        Err("账户名称不能为空".to_string())
    );
    assert_eq!(s.add_account(String::new(), String::new()), Err("账户名称不能为空".to_string()));
    assert!(s.get_accounts().is_empty());
}

#[test]
fn add_account_refuses_empty_password() {
    let mut s = AppState::new();
    assert_eq!(s.add_account("mail".to_string(), String::new()), Err("密码不能为空".to_string()));
    assert!(s.get_accounts().is_empty());
}

#[test]
fn add_account_keeps_password_spaces() {
    let mut s = AppState::new();
    s.add_account_with_id("id1".to_string(), &" x ".to_string(), " pw ".to_string()).unwrap();
    let accs = s.get_accounts();
    assert_eq!(accs[0].id, "id1");
    assert_eq!(accs[0].name, "x");
    assert_eq!(accs[0].password, " pw ");
}

#[test]
fn delete_account_removes_matching_ids_only() {
    let mut s = AppState::new();
    s.add_account_with_id("1".to_string(), &"a".to_string(), "pa".to_string()).unwrap();
    s.add_account_with_id("2".to_string(), &"b".to_string(), "pb".to_string()).unwrap();
    s.add_account_with_id("1".to_string(), &"c".to_string(), "pc".to_string()).unwrap();
    s.delete_account(&"1".to_string());
    let accs = s.get_accounts();
    assert_eq!(accs.len(), 1);
    assert_eq!(accs[0].id, "2");
    assert_eq!(accs[0].name, "b");
}

#[test]
fn delete_of_unknown_id_changes_nothing() {
    let mut s = AppState::new();
    s.add_account_with_id("1".to_string(), &"a".to_string(), "pa".to_string()).unwrap();
    s.delete_account(&"zzz".to_string());
    assert_eq!(s.get_accounts().len(), 1);
}

#[test]
fn delete_undoes_add() {
    let mut s = AppState::new();
    s.add_account_with_id("1".to_string(), &"a".to_string(), "pa".to_string()).unwrap();
    s.add_account_with_id("2".to_string(), &"b".to_string(), "pb".to_string()).unwrap();
    s.delete_account(&"2".to_string());
    let accs = s.get_accounts();
    assert_eq!(accs.len(), 1);
    assert_eq!(accs[0].id, "1");
}

#[test]
fn password_of_finds_first_match() {
    let mut s = AppState::new();
    s.add_account_with_id("1".to_string(), &"a".to_string(), "first".to_string()).unwrap();
    s.add_account_with_id("1".to_string(), &"b".to_string(), "second".to_string()).unwrap();
    assert_eq!(s.password_of(&"1".to_string()), Ok("first".to_string()));
}

#[test]
fn password_of_unknown_account() {
    let s = AppState::new();
    assert_eq!(s.password_of(&"x".to_string()), Err("账户不存在".to_string()));
}

#[test]
fn lookup_after_delete_fails() {
    let mut s = AppState::new();
    s.add_account_with_id("9".to_string(), &"a".to_string(), "pw".to_string()).unwrap();
    s.delete_account(&"9".to_string());
    assert_eq!(s.password_of(&"9".to_string()), Err("账户不存在".to_string()));
}

#[test]
fn save_obfuscates_passwords() {
    let mut s = AppState::new();
    s.add_account_with_id("1".to_string(), &"mail".to_string(), "hello".to_string()).unwrap();
    let stored = s.save();
    assert_eq!(stored[0].id, "1");
    assert_eq!(stored[0].name, "mail");
    assert_eq!(stored[0].password, "aGVsbG8=");
    // the state itself keeps the plain password
    assert_eq!(s.get_accounts()[0].password, "hello");
}

#[test]
fn save_then_load_gives_back_accounts() {
    let mut s = AppState::new();
    s.add_account_with_id("1".to_string(), &"a".to_string(), "密码".to_string()).unwrap();
    s.add_account_with_id("2".to_string(), &"b".to_string(), "x\"y\\z".to_string()).unwrap();
    let stored = s.save();
    let mut t = AppState::new();
    t.load(stored);
    let accs = t.get_accounts();
    assert_eq!(accs.len(), 2);
    assert_eq!(accs[0].password, "密码");
    assert_eq!(accs[1].password, "x\"y\\z");
    assert_eq!(accs[1].name, "b");
}

#[test]
fn load_keeps_passwords_that_are_not_stored_form() {
    let mut t = AppState::new();
    t.load(vec![account("1", "a", "plain text!"), account("2", "b", "aGVsbG8=")]);
    let accs = t.get_accounts();
    assert_eq!(accs[0].password, "plain text!");
    assert_eq!(accs[1].password, "hello");
}

#[test]
fn data_file_is_in_data_dir() {
    let mut s = AppState::new();
    s.set_data_dir("/tmp/autofill".to_string());
    let f = s.get_data_file();
    assert!(f == "/tmp/autofill/accounts.json" || f == "/tmp/autofill\\accounts.json");
}

#[test]
fn data_file_after_trailing_separator() {
    let mut s = AppState::new();
    s.set_data_dir("/tmp/autofill/".to_string());
    assert_eq!(s.get_data_file(), "/tmp/autofill/accounts.json");
}

#[test]
fn data_file_in_empty_dir_is_the_bare_name() {
    let mut s = AppState::new();
    s.set_data_dir(String::new());
    assert_eq!(s.get_data_file(), "accounts.json");
}

#[test]
fn has_data_dir_after_setting_it() {
    let mut s = AppState::new();
    assert!(!s.has_data_dir());
    s.set_data_dir("/data".to_string());
    assert!(s.has_data_dir());
}
