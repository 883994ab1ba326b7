use account_autofill::obfuscation::{deobfuscate, obfuscate};

#[test]
fn obfuscate_writes_standard_base64() {
    assert_eq!(obfuscate("hello"), "aGVsbG8=");
    assert_eq!(obfuscate("hell"), "aGVsbA==");
    assert_eq!(obfuscate("hel"), "aGVs");
    assert_eq!(obfuscate(""), "");
}

#[test]
fn obfuscate_changes_the_text() {
    let secret = "p@ssw0rd";
    assert_ne!(obfuscate(secret), secret);
}

#[test]
fn obfuscate_length_is_padded_to_four() {
    assert_eq!(obfuscate("a").len(), 4);
    assert_eq!(obfuscate("abcd").len(), 8);
}

#[test]
fn deobfuscate_reads_back_ascii() {
    assert_eq!(deobfuscate("aGVsbG8="), Ok("hello".to_string()));
}

#[test]
fn round_trip_of_unicode_password() {
    let secret = "密码 Pässwörd \\ \" ✓";
    assert_eq!(deobfuscate(&obfuscate(secret)), Ok(secret.to_string()));
}

#[test]
fn round_trip_of_empty_password() {
    assert_eq!(deobfuscate(&obfuscate("")), Ok(String::new()));
}

#[test]
fn deobfuscate_refuses_non_base64() {
    let e = deobfuscate("not base64!").unwrap_err();
    assert!(e.starts_with("解码失败: "));
}

#[test]
fn deobfuscate_refuses_bad_padding() {
    let e = deobfuscate("aGVsbG8").unwrap_err();
    assert!(e.starts_with("解码失败: "));
}

#[test]
fn deobfuscate_refuses_invalid_utf8() {
    // "/w==" decodes to the single byte 0xFF, which is not UTF-8
    let e = deobfuscate("/w==").unwrap_err();
    assert!(e.starts_with("转换字符串失败: "));
}
