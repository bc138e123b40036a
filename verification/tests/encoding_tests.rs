use fs_blockchain::digest::{bytes_to_hex, sha256_hex};
use fs_blockchain::errors::AppError;
use fs_blockchain::text::{str_eq, u64_to_string};

#[test]
fn decimal_rendering_exact_values() {
    assert_eq!(u64_to_string(0), "0".to_string());
    assert_eq!(u64_to_string(7), "7".to_string());
    assert_eq!(u64_to_string(10), "10".to_string());
    assert_eq!(u64_to_string(1234567890), "1234567890".to_string());
    assert_eq!(u64_to_string(u64::MAX), "18446744073709551615".to_string());
}

#[test]
fn hex_rendering_exact_values() {
    assert_eq!(bytes_to_hex(&vec![]), "".to_string());
    assert_eq!(bytes_to_hex(&vec![0, 255, 16, 1]), "00ff1001".to_string());
}

#[test]
fn sha256_hex_matches_known_digests() {
    assert_eq!(
        sha256_hex(""),
        "e3b0c44298fc1c149afbf4c8996fb92427ae41e4649b934ca495991b7852b855".to_string()
    );
    assert_eq!(
        sha256_hex("abc"),
        "ba7816bf8f01cfea414140de5dae2223b00361a396177a9cb410ff61f20015ad".to_string()
    );
}

#[test]
fn str_eq_compares_by_characters() {
    assert!(str_eq("", ""));
    assert!(str_eq("abc", "abc"));
    assert!(!str_eq("abc", "abd"));
    assert!(!str_eq("abc", "ab"));
    assert!(str_eq("привет", "привет"));
}

#[test]
fn error_messages_render_exactly() {
    assert_eq!(
        AppError::DelegateNotFound(42).message(),
        "Делегат с id 42 не найден".to_string()
    );
    assert_eq!(
        AppError::TransactionError("boom".to_string()).message(),
        "Ошибка транзакции: boom".to_string()
    );
    assert_eq!(AppError::NoDelegates.message(), "Нет делегатов".to_string());
}
