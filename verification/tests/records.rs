//! Tests for the record kind mapping the input decoder relies on.

use payments_engine::record::{transaction_type_of_text, TransactionType};

#[test]
fn recognized_kind_words_map_to_their_kinds() {
    assert_eq!(transaction_type_of_text(&"deposit".to_string()), TransactionType::Deposit);
    assert_eq!(transaction_type_of_text(&"withdrawal".to_string()), TransactionType::Withdrawal);
    assert_eq!(transaction_type_of_text(&"dispute".to_string()), TransactionType::Dispute);
    assert_eq!(transaction_type_of_text(&"resolve".to_string()), TransactionType::Resolve);
    assert_eq!(transaction_type_of_text(&"chargeback".to_string()), TransactionType::Chargeback);
}

#[test]
fn unrecognized_kind_words_map_to_unknown() {
    assert_eq!(transaction_type_of_text(&"transfer".to_string()), TransactionType::Unknown);
    assert_eq!(transaction_type_of_text(&"".to_string()), TransactionType::Unknown);
    assert_eq!(transaction_type_of_text(&"Deposit".to_string()), TransactionType::Unknown);
    assert_eq!(transaction_type_of_text(&"deposit ".to_string()), TransactionType::Unknown);
}
