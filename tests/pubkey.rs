use sbpf_guest::pubkey::{Pubkey, PubkeyError};

#[test]
fn base58_of_thirty_two_bytes_parses() {
    let text = "zkRXxvKMqQYgPRAkBHwYKCvnF8YjVtXW1BK4VCXpkeo".to_string();
    let expected = bs58::decode(&text).into_vec().unwrap();
    assert_eq!(expected.len(), 32);
    let key = Pubkey::try_from(text).unwrap();
    assert_eq!(key.as_ref(), expected.as_slice());
    assert_eq!(key.to_bytes().to_vec(), expected);
}

#[test]
fn all_ones_text_is_the_zero_key() {
    let text = "11111111111111111111111111111111".to_string();
    let key = Pubkey::try_from(text).unwrap();
    assert_eq!(key, Pubkey::new_from_array([0u8; 32]));
    assert_eq!(key, Pubkey::default());
}

#[test]
fn text_outside_the_alphabet_is_rejected() {
    let text = "0OIl0OIl".to_string();
    assert_eq!(Pubkey::try_from(text), Err(PubkeyError::InvalidEncoding));
}

#[test]
fn text_of_the_wrong_length_is_rejected() {
    let text = bs58::encode([7u8; 31]).into_string();
    assert_eq!(Pubkey::try_from(text), Err(PubkeyError::InvalidEncoding));
    let long = bs58::encode([7u8; 33]).into_string();
    assert_eq!(Pubkey::try_from(long), Err(PubkeyError::InvalidEncoding));
}

#[test]
fn round_trip_through_base58() {
    let bytes: [u8; 32] = core::array::from_fn(|i| (i as u8).wrapping_mul(37).wrapping_add(5));
    let text = bs58::encode(bytes).into_string();
    assert_eq!(Pubkey::try_from(text).unwrap(), Pubkey::new_from_array(bytes));
}

#[test]
fn decoded_bytes_make_a_key_only_at_thirty_two() {
    assert_eq!(Pubkey::from_decoded(Some(vec![9u8; 32])), Ok(Pubkey::new_from_array([9u8; 32])));
    assert_eq!(Pubkey::from_decoded(Some(vec![9u8; 31])), Err(PubkeyError::InvalidEncoding));
    assert_eq!(Pubkey::from_decoded(Some(Vec::new())), Err(PubkeyError::InvalidEncoding));
    assert_eq!(Pubkey::from_decoded(None), Err(PubkeyError::InvalidEncoding));
}
