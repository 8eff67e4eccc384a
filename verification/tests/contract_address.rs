use vm_library::contract_address::{checksum, decode, encode, AddressError, ContractAddress};
use vm_library::run_loop::contract_addr_to_string;

#[test]
fn address_of_text_is_its_blake2b_digest_of_20_bytes() {
    let address = ContractAddress::new("hello".to_string());
    assert_eq!(
        address.as_bytes(),
        &[181, 83, 28, 112, 55, 240, 108, 159, 41, 71, 19, 42, 106, 119, 32, 44, 48, 142, 137, 57]
    );
    let empty = ContractAddress::new(String::new());
    assert_eq!(
        empty.as_bytes(),
        &[51, 69, 82, 74, 191, 107, 190, 24, 9, 68, 146, 36, 181, 151, 44, 65, 121, 11, 108, 242]
    );
}

#[test]
fn address_from_operation_agrees_with_new() {
    let a = ContractAddress::from_operation("op-hash-1".to_string());
    let b = ContractAddress::new("op-hash-1".to_string());
    assert_eq!(a, b);
    assert!(a.same(&b));
    assert_eq!(
        a.as_bytes(),
        &[209, 122, 183, 41, 205, 155, 232, 1, 2, 107, 39, 149, 91, 16, 146, 204, 93, 253, 233, 240]
    );
    assert!(!a.same(&ContractAddress::new("op-hash-2".to_string())));
}

#[test]
fn address_text_is_base58check_with_the_version_tag() {
    let address = ContractAddress::new("hello".to_string());
    assert_eq!(address.to_text(), "DK1LNB6ywMbVCXXpaJZTfoefVvLj7msByGSg");
    assert_eq!(contract_addr_to_string(&address), "DK1LNB6ywMbVCXXpaJZTfoefVvLj7msByGSg");
    assert_eq!(
        ContractAddress::from_bytes(vec![0; 20]).to_text(),
        "DK13qREbr3VjNbBcJfto3Y37hzFB6iyAUTMq"
    );
    assert_eq!(encode(b"abc"), "67oSDDykq4ZGj");
}

#[test]
fn checksum_appends_four_bytes_of_the_double_digest() {
    assert_eq!(checksum(b"abc".to_vec()), vec![97, 98, 99, 79, 139, 66, 194]);
    assert_eq!(checksum(vec![]).len(), 4);
}

#[test]
fn address_decode_strips_tag_and_checksum() {
    assert_eq!(decode("67oSDDykq4ZGj"), Ok(b"abc".to_vec()));
    let address = ContractAddress::new("hello".to_string());
    let back = ContractAddress::from_text(&address.to_text()).unwrap();
    assert_eq!(back, address);
}

#[test]
fn address_decode_refuses_what_is_no_base58() {
    assert_eq!(decode("0OIl"), Err(AddressError::NotBase58));
    assert_eq!(decode("not an address!"), Err(AddressError::NotBase58));
    assert_eq!(ContractAddress::from_text("hello world").unwrap_err(), AddressError::NotBase58);
}

#[test]
fn address_decode_refuses_what_is_too_short() {
    assert_eq!(decode(""), Err(AddressError::TooShort));
    assert_eq!(decode("118Qq"), Err(AddressError::TooShort));
    assert_eq!(decode("2g"), Err(AddressError::TooShort));
}

#[test]
fn address_decode_does_not_compare_the_checksum() {
    // seven bytes of payload: nothing is left between tag and checksum
    let text = bs58::encode(vec![9u8, 9, 9, 7, 7, 7, 7]).into_string();
    assert_eq!(decode(&text), Ok(vec![]));
    let text = bs58::encode(vec![9u8, 9, 9, 42, 7, 7, 7, 7]).into_string();
    assert_eq!(decode(&text), Ok(vec![42]));
}
