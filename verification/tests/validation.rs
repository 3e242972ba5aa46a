use pesel::Pesel;

#[test]
fn test_pesel_93061412550() {
    let expected = Pesel([9, 3, 0, 6, 1, 4, 1, 2, 5, 5, 0]);
    assert_eq!(Pesel::new("93061412550").unwrap(), expected);
}

#[test]
fn test_pesel_00124567890() {
    let expected = Pesel([0, 0, 1, 2, 4, 5, 6, 7, 8, 9, 0]);
    assert_eq!(Pesel::new("00124567890").unwrap(), expected);
}

#[test]
fn test_pesel_91000000000() {
    let expected = Pesel([9, 1, 0, 0, 0, 0, 0, 0, 0, 0, 0]);
    assert_eq!(Pesel::new("91000000000").unwrap(), expected);
}

#[test]
fn test_incorrect_pesel_length_short() {
    assert!(
        Pesel::new("0012457897").is_err(),
        "PESEL with incorrect length (short) should return an error."
    );
}

#[test]
fn test_incorrect_pesel_length_long() {
    assert!(
        Pesel::new("931212121212").is_err(),
        "PESEL with incorrect length (long) should return an error."
    );
}

#[test]
fn test_incorrect_pesel_non_numeric() {
    assert!(
        Pesel::new("pesel878711").is_err(),
        "Non-numeric PESEL should return an error."
    );
}

#[test]
fn checksum_correct() {
    let digits: [u8; 10] = [9, 3, 0, 6, 1, 4, 1, 2, 5, 5];
    assert_eq!(
        Pesel::checksum(digits),
        0,
        "Checksum should be 0 for this sequence."
    );
}

#[test]
fn checksum_incorrect() {
    let digits: [u8; 10] = [9, 3, 0, 6, 1, 4, 1, 2, 5, 6];
    assert_ne!(
        Pesel::checksum(digits),
        0,
        "Checksum should not be 0 for this modified sequence."
    );
}

#[test]
fn checksum_boundary() {
    let digits: [u8; 10] = [9, 9, 9, 9, 9, 9, 9, 9, 9, 9];
    assert_eq!(
        Pesel::checksum(digits),
        4,
        "Checksum calculation should handle overflow correctly."
    );
}

#[test]
fn checksum_zeroes() {
    let digits: [u8; 10] = [0, 0, 0, 0, 0, 0, 0, 0, 0, 0];
    assert_eq!(
        Pesel::checksum(digits),
        0,
        "Checksum should be 0 for all zeroes."
    );
}

#[test]
fn parse_is_idempotent_on_valid_input() {
    let first = Pesel::new("93061412550").unwrap();
    let second = Pesel::new("93061412550").unwrap();
    assert_eq!(first, second);
}

#[test]
fn parse_keeps_leading_zeros() {
    let expected = Pesel([0, 0, 0, 0, 0, 0, 0, 0, 0, 0, 0]);
    assert_eq!(Pesel::new("00000000000").unwrap(), expected);
}

#[test]
fn empty_input_is_rejected() {
    assert!(Pesel::new("").is_err());
}

#[test]
fn leading_sign_is_rejected() {
    assert!(Pesel::new("+9306141255").is_err());
}

#[test]
fn embedded_space_is_rejected() {
    assert!(Pesel::new("9306141255 ").is_err());
}

#[test]
fn error_carries_wrong_format_message() {
    assert_eq!(Pesel::new("0012457897").unwrap_err(), "Wrong format");
    assert_eq!(Pesel::new("pesel878711").unwrap_err(), "Wrong format");
}

#[test]
fn checksum_detects_a_change_in_the_first_digit() {
    let original: [u8; 10] = [9, 3, 0, 6, 1, 4, 1, 2, 5, 5];
    let changed: [u8; 10] = [8, 3, 0, 6, 1, 4, 1, 2, 5, 5];
    assert_ne!(Pesel::checksum(original), Pesel::checksum(changed));
}

#[test]
fn checksum_of_ascending_digits() {
    let digits: [u8; 10] = [1, 2, 3, 4, 5, 6, 7, 8, 9, 0];
    assert_eq!(Pesel::checksum(digits), 3);
}

#[test]
fn checksum_is_a_single_digit() {
    assert!(Pesel::checksum([7, 7, 7, 7, 7, 7, 7, 7, 7, 7]) <= 9);
    assert!(Pesel::checksum([0, 1, 0, 1, 0, 1, 0, 1, 0, 1]) <= 9);
}
