use gtin::util::{
    calculate_checksum_digit, digits_to_string, expand_upce_to_upca, extract_digits, validate_gtin,
};
use gtin::{GtinError, GTIN};

#[test]
fn expand_upce() {
    let cases = vec![
        ("04182635", "041800000265"),
        ("0 123450 5", "0 12000 00345 5"),
    ];

    for (upce_str, expected_upca_str) in cases {
        let upce_digits = extract_digits(upce_str);
        let upca_digits = extract_digits(expected_upca_str);

        match expand_upce_to_upca(&upce_digits) {
            Ok(result) => assert_eq!(
                result.digits(),
                upca_digits,
                "Failed to match UPC-E: {}",
                upce_str
            ),
            Err(e) => panic!("Failed to expand UPC-E {}: {:?}", upce_str, e),
        }
    }
}

#[test]
fn validate_digits() {
    let cases = vec![
        ("8595701 530526", true),   // EAN-13
        ("8595701 542376", true),   // EAN-13
        ("8 595682 148871", true),  // EAN-13
        ("8595701 542377", false),  // invalid EAN-13
        ("0 71720 53977 4", true),  // UPC-A
        ("0 41420 06785 3", true),  // UPC-A
        ("0 71720 53977 5", false), // invalid UPC-A
        ("5201 3485", true),        // EAN-8
        ("5201 3486", false),       // invalid EAN-8
    ];

    for (text, validity) in cases {
        assert_eq!(
            validate_gtin(&extract_digits(text)),
            validity,
            "Failed to match GTIN: {}",
            text
        );
    }
}

#[test]
fn handle_non_digit_characters() {
    let cases = vec![
        "8595701-530526",  // EAN-13
        "8595701 542376",  // EAN-13
        "8:595682:148871", // EAN-13
        "0h71720 53977 4", // UPC-A
        "0 41420_06785_3", // UPC-A
        "5201 3485",       // EAN-8
    ];

    for text in cases {
        let gtin = GTIN::parse(text);
        assert!(gtin.is_ok(), "Failed to parse GTIN: {}", text);
    }
}

#[test]
fn extract_digits_in_order() {
    assert_eq!(extract_digits("0 71720-53977a4"), vec![0, 7, 1, 7, 2, 0, 5, 3, 9, 7, 7, 4]);
    assert_eq!(extract_digits("no digits here"), Vec::<u8>::new());
    assert_eq!(extract_digits(""), Vec::<u8>::new());
}

#[test]
fn compute_exact_check_digits() {
    assert_eq!(calculate_checksum_digit(&[0, 7, 1, 7, 2, 0, 5, 3, 9, 7, 7]), 4);
    assert_eq!(calculate_checksum_digit(&[5, 2, 0, 1, 3, 4, 8]), 5);
    assert_eq!(
        calculate_checksum_digit(&[8, 5, 9, 5, 7, 0, 1, 5, 3, 0, 5, 2]),
        6
    );
    // A weighted sum that is already a multiple of 10 closes with 0.
    assert_eq!(calculate_checksum_digit(&[]), 0);
}

#[test]
fn validate_matches_computed_check_digit() {
    // validate is true exactly when the last digit equals the computed
    // check digit of the digits before it.
    let prefix = [0u8, 7, 1, 7, 2, 0, 5, 3, 9, 7, 7];
    let check = calculate_checksum_digit(&prefix);
    for candidate in 0u8..=9 {
        let mut full = prefix.to_vec();
        full.push(candidate);
        assert_eq!(validate_gtin(&full), candidate == check);
    }
}

#[test]
fn validate_rejects_unsupported_lengths() {
    assert!(!validate_gtin(&[1, 2, 3, 4, 5, 6, 7]));
    assert!(!validate_gtin(&[]));
    let long = [0u8; 15];
    assert!(!validate_gtin(&long));
}

#[test]
fn expansion_keeps_checksum_invariant() {
    // Whatever the compression-type selector, the expanded UPC-A closes
    // with a sound check digit.
    let cores: Vec<Vec<u8>> = vec![
        vec![1, 2, 3, 4, 5, 0], // selector 0: manufacturer 12000
        vec![1, 2, 3, 4, 5, 2], // selector 2: manufacturer 12200
        vec![1, 2, 3, 4, 5, 3], // selector 3: manufacturer 12300
        vec![1, 2, 3, 4, 5, 4], // selector 4: manufacturer 12340
        vec![1, 2, 3, 4, 5, 9], // selector 9: manufacturer 12345
    ];
    for core in cores {
        let expanded = expand_upce_to_upca(&core).unwrap();
        assert!(matches!(expanded, GTIN::UpcA(_)));
        assert_eq!(expanded.digits().len(), 12);
        assert!(validate_gtin(expanded.digits()));
    }
}

#[test]
fn expansion_follows_selector_table() {
    // Selector digits 0, 1 and 2 place themselves as the third
    // manufacturer digit and move the middle three digits to the item.
    let expanded = expand_upce_to_upca(&[1, 2, 3, 4, 5, 1]).unwrap();
    let digits = expanded.digits();
    assert_eq!(&digits[..11], &[0, 1, 2, 1, 0, 0, 0, 0, 3, 4, 5]);

    // Selector 4 keeps four manufacturer digits and one item digit.
    let expanded = expand_upce_to_upca(&[1, 2, 3, 4, 5, 4]).unwrap();
    let digits = expanded.digits();
    assert_eq!(&digits[..11], &[0, 1, 2, 3, 4, 0, 0, 0, 0, 0, 5]);
}

#[test]
fn expansion_accepts_core_lengths_six_to_eight() {
    // 6-digit core, 7 digits with a check digit, and 8 digits with a
    // number-system digit and a check digit all name the same code.
    let from_six = expand_upce_to_upca(&[1, 2, 3, 4, 5, 0]).unwrap();
    let from_seven = expand_upce_to_upca(&[1, 2, 3, 4, 5, 0, 5]).unwrap();
    let from_eight = expand_upce_to_upca(&[0, 1, 2, 3, 4, 5, 0, 5]).unwrap();
    assert_eq!(from_six, from_seven);
    assert_eq!(from_six, from_eight);
    assert_eq!(digits_to_string(from_six.digits()), "012000003455");
}

#[test]
fn expansion_rejects_other_lengths() {
    assert_eq!(
        expand_upce_to_upca(&[1, 2, 3, 4, 5]),
        Err(GtinError::ConversionFailed)
    );
    assert_eq!(
        expand_upce_to_upca(&[1, 2, 3, 4, 5, 6, 7, 8, 9]),
        Err(GtinError::ConversionFailed)
    );
    assert_eq!(expand_upce_to_upca(&[]), Err(GtinError::ConversionFailed));
}

#[test]
fn write_canonical_digit_strings() {
    assert_eq!(
        digits_to_string(&[0, 7, 1, 7, 2, 0, 5, 3, 9, 7, 7, 4]),
        "071720539774"
    );
    assert_eq!(digits_to_string(&[]), "");
    assert_eq!(digits_to_string(&[0, 9]), "09");
}
