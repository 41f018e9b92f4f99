use std::cell::RefCell;

use qck_usb::{is_correct_device, label_matches, Label, Recorded};

#[test]
fn label_matches_compares_the_whole_string() {
    assert!(label_matches("SteelSeries", Some("SteelSeries".to_string())));
    assert!(!label_matches("SteelSeries", Some("Steelseries".to_string())));
    assert!(!label_matches("SteelSeries", Some("SteelSeries ".to_string())));
    assert!(!label_matches("SteelSeries", Some(String::new())));
    assert!(label_matches("", Some(String::new())));
}

#[test]
fn an_unreadable_string_counts_as_not_found() {
    assert!(!label_matches("SteelSeries", None));
    assert!(label_matches("Not Found", None));
}

#[test]
fn is_correct_device_needs_both_strings() {
    let read = |label: Label| match label {
        Label::Manufacturer => Some("SteelSeries".to_string()),
        Label::Product => Some("SteelSeries QCK Prism Cloth".to_string()),
    };
    assert!(is_correct_device(
        true,
        "SteelSeries",
        "SteelSeries QCK Prism Cloth",
        &mut Recorded::new(read)
    ));
    assert!(!is_correct_device(
        true,
        "SteelSeries",
        "Steelseries QCK Prism Cloth",
        &mut Recorded::new(read)
    ));
    assert!(!is_correct_device(
        true,
        "Logitech",
        "SteelSeries QCK Prism Cloth",
        &mut Recorded::new(read)
    ));
}

#[test]
fn is_correct_device_rejects_a_device_without_languages() {
    let asked = RefCell::new(0);
    let mut reader = Recorded::new(|_: Label| {
        *asked.borrow_mut() += 1;
        Some("SteelSeries".to_string())
    });
    let r = is_correct_device(false, "SteelSeries", "SteelSeries QCK Prism Cloth", &mut reader);
    assert!(!r);
    assert_eq!(*asked.borrow(), 0);
}

#[test]
fn is_correct_device_reads_the_product_only_after_the_manufacturer_matched() {
    let asked = RefCell::new(Vec::new());
    let mut reader = Recorded::new(|label: Label| {
        asked.borrow_mut().push(label);
        None
    });
    let r = is_correct_device(true, "SteelSeries", "SteelSeries QCK Prism Cloth", &mut reader);
    assert!(!r);
    assert_eq!(*asked.borrow(), vec![Label::Manufacturer]);
}

#[test]
fn is_correct_device_reads_the_manufacturer_first() {
    let asked = RefCell::new(Vec::new());
    let mut reader = Recorded::new(|label: Label| {
        asked.borrow_mut().push(label);
        match label {
            Label::Manufacturer => Some("SteelSeries".to_string()),
            Label::Product => Some("Something else".to_string()),
        }
    });
    let r = is_correct_device(true, "SteelSeries", "SteelSeries QCK Prism Cloth", &mut reader);
    assert!(!r);
    assert_eq!(*asked.borrow(), vec![Label::Manufacturer, Label::Product]);
}

#[test]
fn is_correct_device_treats_unreadable_strings_as_not_found() {
    assert!(is_correct_device(
        true,
        "Not Found",
        "Not Found",
        &mut Recorded::new(|_: Label| None)
    ));
    let asked = RefCell::new(Vec::new());
    let mut reader = Recorded::new(|label: Label| {
        asked.borrow_mut().push(label);
        match label {
            Label::Manufacturer => Some("SteelSeries".to_string()),
            Label::Product => None,
        }
    });
    let r = is_correct_device(true, "SteelSeries", "Not Found", &mut reader);
    assert!(r);
    assert_eq!(*asked.borrow(), vec![Label::Manufacturer, Label::Product]);
}
