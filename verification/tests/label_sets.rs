use bitfield::checks::{CheckError, Discriminant};
use bitfield::labels::LabelSet;
use bitfield::layout::Layout;
use bitfield::record::PackedRecord;
use bitfield::specifier::{check_declared_bits, FieldWidth, Specifier};

fn label_set(discriminants: Vec<u64>) -> LabelSet {
    match LabelSet::new(discriminants) {
        Ok(ls) => ls,
        Err(_) => panic!("label set was rejected"),
    }
}

#[test]
fn four_labels_need_two_bits() {
    let ls = label_set(vec![0, 1, 2, 3]);
    assert_eq!(ls.bits, 2);
}

#[test]
fn two_labels_need_one_bit_and_sixteen_need_four() {
    assert_eq!(label_set(vec![0, 1]).bits, 1);
    let dense: Vec<u64> = (0..16).collect();
    assert_eq!(label_set(dense).bits, 4);
}

#[test]
fn label_count_of_three_is_rejected() {
    assert!(matches!(
        LabelSet::new(vec![0, 1, 2]),
        Err(CheckError::LabelCountNotPowerOfTwo)
    ));
}

#[test]
fn label_count_of_five_is_rejected() {
    assert!(matches!(
        LabelSet::new(vec![0, 1, 2, 3, 4]),
        Err(CheckError::LabelCountNotPowerOfTwo)
    ));
}

#[test]
fn label_count_of_one_is_rejected() {
    assert!(matches!(
        LabelSet::new(vec![0]),
        Err(CheckError::LabelCountNotPowerOfTwo)
    ));
}

#[test]
fn an_empty_label_set_is_rejected() {
    assert!(matches!(
        LabelSet::new(vec![]),
        Err(CheckError::LabelCountNotPowerOfTwo)
    ));
}

#[test]
fn discriminant_at_count_is_rejected() {
    assert!(matches!(
        LabelSet::new(vec![0, 1, 2, 4]),
        Err(CheckError::DiscriminantOutOfRange)
    ));
}

#[test]
fn shared_discriminant_is_rejected() {
    assert!(matches!(
        LabelSet::new(vec![0, 1, 2, 2]),
        Err(CheckError::DuplicateDiscriminant)
    ));
}

#[test]
fn every_label_of_four_round_trips() {
    let ls = label_set(vec![0, 1, 2, 3]);
    let mut r = PackedRecord::new(Layout::new(vec![2, 6], true).unwrap_or_else(|_| {
        panic!("layout was rejected")
    }));
    for label in 0..4 {
        r.set_label(0, &ls, label);
        assert_eq!(r.get_label(0, &ls), label);
    }
}

#[test]
fn permuted_discriminants_round_trip() {
    let ls = label_set(vec![3, 1, 0, 2]);
    let layout = match Layout::new(vec![5, 2, 1], true) {
        Ok(l) => l,
        Err(_) => panic!("layout was rejected"),
    };
    let mut r = PackedRecord::new(layout);
    r.set(0, 0b10110);
    r.set(2, 1);
    for label in 0..4 {
        r.set_label(1, &ls, label);
        assert_eq!(r.get_label(1, &ls), label);
        // The field stores the assigned discriminant, not the position.
        assert_eq!(r.get(1), ls.encode(label));
        // The neighbors keep their values.
        assert_eq!(r.get(0), 0b10110);
        assert_eq!(r.get(2), 1);
    }
}

#[test]
fn encode_returns_the_assigned_discriminant() {
    let ls = label_set(vec![3, 1, 0, 2]);
    assert_eq!(ls.encode(0), 3);
    assert_eq!(ls.encode(1), 1);
    assert_eq!(ls.encode(2), 0);
    assert_eq!(ls.encode(3), 2);
}

#[test]
fn decode_finds_the_unique_label() {
    let ls = label_set(vec![3, 1, 0, 2]);
    assert_eq!(ls.decode(3), 0);
    assert_eq!(ls.decode(1), 1);
    assert_eq!(ls.decode(0), 2);
    assert_eq!(ls.decode(2), 3);
}

#[test]
fn discriminant_check_is_a_strict_bound() {
    assert!(Discriminant::check(3, 4).is_ok());
    assert!(matches!(
        Discriminant::check(4, 4),
        Err(CheckError::DiscriminantOutOfRange)
    ));
}

#[test]
fn specifiers_declare_their_widths() {
    let w = match FieldWidth::new(13) {
        Ok(w) => w,
        Err(_) => panic!("a width of thirteen is supported"),
    };
    assert_eq!(w.bits(), 13);
    assert!(matches!(
        FieldWidth::new(0),
        Err(CheckError::WidthOutOfRange)
    ));
    assert!(matches!(
        FieldWidth::new(65),
        Err(CheckError::WidthOutOfRange)
    ));
    let ls = label_set(vec![0, 1, 2, 3]);
    assert_eq!(Specifier::bits(&ls), 2);
}

#[test]
fn declared_width_must_match_the_specifier() {
    let w = match FieldWidth::new(7) {
        Ok(w) => w,
        Err(_) => panic!("a width of seven is supported"),
    };
    assert!(check_declared_bits(7, &w).is_ok());
    assert!(matches!(
        check_declared_bits(8, &w),
        Err(CheckError::DeclaredWidthMismatch)
    ));
    let ls = label_set(vec![0, 1, 2, 3]);
    assert!(check_declared_bits(2, &ls).is_ok());
    assert!(matches!(
        check_declared_bits(4, &ls),
        Err(CheckError::DeclaredWidthMismatch)
    ));
}
