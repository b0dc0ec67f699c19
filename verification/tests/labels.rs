use mangadex::label::{rank_of, ABSENT_RANK};
use mangadex::Label;

fn label(number: f32) -> Label {
    Label::from_bits(number.to_bits()).unwrap()
}

#[test]
fn finite_numbers_make_labels() {
    for number in [0.0f32, -0.0, 1.0, -1.0, 12.5, 1e-40, f32::MAX, f32::MIN, f32::MIN_POSITIVE] {
        let made = Label::from_bits(number.to_bits()).unwrap();
        assert_eq!(made.to_bits(), number.to_bits());
    }
}

#[test]
fn infinities_and_not_a_number_make_no_label() {
    assert!(Label::from_bits(f32::INFINITY.to_bits()).is_none());
    assert!(Label::from_bits(f32::NEG_INFINITY.to_bits()).is_none());
    assert!(Label::from_bits(f32::NAN.to_bits()).is_none());
    assert!(Label::from_bits(0x7F80_0001).is_none());
    assert!(Label::from_bits(0xFFFF_FFFF).is_none());
    assert!(Label::from_bits(0x7F7F_FFFF).is_some());
    assert!(Label::from_bits(0xFF7F_FFFF).is_some());
}

#[test]
fn keys_of_chosen_numbers() {
    assert_eq!(label(0.0).key(), 0);
    assert_eq!(label(-0.0).key(), 0);
    assert_eq!(label(1.0).key(), 0x3F80_0000);
    assert_eq!(label(-1.0).key(), -0x3F80_0000);
    assert_eq!(label(f32::MAX).key(), 0x7F7F_FFFF);
    assert_eq!(label(f32::MIN).key(), -0x7F7F_FFFF);
    assert_eq!(label(f32::from_bits(1)).key(), 1);
}

#[test]
fn keys_rise_with_the_numbers() {
    let numbers = [
        f32::MIN, -1000.5, -2.0, -1.5, -1.0, -0.5, -1e-40, 0.0, 1e-40, f32::MIN_POSITIVE, 0.5, 1.0,
        1.5, 2.0, 9.0, 10.0, 10.5, 100.0, 1000.5, f32::MAX,
    ];
    for a in numbers {
        for b in numbers {
            assert_eq!(label(a).key() < label(b).key(), a < b);
            assert_eq!(label(a).key() == label(b).key(), a == b);
        }
    }
}

#[test]
fn both_zeros_have_one_key() {
    assert_eq!(label(0.0).key(), label(-0.0).key());
    assert_ne!(label(0.0).to_bits(), label(-0.0).to_bits());
}

#[test]
fn absent_label_ranks_below_every_label() {
    assert_eq!(rank_of(&None), ABSENT_RANK);
    assert_eq!(rank_of(&None), i32::MIN);
    assert!(rank_of(&None) < rank_of(&Some(label(f32::MIN))));
    assert_eq!(rank_of(&Some(label(2.5))), label(2.5).key());
}
