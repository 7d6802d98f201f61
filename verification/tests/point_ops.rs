// Point operations: channel arithmetic with clamping, the zero-operand
// short-circuit, the add/subtract round-trip, and the brightness remap.

use pixel_filters::ArithmeticOp;
use pixel_filters::ColorComponent;
use pixel_filters::Image;
use pixel_filters::Operand;

fn image_1x1(px: [u8; 4]) -> Image {
    Image::from_raw(px.to_vec(), 1, 1).unwrap()
}

#[test]
fn zero_operand_is_identity_for_every_op_and_channel() {
    let ops = [
        ArithmeticOp::Add,
        ArithmeticOp::Subtract,
        ArithmeticOp::Multiply,
        ArithmeticOp::Divide,
    ];
    let channels = [
        ColorComponent::Red,
        ColorComponent::Green,
        ColorComponent::Blue,
        ColorComponent::Alpha,
    ];
    for op in ops {
        for ch in channels {
            let mut img = image_1x1([10, 20, 30, 40]);
            img.apply_point_fn(ch, Operand::from_int(0), op);
            assert_eq!(img.as_bytes().as_slice(), &[10, 20, 30, 40]);
        }
    }
}

#[test]
fn add_targets_only_the_chosen_channel() {
    let mut img = image_1x1([10, 20, 30, 40]);
    img.apply_point_fn(ColorComponent::Green, Operand::from_int(5), ArithmeticOp::Add);
    assert_eq!(img.as_bytes().as_slice(), &[10, 25, 30, 40]);
}

#[test]
fn add_clamps_at_255() {
    let mut img = image_1x1([200, 0, 0, 255]);
    img.apply_point_fn(ColorComponent::Red, Operand::from_int(100), ArithmeticOp::Add);
    assert_eq!(img.as_bytes()[0], 255);
}

#[test]
fn subtract_clamps_at_0() {
    let mut img = image_1x1([100, 0, 0, 255]);
    img.apply_point_fn(ColorComponent::Red, Operand::from_int(200), ArithmeticOp::Subtract);
    assert_eq!(img.as_bytes()[0], 0);
}

#[test]
fn multiply_doubles_and_clamps() {
    let mut img = Image::from_raw(vec![100, 0, 0, 255, 200, 0, 0, 255], 2, 1).unwrap();
    img.apply_point_fn(ColorComponent::Red, Operand::from_int(2), ArithmeticOp::Multiply);
    assert_eq!(img.as_bytes()[0], 200);
    assert_eq!(img.as_bytes()[4], 255);
}

#[test]
fn multiply_by_half_truncates() {
    let mut img = image_1x1([101, 0, 0, 255]);
    img.apply_point_fn(ColorComponent::Red, Operand::new(1, 2).unwrap(), ArithmeticOp::Multiply);
    assert_eq!(img.as_bytes()[0], 50);
}

#[test]
fn divide_truncates() {
    let mut img = image_1x1([101, 0, 0, 255]);
    img.apply_point_fn(ColorComponent::Red, Operand::from_int(2), ArithmeticOp::Divide);
    assert_eq!(img.as_bytes()[0], 50);
}

#[test]
fn divide_by_negative_floors_to_zero() {
    let mut img = image_1x1([101, 0, 0, 255]);
    img.apply_point_fn(ColorComponent::Red, Operand::from_int(-2), ArithmeticOp::Divide);
    assert_eq!(img.as_bytes()[0], 0);
}

#[test]
fn alpha_is_addressable_like_any_channel() {
    let mut img = image_1x1([1, 2, 3, 100]);
    img.apply_point_fn(ColorComponent::Alpha, Operand::from_int(20), ArithmeticOp::Add);
    assert_eq!(img.as_bytes().as_slice(), &[1, 2, 3, 120]);
}

#[test]
fn add_then_subtract_whole_operand_round_trips_exactly() {
    let mut img = Image::from_raw(vec![0, 0, 0, 255, 17, 0, 0, 255, 248, 0, 0, 255], 3, 1).unwrap();
    let operand = Operand::from_int(7);
    img.apply_point_fn(ColorComponent::Red, operand, ArithmeticOp::Add);
    img.apply_point_fn(ColorComponent::Red, operand, ArithmeticOp::Subtract);
    assert_eq!(img.as_bytes()[0], 0);
    assert_eq!(img.as_bytes()[4], 17);
    assert_eq!(img.as_bytes()[8], 248);
}

#[test]
fn add_then_subtract_fractional_operand_round_trips_within_one() {
    let mut img = image_1x1([100, 0, 0, 255]);
    let operand = Operand::new(5, 2).unwrap();
    img.apply_point_fn(ColorComponent::Red, operand, ArithmeticOp::Add);
    assert_eq!(img.as_bytes()[0], 102);
    img.apply_point_fn(ColorComponent::Red, operand, ArithmeticOp::Subtract);
    assert_eq!(img.as_bytes()[0], 99);
}

#[test]
fn operand_new_rejects_zero_denominator() {
    assert!(Operand::new(1, 0).is_none());
    assert!(Operand::new(3, 4).is_some());
}

#[test]
fn brightness_zero_is_identity() {
    let mut img = image_1x1([10, 20, 30, 40]);
    img.change_brightness(Operand::from_int(0));
    assert_eq!(img.as_bytes().as_slice(), &[10, 20, 30, 40]);
}

#[test]
fn brightness_full_positive_lightens_halfway() {
    let mut img = image_1x1([100, 0, 255, 77]);
    img.change_brightness(Operand::from_int(1));
    // byte + (255 - byte) / 2, truncated; alpha untouched
    assert_eq!(img.as_bytes().as_slice(), &[177, 127, 255, 77]);
}

#[test]
fn brightness_full_negative_darkens_halfway() {
    let mut img = image_1x1([100, 0, 255, 77]);
    img.change_brightness(Operand::from_int(-1));
    assert_eq!(img.as_bytes().as_slice(), &[50, 0, 127, 77]);
}

#[test]
fn brightness_fractional_amount() {
    let mut img = image_1x1([100, 0, 0, 255]);
    // amount 1/2, halved internally to 1/4: 100 + 155/4 = 138.75 -> 138
    img.change_brightness(Operand::new(1, 2).unwrap());
    assert_eq!(img.as_bytes()[0], 138);
}
