use bitfield_register::{register_size, BitFieldPosition, BitfieldRegister, Register};

fn expect_default<const N: usize>(pos: &BitFieldPosition, expected_value: u8, expected_data: [u8; N]) {
    assert_eq!(register_size(core::slice::from_ref(pos)), N);
    let reg = <Register<N> as Default>::default();
    assert_eq!(reg.get_field::<u8, 1>(pos), expected_value);
    assert_eq!(reg.data(), &expected_data);
}

fn expect_get<const N: usize>(pos: &BitFieldPosition, from: [u8; N], expected_value: u8) {
    let reg: Register<N> = From::from(from);
    assert_eq!(reg.get_field::<u8, 1>(pos), expected_value);
}

fn expect_set<const N: usize>(
    pos: &BitFieldPosition,
    from: [u8; N],
    value: u8,
    expected_value: u8,
    expected_data: [u8; N],
) {
    let mut reg: Register<N> = From::from(from);
    reg.set_field(pos, value);
    assert_eq!(reg.get_field::<u8, 1>(pos), expected_value);
    assert_eq!(reg.data(), &expected_data);
}

#[test]
fn bit_0_is_lsb() {
    let pos = BitFieldPosition::from_params(Some(0), None, None).unwrap();
    expect_default(&pos, 0, [0;1]);
    expect_get(&pos, [0;1], 0);
    expect_get(&pos, [0b1;1], 1);
    expect_get(&pos, [0b11111110;1], 0);
    expect_get(&pos, [0b11111111;1], 1);
    expect_set(&pos, [0;1], 0, 0, [0;1]);
    expect_set(&pos, [0;1], 1, 1, [1;1]);
    expect_set(&pos, [0;1], 0b10, 0, [0;1]);
    expect_set(&pos, [0;1], 0b11, 1, [1;1]);
    expect_set(&pos, [0b11111111;1], 0, 0, [0b11111110;1]);
    expect_set(&pos, [0b11111111;1], 1, 1, [0b11111111;1]);
}

#[test]
fn bit_2_test() {
    let pos = BitFieldPosition::from_params(Some(2), None, None).unwrap();
    expect_default(&pos, 0, [0;1]);
    expect_get(&pos, [0;1], 0);
    expect_get(&pos, [0b00000100;1], 1);
    expect_get(&pos, [0b11111011;1], 0);
    expect_get(&pos, [0b11111111;1], 1);
    expect_set(&pos, [0;1], 0, 0, [0;1]);
    expect_set(&pos, [0;1], 1, 1, [0b00000100;1]);
    expect_set(&pos, [0;1], 0b10, 0, [0;1]);
    expect_set(&pos, [0;1], 0b11, 1, [0b00000100;1]);
    expect_set(&pos, [0b11111111;1], 0, 0, [0b11111011;1]);
    expect_set(&pos, [0b11111111;1], 1, 1, [0b11111111;1]);
}

#[test]
fn bit_7_is_msb() {
    let pos = BitFieldPosition::from_params(Some(7), None, None).unwrap();
    expect_default(&pos, 0, [0;1]);
    expect_get(&pos, [0;1], 0);
    expect_get(&pos, [0b10000000;1], 1);
    expect_get(&pos, [0b01111111;1], 0);
    expect_get(&pos, [0b11111111;1], 1);
    expect_set(&pos, [0;1], 0, 0, [0;1]);
    expect_set(&pos, [0;1], 1, 1, [0b10000000;1]);
    expect_set(&pos, [0;1], 0b10, 0, [0;1]);
    expect_set(&pos, [0;1], 0b11, 1, [0b10000000;1]);
    expect_set(&pos, [0b11111111;1], 0, 0, [0b01111111;1]);
    expect_set(&pos, [0b11111111;1], 1, 1, [0b11111111;1]);
}

#[test]
fn bit_8_is_lsb() {
    let pos = BitFieldPosition::from_params(Some(8), None, None).unwrap();
    expect_default(&pos, 0, [0;2]);
    expect_get(&pos, [0;2], 0);
    expect_get(&pos, [0,0b1], 1);
    expect_get(&pos, [0,0b11111110], 0);
    expect_get(&pos, [0,0b11111111], 1);
    expect_set(&pos, [0;2], 0, 0, [0;2]);
    expect_set(&pos, [0;2], 1, 1, [0,1]);
    expect_set(&pos, [0;2], 0b10, 0, [0;2]);
    expect_set(&pos, [0;2], 0b11, 1, [0,1]);
    expect_set(&pos, [0,0b11111111], 0, 0, [0,0b11111110]);
    expect_set(&pos, [0,0b11111111], 1, 1, [0,0b11111111]);
}

#[test]
fn bit_15_is_msb() {
    let pos = BitFieldPosition::from_params(Some(15), None, None).unwrap();
    expect_default(&pos, 0, [0;2]);
    expect_get(&pos, [0;2], 0);
    expect_get(&pos, [0,0b10000000], 1);
    expect_get(&pos, [0,0b01111111], 0);
    expect_get(&pos, [0,0b11111111], 1);
    expect_set(&pos, [0;2], 0, 0, [0;2]);
    expect_set(&pos, [0;2], 1, 1, [0,0b10000000]);
    expect_set(&pos, [0;2], 0b10, 0, [0;2]);
    expect_set(&pos, [0;2], 0b11, 1, [0,0b10000000]);
    expect_set(&pos, [0,0b11111111], 0, 0, [0,0b01111111]);
    expect_set(&pos, [0,0b11111111], 1, 1, [0,0b11111111]);
}

#[test]
fn field_0_0_test() {
    let pos = BitFieldPosition::from_params(None, Some(0), Some(0)).unwrap();
    expect_default(&pos, 0, [0;1]);
    expect_get(&pos, [0;1], 0);
    expect_get(&pos, [0b1;1], 1);
    expect_get(&pos, [0b11111110;1], 0);
    expect_get(&pos, [0b11111111;1], 1);
    expect_set(&pos, [0;1], 0, 0, [0;1]);
    expect_set(&pos, [0;1], 1, 1, [0b1;1]);
    expect_set(&pos, [0b11111110;1], 0, 0, [0b11111110;1]);
    expect_set(&pos, [0b11111110;1], 1, 1, [0b11111111;1]);
    expect_set(&pos, [0b11111111;1], 0, 0, [0b11111110;1]);
    expect_set(&pos, [0b11111111;1], 1, 1, [0b11111111;1]);
}

#[test]
fn field_0_3_test() {
    let pos = BitFieldPosition::from_params(None, Some(0), Some(3)).unwrap();
    expect_default(&pos, 0, [0;1]);
    expect_get(&pos, [0;1], 0);
    expect_get(&pos, [0b1;1], 1);
    expect_get(&pos, [0b1111;1], 0b1111);
    expect_get(&pos, [0b11110000;1], 0);
    expect_get(&pos, [0b11110001;1], 0b1);
    expect_get(&pos, [0b11111111;1], 0b1111);
    expect_set(&pos, [0;1], 0, 0, [0;1]);
    expect_set(&pos, [0;1], 1, 1, [0b1;1]);
    expect_set(&pos, [0;1], 0b1111, 0b1111, [0b1111;1]);
    expect_set(&pos, [0;1], 0b11111, 0b1111, [0b1111;1]);
    expect_set(&pos, [0b11110000;1], 0, 0, [0b11110000;1]);
    expect_set(&pos, [0b11110000;1], 1, 1, [0b11110001;1]);
    expect_set(&pos, [0b11110000;1], 0b1111, 0b1111, [0b11111111;1]);
    expect_set(&pos, [0b11110000;1], 0b11111, 0b1111, [0b11111111;1]);
    expect_set(&pos, [0b11111111;1], 0, 0, [0b11110000;1]);
    expect_set(&pos, [0b11111111;1], 0b1, 0b1, [0b11110001;1]);
    expect_set(&pos, [0b11111111;1], 0b1111, 0b1111, [0b11111111;1]);
    expect_set(&pos, [0b11111111;1], 0b11111, 0b1111, [0b11111111;1]);
}

#[test]
fn field_2_5_test() {
    let pos = BitFieldPosition::from_params(None, Some(2), Some(5)).unwrap();
    expect_default(&pos, 0, [0;1]);
    expect_get(&pos, [0;1], 0);
    expect_get(&pos, [0b100;1], 1);
    expect_get(&pos, [0b111100;1], 0b1111);
    expect_get(&pos, [0b11000011;1], 0);
    expect_get(&pos, [0b11000111;1], 0b1);
    expect_get(&pos, [0b11111111;1], 0b1111);
    expect_set(&pos, [0;1], 0, 0, [0;1]);
    expect_set(&pos, [0;1], 1, 1, [0b100;1]);
    expect_set(&pos, [0;1], 0b1111, 0b1111, [0b111100;1]);
    expect_set(&pos, [0;1], 0b11111, 0b1111, [0b111100;1]);
    expect_set(&pos, [0b11000011;1], 0, 0, [0b11000011;1]);
    expect_set(&pos, [0b11000011;1], 1, 1, [0b11000111;1]);
    expect_set(&pos, [0b11000011;1], 0b1111, 0b1111, [0b11111111;1]);
    expect_set(&pos, [0b11000011;1], 0b11111, 0b1111, [0b11111111;1]);
    expect_set(&pos, [0b11111111;1], 0, 0, [0b11000011;1]);
    expect_set(&pos, [0b11111111;1], 0b1, 0b1, [0b11000111;1]);
    expect_set(&pos, [0b11111111;1], 0b1111, 0b1111, [0b11111111;1]);
    expect_set(&pos, [0b11111111;1], 0b11111, 0b1111, [0b11111111;1]);
}

#[test]
fn field_4_7_test() {
    let pos = BitFieldPosition::from_params(None, Some(4), Some(7)).unwrap();
    expect_default(&pos, 0, [0;1]);
    expect_get(&pos, [0;1], 0);
    expect_get(&pos, [0b10000;1], 1);
    expect_get(&pos, [0b11110000;1], 0b1111);
    expect_get(&pos, [0b00001111;1], 0);
    expect_get(&pos, [0b00011111;1], 0b1);
    expect_get(&pos, [0b11111111;1], 0b1111);
    expect_set(&pos, [0;1], 0, 0, [0;1]);
    expect_set(&pos, [0;1], 1, 1, [0b10000;1]);
    expect_set(&pos, [0;1], 0b1111, 0b1111, [0b11110000;1]);
    expect_set(&pos, [0;1], 0b11111, 0b1111, [0b11110000;1]);
    expect_set(&pos, [0b00001111;1], 0, 0, [0b00001111;1]);
    expect_set(&pos, [0b00001111;1], 1, 1, [0b00011111;1]);
    expect_set(&pos, [0b00001111;1], 0b1111, 0b1111, [0b11111111;1]);
    expect_set(&pos, [0b00001111;1], 0b11111, 0b1111, [0b11111111;1]);
    expect_set(&pos, [0b11111111;1], 0, 0, [0b00001111;1]);
    expect_set(&pos, [0b11111111;1], 0b1, 0b1, [0b00011111;1]);
    expect_set(&pos, [0b11111111;1], 0b1111, 0b1111, [0b11111111;1]);
    expect_set(&pos, [0b11111111;1], 0b11111, 0b1111, [0b11111111;1]);
}

#[test]
fn field_0_7_test() {
    let pos = BitFieldPosition::from_params(None, Some(0), Some(7)).unwrap();
    expect_default(&pos, 0, [0;1]);
    expect_get(&pos, [0;1], 0);
    expect_get(&pos, [0b1;1], 1);
    expect_get(&pos, [0b11111111;1], 0b11111111);
    expect_set(&pos, [0;1], 0, 0, [0;1]);
    expect_set(&pos, [0;1], 1, 1, [0b1;1]);
    expect_set(&pos, [0;1], 0b11111111, 0b11111111, [0b11111111;1]);
    expect_set(&pos, [0b11111111;1], 0, 0, [0;1]);
    expect_set(&pos, [0b11111111;1], 0b1, 0b1, [0b00000001;1]);
    expect_set(&pos, [0b11111111;1], 0b11111111, 0b11111111, [0b11111111;1]);
}

#[test]
fn field_6_9_test() {
    let pos = BitFieldPosition::from_params(None, Some(6), Some(9)).unwrap();
    expect_default(&pos, 0, [0;2]);
    expect_get(&pos, [0;2], 0);
    expect_get(&pos, [0b1000000,0], 1);
    expect_get(&pos, [0b11000000,0b11], 0b1111);
    expect_get(&pos, [0b00111111,0b11111100], 0);
    expect_get(&pos, [0b01111111, 0b11111100], 0b1);
    expect_get(&pos, [0b11111111,0b11111111], 0b1111);
    expect_set(&pos, [0;2], 0, 0, [0;2]);
    expect_set(&pos, [0;2], 1, 1, [0b01000000,0]);
    expect_set(&pos, [0;2], 0b1111, 0b1111, [0b11000000,0b00000011]);
    expect_set(&pos, [0;2], 0b11111, 0b1111, [0b11000000,0b00000011]);
    expect_set(&pos, [0b00111111,0b11111100], 0, 0, [0b00111111,0b11111100]);
    expect_set(&pos, [0b00111111,0b11111100], 1, 1, [0b01111111,0b11111100]);
    expect_set(&pos, [0b00111111,0b11111100], 0b1111, 0b1111, [0b11111111,0b11111111]);
    expect_set(&pos, [0b00111111,0b11111100], 0b11111, 0b1111, [0b11111111,0b11111111]);
    expect_set(&pos, [0b11111111;2], 0, 0, [0b00111111,0b11111100]);
    expect_set(&pos, [0b11111111;2], 0b1, 0b1, [0b01111111,0b11111100]);
    expect_set(&pos, [0b11111111;2], 0b1111, 0b1111, [0b11111111;2]);
    expect_set(&pos, [0b11111111;2], 0b11111, 0b1111, [0b11111111;2]);
}
