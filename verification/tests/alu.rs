use chip8::alu::{add_with_carry, digits, shift_left, shift_right, sub_with_borrow};

#[test]
fn add_carries_exactly_above_255() {
    for a in 0..=255u8 {
        for b in 0..=255u8 {
            let (sum, flag) = add_with_carry(a, b);
            let wide = a as u16 + b as u16;
            assert_eq!(sum, (wide % 256) as u8);
            assert_eq!(flag, if wide > 255 { 1 } else { 0 });
        }
    }
}

#[test]
fn add_examples() {
    assert_eq!(add_with_carry(200, 100), (44, 1));
    assert_eq!(add_with_carry(255, 1), (0, 1));
    assert_eq!(add_with_carry(255, 0), (255, 0));
    assert_eq!(add_with_carry(127, 128), (255, 0));
    assert_eq!(add_with_carry(128, 128), (0, 1));
}

#[test]
fn sub_reports_no_borrow_exactly_when_a_is_not_below_b() {
    for a in 0..=255u8 {
        for b in 0..=255u8 {
            let (diff, flag) = sub_with_borrow(a, b);
            assert_eq!(diff, a.wrapping_sub(b));
            assert_eq!(flag, if a >= b { 1 } else { 0 });
        }
    }
}

#[test]
fn sub_examples() {
    assert_eq!(sub_with_borrow(10, 3), (7, 1));
    assert_eq!(sub_with_borrow(3, 10), (249, 0));
    assert_eq!(sub_with_borrow(7, 7), (0, 1));
    assert_eq!(sub_with_borrow(0, 255), (1, 0));
}

#[test]
fn shifts_report_the_bit_pushed_out() {
    assert_eq!(shift_right(0b1000_0001), (0b0100_0000, 1));
    assert_eq!(shift_right(0b1000_0010), (0b0100_0001, 0));
    assert_eq!(shift_left(0b1000_0001), (0b0000_0010, 1));
    assert_eq!(shift_left(0b0100_0001), (0b1000_0010, 0));
    for a in 0..=255u8 {
        assert_eq!(shift_right(a), (a >> 1, a & 1));
        assert_eq!(shift_left(a), (a << 1, a >> 7));
    }
}

#[test]
fn digits_of_every_byte() {
    for value in 0..=255u8 {
        let (hundreds, tens, units) = digits(value);
        assert_eq!(hundreds, value / 100);
        assert_eq!(tens, (value / 10) % 10);
        assert_eq!(units, value % 10);
        assert_eq!(100 * hundreds as u16 + 10 * tens as u16 + units as u16, value as u16);
    }
}

#[test]
fn digits_examples() {
    assert_eq!(digits(0), (0, 0, 0));
    assert_eq!(digits(7), (0, 0, 7));
    assert_eq!(digits(42), (0, 4, 2));
    assert_eq!(digits(109), (1, 0, 9));
    assert_eq!(digits(255), (2, 5, 5));
}
