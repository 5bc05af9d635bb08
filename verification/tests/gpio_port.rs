use led_sample::error::Error;
use led_sample::gpio::{Register, RegisterWrite, RpiGpioPort, BCM2837_GPIO_BASE, GPIO_SIZE};

fn store(register: Register, value: u32) -> RegisterWrite {
    RegisterWrite { register, value }
}

#[test]
fn new_port_has_no_stores() {
    let port = RpiGpioPort::new([1, 2, 3, 4, 5, 6]);
    assert_eq!(port.gpfsel, [1, 2, 3, 4, 5, 6]);
    assert!(port.writes.is_empty());
}

#[test]
fn direction_output_pin_17_uses_register_1_slot_7() {
    let mut port = RpiGpioPort::new([0; 6]);
    assert_eq!(port.direction_output(17), Ok(()));
    assert_eq!(port.gpfsel, [0, 0x0020_0000, 0, 0, 0, 0]);
    assert_eq!(port.writes, vec![store(Register::FunctionSelect(1), 0x0020_0000)]);
}

#[test]
fn direction_output_replaces_the_field_and_keeps_the_rest() {
    let mut port = RpiGpioPort::new([0xFFFF_FFFF; 6]);
    assert_eq!(port.direction_output(17), Ok(()));
    assert_eq!(port.gpfsel[1], 0xFF3F_FFFF);
    assert_eq!(port.gpfsel[0], 0xFFFF_FFFF);
    assert_eq!(port.gpfsel[2], 0xFFFF_FFFF);
    assert_eq!(port.writes, vec![store(Register::FunctionSelect(1), 0xFF3F_FFFF)]);
}

#[test]
fn direction_output_pin_0_and_pin_9() {
    let mut port = RpiGpioPort::new([0b110; 6]);
    assert_eq!(port.direction_output(0), Ok(()));
    assert_eq!(port.gpfsel[0], 0b001);
    assert_eq!(port.direction_output(9), Ok(()));
    assert_eq!(port.gpfsel[0], 0x0800_0001);
}

#[test]
fn direction_output_twice_gives_the_same_word() {
    let mut port = RpiGpioPort::new([0x1234_5678; 6]);
    assert_eq!(port.direction_output(23), Ok(()));
    let once = port.gpfsel;
    assert_eq!(port.direction_output(23), Ok(()));
    assert_eq!(port.gpfsel, once);
    assert_eq!(port.writes.len(), 2);
    assert_eq!(port.writes[0], port.writes[1]);
}

#[test]
fn direction_output_last_pins_with_a_register() {
    let mut port = RpiGpioPort::new([0; 6]);
    assert_eq!(port.direction_output(53), Ok(()));
    assert_eq!(port.gpfsel[5], 0x200);
    assert_eq!(port.direction_output(59), Ok(()));
    assert_eq!(port.gpfsel[5], 0x0800_0200);
}

#[test]
fn direction_output_rejects_pin_60_and_above() {
    let mut port = RpiGpioPort::new([7; 6]);
    assert_eq!(port.direction_output(60), Err(Error::Fault));
    assert_eq!(port.direction_output(61), Err(Error::Fault));
    assert_eq!(port.direction_output(u32::MAX), Err(Error::Fault));
    assert_eq!(port.gpfsel, [7; 6]);
    assert!(port.writes.is_empty());
}

#[test]
fn set_value_high_stores_to_the_set_register() {
    let mut port = RpiGpioPort::new([0; 6]);
    assert_eq!(port.set_value(17, 1), Ok(()));
    assert_eq!(port.writes, vec![store(Register::PinSet(0), 0x0002_0000)]);
    assert_eq!(port.gpfsel, [0; 6]);
}

#[test]
fn set_value_low_stores_to_the_clear_register() {
    let mut port = RpiGpioPort::new([0; 6]);
    assert_eq!(port.set_value(17, 0), Ok(()));
    assert_eq!(port.writes, vec![store(Register::PinClear(0), 0x0002_0000)]);
}

#[test]
fn set_value_other_than_one_clears() {
    let mut port = RpiGpioPort::new([0; 6]);
    assert_eq!(port.set_value(3, 2), Ok(()));
    assert_eq!(port.set_value(3, u32::MAX), Ok(()));
    assert_eq!(
        port.writes,
        vec![store(Register::PinClear(0), 0b1000), store(Register::PinClear(0), 0b1000)]
    );
}

#[test]
fn set_value_second_bank() {
    let mut port = RpiGpioPort::new([0; 6]);
    assert_eq!(port.set_value(31, 1), Ok(()));
    assert_eq!(port.set_value(32, 1), Ok(()));
    assert_eq!(port.set_value(53, 0), Ok(()));
    assert_eq!(port.set_value(63, 1), Ok(()));
    assert_eq!(
        port.writes,
        vec![
            store(Register::PinSet(0), 0x8000_0000),
            store(Register::PinSet(1), 0x0000_0001),
            store(Register::PinClear(1), 0x0020_0000),
            store(Register::PinSet(1), 0x8000_0000),
        ]
    );
}

#[test]
fn set_value_rejects_pin_64_and_above() {
    let mut port = RpiGpioPort::new([0; 6]);
    assert_eq!(port.set_value(64, 1), Err(Error::Fault));
    assert_eq!(port.set_value(64, 0), Err(Error::Fault));
    assert_eq!(port.set_value(u32::MAX, 1), Err(Error::Fault));
    assert!(port.writes.is_empty());
}

#[test]
fn take_writes_hands_out_in_order_and_empties() {
    let mut port = RpiGpioPort::new([0; 6]);
    assert_eq!(port.direction_output(17), Ok(()));
    assert_eq!(port.set_value(17, 1), Ok(()));
    let taken = port.take_writes();
    assert_eq!(
        taken,
        vec![
            store(Register::FunctionSelect(1), 0x0020_0000),
            store(Register::PinSet(0), 0x0002_0000),
        ]
    );
    assert!(port.writes.is_empty());
    assert_eq!(port.gpfsel[1], 0x0020_0000);
    assert!(port.take_writes().is_empty());
}

#[test]
fn register_offsets_follow_the_block_layout() {
    assert_eq!(Register::FunctionSelect(0).offset(), Some(0x00));
    assert_eq!(Register::FunctionSelect(1).offset(), Some(0x04));
    assert_eq!(Register::FunctionSelect(5).offset(), Some(0x14));
    assert_eq!(Register::PinSet(0).offset(), Some(0x1C));
    assert_eq!(Register::PinSet(1).offset(), Some(0x20));
    assert_eq!(Register::PinClear(0).offset(), Some(0x28));
    assert_eq!(Register::PinClear(1).offset(), Some(0x2C));
    assert_eq!(GPIO_SIZE, 0xB4);
    assert_eq!(BCM2837_GPIO_BASE, 0x3F20_0000);
}

#[test]
fn registers_that_the_block_lacks_have_no_offset() {
    assert_eq!(Register::FunctionSelect(6).offset(), None);
    assert_eq!(Register::PinSet(2).offset(), None);
    assert_eq!(Register::PinClear(2).offset(), None);
    assert_eq!(Register::PinClear(usize::MAX).offset(), None);
}
