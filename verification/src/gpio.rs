//! The GPIO controller's register block, as far as the driver touches it,
//! and the two pin operations: making a pin an output and driving it.
//!
//! The port does not reach the hardware itself. It keeps the contents of
//! the read-write function-select registers and records, in order, every
//! register store it issues; whoever owns the mapped block carries the
//! stores out.

use vstd::prelude::*;
use crate::error::Error;

verus! {

/// Number of function-select registers; each holds ten pins.
pub const FSEL_REGISTERS: usize = 6;

/// Number of banks of the set and clear registers; each holds 32 pins.
pub const PIN_BANKS: usize = 2;

/// Pins whose function one function-select register holds.
pub const PINS_PER_FSEL: u32 = 10;

/// Pins that one set or clear register drives.
pub const PINS_PER_BANK: u32 = 32;

/// Size in bytes of the controller's register block.
pub const GPIO_SIZE: u64 = 0xB4;

/// Physical address of the register block on the BCM2837.
pub const BCM2837_GPIO_BASE: u64 = 0x3F20_0000;

/// A register of the block that the driver stores to.
#[derive(Clone, Copy, Debug, PartialEq, Eq, Structural)]
pub enum Register {
    /// Function-select register, by index (0 to 5).
    FunctionSelect(usize),
    /// Pin-set register, by bank (0 or 1).
    PinSet(usize),
    /// Pin-clear register, by bank (0 or 1).
    PinClear(usize),
}

impl Register {
    /// Whether the block has this register.
    pub open spec fn valid(self) -> bool {
        match self {
            Register::FunctionSelect(i) => i < FSEL_REGISTERS,
            Register::PinSet(b) => b < PIN_BANKS,
            Register::PinClear(b) => b < PIN_BANKS,
        }
    }

    /// Byte offset of the register from the base of the block.
    pub open spec fn spec_offset(self) -> int {
        match self {
            Register::FunctionSelect(i) => 4 * i,
            Register::PinSet(b) => 0x1C + 4 * b,
            Register::PinClear(b) => 0x28 + 4 * b,
        }
    }

    /// Byte offset of the register from the base of the block, or `None`
    /// for a register that the block does not have.
    pub fn offset(self) -> (off: Option<u64>)
        ensures
            off == if self.valid() {
                Some(self.spec_offset() as u64)
            } else {
                None::<u64>
            },
    {
        match self {
            Register::FunctionSelect(i) => if i < FSEL_REGISTERS {
                Some(4 * (i as u64))
            } else {
                None
            },
            Register::PinSet(b) => if b < PIN_BANKS {
                Some(0x1C + 4 * (b as u64))
            } else {
                None
            },
            Register::PinClear(b) => if b < PIN_BANKS {
                Some(0x28 + 4 * (b as u64))
            } else {
                None
            },
        }
    }
}

/// One store to a register: which register, and the word stored.
#[derive(Clone, Copy, Debug, PartialEq, Eq, Structural)]
pub struct RegisterWrite {
    pub register: Register,
    pub value: u32,
}

/// The word `word` with the three-bit field of slot `slot` set to `001`
/// (output) and every other bit kept.
pub open spec fn select_output(word: u32, slot: u32) -> u32 {
    (word & !(0b111u32 << (slot * 3))) | (0b001u32 << (slot * 3))
}

/// The three-bit function field of slot `slot` in a function-select word.
pub open spec fn function_field(word: u32, slot: u32) -> u32 {
    (word >> (slot * 3)) & 0b111u32
}

/// The word with only the bit of pin `offset` within its bank set.
pub open spec fn pin_mask(offset: u32) -> u32 {
    1u32 << (offset % PINS_PER_BANK)
}

/// The level that a sequence of stores, oldest first, leaves pin `pin` at:
/// high where the last store that names the pin's bit went to the set
/// register of its bank, low where it went to the clear register, and
/// `None` where no store names the bit.
pub open spec fn driven_level(writes: Seq<RegisterWrite>, pin: u32) -> Option<bool>
    decreases writes.len(),
{
    if writes.len() == 0 {
        None
    } else {
        let last = writes.last();
        let bank = (pin / PINS_PER_BANK) as usize;
        let named = last.value & pin_mask(pin) != 0;
        if named && last.register == Register::PinSet(bank) {
            Some(true)
        } else if named && last.register == Register::PinClear(bank) {
            Some(false)
        } else {
            driven_level(writes.drop_last(), pin)
        }
    }
}

/// What a port is: the contents of the function-select registers and the
/// stores issued so far, oldest first.
pub struct PortView {
    pub gpfsel: Seq<u32>,
    pub writes: Seq<RegisterWrite>,
}

impl PortView {
    /// Whether the view is that of a port: one word for each of the six
    /// function-select registers.
    pub open spec fn wf(self) -> bool {
        self.gpfsel.len() == FSEL_REGISTERS
    }

    /// The port after pin `offset` was made an output; unchanged where the
    /// pin has no function-select register.
    pub open spec fn direction_output(self, offset: u32) -> PortView {
        let index = (offset / PINS_PER_FSEL) as int;
        if index < FSEL_REGISTERS {
            let word = select_output(self.gpfsel[index], offset % PINS_PER_FSEL);
            PortView {
                gpfsel: self.gpfsel.update(index, word),
                writes: self.writes.push(
                    RegisterWrite { register: Register::FunctionSelect(index as usize), value: word },
                ),
            }
        } else {
            self
        }
    }

    /// The port after pin `offset` was driven high (`value` 1) or low (any
    /// other `value`); unchanged where the pin has no bank.
    pub open spec fn set_value(self, offset: u32, value: u32) -> PortView {
        let bank = (offset / PINS_PER_BANK) as usize;
        if bank < PIN_BANKS {
            let register = if value == 1 {
                Register::PinSet(bank)
            } else {
                Register::PinClear(bank)
            };
            PortView {
                gpfsel: self.gpfsel,
                writes: self.writes.push(RegisterWrite { register, value: pin_mask(offset) }),
            }
        } else {
            self
        }
    }
}

/// The driver's side of the GPIO controller.
#[derive(Debug)]
pub struct RpiGpioPort {
    /// Contents of the six function-select registers.
    pub gpfsel: [u32; 6],
    /// Stores issued and not yet taken, oldest first.
    pub writes: Vec<RegisterWrite>,
}

impl View for RpiGpioPort {
    type V = PortView;

    open spec fn view(&self) -> PortView {
        PortView { gpfsel: self.gpfsel@, writes: self.writes@ }
    }
}

impl RpiGpioPort {
    /// A port over a block whose function-select registers hold `gpfsel`,
    /// with no store issued yet.
    pub fn new(gpfsel: [u32; 6]) -> (port: Self)
        ensures
            port@.gpfsel == gpfsel@,
            port@.writes == Seq::<RegisterWrite>::empty(),
    {
        RpiGpioPort { gpfsel, writes: Vec::new() }
    }

    /// Hands out the stores issued since the last call, oldest first, and
    /// leaves none behind.
    pub fn take_writes(&mut self) -> (taken: Vec<RegisterWrite>)
        ensures
            taken@ == old(self)@.writes,
            final(self)@.gpfsel == old(self)@.gpfsel,
            final(self)@.writes == Seq::<RegisterWrite>::empty(),
    {
        let mut taken: Vec<RegisterWrite> = Vec::new();
        std::mem::swap(&mut self.writes, &mut taken);
        taken
    }

    /// Makes pin `offset` an output: in the function-select register
    /// `offset / 10` the three bits of slot `offset % 10` become `001`.
    /// A pin of 60 or more has no such register and is refused with
    /// `Error::Fault`, the port untouched.
    pub fn direction_output(&mut self, offset: u32) -> (res: Result<(), Error>)
        ensures
            res is Err <==> offset >= 60,
            res is Err ==> res == Err::<(), Error>(Error::Fault) && final(self)@ == old(self)@,
            final(self)@ == old(self)@.direction_output(offset),
    {
        let fsel_index: usize = (offset / PINS_PER_FSEL) as usize;
        let fsel_shift: u32 = (offset % PINS_PER_FSEL) * 3;
        if fsel_index >= FSEL_REGISTERS {
            return Err(Error::Fault);
        }
        let mut fsel_value: u32 = self.gpfsel[fsel_index];
        fsel_value &= !(0b111u32 << fsel_shift);
        fsel_value |= 0b001u32 << fsel_shift;
        self.gpfsel[fsel_index] = fsel_value;
        self.writes.push(
            RegisterWrite { register: Register::FunctionSelect(fsel_index), value: fsel_value },
        );
        Ok(())
    }

    /// Drives pin `offset`: high through the set register of bank
    /// `offset / 32` where `value` is 1, low through the clear register of
    /// that bank otherwise. The word stored has the single bit
    /// `offset % 32`. A pin of 64 or more has no bank and is refused with
    /// `Error::Fault`, the port untouched.
    pub fn set_value(&mut self, offset: u32, value: u32) -> (res: Result<(), Error>)
        ensures
            res is Err <==> offset >= 64,
            res is Err ==> res == Err::<(), Error>(Error::Fault) && final(self)@ == old(self)@,
            final(self)@ == old(self)@.set_value(offset, value),
    {
        let bank: usize = (offset / PINS_PER_BANK) as usize;
        if bank >= PIN_BANKS {
            return Err(Error::Fault);
        }
        let register = if value == 1 {
            Register::PinSet(bank)
        } else {
            Register::PinClear(bank)
        };
        let word: u32 = 1u32 << (offset % PINS_PER_BANK);
        self.writes.push(RegisterWrite { register, value: word });
        Ok(())
    }
}

/// The view of every port is well formed.
pub proof fn lemma_port_view_wf(port: &RpiGpioPort)
    ensures
        port@.wf(),
{
}

/// Every register of the block is a 32-bit word inside the block, at an
/// offset that is a multiple of four, and no two registers share one.
pub proof fn lemma_register_offsets(a: Register, b: Register)
    requires
        a.valid(),
        b.valid(),
    ensures
        0 <= a.spec_offset(),
        a.spec_offset() + 4 <= GPIO_SIZE,
        a.spec_offset() % 4 == 0,
        a.spec_offset() == b.spec_offset() ==> a == b,
{
}

/// Making a pin an output gives its slot the function `001`.
pub proof fn lemma_select_output_sets_field(word: u32, slot: u32)
    requires
        slot < PINS_PER_FSEL,
    ensures
        function_field(select_output(word, slot), slot) == 1,
{
    assert(slot < 10 ==> function_field(select_output(word, slot), slot) == 1) by (bit_vector);
}

/// Making a pin an output leaves the function of every other slot of the
/// word as it was, and so the two bits above the ten slots.
pub proof fn lemma_select_output_keeps_others(word: u32, slot: u32, other: u32)
    requires
        slot < PINS_PER_FSEL,
        other < PINS_PER_FSEL,
        other != slot,
    ensures
        function_field(select_output(word, slot), other) == function_field(word, other),
        select_output(word, slot) >> 30 == word >> 30,
{
    assert(slot < 10 && other < 10 && other != slot ==> function_field(
        select_output(word, slot),
        other,
    ) == function_field(word, other)) by (bit_vector);
    assert(slot < 10 ==> select_output(word, slot) >> 30 == word >> 30) by (bit_vector);
}

/// Making a pin an output twice stores the same word as doing so once.
pub proof fn lemma_select_output_idempotent(word: u32, slot: u32)
    requires
        slot < PINS_PER_FSEL,
    ensures
        select_output(select_output(word, slot), slot) == select_output(word, slot),
{
    assert(slot < 10 ==> select_output(select_output(word, slot), slot) == select_output(
        word,
        slot,
    )) by (bit_vector);
}

/// Making a pin an output is idempotent on the function-select registers:
/// a second call leaves them as the first did, and stores that same word
/// once more.
pub proof fn lemma_direction_output_idempotent(port: PortView, offset: u32)
    requires
        port.wf(),
    ensures
        port.direction_output(offset).direction_output(offset).gpfsel == port.direction_output(
            offset,
        ).gpfsel,
        offset < 60 ==> port.direction_output(offset).direction_output(offset).writes
            == port.direction_output(offset).writes.push(port.direction_output(offset).writes.last()),
{
    if offset < 60 {
        let index = (offset / PINS_PER_FSEL) as int;
        lemma_select_output_idempotent(port.gpfsel[index], offset % PINS_PER_FSEL);
        assert(port.direction_output(offset).direction_output(offset).gpfsel
            =~= port.direction_output(offset).gpfsel);
    }
}

/// A pin is refused by `direction_output` exactly from 60 on and by
/// `set_value` exactly from 64 on; a refused call changes nothing, an
/// accepted one issues exactly one store.
pub proof fn lemma_pin_ranges(port: PortView, offset: u32, value: u32)
    ensures
        offset >= 60 ==> port.direction_output(offset) == port,
        offset < 60 ==> port.direction_output(offset).writes.len() == port.writes.len() + 1,
        offset >= 64 ==> port.set_value(offset, value) == port,
        offset < 64 ==> port.set_value(offset, value).writes.len() == port.writes.len() + 1,
{
}

/// The word that drives a pin has exactly the bit `offset % 32` set.
pub proof fn lemma_pin_mask_single_bit(offset: u32, bit: u32)
    requires
        bit < PINS_PER_BANK,
    ensures
        (pin_mask(offset) >> bit) & 1 == if bit == offset % PINS_PER_BANK {
            1u32
        } else {
            0u32
        },
{
    let position = offset % PINS_PER_BANK;
    assert(position < 32 && bit < 32 ==> ((1u32 << position) >> bit) & 1 == if bit == position {
        1u32
    } else {
        0u32
    }) by (bit_vector);
}

/// Driving a pin leaves it at the level asked for: high for a `value` of
/// 1, low for any other.
pub proof fn lemma_set_value_drives_pin(port: PortView, offset: u32, value: u32)
    requires
        offset < 64,
    ensures
        driven_level(port.set_value(offset, value).writes, offset) == Some(value == 1),
{
    let position = offset % PINS_PER_BANK;
    assert(position < 32 ==> (1u32 << position) & (1u32 << position) != 0) by (bit_vector);
}

/// Making a pin an output drives no pin: every pin is left at the level
/// that the earlier stores gave it.
pub proof fn lemma_direction_output_drives_no_pin(port: PortView, offset: u32, pin: u32)
    ensures
        driven_level(port.direction_output(offset).writes, pin) == driven_level(port.writes, pin),
{
    if offset < 60 {
        let after = port.direction_output(offset).writes;
        assert(after.drop_last() =~= port.writes);
    }
}

} // verus!
