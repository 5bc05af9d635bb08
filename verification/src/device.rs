//! The LED device: a 4 KiB byte buffer and the port of the pin that the
//! bytes written to the buffer drive.
//!
//! A write copies its input into the buffer, makes pin 17 an output and
//! then reads the byte now at the write offset as a command: `'0'` drives
//! the pin low, `'1'` drives it high, anything else is refused. The copy
//! is not undone when the command is refused. The device is handed to
//! `write` by exclusive reference, so the buffer and the port change
//! together and no second write can start between the two pin operations.

use vstd::prelude::*;
use crate::error::Error;
use crate::gpio::{
    driven_level, lemma_direction_output_drives_no_pin, lemma_set_value_drives_pin, select_output,
    PortView, Register, RegisterWrite, RpiGpioPort,
};

verus! {

/// Size in bytes of the device buffer.
pub const GLOBALMEM_SIZE: usize = 0x1000;

/// The pin that the device drives.
pub const LED_PIN: u32 = 17;

/// Command byte that drives the pin low: ASCII `'0'`.
pub const LED_OFF: u8 = 48;

/// Command byte that drives the pin high: ASCII `'1'`.
pub const LED_ON: u8 = 49;

/// How many bytes a transfer at `offset` moves when `available` bytes are
/// offered or asked for: none at or past the end of the buffer, else as
/// many as fit before the end.
pub open spec fn copy_length(offset: int, available: int) -> int {
    if offset >= GLOBALMEM_SIZE {
        0
    } else if GLOBALMEM_SIZE - offset <= available {
        GLOBALMEM_SIZE - offset
    } else {
        available
    }
}

/// How many bytes a read or a write at `offset` moves when `available`
/// bytes are asked for or offered.
pub fn transfer_length(offset: u64, available: usize) -> (length: usize)
    ensures
        length == copy_length(offset as int, available as int),
        length <= available,
        offset + length <= GLOBALMEM_SIZE || length == 0,
{
    if offset >= GLOBALMEM_SIZE as u64 {
        return 0;
    }
    let room: usize = GLOBALMEM_SIZE - offset as usize;
    if room <= available {
        room
    } else {
        available
    }
}

/// The bytes a read at `offset` of at most `max_length` bytes returns:
/// none at or past the end of the buffer.
pub open spec fn read_bytes(buffer: Seq<u8>, offset: int, max_length: int) -> Seq<u8> {
    if offset >= GLOBALMEM_SIZE {
        Seq::empty()
    } else {
        buffer.subrange(offset, offset + copy_length(offset, max_length))
    }
}

/// The buffer after `input` was copied in at `offset`: the bytes that fit
/// replace those from `offset` on, the others stay.
pub open spec fn written_buffer(buffer: Seq<u8>, offset: int, input: Seq<u8>) -> Seq<u8> {
    if offset >= GLOBALMEM_SIZE {
        buffer
    } else {
        Seq::new(
            buffer.len(),
            |i: int|
                if offset <= i < offset + copy_length(offset, input.len() as int) {
                    input[i - offset]
                } else {
                    buffer[i]
                },
        )
    }
}

/// What a device is: the contents of its buffer and its port.
pub struct DeviceView {
    pub inner: Seq<u8>,
    pub port: PortView,
}

impl DeviceView {
    /// Whether the view is that of a device: a buffer of 4096 bytes and a
    /// well-formed port.
    pub open spec fn wf(self) -> bool {
        self.inner.len() == GLOBALMEM_SIZE && self.port.wf()
    }

    /// The port after the command byte `command` was obeyed: pin 17 is
    /// made an output in any case, then driven low for `'0'` and high for
    /// `'1'`.
    pub open spec fn obey(port: PortView, command: u8) -> PortView {
        let port = port.direction_output(LED_PIN);
        if command == LED_OFF {
            port.set_value(LED_PIN, 0)
        } else if command == LED_ON {
            port.set_value(LED_PIN, 1)
        } else {
            port
        }
    }

    /// The device after a write of `input` at `offset`.
    pub open spec fn write(self, offset: int, input: Seq<u8>) -> DeviceView {
        if offset >= GLOBALMEM_SIZE {
            self
        } else {
            let inner = written_buffer(self.inner, offset, input);
            DeviceView { inner, port: Self::obey(self.port, inner[offset]) }
        }
    }

    /// What a write of `input` at `offset` returns: no byte at or past the
    /// end of the buffer, else the number of bytes copied where the byte
    /// then at `offset` is a command, and `Error::InvalidArgument` where it
    /// is not.
    pub open spec fn write_result(self, offset: int, input: Seq<u8>) -> Result<usize, Error> {
        if offset >= GLOBALMEM_SIZE {
            Ok(0usize)
        } else {
            let command = written_buffer(self.inner, offset, input)[offset];
            if command == LED_OFF || command == LED_ON {
                Ok(copy_length(offset, input.len() as int) as usize)
            } else {
                Err(Error::InvalidArgument)
            }
        }
    }
}

/// The state that every open handle of the device shares.
#[derive(Debug)]
pub struct RustMiscdevData {
    /// The device buffer.
    pub inner: [u8; GLOBALMEM_SIZE],
    /// The port of the LED's pin.
    pub rpi_gpio_port: RpiGpioPort,
}

impl View for RustMiscdevData {
    type V = DeviceView;

    open spec fn view(&self) -> DeviceView {
        DeviceView { inner: self.inner@, port: self.rpi_gpio_port@ }
    }
}

impl RustMiscdevData {
    /// A device over `port` whose buffer holds zeros.
    pub fn new(port: RpiGpioPort) -> (data: Self)
        ensures
            data@.port == port@,
            data@.inner == Seq::new(GLOBALMEM_SIZE as nat, |i: int| 0u8),
    {
        let data = RustMiscdevData { inner: [0u8; GLOBALMEM_SIZE], rpi_gpio_port: port };
        assert(data@.inner =~= Seq::new(GLOBALMEM_SIZE as nat, |i: int| 0u8));
        data
    }
}

/// The operations of an open handle of the device.
pub struct RustFile;

impl RustFile {
    /// Reads at most `max_length` bytes of the buffer from `offset` on.
    /// At or past the end of the buffer there is nothing to read; before
    /// it the read stops at the end of the buffer.
    pub fn read(shared: &RustMiscdevData, max_length: usize, offset: u64) -> (out: Vec<u8>)
        ensures
            out@ == read_bytes(shared@.inner, offset as int, max_length as int),
            offset >= GLOBALMEM_SIZE ==> out@.len() == 0,
            out@.len() == copy_length(offset as int, max_length as int),
    {
        let mut out: Vec<u8> = Vec::new();
        if offset >= GLOBALMEM_SIZE as u64 {
            return out;
        }
        let start: usize = offset as usize;
        let read_length: usize = transfer_length(offset, max_length);
        let mut i: usize = 0;
        while i < read_length
            invariant
                i <= read_length,
                start + read_length <= GLOBALMEM_SIZE,
                out@ == shared.inner@.subrange(start as int, start + i),
            decreases read_length - i,
        {
            out.push(shared.inner[start + i]);
            i += 1;
            assert(out@ =~= shared.inner@.subrange(start as int, start + i));
        }
        out
    }

    /// Writes `input` into the buffer at `offset` and obeys the byte then
    /// at `offset` as a command for pin 17.
    ///
    /// At or past the end of the buffer nothing happens and 0 is returned.
    /// Before it, the bytes that fit are copied, pin 17 is made an output,
    /// and the command byte decides: `'0'` drives the pin low, `'1'` high,
    /// and the number of bytes copied is returned; any other byte gives
    /// `Error::InvalidArgument`, with the bytes copied all the same and
    /// the pin an output but not driven.
    pub fn write(shared: &mut RustMiscdevData, input: &[u8], offset: u64) -> (res: Result<
        usize,
        Error,
    >)
        ensures
            final(shared)@ == old(shared)@.write(offset as int, input@),
            res == old(shared)@.write_result(offset as int, input@),
            offset >= GLOBALMEM_SIZE ==> res == Ok::<usize, Error>(0usize) && final(shared)@ == old(
                shared,
            )@,
            final(shared)@.inner == written_buffer(old(shared)@.inner, offset as int, input@),
            res is Err <==> offset < GLOBALMEM_SIZE && final(shared)@.inner[offset as int] != LED_OFF
                && final(shared)@.inner[offset as int] != LED_ON,
            res is Err ==> res == Err::<usize, Error>(Error::InvalidArgument),
            res is Ok && offset < GLOBALMEM_SIZE ==> res == Ok::<usize, Error>(
                copy_length(offset as int, input@.len() as int) as usize,
            ),
    {
        if offset >= GLOBALMEM_SIZE as u64 {
            return Ok(0);
        }
        let start: usize = offset as usize;
        let write_length: usize = transfer_length(offset, input.len());
        let mut i: usize = 0;
        while i < write_length
            invariant
                i <= write_length,
                write_length <= input@.len(),
                start + write_length <= GLOBALMEM_SIZE,
                shared.rpi_gpio_port == old(shared).rpi_gpio_port,
                forall|k: int|
                    0 <= k < GLOBALMEM_SIZE ==> #[trigger] shared.inner@[k] == if start <= k < start
                        + i {
                        input@[k - start]
                    } else {
                        old(shared).inner@[k]
                    },
            decreases write_length - i,
        {
            shared.inner[start + i] = input[i];
            i += 1;
        }
        assert(shared.inner@ =~= written_buffer(old(shared).inner@, offset as int, input@));
        let _ = shared.rpi_gpio_port.direction_output(LED_PIN);
        let command: u8 = shared.inner[start];
        if command == LED_OFF {
            let _ = shared.rpi_gpio_port.set_value(LED_PIN, 0);
        } else if command == LED_ON {
            let _ = shared.rpi_gpio_port.set_value(LED_PIN, 1);
        } else {
            return Err(Error::InvalidArgument);
        }
        Ok(write_length)
    }
}

/// The view of every device is well formed.
pub proof fn lemma_device_view_wf(data: &RustMiscdevData)
    ensures
        data@.wf(),
{
}

/// A read back of what was written: after a write of `payload` at an
/// offset inside the buffer, a read at that offset of as many bytes as
/// the payload has returns the payload, cut to what fits before the end
/// of the buffer. This holds whether or not the write's command byte was
/// accepted.
pub proof fn lemma_write_then_read(device: DeviceView, offset: int, payload: Seq<u8>)
    requires
        device.wf(),
        0 <= offset < GLOBALMEM_SIZE,
    ensures
        read_bytes(device.write(offset, payload).inner, offset, payload.len() as int)
            == payload.subrange(0, copy_length(offset, payload.len() as int)),
        copy_length(offset, payload.len() as int) == vstd::math::min(
            payload.len() as int,
            GLOBALMEM_SIZE - offset,
        ),
{
    assert(read_bytes(device.write(offset, payload).inner, offset, payload.len() as int)
        =~= payload.subrange(0, copy_length(offset, payload.len() as int)));
}

/// A write leaves every byte outside the range it copied as it was, and
/// never changes the length of the buffer.
pub proof fn lemma_write_keeps_rest(device: DeviceView, offset: int, payload: Seq<u8>, at: int)
    requires
        device.wf(),
        0 <= offset,
        0 <= at < GLOBALMEM_SIZE,
        at < offset || at >= offset + copy_length(offset, payload.len() as int),
    ensures
        device.write(offset, payload).wf(),
        device.write(offset, payload).inner[at] == device.inner[at],
{
}

/// The stores that one write issues on a port whose function-select
/// register 1 holds `fsel1`, where the byte at the write offset is
/// `command`. The first stores to function-select register 1 the word that
/// makes slot 7, pin 17, an output. For `'0'` a second one stores bit 17
/// to the clear register of bank 0, for `'1'` to the set register of bank
/// 0; for any other byte there is no second one.
pub open spec fn led_stores(fsel1: u32, command: u8) -> Seq<RegisterWrite> {
    let configure = RegisterWrite {
        register: Register::FunctionSelect(1),
        value: select_output(fsel1, 7),
    };
    if command == LED_OFF {
        seq![configure, RegisterWrite { register: Register::PinClear(0), value: 0x2_0000u32 }]
    } else if command == LED_ON {
        seq![configure, RegisterWrite { register: Register::PinSet(0), value: 0x2_0000u32 }]
    } else {
        seq![configure]
    }
}

/// What a write does to the pin: function-select register 1 takes the
/// word that makes pin 17 an output, and the stores of the write, as
/// `led_stores` gives them, follow those issued before it.
pub proof fn lemma_write_drives_led(device: DeviceView, offset: int, input: Seq<u8>)
    requires
        device.wf(),
        0 <= offset < GLOBALMEM_SIZE,
    ensures
        device.write(offset, input).port.gpfsel == device.port.gpfsel.update(
            1,
            select_output(device.port.gpfsel[1], 7),
        ),
        device.write(offset, input).port.writes == device.port.writes + led_stores(
            device.port.gpfsel[1],
            device.write(offset, input).inner[offset],
        ),
{
    assert(1u32 << (17u32 % 32u32) == 0x2_0000u32) by (bit_vector);
    assert(device.write(offset, input).port.writes =~= device.port.writes + led_stores(
        device.port.gpfsel[1],
        device.write(offset, input).inner[offset],
    ));
}

/// The level that a write leaves the LED's pin at: low where the byte at
/// the write offset is `'0'`, high where it is `'1'`, and the level it had
/// where the byte is neither.
pub proof fn lemma_write_sets_led_level(device: DeviceView, offset: int, input: Seq<u8>)
    requires
        device.wf(),
        0 <= offset < GLOBALMEM_SIZE,
    ensures
        ({
            let after = device.write(offset, input);
            let command = after.inner[offset];
            driven_level(after.port.writes, LED_PIN) == if command == LED_OFF {
                Some(false)
            } else if command == LED_ON {
                Some(true)
            } else {
                driven_level(device.port.writes, LED_PIN)
            }
        }),
{
    let configured = device.port.direction_output(LED_PIN);
    lemma_direction_output_drives_no_pin(device.port, LED_PIN, LED_PIN);
    lemma_set_value_drives_pin(configured, LED_PIN, 0);
    lemma_set_value_drives_pin(configured, LED_PIN, 1);
}

/// Two writes, one after the other, do not mix their stores: those of the
/// first stand together, then those of the second, each one's pin made an
/// output before it is driven.
pub proof fn lemma_writes_do_not_interleave(
    device: DeviceView,
    first_offset: int,
    first_input: Seq<u8>,
    second_offset: int,
    second_input: Seq<u8>,
)
    requires
        device.wf(),
        0 <= first_offset < GLOBALMEM_SIZE,
        0 <= second_offset < GLOBALMEM_SIZE,
    ensures
        ({
            let between = device.write(first_offset, first_input);
            let after = between.write(second_offset, second_input);
            after.port.writes == device.port.writes + led_stores(
                device.port.gpfsel[1],
                between.inner[first_offset],
            ) + led_stores(between.port.gpfsel[1], after.inner[second_offset])
        }),
{
    let between = device.write(first_offset, first_input);
    lemma_write_drives_led(device, first_offset, first_input);
    assert(between.wf());
    lemma_write_drives_led(between, second_offset, second_input);
}

} // verus!
