//! Decisions taken while bringing up the PS/2 controller: checksums of the
//! ACPI tables, the controller's answers to its tests.
use vstd::prelude::*;

verus! {

/// Commands understood by the PS/2 controller.
#[derive(Clone, Copy, Debug, PartialEq, Eq, Structural)]
pub enum Command {
    DisableFirstPort,
    DisableSecondPort,
    EnableFirstPort,
    EnableSecondPort,
    ReadConfig,
    WriteConfig,
    SelfTest,
    TestFirstPort,
    TestSecondPort,
}

impl Command {
    /// The command byte.
    pub fn code(self) -> (r: u8)
        ensures
            r == match self {
                Command::DisableFirstPort => 0xADu8,
                Command::DisableSecondPort => 0xA7u8,
                Command::EnableFirstPort => 0xAEu8,
                Command::EnableSecondPort => 0xA8u8,
                Command::ReadConfig => 0x20u8,
                Command::WriteConfig => 0x60u8,
                Command::SelfTest => 0xAAu8,
                Command::TestFirstPort => 0xABu8,
                Command::TestSecondPort => 0xA9u8,
            },
    {
        match self {
            Command::DisableFirstPort => 0xAD,
            Command::DisableSecondPort => 0xA7,
            Command::EnableFirstPort => 0xAE,
            Command::EnableSecondPort => 0xA8,
            Command::ReadConfig => 0x20,
            Command::WriteConfig => 0x60,
            Command::SelfTest => 0xAA,
            Command::TestFirstPort => 0xAB,
            Command::TestSecondPort => 0xA9,
        }
    }
}

/// Bits of the controller's status byte.
#[derive(Clone, Copy, Debug, PartialEq, Eq, Structural)]
pub enum Status {
    OutputFull,
    InputFull,
}

impl Status {
    /// The status bit.
    pub fn bit(self) -> (r: u8)
        ensures
            r == match self {
                Status::OutputFull => 0x01u8,
                Status::InputFull => 0x02u8,
            },
    {
        match self {
            Status::OutputFull => 0x01,
            Status::InputFull => 0x02,
        }
    }
}

/// Why bringing up the controller failed.
#[derive(Clone, Copy, Debug, PartialEq, Eq, Structural)]
pub enum ControllerError {
    ClockLineStuckLow,
    ClockLineStuckHigh,
    DataLineStuckLow,
    DataLineStuckHigh,
    SelfTestFailed,
    NoController,
}

/// Sum of the bytes, as a mathematical integer.
pub open spec fn byte_sum(bytes: Seq<u8>) -> int
    decreases bytes.len(),
{
    if bytes.len() == 0 {
        0
    } else {
        byte_sum(bytes.drop_last()) + bytes.last()
    }
}

/// An ACPI table is valid when its bytes sum to zero modulo 256.
pub fn checksum_valid(bytes: &[u8]) -> (r: bool)
    ensures
        r == (byte_sum(bytes@) % 256 == 0),
{
    let mut sum: u8 = 0;
    let mut i: usize = 0;
    while i < bytes.len()
        invariant
            i <= bytes@.len(),
            sum == byte_sum(bytes@.subrange(0, i as int)) % 256,
        decreases bytes@.len() - i,
    {
        let ghost prefix = bytes@.subrange(0, i as int);
        assert(bytes@.subrange(0, i + 1).drop_last() =~= prefix);
        sum = sum.wrapping_add(bytes[i]);
        proof {
            let s = byte_sum(prefix);
            assert(byte_sum(bytes@.subrange(0, i + 1)) == s + bytes@[i as int]);
            vstd::arithmetic::div_mod::lemma_add_mod_noop(s, bytes@[i as int] as int, 256);
            vstd::arithmetic::div_mod::lemma_small_mod(bytes@[i as int] as nat, 256);
        }
        i = i + 1;
    }
    assert(bytes@.subrange(0, bytes@.len() as int) =~= bytes@);
    sum == 0
}

/// The answer of the controller to a port test: zero and unknown codes pass.
pub fn port_test_result(code: u8) -> (r: Result<(), ControllerError>)
    ensures
        r == match code {
            1u8 => Err(ControllerError::ClockLineStuckLow),
            2u8 => Err(ControllerError::ClockLineStuckHigh),
            3u8 => Err(ControllerError::DataLineStuckLow),
            4u8 => Err(ControllerError::DataLineStuckHigh),
            _ => Ok::<(), ControllerError>(()),
        },
{
    match code {
        0x01 => Err(ControllerError::ClockLineStuckLow),
        0x02 => Err(ControllerError::ClockLineStuckHigh),
        0x03 => Err(ControllerError::DataLineStuckLow),
        0x04 => Err(ControllerError::DataLineStuckHigh),
        _ => Ok(()),
    }
}

/// The two bytes a reset answers with: both `0xFA` and `0xAA` must come, in
/// either order.
pub fn reset_result(first: u8, second: u8) -> (r: Result<(), ControllerError>)
    ensures
        r is Ok <==> ((first == 0xFA && second == 0xAA) || (first == 0xAA && second == 0xFA)),
        r is Err ==> r == Err::<(), ControllerError>(ControllerError::SelfTestFailed),
{
    let mut got_fa = false;
    let mut got_aa = false;
    if first == 0xFA {
        got_fa = true;
    } else if first == 0xAA {
        got_aa = true;
    } else {
        return Err(ControllerError::SelfTestFailed);
    }
    if second == 0xFA {
        got_fa = true;
    } else if second == 0xAA {
        got_aa = true;
    } else {
        return Err(ControllerError::SelfTestFailed);
    }
    if !got_aa || !got_fa {
        return Err(ControllerError::SelfTestFailed);
    }
    Ok(())
}

/// Whether the controller answered its self test with `0x55`.
pub fn self_test_result(answer: u8) -> (r: Result<(), ControllerError>)
    ensures
        r is Ok <==> answer == 0x55,
        r is Err ==> r == Err::<(), ControllerError>(ControllerError::SelfTestFailed),
{
    if answer != 0x55 {
        return Err(ControllerError::SelfTestFailed);
    }
    Ok(())
}

/// Under ACPI 1.0 a controller is assumed; from 2.0 on the "8042" boot
/// architecture flag (bit 1) says whether there is one.
pub fn controller_present(revision: u8, boot_architecture_flags: u16) -> (r: Result<(), ControllerError>)
    ensures
        r is Ok <==> (revision < 2 || (boot_architecture_flags & 2) != 0),
        r is Err ==> r == Err::<(), ControllerError>(ControllerError::NoController),
{
    if revision < 2 || (boot_architecture_flags & 0x2) != 0 {
        return Ok(());
    }
    Err(ControllerError::NoController)
}

/// A controller is dual channel when bit 5 of its configuration is set
/// after the second port was enabled.
pub fn is_dual_channel(config: u8) -> (r: bool)
    ensures
        r == ((config >> 5u8) & 1 == 1),
{
    config >> 5 & 1 == 1
}

/// The configuration written back: the old one with only the bits of `mask` kept.
pub fn updated_config(config: u8, mask: u8) -> (r: u8)
    ensures
        r == config & mask,
{
    config & mask
}

} // verus!
