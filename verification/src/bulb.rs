//! The bulb wire protocol: commands sent to a bulb and the telemetry it
//! answers with.

use vstd::prelude::*;

use crate::i2c;
use crate::i2c::bytes_contents;

verus! {

/// Largest argument the firmware accepts for `SetMaxExtension`.
pub const MAX_EXTENSION_ARGUMENT: u8 = 115;

/// A command for one bulb, with every quantity already in its wire form.
///
/// `extension` is the requested cord drop in 1/256 inch; the second field of
/// the variants that have one is the argument byte the firmware reads.
#[derive(Clone, Copy, Debug, PartialEq, Eq, Structural)]
pub enum Command {
    SetExtension { extension: u16 },
    SetBrightness { extension: u16, brightness: u8 },
    SavePosition { extension: u16 },
    SetKpPos { extension: u16, kp_pos: u8 },
    SetMaxSpeed { extension: u16, speed: u8 },
    Zero { extension: u16 },
    SetMaxExtension { extension: u16, max: u8 },
}

impl Command {
    /// The opcode byte of the command's kind.
    pub open spec fn spec_opcode(self) -> u8 {
        match self {
            Command::SetExtension { .. } => 0x00,
            Command::SetBrightness { .. } => 0x01,
            Command::SavePosition { .. } => 0x02,
            Command::SetKpPos { .. } => 0x07,
            Command::SetMaxSpeed { .. } => 0x08,
            Command::Zero { .. } => 0x09,
            Command::SetMaxExtension { .. } => 0x0A,
        }
    }

    /// The requested extension, in 1/256 inch.
    pub open spec fn spec_extension(self) -> u16 {
        match self {
            Command::SetExtension { extension } => extension,
            Command::SetBrightness { extension, .. } => extension,
            Command::SavePosition { extension } => extension,
            Command::SetKpPos { extension, .. } => extension,
            Command::SetMaxSpeed { extension, .. } => extension,
            Command::Zero { extension } => extension,
            Command::SetMaxExtension { extension, .. } => extension,
        }
    }

    /// The argument byte, for the kinds that carry one; the maximum
    /// extension is capped at [`MAX_EXTENSION_ARGUMENT`].
    pub open spec fn spec_argument(self) -> Option<u8> {
        match self {
            Command::SetBrightness { brightness, .. } => Some(brightness),
            Command::SetKpPos { kp_pos, .. } => Some(kp_pos),
            Command::SetMaxSpeed { speed, .. } => Some(speed),
            Command::SetMaxExtension { max, .. } => Some(
                if max <= MAX_EXTENSION_ARGUMENT { max } else { MAX_EXTENSION_ARGUMENT },
            ),
            _ => None,
        }
    }

    /// The four bytes on the wire: extension (big endian), opcode, argument
    /// (0 when the kind has none).
    pub open spec fn spec_encode(self) -> Seq<u8> {
        seq![
            (self.spec_extension() / 256) as u8,
            (self.spec_extension() % 256) as u8,
            self.spec_opcode(),
            match self.spec_argument() {
                Some(a) => a,
                None => 0u8,
            },
        ]
    }

    pub fn opcode(&self) -> (r: u8)
        ensures
            r == self.spec_opcode(),
    {
        match self {
            Command::SetExtension { .. } => 0x00,
            Command::SetBrightness { .. } => 0x01,
            Command::SavePosition { .. } => 0x02,
            Command::SetKpPos { .. } => 0x07,
            Command::SetMaxSpeed { .. } => 0x08,
            Command::Zero { .. } => 0x09,
            Command::SetMaxExtension { .. } => 0x0A,
        }
    }

    pub fn extension(&self) -> (r: u16)
        ensures
            r == self.spec_extension(),
    {
        match self {
            Command::SetExtension { extension } => *extension,
            Command::SetBrightness { extension, .. } => *extension,
            Command::SavePosition { extension } => *extension,
            Command::SetKpPos { extension, .. } => *extension,
            Command::SetMaxSpeed { extension, .. } => *extension,
            Command::Zero { extension } => *extension,
            Command::SetMaxExtension { extension, .. } => *extension,
        }
    }

    pub fn argument(&self) -> (r: Option<u8>)
        ensures
            r == self.spec_argument(),
    {
        match self {
            Command::SetBrightness { brightness, .. } => Some(*brightness),
            Command::SetKpPos { kp_pos, .. } => Some(*kp_pos),
            Command::SetMaxSpeed { speed, .. } => Some(*speed),
            Command::SetMaxExtension { max, .. } => {
                if *max <= MAX_EXTENSION_ARGUMENT {
                    Some(*max)
                } else {
                    Some(MAX_EXTENSION_ARGUMENT)
                }
            },
            _ => None,
        }
    }

    pub fn encode(&self) -> (r: [u8; 4])
        ensures
            r@ == self.spec_encode(),
    {
        let extension = self.extension();
        let msb = (extension / 256) as u8;
        let lsb = (extension % 256) as u8;
        let argument = match self.argument() {
            Some(a) => a,
            None => 0u8,
        };
        let encoded = [msb, lsb, self.opcode(), argument];
        assert(encoded@ =~= self.spec_encode());
        encoded
    }
}


/// The encoding keeps the command's extension whole: its first two bytes
/// read back, most significant first, as the extension; the third is the
/// opcode and the fourth the argument (or 0).
pub proof fn lemma_encoding_reads_back(c: Command)
    ensures
        c.spec_encode().len() == 4,
        c.spec_encode()[0] * 256 + c.spec_encode()[1] == c.spec_extension(),
        c.spec_encode()[2] == c.spec_opcode(),
        c.spec_encode()[3] == match c.spec_argument() {
            Some(a) => a,
            None => 0u8,
        },
{
}

/// Commands of different kinds never share an opcode.
pub proof fn lemma_opcode_names_kind(a: Command, b: Command)
    requires
        a.spec_opcode() == b.spec_opcode(),
    ensures
        (a is SetExtension) == (b is SetExtension),
        (a is SetBrightness) == (b is SetBrightness),
        (a is SavePosition) == (b is SavePosition),
        (a is SetKpPos) == (b is SetKpPos),
        (a is SetMaxSpeed) == (b is SetMaxSpeed),
        (a is Zero) == (b is Zero),
        (a is SetMaxExtension) == (b is SetMaxExtension),
{
}

// ---------------------------------------------------------------------------
// Errors
// ---------------------------------------------------------------------------

/// How handing a request to the bus failed.
#[derive(Clone, Copy, Debug, PartialEq, Eq)]
pub enum SendFailure {
    /// The bus actor was not running.
    ActorNotRunning,
    /// The bus actor stopped before replying.
    ActorStopped,
    /// The bus actor was restarting.
    ActorRestarting,
    /// The bus actor's mailbox was full.
    MailboxFull,
    /// The bus handled the request and failed.
    Handler,
    /// No reply came in time.
    Timeout,
}

/// Errors of talking to a bulb.
#[derive(Clone, Copy, Debug, PartialEq, Eq)]
pub enum Error {
    /// A read request could not be carried out.
    SendRead(SendFailure),
    /// A write request could not be carried out.
    SendWrite(SendFailure),
    /// The telemetry did not have [`Response::LENGTH`] bytes.
    InvalidResponseLength { actual: usize },
}

// ---------------------------------------------------------------------------
// Telemetry
// ---------------------------------------------------------------------------

/// A bulb's telemetry, as raw as the firmware reports it.
///
/// `extension` is in whole inches; `speed` counts 1/32 of the speed unit.
#[derive(Clone, Copy, Debug, PartialEq, Eq)]
pub struct Response {
    pub extension: u16,
    pub speed: u8,
    pub light: bool,
    pub zeroing: bool,
    pub disable_all: bool,
    pub eeprom_error: bool,
}

/// Bit `bit` of `flags` is set.
pub open spec fn flag(flags: u8, bit: u8) -> bool {
    flags & bit != 0
}

/// The telemetry a 4-byte answer decodes to: the extension is byte 0 plus
/// byte 1 divided (as an integer) by 256, the speed is byte 2, and the low
/// four bits of byte 3 are the light, zeroing, disable-all and EEPROM-error
/// flags.
pub open spec fn decode_response(data: Seq<u8>) -> Response {
    Response {
        extension: (data[0] as int + (data[1] as int) / 256) as u16,
        speed: data[2],
        light: flag(data[3], 1),
        zeroing: flag(data[3], 2),
        disable_all: flag(data[3], 4),
        eeprom_error: flag(data[3], 8),
    }
}

/// Byte 1 of the answer never moves the extension: an integer byte divided
/// by 256 is 0, so the extension is byte 0 in whole inches.
pub proof fn lemma_response_extension_is_first_byte(data: Seq<u8>)
    requires
        data.len() == 4,
    ensures
        decode_response(data).extension == data[0],
{
}

/// The speed is byte 2, and the flags are the four low bits of byte 3,
/// lowest first: light, zeroing, disable-all, EEPROM error.
pub proof fn lemma_response_flags_are_low_bits(data: Seq<u8>)
    requires
        data.len() == 4,
    ensures
        decode_response(data).speed == data[2],
        decode_response(data).light == (data[3] % 2 == 1),
        decode_response(data).zeroing == ((data[3] / 2) % 2 == 1),
        decode_response(data).disable_all == ((data[3] / 4) % 2 == 1),
        decode_response(data).eeprom_error == ((data[3] / 8) % 2 == 1),
{
    let f = data[3];
    assert((f & 1 != 0) == (f % 2 == 1)) by (bit_vector);
    assert((f & 2 != 0) == ((f / 2) % 2 == 1)) by (bit_vector);
    assert((f & 4 != 0) == ((f / 4) % 2 == 1)) by (bit_vector);
    assert((f & 8 != 0) == ((f / 8) % 2 == 1)) by (bit_vector);
}

impl Response {
    /// Bytes of one telemetry answer.
    pub const LENGTH: usize = 4;

    /// Parses a telemetry answer; any length but [`Response::LENGTH`] is
    /// refused.
    pub fn parse(data: &[u8]) -> (r: Result<Response, Error>)
        ensures
            data@.len() != Self::LENGTH ==> r == Err::<Response, Error>(
                Error::InvalidResponseLength { actual: data@.len() as usize },
            ),
            data@.len() == Self::LENGTH ==> r == Ok::<Response, Error>(decode_response(data@)),
    {
        if data.len() != Self::LENGTH {
            return Err(Error::InvalidResponseLength { actual: data.len() });
        }
        Ok(Response {
            extension: (data[0] as u16) + (data[1] as u16) / 256,
            speed: data[2],
            light: data[3] & 0b0001 != 0,
            zeroing: data[3] & 0b0010 != 0,
            disable_all: data[3] & 0b0100 != 0,
            eeprom_error: data[3] & 0b1000 != 0,
        })
    }
}

// ---------------------------------------------------------------------------
// Bulb
// ---------------------------------------------------------------------------

/// What the library knows of one bulb: its address, the telemetry last read
/// from it and the extension last asked of it.
#[derive(Clone, Copy, Debug)]
pub struct Bulb {
    address: u16,
    real_extension: u16,
    real_speed: u8,
    light_on: bool,
    zeroing: bool,
    disable_all: bool,
    eeprom_error: bool,
    last_requested_extension: u16,
}

/// The abstract state of a bulb.
pub struct BulbView {
    pub address: u16,
    pub real_extension: u16,
    pub real_speed: u8,
    pub light_on: bool,
    pub zeroing: bool,
    pub disable_all: bool,
    pub eeprom_error: bool,
    pub last_requested_extension: u16,
}

impl View for Bulb {
    type V = BulbView;

    closed spec fn view(&self) -> BulbView {
        BulbView {
            address: self.address,
            real_extension: self.real_extension,
            real_speed: self.real_speed,
            light_on: self.light_on,
            zeroing: self.zeroing,
            disable_all: self.disable_all,
            eeprom_error: self.eeprom_error,
            last_requested_extension: self.last_requested_extension,
        }
    }
}

/// The state a bulb is in after `response` is read from it.
pub open spec fn after_response(b: BulbView, response: Response) -> BulbView {
    BulbView {
        real_extension: response.extension,
        real_speed: response.speed,
        light_on: response.light,
        zeroing: response.zeroing,
        disable_all: response.disable_all,
        eeprom_error: response.eeprom_error,
        ..b
    }
}

/// A refresh with a response takes in every telemetry field of the
/// response, and keeps the bulb's address and what was last asked of it.
pub proof fn lemma_refresh_takes_in_telemetry(b: BulbView, response: Response)
    ensures
        after_response(b, response).real_extension == response.extension,
        after_response(b, response).real_speed == response.speed,
        after_response(b, response).light_on == response.light,
        after_response(b, response).zeroing == response.zeroing,
        after_response(b, response).disable_all == response.disable_all,
        after_response(b, response).eeprom_error == response.eeprom_error,
        after_response(b, response).address == b.address,
        after_response(b, response).last_requested_extension == b.last_requested_extension,
{
}

impl Bulb {
    /// A bulb at `address` of which nothing has been read or asked yet.
    pub fn new(address: u16) -> (r: Bulb)
        ensures
            r@ == (BulbView {
                address,
                real_extension: 0,
                real_speed: 0,
                light_on: false,
                zeroing: false,
                disable_all: false,
                eeprom_error: false,
                last_requested_extension: 0,
            }),
    {
        Bulb {
            address,
            real_extension: 0,
            real_speed: 0,
            light_on: false,
            zeroing: false,
            disable_all: false,
            eeprom_error: false,
            last_requested_extension: 0,
        }
    }

    /// Prepares a command for the bulb: records its extension as the last
    /// one asked and gives the write request that carries its encoding.
    pub fn write(&mut self, command: Command) -> (r: i2c::Write)
        ensures
            final(self)@ == (BulbView {
                last_requested_extension: command.spec_extension(),
                ..old(self)@
            }),
            r.address == old(self)@.address,
            bytes_contents(r.data) == command.spec_encode(),
    {
        self.last_requested_extension = command.extension();
        let encoded = command.encode();
        let data = i2c::bytes_copy_from_slice(encoded.as_slice());
        i2c::Write { address: self.address, data }
    }

    /// The read request for the bulb's telemetry.
    pub fn read(&self) -> (r: i2c::Read)
        ensures
            r.address == self@.address,
            r.amount == Response::LENGTH,
    {
        i2c::Read { address: self.address, amount: Response::LENGTH }
    }

    /// Prepares the command that makes the bulb zero itself.
    pub fn zero(&mut self) -> (r: i2c::Write)
        ensures
            final(self)@ == (BulbView { last_requested_extension: 0, ..old(self)@ }),
            r.address == old(self)@.address,
            bytes_contents(r.data) == (Command::Zero { extension: 0 }).spec_encode(),
    {
        self.write(Command::Zero { extension: 0 })
    }

    /// Takes in the outcome of a telemetry read. A failed read leaves the
    /// bulb as it was; a parsed response replaces the telemetry. Either way
    /// the refresh itself succeeds.
    pub fn refresh(&mut self, read: Result<Response, Error>) -> (r: Result<(), Error>)
        ensures
            r is Ok,
            match read {
                Ok(response) => final(self)@ == after_response(old(self)@, response),
                Err(_) => final(self)@ == old(self)@,
            },
    {
        match read {
            Ok(response) => {
                self.real_extension = response.extension;
                self.real_speed = response.speed;
                self.light_on = response.light;
                self.zeroing = response.zeroing;
                self.disable_all = response.disable_all;
                self.eeprom_error = response.eeprom_error;
            },
            Err(_) => {},
        }
        Ok(())
    }

    pub fn address(&self) -> (r: u16)
        ensures
            r == self@.address,
    {
        self.address
    }

    pub fn zeroing(&self) -> (r: bool)
        ensures
            r == self@.zeroing,
    {
        self.zeroing
    }

    pub fn real_extension(&self) -> (r: u16)
        ensures
            r == self@.real_extension,
    {
        self.real_extension
    }

    pub fn real_speed(&self) -> (r: u8)
        ensures
            r == self@.real_speed,
    {
        self.real_speed
    }

    pub fn light_on(&self) -> (r: bool)
        ensures
            r == self@.light_on,
    {
        self.light_on
    }

    pub fn disable_all(&self) -> (r: bool)
        ensures
            r == self@.disable_all,
    {
        self.disable_all
    }

    pub fn eeprom_error(&self) -> (r: bool)
        ensures
            r == self@.eeprom_error,
    {
        self.eeprom_error
    }

    pub fn last_requested_extension(&self) -> (r: u16)
        ensures
            r == self@.last_requested_extension,
    {
        self.last_requested_extension
    }
}

} // verus!
