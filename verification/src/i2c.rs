//! Framing of i2c transfers: every frame ends in a CRC-16/XMODEM checksum
//! over the device address and the payload; plus the per-address rate limit.

use bytes::BufMut;
use bytes::Bytes;
use bytes::BytesMut;
use crc::Crc;
use crc::CRC_16_XMODEM;
use std::collections::HashMap;
use std::time::Duration;
use tokio::time::Instant;
use vstd::prelude::*;

use crate::config;
use crate::config::millis_duration;

verus! {

broadcast use vstd::std_specs::hash::group_hash_axioms;

/// Payload bytes of one telemetry read.
pub const TELEMETRY_SIZE: usize = 4;

// ---------------------------------------------------------------------------
// Outside types and calls
// ---------------------------------------------------------------------------

/// An immutable byte buffer of the `bytes` crate.
#[verifier::external_type_specification]
#[verifier::external_body]
pub struct ExBytes(Bytes);

/// A growable byte buffer of the `bytes` crate.
#[verifier::external_type_specification]
#[verifier::external_body]
pub struct ExBytesMut(BytesMut);

/// A point in time of tokio's clock.
#[verifier::external_type_specification]
#[verifier::external_body]
pub struct ExInstant(Instant);

/// The bytes a `Bytes` buffer holds.
pub uninterp spec fn bytes_contents(b: Bytes) -> Seq<u8>;

/// The bytes a `BytesMut` buffer holds.
pub uninterp spec fn bytes_mut_contents(b: BytesMut) -> Seq<u8>;

/// The CRC-16/XMODEM checksum of `data`.
pub uninterp spec fn crc16_xmodem(data: Seq<u8>) -> u16;

/// Calls `Crc::<u16>::checksum` with the CRC-16/XMODEM algorithm; the
/// checksum depends on the bytes alone and is named `crc16_xmodem`.
#[verifier::external_body]
fn checksum(data: &[u8]) -> (r: u16)
    ensures
        r == crc16_xmodem(data@),
{
    Crc::<u16>::new(&CRC_16_XMODEM).checksum(data)
}

/// Reads the `width` of the `CRC_16_XMODEM` algorithm of the crc catalog,
/// which its source gives as 16 bits.
#[verifier::external_body]
fn checksum_width_bits() -> (r: u8)
    ensures
        r == 16,
{
    CRC_16_XMODEM.width
}

/// Calls `Bytes::copy_from_slice`: the buffer holds a copy of the slice.
#[verifier::external_body]
pub(crate) fn bytes_copy_from_slice(data: &[u8]) -> (b: Bytes)
    ensures
        bytes_contents(b) == data@,
{
    Bytes::copy_from_slice(data)
}

/// Calls `<Bytes as AsRef<[u8]>>::as_ref`: the slice of the buffer's bytes.
#[verifier::external_body]
fn bytes_as_slice(b: &Bytes) -> (s: &[u8])
    ensures
        s@ == bytes_contents(*b),
{
    b.as_ref()
}

/// Calls `<BytesMut as From<Bytes>>::from`: the same bytes, now growable.
#[verifier::external_body]
fn bytes_mut_from(b: Bytes) -> (r: BytesMut)
    ensures
        bytes_mut_contents(r) == bytes_contents(b),
{
    BytesMut::from(b)
}

/// Calls `BufMut::put_u16` on a `BytesMut`: appends `n` in big-endian byte
/// order. (It panics only when the length would overflow `usize`, which
/// `requires` leaves out.)
#[verifier::external_body]
fn put_u16(buf: &mut BytesMut, n: u16)
    requires
        bytes_mut_contents(*old(buf)).len() + 2 <= usize::MAX,
    ensures
        bytes_mut_contents(*final(buf)) == bytes_mut_contents(*old(buf)) + be_bytes(n),
{
    buf.put_u16(n)
}

/// Calls `tokio::time::Instant::now`. Nothing is stated of the instant: it
/// is the clock's reading.
#[verifier::external_body]
fn now() -> Instant {
    Instant::now()
}

// ---------------------------------------------------------------------------
// Frames
// ---------------------------------------------------------------------------

/// The two bytes of `n`, most significant first.
pub open spec fn be_bytes(n: u16) -> Seq<u8> {
    seq![(n / 256) as u8, (n % 256) as u8]
}

/// The number two bytes encode, most significant first.
pub open spec fn from_be_bytes(hi: u8, lo: u8) -> u16 {
    (hi * 256 + lo) as u16
}

/// What the checksum covers: the device address (big endian), then the
/// payload.
pub open spec fn checksum_input(address: u16, payload: Seq<u8>) -> Seq<u8> {
    be_bytes(address) + payload
}

/// The frame written to a device: the payload followed by its checksum.
pub open spec fn write_frame(address: u16, payload: Seq<u8>) -> Seq<u8> {
    payload + be_bytes(crc16_xmodem(checksum_input(address, payload)))
}

/// What checking a telemetry read against the checksum `actual` computed
/// for it gives: the buffer must hold the payload and exactly two checksum
/// bytes, and the checksum they hold must be `actual`.
pub open spec fn checksum_verdict(buffer: Seq<u8>, actual: u16) -> Result<(), Error> {
    if buffer.len() != TELEMETRY_SIZE + 2 {
        Err(Error::Eof)
    } else {
        let expected = from_be_bytes(buffer[TELEMETRY_SIZE as int], buffer[TELEMETRY_SIZE + 1]);
        if expected == actual {
            Ok(())
        } else {
            Err(Error::Crc { expected, actual })
        }
    }
}

/// What checking a telemetry read from `address` gives: the checksum is
/// computed over the address and the payload.
pub open spec fn telemetry_verdict(address: u16, buffer: Seq<u8>) -> Result<(), Error> {
    checksum_verdict(
        buffer,
        crc16_xmodem(checksum_input(address, buffer.take(TELEMETRY_SIZE as int))),
    )
}

/// Errors of the framing layer.
#[derive(Clone, Copy, Debug, PartialEq, Eq)]
pub enum Error {
    /// The checksum in the frame is not the one computed.
    Crc { expected: u16, actual: u16 },
    /// The frame does not end in exactly two checksum bytes.
    Eof,
}

/// A request to read `amount` payload bytes from `address`.
#[derive(Clone, Copy, Debug)]
pub struct Read {
    pub address: u16,
    pub amount: usize,
}

impl Read {
    /// Bytes to read off the bus: the payload and its checksum.
    pub fn buffer_len(&self) -> (r: usize)
        requires
            self.amount + 2 <= usize::MAX,
        ensures
            r == self.amount + 2,
    {
        let width = checksum_width_bits();
        self.amount + (width / 8) as usize
    }
}

/// A request to write `data` to `address`.
pub struct Write {
    pub address: u16,
    pub data: Bytes,
}

/// The bus's bookkeeping: when each address was first talked to, and the
/// retry and rate-limit settings.
pub struct Bus {
    last_transfer_to: HashMap<u16, Instant>,
    retries: usize,
    retry_delay: Duration,
    rate_limit: Duration,
}

/// What the bus must do before a transfer to an address.
#[derive(Clone, Copy, Debug)]
pub enum Pace {
    /// First transfer to this address: go ahead.
    Proceed,
    /// Wait until `since` plus the rate limit.
    WaitFrom { since: Instant },
}

impl Bus {
    /// The addresses already talked to, with the instant recorded for each.
    pub closed spec fn transfers(&self) -> Map<u16, Instant> {
        self.last_transfer_to@
    }

    pub closed spec fn spec_retries(&self) -> usize {
        self.retries
    }

    pub closed spec fn spec_retry_delay(&self) -> Duration {
        self.retry_delay
    }

    pub closed spec fn spec_rate_limit(&self) -> Duration {
        self.rate_limit
    }

    pub fn new(config: &config::I2c) -> (r: Bus)
        ensures
            r.transfers() == Map::<u16, Instant>::empty(),
            r.spec_retries() == config.retries,
            r.spec_retry_delay() == millis_duration(config.retry_delay_ms),
            r.spec_rate_limit() == millis_duration(config.rate_limit_ms),
    {
        Bus {
            last_transfer_to: HashMap::new(),
            retries: config.retries,
            retry_delay: config.retry_delay(),
            rate_limit: config.rate_limit(),
        }
    }

    pub fn retries(&self) -> (r: usize)
        ensures
            r == self.spec_retries(),
    {
        self.retries
    }

    pub fn retry_delay(&self) -> (r: Duration)
        ensures
            r == self.spec_retry_delay(),
    {
        self.retry_delay
    }

    pub fn rate_limit_period(&self) -> (r: Duration)
        ensures
            r == self.spec_rate_limit(),
    {
        self.rate_limit
    }

    /// Paces a transfer to `address`. The first transfer to an address
    /// records the current instant and proceeds; later ones wait from the
    /// recorded instant, which is kept as it is.
    pub fn rate_limit(&mut self, address: u16) -> (r: Pace)
        ensures
            old(self).transfers().contains_key(address) ==> {
                &&& r == Pace::WaitFrom { since: old(self).transfers()[address] }
                &&& final(self).transfers() == old(self).transfers()
            },
            !old(self).transfers().contains_key(address) ==> {
                &&& r is Proceed
                &&& final(self).transfers().contains_key(address)
                &&& final(self).transfers().remove(address) == old(self).transfers()
            },
            final(self).spec_retries() == old(self).spec_retries(),
            final(self).spec_retry_delay() == old(self).spec_retry_delay(),
            final(self).spec_rate_limit() == old(self).spec_rate_limit(),
    {
        match self.last_transfer_to.get(&address) {
            Some(since) => Pace::WaitFrom { since: *since },
            None => {
                let instant = now();
                self.last_transfer_to.insert(address, instant);
                proof {
                    assert(self.last_transfer_to@.remove(address) =~= old(self).last_transfer_to@);
                }
                Pace::Proceed
            },
        }
    }

    /// Checks a telemetry read from `address`: the payload followed by its
    /// big-endian checksum.
    pub fn check_read(address: u16, buffer: &[u8]) -> (r: Result<(), Error>)
        requires
            buffer@.len() >= TELEMETRY_SIZE,
        ensures
            r == telemetry_verdict(address, buffer@),
    {
        let mut input: Vec<u8> = Vec::new();
        input.push((address / 256) as u8);
        input.push((address % 256) as u8);
        let mut i: usize = 0;
        while i < TELEMETRY_SIZE
            invariant
                i <= TELEMETRY_SIZE <= buffer@.len(),
                input@ == be_bytes(address) + buffer@.take(i as int),
            decreases TELEMETRY_SIZE - i,
        {
            input.push(buffer[i]);
            i = i + 1;
            assert(buffer@.take(i as int) == buffer@.take(i - 1).push(buffer@[i - 1]));
        }
        assert(input@ == checksum_input(address, buffer@.take(TELEMETRY_SIZE as int)));
        let actual = checksum(input.as_slice());
        Self::check_checksum(buffer, actual)
    }

    /// Checks a telemetry read against the checksum computed for it: the
    /// two bytes after the payload must hold it, most significant first.
    pub fn check_checksum(buffer: &[u8], actual: u16) -> (r: Result<(), Error>)
        ensures
            r == checksum_verdict(buffer@, actual),
    {
        if buffer.len() != TELEMETRY_SIZE + 2 {
            return Err(Error::Eof);
        }
        let expected = (buffer[TELEMETRY_SIZE] as u16) * 256 + (buffer[TELEMETRY_SIZE + 1] as u16);
        if expected != actual {
            return Err(Error::Crc { expected, actual });
        }
        Ok(())
    }

    /// Frames a write to `address`: the data followed by the big-endian
    /// checksum of the address and the data.
    pub fn frame(address: u16, data: Bytes) -> (r: BytesMut)
        requires
            bytes_contents(data).len() + 4 <= usize::MAX,
        ensures
            bytes_mut_contents(r) == write_frame(address, bytes_contents(data)),
    {
        let payload = bytes_as_slice(&data);
        let mut input: Vec<u8> = Vec::new();
        input.push((address / 256) as u8);
        input.push((address % 256) as u8);
        let mut i: usize = 0;
        while i < payload.len()
            invariant
                i <= payload@.len(),
                payload@ == bytes_contents(data),
                payload@.len() + 4 <= usize::MAX,
                input@ == be_bytes(address) + payload@.take(i as int),
            decreases payload@.len() - i,
        {
            input.push(payload[i]);
            i = i + 1;
            assert(payload@.take(i as int) == payload@.take(i - 1).push(payload@[i - 1]));
        }
        assert(payload@.take(i as int) == payload@);
        let sum = checksum(input.as_slice());
        Self::frame_with_checksum(data, sum)
    }

    /// Appends the checksum `sum`, most significant byte first, to the data
    /// of a write.
    pub fn frame_with_checksum(data: Bytes, sum: u16) -> (r: BytesMut)
        requires
            bytes_contents(data).len() + 2 <= usize::MAX,
        ensures
            bytes_mut_contents(r) == bytes_contents(data) + be_bytes(sum),
    {
        let mut framed = bytes_mut_from(data);
        put_u16(&mut framed, sum);
        framed
    }
}

/// A frame written by [`Bus::frame`] with a telemetry-sized payload passes
/// [`Bus::check_read`] for the same address, and its first bytes are the
/// payload.
pub proof fn lemma_written_frame_passes_check(address: u16, payload: Seq<u8>)
    requires
        payload.len() == TELEMETRY_SIZE,
    ensures
        telemetry_verdict(address, write_frame(address, payload)) == Ok::<(), Error>(()),
        write_frame(address, payload).len() == TELEMETRY_SIZE + 2,
        write_frame(address, payload).take(TELEMETRY_SIZE as int) == payload,
{
    let framed = write_frame(address, payload);
    let sum = crc16_xmodem(checksum_input(address, payload));
    assert(framed.take(TELEMETRY_SIZE as int) =~= payload);
    assert(framed[TELEMETRY_SIZE as int] == (sum / 256) as u8);
    assert(framed[TELEMETRY_SIZE + 1] == (sum % 256) as u8);
    assert(from_be_bytes((sum / 256) as u8, (sum % 256) as u8) == sum);
}

} // verus!
