//! The ns16550 serial port.
//!
//! Only the decisions are here: which I/O port each unit sits at, and
//! how the line-status bits are read.  The `in`/`out` instructions that
//! move the bytes are privileged and belong to the embedding program.

use vstd::prelude::*;

verus! {

/// The two standard PC serial ports.
#[derive(Clone, Copy, Debug, PartialEq, Eq, Structural)]
pub enum Port {
    Eia0,
    Eia1,
}

/// A serial port: the base of its I/O register window.
#[derive(Clone, Copy, Debug, PartialEq, Eq, Structural)]
pub struct Uart {
    port: u16,
}

impl Uart {
    /// The base I/O port.
    pub closed spec fn port_spec(self) -> u16 {
        self.port
    }

    /// The UART at the given standard port.
    pub fn new(port: Port) -> (r: Uart)
        ensures
            port == Port::Eia0 ==> r.port_spec() == 0x3F8,
            port == Port::Eia1 ==> r.port_spec() == 0x2F8,
    {
        match port {
            Port::Eia0 => Uart { port: 0x3F8 },
            Port::Eia1 => Uart { port: 0x2F8 },
        }
    }

    /// The I/O port of the line-status register.
    pub fn lsr_port(&self) -> (r: u16)
        requires
            self.port_spec() <= 0xFFFA,
        ensures
            r == self.port_spec() + 5,
    {
        self.port + 5
    }

    /// The I/O port of the transmit and receive registers.
    pub fn data_port(&self) -> (r: u16)
        ensures
            r == self.port_spec(),
    {
        self.port
    }
}

/// Whether a line-status byte says the transmitter is ready (bit five).
pub fn tx_ready(lsr: u8) -> (r: bool)
    ensures
        r == (lsr & 0x20 == 0x20),
{
    lsr & 0x20 == 0x20
}

/// Whether a line-status byte says a byte is waiting (bit zero).
pub fn rx_ready(lsr: u8) -> (r: bool)
    ensures
        r == (lsr & 1 == 1),
{
    lsr & 1 == 1
}

/// The bytes actually sent for a text: each line feed is preceded by a
/// carriage return, every other byte passes untouched.
pub open spec fn crlf_encode(s: Seq<u8>) -> Seq<u8>
    decreases s.len(),
{
    if s.len() == 0 {
        Seq::empty()
    } else {
        let rest = crlf_encode(s.drop_last());
        if s.last() == 10 {
            rest + seq![13u8, 10u8]
        } else {
            rest + seq![s.last()]
        }
    }
}

/// Encodes a text for the wire, prefixing line feeds with carriage
/// returns.
pub fn encode_line_bytes(s: &Vec<u8>) -> (r: Vec<u8>)
    ensures
        r@ == crlf_encode(s@),
{
    let mut r: Vec<u8> = Vec::new();
    let mut i: usize = 0;
    while i < s.len()
        invariant
            i <= s@.len(),
            r@ == crlf_encode(s@.take(i as int)),
        decreases s@.len() - i,
    {
        let b = s[i];
        if b == 10 {
            r.push(13);
        }
        r.push(b);
        proof {
            assert(s@.take(i + 1).drop_last() =~= s@.take(i as int));
            assert(s@.take(i + 1).last() == s@[i as int]);
            if b == 10 {
                assert(r@ =~= crlf_encode(s@.take(i as int)) + seq![13u8, 10u8]);
            } else {
                assert(r@ =~= crlf_encode(s@.take(i as int)) + seq![b]);
            }
        }
        i = i + 1;
    }
    proof {
        assert(s@.take(s@.len() as int) =~= s@);
    }
    r
}

} // verus!
