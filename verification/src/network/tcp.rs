//! The TCP header codec: the fixed 20-byte header without options, all
//! multi-byte fields big-endian.

use vstd::prelude::*;

verus! {

/// The six TCP flags carried in the header's flag byte.
#[derive(Clone, Copy, PartialEq, Eq, Structural, Debug)]
pub struct TcpFlags {
    pub fin: bool,
    pub syn: bool,
    pub rst: bool,
    pub psh: bool,
    pub ack: bool,
    pub urg: bool,
}

/// A TCP header without options: 5 words of 32 bits.
#[derive(Clone, Copy, PartialEq, Eq, Structural, Debug)]
pub struct TcpHeader {
    pub source_port: u16,
    pub destination_port: u16,
    pub sequence_number: u32,
    pub acknowledgment_number: u32,
    pub data_offset: u8,
    pub flags: TcpFlags,
    pub window_size: u16,
    pub checksum: u16,
    pub urgent_pointer: u16,
}

/// A 16-bit value split big-endian.
pub open spec fn spec_be16(x: u16) -> Seq<u8> {
    seq![(x / 256) as u8, (x % 256) as u8]
}

/// A 32-bit value split big-endian.
pub open spec fn spec_be32(x: u32) -> Seq<u8> {
    seq![
        (x / 0x100_0000) as u8,
        ((x / 0x1_0000) % 256) as u8,
        ((x / 256) % 256) as u8,
        (x % 256) as u8,
    ]
}

/// The flag byte: one bit per flag, URG highest.
pub open spec fn spec_flags_byte(f: TcpFlags) -> u8 {
    (((if f.urg {
        32u8
    } else {
        0u8
    }) + (if f.ack {
        16u8
    } else {
        0u8
    }) + (if f.psh {
        8u8
    } else {
        0u8
    }) + (if f.rst {
        4u8
    } else {
        0u8
    }) + (if f.syn {
        2u8
    } else {
        0u8
    }) + (if f.fin {
        1u8
    } else {
        0u8
    })) as u8)
}

/// The header's 20-byte wire form: ports, sequence and acknowledgment
/// numbers, the data-offset byte, the flag byte, window, checksum and
/// urgent pointer, in order, big-endian.
pub open spec fn spec_header_bytes(h: TcpHeader) -> Seq<u8> {
    spec_be16(h.source_port) + spec_be16(h.destination_port) + spec_be32(h.sequence_number)
        + spec_be32(h.acknowledgment_number) + seq![
        ((h.data_offset % 16) * 16) as u8,
        spec_flags_byte(h.flags),
    ] + spec_be16(h.window_size) + spec_be16(h.checksum) + spec_be16(h.urgent_pointer)
}

impl TcpHeader {
    /// A header for a segment without options: the data offset is the
    /// fixed five words, checksum and urgent pointer start at zero.
    pub fn new(
        source_port: u16,
        destination_port: u16,
        sequence_number: u32,
        acknowledgment_number: u32,
        flags: TcpFlags,
        window_size: u16,
    ) -> (r: Self)
        ensures
            r == (TcpHeader {
                source_port,
                destination_port,
                sequence_number,
                acknowledgment_number,
                data_offset: 5u8,
                flags,
                window_size,
                checksum: 0u16,
                urgent_pointer: 0u16,
            }),
    {
        TcpHeader {
            source_port,
            destination_port,
            sequence_number,
            acknowledgment_number,
            data_offset: 5,
            flags,
            window_size,
            checksum: 0,
            urgent_pointer: 0,
        }
    }

    /// Serialize the header to its 20-byte wire form.
    pub fn to_bytes(&self) -> (r: Vec<u8>)
        ensures
            r@ == spec_header_bytes(*self),
            r@.len() == 20,
    {
        let mut bytes: Vec<u8> = Vec::new();
        bytes.push((self.source_port / 256) as u8);
        bytes.push((self.source_port % 256) as u8);
        bytes.push((self.destination_port / 256) as u8);
        bytes.push((self.destination_port % 256) as u8);
        bytes.push((self.sequence_number / 0x100_0000) as u8);
        bytes.push(((self.sequence_number / 0x1_0000) % 256) as u8);
        bytes.push(((self.sequence_number / 256) % 256) as u8);
        bytes.push((self.sequence_number % 256) as u8);
        bytes.push((self.acknowledgment_number / 0x100_0000) as u8);
        bytes.push(((self.acknowledgment_number / 0x1_0000) % 256) as u8);
        bytes.push(((self.acknowledgment_number / 256) % 256) as u8);
        bytes.push((self.acknowledgment_number % 256) as u8);
        let offset_and_reserved: u8 = (self.data_offset % 16) * 16;
        let mut flags_byte: u8 = 0;
        if self.flags.urg {
            flags_byte = flags_byte + 32;
        }
        if self.flags.ack {
            flags_byte = flags_byte + 16;
        }
        if self.flags.psh {
            flags_byte = flags_byte + 8;
        }
        if self.flags.rst {
            flags_byte = flags_byte + 4;
        }
        if self.flags.syn {
            flags_byte = flags_byte + 2;
        }
        if self.flags.fin {
            flags_byte = flags_byte + 1;
        }
        bytes.push(offset_and_reserved);
        bytes.push(flags_byte);
        bytes.push((self.window_size / 256) as u8);
        bytes.push((self.window_size % 256) as u8);
        bytes.push((self.checksum / 256) as u8);
        bytes.push((self.checksum % 256) as u8);
        bytes.push((self.urgent_pointer / 256) as u8);
        bytes.push((self.urgent_pointer % 256) as u8);
        proof {
            assert(bytes@ =~= spec_header_bytes(*self));
        }
        bytes
    }
}

} // verus!
