//! The Ethernet frame codec: a frame is two hardware addresses, a
//! big-endian protocol type, and the payload; no checksum is carried.

use vstd::prelude::*;

verus! {

/// Protocol type for IPv4 payloads.
pub const ETHERTYPE_IPV4: u16 = 0x0800;

/// Protocol type for ARP payloads.
pub const ETHERTYPE_ARP: u16 = 0x0806;

/// Protocol type for IPv6 payloads.
pub const ETHERTYPE_IPV6: u16 = 0x86DD;

/// An Ethernet frame: destination and source hardware addresses, the
/// protocol type of the payload, and the payload itself.
pub struct EthernetFrame {
    pub destination: [u8; 6],
    pub source: [u8; 6],
    pub ethertype: u16,
    pub payload: Vec<u8>,
}

/// The wire form of a frame: both addresses, the protocol type big-endian,
/// then the payload.
pub open spec fn spec_frame_bytes(f: EthernetFrame) -> Seq<u8> {
    f.destination@ + f.source@ + seq![(f.ethertype / 256) as u8, (f.ethertype % 256) as u8]
        + f.payload@
}

impl EthernetFrame {
    /// Assemble a frame from its four parts.
    pub fn new(destination: [u8; 6], source: [u8; 6], ethertype: u16, payload: Vec<u8>) -> (r: Self)
        ensures
            r.destination@ == destination@,
            r.source@ == source@,
            r.ethertype == ethertype,
            r.payload@ == payload@,
    {
        EthernetFrame { destination, source, ethertype, payload }
    }

    /// Serialize the frame to its wire form.
    pub fn to_bytes(&self) -> (r: Vec<u8>)
        requires
            self.payload@.len() + 14 <= usize::MAX,
        ensures
            r@ == spec_frame_bytes(*self),
    {
        let mut bytes: Vec<u8> = Vec::new();
        let mut k: usize = 0;
        while k < 6
            invariant
                k <= 6,
                bytes@ =~= self.destination@.take(k as int),
            decreases 6 - k,
        {
            bytes.push(self.destination[k]);
            k = k + 1;
        }
        proof {
            assert(bytes@ =~= self.destination@);
        }
        let mut k2: usize = 0;
        while k2 < 6
            invariant
                k2 <= 6,
                bytes@ =~= self.destination@ + self.source@.take(k2 as int),
            decreases 6 - k2,
        {
            bytes.push(self.source[k2]);
            k2 = k2 + 1;
        }
        bytes.push((self.ethertype / 256) as u8);
        bytes.push((self.ethertype % 256) as u8);
        let mut k3: usize = 0;
        while k3 < self.payload.len()
            invariant
                k3 <= self.payload@.len(),
                bytes@ =~= self.destination@ + self.source@ + seq![
                    (self.ethertype / 256) as u8,
                    (self.ethertype % 256) as u8,
                ] + self.payload@.take(k3 as int),
            decreases self.payload@.len() - k3,
        {
            bytes.push(self.payload[k3]);
            k3 = k3 + 1;
        }
        proof {
            assert(self.payload@.take(self.payload@.len() as int) =~= self.payload@);
        }
        bytes
    }

    /// Parse a frame from its wire form: absence when the fixed header
    /// cannot even fit; otherwise the fields read back in order, with the
    /// rest of the bytes as payload.
    pub fn from_bytes(bytes: &[u8]) -> (r: Option<Self>)
        ensures
            bytes@.len() < 14 ==> r is None,
            bytes@.len() >= 14 ==> (r matches Some(f) && {
                &&& f.destination@ == bytes@.subrange(0, 6)
                &&& f.source@ == bytes@.subrange(6, 12)
                &&& f.ethertype == bytes@[12] * 256 + bytes@[13]
                &&& f.payload@ == bytes@.skip(14)
            }),
    {
        if bytes.len() < 14 {
            return None;
        }
        let destination: [u8; 6] = [bytes[0], bytes[1], bytes[2], bytes[3], bytes[4], bytes[5]];
        let source: [u8; 6] = [bytes[6], bytes[7], bytes[8], bytes[9], bytes[10], bytes[11]];
        let ethertype: u16 = (bytes[12] as u16) * 256 + (bytes[13] as u16);
        let mut payload: Vec<u8> = Vec::new();
        let mut k: usize = 14;
        while k < bytes.len()
            invariant
                14 <= k <= bytes@.len(),
                payload@ =~= bytes@.subrange(14, k as int),
            decreases bytes@.len() - k,
        {
            payload.push(bytes[k]);
            k = k + 1;
        }
        proof {
            assert(destination@ =~= bytes@.subrange(0, 6));
            assert(source@ =~= bytes@.subrange(6, 12));
            assert(payload@ =~= bytes@.skip(14));
        }
        Some(EthernetFrame { destination, source, ethertype, payload })
    }

    /// The destination hardware address.
    pub fn get_destination(&self) -> (r: [u8; 6])
        ensures
            r@ == self.destination@,
    {
        self.destination
    }

    /// The source hardware address.
    pub fn get_source(&self) -> (r: [u8; 6])
        ensures
            r@ == self.source@,
    {
        self.source
    }

    /// The payload's protocol type.
    pub fn get_ethertype(&self) -> (r: u16)
        ensures
            r == self.ethertype,
    {
        self.ethertype
    }

    /// The payload carried by the frame.
    pub fn get_payload(&self) -> (r: &[u8])
        ensures
            r@ == self.payload@,
    {
        self.payload.as_slice()
    }
}

/// Serializing a frame and parsing the bytes back yields the frame's own
/// fields: the codec round-trips.
pub proof fn lemma_frame_round_trip(f: EthernetFrame)
    ensures
        spec_frame_bytes(f).len() >= 14,
        spec_frame_bytes(f).subrange(0, 6) == f.destination@,
        spec_frame_bytes(f).subrange(6, 12) == f.source@,
        spec_frame_bytes(f)[12] * 256 + spec_frame_bytes(f)[13] == f.ethertype,
        spec_frame_bytes(f).skip(14) == f.payload@,
{
    let b = spec_frame_bytes(f);
    assert(b.subrange(0, 6) =~= f.destination@);
    assert(b.subrange(6, 12) =~= f.source@);
    assert(b[12] == (f.ethertype / 256) as u8 && b[13] == (f.ethertype % 256) as u8);
    assert(b.skip(14) =~= f.payload@);
    assert((f.ethertype / 256) * 256 + f.ethertype % 256 == f.ethertype);
}

} // verus!
