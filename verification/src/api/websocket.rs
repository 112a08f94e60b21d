//! The WebSocket server and frame codec: parse a frame from raw bytes
//! (with the two extended length forms and client masking) and build a
//! text frame, masked or not.

use vstd::prelude::*;
use vstd::string::StrSliceExecFns;
use vstd::string::StringSliceAdditionalSpecFns;

verus! {

/// The frame opcodes the codec accepts.
#[derive(Clone, Copy, PartialEq, Eq, Structural, Debug)]
pub enum WebSocketOpCode {
    Continuation,
    Text,
    Binary,
    Close,
    Ping,
    Pong,
}

/// The opcode carried in a first byte's low four bits, if it is one the
/// codec accepts.
pub open spec fn spec_opcode(b: u8) -> Option<WebSocketOpCode> {
    let code = b % 16;
    if code == 0 {
        Some(WebSocketOpCode::Continuation)
    } else if code == 1 {
        Some(WebSocketOpCode::Text)
    } else if code == 2 {
        Some(WebSocketOpCode::Binary)
    } else if code == 8 {
        Some(WebSocketOpCode::Close)
    } else if code == 9 {
        Some(WebSocketOpCode::Ping)
    } else if code == 10 {
        Some(WebSocketOpCode::Pong)
    } else {
        None
    }
}

/// A parsed frame.
pub struct WebSocketFrame {
    pub fin: bool,
    pub opcode: WebSocketOpCode,
    pub mask: bool,
    pub payload_length: usize,
    pub mask_key: Option<[u8; 4]>,
    pub payload: Vec<u8>,
}

/// The payload length announced by the second byte: its low seven bits,
/// or the two-byte extension for 126, or (of the eight-byte extension)
/// the two low-order bytes for 127.
pub open spec fn spec_payload_len(data: Seq<u8>) -> int {
    let b = data[1] % 128;
    if b == 126 {
        data[2] * 256 + data[3]
    } else if b == 127 {
        data[8] * 256 + data[9]
    } else {
        b as int
    }
}

/// How many bytes the length form occupies, including the two fixed ones.
pub open spec fn spec_len_header(data: Seq<u8>) -> int {
    let b = data[1] % 128;
    if b == 126 {
        4
    } else if b == 127 {
        10
    } else {
        2
    }
}

/// Whether the frame is masked: the second byte's top bit.
pub open spec fn spec_masked(data: Seq<u8>) -> bool {
    data[1] >= 128
}

/// The full header length: the length form, plus the four-byte mask key
/// when the frame is masked.
pub open spec fn spec_header_len(data: Seq<u8>) -> int {
    spec_len_header(data) + if spec_masked(data) {
        4int
    } else {
        0int
    }
}

/// Whether the bytes hold one complete, acceptable frame: the fixed
/// header fits, the opcode is known, the announced length form fits, and
/// the payload is fully present.
pub open spec fn spec_frame_ok(data: Seq<u8>) -> bool {
    &&& data.len() >= 2
    &&& spec_opcode(data[0]) is Some
    &&& data.len() >= spec_len_header(data)
    &&& data.len() >= spec_header_len(data) + spec_payload_len(data)
}

/// The payload, unmasked when the frame is masked: each byte undone with
/// its quarter of the mask key.
pub open spec fn spec_unmasked_payload(data: Seq<u8>) -> Seq<u8> {
    let hdr = spec_header_len(data);
    let plen = spec_payload_len(data);
    if spec_masked(data) {
        let key_at = spec_len_header(data);
        Seq::new(plen as nat, |i: int| data[hdr + i] ^ data[key_at + i % 4])
    } else {
        data.subrange(hdr, hdr + plen)
    }
}

/// One live connection of the server.
pub struct WebSocketConnection {
    pub id: u32,
    pub connected: bool,
}

impl WebSocketConnection {
    /// Mark the connection closed.
    pub fn close(&mut self)
        ensures
            !final(self).connected,
            final(self).id == old(self).id,
    {
        self.connected = false;
    }

    /// Whether the connection is still open.
    pub fn is_connected(&self) -> (r: bool)
        ensures
            r == self.connected,
    {
        self.connected
    }
}

/// The WebSocket server: its bind address, whether it is accepting, and
/// the connections it tracks.
pub struct WebSocketServer {
    pub port: u16,
    pub host: String,
    pub running: bool,
    pub connections: Vec<WebSocketConnection>,
}

impl WebSocketServer {
    /// A stopped server for the given bind address with no connection.
    pub fn new(host: &str, port: u16) -> (r: Self)
        ensures
            r.port == port,
            r.host@ == host@,
            !r.running,
            r.connections@.len() == 0,
    {
        WebSocketServer {
            port,
            host: String::from_str(host),
            running: false,
            connections: Vec::new(),
        }
    }

    /// Start accepting connections; binding the socket is the platform's
    /// part.
    pub fn start(&mut self) -> (r: Result<(), &'static str>)
        ensures
            r is Ok,
            final(self).running,
            final(self).port == old(self).port,
            final(self).host == old(self).host,
            final(self).connections@ == old(self).connections@,
    {
        self.running = true;
        Ok(())
    }

    /// Stop accepting: every tracked connection is closed and the server
    /// no longer runs.
    pub fn stop(&mut self)
        ensures
            !final(self).running,
            final(self).connections@.len() == old(self).connections@.len(),
            forall|k: int|
                0 <= k < final(self).connections@.len()
                    ==> !(#[trigger] final(self).connections@[k]).connected
                    && final(self).connections@[k].id == old(self).connections@[k].id,
            final(self).port == old(self).port,
            final(self).host == old(self).host,
    {
        let mut k: usize = 0;
        while k < self.connections.len()
            invariant
                k <= self.connections@.len(),
                self.connections@.len() == old(self).connections@.len(),
                self.running == old(self).running,
                self.port == old(self).port,
                self.host == old(self).host,
                forall|j: int|
                    0 <= j < k ==> !(#[trigger] self.connections@[j]).connected
                        && self.connections@[j].id == old(self).connections@[j].id,
                forall|j: int|
                    k <= j < self.connections@.len() ==> #[trigger] self.connections@[j] == old(
                        self,
                    ).connections@[j],
            decreases self.connections@.len() - k,
        {
            self.connections[k].connected = false;
            k = k + 1;
        }
        self.running = false;
    }

    /// Whether the server is accepting connections.
    pub fn is_running(&self) -> (r: bool)
        ensures
            r == self.running,
    {
        self.running
    }

    /// Track a new connection under the given identifier, open, and hand
    /// back a reference to it.
    pub fn add_connection(&mut self, id: u32) -> (r: &WebSocketConnection)
        ensures
            final(self).connections@.len() == old(self).connections@.len() + 1,
            final(self).connections@[old(self).connections@.len() as int] == (WebSocketConnection {
                id,
                connected: true,
            }),
            *r == (WebSocketConnection { id, connected: true }),
            forall|k: int|
                0 <= k < old(self).connections@.len() ==> final(self).connections@[k] == old(
                    self,
                ).connections@[k],
            final(self).running == old(self).running,
            final(self).port == old(self).port,
            final(self).host == old(self).host,
    {
        self.connections.push(WebSocketConnection { id, connected: true });
        let idx = self.connections.len() - 1;
        &self.connections[idx]
    }

    /// Parse one frame from raw bytes: absence on a short, unknown or
    /// truncated frame; otherwise the header fields, the mask key if any,
    /// and the payload, unmasked.
    pub fn parse_frame(data: &[u8]) -> (r: Option<WebSocketFrame>)
        ensures
            r is Some <==> spec_frame_ok(data@),
            r matches Some(f) ==> {
                &&& f.fin == (data@[0] >= 128)
                &&& Some(f.opcode) == spec_opcode(data@[0])
                &&& f.mask == spec_masked(data@)
                &&& f.payload_length == spec_payload_len(data@)
                &&& (f.mask_key matches Some(key) <==> spec_masked(data@))
                &&& (f.mask_key matches Some(key) ==> key@ == data@.subrange(
                    spec_len_header(data@),
                    spec_len_header(data@) + 4,
                ))
                &&& f.payload@ == spec_unmasked_payload(data@)
            },
    {
        if data.len() < 2 {
            return None;
        }
        let fin = data[0] >= 128;
        let opcode = match data[0] % 16 {
            0 => WebSocketOpCode::Continuation,
            1 => WebSocketOpCode::Text,
            2 => WebSocketOpCode::Binary,
            8 => WebSocketOpCode::Close,
            9 => WebSocketOpCode::Ping,
            10 => WebSocketOpCode::Pong,
            _ => {
                return None;
            },
        };
        let mask = data[1] >= 128;
        let len_code = data[1] % 128;
        let mut payload_length: usize = len_code as usize;
        let mut header_length: usize = 2;
        if len_code == 126 {
            if data.len() < 4 {
                return None;
            }
            payload_length = (data[2] as usize) * 256 + (data[3] as usize);
            header_length = 4;
        } else if len_code == 127 {
            if data.len() < 10 {
                return None;
            }
            payload_length = (data[8] as usize) * 256 + (data[9] as usize);
            header_length = 10;
        }
        let ghost key_at = header_length as int;
        let mut mask_key: Option<[u8; 4]> = None;
        if mask {
            if data.len() < header_length + 4 {
                return None;
            }
            let key: [u8; 4] = [
                data[header_length],
                data[header_length + 1],
                data[header_length + 2],
                data[header_length + 3],
            ];
            mask_key = Some(key);
            header_length = header_length + 4;
        }
        if data.len() < header_length || data.len() - header_length < payload_length {
            return None;
        }
        proof {
            assert(spec_header_len(data@) == header_length);
            assert(spec_payload_len(data@) == payload_length);
            assert(spec_frame_ok(data@));
        }
        let mut payload: Vec<u8> = Vec::new();
        let mut k: usize = 0;
        if let Some(key) = mask_key {
            while k < payload_length
                invariant
                    k <= payload_length,
                    spec_masked(data@),
                    header_length == spec_header_len(data@),
                    payload_length == spec_payload_len(data@),
                    header_length + payload_length <= data@.len(),
                    key_at == spec_len_header(data@),
                    key@ == data@.subrange(key_at, key_at + 4),
                    payload@ =~= spec_unmasked_payload(data@).take(k as int),
                decreases payload_length - k,
            {
                proof {
                    assert(key@[k as int % 4] == data@[key_at + (k as int) % 4]);
                }
                payload.push(data[header_length + k] ^ key[k % 4]);
                k = k + 1;
            }
        } else {
            while k < payload_length
                invariant
                    k <= payload_length,
                    !spec_masked(data@),
                    header_length == spec_header_len(data@),
                    payload_length == spec_payload_len(data@),
                    header_length + payload_length <= data@.len(),
                    payload@ =~= spec_unmasked_payload(data@).take(k as int),
                decreases payload_length - k,
            {
                payload.push(data[header_length + k]);
                k = k + 1;
            }
        }
        proof {
            assert(spec_unmasked_payload(data@).take(payload_length as int) =~= spec_unmasked_payload(
                data@,
            ));
        }
        Some(WebSocketFrame { fin, opcode, mask, payload_length, mask_key, payload })
    }

    /// Build a text frame around a payload: the final-text first byte, the
    /// announced length in its shortest form, then the mask key and the
    /// masked payload when masking is asked for, or the payload as it is.
    pub fn create_text_frame(text: &str, mask: bool) -> (r: Vec<u8>)
        requires
            text@.len() * 4 + 14 <= usize::MAX,
        ensures
            r@ == spec_text_frame(text.spec_bytes(), mask),
    {
        let payload = text.as_bytes_vec();
        let payload_len = payload.len();
        let mut frame: Vec<u8> = Vec::new();
        frame.push(129);
        if payload_len <= 125 {
            if mask {
                frame.push(128 + payload_len as u8);
            } else {
                frame.push(payload_len as u8);
            }
        } else if payload_len <= 65535 {
            if mask {
                frame.push(254);
            } else {
                frame.push(126);
            }
            frame.push((payload_len / 256) as u8);
            frame.push((payload_len % 256) as u8);
        } else {
            if mask {
                frame.push(255);
            } else {
                frame.push(127);
            }
            frame.push(0);
            frame.push(0);
            frame.push(0);
            frame.push(0);
            frame.push(0);
            frame.push(0);
            frame.push(((payload_len / 256) % 256) as u8);
            frame.push((payload_len % 256) as u8);
        }
        if mask {
            frame.push(0x12);
            frame.push(0x34);
            frame.push(0x56);
            frame.push(0x78);
            let ghost base = frame@;
            let mut k: usize = 0;
            while k < payload_len
                invariant
                    k <= payload_len,
                    payload_len == payload@.len(),
                    frame@ =~= base + Seq::new(
                        k as nat,
                        |i: int| payload@[i] ^ spec_fixed_mask_key()[i % 4],
                    ),
                decreases payload_len - k,
            {
                let mb = fixed_mask_byte(k);
                frame.push(payload[k] ^ mb);
                k = k + 1;
            }
        } else {
            let ghost base = frame@;
            let mut k: usize = 0;
            while k < payload_len
                invariant
                    k <= payload_len,
                    payload_len == payload@.len(),
                    frame@ =~= base + payload@.take(k as int),
                decreases payload_len - k,
            {
                frame.push(payload[k]);
                k = k + 1;
            }
        }
        proof {
            assert(payload@.take(payload@.len() as int) =~= payload@);
            assert(frame@ =~= spec_text_frame(text.spec_bytes(), mask));
        }
        frame
    }
}

/// The byte of the fixed outgoing mask key used at position `k`.
fn fixed_mask_byte(k: usize) -> (r: u8)
    ensures
        r == spec_fixed_mask_key()[k as int % 4],
{
    let m = k % 4;
    if m == 0 {
        0x12
    } else if m == 1 {
        0x34
    } else if m == 2 {
        0x56
    } else {
        0x78
    }
}

/// The fixed mask key the server uses for outgoing masked frames.
pub open spec fn spec_fixed_mask_key() -> Seq<u8> {
    seq![0x12u8, 0x34u8, 0x56u8, 0x78u8]
}

/// The length bytes announcing a payload in the shortest form: one byte
/// up to 125, the 126 form up to 65535, the eight-byte 127 form above
/// (with only the two low-order bytes of the length filled in). The top
/// bit of the first length byte announces masking.
pub open spec fn spec_len_bytes(plen: int, mask: bool) -> Seq<u8> {
    let m: u8 = if mask {
        128
    } else {
        0
    };
    if plen <= 125 {
        seq![(m + plen) as u8]
    } else if plen <= 65535 {
        seq![(m + 126) as u8, (plen / 256) as u8, (plen % 256) as u8]
    } else {
        seq![(m + 127) as u8, 0u8, 0u8, 0u8, 0u8, 0u8, 0u8, ((plen / 256) % 256) as u8, (plen % 256) as u8]
    }
}

/// The wire form of an outgoing text frame.
pub open spec fn spec_text_frame(payload: Seq<u8>, mask: bool) -> Seq<u8> {
    let head = seq![129u8] + spec_len_bytes(payload.len() as int, mask);
    if mask {
        head + spec_fixed_mask_key() + Seq::new(
            payload.len(),
            |i: int| payload[i] ^ spec_fixed_mask_key()[i % 4],
        )
    } else {
        head + payload
    }
}

} // verus!
