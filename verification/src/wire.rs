//! Header fields and their wire images.
//!
//! The engine keeps the header fields it reads and sets as plain values.
//! Serialisation and checksums are left to `etherparse`; the functions that
//! call it are the only unverified code of the library, and each states what
//! is taken on trust.

use vstd::prelude::*;
use etherparse::{IpTrafficClass, Ipv4Header, TcpHeader};

verus! {

/// The fields of an IPv4 header without options that the engine reads or sets.
#[derive(Clone, Copy, Debug, PartialEq, Eq)]
pub struct Ipv4Fields {
    /// Length of what follows the IPv4 header, in bytes.
    pub payload_len: u16,
    pub time_to_live: u8,
    pub source: [u8; 4],
    pub destination: [u8; 4],
}

/// The fields of a TCP header without options that the engine reads or sets.
#[derive(Clone, Copy, Debug, PartialEq, Eq)]
pub struct TcpFields {
    pub source_port: u16,
    pub destination_port: u16,
    pub sequence_number: u32,
    pub acknowledgment_number: u32,
    pub fin: bool,
    pub syn: bool,
    pub rst: bool,
    pub ack: bool,
    pub window_size: u16,
    pub checksum: u16,
}

/// One frame handed to the network: the headers as they were serialised and
/// the bytes that go on the wire (IPv4 header, TCP header, payload).
#[derive(Clone, Debug, PartialEq, Eq)]
pub struct Frame {
    pub ip: Ipv4Fields,
    pub tcp: TcpFields,
    pub bytes: Vec<u8>,
}

/// The mathematical content of a [`Frame`].
#[verifier::ext_equal]
pub struct FrameView {
    pub ip: Ipv4Fields,
    pub tcp: TcpFields,
    pub bytes: Seq<u8>,
}

impl View for Frame {
    type V = FrameView;

    open spec fn view(&self) -> FrameView {
        FrameView { ip: self.ip, tcp: self.tcp, bytes: self.bytes@ }
    }
}

/// The views of a sequence of frames, in order.
pub open spec fn frame_views(frames: Seq<Frame>) -> Seq<FrameView> {
    frames.map_values(|f: Frame| f@)
}

/// Length in bytes of an IPv4 header without options.
pub const IPV4_HEADER_LEN: usize = 20;

/// Length in bytes of a TCP header without options.
pub const TCP_HEADER_LEN: usize = 20;

/// The largest value `etherparse` accepts as the payload length of an IPv4
/// header without options: 65535 less the header's 20 bytes.
pub const IPV4_MAX_PAYLOAD: usize = 65515;

/// The bytes `etherparse` writes for an IPv4 header without options that
/// carries TCP, header checksum included.
pub uninterp spec fn ipv4_header_image(
    payload_len: u16,
    time_to_live: u8,
    source: Seq<u8>,
    destination: Seq<u8>,
) -> Seq<u8>;

/// The bytes `etherparse` writes for a TCP header without options.
pub uninterp spec fn tcp_header_image(
    source_port: u16,
    destination_port: u16,
    sequence_number: u32,
    acknowledgment_number: u32,
    fin: bool,
    syn: bool,
    rst: bool,
    ack: bool,
    window_size: u16,
    checksum: u16,
) -> Seq<u8>;

/// The TCP checksum `etherparse` computes over the IPv4 pseudo-header, a TCP
/// header without options and the payload.
pub uninterp spec fn tcp_checksum_value(
    source_port: u16,
    destination_port: u16,
    sequence_number: u32,
    acknowledgment_number: u32,
    fin: bool,
    syn: bool,
    rst: bool,
    ack: bool,
    window_size: u16,
    source: Seq<u8>,
    destination: Seq<u8>,
    payload: Seq<u8>,
) -> u16;

/// The wire image of an IPv4 header.
pub open spec fn ipv4_image(h: Ipv4Fields) -> Seq<u8> {
    ipv4_header_image(h.payload_len, h.time_to_live, h.source@, h.destination@)
}

/// The wire image of a TCP header, with the checksum field as it stands.
pub open spec fn tcp_image(h: TcpFields) -> Seq<u8> {
    tcp_header_image(
        h.source_port,
        h.destination_port,
        h.sequence_number,
        h.acknowledgment_number,
        h.fin,
        h.syn,
        h.rst,
        h.ack,
        h.window_size,
        h.checksum,
    )
}

/// The checksum that belongs to a TCP header sent between the addresses of
/// `ip` with the given payload. The header's own checksum field plays no part.
pub open spec fn checksum_of(h: TcpFields, ip: Ipv4Fields, payload: Seq<u8>) -> u16 {
    tcp_checksum_value(
        h.source_port,
        h.destination_port,
        h.sequence_number,
        h.acknowledgment_number,
        h.fin,
        h.syn,
        h.rst,
        h.ack,
        h.window_size,
        ip.source@,
        ip.destination@,
        payload,
    )
}

/// The TCP header as it is sent with `payload`: its checksum filled in.
pub open spec fn sealed(tcp: TcpFields, ip: Ipv4Fields, payload: Seq<u8>) -> TcpFields {
    TcpFields { checksum: checksum_of(tcp, ip, payload), ..tcp }
}

/// The frame that carries `payload` under the given headers.
pub open spec fn frame_of(ip: Ipv4Fields, tcp: TcpFields, payload: Seq<u8>) -> FrameView {
    let tcp = sealed(tcp, ip, payload);
    FrameView { ip, tcp, bytes: ipv4_image(ip) + tcp_image(tcp) + payload }
}

/// Calls `etherparse::Ipv4Header::header_len` on a header without options.
/// Trusted: the length is the fixed 20 bytes, since `new` sets no options.
#[verifier::external_body]
fn ipv4_header_len(h: &Ipv4Fields) -> (n: usize)
    ensures
        n == IPV4_HEADER_LEN,
{
    Ipv4Header::new(h.payload_len, h.time_to_live, IpTrafficClass::Tcp, h.source, h.destination)
        .header_len()
}

/// Calls `etherparse::TcpHeader::header_len` on a header without options.
/// Trusted: the length is five 32-bit words, the data offset that `new` sets.
#[verifier::external_body]
fn tcp_header_len(h: &TcpFields) -> (n: u16)
    ensures
        n == TCP_HEADER_LEN,
{
    TcpHeader::new(h.source_port, h.destination_port, h.sequence_number, h.window_size).header_len()
}

/// Calls `etherparse::Ipv4Header::write` into an empty vector. Trusted: the
/// call succeeds whenever the payload length is at most 65515, and then
/// leaves the 20 bytes named by [`ipv4_header_image`].
#[verifier::external_body]
fn write_ipv4_header(h: &Ipv4Fields) -> (r: Option<Vec<u8>>)
    ensures
        h.payload_len <= IPV4_MAX_PAYLOAD ==> r is Some,
        r matches Some(bytes) ==> bytes@ == ipv4_header_image(
            h.payload_len,
            h.time_to_live,
            h.source@,
            h.destination@,
        ) && bytes@.len() == IPV4_HEADER_LEN,
{
    let header =
        Ipv4Header::new(h.payload_len, h.time_to_live, IpTrafficClass::Tcp, h.source, h.destination);
    let mut bytes = Vec::new();
    match header.write(&mut bytes) {
        Ok(()) => Some(bytes),
        Err(_) => None,
    }
}

/// Calls `etherparse::TcpHeader::calc_checksum_ipv4`. Trusted: the call
/// succeeds whenever header and payload together fit in 65535 bytes, and
/// then returns the value named by [`tcp_checksum_value`].
#[verifier::external_body]
fn tcp_checksum(h: &TcpFields, ip: &Ipv4Fields, payload: &[u8]) -> (r: Option<u16>)
    ensures
        TCP_HEADER_LEN + payload@.len() <= 0xFFFF ==> r is Some,
        r matches Some(sum) ==> sum == tcp_checksum_value(
            h.source_port,
            h.destination_port,
            h.sequence_number,
            h.acknowledgment_number,
            h.fin,
            h.syn,
            h.rst,
            h.ack,
            h.window_size,
            ip.source@,
            ip.destination@,
            payload@,
        ),
{
    let mut tcp =
        TcpHeader::new(h.source_port, h.destination_port, h.sequence_number, h.window_size);
    tcp.acknowledgment_number = h.acknowledgment_number;
    tcp.fin = h.fin;
    tcp.syn = h.syn;
    tcp.rst = h.rst;
    tcp.ack = h.ack;
    let ip =
        Ipv4Header::new(ip.payload_len, ip.time_to_live, IpTrafficClass::Tcp, ip.source, ip.destination);
    match tcp.calc_checksum_ipv4(&ip, payload) {
        Ok(sum) => Some(sum),
        Err(_) => None,
    }
}

/// Calls `etherparse::TcpHeader::write` into an empty vector. Trusted: the
/// call succeeds, as writing into a vector cannot fail, and leaves the 20
/// bytes named by [`tcp_header_image`].
#[verifier::external_body]
fn write_tcp_header(h: &TcpFields) -> (r: Option<Vec<u8>>)
    ensures
        r is Some,
        r matches Some(bytes) ==> bytes@ == tcp_header_image(
            h.source_port,
            h.destination_port,
            h.sequence_number,
            h.acknowledgment_number,
            h.fin,
            h.syn,
            h.rst,
            h.ack,
            h.window_size,
            h.checksum,
        ) && bytes@.len() == TCP_HEADER_LEN,
{
    let mut tcp =
        TcpHeader::new(h.source_port, h.destination_port, h.sequence_number, h.window_size);
    tcp.acknowledgment_number = h.acknowledgment_number;
    tcp.fin = h.fin;
    tcp.syn = h.syn;
    tcp.rst = h.rst;
    tcp.ack = h.ack;
    tcp.checksum = h.checksum;
    let mut bytes = Vec::new();
    match tcp.write(&mut bytes) {
        Ok(()) => Some(bytes),
        Err(_) => None,
    }
}

/// Room for payload in a frame of at most `mtu` bytes under the two headers.
pub fn payload_room(ip: &Ipv4Fields, tcp: &TcpFields, mtu: usize) -> (room: usize)
    ensures
        room == if mtu >= IPV4_HEADER_LEN + TCP_HEADER_LEN {
            mtu - IPV4_HEADER_LEN - TCP_HEADER_LEN
        } else {
            0
        },
{
    let headers: usize = ipv4_header_len(ip) + tcp_header_len(tcp) as usize;
    if mtu >= headers {
        mtu - headers
    } else {
        0
    }
}

/// Builds the frame that carries `payload` from `ip` to its destination under
/// `tcp`: sets the IPv4 payload length, computes the TCP checksum and
/// serialises both headers in front of the payload.
///
/// On return `ip` and `tcp` hold the fields as they were sent.
pub fn seal(ip: &mut Ipv4Fields, tcp: &mut TcpFields, payload: Vec<u8>) -> (frame: Frame)
    requires
        TCP_HEADER_LEN + payload@.len() <= IPV4_MAX_PAYLOAD,
    ensures
        *final(ip) == (Ipv4Fields {
            payload_len: (TCP_HEADER_LEN + payload@.len()) as u16,
            ..*old(ip)
        }),
        *final(tcp) == sealed(*old(tcp), *final(ip), payload@),
        frame@ == frame_of(*final(ip), *old(tcp), payload@),
        frame@.bytes.len() == IPV4_HEADER_LEN + TCP_HEADER_LEN + payload@.len(),
{
    let segment_len: usize = tcp_header_len(tcp) as usize + payload.len();
    ip.payload_len = segment_len as u16;
    let sum = tcp_checksum(tcp, ip, payload.as_slice());
    tcp.checksum = sum.unwrap();
    let mut bytes = write_ipv4_header(ip).unwrap();
    let mut tcp_bytes = write_tcp_header(tcp).unwrap();
    let mut payload = payload;
    bytes.append(&mut tcp_bytes);
    bytes.append(&mut payload);
    Frame { ip: *ip, tcp: *tcp, bytes }
}

} // verus!
