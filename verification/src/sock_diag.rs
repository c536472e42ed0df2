//! Requests to and replies from the kernel's socket diagnostics over netlink.
use crate::socket_accept_queues::{SocketAcceptQueueSnapshot, SocketKey};
use netlink_packet_core::{NetlinkBuffer, NetlinkMessage, NetlinkPayload};
use netlink_packet_sock_diag::inet::{ExtensionFlags, InetRequest, SocketId, StateFlags};
use netlink_packet_sock_diag::SockDiagMessage;
use vstd::prelude::*;
use vstd::slice::slice_subrange;

verus! {

/// Address family of IPv4.
pub const AF_INET: u8 = 2;

/// Address family of IPv6.
pub const AF_INET6: u8 = 10;

/// Protocol number of TCP.
pub const IPPROTO_TCP: u8 = 6;

/// State of a listening TCP socket.
pub const TCP_LISTEN: u8 = 10;

/// Filter that selects listening TCP sockets.
pub const LISTEN_STATES: u32 = 0x400;

/// Flags of a dump request.
pub const REQUEST_DUMP: u16 = 0x301;

/// Why a dump of the listeners failed.
#[derive(Debug)]
pub enum DumpError {
    /// The address family is neither IPv4 nor IPv6.
    UnsupportedFamily(u8),
    /// The socket took only part of the request.
    ShortWrite { sent: usize, expected: usize },
    /// The socket gave an empty reply.
    EmptyResponse,
    /// A reply is no valid netlink message.
    Decode(String),
    /// A message in a reply claims to have no length.
    ZeroLength,
    /// The kernel refused the request with this error code.
    Kernel(i32),
}

/// The unsigned number in four bytes.
pub open spec fn word(bytes: Seq<u8>, at: int, big: bool) -> int {
    if big {
        bytes[at] * 0x100_0000 + bytes[at + 1] * 0x1_0000 + bytes[at + 2] * 0x100 + bytes[at + 3]
    } else {
        bytes[at + 3] * 0x100_0000 + bytes[at + 2] * 0x1_0000 + bytes[at + 1] * 0x100 + bytes[at]
    }
}

/// The unsigned number in two bytes.
pub open spec fn half(bytes: Seq<u8>, at: int, big: bool) -> int {
    if big {
        bytes[at] * 0x100 + bytes[at + 1]
    } else {
        bytes[at + 1] * 0x100 + bytes[at]
    }
}

/// One socket in a reply.
#[derive(Debug)]
pub struct InetDiag {
    pub family: u8,
    pub state: u8,
    pub inode: u32,
    pub cookie: [u8; 8],
    pub local_addr: String,
    pub local_port: u16,
    pub recv_queue: u32,
    pub send_queue: u32,
}

/// What a message carries.
#[derive(Debug)]
pub enum DiagBody {
    /// The end of a dump.
    Done,
    /// An acknowledgement, or an error with its code.
    Error(Option<i32>),
    /// One socket.
    Inet(InetDiag),
    /// Anything else.
    Other,
}

/// One message of a reply.
#[derive(Debug)]
pub struct DiagMessage {
    pub sequence: u32,
    pub body: DiagBody,
}

/// The text of an IP address, given by its 4 or 16 bytes.
pub uninterp spec fn ip_text(octets: Seq<u8>) -> Seq<char>;

/// The first message of `bytes` has a whole header, and its length field lies
/// between the header's length and the length of `bytes`.
pub open spec fn framed(bytes: Seq<u8>, big: bool) -> bool {
    bytes.len() >= 16 && 16 <= word(bytes, 0, big) <= bytes.len()
}

/// The socket that a reply's bytes describe, but for its address text.
pub open spec fn describes_socket(bytes: Seq<u8>, socket: InetDiag, big: bool) -> bool {
    &&& bytes.len() >= 88
    &&& socket.family == bytes[16]
    &&& socket.state == bytes[17]
    &&& socket.local_port == half(bytes, 20, true)
    &&& socket.cookie@ == bytes.subrange(60, 68)
    &&& socket.recv_queue == word(bytes, 72, big)
    &&& socket.send_queue == word(bytes, 76, big)
    &&& socket.inode == word(bytes, 84, big)
}

/// The signed number that an unsigned 32-bit number stands for.
pub open spec fn signed(value: int) -> int {
    if value < 0x8000_0000 {
        value
    } else {
        value - 0x1_0000_0000
    }
}

/// The message that the bytes of one netlink message describe.
pub open spec fn describes(bytes: Seq<u8>, message: DiagMessage, big: bool) -> bool {
    &&& framed(bytes, big)
    &&& message.sequence == word(bytes, 8, big)
    &&& if half(bytes, 4, big) == 3 {
        message.body is Done
    } else if half(bytes, 4, big) == 2 {
        bytes.len() >= 20 && (match message.body {
            DiagBody::Error(Some(code)) => code == signed(word(bytes, 16, big)) && code != 0,
            DiagBody::Error(None) => word(bytes, 16, big) == 0,
            _ => false,
        })
    } else if half(bytes, 4, big) == 20 {
        bytes.len() >= 18 && if bytes[16] == AF_INET || bytes[16] == AF_INET6 {
            message.body matches DiagBody::Inet(socket) && describes_socket(bytes, socket, big)
        } else {
            message.body is Other
        }
    } else {
        message.body is Other
    }
}

/// The bytes are one whole message that can always be decoded: an end of
/// dump, an error, or a socket without attributes.
pub open spec fn plain_message(bytes: Seq<u8>, big: bool) -> bool {
    &&& framed(bytes, big)
    &&& word(bytes, 0, big) == bytes.len()
    &&& {
        ||| half(bytes, 4, big) == 3 && (bytes.len() == 16 || bytes.len() >= 20)
        ||| half(bytes, 4, big) == 2 && bytes.len() >= 20
        ||| half(bytes, 4, big) == 20 && bytes.len() == 88 && (bytes[16] == AF_INET || bytes[16]
            == AF_INET6)
    }
}

/// What reading the length field gives in one byte order.
pub open spec fn length_read(bytes: Seq<u8>, r: Result<u32, String>, big: bool) -> bool {
    match r {
        Ok(length) => framed(bytes, big) && length == word(bytes, 0, big),
        Err(_) => !framed(bytes, big),
    }
}

/// What decoding one message gives in one byte order.
pub open spec fn message_read(bytes: Seq<u8>, r: Result<DiagMessage, String>, big: bool) -> bool {
    &&& r matches Ok(message) ==> describes(bytes, message, big)
    &&& plain_message(bytes, big) ==> r is Ok
    &&& !framed(bytes, big) ==> r is Err
}

/// The socket's address is given as text.
pub open spec fn names_address(bytes: Seq<u8>, message: DiagMessage) -> bool {
    message.body matches DiagBody::Inet(socket) ==> socket.local_addr@ == ip_text(
        if socket.family == AF_INET {
            bytes.subrange(24, 28)
        } else {
            bytes.subrange(24, 40)
        },
    )
}

/// What reading the length of the first message in some bytes can give.
pub open spec fn native_length() -> spec_fn(Seq<u8>, Result<u32, String>) -> bool {
    |bytes: Seq<u8>, r: Result<u32, String>|
        length_read(bytes, r, false) || length_read(bytes, r, true)
}

/// What decoding the bytes of one message can give.
pub open spec fn native_message() -> spec_fn(Seq<u8>, Result<DiagMessage, String>) -> bool {
    |bytes: Seq<u8>, r: Result<DiagMessage, String>|
        (message_read(bytes, r, false) || message_read(bytes, r, true)) && (r matches Ok(message)
            ==> names_address(bytes, message))
}

/// Calls `netlink_packet_core::NetlinkBuffer::new_checked` and `length`.
///
/// The call fails when the bytes hold no whole header or the length field
/// exceeds them or is shorter than a header, and gives the length field
/// otherwise. The field is in the machine's byte order, which is either of
/// two.
#[verifier::external_body]
fn message_length(bytes: &[u8]) -> (r: Result<u32, String>)
    ensures
        length_read(bytes@, r, false) || length_read(bytes@, r, true),
{
    match NetlinkBuffer::new_checked(&bytes) {
        Ok(packet) => Ok(packet.length()),
        Err(e) => Err(e.to_string()),
    }
}

/// Calls `netlink_packet_core::NetlinkMessage::deserialize` for
/// `netlink_packet_sock_diag::SockDiagMessage` and takes the fields used here.
///
/// On success the result is what the bytes say in the machine's byte order,
/// which is either of two, and the address is given as `std` writes it. Of
/// the messages that decode, only those without attributes are named; what
/// attributes make the call fail is left unsaid, and so is the error's text.
#[verifier::external_body]
fn decode_message(bytes: &[u8]) -> (r: Result<DiagMessage, String>)
    ensures
        message_read(bytes@, r, false) || message_read(bytes@, r, true),
        r matches Ok(message) ==> (message.body matches DiagBody::Inet(socket)
            ==> socket.local_addr@ == ip_text(
            if socket.family == AF_INET {
                bytes@.subrange(24, 28)
            } else {
                bytes@.subrange(24, 40)
            },
        )),
{
    let message = NetlinkMessage::<SockDiagMessage>::deserialize(bytes).map_err(|e| e.to_string())?;
    let body = match message.payload {
        NetlinkPayload::Done(_) => DiagBody::Done,
        NetlinkPayload::Error(error) => DiagBody::Error(error.code.map(|code| code.get())),
        NetlinkPayload::InnerMessage(SockDiagMessage::InetResponse(reply)) => DiagBody::Inet(InetDiag {
            family: reply.header.family, state: reply.header.state, inode: reply.header.inode,
            cookie: reply.header.socket_id.cookie, local_addr: reply.header.socket_id.source_address.to_string(),
            local_port: reply.header.socket_id.source_port, recv_queue: reply.header.recv_queue, send_queue: reply.header.send_queue }),
        _ => DiagBody::Other,
    };
    Ok(DiagMessage { sequence: message.header.sequence_number, body })
}

/// The bytes ask for a dump of the sockets of one family, protocol and set of
/// states.
pub open spec fn is_request(
    bytes: Seq<u8>,
    family: u8,
    protocol: u8,
    states: u32,
    flags: u16,
    sequence: u32,
    big: bool,
) -> bool {
    &&& bytes.len() == 72
    &&& word(bytes, 0, big) == 72
    &&& half(bytes, 4, big) == 20
    &&& half(bytes, 6, big) == flags
    &&& word(bytes, 8, big) == sequence
    &&& word(bytes, 12, big) == 0
    &&& bytes[16] == family
    &&& bytes[17] == protocol
    &&& bytes[18] == 0
    &&& bytes[19] == 0
    &&& word(bytes, 20, big) == states
    &&& forall|i: int| 24 <= i < 72 ==> #[trigger] bytes[i] == 0
}

/// Calls `netlink_packet_core::NetlinkMessage::serialize` on an IPv4
/// `netlink_packet_sock_diag::inet::InetRequest` for any socket, without
/// extensions.
///
/// The bytes are the netlink header followed by the request, with all numbers
/// in the machine's byte order, which is either of two.
#[verifier::external_body]
fn encode_v4_request(protocol: u8, states: u32, flags: u16, sequence: u32) -> (r: Vec<u8>)
    ensures
        is_request(r@, AF_INET, protocol, states, flags, sequence, false) || is_request(
            r@,
            AF_INET,
            protocol,
            states,
            flags,
            sequence,
            true,
        ),
{
    let mut message = NetlinkMessage::from(SockDiagMessage::InetRequest(InetRequest {
        family: netlink_packet_sock_diag::AF_INET, protocol, extensions: ExtensionFlags::empty(),
        states: StateFlags::from_bits_retain(states), socket_id: SocketId::new_v4() }));
    message.header.flags = flags;
    message.header.sequence_number = sequence;
    message.finalize();
    let mut bytes = vec![0; message.buffer_len()];
    message.serialize(&mut bytes);
    bytes
}

/// Calls `netlink_packet_core::NetlinkMessage::serialize` on an IPv6
/// `netlink_packet_sock_diag::inet::InetRequest` for any socket, without
/// extensions.
///
/// The bytes are the netlink header followed by the request, with all numbers
/// in the machine's byte order, which is either of two.
#[verifier::external_body]
fn encode_v6_request(protocol: u8, states: u32, flags: u16, sequence: u32) -> (r: Vec<u8>)
    ensures
        is_request(r@, AF_INET6, protocol, states, flags, sequence, false) || is_request(
            r@,
            AF_INET6,
            protocol,
            states,
            flags,
            sequence,
            true,
        ),
{
    let mut message = NetlinkMessage::from(SockDiagMessage::InetRequest(InetRequest {
        family: netlink_packet_sock_diag::AF_INET6, protocol, extensions: ExtensionFlags::empty(),
        states: StateFlags::from_bits_retain(states), socket_id: SocketId::new_v6() }));
    message.header.flags = flags;
    message.header.sequence_number = sequence;
    message.finalize();
    let mut bytes = vec![0; message.buffer_len()];
    message.serialize(&mut bytes);
    bytes
}

/// The bytes ask for a dump of the TCP listeners of a family, in one of the
/// two byte orders.
pub open spec fn asks_for_listeners(bytes: Seq<u8>, family: u8, sequence: u32) -> bool {
    ||| is_request(bytes, family, IPPROTO_TCP, LISTEN_STATES, REQUEST_DUMP, sequence, false)
    ||| is_request(bytes, family, IPPROTO_TCP, LISTEN_STATES, REQUEST_DUMP, sequence, true)
}

/// The request for a dump of the TCP listeners of a family.
pub fn listener_request(family: u8, sequence: u32) -> (r: Result<Vec<u8>, DumpError>)
    ensures
        match r {
            Ok(bytes) => (family == AF_INET || family == AF_INET6) && asks_for_listeners(
                bytes@,
                family,
                sequence,
            ),
            Err(e) => family != AF_INET && family != AF_INET6 && e == DumpError::UnsupportedFamily(
                family,
            ),
        },
{
    if family == AF_INET {
        Ok(encode_v4_request(IPPROTO_TCP, LISTEN_STATES, REQUEST_DUMP, sequence))
    } else if family == AF_INET6 {
        Ok(encode_v6_request(IPPROTO_TCP, LISTEN_STATES, REQUEST_DUMP, sequence))
    } else {
        Err(DumpError::UnsupportedFamily(family))
    }
}

/// Checks that the whole request was sent.
pub fn check_sent(sent: usize, expected: usize) -> (r: Result<(), DumpError>)
    ensures
        sent == expected ==> r == Ok::<(), DumpError>(()),
        sent != expected ==> r == Err::<(), DumpError>(DumpError::ShortWrite { sent, expected }),
{
    if sent != expected {
        Err(DumpError::ShortWrite { sent, expected })
    } else {
        Ok(())
    }
}

/// Calls `u16::to_ne_bytes`: the two bytes of the number in the machine's
/// order, which is either of two.
#[verifier::external_body]
fn native_bytes(value: u16) -> (r: [u8; 2])
    ensures
        half(r@, 0, false) == value || half(r@, 0, true) == value,
{
    value.to_ne_bytes()
}

/// The machine's byte order, as it shows in the bytes of the number one: the
/// order in which these bytes are a one.
pub closed spec fn native_order(big: bool) -> bool {
    exists|order: [u8; 2]| #[trigger]
        call_ensures(native_bytes, (1u16,), order) && half(order@, 0, big) == 1
}

/// The cookie in a reply: two numbers, the lower half first.
pub open spec fn cookie_of(bytes: Seq<u8>, big: bool) -> int {
    word(bytes, 4, big) * 0x1_0000_0000 + word(bytes, 0, big)
}

/// Combines the two numbers of a cookie, read in the given byte order.
pub fn combine_cookie(bytes: [u8; 8], big: bool) -> (r: u64)
    ensures
        r == cookie_of(bytes@, big),
{
    let low: u64 = native_word(bytes[0], bytes[1], bytes[2], bytes[3], big);
    let high: u64 = native_word(bytes[4], bytes[5], bytes[6], bytes[7], big);
    assert((high << 32u64) | low == high * 0x1_0000_0000 + low) by (bit_vector)
        requires
            low <= 0xffff_ffff,
            high <= 0xffff_ffff,
    ;
    (high << 32) | low
}

fn native_word(a: u8, b: u8, c: u8, d: u8, big: bool) -> (r: u64)
    ensures
        r == word(seq![a, b, c, d], 0, big),
        r <= 0xffff_ffff,
{
    if big {
        a as u64 * 0x100_0000 + b as u64 * 0x1_0000 + c as u64 * 0x100 + d as u64
    } else {
        d as u64 * 0x100_0000 + c as u64 * 0x1_0000 + b as u64 * 0x100 + a as u64
    }
}

/// The cookie in a reply, read in the machine's byte order.
pub fn socket_cookie_from_diag(bytes: [u8; 8]) -> (r: u64)
    ensures
        exists|big: bool| #[trigger] native_order(big) && r == cookie_of(bytes@, big),
{
    let order: [u8; 2] = native_bytes(1);
    let big: bool = order[0] == 0;
    assert(native_order(big));
    combine_cookie(bytes, big)
}

/// Two numbers joined into a cookie can be read back from it.
pub proof fn law_cookie_combines_both_words(bytes: Seq<u8>, big: bool)
    requires
        bytes.len() == 8,
    ensures
        0 <= cookie_of(bytes, big) <= u64::MAX,
        cookie_of(bytes, big) % 0x1_0000_0000 == word(bytes, 0, big),
        cookie_of(bytes, big) / 0x1_0000_0000 == word(bytes, 4, big),
{
}

/// The snapshot of a socket in a reply: none unless it listens.
pub open spec fn snapshot_in(socket: InetDiag, snapshot: Option<SocketAcceptQueueSnapshot>) -> bool {
    if socket.state != TCP_LISTEN || (socket.family != AF_INET && socket.family != AF_INET6) {
        snapshot is None
    } else {
        &&& snapshot matches Some(s)
        &&& s.key.inode == socket.inode
        &&& exists|big: bool| #[trigger]
            native_order(big) && s.key.cookie == cookie_of(socket.cookie@, big)
        &&& s.ip_version == if socket.family == AF_INET {
            4u8
        } else {
            6u8
        }
        &&& s.local_addr@ == socket.local_addr@
        &&& s.local_port == socket.local_port
        &&& s.pending_connections == socket.recv_queue
        &&& s.backlog_limit == socket.send_queue
    }
}

/// Takes the snapshot of a socket in a reply. Sockets that do not listen, and
/// families other than IPv4 and IPv6, have none.
pub fn snapshot_from_response(socket: InetDiag) -> (r: Option<SocketAcceptQueueSnapshot>)
    ensures
        snapshot_in(socket, r),
{
    if socket.state != TCP_LISTEN {
        return None;
    }
    let ip_version: u8 = if socket.family == AF_INET {
        4
    } else if socket.family == AF_INET6 {
        6
    } else {
        return None;
    };
    Some(
        SocketAcceptQueueSnapshot {
            key: SocketKey {
                inode: socket.inode as u64,
                cookie: socket_cookie_from_diag(socket.cookie),
            },
            ip_version,
            local_addr: socket.local_addr,
            local_port: socket.local_port,
            pending_connections: socket.recv_queue,
            backlog_limit: socket.send_queue,
        },
    )
}

/// A length rounded up to the alignment of netlink messages.
pub open spec fn aligned(length: int) -> int {
    (length + 3) / 4 * 4
}

/// Rounds a length up to the alignment of netlink messages.
pub fn nlmsg_align(length: usize) -> (r: usize)
    requires
        length + 3 <= usize::MAX,
    ensures
        r == aligned(length as int),
{
    let padded: usize = length + 3;
    assert(padded & !3usize == padded - padded % 4) by (bit_vector);
    assert(padded - padded % 4 == padded / 4 * 4);
    padded & !3
}

/// The aligned length is the least multiple of four that is not shorter.
pub proof fn law_alignment_is_least_multiple(length: int, other: int)
    requires
        0 <= length,
    ensures
        aligned(length) % 4 == 0,
        length <= aligned(length) < length + 4,
        other % 4 == 0 && length <= other ==> aligned(length) <= other,
{
}

/// Where the message with index `n` starts in a datagram.
pub open spec fn offset_of(lengths: Seq<u32>, n: int) -> int
    decreases n,
{
    if n <= 0 {
        0
    } else {
        offset_of(lengths, n - 1) + aligned(lengths[n - 1] as int)
    }
}

/// The message with index `i` stands at its offset in the datagram. Its length
/// was read from what is left of the datagram there, and it was decoded from
/// exactly its own bytes.
pub open spec fn reads_at(
    length: spec_fn(Seq<u8>, Result<u32, String>) -> bool,
    decode: spec_fn(Seq<u8>, Result<DiagMessage, String>) -> bool,
    bytes: Seq<u8>,
    lengths: Seq<u32>,
    messages: Seq<DiagMessage>,
    i: int,
) -> bool {
    let start = offset_of(lengths, i);
    &&& 0 <= start < bytes.len()
    &&& 0 < lengths[i] <= bytes.len() - start
    &&& length(bytes.subrange(start, bytes.len() as int), Ok(lengths[i]))
    &&& decode(bytes.subrange(start, start + lengths[i]), Ok(messages[i]))
}

/// The messages stand one after the other in the datagram, each at an aligned
/// offset.
pub open spec fn reads_as(
    length: spec_fn(Seq<u8>, Result<u32, String>) -> bool,
    decode: spec_fn(Seq<u8>, Result<DiagMessage, String>) -> bool,
    bytes: Seq<u8>,
    lengths: Seq<u32>,
    messages: Seq<DiagMessage>,
) -> bool {
    &&& lengths.len() == messages.len()
    &&& forall|i: int|
        0 <= i < messages.len() ==> #[trigger] reads_at(length, decode, bytes, lengths, messages, i)
}

/// What is left of a datagram fails to decode: its length cannot be read, or
/// the message of that length cannot.
pub open spec fn undecodable(
    length: spec_fn(Seq<u8>, Result<u32, String>) -> bool,
    decode: spec_fn(Seq<u8>, Result<DiagMessage, String>) -> bool,
    rest: Seq<u8>,
    text: String,
) -> bool {
    ||| length(rest, Err(text))
    ||| exists|n: u32|
        0 < n <= rest.len() && #[trigger] length(rest, Ok(n)) && decode(
            rest.subrange(0, n as int),
            Err(text),
        )
}

/// The message ends the dump with this sequence number.
pub open spec fn ends(message: DiagMessage, sequence: u32) -> bool {
    message.sequence == sequence && message.body is Done
}

/// The message reports an error of the request with this sequence number.
pub open spec fn refuses(message: DiagMessage, sequence: u32) -> bool {
    message.sequence == sequence && message.body matches DiagBody::Error(Some(_))
}

/// `added` holds the snapshots of the listeners among the first `n` messages,
/// in order, of those that answer the request with this sequence number.
pub open spec fn listeners_of(
    messages: Seq<DiagMessage>,
    n: int,
    sequence: u32,
    added: Seq<SocketAcceptQueueSnapshot>,
) -> bool
    decreases n,
{
    if n <= 0 {
        added.len() == 0
    } else {
        let message = messages[n - 1];
        match message.body {
            DiagBody::Inet(socket) if message.sequence == sequence => {
                ||| snapshot_in(socket, None) && listeners_of(messages, n - 1, sequence, added)
                ||| added.len() > 0 && snapshot_in(socket, Some(added.last())) && listeners_of(
                    messages,
                    n - 1,
                    sequence,
                    added.drop_last(),
                )
            },
            _ => listeners_of(messages, n - 1, sequence, added),
        }
    }
}

/// What reading a datagram gives for the messages that it reads as.
pub open spec fn datagram_result(
    length: spec_fn(Seq<u8>, Result<u32, String>) -> bool,
    decode: spec_fn(Seq<u8>, Result<DiagMessage, String>) -> bool,
    bytes: Seq<u8>,
    sequence: u32,
    lengths: Seq<u32>,
    messages: Seq<DiagMessage>,
    added: Seq<SocketAcceptQueueSnapshot>,
    r: Result<bool, DumpError>,
) -> bool {
    let end = offset_of(lengths, messages.len() as int);
    let rest = bytes.subrange(end, bytes.len() as int);
    let unrefused = forall|i: int|
        0 <= i < messages.len() ==> !refuses(#[trigger] messages[i], sequence);
    &&& reads_as(length, decode, bytes, lengths, messages)
    &&& listeners_of(messages, messages.len() as int, sequence, added)
    &&& match r {
        Ok(done) => {
            &&& end >= bytes.len()
            &&& unrefused
            &&& done == exists|i: int| 0 <= i < messages.len() && ends(#[trigger] messages[i], sequence)
        },
        Err(DumpError::Kernel(code)) => {
            &&& messages.len() > 0
            &&& messages.last().sequence == sequence
            &&& messages.last().body == DiagBody::Error(Some(code))
            &&& forall|i: int|
                0 <= i < messages.len() - 1 ==> !refuses(#[trigger] messages[i], sequence)
        },
        Err(DumpError::ZeroLength) => end < bytes.len() && unrefused && length(rest, Ok(0)),
        Err(DumpError::Decode(text)) => end < bytes.len() && unrefused && undecodable(
            length,
            decode,
            rest,
            text,
        ),
        Err(_) => false,
    }
}

/// What one message of a reply does to the snapshots, and what it says of the
/// dump.
pub open spec fn applies(
    message: DiagMessage,
    sequence: u32,
    before: Seq<SocketAcceptQueueSnapshot>,
    after: Seq<SocketAcceptQueueSnapshot>,
    r: Result<bool, DumpError>,
) -> bool {
    &&& r == (match message.body {
        DiagBody::Error(Some(code)) if message.sequence == sequence => Err::<bool, DumpError>(
            DumpError::Kernel(code),
        ),
        _ => Ok::<bool, DumpError>(ends(message, sequence)),
    })
    &&& match message.body {
        DiagBody::Inet(socket) if message.sequence == sequence => {
            ||| snapshot_in(socket, None) && after == before
            ||| exists|s: SocketAcceptQueueSnapshot| #[trigger]
                snapshot_in(socket, Some(s)) && after == before.push(s)
        },
        _ => after == before,
    }
}

/// Takes one message of a reply into account: returns whether it ends the
/// dump, or the error that it reports, and adds the listener that it
/// describes to `snapshots`. Messages with another sequence number are passed
/// over.
pub fn apply_message(
    message: DiagMessage,
    sequence: u32,
    snapshots: &mut Vec<SocketAcceptQueueSnapshot>,
) -> (r: Result<bool, DumpError>)
    ensures
        applies(message, sequence, old(snapshots)@, final(snapshots)@, r),
{
    if message.sequence != sequence {
        return Ok(false);
    }
    match message.body {
        DiagBody::Done => Ok(true),
        DiagBody::Error(Some(code)) => Err(DumpError::Kernel(code)),
        DiagBody::Inet(socket) => {
            if let Some(snapshot) = snapshot_from_response(socket) {
                snapshots.push(snapshot);
            }
            Ok(false)
        },
        _ => Ok(false),
    }
}

/// What an executable function can return for some bytes.
pub open spec fn gives<T, F: Fn(&[u8]) -> Result<T, String>>(f: F) -> spec_fn(
    Seq<u8>,
    Result<T, String>,
) -> bool {
    |bytes: Seq<u8>, r: Result<T, String>|
        exists|s: &[u8]| s@ == bytes && #[trigger] call_ensures(f, (s,), r)
}

/// The bytes are what is left of a datagram: some of its last ones.
pub open spec fn is_rest_of(rest: Seq<u8>, bytes: Seq<u8>) -> bool {
    0 < rest.len() <= bytes.len() && rest == bytes.skip(bytes.len() - rest.len())
}

/// Reads one datagram of a reply with the given functions for the length of
/// the next message and for its contents: adds the listeners in it to
/// `snapshots`, and returns whether the dump ended.
///
/// Messages with another sequence number are passed over. An error message
/// with a code ends the reading with that error.
pub fn read_datagram<L, D>(
    bytes: &[u8],
    sequence: u32,
    snapshots: &mut Vec<SocketAcceptQueueSnapshot>,
    read_length: L,
    decode: D,
) -> (r: Result<bool, DumpError>) where
    L: Fn(&[u8]) -> Result<u32, String>,
    D: Fn(&[u8]) -> Result<DiagMessage, String>,

    requires
        bytes@.len() + 3 <= usize::MAX,
        forall|s: &[u8]|
            is_rest_of(s@, bytes@) ==> #[trigger] call_requires(read_length, (s,)),
        forall|s: &[u8], n: u32| #[trigger]
            call_ensures(read_length, (s,), Ok(n)) ==> n <= s@.len(),
        forall|s: &[u8], n: u32, packet: &[u8]|
            #![trigger call_ensures(read_length, (s,), Ok(n)), call_requires(decode, (packet,))]
            is_rest_of(s@, bytes@) && call_ensures(read_length, (s,), Ok(n)) && 0 < n
                && packet@ == s@.subrange(0, n as int) ==> call_requires(decode, (packet,)),
    ensures
        exists|
            lengths: Seq<u32>,
            messages: Seq<DiagMessage>,
            added: Seq<SocketAcceptQueueSnapshot>,
        | #[trigger]
            datagram_result(
                gives(read_length),
                gives(decode),
                bytes@,
                sequence,
                lengths,
                messages,
                added,
                r,
            ) && final(snapshots)@ == old(snapshots)@ + added,
{
    let mut offset: usize = 0;
    let mut done: bool = false;
    let ghost mut lengths: Seq<u32> = Seq::empty();
    let ghost mut messages: Seq<DiagMessage> = Seq::empty();
    let ghost mut added: Seq<SocketAcceptQueueSnapshot> = Seq::empty();
    let ghost lengths_read = gives(read_length);
    let ghost decoded = gives(decode);
    assert(snapshots@ =~= old(snapshots)@ + added);
    while offset < bytes.len()
        invariant
            bytes@.len() + 3 <= usize::MAX,
            0 <= offset <= bytes@.len() + 3,
            lengths_read == gives(read_length),
            decoded == gives(decode),
            forall|s: &[u8]|
                is_rest_of(s@, bytes@) ==> #[trigger] call_requires(read_length, (s,)),
            forall|s: &[u8], n: u32| #[trigger]
                call_ensures(read_length, (s,), Ok(n)) ==> n <= s@.len(),
            forall|s: &[u8], n: u32, packet: &[u8]|
                #![trigger call_ensures(read_length, (s,), Ok(n)), call_requires(decode, (packet,))]
                is_rest_of(s@, bytes@) && call_ensures(read_length, (s,), Ok(n)) && 0 < n
                    && packet@ == s@.subrange(0, n as int) ==> call_requires(decode, (packet,)),
            offset == offset_of(lengths, messages.len() as int),
            reads_as(lengths_read, decoded, bytes@, lengths, messages),
            listeners_of(messages, messages.len() as int, sequence, added),
            snapshots@ == old(snapshots)@ + added,
            forall|i: int| 0 <= i < messages.len() ==> !refuses(#[trigger] messages[i], sequence),
            done == exists|i: int|
                0 <= i < messages.len() && ends(#[trigger] messages[i], sequence),
        decreases bytes@.len() + 4 - offset,
    {
        let remaining: &[u8] = slice_subrange(bytes, offset, bytes.len());
        let ghost rest = bytes@.subrange(offset as int, bytes@.len() as int);
        assert(rest =~= bytes@.skip(bytes@.len() - rest.len()));
        let length: u32 = match read_length(remaining) {
            Ok(length) => length,
            Err(text) => {
                let r: Result<bool, DumpError> = Err(DumpError::Decode(text));
                assert(lengths_read(rest, Err(text)));
                assert(datagram_result(lengths_read, decoded, bytes@, sequence, lengths, messages, added, r));
                return r;
            },
        };
        assert(lengths_read(rest, Ok(length)));
        if length == 0 {
            let r: Result<bool, DumpError> = Err(DumpError::ZeroLength);
            assert(datagram_result(lengths_read, decoded, bytes@, sequence, lengths, messages, added, r));
            return r;
        }
        let packet: &[u8] = slice_subrange(remaining, 0, length as usize);
        let message: DiagMessage = match decode(packet) {
            Ok(message) => message,
            Err(text) => {
                let r: Result<bool, DumpError> = Err(DumpError::Decode(text));
                assert(decoded(rest.subrange(0, length as int), Err(text)));
                assert(undecodable(lengths_read, decoded, rest, text));
                assert(datagram_result(lengths_read, decoded, bytes@, sequence, lengths, messages, added, r));
                return r;
            },
        };
        let ghost before_lengths = lengths;
        let ghost before = messages;
        let ghost before_added = added;
        proof {
            assert(packet@ =~= bytes@.subrange(offset as int, offset + length));
            assert(decoded(bytes@.subrange(offset as int, offset + length), Ok(message)));
            lengths = lengths.push(length);
            messages = messages.push(message);
            lemma_one_more_message(
                lengths_read,
                decoded,
                bytes@,
                before_lengths,
                before,
                length,
                message,
                sequence,
                added,
            );
            assert(messages.last() == message);
            assert(messages.drop_last() =~= before);
        }
        let ghost snapshots_before = snapshots@;
        match apply_message(message, sequence, snapshots) {
            Ok(ended) => {
                if ended {
                    done = true;
                }
                proof {
                    if snapshots@ != snapshots_before {
                        added = added.push(snapshots@.last());
                        assert(added.drop_last() =~= before_added);
                        assert(snapshots@ =~= old(snapshots)@ + added);
                    }
                }
            },
            Err(e) => {
                let r: Result<bool, DumpError> = Err(e);
                assert(datagram_result(lengths_read, decoded, bytes@, sequence, lengths, messages, added, r));
                return r;
            },
        }
        assert(listeners_of(messages, messages.len() as int, sequence, added));
        offset = offset + nlmsg_align(length as usize);
    }
    let r: Result<bool, DumpError> = Ok(done);
    assert(datagram_result(lengths_read, decoded, bytes@, sequence, lengths, messages, added, r));
    r
}

/// What holds of a datagram read with some functions holds with any that can
/// return as much.
proof fn lemma_wider_readers(
    length: spec_fn(Seq<u8>, Result<u32, String>) -> bool,
    decode: spec_fn(Seq<u8>, Result<DiagMessage, String>) -> bool,
    wider_length: spec_fn(Seq<u8>, Result<u32, String>) -> bool,
    wider_decode: spec_fn(Seq<u8>, Result<DiagMessage, String>) -> bool,
    bytes: Seq<u8>,
    sequence: u32,
    lengths: Seq<u32>,
    messages: Seq<DiagMessage>,
    added: Seq<SocketAcceptQueueSnapshot>,
    r: Result<bool, DumpError>,
)
    requires
        datagram_result(length, decode, bytes, sequence, lengths, messages, added, r),
        forall|b: Seq<u8>, r: Result<u32, String>| #[trigger] length(b, r) ==> wider_length(b, r),
        forall|b: Seq<u8>, r: Result<DiagMessage, String>| #[trigger]
            decode(b, r) ==> wider_decode(b, r),
    ensures
        datagram_result(wider_length, wider_decode, bytes, sequence, lengths, messages, added, r),
{
    assert forall|i: int| 0 <= i < messages.len() implies #[trigger] reads_at(
        wider_length,
        wider_decode,
        bytes,
        lengths,
        messages,
        i,
    ) by {
        assert(reads_at(length, decode, bytes, lengths, messages, i));
    }
    if let Err(DumpError::Decode(text)) = r {
        let rest = bytes.subrange(
            offset_of(lengths, messages.len() as int),
            bytes.len() as int,
        );
        if !length(rest, Err(text)) {
            let n = choose|n: u32|
                0 < n <= rest.len() && #[trigger] length(rest, Ok(n)) && decode(
                    rest.subrange(0, n as int),
                    Err(text),
                );
            assert(wider_length(rest, Ok(n)));
        }
    }
}

/// Reads one datagram of a reply: adds the listeners in it to `snapshots`, and
/// returns whether the dump ended.
pub fn parse_response_datagram(
    bytes: &[u8],
    sequence: u32,
    snapshots: &mut Vec<SocketAcceptQueueSnapshot>,
) -> (r: Result<bool, DumpError>)
    requires
        bytes@.len() + 3 <= usize::MAX,
    ensures
        exists|
            lengths: Seq<u32>,
            messages: Seq<DiagMessage>,
            added: Seq<SocketAcceptQueueSnapshot>,
        | #[trigger]
            datagram_result(
                native_length(),
                native_message(),
                bytes@,
                sequence,
                lengths,
                messages,
                added,
                r,
            ) && final(snapshots)@ == old(snapshots)@ + added,
        !(r matches Err(DumpError::ZeroLength)),
{
    let r: Result<bool, DumpError> = read_datagram(
        bytes,
        sequence,
        snapshots,
        message_length,
        decode_message,
    );
    proof {
        let (lengths, messages, added) = choose|
            lengths: Seq<u32>,
            messages: Seq<DiagMessage>,
            added: Seq<SocketAcceptQueueSnapshot>,
        | #[trigger]
            datagram_result(
                gives(message_length),
                gives(decode_message),
                bytes@,
                sequence,
                lengths,
                messages,
                added,
                r,
            ) && final(snapshots)@ == old(snapshots)@ + added;
        lemma_wider_readers(
            gives(message_length),
            gives(decode_message),
            native_length(),
            native_message(),
            bytes@,
            sequence,
            lengths,
            messages,
            added,
            r,
        );
    }
    r
}

proof fn lemma_offsets_agree(a: Seq<u32>, b: Seq<u32>, n: int)
    requires
        n <= a.len(),
        n <= b.len(),
        forall|i: int| 0 <= i < n ==> #[trigger] a[i] == b[i],
    ensures
        offset_of(a, n) == offset_of(b, n),
    decreases n,
{
    if n > 0 {
        lemma_offsets_agree(a, b, n - 1);
        assert(a[n - 1] == b[n - 1]);
    }
}

/// Appending the message that stands next in the datagram keeps what is known
/// of the messages before it.
proof fn lemma_one_more_message(
    length_of: spec_fn(Seq<u8>, Result<u32, String>) -> bool,
    decode: spec_fn(Seq<u8>, Result<DiagMessage, String>) -> bool,
    bytes: Seq<u8>,
    lengths: Seq<u32>,
    messages: Seq<DiagMessage>,
    length: u32,
    message: DiagMessage,
    sequence: u32,
    added: Seq<SocketAcceptQueueSnapshot>,
)
    requires
        reads_as(length_of, decode, bytes, lengths, messages),
        0 < length,
        0 <= offset_of(lengths, messages.len() as int),
        offset_of(lengths, messages.len() as int) + length <= bytes.len(),
        length_of(
            bytes.subrange(offset_of(lengths, messages.len() as int), bytes.len() as int),
            Ok(length),
        ),
        decode(
            bytes.subrange(
                offset_of(lengths, messages.len() as int),
                offset_of(lengths, messages.len() as int) + length,
            ),
            Ok(message),
        ),
        listeners_of(messages, messages.len() as int, sequence, added),
        forall|i: int| 0 <= i < messages.len() ==> !refuses(#[trigger] messages[i], sequence),
    ensures
        reads_as(length_of, decode, bytes, lengths.push(length), messages.push(message)),
        offset_of(lengths.push(length), messages.len() as int) == offset_of(
            lengths,
            messages.len() as int,
        ),
        listeners_of(messages.push(message), messages.len() as int, sequence, added),
        forall|i: int|
            0 <= i < messages.len() ==> !refuses(
                #[trigger] messages.push(message)[i],
                sequence,
            ),
        (exists|i: int|
            0 <= i < messages.push(message).len() && ends(
                #[trigger] messages.push(message)[i],
                sequence,
            )) == (ends(message, sequence) || exists|i: int|
            0 <= i < messages.len() && ends(#[trigger] messages[i], sequence)),
{
    let all_lengths = lengths.push(length);
    let all = messages.push(message);
    let n = messages.len() as int;
    lemma_offsets_agree(lengths, all_lengths, n);
    assert forall|i: int| 0 <= i < all.len() implies #[trigger] reads_at(
        length_of,
        decode,
        bytes,
        all_lengths,
        all,
        i,
    ) by {
        lemma_offsets_agree(lengths, all_lengths, i);
        if i < n {
            assert(reads_at(length_of, decode, bytes, lengths, messages, i));
            assert(all[i] == messages[i]);
            assert(all_lengths[i] == lengths[i]);
        } else {
            assert(all[i] == message);
            assert(all_lengths[i] == length);
        }
    }
    lemma_listeners_agree(messages, all, n, sequence, added);
    assert forall|i: int| 0 <= i < n implies !refuses(#[trigger] all[i], sequence) by {
        assert(all[i] == messages[i]);
    }
    if ends(message, sequence) {
        assert(ends(all[n], sequence));
    }
    if exists|i: int| 0 <= i < n && ends(#[trigger] messages[i], sequence) {
        let i = choose|i: int| 0 <= i < n && ends(#[trigger] messages[i], sequence);
        assert(ends(all[i], sequence));
    }
    if exists|i: int| 0 <= i < all.len() && ends(#[trigger] all[i], sequence) {
        let i = choose|i: int| 0 <= i < all.len() && ends(#[trigger] all[i], sequence);
        if i < n {
            assert(ends(messages[i], sequence));
        }
    }
}

proof fn lemma_listeners_agree(
    a: Seq<DiagMessage>,
    b: Seq<DiagMessage>,
    n: int,
    sequence: u32,
    added: Seq<SocketAcceptQueueSnapshot>,
)
    requires
        n <= a.len(),
        n <= b.len(),
        forall|i: int| 0 <= i < n ==> #[trigger] a[i] == b[i],
    ensures
        listeners_of(a, n, sequence, added) == listeners_of(b, n, sequence, added),
    decreases n,
{
    if n > 0 {
        assert(a[n - 1] == b[n - 1]);
        lemma_listeners_agree(a, b, n - 1, sequence, added);
        lemma_listeners_agree(a, b, n - 1, sequence, added.drop_last());
    }
}

/// Handles one datagram that the socket gave for a request: an empty one is
/// an error, any other is read.
pub fn accept_datagram(
    bytes: &[u8],
    sequence: u32,
    snapshots: &mut Vec<SocketAcceptQueueSnapshot>,
) -> (r: Result<bool, DumpError>)
    requires
        bytes@.len() + 3 <= usize::MAX,
    ensures
        bytes@.len() == 0 ==> r == Err::<bool, DumpError>(DumpError::EmptyResponse)
            && final(snapshots)@ == old(snapshots)@,
        bytes@.len() > 0 ==> exists|
            lengths: Seq<u32>,
            messages: Seq<DiagMessage>,
            added: Seq<SocketAcceptQueueSnapshot>,
        | #[trigger]
            datagram_result(
                native_length(),
                native_message(),
                bytes@,
                sequence,
                lengths,
                messages,
                added,
                r,
            ) && final(snapshots)@ == old(snapshots)@ + added,
{
    if bytes.len() == 0 {
        return Err(DumpError::EmptyResponse);
    }
    parse_response_datagram(bytes, sequence, snapshots)
}

/// The socket is one that a reply is read for: a TCP listener, by IPv4 or IPv6.
pub open spec fn is_listener(socket: InetDiag) -> bool {
    socket.state == 10 && (socket.family == 2 || socket.family == 10)
}

/// A listener has a snapshot, with its inode, address, port and queue and with
/// the version of its family; no other socket has one.
pub proof fn law_only_listeners_have_snapshots(
    socket: InetDiag,
    snapshot: Option<SocketAcceptQueueSnapshot>,
)
    requires
        snapshot_in(socket, snapshot),
    ensures
        snapshot is Some <==> is_listener(socket),
        snapshot matches Some(s) ==> {
            &&& s.key.inode == socket.inode
            &&& s.ip_version == 4 <==> socket.family == 2
            &&& s.ip_version == 6 <==> socket.family == 10
            &&& s.local_addr@ == socket.local_addr@
            &&& s.local_port == socket.local_port
            &&& s.pending_connections == socket.recv_queue
            &&& s.backlog_limit == socket.send_queue
        },
{
}

/// The message answers the request and describes a listener.
pub open spec fn tells_of_listener(message: DiagMessage, sequence: u32) -> bool {
    &&& message.sequence == sequence
    &&& message.body matches DiagBody::Inet(socket)
    &&& is_listener(socket)
}

/// The snapshots read from a reply are, in order, those of the listeners that
/// its messages describe, of the messages at the positions `at`; messages that
/// answer another request are passed over.
pub proof fn law_snapshots_are_those_of_the_listeners(
    messages: Seq<DiagMessage>,
    n: int,
    sequence: u32,
    added: Seq<SocketAcceptQueueSnapshot>,
) -> (at: Seq<int>)
    requires
        0 <= n <= messages.len(),
        listeners_of(messages, n, sequence, added),
    ensures
        added.len() == at.len(),
        forall|k: int|
            0 <= k < at.len() ==> 0 <= #[trigger] at[k] < n && snapshot_in(
                messages[at[k]].body->Inet_0,
                Some(added[k]),
            ),
        forall|j: int, k: int| 0 <= j < k < at.len() ==> #[trigger] at[j] < #[trigger] at[k],
        forall|i: int|
            0 <= i < n ==> (#[trigger] at.contains(i) <==> tells_of_listener(
                messages[i],
                sequence,
            )),
    decreases n,
{
    if n == 0 {
        Seq::empty()
    } else {
        let message = messages[n - 1];
        let told = tells_of_listener(message, sequence);
        if let DiagBody::Inet(socket) = message.body {
            if message.sequence == sequence {
                assert(snapshot_in(socket, None) ==> !is_listener(socket));
                assert(forall|s: SocketAcceptQueueSnapshot| #[trigger]
                    snapshot_in(socket, Some(s)) ==> is_listener(socket));
            }
        }
        let before = law_snapshots_are_those_of_the_listeners(
            messages,
            n - 1,
            sequence,
            if told {
                added.drop_last()
            } else {
                added
            },
        );
        let at = if told {
            before.push(n - 1)
        } else {
            before
        };
        assert forall|i: int| 0 <= i < n implies (#[trigger] at.contains(i)
            <==> tells_of_listener(messages[i], sequence)) by {
            if at.contains(i) {
                let k = choose|k: int| 0 <= k < at.len() && at[k] == i;
                if k < before.len() {
                    assert(before[k] == i);
                    assert(before.contains(i));
                }
            }
            if i < n - 1 && before.contains(i) {
                let k = choose|k: int| 0 <= k < before.len() && before[k] == i;
                assert(at[k] == i);
            }
            if i == n - 1 && told {
                assert(at[before.len() as int] == i);
            }
        }
        at
    }
}

/// Messages stand at multiples of four, the first at the start and each other
/// at the first multiple behind the end of the one before it.
pub proof fn law_messages_stand_one_after_the_other(lengths: Seq<u32>, n: int)
    requires
        0 <= n < lengths.len(),
    ensures
        offset_of(lengths, 0) == 0,
        offset_of(lengths, n) % 4 == 0,
        offset_of(lengths, n) + lengths[n] <= offset_of(lengths, n + 1) < offset_of(lengths, n)
            + lengths[n] + 4,
    decreases n,
{
    if n > 0 {
        law_messages_stand_one_after_the_other(lengths, n - 1);
    }
}

/// A message that answers another request has no effect. Of those that answer
/// this one, the end of the dump is reported as such, an error with a code as
/// that error, and a listener adds its snapshot at the end; nothing else has
/// any effect.
pub proof fn law_a_message_counts_only_for_its_request(
    message: DiagMessage,
    sequence: u32,
    before: Seq<SocketAcceptQueueSnapshot>,
    after: Seq<SocketAcceptQueueSnapshot>,
    r: Result<bool, DumpError>,
)
    requires
        applies(message, sequence, before, after, r),
    ensures
        message.sequence != sequence ==> r == Ok::<bool, DumpError>(false) && after == before,
        r == Ok::<bool, DumpError>(true) <==> message.sequence == sequence && message.body is Done,
        message.sequence == sequence ==> (message.body matches DiagBody::Error(Some(code)) ==> r
            == Err::<bool, DumpError>(DumpError::Kernel(code))),
        r is Err ==> message.sequence == sequence && (message.body matches DiagBody::Error(Some(_))),
        tells_of_listener(message, sequence) ==> after.len() == before.len() + 1
            && after.drop_last() == before && snapshot_in(
            message.body->Inet_0,
            Some(after.last()),
        ),
        !tells_of_listener(message, sequence) ==> after == before,
{
    if let DiagBody::Inet(socket) = message.body {
        if message.sequence == sequence {
            assert(snapshot_in(socket, None) ==> !is_listener(socket));
            assert(forall|s: SocketAcceptQueueSnapshot| #[trigger]
                snapshot_in(socket, Some(s)) ==> is_listener(socket) && before.push(
                    s,
                ).drop_last() =~= before);
        }
    }
}

/// A datagram that is read without an error is read to its end, has no refusal
/// of the request, and ends the dump exactly if one of its messages says so. A
/// refusal ends the reading, as its last message and with its code.
pub proof fn law_a_datagram_is_read_to_its_end_or_to_a_refusal(
    length: spec_fn(Seq<u8>, Result<u32, String>) -> bool,
    decode: spec_fn(Seq<u8>, Result<DiagMessage, String>) -> bool,
    bytes: Seq<u8>,
    sequence: u32,
    lengths: Seq<u32>,
    messages: Seq<DiagMessage>,
    added: Seq<SocketAcceptQueueSnapshot>,
    r: Result<bool, DumpError>,
    i: int,
)
    requires
        datagram_result(length, decode, bytes, sequence, lengths, messages, added, r),
        0 <= i < messages.len(),
    ensures
        decode(
            bytes.subrange(offset_of(lengths, i), offset_of(lengths, i) + lengths[i]),
            Ok(messages[i]),
        ),
        r matches Ok(done) ==> {
            &&& offset_of(lengths, messages.len() as int) >= bytes.len()
            &&& messages[i].sequence == sequence && messages[i].body is Done ==> done
            &&& messages[i].sequence == sequence ==> !(
            messages[i].body matches DiagBody::Error(Some(_)))
        },
        r matches Err(DumpError::Kernel(code)) ==> messages.last().sequence == sequence
            && messages.last().body == DiagBody::Error(Some(code)),
        messages[i].sequence == sequence ==> (messages[i].body matches DiagBody::Error(Some(code))
            ==> i == messages.len() - 1 && r == Err::<bool, DumpError>(DumpError::Kernel(code))),
{
    assert(reads_at(length, decode, bytes, lengths, messages, i));
    assert(messages[i].sequence == sequence && messages[i].body is Done ==> ends(
        messages[i],
        sequence,
    ));
    assert(messages[i].sequence == sequence && (messages[i].body matches DiagBody::Error(Some(_)))
        ==> refuses(messages[i], sequence));
}

} // verus!
