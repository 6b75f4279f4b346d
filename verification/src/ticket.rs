//! The ticket codec: a room's topic and the addresses of some peers in it,
//! as a compact binary form and as a text token to hand around.

use crate::bytes::{array_from_slice, bytes_equal};
use crate::escape::string_from_utf8;
use crate::message::DecodeError;
use crate::peer::PeerId;
use crate::text::{has_at, lemma_has_at_concat, lemma_has_at_index};
use crate::varint::{lemma_parse_varint, parse_varint, read_varint, varint, write_varint};
use base64::prelude::BASE64_URL_SAFE_NO_PAD;
use base64::Engine;
use vstd::prelude::*;
use vstd::string::{StrSliceExecFns, StringExecFns};
use vstd::utf8::{decode_utf8, encode_utf8, valid_utf8};

verus! {

/// What every ticket text starts with.
pub const TICKET_PREFIX: &'static str = "ticket-";

/// Number of bytes in a topic.
pub const TOPIC_LEN: usize = 32;

/// One way to reach a peer.
#[derive(Clone, Debug, PartialEq, Eq)]
pub enum TransportAddr {
    /// Through the relay server with this URL.
    Relay(String),
    /// Directly, at an IPv4 address and a port.
    V4 { ip: [u8; 4], port: u16 },
    /// Directly, at an IPv6 address and a port.
    V6 { ip: [u8; 16], port: u16 },
}

/// A peer and the ways to reach it.
#[derive(Clone, Debug, PartialEq, Eq)]
pub struct PeerAddr {
    pub id: PeerId,
    pub addrs: Vec<TransportAddr>,
}

/// What opens a room to a newcomer: the topic of the room and the
/// addresses of some peers that are in it.
#[derive(Clone, Debug, PartialEq, Eq)]
pub struct Ticket {
    topic: [u8; 32],
    endpoints: Vec<PeerAddr>,
}

/// The mathematical content of a [`TransportAddr`].
pub enum TransportAddrView {
    Relay(Seq<char>),
    V4 { ip: Seq<u8>, port: u16 },
    V6 { ip: Seq<u8>, port: u16 },
}

/// The mathematical content of a [`PeerAddr`].
pub struct PeerAddrView {
    pub id: Seq<u8>,
    pub addrs: Seq<TransportAddrView>,
}

/// The mathematical content of a [`Ticket`].
pub struct TicketView {
    pub topic: Seq<u8>,
    pub endpoints: Seq<PeerAddrView>,
}

impl View for TransportAddr {
    type V = TransportAddrView;

    open spec fn view(&self) -> TransportAddrView {
        match *self {
            TransportAddr::Relay(url) => TransportAddrView::Relay(url@),
            TransportAddr::V4 { ip, port } => TransportAddrView::V4 { ip: ip@, port },
            TransportAddr::V6 { ip, port } => TransportAddrView::V6 { ip: ip@, port },
        }
    }
}

/// The contents of a list of addresses, in order.
pub open spec fn addrs_view(addrs: Seq<TransportAddr>) -> Seq<TransportAddrView> {
    addrs.map_values(|a: TransportAddr| a@)
}

impl View for PeerAddr {
    type V = PeerAddrView;

    open spec fn view(&self) -> PeerAddrView {
        PeerAddrView { id: self.id@, addrs: addrs_view(self.addrs@) }
    }
}

/// The contents of a list of peers, in order.
pub open spec fn endpoints_view(endpoints: Seq<PeerAddr>) -> Seq<PeerAddrView> {
    endpoints.map_values(|e: PeerAddr| e@)
}

impl View for Ticket {
    type V = TicketView;

    closed spec fn view(&self) -> TicketView {
        TicketView { topic: self.topic@, endpoints: endpoints_view(self.endpoints@) }
    }
}

/// Whether an address view is that of some address.
pub open spec fn valid_addr(a: TransportAddrView) -> bool {
    match a {
        TransportAddrView::Relay(url) => encode_utf8(url).len() <= u64::MAX,
        TransportAddrView::V4 { ip, .. } => ip.len() == 4,
        TransportAddrView::V6 { ip, .. } => ip.len() == 16,
    }
}

/// Whether all address views of a list are those of some addresses.
pub open spec fn valid_addrs(addrs: Seq<TransportAddrView>) -> bool {
    addrs.len() <= u64::MAX && forall|i: int| 0 <= i < addrs.len() ==> valid_addr(#[trigger] addrs[i])
}

/// Whether a view is that of some peer with its addresses.
pub open spec fn valid_endpoint(e: PeerAddrView) -> bool {
    e.id.len() == 32 && valid_addrs(e.addrs)
}

/// Whether all views of a list are those of some peers with their
/// addresses.
pub open spec fn valid_endpoints(endpoints: Seq<PeerAddrView>) -> bool {
    endpoints.len() <= u64::MAX && forall|i: int|
        0 <= i < endpoints.len() ==> valid_endpoint(#[trigger] endpoints[i])
}

/// Whether a view is that of some ticket.
pub open spec fn valid_ticket(t: TicketView) -> bool {
    t.topic.len() == 32 && valid_endpoints(t.endpoints)
}

/// The binary form of an address: the kind of address, then a relay URL
/// with its length before it, or the kind of IP address, its bytes and the
/// port.
pub open spec fn addr_bytes(a: TransportAddrView) -> Seq<u8> {
    match a {
        TransportAddrView::Relay(url) => seq![0u8] + varint(encode_utf8(url).len()) + encode_utf8(
            url,
        ),
        TransportAddrView::V4 { ip, port } => seq![1u8, 0u8] + ip + varint(port as nat),
        TransportAddrView::V6 { ip, port } => seq![1u8, 1u8] + ip + varint(port as nat),
    }
}

/// The binary forms of the addresses of a list, one after the other.
pub open spec fn addrs_bytes(addrs: Seq<TransportAddrView>) -> Seq<u8>
    decreases addrs.len(),
{
    if addrs.len() == 0 {
        Seq::empty()
    } else {
        addr_bytes(addrs[0]) + addrs_bytes(addrs.drop_first())
    }
}

/// The binary form of a peer with its addresses: the identity, the number
/// of addresses, and the addresses.
pub open spec fn endpoint_bytes(e: PeerAddrView) -> Seq<u8> {
    e.id + varint(e.addrs.len()) + addrs_bytes(e.addrs)
}

/// The binary forms of the peers of a list, one after the other.
pub open spec fn endpoints_bytes(endpoints: Seq<PeerAddrView>) -> Seq<u8>
    decreases endpoints.len(),
{
    if endpoints.len() == 0 {
        Seq::empty()
    } else {
        endpoint_bytes(endpoints[0]) + endpoints_bytes(endpoints.drop_first())
    }
}

/// The binary form of a ticket: the topic, the number of peers, and the
/// peers.
pub open spec fn ticket_bytes(t: TicketView) -> Seq<u8> {
    t.topic + varint(t.endpoints.len()) + endpoints_bytes(t.endpoints)
}

/// Whether the bytes are the binary form of some ticket.
pub open spec fn is_ticket_bytes(bytes: Seq<u8>) -> bool {
    exists|t: TicketView| valid_ticket(t) && ticket_bytes(t) == bytes
}

/// The binary form of a list with one more address at its end.
pub proof fn lemma_addrs_bytes_push(addrs: Seq<TransportAddrView>, a: TransportAddrView)
    ensures
        addrs_bytes(addrs.push(a)) == addrs_bytes(addrs) + addr_bytes(a),
    decreases addrs.len(),
{
    if addrs.len() == 0 {
        assert(addrs.push(a).drop_first() =~= Seq::<TransportAddrView>::empty());
        assert(addrs_bytes(Seq::<TransportAddrView>::empty()) =~= Seq::<u8>::empty());
        assert(addrs_bytes(addrs.push(a)) =~= addr_bytes(a));
        assert(addrs_bytes(addrs) + addr_bytes(a) =~= addr_bytes(a));
    } else {
        assert(addrs.push(a).drop_first() =~= addrs.drop_first().push(a));
        lemma_addrs_bytes_push(addrs.drop_first(), a);
        assert(addr_bytes(addrs[0]) + (addrs_bytes(addrs.drop_first()) + addr_bytes(a))
            =~= addr_bytes(addrs[0]) + addrs_bytes(addrs.drop_first()) + addr_bytes(a));
    }
}

/// The binary form of a list with one more peer at its end.
pub proof fn lemma_endpoints_bytes_push(endpoints: Seq<PeerAddrView>, e: PeerAddrView)
    ensures
        endpoints_bytes(endpoints.push(e)) == endpoints_bytes(endpoints) + endpoint_bytes(e),
    decreases endpoints.len(),
{
    if endpoints.len() == 0 {
        assert(endpoints.push(e).drop_first() =~= Seq::<PeerAddrView>::empty());
        assert(endpoints_bytes(Seq::<PeerAddrView>::empty()) =~= Seq::<u8>::empty());
        assert(endpoints_bytes(endpoints.push(e)) =~= endpoint_bytes(e));
        assert(endpoints_bytes(endpoints) + endpoint_bytes(e) =~= endpoint_bytes(e));
    } else {
        assert(endpoints.push(e).drop_first() =~= endpoints.drop_first().push(e));
        lemma_endpoints_bytes_push(endpoints.drop_first(), e);
        assert(endpoint_bytes(endpoints[0]) + (endpoints_bytes(endpoints.drop_first())
            + endpoint_bytes(e)) =~= endpoint_bytes(endpoints[0]) + endpoints_bytes(
            endpoints.drop_first(),
        ) + endpoint_bytes(e));
    }
}

fn push_all(out: &mut Vec<u8>, bytes: &[u8])
    ensures
        final(out)@ == old(out)@ + bytes@,
{
    let mut i: usize = 0;
    while i < bytes.len()
        invariant
            i <= bytes@.len(),
            out@ == old(out)@ + bytes@.take(i as int),
        decreases bytes@.len() - i,
    {
        out.push(bytes[i]);
        i += 1;
        assert(out@ =~= old(out)@ + bytes@.take(i as int));
    }
    assert(bytes@.take(i as int) =~= bytes@);
}

fn write_addr(out: &mut Vec<u8>, addr: &TransportAddr)
    ensures
        final(out)@ == old(out)@ + addr_bytes(addr@),
        valid_addr(addr@),
{
    match addr {
        TransportAddr::Relay(url) => {
            let bytes = url.as_str().as_bytes();
            out.push(0);
            write_varint(out, bytes.len() as u64);
            push_all(out, bytes);
        },
        TransportAddr::V4 { ip, port } => {
            out.push(1);
            out.push(0);
            push_all(out, ip.as_slice());
            write_varint(out, *port as u64);
        },
        TransportAddr::V6 { ip, port } => {
            out.push(1);
            out.push(1);
            push_all(out, ip.as_slice());
            write_varint(out, *port as u64);
        },
    }
    assert(out@ =~= old(out)@ + addr_bytes(addr@));
}

fn write_endpoint(out: &mut Vec<u8>, endpoint: &PeerAddr)
    ensures
        final(out)@ == old(out)@ + endpoint_bytes(endpoint@),
        valid_endpoint(endpoint@),
{
    proof {
        endpoint.id.lemma_len();
    }
    push_all(out, endpoint.id.as_bytes().as_slice());
    write_varint(out, endpoint.addrs.len() as u64);
    let ghost head = out@;
    let mut i: usize = 0;
    assert(addrs_view(endpoint.addrs@.take(0)) =~= Seq::<TransportAddrView>::empty());
    assert(out@ =~= head + addrs_bytes(addrs_view(endpoint.addrs@.take(0))));
    while i < endpoint.addrs.len()
        invariant
            i <= endpoint.addrs@.len(),
            out@ == head + addrs_bytes(addrs_view(endpoint.addrs@.take(i as int))),
            forall|k: int| 0 <= k < i ==> valid_addr(#[trigger] endpoint@.addrs[k]),
        decreases endpoint.addrs@.len() - i,
    {
        proof {
            lemma_addrs_bytes_push(
                addrs_view(endpoint.addrs@.take(i as int)),
                endpoint.addrs@[i as int]@,
            );
            assert(addrs_view(endpoint.addrs@.take(i as int)).push(endpoint.addrs@[i as int]@)
                =~= addrs_view(endpoint.addrs@.take(i as int + 1)));
        }
        write_addr(out, &endpoint.addrs[i]);
        i += 1;
        assert(out@ =~= head + addrs_bytes(addrs_view(endpoint.addrs@.take(i as int))));
    }
    assert(endpoint.addrs@.take(i as int) =~= endpoint.addrs@);
    assert(out@ =~= old(out)@ + endpoint_bytes(endpoint@));
}

/// The `count` bytes at `pos`, and where they end.
pub open spec fn take_bytes(s: Seq<u8>, pos: int, count: nat) -> Option<(Seq<u8>, int)> {
    if 0 <= pos && pos + count <= s.len() {
        Some((s.subrange(pos, pos + count), pos + count))
    } else {
        None
    }
}

/// Reads an address at `pos`.
pub open spec fn parse_addr(s: Seq<u8>, pos: int) -> Option<(TransportAddrView, int)> {
    if !(0 <= pos < s.len()) {
        None
    } else if s[pos] == 0 {
        match parse_varint(s, pos + 1, u64::MAX as nat) {
            None => None,
            Some((len, p)) => match take_bytes(s, p, len) {
                None => None,
                Some((bytes, end)) => if valid_utf8(bytes) {
                    Some((TransportAddrView::Relay(decode_utf8(bytes)), end))
                } else {
                    None
                },
            },
        }
    } else if s[pos] == 1 && pos + 1 < s.len() && s[pos + 1] == 0 {
        match take_bytes(s, pos + 2, 4) {
            None => None,
            Some((ip, p)) => match parse_varint(s, p, u16::MAX as nat) {
                None => None,
                Some((port, end)) => Some((TransportAddrView::V4 { ip, port: port as u16 }, end)),
            },
        }
    } else if s[pos] == 1 && pos + 1 < s.len() && s[pos + 1] == 1 {
        match take_bytes(s, pos + 2, 16) {
            None => None,
            Some((ip, p)) => match parse_varint(s, p, u16::MAX as nat) {
                None => None,
                Some((port, end)) => Some((TransportAddrView::V6 { ip, port: port as u16 }, end)),
            },
        }
    } else {
        None
    }
}

/// Reads `count` addresses from `pos` on, after those in `acc`.
pub open spec fn parse_addrs(
    s: Seq<u8>,
    pos: int,
    count: nat,
    acc: Seq<TransportAddrView>,
) -> Option<(Seq<TransportAddrView>, int)>
    decreases count,
{
    if count == 0 {
        Some((acc, pos))
    } else {
        match parse_addr(s, pos) {
            None => None,
            Some((a, p)) => parse_addrs(s, p, (count - 1) as nat, acc.push(a)),
        }
    }
}

/// Reads a peer with its addresses at `pos`.
pub open spec fn parse_endpoint(s: Seq<u8>, pos: int) -> Option<(PeerAddrView, int)> {
    match take_bytes(s, pos, 32) {
        None => None,
        Some((id, p)) => match parse_varint(s, p, u64::MAX as nat) {
            None => None,
            Some((count, q)) => match parse_addrs(s, q, count, Seq::empty()) {
                None => None,
                Some((addrs, end)) => Some((PeerAddrView { id, addrs }, end)),
            },
        },
    }
}

/// Reads `count` peers from `pos` on, after those in `acc`.
pub open spec fn parse_endpoints(
    s: Seq<u8>,
    pos: int,
    count: nat,
    acc: Seq<PeerAddrView>,
) -> Option<(Seq<PeerAddrView>, int)>
    decreases count,
{
    if count == 0 {
        Some((acc, pos))
    } else {
        match parse_endpoint(s, pos) {
            None => None,
            Some((e, p)) => parse_endpoints(s, p, (count - 1) as nat, acc.push(e)),
        }
    }
}

/// Reads a ticket from its binary form.
pub open spec fn parse_ticket(s: Seq<u8>) -> Option<TicketView> {
    match take_bytes(s, 0, 32) {
        None => None,
        Some((topic, p)) => match parse_varint(s, p, u64::MAX as nat) {
            None => None,
            Some((count, q)) => match parse_endpoints(s, q, count, Seq::empty()) {
                None => None,
                Some((endpoints, end)) => if end == s.len() {
                    Some(TicketView { topic, endpoints })
                } else {
                    None
                },
            },
        },
    }
}

proof fn lemma_parse_addr_bytes(s: Seq<u8>, pos: int, a: TransportAddrView)
    requires
        valid_addr(a),
        has_at(s, pos, addr_bytes(a)),
    ensures
        parse_addr(s, pos) == Some((a, pos + addr_bytes(a).len())),
{
    match a {
        TransportAddrView::Relay(url) => {
            let bytes = encode_utf8(url);
            let head = seq![0u8] + varint(bytes.len());
            lemma_has_at_concat(s, pos, head, bytes);
            lemma_has_at_concat(s, pos, seq![0u8], varint(bytes.len()));
            lemma_has_at_index(s, pos, seq![0u8], 0);
            lemma_parse_varint(s, pos + 1, u64::MAX as nat, bytes.len());
            vstd::utf8::encode_utf8_valid_utf8(url);
            vstd::utf8::encode_utf8_decode_utf8(url);
        },
        TransportAddrView::V4 { ip, port } => {
            let tag = seq![1u8, 0u8];
            lemma_has_at_concat(s, pos, tag + ip, varint(port as nat));
            lemma_has_at_concat(s, pos, tag, ip);
            lemma_has_at_index(s, pos, tag, 0);
            lemma_has_at_index(s, pos, tag, 1);
            lemma_parse_varint(s, pos + 6, u16::MAX as nat, port as nat);
        },
        TransportAddrView::V6 { ip, port } => {
            let tag = seq![1u8, 1u8];
            lemma_has_at_concat(s, pos, tag + ip, varint(port as nat));
            lemma_has_at_concat(s, pos, tag, ip);
            lemma_has_at_index(s, pos, tag, 0);
            lemma_has_at_index(s, pos, tag, 1);
            lemma_parse_varint(s, pos + 18, u16::MAX as nat, port as nat);
        },
    }
}

proof fn lemma_parse_addrs_bytes(
    s: Seq<u8>,
    pos: int,
    acc: Seq<TransportAddrView>,
    addrs: Seq<TransportAddrView>,
)
    requires
        valid_addrs(addrs),
        has_at(s, pos, addrs_bytes(addrs)),
    ensures
        parse_addrs(s, pos, addrs.len(), acc) == Some((acc + addrs, pos + addrs_bytes(addrs).len())),
    decreases addrs.len(),
{
    if addrs.len() == 0 {
        assert(acc + addrs =~= acc);
    } else {
        let rest = addrs.drop_first();
        lemma_has_at_concat(s, pos, addr_bytes(addrs[0]), addrs_bytes(rest));
        assert(valid_addr(addrs[0]));
        lemma_parse_addr_bytes(s, pos, addrs[0]);
        assert forall|i: int| 0 <= i < rest.len() implies valid_addr(#[trigger] rest[i]) by {
            assert(rest[i] == addrs[i + 1]);
        }
        lemma_parse_addrs_bytes(s, pos + addr_bytes(addrs[0]).len(), acc.push(addrs[0]), rest);
        assert(acc.push(addrs[0]) + rest =~= acc + addrs);
    }
}

proof fn lemma_parse_endpoint_bytes(s: Seq<u8>, pos: int, e: PeerAddrView)
    requires
        valid_endpoint(e),
        has_at(s, pos, endpoint_bytes(e)),
    ensures
        parse_endpoint(s, pos) == Some((e, pos + endpoint_bytes(e).len())),
{
    let count = varint(e.addrs.len());
    lemma_has_at_concat(s, pos, e.id + count, addrs_bytes(e.addrs));
    lemma_has_at_concat(s, pos, e.id, count);
    lemma_parse_varint(s, pos + 32, u64::MAX as nat, e.addrs.len());
    lemma_parse_addrs_bytes(s, pos + 32 + count.len(), Seq::empty(), e.addrs);
    assert(Seq::<TransportAddrView>::empty() + e.addrs =~= e.addrs);
}

proof fn lemma_parse_endpoints_bytes(
    s: Seq<u8>,
    pos: int,
    acc: Seq<PeerAddrView>,
    endpoints: Seq<PeerAddrView>,
)
    requires
        valid_endpoints(endpoints),
        has_at(s, pos, endpoints_bytes(endpoints)),
    ensures
        parse_endpoints(s, pos, endpoints.len(), acc) == Some(
            (acc + endpoints, pos + endpoints_bytes(endpoints).len()),
        ),
    decreases endpoints.len(),
{
    if endpoints.len() == 0 {
        assert(acc + endpoints =~= acc);
    } else {
        let rest = endpoints.drop_first();
        lemma_has_at_concat(s, pos, endpoint_bytes(endpoints[0]), endpoints_bytes(rest));
        assert(valid_endpoint(endpoints[0]));
        lemma_parse_endpoint_bytes(s, pos, endpoints[0]);
        assert forall|i: int| 0 <= i < rest.len() implies valid_endpoint(#[trigger] rest[i]) by {
            assert(rest[i] == endpoints[i + 1]);
        }
        lemma_parse_endpoints_bytes(
            s,
            pos + endpoint_bytes(endpoints[0]).len(),
            acc.push(endpoints[0]),
            rest,
        );
        assert(acc.push(endpoints[0]) + rest =~= acc + endpoints);
    }
}

/// Reading the binary form of a ticket gives the ticket back.
pub proof fn lemma_parse_ticket_bytes(t: TicketView)
    requires
        valid_ticket(t),
    ensures
        parse_ticket(ticket_bytes(t)) == Some(t),
{
    let s = ticket_bytes(t);
    let count = varint(t.endpoints.len());
    assert(s.subrange(0, s.len() as int) =~= s);
    lemma_has_at_concat(s, 0, t.topic + count, endpoints_bytes(t.endpoints));
    lemma_has_at_concat(s, 0, t.topic, count);
    lemma_parse_varint(s, 32, u64::MAX as nat, t.endpoints.len());
    lemma_parse_endpoints_bytes(s, 32 + count.len() as int, Seq::empty(), t.endpoints);
    assert(Seq::<PeerAddrView>::empty() + t.endpoints =~= t.endpoints);
}

/// No two tickets have the same binary form.
pub proof fn lemma_ticket_bytes_injective(a: TicketView, b: TicketView)
    requires
        valid_ticket(a),
        valid_ticket(b),
        ticket_bytes(a) == ticket_bytes(b),
    ensures
        a == b,
{
    lemma_parse_ticket_bytes(a);
    lemma_parse_ticket_bytes(b);
}

fn read_bytes(bytes: &[u8], pos: usize, count: u64) -> (r: Option<(Vec<u8>, usize)>)
    ensures
        match r {
            Some((taken, end)) => take_bytes(bytes@, pos as int, count as nat) == Some(
                (taken@, end as int),
            ) && end == pos + count && end <= bytes@.len(),
            None => take_bytes(bytes@, pos as int, count as nat) is None,
        },
{
    let total = bytes.len();
    if pos > total || count > (total - pos) as u64 {
        return None;
    }
    let end = pos + count as usize;
    let mut taken: Vec<u8> = Vec::new();
    let mut i: usize = pos;
    while i < end
        invariant
            pos <= i <= end <= total,
            total == bytes@.len(),
            taken@ == bytes@.subrange(pos as int, i as int),
        decreases end - i,
    {
        taken.push(bytes[i]);
        i += 1;
        assert(taken@ =~= bytes@.subrange(pos as int, i as int));
    }
    Some((taken, end))
}

fn read_addr(bytes: &[u8], pos: usize) -> (r: Option<(TransportAddr, usize)>)
    ensures
        match r {
            Some((addr, end)) => parse_addr(bytes@, pos as int) == Some((addr@, end as int)) && pos
                < end <= bytes@.len(),
            None => parse_addr(bytes@, pos as int) is None,
        },
{
    let total = bytes.len();
    if pos >= total {
        return None;
    }
    if bytes[pos] == 0 {
        let (len, p) = match read_varint(bytes, pos + 1, u64::MAX) {
            None => {
                return None;
            },
            Some(found) => found,
        };
        let (raw, end) = match read_bytes(bytes, p, len) {
            None => {
                return None;
            },
            Some(found) => found,
        };
        match string_from_utf8(raw) {
            Some(url) => Some((TransportAddr::Relay(url), end)),
            None => None,
        }
    } else if bytes[pos] == 1 && total - pos > 1 && bytes[pos + 1] == 0 {
        let (raw, p) = match read_bytes(bytes, pos + 2, 4) {
            None => {
                return None;
            },
            Some(found) => found,
        };
        let (port, end) = match read_varint(bytes, p, 65535) {
            None => {
                return None;
            },
            Some(found) => found,
        };
        match array_from_slice::<4>(raw.as_slice()) {
            Some(ip) => Some((TransportAddr::V4 { ip, port: port as u16 }, end)),
            None => None,
        }
    } else if bytes[pos] == 1 && total - pos > 1 && bytes[pos + 1] == 1 {
        let (raw, p) = match read_bytes(bytes, pos + 2, 16) {
            None => {
                return None;
            },
            Some(found) => found,
        };
        let (port, end) = match read_varint(bytes, p, 65535) {
            None => {
                return None;
            },
            Some(found) => found,
        };
        match array_from_slice::<16>(raw.as_slice()) {
            Some(ip) => Some((TransportAddr::V6 { ip, port: port as u16 }, end)),
            None => None,
        }
    } else {
        None
    }
}

fn read_endpoint(bytes: &[u8], pos: usize) -> (r: Option<(PeerAddr, usize)>)
    ensures
        match r {
            Some((endpoint, end)) => parse_endpoint(bytes@, pos as int) == Some(
                (endpoint@, end as int),
            ) && pos < end <= bytes@.len(),
            None => parse_endpoint(bytes@, pos as int) is None,
        },
{
    let (raw, p) = match read_bytes(bytes, pos, 32) {
        None => {
            return None;
        },
        Some(found) => found,
    };
    let (count, q) = match read_varint(bytes, p, u64::MAX) {
        None => {
            return None;
        },
        Some(found) => found,
    };
    let mut addrs: Vec<TransportAddr> = Vec::new();
    let mut at: usize = q;
    let mut left: u64 = count;
    assert(addrs_view(addrs@) =~= Seq::<TransportAddrView>::empty());
    while left > 0
        invariant
            q <= at <= bytes@.len(),
            take_bytes(bytes@, pos as int, 32) == Some((raw@, p as int)),
            parse_varint(bytes@, p as int, u64::MAX as nat) == Some((count as nat, q as int)),
            parse_addrs(bytes@, q as int, count as nat, Seq::empty()) == parse_addrs(
                bytes@,
                at as int,
                left as nat,
                addrs_view(addrs@),
            ),
        decreases left,
    {
        let (addr, next) = match read_addr(bytes, at) {
            None => {
                return None;
            },
            Some(found) => found,
        };
        let ghost before = addrs_view(addrs@);
        addrs.push(addr);
        assert(addrs_view(addrs@) =~= before.push(addr@));
        at = next;
        left = left - 1;
    }
    match array_from_slice::<32>(raw.as_slice()) {
        Some(id) => Some((PeerAddr { id: PeerId::from_bytes(id), addrs }, at)),
        None => None,
    }
}

impl Ticket {
    /// The ticket for a topic and some peers of the room.
    pub fn new(topic: [u8; 32], endpoints: Vec<PeerAddr>) -> (ticket: Ticket)
        ensures
            ticket@ == (TicketView { topic: topic@, endpoints: endpoints_view(endpoints@) }),
    {
        Ticket { topic, endpoints }
    }

    /// The topic and the peers of the ticket.
    pub fn into_tuple(self) -> (parts: ([u8; 32], Vec<PeerAddr>))
        ensures
            self@ == (TicketView { topic: parts.0@, endpoints: endpoints_view(parts.1@) }),
    {
        (self.topic, self.endpoints)
    }

    /// The topic of the room.
    pub fn topic(&self) -> (topic: &[u8; 32])
        ensures
            topic@ == self@.topic,
    {
        &self.topic
    }

    /// The peers of the room that the ticket names.
    pub fn endpoints(&self) -> (endpoints: &Vec<PeerAddr>)
        ensures
            endpoints_view(endpoints@) == self@.endpoints,
    {
        &self.endpoints
    }

    /// The binary form of the ticket.
    pub fn to_vec(&self) -> (bytes: Vec<u8>)
        ensures
            bytes@ == ticket_bytes(self@),
            valid_ticket(self@),
    {
        let mut out: Vec<u8> = Vec::new();
        push_all(&mut out, self.topic.as_slice());
        write_varint(&mut out, self.endpoints.len() as u64);
        let ghost head = out@;
        let mut i: usize = 0;
        assert(endpoints_view(self.endpoints@.take(0)) =~= Seq::<PeerAddrView>::empty());
        assert(out@ =~= head + endpoints_bytes(endpoints_view(self.endpoints@.take(0))));
        while i < self.endpoints.len()
            invariant
                i <= self.endpoints@.len(),
                out@ == head + endpoints_bytes(endpoints_view(self.endpoints@.take(i as int))),
                forall|k: int| 0 <= k < i ==> valid_endpoint(#[trigger] self@.endpoints[k]),
            decreases self.endpoints@.len() - i,
        {
            proof {
                lemma_endpoints_bytes_push(
                    endpoints_view(self.endpoints@.take(i as int)),
                    self.endpoints@[i as int]@,
                );
                assert(endpoints_view(self.endpoints@.take(i as int)).push(
                    self.endpoints@[i as int]@,
                ) =~= endpoints_view(self.endpoints@.take(i as int + 1)));
            }
            write_endpoint(&mut out, &self.endpoints[i]);
            i += 1;
            assert(out@ =~= head + endpoints_bytes(endpoints_view(self.endpoints@.take(i as int))));
        }
        assert(self.endpoints@.take(i as int) =~= self.endpoints@);
        assert(out@ =~= ticket_bytes(self@));
        out
    }

    fn parse(bytes: &[u8]) -> (r: Option<Ticket>)
        ensures
            match r {
                Some(ticket) => parse_ticket(bytes@) == Some(ticket@),
                None => parse_ticket(bytes@) is None,
            },
    {
        let total = bytes.len();
        let (raw, p) = match read_bytes(bytes, 0, 32) {
            None => {
                return None;
            },
            Some(found) => found,
        };
        let (count, q) = match read_varint(bytes, p, u64::MAX) {
            None => {
                return None;
            },
            Some(found) => found,
        };
        let mut endpoints: Vec<PeerAddr> = Vec::new();
        let mut at: usize = q;
        let mut left: u64 = count;
        assert(endpoints_view(endpoints@) =~= Seq::<PeerAddrView>::empty());
        while left > 0
            invariant
                q <= at <= bytes@.len(),
                take_bytes(bytes@, 0, 32) == Some((raw@, p as int)),
                parse_varint(bytes@, p as int, u64::MAX as nat) == Some((count as nat, q as int)),
                parse_endpoints(bytes@, q as int, count as nat, Seq::empty()) == parse_endpoints(
                    bytes@,
                    at as int,
                    left as nat,
                    endpoints_view(endpoints@),
                ),
            decreases left,
        {
            let (endpoint, next) = match read_endpoint(bytes, at) {
                None => {
                    return None;
                },
                Some(found) => found,
            };
            let ghost before = endpoints_view(endpoints@);
            endpoints.push(endpoint);
            assert(endpoints_view(endpoints@) =~= before.push(endpoint@));
            at = next;
            left = left - 1;
        }
        if at != total {
            return None;
        }
        match array_from_slice::<32>(raw.as_slice()) {
            Some(topic) => Some(Ticket { topic, endpoints }),
            None => None,
        }
    }

    /// Reads a ticket from its binary form. Bytes that are not the binary
    /// form of a ticket are refused as malformed.
    pub fn from_bytes(bytes: &[u8]) -> (r: Result<Ticket, DecodeError>)
        ensures
            match r {
                Ok(ticket) => valid_ticket(ticket@) && ticket_bytes(ticket@) == bytes@,
                Err(e) => e == DecodeError::Malformed && !is_ticket_bytes(bytes@),
            },
    {
        let candidate = Ticket::parse(bytes);
        let accepted = match &candidate {
            Some(ticket) => {
                let again = ticket.to_vec();
                bytes_equal(again.as_slice(), bytes)
            },
            None => false,
        };
        if accepted {
            match candidate {
                Some(ticket) => Ok(ticket),
                None => Err(DecodeError::Malformed),
            }
        } else {
            proof {
                assert forall|t: TicketView| valid_ticket(t) implies ticket_bytes(t) != bytes@ by {
                    if ticket_bytes(t) == bytes@ {
                        lemma_parse_ticket_bytes(t);
                    }
                }
            }
            Err(DecodeError::Malformed)
        }
    }
}

/// The text that URL-safe base64 without padding encodes the bytes into.
pub uninterp spec fn base64url(bytes: Seq<u8>) -> Seq<char>;

/// The bytes that URL-safe base64 without padding decodes the text into,
/// or nothing where the text is no such encoding.
pub uninterp spec fn base64url_decoded(text: Seq<char>) -> Option<Seq<u8>>;

/// Whether base64 can encode this many bytes: the length of the text fits
/// the machine's word.
pub open spec fn encodable_len(len: nat) -> bool {
    len / 3 * 4 + 3 <= usize::MAX
}

/// Encodes with `BASE64_URL_SAFE_NO_PAD.encode`, which panics only where the
/// length of the text overflows. What it returns decodes to the bytes.
#[verifier::external_body]
fn base64_encode(bytes: &[u8]) -> (text: String)
    requires
        encodable_len(bytes@.len()),
    ensures
        text@ == base64url(bytes@),
        base64url_decoded(text@) == Some(bytes@),
{
    BASE64_URL_SAFE_NO_PAD.encode(bytes)
}

/// Decodes with `BASE64_URL_SAFE_NO_PAD.decode`: the bytes, or nothing
/// where the engine reports an error.
#[verifier::external_body]
fn base64_decode(text: &str) -> (r: Option<Vec<u8>>)
    ensures
        match r {
            Some(bytes) => base64url_decoded(text@) == Some(bytes@),
            None => base64url_decoded(text@) is None,
        },
{
    BASE64_URL_SAFE_NO_PAD.decode(text.as_bytes()).ok()
}

/// Whether a text starts with the ticket prefix.
pub open spec fn has_ticket_prefix(text: Seq<char>) -> bool {
    text.len() >= TICKET_PREFIX@.len() && text.take(TICKET_PREFIX@.len() as int) == TICKET_PREFIX@
}

/// What follows the ticket prefix in a text.
pub open spec fn after_ticket_prefix(text: Seq<char>) -> Seq<char> {
    text.skip(TICKET_PREFIX@.len() as int)
}

/// Whether `text` is the text form of the ticket: the prefix, then the
/// base64 encoding of the binary form, which decodes to that form again.
pub open spec fn is_ticket_text(text: Seq<char>, t: TicketView) -> bool {
    &&& valid_ticket(t)
    &&& text == TICKET_PREFIX@ + base64url(ticket_bytes(t))
    &&& base64url_decoded(base64url(ticket_bytes(t))) == Some(ticket_bytes(t))
}

/// What reading a ticket text gives: the ticket whose binary form the text
/// encodes after the prefix, and otherwise the first of three errors that
/// applies: the prefix is missing, what follows is no base64, what it
/// decodes to is no ticket.
pub open spec fn ticket_parsed(text: Seq<char>, r: Result<TicketView, DecodeError>) -> bool {
    match r {
        Ok(t) => {
            &&& valid_ticket(t)
            &&& has_ticket_prefix(text)
            &&& base64url_decoded(after_ticket_prefix(text)) == Some(ticket_bytes(t))
        },
        Err(e) => if !has_ticket_prefix(text) {
            e == DecodeError::MissingPrefix
        } else {
            match base64url_decoded(after_ticket_prefix(text)) {
                None => e == DecodeError::BadEncoding,
                Some(bytes) => e == DecodeError::Malformed && !is_ticket_bytes(bytes),
            }
        },
    }
}

/// The view of the result of reading a ticket.
pub open spec fn ticket_result_view(r: Result<Ticket, DecodeError>) -> Result<
    TicketView,
    DecodeError,
> {
    match r {
        Ok(ticket) => Ok(ticket@),
        Err(e) => Err(e),
    }
}

/// Round trip: reading the text form of a ticket gives the ticket back.
pub proof fn lemma_ticket_text_round_trip(
    t: TicketView,
    text: Seq<char>,
    outcome: Result<TicketView, DecodeError>,
)
    requires
        is_ticket_text(text, t),
        ticket_parsed(text, outcome),
    ensures
        outcome == Ok::<TicketView, DecodeError>(t),
{
    let encoded = base64url(ticket_bytes(t));
    assert(text.take(TICKET_PREFIX@.len() as int) =~= TICKET_PREFIX@);
    assert(after_ticket_prefix(text) =~= encoded);
    match outcome {
        Ok(other) => {
            lemma_ticket_bytes_injective(t, other);
        },
        Err(_) => {
            assert(is_ticket_bytes(ticket_bytes(t)));
        },
    }
}

fn strip_ticket_prefix(s: &str) -> (rest: Option<&str>)
    ensures
        match rest {
            Some(r) => has_ticket_prefix(s@) && r@ == after_ticket_prefix(s@),
            None => !has_ticket_prefix(s@),
        },
{
    proof {
        reveal_strlit("ticket-");
    }
    let n = s.unicode_len();
    if n < 7 {
        return None;
    }
    let mut i: usize = 0;
    while i < 7
        invariant
            i <= 7 <= n,
            n == s@.len(),
            TICKET_PREFIX@.len() == 7,
            forall|k: int| 0 <= k < i ==> s@[k] == TICKET_PREFIX@[k],
        decreases 7 - i,
    {
        if s.get_char(i) != TICKET_PREFIX.get_char(i) {
            proof {
                if has_ticket_prefix(s@) {
                    assert(s@.take(7)[i as int] == s@[i as int]);
                }
            }
            return None;
        }
        i += 1;
    }
    assert(s@.take(7) =~= TICKET_PREFIX@);
    let rest = s.substring_char(7, n);
    assert(rest@ =~= after_ticket_prefix(s@));
    Some(rest)
}

/// Whether a text starts with the ticket prefix.
pub fn is_ticket_prefixed(s: &str) -> (prefixed: bool)
    ensures
        prefixed == has_ticket_prefix(s@),
{
    strip_ticket_prefix(s).is_some()
}

impl Ticket {
    /// The text form of the ticket.
    pub fn to_string(&self) -> (text: String)
        requires
            encodable_len(ticket_bytes(self@).len()),
        ensures
            is_ticket_text(text@, self@),
    {
        let bytes = self.to_vec();
        let encoded = base64_encode(bytes.as_slice());
        let mut text = TICKET_PREFIX.to_owned();
        text.append(encoded.as_str());
        text
    }

    /// The text form of the ticket, or nothing for a ticket so large that
    /// the length of its text overflows.
    pub fn to_text(&self) -> (text: Option<String>)
        ensures
            text is Some <==> encodable_len(ticket_bytes(self@).len()),
            text matches Some(t) ==> is_ticket_text(t@, self@),
    {
        let bytes = self.to_vec();
        if bytes.len() / 3 > (usize::MAX - 3) / 4 {
            return None;
        }
        let encoded = base64_encode(bytes.as_slice());
        let mut text = TICKET_PREFIX.to_owned();
        text.append(encoded.as_str());
        Some(text)
    }

    /// Reads a ticket from its text form.
    pub fn from_str(s: &str) -> (r: Result<Ticket, DecodeError>)
        ensures
            ticket_parsed(s@, ticket_result_view(r)),
    {
        let rest = match strip_ticket_prefix(s) {
            None => {
                return Err(DecodeError::MissingPrefix);
            },
            Some(rest) => rest,
        };
        let bytes = match base64_decode(rest) {
            None => {
                return Err(DecodeError::BadEncoding);
            },
            Some(bytes) => bytes,
        };
        match Ticket::from_bytes(bytes.as_slice()) {
            Ok(ticket) => Ok(ticket),
            Err(e) => Err(e),
        }
    }
}

} // verus!
