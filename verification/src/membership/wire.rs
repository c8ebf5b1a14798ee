//! Payload codecs of membership messages. Strings are
//! `[length:u16_be][utf8]`; a member is
//! `[id:string][addr:string][status:u8][incarnation:u64_be]` with status
//! 0=Alive, 1=Suspect, 2=Failed, 3=Left.
//!
//! - `Join`, `MembershipUpdate`: `[member]`
//! - `JoinAck`: `[count:u16_be][member repeated count]`
//! - `Ping`, `AckPing`: `[from:string][target:string]`
//! - `PingReq`: `[from:string][target:string][relay:string]`
//!
//! A member's address must be a socket address. Whether a string is one is
//! decided outside this library: `decode` reads the wire format, and
//! `check_addresses` refuses a decoded message by the caller's verdicts on
//! the addresses `member_addrs` lists.

use super::{
    members_view, Member, MemberStatus, MemberView, MembershipCodecError, MembershipMessage,
    MessageView,
};
use crate::codec::{self, push_string, push_u16, push_u64, ByteReader};
use crate::protocol::Opcode;
use vstd::prelude::*;

verus! {

pub open spec fn status_byte(s: MemberStatus) -> u8 {
    match s {
        MemberStatus::Alive => 0,
        MemberStatus::Suspect => 1,
        MemberStatus::Failed => 2,
        MemberStatus::Left => 3,
    }
}

pub open spec fn status_of_byte(b: u8) -> Option<MemberStatus> {
    if b == 0 { Some(MemberStatus::Alive) }
    else if b == 1 { Some(MemberStatus::Suspect) }
    else if b == 2 { Some(MemberStatus::Failed) }
    else if b == 3 { Some(MemberStatus::Left) }
    else { None }
}

pub open spec fn member_bytes(m: MemberView) -> Seq<u8> {
    codec::string_field(m.id) + codec::string_field(m.addr) + seq![status_byte(m.status)] + codec::u64_be(
        m.incarnation,
    )
}

pub open spec fn member_fits(m: MemberView) -> bool {
    codec::string_fits(m.id) && codec::string_fits(m.addr)
}

pub open spec fn members_bytes(ms: Seq<MemberView>) -> Seq<u8>
    decreases ms.len(),
{
    if ms.len() == 0 {
        Seq::empty()
    } else {
        members_bytes(ms.drop_last()) + member_bytes(ms.last())
    }
}

/// The opcode that carries a message.
pub open spec fn message_opcode(m: MessageView) -> Opcode {
    match m {
        MessageView::Join(_) => Opcode::Join,
        MessageView::JoinAck(_) => Opcode::JoinAck,
        MessageView::Ping { .. } => Opcode::Ping,
        MessageView::Ack { .. } => Opcode::AckPing,
        MessageView::PingReq { .. } => Opcode::PingReq,
        MessageView::Update(_) => Opcode::MembershipUpdate,
    }
}

/// The payload bytes of a message.
pub open spec fn message_bytes(m: MessageView) -> Seq<u8> {
    match m {
        MessageView::Join(x) => member_bytes(x),
        MessageView::Update(x) => member_bytes(x),
        MessageView::JoinAck(ms) => codec::u16_be(ms.len() as u16) + members_bytes(ms),
        MessageView::Ping { from, target } => codec::string_field(from) + codec::string_field(target),
        MessageView::Ack { from, target } => codec::string_field(from) + codec::string_field(target),
        MessageView::PingReq { from, target, relay } => codec::string_field(from) + codec::string_field(
            target,
        ) + codec::string_field(relay),
    }
}

/// Whether a message can be encoded: every string fits a `u16` length and
/// a `JoinAck` holds at most `u16::MAX` members.
pub open spec fn message_fits(m: MessageView) -> bool {
    match m {
        MessageView::Join(x) => member_fits(x),
        MessageView::Update(x) => member_fits(x),
        MessageView::JoinAck(ms) => ms.len() <= u16::MAX && forall|i: int|
            0 <= i < ms.len() ==> #[trigger] member_fits(ms[i]),
        MessageView::Ping { from, target } => codec::string_fits(from) && codec::string_fits(target),
        MessageView::Ack { from, target } => codec::string_fits(from) && codec::string_fits(target),
        MessageView::PingReq { from, target, relay } => codec::string_fits(from) && codec::string_fits(
            target,
        ) && codec::string_fits(relay),
    }
}

#[verifier::opaque]
pub open spec fn parse_member(b: Seq<u8>) -> Option<(MemberView, Seq<u8>)> {
    match codec::take_string(b) {
        Some((id, r1)) => match codec::take_string(r1) {
            Some((addr, r2)) => match codec::take_u8(r2) {
                Some((sb, r3)) => match status_of_byte(sb) {
                    Some(status) => match codec::take_u64(r3) {
                        Some((incarnation, r4)) => Some((MemberView { id, addr, status, incarnation }, r4)),
                        None => None,
                    },
                    None => None,
                },
                None => None,
            },
            None => None,
        },
        None => None,
    }
}

pub open spec fn parse_members(b: Seq<u8>, n: nat) -> Option<(Seq<MemberView>, Seq<u8>)>
    decreases n,
{
    if n == 0 {
        Some((Seq::empty(), b))
    } else {
        match parse_members(b, (n - 1) as nat) {
            Some((ms, r)) => match parse_member(r) {
                Some((m, r2)) => Some((ms.push(m), r2)),
                None => None,
            },
            None => None,
        }
    }
}

/// The fields of a message, if `b` is exactly its payload for `op`.
pub open spec fn parse_fields(op: Opcode, b: Seq<u8>) -> Option<MessageView> {
    match op {
        Opcode::Join => match parse_member(b) {
            Some((m, r)) => if r.len() == 0 { Some(MessageView::Join(m)) } else { None },
            None => None,
        },
        Opcode::MembershipUpdate => match parse_member(b) {
            Some((m, r)) => if r.len() == 0 { Some(MessageView::Update(m)) } else { None },
            None => None,
        },
        Opcode::JoinAck => match codec::take_u16(b) {
            Some((n, r)) => match parse_members(r, n as nat) {
                Some((ms, r2)) => if r2.len() == 0 { Some(MessageView::JoinAck(ms)) } else { None },
                None => None,
            },
            None => None,
        },
        Opcode::Ping => match codec::take_string(b) {
            Some((from, r1)) => match codec::take_string(r1) {
                Some((target, r2)) => if r2.len() == 0 { Some(MessageView::Ping { from, target }) } else { None },
                None => None,
            },
            None => None,
        },
        Opcode::AckPing => match codec::take_string(b) {
            Some((from, r1)) => match codec::take_string(r1) {
                Some((target, r2)) => if r2.len() == 0 { Some(MessageView::Ack { from, target }) } else { None },
                None => None,
            },
            None => None,
        },
        Opcode::PingReq => match codec::take_string(b) {
            Some((from, r1)) => match codec::take_string(r1) {
                Some((target, r2)) => match codec::take_string(r2) {
                    Some((relay, r3)) => if r3.len() == 0 {
                        Some(MessageView::PingReq { from, target, relay })
                    } else {
                        None
                    },
                    None => None,
                },
                None => None,
            },
            None => None,
        },
        _ => None,
    }
}

/// Whether `op` carries a membership message.
pub open spec fn is_membership_opcode(op: Opcode) -> bool {
    op == Opcode::Join || op == Opcode::JoinAck || op == Opcode::Ping || op == Opcode::AckPing || op
        == Opcode::PingReq || op == Opcode::MembershipUpdate
}

/// What decoding `b` as the payload of opcode `op` yields.
pub open spec fn parse_message(op: Opcode, b: Seq<u8>) -> Result<MessageView, MembershipCodecError> {
    if !is_membership_opcode(op) {
        Err(MembershipCodecError::InvalidOpcode(op))
    } else {
        match parse_fields(op, b) {
            Some(m) => Ok(m),
            None => Err(MembershipCodecError::InvalidPayload),
        }
    }
}

// ---------------------------------------------------------------------------
// Laws

pub proof fn lemma_member_round_trip(m: MemberView, rest: Seq<u8>)
    requires
        member_fits(m),
    ensures
        parse_member(member_bytes(m) + rest) == Some((m, rest)),
{
    reveal(parse_member);
    let r3 = codec::u64_be(m.incarnation) + rest;
    let r2 = seq![status_byte(m.status)] + r3;
    let r1 = codec::string_field(m.addr) + r2;
    assert(member_bytes(m) + rest =~= codec::string_field(m.id) + r1);
    codec::lemma_take_string(m.id, r1);
    codec::lemma_take_string(m.addr, r2);
    codec::lemma_take_u8(status_byte(m.status), r3);
    codec::lemma_take_u64(m.incarnation, rest);
}

proof fn lemma_member_assemble(b: Seq<u8>, r1: Seq<u8>, r2: Seq<u8>, r3: Seq<u8>, rest: Seq<u8>, m: MemberView)
    requires
        b == codec::string_field(m.id) + r1,
        r1 == codec::string_field(m.addr) + r2,
        r2 == seq![status_byte(m.status)] + r3,
        r3 == codec::u64_be(m.incarnation) + rest,
    ensures
        b == member_bytes(m) + rest,
{
    assert(b =~= member_bytes(m) + rest);
}

pub proof fn lemma_member_canonical(b: Seq<u8>)
    requires
        parse_member(b) is Some,
    ensures
        member_fits(parse_member(b).unwrap().0),
        b == member_bytes(parse_member(b).unwrap().0) + parse_member(b).unwrap().1,
{
    reveal(parse_member);
    let (m, rest) = parse_member(b).unwrap();
    let (id, r1) = codec::take_string(b).unwrap();
    let (addr, r2) = codec::take_string(r1).unwrap();
    let (sb, r3) = codec::take_u8(r2).unwrap();
    codec::lemma_take_string_inv(b);
    codec::lemma_take_string_inv(r1);
    codec::lemma_take_u8_inv(r2);
    codec::lemma_take_u64_inv(r3);
    assert(status_byte(m.status) == sb);
    lemma_member_assemble(b, r1, r2, r3, rest, m);
}

pub proof fn lemma_members_round_trip(ms: Seq<MemberView>, rest: Seq<u8>)
    requires
        forall|i: int| 0 <= i < ms.len() ==> #[trigger] member_fits(ms[i]),
    ensures
        parse_members(members_bytes(ms) + rest, ms.len()) == Some((ms, rest)),
    decreases ms.len(),
{
    if ms.len() > 0 {
        let init = ms.drop_last();
        let tail = member_bytes(ms.last()) + rest;
        assert(members_bytes(ms) + rest =~= members_bytes(init) + tail);
        assert forall|i: int| 0 <= i < init.len() implies #[trigger] member_fits(init[i]) by {
            assert(init[i] == ms[i]);
        }
        lemma_members_round_trip(init, tail);
        assert(member_fits(ms[ms.len() - 1]));
        lemma_member_round_trip(ms.last(), rest);
        assert(init.push(ms.last()) =~= ms);
    } else {
        assert(members_bytes(ms) + rest =~= rest);
    }
}

pub proof fn lemma_members_canonical(b: Seq<u8>, n: nat)
    requires
        parse_members(b, n) is Some,
    ensures
        parse_members(b, n).unwrap().0.len() == n,
        forall|i: int| 0 <= i < n ==> #[trigger] member_fits(parse_members(b, n).unwrap().0[i]),
        b == members_bytes(parse_members(b, n).unwrap().0) + parse_members(b, n).unwrap().1,
    decreases n,
{
    if n == 0 {
        assert(b =~= members_bytes(Seq::<MemberView>::empty()) + b);
    } else {
        let (ms, r) = parse_members(b, (n - 1) as nat).unwrap();
        lemma_members_canonical(b, (n - 1) as nat);
        lemma_member_canonical(r);
        let (m, r2) = parse_member(r).unwrap();
        let all = ms.push(m);
        assert(all.drop_last() =~= ms);
        assert(b =~= members_bytes(all) + r2);
        assert forall|i: int| 0 <= i < n implies #[trigger] member_fits(all[i]) by {
            if i < n - 1 {
                assert(all[i] == ms[i]);
            }
        }
    }
}

pub proof fn lemma_members_fail_monotone(b: Seq<u8>, n: nat, m: nat)
    requires
        parse_members(b, n) is None,
        n <= m,
    ensures
        parse_members(b, m) is None,
    decreases m,
{
    if n < m {
        lemma_members_fail_monotone(b, n, (m - 1) as nat);
    }
}

/// Decoding the payload of a message under its opcode gives the message back.
pub proof fn lemma_message_round_trip(m: MessageView)
    requires
        message_fits(m),
    ensures
        parse_message(message_opcode(m), message_bytes(m)) == Ok::<MessageView, MembershipCodecError>(m),
{
    let e = Seq::<u8>::empty();
    let b = message_bytes(m);
    match m {
        MessageView::Join(x) => {
            assert(b =~= member_bytes(x) + e);
            lemma_member_round_trip(x, e);
        },
        MessageView::Update(x) => {
            assert(b =~= member_bytes(x) + e);
            lemma_member_round_trip(x, e);
        },
        MessageView::JoinAck(ms) => {
            assert(b =~= codec::u16_be(ms.len() as u16) + (members_bytes(ms) + e));
            codec::lemma_take_u16(ms.len() as u16, members_bytes(ms) + e);
            lemma_members_round_trip(ms, e);
        },
        MessageView::Ping { from, target } => {
            assert(b =~= codec::string_field(from) + (codec::string_field(target) + e));
            codec::lemma_take_string(from, codec::string_field(target) + e);
            codec::lemma_take_string(target, e);
        },
        MessageView::Ack { from, target } => {
            assert(b =~= codec::string_field(from) + (codec::string_field(target) + e));
            codec::lemma_take_string(from, codec::string_field(target) + e);
            codec::lemma_take_string(target, e);
        },
        MessageView::PingReq { from, target, relay } => {
            let r2 = codec::string_field(relay) + e;
            let r1 = codec::string_field(target) + r2;
            assert(b =~= codec::string_field(from) + r1);
            codec::lemma_take_string(from, r1);
            codec::lemma_take_string(target, r2);
            codec::lemma_take_string(relay, e);
        },
    }
}

/// A payload that decodes is exactly the encoding of what it decodes to,
/// under the same opcode.
pub proof fn lemma_message_canonical(op: Opcode, b: Seq<u8>)
    requires
        parse_message(op, b) is Ok,
    ensures
        message_fits(parse_message(op, b)->Ok_0),
        message_opcode(parse_message(op, b)->Ok_0) == op,
        message_bytes(parse_message(op, b)->Ok_0) == b,
{
    let m = parse_message(op, b)->Ok_0;
    match op {
        Opcode::Join | Opcode::MembershipUpdate => {
            lemma_member_canonical(b);
            assert(b =~= member_bytes(parse_member(b).unwrap().0));
        },
        Opcode::JoinAck => {
            codec::lemma_take_u16_inv(b);
            let (n, r) = codec::take_u16(b).unwrap();
            lemma_members_canonical(r, n as nat);
            let (ms, r2) = parse_members(r, n as nat).unwrap();
            assert(r2 =~= Seq::<u8>::empty());
            assert(b =~= codec::u16_be(ms.len() as u16) + members_bytes(ms));
        },
        Opcode::Ping | Opcode::AckPing => {
            codec::lemma_take_string_inv(b);
            let r1 = codec::take_string(b).unwrap().1;
            codec::lemma_take_string_inv(r1);
            let r2 = codec::take_string(r1).unwrap().1;
            assert(r2 =~= Seq::<u8>::empty());
            assert(b =~= message_bytes(m));
        },
        _ => {
            codec::lemma_take_string_inv(b);
            let r1 = codec::take_string(b).unwrap().1;
            codec::lemma_take_string_inv(r1);
            let r2 = codec::take_string(r1).unwrap().1;
            codec::lemma_take_string_inv(r2);
            let r3 = codec::take_string(r2).unwrap().1;
            assert(r3 =~= Seq::<u8>::empty());
            assert(b =~= message_bytes(m));
        },
    }
}

// ---------------------------------------------------------------------------
// Executable codecs

fn status_to_u8(s: MemberStatus) -> (b: u8)
    ensures
        b == status_byte(s),
{
    match s {
        MemberStatus::Alive => 0,
        MemberStatus::Suspect => 1,
        MemberStatus::Failed => 2,
        MemberStatus::Left => 3,
    }
}

fn status_from_u8(b: u8) -> (r: Option<MemberStatus>)
    ensures
        r == status_of_byte(b),
{
    match b {
        0 => Some(MemberStatus::Alive),
        1 => Some(MemberStatus::Suspect),
        2 => Some(MemberStatus::Failed),
        3 => Some(MemberStatus::Left),
        _ => None,
    }
}

fn encode_member(out: &mut Vec<u8>, m: &Member) -> (ok: bool)
    ensures
        ok == member_fits(m@),
        ok ==> final(out)@ == old(out)@ + member_bytes(m@),
{
    if !push_string(out, m.id.as_str()) {
        return false;
    }
    if !push_string(out, m.addr.as_str()) {
        return false;
    }
    out.push(status_to_u8(m.status));
    push_u64(out, m.incarnation);
    assert(final(out)@ =~= old(out)@ + member_bytes(m@));
    true
}

fn decode_member(reader: &mut ByteReader) -> (r: Option<Member>)
    requires
        old(reader).wf(),
    ensures
        final(reader).wf(),
        match parse_member(old(reader).rest()) {
            Some((m, rest)) => r matches Some(x) && x@ == m && final(reader).rest() == rest,
            None => r is None,
        },
{
    reveal(parse_member);
    let id = match reader.read_string() { Some(x) => x, None => return None };
    let addr = match reader.read_string() { Some(x) => x, None => return None };
    let sb = match reader.read_u8() { Some(x) => x, None => return None };
    let status = match status_from_u8(sb) { Some(x) => x, None => return None };
    let incarnation = match reader.read_u64() { Some(x) => x, None => return None };
    Some(Member { id, addr, status, incarnation })
}

fn decode_members(reader: &mut ByteReader, count: u16) -> (r: Option<Vec<Member>>)
    requires
        old(reader).wf(),
    ensures
        final(reader).wf(),
        match parse_members(old(reader).rest(), count as nat) {
            Some((ms, rest)) => r matches Some(v) && members_view(v@) == ms && final(reader).rest() == rest,
            None => r is None,
        },
{
    let ghost start = reader.rest();
    let mut members: Vec<Member> = Vec::new();
    let mut i: u16 = 0;
    assert(members_view(members@) =~= Seq::<MemberView>::empty());
    while i < count
        invariant
            start == old(reader).rest(),
            reader.wf(),
            i <= count,
            parse_members(start, i as nat) == Some((members_view(members@), reader.rest())),
        decreases count - i,
    {
        let ghost before = members@;
        match decode_member(reader) {
            Some(m) => {
                members.push(m);
                assert(members_view(members@) =~= members_view(before).push(m@));
            },
            None => {
                proof { lemma_members_fail_monotone(start, (i + 1) as nat, count as nat); }
                return None;
            },
        }
        i = i + 1;
    }
    Some(members)
}

impl MembershipMessage {
    /// The opcode that carries this message.
    pub fn opcode(&self) -> (op: Opcode)
        ensures
            op == message_opcode(self@),
    {
        match self {
            MembershipMessage::Join(_) => Opcode::Join,
            MembershipMessage::JoinAck(_) => Opcode::JoinAck,
            MembershipMessage::Ping { .. } => Opcode::Ping,
            MembershipMessage::Ack { .. } => Opcode::AckPing,
            MembershipMessage::PingReq { .. } => Opcode::PingReq,
            MembershipMessage::Update(_) => Opcode::MembershipUpdate,
        }
    }

    /// The payload bytes; `PayloadTooLarge` when a string is longer than a
    /// `u16` length allows or a `JoinAck` has more than `u16::MAX` members.
    pub fn encode_payload(&self) -> (r: Result<Vec<u8>, MembershipCodecError>)
        ensures
            message_fits(self@) ==> (r matches Ok(b) && b@ == message_bytes(self@)),
            !message_fits(self@) ==> r == Err::<Vec<u8>, MembershipCodecError>(
                MembershipCodecError::PayloadTooLarge,
            ),
    {
        let mut payload: Vec<u8> = Vec::new();
        match self {
            MembershipMessage::Join(m) | MembershipMessage::Update(m) => {
                if !encode_member(&mut payload, m) {
                    return Err(MembershipCodecError::PayloadTooLarge);
                }
                assert(payload@ =~= message_bytes(self@));
            },
            MembershipMessage::JoinAck(members) => {
                if members.len() > 65535 {
                    assert(members_view(members@).len() == members.len());
                    return Err(MembershipCodecError::PayloadTooLarge);
                }
                push_u16(&mut payload, members.len() as u16);
                let ghost head = payload@;
                let ghost ms = members_view(members@);
                let mut i: usize = 0;
                assert(ms.take(0) =~= Seq::<MemberView>::empty());
                while i < members.len()
                    invariant
                        ms == members_view(members@),
                        self@ == MessageView::JoinAck(ms),
                        i <= ms.len(),
                        payload@ == head + members_bytes(ms.take(i as int)),
                        forall|j: int| 0 <= j < i ==> #[trigger] member_fits(ms[j]),
                    decreases ms.len() - i,
                {
                    if !encode_member(&mut payload, &members[i]) {
                        assert(!member_fits(ms[i as int]));
                        return Err(MembershipCodecError::PayloadTooLarge);
                    }
                    assert(ms.take(i + 1).drop_last() =~= ms.take(i as int));
                    assert(ms.take(i + 1).last() == ms[i as int]);
                    assert(payload@ =~= head + members_bytes(ms.take(i + 1)));
                    i = i + 1;
                }
                assert(ms.take(i as int) =~= ms);
                assert(payload@ =~= message_bytes(self@));
            },
            MembershipMessage::Ping { from, target } | MembershipMessage::Ack { from, target } => {
                if !push_string(&mut payload, from.as_str()) {
                    return Err(MembershipCodecError::PayloadTooLarge);
                }
                if !push_string(&mut payload, target.as_str()) {
                    return Err(MembershipCodecError::PayloadTooLarge);
                }
                assert(payload@ =~= message_bytes(self@));
            },
            MembershipMessage::PingReq { from, target, relay } => {
                if !push_string(&mut payload, from.as_str()) {
                    return Err(MembershipCodecError::PayloadTooLarge);
                }
                if !push_string(&mut payload, target.as_str()) {
                    return Err(MembershipCodecError::PayloadTooLarge);
                }
                if !push_string(&mut payload, relay.as_str()) {
                    return Err(MembershipCodecError::PayloadTooLarge);
                }
                assert(payload@ =~= message_bytes(self@));
            },
        }
        Ok(payload)
    }

    /// Decodes the payload of a frame with opcode `opcode`: `InvalidOpcode`
    /// for opcodes that carry no membership message, `InvalidPayload`
    /// unless the payload is exactly one encoded message.
    pub fn decode(opcode: Opcode, payload: &[u8]) -> (r: Result<MembershipMessage, MembershipCodecError>)
        ensures
            match parse_message(opcode, payload@) {
                Ok(m) => r matches Ok(x) && x@ == m,
                Err(e) => r == Err::<MembershipMessage, MembershipCodecError>(e),
            },
    {
        let mut reader = ByteReader::new(payload);
        let message = match opcode {
            Opcode::Join => match decode_member(&mut reader) {
                Some(m) => MembershipMessage::Join(m),
                None => return Err(MembershipCodecError::InvalidPayload),
            },
            Opcode::MembershipUpdate => match decode_member(&mut reader) {
                Some(m) => MembershipMessage::Update(m),
                None => return Err(MembershipCodecError::InvalidPayload),
            },
            Opcode::JoinAck => {
                let count = match reader.read_u16() {
                    Some(n) => n,
                    None => return Err(MembershipCodecError::InvalidPayload),
                };
                match decode_members(&mut reader, count) {
                    Some(ms) => MembershipMessage::JoinAck(ms),
                    None => return Err(MembershipCodecError::InvalidPayload),
                }
            },
            Opcode::Ping | Opcode::AckPing => {
                let from = match reader.read_string() {
                    Some(s) => s,
                    None => return Err(MembershipCodecError::InvalidPayload),
                };
                let target = match reader.read_string() {
                    Some(s) => s,
                    None => return Err(MembershipCodecError::InvalidPayload),
                };
                if opcode == Opcode::Ping {
                    MembershipMessage::Ping { from, target }
                } else {
                    MembershipMessage::Ack { from, target }
                }
            },
            Opcode::PingReq => {
                let from = match reader.read_string() {
                    Some(s) => s,
                    None => return Err(MembershipCodecError::InvalidPayload),
                };
                let target = match reader.read_string() {
                    Some(s) => s,
                    None => return Err(MembershipCodecError::InvalidPayload),
                };
                let relay = match reader.read_string() {
                    Some(s) => s,
                    None => return Err(MembershipCodecError::InvalidPayload),
                };
                MembershipMessage::PingReq { from, target, relay }
            },
            _ => return Err(MembershipCodecError::InvalidOpcode(opcode)),
        };
        if !reader.is_finished() {
            return Err(MembershipCodecError::InvalidPayload);
        }
        Ok(message)
    }
}


/// The addresses of the members `m` carries, in order.
pub open spec fn message_addrs(m: MessageView) -> Seq<Seq<char>> {
    match m {
        MessageView::Join(x) => seq![x.addr],
        MessageView::Update(x) => seq![x.addr],
        MessageView::JoinAck(ms) => Seq::new(ms.len(), |i: int| ms[i].addr),
        _ => Seq::empty(),
    }
}

/// Every verdict is favourable.
pub open spec fn all_true(v: Seq<bool>) -> bool {
    forall|i: int| 0 <= i < v.len() ==> #[trigger] v[i]
}

impl MembershipMessage {
    /// The addresses of the members this message carries, in order.
    pub fn member_addrs(&self) -> (r: Vec<String>)
        ensures
            super::state::strings_view(r@) == message_addrs(self@),
    {
        let mut r: Vec<String> = Vec::new();
        match self {
            MembershipMessage::Join(m) | MembershipMessage::Update(m) => {
                r.push(m.addr.clone());
                assert(super::state::strings_view(r@) =~= message_addrs(self@));
            },
            MembershipMessage::JoinAck(ms) => {
                let ghost mv = members_view(ms@);
                let mut i: usize = 0;
                while i < ms.len()
                    invariant
                        mv == members_view(ms@),
                        i <= ms@.len(),
                        super::state::strings_view(r@) == Seq::new(i as nat, |j: int| mv[j].addr),
                    decreases ms@.len() - i,
                {
                    let ghost before = r@;
                    let a = ms[i].addr.clone();
                    assert(a@ == mv[i as int].addr);
                    r.push(a);
                    assert(super::state::strings_view(r@) =~= super::state::strings_view(before).push(a@));
                    assert(super::state::strings_view(r@) =~= Seq::new((i + 1) as nat, |j: int| mv[j].addr));
                    i = i + 1;
                }
                assert(self@ == MessageView::JoinAck(mv));
                assert(super::state::strings_view(r@) =~= message_addrs(self@));
            },
            _ => {
                assert(super::state::strings_view(r@) =~= message_addrs(self@));
            },
        }
        r
    }

    /// The message, if every member address it carries is a socket address:
    /// `verdicts[i]` says whether `member_addrs()[i]` is one. Otherwise
    /// `InvalidPayload`, as for any payload that does not decode.
    pub fn check_addresses(self, verdicts: &[bool]) -> (r: Result<MembershipMessage, MembershipCodecError>)
        requires
            verdicts@.len() == message_addrs(self@).len(),
        ensures
            all_true(verdicts@) ==> (r matches Ok(m) && m@ == self@),
            !all_true(verdicts@) ==> r == Err::<MembershipMessage, MembershipCodecError>(
                MembershipCodecError::InvalidPayload,
            ),
    {
        let mut i: usize = 0;
        while i < verdicts.len()
            invariant
                i <= verdicts@.len(),
                forall|j: int| 0 <= j < i ==> #[trigger] verdicts@[j],
            decreases verdicts@.len() - i,
        {
            if !verdicts[i] {
                return Err(MembershipCodecError::InvalidPayload);
            }
            i = i + 1;
        }
        Ok(self)
    }
}

} // verus!
