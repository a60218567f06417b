use crate::codec::WireWrite;
use crate::error::RwError;
use crate::messages::{
    AcknowledgeFinishConfiguration, Handshake, Intent, KnownPack, LoginAcknowledged, LoginStart,
    PingRequest, ServerboundConfigurationMessage, ServerboundKnownPacks, ServerboundLoginMessage,
    ServerboundStatusMessage, StatusRequest, Uuid,
};
use crate::varint::{read_varint, VarInt};
use crate::wire::{
    be_value, read_agrees, read_be, read_i64, read_string, read_string_spec, read_u16,
    read_varint_spec, Decoded,
};
use vstd::prelude::*;

verus! {

/// Strings as they are read: their characters.
pub type Chars = Seq<char>;

/// The view of a known pack: namespace, path name, version.
pub type KnownPackView = (Chars, Chars, Chars);

impl View for KnownPack {
    type V = KnownPackView;

    open spec fn view(&self) -> KnownPackView {
        (self.namespace@, self.pathname@, self.version@)
    }
}

impl View for ServerboundKnownPacks {
    type V = Seq<KnownPackView>;

    open spec fn view(&self) -> Seq<KnownPackView> {
        self.known_packs@.map_values(|k: KnownPack| k@)
    }
}

impl View for Intent {
    type V = Intent;

    open spec fn view(&self) -> Intent {
        *self
    }
}

/// The view of a handshake: protocol version, server address, port, intent.
pub struct HandshakeView {
    pub protocol_version: i32,
    pub server_address: Chars,
    pub server_port: u16,
    pub intent: Intent,
}

impl View for Handshake {
    type V = HandshakeView;

    open spec fn view(&self) -> HandshakeView {
        HandshakeView {
            protocol_version: self.protocol_version@,
            server_address: self.server_address@,
            server_port: self.server_port,
            intent: self.intent,
        }
    }
}

impl View for LoginStart {
    type V = (Chars, u128);

    open spec fn view(&self) -> (Chars, u128) {
        (self.name@, self.id.value)
    }
}

impl View for ServerboundStatusMessage {
    type V = ServerboundStatusMessage;

    open spec fn view(&self) -> ServerboundStatusMessage {
        *self
    }
}

pub enum LoginMessageView {
    LoginStart(Chars, u128),
    LoginAcknowledged,
}

impl View for ServerboundLoginMessage {
    type V = LoginMessageView;

    open spec fn view(&self) -> LoginMessageView {
        match self {
            ServerboundLoginMessage::LoginStart(m) => LoginMessageView::LoginStart(m.name@, m.id.value),
            ServerboundLoginMessage::LoginAcknowledged(_) => LoginMessageView::LoginAcknowledged,
        }
    }
}

pub enum ConfigurationMessageView {
    AcknowledgeFinishConfiguration,
    ServerboundKnownPacks(Seq<KnownPackView>),
}

impl View for ServerboundConfigurationMessage {
    type V = ConfigurationMessageView;

    open spec fn view(&self) -> ConfigurationMessageView {
        match self {
            ServerboundConfigurationMessage::AcknowledgeFinishConfiguration(_) => ConfigurationMessageView::AcknowledgeFinishConfiguration,
            ServerboundConfigurationMessage::ServerboundKnownPacks(m) => ConfigurationMessageView::ServerboundKnownPacks(m@),
        }
    }
}

/// An intent read from its number: 1, 2, 3; any other number is refused.
pub open spec fn read_intent_spec(s: Seq<u8>) -> Decoded<Intent> {
    match read_varint_spec(s) {
        Decoded::Value(v, n) => if v == 1 {
            Decoded::Value(Intent::Status, n)
        } else if v == 2 {
            Decoded::Value(Intent::Login, n)
        } else if v == 3 {
            Decoded::Value(Intent::Transfer, n)
        } else {
            Decoded::Failed(RwError::InvalidEnumDiscriminant(v as u32))
        },
        Decoded::Failed(e) => Decoded::Failed(e),
        Decoded::Aborts => Decoded::Aborts,
    }
}

/// A known pack read as three strings.
pub open spec fn read_known_pack_spec(s: Seq<u8>) -> Decoded<KnownPackView> {
    match read_string_spec(s) {
        Decoded::Value(a, n1) => match read_string_spec(s.skip(n1 as int)) {
            Decoded::Value(b, n2) => match read_string_spec(s.skip((n1 + n2) as int)) {
                Decoded::Value(c, n3) => Decoded::Value((a, b, c), n1 + n2 + n3),
                Decoded::Failed(e) => Decoded::Failed(e),
                Decoded::Aborts => Decoded::Aborts,
            },
            Decoded::Failed(e) => Decoded::Failed(e),
            Decoded::Aborts => Decoded::Aborts,
        },
        Decoded::Failed(e) => Decoded::Failed(e),
        Decoded::Aborts => Decoded::Aborts,
    }
}

/// `count` known packs read one after another.
pub open spec fn read_known_pack_items(s: Seq<u8>, count: nat) -> Decoded<Seq<KnownPackView>>
    decreases count,
{
    if count == 0 {
        Decoded::Value(Seq::empty(), 0)
    } else {
        match read_known_pack_spec(s) {
            Decoded::Value(k, n) => match read_known_pack_items(s.skip(n as int), (count - 1) as nat) {
                Decoded::Value(ks, m) => Decoded::Value(seq![k] + ks, n + m),
                Decoded::Failed(e) => Decoded::Failed(e),
                Decoded::Aborts => Decoded::Aborts,
            },
            Decoded::Failed(e) => Decoded::Failed(e),
            Decoded::Aborts => Decoded::Aborts,
        }
    }
}

/// Known packs read as a VarInt count and that many packs; a negative count
/// makes the reader abort.
pub open spec fn read_known_packs_spec(s: Seq<u8>) -> Decoded<Seq<KnownPackView>> {
    match read_varint_spec(s) {
        Decoded::Value(count, n) => if count < 0 {
            Decoded::Aborts
        } else {
            match read_known_pack_items(s.skip(n as int), count as nat) {
                Decoded::Value(ks, m) => Decoded::Value(ks, n + m),
                Decoded::Failed(e) => Decoded::Failed(e),
                Decoded::Aborts => Decoded::Aborts,
            }
        },
        Decoded::Failed(e) => Decoded::Failed(e),
        Decoded::Aborts => Decoded::Aborts,
    }
}

/// A handshake read field by field: VarInt protocol version, string
/// address, two-byte big-endian port, intent.
pub open spec fn read_handshake_spec(s: Seq<u8>) -> Decoded<HandshakeView> {
    match read_varint_spec(s) {
        Decoded::Value(version, n1) => match read_string_spec(s.skip(n1 as int)) {
            Decoded::Value(address, n2) => match read_be(s.skip((n1 + n2) as int), 2) {
                Decoded::Value(port, n3) => match read_intent_spec(s.skip((n1 + n2 + n3) as int)) {
                    Decoded::Value(intent, n4) => Decoded::Value(
                        HandshakeView {
                            protocol_version: version,
                            server_address: address,
                            server_port: port as u16,
                            intent,
                        },
                        n1 + n2 + n3 + n4,
                    ),
                    Decoded::Failed(e) => Decoded::Failed(e),
                    Decoded::Aborts => Decoded::Aborts,
                },
                Decoded::Failed(e) => Decoded::Failed(e),
                Decoded::Aborts => Decoded::Aborts,
            },
            Decoded::Failed(e) => Decoded::Failed(e),
            Decoded::Aborts => Decoded::Aborts,
        },
        Decoded::Failed(e) => Decoded::Failed(e),
        Decoded::Aborts => Decoded::Aborts,
    }
}

/// A login start read as a string name and a 16-byte big-endian UUID.
pub open spec fn read_login_start_spec(s: Seq<u8>) -> Decoded<(Chars, u128)> {
    match read_string_spec(s) {
        Decoded::Value(name, n1) => match read_be(s.skip(n1 as int), 16) {
            Decoded::Value(id, n2) => Decoded::Value((name, id as u128), n1 + n2),
            Decoded::Failed(e) => Decoded::Failed(e),
            Decoded::Aborts => Decoded::Aborts,
        },
        Decoded::Failed(e) => Decoded::Failed(e),
        Decoded::Aborts => Decoded::Aborts,
    }
}

/// A status packet body: id 0 is a status request, id 1 a ping carrying an
/// eight-byte big-endian timestamp; other ids are refused.
pub open spec fn read_status_message_spec(s: Seq<u8>) -> Decoded<ServerboundStatusMessage> {
    match read_varint_spec(s) {
        Decoded::Value(id, n) => if id == 0 {
            Decoded::Value(ServerboundStatusMessage::StatusRequest(StatusRequest {}), n)
        } else if id == 1 {
            match read_be(s.skip(n as int), 8) {
                Decoded::Value(t, m) => Decoded::Value(
                    ServerboundStatusMessage::PingRequest(
                        PingRequest { timestamp: (t as u64) as i64 },
                    ),
                    n + m,
                ),
                Decoded::Failed(e) => Decoded::Failed(e),
                Decoded::Aborts => Decoded::Aborts,
            }
        } else {
            Decoded::Failed(RwError::InvalidEnumDiscriminant(id as u32))
        },
        Decoded::Failed(e) => Decoded::Failed(e),
        Decoded::Aborts => Decoded::Aborts,
    }
}

/// A login packet body: id 0 is login start, id 3 login acknowledged; other
/// ids are refused.
pub open spec fn read_login_message_spec(s: Seq<u8>) -> Decoded<LoginMessageView> {
    match read_varint_spec(s) {
        Decoded::Value(id, n) => if id == 0 {
            match read_login_start_spec(s.skip(n as int)) {
                Decoded::Value(v, m) => Decoded::Value(LoginMessageView::LoginStart(v.0, v.1), n + m),
                Decoded::Failed(e) => Decoded::Failed(e),
                Decoded::Aborts => Decoded::Aborts,
            }
        } else if id == 3 {
            Decoded::Value(LoginMessageView::LoginAcknowledged, n)
        } else {
            Decoded::Failed(RwError::InvalidEnumDiscriminant(id as u32))
        },
        Decoded::Failed(e) => Decoded::Failed(e),
        Decoded::Aborts => Decoded::Aborts,
    }
}

/// A configuration packet body: id 3 acknowledges the end of configuration,
/// id 7 lists known packs; other ids are refused.
pub open spec fn read_configuration_message_spec(s: Seq<u8>) -> Decoded<ConfigurationMessageView> {
    match read_varint_spec(s) {
        Decoded::Value(id, n) => if id == 3 {
            Decoded::Value(ConfigurationMessageView::AcknowledgeFinishConfiguration, n)
        } else if id == 7 {
            match read_known_packs_spec(s.skip(n as int)) {
                Decoded::Value(v, m) => Decoded::Value(
                    ConfigurationMessageView::ServerboundKnownPacks(v),
                    n + m,
                ),
                Decoded::Failed(e) => Decoded::Failed(e),
                Decoded::Aborts => Decoded::Aborts,
            }
        } else {
            Decoded::Failed(RwError::InvalidEnumDiscriminant(id as u32))
        },
        Decoded::Failed(e) => Decoded::Failed(e),
        Decoded::Aborts => Decoded::Aborts,
    }
}

proof fn lemma_skip_skip(s: Seq<u8>, a: int, b: int)
    requires
        0 <= a,
        0 <= b,
        a + b <= s.len(),
    ensures
        s.skip(a).skip(b) == s.skip(a + b),
{
    assert(s.skip(a).skip(b) =~= s.skip(a + b));
}

impl Intent {
    pub fn read_from(buf: &[u8], pos: usize) -> (res: Result<(Intent, usize), RwError>)
        requires
            pos <= buf@.len(),
            !(read_intent_spec(buf@.skip(pos as int)) is Aborts),
        ensures
            read_agrees(res, pos, read_intent_spec(buf@.skip(pos as int))),
    {
        let (v, p) = read_varint(buf, pos)?;
        let v = v.value();
        if v == 1 {
            Ok((Intent::Status, p))
        } else if v == 2 {
            Ok((Intent::Login, p))
        } else if v == 3 {
            Ok((Intent::Transfer, p))
        } else {
            Err(RwError::InvalidEnumDiscriminant(v as u32))
        }
    }
}

impl KnownPack {
    pub fn read_from(buf: &[u8], pos: usize) -> (res: Result<(KnownPack, usize), RwError>)
        requires
            pos <= buf@.len(),
            !(read_known_pack_spec(buf@.skip(pos as int)) is Aborts),
        ensures
            read_agrees(res, pos, read_known_pack_spec(buf@.skip(pos as int))),
            res matches Ok((_, p)) ==> p <= buf@.len(),
    {
        let ghost s = buf@.skip(pos as int);
        let (namespace, p1) = read_string(buf, pos)?;
        proof {
            lemma_read_string_within(buf, pos);
            lemma_skip_skip(buf@, pos as int, p1 - pos);
        }
        let (pathname, p2) = read_string(buf, p1)?;
        proof {
            lemma_read_string_within(buf, p1);
            lemma_skip_skip(buf@, pos as int, p2 - pos);
        }
        let (version, p3) = read_string(buf, p2)?;
        proof {
            lemma_read_string_within(buf, p2);
        }
        Ok((KnownPack { namespace, pathname, version }, p3))
    }
}

/// A string read at `pos` ends within the input.
proof fn lemma_read_string_within(buf: &[u8], pos: usize)
    requires
        pos <= buf@.len(),
    ensures
        read_string_spec(buf@.skip(pos as int)) matches Decoded::Value(_, n) ==> pos + n
            <= buf@.len(),
{
    let s = buf@.skip(pos as int);
    crate::wire::lemma_read_string_len(s);
}

impl ServerboundKnownPacks {
    pub fn read_from(buf: &[u8], pos: usize) -> (res: Result<(ServerboundKnownPacks, usize), RwError>)
        requires
            pos <= buf@.len(),
            !(read_known_packs_spec(buf@.skip(pos as int)) is Aborts),
        ensures
            read_agrees(res, pos, read_known_packs_spec(buf@.skip(pos as int))),
    {
        let ghost s = buf@.skip(pos as int);
        let (count, p0) = read_varint(buf, pos)?;
        let count = count.value();
        let count = count as usize;
        let mut known_packs: Vec<KnownPack> = Vec::new();
        let mut p = p0;
        let mut i: usize = 0;
        proof {
            lemma_skip_skip(buf@, pos as int, p0 - pos);
        }
        while i < count
            invariant
                pos <= p0 <= p <= buf@.len(),
                i <= count,
                s == buf@.skip(pos as int),
                read_varint_spec(s) matches Decoded::Value(c, n) && c as int == count as int && p0
                    == pos + n,
                !(read_known_packs_spec(s) is Aborts),
                known_packs@.len() == i,
                read_known_pack_items(s.skip(p0 - pos), count as nat) == prepend_packs(
                    known_packs@.map_values(|k: KnownPack| k@),
                    (p - p0) as nat,
                    read_known_pack_items(buf@.skip(p as int), (count - i) as nat),
                ),
            decreases count - i,
        {
            proof {
                lemma_prepend_unfold(buf@.skip(p as int), (count - i) as nat);
                lemma_prepend_not_aborts(
                    known_packs@.map_values(|k: KnownPack| k@),
                    (p - p0) as nat,
                    read_known_pack_items(buf@.skip(p as int), (count - i) as nat),
                );
            }
            let ghost before = known_packs@.map_values(|k: KnownPack| k@);
            let (pack, q) = match KnownPack::read_from(buf, p) {
                Ok(r) => r,
                Err(e) => {
                    return Err(e);
                },
            };
            proof {
                lemma_skip_skip(buf@, p as int, q - p);
            }
            known_packs.push(pack);
            proof {
                assert(known_packs@.map_values(|k: KnownPack| k@) =~= before.push(pack@));
                lemma_prepend_step(
                    before,
                    pack@,
                    (p - p0) as nat,
                    (q - p) as nat,
                    read_known_pack_items(buf@.skip(q as int), (count - i - 1) as nat),
                );
            }
            p = q;
            i = i + 1;
        }
        proof {
            assert(known_packs@.map_values(|k: KnownPack| k@).len() == count);
        }
        Ok((ServerboundKnownPacks { known_packs }, p))
    }
}

/// Known packs already read, followed by what reading the rest gives.
pub open spec fn prepend_packs(
    done: Seq<KnownPackView>,
    consumed: nat,
    rest: Decoded<Seq<KnownPackView>>,
) -> Decoded<Seq<KnownPackView>> {
    match rest {
        Decoded::Value(ks, m) => Decoded::Value(done + ks, consumed + m),
        Decoded::Failed(e) => Decoded::Failed(e),
        Decoded::Aborts => Decoded::Aborts,
    }
}

proof fn lemma_prepend_unfold(s: Seq<u8>, count: nat)
    requires
        count > 0,
    ensures
        read_known_pack_items(s, count) == match read_known_pack_spec(s) {
            Decoded::Value(k, n) => prepend_packs(
                seq![k],
                n,
                read_known_pack_items(s.skip(n as int), (count - 1) as nat),
            ),
            Decoded::Failed(e) => Decoded::Failed(e),
            Decoded::Aborts => Decoded::Aborts,
        },
{
}

proof fn lemma_prepend_not_aborts(
    done: Seq<KnownPackView>,
    consumed: nat,
    rest: Decoded<Seq<KnownPackView>>,
)
    ensures
        (prepend_packs(done, consumed, rest) is Aborts) == (rest is Aborts),
        rest matches Decoded::Failed(e) ==> prepend_packs(done, consumed, rest) == Decoded::<
            Seq<KnownPackView>,
        >::Failed(e),
{
}

proof fn lemma_prepend_step(
    done: Seq<KnownPackView>,
    k: KnownPackView,
    consumed: nat,
    n: nat,
    rest: Decoded<Seq<KnownPackView>>,
)
    ensures
        prepend_packs(done, consumed, prepend_packs(seq![k], n, rest)) == prepend_packs(
            done.push(k),
            consumed + n,
            rest,
        ),
{
    match rest {
        Decoded::Value(ks, m) => {
            assert(done + (seq![k] + ks) =~= done.push(k) + ks);
        },
        _ => {},
    }
}

impl Handshake {
    pub fn read_from(buf: &[u8], pos: usize) -> (res: Result<(Handshake, usize), RwError>)
        requires
            pos <= buf@.len(),
            !(read_handshake_spec(buf@.skip(pos as int)) is Aborts),
        ensures
            read_agrees(res, pos, read_handshake_spec(buf@.skip(pos as int))),
    {
        let (protocol_version, p1) = read_varint(buf, pos)?;
        proof {
            lemma_skip_skip(buf@, pos as int, p1 - pos);
        }
        let (server_address, p2) = read_string(buf, p1)?;
        proof {
            lemma_read_string_within(buf, p1);
            lemma_skip_skip(buf@, pos as int, p2 - pos);
        }
        let (server_port, p3) = read_u16(buf, p2)?;
        proof {
            lemma_skip_skip(buf@, pos as int, p3 - pos);
        }
        let (intent, p4) = Intent::read_from(buf, p3)?;
        Ok((Handshake { protocol_version, server_address, server_port, intent }, p4))
    }
}

/// Reads 16 bytes as a big-endian number.
fn read_u128(buf: &[u8], pos: usize) -> (res: Result<(u128, usize), RwError>)
    requires
        pos <= buf@.len(),
    ensures
        match read_be(buf@.skip(pos as int), 16) {
            Decoded::Value(v, k) => res matches Ok((r, p)) && r == v && p == pos + k,
            Decoded::Failed(e) => res == Err::<(u128, usize), RwError>(e),
            Decoded::Aborts => false,
        },
{
    let ghost s = buf@.skip(pos as int);
    if buf.len() - pos < 16 {
        return Err(RwError::UnexpectedEof);
    }
    let mut acc: u128 = 0;
    let mut i: usize = 0;
    proof {
        assert(s.take(0) =~= Seq::<u8>::empty());
    }
    while i < 16
        invariant
            i <= 16,
            pos + 16 <= buf.len(),
            buf.len() == buf@.len(),
            s == buf@.skip(pos as int),
            acc == be_value(s.take(i as int)),
            acc < crate::wire::pow256(i as nat),
        decreases 16 - i,
    {
        proof {
            assert(s.take(i as int + 1).drop_last() =~= s.take(i as int));
            crate::wire::lemma_pow256_16(i as nat);
            let a = acc as nat;
            let p = crate::wire::pow256(i as nat);
            let b = s[i as int] as nat;
            assert(a * 256 + b < 256 * p) by (nonlinear_arith)
                requires
                    a < p,
                    b < 256,
            ;
        }
        acc = acc * 256 + buf[pos + i] as u128;
        i = i + 1;
    }
    Ok((acc, pos + 16))
}

impl LoginStart {
    pub fn read_from(buf: &[u8], pos: usize) -> (res: Result<(LoginStart, usize), RwError>)
        requires
            pos <= buf@.len(),
            !(read_login_start_spec(buf@.skip(pos as int)) is Aborts),
        ensures
            read_agrees(res, pos, read_login_start_spec(buf@.skip(pos as int))),
    {
        let (name, p1) = read_string(buf, pos)?;
        proof {
            lemma_read_string_within(buf, pos);
            lemma_skip_skip(buf@, pos as int, p1 - pos);
        }
        let (id, p2) = read_u128(buf, p1)?;
        Ok((LoginStart { name, id: Uuid { value: id } }, p2))
    }
}

impl ServerboundStatusMessage {
    /// Reads a status packet body (packet id, then payload).
    pub fn read_from(body: &[u8], pos: usize) -> (res: Result<(ServerboundStatusMessage, usize), RwError>)
        requires
            pos <= body@.len(),
            !(read_status_message_spec(body@.skip(pos as int)) is Aborts),
        ensures
            read_agrees(res, pos, read_status_message_spec(body@.skip(pos as int))),
    {
        let (id, p) = read_varint(body, pos)?;
        let id = id.value();
        proof {
            lemma_skip_skip(body@, pos as int, p - pos);
        }
        if id == 0 {
            Ok((ServerboundStatusMessage::StatusRequest(StatusRequest {}), p))
        } else if id == 1 {
            let (timestamp, q) = read_i64(body, p)?;
            Ok((ServerboundStatusMessage::PingRequest(PingRequest { timestamp }), q))
        } else {
            Err(RwError::InvalidEnumDiscriminant(id as u32))
        }
    }
}

impl ServerboundLoginMessage {
    /// Reads a login packet body (packet id, then payload).
    pub fn read_from(body: &[u8], pos: usize) -> (res: Result<(ServerboundLoginMessage, usize), RwError>)
        requires
            pos <= body@.len(),
            !(read_login_message_spec(body@.skip(pos as int)) is Aborts),
        ensures
            read_agrees(res, pos, read_login_message_spec(body@.skip(pos as int))),
    {
        let (id, p) = read_varint(body, pos)?;
        let id = id.value();
        proof {
            lemma_skip_skip(body@, pos as int, p - pos);
        }
        if id == 0 {
            let (m, q) = LoginStart::read_from(body, p)?;
            Ok((ServerboundLoginMessage::LoginStart(m), q))
        } else if id == 3 {
            Ok((ServerboundLoginMessage::LoginAcknowledged(LoginAcknowledged {}), p))
        } else {
            Err(RwError::InvalidEnumDiscriminant(id as u32))
        }
    }
}

impl ServerboundConfigurationMessage {
    /// Reads a configuration packet body (packet id, then payload).
    pub fn read_from(body: &[u8], pos: usize) -> (res: Result<(ServerboundConfigurationMessage, usize), RwError>)
        requires
            pos <= body@.len(),
            !(read_configuration_message_spec(body@.skip(pos as int)) is Aborts),
        ensures
            read_agrees(res, pos, read_configuration_message_spec(body@.skip(pos as int))),
    {
        let (id, p) = read_varint(body, pos)?;
        let id = id.value();
        proof {
            lemma_skip_skip(body@, pos as int, p - pos);
        }
        if id == 3 {
            Ok((
                ServerboundConfigurationMessage::AcknowledgeFinishConfiguration(
                    AcknowledgeFinishConfiguration {},
                ),
                p,
            ))
        } else if id == 7 {
            let (m, q) = ServerboundKnownPacks::read_from(body, p)?;
            Ok((ServerboundConfigurationMessage::ServerboundKnownPacks(m), q))
        } else {
            Err(RwError::InvalidEnumDiscriminant(id as u32))
        }
    }
}

/// Law: a known pack written to the wire reads back as the same pack,
/// taking exactly the bytes written.
pub proof fn lemma_known_pack_roundtrip(k: KnownPack, rest: Seq<u8>)
    requires
        k.wire_writable(),
    ensures
        read_known_pack_spec(k.wire_bytes() + rest) == Decoded::Value(k@, k.wire_bytes().len()),
{
    let a = k.namespace.wire_bytes();
    let b = k.pathname.wire_bytes();
    let c = k.version.wire_bytes();
    let s = k.wire_bytes() + rest;
    assert(s =~= a + (b + c + rest));
    crate::wire::lemma_string_roundtrip(k.namespace@, b + c + rest);
    assert(s.skip(a.len() as int) =~= b + (c + rest));
    crate::wire::lemma_string_roundtrip(k.pathname@, c + rest);
    assert(s.skip((a.len() + b.len()) as int) =~= c + rest);
    crate::wire::lemma_string_roundtrip(k.version@, rest);
}


/// Whether reading a VarInt at `pos` would run past its fifth byte, where
/// the reader aborts.
pub fn varint_aborts(buf: &[u8], pos: usize) -> (r: bool)
    requires
        pos <= buf@.len(),
    ensures
        r == !crate::varint::varint_readable(buf@.skip(pos as int)),
{
    let ghost s = buf@.skip(pos as int);
    if buf.len() - pos <= 5 {
        return false;
    }
    let r = buf[pos] >= 128 && buf[pos + 1] >= 128 && buf[pos + 2] >= 128 && buf[pos + 3] >= 128
        && buf[pos + 4] >= 128;
    proof {
        if !r {
            let i = if buf@[pos as int] < 128 {
                0
            } else if buf@[pos + 1] < 128 {
                1
            } else if buf@[pos + 2] < 128 {
                2
            } else if buf@[pos + 3] < 128 {
                3
            } else {
                4int
            };
            assert(s[i] < 128);
        } else {
            assert forall|i: int| 0 <= i < 5 implies s[i] >= 128 by {
                assert(s[i] == buf@[pos + i]);
            }
        }
    }
    r
}

/// Whether reading a string at `pos` would abort: its length is a VarInt
/// that runs too long, or is negative.
pub fn string_aborts(buf: &[u8], pos: usize) -> (r: bool)
    requires
        pos <= buf@.len(),
    ensures
        r == (read_string_spec(buf@.skip(pos as int)) is Aborts),
{
    if varint_aborts(buf, pos) {
        return true;
    }
    match read_varint(buf, pos) {
        Err(_) => false,
        Ok((len, _)) => len.value() < 0,
    }
}

/// Whether reading a handshake at `pos` would abort.
pub fn handshake_aborts(buf: &[u8], pos: usize) -> (r: bool)
    requires
        pos <= buf@.len(),
    ensures
        r == (read_handshake_spec(buf@.skip(pos as int)) is Aborts),
{
    if varint_aborts(buf, pos) {
        return true;
    }
    let p1 = match read_varint(buf, pos) {
        Err(_) => return false,
        Ok((_, p)) => p,
    };
    proof {
        lemma_skip_skip(buf@, pos as int, p1 - pos);
    }
    if string_aborts(buf, p1) {
        return true;
    }
    let p2 = match read_string(buf, p1) {
        Err(_) => return false,
        Ok((_, p)) => p,
    };
    proof {
        lemma_read_string_within(buf, p1);
        lemma_skip_skip(buf@, pos as int, p2 - pos);
    }
    let p3 = match read_u16(buf, p2) {
        Err(_) => return false,
        Ok((_, p)) => p,
    };
    proof {
        lemma_skip_skip(buf@, pos as int, p3 - pos);
    }
    varint_aborts(buf, p3)
}

/// Whether reading a status packet body would abort.
pub fn status_body_aborts(body: &[u8]) -> (r: bool)
    ensures
        r == (read_status_message_spec(body@) is Aborts),
{
    proof {
        assert(body@.skip(0) =~= body@);
    }
    varint_aborts(body, 0)
}

/// Whether reading a login packet body would abort.
pub fn login_body_aborts(body: &[u8]) -> (r: bool)
    ensures
        r == (read_login_message_spec(body@) is Aborts),
{
    proof {
        assert(body@.skip(0) =~= body@);
    }
    if varint_aborts(body, 0) {
        return true;
    }
    match read_varint(body, 0) {
        Err(_) => false,
        Ok((id, p)) => {
            proof {
                lemma_skip_skip(body@, 0, p as int);
            }
            if id.value() == 0 {
                string_aborts(body, p)
            } else {
                false
            }
        },
    }
}

/// Whether reading a known pack at `pos` would abort.
fn known_pack_aborts(buf: &[u8], pos: usize) -> (r: bool)
    requires
        pos <= buf@.len(),
    ensures
        r == (read_known_pack_spec(buf@.skip(pos as int)) is Aborts),
{
    if string_aborts(buf, pos) {
        return true;
    }
    let p1 = match read_string(buf, pos) {
        Err(_) => return false,
        Ok((_, p)) => p,
    };
    proof {
        lemma_read_string_within(buf, pos);
        lemma_skip_skip(buf@, pos as int, p1 - pos);
    }
    if string_aborts(buf, p1) {
        return true;
    }
    let p2 = match read_string(buf, p1) {
        Err(_) => return false,
        Ok((_, p)) => p,
    };
    proof {
        lemma_read_string_within(buf, p1);
        lemma_skip_skip(buf@, pos as int, p2 - pos);
    }
    string_aborts(buf, p2)
}

/// Whether reading known packs at `pos` would abort.
#[verifier::spinoff_prover]
#[verifier::rlimit(40)]
fn known_packs_aborts(buf: &[u8], pos: usize) -> (r: bool)
    requires
        pos <= buf@.len(),
    ensures
        r == (read_known_packs_spec(buf@.skip(pos as int)) is Aborts),
{
    let ghost s = buf@.skip(pos as int);
    if varint_aborts(buf, pos) {
        return true;
    }
    let (count, p0) = match read_varint(buf, pos) {
        Err(_) => return false,
        Ok(r) => r,
    };
    let count = count.value();
    if count < 0 {
        return true;
    }
    let count = count as usize;
    proof {
        lemma_skip_skip(buf@, pos as int, p0 - pos);
    }
    let mut p = p0;
    let mut i: usize = 0;
    let ghost done: Seq<KnownPackView> = Seq::empty();
    while i < count
        invariant
            pos <= p0 <= p <= buf@.len(),
            i <= count,
            s == buf@.skip(pos as int),
            read_varint_spec(s) matches Decoded::Value(c, n) && c >= 0 && c as int == count as int
                && p0 == pos + n,
            read_known_pack_items(s.skip(p0 - pos), count as nat) == prepend_packs(
                done,
                (p - p0) as nat,
                read_known_pack_items(buf@.skip(p as int), (count - i) as nat),
            ),
        decreases count - i,
    {
        proof {
            lemma_prepend_unfold(buf@.skip(p as int), (count - i) as nat);
            lemma_prepend_not_aborts(
                done,
                (p - p0) as nat,
                read_known_pack_items(buf@.skip(p as int), (count - i) as nat),
            );
        }
        if known_pack_aborts(buf, p) {
            return true;
        }
        let q = match KnownPack::read_from(buf, p) {
            Err(_) => return false,
            Ok((pack, q)) => {
                proof {
                    lemma_skip_skip(buf@, p as int, q - p);
                    lemma_prepend_step(
                        done,
                        pack@,
                        (p - p0) as nat,
                        (q - p) as nat,
                        read_known_pack_items(buf@.skip(q as int), (count - i - 1) as nat),
                    );
                    done = done.push(pack@);
                }
                q
            },
        };
        p = q;
        i = i + 1;
    }
    false
}

/// Whether reading a configuration packet body would abort.
pub fn configuration_body_aborts(body: &[u8]) -> (r: bool)
    ensures
        r == (read_configuration_message_spec(body@) is Aborts),
{
    proof {
        assert(body@.skip(0) =~= body@);
    }
    if varint_aborts(body, 0) {
        return true;
    }
    match read_varint(body, 0) {
        Err(_) => false,
        Ok((id, p)) => {
            proof {
                lemma_skip_skip(body@, 0, p as int);
            }
            if id.value() == 7 {
                known_packs_aborts(body, p)
            } else {
                false
            }
        },
    }
}


proof fn lemma_be_bytes_value(v: nat, n: nat)
    ensures
        crate::messages::be_bytes(v, n).len() == n,
        be_value(crate::messages::be_bytes(v, n)) == v % crate::messages::pow256_u(n),
    decreases n,
{
    if n > 0 {
        lemma_be_bytes_value(v / 256, (n - 1) as nat);
        let p = crate::messages::pow256_u((n - 1) as nat);
        assert(p > 0) by {
            lemma_pow256_u_positive((n - 1) as nat);
        }
        let s = crate::messages::be_bytes(v, n);
        assert(s.drop_last() =~= crate::messages::be_bytes(v / 256, (n - 1) as nat));
        vstd::arithmetic::div_mod::lemma_breakdown(v as int, 256, p as int);
    } else {
        assert(v % 1 == 0);
    }
}

proof fn lemma_pow256_u_positive(n: nat)
    ensures
        crate::messages::pow256_u(n) > 0,
    decreases n,
{
    if n > 0 {
        lemma_pow256_u_positive((n - 1) as nat);
    }
}

/// Law: a UUID written to the wire (sixteen bytes, most significant first)
/// reads back as the same UUID, as a login start reads it.
pub proof fn lemma_uuid_roundtrip(u: Uuid, rest: Seq<u8>)
    ensures
        read_be(u.wire_bytes() + rest, 16) == Decoded::Value(u.value as nat, 16),
{
    let b = crate::messages::be_bytes(u.value as nat, 16);
    lemma_be_bytes_value(u.value as nat, 16);
    assert((b + rest).take(16) =~= b);
    assert(crate::messages::pow256_u(16) == 0x1_0000_0000_0000_0000_0000_0000_0000_0000) by {
        reveal_with_fuel(crate::messages::pow256_u, 17);
    }
}

} // verus!
