use crate::bitset::BitSet;
use crate::chunk::Chunk;
use crate::codec::{packet_bytes, write_packet, WireWrite};
use crate::identifier::Identifier;
use crate::position::Position;
use crate::varint::{varint_bytes, VarInt};
use crate::wire::le_bytes;
use vstd::prelude::*;

verus! {

/// A packet's id and payload, written as a length-prefixed packet.
pub open spec fn packet_writable(id: i32, payload: Seq<u8>) -> bool {
    id >= 0 && varint_bytes(id as nat).len() + payload.len() <= i32::MAX
}

/// Writes `payload` as the body of packet `id`.
fn write_payload_packet<T: WireWrite>(id: i32, payload: &T, out: &mut Vec<u8>)
    requires
        payload.wire_writable(),
        packet_writable(id, payload.wire_bytes()),
    ensures
        final(out)@ == old(out)@ + packet_bytes(id, payload.wire_bytes()),
{
    let mut body: Vec<u8> = Vec::new();
    payload.write_into(&mut body);
    assert(body@ =~= payload.wire_bytes());
    write_packet(id, body.as_slice(), out);
}

// ---------------------------------------------------------------- status

/// Serverbound: asks for the server status.
#[derive(Debug, Clone, Copy, PartialEq, Eq, Structural)]
pub struct StatusRequest {}

#[derive(Debug, Clone, Copy, PartialEq, Eq, Structural)]
pub struct PingRequest {
    pub timestamp: i64,
}

#[derive(Debug, Clone, Copy, PartialEq, Eq, Structural)]
pub enum ServerboundStatusMessage {
    StatusRequest(StatusRequest),
    PingRequest(PingRequest),
}

#[derive(Debug, Clone, Copy, PartialEq, Eq, Structural)]
pub struct PongResponse {
    pub timestamp: i64,
}

/// The status reply; `json_response` is the JSON text of a `StatusData`.
#[derive(Debug, Clone)]
pub struct StatusResponse {
    pub json_response: String,
}

#[derive(Debug, Clone)]
pub enum ClientboundStatusMessage {
    StatusResponse(StatusResponse),
    PongResponse(PongResponse),
}

/// What the status JSON says about the server.
#[derive(Debug, Clone)]
pub struct StatusData {
    pub version: VersionInfo,
    pub players: PlayerInfo,
    pub description: Description,
    pub favicon: Option<String>,
    pub enforces_secure_chat: bool,
}

#[derive(Debug, Clone)]
pub struct VersionInfo {
    pub name: String,
    pub protocol: u32,
}

#[derive(Debug, Clone)]
pub struct PlayerInfo {
    pub max: u32,
    pub online: u32,
    pub sample: Vec<PlayerSample>,
}

#[derive(Debug, Clone)]
pub struct PlayerSample {
    pub name: String,
    pub id: String,
}

#[derive(Debug, Clone)]
pub struct Description {
    pub text: String,
}

impl WireWrite for PongResponse {
    open spec fn wire_writable(&self) -> bool {
        true
    }

    open spec fn wire_bytes(&self) -> Seq<u8> {
        self.timestamp.wire_bytes()
    }

    fn write_into(&self, out: &mut Vec<u8>) {
        self.timestamp.write_into(out);
    }
}

impl WireWrite for PingRequest {
    open spec fn wire_writable(&self) -> bool {
        true
    }

    open spec fn wire_bytes(&self) -> Seq<u8> {
        self.timestamp.wire_bytes()
    }

    fn write_into(&self, out: &mut Vec<u8>) {
        self.timestamp.write_into(out);
    }
}

impl WireWrite for StatusResponse {
    open spec fn wire_writable(&self) -> bool {
        self.json_response.wire_writable()
    }

    open spec fn wire_bytes(&self) -> Seq<u8> {
        self.json_response.wire_bytes()
    }

    fn write_into(&self, out: &mut Vec<u8>) {
        self.json_response.write_into(out);
    }
}

impl WireWrite for ClientboundStatusMessage {
    open spec fn wire_writable(&self) -> bool {
        match self {
            ClientboundStatusMessage::StatusResponse(m) => m.wire_writable() && packet_writable(
                0x00,
                m.wire_bytes(),
            ),
            ClientboundStatusMessage::PongResponse(m) => packet_writable(0x01, m.wire_bytes()),
        }
    }

    /// Status response is packet 0x00, pong response packet 0x01.
    open spec fn wire_bytes(&self) -> Seq<u8> {
        match self {
            ClientboundStatusMessage::StatusResponse(m) => packet_bytes(0x00, m.wire_bytes()),
            ClientboundStatusMessage::PongResponse(m) => packet_bytes(0x01, m.wire_bytes()),
        }
    }

    fn write_into(&self, out: &mut Vec<u8>) {
        match self {
            ClientboundStatusMessage::StatusResponse(m) => write_payload_packet(0x00, m, out),
            ClientboundStatusMessage::PongResponse(m) => write_payload_packet(0x01, m, out),
        }
    }
}

// ------------------------------------------------------------ handshaking

/// What the client intends after the handshake.
#[derive(Debug, Clone, Copy, PartialEq, Eq, Structural)]
pub enum Intent {
    Status,
    Login,
    Transfer,
}

#[derive(Debug, Clone)]
pub struct Handshake {
    pub protocol_version: VarInt,
    pub server_address: String,
    pub server_port: u16,
    pub intent: Intent,
}

pub enum ServerboundHandshakingMessage {
    Handshake(Handshake),
}

impl Intent {
    /// The intent's number on the wire.
    pub open spec fn spec_number(self) -> i32 {
        match self {
            Intent::Status => 1,
            Intent::Login => 2,
            Intent::Transfer => 3,
        }
    }

    pub fn number(&self) -> (r: i32)
        ensures
            r == self.spec_number(),
    {
        match self {
            Intent::Status => 1,
            Intent::Login => 2,
            Intent::Transfer => 3,
        }
    }
}

impl WireWrite for Intent {
    open spec fn wire_writable(&self) -> bool {
        true
    }

    open spec fn wire_bytes(&self) -> Seq<u8> {
        varint_bytes(self.spec_number() as nat)
    }

    fn write_into(&self, out: &mut Vec<u8>) {
        VarInt::new(self.number()).write_into(out);
    }
}

impl WireWrite for Handshake {
    open spec fn wire_writable(&self) -> bool {
        self.protocol_version.wire_writable() && self.server_address.wire_writable()
    }

    open spec fn wire_bytes(&self) -> Seq<u8> {
        self.protocol_version.wire_bytes() + self.server_address.wire_bytes()
            + self.server_port.wire_bytes() + self.intent.wire_bytes()
    }

    fn write_into(&self, out: &mut Vec<u8>) {
        self.protocol_version.write_into(out);
        self.server_address.write_into(out);
        self.server_port.write_into(out);
        self.intent.write_into(out);
        assert(final(out)@ =~= old(out)@ + self.wire_bytes());
    }
}

// ------------------------------------------------------------------ login

/// A player's profile.
#[derive(Debug, Clone)]
pub struct GameProfile {
    pub id: Uuid,
    pub name: String,
    pub properties: Vec<Property>,
}

#[derive(Debug, Clone)]
pub struct Property {
    pub name: String,
    pub value: String,
    pub signature: Option<String>,
}

/// A UUID as a 128-bit number; on the wire its 16 bytes, most significant
/// first.
#[derive(Debug, Clone, Copy, PartialEq, Eq, Structural)]
pub struct Uuid {
    pub value: u128,
}

/// `n` bytes of `v`, most significant first.
pub open spec fn be_bytes(v: nat, n: nat) -> Seq<u8>
    decreases n,
{
    if n == 0 {
        Seq::empty()
    } else {
        be_bytes(v / 256, (n - 1) as nat).push((v % 256) as u8)
    }
}

impl WireWrite for Uuid {
    open spec fn wire_writable(&self) -> bool {
        true
    }

    open spec fn wire_bytes(&self) -> Seq<u8> {
        be_bytes(self.value as nat, 16)
    }

    fn write_into(&self, out: &mut Vec<u8>) {
        let ghost start = out@;
        let mut i: usize = 16;
        proof {
            lemma_be_bytes_zero(self.value as nat / pow256_u(16));
        }
        assert(out@ =~= start + be_bytes(self.value as nat / pow256_u(16), 0));
        while i > 0
            invariant
                i <= 16,
                out@ == start + be_bytes(self.value as nat / pow256_u(i as nat), (16 - i) as nat),
            decreases i,
        {
            let ghost before = out@;
            i = i - 1;
            let shifted = shift_down_bytes(self.value, i);
            out.push((shifted % 256) as u8);
            proof {
                lemma_pow256_u_succ(i as nat);
                let v = self.value as nat;
                let p = pow256_u(i as nat);
                assert(v / (256 * p) == (v / p) / 256) by {
                    vstd::arithmetic::div_mod::lemma_div_denominator(v as int, p as int, 256);
                    vstd::arithmetic::mul::lemma_mul_is_commutative(p as int, 256);
                }
            }
            assert(out@ =~= start + be_bytes(self.value as nat / pow256_u(i as nat), (16 - i) as nat));
        }
        assert(pow256_u(0) == 1);
        assert(self.value as nat / pow256_u(0) == self.value as nat);
    }
}

proof fn lemma_be_bytes_zero(v: nat)
    ensures
        be_bytes(v, 0) == Seq::<u8>::empty(),
{
}

/// 256 to the power `n`, for byte shifts.
pub open spec fn pow256_u(n: nat) -> nat
    decreases n,
{
    if n == 0 {
        1
    } else {
        256 * pow256_u((n - 1) as nat)
    }
}

proof fn lemma_pow256_u_succ(n: nat)
    ensures
        pow256_u(n + 1) == 256 * pow256_u(n),
        pow256_u(n) > 0,
    decreases n,
{
    if n > 0 {
        lemma_pow256_u_succ((n - 1) as nat);
    }
}

/// `v` shifted down by `i` bytes.
fn shift_down_bytes(v: u128, i: usize) -> (r: u128)
    requires
        i < 16,
    ensures
        r == v as nat / pow256_u(i as nat),
{
    let mut r = v;
    let mut k: usize = 0;
    assert(pow256_u(0) == 1);
    while k < i
        invariant
            k <= i,
            r == v as nat / pow256_u(k as nat),
        decreases i - k,
    {
        proof {
            lemma_pow256_u_succ(k as nat);
            vstd::arithmetic::div_mod::lemma_div_denominator(
                v as int,
                pow256_u(k as nat) as int,
                256,
            );
        }
        r = r / 256;
        k = k + 1;
    }
    r
}

impl WireWrite for Property {
    open spec fn wire_writable(&self) -> bool {
        self.name.wire_writable() && self.value.wire_writable() && self.signature.wire_writable()
    }

    open spec fn wire_bytes(&self) -> Seq<u8> {
        self.name.wire_bytes() + self.value.wire_bytes() + self.signature.wire_bytes()
    }

    fn write_into(&self, out: &mut Vec<u8>) {
        self.name.write_into(out);
        self.value.write_into(out);
        self.signature.write_into(out);
        assert(final(out)@ =~= old(out)@ + self.wire_bytes());
    }
}

impl WireWrite for GameProfile {
    open spec fn wire_writable(&self) -> bool {
        self.name.wire_writable() && self.properties.wire_writable()
    }

    open spec fn wire_bytes(&self) -> Seq<u8> {
        self.id.wire_bytes() + self.name.wire_bytes() + self.properties.wire_bytes()
    }

    fn write_into(&self, out: &mut Vec<u8>) {
        self.id.write_into(out);
        self.name.write_into(out);
        self.properties.write_into(out);
        assert(final(out)@ =~= old(out)@ + self.wire_bytes());
    }
}

#[derive(Debug, Clone)]
pub struct LoginStart {
    pub name: String,
    pub id: Uuid,
}

#[derive(Debug, Clone, Copy, PartialEq, Eq, Structural)]
pub struct LoginAcknowledged {}

#[derive(Debug, Clone)]
pub enum ServerboundLoginMessage {
    LoginStart(LoginStart),
    LoginAcknowledged(LoginAcknowledged),
}

#[derive(Debug, Clone)]
pub struct LoginSuccess {
    pub profile: GameProfile,
}

#[derive(Debug, Clone)]
pub enum ClientboundLoginMessage {
    LoginSuccess(LoginSuccess),
}

impl WireWrite for LoginSuccess {
    open spec fn wire_writable(&self) -> bool {
        self.profile.wire_writable()
    }

    open spec fn wire_bytes(&self) -> Seq<u8> {
        self.profile.wire_bytes()
    }

    fn write_into(&self, out: &mut Vec<u8>) {
        self.profile.write_into(out);
    }
}

impl WireWrite for ClientboundLoginMessage {
    open spec fn wire_writable(&self) -> bool {
        match self {
            ClientboundLoginMessage::LoginSuccess(m) => m.wire_writable() && packet_writable(
                0x02,
                m.wire_bytes(),
            ),
        }
    }

    /// Login success is packet 0x02.
    open spec fn wire_bytes(&self) -> Seq<u8> {
        match self {
            ClientboundLoginMessage::LoginSuccess(m) => packet_bytes(0x02, m.wire_bytes()),
        }
    }

    fn write_into(&self, out: &mut Vec<u8>) {
        match self {
            ClientboundLoginMessage::LoginSuccess(m) => write_payload_packet(0x02, m, out),
        }
    }
}

// ---------------------------------------------------------- configuration

/// NBT in its network encoding, written as it is.
#[derive(Debug, Clone)]
pub struct NetworkNbt {
    pub bytes: Vec<u8>,
}

impl WireWrite for NetworkNbt {
    open spec fn wire_writable(&self) -> bool {
        true
    }

    open spec fn wire_bytes(&self) -> Seq<u8> {
        self.bytes@
    }

    fn write_into(&self, out: &mut Vec<u8>) {
        let ghost start = out@;
        let mut i: usize = 0;
        while i < self.bytes.len()
            invariant
                i <= self.bytes@.len(),
                out@ == start + self.bytes@.take(i as int),
            decreases self.bytes@.len() - i,
        {
            out.push(self.bytes[i]);
            i = i + 1;
            assert(out@ =~= start + self.bytes@.take(i as int));
        }
        assert(self.bytes@.take(self.bytes@.len() as int) =~= self.bytes@);
    }
}

#[derive(Debug, Clone, Copy, PartialEq, Eq, Structural)]
pub struct FinishConfiguration {}

#[derive(Debug, Clone)]
pub struct RegistryData {
    pub registry_id: Identifier,
    pub entries: Vec<RegistryEntry>,
}

#[derive(Debug, Clone)]
pub struct RegistryEntry {
    pub entry_id: Identifier,
    pub nbt: Option<NetworkNbt>,
}

impl RegistryData {
    pub fn new(registry_id: Identifier, entries: Vec<RegistryEntry>) -> (r: Self)
        ensures
            r.registry_id == registry_id,
            r.entries@ == entries@,
    {
        Self { registry_id, entries }
    }
}

impl RegistryEntry {
    pub fn new(entry_id: Identifier, nbt: Option<NetworkNbt>) -> (r: Self)
        ensures
            r.entry_id == entry_id,
            r.nbt == nbt,
    {
        Self { entry_id, nbt }
    }
}

/// An entry's identifier and the bytes of its NBT, where it has one.
pub type RegistryEntryView = ((Seq<char>, Seq<char>), Option<Seq<u8>>);

/// A registry's identifier and its entries.
pub type RegistryDataView = ((Seq<char>, Seq<char>), Seq<RegistryEntryView>);

/// A tag's name and the positions of its entries.
pub type TagView = ((Seq<char>, Seq<char>), Seq<i32>);

pub open spec fn nbt_view(n: Option<NetworkNbt>) -> Option<Seq<u8>> {
    match n {
        Some(b) => Some(b.bytes@),
        None => None,
    }
}

impl View for RegistryEntry {
    type V = RegistryEntryView;

    open spec fn view(&self) -> RegistryEntryView {
        (self.entry_id@, nbt_view(self.nbt))
    }
}

impl View for RegistryData {
    type V = RegistryDataView;

    open spec fn view(&self) -> RegistryDataView {
        (self.registry_id@, self.entries@.map_values(|e: RegistryEntry| e@))
    }
}

impl View for Tag {
    type V = TagView;

    open spec fn view(&self) -> TagView {
        (self.tag_name@, self.entries@.map_values(|v: VarInt| v@))
    }
}

impl View for TaggedRegistry {
    type V = ((Seq<char>, Seq<char>), Seq<TagView>);

    open spec fn view(&self) -> ((Seq<char>, Seq<char>), Seq<TagView>) {
        (self.registry@, self.tags@.map_values(|t: Tag| t@))
    }
}

#[derive(Debug, Clone)]
pub struct UpdateTags {
    pub tagged_registries: Vec<TaggedRegistry>,
}

#[derive(Debug, Clone)]
pub struct TaggedRegistry {
    pub registry: Identifier,
    pub tags: Vec<Tag>,
}

#[derive(Debug, Clone)]
pub struct Tag {
    pub tag_name: Identifier,
    pub entries: Vec<VarInt>,
}

#[derive(Debug, Clone)]
pub struct KnownPack {
    pub namespace: String,
    pub pathname: String,
    pub version: String,
}

#[derive(Debug, Clone)]
pub struct ClientboundKnownPacks {
    pub known_packs: Vec<KnownPack>,
}

#[derive(Debug, Clone)]
pub struct ServerboundKnownPacks {
    pub known_packs: Vec<KnownPack>,
}

#[derive(Debug, Clone, Copy, PartialEq, Eq, Structural)]
pub struct AcknowledgeFinishConfiguration {}

#[derive(Debug, Clone)]
pub enum ClientboundConfigurationMessage {
    FinishConfiguration(FinishConfiguration),
    RegistryData(RegistryData),
    UpdateTags(UpdateTags),
    ClientboundKnownPacks(ClientboundKnownPacks),
}

#[derive(Debug, Clone)]
pub enum ServerboundConfigurationMessage {
    AcknowledgeFinishConfiguration(AcknowledgeFinishConfiguration),
    ServerboundKnownPacks(ServerboundKnownPacks),
}

impl WireWrite for FinishConfiguration {
    open spec fn wire_writable(&self) -> bool {
        true
    }

    open spec fn wire_bytes(&self) -> Seq<u8> {
        Seq::empty()
    }

    fn write_into(&self, out: &mut Vec<u8>) {
        assert(out@ =~= out@ + Seq::<u8>::empty());
    }
}

impl WireWrite for RegistryEntry {
    open spec fn wire_writable(&self) -> bool {
        self.entry_id.wire_writable()
    }

    open spec fn wire_bytes(&self) -> Seq<u8> {
        self.entry_id.wire_bytes() + self.nbt.wire_bytes()
    }

    fn write_into(&self, out: &mut Vec<u8>) {
        self.entry_id.write_into(out);
        self.nbt.write_into(out);
        assert(final(out)@ =~= old(out)@ + self.wire_bytes());
    }
}

impl WireWrite for RegistryData {
    open spec fn wire_writable(&self) -> bool {
        self.registry_id.wire_writable() && self.entries.wire_writable()
    }

    open spec fn wire_bytes(&self) -> Seq<u8> {
        self.registry_id.wire_bytes() + self.entries.wire_bytes()
    }

    fn write_into(&self, out: &mut Vec<u8>) {
        self.registry_id.write_into(out);
        self.entries.write_into(out);
        assert(final(out)@ =~= old(out)@ + self.wire_bytes());
    }
}

impl WireWrite for Tag {
    open spec fn wire_writable(&self) -> bool {
        self.tag_name.wire_writable() && self.entries.wire_writable()
    }

    open spec fn wire_bytes(&self) -> Seq<u8> {
        self.tag_name.wire_bytes() + self.entries.wire_bytes()
    }

    fn write_into(&self, out: &mut Vec<u8>) {
        self.tag_name.write_into(out);
        self.entries.write_into(out);
        assert(final(out)@ =~= old(out)@ + self.wire_bytes());
    }
}

impl WireWrite for TaggedRegistry {
    open spec fn wire_writable(&self) -> bool {
        self.registry.wire_writable() && self.tags.wire_writable()
    }

    open spec fn wire_bytes(&self) -> Seq<u8> {
        self.registry.wire_bytes() + self.tags.wire_bytes()
    }

    fn write_into(&self, out: &mut Vec<u8>) {
        self.registry.write_into(out);
        self.tags.write_into(out);
        assert(final(out)@ =~= old(out)@ + self.wire_bytes());
    }
}

impl WireWrite for UpdateTags {
    open spec fn wire_writable(&self) -> bool {
        self.tagged_registries.wire_writable()
    }

    open spec fn wire_bytes(&self) -> Seq<u8> {
        self.tagged_registries.wire_bytes()
    }

    fn write_into(&self, out: &mut Vec<u8>) {
        self.tagged_registries.write_into(out);
    }
}

impl WireWrite for KnownPack {
    open spec fn wire_writable(&self) -> bool {
        self.namespace.wire_writable() && self.pathname.wire_writable()
            && self.version.wire_writable()
    }

    open spec fn wire_bytes(&self) -> Seq<u8> {
        self.namespace.wire_bytes() + self.pathname.wire_bytes() + self.version.wire_bytes()
    }

    fn write_into(&self, out: &mut Vec<u8>) {
        self.namespace.write_into(out);
        self.pathname.write_into(out);
        self.version.write_into(out);
        assert(final(out)@ =~= old(out)@ + self.wire_bytes());
    }
}

impl WireWrite for ClientboundKnownPacks {
    open spec fn wire_writable(&self) -> bool {
        self.known_packs.wire_writable()
    }

    open spec fn wire_bytes(&self) -> Seq<u8> {
        self.known_packs.wire_bytes()
    }

    fn write_into(&self, out: &mut Vec<u8>) {
        self.known_packs.write_into(out);
    }
}

impl WireWrite for ServerboundKnownPacks {
    open spec fn wire_writable(&self) -> bool {
        self.known_packs.wire_writable()
    }

    open spec fn wire_bytes(&self) -> Seq<u8> {
        self.known_packs.wire_bytes()
    }

    fn write_into(&self, out: &mut Vec<u8>) {
        self.known_packs.write_into(out);
    }
}

impl WireWrite for ClientboundConfigurationMessage {
    open spec fn wire_writable(&self) -> bool {
        match self {
            ClientboundConfigurationMessage::FinishConfiguration(m) => m.wire_writable()
                && packet_writable(0x03, m.wire_bytes()),
            ClientboundConfigurationMessage::RegistryData(m) => m.wire_writable()
                && packet_writable(0x07, m.wire_bytes()),
            ClientboundConfigurationMessage::UpdateTags(m) => m.wire_writable() && packet_writable(
                0x0D,
                m.wire_bytes(),
            ),
            ClientboundConfigurationMessage::ClientboundKnownPacks(m) => m.wire_writable()
                && packet_writable(0x0E, m.wire_bytes()),
        }
    }

    /// Finish configuration is packet 0x03, registry data 0x07, update
    /// tags 0x0D, known packs 0x0E.
    open spec fn wire_bytes(&self) -> Seq<u8> {
        match self {
            ClientboundConfigurationMessage::FinishConfiguration(m) => packet_bytes(
                0x03,
                m.wire_bytes(),
            ),
            ClientboundConfigurationMessage::RegistryData(m) => packet_bytes(0x07, m.wire_bytes()),
            ClientboundConfigurationMessage::UpdateTags(m) => packet_bytes(0x0D, m.wire_bytes()),
            ClientboundConfigurationMessage::ClientboundKnownPacks(m) => packet_bytes(
                0x0E,
                m.wire_bytes(),
            ),
        }
    }

    fn write_into(&self, out: &mut Vec<u8>) {
        match self {
            ClientboundConfigurationMessage::FinishConfiguration(m) => write_payload_packet(
                0x03,
                m,
                out,
            ),
            ClientboundConfigurationMessage::RegistryData(m) => write_payload_packet(0x07, m, out),
            ClientboundConfigurationMessage::UpdateTags(m) => write_payload_packet(0x0D, m, out),
            ClientboundConfigurationMessage::ClientboundKnownPacks(m) => write_payload_packet(
                0x0E,
                m,
                out,
            ),
        }
    }
}

// ------------------------------------------------------------------- play

/// A game mode; on the wire one byte.
#[derive(Debug, Clone, Copy, PartialEq, Eq, Structural, Hash)]
pub enum Gamemode {
    Survival,
    Creative,
    Adventure,
    Spectator,
}

impl Gamemode {
    pub open spec fn spec_number(self) -> u8 {
        match self {
            Gamemode::Survival => 0,
            Gamemode::Creative => 1,
            Gamemode::Adventure => 2,
            Gamemode::Spectator => 3,
        }
    }

    /// The game mode's number.
    pub fn number(&self) -> (r: u8)
        ensures
            r == self.spec_number(),
            *self == Gamemode::Survival ==> r == 0,
            *self == Gamemode::Creative ==> r == 1,
            *self == Gamemode::Adventure ==> r == 2,
            *self == Gamemode::Spectator ==> r == 3,
    {
        match self {
            Gamemode::Survival => 0,
            Gamemode::Creative => 1,
            Gamemode::Adventure => 2,
            Gamemode::Spectator => 3,
        }
    }
}

/// Law: the protocol numbers the game modes survival 0, creative 1,
/// adventure 2 and spectator 3, and each goes on the wire as that one byte.
pub proof fn lemma_gamemode_numbers(g: Gamemode)
    ensures
        g == Gamemode::Survival ==> g.spec_number() == 0 && g.wire_bytes() == seq![0u8],
        g == Gamemode::Creative ==> g.spec_number() == 1 && g.wire_bytes() == seq![1u8],
        g == Gamemode::Adventure ==> g.spec_number() == 2 && g.wire_bytes() == seq![2u8],
        g == Gamemode::Spectator ==> g.spec_number() == 3 && g.wire_bytes() == seq![3u8],
{
    reveal_with_fuel(le_bytes, 2);
    assert(g.wire_bytes() =~= seq![g.spec_number()]);
}

impl WireWrite for Gamemode {
    open spec fn wire_writable(&self) -> bool {
        true
    }

    open spec fn wire_bytes(&self) -> Seq<u8> {
        le_bytes(self.spec_number() as nat, 1)
    }

    fn write_into(&self, out: &mut Vec<u8>) {
        self.number().write_into(out);
    }
}

#[derive(Debug, Clone, Copy, PartialEq, Eq, Structural)]
pub enum ShouldRollCredits {
    DontRollCredits,
    RollCredits,
}

#[derive(Debug, Clone, Copy, PartialEq, Eq, Structural)]
pub enum DemoEvent {
    ShowWelcomeScreen,
    TellMovementControls,
    TellJumpControl,
    TellInventoryControl,
    TellDemoIsOver,
}

#[derive(Debug, Clone, Copy, PartialEq, Eq, Structural)]
pub enum RespawnScreenKind {
    Enabled,
    ImmediateRespawn,
}

#[derive(Debug, Clone, Copy, PartialEq, Eq, Structural)]
pub enum LimitedCraftingKind {
    Disabled,
    Enabled,
}

impl ShouldRollCredits {
    /// The value sent in a game event.
    pub fn number(&self) -> (r: u8)
        ensures
            r == (match self {
                ShouldRollCredits::DontRollCredits => 0u8,
                ShouldRollCredits::RollCredits => 1u8,
            }),
    {
        match self {
            ShouldRollCredits::DontRollCredits => 0,
            ShouldRollCredits::RollCredits => 1,
        }
    }
}

impl DemoEvent {
    /// The value sent in a game event.
    pub fn number(&self) -> (r: u8)
        ensures
            r == (match self {
                DemoEvent::ShowWelcomeScreen => 0u8,
                DemoEvent::TellMovementControls => 101u8,
                DemoEvent::TellJumpControl => 102u8,
                DemoEvent::TellInventoryControl => 103u8,
                DemoEvent::TellDemoIsOver => 104u8,
            }),
    {
        match self {
            DemoEvent::ShowWelcomeScreen => 0,
            DemoEvent::TellMovementControls => 101,
            DemoEvent::TellJumpControl => 102,
            DemoEvent::TellInventoryControl => 103,
            DemoEvent::TellDemoIsOver => 104,
        }
    }
}

impl RespawnScreenKind {
    /// The value sent in a game event.
    pub fn number(&self) -> (r: u8)
        ensures
            r == (match self {
                RespawnScreenKind::Enabled => 0u8,
                RespawnScreenKind::ImmediateRespawn => 1u8,
            }),
    {
        match self {
            RespawnScreenKind::Enabled => 0,
            RespawnScreenKind::ImmediateRespawn => 1,
        }
    }
}

impl LimitedCraftingKind {
    /// The value sent in a game event.
    pub fn number(&self) -> (r: u8)
        ensures
            r == (match self {
                LimitedCraftingKind::Disabled => 0u8,
                LimitedCraftingKind::Enabled => 1u8,
            }),
    {
        match self {
            LimitedCraftingKind::Disabled => 0,
            LimitedCraftingKind::Enabled => 1,
        }
    }
}

#[derive(Debug, Clone)]
pub struct DeathInfo {
    pub death_dimension_name: Identifier,
    pub death_location: Position,
}

impl WireWrite for DeathInfo {
    open spec fn wire_writable(&self) -> bool {
        self.death_dimension_name.wire_writable()
    }

    open spec fn wire_bytes(&self) -> Seq<u8> {
        self.death_dimension_name.wire_bytes() + self.death_location.wire_bytes()
    }

    fn write_into(&self, out: &mut Vec<u8>) {
        self.death_dimension_name.write_into(out);
        self.death_location.write_into(out);
        assert(final(out)@ =~= old(out)@ + self.wire_bytes());
    }
}

/// The play-state login message: the player's entity and world settings.
#[derive(Debug, Clone)]
pub struct Login {
    pub entity_id: i32,
    pub is_hardcore: bool,
    pub dimension_names: Vec<String>,
    pub max_players: VarInt,
    pub view_distance: VarInt,
    pub simulation_distance: VarInt,
    pub reduced_debug_info: bool,
    pub enable_respawn_screen: bool,
    pub do_limited_crafting: bool,
    pub dimension_type: VarInt,
    pub dimension_name: Identifier,
    pub hashed_seed: i64,
    pub game_mode: Gamemode,
    pub previous_game_mode: u8,
    pub is_debug: bool,
    pub is_flat: bool,
    pub death_info: Option<DeathInfo>,
    pub portal_cooldown: VarInt,
    pub sea_level: VarInt,
    pub enforces_secure_chat: bool,
}

impl Login {
    /// The bytes of the fields up to the simulation distance.
    pub open spec fn head_bytes(&self) -> Seq<u8> {
        self.entity_id.wire_bytes() + self.is_hardcore.wire_bytes()
            + self.dimension_names.wire_bytes() + self.max_players.wire_bytes()
            + self.view_distance.wire_bytes() + self.simulation_distance.wire_bytes()
    }

    /// The bytes of the fields from the debug-info flag to the game mode.
    pub open spec fn middle_bytes(&self) -> Seq<u8> {
        self.reduced_debug_info.wire_bytes() + self.enable_respawn_screen.wire_bytes()
            + self.do_limited_crafting.wire_bytes() + self.dimension_type.wire_bytes()
            + self.dimension_name.wire_bytes() + self.hashed_seed.wire_bytes()
            + self.game_mode.wire_bytes()
    }

    /// The bytes of the remaining fields.
    pub open spec fn tail_bytes(&self) -> Seq<u8> {
        self.previous_game_mode.wire_bytes() + self.is_debug.wire_bytes()
            + self.is_flat.wire_bytes() + self.death_info.wire_bytes()
            + self.portal_cooldown.wire_bytes() + self.sea_level.wire_bytes()
            + self.enforces_secure_chat.wire_bytes()
    }

    fn write_head(&self, out: &mut Vec<u8>)
        requires
            self.wire_writable(),
        ensures
            final(out)@ == old(out)@ + self.head_bytes(),
    {
        self.entity_id.write_into(out);
        self.is_hardcore.write_into(out);
        self.dimension_names.write_into(out);
        self.max_players.write_into(out);
        self.view_distance.write_into(out);
        self.simulation_distance.write_into(out);
        assert(final(out)@ =~= old(out)@ + self.head_bytes());
    }

    fn write_middle(&self, out: &mut Vec<u8>)
        requires
            self.wire_writable(),
        ensures
            final(out)@ == old(out)@ + self.middle_bytes(),
    {
        self.reduced_debug_info.write_into(out);
        self.enable_respawn_screen.write_into(out);
        self.do_limited_crafting.write_into(out);
        self.dimension_type.write_into(out);
        self.dimension_name.write_into(out);
        self.hashed_seed.write_into(out);
        self.game_mode.write_into(out);
        assert(final(out)@ =~= old(out)@ + self.middle_bytes());
    }

    fn write_tail(&self, out: &mut Vec<u8>)
        requires
            self.wire_writable(),
        ensures
            final(out)@ == old(out)@ + self.tail_bytes(),
    {
        self.previous_game_mode.write_into(out);
        self.is_debug.write_into(out);
        self.is_flat.write_into(out);
        self.death_info.write_into(out);
        self.portal_cooldown.write_into(out);
        self.sea_level.write_into(out);
        self.enforces_secure_chat.write_into(out);
        assert(final(out)@ =~= old(out)@ + self.tail_bytes());
    }
}

impl WireWrite for Login {
    open spec fn wire_writable(&self) -> bool {
        &&& self.dimension_names.wire_writable()
        &&& self.max_players.wire_writable()
        &&& self.view_distance.wire_writable()
        &&& self.simulation_distance.wire_writable()
        &&& self.dimension_type.wire_writable()
        &&& self.dimension_name.wire_writable()
        &&& self.death_info.wire_writable()
        &&& self.portal_cooldown.wire_writable()
        &&& self.sea_level.wire_writable()
    }

    /// Every field in order.
    open spec fn wire_bytes(&self) -> Seq<u8> {
        self.head_bytes() + self.middle_bytes() + self.tail_bytes()
    }

    fn write_into(&self, out: &mut Vec<u8>) {
        self.write_head(out);
        self.write_middle(out);
        self.write_tail(out);
        assert(final(out)@ =~= old(out)@ + self.wire_bytes());
    }
}

#[derive(Debug, Clone, Copy, PartialEq, Eq, Structural)]
pub struct SetCenterChunk {
    pub chunk_x: VarInt,
    pub chunk_z: VarInt,
}

impl WireWrite for SetCenterChunk {
    open spec fn wire_writable(&self) -> bool {
        self.chunk_x.wire_writable() && self.chunk_z.wire_writable()
    }

    open spec fn wire_bytes(&self) -> Seq<u8> {
        self.chunk_x.wire_bytes() + self.chunk_z.wire_bytes()
    }

    fn write_into(&self, out: &mut Vec<u8>) {
        self.chunk_x.write_into(out);
        self.chunk_z.write_into(out);
    }
}

#[derive(Debug, Clone)]
pub struct LightArray {
    pub data: Vec<u8>,
}

impl WireWrite for LightArray {
    open spec fn wire_writable(&self) -> bool {
        self.data.wire_writable()
    }

    open spec fn wire_bytes(&self) -> Seq<u8> {
        self.data.wire_bytes()
    }

    fn write_into(&self, out: &mut Vec<u8>) {
        self.data.write_into(out);
    }
}

#[derive(Debug, Clone)]
pub struct LightData {
    pub sky_light_mask: BitSet,
    pub block_light_mask: BitSet,
    pub empty_sky_light_mask: BitSet,
    pub empty_block_light_mask: BitSet,
    pub sky_light_arrays: Vec<LightArray>,
    pub block_light_arrays: Vec<LightArray>,
}

impl WireWrite for LightData {
    open spec fn wire_writable(&self) -> bool {
        &&& self.sky_light_mask.wire_writable()
        &&& self.block_light_mask.wire_writable()
        &&& self.empty_sky_light_mask.wire_writable()
        &&& self.empty_block_light_mask.wire_writable()
        &&& self.sky_light_arrays.wire_writable()
        &&& self.block_light_arrays.wire_writable()
    }

    open spec fn wire_bytes(&self) -> Seq<u8> {
        self.sky_light_mask.wire_bytes() + self.block_light_mask.wire_bytes()
            + self.empty_sky_light_mask.wire_bytes() + self.empty_block_light_mask.wire_bytes()
            + self.sky_light_arrays.wire_bytes() + self.block_light_arrays.wire_bytes()
    }

    fn write_into(&self, out: &mut Vec<u8>) {
        let ghost start = out@;
        self.sky_light_mask.write_into(out);
        self.block_light_mask.write_into(out);
        self.empty_sky_light_mask.write_into(out);
        self.empty_block_light_mask.write_into(out);
        assert(out@ =~= start + (self.sky_light_mask.wire_bytes() + self.block_light_mask.wire_bytes()
            + self.empty_sky_light_mask.wire_bytes() + self.empty_block_light_mask.wire_bytes()));
        self.sky_light_arrays.write_into(out);
        self.block_light_arrays.write_into(out);
        assert(final(out)@ =~= old(out)@ + self.wire_bytes());
    }
}

#[derive(Debug, Clone)]
pub struct BlockEntity {
    pub packed_xz: u8,
    pub y: u16,
    pub kind: VarInt,
    pub data: NetworkNbt,
}

impl WireWrite for BlockEntity {
    open spec fn wire_writable(&self) -> bool {
        self.kind.wire_writable()
    }

    open spec fn wire_bytes(&self) -> Seq<u8> {
        self.packed_xz.wire_bytes() + self.y.wire_bytes() + self.kind.wire_bytes()
            + self.data.wire_bytes()
    }

    fn write_into(&self, out: &mut Vec<u8>) {
        self.packed_xz.write_into(out);
        self.y.write_into(out);
        self.kind.write_into(out);
        self.data.write_into(out);
        assert(final(out)@ =~= old(out)@ + self.wire_bytes());
    }
}

#[derive(Debug, Clone)]
pub struct ChunkData {
    pub heightmaps: Vec<()>,
    pub data: Chunk,
    pub block_entities: Vec<BlockEntity>,
}

impl WireWrite for ChunkData {
    open spec fn wire_writable(&self) -> bool {
        self.heightmaps.wire_writable() && self.data.wire_writable()
            && self.block_entities.wire_writable()
    }

    open spec fn wire_bytes(&self) -> Seq<u8> {
        self.heightmaps.wire_bytes() + self.data.wire_bytes() + self.block_entities.wire_bytes()
    }

    fn write_into(&self, out: &mut Vec<u8>) {
        self.heightmaps.write_into(out);
        self.data.write_into(out);
        self.block_entities.write_into(out);
        assert(final(out)@ =~= old(out)@ + self.wire_bytes());
    }
}

#[derive(Debug, Clone)]
pub struct ChunkDataAndUpdateLight {
    pub chunk_x: i32,
    pub chunk_z: i32,
    pub data: ChunkData,
    pub light: LightData,
}

impl WireWrite for ChunkDataAndUpdateLight {
    open spec fn wire_writable(&self) -> bool {
        self.data.wire_writable() && self.light.wire_writable()
    }

    open spec fn wire_bytes(&self) -> Seq<u8> {
        self.chunk_x.wire_bytes() + self.chunk_z.wire_bytes() + self.data.wire_bytes()
            + self.light.wire_bytes()
    }

    fn write_into(&self, out: &mut Vec<u8>) {
        self.chunk_x.write_into(out);
        self.chunk_z.write_into(out);
        self.data.write_into(out);
        self.light.write_into(out);
        assert(final(out)@ =~= old(out)@ + self.wire_bytes());
    }
}

/// Writes a play-state message that carries no floating point: login
/// (packet 0x30), chunk data (0x2C) or center chunk (0x5C).
pub fn write_play_packet<T: WireWrite>(id: i32, payload: &T, out: &mut Vec<u8>)
    requires
        payload.wire_writable(),
        packet_writable(id, payload.wire_bytes()),
    ensures
        final(out)@ == old(out)@ + packet_bytes(id, payload.wire_bytes()),
{
    write_payload_packet(id, payload, out);
}

} // verus!
