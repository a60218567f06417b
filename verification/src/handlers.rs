use crate::codec::WireWrite;
use crate::config::Config;
use crate::entity::{next_after, Entity, EntityAllocator, EntityData, PlayerEntity};
use crate::error::RwError;
use crate::identifier::Identifier;
use crate::messages::{
    ClientboundLoginMessage, Description, GameProfile, Gamemode, Handshake, Intent, Login,
    LoginSuccess, PlayerInfo, PongResponse, ServerboundConfigurationMessage,
    ServerboundLoginMessage, ServerboundStatusMessage, StatusData, VersionInfo,
};
use crate::varint::VarInt;
use std::collections::HashMap;
use std::sync::Arc;
use vstd::prelude::*;
use vstd::string::StringExecFns;

verus! {

/// The stage a connection is in.
#[derive(Debug, Clone, Copy, PartialEq, Eq, Structural)]
pub enum ServerState {
    Status,
    Login,
    Configuration,
    Play,
}

/// Which handler takes a connection after its handshake.
#[derive(Debug, Clone, Copy, PartialEq, Eq, Structural)]
pub enum ConnectionHandler {
    Status,
    Login,
}

/// A status request goes to the status handler; a login or a transfer to
/// the login handler.
pub fn handler_for(intent: Intent) -> (r: ConnectionHandler)
    ensures
        r == (match intent {
            Intent::Status => ConnectionHandler::Status,
            Intent::Login | Intent::Transfer => ConnectionHandler::Login,
        }),
{
    match intent {
        Intent::Status => ConnectionHandler::Status,
        Intent::Login | Intent::Transfer => ConnectionHandler::Login,
    }
}

/// What the status handler answers.
#[derive(Debug, Clone)]
pub enum StatusAction {
    /// Send a status response carrying this data as JSON.
    SendStatus(StatusData),
    /// Send this pong.
    SendPong(PongResponse),
}

/// Answers status requests and pings on one connection.
pub struct StatusHandler<Io> {
    pub config: Arc<Config>,
    pub io: Io,
    pub handshake: Handshake,
}

impl<Io> StatusHandler<Io> {
    pub fn new(io: Io, config: Arc<Config>, handshake: Handshake) -> (r: Self)
        ensures
            r.io == io,
            r.config == config,
            r.handshake == handshake,
    {
        Self { config, io, handshake }
    }

    /// The answer to one message: for a status request the server's name
    /// "Bedwars", the client's protocol version, no players online out of
    /// the configured maximum, the configured message of the day, no icon
    /// and no secure chat; for a ping a pong with the same timestamp.
    pub fn respond(&self, msg: ServerboundStatusMessage) -> (r: StatusAction)
        ensures
            match msg {
                ServerboundStatusMessage::StatusRequest(_) => r matches StatusAction::SendStatus(d)
                    && d.version.name@ == "Bedwars"@ && d.version.protocol
                    == self.handshake.protocol_version@ as u32 && d.players.online == 0
                    && d.players.max == self.config.server.max_players
                    && d.players.sample@.len() == 0 && d.description.text@
                    == self.config.server.motd@ && d.enforces_secure_chat == false
                    && d.favicon is None,
                ServerboundStatusMessage::PingRequest(p) => r == StatusAction::SendPong(
                    PongResponse { timestamp: p.timestamp },
                ),
            },
    {
        match msg {
            ServerboundStatusMessage::StatusRequest(_) => {
                let protocol: i32 = self.handshake.protocol_version.value();
                StatusAction::SendStatus(
                    StatusData {
                        version: VersionInfo {
                            name: String::from_str("Bedwars"),
                            protocol: protocol as u32,
                        },
                        players: PlayerInfo {
                            online: 0,
                            max: self.config.server.max_players,
                            sample: Vec::new(),
                        },
                        description: Description { text: self.config.server.motd.clone() },
                        enforces_secure_chat: false,
                        favicon: None,
                    },
                )
            },
            ServerboundStatusMessage::PingRequest(p) => StatusAction::SendPong(
                PongResponse { timestamp: p.timestamp },
            ),
        }
    }
}

/// Where a login conversation stands.
#[derive(Debug, Clone)]
pub enum LoginState {
    /// Waiting for the client's login start.
    AwaitingStart,
    /// Login success was sent for this profile; waiting for the client to
    /// acknowledge it.
    AwaitingAcknowledgement(GameProfile),
    /// The conversation has moved on to configuration.
    Finished,
}

/// What the login handler does after a message.
#[derive(Debug, Clone)]
pub enum LoginAction {
    /// Send this message and read the next one.
    Send(ClientboundLoginMessage),
    /// Move on to configuration with this profile.
    Configure(GameProfile),
    /// End the conversation without an error.
    Close,
    /// Ignore the message and read the next one.
    Ignore,
}

/// One step of the login conversation: a login start is answered with a
/// login success for a profile of the given name and id and no properties;
/// anything else before it ends the conversation. After the success, the
/// acknowledgement moves on to configuration and anything else is ignored.
pub fn login_step(state: LoginState, msg: ServerboundLoginMessage) -> (r: (LoginState, LoginAction))
    ensures
        match (state, msg) {
            (LoginState::AwaitingStart, ServerboundLoginMessage::LoginStart(info)) => {
                &&& r.0 matches LoginState::AwaitingAcknowledgement(p)
                &&& p.name == info.name
                &&& p.id == info.id
                &&& p.properties@.len() == 0
                &&& r.1 matches LoginAction::Send(ClientboundLoginMessage::LoginSuccess(s))
                &&& s.profile.name == info.name
                &&& s.profile.id == info.id
                &&& s.profile.properties@.len() == 0
            },
            (LoginState::AwaitingStart, ServerboundLoginMessage::LoginAcknowledged(_)) => {
                &&& r.0 is AwaitingStart
                &&& r.1 is Close
            },
            (LoginState::AwaitingAcknowledgement(p), ServerboundLoginMessage::LoginAcknowledged(_)) => {
                &&& r.0 is Finished
                &&& r.1 == LoginAction::Configure(p)
            },
            (LoginState::AwaitingAcknowledgement(p), ServerboundLoginMessage::LoginStart(_)) => {
                &&& r.0 == LoginState::AwaitingAcknowledgement(p)
                &&& r.1 is Ignore
            },
            (LoginState::Finished, _) => {
                &&& r.0 is Finished
                &&& r.1 is Ignore
            },
        },
{
    match state {
        LoginState::AwaitingStart => match msg {
            ServerboundLoginMessage::LoginStart(info) => {
                let name = info.name.clone();
                let profile = GameProfile { name: info.name, id: info.id, properties: Vec::new() };
                let reply = GameProfile { name, id: info.id, properties: Vec::new() };
                (
                    LoginState::AwaitingAcknowledgement(profile),
                    LoginAction::Send(
                        ClientboundLoginMessage::LoginSuccess(LoginSuccess { profile: reply }),
                    ),
                )
            },
            ServerboundLoginMessage::LoginAcknowledged(_) => (
                LoginState::AwaitingStart,
                LoginAction::Close,
            ),
        },
        LoginState::AwaitingAcknowledgement(profile) => match msg {
            ServerboundLoginMessage::LoginAcknowledged(_) => (
                LoginState::Finished,
                LoginAction::Configure(profile),
            ),
            ServerboundLoginMessage::LoginStart(_) => (
                LoginState::AwaitingAcknowledgement(profile),
                LoginAction::Ignore,
            ),
        },
        LoginState::Finished => (LoginState::Finished, LoginAction::Ignore),
    }
}

/// What the configuration handler does after reading a message.
#[derive(Debug, Clone, Copy, PartialEq, Eq, Structural)]
pub enum ConfigurationStep {
    /// The client acknowledged: hand the connection over to the server.
    Finish,
    /// Read the next message.
    KeepWaiting,
}

/// The acknowledgement ends configuration; a read error of any kind is
/// logged and the handler keeps waiting.
pub fn configuration_step(msg: &Result<ServerboundConfigurationMessage, RwError>) -> (r: ConfigurationStep)
    requires
        !(msg matches Ok(ServerboundConfigurationMessage::ServerboundKnownPacks(_))),
    ensures
        r == (if msg matches Ok(ServerboundConfigurationMessage::AcknowledgeFinishConfiguration(_)) {
            ConfigurationStep::Finish
        } else {
            ConfigurationStep::KeepWaiting
        }),
{
    match msg {
        Ok(ServerboundConfigurationMessage::AcknowledgeFinishConfiguration(_)) => ConfigurationStep::Finish,
        Ok(ServerboundConfigurationMessage::ServerboundKnownPacks(_)) => {
            proof {
                assert(false);
            }
            ConfigurationStep::KeepWaiting
        },
        Err(_) => ConfigurationStep::KeepWaiting,
    }
}

/// The play-state login message sent to a newly joined player: not
/// hardcore, the overworld only, 100 players, view and simulation distance
/// 10, respawn screen on, limited crafting off, dimension type 0,
/// dimension `minecraft:overworld`, seed hash 0, creative mode, previous
/// mode 0, not debug, not flat, no death, cooldown 0, sea level 0, no
/// secure chat.
pub open spec fn is_join_login(l: Login, entity_id: i32) -> bool {
    &&& l.entity_id == entity_id
    &&& !l.is_hardcore
    &&& l.dimension_names@.len() == 1
    &&& l.dimension_names@[0]@ == "minecraft:overworld"@
    &&& l.max_players@ == 100
    &&& l.view_distance@ == 10
    &&& l.simulation_distance@ == 10
    &&& !l.reduced_debug_info
    &&& l.enable_respawn_screen
    &&& !l.do_limited_crafting
    &&& l.dimension_type@ == 0
    &&& l.dimension_name@ == ("minecraft"@, "overworld"@)
    &&& l.hashed_seed == 0
    &&& l.game_mode == Gamemode::Creative
    &&& l.previous_game_mode == 0
    &&& !l.is_debug
    &&& !l.is_flat
    &&& l.death_info is None
    &&& l.portal_cooldown@ == 0
    &&& l.sea_level@ == 0
    &&& !l.enforces_secure_chat
}

/// Makes a player entity with the next id, records it, and gives the login
/// message to send to that player.
pub fn onboard_player(allocator: &mut EntityAllocator, entities: &mut HashMap<i32, Entity>) -> (r:
    Login)
    ensures
        final(allocator)@ == next_after(old(allocator)@),
        final(entities)@.dom() == old(entities)@.dom().insert(old(allocator)@),
        final(entities)@[old(allocator)@].id == old(allocator)@,
        final(entities)@[old(allocator)@].data == EntityData::Player(PlayerEntity {}),
        forall|k: i32| k != old(allocator)@ && old(entities)@.contains_key(k) ==> final(entities)@[k]
            == old(entities)@[k],
        is_join_login(r, old(allocator)@),
        r.wire_writable(),
        crate::messages::packet_writable(0x30, r.wire_bytes()),
{
    broadcast use vstd::std_specs::hash::group_hash_axioms;

    let entity = Entity::new(allocator, EntityData::Player(PlayerEntity::new()));
    let id = entity.id;
    entities.insert(id, entity);
    let mut dimension_names: Vec<String> = Vec::new();
    dimension_names.push(String::from_str("minecraft:overworld"));
    let login = Login {
        entity_id: id,
        is_hardcore: false,
        dimension_names,
        max_players: VarInt::new(100),
        view_distance: VarInt::new(10),
        simulation_distance: VarInt::new(10),
        reduced_debug_info: false,
        enable_respawn_screen: true,
        do_limited_crafting: false,
        dimension_type: VarInt::new(0),
        dimension_name: Identifier::with_namespace("minecraft", "overworld"),
        hashed_seed: 0,
        game_mode: Gamemode::Creative,
        previous_game_mode: 0,
        is_debug: false,
        is_flat: false,
        death_info: None,
        portal_cooldown: VarInt::new(0),
        sea_level: VarInt::new(0),
        enforces_secure_chat: false,
    };
    proof {
        lemma_join_login_writable(login, id);
    }
    login
}


proof fn lemma_encode_utf8_len(chars: Seq<char>)
    ensures
        vstd::utf8::encode_utf8(chars).len() <= 4 * chars.len(),
    decreases chars.len(),
{
    if chars.len() > 0 {
        lemma_encode_utf8_len(chars.drop_first());
    }
}

proof fn lemma_small_string_bytes(s: Seq<char>)
    requires
        s.len() <= 100,
    ensures
        vstd::utf8::encode_utf8(s).len() <= 400,
        crate::wire::string_bytes(s).len() <= 405,
{
    lemma_encode_utf8_len(s);
    crate::varint::lemma_varint_bytes_len_bound(vstd::utf8::encode_utf8(s).len());
}

/// The login message sent to a joining player can be written as a packet.
pub proof fn lemma_join_login_writable(l: Login, entity_id: i32)
    requires
        is_join_login(l, entity_id),
    ensures
        l.wire_writable(),
        crate::messages::packet_writable(0x30, l.wire_bytes()),
{
    let name = l.dimension_names@[0];
    assert(name@.len() == 19) by {
        reveal_strlit("minecraft:overworld");
    }
    lemma_small_string_bytes(name@);
    assert(crate::codec::items_writable(l.dimension_names@));
    assert(l.dimension_names@.drop_last() =~= Seq::<String>::empty());
    assert(crate::codec::items_bytes(Seq::<String>::empty()) == Seq::<u8>::empty());
    assert(l.dimension_names@.last() == name);
    assert(crate::codec::items_bytes(l.dimension_names@) =~= name.wire_bytes());
    crate::varint::lemma_varint_bytes_len_bound(1);
    crate::varint::lemma_varint_bytes_len_bound(100);
    crate::varint::lemma_varint_bytes_len_bound(10);
    crate::varint::lemma_varint_bytes_len_bound(0);
    crate::varint::lemma_varint_bytes_len_bound(0x30);
    let text = crate::identifier::identifier_text(l.dimension_name@);
    assert(text.len() == 19) by {
        reveal_strlit("minecraft");
        reveal_strlit("overworld");
    }
    lemma_small_string_bytes(text);
    crate::wire::lemma_le_bytes_len((l.entity_id as u32) as nat, 4);
    crate::wire::lemma_le_bytes_len((l.hashed_seed as u64) as nat, 8);
    crate::wire::lemma_le_bytes_len(l.game_mode.spec_number() as nat, 1);
    crate::wire::lemma_le_bytes_len(l.previous_game_mode as nat, 1);
    assert(l.head_bytes().len() <= 1000);
    assert(l.middle_bytes().len() <= 1000);
    assert(l.tail_bytes().len() <= 1000);
}

} // verus!
