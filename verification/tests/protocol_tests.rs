use bedwars::codec::{write_packet, WireWrite};
use bedwars::config::{Config, NetworkConfig, RegistryConfig, ServerConfig};
use bedwars::entity::{Entity, EntityAllocator, EntityData, PlayerEntity};
use bedwars::error::RwError;
use bedwars::handlers::{
    configuration_step, handler_for, login_step, onboard_player, ConfigurationStep, ConnectionHandler,
    LoginAction, LoginState, StatusAction, StatusHandler,
};
use bedwars::messages::{
    AcknowledgeFinishConfiguration, ClientboundLoginMessage, ClientboundStatusMessage, Gamemode, Handshake,
    Intent, LoginAcknowledged, LoginStart, PingRequest, PongResponse, ServerboundConfigurationMessage,
    ServerboundLoginMessage, ServerboundStatusMessage, StatusRequest, Uuid,
};
use bedwars::inbound::{handshake_aborts, login_body_aborts, status_body_aborts, varint_aborts};
use bedwars::varint::VarInt;
use std::collections::HashMap;
use std::sync::Arc;

fn config() -> Arc<Config> {
    Arc::new(Config {
        network: NetworkConfig { bind_address: "0.0.0.0:25565".to_string() },
        server: ServerConfig { max_players: 20, motd: "hello".to_string() },
        registry: RegistryConfig { path: "generated".to_string() },
    })
}

fn handshake(intent: Intent) -> Handshake {
    Handshake {
        protocol_version: VarInt::new(770),
        server_address: "localhost".to_string(),
        server_port: 25565,
        intent,
    }
}

#[test]
fn allocator_counts_up_from_one() {
    let mut a = EntityAllocator::new();
    assert_eq!(a.allocate(), 1);
    assert_eq!(a.allocate(), 2);
    let e = Entity::new(&mut a, EntityData::Player(PlayerEntity::new()));
    assert_eq!(e.id, 3);
}

#[test]
fn handshake_reads_from_packet_body() {
    let mut body = Vec::new();
    body.extend_from_slice(&[0x82, 0x06]);
    body.push(9);
    body.extend_from_slice(b"localhost");
    body.extend_from_slice(&[0x63, 0xDD]);
    body.push(2);
    let (h, next) = Handshake::read_from(&body, 0).unwrap();
    assert_eq!(h.protocol_version.value(), 770);
    assert_eq!(h.server_address, "localhost");
    assert_eq!(h.server_port, 25565);
    assert!(matches!(h.intent, Intent::Login));
    assert_eq!(next, body.len());
}

#[test]
fn unknown_intent_is_refused() {
    let body = [0x01, 0x00, 0x00, 0x00, 0x05];
    assert!(matches!(Handshake::read_from(&body, 0), Err(RwError::InvalidEnumDiscriminant(5))));
}

#[test]
fn intents_choose_handlers() {
    assert!(handler_for(Intent::Status) == ConnectionHandler::Status);
    assert!(handler_for(Intent::Login) == ConnectionHandler::Login);
    assert!(handler_for(Intent::Transfer) == ConnectionHandler::Login);
    assert_eq!(Intent::Status.number(), 1);
    assert_eq!(Intent::Transfer.number(), 3);
}

#[test]
fn status_messages_read_and_answer() {
    let (m, _) = ServerboundStatusMessage::read_from(&[0x00], 0).unwrap();
    assert!(matches!(m, ServerboundStatusMessage::StatusRequest(_)));
    let ping = [0x01, 0, 0, 0, 0, 0, 0, 0, 42];
    let (p, next) = ServerboundStatusMessage::read_from(&ping, 0).unwrap();
    assert_eq!(next, 9);
    let handler = StatusHandler::new((), config(), handshake(Intent::Status));
    match handler.respond(p) {
        StatusAction::SendPong(pong) => assert_eq!(pong.timestamp, 42),
        _ => panic!("expected a pong"),
    }
    match handler.respond(ServerboundStatusMessage::StatusRequest(StatusRequest {})) {
        StatusAction::SendStatus(d) => {
            assert_eq!(d.version.name, "Bedwars");
            assert_eq!(d.version.protocol, 770);
            assert_eq!(d.players.max, 20);
            assert_eq!(d.players.online, 0);
            assert_eq!(d.description.text, "hello");
            assert!(!d.enforces_secure_chat);
            assert!(d.favicon.is_none());
        }
        _ => panic!("expected a status"),
    }
    assert!(matches!(ServerboundStatusMessage::read_from(&[0x05], 0), Err(RwError::InvalidEnumDiscriminant(5))));
}

#[test]
fn pong_packet_bytes() {
    let msg = ClientboundStatusMessage::PongResponse(PongResponse { timestamp: 1 });
    let mut out = Vec::new();
    msg.write_into(&mut out);
    assert_eq!(out, vec![9, 0x01, 1, 0, 0, 0, 0, 0, 0, 0]);
}

#[test]
fn packet_framing_prefixes_length() {
    let mut out = Vec::new();
    write_packet(0x2C, &[1, 2, 3], &mut out);
    assert_eq!(out, vec![4, 0x2C, 1, 2, 3]);
}

#[test]
fn login_conversation() {
    let mut body = vec![0x00, 3];
    body.extend_from_slice(b"bob");
    body.extend_from_slice(&[0; 15]);
    body.push(7);
    let (m, next) = ServerboundLoginMessage::read_from(&body, 0).unwrap();
    assert_eq!(next, body.len());
    let (state, action) = login_step(LoginState::AwaitingStart, m);
    match action {
        LoginAction::Send(ClientboundLoginMessage::LoginSuccess(s)) => {
            assert_eq!(s.profile.name, "bob");
            assert_eq!(s.profile.id.value, 7);
            assert!(s.profile.properties.is_empty());
        }
        _ => panic!("expected login success"),
    }
    let (state, action) = login_step(state, ServerboundLoginMessage::LoginStart(LoginStart {
        name: "eve".to_string(),
        id: Uuid { value: 1 },
    }));
    assert!(matches!(action, LoginAction::Ignore));
    let (state, action) = login_step(state, ServerboundLoginMessage::LoginAcknowledged(LoginAcknowledged {}));
    match action {
        LoginAction::Configure(p) => assert_eq!(p.name, "bob"),
        _ => panic!("expected configuration"),
    }
    assert!(matches!(state, LoginState::Finished));
}

#[test]
fn login_without_start_closes() {
    let (_, action) = login_step(LoginState::AwaitingStart, ServerboundLoginMessage::LoginAcknowledged(LoginAcknowledged {}));
    assert!(matches!(action, LoginAction::Close));
}

#[test]
fn configuration_waits_for_acknowledgement() {
    let (m, _) = ServerboundConfigurationMessage::read_from(&[0x03], 0).unwrap();
    assert!(configuration_step(&Ok(m)) == ConfigurationStep::Finish);
    let err = ServerboundConfigurationMessage::read_from(&[0x02], 0).map(|(m, _)| m);
    assert!(matches!(err, Err(RwError::InvalidEnumDiscriminant(2))));
    assert!(configuration_step(&err) == ConfigurationStep::KeepWaiting);
    assert!(configuration_step(&Err(RwError::UnexpectedEof)) == ConfigurationStep::KeepWaiting);
    assert!(
        configuration_step(&Ok(ServerboundConfigurationMessage::AcknowledgeFinishConfiguration(
            AcknowledgeFinishConfiguration {}
        ))) == ConfigurationStep::Finish
    );
}

#[test]
fn known_packs_read() {
    let mut body = vec![0x07, 1];
    for s in ["minecraft", "core", "1.21"] {
        body.push(s.len() as u8);
        body.extend_from_slice(s.as_bytes());
    }
    let (m, next) = ServerboundConfigurationMessage::read_from(&body, 0).unwrap();
    assert_eq!(next, body.len());
    match m {
        ServerboundConfigurationMessage::ServerboundKnownPacks(k) => {
            assert_eq!(k.known_packs.len(), 1);
            assert_eq!(k.known_packs[0].pathname, "core");
        }
        _ => panic!("expected known packs"),
    }
}

#[test]
fn onboarding_records_player_and_builds_login() {
    let mut a = EntityAllocator::new();
    let mut entities = HashMap::new();
    let login = onboard_player(&mut a, &mut entities);
    assert_eq!(login.entity_id, 1);
    assert!(entities.contains_key(&1));
    assert_eq!(login.dimension_names, vec!["minecraft:overworld".to_string()]);
    assert_eq!(login.max_players.value(), 100);
    assert!(login.game_mode == Gamemode::Creative);
    assert_eq!(login.dimension_name.to_string(), "minecraft:overworld");
    let second = onboard_player(&mut a, &mut entities);
    assert_eq!(second.entity_id, 2);
    assert_eq!(entities.len(), 2);
    let mut out = Vec::new();
    login.write_into(&mut out);
    assert_eq!(&out[0..5], &[1, 0, 0, 0, 0]);
}

#[test]
fn ping_request_writes_timestamp() {
    let mut out = Vec::new();
    PingRequest { timestamp: 2 }.write_into(&mut out);
    assert_eq!(out, vec![2, 0, 0, 0, 0, 0, 0, 0]);
}

#[test]
fn uuid_written_reads_back_in_login_start() {
    let id = Uuid { value: 0x0123_4567_89AB_CDEF_FEDC_BA98_7654_3210 };
    let mut out = Vec::new();
    "alex".to_string().write_into(&mut out);
    id.write_into(&mut out);
    assert_eq!(&out[5..7], &[0x01, 0x23]);
    let (start, next) = LoginStart::read_from(&out, 0).unwrap();
    assert_eq!(start.name, "alex");
    assert_eq!(start.id.value, id.value);
    assert_eq!(next, out.len());
}

#[test]
fn known_pack_written_reads_back() {
    let pack = bedwars::messages::KnownPack {
        namespace: "minecraft".to_string(),
        pathname: "core".to_string(),
        version: "1.21.5".to_string(),
    };
    let mut out = Vec::new();
    pack.write_into(&mut out);
    let (back, next) = bedwars::messages::KnownPack::read_from(&out, 0).unwrap();
    assert_eq!(back.namespace, "minecraft");
    assert_eq!(back.pathname, "core");
    assert_eq!(back.version, "1.21.5");
    assert_eq!(next, out.len());
}

#[test]
fn handshake_port_written_little_endian_reads_swapped() {
    let h = handshake(Intent::Status);
    let mut out = Vec::new();
    h.write_into(&mut out);
    let (back, _) = Handshake::read_from(&out, 0).unwrap();
    assert_eq!(back.server_port, 25565u16.swap_bytes());
    assert_eq!(back.server_address, "localhost");
    assert!(matches!(back.intent, Intent::Status));
}

#[test]
fn abort_guards_spot_overlong_and_negative_lengths() {
    assert!(varint_aborts(&[0x80, 0x80, 0x80, 0x80, 0x80, 0x01], 0));
    assert!(!varint_aborts(&[0x80, 0x80, 0x80, 0x80, 0x80], 0));
    assert!(!varint_aborts(&[0x01], 0));
    assert!(status_body_aborts(&[0xFF, 0xFF, 0xFF, 0xFF, 0xFF, 0xFF]));
    assert!(!status_body_aborts(&[0x00]));
    assert!(login_body_aborts(&[0x00, 0xFF, 0xFF, 0xFF, 0xFF, 0x0F]));
    assert!(!login_body_aborts(&[0x03]));
    assert!(handshake_aborts(&[0x01, 0xFF, 0xFF, 0xFF, 0xFF, 0x0F], 0));
    assert!(!handshake_aborts(&[0x01, 0x00, 0x00, 0x00, 0x01], 0));
}
