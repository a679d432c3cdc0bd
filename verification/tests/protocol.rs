use sha2::Digest;

use config_it::connection::{retry_in_ms, step, AttemptPoll, ConnectionState, MAX_WAIT_MS};
use config_it::frames::{Frame, FrameSource, ReadPoll};
use config_it::handshake::{
    add_stage, collect_all_storage, server_handshake_step, ClientAction, ClientEvent,
    ClientHandshake, ClientStage, HandshakeFailure, Inbound, ServerAction, HELLO, LOGIN,
    SYSTEM_INTRODUCE,
};
use config_it::monitor::{AuthLevel, LoginResult, StorageTable, SystemIntroduce};
use config_it::relay::{AppConfig, SessionError, SessionRegistry, StatusCode};
use config_it::storage::Storage;

fn sys() -> SystemIntroduce {
    SystemIntroduce {
        system_name: "sys".to_string(),
        monitor_version: "1".to_string(),
        system_description: String::new(),
        desktop_name: "desk".to_string(),
        num_cores: 4,
        epoch_utc: 0,
    }
}

fn digest(data: &[u8]) -> Vec<u8> {
    let mut h = sha2::Sha512::new();
    h.update(data);
    h.finalize().to_vec()
}

#[test]
fn stages_skip_repeats() {
    let mut stages = Vec::new();
    add_stage(&mut stages, "login", "setup");
    add_stage(&mut stages, "login", "setup");
    add_stage(&mut stages, "login", "logging in ...");
    add_stage(&mut stages, "login", "setup");
    assert_eq!(stages.len(), 3);
}

#[test]
fn client_handshake_happy_path() {
    let mut h = ClientHandshake::new();
    assert!(matches!(h.step(ClientEvent::HelloSent), ClientAction::Ignore));
    assert!(matches!(h.step(ClientEvent::Start), ClientAction::SendHello));
    assert!(matches!(h.step(ClientEvent::HelloSent), ClientAction::AwaitHelloReply));
    assert!(matches!(h.step(ClientEvent::HelloReply(b"world".to_vec())), ClientAction::FetchSystemInfo));
    match h.step(ClientEvent::SystemInfo(sys())) {
        ClientAction::SendLogin(req) => {
            assert_eq!(req.id, "");
            assert_eq!(req.passwd_hash, digest(b""));
        }
        _ => panic!("expected a login"),
    }
    let shown = h.stages.clone();
    assert!(matches!(h.step(ClientEvent::LoginRefused), ClientAction::AskCredentials));
    assert_eq!(h.stage, ClientStage::AwaitingCredentials);
    // A refused login keeps the progress and the system's introduction.
    assert_eq!(h.stages, shown);
    assert!(h.sys_info.is_some());
    assert!(h.login.is_none());
    match h.step(ClientEvent::Credentials("bob".to_string(), "pw".to_string())) {
        ClientAction::SendLogin(req) => {
            assert_eq!(req.id, "bob");
            assert_eq!(req.passwd_hash, digest(b"pw"));
        }
        _ => panic!("expected a login"),
    }
    let res = LoginResult { auth_level: AuthLevel::ModifyConfig };
    assert!(matches!(h.step(ClientEvent::LoginAccepted(res)), ClientAction::StartSession));
    assert_eq!(h.stage, ClientStage::Done);
    assert_eq!(h.login.unwrap().auth_level, AuthLevel::ModifyConfig);
    assert_eq!(h.sys_info.as_ref().unwrap().num_cores, 4);
    let shown: Vec<(&str, &str)> = h.stages.iter().map(|(a, b)| (a.as_str(), b.as_str())).collect();
    assert_eq!(
        shown,
        vec![
            ("hello", "sending request"),
            ("hello", "waiting reply"),
            ("system info", "fetching"),
            ("login", "setup"),
            ("login", "logging in ..."),
            ("login successful", "starting ..."),
        ]
    );
    assert!(matches!(h.step(ClientEvent::TransportError), ClientAction::Ignore));
}

#[test]
fn client_handshake_failures() {
    let mut h = ClientHandshake::new();
    h.step(ClientEvent::Start);
    h.step(ClientEvent::HelloSent);
    assert!(matches!(
        h.step(ClientEvent::HelloReply(b"worle".to_vec())),
        ClientAction::Fail(HandshakeFailure::UnexpectedReply)
    ));
    assert_eq!(h.stage, ClientStage::Failed);

    let mut h = ClientHandshake::new();
    h.step(ClientEvent::Start);
    assert!(matches!(h.step(ClientEvent::TransportError), ClientAction::Fail(HandshakeFailure::Transport)));

    let mut h = ClientHandshake::new();
    h.step(ClientEvent::Start);
    h.step(ClientEvent::HelloSent);
    h.step(ClientEvent::HelloReply(b"world".to_vec()));
    h.step(ClientEvent::SystemInfo(sys()));
    h.step(ClientEvent::LoginRefused);
    assert!(matches!(
        h.step(ClientEvent::CredentialsCanceled),
        ClientAction::Fail(HandshakeFailure::LoginCanceled)
    ));
}

#[test]
fn server_handshake_routes() {
    let table = StorageTable::new()
        .entry("open", Storage::new())
        .submit()
        .entry("locked", Storage::new())
        .add_access_key_raw([9u8; 64], true)
        .submit();
    assert!(matches!(server_handshake_step(&Inbound::Notify, &table), ServerAction::Skip));
    assert!(matches!(server_handshake_step(&Inbound::Request(None), &table), ServerAction::Skip));
    let req = |r: &str| Inbound::Request(Some(r.to_string()));
    assert!(matches!(server_handshake_step(&req(HELLO), &table), ServerAction::ReplyWorld));
    assert!(matches!(server_handshake_step(&req(SYSTEM_INTRODUCE), &table), ServerAction::ReplySystemInfo));
    assert!(matches!(server_handshake_step(&req("handshake::BYE"), &table), ServerAction::Skip));
    match server_handshake_step(&req(LOGIN), &table) {
        ServerAction::ReplyLogin { auth_level, storages } => {
            assert_eq!(auth_level, AuthLevel::Admin);
            assert_eq!(storages.len(), 2);
            assert_eq!(storages[0].key, "open");
            assert!(!storages[0].require_auth);
            assert!(storages[1].require_auth);
        }
        _ => panic!("expected the login reply"),
    }
    assert_eq!(collect_all_storage(&StorageTable::new()).len(), 0);
}

#[test]
fn relay_sessions() {
    let conf = AppConfig::default();
    assert_eq!(conf.session_time_seconds, 2400);
    let mut reg = SessionRegistry::new();
    let r = reg.login("ann".to_string(), "Ann".to_string(), 0x101, 1, "a".to_string(), None, 1000, &conf);
    assert_eq!(r.expire_utc_ms, 1000 + 2400 * 1000);
    assert_eq!(r.user_alias, "Ann");
    assert_eq!(r.authority, 0x101);

    // A second session of the same user keeps the cached information.
    let r = reg.login("ann".to_string(), "Renamed".to_string(), 0x1, 2, "b".to_string(), None, 5, &conf);
    assert_eq!(r.user_alias, "Renamed");
    assert_eq!(reg.sessions[1].alias, "Ann");
    assert_eq!(reg.sessions[1].authority.bits, 0x101);
    assert_eq!(reg.connection_count("ann"), 2);

    assert_eq!(reg.authenticate(None), Err(StatusCode::BadRequest));
    assert_eq!(reg.authenticate(Some(7)), Err(StatusCode::Unauthorized));
    assert_eq!(reg.authenticate(Some(2)), Ok(()));
    assert_eq!(reg.extend(Some(2), 10, &conf), Ok(10 + 2_400_000));
    assert_eq!(reg.extend(Some(8), 10, &conf), Err(StatusCode::NotFound));
    assert_eq!(reg.extend(None, 10, &conf), Err(StatusCode::BadRequest));

    // Logging in with a previous session's cookie expires that session.
    reg.login("bo".to_string(), "Bo".to_string(), 0, 3, "c".to_string(), Some(1), 0, &conf);
    assert!(!reg.contains(1));
    assert_eq!(reg.connection_count("ann"), 1);

    assert_eq!(reg.logout(Some(2)), Ok(()));
    assert_eq!(reg.logout(Some(2)), Err(StatusCode::NotModified));
    assert_eq!(reg.logout(None), Err(StatusCode::BadRequest));
    assert_eq!(reg.connection_count("ann"), 0);
    assert_eq!(reg.expire_session(2), Err(SessionError::AlreadyExpired));

    // Once every session of a user is gone, a new login caches the new information.
    reg.login("ann".to_string(), "Ann2".to_string(), 0x2, 4, "d".to_string(), None, 0, &conf);
    let last = reg.sessions.last().unwrap();
    assert_eq!(last.alias, "Ann2");
}

#[test]
fn connection_cycle() {
    let mut s = ConnectionState::Uninit;
    let a = step(&mut s, 0, false, AttemptPoll::Pending);
    assert!(!a.start_attempt);
    assert_eq!(s, ConnectionState::Uninit);
    let a = step(&mut s, 100, true, AttemptPoll::Pending);
    assert!(a.start_attempt);
    assert_eq!(s, ConnectionState::Connecting { since: 100 });
    let a = step(&mut s, 200, true, AttemptPoll::Pending);
    assert!(a.repaint);
    assert_eq!(s, ConnectionState::Connecting { since: 100 });
    step(&mut s, 100 + MAX_WAIT_MS + 1, true, AttemptPoll::Pending);
    assert_eq!(s, ConnectionState::Broken { since: 100 + MAX_WAIT_MS + 1 });
    assert_eq!(retry_in_ms(100, 1100), MAX_WAIT_MS - 1000);
    assert_eq!(retry_in_ms(100, 90_000), 0);
    step(&mut s, 200 + 2 * MAX_WAIT_MS + 1, true, AttemptPoll::Pending);
    assert_eq!(s, ConnectionState::Uninit);

    let mut s = ConnectionState::Connecting { since: 0 };
    step(&mut s, 1, true, AttemptPoll::Connected);
    assert_eq!(s, ConnectionState::Active);
    let mut s = ConnectionState::Connecting { since: 0 };
    step(&mut s, 7, true, AttemptPoll::Closed);
    assert_eq!(s, ConnectionState::Broken { since: 7 });
}

#[test]
fn frame_reads() {
    let mut src = FrameSource::new();
    let mut buf = [0u8; 4];
    assert_eq!(src.read(&mut buf), ReadPoll::NeedFrame);

    src.push_frame(Frame::Other);
    src.push_frame(Frame::Binary(vec![1, 2, 3]));
    assert_eq!(src.read(&mut buf), ReadPoll::Ready(3));
    assert_eq!(&buf[..3], &[1, 2, 3]);
    assert_eq!(src.inbounds.len(), 0);

    // A message larger than the buffer is read in pieces, from a cursor into it.
    src.push_frame(Frame::Binary(vec![10, 11, 12, 13, 14, 15]));
    let mut small = [0u8; 2];
    assert_eq!(src.read(&mut small), ReadPoll::Ready(2));
    assert_eq!(small, [10, 11]);
    assert_eq!(src.head_cursor, 2);
    assert_eq!(src.read(&mut small), ReadPoll::Ready(2));
    assert_eq!(small, [12, 13]);
    assert_eq!(src.head_cursor, 4);
    assert_eq!(src.inbounds.len(), 1);
    // The message is dropped once all its bytes are read.
    assert_eq!(src.read(&mut small), ReadPoll::Ready(2));
    assert_eq!(small, [14, 15]);
    assert_eq!(src.head_cursor, 0);
    assert_eq!(src.inbounds.len(), 0);
    assert_eq!(src.read(&mut small), ReadPoll::NeedFrame);

    // A message read whole from its start is dropped.
    src.push_frame(Frame::Binary(vec![7, 8]));
    assert_eq!(src.read(&mut buf), ReadPoll::Ready(2));
    assert_eq!(src.inbounds.len(), 0);

    // A read with no room leaves the message as it is.
    src.push_frame(Frame::Binary(vec![5]));
    let mut none: [u8; 0] = [];
    assert_eq!(src.read(&mut none), ReadPoll::Ready(0));
    assert_eq!(src.inbounds.len(), 1);

    let mut src = FrameSource::new();
    src.push_frame(Frame::Close);
    assert_eq!(src.read(&mut buf), ReadPoll::Ready(0));
    assert_eq!(src.inbounds.len(), 1);
}

#[test]
fn frames_read_in_pieces() {
    let mut src = FrameSource::new();
    src.push_frame(Frame::Binary((0u8..10).collect()));
    src.push_frame(Frame::Other);
    src.push_frame(Frame::Binary(vec![10, 11]));
    let mut got: Vec<u8> = Vec::new();
    let mut sizes: Vec<usize> = Vec::new();
    loop {
        let mut buf = [0u8; 4];
        match src.read(&mut buf) {
            ReadPoll::Ready(n) => {
                sizes.push(n);
                got.extend_from_slice(&buf[..n]);
            }
            ReadPoll::NeedFrame => break,
        }
    }
    assert_eq!(sizes, vec![4, 4, 2, 2]);
    assert_eq!(got, (0u8..12).collect::<Vec<u8>>());
}
