//! The handshake between a monitor dashboard and the monitor server, right after the
//! connection is established:
//!
//! 0. the client sends `hello`, the server replies `world`;
//! 1. the client asks for the system's introduction;
//! 2. the client logs in, asking the user for credentials until the login succeeds;
//!    then the session starts.
//!
//! Both sides are written as steps from an event to what is to be done next; the caller
//! performs the actions and hands back what happened.
use vstd::prelude::*;

use crate::monitor::{AuthLevel, LoginRequest, LoginResult, StorageTable, SystemIntroduce};
use crate::text::str_eq;

verus! {

/// Route of the greeting.
pub const HELLO: &'static str = "handshake::HELLO";
/// Route of the system introduction.
pub const SYSTEM_INTRODUCE: &'static str = "handshake::SYSTEM_INTRODUCE";
/// Route of the login.
pub const LOGIN: &'static str = "handshake::LOGIN";

/* ------------------------------------------------------------------------------------------ */
/*                                          Progress                                          */
/* ------------------------------------------------------------------------------------------ */

/// The progress shown to the user: stages with their descriptions, oldest first.
pub open spec fn stages_view(s: Seq<(String, String)>) -> Seq<(Seq<char>, Seq<char>)> {
    s.map_values(|e: (String, String)| (e.0@, e.1@))
}

/// The progress after announcing `stage` with `desc`: the same entry twice in a row is
/// shown once.
pub open spec fn with_stage(s: Seq<(Seq<char>, Seq<char>)>, stage: Seq<char>, desc: Seq<char>) -> Seq<
    (Seq<char>, Seq<char>),
> {
    if s.len() > 0 && s.last() == (stage, desc) {
        s
    } else {
        s.push((stage, desc))
    }
}

/// Announces `stage` with `desc`, unless it is the last entry already.
pub fn add_stage(stages: &mut Vec<(String, String)>, stage: &str, desc: &str)
    ensures
        stages_view(final(stages)@) == with_stage(stages_view(old(stages)@), stage@, desc@),
{
    let n = stages.len();
    if n > 0 && str_eq(stages[n - 1].0.as_str(), stage) && str_eq(stages[n - 1].1.as_str(), desc) {
        proof {
            assert(stages_view(stages@).last() == (stage@, desc@));
        }
        return;
    }
    let ghost before = stages@;
    stages.push((stage.to_string(), desc.to_string()));
    proof {
        if n > 0 {
            assert(stages_view(before).last() == (before.last().0@, before.last().1@));
        }
        assert(stages_view(stages@) =~= stages_view(before).push((stage@, desc@)));
    }
}

/* ------------------------------------------------------------------------------------------ */
/*                                           Client                                           */
/* ------------------------------------------------------------------------------------------ */

/// Where the client's handshake stands.
#[derive(Debug, Clone, Copy, PartialEq, Eq, Structural)]
pub enum ClientStage {
    /// Not started.
    Idle,
    /// The greeting is being sent.
    SendingHello,
    /// The greeting was sent; the reply is awaited.
    AwaitingHello,
    /// The system's introduction is awaited.
    FetchingSystemInfo,
    /// A login was sent; its answer is awaited.
    LoggingIn,
    /// The user is asked for credentials.
    AwaitingCredentials,
    /// The handshake is done; the session starts.
    Done,
    /// The handshake failed.
    Failed,
}

/// Why the client's handshake failed.
#[derive(Debug, Clone, Copy, PartialEq, Eq, Structural)]
pub enum HandshakeFailure {
    /// The connection failed or closed.
    Transport,
    /// The greeting was answered with something else than `world`.
    UnexpectedReply,
    /// The user gave up logging in.
    LoginCanceled,
}

/// What happened since the last step.
#[derive(Debug)]
pub enum ClientEvent {
    /// The handshake is to begin.
    Start,
    /// The greeting went out.
    HelloSent,
    /// The reply to the greeting arrived, with its payload.
    HelloReply(Vec<u8>),
    /// The system's introduction arrived.
    SystemInfo(SystemIntroduce),
    /// The login succeeded.
    LoginAccepted(LoginResult),
    /// The login was refused, or its answer could not be read.
    LoginRefused,
    /// The user entered credentials.
    Credentials(String, String),
    /// The user closed the login without credentials.
    CredentialsCanceled,
    /// A request failed, or the connection closed.
    TransportError,
}

/// What the client is to do next.
#[derive(Debug)]
pub enum ClientAction {
    /// Send the greeting.
    SendHello,
    /// Wait for the reply to the greeting.
    AwaitHelloReply,
    /// Ask for the system's introduction.
    FetchSystemInfo,
    /// Send this login.
    SendLogin(LoginRequest),
    /// Show the login form.
    AskCredentials,
    /// Start the session.
    StartSession,
    /// Show the failure.
    Fail(HandshakeFailure),
    /// Nothing; the event does not fit where the handshake stands.
    Ignore,
}

/// The client's side of the handshake.
#[derive(Debug)]
pub struct ClientHandshake {
    pub stage: ClientStage,
    /// The progress shown to the user.
    pub stages: Vec<(String, String)>,
    /// The system's introduction, once it arrived.
    pub sys_info: Option<SystemIntroduce>,
    /// The login result, once the login succeeded.
    pub login: Option<LoginResult>,
}

/// The payload that answers the greeting.
pub open spec fn world() -> Seq<u8> {
    seq![119u8, 111u8, 114u8, 108u8, 100u8]
}

/// The stage the client moves to from `stage` on the event `ev`; it stays where the
/// event does not fit.
pub open spec fn client_next(stage: ClientStage, ev: ClientEvent) -> ClientStage {
    match (stage, ev) {
        (ClientStage::Done, _) => ClientStage::Done,
        (ClientStage::Failed, _) => ClientStage::Failed,
        (ClientStage::Idle, ClientEvent::Start) => ClientStage::SendingHello,
        (_, ClientEvent::TransportError) => if stage == ClientStage::Idle {
            ClientStage::Idle
        } else {
            ClientStage::Failed
        },
        (ClientStage::SendingHello, ClientEvent::HelloSent) => ClientStage::AwaitingHello,
        (ClientStage::AwaitingHello, ClientEvent::HelloReply(p)) => if p@ == world() {
            ClientStage::FetchingSystemInfo
        } else {
            ClientStage::Failed
        },
        (ClientStage::FetchingSystemInfo, ClientEvent::SystemInfo(_)) => ClientStage::LoggingIn,
        (ClientStage::LoggingIn, ClientEvent::LoginAccepted(_)) => ClientStage::Done,
        (ClientStage::LoggingIn, ClientEvent::LoginRefused) => ClientStage::AwaitingCredentials,
        (ClientStage::AwaitingCredentials, ClientEvent::Credentials(_, _)) => ClientStage::LoggingIn,
        (ClientStage::AwaitingCredentials, ClientEvent::CredentialsCanceled) => ClientStage::Failed,
        _ => stage,
    }
}

/// Whether the step from `stage` on `ev` adds a line to the progress shown to the user.
pub open spec fn adds_stage(stage: ClientStage, ev: ClientEvent) -> bool {
    match (stage, ev) {
        (ClientStage::Idle, ClientEvent::Start) => true,
        (ClientStage::SendingHello, ClientEvent::HelloSent) => true,
        (ClientStage::AwaitingHello, ClientEvent::HelloReply(p)) => p@ == world(),
        (ClientStage::FetchingSystemInfo, ClientEvent::SystemInfo(_)) => true,
        (ClientStage::LoggingIn, ClientEvent::LoginAccepted(_)) => true,
        (ClientStage::AwaitingCredentials, ClientEvent::Credentials(_, _)) => true,
        _ => false,
    }
}

impl ClientHandshake {
    /// A handshake that has not started.
    pub fn new() -> (r: ClientHandshake)
        ensures
            r.stage == ClientStage::Idle,
            r.stages@.len() == 0,
            r.sys_info is None,
            r.login is None,
    {
        ClientHandshake { stage: ClientStage::Idle, stages: Vec::new(), sys_info: None, login: None }
    }

    /// One step: takes what happened and tells what to do next. A login is first tried
    /// with an empty id and password; the user is asked for credentials only when it is
    /// refused.
    pub fn step(&mut self, ev: ClientEvent) -> (r: ClientAction)
        ensures
            final(self).stage == client_next(old(self).stage, ev),
            !adds_stage(old(self).stage, ev) ==> final(self).stages@ == old(self).stages@,
            !(old(self).stage == ClientStage::FetchingSystemInfo && ev is SystemInfo) ==> final(self).sys_info
                == old(self).sys_info,
            !(old(self).stage == ClientStage::LoggingIn && ev is LoginAccepted) ==> final(self).login
                == old(self).login,
            match (old(self).stage, ev) {
                (ClientStage::Idle, ClientEvent::Start) => r is SendHello && stages_view(final(self).stages@)
                    == with_stage(stages_view(old(self).stages@), "hello"@, "sending request"@),
                (ClientStage::SendingHello, ClientEvent::HelloSent) => r is AwaitHelloReply && stages_view(
                    final(self).stages@,
                ) == with_stage(stages_view(old(self).stages@), "hello"@, "waiting reply"@),
                (ClientStage::AwaitingHello, ClientEvent::HelloReply(p)) => if p@ == world() {
                    r is FetchSystemInfo && stages_view(final(self).stages@) == with_stage(
                        stages_view(old(self).stages@),
                        "system info"@,
                        "fetching"@,
                    )
                } else {
                    r == ClientAction::Fail(HandshakeFailure::UnexpectedReply)
                },
                (ClientStage::FetchingSystemInfo, ClientEvent::SystemInfo(info)) => {
                    &&& final(self).sys_info == Some(info)
                    &&& stages_view(final(self).stages@) == with_stage(stages_view(old(self).stages@), "login"@, "setup"@)
                    &&& r matches ClientAction::SendLogin(req) && req.id@.len() == 0
                        && req.passwd_hash@ == crate::monitor::sha512_of(seq![])
                },
                (ClientStage::LoggingIn, ClientEvent::LoginAccepted(res)) => {
                    &&& r is StartSession
                    &&& final(self).login == Some(res)
                    &&& stages_view(final(self).stages@) == with_stage(
                        stages_view(old(self).stages@),
                        "login successful"@,
                        "starting ..."@,
                    )
                },
                (ClientStage::LoggingIn, ClientEvent::LoginRefused) => r is AskCredentials,
                (ClientStage::AwaitingCredentials, ClientEvent::Credentials(id, pw)) => {
                    &&& stages_view(final(self).stages@) == with_stage(
                        stages_view(old(self).stages@),
                        "login"@,
                        "logging in ..."@,
                    )
                    &&& r matches ClientAction::SendLogin(req) && req.id == id && req.passwd_hash@
                        == crate::monitor::sha512_of(vstd::utf8::encode_utf8(pw@))
                },
                (ClientStage::AwaitingCredentials, ClientEvent::CredentialsCanceled) => r == ClientAction::Fail(
                    HandshakeFailure::LoginCanceled,
                ),
                (s, ClientEvent::TransportError) => if s == ClientStage::Idle || s == ClientStage::Done || s
                    == ClientStage::Failed {
                    r is Ignore
                } else {
                    r == ClientAction::Fail(HandshakeFailure::Transport)
                },
                _ => r is Ignore,
            },
    {
        proof {
            reveal_strlit("hello");
            reveal_strlit("sending request");
            reveal_strlit("waiting reply");
            reveal_strlit("system info");
            reveal_strlit("fetching");
            reveal_strlit("login");
            reveal_strlit("setup");
            reveal_strlit("login successful");
            reveal_strlit("starting ...");
            reveal_strlit("logging in ...");
            reveal_strlit("");
        }
        match (self.stage, ev) {
            (ClientStage::Done, _) => ClientAction::Ignore,
            (ClientStage::Failed, _) => ClientAction::Ignore,
            (ClientStage::Idle, ClientEvent::Start) => {
                add_stage(&mut self.stages, "hello", "sending request");
                self.stage = ClientStage::SendingHello;
                ClientAction::SendHello
            },
            (ClientStage::Idle, _) => ClientAction::Ignore,
            (_, ClientEvent::TransportError) => {
                self.stage = ClientStage::Failed;
                ClientAction::Fail(HandshakeFailure::Transport)
            },
            (ClientStage::SendingHello, ClientEvent::HelloSent) => {
                add_stage(&mut self.stages, "hello", "waiting reply");
                self.stage = ClientStage::AwaitingHello;
                ClientAction::AwaitHelloReply
            },
            (ClientStage::AwaitingHello, ClientEvent::HelloReply(p)) => {
                let expected: [u8; 5] = [119u8, 111u8, 114u8, 108u8, 100u8];
                let mut same = p.len() == 5;
                let mut i: usize = 0;
                while same && i < 5
                    invariant
                        i <= 5,
                        expected@ == world(),
                        same ==> p@.len() == 5,
                        same ==> forall|j: int| 0 <= j < i ==> p@[j] == world()[j],
                        !same ==> p@ != world(),
                    decreases 5 - i,
                {
                    if p[i] != expected[i] {
                        same = false;
                    }
                    i = i + 1;
                }
                if same {
                    proof {
                        assert(p@ =~= world());
                    }
                    add_stage(&mut self.stages, "system info", "fetching");
                    self.stage = ClientStage::FetchingSystemInfo;
                    ClientAction::FetchSystemInfo
                } else {
                    self.stage = ClientStage::Failed;
                    ClientAction::Fail(HandshakeFailure::UnexpectedReply)
                }
            },
            (ClientStage::FetchingSystemInfo, ClientEvent::SystemInfo(info)) => {
                self.sys_info = Some(info);
                add_stage(&mut self.stages, "login", "setup");
                self.stage = ClientStage::LoggingIn;
                proof {
                    assert(""@.len() == 0);
                    assert(vstd::utf8::encode_utf8(""@) =~= Seq::<u8>::empty());
                }
                ClientAction::SendLogin(LoginRequest::new(String::new(), ""))
            },
            (ClientStage::LoggingIn, ClientEvent::LoginAccepted(res)) => {
                self.login = Some(res);
                add_stage(&mut self.stages, "login successful", "starting ...");
                self.stage = ClientStage::Done;
                ClientAction::StartSession
            },
            (ClientStage::LoggingIn, ClientEvent::LoginRefused) => {
                self.stage = ClientStage::AwaitingCredentials;
                ClientAction::AskCredentials
            },
            (ClientStage::AwaitingCredentials, ClientEvent::Credentials(id, pw)) => {
                add_stage(&mut self.stages, "login", "logging in ...");
                self.stage = ClientStage::LoggingIn;
                ClientAction::SendLogin(LoginRequest::new(id, pw.as_str()))
            },
            (ClientStage::AwaitingCredentials, ClientEvent::CredentialsCanceled) => {
                self.stage = ClientStage::Failed;
                ClientAction::Fail(HandshakeFailure::LoginCanceled)
            },
            _ => ClientAction::Ignore,
        }
    }
}

/* ------------------------------------------------------------------------------------------ */
/*                                           Server                                           */
/* ------------------------------------------------------------------------------------------ */

/// A message that reached the server during the handshake.
#[derive(Debug)]
pub enum Inbound {
    /// A request, with its route where the route is valid text.
    Request(Option<String>),
    /// A notification, which needs no reply.
    Notify,
}

/// A storage as a monitor sees it before opening it: its name, and whether a key is
/// needed.
#[derive(Debug, Clone)]
pub struct StorageSummary {
    pub key: String,
    pub require_auth: bool,
}

/// What the server is to do with a message of the handshake.
#[derive(Debug)]
pub enum ServerAction {
    /// Pass over it and wait for the next message, without flushing.
    Skip,
    /// Reply `world`, flush, and wait for the next message.
    ReplyWorld,
    /// Reply the system's introduction, flush, and wait for the next message.
    ReplySystemInfo,
    /// Reply the login result with these storages, flush, and start the session.
    ReplyLogin { auth_level: AuthLevel, storages: Vec<StorageSummary> },
}

/// The storages of a table, in its order, each marked as needing a key where it has
/// access keys.
pub open spec fn summaries_match(table: StorageTable, s: Seq<StorageSummary>) -> bool {
    &&& s.len() == table.entries@.len()
    &&& forall|i: int|
        0 <= i < s.len() ==> (#[trigger] s[i]).key@ == table.entries@[i].0@ && s[i].require_auth
            == (table.entries@[i].1.access_keys@.len() > 0)
}

/// The storages of `table` as the login reply lists them.
pub fn collect_all_storage(table: &StorageTable) -> (r: Vec<StorageSummary>)
    ensures
        summaries_match(*table, r@),
{
    let mut r: Vec<StorageSummary> = Vec::new();
    let mut i: usize = 0;
    while i < table.entries.len()
        invariant
            i <= table.entries@.len(),
            r@.len() == i,
            forall|j: int|
                0 <= j < i ==> (#[trigger] r@[j]).key@ == table.entries@[j].0@ && r@[j].require_auth
                    == (table.entries@[j].1.access_keys@.len() > 0),
        decreases table.entries@.len() - i,
    {
        let key = table.entries[i].0.clone();
        let require_auth = table.entries[i].1.access_keys.len() > 0;
        r.push(StorageSummary { key, require_auth });
        i = i + 1;
    }
    r
}

/// What the server does with one message of the handshake: it answers the greeting and
/// the introduction request, grants every login the admin level, and passes over
/// notifications and unknown routes.
pub fn server_handshake_step(inbound: &Inbound, table: &StorageTable) -> (r: ServerAction)
    ensures
        match inbound {
            Inbound::Notify => r is Skip,
            Inbound::Request(None) => r is Skip,
            Inbound::Request(Some(route)) => if route@ == LOGIN@ {
                r matches ServerAction::ReplyLogin { auth_level, storages } && auth_level == AuthLevel::Admin
                    && summaries_match(*table, storages@)
            } else if route@ == SYSTEM_INTRODUCE@ {
                r is ReplySystemInfo
            } else if route@ == HELLO@ {
                r is ReplyWorld
            } else {
                r is Skip
            },
        },
{
    match inbound {
        Inbound::Notify => ServerAction::Skip,
        Inbound::Request(None) => ServerAction::Skip,
        Inbound::Request(Some(route)) => {
            if str_eq(route.as_str(), LOGIN) {
                ServerAction::ReplyLogin { auth_level: AuthLevel::Admin, storages: collect_all_storage(table) }
            } else if str_eq(route.as_str(), SYSTEM_INTRODUCE) {
                ServerAction::ReplySystemInfo
            } else if str_eq(route.as_str(), HELLO) {
                ServerAction::ReplyWorld
            } else {
                ServerAction::Skip
            }
        },
    }
}

} // verus!
