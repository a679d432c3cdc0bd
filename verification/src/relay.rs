//! Sessions of the relay server: who is logged in from where, and with which cached user
//! information.
//!
//! The user store, the session ids, the clock and the expiry timers are outside; they
//! hand their results to these functions, which decide what the sessions become and what
//! is answered.
use vstd::prelude::*;

use crate::access::Authority;

verus! {

/// Settings of the relay server.
#[derive(Debug, Clone, Copy)]
pub struct AppConfig {
    /// Session expiration time in seconds.
    pub session_time_seconds: usize,
}

impl Default for AppConfig {
    /// Sessions expire after 2400 seconds.
    fn default() -> (r: AppConfig)
        ensures
            r.session_time_seconds == 2400,
    {
        AppConfig { session_time_seconds: 2400 }
    }
}

/// A logged-in session: its id, the user it belongs to with that user's cached alias and
/// authority, and the address it came from.
#[derive(Debug)]
pub struct SessionEntry {
    pub uuid: u128,
    pub user_id: String,
    pub alias: String,
    pub authority: Authority,
    pub remote: String,
}

/// An HTTP status that a request is answered with.
#[derive(Debug, Clone, Copy, PartialEq, Eq, Structural)]
pub enum StatusCode {
    BadRequest,
    Unauthorized,
    NotModified,
    NotFound,
    InternalServerError,
}

/// Why a session could not be expired.
#[derive(Debug, Clone, Copy, PartialEq, Eq, Structural)]
pub enum SessionError {
    /// The session is already expired.
    AlreadyExpired,
}

/// The answer to a successful login.
#[derive(Debug)]
pub struct LoginReply {
    pub expire_utc_ms: u64,
    pub user_alias: String,
    pub authority: u32,
}

/// Every logged-in session. The information of a user is cached while some session of
/// the user is alive.
#[derive(Debug)]
pub struct SessionRegistry {
    pub sessions: Vec<SessionEntry>,
}

/// The position of the session `uuid`, where there is one.
pub open spec fn find_session(s: Seq<SessionEntry>, uuid: u128) -> Option<int> {
    if exists|i: int| 0 <= i < s.len() && (#[trigger] s[i]).uuid == uuid {
        Some(choose|i: int| 0 <= i < s.len() && (#[trigger] s[i]).uuid == uuid)
    } else {
        None
    }
}

/// The sessions without the session `uuid`.
pub open spec fn without_session(s: Seq<SessionEntry>, uuid: u128) -> Seq<SessionEntry> {
    match find_session(s, uuid) {
        Some(i) => s.remove(i),
        None => s,
    }
}

/// The position of some session of the user `id`, where there is one.
pub open spec fn find_user(s: Seq<SessionEntry>, id: Seq<char>) -> Option<int> {
    if exists|i: int| 0 <= i < s.len() && (#[trigger] s[i]).user_id@ == id {
        Some(choose|i: int| 0 <= i < s.len() && (#[trigger] s[i]).user_id@ == id)
    } else {
        None
    }
}

/// Ids are distinct, and the sessions of a user share the user's cached information.
pub open spec fn sessions_wf(s: Seq<SessionEntry>) -> bool {
    &&& forall|i: int, j: int| 0 <= i < s.len() && 0 <= j < s.len() && i != j ==> (#[trigger] s[i]).uuid != (#[trigger] s[j]).uuid
    &&& forall|i: int, j: int|
        0 <= i < s.len() && 0 <= j < s.len() && (#[trigger] s[i]).user_id@ == (#[trigger] s[j]).user_id@ ==> s[i].alias
            == s[j].alias && s[i].authority == s[j].authority
}

/// The number of sessions of the user `id`.
pub open spec fn connections(s: Seq<SessionEntry>, id: Seq<char>) -> nat {
    s.filter(|e: SessionEntry| e.user_id@ == id).len()
}

/// Every authority bit that exists.
pub open spec fn known_authority(bits: u32) -> bool {
    bits & 0x1ff == bits
}

impl SessionRegistry {
    /// Ids distinct, user information shared.
    pub open spec fn wf(self) -> bool {
        sessions_wf(self.sessions@)
    }

    /// No session.
    pub fn new() -> (r: SessionRegistry)
        ensures
            r.wf(),
            r.sessions@.len() == 0,
    {
        SessionRegistry { sessions: Vec::new() }
    }

    /// The position of the session `uuid`.
    fn position(&self, uuid: u128) -> (r: Option<usize>)
        requires
            self.wf(),
        ensures
            match r {
                Some(i) => find_session(self.sessions@, uuid) == Some(i as int),
                None => find_session(self.sessions@, uuid) is None,
            },
    {
        let mut i: usize = 0;
        while i < self.sessions.len()
            invariant
                self.wf(),
                i <= self.sessions@.len(),
                forall|j: int| 0 <= j < i ==> (#[trigger] self.sessions@[j]).uuid != uuid,
            decreases self.sessions@.len() - i,
        {
            if self.sessions[i].uuid == uuid {
                proof {
                    let k = choose|k: int| 0 <= k < self.sessions@.len() && (#[trigger] self.sessions@[k]).uuid == uuid;
                    if k != i {
                        assert(self.sessions@[k].uuid != self.sessions@[i as int].uuid);
                    }
                }
                return Some(i);
            }
            i = i + 1;
        }
        None
    }

    /// Whether the session `uuid` is alive.
    pub fn contains(&self, uuid: u128) -> (r: bool)
        requires
            self.wf(),
        ensures
            r == (find_session(self.sessions@, uuid) is Some),
    {
        self.position(uuid).is_some()
    }

    /// Ends the session `uuid`; once the last session of a user ends, the user's cached
    /// information is gone with it.
    pub fn expire_session(&mut self, uuid: u128) -> (r: Result<(), SessionError>)
        requires
            old(self).wf(),
        ensures
            final(self).wf(),
            final(self).sessions@ == without_session(old(self).sessions@, uuid),
            r is Ok <==> find_session(old(self).sessions@, uuid) is Some,
            r is Err ==> r == Err::<(), SessionError>(SessionError::AlreadyExpired),
    {
        match self.position(uuid) {
            Some(i) => {
                let ghost old_s = self.sessions@;
                self.sessions.remove(i);
                proof {
                    let s = self.sessions@;
                    assert forall|a: int, b: int| 0 <= a < s.len() && 0 <= b < s.len() && a != b implies (
                    #[trigger] s[a]).uuid != (#[trigger] s[b]).uuid by {
                        let oa = if a < i { a } else { a + 1 };
                        let ob = if b < i { b } else { b + 1 };
                        assert(s[a] == old_s[oa] && s[b] == old_s[ob]);
                    }
                    assert forall|a: int, b: int|
                        0 <= a < s.len() && 0 <= b < s.len() && (#[trigger] s[a]).user_id@ == (
                        #[trigger] s[b]).user_id@ implies s[a].alias == s[b].alias && s[a].authority
                        == s[b].authority by {
                        let oa = if a < i { a } else { a + 1 };
                        let ob = if b < i { b } else { b + 1 };
                        assert(s[a] == old_s[oa] && s[b] == old_s[ob]);
                    }
                }
                Ok(())
            },
            None => Err(SessionError::AlreadyExpired),
        }
    }

    /// Whether a request that carries the session id `uuid` may go on: `BadRequest`
    /// without an id, `Unauthorized` for a session that is not alive.
    pub fn authenticate(&self, uuid: Option<u128>) -> (r: Result<(), StatusCode>)
        requires
            self.wf(),
        ensures
            match uuid {
                None => r == Err::<(), StatusCode>(StatusCode::BadRequest),
                Some(u) => if find_session(self.sessions@, u) is Some {
                    r is Ok
                } else {
                    r == Err::<(), StatusCode>(StatusCode::Unauthorized)
                },
            },
    {
        match uuid {
            None => Err(StatusCode::BadRequest),
            Some(u) => if self.contains(u) {
                Ok(())
            } else {
                Err(StatusCode::Unauthorized)
            },
        }
    }

    /// Logs out the session `uuid`: `BadRequest` without an id, `NotModified` for a
    /// session that is not alive.
    pub fn logout(&mut self, uuid: Option<u128>) -> (r: Result<(), StatusCode>)
        requires
            old(self).wf(),
        ensures
            final(self).wf(),
            match uuid {
                None => r == Err::<(), StatusCode>(StatusCode::BadRequest) && final(self).sessions@ == old(
                    self,
                ).sessions@,
                Some(u) => final(self).sessions@ == without_session(old(self).sessions@, u) && if find_session(
                    old(self).sessions@,
                    u,
                ) is Some {
                    r is Ok
                } else {
                    r == Err::<(), StatusCode>(StatusCode::NotModified)
                },
            },
    {
        match uuid {
            None => Err(StatusCode::BadRequest),
            Some(u) => match self.expire_session(u) {
                Ok(()) => Ok(()),
                Err(_) => Err(StatusCode::NotModified),
            },
        }
    }

    /// Extends the session `uuid`: returns its new expiry time, `now_ms` plus the session
    /// time, in milliseconds. `BadRequest` without an id, `NotFound` for a session that is
    /// not alive.
    pub fn extend(&self, uuid: Option<u128>, now_ms: u64, conf: &AppConfig) -> (r: Result<u64, StatusCode>)
        requires
            self.wf(),
            now_ms + conf.session_time_seconds * 1000 <= u64::MAX,
        ensures
            match uuid {
                None => r == Err::<u64, StatusCode>(StatusCode::BadRequest),
                Some(u) => if find_session(self.sessions@, u) is Some {
                    r == Ok::<u64, StatusCode>((now_ms + conf.session_time_seconds * 1000) as u64)
                } else {
                    r == Err::<u64, StatusCode>(StatusCode::NotFound)
                },
            },
    {
        match uuid {
            None => Err(StatusCode::BadRequest),
            Some(u) => if self.contains(u) {
                Ok(expire_utc_ms(now_ms, conf))
            } else {
                Err(StatusCode::NotFound)
            },
        }
    }

    /// The number of live sessions of the user `id`.
    pub fn connection_count(&self, id: &str) -> (r: usize)
        ensures
            r == connections(self.sessions@, id@),
    {
        let mut n: usize = 0;
        let mut i: usize = 0;
        let ghost f = |e: SessionEntry| e.user_id@ == id@;
        proof {
            assert(self.sessions@.subrange(0, 0).filter(f) =~= Seq::<SessionEntry>::empty());
        }
        while i < self.sessions.len()
            invariant
                i <= self.sessions@.len(),
                f == (|e: SessionEntry| e.user_id@ == id@),
                n == self.sessions@.subrange(0, i as int).filter(f).len(),
                n <= i,
            decreases self.sessions@.len() - i,
        {
            proof {
                let pre = self.sessions@.subrange(0, i as int);
                let post = self.sessions@.subrange(0, i + 1);
                assert(post.drop_last() =~= pre);
                assert(post.last() == self.sessions@[i as int]);
                assert(post.filter(f) == if f(post.last()) {
                    pre.filter(f).push(post.last())
                } else {
                    pre.filter(f)
                }) by {
                    reveal(Seq::filter);
                }
            }
            if crate::text::str_eq(self.sessions[i].user_id.as_str(), id) {
                n = n + 1;
            }
            i = i + 1;
        }
        proof {
            assert(self.sessions@.subrange(0, i as int) =~= self.sessions@);
        }
        n
    }

    /// Logs in the user `id`, whose alias and authority bits the user store gave, as the
    /// new session `uuid` from `remote`. A user who has a live session keeps the cached
    /// alias and authority; the reply carries the stored ones. A previous session that
    /// the client names in `prev` is expired; that it is gone already is no error.
    pub fn login(
        &mut self,
        id: String,
        alias: String,
        authority: u32,
        uuid: u128,
        remote: String,
        prev: Option<u128>,
        now_ms: u64,
        conf: &AppConfig,
    ) -> (r: LoginReply)
        requires
            old(self).wf(),
            known_authority(authority),
            find_session(old(self).sessions@, uuid) is None,
            now_ms + conf.session_time_seconds * 1000 <= u64::MAX,
        ensures
            final(self).wf(),
            ({
                let entry = match find_user(old(self).sessions@, id@) {
                    Some(k) => SessionEntry {
                        uuid,
                        user_id: id,
                        alias: old(self).sessions@[k].alias,
                        authority: old(self).sessions@[k].authority,
                        remote,
                    },
                    None => SessionEntry { uuid, user_id: id, alias, authority: Authority { bits: authority }, remote },
                };
                let added = old(self).sessions@.push(entry);
                final(self).sessions@ == match prev {
                    Some(p) => without_session(added, p),
                    None => added,
                }
            }),
            r.expire_utc_ms == now_ms + conf.session_time_seconds * 1000,
            r.user_alias == alias,
            r.authority == authority,
    {
        let ghost old_s = self.sessions@;
        let mut cached: Option<usize> = None;
        let mut i: usize = 0;
        while i < self.sessions.len()
            invariant
                sessions_wf(old_s),
                i <= self.sessions@.len(),
                self.sessions@ == old_s,
                cached is None ==> forall|j: int| 0 <= j < i ==> (#[trigger] old_s[j]).user_id@ != id@,
                cached matches Some(k) ==> k < old_s.len() && old_s[k as int].user_id@ == id@,
            decreases self.sessions@.len() - i,
        {
            if cached.is_none() && crate::text::str_eq(self.sessions[i].user_id.as_str(), id.as_str()) {
                cached = Some(i);
            }
            i = i + 1;
        }
        let entry = match cached {
            Some(k) => {
                proof {
                    let c = choose|c: int| 0 <= c < old_s.len() && (#[trigger] old_s[c]).user_id@ == id@;
                    assert(old_s[c].alias == old_s[k as int].alias);
                }
                SessionEntry {
                    uuid,
                    user_id: id,
                    alias: self.sessions[k].alias.clone(),
                    authority: self.sessions[k].authority,
                    remote,
                }
            },
            None => SessionEntry {
                uuid,
                user_id: id,
                alias: alias.clone(),
                authority: Authority::from_bits(authority),
                remote,
            },
        };
        self.sessions.push(entry);
        proof {
            let s = self.sessions@;
            let n = old_s.len() as int;
            assert forall|a: int, b: int| 0 <= a < s.len() && 0 <= b < s.len() && a != b implies (
            #[trigger] s[a]).uuid != (#[trigger] s[b]).uuid by {
                if a < n && b < n {
                    assert(s[a] == old_s[a] && s[b] == old_s[b]);
                } else if a < n {
                    assert(s[a] == old_s[a]);
                    assert(find_session(old_s, uuid) is None);
                    assert(old_s[a].uuid != uuid);
                } else {
                    assert(s[b] == old_s[b]);
                    assert(old_s[b].uuid != uuid);
                }
            }
            assert forall|a: int, b: int|
                0 <= a < s.len() && 0 <= b < s.len() && (#[trigger] s[a]).user_id@ == (#[trigger] s[b]).user_id@ implies s[a].alias
                == s[b].alias && s[a].authority == s[b].authority by {
                if a < n && b < n {
                    assert(s[a] == old_s[a] && s[b] == old_s[b]);
                } else if a < n {
                    assert(s[a] == old_s[a]);
                    if cached is None {
                        assert(old_s[a].user_id@ != id@);
                    }
                } else if b < n {
                    assert(s[b] == old_s[b]);
                    if cached is None {
                        assert(old_s[b].user_id@ != id@);
                    }
                }
            }
        }
        match prev {
            Some(p) => {
                let _ = self.expire_session(p);
            },
            None => {},
        }
        LoginReply { expire_utc_ms: expire_utc_ms(now_ms, conf), user_alias: alias, authority }
    }
}

/// The time, in milliseconds since the epoch, at which a session made at `now_ms`
/// expires.
pub fn expire_utc_ms(now_ms: u64, conf: &AppConfig) -> (r: u64)
    requires
        now_ms + conf.session_time_seconds * 1000 <= u64::MAX,
    ensures
        r == now_ms + conf.session_time_seconds * 1000,
{
    let secs = conf.session_time_seconds as u64;
    now_ms + secs * 1000
}

} // verus!
