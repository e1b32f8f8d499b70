use vstd::prelude::*;

use crate::config::{page_route, page_route_config, RouteConfig};

verus! {

/// How far a session's connection has come.
#[derive(Clone, Copy, Debug, PartialEq, Eq, Structural)]
pub enum ConnectionState {
    New,
    Active,
    Closing,
}

/// One session; times are whole seconds since the Unix epoch.
pub struct Session {
    pub id: String,
    pub data: Vec<(String, String)>,
    pub created_at: u64,
    pub expires_at: u64,
    pub keep_alive: bool,
    pub last_activity: u64,
    pub connection_state: ConnectionState,
}

/// Every session of the process, each under its id; `session_duration` is in seconds.
pub struct SessionManager {
    pub sessions: Vec<(String, Session)>,
    pub session_duration: u64,
}

/// One hour, in seconds: a check that finds a session moves its expiry this far past the time of
/// the check.
pub const SESSION_SECONDS: u64 = 3600;

/// Relies on `SystemTime::now`: whole seconds since the Unix epoch (0 if the clock stands before
/// it). Nothing is known of the value.
#[verifier::external_body]
pub(crate) fn now_secs() -> (r: u64) {
    std::time::SystemTime::now().duration_since(std::time::UNIX_EPOCH).map(|d| d.as_secs()).unwrap_or(0)
}

/// Relies on `uuid::Uuid::new_v4` and its `Display`: a random version-4 id written as 36
/// lower-case hex digits and hyphens (8-4-4-4-12).
#[verifier::external_body]
pub(crate) fn new_session_id() -> (r: String)
    ensures
        r@.len() == 36,
        r@[8] == '-' && r@[13] == '-' && r@[18] == '-' && r@[23] == '-',
        r@[14] == '4',
{
    uuid::Uuid::new_v4().to_string()
}

/// No two entries share an id.
pub open spec fn ids_unique(ss: Seq<(String, Session)>) -> bool {
    forall|i: int, j: int|
        0 <= i < j < ss.len() ==> (#[trigger] ss[i]).0@ != (#[trigger] ss[j]).0@
}

/// The index of the entry under `id`.
pub open spec fn index_of(ss: Seq<(String, Session)>, id: Seq<char>) -> Option<int> {
    if exists|i: int| 0 <= i < ss.len() && (#[trigger] ss[i]).0@ == id {
        Some(choose|i: int| 0 <= i < ss.len() && (#[trigger] ss[i]).0@ == id)
    } else {
        None
    }
}

/// `new` holds, under every id but `id`, exactly the sessions `old` holds there, unchanged.
pub open spec fn others_kept(
    old: Seq<(String, Session)>,
    new: Seq<(String, Session)>,
    id: Seq<char>,
) -> bool {
    &&& forall|k: Seq<char>|
        k != id ==> (#[trigger] index_of(new, k) is Some) == (index_of(old, k) is Some)
    &&& forall|k: Seq<char>|
        k != id ==> match #[trigger] index_of(old, k) {
            Some(i) => index_of(new, k) matches Some(j) && new[j] == old[i],
            None => true,
        }
}

/// The expiry of a session created at `now` that lasts `duration` seconds (the largest time if
/// that overflows).
pub open spec fn expiry(now: u64, duration: u64) -> u64 {
    if now + duration <= u64::MAX {
        (now + duration) as u64
    } else {
        u64::MAX
    }
}

/// `s` is a new session under `id`, created at `now`.
pub open spec fn fresh_session(s: Session, id: Seq<char>, now: u64, duration: u64) -> bool {
    &&& s.id@ == id
    &&& s.data@.len() == 0
    &&& s.created_at == now
    &&& s.last_activity == now
    &&& s.expires_at == expiry(now, duration)
    &&& s.keep_alive
    &&& s.connection_state == ConnectionState::New
}

/// `new` is `old` with a new session under `id` created at `now`: one entry more, or the one
/// under `id` replaced, and every other session as it was.
pub open spec fn session_inserted(
    old: Seq<(String, Session)>,
    new: Seq<(String, Session)>,
    id: Seq<char>,
    now: u64,
    duration: u64,
) -> bool {
    &&& ids_unique(new)
    &&& index_of(new, id) matches Some(i) && fresh_session(new[i].1, id, now, duration)
    &&& others_kept(old, new, id)
    &&& new.len() == old.len() + (if index_of(old, id) is Some {
        0int
    } else {
        1int
    })
}

pub proof fn lemma_index_unique(ss: Seq<(String, Session)>, id: Seq<char>, i: int)
    requires
        ids_unique(ss),
        0 <= i < ss.len(),
        ss[i].0@ == id,
    ensures
        index_of(ss, id) == Some(i),
{
    let k = choose|k: int| 0 <= k < ss.len() && (#[trigger] ss[k]).0@ == id;
    if k < i {
        assert(ss[k].0@ != ss[i].0@);
    } else if i < k {
        assert(ss[i].0@ != ss[k].0@);
    }
}

impl Session {
    /// A session is expired once the time is past its expiry.
    pub fn is_expired_at(&self, now: u64) -> (r: bool)
        ensures
            r == (now > self.expires_at),
    {
        now > self.expires_at
    }

    /// Whether the session is expired now; one that expires at the largest time never is.
    pub fn is_expired(&self) -> (r: bool)
        ensures
            self.expires_at == u64::MAX ==> !r,
    {
        self.is_expired_at(now_secs())
    }

    /// A session's connection closes when it does not keep alive or the session has expired.
    pub fn should_close_at(&self, now: u64) -> (r: bool)
        ensures
            r == (!self.keep_alive || now > self.expires_at),
    {
        !self.keep_alive || self.is_expired_at(now)
    }

    /// Whether the session's connection closes now.
    pub fn should_close(&self) -> (r: bool)
        ensures
            !self.keep_alive ==> r,
            self.keep_alive && self.expires_at == u64::MAX ==> !r,
    {
        self.should_close_at(now_secs())
    }

    /// Records activity at the time `now`; nothing else changes.
    pub fn update_activity_at(&mut self, now: u64)
        ensures
            *final(self) == (Session { last_activity: now, ..*old(self) }),
    {
        self.last_activity = now;
    }

    /// Records activity now; nothing but the time of last activity changes.
    pub fn update_activity(&mut self)
        ensures
            final(self).id == old(self).id,
            final(self).data == old(self).data,
            final(self).created_at == old(self).created_at,
            final(self).expires_at == old(self).expires_at,
            final(self).keep_alive == old(self).keep_alive,
            final(self).connection_state == old(self).connection_state,
    {
        self.update_activity_at(now_secs());
    }
}

impl SessionManager {
    /// The two routes every server has for sessions: the session page, and the route that creates
    /// a session.
    pub fn get_default_routes() -> (r: Vec<(String, RouteConfig)>)
        ensures
            r@.len() == 2,
            r@[0].0@ == "/session"@,
            page_route(r@[0].1, "GET"@, Some("session.html"@)),
            r@[1].0@ == "/create-session"@,
            page_route(r@[1].1, "POST"@, None),
    {
        vec![
            ("/session".to_owned(), page_route_config("GET", Some("session.html"))),
            ("/create-session".to_owned(), page_route_config("POST", None)),
        ]
    }

    pub fn new(session_duration: u64) -> (r: Self)
        ensures
            r.sessions@.len() == 0,
            r.session_duration == session_duration,
            ids_unique(r.sessions@),
    {
        Self { sessions: Vec::new(), session_duration }
    }

    /// Whether no two sessions share an id, as every method that changes the store requires.
    pub fn has_unique_ids(&self) -> (r: bool)
        ensures
            r == ids_unique(self.sessions@),
    {
        let n = self.sessions.len();
        let mut j: usize = 0;
        while j < n
            invariant
                n == self.sessions@.len(),
                j <= n,
                forall|a: int, b: int|
                    0 <= a < b < j ==> (#[trigger] self.sessions@[a]).0@ != (#[trigger] self.sessions@[b]).0@,
            decreases n - j,
        {
            let mut i: usize = 0;
            while i < j
                invariant
                    n == self.sessions@.len(),
                    i <= j < n,
                    forall|a: int| 0 <= a < i ==> (#[trigger] self.sessions@[a]).0@ != self.sessions@[j as int].0@,
                decreases j - i,
            {
                if crate::text::same_text(self.sessions[i].0.as_str(), self.sessions[j].0.as_str()) {
                    return false;
                }
                i = i + 1;
            }
            j = j + 1;
        }
        true
    }

    fn find(&self, id: &str) -> (r: Option<usize>)
        requires
            ids_unique(self.sessions@),
        ensures
            match r {
                Some(i) => index_of(self.sessions@, id@) == Some(i as int),
                None => index_of(self.sessions@, id@) is None,
            },
    {
        let mut i: usize = 0;
        while i < self.sessions.len()
            invariant
                i <= self.sessions.len(),
                ids_unique(self.sessions@),
                forall|k: int| 0 <= k < i ==> (#[trigger] self.sessions@[k]).0@ != id@,
            decreases self.sessions.len() - i,
        {
            if crate::text::same_text(self.sessions[i].0.as_str(), id) {
                proof {
                    lemma_index_unique(self.sessions@, id@, i as int);
                }
                return Some(i);
            }
            i = i + 1;
        }
        None
    }

    /// Stores a new session under `id`, created at `now` and expiring `session_duration` seconds
    /// later (at the largest time if that overflows); a session already under `id` is replaced.
    pub fn insert_session(&mut self, id: String, now: u64) -> (r: String)
        requires
            ids_unique(old(self).sessions@),
        ensures
            r@ == id@,
            final(self).session_duration == old(self).session_duration,
            session_inserted(
                old(self).sessions@,
                final(self).sessions@,
                id@,
                now,
                old(self).session_duration,
            ),
    {
        self.remove_session(id.as_str());
        let session = Session {
            id: id.clone(),
            data: Vec::new(),
            created_at: now,
            expires_at: now.saturating_add(self.session_duration),
            keep_alive: true,
            last_activity: now,
            connection_state: ConnectionState::New,
        };
        let ghost before = self.sessions@;
        self.sessions.push((id.clone(), session));
        proof {
            let ss = self.sessions@;
            assert forall|i: int, j: int| 0 <= i < j < ss.len() implies (#[trigger] ss[i]).0@ != (
            #[trigger] ss[j]).0@ by {
                if j == ss.len() - 1 {
                    assert(before[i] == ss[i]);
                    assert(index_of(before, id@) is None);
                    if before[i].0@ == id@ {
                        assert(0 <= i < before.len() && before[i].0@ == id@);
                    }
                } else {
                    assert(before[i] == ss[i] && before[j] == ss[j]);
                }
            }
            lemma_index_unique(ss, id@, ss.len() - 1);
            assert forall|k: Seq<char>| k != id@ implies match #[trigger] index_of(before, k) {
                Some(x) => index_of(ss, k) matches Some(y) && ss[y] == before[x],
                None => true,
            } && ((index_of(ss, k) is Some) == (index_of(before, k) is Some)) by {
                if index_of(ss, k) is Some {
                    let i = choose|i: int| 0 <= i < ss.len() && (#[trigger] ss[i]).0@ == k;
                    assert(i < before.len());
                    assert(before[i] == ss[i]);
                }
                if index_of(before, k) is Some {
                    let x = choose|x: int| 0 <= x < before.len() && (#[trigger] before[x]).0@ == k;
                    assert(ss[x] == before[x]);
                    lemma_index_unique(ss, k, x);
                    lemma_index_unique(before, k, x);
                }
            }
            assert forall|k: Seq<char>| k != id@ implies match #[trigger] index_of(old(self).sessions@, k) {
                Some(x) => index_of(ss, k) matches Some(y) && ss[y] == old(self).sessions@[x],
                None => true,
            } && ((index_of(ss, k) is Some) == (index_of(old(self).sessions@, k) is Some)) by {
                assert(index_of(before, k) is Some == (index_of(old(self).sessions@, k) is Some));
                match index_of(before, k) {
                    Some(x) => {
                        assert(index_of(ss, k) matches Some(y) && ss[y] == before[x]);
                    },
                    None => {},
                }
            }
        }
        id
    }

    /// Creates a session with a fresh random id, starting now; returns its id.
    pub fn create_session(&mut self) -> (r: String)
        requires
            ids_unique(old(self).sessions@),
        ensures
            r@.len() == 36,
            final(self).session_duration == old(self).session_duration,
            exists|now: u64|
                session_inserted(
                    old(self).sessions@,
                    final(self).sessions@,
                    r@,
                    now,
                    old(self).session_duration,
                ),
    {
        let id = new_session_id();
        let now = now_secs();
        self.insert_session(id, now)
    }

    /// The session under `id`.
    pub fn get_session(&self, id: &str) -> (r: Option<&Session>)
        requires
            ids_unique(self.sessions@),
        ensures
            match index_of(self.sessions@, id@) {
                Some(i) => r == Some(&self.sessions@[i].1),
                None => r is None,
            },
    {
        match self.find(id) {
            Some(i) => Some(&self.sessions[i].1),
            None => None,
        }
    }

    /// The session under `id`, to change in place; the ids stay as they are.
    pub fn get_session_mut(&mut self, id: &str) -> (r: Option<&mut Session>)
        requires
            ids_unique(old(self).sessions@),
        ensures
            match index_of(old(self).sessions@, id@) {
                Some(i) => r matches Some(s) && *s == old(self).sessions@[i].1 && final(self).sessions@ == old(self).sessions@.update(i, (old(self).sessions@[i].0, *final(s))),
                None => r is None && final(self).sessions@ == old(self).sessions@,
            },
            final(self).session_duration == old(self).session_duration,
    {
        match self.find(id) {
            Some(i) => Some(&mut self.sessions[i].1),
            None => None,
        }
    }

    /// Removes the session under `id`, if there is one.
    pub fn remove_session(&mut self, id: &str)
        requires
            ids_unique(old(self).sessions@),
        ensures
            ids_unique(final(self).sessions@),
            final(self).session_duration == old(self).session_duration,
            index_of(final(self).sessions@, id@) is None,
            others_kept(old(self).sessions@, final(self).sessions@, id@),
            final(self).sessions@.len() == old(self).sessions@.len() - (if index_of(
                old(self).sessions@,
                id@,
            ) is Some {
                1int
            } else {
                0int
            }),
    {
        match self.find(id) {
            Some(i) => {
                let ghost before = self.sessions@;
                self.sessions.remove(i);
                proof {
                    let ss = self.sessions@;
                    assert(forall|j: int| 0 <= j < i ==> ss[j] == before[j]);
                    assert(forall|j: int| i <= j < ss.len() ==> ss[j] == before[j + 1]);
                    assert forall|a: int, b: int| 0 <= a < b < ss.len() implies (#[trigger] ss[a]).0@
                        != (#[trigger] ss[b]).0@ by {
                        let a2 = if a < i { a } else { a + 1 };
                        let b2 = if b < i { b } else { b + 1 };
                        assert(before[a2].0@ != before[b2].0@);
                    }
                    if index_of(ss, id@) is Some {
                        let j = choose|j: int| 0 <= j < ss.len() && (#[trigger] ss[j]).0@ == id@;
                        let j2 = if j < i { j } else { j + 1 };
                        assert(before[j2].0@ == id@);
                        assert(before[i as int].0@ == id@);
                    }
                    assert forall|k: Seq<char>| k != id@ implies match #[trigger] index_of(before, k) {
                        Some(x) => index_of(ss, k) matches Some(y) && ss[y] == before[x],
                        None => true,
                    } && ((index_of(ss, k) is Some) == (index_of(before, k) is Some)) by {
                        if index_of(before, k) is Some {
                            let x = choose|x: int| 0 <= x < before.len() && (#[trigger] before[x]).0@ == k;
                            lemma_index_unique(before, k, x);
                            assert(x != i);
                            let y = if x < i { x } else { x - 1 };
                            assert(ss[y] == before[x]);
                            lemma_index_unique(ss, k, y);
                        }
                        if index_of(ss, k) is Some {
                            let y = choose|y: int| 0 <= y < ss.len() && (#[trigger] ss[y]).0@ == k;
                            let x = if y < i { y } else { y + 1 };
                            assert(before[x] == ss[y]);
                        }
                    }
                }
            },
            None => {},
        }
    }
}

} // verus!
