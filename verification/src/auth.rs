//! Bearer and browser-session authentication shared by every HTTP and
//! WebSocket route.  A native client presents the bearer secret; a browser
//! debug client holds an opaque server-side session (an `HttpOnly` cookie)
//! that is bound to the credential generation, ages out, idles out, expires,
//! and needs its CSRF nonce on every mutation.  Times are passed in: a
//! monotonic clock in nanoseconds and the wall clock in Unix nanoseconds.

use vstd::prelude::*;

use subtle::ConstantTimeEq;

use crate::api::{BackupResultDto, TokenRotationDto, UpgradeJournalDto};
use crate::text::{
    chars_of, slice_vec, split_char, split_vec, starts_with, starts_with_vec, str_eq, string_of,
    trim, trim_chars,
};

verus! {

/// A browser session is refused once this long has passed since it was
/// issued (15 minutes).
pub const SESSION_MAX_AGE_NANOS: u64 = 900_000_000_000;

/// A browser session is refused once it was idle this long (10 minutes).
pub const SESSION_IDLE_NANOS: u64 = 600_000_000_000;

/// Wall-clock lifetime written into a new browser session (10 minutes).
pub const SESSION_TTL_NANOS: i128 = 600_000_000_000;

/// The authenticated caller of one request: the credential generation it
/// was authenticated under, and whether it holds a browser session (rather
/// than the bearer secret).
#[derive(Debug, Clone, Copy, PartialEq, Eq, Structural)]
pub struct AuthSession {
    pub generation: u64,
    is_browser_session: bool,
}

impl AuthSession {
    /// The credential generation this caller authenticated under.
    pub closed spec fn credential(&self) -> u64 {
        self.generation
    }

    /// Whether this caller authenticated with a browser session.
    pub closed spec fn browser(&self) -> bool {
        self.is_browser_session
    }

    /// Whether this caller authenticated with a browser session.
    pub fn is_browser_session(&self) -> (r: bool)
        ensures
            r == self.browser(),
    {
        self.is_browser_session
    }

    fn bearer(generation: u64) -> (r: Self)
        ensures
            r.credential() == generation,
            !r.browser(),
    {
        AuthSession { generation, is_browser_session: false }
    }

    fn session(generation: u64) -> (r: Self)
        ensures
            r.credential() == generation,
            r.browser(),
    {
        AuthSession { generation, is_browser_session: true }
    }
}

/// What a new browser session tells the renderer: only the non-secret CSRF
/// nonce and when the session expires (Unix nanoseconds).
#[derive(Debug, Clone, PartialEq, Eq)]
pub struct SessionBootstrapDto {
    pub csrf_token: String,
    pub expires_at: i128,
}

/// One server-side browser session.
#[derive(Debug)]
pub struct BrowserSession {
    pub id: String,
    pub generation: u64,
    pub csrf_token: String,
    /// Monotonic time of issue.
    pub issued_at: u64,
    /// Monotonic time of last successful use.
    pub last_used_at: u64,
    /// Wall-clock expiry.
    pub expires_at: i128,
}

/// The abstract content of a browser session (its id is the map key).
pub struct SessionRecord {
    pub generation: u64,
    pub csrf_token: Seq<char>,
    pub issued_at: u64,
    pub last_used_at: u64,
    pub expires_at: i128,
}

pub open spec fn record_of(s: BrowserSession) -> SessionRecord {
    SessionRecord {
        generation: s.generation,
        csrf_token: s.csrf_token@,
        issued_at: s.issued_at,
        last_used_at: s.last_used_at,
        expires_at: s.expires_at,
    }
}

pub open spec fn ids_unique(entries: Seq<BrowserSession>) -> bool {
    forall|i: int, j: int|
        0 <= i < entries.len() && 0 <= j < entries.len() && i != j ==> #[trigger] entries[i].id@
            != #[trigger] entries[j].id@
}

pub open spec fn has_id(entries: Seq<BrowserSession>, id: Seq<char>) -> bool {
    exists|i: int| 0 <= i < entries.len() && #[trigger] entries[i].id@ == id
}

pub open spec fn sessions_view(entries: Seq<BrowserSession>) -> Map<Seq<char>, SessionRecord> {
    Map::new(
        |id: Seq<char>| has_id(entries, id),
        |id: Seq<char>| record_of(entries[choose|i: int| 0 <= i < entries.len() && #[trigger] entries[i].id@ == id]),
    )
}

proof fn lemma_view_at(entries: Seq<BrowserSession>, i: int)
    requires
        ids_unique(entries),
        0 <= i < entries.len(),
    ensures
        sessions_view(entries).contains_key(entries[i].id@),
        sessions_view(entries)[entries[i].id@] == record_of(entries[i]),
{
    let id = entries[i].id@;
    assert(has_id(entries, id));
    let j = choose|j: int| 0 <= j < entries.len() && #[trigger] entries[j].id@ == id;
    assert(entries[j].id@ == id);
    if j != i {
        assert(entries[i].id@ != entries[j].id@);
    }
}

/// The browser sessions of one credential holder, keyed by session id.
pub struct SessionTable {
    entries: Vec<BrowserSession>,
}

impl SessionTable {
    /// No two sessions share an id.
    pub closed spec fn wf(&self) -> bool {
        ids_unique(self.entries@)
    }

    /// The sessions, by id.
    pub closed spec fn view(&self) -> Map<Seq<char>, SessionRecord> {
        sessions_view(self.entries@)
    }

    /// A table without sessions.
    pub fn new() -> (t: Self)
        ensures
            t.wf(),
            t@ == Map::<Seq<char>, SessionRecord>::empty(),
    {
        let t = SessionTable { entries: Vec::new() };
        proof {
            assert(t@ =~= Map::<Seq<char>, SessionRecord>::empty());
        }
        t
    }

    /// Number of sessions held.
    pub fn len(&self) -> (n: usize)
        requires
            self.wf(),
        ensures
            n == self@.dom().len(),
    {
        proof {
            self.lemma_len();
        }
        self.entries.len()
    }

    proof fn lemma_len(&self)
        requires
            self.wf(),
        ensures
            self@.dom().len() == self.entries@.len(),
            self@.dom().finite(),
        decreases self.entries@.len(),
    {
        let e = self.entries@;
        let ids = e.map_values(|s: BrowserSession| s.id@);
        assert forall|i: int, j: int| 0 <= i < ids.len() && 0 <= j < ids.len() && i != j implies ids[i]
            != ids[j] by {
            assert(e[i].id@ != e[j].id@);
        }
        assert(ids.no_duplicates());
        ids.unique_seq_to_set();
        assert(self@.dom() =~= ids.to_set()) by {
            assert forall|id: Seq<char>| self@.dom().contains(id) implies ids.to_set().contains(id) by {
                let i = choose|i: int| 0 <= i < e.len() && #[trigger] e[i].id@ == id;
                assert(ids[i] == id);
            }
            assert forall|id: Seq<char>| ids.to_set().contains(id) implies self@.dom().contains(id) by {
                let i = choose|i: int| 0 <= i < ids.len() && ids[i] == id;
                assert(e[i].id@ == id);
            }
        }
    }

    /// Index of the session with `id`.
    fn find(&self, id: &str) -> (r: Option<usize>)
        requires
            self.wf(),
        ensures
            r matches Some(i) ==> i < self.entries@.len() && self.entries@[i as int].id@ == id@,
            r is None ==> !self@.contains_key(id@),
    {
        let mut i: usize = 0;
        while i < self.entries.len()
            invariant
                i <= self.entries@.len(),
                forall|j: int| 0 <= j < i ==> #[trigger] self.entries@[j].id@ != id@,
            decreases self.entries@.len() - i,
        {
            if str_eq(self.entries[i].id.as_str(), id) {
                return Some(i);
            }
            i += 1;
        }
        None
    }

    /// Stores `session` under its id, replacing a session with the same id.
    pub fn insert(&mut self, session: BrowserSession)
        requires
            old(self).wf(),
        ensures
            final(self).wf(),
            final(self)@ == old(self)@.insert(session.id@, record_of(session)),
    {
        let ghost old_entries = self.entries@;
        let ghost id = session.id@;
        let ghost rec = record_of(session);
        match self.find(session.id.as_str()) {
            Some(i) => {
                self.entries.set(i, session);
                proof {
                    let e = self.entries@;
                    assert(e == old_entries.update(i as int, session));
                    assert(ids_unique(e)) by {
                        assert forall|a: int, b: int|
                            0 <= a < e.len() && 0 <= b < e.len() && a != b implies #[trigger] e[a].id@
                            != #[trigger] e[b].id@ by {
                            if a != i && b != i {
                                assert(old_entries[a].id@ != old_entries[b].id@);
                            } else if a == i {
                                assert(old_entries[i as int].id@ != old_entries[b].id@);
                            } else {
                                assert(old_entries[a].id@ != old_entries[i as int].id@);
                            }
                        }
                    }
                    assert(self@ =~= sessions_view(old_entries).insert(id, rec)) by {
                        assert forall|k: Seq<char>| #[trigger] self@.contains_key(k) == sessions_view(
                            old_entries,
                        ).insert(id, rec).contains_key(k) by {
                            if self@.contains_key(k) {
                                let j = choose|j: int| 0 <= j < e.len() && #[trigger] e[j].id@ == k;
                                if j != i {
                                    assert(old_entries[j].id@ == k);
                                }
                            }
                            if k != id && sessions_view(old_entries).contains_key(k) {
                                let j = choose|j: int| 0 <= j < old_entries.len() && #[trigger] old_entries[j].id@ == k;
                                assert(e[j].id@ == k);
                            }
                            if k == id {
                                assert(e[i as int].id@ == k);
                            }
                        }
                        assert forall|k: Seq<char>| #[trigger] self@.contains_key(k) implies self@[k]
                            == sessions_view(old_entries).insert(id, rec)[k] by {
                            let j = choose|j: int| 0 <= j < e.len() && #[trigger] e[j].id@ == k;
                            lemma_view_at(e, j);
                            if j != i {
                                lemma_view_at(old_entries, j);
                            }
                        }
                    }
                }
            },
            None => {
                self.entries.push(session);
                proof {
                    let e = self.entries@;
                    assert(e == old_entries.push(session));
                    assert(!has_id(old_entries, id));
                    assert(ids_unique(e)) by {
                        assert forall|a: int, b: int|
                            0 <= a < e.len() && 0 <= b < e.len() && a != b implies #[trigger] e[a].id@
                            != #[trigger] e[b].id@ by {
                            if a < old_entries.len() && b < old_entries.len() {
                                assert(old_entries[a].id@ != old_entries[b].id@);
                            } else if a < old_entries.len() {
                                assert(old_entries[a].id@ != id);
                            } else {
                                assert(old_entries[b].id@ != id);
                            }
                        }
                    }
                    assert(self@ =~= sessions_view(old_entries).insert(id, rec)) by {
                        assert forall|k: Seq<char>| #[trigger] self@.contains_key(k) == sessions_view(
                            old_entries,
                        ).insert(id, rec).contains_key(k) by {
                            if self@.contains_key(k) && k != id {
                                let j = choose|j: int| 0 <= j < e.len() && #[trigger] e[j].id@ == k;
                                assert(old_entries[j].id@ == k);
                            }
                            if k != id && sessions_view(old_entries).contains_key(k) {
                                let j = choose|j: int| 0 <= j < old_entries.len() && #[trigger] old_entries[j].id@ == k;
                                assert(e[j].id@ == k);
                            }
                            if k == id {
                                assert(e[old_entries.len() as int].id@ == k);
                            }
                        }
                        assert forall|k: Seq<char>| #[trigger] self@.contains_key(k) implies self@[k]
                            == sessions_view(old_entries).insert(id, rec)[k] by {
                            let j = choose|j: int| 0 <= j < e.len() && #[trigger] e[j].id@ == k;
                            lemma_view_at(e, j);
                            if j < old_entries.len() {
                                lemma_view_at(old_entries, j);
                            }
                        }
                    }
                }
            },
        }
    }

    /// Drops the session with `id`, if there is one.
    pub fn remove(&mut self, id: &str)
        requires
            old(self).wf(),
        ensures
            final(self).wf(),
            final(self)@ == old(self)@.remove(id@),
    {
        let ghost old_entries = self.entries@;
        match self.find(id) {
            Some(i) => {
                let _removed = self.entries.remove(i);
                proof {
                    let e = self.entries@;
                    assert(e == old_entries.remove(i as int));
                    assert forall|j: int| 0 <= j < e.len() implies #[trigger] e[j] == (if j < i {
                        old_entries[j]
                    } else {
                        old_entries[j + 1]
                    }) by {}
                    assert(ids_unique(e)) by {
                        assert forall|a: int, b: int|
                            0 <= a < e.len() && 0 <= b < e.len() && a != b implies #[trigger] e[a].id@
                            != #[trigger] e[b].id@ by {
                            let oa = if a < i { a } else { a + 1 };
                            let ob = if b < i { b } else { b + 1 };
                            assert(old_entries[oa].id@ != old_entries[ob].id@);
                        }
                    }
                    assert(self@ =~= sessions_view(old_entries).remove(id@)) by {
                        assert forall|k: Seq<char>| #[trigger] self@.contains_key(k) == sessions_view(
                            old_entries,
                        ).remove(id@).contains_key(k) by {
                            if self@.contains_key(k) {
                                let j = choose|j: int| 0 <= j < e.len() && #[trigger] e[j].id@ == k;
                                let oj = if j < i { j } else { j + 1 };
                                assert(old_entries[oj].id@ == k);
                                assert(old_entries[oj].id@ != old_entries[i as int].id@);
                            }
                            if k != id@ && sessions_view(old_entries).contains_key(k) {
                                let j = choose|j: int| 0 <= j < old_entries.len() && #[trigger] old_entries[j].id@ == k;
                                assert(j != i);
                                let nj = if j < i { j } else { j - 1 };
                                assert(e[nj].id@ == k);
                            }
                        }
                        assert forall|k: Seq<char>| #[trigger] self@.contains_key(k) implies self@[k]
                            == sessions_view(old_entries).remove(id@)[k] by {
                            let j = choose|j: int| 0 <= j < e.len() && #[trigger] e[j].id@ == k;
                            lemma_view_at(e, j);
                            let oj = if j < i { j } else { j + 1 };
                            lemma_view_at(old_entries, oj);
                        }
                    }
                }
            },
            None => {
                proof {
                    assert(self@ =~= old(self)@.remove(id@));
                }
            },
        }
    }

    /// Drops every session.
    pub fn clear(&mut self)
        ensures
            final(self).wf(),
            final(self)@ == Map::<Seq<char>, SessionRecord>::empty(),
    {
        self.entries.clear();
        proof {
            assert(self@ =~= Map::<Seq<char>, SessionRecord>::empty());
        }
    }
}

/// `subtle`'s constant-time byte comparison (`<[u8] as ConstantTimeEq>::ct_eq`)
/// on the UTF-8 bytes of two strings: it returns `Choice(1)` exactly when the
/// byte slices have the same length and contents, that is when the strings
/// are equal (only the length comparison short-circuits).
#[verifier::external_body]
fn constant_time_eq(a: &str, b: &str) -> (r: bool)
    ensures
        r == (a@ == b@),
{
    bool::from(a.as_bytes().ct_eq(b.as_bytes()))
}

/// `uuid`'s `Uuid::new_v4().simple().to_string()`: a fresh random UUID in
/// its simple form, 32 lowercase hexadecimal digits.  Which digits come out
/// is chance and is not stated.
#[verifier::external_body]
fn random_simple_uuid() -> (r: String)
    ensures
        r@.len() == 32,
        forall|i: int| 0 <= i < 32 ==> crate::hex::is_hex_lower(#[trigger] r@[i]),
{
    uuid::Uuid::new_v4().simple().to_string()
}

pub open spec fn session_cookie_prefix() -> Seq<char> {
    "msv_session="@
}

/// The session id in a `Cookie` header: the first `;`-separated item that,
/// trimmed, starts with `msv_session=`, without that prefix.
pub open spec fn cookie_session_id(items: Seq<Seq<char>>) -> Option<Seq<char>>
    decreases items.len(),
{
    if items.len() == 0 {
        None
    } else if starts_with(trim(items[0]), session_cookie_prefix()) {
        Some(trim(items[0]).skip(session_cookie_prefix().len() as int))
    } else {
        cookie_session_id(items.drop_first())
    }
}

pub open spec fn session_id_spec(cookie: Option<Seq<char>>) -> Option<Seq<char>> {
    match cookie {
        Some(c) => cookie_session_id(split_char(c, ';')),
        None => None,
    }
}

/// The browser session id carried by a `Cookie` header value.
pub fn session_id_from_cookie(cookie: Option<&str>) -> (r: Option<String>)
    ensures
        match r {
            Some(s) => session_id_spec(opt_chars(cookie)) == Some(s@),
            None => session_id_spec(opt_chars(cookie)) is None,
        },
{
    let value = match cookie {
        Some(v) => v,
        None => {
            return None;
        },
    };
    let chars = chars_of(value);
    let items = split_vec(&chars, ';');
    let prefix = chars_of("msv_session=");
    proof {
        reveal_strlit("msv_session=");
    }
    let ghost all = items@.map_values(|p: Vec<char>| p@);
    proof {
        assert(all.skip(0) =~= all);
    }
    let mut k: usize = 0;
    while k < items.len()
        invariant
            k <= items@.len(),
            all == items@.map_values(|p: Vec<char>| p@),
            all == split_char(value@, ';'),
            prefix@ == session_cookie_prefix(),
            opt_chars(cookie) == Some(value@),
            cookie_session_id(all) == cookie_session_id(all.skip(k as int)),
        decreases items@.len() - k,
    {
        let item = trim_chars(&items[k]);
        proof {
            assert(all.skip(k as int)[0] == items@[k as int]@);
            assert(all.skip(k as int).drop_first() =~= all.skip(k + 1));
        }
        if starts_with_vec(&item, &prefix) {
            let rest = slice_vec(&item, prefix.len(), item.len());
            proof {
                assert(rest@ =~= item@.skip(prefix@.len() as int));
                assert(item@ == trim(all.skip(k as int)[0]));
                assert(all.skip(k as int).len() > 0);
                assert(starts_with(trim(all.skip(k as int)[0]), session_cookie_prefix()));
                assert(cookie_session_id(all.skip(k as int)) == Some(rest@));
            }
            return Some(string_of(&rest));
        }
        k += 1;
    }
    proof {
        assert(all.skip(k as int) =~= Seq::<Seq<char>>::empty());
    }
    None
}

pub open spec fn opt_chars(v: Option<&str>) -> Option<Seq<char>> {
    match v {
        Some(s) => Some(s@),
        None => None,
    }
}

/// An `Origin` served from this machine over plain HTTP:
/// `http://localhost` or `http://127.0.0.1`, with or without a port.
pub open spec fn loopback_origin(origin: Seq<char>) -> bool {
    ||| origin == "http://localhost"@
    ||| origin == "http://127.0.0.1"@
    ||| starts_with(origin, "http://localhost:"@)
    ||| starts_with(origin, "http://127.0.0.1:"@)
}

/// Whether a request's `Origin` header names a strict loopback origin; a
/// request without one is refused.
pub fn is_strict_loopback_origin(origin: Option<&str>) -> (r: bool)
    ensures
        r == (match origin {
            Some(o) => loopback_origin(o@),
            None => false,
        }),
{
    let origin = match origin {
        Some(o) => o,
        None => {
            return false;
        },
    };
    let o = chars_of(origin);
    let p1 = chars_of("http://localhost:");
    let p2 = chars_of("http://127.0.0.1:");
    str_eq(origin, "http://localhost") || str_eq(origin, "http://127.0.0.1") || starts_with_vec(
        &o,
        &p1,
    ) || starts_with_vec(&o, &p2)
}

pub open spec fn bearer_prefix() -> Seq<char> {
    "Bearer "@
}

/// The token of an `Authorization` value: what follows `Bearer `.
pub open spec fn bearer_token(value: Seq<char>) -> Option<Seq<char>> {
    if starts_with(value, bearer_prefix()) {
        Some(value.skip(bearer_prefix().len() as int))
    } else {
        None
    }
}

/// Whether a browser session has aged out, idled out, expired, or belongs
/// to an earlier credential generation.
pub open spec fn session_stale(s: SessionRecord, generation: u64, now_mono: u64, now_wall: i128) -> bool {
    ||| s.generation != generation
    ||| now_mono - s.issued_at > SESSION_MAX_AGE_NANOS
    ||| now_mono - s.last_used_at > SESSION_IDLE_NANOS
    ||| now_wall > s.expires_at
}

/// Requests that change state: every method but `GET`, `HEAD` and `OPTIONS`.
pub open spec fn is_mutation(method: Seq<char>) -> bool {
    method != "GET"@ && method != "HEAD"@ && method != "OPTIONS"@
}

/// The parts of a request that authentication reads.  Header values are
/// given as text only when they are visible ASCII.
pub struct AuthRequest {
    pub authorization: Option<String>,
    pub origin: Option<String>,
    pub cookie: Option<String>,
    pub method: String,
    pub csrf_token: Option<String>,
}

pub open spec fn opt_string(v: Option<String>) -> Option<Seq<char>> {
    match v {
        Some(s) => Some(s@),
        None => None,
    }
}

/// Outcome of session authentication on a table: the caller (if any) and
/// the table afterwards.
pub open spec fn session_outcome(
    sessions: Map<Seq<char>, SessionRecord>,
    generation: u64,
    origin: Option<Seq<char>>,
    cookie: Option<Seq<char>>,
    method: Seq<char>,
    csrf: Option<Seq<char>>,
    now_mono: u64,
    now_wall: i128,
) -> (Option<(u64, bool)>, Map<Seq<char>, SessionRecord>) {
    if !(origin matches Some(o) && loopback_origin(o)) {
        (None, sessions)
    } else {
        match session_id_spec(cookie) {
            None => (None, sessions),
            Some(id) => if !sessions.contains_key(id) {
                (None, sessions)
            } else if session_stale(sessions[id], generation, now_mono, now_wall) {
                (None, sessions.remove(id))
            } else if is_mutation(method) && csrf != Some(sessions[id].csrf_token) {
                (None, sessions)
            } else {
                (
                    Some((sessions[id].generation, true)),
                    sessions.insert(id, SessionRecord { last_used_at: now_mono, ..sessions[id] }),
                )
            },
        }
    }
}

/// Unavailable maintenance operations are answered with this message.
pub open spec fn unavailable_message(operation: Seq<char>) -> Seq<char> {
    operation + " is unavailable for this host"@
}

/// Host-specific maintenance operations; an absent one is unavailable.
pub struct MaintenanceHandlers<R, B, U> {
    pub rotate: Option<R>,
    pub backup: Option<B>,
    pub upgrade: Option<U>,
    pub rollback: Option<U>,
}

impl<R, B, U> Default for MaintenanceHandlers<R, B, U> {
    fn default() -> (r: Self)
        ensures
            r.rotate is None && r.backup is None && r.upgrade is None && r.rollback is None,
    {
        MaintenanceHandlers { rotate: None, backup: None, upgrade: None, rollback: None }
    }
}

/// The credential state of one supervisor: the bearer secret, its
/// generation, the browser sessions, and the maintenance operations.
pub struct AuthState<R, B, U> {
    token: String,
    generation: u64,
    sessions: SessionTable,
    maintenance: MaintenanceHandlers<R, B, U>,
}

impl<R, B, U> AuthState<R, B, U> where
    R: Fn() -> Result<TokenRotationDto, String>,
    B: Fn() -> Result<BackupResultDto, String>,
    U: Fn() -> Result<UpgradeJournalDto, String>,
 {
    pub closed spec fn wf(&self) -> bool {
        self.sessions.wf()
    }

    /// The bearer secret.
    pub closed spec fn token(&self) -> Seq<char> {
        self.token@
    }

    /// The current credential generation.
    pub closed spec fn credential_generation(&self) -> u64 {
        self.generation
    }

    /// The browser sessions, by id.
    pub closed spec fn sessions(&self) -> Map<Seq<char>, SessionRecord> {
        self.sessions@
    }

    /// The maintenance operations installed.
    pub closed spec fn handlers(&self) -> MaintenanceHandlers<R, B, U> {
        self.maintenance
    }

    /// A verifier for `token` at `generation`, without sessions or
    /// maintenance operations.
    pub fn new(token: String, generation: u64) -> (s: Self)
        ensures
            s.wf(),
            s.token() == token@,
            s.credential_generation() == generation,
            s.sessions() == Map::<Seq<char>, SessionRecord>::empty(),
            s.handlers().rotate is None && s.handlers().backup is None && s.handlers().upgrade is None
                && s.handlers().rollback is None,
    {
        AuthState { token, generation, sessions: SessionTable::new(), maintenance: MaintenanceHandlers::default() }
    }

    /// The current credential generation.
    pub fn generation(&self) -> (g: u64)
        ensures
            g == self.credential_generation(),
    {
        self.generation
    }

    /// Number of live browser sessions.
    pub fn session_count(&self) -> (n: usize)
        requires
            self.wf(),
        ensures
            n == self.sessions().dom().len(),
    {
        self.sessions.len()
    }

    /// Replaces the secret and its generation; every browser session ends.
    pub fn rotate(&mut self, token: String, generation: u64)
        ensures
            final(self).wf(),
            final(self).token() == token@,
            final(self).credential_generation() == generation,
            final(self).sessions() == Map::<Seq<char>, SessionRecord>::empty(),
            final(self).handlers() == old(self).handlers(),
    {
        self.token = token;
        self.generation = generation;
        self.sessions.clear();
    }

    /// Installs the host's maintenance operations.
    pub fn install_maintenance_handlers(&mut self, handlers: MaintenanceHandlers<R, B, U>)
        ensures
            final(self).wf() == old(self).wf(),
            final(self).token() == old(self).token(),
            final(self).credential_generation() == old(self).credential_generation(),
            final(self).sessions() == old(self).sessions(),
            final(self).handlers() == handlers,
    {
        self.maintenance = handlers;
    }

    /// Rotates the credential through the host, if it can.
    pub fn rotate_token(&self) -> (r: Result<TokenRotationDto, String>)
        requires
            self.handlers().rotate matches Some(h) ==> call_requires(h, ()),
        ensures
            match self.handlers().rotate {
                Some(h) => call_ensures(h, (), r),
                None => r matches Err(e) && e@ == unavailable_message("token rotation"@),
            },
    {
        match &self.maintenance.rotate {
            Some(h) => h(),
            None => {
                let msg = "token rotation is unavailable for this host".to_string();
                proof {
                    reveal_strlit("token rotation is unavailable for this host");
                    reveal_strlit("token rotation");
                    reveal_strlit(" is unavailable for this host");
                    assert(msg@ =~= unavailable_message("token rotation"@));
                }
                Err(msg)
            },
        }
    }

    /// Takes a backup through the host, if it can.
    pub fn backup(&self) -> (r: Result<BackupResultDto, String>)
        requires
            self.handlers().backup matches Some(h) ==> call_requires(h, ()),
        ensures
            match self.handlers().backup {
                Some(h) => call_ensures(h, (), r),
                None => r matches Err(e) && e@ == unavailable_message("backup"@),
            },
    {
        match &self.maintenance.backup {
            Some(h) => h(),
            None => {
                let msg = "backup is unavailable for this host".to_string();
                proof {
                    reveal_strlit("backup is unavailable for this host");
                    reveal_strlit("backup");
                    reveal_strlit(" is unavailable for this host");
                    assert(msg@ =~= unavailable_message("backup"@));
                }
                Err(msg)
            },
        }
    }

    /// Starts an upgrade through the host, if it can.
    pub fn upgrade(&self) -> (r: Result<UpgradeJournalDto, String>)
        requires
            self.handlers().upgrade matches Some(h) ==> call_requires(h, ()),
        ensures
            match self.handlers().upgrade {
                Some(h) => call_ensures(h, (), r),
                None => r matches Err(e) && e@ == unavailable_message("upgrade"@),
            },
    {
        match &self.maintenance.upgrade {
            Some(h) => h(),
            None => {
                let msg = "upgrade is unavailable for this host".to_string();
                proof {
                    reveal_strlit("upgrade is unavailable for this host");
                    reveal_strlit("upgrade");
                    reveal_strlit(" is unavailable for this host");
                    assert(msg@ =~= unavailable_message("upgrade"@));
                }
                Err(msg)
            },
        }
    }

    /// Rolls an upgrade back through the host, if it can.
    pub fn rollback(&self) -> (r: Result<UpgradeJournalDto, String>)
        requires
            self.handlers().rollback matches Some(h) ==> call_requires(h, ()),
        ensures
            match self.handlers().rollback {
                Some(h) => call_ensures(h, (), r),
                None => r matches Err(e) && e@ == unavailable_message("rollback"@),
            },
    {
        match &self.maintenance.rollback {
            Some(h) => h(),
            None => {
                let msg = "rollback is unavailable for this host".to_string();
                proof {
                    reveal_strlit("rollback is unavailable for this host");
                    reveal_strlit("rollback");
                    reveal_strlit(" is unavailable for this host");
                    assert(msg@ =~= unavailable_message("rollback"@));
                }
                Err(msg)
            },
        }
    }

    /// Authenticates an `Authorization` value against the bearer secret
    /// (compared in constant time).
    pub fn authenticate(&self, authorization: Option<&str>) -> (r: Option<AuthSession>)
        ensures
            match r {
                Some(s) => s.credential() == self.credential_generation() && !s.browser() && (
                authorization matches Some(v) && bearer_token(v@) == Some(self.token())),
                None => !(authorization matches Some(v) && bearer_token(v@) == Some(self.token())),
            },
    {
        let value = match authorization {
            Some(v) => v,
            None => {
                return None;
            },
        };
        let chars = chars_of(value);
        let prefix = chars_of("Bearer ");
        proof {
            reveal_strlit("Bearer ");
        }
        if !starts_with_vec(&chars, &prefix) {
            return None;
        }
        let rest = slice_vec(&chars, prefix.len(), chars.len());
        let token = string_of(&rest);
        proof {
            assert(rest@ =~= value@.skip(bearer_prefix().len() as int));
        }
        if constant_time_eq(token.as_str(), self.token.as_str()) {
            Some(AuthSession::bearer(self.generation))
        } else {
            None
        }
    }

    /// Opens a browser session for a caller that already proved the bearer,
    /// under the ids given: `session_id` goes into the cookie, `csrf_token`
    /// to the renderer; the session expires ten minutes after `now_wall`.
    pub fn bootstrap_session_with(
        &mut self,
        generation: u64,
        session_id: String,
        csrf_token: String,
        now_mono: u64,
        now_wall: i128,
    ) -> (r: (String, SessionBootstrapDto))
        requires
            old(self).wf(),
            now_wall <= i128::MAX - SESSION_TTL_NANOS,
        ensures
            final(self).wf(),
            r.0@ == session_id@,
            r.1.csrf_token@ == csrf_token@,
            r.1.expires_at == now_wall + SESSION_TTL_NANOS,
            final(self).sessions() == old(self).sessions().insert(
                session_id@,
                SessionRecord {
                    generation,
                    csrf_token: csrf_token@,
                    issued_at: now_mono,
                    last_used_at: now_mono,
                    expires_at: (now_wall + SESSION_TTL_NANOS) as i128,
                },
            ),
            final(self).token() == old(self).token(),
            final(self).credential_generation() == old(self).credential_generation(),
            final(self).handlers() == old(self).handlers(),
    {
        let expires_at = now_wall + SESSION_TTL_NANOS;
        let id = session_id.clone();
        let csrf = csrf_token.clone();
        self.sessions.insert(
            BrowserSession {
                id: session_id,
                generation,
                csrf_token,
                issued_at: now_mono,
                last_used_at: now_mono,
                expires_at,
            },
        );
        (id, SessionBootstrapDto { csrf_token: csrf, expires_at })
    }

    /// Opens a browser session with fresh random ids (see
    /// `bootstrap_session_with`); the bearer itself is neither stored nor
    /// returned.
    pub fn bootstrap_session(&mut self, generation: u64, now_mono: u64, now_wall: i128) -> (r: (
        String,
        SessionBootstrapDto,
    ))
        requires
            old(self).wf(),
            now_wall <= i128::MAX - SESSION_TTL_NANOS,
        ensures
            final(self).wf(),
            r.0@.len() == 32,
            r.1.csrf_token@.len() == 32,
            r.1.expires_at == now_wall + SESSION_TTL_NANOS,
            final(self).sessions() == old(self).sessions().insert(
                r.0@,
                SessionRecord {
                    generation,
                    csrf_token: r.1.csrf_token@,
                    issued_at: now_mono,
                    last_used_at: now_mono,
                    expires_at: (now_wall + SESSION_TTL_NANOS) as i128,
                },
            ),
            final(self).token() == old(self).token(),
            final(self).credential_generation() == old(self).credential_generation(),
    {
        let session_id = random_simple_uuid();
        let csrf_token = random_simple_uuid();
        self.bootstrap_session_with(generation, session_id, csrf_token, now_mono, now_wall)
    }

    /// Ends the browser session named by a `Cookie` header, if any.
    pub fn logout_session(&mut self, cookie: Option<&str>)
        requires
            old(self).wf(),
        ensures
            final(self).wf(),
            final(self).sessions() == (match session_id_spec(opt_chars(cookie)) {
                Some(id) => old(self).sessions().remove(id),
                None => old(self).sessions(),
            }),
            final(self).token() == old(self).token(),
            final(self).credential_generation() == old(self).credential_generation(),
            final(self).handlers() == old(self).handlers(),
    {
        if let Some(id) = session_id_from_cookie(cookie) {
            self.sessions.remove(id.as_str());
        }
    }

    /// Authenticates a browser request by its session cookie: the origin
    /// must be loopback, the session current (a stale one is dropped), and
    /// a mutation must carry the session's CSRF nonce; a success records the
    /// use.
    pub fn authenticate_session(
        &mut self,
        origin: Option<&str>,
        cookie: Option<&str>,
        method: &str,
        csrf_token: Option<&str>,
        now_mono: u64,
        now_wall: i128,
    ) -> (r: Option<AuthSession>)
        requires
            old(self).wf(),
        ensures
            final(self).wf(),
            ({
                let (caller, after) = session_outcome(
                    old(self).sessions(),
                    old(self).credential_generation(),
                    opt_chars(origin),
                    opt_chars(cookie),
                    method@,
                    opt_chars(csrf_token),
                    now_mono,
                    now_wall,
                );
                &&& final(self).sessions() == after
                &&& match caller {
                    Some((g, b)) => r matches Some(s) && s.credential() == g && s.browser() == b,
                    None => r is None,
                }
            }),
            final(self).token() == old(self).token(),
            final(self).credential_generation() == old(self).credential_generation(),
            final(self).handlers() == old(self).handlers(),
    {
        if !is_strict_loopback_origin(origin) {
            return None;
        }
        let id = match session_id_from_cookie(cookie) {
            Some(id) => id,
            None => {
                return None;
            },
        };
        let ghost key = id@;
        let i = match self.sessions.find(id.as_str()) {
            Some(i) => i,
            None => {
                return None;
            },
        };
        proof {
            lemma_view_at(self.sessions.entries@, i as int);
        }
        let entry = &self.sessions.entries[i];
        let stale = entry.generation != self.generation || now_mono.saturating_sub(entry.issued_at)
            > SESSION_MAX_AGE_NANOS || now_mono.saturating_sub(entry.last_used_at)
            > SESSION_IDLE_NANOS || now_wall > entry.expires_at;
        if stale {
            self.sessions.remove(id.as_str());
            return None;
        }
        let mutation = !(str_eq(method, "GET") || str_eq(method, "HEAD") || str_eq(method, "OPTIONS"));
        if mutation {
            let matches = match csrf_token {
                Some(t) => str_eq(t, entry.csrf_token.as_str()),
                None => false,
            };
            if !matches {
                return None;
            }
        }
        let generation = entry.generation;
        let touched = BrowserSession {
            id: entry.id.clone(),
            generation: entry.generation,
            csrf_token: entry.csrf_token.clone(),
            issued_at: entry.issued_at,
            last_used_at: now_mono,
            expires_at: entry.expires_at,
        };
        self.sessions.insert(touched);
        Some(AuthSession::session(generation))
    }

    /// Authenticates a request by its bearer, or else by its browser
    /// session.
    pub fn authorize(&mut self, request: &AuthRequest, now_mono: u64, now_wall: i128) -> (r: Option<
        AuthSession,
    >)
        requires
            old(self).wf(),
        ensures
            final(self).wf(),
            (request.authorization matches Some(v) && bearer_token(v@) == Some(old(self).token()))
                ==> (r matches Some(s) && s.credential() == old(self).credential_generation() && !s.browser()
                && final(self).sessions() == old(self).sessions()),
            !(request.authorization matches Some(v) && bearer_token(v@) == Some(old(self).token())) ==> ({
                let (caller, after) = session_outcome(
                    old(self).sessions(),
                    old(self).credential_generation(),
                    opt_string(request.origin),
                    opt_string(request.cookie),
                    request.method@,
                    opt_string(request.csrf_token),
                    now_mono,
                    now_wall,
                );
                &&& final(self).sessions() == after
                &&& match caller {
                    Some((g, b)) => r matches Some(s) && s.credential() == g && s.browser() == b,
                    None => r is None,
                }
            }),
            final(self).token() == old(self).token(),
            final(self).credential_generation() == old(self).credential_generation(),
            final(self).handlers() == old(self).handlers(),
    {
        let authorization = match &request.authorization {
            Some(v) => Some(v.as_str()),
            None => None,
        };
        match self.authenticate(authorization) {
            Some(s) => Some(s),
            None => {
                let origin = match &request.origin {
                    Some(v) => Some(v.as_str()),
                    None => None,
                };
                let cookie = match &request.cookie {
                    Some(v) => Some(v.as_str()),
                    None => None,
                };
                let csrf = match &request.csrf_token {
                    Some(v) => Some(v.as_str()),
                    None => None,
                };
                self.authenticate_session(origin, cookie, request.method.as_str(), csrf, now_mono, now_wall)
            },
        }
    }
}

/// A session just opened by bootstrap is accepted: a loopback request that
/// presents its cookie within the idle and expiry windows, and the CSRF
/// nonce if it mutates, authenticates as a browser caller of the session's
/// generation.
pub proof fn lemma_bootstrapped_session_accepted(
    sessions: Map<Seq<char>, SessionRecord>,
    generation: u64,
    id: Seq<char>,
    csrf_token: Seq<char>,
    issued_mono: u64,
    issued_wall: i128,
    origin: Seq<char>,
    cookie: Seq<char>,
    method: Seq<char>,
    csrf_header: Option<Seq<char>>,
    now_mono: u64,
    now_wall: i128,
)
    requires
        loopback_origin(origin),
        session_id_spec(Some(cookie)) == Some(id),
        now_mono - issued_mono <= SESSION_IDLE_NANOS,
        now_wall <= issued_wall + SESSION_TTL_NANOS,
        issued_wall + SESSION_TTL_NANOS <= i128::MAX,
        is_mutation(method) ==> csrf_header == Some(csrf_token),
    ensures
        ({
            let opened = sessions.insert(
                id,
                SessionRecord {
                    generation,
                    csrf_token,
                    issued_at: issued_mono,
                    last_used_at: issued_mono,
                    expires_at: (issued_wall + SESSION_TTL_NANOS) as i128,
                },
            );
            let (caller, after) = session_outcome(
                opened,
                generation,
                Some(origin),
                Some(cookie),
                method,
                csrf_header,
                now_mono,
                now_wall,
            );
            &&& caller == Some((generation, true))
            &&& after.contains_key(id)
            &&& after[id].last_used_at == now_mono
        }),
{
}

/// Logging out ends the session: afterwards its cookie authenticates
/// nobody.
pub proof fn lemma_logged_out_session_refused(
    sessions: Map<Seq<char>, SessionRecord>,
    generation: u64,
    origin: Option<Seq<char>>,
    cookie: Seq<char>,
    method: Seq<char>,
    csrf_header: Option<Seq<char>>,
    now_mono: u64,
    now_wall: i128,
)
    requires
        session_id_spec(Some(cookie)) is Some,
    ensures
        session_outcome(
            sessions.remove(session_id_spec(Some(cookie))->0),
            generation,
            origin,
            Some(cookie),
            method,
            csrf_header,
            now_mono,
            now_wall,
        ).0 is None,
{
}

/// After a rotation no browser session survives: every session request is
/// refused until a new session is bootstrapped.
pub proof fn lemma_rotation_ends_sessions(
    generation: u64,
    origin: Option<Seq<char>>,
    cookie: Option<Seq<char>>,
    method: Seq<char>,
    csrf_header: Option<Seq<char>>,
    now_mono: u64,
    now_wall: i128,
)
    ensures
        session_outcome(
            Map::<Seq<char>, SessionRecord>::empty(),
            generation,
            origin,
            cookie,
            method,
            csrf_header,
            now_mono,
            now_wall,
        ).0 is None,
{
}

/// A session from an earlier credential generation is refused and dropped.
pub proof fn lemma_stale_generation_dropped(
    sessions: Map<Seq<char>, SessionRecord>,
    generation: u64,
    origin: Seq<char>,
    cookie: Seq<char>,
    method: Seq<char>,
    csrf_header: Option<Seq<char>>,
    now_mono: u64,
    now_wall: i128,
)
    requires
        loopback_origin(origin),
        session_id_spec(Some(cookie)) matches Some(id) && sessions.contains_key(id)
            && sessions[id].generation != generation,
    ensures
        ({
            let id = session_id_spec(Some(cookie))->0;
            let (caller, after) = session_outcome(
                sessions,
                generation,
                Some(origin),
                Some(cookie),
                method,
                csrf_header,
                now_mono,
                now_wall,
            );
            caller is None && after == sessions.remove(id)
        }),
{
}

} // verus!
