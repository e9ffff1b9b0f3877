//! Swap-session persistence: an in-memory store, and a store over an
//! off-chain key-value backend whose keys are the session ids under the
//! prefix `x3sess:`.

use vstd::prelude::*;
use std::sync::Arc;
use crate::bytes::{push_bytes, utf8};
use crate::strmap::{keys_of, map_of, StrMap};

verus! {

/// A hash lock: 32 bytes.
#[derive(Clone, Copy, Debug)]
pub struct HtlcHash(pub [u8; 32]);

/// Phase of a swap session.
#[derive(Clone, Copy, Debug, PartialEq, Eq, Structural)]
pub enum SwapPhase {
    /// Legs are being set up.
    Setup,
}

/// A swap session as the coordinator stores it.
#[derive(Clone, Debug)]
pub struct SwapSession {
    pub session_id: String,
    pub hash_lock: HtlcHash,
    pub htlc_fast: Option<Vec<u8>>,
    pub htlc_slow: Option<Vec<u8>>,
    pub flash_legs: Vec<Vec<u8>>,
    pub leg_outcomes: Vec<bool>,
    pub phase: SwapPhase,
    pub timelock_fast: u64,
    pub timelock_slow: u64,
    pub created_at: u64,
    pub updated_at: u64,
}

/// Mathematical model of a [`SwapSession`].
pub struct SessionModel {
    pub session_id: Seq<char>,
    pub hash_lock: Seq<u8>,
    pub htlc_fast: Option<Seq<u8>>,
    pub htlc_slow: Option<Seq<u8>>,
    pub flash_legs: Seq<Seq<u8>>,
    pub leg_outcomes: Seq<bool>,
    pub phase: SwapPhase,
    pub timelock_fast: u64,
    pub timelock_slow: u64,
    pub created_at: u64,
    pub updated_at: u64,
}

/// Model of an optional byte vector.
pub open spec fn opt_bytes(o: Option<Vec<u8>>) -> Option<Seq<u8>> {
    match o {
        Some(v) => Some(v@),
        None => None,
    }
}

impl View for SwapSession {
    type V = SessionModel;

    open spec fn view(&self) -> SessionModel {
        SessionModel {
            session_id: self.session_id@,
            hash_lock: self.hash_lock.0@,
            htlc_fast: opt_bytes(self.htlc_fast),
            htlc_slow: opt_bytes(self.htlc_slow),
            flash_legs: self.flash_legs@.map_values(|l: Vec<u8>| l@),
            leg_outcomes: self.leg_outcomes@,
            phase: self.phase,
            timelock_fast: self.timelock_fast,
            timelock_slow: self.timelock_slow,
            created_at: self.created_at,
            updated_at: self.updated_at,
        }
    }
}

fn copy_vec(b: &Vec<u8>) -> (r: Vec<u8>)
    ensures
        r@ == b@,
{
    let mut r: Vec<u8> = Vec::new();
    push_bytes(&mut r, b.as_slice());
    r
}

fn copy_opt(b: &Option<Vec<u8>>) -> (r: Option<Vec<u8>>)
    ensures
        opt_bytes(r) == opt_bytes(*b),
{
    match b {
        Some(v) => Some(copy_vec(v)),
        None => None,
    }
}

impl SwapSession {
    /// A copy of the session.
    pub fn duplicate(&self) -> (r: SwapSession)
        ensures
            r@ == self@,
    {
        let mut legs: Vec<Vec<u8>> = Vec::new();
        let mut i: usize = 0;
        while i < self.flash_legs.len()
            invariant
                i <= self.flash_legs@.len(),
                legs@.len() == i,
                forall|k: int| 0 <= k < i ==> (#[trigger] legs@[k])@ == self.flash_legs@[k]@,
            decreases self.flash_legs.len() - i,
        {
            legs.push(copy_vec(&self.flash_legs[i]));
            i = i + 1;
        }
        assert(legs@.map_values(|l: Vec<u8>| l@) =~= self.flash_legs@.map_values(|l: Vec<u8>| l@));
        let mut outcomes: Vec<bool> = Vec::new();
        let mut j: usize = 0;
        while j < self.leg_outcomes.len()
            invariant
                j <= self.leg_outcomes@.len(),
                outcomes@ == self.leg_outcomes@.take(j as int),
            decreases self.leg_outcomes.len() - j,
        {
            outcomes.push(self.leg_outcomes[j]);
            assert(outcomes@ =~= self.leg_outcomes@.take(j + 1));
            j = j + 1;
        }
        assert(self.leg_outcomes@.take(self.leg_outcomes@.len() as int) =~= self.leg_outcomes@);
        SwapSession {
            session_id: self.session_id.clone(),
            hash_lock: self.hash_lock,
            htlc_fast: copy_opt(&self.htlc_fast),
            htlc_slow: copy_opt(&self.htlc_slow),
            flash_legs: legs,
            leg_outcomes: outcomes,
            phase: self.phase,
            timelock_fast: self.timelock_fast,
            timelock_slow: self.timelock_slow,
            created_at: self.created_at,
            updated_at: self.updated_at,
        }
    }
}

/// Model of a session store: session id to session.
pub open spec fn sessions_model(m: Map<Seq<char>, SwapSession>) -> Map<Seq<char>, SessionModel> {
    m.map_values(|s: SwapSession| s@)
}

proof fn lemma_sessions_insert(m: Map<Seq<char>, SwapSession>, k: Seq<char>, v: SwapSession)
    ensures
        sessions_model(m.insert(k, v)) == sessions_model(m).insert(k, v@),
{
    assert(sessions_model(m.insert(k, v)) =~= sessions_model(m).insert(k, v@));
}

/// Storage of swap sessions.
pub trait SessionPersistence {
    /// Internal consistency of the store.
    spec fn store_wf(&self) -> bool;

    /// Store or update a session under its id.
    fn save(&mut self, session: &SwapSession)
        requires
            old(self).store_wf(),
        ensures
            final(self).store_wf(),
    ;

    /// Load a session by id.
    fn load(&self, session_id: &str) -> Option<SwapSession>
        requires
            self.store_wf(),
    ;

    /// Remove a session.
    fn remove(&mut self, session_id: &str)
        requires
            old(self).store_wf(),
        ensures
            final(self).store_wf(),
    ;

    /// Every stored session, by id.
    fn load_all(&self) -> StrMap<SwapSession>
        requires
            self.store_wf(),
    ;

    /// Number of stored sessions.
    fn count(&self) -> usize
        requires
            self.store_wf(),
    ;
}

/// In-memory session store.
pub struct InMemoryPersistence {
    inner: StrMap<SwapSession>,
}

impl InMemoryPersistence {
    /// The stored sessions, by id.
    pub closed spec fn sessions(&self) -> Map<Seq<char>, SessionModel> {
        sessions_model(self.inner@)
    }

    /// Internal consistency of the store.
    pub closed spec fn wf(&self) -> bool {
        self.inner.wf()
    }

    /// An empty store.
    pub fn new() -> (p: Self)
        ensures
            p.wf(),
            p.sessions() == Map::<Seq<char>, SessionModel>::empty(),
    {
        let p = InMemoryPersistence { inner: StrMap::new() };
        assert(p.sessions() =~= Map::<Seq<char>, SessionModel>::empty());
        p
    }
}

impl Default for InMemoryPersistence {
    fn default() -> (p: Self)
        ensures
            p.wf(),
            p.sessions() == Map::<Seq<char>, SessionModel>::empty(),
    {
        Self::new()
    }
}

impl SessionPersistence for InMemoryPersistence {
    open spec fn store_wf(&self) -> bool {
        self.wf()
    }

    fn save(&mut self, session: &SwapSession)
        ensures
            final(self).sessions() == old(self).sessions().insert(session.session_id@, session@),
    {
        let ghost before = self.inner@;
        self.inner.insert(session.session_id.clone(), session.duplicate());
        assert(self.sessions() =~= sessions_model(before).insert(session.session_id@, session@));
    }

    fn load(&self, session_id: &str) -> (r: Option<SwapSession>)
        ensures
            match r {
                Some(s) => self.sessions().dom().contains(session_id@) && s@ == self.sessions()[session_id@],
                None => !self.sessions().dom().contains(session_id@),
            },
    {
        match self.inner.get(session_id) {
            Some(s) => Some(s.duplicate()),
            None => None,
        }
    }

    fn remove(&mut self, session_id: &str)
        ensures
            final(self).sessions() == old(self).sessions().remove(session_id@),
    {
        let ghost before = self.inner@;
        let _ = self.inner.remove(session_id);
        assert(self.sessions() =~= sessions_model(before).remove(session_id@));
    }

    fn load_all(&self) -> (all: StrMap<SwapSession>)
        ensures
            all.wf(),
            sessions_model(all@) == self.sessions(),
    {
        let entries = self.inner.entries();
        let mut all: StrMap<SwapSession> = StrMap::new();
        let mut i: usize = 0;
        while i < entries.len()
            invariant
                i <= entries@.len(),
                all.wf(),
                sessions_model(all@) == sessions_model(map_of(entries@.take(i as int))),
            decreases entries.len() - i,
        {
            let entry = &entries[i];
            let ghost before = all@;
            let dup = entry.1.duplicate();
            let ghost dv = dup;
            all.insert(entry.0.clone(), dup);
            proof {
                assert(entries@.take(i + 1).drop_last() =~= entries@.take(i as int));
                assert(entries@.take(i + 1).last() == *entry);
                lemma_sessions_insert(before, entry.0@, dv);
                lemma_sessions_insert(map_of(entries@.take(i as int)), entry.0@, entry.1);
            }
            i = i + 1;
        }
        assert(entries@.take(entries@.len() as int) =~= entries@);
        all
    }

    fn count(&self) -> (n: usize)
        ensures
            n == self.sessions().dom().len(),
    {
        assert(self.sessions().dom() =~= self.inner@.dom());
        self.inner.len()
    }
}

/// Off-chain key-value backend.
pub trait OffchainStorageProvider {
    /// Store `value` under `key`.
    fn set(&self, key: &[u8], value: &[u8]);

    /// The value under `key`.
    fn get(&self, key: &[u8]) -> Option<Vec<u8>>;

    /// Remove `key`.
    fn remove(&self, key: &[u8]);

    /// Every key that starts with `prefix`.
    fn keys_with_prefix(&self, prefix: &[u8]) -> Vec<Vec<u8>>;
}

/// The values that were found, in order.
pub open spec fn present_spec(found: Seq<Option<Vec<u8>>>) -> Seq<Seq<u8>>
    decreases found.len(),
{
    if found.len() == 0 {
        Seq::empty()
    } else {
        let prev = present_spec(found.drop_last());
        match found.last() {
            Some(v) => prev.push(v@),
            None => prev,
        }
    }
}

/// The values among lookups that found one, in order: what loading every
/// session keeps of the backend's answers.
pub fn present_values(found: &Vec<Option<Vec<u8>>>) -> (r: Vec<Vec<u8>>)
    ensures
        r@.map_values(|v: Vec<u8>| v@) == present_spec(found@),
{
    let mut out: Vec<Vec<u8>> = Vec::new();
    let mut i: usize = 0;
    assert(found@.take(0) =~= Seq::<Option<Vec<u8>>>::empty());
    assert(out@.map_values(|v: Vec<u8>| v@) =~= Seq::<Seq<u8>>::empty());
    while i < found.len()
        invariant
            i <= found@.len(),
            out@.map_values(|v: Vec<u8>| v@) == present_spec(found@.take(i as int)),
        decreases found.len() - i,
    {
        let ghost before = out@.map_values(|v: Vec<u8>| v@);
        assert(found@.take(i + 1).drop_last() =~= found@.take(i as int));
        assert(found@.take(i + 1).last() == found@[i as int]);
        match &found[i] {
            Some(v) => {
                let mut c: Vec<u8> = Vec::new();
                crate::bytes::push_bytes(&mut c, v.as_slice());
                assert(c@ =~= v@);
                out.push(c);
                assert(out@.map_values(|v: Vec<u8>| v@) =~= before.push(v@));
            },
            None => {},
        }
        i = i + 1;
    }
    assert(found@.take(found@.len() as int) =~= found@);
    out
}

/// The prefix of every session key.
pub open spec fn session_prefix() -> Seq<u8> {
    utf8("x3sess:")
}

/// Session store over an off-chain backend; values are the sessions'
/// serialized bytes, which the caller produces and reads.
pub struct OffchainPersistence<O: OffchainStorageProvider> {
    storage_provider: Arc<O>,
}

impl<O: OffchainStorageProvider> OffchainPersistence<O> {
    /// A store over `storage_provider`.
    pub fn new(storage_provider: Arc<O>) -> (p: Self)
        ensures
            p.provider() == storage_provider,
    {
        OffchainPersistence { storage_provider }
    }

    /// The backend.
    pub closed spec fn provider(&self) -> Arc<O> {
        self.storage_provider
    }

    /// The backend key of a session: the prefix followed by the id's bytes.
    pub fn session_key(session_id: &str) -> (key: Vec<u8>)
        ensures
            key@ == session_prefix() + utf8(session_id),
    {
        let mut key: Vec<u8> = Vec::new();
        crate::bytes::push_str(&mut key, "x3sess:");
        crate::bytes::push_str(&mut key, session_id);
        key
    }

    /// Store the serialized session `value` under the session's key.
    pub fn save_bytes(&self, session_id: &str, value: &[u8]) {
        let key = Self::session_key(session_id);
        self.storage_provider.set(key.as_slice(), value);
    }

    /// The serialized session stored under the session's key.
    pub fn load_bytes(&self, session_id: &str) -> Option<Vec<u8>> {
        let key = Self::session_key(session_id);
        self.storage_provider.get(key.as_slice())
    }

    /// Remove a session.
    pub fn remove(&self, session_id: &str) {
        let key = Self::session_key(session_id);
        self.storage_provider.remove(key.as_slice());
    }

    /// The serialized sessions under every key with the session prefix.
    pub fn load_all_bytes(&self) -> Vec<Vec<u8>> {
        let (r, Ghost(_reads)) = self.load_all_bytes_traced();
        r
    }

    /// [`Self::load_all_bytes`], giving also what it asked the backend: the
    /// keys it listed under the session prefix, and for each key, in order,
    /// the lookup's answer. The result is the values found, in order.
    pub fn load_all_bytes_traced(&self) -> (r: (Vec<Vec<u8>>, Ghost<(Seq<Seq<u8>>, Seq<Option<Vec<u8>>>)>))
        ensures
            r.1@.1.len() == r.1@.0.len(),
            r.0@.map_values(|v: Vec<u8>| v@) == present_spec(r.1@.1),
    {
        let mut prefix: Vec<u8> = Vec::new();
        crate::bytes::push_str(&mut prefix, "x3sess:");
        let keys = self.storage_provider.keys_with_prefix(prefix.as_slice());
        let ghost listed = keys@.map_values(|k: Vec<u8>| k@);
        let mut found: Vec<Option<Vec<u8>>> = Vec::new();
        let mut i: usize = 0;
        while i < keys.len()
            invariant
                i <= keys@.len(),
                found@.len() == i,
            decreases keys.len() - i,
        {
            found.push(self.storage_provider.get(keys[i].as_slice()));
            i = i + 1;
        }
        let ghost answers = found@;
        (present_values(&found), Ghost((listed, answers)))
    }

    /// Number of keys with the session prefix.
    pub fn count(&self) -> usize {
        let mut prefix: Vec<u8> = Vec::new();
        crate::bytes::push_str(&mut prefix, "x3sess:");
        self.storage_provider.keys_with_prefix(prefix.as_slice()).len()
    }
}

/// After a session is saved, loading its id gives that session, and the
/// other ids keep what they held.
pub proof fn lemma_load_after_save(p0: InMemoryPersistence, p1: InMemoryPersistence, session: SwapSession, other: Seq<char>)
    requires
        p1.sessions() == p0.sessions().insert(session.session_id@, session@),
    ensures
        p1.sessions().dom().contains(session.session_id@),
        p1.sessions()[session.session_id@] == session@,
        other != session.session_id@ ==> p1.sessions().dom().contains(other) == p0.sessions().dom().contains(other),
        other != session.session_id@ && p0.sessions().dom().contains(other) ==> p1.sessions()[other] == p0.sessions()[other],
{
}

/// After an id is removed, loading it gives nothing, and the other ids keep
/// what they held.
pub proof fn lemma_load_after_remove(p0: InMemoryPersistence, p1: InMemoryPersistence, id: Seq<char>, other: Seq<char>)
    requires
        p1.sessions() == p0.sessions().remove(id),
    ensures
        !p1.sessions().dom().contains(id),
        other != id ==> p1.sessions().dom().contains(other) == p0.sessions().dom().contains(other),
        other != id && p0.sessions().dom().contains(other) ==> p1.sessions()[other] == p0.sessions()[other],
{
}

} // verus!
