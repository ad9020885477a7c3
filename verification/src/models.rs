//! The credential records and the in-memory credential set.
//!
//! A `Server` is one credential record; a `VaultData` is the ordered set of
//! records the vault holds, with the invariant that no two records share an
//! identity.  The set knows nothing of encryption or files.

use vstd::prelude::*;

verus! {

/// Relies on uuid's `Uuid::new_v4`: a freshly generated random identifier,
/// carried as its 128-bit value.  Nothing is promised about the value.
#[verifier::external_body]
fn fresh_id() -> (r: u128) {
    uuid::Uuid::new_v4().as_u128()
}

/// Relies on chrono's `Utc::now`: the current time as whole seconds since
/// the Unix epoch.  Nothing is promised about the value.
#[verifier::external_body]
fn now_seconds() -> (r: i64) {
    chrono::Utc::now().timestamp()
}

/// The current time clamped to an unsigned timestamp: times before the
/// epoch count as the epoch itself.
pub fn now_ts() -> (r: u64) {
    let t = now_seconds();
    if t < 0 {
        0
    } else {
        t as u64
    }
}

/// The mathematical model of one credential record.
pub struct ServerView {
    pub id: u128,
    pub name: Seq<char>,
    pub host: Seq<char>,
    pub port: u16,
    pub username: Seq<char>,
    pub password: Seq<char>,
    pub description: Option<Seq<char>>,
    pub created_at: u64,
    pub updated_at: u64,
    pub tags: Seq<Seq<char>>,
}

/// One server-connection credential record.
///
/// The identity is assigned once, when the record is created, and never
/// changes; names may collide, identities may not (within one set).
#[derive(Clone, Debug)]
pub struct Server {
    pub id: u128,
    pub name: String,
    pub host: String,
    pub port: u16,
    pub username: String,
    pub password: String,
    pub description: Option<String>,
    pub created_at: u64,
    pub updated_at: u64,
    pub tags: Vec<String>,
}

impl View for Server {
    type V = ServerView;

    open spec fn view(&self) -> ServerView {
        ServerView {
            id: self.id,
            name: self.name@,
            host: self.host@,
            port: self.port,
            username: self.username@,
            password: self.password@,
            description: self.description.deep_view(),
            created_at: self.created_at,
            updated_at: self.updated_at,
            tags: self.tags.deep_view(),
        }
    }
}

/// A record is well formed when its port is in the valid range and its
/// timestamps are monotonic.
pub open spec fn server_wf(s: ServerView) -> bool {
    &&& 1 <= s.port
    &&& s.created_at <= s.updated_at
}

impl Server {
    /// Builds a new record: a fresh identity is assigned, both timestamps
    /// are set to the present moment, and the tag set starts empty.
    pub fn new(
        name: String,
        host: String,
        port: u16,
        username: String,
        password: String,
        description: Option<String>,
    ) -> (r: Server)
        requires
            1 <= port,
        ensures
            r@.name == name@,
            r@.host == host@,
            r@.port == port,
            r@.username == username@,
            r@.password == password@,
            r@.description == description.deep_view(),
            r@.created_at == r@.updated_at,
            r@.tags.len() == 0,
            server_wf(r@),
    {
        let now = now_ts();
        Server {
            id: fresh_id(),
            name,
            host,
            port,
            username,
            password,
            description,
            created_at: now,
            updated_at: now,
            tags: Vec::new(),
        }
    }
}

/// The view of a record after `replace` has overwritten its mutable fields:
/// identity and creation time come from the record already in the set,
/// everything else from the replacement, and the update time is bumped to
/// `now` (never below the creation time).
pub open spec fn replaced_view(orig: ServerView, repl: ServerView, now: u64) -> ServerView {
    ServerView {
        id: orig.id,
        created_at: orig.created_at,
        updated_at: if now < orig.created_at {
            orig.created_at
        } else {
            now
        },
        ..repl
    }
}

/// The views of a sequence of records.
pub open spec fn views_of(s: Seq<Server>) -> Seq<ServerView> {
    s.map_values(|x: Server| x@)
}

/// Whether some record in `s` carries the identity `id`.
pub open spec fn has_id(s: Seq<ServerView>, id: u128) -> bool {
    exists|i: int| 0 <= i < s.len() && s[i].id == id
}

/// No two records share an identity.
pub open spec fn ids_unique(s: Seq<ServerView>) -> bool {
    forall|i: int, j: int| 0 <= i < j < s.len() ==> s[i].id != s[j].id
}

/// The mathematical model of the credential set.
pub struct VaultDataView {
    pub servers: Seq<ServerView>,
    pub version: Seq<char>,
}

/// The in-memory credential set: an ordered sequence of records (insertion
/// order is display order) together with a format version label.
#[derive(Clone, Debug)]
pub struct VaultData {
    pub servers: Vec<Server>,
    pub version: String,
}

impl View for VaultData {
    type V = VaultDataView;

    open spec fn view(&self) -> VaultDataView {
        VaultDataView { servers: views_of(self.servers@), version: self.version@ }
    }
}

/// The credential set's invariant: identities are unique and every record
/// is well formed.
pub open spec fn vault_data_wf(v: VaultDataView) -> bool {
    &&& ids_unique(v.servers)
    &&& forall|i: int| 0 <= i < v.servers.len() ==> server_wf(#[trigger] v.servers[i])
}

impl VaultData {
    /// An empty credential set.
    pub fn new() -> (r: VaultData)
        ensures
            r@.servers.len() == 0,
            r@.version == "1.0.0"@,
            vault_data_wf(r@),
    {
        VaultData { servers: Vec::new(), version: "1.0.0".to_owned() }
    }

    /// Appends a record.  To keep identities unique, a record whose
    /// identity is already present is not inserted and the set is left
    /// unchanged; the result says whether the record went in.  (Identities
    /// are freshly generated at record creation, so a collision does not
    /// occur in ordinary use.)
    pub fn add_server(&mut self, server: Server) -> (r: bool)
        requires
            vault_data_wf(old(self)@),
            server_wf(server@),
        ensures
            r == !has_id(old(self)@.servers, server@.id),
            r ==> final(self)@.servers == old(self)@.servers.push(server@),
            !r ==> final(self)@ == old(self)@,
            has_id(final(self)@.servers, server@.id),
            final(self)@.version == old(self)@.version,
            vault_data_wf(final(self)@),
    {
        if self.find_index(server.id).is_some() {
            return false;
        }
        let ghost old_views = self@.servers;
        self.servers.push(server);
        proof {
            assert(views_of(self.servers@) =~= old_views.push(server@));
            assert(views_of(self.servers@)[old_views.len() as int].id == server@.id);
        }
        true
    }

    /// The position of the record with identity `id`, if one is present.
    fn find_index(&self, id: u128) -> (r: Option<usize>)
        ensures
            r is Some <==> has_id(self@.servers, id),
            r matches Some(i) ==> 0 <= i < self@.servers.len() && self@.servers[i as int].id
                == id,
    {
        let mut i: usize = 0;
        while i < self.servers.len()
            invariant
                i <= self.servers@.len(),
                forall|j: int| 0 <= j < i ==> views_of(self.servers@)[j].id != id,
            decreases self.servers@.len() - i,
        {
            if self.servers[i].id == id {
                return Some(i);
            }
            i = i + 1;
        }
        None
    }

    /// Removes the record with identity `id`, if one is present; the
    /// result says whether anything was removed.  All other records keep
    /// their order.
    pub fn remove_server(&mut self, id: u128) -> (r: bool)
        requires
            vault_data_wf(old(self)@),
        ensures
            r == has_id(old(self)@.servers, id),
            !r ==> final(self)@ == old(self)@,
            r ==> exists|i: int|
                0 <= i < old(self)@.servers.len() && old(self)@.servers[i].id == id
                    && final(self)@.servers == old(self)@.servers.remove(i),
            final(self)@.version == old(self)@.version,
            !has_id(final(self)@.servers, id),
            vault_data_wf(final(self)@),
    {
        match self.find_index(id) {
            None => false,
            Some(i) => {
                let ghost old_views = self@.servers;
                let ghost gi = i as int;
                self.servers.remove(i);
                proof {
                    assert(views_of(self.servers@) =~= old_views.remove(gi));
                    assert(forall|j: int|
                        0 <= j < old_views.remove(gi).len() ==> #[trigger] old_views.remove(
                            gi,
                        )[j].id != id) by {
                        assert forall|j: int| 0 <= j < old_views.remove(gi).len() implies (
                        #[trigger] old_views.remove(gi)[j]).id != id by {
                            if j < gi {
                                assert(old_views.remove(gi)[j] == old_views[j]);
                            } else {
                                assert(old_views.remove(gi)[j] == old_views[j + 1]);
                            }
                        }
                    }
                }
                true
            },
        }
    }

    /// The record with identity `id`, if one is present.
    pub fn find_server(&self, id: u128) -> (r: Option<&Server>)
        ensures
            r is Some <==> has_id(self@.servers, id),
            r matches Some(srv) ==> exists|i: int|
                0 <= i < self@.servers.len() && self@.servers[i].id == id && self@.servers[i]
                    == srv@,
    {
        match self.find_index(id) {
            None => None,
            Some(i) => Some(&self.servers[i]),
        }
    }

    /// The records, in insertion order.
    pub fn list_servers(&self) -> (r: &Vec<Server>)
        ensures
            views_of(r@) == self@.servers,
    {
        &self.servers
    }

    /// Overwrites the mutable fields of the record whose identity matches
    /// `server`'s, bumping its update time to `now`; identity and creation
    /// time are kept.  Returns false and leaves the set unchanged when no
    /// record carries that identity — a miss never inserts.
    pub fn replace_server(&mut self, server: Server, now: u64) -> (r: bool)
        requires
            vault_data_wf(old(self)@),
            server_wf(server@),
        ensures
            r == has_id(old(self)@.servers, server@.id),
            !r ==> final(self)@ == old(self)@,
            r ==> exists|i: int|
                0 <= i < old(self)@.servers.len() && old(self)@.servers[i].id == server@.id
                    && final(self)@.servers == old(self)@.servers.update(
                    i,
                    replaced_view(old(self)@.servers[i], server@, now),
                ),
            final(self)@.version == old(self)@.version,
            vault_data_wf(final(self)@),
    {
        match self.find_index(server.id) {
            None => false,
            Some(i) => {
                let ghost old_views = self@.servers;
                let ghost gi = i as int;
                let orig = &self.servers[i];
                let created = orig.created_at;
                let updated = if now < created {
                    created
                } else {
                    now
                };
                let replacement = Server {
                    id: orig.id,
                    created_at: created,
                    updated_at: updated,
                    name: server.name,
                    host: server.host,
                    port: server.port,
                    username: server.username,
                    password: server.password,
                    description: server.description,
                    tags: server.tags,
                };
                self.servers.set(i, replacement);
                proof {
                    assert(views_of(self.servers@) =~= old_views.update(
                        gi,
                        replaced_view(old_views[gi], server@, now),
                    ));
                }
                true
            },
        }
    }
}

} // verus!
