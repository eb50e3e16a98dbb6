//! Bound sessions, the registry that holds them, and the lookup of a
//! receiver for a destination address.

use vstd::prelude::*;
use dashmap::DashMap;
use vstd::string::StringExecFns;
use crate::text::starts_with;

verus! {

/// Role that a client bound with.
#[derive(Debug, Clone, Copy, PartialEq, Eq, Structural)]
pub enum BindType {
    Transmitter,
    Receiver,
    Transceiver,
}

/// Protocol version that a peer declares.
#[derive(Debug, Clone, Copy, PartialEq, Eq, Structural)]
pub enum InterfaceVersion {
    Smpp3_3,
    Smpp3_4,
    Smpp5_0,
}

/// One bound connection.
#[derive(Debug)]
pub struct Session {
    /// Unique id of the session.
    pub id: String,
    /// Identity that the client declared.
    pub system_id: String,
    pub bind_type: BindType,
    pub interface_version: Option<InterfaceVersion>,
    /// Remote address of the connection, as text.
    pub addr: String,
    /// Destination addresses that the session subscribes to.
    pub address_range: Option<String>,
}

/// What a session holds, as mathematical values.
pub struct SessionView {
    pub id: Seq<char>,
    pub system_id: Seq<char>,
    pub bind_type: BindType,
    pub interface_version: Option<InterfaceVersion>,
    pub addr: Seq<char>,
    pub address_range: Option<Seq<char>>,
}

/// The characters of an optional string.
pub open spec fn option_text(s: Option<String>) -> Option<Seq<char>> {
    match s {
        Some(t) => Some(t@),
        None => None,
    }
}

impl View for Session {
    type V = SessionView;

    open spec fn view(&self) -> SessionView {
        SessionView {
            id: self.id@,
            system_id: self.system_id@,
            bind_type: self.bind_type,
            interface_version: self.interface_version,
            addr: self.addr@,
            address_range: option_text(self.address_range),
        }
    }
}

impl Clone for Session {
    fn clone(&self) -> (r: Self)
        ensures
            r@ == self@,
    {
        Session {
            id: self.id.clone(),
            system_id: self.system_id.clone(),
            bind_type: self.bind_type,
            interface_version: self.interface_version,
            addr: self.addr.clone(),
            address_range: match &self.address_range {
                Some(t) => Some(t.clone()),
                None => None,
            },
        }
    }
}

/// `Uuid::new_v4` and its `to_string`: a fresh random id in the hyphenated
/// form, which is 36 characters long. Nothing is claimed of its value.
#[verifier::external_body]
fn new_session_id() -> (r: String)
    ensures
        r@.len() == 36,
{
    uuid::Uuid::new_v4().to_string()
}

impl Session {
    /// A session with a fresh id and no interface version.
    pub fn new(
        system_id: String,
        bind_type: BindType,
        addr: String,
        address_range: Option<String>,
    ) -> (r: Session)
        ensures
            r@.id.len() == 36,
            r@.system_id == system_id@,
            r@.bind_type == bind_type,
            r@.interface_version is None,
            r@.addr == addr@,
            r@.address_range == option_text(address_range),
    {
        Session {
            id: new_session_id(),
            system_id,
            bind_type,
            interface_version: None,
            addr,
            address_range,
        }
    }
}

#[verifier::external_type_specification]
#[verifier::external_body]
#[verifier::reject_recursive_types(K)]
#[verifier::reject_recursive_types(V)]
#[verifier::reject_recursive_types(S)]
pub struct ExDashMap<K, V, S>(DashMap<K, V, S>);

/// The sessions that a map holds, by key.
pub uninterp spec fn session_entries(map: DashMap<String, Session>) -> Map<Seq<char>, SessionView>;

/// `keys` names every entry of `map` once, and `items` lists the values
/// under those keys in the same order.
pub open spec fn lists_entries<V>(items: Seq<V>, keys: Seq<Seq<char>>, map: Map<Seq<char>, V>) -> bool {
    &&& keys.len() == items.len()
    &&& keys.no_duplicates()
    &&& forall|k: Seq<char>| keys.contains(k) <==> map.contains_key(k)
    &&& forall|i: int| 0 <= i < items.len() ==> items[i] == map[#[trigger] keys[i]]
}

/// `items` holds the values of `map`, each entry once, in some order.
pub open spec fn is_snapshot<V>(items: Seq<V>, map: Map<Seq<char>, V>) -> bool {
    exists|keys: Seq<Seq<char>>| lists_entries(items, keys, map)
}

/// The keys under which a snapshot lists the entries of a finite map: as
/// many as the map has entries, each a key of the map, and every key of the
/// map among them.
pub proof fn lemma_snapshot_keys<V>(items: Seq<V>, map: Map<Seq<char>, V>) -> (keys: Seq<
    Seq<char>,
>)
    requires
        is_snapshot(items, map),
        map.dom().finite(),
    ensures
        lists_entries(items, keys, map),
        items.len() == map.len(),
        forall|i: int| 0 <= i < keys.len() ==> map.contains_key(#[trigger] keys[i]),
        forall|k: Seq<char>| #[trigger]
            map.contains_key(k) ==> exists|i: int| 0 <= i < keys.len() && #[trigger] keys[i] == k,
{
    let keys = choose|keys: Seq<Seq<char>>| lists_entries(items, keys, map);
    assert forall|i: int| 0 <= i < keys.len() implies map.contains_key(#[trigger] keys[i]) by {
        assert(keys.contains(keys[i]));
    }
    assert forall|k: Seq<char>| #[trigger] map.contains_key(k) implies exists|i: int|
        0 <= i < keys.len() && #[trigger] keys[i] == k by {
        assert(keys.contains(k));
    }
    keys.unique_seq_to_set();
    assert(keys.to_set() =~= map.dom());
    keys
}

/// The views of a list of sessions.
pub open spec fn session_views(items: Seq<Session>) -> Seq<SessionView> {
    items.map_values(|s: Session| s@)
}

/// The registry without sessions.
pub open spec fn no_sessions() -> Map<Seq<char>, SessionView> {
    Map::empty()
}

/// `DashMap::new`: a map without entries.
#[verifier::external_body]
fn sessions_new() -> (r: DashMap<String, Session>)
    ensures
        session_entries(r) == no_sessions(),
{
    DashMap::new()
}

/// `DashMap::insert`: afterwards the map holds `value` under `key`, in
/// place of what it held there, and its other entries are unchanged.
#[verifier::external_body]
fn sessions_insert(map: &mut DashMap<String, Session>, key: String, value: Session)
    ensures
        session_entries(*final(map)) == session_entries(*old(map)).insert(key@, value@),
    no_unwind
{
    map.insert(key, value);
}

/// `DashMap::remove`: afterwards the map has no entry under `key`, and its
/// other entries are unchanged.
#[verifier::external_body]
fn sessions_remove(map: &mut DashMap<String, Session>, key: &str)
    ensures
        session_entries(*final(map)) == session_entries(*old(map)).remove(key@),
    no_unwind
{
    map.remove(key);
}

/// `DashMap::get`, cloning what it refers to: the value under `key`, if the
/// map has one.
#[verifier::external_body]
fn sessions_get(map: &DashMap<String, Session>, key: &str) -> (r: Option<Session>)
    ensures
        r is Some == session_entries(*map).contains_key(key@),
        r matches Some(s) ==> s@ == session_entries(*map)[key@],
{
    map.get(key).map(|entry| entry.value().clone())
}

/// `DashMap::len`: the number of entries.
#[verifier::external_body]
fn sessions_len(map: &DashMap<String, Session>) -> (r: usize)
    ensures
        r == session_entries(*map).dom().len(),
{
    map.len()
}

/// `DashMap::iter`, cloning each value: every entry once, in the order in
/// which the map walks its shards, of which nothing is claimed.
#[verifier::external_body]
fn sessions_values(map: &DashMap<String, Session>) -> (r: Vec<Session>)
    ensures
        is_snapshot(session_views(r@), session_entries(*map)),
{
    map.iter().map(|entry| entry.value().clone()).collect()
}

/// Whether `pattern` is a regular expression that the engine accepts.
pub uninterp spec fn regex_compiles(pattern: Seq<char>) -> bool;

/// Whether the regular expression `pattern` has a match somewhere in `text`.
pub uninterp spec fn regex_is_match(pattern: Seq<char>, text: Seq<char>) -> bool;

/// `regex::Regex::new` on `pattern` and, where that compiles,
/// `Regex::is_match` on `text`: `None` where the pattern is refused, else
/// whether it has a match in `text`.
#[verifier::external_body]
fn regex_search(pattern: &str, text: &str) -> (r: Option<bool>)
    ensures
        r is Some == regex_compiles(pattern@),
        r matches Some(found) ==> found == regex_is_match(pattern@, text@),
{
    match regex::Regex::new(pattern) {
        Ok(re) => Some(re.is_match(text)),
        Err(_) => None,
    }
}

/// `range` inside a group between the anchors for start and end of text.
pub open spec fn anchored(range: Seq<char>) -> Seq<char> {
    "^(?:"@ + range + ")$"@
}

/// Whether an address range covers a destination address. A range that
/// compiles as a regular expression must match the whole address; one that
/// does not compile is taken as a literal prefix.
pub open spec fn range_matches(range: Seq<char>, dest_addr: Seq<char>) -> bool {
    if regex_compiles(range) {
        regex_compiles(anchored(range)) && regex_is_match(anchored(range), dest_addr)
    } else {
        range.is_prefix_of(dest_addr)
    }
}

/// Whether `range` covers `dest_addr`.
pub fn address_matches(range: &str, dest_addr: &str) -> (r: bool)
    ensures
        r == range_matches(range@, dest_addr@),
{
    match regex_search(range, dest_addr) {
        None => starts_with(dest_addr, range),
        Some(_) => {
            let mut whole = String::from_str("^(?:");
            whole.append(range);
            whole.append(")$");
            match regex_search(whole.as_str(), dest_addr) {
                Some(found) => found,
                None => false,
            }
        },
    }
}

/// Whether a session may receive a message for `dest_addr`: it is bound as
/// receiver or transceiver, and has an address range that covers the address.
pub open spec fn eligible(session: SessionView, dest_addr: Seq<char>) -> bool {
    &&& session.bind_type != BindType::Transmitter
    &&& session.address_range matches Some(range)
    &&& range_matches(range, dest_addr)
}

/// Whether `session` may receive a message for `dest_addr`.
pub fn is_eligible(session: &Session, dest_addr: &str) -> (r: bool)
    ensures
        r == eligible(session@, dest_addr@),
{
    match session.bind_type {
        BindType::Transmitter => false,
        _ => match &session.address_range {
            Some(range) => address_matches(range.as_str(), dest_addr),
            None => false,
        },
    }
}

/// Index of the first session in `sessions` that may receive a message for
/// `dest_addr`.
pub fn first_subscriber(sessions: &Vec<Session>, dest_addr: &str) -> (r: Option<usize>)
    ensures
        match r {
            Some(i) => i < sessions.len() && eligible(sessions[i as int]@, dest_addr@)
                && forall|j: int| 0 <= j < i ==> !eligible(#[trigger] sessions[j]@, dest_addr@),
            None => forall|j: int|
                0 <= j < sessions.len() ==> !eligible(#[trigger] sessions[j]@, dest_addr@),
        },
{
    let mut i: usize = 0;
    while i < sessions.len()
        invariant
            i <= sessions.len(),
            forall|j: int| 0 <= j < i ==> !eligible(#[trigger] sessions[j]@, dest_addr@),
        decreases sessions.len() - i,
    {
        if is_eligible(&sessions[i], dest_addr) {
            return Some(i);
        }
        i += 1;
    }
    None
}

/// `items` lists the sessions of `registry`, each once, in some order.
pub open spec fn lists_sessions(items: Seq<SessionView>, registry: Map<Seq<char>, SessionView>) -> bool {
    &&& forall|i: int|
        0 <= i < items.len() ==> registry.contains_key(#[trigger] items[i].id)
            && registry[items[i].id] == items[i]
    &&& forall|k: Seq<char>| #[trigger]
        registry.contains_key(k) ==> exists|i: int| 0 <= i < items.len() && #[trigger] items[i].id == k
    &&& forall|i: int, j: int|
        0 <= i < j < items.len() ==> #[trigger] items[i].id != #[trigger] items[j].id
}

/// The registry of bound sessions, by session id.
pub struct SessionManager {
    sessions: DashMap<String, Session>,
}

impl View for SessionManager {
    type V = Map<Seq<char>, SessionView>;

    closed spec fn view(&self) -> Map<Seq<char>, SessionView> {
        session_entries(self.sessions)
    }
}

impl SessionManager {
    #[verifier::type_invariant]
    spec fn keyed_by_id(self) -> bool {
        &&& self@.dom().finite()
        &&& forall|k: Seq<char>| #[trigger] self@.contains_key(k) ==> self@[k].id == k
    }

    /// A registry without sessions.
    pub fn new() -> (r: Self)
        ensures
            r@ == no_sessions(),
    {
        SessionManager { sessions: sessions_new() }
    }

    /// Registers `session` under its id, in place of any session that had
    /// the same id.
    pub fn add_session(&mut self, session: Session)
        ensures
            final(self)@ == old(self)@.insert(session@.id, session@),
    {
        proof {
            use_type_invariant(&*self);
        }
        let key = session.id.clone();
        sessions_insert(&mut self.sessions, key, session);
    }

    /// Removes the session with this id, if there is one.
    pub fn remove_session(&mut self, session_id: &str)
        ensures
            final(self)@ == old(self)@.remove(session_id@),
    {
        proof {
            use_type_invariant(&*self);
        }
        sessions_remove(&mut self.sessions, session_id);
    }

    /// The session with this id, if there is one.
    pub fn get_session(&self, session_id: &str) -> (r: Option<Session>)
        ensures
            r is Some == self@.contains_key(session_id@),
            r matches Some(s) ==> s@ == self@[session_id@] && s@.id == session_id@,
    {
        proof {
            use_type_invariant(self);
        }
        sessions_get(&self.sessions, session_id)
    }

    /// How many sessions are registered.
    pub fn count(&self) -> (r: usize)
        ensures
            self@.dom().finite(),
            r == self@.len(),
    {
        proof {
            use_type_invariant(self);
        }
        sessions_len(&self.sessions)
    }

    /// A copy of every registered session, each once, in no particular order.
    pub fn get_all_sessions(&self) -> (r: Vec<Session>)
        ensures
            lists_sessions(session_views(r@), self@),
            self@.dom().finite(),
            r.len() == self@.len(),
    {
        proof {
            use_type_invariant(self);
        }
        let all = sessions_values(&self.sessions);
        proof {
            let items = session_views(all@);
            let keys = lemma_snapshot_keys(items, self@);
            assert forall|i: int| 0 <= i < items.len() implies #[trigger] items[i].id == keys[i] by {
                assert(self@.contains_key(keys[i]));
            }
            assert forall|k: Seq<char>| #[trigger] self@.contains_key(k) implies exists|i: int|
                0 <= i < items.len() && #[trigger] items[i].id == k by {
                let i = choose|i: int| 0 <= i < keys.len() && #[trigger] keys[i] == k;
                assert(items[i].id == k);
            }
        }
        all
    }

    /// A session that may receive a message for `dest_addr`: the first such
    /// session in the order in which the registry lists its sessions, or
    /// `None` where no registered session is eligible.
    pub fn find_subscriber(&self, dest_addr: &str) -> (r: Option<Session>)
        ensures
            match r {
                Some(s) => self@.contains_key(s@.id) && self@[s@.id] == s@ && eligible(
                    s@,
                    dest_addr@,
                ),
                None => forall|k: Seq<char>| #[trigger]
                    self@.contains_key(k) ==> !eligible(self@[k], dest_addr@),
            },
    {
        let all = self.get_all_sessions();
        let ghost items = session_views(all@);
        match first_subscriber(&all, dest_addr) {
            Some(i) => {
                assert(items[i as int] == all@[i as int]@);
                Some(all[i].clone())
            },
            None => {
                assert forall|k: Seq<char>| #[trigger] self@.contains_key(k) implies !eligible(
                    self@[k],
                    dest_addr@,
                ) by {
                    let i = choose|i: int| 0 <= i < items.len() && #[trigger] items[i].id == k;
                    assert(items[i] == all@[i]@);
                }
                None
            },
        }
    }
}

/// What happens to the registry in the life of the connections.
pub enum RegistryEvent {
    /// A bind succeeded and installed this session.
    Bound(SessionView),
    /// The session with this id was unbound, or its connection ended.
    Closed(Seq<char>),
}

/// Whether an event installs or removes the session with this id.
pub open spec fn concerns(event: RegistryEvent, id: Seq<char>) -> bool {
    match event {
        RegistryEvent::Bound(session) => session.id == id,
        RegistryEvent::Closed(closed) => closed == id,
    }
}

/// The registry after a run of events, from an empty registry: what
/// `add_session` makes of each bind and `remove_session` of each close.
pub open spec fn registry_after(events: Seq<RegistryEvent>) -> Map<Seq<char>, SessionView>
    decreases events.len(),
{
    if events.len() == 0 {
        no_sessions()
    } else {
        let before = registry_after(events.drop_last());
        match events.last() {
            RegistryEvent::Bound(session) => before.insert(session.id, session),
            RegistryEvent::Closed(id) => before.remove(id),
        }
    }
}

/// Whether the last event that concerns `session.id` is the bind that
/// installed `session`.
pub open spec fn last_event_bound(events: Seq<RegistryEvent>, session: SessionView) -> bool {
    exists|i: int|
        0 <= i < events.len() && #[trigger] events[i] == RegistryEvent::Bound(session) && forall|
            j: int,
        |
            i < j < events.len() ==> !concerns(#[trigger] events[j], session.id)
}

/// After any run of binds and closes, the registry holds exactly the
/// sessions whose last event was a successful bind: each such session stands
/// under its id, and nothing else is registered.
pub proof fn lemma_registry_holds_bound_sessions(events: Seq<RegistryEvent>, session: SessionView)
    ensures
        (registry_after(events).contains_key(session.id) && registry_after(events)[session.id]
            == session) <==> last_event_bound(events, session),
    decreases events.len(),
{
    if events.len() == 0 {
    } else {
        let earlier = events.drop_last();
        let last = events.last();
        lemma_registry_holds_bound_sessions(earlier, session);
        let n = events.len() as int - 1;
        if concerns(last, session.id) {
            if last == RegistryEvent::Bound(session) {
                assert(events[n] == RegistryEvent::Bound(session));
            } else {
                if last_event_bound(events, session) {
                    let i = choose|i: int|
                        0 <= i < events.len() && #[trigger] events[i] == RegistryEvent::Bound(
                            session,
                        ) && forall|j: int|
                            i < j < events.len() ==> !concerns(#[trigger] events[j], session.id);
                    assert(i < n);
                    assert(concerns(events[n], session.id));
                }
            }
        } else {
            if last_event_bound(earlier, session) {
                let i = choose|i: int|
                    0 <= i < earlier.len() && #[trigger] earlier[i] == RegistryEvent::Bound(session)
                        && forall|j: int|
                        i < j < earlier.len() ==> !concerns(#[trigger] earlier[j], session.id);
                assert(events[i] == RegistryEvent::Bound(session));
                assert forall|j: int| i < j < events.len() implies !concerns(
                    #[trigger] events[j],
                    session.id,
                ) by {
                    if j < n {
                        assert(events[j] == earlier[j]);
                    }
                }
            }
            if last_event_bound(events, session) {
                let i = choose|i: int|
                    0 <= i < events.len() && #[trigger] events[i] == RegistryEvent::Bound(session)
                        && forall|j: int|
                        i < j < events.len() ==> !concerns(#[trigger] events[j], session.id);
                assert(i < n);
                assert(earlier[i] == RegistryEvent::Bound(session));
                assert forall|j: int| i < j < earlier.len() implies !concerns(
                    #[trigger] earlier[j],
                    session.id,
                ) by {
                    assert(events[j] == earlier[j]);
                }
            }
        }
    }
}

} // verus!
