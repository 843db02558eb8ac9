//! The server core: the messages that sessions and the coordinator
//! exchange, the per-connection session state machine, the protocol
//! negotiator's decision rules, and the coordinator that owns all client
//! and group state. Sockets, threads and channels live outside the
//! library; they feed lines and messages in and carry lines and messages
//! out exactly as these functions decide.

use vstd::prelude::*;
use crate::map::{json_of, MapInfo, MapPlaces};
use crate::registry;
use crate::text;
use crate::version::Version;

verus! {

/// What a message is: the sender's id and the body.
pub struct MsgModel {
    /// The id of the client the message speaks for.
    pub id: Seq<char>,
    /// The body.
    pub body: BodyModel,
}

/// What a message body is.
pub enum BodyModel {
    /// The client's session is ending.
    Close,
    /// The client registers under the carried id.
    Identify(Seq<char>),
    /// The client joins the named group.
    JoinGroup(Seq<char>),
    /// The client asks for the named map.
    GetMap(Seq<char>),
    /// A rendered map payload, sent back on a client's private channel.
    MapResult(Seq<char>),
    /// A failure, sent back on a client's private channel.
    ErrorResult(Seq<char>),
}

/// Identification of a client: the id it supplied during the identify
/// step. The private reply channel that travels with it in the running
/// server is owned outside the library, keyed by this id.
pub struct Ident {
    /// The id of the client.
    pub id: String,
}

impl Ident {
    /// Creates a new instance of `Ident`.
    pub fn new(id: String) -> (r: Ident)
        ensures
            r.id@ == id@,
    {
        Ident { id }
    }
}

/// The different jobs a client session can hand to the coordinator, and
/// the two results the coordinator pushes back on a session's private
/// reply channel.
pub enum MessageBody {
    /// The client's session is ending.
    Close,
    /// The client identifies itself to the server.
    Identify(Ident),
    /// The client attaches to a group.
    JoinGroup(String),
    /// The client asks for a map.
    GetMap(String),
    /// A loaded map to return to a client.
    MapResult(String),
    /// An error with its description, for example when a map could not
    /// be loaded.
    ErrorResult(String),
}

impl View for MessageBody {
    type V = BodyModel;

    closed spec fn view(&self) -> BodyModel {
        match self {
            MessageBody::Close => BodyModel::Close,
            MessageBody::Identify(ident) => BodyModel::Identify(ident.id@),
            MessageBody::JoinGroup(g) => BodyModel::JoinGroup(g@),
            MessageBody::GetMap(m) => BodyModel::GetMap(m@),
            MessageBody::MapResult(p) => BodyModel::MapResult(p@),
            MessageBody::ErrorResult(e) => BodyModel::ErrorResult(e@),
        }
    }
}

/// An envelope containing a client id and a message body, for
/// inter-thread communication.
pub struct Message {
    /// The id of the client sending the message.
    pub id: String,
    /// The message to process.
    pub message: MessageBody,
}

impl View for Message {
    type V = MsgModel;

    open spec fn view(&self) -> MsgModel {
        MsgModel { id: self.id@, body: self.message@ }
    }
}

impl Message {
    /// Creates a new message as a shortcut.
    pub fn new(id: String, message: MessageBody) -> (r: Message)
        ensures
            r@ == (MsgModel { id: id@, body: message@ }),
    {
        Message { id, message }
    }

    /// Creates a new message with this message's id prefilled.
    pub fn new_message(&self, message: MessageBody) -> (r: Message)
        ensures
            r@ == (MsgModel { id: self.id@, body: message@ }),
    {
        Message { message, id: self.id.clone() }
    }

    /// Creates a `Close` message that mainly saves an id for later use
    /// in `new_message`.
    pub fn new_id(id: String) -> (r: Message)
        ensures
            r@ == (MsgModel { id: id@, body: BodyModel::Close }),
    {
        Message { id, message: MessageBody::Close }
    }

    /// An empty message (a `Close` under the placeholder id `00001`),
    /// for variable initialisation.
    pub fn empty() -> (r: Message)
        ensures
            r@ == (MsgModel { id: "00001"@, body: BodyModel::Close }),
    {
        Message { id: String::from_str("00001"), message: MessageBody::Close }
    }

    /// A one-line description of the message, naming its sender.
    pub fn summary(&self) -> (r: String)
        ensures
            r@ == "Message from "@ + self.id@,
    {
        let mut s = String::from_str("Message from ");
        s.append(self.id.as_str());
        s
    }
}

/// What one session knows: whether the client has identified, and the
/// id its messages carry (the placeholder `00001` until it identifies).
pub struct SessionModel {
    /// Whether an `identify` has been honoured.
    pub identified: bool,
    /// The id the session's messages carry.
    pub id: Seq<char>,
}

/// The state of one client connection's session.
pub struct Session {
    identified: bool,
    id: String,
}

impl View for Session {
    type V = SessionModel;

    closed spec fn view(&self) -> SessionModel {
        SessionModel { identified: self.identified, id: self.id@ }
    }
}

/// What a session step asks its caller to do.
pub enum ActModel {
    /// Write `Bye`, send the carried `Close`, and end the session.
    Quit(MsgModel),
    /// Send the carried `Identify`.
    SendIdentify(MsgModel),
    /// Write `Error`: the session already identified once.
    RejectIdentify,
    /// Send the carried `JoinGroup`; nothing is awaited.
    SendJoin(MsgModel),
    /// Send the carried `GetMap` and await exactly one reply on the
    /// session's private channel.
    QueryMap(MsgModel),
    /// Write `Unknown command`.
    Unknown,
}

/// The action a session step asks its caller to perform.
pub enum SessionAction {
    /// Write `Bye`, send the carried `Close`, and end the session.
    Quit(Message),
    /// Send the carried `Identify`.
    SendIdentify(Message),
    /// Write `Error`: the session already identified once.
    RejectIdentify,
    /// Send the carried `JoinGroup`; nothing is awaited.
    SendJoin(Message),
    /// Send the carried `GetMap` and await exactly one reply on the
    /// session's private channel.
    QueryMap(Message),
    /// Write `Unknown command`.
    Unknown,
}

impl View for SessionAction {
    type V = ActModel;

    closed spec fn view(&self) -> ActModel {
        match self {
            SessionAction::Quit(m) => ActModel::Quit(m@),
            SessionAction::SendIdentify(m) => ActModel::SendIdentify(m@),
            SessionAction::RejectIdentify => ActModel::RejectIdentify,
            SessionAction::SendJoin(m) => ActModel::SendJoin(m@),
            SessionAction::QueryMap(m) => ActModel::QueryMap(m@),
            SessionAction::Unknown => ActModel::Unknown,
        }
    }
}

/// One step of the session state machine: the received line is trimmed
/// and dispatched case-insensitively on its prefix, exactly in this
/// order: `quit`, `identify` (honoured once; the id is the rest of the
/// line after nine characters), `join`, `map`, anything else. The
/// argument of a command is the rest of the trimmed line after the
/// command word and one more character.
pub open spec fn spec_session_step(st: SessionModel, line: Seq<char>) -> (SessionModel, ActModel) {
    let t = text::spec_trim(line);
    if text::ci_prefix(t, "quit"@) {
        (st, ActModel::Quit(MsgModel { id: st.id, body: BodyModel::Close }))
    } else if text::ci_prefix(t, "identify"@) {
        if !st.identified {
            let id = text::skip_chars(t, 9);
            (
                SessionModel { identified: true, id },
                ActModel::SendIdentify(MsgModel { id, body: BodyModel::Identify(id) }),
            )
        } else {
            (st, ActModel::RejectIdentify)
        }
    } else if text::ci_prefix(t, "join"@) {
        (
            st,
            ActModel::SendJoin(
                MsgModel { id: st.id, body: BodyModel::JoinGroup(text::skip_chars(t, 5)) },
            ),
        )
    } else if text::ci_prefix(t, "map"@) {
        (
            st,
            ActModel::QueryMap(
                MsgModel { id: st.id, body: BodyModel::GetMap(text::skip_chars(t, 4)) },
            ),
        )
    } else {
        (st, ActModel::Unknown)
    }
}

/// The line a session writes back immediately after a step, if any.
pub open spec fn spec_immediate_line(a: ActModel) -> Option<Seq<char>> {
    match a {
        ActModel::Quit(_) => Some("Bye\n"@),
        ActModel::RejectIdentify => Some("Error\n"@),
        ActModel::Unknown => Some("Unknown command\n"@),
        _ => None,
    }
}

/// The line a session writes for a message arriving on its private
/// reply channel, if any: the map payload after `map `, or the error
/// line; any other body is ignored.
pub open spec fn spec_reply_line(m: MsgModel) -> Option<Seq<char>> {
    match m.body {
        BodyModel::MapResult(p) => Some("map "@ + p + "\n"@),
        BodyModel::ErrorResult(_) => Some("error could not load map\n"@),
        _ => None,
    }
}

impl Session {
    /// A fresh session: unidentified, speaking under the placeholder id.
    pub fn new() -> (r: Session)
        ensures
            r@ == (SessionModel { identified: false, id: "00001"@ }),
    {
        Session { identified: false, id: String::from_str("00001") }
    }

    /// Runs one step of the session state machine on a received line and
    /// returns what the caller must do next.
    pub fn step(&mut self, line: &str) -> (a: SessionAction)
        ensures
            final(self)@ == spec_session_step(old(self)@, line@).0,
            a@ == spec_session_step(old(self)@, line@).1,
    {
        let t = text::trim_line(line);
        if text::starts_with_ci(t, "quit") {
            SessionAction::Quit(
                Message { id: self.id.clone(), message: MessageBody::Close },
            )
        } else if text::starts_with_ci(t, "identify") {
            if !self.identified {
                let id = String::from_str(text::suffix_from(t, 9));
                self.identified = true;
                self.id = id.clone();
                SessionAction::SendIdentify(
                    Message { id: id.clone(), message: MessageBody::Identify(Ident { id }) },
                )
            } else {
                SessionAction::RejectIdentify
            }
        } else if text::starts_with_ci(t, "join") {
            let group = String::from_str(text::suffix_from(t, 5));
            SessionAction::SendJoin(
                Message { id: self.id.clone(), message: MessageBody::JoinGroup(group) },
            )
        } else if text::starts_with_ci(t, "map") {
            let name = String::from_str(text::suffix_from(t, 4));
            SessionAction::QueryMap(
                Message { id: self.id.clone(), message: MessageBody::GetMap(name) },
            )
        } else {
            SessionAction::Unknown
        }
    }
}

/// The line to write back immediately after a step, if any.
pub fn immediate_line(a: &SessionAction) -> (r: Option<String>)
    ensures
        match spec_immediate_line(a@) {
            Some(l) => r matches Some(s) && s@ == l,
            None => r is None,
        },
{
    match a {
        SessionAction::Quit(_) => Some(String::from_str("Bye\n")),
        SessionAction::RejectIdentify => Some(String::from_str("Error\n")),
        SessionAction::Unknown => Some(String::from_str("Unknown command\n")),
        _ => None,
    }
}

/// The line to write for a message arriving on the session's private
/// reply channel, if any.
pub fn reply_line(m: &Message) -> (r: Option<String>)
    ensures
        match spec_reply_line(m@) {
            Some(l) => r matches Some(s) && s@ == l,
            None => r is None,
        },
{
    match &m.message {
        MessageBody::MapResult(p) => {
            let mut s = String::from_str("map ");
            s.append(p.as_str());
            s.append("\n");
            Some(s)
        },
        MessageBody::ErrorResult(_) => Some(String::from_str("error could not load map\n")),
        _ => None,
    }
}

/// The outcome of the version handshake on a custom-protocol line.
pub enum Handshake {
    /// The client's version satisfies the compatibility rule; the
    /// session may start.
    Accepted(Version),
    /// The version parsed but is not supported: answer with the
    /// mismatch line and close.
    Rejected(Version),
    /// The version did not parse: fatal for this connection.
    Malformed,
}

/// Where the negotiator routes a fresh connection, judged by its first
/// line.
pub enum Negotiation {
    /// The line starts with the custom protocol's prefix: greet, then
    /// act on the handshake outcome.
    Session(Handshake),
    /// The line belongs to an HTTP request: hand the connection over.
    Http,
    /// Neither: answer with the mismatch line and close.
    Mismatch,
}

/// The handshake outcome for the text after the protocol prefix, as
/// decided by the semantic-version parse and the compatibility rule.
pub open spec fn spec_handshake(rest: Seq<char>) -> Handshake {
    match crate::version::semver_parse(rest) {
        None => Handshake::Malformed,
        Some(t) => {
            let v = Version::spec_from_parts(t);
            if crate::version::spec_client_supported(v) {
                Handshake::Accepted(v)
            } else {
                Handshake::Rejected(v)
            }
        },
    }
}

/// Decides where a fresh connection goes from its first line: a line
/// starting with `POKE-ESCAPE_` enters the version handshake with the
/// rest of the line; a line containing `HTTP/1.1` goes to the HTTP
/// handler; anything else is a protocol mismatch. The line is examined
/// with surrounding whitespace stripped.
pub fn negotiate_line(line: &str) -> (r: Negotiation)
    ensures
        ({
            let t = text::spec_trim(line@);
            &&& text::is_prefix(t, "POKE-ESCAPE_"@) ==> (r matches Negotiation::Session(h) && h
                == spec_handshake(text::skip_chars(t, 12)))
            &&& (!text::is_prefix(t, "POKE-ESCAPE_"@) && text::contains_seq(t, "HTTP/1.1"@)) ==> r
                is Http
            &&& (!text::is_prefix(t, "POKE-ESCAPE_"@) && !text::contains_seq(t, "HTTP/1.1"@)) ==> r
                is Mismatch
        }),
{
    let t = text::trim_line(line);
    if text::starts_with(t, "POKE-ESCAPE_") {
        let rest = text::suffix_from(t, 12);
        match Version::parse(rest) {
            None => Negotiation::Session(Handshake::Malformed),
            Some(v) => {
                if crate::version::client_supported(&v) {
                    Negotiation::Session(Handshake::Accepted(v))
                } else {
                    Negotiation::Session(Handshake::Rejected(v))
                }
            },
        }
    } else if text::contains_str(t, "HTTP/1.1") {
        Negotiation::Http
    } else {
        Negotiation::Mismatch
    }
}

/// The greeting the server writes on the custom protocol path, naming
/// its own version.
pub fn greeting_line(server_version: &Version) -> (r: String)
    ensures
        r@ == "POKE-ESCAPE-SERVER_"@ + server_version.spec_render() + "\n"@,
{
    let mut s = String::from_str("POKE-ESCAPE-SERVER_");
    let v = server_version.render();
    s.append(v.as_str());
    s.append("\n");
    s
}

/// The answer to a connection that speaks neither protocol, and to an
/// unsupported client version.
pub fn mismatch_line() -> (r: String)
    ensures
        r@ == "Protocol mismatch.\n"@,
{
    String::from_str("Protocol mismatch.\n")
}

/// The view of an optional room name.
pub open spec fn opt_view(o: Option<String>) -> Option<Seq<char>> {
    match o {
        Some(s) => Some(s@),
        None => None,
    }
}

/// The view of a list of names.
pub open spec fn strs_view(v: Vec<String>) -> Seq<Seq<char>> {
    Seq::new(v@.len(), |i: int| v@[i]@)
}

/// One identified client, as the coordinator records it: the room it
/// last joined, if any. The client's private reply channel is owned
/// outside the library, keyed by the client's id.
pub struct Client {
    /// The room of the client.
    pub room: Option<String>,
}

impl Client {
    /// A fresh record: no room joined yet.
    pub fn new() -> (r: Client)
        ensures
            r.room is None,
    {
        Client { room: None }
    }
}

/// What the coordinator's registry is: the identified clients with their
/// rooms, and the groups with their member lists.
pub struct CoordModel {
    /// Each identified client's id and its room.
    pub clients: Seq<(Seq<char>, Option<Seq<char>>)>,
    /// Each group's name and its member list, in join order.
    pub groups: Seq<(Seq<char>, Seq<Seq<char>>)>,
}

/// The member list of a group; a group never joined is empty.
pub open spec fn members_of(groups: Seq<(Seq<char>, Seq<Seq<char>>)>, g: Seq<char>) -> Seq<
    Seq<char>,
> {
    if registry::vhas(groups, g) {
        registry::vget(groups, g)
    } else {
        Seq::<Seq<char>>::empty()
    }
}

/// `s` with every occurrence of `x` removed, order kept.
pub open spec fn remove_all(s: Seq<Seq<char>>, x: Seq<char>) -> Seq<Seq<char>>
    decreases s.len(),
{
    if s.len() == 0 {
        Seq::<Seq<char>>::empty()
    } else if s.last() == x {
        remove_all(s.drop_last(), x)
    } else {
        remove_all(s.drop_last(), x).push(s.last())
    }
}

/// How often `x` occurs in `s`.
pub open spec fn count_of(s: Seq<Seq<char>>, x: Seq<char>) -> nat
    decreases s.len(),
{
    if s.len() == 0 {
        0
    } else if s.last() == x {
        count_of(s.drop_last(), x) + 1
    } else {
        count_of(s.drop_last(), x)
    }
}

/// Appending an element raises its own count by one and no other.
pub proof fn lemma_count_push(s: Seq<Seq<char>>, x: Seq<char>, y: Seq<char>)
    ensures
        x == y ==> count_of(s.push(x), y) == count_of(s, y) + 1,
        x != y ==> count_of(s.push(x), y) == count_of(s, y),
{
    assert(s.push(x).drop_last() =~= s);
    assert(s.push(x).last() == x);
}

/// Membership under push.
pub proof fn lemma_push_contains(s: Seq<Seq<char>>, z: Seq<char>, y: Seq<char>)
    ensures
        s.push(z).contains(y) == (s.contains(y) || z == y),
{
    let p = s.push(z);
    if p.contains(y) {
        let i = choose|i: int| 0 <= i < p.len() && p[i] == y;
        if i < s.len() {
            assert(s[i] == y);
        }
    }
    if s.contains(y) {
        let i = choose|i: int| 0 <= i < s.len() && s[i] == y;
        assert(p[i] == y);
    }
    if z == y {
        assert(p[s.len() as int] == y);
    }
}

/// Membership under drop of the last element.
pub proof fn lemma_drop_last_contains(s: Seq<Seq<char>>, y: Seq<char>)
    requires
        s.len() > 0,
    ensures
        s.contains(y) == (s.drop_last().contains(y) || s.last() == y),
{
    if s.contains(y) {
        let i = choose|i: int| 0 <= i < s.len() && s[i] == y;
        if i < s.len() - 1 {
            assert(s.drop_last()[i] == y);
        }
    }
    if s.drop_last().contains(y) {
        let i = choose|i: int| 0 <= i < s.drop_last().len() && s.drop_last()[i] == y;
        assert(s[i] == y);
    }
}

/// Removing all occurrences of `x` keeps every other element.
pub proof fn lemma_remove_all_contains(s: Seq<Seq<char>>, x: Seq<char>, y: Seq<char>)
    requires
        y != x,
    ensures
        remove_all(s, x).contains(y) == s.contains(y),
    decreases s.len(),
{
    if s.len() == 0 {
        assert(!s.contains(y));
        assert(!remove_all(s, x).contains(y));
    } else {
        lemma_remove_all_contains(s.drop_last(), x, y);
        lemma_drop_last_contains(s, y);
        if s.last() == x {
        } else {
            lemma_push_contains(remove_all(s.drop_last(), x), s.last(), y);
        }
    }
}

/// One message's effect on the coordinator's registry, exactly as the
/// coordinator applies it: a `Close` removes the sender's record and its
/// entry in its room's member list; an `Identify` inserts or overwrites
/// a fresh record under the carried id; a `JoinGroup` from a known
/// client records the room and appends the sender to the group (repeated
/// joins append repeatedly); everything else leaves the registry alone.
pub open spec fn spec_step(st: CoordModel, m: MsgModel) -> CoordModel {
    match m.body {
        BodyModel::Close => if registry::vhas(st.clients, m.id) {
            let room = registry::vget(st.clients, m.id);
            let clients = registry::vremove(st.clients, m.id);
            let groups = match room {
                Some(g) => if registry::vhas(st.groups, g) {
                    registry::vupsert(st.groups, g, remove_all(registry::vget(st.groups, g), m.id))
                } else {
                    st.groups
                },
                None => st.groups,
            };
            CoordModel { clients, groups }
        } else {
            st
        },
        BodyModel::Identify(id) => CoordModel {
            clients: registry::vupsert(st.clients, id, None),
            groups: st.groups,
        },
        BodyModel::JoinGroup(g) => if registry::vhas(st.clients, m.id) {
            CoordModel {
                clients: registry::vupsert(st.clients, m.id, Some(g)),
                groups: registry::vupsert(st.groups, g, members_of(st.groups, g).push(m.id)),
            }
        } else {
            st
        },
        BodyModel::GetMap(_) => st,
        BodyModel::MapResult(_) => st,
        BodyModel::ErrorResult(_) => st,
    }
}

/// The reply one message produces, if any: only a `GetMap` from a known
/// client is answered, on that client's private channel, with the loaded
/// map's JSON payload or with the error result.
pub open spec fn spec_reply(
    store: Seq<(String, MapInfo)>,
    st: CoordModel,
    m: MsgModel,
) -> Option<(Seq<char>, MsgModel)> {
    match m.body {
        BodyModel::GetMap(name) => if registry::vhas(st.clients, m.id) {
            if registry::has_key(store, name) && registry::get_val(store, name)@.loaded is Some {
                Some(
                    (
                        m.id,
                        MsgModel {
                            id: "master"@,
                            body: BodyModel::MapResult(
                                json_of(registry::get_val(store, name)@.loaded->Some_0),
                            ),
                        },
                    ),
                )
            } else {
                Some(
                    (
                        m.id,
                        MsgModel {
                            id: "master"@,
                            body: BodyModel::ErrorResult("could not load map"@),
                        },
                    ),
                )
            }
        } else {
            None
        },
        _ => None,
    }
}

/// The registry invariant: a recorded room always appears in that room's
/// member list (the record is the source of truth; member lists never
/// lose a present client except through its own `Close`).
pub open spec fn consistent(st: CoordModel) -> bool {
    forall|id: Seq<char>|
        (#[trigger] registry::vhas(st.clients, id)) && registry::vget(st.clients, id) is Some
            ==> members_of(st.groups, registry::vget(st.clients, id)->Some_0).contains(id)
}

/// Every step keeps the registry well-formed: keys stay unique and the
/// registry invariant is preserved.
pub proof fn lemma_step_wf(st: CoordModel, m: MsgModel)
    requires
        registry::vuniq(st.clients),
        registry::vuniq(st.groups),
        consistent(st),
    ensures
        registry::vuniq(spec_step(st, m).clients),
        registry::vuniq(spec_step(st, m).groups),
        consistent(spec_step(st, m)),
{
    let st2 = spec_step(st, m);
    match m.body {
        BodyModel::Close => {
            if registry::vhas(st.clients, m.id) {
                let room = registry::vget(st.clients, m.id);
                registry::vlemma_remove(st.clients, m.id);
                match room {
                    Some(g) => {
                        if registry::vhas(st.groups, g) {
                            registry::vlemma_upsert(
                                st.groups,
                                g,
                                remove_all(registry::vget(st.groups, g), m.id),
                            );
                        }
                        assert forall|id: Seq<char>|
                            (#[trigger] registry::vhas(st2.clients, id)) && registry::vget(
                                st2.clients,
                                id,
                            ) is Some implies members_of(
                            st2.groups,
                            registry::vget(st2.clients, id)->Some_0,
                        ).contains(id) by {
                            assert(id != m.id);
                            assert(registry::vhas(st.clients, id));
                            assert(registry::vget(st.clients, id) == registry::vget(
                                st2.clients,
                                id,
                            ));
                            let h = registry::vget(st.clients, id)->Some_0;
                            assert(members_of(st.groups, h).contains(id));
                            if registry::vhas(st.groups, g) && h == g {
                                lemma_remove_all_contains(registry::vget(st.groups, g), m.id, id);
                            }
                        }
                    },
                    None => {
                        assert forall|id: Seq<char>|
                            (#[trigger] registry::vhas(st2.clients, id)) && registry::vget(
                                st2.clients,
                                id,
                            ) is Some implies members_of(
                            st2.groups,
                            registry::vget(st2.clients, id)->Some_0,
                        ).contains(id) by {
                            assert(id != m.id);
                            assert(registry::vhas(st.clients, id));
                        }
                    },
                }
            }
        },
        BodyModel::Identify(nid) => {
            registry::vlemma_upsert(st.clients, nid, None::<Seq<char>>);
            assert forall|id: Seq<char>|
                (#[trigger] registry::vhas(st2.clients, id)) && registry::vget(
                    st2.clients,
                    id,
                ) is Some implies members_of(
                st2.groups,
                registry::vget(st2.clients, id)->Some_0,
            ).contains(id) by {
                assert(id != nid);
                assert(registry::vhas(st.clients, id));
            }
        },
        BodyModel::JoinGroup(g) => {
            if registry::vhas(st.clients, m.id) {
                registry::vlemma_upsert(st.clients, m.id, Some(g));
                let nm = members_of(st.groups, g).push(m.id);
                registry::vlemma_upsert(st.groups, g, nm);
                assert forall|id: Seq<char>|
                    (#[trigger] registry::vhas(st2.clients, id)) && registry::vget(
                        st2.clients,
                        id,
                    ) is Some implies members_of(
                    st2.groups,
                    registry::vget(st2.clients, id)->Some_0,
                ).contains(id) by {
                    if id == m.id {
                        lemma_push_contains(members_of(st.groups, g), m.id, id);
                        assert(members_of(st2.groups, g) == nm);
                    } else {
                        assert(registry::vhas(st.clients, id));
                        assert(registry::vget(st2.clients, id) == registry::vget(st.clients, id));
                        let h = registry::vget(st.clients, id)->Some_0;
                        assert(members_of(st.groups, h).contains(id));
                        if h == g {
                            lemma_push_contains(members_of(st.groups, g), m.id, id);
                            assert(members_of(st2.groups, g) == nm);
                        } else {
                            assert(members_of(st2.groups, h) == members_of(st.groups, h));
                        }
                    }
                }
            }
        },
        BodyModel::GetMap(_) => {},
        BodyModel::MapResult(_) => {},
        BodyModel::ErrorResult(_) => {},
    }
}

/// Clones a list of names.
fn clone_strings(v: &Vec<String>) -> (r: Vec<String>)
    ensures
        r@.len() == v@.len(),
        forall|i: int| 0 <= i < v@.len() ==> r@[i]@ == v@[i]@,
{
    let n = v.len();
    let mut r: Vec<String> = Vec::new();
    let mut i: usize = 0;
    while i < n
        invariant
            0 <= i <= n,
            n == v@.len(),
            r@.len() == i,
            forall|j: int| 0 <= j < i ==> r@[j]@ == v@[j]@,
        decreases n - i,
    {
        r.push(v[i].clone());
        i = i + 1;
    }
    r
}

/// Removing one more element distributes over `remove_all`.
proof fn lemma_remove_all_take(s: Seq<Seq<char>>, x: Seq<char>, i: int)
    requires
        0 <= i < s.len(),
    ensures
        s[i] == x ==> remove_all(s.take(i + 1), x) == remove_all(s.take(i), x),
        s[i] != x ==> remove_all(s.take(i + 1), x) == remove_all(s.take(i), x).push(s[i]),
{
    let t = s.take(i + 1);
    assert(t.drop_last() =~= s.take(i));
    assert(t.last() == s[i]);
}

/// The member list with every entry of the closing client removed.
fn remove_matching(v: &Vec<String>, x: &String) -> (r: Vec<String>)
    ensures
        strs_view(r) == remove_all(strs_view(*v), x@),
{
    let ghost sv = strs_view(*v);
    let n = v.len();
    let mut r: Vec<String> = Vec::new();
    let mut i: usize = 0;
    proof {
        assert(sv.take(0) =~= Seq::<Seq<char>>::empty());
    }
    while i < n
        invariant
            0 <= i <= n,
            n == v@.len(),
            sv == strs_view(*v),
            strs_view(r) == remove_all(sv.take(i as int), x@),
        decreases n - i,
    {
        let ghost pre = strs_view(r);
        if !text::str_eq(v[i].as_str(), x.as_str()) {
            r.push(v[i].clone());
            proof {
                assert(strs_view(r) =~= pre.push(sv[i as int]));
            }
        }
        proof {
            lemma_remove_all_take(sv, x@, i as int);
        }
        i = i + 1;
    }
    proof {
        assert(sv.take(n as int) =~= sv);
    }
    r
}

/// The single actor owning all client and group state. Every session
/// sends its messages here, and the coordinator applies them one at a
/// time; that serialisation is the design's whole protection against
/// concurrent mutation.
pub struct Coordinator {
    clients: Vec<(String, Client)>,
    groups: Vec<(String, Vec<String>)>,
    maps: MapPlaces,
}

/// The view of one client record.
pub open spec fn client_view(c: Client) -> Option<Seq<char>> {
    opt_view(c.room)
}

impl View for Coordinator {
    type V = CoordModel;

    closed spec fn view(&self) -> CoordModel {
        CoordModel {
            clients: registry::vmap(self.clients@, |c: Client| client_view(c)),
            groups: registry::vmap(self.groups@, |v: Vec<String>| strs_view(v)),
        }
    }
}

impl Coordinator {
    /// The map catalog the coordinator answers `GetMap` from.
    pub closed spec fn store(&self) -> Seq<(String, MapInfo)> {
        self.maps.maps_seq()
    }

    /// Well-formedness: unique client ids, unique group names, and a
    /// well-formed catalog.
    pub closed spec fn wf(&self) -> bool {
        &&& registry::uniq_keys(self.clients@)
        &&& registry::uniq_keys(self.groups@)
        &&& self.maps.wf()
    }

    /// The view's registries have unique keys whenever the coordinator
    /// is well-formed.
    pub proof fn lemma_view_uniq(&self)
        requires
            self.wf(),
        ensures
            registry::vuniq(self@.clients),
            registry::vuniq(self@.groups),
    {
        registry::lemma_vmap_has(self.clients@, |c: Client| client_view(c), Seq::<char>::empty());
        registry::lemma_vmap_has(self.groups@, |v: Vec<String>| strs_view(v), Seq::<char>::empty());
    }

    /// A fresh coordinator: no clients, no groups, answering from the
    /// given catalog.
    pub fn new(maps: MapPlaces) -> (r: Coordinator)
        requires
            maps.wf(),
        ensures
            r.wf(),
            r@.clients.len() == 0,
            r@.groups.len() == 0,
            consistent(r@),
            r.store() == maps.maps_seq(),
    {
        let r = Coordinator { clients: Vec::new(), groups: Vec::new(), maps };
        proof {
            assert(r@.clients =~= Seq::<(Seq<char>, Option<Seq<char>>)>::empty());
            assert(r@.groups =~= Seq::<(Seq<char>, Seq<Seq<char>>)>::empty());
        }
        r
    }

    /// Applies one message to the registry and returns the reply to
    /// deliver, if any: exactly the step and reply the specification
    /// functions describe.
    pub fn handle(&mut self, msg: &Message) -> (r: Option<(String, Message)>)
        requires
            old(self).wf(),
        ensures
            final(self).wf(),
            final(self).store() == old(self).store(),
            final(self)@ == spec_step(old(self)@, msg@),
            match r {
                Some(p) => spec_reply(old(self).store(), old(self)@, msg@) matches Some(q) && p.0@
                    == q.0 && p.1@ == q.1,
                None => spec_reply(old(self).store(), old(self)@, msg@) is None,
            },
            consistent(old(self)@) ==> consistent(final(self)@),
    {
        proof {
            self.lemma_view_uniq();
            if consistent(self@) {
                lemma_step_wf(self@, msg@);
            }
        }
        let ghost fc = |c: Client| client_view(c);
        let ghost fg = |v: Vec<String>| strs_view(v);
        let ghost old_clients = self.clients@;
        let ghost old_groups = self.groups@;
        let ghost old_model = self@;
        match &msg.message {
            MessageBody::Close => {
                proof {
                    registry::lemma_vmap_has(old_clients, fc, msg.id@);
                }
                match registry::remove_key(&mut self.clients, msg.id.as_str()) {
                    Some(client) => {
                        proof {
                            registry::lemma_vmap_get(old_clients, fc, msg.id@);
                            registry::lemma_vmap_remove(old_clients, msg.id@, fc);
                        }
                        match client.room {
                            Some(room) => {
                                proof {
                                    registry::lemma_vmap_has(old_groups, fg, room@);
                                }
                                match registry::find_idx(&self.groups, room.as_str()) {
                                    Some(gi) => {
                                        proof {
                                            registry::lemma_get_at(old_groups, room@, gi as int);
                                            registry::lemma_vmap_get(old_groups, fg, room@);
                                        }
                                        let filtered = remove_matching(&self.groups[gi].1, &msg.id);
                                        registry::upsert(&mut self.groups, room, filtered);
                                        proof {
                                            registry::lemma_vmap_update(
                                                old_groups,
                                                room,
                                                filtered,
                                                fg,
                                            );
                                        }
                                    },
                                    None => {},
                                }
                            },
                            None => {},
                        }
                    },
                    None => {},
                }
                None
            },
            MessageBody::Identify(ident) => {
                proof {
                    registry::lemma_vmap_has(old_clients, fc, ident.id@);
                    if registry::has_key(old_clients, ident.id@) {
                        registry::lemma_vmap_update(
                            old_clients,
                            ident.id,
                            Client { room: None },
                            fc,
                        );
                    } else {
                        registry::lemma_vmap_push(old_clients, ident.id, Client { room: None }, fc);
                    }
                }
                let id = ident.id.clone();
                registry::upsert(&mut self.clients, id, Client { room: None });
                proof {
                    if registry::has_key(old_clients, ident.id@) {
                        assert(self.clients@ == old_clients.update(
                            registry::idx_of(old_clients, ident.id@),
                            (ident.id, Client { room: None }),
                        )) by {
                            assert(self.clients@ =~= old_clients.update(
                                registry::idx_of(old_clients, ident.id@),
                                (ident.id, Client { room: None }),
                            ));
                        }
                    } else {
                        assert(self.clients@ == old_clients.push((ident.id, Client { room: None })))
                            by {
                            assert(self.clients@ =~= old_clients.push(
                                (ident.id, Client { room: None }),
                            ));
                        }
                    }
                }
                None
            },
            MessageBody::JoinGroup(group) => {
                proof {
                    registry::lemma_vmap_has(old_clients, fc, msg.id@);
                }
                match registry::find_idx(&self.clients, msg.id.as_str()) {
                    Some(_) => {
                        let rec = Client { room: Some(group.clone()) };
                        let ghost grec = rec;
                        registry::upsert(&mut self.clients, msg.id.clone(), rec);
                        proof {
                            if registry::has_key(old_clients, msg.id@) {
                                registry::lemma_vmap_update(old_clients, msg.id, grec, fc);
                                assert(self.clients@ =~= old_clients.update(
                                    registry::idx_of(old_clients, msg.id@),
                                    (msg.id, grec),
                                ));
                            }
                            assert(self@.clients == registry::vupsert(
                                old_model.clients,
                                msg.id@,
                                Some(group@),
                            ));
                        }
                        proof {
                            registry::lemma_vmap_has(old_groups, fg, group@);
                        }
                        match registry::find_idx(&self.groups, group.as_str()) {
                            Some(gi) => {
                                proof {
                                    registry::lemma_get_at(old_groups, group@, gi as int);
                                    registry::lemma_vmap_get(old_groups, fg, group@);
                                }
                                let mut members = clone_strings(&self.groups[gi].1);
                                members.push(msg.id.clone());
                                let ghost gm = members;
                                registry::upsert(&mut self.groups, group.clone(), members);
                                proof {
                                    registry::lemma_vmap_update(old_groups, *group, gm, fg);
                                    assert(self.groups@ =~= old_groups.update(
                                        registry::idx_of(old_groups, group@),
                                        (*group, gm),
                                    ));
                                    assert(strs_view(gm) =~= members_of(
                                        old_model.groups,
                                        group@,
                                    ).push(msg.id@));
                                    assert(self@.groups == registry::vupsert(
                                        old_model.groups,
                                        group@,
                                        members_of(old_model.groups, group@).push(msg.id@),
                                    ));
                                }
                            },
                            None => {
                                let mut members: Vec<String> = Vec::new();
                                members.push(msg.id.clone());
                                let ghost gm = members;
                                registry::upsert(&mut self.groups, group.clone(), members);
                                proof {
                                    registry::lemma_vmap_push(old_groups, *group, gm, fg);
                                    assert(self.groups@ =~= old_groups.push((*group, gm)));
                                    assert(strs_view(gm) =~= members_of(
                                        old_model.groups,
                                        group@,
                                    ).push(msg.id@));
                                    assert(self@.groups == registry::vupsert(
                                        old_model.groups,
                                        group@,
                                        members_of(old_model.groups, group@).push(msg.id@),
                                    ));
                                }
                            },
                        }
                    },
                    None => {},
                }
                None
            },
            MessageBody::GetMap(name) => {
                proof {
                    registry::lemma_vmap_has(old_clients, fc, msg.id@);
                }
                match registry::find_idx(&self.clients, msg.id.as_str()) {
                    None => None,
                    Some(_) => {
                        let body = match self.maps.get(name.as_str()) {
                            Ok(g) => MessageBody::MapResult(g.to_json()),
                            Err(_) => MessageBody::ErrorResult(
                                String::from_str("could not load map"),
                            ),
                        };
                        Some(
                            (
                                msg.id.clone(),
                                Message { id: String::from_str("master"), message: body },
                            ),
                        )
                    },
                }
            },
            MessageBody::MapResult(_) => None,
            MessageBody::ErrorResult(_) => None,
        }
    }

    /// The recorded room of a client: `None` when the client is not in
    /// the registry, `Some(room)` when it is (with `room` itself `None`
    /// until the client joins a group).
    pub fn client_room(&self, id: &str) -> (r: Option<Option<String>>)
        requires
            self.wf(),
        ensures
            registry::vhas(self@.clients, id@) ==> (r matches Some(room) && opt_view(room)
                == registry::vget(self@.clients, id@)),
            !registry::vhas(self@.clients, id@) ==> r is None,
    {
        proof {
            registry::lemma_vmap_has(self.clients@, |c: Client| client_view(c), id@);
        }
        match registry::find_idx(&self.clients, id) {
            Some(i) => {
                proof {
                    registry::lemma_get_at(self.clients@, id@, i as int);
                    registry::lemma_vmap_get(self.clients@, |c: Client| client_view(c), id@);
                }
                let room = match &self.clients[i].1.room {
                    Some(g) => Some(g.clone()),
                    None => None,
                };
                Some(room)
            },
            None => None,
        }
    }

    /// The member list of a group, in join order; empty when the group
    /// was never joined.
    pub fn group_members(&self, g: &str) -> (r: Vec<String>)
        requires
            self.wf(),
        ensures
            strs_view(r) == members_of(self@.groups, g@),
    {
        proof {
            registry::lemma_vmap_has(self.groups@, |v: Vec<String>| strs_view(v), g@);
        }
        match registry::find_idx(&self.groups, g) {
            Some(i) => {
                proof {
                    registry::lemma_get_at(self.groups@, g@, i as int);
                    registry::lemma_vmap_get(self.groups@, |v: Vec<String>| strs_view(v), g@);
                }
                let r = clone_strings(&self.groups[i].1);
                proof {
                    assert(strs_view(r) =~= members_of(self@.groups, g@));
                }
                r
            },
            None => {
                let r: Vec<String> = Vec::new();
                proof {
                    assert(strs_view(r) =~= members_of(self@.groups, g@));
                }
                r
            },
        }
    }
}

/// The views of a batch of messages.
pub open spec fn msgs_view(msgs: Seq<Message>) -> Seq<MsgModel> {
    Seq::new(msgs.len(), |i: int| msgs[i]@)
}

/// The registry after a whole batch of messages, applied one at a time
/// in arrival order.
pub open spec fn run_steps(st: CoordModel, ms: Seq<MsgModel>) -> CoordModel
    decreases ms.len(),
{
    if ms.len() == 0 {
        st
    } else {
        spec_step(run_steps(st, ms.drop_last()), ms.last())
    }
}

/// Serialisation composes: however a stream of messages is split into
/// batches, applying the batches one after the other gives the same
/// registry as applying the whole stream in arrival order.
pub proof fn lemma_run_steps_append(st: CoordModel, a: Seq<MsgModel>, b: Seq<MsgModel>)
    ensures
        run_steps(st, a + b) == run_steps(run_steps(st, a), b),
    decreases b.len(),
{
    if b.len() == 0 {
        assert(a + b =~= a);
    } else {
        lemma_run_steps_append(st, a, b.drop_last());
        assert((a + b).drop_last() =~= a + b.drop_last());
        assert((a + b).last() == b.last());
    }
}

impl Coordinator {
    /// Applies a batch of messages in arrival order and collects the
    /// replies to deliver. The final registry is exactly the arrival-
    /// order serialisation of the messages' steps; with a single
    /// coordinator consuming one queue, this is the registry any set of
    /// concurrent sessions ends up with.
    pub fn handle_all(&mut self, msgs: &Vec<Message>) -> (replies: Vec<(String, Message)>)
        requires
            old(self).wf(),
        ensures
            final(self).wf(),
            final(self).store() == old(self).store(),
            final(self)@ == run_steps(old(self)@, msgs_view(msgs@)),
            consistent(old(self)@) ==> consistent(final(self)@),
    {
        let ghost start = self@;
        let ghost mv = msgs_view(msgs@);
        let n = msgs.len();
        let mut replies: Vec<(String, Message)> = Vec::new();
        let mut i: usize = 0;
        proof {
            assert(mv.take(0) =~= Seq::<MsgModel>::empty());
        }
        while i < n
            invariant
                0 <= i <= n,
                n == msgs@.len(),
                mv == msgs_view(msgs@),
                self.wf(),
                self.store() == old(self).store(),
                self@ == run_steps(start, mv.take(i as int)),
                consistent(start) ==> consistent(self@),
            decreases n - i,
        {
            match self.handle(&msgs[i]) {
                Some(p) => {
                    replies.push(p);
                },
                None => {},
            }
            proof {
                assert(mv.take(i + 1).drop_last() =~= mv.take(i as int));
                assert(mv.take(i + 1).last() == mv[i as int]);
            }
            i = i + 1;
        }
        proof {
            assert(mv.take(n as int) =~= mv);
        }
        replies
    }
}

/// After a client identifies and then closes, the registry no longer
/// contains it, whatever else it holds.
pub proof fn lemma_identify_then_close(st: CoordModel, a: Seq<char>, env_id: Seq<char>)
    requires
        registry::vuniq(st.clients),
    ensures
        ({
            let st1 = spec_step(st, MsgModel { id: env_id, body: BodyModel::Identify(a) });
            let st2 = spec_step(st1, MsgModel { id: a, body: BodyModel::Close });
            !registry::vhas(st2.clients, a)
        }),
{
    registry::vlemma_upsert(st.clients, a, None::<Seq<char>>);
    let st1 = spec_step(st, MsgModel { id: env_id, body: BodyModel::Identify(a) });
    registry::vlemma_remove(st1.clients, a);
}

/// A close for an id the registry does not hold leaves it exactly as it
/// was: a late or repeated close never harms the coordinator.
pub proof fn lemma_close_unknown(st: CoordModel, a: Seq<char>)
    requires
        !registry::vhas(st.clients, a),
    ensures
        spec_step(st, MsgModel { id: a, body: BodyModel::Close }) == st,
{
}

/// The message with which client `a` joins group `g`.
pub open spec fn join_msg(a: Seq<char>, g: Seq<char>) -> MsgModel {
    MsgModel { id: a, body: BodyModel::JoinGroup(g) }
}

/// The registry after client `a` has joined group `g` another `n` times.
pub open spec fn joins(st: CoordModel, a: Seq<char>, g: Seq<char>, n: nat) -> CoordModel
    decreases n,
{
    if n == 0 {
        st
    } else {
        spec_step(joins(st, a, g, (n - 1) as nat), join_msg(a, g))
    }
}

/// One join from a known client records the room and appends the client
/// to the group's member list once.
proof fn lemma_join_once(st: CoordModel, a: Seq<char>, g: Seq<char>)
    requires
        registry::vuniq(st.clients),
        registry::vuniq(st.groups),
        registry::vhas(st.clients, a),
    ensures
        ({
            let st2 = spec_step(st, join_msg(a, g));
            &&& registry::vuniq(st2.clients)
            &&& registry::vuniq(st2.groups)
            &&& registry::vhas(st2.clients, a)
            &&& registry::vget(st2.clients, a) == Some(g)
            &&& count_of(members_of(st2.groups, g), a) == count_of(members_of(st.groups, g), a)
                + 1
        }),
{
    registry::vlemma_upsert(st.clients, a, Some(g));
    let nm = members_of(st.groups, g).push(a);
    registry::vlemma_upsert(st.groups, g, nm);
    lemma_count_push(members_of(st.groups, g), a, a);
}

/// After a known client issues `join g` another `n` times with nothing
/// in between, its recorded room is `g` (the last group joined), and it
/// stands in `g`'s member list exactly `n` more times than before: every
/// repeated join adds one more entry.
pub proof fn lemma_join_sequence(st: CoordModel, a: Seq<char>, g: Seq<char>, n: nat)
    requires
        registry::vuniq(st.clients),
        registry::vuniq(st.groups),
        registry::vhas(st.clients, a),
        n >= 1,
    ensures
        ({
            let st2 = joins(st, a, g, n);
            &&& registry::vhas(st2.clients, a)
            &&& registry::vget(st2.clients, a) == Some(g)
            &&& count_of(members_of(st2.groups, g), a) == count_of(members_of(st.groups, g), a)
                + n
            &&& registry::vuniq(st2.clients)
            &&& registry::vuniq(st2.groups)
        }),
    decreases n,
{
    if n == 1 {
        lemma_join_once(st, a, g);
    } else {
        lemma_join_sequence(st, a, g, (n - 1) as nat);
        lemma_join_once(joins(st, a, g, (n - 1) as nat), a, g);
    }
}

/// A `map` request from a known client is always answered on that
/// client's own channel: with a line that starts with `map ` and carries
/// the stored map's JSON payload when the catalog holds the name with a
/// loaded map, and with exactly the error line otherwise.
pub proof fn lemma_map_response(
    store: Seq<(String, MapInfo)>,
    st: CoordModel,
    id: Seq<char>,
    name: Seq<char>,
)
    requires
        registry::vhas(st.clients, id),
    ensures
        ({
            let r = spec_reply(store, st, MsgModel { id, body: BodyModel::GetMap(name) });
            &&& r is Some
            &&& r->Some_0.0 == id
            &&& (registry::has_key(store, name) && registry::get_val(store, name)@.loaded is Some
                ==> spec_reply_line(r->Some_0.1) == Some(
                "map "@ + json_of(registry::get_val(store, name)@.loaded->Some_0) + "\n"@,
            ) && text::is_prefix(spec_reply_line(r->Some_0.1)->Some_0, "map "@))
            &&& (!(registry::has_key(store, name) && registry::get_val(store, name)@.loaded
                is Some) ==> spec_reply_line(r->Some_0.1) == Some("error could not load map\n"@))
        }),
{
    reveal_strlit("map ");
    reveal_strlit("\n");
    let r = spec_reply(store, st, MsgModel { id, body: BodyModel::GetMap(name) });
    if registry::has_key(store, name) && registry::get_val(store, name)@.loaded is Some {
        let line = spec_reply_line(r->Some_0.1)->Some_0;
        assert(line.subrange(0, 4) =~= "map "@);
    }
}

/// The handshake rule on parsed versions: a client version `0.1.0` is
/// accepted, a client version `0.2.0` is rejected.
pub proof fn lemma_handshake_rule(rest: Seq<char>)
    ensures
        crate::version::semver_parse(rest) == Some((0u64, 1u64, 0u64, false)) ==> (
        spec_handshake(rest) matches Handshake::Accepted(v) && v == (Version {
            major: 0,
            minor: 1,
            patch: 0,
            pre: false,
        })),
        crate::version::semver_parse(rest) == Some((0u64, 2u64, 0u64, false)) ==> (
        spec_handshake(rest) matches Handshake::Rejected(v) && v == (Version {
            major: 0,
            minor: 2,
            patch: 0,
            pre: false,
        })),
{
}

} // verus!
