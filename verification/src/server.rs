//! RTSP request dispatch: the password gate, the methods, and the headers that
//! every response carries.

use vstd::prelude::*;

use crate::config::Config;
use crate::crypto;
use crate::crypto::{apple_response, ct_eq_hex, digest_response, make_nonce};
use crate::events;
use crate::events::{Event, EventContent};
use crate::net::IpAddr;
use crate::rtsp;
use crate::rtsp::{Request, RequestContent, Response, ResponseContent};
use crate::session;
use crate::session::{
    BoundPorts, Effect, Outcome, Session, SessionSlot, SessionState, SetupPlan,
};
use crate::text;
use crate::text::{after_text, chars_of, eq_ignoring_case, find, same, string_of, strip_prefix};
use crate::utf8;

verus! {

/// What every response says of its server.
pub const SERVER_ID: &'static str = "AirTunes/105.1";

/// The methods that an OPTIONS response lists.
pub const PUBLIC_METHODS: &'static str =
    "ANNOUNCE, SETUP, RECORD, PAUSE, FLUSH, TEARDOWN, OPTIONS, GET_PARAMETER, SET_PARAMETER";

/// What requests are answered with: the configuration, and the PEM text of the
/// AirPort key.
pub struct Context {
    pub config: Config,
    pub key_pem: String,
}

/// The value of `name="..."` in a header: what stands between the quotation
/// marks after the first `name=`.
pub open spec fn quoted_field(value: Seq<char>, name: Seq<char>) -> Option<Seq<char>> {
    match text::text_after(value, name + "=\""@) {
        None => None,
        Some(rest) => if text::position(rest, '"') < rest.len() {
            Some(rest.take(text::position(rest, '"')))
        } else {
            None
        },
    }
}

fn read_quoted(value: &[char], name: &str) -> (field: Option<String>)
    ensures
        field is Some <==> quoted_field(value@, name@) is Some,
        field is Some ==> field->0@ == quoted_field(value@, name@)->0,
{
    let mut key = name.to_owned();
    key.append("=\"");
    let needle = chars_of(key.as_str());
    let rest = match after_text(value, needle.as_slice()) {
        Some(rest) => rest,
        None => {
            return None;
        },
    };
    let end: usize = find(rest, '"');
    if end == rest.len() {
        return None;
    }
    let inside = vstd::slice::slice_subrange(rest, 0, end);
    assert(inside@ =~= rest@.take(end as int));
    Some(string_of(inside))
}

/// Whether an `Authorization` value answers a challenge: it is a Digest with a
/// realm, a user name, a URI and a response, and the response is the digest of
/// the password for this request and nonce.
pub open spec fn credential_ok(
    value: Seq<char>,
    password: Seq<char>,
    method: Seq<char>,
    uri: Seq<char>,
    nonce: Seq<char>,
) -> bool {
    &&& value.len() >= 7 && text::same_ignoring_case(value.take(7), "Digest "@)
    &&& quoted_field(value, "realm"@) is Some
    &&& quoted_field(value, "uri"@) is Some
    &&& quoted_field(value, "username"@) is Some
    &&& quoted_field(value, "response"@) == Some(
        crypto::digest_of(
            quoted_field(value, "username"@)->0,
            "raop"@,
            password,
            method,
            uri,
            nonce,
        ),
    )
}

/// Check an `Authorization` value against the password.
pub fn check_credential(value: &str, password: &str, method: &str, uri: &str, nonce: &str) -> (ok:
    bool)
    ensures
        ok == credential_ok(value@, password@, method@, uri@, nonce@),
{
    let chars = chars_of(value);
    if chars.len() < 7 {
        return false;
    }
    let scheme = vstd::slice::slice_subrange(chars.as_slice(), 0, 7);
    assert(scheme@ =~= value@.take(7));
    if !eq_ignoring_case(scheme, chars_of("Digest ").as_slice()) {
        return false;
    }
    if read_quoted(chars.as_slice(), "realm").is_none() || read_quoted(
        chars.as_slice(),
        "uri",
    ).is_none() {
        return false;
    }
    match (read_quoted(chars.as_slice(), "username"), read_quoted(chars.as_slice(), "response")) {
        (Some(username), Some(response)) => {
            let expected = digest_response(username.as_str(), "raop", password, method, uri, nonce);
            ct_eq_hex(expected.as_str(), response.as_str())
        },
        _ => false,
    }
}

/// The `WWW-Authenticate` value of a challenge.
pub open spec fn challenge_text(nonce: Seq<char>) -> Seq<char> {
    "Digest realm=\"raop\", nonce=\""@ + nonce + "\""@
}

/// The refusal of a request that has not authenticated.
pub open spec fn unauthorized(nonce: Seq<char>) -> ResponseContent {
    ResponseContent::status_only(401, "Unauthorized"@).with(
        "WWW-Authenticate"@,
        challenge_text(nonce),
    )
}

/// A response with the headers that every one carries: the request's CSeq, the
/// server, the audio jack, and the answer to an `Apple-Challenge`, which any
/// request may carry; one that cannot be answered is not.
pub open spec fn dressed(
    response: ResponseContent,
    request: RequestContent,
    ip: IpAddr,
    mac: Seq<u8>,
    key_pem: Seq<char>,
) -> ResponseContent {
    let echoed = match rtsp::header_value(request.headers, "CSeq"@) {
        Some(cseq) => response.with("CSeq"@, cseq),
        None => response,
    };
    let common = echoed.with("Server"@, SERVER_ID@).with(
        "Audio-Jack-Status"@,
        "connected; type=analog"@,
    );
    match rtsp::header_value(request.headers, "Apple-Challenge"@) {
        None => common,
        Some(challenge) => match crypto::challenge_answer(challenge, ip, mac, key_pem) {
            Ok(answer) => common.with("Apple-Response"@, answer),
            Err(_) => common,
        },
    }
}

/// Add the headers that every response carries.
pub fn dress(response: Response, request: &Request, local_ip: IpAddr, context: &Context) -> (out:
    Response)
    ensures
        out@ == dressed(
            response@,
            request@,
            local_ip,
            context.config.mac@,
            context.key_pem@,
        ),
{
    let echoed = match request.headers.get("CSeq") {
        Some(cseq) => response.header("CSeq", cseq),
        None => response,
    };
    let common = echoed.header("Server", SERVER_ID).header(
        "Audio-Jack-Status",
        "connected; type=analog",
    );
    match request.headers.get("Apple-Challenge") {
        None => common,
        Some(challenge) => {
            match apple_response(
                challenge,
                local_ip,
                &context.config.mac,
                context.key_pem.as_str(),
            ) {
                Ok(answer) => common.header("Apple-Response", answer.as_str()),
                Err(_) => common,
            }
        },
    }
}

/// What to do about a request.
pub enum Reply {
    /// Send the response, tell the host, and do this to the stream.
    Done(Outcome),
    /// Bind the three UDP sockets and finish the SETUP.
    Bind(SetupPlan),
}

/// Whether a reply is to send this response, tell the host this, and do this to
/// the stream.
pub open spec fn answers(
    reply: Reply,
    response: ResponseContent,
    told: Seq<EventContent>,
    effect: Effect,
) -> bool {
    reply matches Reply::Done(outcome) && outcome.response@ == response && events::told(
        outcome.events@,
    ) == told && outcome.effect == effect
}

/// What a connection knows, as a mathematical value.
pub struct ConnectionState {
    pub session: SessionState,
    /// Whether the client has shown that it knows the password.
    pub authorized: bool,
    /// The nonce of its challenges.
    pub nonce: Seq<char>,
}

impl ConnectionState {
    /// A connection that has just begun.
    pub open spec fn fresh(peer: Seq<char>, nonce: Seq<char>) -> ConnectionState {
        ConnectionState {
            session: SessionState {
                params: None,
                streaming: false,
                pending_metadata: None,
                pending_artwork: None,
                peer,
                holds_slot: false,
                track: None,
                owed: 0,
            },
            authorized: false,
            nonce,
        }
    }

    /// Whether a request may pass: no password is set, the connection is
    /// authorized, or the request answers the challenge.
    pub open spec fn admits(self, password: Option<Seq<char>>, request: RequestContent) -> bool {
        match password {
            None => true,
            Some(password) => self.authorized || {
                &&& rtsp::header_value(request.headers, "Authorization"@) is Some
                &&& credential_ok(
                    rtsp::header_value(request.headers, "Authorization"@)->0,
                    password,
                    request.method,
                    request.uri,
                    self.nonce,
                )
            },
        }
    }
}

/// One RTSP connection.
pub struct Connection {
    session: Session,
    authorized: bool,
    nonce: String,
}

impl View for Connection {
    type V = ConnectionState;

    closed spec fn view(&self) -> ConnectionState {
        ConnectionState {
            session: self.session@,
            authorized: self.authorized,
            nonce: self.nonce@,
        }
    }
}

/// Whether a method is one that a session answers besides ANNOUNCE, SETUP and
/// RECORD.
pub open spec fn is_session_method(method: Seq<char>) -> bool {
    method == "TEARDOWN"@ || method == "FLUSH"@ || method == "SET_PARAMETER"@ || method
        == "GET_PARAMETER"@
}

/// Whether a method is one that is answered at all.
pub open spec fn is_known_method(method: Seq<char>) -> bool {
    method == "OPTIONS"@ || method == "ANNOUNCE"@ || method == "SETUP"@ || method == "RECORD"@
        || is_session_method(method)
}

/// The method names differ from one another.
proof fn lemma_methods_differ()
    ensures
        "OPTIONS"@ != "ANNOUNCE"@,
        "OPTIONS"@ != "SETUP"@,
        "OPTIONS"@ != "RECORD"@,
        "ANNOUNCE"@ != "SETUP"@,
        "ANNOUNCE"@ != "RECORD"@,
        "SETUP"@ != "RECORD"@,
        !is_session_method("OPTIONS"@),
        !is_session_method("ANNOUNCE"@),
        !is_session_method("SETUP"@),
        !is_session_method("RECORD"@),
        "TEARDOWN"@ != "FLUSH"@,
        "TEARDOWN"@ != "SET_PARAMETER"@,
        "TEARDOWN"@ != "GET_PARAMETER"@,
        "FLUSH"@ != "SET_PARAMETER"@,
        "FLUSH"@ != "GET_PARAMETER"@,
        "SET_PARAMETER"@ != "GET_PARAMETER"@,
{
    reveal_strlit("OPTIONS");
    reveal_strlit("ANNOUNCE");
    reveal_strlit("SETUP");
    reveal_strlit("RECORD");
    reveal_strlit("TEARDOWN");
    reveal_strlit("FLUSH");
    reveal_strlit("SET_PARAMETER");
    reveal_strlit("GET_PARAMETER");
    assert("OPTIONS"@.len() == 7);
    assert("ANNOUNCE"@.len() == 8);
    assert("SETUP"@.len() == 5);
    assert("RECORD"@.len() == 6);
    assert("TEARDOWN"@.len() == 8);
    assert("FLUSH"@.len() == 5);
    assert("SET_PARAMETER"@.len() == 13);
    assert("GET_PARAMETER"@.len() == 13);
    assert("ANNOUNCE"@[0] != "TEARDOWN"@[0]);
    assert("SETUP"@[0] != "FLUSH"@[0]);
    assert("SET_PARAMETER"@[0] != "GET_PARAMETER"@[0]);
}

impl Connection {
    /// The representation is sound.
    pub closed spec fn wf(&self) -> bool {
        self.session.wf()
    }

    /// What a sound representation stands for is sound.
    pub proof fn lemma_wf(&self)
        requires
            self.wf(),
        ensures
            self@.session.wf(),
    {
        self.session.lemma_wf();
    }

    /// A connection with the client at `peer`, which is challenged with this
    /// nonce where a password is set.
    pub fn new(peer: String, nonce: String) -> (connection: Connection)
        ensures
            connection.wf(),
            connection@ == ConnectionState::fresh(peer@, nonce@),
    {
        Connection { session: Session::new(peer), authorized: false, nonce }
    }

    /// A connection with the client at `peer` and this nonce; none where there
    /// is no nonce to challenge it with.
    pub fn with_nonce(peer: String, nonce: Option<String>) -> (connection: Option<Connection>)
        ensures
            connection is Some <==> nonce is Some,
            connection matches Some(c) ==> {
                &&& c.wf()
                &&& c@ == ConnectionState::fresh(peer@, nonce->0@)
            },
    {
        match nonce {
            Some(nonce) => Some(Connection::new(peer, nonce)),
            None => None,
        }
    }

    /// A connection with the client at `peer`, with a fresh nonce; `None` if the
    /// system has no randomness to give.
    pub fn open(peer: String) -> (connection: Option<Connection>)
        ensures
            connection matches Some(c) ==> {
                &&& c.wf()
                &&& c@ == ConnectionState::fresh(peer@, c@.nonce)
                &&& exists|random: [u8; 8]| c@.nonce == #[trigger] crypto::base64_padded(random@)
                &&& forall|i: int| 0 <= i < c@.nonce.len() ==> #[trigger] c@.nonce[i] != '"'
            },
    {
        Connection::with_nonce(peer, make_nonce())
    }

    /// The session of this connection.
    pub fn session(&self) -> (session: &Session)
        ensures
            session@ == self@.session,
    {
        &self.session
    }

    /// Whether a request may pass; one that answers the challenge authorizes
    /// the connection.
    fn authorize(&mut self, request: &Request, config: &Config) -> (ok: bool)
        requires
            old(self).wf(),
        ensures
            final(self).wf(),
            ok == old(self)@.admits(text::optional_text(config.password), request@),
            final(self)@ == (ConnectionState { authorized: ok, ..old(self)@ }),
    {
        if let Some(password) = &config.password {
            if !self.authorized {
                let ok = match request.headers.get("Authorization") {
                    Some(value) => check_credential(
                        value,
                        password.as_str(),
                        request.method.as_str(),
                        request.uri.as_str(),
                        self.nonce.as_str(),
                    ),
                    None => false,
                };
                self.authorized = ok;
                return ok;
            }
        }
        self.authorized = true;
        true
    }

    /// Answer a request.
    pub fn dispatch(
        &mut self,
        request: &Request,
        slot: &mut SessionSlot,
        local_ip: IpAddr,
        context: &Context,
    ) -> (reply: Reply)
        requires
            old(self).wf(),
        ensures
            final(self).wf(),
            final(self)@.nonce == old(self)@.nonce,
            final(self)@.authorized == old(self)@.admits(
                text::optional_text(context.config.password),
                request@,
            ),
            !final(self)@.authorized ==> {
                &&& answers(
                    reply,
                    dressed(
                        unauthorized(old(self)@.nonce),
                        request@,
                        local_ip,
                        context.config.mac@,
                        context.key_pem@,
                    ),
                    Seq::empty(),
                    Effect::Nothing,
                )
                &&& final(self)@.session == old(self)@.session
                &&& final(slot)@ == old(slot)@
            },
            final(self)@.authorized ==> answered(
                old(self)@.session,
                final(self)@.session,
                old(slot)@,
                final(slot)@,
                request@,
                local_ip,
                context.config.mac@,
                context.key_pem@,
                reply,
            ),
    {
        proof {
            lemma_methods_differ();
        }
        if !self.authorize(request, &context.config) {
            let mut value = "Digest realm=\"raop\", nonce=\"".to_owned();
            value.append(self.nonce.as_str());
            value.append("\"");
            let refusal = Response::new(401, "Unauthorized").header(
                "WWW-Authenticate",
                value.as_str(),
            );
            return done(dress(refusal, request, local_ip, context));
        }
        let method = request.method.as_str();
        if same(method, "OPTIONS") {
            let response = Response::ok().header("Public", PUBLIC_METHODS);
            done(dress(response, request, local_ip, context))
        } else if same(method, "ANNOUNCE") {
            let response = self.session.handle_announce(request, context.key_pem.as_str());
            done(dress(response, request, local_ip, context))
        } else if same(method, "SETUP") {
            match self.session.begin_setup(request, slot) {
                Ok(plan) => Reply::Bind(plan),
                Err(response) => done(dress(response, request, local_ip, context)),
            }
        } else if same(method, "RECORD") {
            let response = self.session.handle_record(request);
            done(dress(response, request, local_ip, context))
        } else {
            match self.session.handle_other(request, slot) {
                Some(outcome) => Reply::Done(
                    Outcome {
                        response: dress(outcome.response, request, local_ip, context),
                        events: outcome.events,
                        effect: outcome.effect,
                    },
                ),
                None => done(
                    dress(Response::new(501, "Not Implemented"), request, local_ip, context),
                ),
            }
        }
    }

    /// Finish a SETUP, once the UDP sockets are bound (or could not be).
    pub fn finish_setup(
        &mut self,
        request: &Request,
        plan: &SetupPlan,
        bound: Option<BoundPorts>,
        local_ip: IpAddr,
        context: &Context,
    ) -> (outcome: (Response, Vec<Event>))
        requires
            old(self).wf(),
            old(self)@.session.holds_slot,
        ensures
            final(self).wf(),
            final(self)@.nonce == old(self)@.nonce,
            final(self)@.authorized == old(self)@.authorized,
            outcome.0@ == dressed(
                session::setup_response(bound),
                request@,
                local_ip,
                context.config.mac@,
                context.key_pem@,
            ),
            events::told(outcome.1@) == (match bound {
                None => Seq::empty(),
                Some(_) => old(self)@.session.start_events(plan.params),
            }),
            final(self)@.session == (match bound {
                None => old(self)@.session,
                Some(_) => old(self)@.session.started(),
            }),
    {
        let (response, events) = self.session.finish_setup(plan, bound);
        (dress(response, request, local_ip, context), events)
    }

    /// Take a report of the stream's player: what to tell the host of it.
    pub fn relay(&mut self, report: Event) -> (out: Vec<Event>)
        requires
            old(self).wf(),
        ensures
            final(self).wf(),
            events::told(out@) == old(self)@.session.relayed(report@),
            final(self)@ == (ConnectionState {
                session: old(self)@.session.after_relay(report@),
                ..old(self)@
            }),
    {
        self.session.relay(report)
    }

    /// The connection closed: what to tell the host once the stream is gone.
    pub fn close(&mut self, slot: &mut SessionSlot) -> (out: Vec<Event>)
        requires
            old(self).wf(),
        ensures
            final(self).wf(),
            events::told(out@) == old(self)@.session.end_events(),
            final(self)@ == (ConnectionState {
                session: old(self)@.session.ended(),
                ..old(self)@
            }),
            final(slot)@ == (old(slot)@ && !old(self)@.session.holds_slot),
    {
        self.session.close(slot)
    }
}

fn done(response: Response) -> (reply: Reply)
    ensures
        answers(reply, response@, Seq::empty(), Effect::Nothing),
{
    let events: Vec<Event> = Vec::new();
    assert(events::told(events@) =~= Seq::<EventContent>::empty());
    Reply::Done(Outcome { response, events, effect: Effect::Nothing })
}

/// How a request that may pass is answered, by its method: what it makes of the
/// session and of the slot, and the reply.
pub open spec fn answered(
    before: SessionState,
    after: SessionState,
    slot_before: bool,
    slot_after: bool,
    request: RequestContent,
    ip: IpAddr,
    mac: Seq<u8>,
    key_pem: Seq<char>,
    reply: Reply,
) -> bool {
    let ok = ResponseContent::status_only(200, "OK"@);
    let lines = text::lines_of(utf8::utf8_lossy(request.body));
    let content_type = rtsp::header_value(request.headers, "Content-Type"@);
    &&& request.method == "OPTIONS"@ ==> {
        &&& answers(
            reply,
            dressed(ok.with("Public"@, PUBLIC_METHODS@), request, ip, mac, key_pem),
            Seq::empty(),
            Effect::Nothing,
        )
        &&& after == before && slot_after == slot_before
    }
    &&& request.method == "ANNOUNCE"@ ==> {
        &&& answers(
            reply,
            dressed(session::announce_status(lines, key_pem), request, ip, mac, key_pem),
            Seq::empty(),
            Effect::Nothing,
        )
        &&& slot_after == slot_before
        &&& if session::announce_status(lines, key_pem).status == 200 {
            &&& after.params is Some
            &&& session::is_announced(after.params->0, lines, key_pem)
            &&& after == SessionState { params: after.params, ..before }
        } else {
            after == before
        }
    }
    &&& request.method == "SETUP"@ ==> setup_answered(
        before,
        after,
        slot_before,
        slot_after,
        request,
        ip,
        mac,
        key_pem,
        reply,
    )
    &&& request.method == "RECORD"@ ==> {
        &&& answers(
            reply,
            dressed(ok.with("Audio-Latency"@, "11025"@), request, ip, mac, key_pem),
            Seq::empty(),
            Effect::Nothing,
        )
        &&& after == before && slot_after == slot_before
    }
    &&& request.method == "TEARDOWN"@ ==> {
        &&& answers(
            reply,
            dressed(ok, request, ip, mac, key_pem),
            before.end_events(),
            Effect::Stop,
        )
        &&& after == before.ended()
        &&& slot_after == (slot_before && !before.holds_slot)
    }
    &&& request.method == "FLUSH"@ ==> {
        &&& answers(
            reply,
            dressed(ok, request, ip, mac, key_pem),
            before.flush_events(),
            session::flush_effect(before.streaming, request),
        )
        &&& after == before.after_flush() && slot_after == slot_before
    }
    &&& request.method == "SET_PARAMETER"@ ==> {
        &&& answers(
            reply,
            dressed(ok, request, ip, mac, key_pem),
            before.parameter_events(content_type, request.body),
            Effect::Nothing,
        )
        &&& after == before.after_parameter(content_type, request.body)
        &&& slot_after == slot_before
    }
    &&& request.method == "GET_PARAMETER"@ ==> {
        &&& answers(reply, dressed(ok, request, ip, mac, key_pem), Seq::empty(), Effect::Nothing)
        &&& after == before && slot_after == slot_before
    }
    &&& !is_known_method(request.method) ==> {
        &&& answers(
            reply,
            dressed(
                ResponseContent::status_only(501, "Not Implemented"@),
                request,
                ip,
                mac,
                key_pem,
            ),
            Seq::empty(),
            Effect::Nothing,
        )
        &&& after == before && slot_after == slot_before
    }
}

/// How the first half of a SETUP is answered.
pub open spec fn setup_answered(
    before: SessionState,
    after: SessionState,
    slot_before: bool,
    slot_after: bool,
    request: RequestContent,
    ip: IpAddr,
    mac: Seq<u8>,
    key_pem: Seq<char>,
    reply: Reply,
) -> bool {
    if before.params is None {
        &&& answers(
            reply,
            dressed(session::wrong_state(), request, ip, mac, key_pem),
            Seq::empty(),
            Effect::Nothing,
        )
        &&& after == before && slot_after == slot_before
    } else if !before.holds_slot && slot_before {
        &&& answers(
            reply,
            dressed(session::refused(), request, ip, mac, key_pem),
            Seq::empty(),
            Effect::Nothing,
        )
        &&& after == before && slot_after == slot_before
    } else {
        &&& after == SessionState { holds_slot: true, ..before }
        &&& slot_after == (slot_before || !before.holds_slot)
        &&& match session::setup_ports(request) {
            None => answers(
                reply,
                dressed(session::bad_request(), request, ip, mac, key_pem),
                Seq::empty(),
                Effect::Nothing,
            ),
            Some(ports) => {
                &&& reply matches Reply::Bind(plan)
                &&& plan.params == before.params->0
                &&& plan.control_port == ports.0
                &&& plan.timing_port == ports.1
            },
        }
    }
}

/// Whatever a request is, what its reply tells the host is in order: track
/// metadata, artwork and positions come only inside a session, and a session
/// ends only once. The runs of several replies join as
/// [`events::law_traces_compose`] says.
pub proof fn law_replies_keep_to_the_session(
    before: SessionState,
    after: SessionState,
    slot_before: bool,
    slot_after: bool,
    request: RequestContent,
    ip: IpAddr,
    mac: Seq<u8>,
    key_pem: Seq<char>,
    reply: Reply,
)
    requires
        before.wf(),
        answered(before, after, slot_before, slot_after, request, ip, mac, key_pem, reply),
    ensures
        after.wf(),
        reply matches Reply::Done(outcome) ==> events::trace(
            before.streaming,
            events::told(outcome.events@),
        ) == Some(after.streaming),
        reply is Bind ==> after.holds_slot && after.streaming == before.streaming,
{
    let content_type = rtsp::header_value(request.headers, "Content-Type"@);
    session::law_a_session_ends_once(before);
    session::law_parameters_keep_to_the_session(before, content_type, request.body);
    let flushed = seq![EventContent::Flushed];
    assert(flushed.drop_last() =~= Seq::<EventContent>::empty());
    reveal_with_fuel(events::trace, 2);
    assert(events::trace(before.streaming, flushed) == Some(before.streaming));
    assert(events::trace(before.streaming, Seq::<EventContent>::empty()) == Some(
        before.streaming,
    ));
    if is_known_method(request.method) {
        lemma_methods_differ();
    }
}

/// Whatever a request is, at most one of the sessions that share the slot holds
/// it afterwards, and it is held just where one of them does.
pub proof fn law_replies_keep_the_slot_exclusive(
    holders: Seq<bool>,
    i: int,
    before: SessionState,
    after: SessionState,
    slot_before: bool,
    slot_after: bool,
    request: RequestContent,
    ip: IpAddr,
    mac: Seq<u8>,
    key_pem: Seq<char>,
    reply: Reply,
)
    requires
        0 <= i < holders.len(),
        holders[i] == before.holds_slot,
        session::exclusive(slot_before, holders),
        answered(before, after, slot_before, slot_after, request, ip, mac, key_pem, reply),
    ensures
        session::exclusive(slot_after, holders.update(i, after.holds_slot)),
{
    session::law_a_second_client_is_refused(slot_before, holders, i);
    session::law_an_ended_session_frees_the_slot(slot_before, holders, i);
    assert(holders.update(i, holders[i]) =~= holders);
    if is_known_method(request.method) {
        lemma_methods_differ();
    }
}

/// What one more header changes for a name that is looked up.
proof fn lemma_pushed_header(
    headers: Seq<(Seq<char>, Seq<char>)>,
    name: Seq<char>,
    value: Seq<char>,
    wanted: Seq<char>,
)
    requires
        name.len() != wanted.len(),
    ensures
        rtsp::header_value(headers.push((name, value)), wanted) == rtsp::header_value(
            headers,
            wanted,
        ),
    decreases headers.len(),
{
    let all = headers.push((name, value));
    if headers.len() == 0 {
        assert(all.skip(1) =~= Seq::<(Seq<char>, Seq<char>)>::empty());
        assert(!text::same_ignoring_case(all[0].0, wanted));
        assert(rtsp::header_value(all.skip(1), wanted) is None);
    } else {
        assert(all[0] == headers[0]);
        assert(all.skip(1) =~= headers.skip(1).push((name, value)));
        lemma_pushed_header(headers.skip(1), name, value, wanted);
    }
}

/// The headers that every response carries are no challenge.
proof fn lemma_dressing_is_no_challenge(
    response: ResponseContent,
    request: RequestContent,
    ip: IpAddr,
    mac: Seq<u8>,
    key_pem: Seq<char>,
)
    ensures
        rtsp::header_value(
            dressed(response, request, ip, mac, key_pem).headers,
            "WWW-Authenticate"@,
        ) == rtsp::header_value(response.headers, "WWW-Authenticate"@),
{
    let wanted = "WWW-Authenticate"@;
    reveal_strlit("WWW-Authenticate");
    reveal_strlit("CSeq");
    reveal_strlit("Server");
    reveal_strlit("Audio-Jack-Status");
    reveal_strlit("Apple-Response");
    assert(wanted.len() == 16 && "CSeq"@.len() == 4 && "Server"@.len() == 6
        && "Audio-Jack-Status"@.len() == 17 && "Apple-Response"@.len() == 14);
    let echoed = match rtsp::header_value(request.headers, "CSeq"@) {
        Some(cseq) => {
            lemma_pushed_header(response.headers, "CSeq"@, cseq, wanted);
            response.with("CSeq"@, cseq)
        },
        None => response,
    };
    let served = echoed.with("Server"@, SERVER_ID@);
    let common = served.with("Audio-Jack-Status"@, "connected; type=analog"@);
    lemma_pushed_header(echoed.headers, "Server"@, SERVER_ID@, wanted);
    lemma_pushed_header(
        served.headers,
        "Audio-Jack-Status"@,
        "connected; type=analog"@,
        wanted,
    );
    if let Some(challenge) = rtsp::header_value(request.headers, "Apple-Challenge"@) {
        if let Ok(answer) = crypto::challenge_answer(challenge, ip, mac, key_pem) {
            lemma_pushed_header(common.headers, "Apple-Response"@, answer, wanted);
        }
    }
}

proof fn lemma_setup_is_no_challenge(bound: Option<BoundPorts>)
    ensures
        rtsp::header_value(
            session::setup_response(bound).headers,
            "WWW-Authenticate"@,
        ) is None,
{
    if let Some(ports) = bound {
        let wanted = "WWW-Authenticate"@;
        let none = Seq::<(Seq<char>, Seq<char>)>::empty();
        reveal_strlit("WWW-Authenticate");
        reveal_strlit("Transport");
        reveal_strlit("Session");
        assert(wanted.len() == 16 && "Transport"@.len() == 9 && "Session"@.len() == 7);
        let transport = session::transport_text(ports);
        lemma_pushed_header(none, "Transport"@, transport, wanted);
        lemma_pushed_header(none.push(("Transport"@, transport)), "Session"@, "1"@, wanted);
    }
}

/// Without a password every request passes, and no response to a request that
/// passes carries a challenge, the one that ends a SETUP included.
pub proof fn law_no_password_means_no_challenge(
    c: ConnectionState,
    after: SessionState,
    slot_before: bool,
    slot_after: bool,
    request: RequestContent,
    ip: IpAddr,
    mac: Seq<u8>,
    key_pem: Seq<char>,
    reply: Reply,
    bound: Option<BoundPorts>,
)
    requires
        answered(
            c.session,
            after,
            slot_before,
            slot_after,
            request,
            ip,
            mac,
            key_pem,
            reply,
        ),
    ensures
        c.admits(None, request),
        reply matches Reply::Done(outcome) ==> rtsp::header_value(
            outcome.response@.headers,
            "WWW-Authenticate"@,
        ) is None,
        rtsp::header_value(
            dressed(session::setup_response(bound), request, ip, mac, key_pem).headers,
            "WWW-Authenticate"@,
        ) is None,
{
    lemma_setup_is_no_challenge(bound);
    lemma_dressing_is_no_challenge(session::setup_response(bound), request, ip, mac, key_pem);
    if let Reply::Done(outcome) = reply {
        let wanted = "WWW-Authenticate"@;
        let none = Seq::<(Seq<char>, Seq<char>)>::empty();
        let ok = ResponseContent::status_only(200, "OK"@);
        reveal_strlit("WWW-Authenticate");
        reveal_strlit("Public");
        reveal_strlit("Audio-Latency");
        assert(wanted.len() == 16 && "Public"@.len() == 6 && "Audio-Latency"@.len() == 13);
        lemma_pushed_header(none, "Public"@, PUBLIC_METHODS@, wanted);
        lemma_pushed_header(none, "Audio-Latency"@, "11025"@, wanted);
        let lines = text::lines_of(utf8::utf8_lossy(request.body));
        lemma_dressing_is_no_challenge(
            ok.with("Public"@, PUBLIC_METHODS@),
            request,
            ip,
            mac,
            key_pem,
        );
        lemma_dressing_is_no_challenge(
            session::announce_status(lines, key_pem),
            request,
            ip,
            mac,
            key_pem,
        );
        lemma_dressing_is_no_challenge(
            ok.with("Audio-Latency"@, "11025"@),
            request,
            ip,
            mac,
            key_pem,
        );
        lemma_dressing_is_no_challenge(ok, request, ip, mac, key_pem);
        lemma_dressing_is_no_challenge(session::wrong_state(), request, ip, mac, key_pem);
        lemma_dressing_is_no_challenge(session::refused(), request, ip, mac, key_pem);
        lemma_dressing_is_no_challenge(session::bad_request(), request, ip, mac, key_pem);
        lemma_dressing_is_no_challenge(
            ResponseContent::status_only(501, "Not Implemented"@),
            request,
            ip,
            mac,
            key_pem,
        );
    }
}

/// A refusal says 401 and carries the challenge, beside the headers that every
/// response carries.
pub proof fn law_a_refusal_carries_the_challenge(
    nonce: Seq<char>,
    request: RequestContent,
    ip: IpAddr,
    mac: Seq<u8>,
    key_pem: Seq<char>,
)
    ensures
        dressed(unauthorized(nonce), request, ip, mac, key_pem).status == 401,
        rtsp::header_value(
            dressed(unauthorized(nonce), request, ip, mac, key_pem).headers,
            "WWW-Authenticate"@,
        ) == Some(challenge_text(nonce)),
{
    lemma_dressing_is_no_challenge(unauthorized(nonce), request, ip, mac, key_pem);
    lemma_first_header(
        Seq::empty(),
        unauthorized(nonce).headers,
        "WWW-Authenticate"@,
    );
}

/// Once authorized, a connection stays authorized: no later request on it is
/// challenged again.
pub proof fn law_an_authorized_connection_is_not_challenged_again(
    c: ConnectionState,
    password: Option<Seq<char>>,
    request: RequestContent,
)
    requires
        c.authorized,
    ensures
        c.admits(password, request),
{
}

/// A request that answers the challenge passes: its digest is the password's,
/// for this method, URI and nonce.
pub proof fn law_the_right_password_is_admitted(
    c: ConnectionState,
    password: Seq<char>,
    request: RequestContent,
    value: Seq<char>,
    username: Seq<char>,
)
    requires
        rtsp::header_value(request.headers, "Authorization"@) == Some(value),
        value.len() >= 7,
        text::same_ignoring_case(value.take(7), "Digest "@),
        quoted_field(value, "realm"@) is Some,
        quoted_field(value, "uri"@) is Some,
        quoted_field(value, "username"@) == Some(username),
        quoted_field(value, "response"@) == Some(
            crypto::digest_of(username, "raop"@, password, request.method, request.uri, c.nonce),
        ),
    ensures
        c.admits(Some(password), request),
{
}

/// A request without credentials does not pass a connection that is locked, and
/// neither does one with the wrong response.
pub proof fn law_a_wrong_password_stays_locked(
    c: ConnectionState,
    password: Seq<char>,
    request: RequestContent,
)
    requires
        !c.authorized,
        rtsp::header_value(request.headers, "Authorization"@) matches Some(value) ==> quoted_field(
            value,
            "username"@,
        ) is None || quoted_field(value, "response"@) != Some(
            crypto::digest_of(
                quoted_field(value, "username"@)->0,
                "raop"@,
                password,
                request.method,
                request.uri,
                c.nonce,
            ),
        ),
    ensures
        !c.admits(Some(password), request),
{
}

/// Every response echoes the request's CSeq, 401s and 501s too, unless the
/// response had one of its own.
pub proof fn law_every_response_echoes_the_cseq(
    response: ResponseContent,
    request: RequestContent,
    ip: IpAddr,
    mac: Seq<u8>,
    key_pem: Seq<char>,
    cseq: Seq<char>,
)
    requires
        rtsp::header_value(request.headers, "CSeq"@) == Some(cseq),
        rtsp::header_value(response.headers, "CSeq"@) is None,
    ensures
        rtsp::header_value(
            dressed(response, request, ip, mac, key_pem).headers,
            "CSeq"@,
        ) == Some(cseq),
        dressed(response, request, ip, mac, key_pem).status == response.status,
{
    let out = dressed(response, request, ip, mac, key_pem).headers;
    let echoed = response.headers.push(("CSeq"@, cseq));
    assert forall|i: int| 0 <= i < echoed.len() implies out[i] == echoed[i] by {
    }
    lemma_first_header(response.headers, out, "CSeq"@);
}

/// The first header of a name is found behind headers of other names.
proof fn lemma_first_header(
    before: Seq<(Seq<char>, Seq<char>)>,
    all: Seq<(Seq<char>, Seq<char>)>,
    name: Seq<char>,
)
    requires
        rtsp::header_value(before, name) is None,
        before.len() < all.len(),
        forall|i: int| 0 <= i < before.len() ==> all[i] == #[trigger] before[i],
        all[before.len() as int].0 == name,
    ensures
        rtsp::header_value(all, name) == Some(all[before.len() as int].1),
    decreases before.len(),
{
    if before.len() > 0 {
        assert(all[0] == before[0]);
        assert forall|i: int| 0 <= i < before.skip(1).len() implies all.skip(1)[i]
            == #[trigger] before.skip(1)[i] by {
            assert(all[i + 1] == before[i + 1]);
        }
        lemma_first_header(before.skip(1), all.skip(1), name);
    }
}

/// The challenge of a locked connection carries its nonce, whatever the nonce
/// is, as long as it holds no quotation mark.
pub proof fn law_a_challenge_carries_the_nonce(nonce: Seq<char>)
    requires
        forall|i: int| 0 <= i < nonce.len() ==> #[trigger] nonce[i] != '"',
    ensures
        quoted_field(challenge_text(nonce), "nonce"@) == Some(nonce),
{
    reveal_strlit("Digest realm=\"raop\", nonce=\"");
    reveal_strlit("\"");
    reveal_strlit("nonce");
    reveal_strlit("=\"");
    let value = challenge_text(nonce);
    let needle = "nonce"@ + "=\""@;
    let head = "Digest realm=\"raop\", nonce=\""@;
    assert(head.len() == 28 && needle.len() == 7);
    assert forall|i: int| 0 <= i < 28 implies #[trigger] value[i] == head[i] by {
    }
    let found = value.skip(21).take(7);
    assert(found[0] == needle[0] && found[1] == needle[1] && found[2] == needle[2] && found[3]
        == needle[3] && found[4] == needle[4] && found[5] == needle[5] && found[6] == needle[6]);
    assert(found =~= needle);
    lemma_needle_after(value, needle, 21);
    assert(value.skip(28) =~= nonce + "\""@);
    lemma_quote_after(nonce, "\""@);
    assert((nonce + "\""@).take(nonce.len() as int) =~= nonce);
}

/// Where a text is first found, given that nothing before it begins like it.
proof fn lemma_needle_after(s: Seq<char>, needle: Seq<char>, at: int)
    requires
        0 <= at <= s.len(),
        needle.len() > 0,
        text::has_prefix(s.skip(at), needle),
        forall|i: int| 0 <= i < at ==> #[trigger] s[i] != needle[0],
    ensures
        text::text_position(s, needle) == Some(at),
    decreases at,
{
    if at == 0 {
        assert(s.skip(0) =~= s);
    } else {
        assert(s[0] != needle[0]);
        if text::has_prefix(s, needle) {
            assert(s.take(needle.len() as int)[0] == s[0]);
        }
        assert(s.skip(1).skip(at - 1) =~= s.skip(at));
        assert forall|i: int| 0 <= i < at - 1 implies #[trigger] s.skip(1)[i] != needle[0] by {
            assert(s[i + 1] != needle[0]);
        }
        lemma_needle_after(s.skip(1), needle, at - 1);
    }
}

proof fn lemma_quote_after(inside: Seq<char>, quote: Seq<char>)
    requires
        quote.len() == 1,
        quote[0] == '"',
        forall|i: int| 0 <= i < inside.len() ==> #[trigger] inside[i] != '"',
    ensures
        text::position(inside + quote, '"') == inside.len(),
    decreases inside.len(),
{
    if inside.len() > 0 {
        assert((inside + quote).skip(1) =~= inside.skip(1) + quote);
        lemma_quote_after(inside.skip(1), quote);
    }
}

/// Whether a body of this content type is text that a log can show.
pub open spec fn printable(content_type: Seq<char>) -> bool {
    ||| text::has_prefix(content_type, "text/"@)
    ||| text::text_position(content_type, "sdp"@) is Some
    ||| text::text_position(content_type, "parameters"@) is Some
}

/// Whether a body of this content type is text that a log can show.
pub fn is_printable(content_type: &str) -> (text: bool)
    ensures
        text == printable(content_type@),
{
    let chars = chars_of(content_type);
    strip_prefix(chars.as_slice(), chars_of("text/").as_slice()).is_some() || after_text(
        chars.as_slice(),
        chars_of("sdp").as_slice(),
    ).is_some() || after_text(chars.as_slice(), chars_of("parameters").as_slice()).is_some()
}

/// A quoted field is found by its name, wherever it stands first, and is what
/// stands between its quotation marks.
pub proof fn law_a_quoted_field_is_found(
    before: Seq<char>,
    name: Seq<char>,
    value: Seq<char>,
    after: Seq<char>,
)
    requires
        forall|i: int| 0 <= i < value.len() ==> #[trigger] value[i] != '"',
        ({
            let all = before + (name + "=\""@) + value + seq!['"'] + after;
            forall|j: int|
                0 <= j < before.len() ==> #[trigger] all.subrange(j, j + name.len() + 2) != name
                    + "=\""@
        }),
    ensures
        quoted_field(before + (name + "=\""@) + value + seq!['"'] + after, name) == Some(value),
{
    reveal_strlit("=\"");
    assert("=\""@.len() == 2);
    let needle = name + "=\""@;
    let rest = value + seq!['"'] + after;
    let all = before + needle + value + seq!['"'] + after;
    assert(all =~= before + needle + rest);
    text::law_a_text_is_found_where_it_stands_first(all, needle);
    assert(all.subrange(before.len() as int, (before.len() + needle.len()) as int) =~= needle);
    let found = text::text_after(all, needle);
    assert(found is Some);
    let at = choose|at: int| {
        &&& 0 <= at
        &&& at + needle.len() + found->0.len() == all.len()
        &&& #[trigger] all.subrange(at, at + needle.len()) == needle
        &&& found->0 == all.skip(at + needle.len())
        &&& forall|j: int| 0 <= j < at ==> #[trigger] all.subrange(j, j + needle.len()) != needle
    };
    if at < before.len() {
        assert(all.subrange(at, at + name.len() + 2) == all.subrange(at, at + needle.len()));
    }
    assert(at == before.len());
    assert(found->0 =~= rest);
    text::law_a_character_is_found_where_it_stands_first(value, '"', after);
    assert(rest.take(value.len() as int) =~= value);
}

/// A challenge is Digest, of the realm `raop`, and names the nonce.
pub proof fn law_a_refusal_says_how_to_log_in(nonce: Seq<char>)
    ensures
        unauthorized(nonce).status == 401,
        unauthorized(nonce).reason == "Unauthorized"@,
        unauthorized(nonce).headers == seq![
            ("WWW-Authenticate"@, "Digest realm=\"raop\", nonce=\""@ + nonce + "\""@),
        ],
        unauthorized(nonce).body.len() == 0,
{
    assert(unauthorized(nonce).headers =~= seq![
        ("WWW-Authenticate"@, "Digest realm=\"raop\", nonce=\""@ + nonce + "\""@),
    ]);
}

/// A login must be Digest and name user, realm and URI, and its response must be
/// the digest of the password that is set, of this request and of this
/// connection's nonce.
pub proof fn law_a_login_needs_every_part(
    value: Seq<char>,
    password: Seq<char>,
    method: Seq<char>,
    uri: Seq<char>,
    nonce: Seq<char>,
)
    requires
        credential_ok(value, password, method, uri, nonce),
    ensures
        value.len() >= 7,
        text::same_ignoring_case(value.take(7), "Digest "@),
        quoted_field(value, "realm"@) is Some,
        quoted_field(value, "uri"@) is Some,
        quoted_field(value, "username"@) is Some,
        quoted_field(value, "response"@) == Some(
            crypto::digest_of(
                quoted_field(value, "username"@)->0,
                "raop"@,
                password,
                method,
                uri,
                nonce,
            ),
        ),
{
}

/// Where a password is set, a connection that has not logged in is admitted only
/// by a request that does; where none is set, everyone is.
pub proof fn law_a_password_is_asked_for(
    c: ConnectionState,
    password: Seq<char>,
    request: RequestContent,
)
    requires
        !c.authorized,
    ensures
        rtsp::header_value(request.headers, "Authorization"@) is None ==> !c.admits(
            Some(password),
            request,
        ),
        c.admits(Some(password), request) ==> credential_ok(
            rtsp::header_value(request.headers, "Authorization"@)->0,
            password,
            request.method,
            request.uri,
            c.nonce,
        ),
        c.admits(None, request),
{
}

/// A new connection has announced nothing, streams nothing, holds no slot and is
/// not logged in.
pub proof fn law_a_new_connection_knows_nothing(peer: Seq<char>, nonce: Seq<char>)
    ensures
        ({
            let c = ConnectionState::fresh(peer, nonce);
            &&& c.session.params is None
            &&& !c.session.streaming
            &&& c.session.pending_metadata is None
            &&& c.session.pending_artwork is None
            &&& c.session.peer == peer
            &&& !c.session.holds_slot
            &&& c.session.track is None
            &&& c.session.owed == 0
            &&& !c.authorized
            &&& c.nonce == nonce
        }),
{
}

/// Every response says what it said, and then, in this order: the request's CSeq
/// if it had one, who serves, that something is plugged in, and the answer to the
/// Apple challenge if the request had one that can be answered.
pub proof fn law_every_response_is_dressed(
    response: ResponseContent,
    request: RequestContent,
    ip: IpAddr,
    mac: Seq<u8>,
    key_pem: Seq<char>,
)
    ensures
        ({
            let out = dressed(response, request, ip, mac, key_pem);
            let cseq = rtsp::header_value(request.headers, "CSeq"@);
            let challenge = rtsp::header_value(request.headers, "Apple-Challenge"@);
            let echo = if cseq is Some {
                seq![("CSeq"@, cseq->0)]
            } else {
                Seq::empty()
            };
            let own = seq![
                ("Server"@, "AirTunes/105.1"@),
                ("Audio-Jack-Status"@, "connected; type=analog"@),
            ];
            let answer = crypto::challenge_answer(challenge->0, ip, mac, key_pem);
            &&& out.status == response.status
            &&& out.reason == response.reason
            &&& out.body == response.body
            &&& challenge is None || answer is Err ==> out.headers == response.headers + echo + own
            &&& challenge is Some && answer is Ok ==> out.headers == response.headers + echo + own
                + seq![("Apple-Response"@, answer->Ok_0)]
        }),
{
    let out = dressed(response, request, ip, mac, key_pem);
    let cseq = rtsp::header_value(request.headers, "CSeq"@);
    let challenge = rtsp::header_value(request.headers, "Apple-Challenge"@);
    let echo = if cseq is Some {
        seq![("CSeq"@, cseq->0)]
    } else {
        Seq::empty()
    };
    let own = seq![
        ("Server"@, "AirTunes/105.1"@),
        ("Audio-Jack-Status"@, "connected; type=analog"@),
    ];
    let answer = crypto::challenge_answer(challenge->0, ip, mac, key_pem);
    if challenge is Some && answer is Ok {
        assert(out.headers =~= response.headers + echo + own + seq![
            ("Apple-Response"@, answer->Ok_0),
        ]);
    } else {
        assert(out.headers =~= response.headers + echo + own);
    }
}

/// The requests that change nothing: OPTIONS says what can be asked for, RECORD
/// how late the sound is, GET_PARAMETER nothing, and what is unknown is not
/// implemented.
pub proof fn law_harmless_requests_change_nothing(
    before: SessionState,
    after: SessionState,
    slot_before: bool,
    slot_after: bool,
    request: RequestContent,
    ip: IpAddr,
    mac: Seq<u8>,
    key_pem: Seq<char>,
    reply: Reply,
)
    requires
        answered(before, after, slot_before, slot_after, request, ip, mac, key_pem, reply),
        ({
            ||| request.method == "OPTIONS"@
            ||| request.method == "RECORD"@
            ||| request.method == "GET_PARAMETER"@
            ||| request.method != "ANNOUNCE"@ && request.method != "SETUP"@ && request.method
                != "TEARDOWN"@ && request.method != "FLUSH"@ && request.method
                != "SET_PARAMETER"@
        }),
    ensures
        after == before,
        slot_after == slot_before,
        reply is Done,
        reply->Done_0.events@.len() == 0,
        reply->Done_0.effect is Nothing,
        request.method == "OPTIONS"@ ==> reply->Done_0.response@.status == 200
            && reply->Done_0.response@.headers[0] == (
            "Public"@,
            "ANNOUNCE, SETUP, RECORD, PAUSE, FLUSH, TEARDOWN, OPTIONS, GET_PARAMETER, SET_PARAMETER"@,
        ),
        request.method == "RECORD"@ ==> reply->Done_0.response@.status == 200
            && reply->Done_0.response@.headers[0] == ("Audio-Latency"@, "11025"@),
        request.method == "GET_PARAMETER"@ ==> reply->Done_0.response@.status == 200,
        request.method != "OPTIONS"@ && request.method != "RECORD"@ && request.method
            != "GET_PARAMETER"@ ==> reply->Done_0.response@.status == 501
            && reply->Done_0.response@.reason == "Not Implemented"@,
{
    let ok = ResponseContent::status_only(200, "OK"@);
    law_every_response_is_dressed(ok, request, ip, mac, key_pem);
    law_every_response_is_dressed(
        ok.with("Public"@, PUBLIC_METHODS@),
        request,
        ip,
        mac,
        key_pem,
    );
    law_every_response_is_dressed(
        ok.with("Audio-Latency"@, "11025"@),
        request,
        ip,
        mac,
        key_pem,
    );
    lemma_methods_differ();
    assert(events::told(reply->Done_0.events@).len() == 0);
}

/// A TEARDOWN ends what runs: it is told, after the flushes that were owed, the
/// stream is stopped, and the slot is free again if it was this connection's.
pub proof fn law_a_teardown_ends_the_session(
    before: SessionState,
    after: SessionState,
    slot_before: bool,
    slot_after: bool,
    request: RequestContent,
    ip: IpAddr,
    mac: Seq<u8>,
    key_pem: Seq<char>,
    reply: Reply,
)
    requires
        before.wf(),
        answered(before, after, slot_before, slot_after, request, ip, mac, key_pem, reply),
        request.method == "TEARDOWN"@,
    ensures
        reply is Done,
        reply->Done_0.response@.status == 200,
        reply->Done_0.effect is Stop,
        !after.streaming,
        !after.holds_slot,
        after.owed == 0,
        after.params == before.params,
        before.holds_slot ==> !slot_after,
        !before.holds_slot ==> slot_after == slot_before,
        before.streaming ==> events::told(reply->Done_0.events@).len() == before.owed + 1
            && events::told(reply->Done_0.events@).last() is SessionEnded,
        !before.streaming ==> events::told(reply->Done_0.events@).len() == 0,
{
    session::law_an_end_tells_so_last(before);
}

/// A FLUSH of a running stream, with the header that senders send, goes to the
/// packet that it names, and is answered with 200; one where nothing streams is
/// told at once and reaches no player.
pub proof fn law_a_flush_request_goes_to_its_packet(
    before: SessionState,
    after: SessionState,
    slot_before: bool,
    slot_after: bool,
    request: RequestContent,
    headers: Seq<(Seq<char>, Seq<char>)>,
    n: u16,
    t: u32,
    ip: IpAddr,
    mac: Seq<u8>,
    key_pem: Seq<char>,
    reply: Reply,
)
    requires
        before.wf(),
        answered(before, after, slot_before, slot_after, request, ip, mac, key_pem, reply),
        request.method == "FLUSH"@,
        request.headers == seq![
            (
                "RTP-Info"@,
                "seq="@ + crate::number::decimal(n as nat) + ";rtptime="@ + crate::number::decimal(
                    t as nat,
                ),
            ),
        ] + headers,
    ensures
        reply is Done,
        reply->Done_0.response@.status == 200,
        before.streaming ==> reply->Done_0.effect == Effect::Flush(Some(n))
            && reply->Done_0.events@.len() == 0,
        !before.streaming ==> reply->Done_0.effect is Nothing && events::told(
            reply->Done_0.events@,
        ) == seq![EventContent::Flushed],
        slot_after == slot_before,
        after.streaming == before.streaming,
{
    session::law_a_seek_goes_to_its_sequence_number(request, headers, n, t);
    assert(events::told(reply->Done_0.events@).len() == reply->Done_0.events@.len());
}

/// A SETUP before an ANNOUNCE is out of order, one while another connection
/// streams is refused, and one that names no ports is a bad request; any other
/// takes the slot and asks for the ports that it names.
pub proof fn law_a_setup_needs_announcement_and_slot(
    before: SessionState,
    after: SessionState,
    slot_before: bool,
    slot_after: bool,
    request: RequestContent,
    ip: IpAddr,
    mac: Seq<u8>,
    key_pem: Seq<char>,
    reply: Reply,
)
    requires
        answered(before, after, slot_before, slot_after, request, ip, mac, key_pem, reply),
        request.method == "SETUP"@,
    ensures
        before.params is None ==> reply is Done && reply->Done_0.response@.status == 455 && after
            == before && slot_after == slot_before,
        before.params is Some && slot_before && !before.holds_slot ==> reply is Done
            && reply->Done_0.response@.status == 453 && after == before && slot_after
            == slot_before,
        before.params is Some && (before.holds_slot || !slot_before) ==> {
            &&& after.holds_slot
            &&& !before.holds_slot ==> slot_after
            &&& after.streaming == before.streaming
            &&& after.params == before.params
            &&& session::setup_ports(request) is None ==> reply is Done
                && reply->Done_0.response@.status == 400
            &&& session::setup_ports(request) is Some ==> reply is Bind
                && reply->Bind_0.params == before.params->0 && reply->Bind_0.control_port == (
            session::setup_ports(request)->0).0 && reply->Bind_0.timing_port == (
            session::setup_ports(request)->0).1
        },
{
    session::law_refusals_have_their_status();
}

/// Which bodies are logged as text: those whose type says so, SDP, and
/// parameters.
pub proof fn law_texts_are_printable(content_type: Seq<char>, rest: Seq<char>)
    requires
        content_type == "text/"@ + rest,
    ensures
        printable(content_type),
{
    text::law_a_prefix_is_a_beginning("text/"@, rest, content_type);
}

} // verus!
