//! What the REST binding decides on its own: who a request's
//! `Authorization` header names, how an agent registers with its password,
//! and which status answers an error.
//!
//! The header is read in Basic mode: after the scheme comes the base64 of
//! `agent-id:token`, the agent's id in its text form and the password that
//! was recorded when the agent was created.

use vstd::prelude::*;
use vstd::utf8::{decode_utf8, valid_utf8};

use crate::encoding::{base64_decode, base64_decoding};
use crate::errors::{SdaError, SdaResult, SdaServerError, SdaServerResult};
use crate::helpers::Labelled;
use crate::ids::{unparseable_uuid_message, uuid_read, AgentId};
use crate::resources::{Agent, AuthToken};
use crate::server::{agent_creation, credential_check, token_accepted, SdaServer};
use crate::service::{reports, server_error_message, SdaServerService};

verus! {

/// Whether `c` has the Unicode `White_Space` property (PropList.txt):
/// the controls from tab to carriage return, the space, next line,
/// no-break space, ogham space mark, the spaces from en quad to hair space,
/// the line and paragraph separators, the narrow no-break space, the medium
/// mathematical space and the ideographic space.
pub open spec fn white_space(c: char) -> bool {
    let n = c as u32;
    ||| 0x09 <= n <= 0x0D
    ||| n == 0x20
    ||| n == 0x85
    ||| n == 0xA0
    ||| n == 0x1680
    ||| 0x2000 <= n <= 0x200A
    ||| n == 0x2028
    ||| n == 0x2029
    ||| n == 0x202F
    ||| n == 0x205F
    ||| n == 0x3000
}

/// Calls `char::is_whitespace`, which its documentation defines as the
/// Unicode `White_Space` property, the set that `white_space` lists.
#[verifier::external_body]
fn is_white_space(c: char) -> (b: bool)
    ensures
        b == white_space(c),
{
    c.is_whitespace()
}

/// Calls `String::from_utf8`: the text the bytes encode, where they are
/// valid UTF-8, as its documentation states.
#[verifier::external_body]
fn string_from_utf8(bytes: Vec<u8>) -> (res: Option<String>)
    ensures
        res is Some <==> valid_utf8(bytes@),
        res matches Some(s) ==> s@ == decode_utf8(bytes@),
{
    String::from_utf8(bytes).ok()
}

/// The first index from `i` on that holds no white space, or the length.
pub open spec fn skip_white(s: Seq<char>, i: int) -> int
    decreases s.len() - i,
{
    if 0 <= i < s.len() && white_space(s[i]) {
        skip_white(s, i + 1)
    } else {
        i
    }
}

/// The end of `s.subrange(lo, j)` once its trailing white space is cut.
pub open spec fn cut_white(s: Seq<char>, lo: int, j: int) -> int
    decreases j - lo,
{
    if lo < j && white_space(s[j - 1]) {
        cut_white(s, lo, j - 1)
    } else {
        j
    }
}

/// `s` without its leading and trailing white space, as `str::trim` gives it.
pub open spec fn trimmed(s: Seq<char>) -> Seq<char> {
    let lo = skip_white(s, 0);
    s.subrange(lo, cut_white(s, lo, s.len() as int))
}

/// The authentication scheme the header must start with.
pub open spec fn basic_scheme() -> Seq<char> {
    seq!['B', 'a', 's', 'i', 'c', ' ']
}

/// Whether the scheme starts at index `i` of `s`.
pub open spec fn scheme_at(s: Seq<char>, i: int) -> bool {
    0 <= i && i + 6 <= s.len() && s.subrange(i, i + 6) == basic_scheme()
}

/// `s` with every occurrence of the scheme taken out, left to right, as
/// `str::replace` with an empty replacement gives it.
pub open spec fn without_scheme(s: Seq<char>) -> Seq<char>
    decreases s.len(),
{
    if s.len() == 0 {
        s
    } else if scheme_at(s, 0) {
        without_scheme(s.skip(6))
    } else {
        seq![s[0]] + without_scheme(s.skip(1))
    }
}

/// The first index from `i` on that holds `c`, or the length.
pub open spec fn find_from(s: Seq<char>, c: char, i: int) -> int
    decreases s.len() - i,
{
    if 0 <= i < s.len() && s[i] != c {
        find_from(s, c, i + 1)
    } else {
        i
    }
}

/// The first index from `i` on, `i` itself included, that holds no white
/// space: the loop's witness that it only ever skips white space.
fn first_kept(s: &str, n: usize, i: usize) -> (j: usize)
    requires
        n == s@.len(),
        i <= n,
    ensures
        j == skip_white(s@, i as int),
        j <= n,
    decreases n - i,
{
    if i < n && is_white_space(s.get_char(i)) {
        first_kept(s, n, i + 1)
    } else {
        i
    }
}

/// The end of `s.subrange(lo, j)` once its trailing white space is cut.
fn last_kept(s: &str, lo: usize, j: usize) -> (k: usize)
    requires
        lo <= j <= s@.len(),
    ensures
        k == cut_white(s@, lo as int, j as int),
        lo <= k <= j,
    decreases j - lo,
{
    if lo < j && is_white_space(s.get_char(j - 1)) {
        last_kept(s, lo, j - 1)
    } else {
        j
    }
}

/// `str::trim`, over the characters of `s`.
pub fn trim(s: &str) -> (t: &str)
    ensures
        t@ == trimmed(s@),
{
    let n = s.unicode_len();
    let lo = first_kept(s, n, 0);
    let hi = last_kept(s, lo, n);
    s.substring_char(lo, hi)
}

/// Whether the scheme starts at index `i` of `s`, whose length is `n`.
fn has_scheme_at(s: &str, n: usize, i: usize) -> (b: bool)
    requires
        n == s@.len(),
    ensures
        b == scheme_at(s@, i as int),
{
    if i > n || n - i < 6 {
        return false;
    }
    let found = s.get_char(i) == 'B' && s.get_char(i + 1) == 'a' && s.get_char(i + 2) == 's'
        && s.get_char(i + 3) == 'i' && s.get_char(i + 4) == 'c' && s.get_char(i + 5) == ' ';
    assert(found ==> s@.subrange(i as int, i + 6) =~= basic_scheme());
    assert(s@.subrange(i as int, i + 6) == basic_scheme() ==> found) by {
        if s@.subrange(i as int, i + 6) == basic_scheme() {
            assert(s@.subrange(i as int, i + 6)[0] == 'B');
            assert(s@.subrange(i as int, i + 6)[1] == 'a');
            assert(s@.subrange(i as int, i + 6)[2] == 's');
            assert(s@.subrange(i as int, i + 6)[3] == 'i');
            assert(s@.subrange(i as int, i + 6)[4] == 'c');
            assert(s@.subrange(i as int, i + 6)[5] == ' ');
        }
    }
    found
}

/// `str::replace` of the scheme by nothing, over the characters of `s`.
pub fn remove_scheme(s: &str) -> (r: String)
    ensures
        r@ == without_scheme(s@),
{
    let n = s.unicode_len();
    let mut r = String::new();
    let mut start: usize = 0;
    let mut i: usize = 0;
    assert(s@.subrange(0, n as int) =~= s@);
    assert(r@ + s@.subrange(0, 0) =~= Seq::<char>::empty());
    while i < n
        invariant
            n == s@.len(),
            start <= i <= n,
            r@ + s@.subrange(start as int, i as int) + without_scheme(s@.subrange(i as int, n as int))
                == without_scheme(s@),
        decreases n - i,
    {
        let ghost rest = s@.subrange(i as int, n as int);
        if has_scheme_at(s, n, i) {
            assert(rest.subrange(0, 6) =~= s@.subrange(i as int, i + 6));
            assert(rest.skip(6) =~= s@.subrange(i + 6, n as int));
            r.append(s.substring_char(start, i));
            i = i + 6;
            start = i;
            assert(s@.subrange(start as int, i as int) =~= Seq::<char>::empty());
        } else {
            proof {
                if i + 6 <= n {
                    assert(rest.subrange(0, 6) =~= s@.subrange(i as int, i + 6));
                }
            }
            assert(rest.skip(1) =~= s@.subrange(i + 1, n as int));
            assert(s@.subrange(start as int, i + 1) =~= s@.subrange(start as int, i as int).push(
                rest[0],
            ));
            i = i + 1;
        }
    }
    assert(s@.subrange(n as int, n as int) =~= Seq::<char>::empty());
    r.append(s.substring_char(start, n));
    r
}

/// The first index from `i` on that holds `c`, or `n`, the length.
pub(crate) fn find_char(s: &str, n: usize, c: char, i: usize) -> (j: usize)
    requires
        n == s@.len(),
        i <= n,
    ensures
        j == find_from(s@, c, i as int),
        i <= j <= n,
    decreases n - i,
{
    if i < n && s.get_char(i) != c {
        find_char(s, n, c, i + 1)
    } else {
        i
    }
}


/// The message when a request has no `Authorization` header.
pub open spec fn missing_header_message() -> Seq<char> {
    "Mandatory Authorization header"@
}

/// The message when the header is not in Basic mode.
pub open spec fn not_basic_message() -> Seq<char> {
    "Basic Authorization required"@
}

/// The message when the credentials are not base64.
pub open spec fn not_base64_message(reason: Seq<char>) -> Seq<char> {
    "Invalid Auth header (base64: "@ + reason + ")"@
}

/// The message when the credentials are not UTF-8 text.
pub open spec fn not_utf8_message() -> Seq<char> {
    "Invalid Auth header(not utf8)"@
}

/// The message when the credentials hold no colon.
pub open spec fn no_password_message() -> Seq<char> {
    "Invalid Auth header"@
}

/// `res` holds `message` as a failure.
pub open spec fn fails_with<T>(res: SdaResult<T>, message: Seq<char>) -> bool {
    res matches Err(SdaError::Msg(msg)) && msg@ == message
}

/// What reading the credentials `text` gives: the agent id before the
/// first colon, and the password up to the next colon or the end.
pub open spec fn credentials_outcome(text: Seq<char>, res: SdaResult<AuthToken>) -> bool {
    let k = find_from(text, ':', 0);
    if k == text.len() {
        fails_with(res, no_password_message())
    } else {
        match uuid_read(text.take(k)) {
            None => fails_with(res, unparseable_uuid_message(text.take(k))),
            Some(u) => res matches Ok(token) && token.id == AgentId(u) && token.body@
                == text.subrange(k + 1, find_from(text, ':', k + 1)),
        }
    }
}

/// What the `Authorization` header gives: the token it carries, or why
/// it carries none.
pub open spec fn auth_header_outcome(header: Option<Seq<char>>, res: SdaResult<AuthToken>) -> bool {
    match header {
        None => fails_with(res, missing_header_message()),
        Some(h) => {
            let t = trimmed(h);
            if !scheme_at(t, 0) {
                fails_with(res, not_basic_message())
            } else {
                match base64_decoding(without_scheme(t)) {
                    Err((_, reason)) => fails_with(res, not_base64_message(reason)),
                    Ok(bytes) => if valid_utf8(bytes) {
                        credentials_outcome(decode_utf8(bytes), res)
                    } else {
                        fails_with(res, not_utf8_message())
                    },
                }
            }
        },
    }
}

/// A failure with the given message.
fn failure<T>(message: &str) -> (res: SdaResult<T>)
    ensures
        fails_with(res, message@),
{
    Err(SdaError::Msg(String::from_str(message)))
}

/// Reads the agent id and password of decoded credentials.
fn read_credentials(text: &str) -> (res: SdaResult<AuthToken>)
    ensures
        credentials_outcome(text@, res),
{
    let n = text.unicode_len();
    let k = find_char(text, n, ':', 0);
    if k == n {
        return failure("Invalid Auth header");
    }
    let m = find_char(text, n, ':', k + 1);
    let id_text = text.substring_char(0, k);
    assert(id_text@ == text@.take(k as int));
    match AgentId::from_str(id_text) {
        Ok(id) => {
            let body = String::from_str(text.substring_char(k + 1, m));
            Ok(Labelled { id, body })
        },
        Err(msg) => Err(SdaError::Msg(msg)),
    }
}

/// The token carried by an `Authorization` header in Basic mode.
pub fn auth_token(header: Option<&str>) -> (res: SdaResult<AuthToken>)
    ensures
        auth_header_outcome(
            match header {
                Some(h) => Some(h@),
                None => None,
            },
            res,
        ),
{
    let header = match header {
        Some(h) => trim(h),
        None => {
            return failure("Mandatory Authorization header");
        },
    };
    let n = header.unicode_len();
    if !has_scheme_at(header, n, 0) {
        return failure("Basic Authorization required");
    }
    let value = remove_scheme(header);
    let decoded = match base64_decode(value.as_str()) {
        Ok(bytes) => bytes,
        Err((_, reason)) => {
            let mut msg = String::from_str("Invalid Auth header (base64: ");
            msg.append(reason.as_str());
            msg.append(")");
            return Err(SdaError::Msg(msg));
        },
    };
    let text = match string_from_utf8(decoded) {
        Some(t) => t,
        None => {
            return failure("Invalid Auth header(not utf8)");
        },
    };
    read_credentials(text.as_str())
}

/// The HTTP status that answers a request failing with `e`.
pub open spec fn status_of(e: SdaError) -> u16 {
    match e {
        SdaError::InvalidCredentials => 401,
        SdaError::PermissionDenied => 403,
        SdaError::Invalid(_) => 400,
        SdaError::Msg(_) => 500,
    }
}

/// The HTTP status that answers a request failing with `e`.
pub fn error_status(e: &SdaError) -> (code: u16)
    ensures
        code == status_of(*e),
{
    match e {
        SdaError::InvalidCredentials => 401,
        SdaError::PermissionDenied => 403,
        SdaError::Invalid(_) => 400,
        SdaError::Msg(_) => 500,
    }
}

/// The view of an optional header.
pub open spec fn header_view(header: Option<&str>) -> Option<Seq<char>> {
    match header {
        Some(h) => Some(h@),
        None => None,
    }
}

/// The agent a request's `Authorization` header authenticates.
pub fn caller(server: &SdaServer, header: Option<&str>) -> (res: SdaResult<Agent>)
    ensures
        exists|read: SdaResult<AuthToken>|
            {
                &&& auth_header_outcome(header_view(header), read)
                &&& match read {
                    Ok(token) => credential_check(*server, token, res),
                    Err(e) => res == Err::<Agent, SdaError>(e),
                }
            },
{
    let token = auth_token(header);
    match token {
        Ok(t) => {
            let res = server.check_auth_token(&t);
            assert(auth_header_outcome(header_view(header), Ok::<AuthToken, SdaError>(t)));
            res
        },
        Err(e) => Err(e),
    }
}

/// How an agent's registration ended.
#[derive(Clone, Copy, Debug, PartialEq, Eq, Structural)]
pub enum Registration {
    /// The agent and its token were recorded.
    Registered,
    /// The agent is not the one the token names: nothing was recorded.
    InconsistentIds,
}

/// What registering ends with when the agent creation answered `inner`.
pub open spec fn registration_reports(res: SdaResult<Registration>, inner: SdaServerResult<()>) -> bool {
    match inner {
        Ok(_) => res == Ok::<Registration, SdaError>(Registration::Registered),
        Err(SdaServerError::Msg(m)) => res matches Err(SdaError::Msg(msg)) && msg@
            == server_error_message(m@),
    }
}

/// Registers the agent a token names. A new agent is recorded, then the
/// token as its password. An agent already recorded keeps the password
/// recorded at its creation: it registers again only with that password,
/// and nothing is recorded of the token.
pub fn register_agent(service: &mut SdaServerService, token: AuthToken, agent: Agent) -> (res:
    SdaResult<Registration>)
    ensures
        old(service).0.keyed_by_id() ==> final(service).0.keyed_by_id(),
        agent.id != token.id ==> res == Ok::<Registration, SdaError>(Registration::InconsistentIds)
            && *final(service) == *old(service),
        agent.id == token.id && !old(service).0.agent_store.agents@.contains_key(agent.id.0)
            ==> exists|created: SdaServer|
            {
                &&& agent_creation(old(service).0, created, agent, Ok::<(), SdaServerError>(()))
                &&& res == Ok::<Registration, SdaError>(Registration::Registered)
                &&& final(service).0.auth_token_store.auth_tokens@
                    == created.auth_token_store.auth_tokens@.insert(token.id.0, token)
                &&& final(service).0.agent_store == created.agent_store
                &&& final(service).0.aggregation_store == created.aggregation_store
                &&& final(service).0.clerking_job_store == created.clerking_job_store
            },
        agent.id == token.id && old(service).0.agent_store.agents@.contains_key(agent.id.0)
            ==> if token_accepted(old(service).0, token) {
            exists|inner: SdaServerResult<()>|
                agent_creation(old(service).0, final(service).0, agent, inner)
                    && registration_reports(res, inner)
        } else {
            res == Err::<Registration, SdaError>(SdaError::InvalidCredentials) && *final(service)
                == *old(service)
        },
{
    if agent.id != token.id {
        return Ok(Registration::InconsistentIds);
    }
    let caller = agent;
    if service.0.get_agent(&agent.id).is_some() {
        let accepted = match service.0.auth_token_store.get_auth_token(&token.id) {
            Some(recorded) => recorded.id == token.id && recorded.body == token.body,
            None => false,
        };
        if !accepted {
            return Err(SdaError::InvalidCredentials);
        }
        let ghost before = service.0;
        let answer = service.create_agent(&caller, agent);
        let ghost inner = choose|inner: SdaServerResult<()>|
            agent_creation(before, service.0, agent, inner) && reports(answer, inner);
        let res = match answer {
            Ok(()) => Ok(Registration::Registered),
            Err(e) => Err(e),
        };
        assert(registration_reports(res, inner));
        return res;
    }
    match service.create_agent(&caller, agent) {
        Ok(()) => {
            service.0.upsert_auth_token(token);
            Ok(Registration::Registered)
        },
        Err(e) => Err(e),
    }
}

/// Once an agent is registered with a token, that token authenticates the
/// agent.
pub proof fn law_registered_agent_is_authenticated(
    before: SdaServer,
    created: SdaServer,
    after: SdaServer,
    agent: Agent,
    token: AuthToken,
)
    requires
        agent.id == token.id,
        agent_creation(before, created, agent, Ok::<(), SdaServerError>(())),
        after.auth_token_store.auth_tokens@ == created.auth_token_store.auth_tokens@.insert(
            token.id.0,
            token,
        ),
        after.agent_store == created.agent_store,
    ensures
        credential_check(after, token, Ok::<Agent, SdaError>(agent)),
{
    assert(after.agent_store.agents@.contains_key(token.id.0));
    assert(after.agent_store.agents@[token.id.0] == agent);
}

/// Registering an agent that is already recorded leaves the accepted
/// tokens as they were: its password stays the one recorded at creation.
pub proof fn law_registration_keeps_password(
    before: SdaServer,
    after: SdaServer,
    agent: Agent,
    inner: SdaServerResult<()>,
    shown: AuthToken,
)
    requires
        agent_creation(before, after, agent, inner) || after == before,
    ensures
        token_accepted(after, shown) == token_accepted(before, shown),
{
}

} // verus!
