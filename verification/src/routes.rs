//! The REST routes of the SDA service: which endpoint a request's method
//! and url name, with the identifiers the url carries.
//!
//! The url's path (what comes before `?`) is cut at each `/`; the routes
//! are tried in a fixed order and the first whose method and segments fit
//! is taken. A segment standing for an identifier fits when it reads as a
//! UUID, percent-decoded first where the route says so.

use vstd::prelude::*;

use crate::http::{find_char, find_from};
use crate::ids::{
    read_uuid, uuid_read, AgentId, AggregationId, ClerkingJobId, EncryptionKeyId, SnapshotId,
};

verus! {

/// The text that percent-decoding `segment` gives, read as UTF-8 lossily.
pub uninterp spec fn url_decoding(segment: Seq<char>) -> Seq<char>;

/// Calls `percent_encoding::percent_decode` (re-exported by `rouille`) on
/// the bytes of `segment` and `decode_utf8_lossy` on the result; the text
/// is named `url_decoding`.
#[verifier::external_body]
fn url_decode(segment: &str) -> (text: String)
    ensures
        text@ == url_decoding(segment@),
{
    ::rouille::percent_encoding::percent_decode(segment.as_bytes()).decode_utf8_lossy().into_owned()
}

/// An endpoint of the SDA service, with the identifiers its url carries.
#[derive(Clone, Copy, Debug, PartialEq, Eq, Structural)]
pub enum Route {
    Ping,
    GetAgent(AgentId),
    CreateAgent,
    GetProfile(AgentId),
    UpsertProfile,
    GetEncryptionKey(EncryptionKeyId),
    CreateEncryptionKey,
    CreateAggregation,
    ListAggregations,
    GetAggregation(AggregationId),
    DeleteAggregation(AggregationId),
    SuggestCommittee(AggregationId),
    CreateCommittee,
    GetCommittee(AggregationId),
    CreateParticipation,
    GetAggregationStatus(AggregationId),
    CreateSnapshot,
    GetClerkingJob,
    CreateClerkingResult(ClerkingJobId),
    GetSnapshotResult(AggregationId, SnapshotId),
}

/// `find_from` stays within the text and stops on `c` only.
pub proof fn lemma_find_from_bounds(s: Seq<char>, c: char, i: int)
    requires
        0 <= i <= s.len(),
    ensures
        i <= find_from(s, c, i) <= s.len(),
        find_from(s, c, i) < s.len() ==> s[find_from(s, c, i)] == c,
    decreases s.len() - i,
{
    if i < s.len() && s[i] != c {
        lemma_find_from_bounds(s, c, i + 1);
    }
}

/// The segments of `p` from index `i` on, cut at each `/`.
pub open spec fn segments_from(p: Seq<char>, i: int) -> Seq<Seq<char>>
    decreases p.len() - i,
{
    if i < 0 || i > p.len() {
        Seq::empty()
    } else {
        let e = find_from(p, '/', i);
        if e < p.len() {
            proof {
                lemma_find_from_bounds(p, '/', i);
            }
            seq![p.subrange(i, e)] + segments_from(p, e + 1)
        } else {
            seq![p.subrange(i, p.len() as int)]
        }
    }
}

/// The path of a url: what comes before its query.
pub open spec fn path_of(url: Seq<char>) -> Seq<char> {
    url.take(find_from(url, '?', 0))
}

/// The segments of a url's path, where the path starts with `/`.
pub open spec fn url_segments(url: Seq<char>) -> Option<Seq<Seq<char>>> {
    let p = path_of(url);
    if p.len() > 0 && p[0] == '/' {
        Some(segments_from(p, 1))
    } else {
        None
    }
}

/// The identifier a segment names once percent-decoded.
pub open spec fn decoded_id(segment: Seq<char>) -> Option<u128> {
    uuid_read(url_decoding(segment))
}

/// The endpoint a method and the segments of a path name, tried in order.
pub open spec fn route_of(method: Seq<char>, s: Seq<Seq<char>>) -> Option<Route> {
    let n = s.len();
    let get = method == "GET"@;
    let post = method == "POST"@;
    if n < 2 || s[0] != "v1"@ {
        None
    } else if get && n == 2 && s[1] == "ping"@ {
        Some(Route::Ping)
    } else if get && n == 3 && s[1] == "agents"@ && decoded_id(s[2]) is Some {
        Some(Route::GetAgent(AgentId(decoded_id(s[2])->Some_0)))
    } else if post && n == 3 && s[1] == "agents"@ && s[2] == "me"@ {
        Some(Route::CreateAgent)
    } else if get && n == 4 && s[1] == "agents"@ && decoded_id(s[2]) is Some && s[3]
        == "profile"@ {
        Some(Route::GetProfile(AgentId(decoded_id(s[2])->Some_0)))
    } else if post && n == 4 && s[1] == "agents"@ && s[2] == "me"@ && s[3] == "profile"@ {
        Some(Route::UpsertProfile)
    } else if get && n == 5 && s[1] == "agents"@ && s[2] == "any"@ && s[3] == "keys"@
        && decoded_id(s[4]) is Some {
        Some(Route::GetEncryptionKey(EncryptionKeyId(decoded_id(s[4])->Some_0)))
    } else if post && n == 4 && s[1] == "agents"@ && s[2] == "me"@ && s[3] == "keys"@ {
        Some(Route::CreateEncryptionKey)
    } else if post && n == 2 && s[1] == "aggregations"@ {
        Some(Route::CreateAggregation)
    } else if get && n == 2 && s[1] == "aggregations"@ {
        Some(Route::ListAggregations)
    } else if get && n == 3 && s[1] == "aggregations"@ && decoded_id(s[2]) is Some {
        Some(Route::GetAggregation(AggregationId(decoded_id(s[2])->Some_0)))
    } else if method == "DELETE"@ && n == 3 && s[1] == "aggregations"@ && decoded_id(s[2]) is Some {
        Some(Route::DeleteAggregation(AggregationId(decoded_id(s[2])->Some_0)))
    } else if get && n == 5 && s[1] == "aggregations"@ && decoded_id(s[2]) is Some && s[3]
        == "committee"@ && s[4] == "suggestions"@ {
        Some(Route::SuggestCommittee(AggregationId(decoded_id(s[2])->Some_0)))
    } else if post && n == 4 && s[1] == "aggregations"@ && s[2] == "implied"@ && s[3]
        == "committee"@ {
        Some(Route::CreateCommittee)
    } else if get && n == 4 && s[1] == "aggregations"@ && decoded_id(s[2]) is Some && s[3]
        == "committee"@ {
        Some(Route::GetCommittee(AggregationId(decoded_id(s[2])->Some_0)))
    } else if post && n == 3 && s[1] == "aggregations"@ && s[2] == "participations"@ {
        Some(Route::CreateParticipation)
    } else if get && n == 4 && s[1] == "aggregations"@ && decoded_id(s[2]) is Some && s[3]
        == "status"@ {
        Some(Route::GetAggregationStatus(AggregationId(decoded_id(s[2])->Some_0)))
    } else if post && n == 4 && s[1] == "aggregations"@ && s[2] == "implied"@ && s[3]
        == "snapshot"@ {
        Some(Route::CreateSnapshot)
    } else if get && n == 4 && s[1] == "aggregations"@ && s[2] == "any"@ && s[3] == "jobs"@ {
        Some(Route::GetClerkingJob)
    } else if post && n == 6 && s[1] == "aggregations"@ && s[2] == "implied"@ && s[3] == "jobs"@
        && uuid_read(s[4]) is Some && s[5] == "result"@ {
        Some(Route::CreateClerkingResult(ClerkingJobId(uuid_read(s[4])->Some_0)))
    } else if get && n == 6 && s[1] == "aggregations"@ && uuid_read(s[2]) is Some && s[3]
        == "snapshots"@ && uuid_read(s[4]) is Some && s[5] == "result"@ {
        Some(
            Route::GetSnapshotResult(
                AggregationId(uuid_read(s[2])->Some_0),
                SnapshotId(uuid_read(s[4])->Some_0),
            ),
        )
    } else {
        None
    }
}

/// The endpoint a request names, if any.
pub open spec fn request_route(method: Seq<char>, url: Seq<char>) -> Option<Route> {
    match url_segments(url) {
        Some(s) => route_of(method, s),
        None => None,
    }
}

/// The texts of a sequence of string slices.
pub open spec fn texts(s: Seq<&str>) -> Seq<Seq<char>> {
    s.map_values(|t: &str| t@)
}

/// Whether two texts are equal.
pub fn text_eq(a: &str, b: &str) -> (r: bool)
    ensures
        r == (a@ == b@),
{
    let n = a.unicode_len();
    let m = b.unicode_len();
    if n != m {
        return false;
    }
    let mut i: usize = 0;
    while i < n
        invariant
            n == a@.len(),
            m == b@.len(),
            n == m,
            i <= n,
            a@.take(i as int) == b@.take(i as int),
        decreases n - i,
    {
        if a.get_char(i) != b.get_char(i) {
            return false;
        }
        assert(a@.take(i + 1) =~= a@.take(i as int).push(a@[i as int]));
        assert(b@.take(i + 1) =~= b@.take(i as int).push(b@[i as int]));
        i = i + 1;
    }
    assert(a@ =~= a@.take(n as int));
    assert(b@ =~= b@.take(n as int));
    true
}

/// Appends the segments of `p` from index `start` on.
fn push_segments<'a>(p: &'a str, n: usize, start: usize, segs: &mut Vec<&'a str>)
    requires
        n == p@.len(),
        start <= n,
    ensures
        texts(final(segs)@) == texts(old(segs)@) + segments_from(p@, start as int),
    decreases n - start,
{
    let e = find_char(p, n, '/', start);
    let ghost before = segs@;
    segs.push(p.substring_char(start, e));
    assert(texts(segs@) =~= texts(before) + seq![p@.subrange(start as int, e as int)]);
    if e < n {
        push_segments(p, n, e + 1, segs);
        assert(texts(before) + seq![p@.subrange(start as int, e as int)] + segments_from(
            p@,
            e + 1,
        ) =~= texts(before) + (seq![p@.subrange(start as int, e as int)] + segments_from(
            p@,
            e + 1,
        )));
    }
}

/// Whether segment `k` is the text `t`.
fn segment_is(segs: &Vec<&str>, k: usize, t: &str) -> (b: bool)
    ensures
        b == (k < segs@.len() && segs@[k as int]@ == t@),
{
    k < segs.len() && text_eq(segs[k], t)
}

/// The identifier segment `k` names once percent-decoded.
fn decoded_segment_id(segs: &Vec<&str>, k: usize) -> (id: Option<u128>)
    requires
        k < segs@.len(),
    ensures
        id == decoded_id(segs@[k as int]@),
{
    let text = url_decode(segs[k]);
    read_uuid(text.as_str())
}

/// The endpoint a request's method and raw url name, if any.
pub fn route(method: &str, url: &str) -> (r: Option<Route>)
    ensures
        r == request_route(method@, url@),
{
    let len = url.unicode_len();
    let q = find_char(url, len, '?', 0);
    let path = url.substring_char(0, q);
    assert(path@ =~= path_of(url@));
    let n = path.unicode_len();
    if n == 0 || path.get_char(0) != '/' {
        return None;
    }
    let mut segs: Vec<&str> = Vec::new();
    push_segments(path, n, 1, &mut segs);
    assert(texts(segs@) =~= segments_from(path@, 1));
    route_in(method, &segs)
}

/// The endpoint a method and the segments of a path name, tried in order.
#[verifier::rlimit(50)]
fn route_in(method: &str, segs: &Vec<&str>) -> (r: Option<Route>)
    ensures
        r == route_of(method@, texts(segs@)),
{
    proof {
        reveal_strlit("GET");
        reveal_strlit("POST");
        reveal_strlit("DELETE");
        reveal_strlit("agents");
        reveal_strlit("aggregations");
        reveal_strlit("me");
        reveal_strlit("any");
        reveal_strlit("implied");
        reveal_strlit("keys");
        reveal_strlit("profile");
        reveal_strlit("committee");
        reveal_strlit("suggestions");
        reveal_strlit("status");
        reveal_strlit("snapshot");
        reveal_strlit("snapshots");
        reveal_strlit("jobs");
        reveal_strlit("participations");
        reveal_strlit("result");
        reveal_strlit("ping");
    }
    let ghost s = texts(segs@);
    let n = segs.len();
    assert(s.len() == n);
    assert(forall|k: int| 0 <= k < n ==> s[k] == segs@[k]@);
    let get = text_eq(method, "GET");
    let post = text_eq(method, "POST");
    if n < 2 || !segment_is(segs, 0, "v1") {
        return None;
    }
    let agents = segment_is(segs, 1, "agents");
    let aggregations = segment_is(segs, 1, "aggregations");
    if get && n == 2 && segment_is(segs, 1, "ping") {
        return Some(Route::Ping);
    }
    if n >= 3 && agents {
        let id2 = decoded_segment_id(segs, 2);
        if get && n == 3 && id2.is_some() {
            return Some(Route::GetAgent(AgentId(id2.unwrap())));
        }
        if post && n == 3 && segment_is(segs, 2, "me") {
            return Some(Route::CreateAgent);
        }
        if get && n == 4 && id2.is_some() && segment_is(segs, 3, "profile") {
            return Some(Route::GetProfile(AgentId(id2.unwrap())));
        }
        if post && n == 4 && segment_is(segs, 2, "me") && segment_is(segs, 3, "profile") {
            return Some(Route::UpsertProfile);
        }
        if get && n == 5 && segment_is(segs, 2, "any") && segment_is(segs, 3, "keys") {
            let id4 = decoded_segment_id(segs, 4);
            if id4.is_some() {
                return Some(Route::GetEncryptionKey(EncryptionKeyId(id4.unwrap())));
            }
        }
        if post && n == 4 && segment_is(segs, 2, "me") && segment_is(segs, 3, "keys") {
            return Some(Route::CreateEncryptionKey);
        }
        assert(s[1].len() != "aggregations"@.len());
        return None;
    }
    if n == 2 && aggregations {
        if post {
            return Some(Route::CreateAggregation);
        }
        if get {
            return Some(Route::ListAggregations);
        }
        return None;
    }
    if n >= 3 && aggregations {
        let id2 = decoded_segment_id(segs, 2);
        if get && n == 3 && id2.is_some() {
            return Some(Route::GetAggregation(AggregationId(id2.unwrap())));
        }
        if n == 3 && id2.is_some() && text_eq(method, "DELETE") {
            return Some(Route::DeleteAggregation(AggregationId(id2.unwrap())));
        }
        if get && n == 5 && id2.is_some() && segment_is(segs, 3, "committee") && segment_is(
            segs,
            4,
            "suggestions",
        ) {
            return Some(Route::SuggestCommittee(AggregationId(id2.unwrap())));
        }
        if post && n == 4 && segment_is(segs, 2, "implied") && segment_is(segs, 3, "committee") {
            return Some(Route::CreateCommittee);
        }
        if get && n == 4 && id2.is_some() && segment_is(segs, 3, "committee") {
            return Some(Route::GetCommittee(AggregationId(id2.unwrap())));
        }
        if post && n == 3 && segment_is(segs, 2, "participations") {
            return Some(Route::CreateParticipation);
        }
        if get && n == 4 && id2.is_some() && segment_is(segs, 3, "status") {
            return Some(Route::GetAggregationStatus(AggregationId(id2.unwrap())));
        }
        if post && n == 4 && segment_is(segs, 2, "implied") && segment_is(segs, 3, "snapshot") {
            return Some(Route::CreateSnapshot);
        }
        if get && n == 4 && segment_is(segs, 2, "any") && segment_is(segs, 3, "jobs") {
            return Some(Route::GetClerkingJob);
        }
        if n == 6 && segment_is(segs, 5, "result") {
            let raw4 = read_uuid(segs[4]);
            if post && segment_is(segs, 2, "implied") && segment_is(segs, 3, "jobs")
                && raw4.is_some() {
                return Some(Route::CreateClerkingResult(ClerkingJobId(raw4.unwrap())));
            }
            let raw2 = read_uuid(segs[2]);
            if get && raw2.is_some() && segment_is(segs, 3, "snapshots") && raw4.is_some() {
                return Some(
                    Route::GetSnapshotResult(
                        AggregationId(raw2.unwrap()),
                        SnapshotId(raw4.unwrap()),
                    ),
                );
            }
        }
        return None;
    }
    None
}

} // verus!
