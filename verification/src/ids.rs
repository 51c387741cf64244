//! Identifiers: 128-bit UUIDs, written as hyphenated hexadecimal text.
//!
//! Random generation, formatting and parsing go through the `uuid` crate.

use vstd::prelude::*;
use vstd::arithmetic::power2::pow2;

verus! {

/// The lower-case hexadecimal digit for `d` in `0..16`.
pub open spec fn hex_char(d: int) -> char {
    if d < 10 {
        (d + 48) as char
    } else {
        (d + 87) as char
    }
}

/// The `k`-th of the 32 hexadecimal digits of `u`, most significant first.
pub open spec fn nibble(u: u128, k: int) -> int {
    (u as int / pow2((4 * (31 - k)) as nat) as int) % 16
}

/// Which of the 32 digits the `i`-th character of the hyphenated text shows.
pub open spec fn digit_position(i: int) -> int {
    if i < 8 {
        i
    } else if i < 13 {
        i - 1
    } else if i < 18 {
        i - 2
    } else if i < 23 {
        i - 3
    } else {
        i - 4
    }
}

/// The hyphenated text of a UUID: groups of 8, 4, 4, 4 and 12 lower-case
/// hexadecimal digits separated by `-`.
pub open spec fn uuid_text(u: u128) -> Seq<char> {
    Seq::new(
        36,
        |i: int|
            if i == 8 || i == 13 || i == 18 || i == 23 {
                '-'
            } else {
                hex_char(nibble(u, digit_position(i)))
            },
    )
}

/// What `uuid::Uuid::parse_str` reads from `text`, if anything.
pub uninterp spec fn uuid_parsing(text: Seq<char>) -> Option<u128>;

/// The message of a refused identifier text.
pub open spec fn unparseable_uuid_message(text: Seq<char>) -> Seq<char> {
    "unparseable uuid "@ + text
}

/// A version 4 (random) UUID of the RFC 4122 variant: its 13th digit is 4
/// and its 17th digit is one of 8, 9, a and b.
pub open spec fn random_uuid(u: u128) -> bool {
    nibble(u, 12) == 4 && 8 <= nibble(u, 16) < 12
}

/// Calls `uuid::Uuid::new(UuidVersion::Random)` (a version 4 UUID drawn from
/// the thread's random generator) and reads its 16 bytes big-endian. The
/// crate fills the bytes at random, then sets the version bits of byte 6 to
/// 4 and the top bits of byte 8 to the RFC 4122 variant `10`; nothing more
/// is stated of the value.
#[verifier::external_body]
pub(crate) fn uuid_random() -> (u: u128)
    ensures
        random_uuid(u),
{
    let uuid = ::uuid::Uuid::new(::uuid::UuidVersion::Random).expect("No randomness source");
    u128::from_be_bytes(*uuid.as_bytes())
}

/// Calls `uuid::Uuid::hyphenated` on the UUID with the big-endian bytes of
/// `value` and renders it. The text is as the crate's `Display` impl writes
/// it; the crate documents that `parse_str` accepts every format it writes.
#[verifier::external_body]
pub(crate) fn uuid_hyphenated(value: u128) -> (text: String)
    ensures
        text@ == uuid_text(value),
        uuid_parsing(text@) == Some(value),
{
    ::uuid::Uuid::from_bytes(&value.to_be_bytes()).unwrap().hyphenated().to_string()
}

/// A hexadecimal digit, in either case.
pub open spec fn hex_digit(c: char) -> bool {
    ('0' <= c && c <= '9') || ('a' <= c && c <= 'f') || ('A' <= c && c <= 'F')
}

/// Every character of `s` from `lo` to `hi` is a hexadecimal digit.
pub open spec fn all_hex(s: Seq<char>, lo: int, hi: int) -> bool {
    forall|i: int| lo <= i < hi ==> hex_digit(#[trigger] s[i])
}

/// A layout whose first group of digits ends with `-` in place, and whose
/// digits then run past the 32 a UUID holds before the groups are done: 26
/// more digits, or 4 digits, `-` and 22 digits.
pub open spec fn overrunning_layout(t: Seq<char>) -> bool {
    &&& t.len() >= 35
    &&& all_hex(t, 0, 8)
    &&& t[8] == '-'
    &&& (all_hex(t, 9, 35) || (t.len() >= 36 && all_hex(t, 9, 13) && t[13] == '-' && all_hex(
        t,
        14,
        36,
    )))
}

/// The prefix of the URN form of a UUID.
pub open spec fn urn_prefix() -> Seq<char> {
    seq!['u', 'r', 'n', ':', 'u', 'u', 'i', 'd', ':']
}

/// A layout of 36 one-byte characters: `overrunning_layout`, whose first
/// 35 characters are ASCII, and an ASCII character last.
pub open spec fn overrunning_text(t: Seq<char>) -> bool {
    t.len() == 36 && overrunning_layout(t) && (t[35] as u32) < 128
}

/// The texts on which `uuid::Uuid::parse_str` panics: 36 bytes laid out as
/// `overrunning_text`, after the URN prefix where the text has 45 bytes and
/// starts with it.
pub open spec fn uuid_parse_panics(text: Seq<char>) -> bool {
    ||| overrunning_text(text)
    ||| (text.len() == 45 && text.take(9) == urn_prefix() && overrunning_text(text.skip(9)))
}

/// What reading `text` as a UUID gives: nothing where parsing it would
/// panic, else what `uuid::Uuid::parse_str` reads.
pub open spec fn uuid_read(text: Seq<char>) -> Option<u128> {
    if uuid_parse_panics(text) {
        None
    } else {
        uuid_parsing(text)
    }
}

/// Calls `uuid::Uuid::parse_str`, reading the parsed bytes big-endian. The
/// result is named `uuid_parsing`. On the texts of `uuid_parse_panics` the
/// crate indexes past its 16-byte buffer or its table of group lengths and
/// panics; they are left out.
#[verifier::external_body]
pub(crate) fn uuid_parse(text: &str) -> (res: Option<u128>)
    requires
        !uuid_parse_panics(text@),
    ensures
        res == uuid_parsing(text@),
{
    match ::uuid::Uuid::parse_str(text) {
        Ok(uuid) => Some(u128::from_be_bytes(*uuid.as_bytes())),
        Err(_) => None,
    }
}

/// Whether the characters of `s` from `lo` to `hi` are hexadecimal digits.
fn hex_run(s: &str, lo: usize, hi: usize) -> (b: bool)
    requires
        lo <= hi <= s@.len(),
    ensures
        b == all_hex(s@, lo as int, hi as int),
    decreases hi - lo,
{
    if lo == hi {
        true
    } else {
        let c = s.get_char(lo);
        let first = ('0' <= c && c <= '9') || ('a' <= c && c <= 'f') || ('A' <= c && c <= 'F');
        first && hex_run(s, lo + 1, hi)
    }
}

/// Whether `t` is laid out as `overrunning_layout`.
fn overruns(t: &str) -> (b: bool)
    ensures
        b == overrunning_layout(t@),
{
    let n = t.unicode_len();
    if n < 35 || !hex_run(t, 0, 8) || t.get_char(8) != '-' {
        return false;
    }
    if hex_run(t, 9, 35) {
        return true;
    }
    n >= 36 && hex_run(t, 9, 13) && t.get_char(13) == '-' && hex_run(t, 14, 36)
}

/// Whether `t` is laid out as `overrunning_text`.
fn overrunning(t: &str) -> (b: bool)
    ensures
        b == overrunning_text(t@),
{
    t.unicode_len() == 36 && overruns(t) && (t.get_char(35) as u32) < 128
}

/// Whether `uuid::Uuid::parse_str` would panic on `text`.
fn parse_panics(text: &str) -> (b: bool)
    ensures
        b == uuid_parse_panics(text@),
{
    if overrunning(text) {
        return true;
    }
    let n = text.unicode_len();
    if n != 45 {
        return false;
    }
    let prefixed = text.get_char(0) == 'u' && text.get_char(1) == 'r' && text.get_char(2) == 'n'
        && text.get_char(3) == ':' && text.get_char(4) == 'u' && text.get_char(5) == 'u'
        && text.get_char(6) == 'i' && text.get_char(7) == 'd' && text.get_char(8) == ':';
    assert(prefixed == (text@.take(9) == urn_prefix())) by {
        if text@.take(9) == urn_prefix() {
            assert(text@.take(9)[0] == 'u' && text@.take(9)[1] == 'r' && text@.take(9)[2] == 'n'
                && text@.take(9)[3] == ':' && text@.take(9)[4] == 'u' && text@.take(9)[5] == 'u'
                && text@.take(9)[6] == 'i' && text@.take(9)[7] == 'd' && text@.take(9)[8] == ':');
        }
        if prefixed {
            assert(text@.take(9) =~= urn_prefix());
        }
    }
    if !prefixed {
        return false;
    }
    let rest = text.substring_char(9, n);
    assert(rest@ =~= text@.skip(9));
    overrunning(rest)
}

/// Reads a UUID from `text`, refusing the texts on which parsing would
/// panic.
pub(crate) fn read_uuid(text: &str) -> (res: Option<u128>)
    ensures
        res == uuid_read(text@),
{
    if parse_panics(text) {
        None
    } else {
        uuid_parse(text)
    }
}

/// The hyphenated text of a UUID is no text on which parsing panics.
pub proof fn lemma_hyphenated_parses(u: u128)
    ensures
        !uuid_parse_panics(uuid_text(u)),
        uuid_read(uuid_text(u)) == uuid_parsing(uuid_text(u)),
{
    let t = uuid_text(u);
    assert(t[8] == '-');
    assert(t[13] == '-');
    assert(t[18] == '-');
    assert(!hex_digit(t[13]));
    assert(!hex_digit(t[18]));
    if t.len() >= 9 {
        assert(t.take(9)[8] == '-');
        assert(urn_prefix()[8] == ':');
    }
}

/// Parses identifier text, with the message of the refusal.
fn parse_uuid_text(text: &str) -> (res: Result<u128, String>)
    ensures
        match uuid_read(text@) {
            Some(u) => res == Ok::<u128, String>(u),
            None => res matches Err(msg) && msg@ == unparseable_uuid_message(text@),
        },
{
    match read_uuid(text) {
        Some(u) => Ok(u),
        None => {
            let mut msg = String::from_str("unparseable uuid ");
            msg.append(text);
            Err(msg)
        },
    }
}

/// Unique verification key identifier.
#[derive(Clone, Copy, Debug, Hash, PartialEq, Eq, Structural)]
pub struct VerificationKeyId(pub u128);

impl VerificationKeyId {
    /// A fresh random identifier: a version 4 UUID.
    pub fn random() -> (id: VerificationKeyId)
        ensures
            random_uuid(id.0),
    {
        VerificationKeyId(uuid_random())
    }

    /// The hyphenated text; parsing it gives the identifier back.
    pub fn to_string(&self) -> (text: String)
        ensures
            text@ == uuid_text(self.0),
            uuid_read(text@) == Some(self.0),
    {
        proof {
            lemma_hyphenated_parses(self.0);
        }
        uuid_hyphenated(self.0)
    }

    /// Reads an identifier from its text.
    pub fn from_str(text: &str) -> (res: Result<VerificationKeyId, String>)
        ensures
            match uuid_read(text@) {
                Some(u) => res == Ok::<VerificationKeyId, String>(VerificationKeyId(u)),
                None => res matches Err(msg) && msg@ == unparseable_uuid_message(text@),
            },
    {
        match parse_uuid_text(text) {
            Ok(u) => Ok(VerificationKeyId(u)),
            Err(msg) => Err(msg),
        }
    }
}

impl Default for VerificationKeyId {
    /// A fresh random identifier.
    fn default() -> VerificationKeyId {
        VerificationKeyId::random()
    }
}

/// Unique agent identifier.
#[derive(Clone, Copy, Debug, Hash, PartialEq, Eq, Structural)]
pub struct AgentId(pub u128);

impl AgentId {
    /// A fresh random identifier: a version 4 UUID.
    pub fn random() -> (id: AgentId)
        ensures
            random_uuid(id.0),
    {
        AgentId(uuid_random())
    }

    /// The hyphenated text; parsing it gives the identifier back.
    pub fn to_string(&self) -> (text: String)
        ensures
            text@ == uuid_text(self.0),
            uuid_read(text@) == Some(self.0),
    {
        proof {
            lemma_hyphenated_parses(self.0);
        }
        uuid_hyphenated(self.0)
    }

    /// Reads an identifier from its text.
    pub fn from_str(text: &str) -> (res: Result<AgentId, String>)
        ensures
            match uuid_read(text@) {
                Some(u) => res == Ok::<AgentId, String>(AgentId(u)),
                None => res matches Err(msg) && msg@ == unparseable_uuid_message(text@),
            },
    {
        match parse_uuid_text(text) {
            Ok(u) => Ok(AgentId(u)),
            Err(msg) => Err(msg),
        }
    }
}

impl Default for AgentId {
    /// A fresh random identifier.
    fn default() -> AgentId {
        AgentId::random()
    }
}

/// Unique encryption key identifier.
#[derive(Clone, Copy, Debug, Hash, PartialEq, Eq, Structural)]
pub struct EncryptionKeyId(pub u128);

impl EncryptionKeyId {
    /// A fresh random identifier: a version 4 UUID.
    pub fn random() -> (id: EncryptionKeyId)
        ensures
            random_uuid(id.0),
    {
        EncryptionKeyId(uuid_random())
    }

    /// The hyphenated text; parsing it gives the identifier back.
    pub fn to_string(&self) -> (text: String)
        ensures
            text@ == uuid_text(self.0),
            uuid_read(text@) == Some(self.0),
    {
        proof {
            lemma_hyphenated_parses(self.0);
        }
        uuid_hyphenated(self.0)
    }

    /// Reads an identifier from its text.
    pub fn from_str(text: &str) -> (res: Result<EncryptionKeyId, String>)
        ensures
            match uuid_read(text@) {
                Some(u) => res == Ok::<EncryptionKeyId, String>(EncryptionKeyId(u)),
                None => res matches Err(msg) && msg@ == unparseable_uuid_message(text@),
            },
    {
        match parse_uuid_text(text) {
            Ok(u) => Ok(EncryptionKeyId(u)),
            Err(msg) => Err(msg),
        }
    }
}

impl Default for EncryptionKeyId {
    /// A fresh random identifier.
    fn default() -> EncryptionKeyId {
        EncryptionKeyId::random()
    }
}

/// Unique aggregation identifier.
#[derive(Clone, Copy, Debug, Hash, PartialEq, Eq, Structural)]
pub struct AggregationId(pub u128);

impl AggregationId {
    /// A fresh random identifier: a version 4 UUID.
    pub fn random() -> (id: AggregationId)
        ensures
            random_uuid(id.0),
    {
        AggregationId(uuid_random())
    }

    /// The hyphenated text; parsing it gives the identifier back.
    pub fn to_string(&self) -> (text: String)
        ensures
            text@ == uuid_text(self.0),
            uuid_read(text@) == Some(self.0),
    {
        proof {
            lemma_hyphenated_parses(self.0);
        }
        uuid_hyphenated(self.0)
    }

    /// Reads an identifier from its text.
    pub fn from_str(text: &str) -> (res: Result<AggregationId, String>)
        ensures
            match uuid_read(text@) {
                Some(u) => res == Ok::<AggregationId, String>(AggregationId(u)),
                None => res matches Err(msg) && msg@ == unparseable_uuid_message(text@),
            },
    {
        match parse_uuid_text(text) {
            Ok(u) => Ok(AggregationId(u)),
            Err(msg) => Err(msg),
        }
    }
}

impl Default for AggregationId {
    /// A fresh random identifier.
    fn default() -> AggregationId {
        AggregationId::random()
    }
}

/// Unique participation identifier.
#[derive(Clone, Copy, Debug, Hash, PartialEq, Eq, Structural)]
pub struct ParticipationId(pub u128);

impl ParticipationId {
    /// A fresh random identifier: a version 4 UUID.
    pub fn random() -> (id: ParticipationId)
        ensures
            random_uuid(id.0),
    {
        ParticipationId(uuid_random())
    }

    /// The hyphenated text; parsing it gives the identifier back.
    pub fn to_string(&self) -> (text: String)
        ensures
            text@ == uuid_text(self.0),
            uuid_read(text@) == Some(self.0),
    {
        proof {
            lemma_hyphenated_parses(self.0);
        }
        uuid_hyphenated(self.0)
    }

    /// Reads an identifier from its text.
    pub fn from_str(text: &str) -> (res: Result<ParticipationId, String>)
        ensures
            match uuid_read(text@) {
                Some(u) => res == Ok::<ParticipationId, String>(ParticipationId(u)),
                None => res matches Err(msg) && msg@ == unparseable_uuid_message(text@),
            },
    {
        match parse_uuid_text(text) {
            Ok(u) => Ok(ParticipationId(u)),
            Err(msg) => Err(msg),
        }
    }
}

impl Default for ParticipationId {
    /// A fresh random identifier.
    fn default() -> ParticipationId {
        ParticipationId::random()
    }
}

/// Unique snapshot identifier.
#[derive(Clone, Copy, Debug, Hash, PartialEq, Eq, Structural)]
pub struct SnapshotId(pub u128);

impl SnapshotId {
    /// A fresh random identifier: a version 4 UUID.
    pub fn random() -> (id: SnapshotId)
        ensures
            random_uuid(id.0),
    {
        SnapshotId(uuid_random())
    }

    /// The hyphenated text; parsing it gives the identifier back.
    pub fn to_string(&self) -> (text: String)
        ensures
            text@ == uuid_text(self.0),
            uuid_read(text@) == Some(self.0),
    {
        proof {
            lemma_hyphenated_parses(self.0);
        }
        uuid_hyphenated(self.0)
    }

    /// Reads an identifier from its text.
    pub fn from_str(text: &str) -> (res: Result<SnapshotId, String>)
        ensures
            match uuid_read(text@) {
                Some(u) => res == Ok::<SnapshotId, String>(SnapshotId(u)),
                None => res matches Err(msg) && msg@ == unparseable_uuid_message(text@),
            },
    {
        match parse_uuid_text(text) {
            Ok(u) => Ok(SnapshotId(u)),
            Err(msg) => Err(msg),
        }
    }
}

impl Default for SnapshotId {
    /// A fresh random identifier.
    fn default() -> SnapshotId {
        SnapshotId::random()
    }
}

/// Unique job identifier.
#[derive(Clone, Copy, Debug, Hash, PartialEq, Eq, Structural)]
pub struct ClerkingJobId(pub u128);

impl ClerkingJobId {
    /// A fresh random identifier: a version 4 UUID.
    pub fn random() -> (id: ClerkingJobId)
        ensures
            random_uuid(id.0),
    {
        ClerkingJobId(uuid_random())
    }

    /// The hyphenated text; parsing it gives the identifier back.
    pub fn to_string(&self) -> (text: String)
        ensures
            text@ == uuid_text(self.0),
            uuid_read(text@) == Some(self.0),
    {
        proof {
            lemma_hyphenated_parses(self.0);
        }
        uuid_hyphenated(self.0)
    }

    /// Reads an identifier from its text.
    pub fn from_str(text: &str) -> (res: Result<ClerkingJobId, String>)
        ensures
            match uuid_read(text@) {
                Some(u) => res == Ok::<ClerkingJobId, String>(ClerkingJobId(u)),
                None => res matches Err(msg) && msg@ == unparseable_uuid_message(text@),
            },
    {
        match parse_uuid_text(text) {
            Ok(u) => Ok(ClerkingJobId(u)),
            Err(msg) => Err(msg),
        }
    }
}

impl Default for ClerkingJobId {
    /// A fresh random identifier.
    fn default() -> ClerkingJobId {
        ClerkingJobId::random()
    }
}

} // verus!
