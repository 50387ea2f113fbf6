//! Identifiers of assets, clips, tracks and projects.
//!
//! Every identifier is a 128-bit UUID value. New identifiers are random
//! (version 4) UUIDs from the `uuid` crate, which also reads and writes the
//! textual form.

use vstd::prelude::*;

verus! {

/// The lowercase hexadecimal digit for `d < 16`.
pub open spec fn hex_char(d: nat) -> char {
    if d < 10 { ((d + 48) as u8) as char } else { ((d + 87) as u8) as char }
}

/// `16^k`.
pub open spec fn pow16(k: nat) -> nat
    decreases k,
{
    if k == 0 { 1 } else { 16 * pow16((k - 1) as nat) }
}

/// The 32 lowercase hexadecimal digits of a 128-bit value, most significant first.
pub open spec fn hex32(v: nat) -> Seq<char> {
    Seq::new(32, |i: int| hex_char((v / pow16((31 - i) as nat)) % 16))
}

/// The hyphenated text of a UUID (`xxxxxxxx-xxxx-xxxx-xxxx-xxxxxxxxxxxx`), as its
/// `Display` writes it.
pub open spec fn uuid_text(v: u128) -> Seq<char> {
    let h = hex32(v as nat);
    h.subrange(0, 8) + seq!['-'] + h.subrange(8, 12) + seq!['-'] + h.subrange(12, 16) + seq!['-']
        + h.subrange(16, 20) + seq!['-'] + h.subrange(20, 32)
}

/// What `uuid::Uuid::parse_str` gives for a text: the 128-bit value it reads, or
/// nothing when it refuses the text.
pub uninterp spec fn uuid_parse(s: Seq<char>) -> Option<u128>;

/// The text of the error `uuid::Uuid::parse_str` gives for a text it refuses (the
/// error's `Display`).
pub uninterp spec fn uuid_error_text(s: Seq<char>) -> Seq<char>;

/// Calls `uuid::Uuid::new_v4` and returns the value as a `u128`.
/// The value is random; what holds of every outcome is that the version nibble is 4
/// and the variant bits are `10`, which `new_v4` sets by masking.
#[verifier::external_body]
fn random_uuid_value() -> (v: u128)
    ensures
        v & 0xF000_C000_0000_0000_0000u128 == 0x4000_8000_0000_0000_0000u128,
{
    uuid::Uuid::new_v4().as_u128()
}

/// Calls `uuid::Uuid::parse_str` and returns the value as a `u128`, or the `Display`
/// text of the error. The contract claims only that the outcome is the one
/// `uuid_parse` names for the text, and that the error text is the one
/// `uuid_error_text` names.
#[verifier::external_body]
pub(crate) fn parse_uuid_text(s: &str) -> (r: Result<u128, String>)
    ensures
        r is Ok <==> uuid_parse(s@) is Some,
        r matches Ok(v) ==> uuid_parse(s@) == Some(v),
        r matches Err(m) ==> m@ == uuid_error_text(s@),
{
    uuid::Uuid::parse_str(s).map(|u| u.as_u128()).map_err(|e| e.to_string())
}

/// Calls the `Display` of `uuid::Uuid::from_u128(v)`. The contract claims the hyphenated
/// lowercase text, and that `uuid::Uuid::parse_str` reads that text back as `v`.
#[verifier::external_body]
fn uuid_value_text(v: u128) -> (s: String)
    ensures
        s@ == uuid_text(v),
        uuid_parse(s@) == Some(v),
{
    uuid::Uuid::from_u128(v).to_string()
}

/// The error of reading an identifier from text that is not a UUID.
#[derive(Debug, Clone, Copy, PartialEq, Eq, Structural)]
pub struct IdParseError;

/// Reads a UUID value from text.
pub fn parse_id_value(s: &str) -> (r: Result<u128, IdParseError>)
    ensures
        r is Ok <==> uuid_parse(s@) is Some,
        r matches Ok(v) ==> uuid_parse(s@) == Some(v),
{
    match parse_uuid_text(s) {
        Ok(v) => Ok(v),
        Err(_) => Err(IdParseError),
    }
}

/// Identifier of an asset (a media file used by a project).
#[derive(Debug, Clone, Copy, PartialEq, Eq, Structural, Hash)]
pub struct AssetId {
    value: u128,
}

impl AssetId {
    /// Creates a new random identifier.
    pub fn new() -> (id: Self)
        ensures
            id.value() & 0xF000_C000_0000_0000_0000u128 == 0x4000_8000_0000_0000_0000u128,
    {
        AssetId { value: random_uuid_value() }
    }

    /// The identifier holding the UUID value `value`.
    pub fn from_u128(value: u128) -> (id: Self)
        ensures
            id.value() == value,
    {
        AssetId { value }
    }

    /// The UUID value of the identifier.
    pub closed spec fn value(&self) -> u128 {
        self.value
    }

    /// The identifier holding the UUID value `v`.
    pub closed spec fn with_value(v: u128) -> AssetId {
        AssetId { value: v }
    }

    /// `with_value` builds the identifier with the given value, and an identifier
    /// is determined by its value.
    pub proof fn lemma_with_value(v: u128, id: AssetId)
        ensures
            AssetId::with_value(v).value() == v,
            id.value() == v ==> id == AssetId::with_value(v),
    {
    }

    /// The UUID value of the identifier.
    pub fn as_u128(&self) -> (v: u128)
        ensures
            v == self.value(),
    {
        self.value
    }

    /// Reads an identifier from its UUID text.
    pub fn parse_str(s: &str) -> (r: Result<Self, IdParseError>)
        ensures
            r is Ok <==> uuid_parse(s@) is Some,
            r matches Ok(id) ==> uuid_parse(s@) == Some(id.value()),
    {
        match parse_id_value(s) {
            Ok(v) => Ok(AssetId { value: v }),
            Err(e) => Err(e),
        }
    }

    /// The hyphenated UUID text of the identifier.
    pub fn to_string(&self) -> (s: String)
        ensures
            s@ == uuid_text(self.value()),
            uuid_parse(s@) == Some(self.value()),
    {
        uuid_value_text(self.value)
    }
}

/// Identifier of a clip on a timeline.
#[derive(Debug, Clone, Copy, PartialEq, Eq, Structural, Hash)]
pub struct ClipId {
    value: u128,
}

impl ClipId {
    /// Creates a new random identifier.
    pub fn new() -> (id: Self)
        ensures
            id.value() & 0xF000_C000_0000_0000_0000u128 == 0x4000_8000_0000_0000_0000u128,
    {
        ClipId { value: random_uuid_value() }
    }

    /// The identifier holding the UUID value `value`.
    pub fn from_u128(value: u128) -> (id: Self)
        ensures
            id.value() == value,
    {
        ClipId { value }
    }

    /// The UUID value of the identifier.
    pub closed spec fn value(&self) -> u128 {
        self.value
    }

    /// The identifier holding the UUID value `v`.
    pub closed spec fn with_value(v: u128) -> ClipId {
        ClipId { value: v }
    }

    /// `with_value` builds the identifier with the given value, and an identifier
    /// is determined by its value.
    pub proof fn lemma_with_value(v: u128, id: ClipId)
        ensures
            ClipId::with_value(v).value() == v,
            id.value() == v ==> id == ClipId::with_value(v),
    {
    }

    /// The UUID value of the identifier.
    pub fn as_u128(&self) -> (v: u128)
        ensures
            v == self.value(),
    {
        self.value
    }

    /// Reads an identifier from its UUID text.
    pub fn parse_str(s: &str) -> (r: Result<Self, IdParseError>)
        ensures
            r is Ok <==> uuid_parse(s@) is Some,
            r matches Ok(id) ==> uuid_parse(s@) == Some(id.value()),
    {
        match parse_id_value(s) {
            Ok(v) => Ok(ClipId { value: v }),
            Err(e) => Err(e),
        }
    }

    /// The hyphenated UUID text of the identifier.
    pub fn to_string(&self) -> (s: String)
        ensures
            s@ == uuid_text(self.value()),
            uuid_parse(s@) == Some(self.value()),
    {
        uuid_value_text(self.value)
    }
}

/// Identifier of a project.
#[derive(Debug, Clone, Copy, PartialEq, Eq, Structural, Hash)]
pub struct ProjectId {
    value: u128,
}

impl ProjectId {
    /// Creates a new random identifier.
    pub fn new() -> (id: Self)
        ensures
            id.value() & 0xF000_C000_0000_0000_0000u128 == 0x4000_8000_0000_0000_0000u128,
    {
        ProjectId { value: random_uuid_value() }
    }

    /// The identifier holding the UUID value `value`.
    pub fn from_u128(value: u128) -> (id: Self)
        ensures
            id.value() == value,
    {
        ProjectId { value }
    }

    /// The UUID value of the identifier.
    pub closed spec fn value(&self) -> u128 {
        self.value
    }

    /// The UUID value of the identifier.
    pub fn as_u128(&self) -> (v: u128)
        ensures
            v == self.value(),
    {
        self.value
    }

    /// Reads a project identifier from its UUID text.
    pub fn from_string(s: &str) -> (r: Result<Self, IdParseError>)
        ensures
            r is Ok <==> uuid_parse(s@) is Some,
            r matches Ok(id) ==> uuid_parse(s@) == Some(id.value()),
    {
        match parse_id_value(s) {
            Ok(v) => Ok(ProjectId { value: v }),
            Err(e) => Err(e),
        }
    }

    /// The hyphenated UUID text of the identifier.
    pub fn to_string(&self) -> (s: String)
        ensures
            s@ == uuid_text(self.value()),
            uuid_parse(s@) == Some(self.value()),
    {
        uuid_value_text(self.value)
    }
}

/// Identifier of a track on a timeline.
#[derive(Debug, Clone, Copy, PartialEq, Eq, Structural, Hash)]
pub struct TrackId {
    value: u128,
}

impl TrackId {
    /// Creates a new random identifier.
    pub fn new() -> (id: Self)
        ensures
            id.value() & 0xF000_C000_0000_0000_0000u128 == 0x4000_8000_0000_0000_0000u128,
    {
        TrackId { value: random_uuid_value() }
    }

    /// The identifier holding the UUID value `value`.
    pub fn from_u128(value: u128) -> (id: Self)
        ensures
            id.value() == value,
    {
        TrackId { value }
    }

    /// The UUID value of the identifier.
    pub closed spec fn value(&self) -> u128 {
        self.value
    }

    /// The UUID value of the identifier.
    pub fn as_u128(&self) -> (v: u128)
        ensures
            v == self.value(),
    {
        self.value
    }

    /// Reads an identifier from its UUID text.
    pub fn parse_str(s: &str) -> (r: Result<Self, IdParseError>)
        ensures
            r is Ok <==> uuid_parse(s@) is Some,
            r matches Ok(id) ==> uuid_parse(s@) == Some(id.value()),
    {
        match parse_id_value(s) {
            Ok(v) => Ok(TrackId { value: v }),
            Err(e) => Err(e),
        }
    }

    /// The hyphenated UUID text of the identifier.
    pub fn to_string(&self) -> (s: String)
        ensures
            s@ == uuid_text(self.value()),
            uuid_parse(s@) == Some(self.value()),
    {
        uuid_value_text(self.value)
    }
}

} // verus!
