//! Identifiers used throughout the protocol and the coverage data.
//!
//! Each identifier wraps a `String`. Identifiers of positions, profiles,
//! stations and flight information regions are case-insensitive: building one
//! with `from` upper-cases its ASCII letters. Client identifiers (VATSIM CIDs)
//! are kept as given.
use crate::text::{ascii_upper, str_to_ascii_uppercase};
use vstd::prelude::*;
use vstd::utf8::encode_utf8;

verus! {

/// Unique identifier for a VATSIM client (CID).
#[derive(Debug, Hash, PartialOrd, Ord, Default)]
pub struct ClientId(String);

impl View for ClientId {
    type V = Seq<char>;

    closed spec fn view(&self) -> Seq<char> {
        self.0@
    }
}

impl PartialEq for ClientId {
    fn eq(&self, other: &Self) -> (r: bool) {
        self.0 == other.0
    }
}

impl Eq for ClientId {}

impl vstd::std_specs::cmp::PartialEqSpecImpl for ClientId {
    open spec fn obeys_eq_spec() -> bool {
        true
    }

    open spec fn eq_spec(&self, other: &Self) -> bool {
        self@ == other@
    }
}

impl Clone for ClientId {
    fn clone(&self) -> (r: Self)
        ensures
            r@ == self@,
    {
        ClientId(self.0.clone())
    }
}

impl ClientId {
    /// Builds an identifier holding `id` exactly as given.
    pub fn new(id: &str) -> (r: Self)
        ensures
            r@ == id@,
    {
        ClientId(id.to_owned())
    }

    /// Builds an identifier holding `id` exactly as given.
    pub fn from(id: &str) -> (r: Self)
        ensures
            r@ == id@,
    {
        ClientId(id.to_owned())
    }

    /// Builds an identifier holding the owned string `id` as given.
    pub fn from_string(id: String) -> (r: Self)
        ensures
            r@ == id@,
    {
        ClientId(id)
    }

    /// The UTF-8 bytes of the identifier.
    pub fn as_bytes(&self) -> (r: &[u8])
        ensures
            r@ == encode_utf8(self@),
    {
        self.0.as_str().as_bytes()
    }

    /// The identifier as text.
    pub fn as_str(&self) -> (r: &str)
        ensures
            r@ == self@,
    {
        self.0.as_str()
    }

    /// Whether the identifier is the empty string.
    pub fn is_empty(&self) -> (r: bool)
        ensures
            r == (self@.len() == 0),
    {
        self.0.as_str().is_empty()
    }

    /// The identifier as an owned string, as its `Display` form shows it.
    pub fn to_string(&self) -> (r: String)
        ensures
            r@ == self@,
    {
        self.0.clone()
    }
}

/// Unique identifier for a VATSIM position.
#[derive(Debug, Hash, PartialOrd, Ord, Default)]
pub struct PositionId(String);

impl View for PositionId {
    type V = Seq<char>;

    closed spec fn view(&self) -> Seq<char> {
        self.0@
    }
}

impl PartialEq for PositionId {
    fn eq(&self, other: &Self) -> (r: bool) {
        self.0 == other.0
    }
}

impl Eq for PositionId {}

impl vstd::std_specs::cmp::PartialEqSpecImpl for PositionId {
    open spec fn obeys_eq_spec() -> bool {
        true
    }

    open spec fn eq_spec(&self, other: &Self) -> bool {
        self@ == other@
    }
}

impl Clone for PositionId {
    fn clone(&self) -> (r: Self)
        ensures
            r@ == self@,
    {
        PositionId(self.0.clone())
    }
}

impl PositionId {
    /// Builds an identifier holding `id` exactly as given.
    pub fn new(id: &str) -> (r: Self)
        ensures
            r@ == id@,
    {
        PositionId(id.to_owned())
    }

    /// Builds an identifier from `id`, with its ASCII letters upper-cased.
    pub fn from(id: &str) -> (r: Self)
        ensures
            r@ == ascii_upper(id@),
    {
        PositionId(str_to_ascii_uppercase(id))
    }

    /// Builds an identifier from the owned string `id`, with its ASCII letters upper-cased.
    pub fn from_string(id: String) -> (r: Self)
        ensures
            r@ == ascii_upper(id@),
    {
        PositionId(str_to_ascii_uppercase(id.as_str()))
    }

    /// The UTF-8 bytes of the identifier.
    pub fn as_bytes(&self) -> (r: &[u8])
        ensures
            r@ == encode_utf8(self@),
    {
        self.0.as_str().as_bytes()
    }

    /// The identifier as text.
    pub fn as_str(&self) -> (r: &str)
        ensures
            r@ == self@,
    {
        self.0.as_str()
    }

    /// Whether the identifier is the empty string.
    pub fn is_empty(&self) -> (r: bool)
        ensures
            r == (self@.len() == 0),
    {
        self.0.as_str().is_empty()
    }

    /// The identifier as an owned string, as its `Display` form shows it.
    pub fn to_string(&self) -> (r: String)
        ensures
            r@ == self@,
    {
        self.0.clone()
    }
}

/// Unique identifier for a vacs profile.
#[derive(Debug, Hash, PartialOrd, Ord, Default)]
pub struct ProfileId(String);

impl View for ProfileId {
    type V = Seq<char>;

    closed spec fn view(&self) -> Seq<char> {
        self.0@
    }
}

impl PartialEq for ProfileId {
    fn eq(&self, other: &Self) -> (r: bool) {
        self.0 == other.0
    }
}

impl Eq for ProfileId {}

impl vstd::std_specs::cmp::PartialEqSpecImpl for ProfileId {
    open spec fn obeys_eq_spec() -> bool {
        true
    }

    open spec fn eq_spec(&self, other: &Self) -> bool {
        self@ == other@
    }
}

impl Clone for ProfileId {
    fn clone(&self) -> (r: Self)
        ensures
            r@ == self@,
    {
        ProfileId(self.0.clone())
    }
}

impl ProfileId {
    /// Builds an identifier holding `id` exactly as given.
    pub fn new(id: &str) -> (r: Self)
        ensures
            r@ == id@,
    {
        ProfileId(id.to_owned())
    }

    /// Builds an identifier from `id`, with its ASCII letters upper-cased.
    pub fn from(id: &str) -> (r: Self)
        ensures
            r@ == ascii_upper(id@),
    {
        ProfileId(str_to_ascii_uppercase(id))
    }

    /// Builds an identifier from the owned string `id`, with its ASCII letters upper-cased.
    pub fn from_string(id: String) -> (r: Self)
        ensures
            r@ == ascii_upper(id@),
    {
        ProfileId(str_to_ascii_uppercase(id.as_str()))
    }

    /// The UTF-8 bytes of the identifier.
    pub fn as_bytes(&self) -> (r: &[u8])
        ensures
            r@ == encode_utf8(self@),
    {
        self.0.as_str().as_bytes()
    }

    /// The identifier as text.
    pub fn as_str(&self) -> (r: &str)
        ensures
            r@ == self@,
    {
        self.0.as_str()
    }

    /// Whether the identifier is the empty string.
    pub fn is_empty(&self) -> (r: bool)
        ensures
            r == (self@.len() == 0),
    {
        self.0.as_str().is_empty()
    }

    /// The identifier as an owned string, as its `Display` form shows it.
    pub fn to_string(&self) -> (r: String)
        ensures
            r@ == self@,
    {
        self.0.clone()
    }
}

/// Unique identifier for a VATSIM station.
#[derive(Debug, Hash, PartialOrd, Ord, Default)]
pub struct StationId(String);

impl View for StationId {
    type V = Seq<char>;

    closed spec fn view(&self) -> Seq<char> {
        self.0@
    }
}

impl PartialEq for StationId {
    fn eq(&self, other: &Self) -> (r: bool) {
        self.0 == other.0
    }
}

impl Eq for StationId {}

impl vstd::std_specs::cmp::PartialEqSpecImpl for StationId {
    open spec fn obeys_eq_spec() -> bool {
        true
    }

    open spec fn eq_spec(&self, other: &Self) -> bool {
        self@ == other@
    }
}

impl Clone for StationId {
    fn clone(&self) -> (r: Self)
        ensures
            r@ == self@,
    {
        StationId(self.0.clone())
    }
}

impl StationId {
    /// Builds an identifier holding `id` exactly as given.
    pub fn new(id: &str) -> (r: Self)
        ensures
            r@ == id@,
    {
        StationId(id.to_owned())
    }

    /// Builds an identifier from `id`, with its ASCII letters upper-cased.
    pub fn from(id: &str) -> (r: Self)
        ensures
            r@ == ascii_upper(id@),
    {
        StationId(str_to_ascii_uppercase(id))
    }

    /// Builds an identifier from the owned string `id`, with its ASCII letters upper-cased.
    pub fn from_string(id: String) -> (r: Self)
        ensures
            r@ == ascii_upper(id@),
    {
        StationId(str_to_ascii_uppercase(id.as_str()))
    }

    /// The UTF-8 bytes of the identifier.
    pub fn as_bytes(&self) -> (r: &[u8])
        ensures
            r@ == encode_utf8(self@),
    {
        self.0.as_str().as_bytes()
    }

    /// The identifier as text.
    pub fn as_str(&self) -> (r: &str)
        ensures
            r@ == self@,
    {
        self.0.as_str()
    }

    /// Whether the identifier is the empty string.
    pub fn is_empty(&self) -> (r: bool)
        ensures
            r == (self@.len() == 0),
    {
        self.0.as_str().is_empty()
    }

    /// The identifier as an owned string, as its `Display` form shows it.
    pub fn to_string(&self) -> (r: String)
        ensures
            r@ == self@,
    {
        self.0.clone()
    }
}

/// Unique identifier for a flight information region (FIR).
#[derive(Debug, Hash, PartialOrd, Ord, Default)]
pub struct FlightInformationRegionId(String);

impl View for FlightInformationRegionId {
    type V = Seq<char>;

    closed spec fn view(&self) -> Seq<char> {
        self.0@
    }
}

impl PartialEq for FlightInformationRegionId {
    fn eq(&self, other: &Self) -> (r: bool) {
        self.0 == other.0
    }
}

impl Eq for FlightInformationRegionId {}

impl vstd::std_specs::cmp::PartialEqSpecImpl for FlightInformationRegionId {
    open spec fn obeys_eq_spec() -> bool {
        true
    }

    open spec fn eq_spec(&self, other: &Self) -> bool {
        self@ == other@
    }
}

impl Clone for FlightInformationRegionId {
    fn clone(&self) -> (r: Self)
        ensures
            r@ == self@,
    {
        FlightInformationRegionId(self.0.clone())
    }
}

impl FlightInformationRegionId {

    /// Builds an identifier from `id`, with its ASCII letters upper-cased.
    pub fn from(id: &str) -> (r: Self)
        ensures
            r@ == ascii_upper(id@),
    {
        FlightInformationRegionId(str_to_ascii_uppercase(id))
    }

    /// Builds an identifier from the owned string `id`, with its ASCII letters upper-cased.
    pub fn from_string(id: String) -> (r: Self)
        ensures
            r@ == ascii_upper(id@),
    {
        FlightInformationRegionId(str_to_ascii_uppercase(id.as_str()))
    }

    /// The UTF-8 bytes of the identifier.
    pub fn as_bytes(&self) -> (r: &[u8])
        ensures
            r@ == encode_utf8(self@),
    {
        self.0.as_str().as_bytes()
    }

    /// The identifier as text.
    pub fn as_str(&self) -> (r: &str)
        ensures
            r@ == self@,
    {
        self.0.as_str()
    }

    /// Whether the identifier is the empty string.
    pub fn is_empty(&self) -> (r: bool)
        ensures
            r == (self@.len() == 0),
    {
        self.0.as_str().is_empty()
    }

    /// The identifier as an owned string, as its `Display` form shows it.
    pub fn to_string(&self) -> (r: String)
        ensures
            r@ == self@,
    {
        self.0.clone()
    }
}

/// Identifiers built with `from` are case-insensitive: two texts that agree up
/// to ASCII case give equal identifiers, and upper-casing is idempotent.
pub proof fn lemma_ascii_upper_idempotent(s: Seq<char>)
    ensures
        ascii_upper(ascii_upper(s)) == ascii_upper(s),
{
    assert(ascii_upper(ascii_upper(s)) =~= ascii_upper(s));
}

} // verus!
