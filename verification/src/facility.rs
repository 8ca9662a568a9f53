//! VATSIM facility types and the controller information the data feed reports.
use crate::coverage::CoverageError;
use crate::ids::ClientId;
use crate::text::{ascii_upper, str_chars, str_to_ascii_uppercase, string_from_chars};
use vstd::prelude::*;

verus! {

/// Errors of the VATSIM integration.
#[derive(Debug)]
pub enum Error {
    /// A callsign suffix or facility number that names no facility type.
    UnknownFacilityType(String),
    /// The coverage data could not be used.
    Coverage(CoverageError),
    /// Any other failure, described in words.
    Other(String),
}

/// Information about a controller connected to VATSIM.
#[derive(Debug)]
pub struct ControllerInfo {
    pub cid: ClientId,
    pub callsign: String,
    pub frequency: String,
    pub facility_type: FacilityType,
}

/// The VATSIM facility types, as named by their callsign suffixes.
#[derive(Debug, Clone, Copy, PartialEq, Eq, Hash, Structural)]
pub enum FacilityType {
    Unknown,
    Ramp,
    Delivery,
    Ground,
    Tower,
    Approach,
    Departure,
    Enroute,
    FlightServiceStation,
    Radio,
    TrafficFlow,
}

/// The part of `s` after its last `_` (all of `s` when it holds none).
pub open spec fn last_segment(s: Seq<char>) -> Seq<char>
    decreases s.len(),
{
    if s.len() == 0 {
        s
    } else if s.last() == '_' {
        Seq::empty()
    } else {
        last_segment(s.drop_last()).push(s.last())
    }
}

/// The facility type that an upper-case callsign suffix names, if any.
pub open spec fn facility_of_suffix(t: Seq<char>) -> Option<FacilityType> {
    if t == "RMP"@ || t == "RAMP"@ {
        Some(FacilityType::Ramp)
    } else if t == "DEL"@ || t == "DELIVERY"@ {
        Some(FacilityType::Delivery)
    } else if t == "GND"@ || t == "GROUND"@ {
        Some(FacilityType::Ground)
    } else if t == "TWR"@ || t == "TOWER"@ {
        Some(FacilityType::Tower)
    } else if t == "APP"@ || t == "APPROACH"@ {
        Some(FacilityType::Approach)
    } else if t == "DEP"@ || t == "DEPARTURE"@ {
        Some(FacilityType::Departure)
    } else if t == "CTR"@ || t == "CENTER"@ || t == "ENROUTE"@ {
        Some(FacilityType::Enroute)
    } else if t == "FSS"@ || t == "FLIGHTSERVICESTATION"@ {
        Some(FacilityType::FlightServiceStation)
    } else if t == "RDO"@ || t == "RADIO"@ {
        Some(FacilityType::Radio)
    } else if t == "TMU"@ || t == "TRAFFICMANAGEMENTUNIT"@ || t == "FMP"@
        || t == "FLOWMANAGEMENTPOSITION"@ || t == "TRAFFICFLOW"@ {
        Some(FacilityType::TrafficFlow)
    } else {
        None
    }
}

/// The facility type that the text `s` names: the last `_`-separated part of
/// `s`, compared without regard to ASCII case.
pub open spec fn facility_of_text(s: Seq<char>) -> Option<FacilityType> {
    facility_of_suffix(last_segment(ascii_upper(s)))
}

/// The facility type of a VATSIM facility number.
pub open spec fn facility_of_number(n: u8) -> Option<FacilityType> {
    if n == 1 {
        Some(FacilityType::FlightServiceStation)
    } else if n == 2 {
        Some(FacilityType::Delivery)
    } else if n == 3 {
        Some(FacilityType::Ground)
    } else if n == 4 {
        Some(FacilityType::Tower)
    } else if n == 5 {
        Some(FacilityType::Approach)
    } else if n == 6 {
        Some(FacilityType::Enroute)
    } else {
        None
    }
}

/// The callsign suffix of each facility type.
pub open spec fn facility_suffix(f: FacilityType) -> Seq<char> {
    match f {
        FacilityType::Ramp => "RMP"@,
        FacilityType::Delivery => "DEL"@,
        FacilityType::Ground => "GND"@,
        FacilityType::Tower => "TWR"@,
        FacilityType::Approach => "APP"@,
        FacilityType::Departure => "DEP"@,
        FacilityType::Enroute => "CTR"@,
        FacilityType::FlightServiceStation => "FSS"@,
        FacilityType::Radio => "RDO"@,
        FacilityType::TrafficFlow => "FMP"@,
        FacilityType::Unknown => "UNKNOWN"@,
    }
}

/// The decimal digits of `n`, as `u8::to_string` writes them.
fn u8_to_string(n: u8) -> (r: String)
    ensures
        r@ == decimal(n as nat),
{
    proof {
        reveal_with_fuel(decimal, 3);
    }
    let mut out: Vec<char> = Vec::new();
    if n >= 100 {
        out.push(((n / 100) + 48) as char);
    }
    if n >= 10 {
        out.push((((n / 10) % 10) + 48) as char);
    }
    out.push(((n % 10) + 48) as char);
    proof {
        let d = n as nat;
        if d >= 100 {
            assert(decimal(d / 10) == decimal(d / 100).push(('0' as u32 + (d / 10) % 10) as char));
        }
    }
    string_from_chars(&out)
}

/// The decimal digits of `n`, without leading zeros.
pub open spec fn decimal(n: nat) -> Seq<char>
    decreases n,
{
    if n < 10 {
        seq![('0' as u32 + n) as char]
    } else {
        decimal(n / 10).push(('0' as u32 + n % 10) as char)
    }
}

fn chars_last_segment(v: &Vec<char>) -> (r: Vec<char>)
    ensures
        r@ == last_segment(v@),
{
    let mut start: usize = v.len();
    while start > 0 && v[start - 1] != '_'
        invariant
            start <= v.len(),
            forall|j: int| start <= j < v.len() ==> v@[j] != '_',
        decreases start,
    {
        start = start - 1;
    }
    let mut r: Vec<char> = Vec::new();
    let mut i: usize = start;
    proof {
        lemma_last_segment_after(v@, start as int);
    }
    while i < v.len()
        invariant
            start <= i <= v.len(),
            r@ == v@.subrange(start as int, i as int),
        decreases v.len() - i,
    {
        r.push(v[i]);
        i = i + 1;
    }
    assert(r@ =~= v@.subrange(start as int, v.len() as int));
    r
}

proof fn lemma_last_segment_after(s: Seq<char>, start: int)
    requires
        0 <= start <= s.len(),
        forall|j: int| start <= j < s.len() ==> s[j] != '_',
        start == 0 || s[start - 1] == '_',
    ensures
        last_segment(s) == s.subrange(start, s.len() as int),
    decreases s.len(),
{
    if s.len() == 0 {
        assert(s.subrange(start, 0) =~= s);
    } else if s.len() == start {
        assert(s.subrange(start, s.len() as int) =~= Seq::<char>::empty());
    } else {
        lemma_last_segment_after(s.drop_last(), start);
        assert(s.subrange(start, s.len() as int) =~= s.drop_last().subrange(
            start,
            s.len() - 1,
        ).push(s.last()));
    }
}

/// Upper-case letters without `_` are their own upper-case form and their
/// own last segment.
proof fn lemma_plain_suffix(t: Seq<char>)
    requires
        forall|i: int| 0 <= i < t.len() ==> 'A' <= #[trigger] t[i] <= 'Z',
    ensures
        last_segment(ascii_upper(t)) == t,
{
    assert(ascii_upper(t) =~= t);
    lemma_last_segment_after(t, 0);
    assert(t.subrange(0, t.len() as int) =~= t);
}

/// The callsign suffix that VATSIM's facility numbering stands for: 1 a
/// flight service station, 2 delivery, 3 ground, 4 tower, 5 approach, 6 a
/// centre; other numbers stand for none.
pub open spec fn vatsim_number_suffix(n: u8) -> Option<Seq<char>> {
    if n == 1 {
        Some("FSS"@)
    } else if n == 2 {
        Some("DEL"@)
    } else if n == 3 {
        Some("GND"@)
    } else if n == 4 {
        Some("TWR"@)
    } else if n == 5 {
        Some("APP"@)
    } else if n == 6 {
        Some("CTR"@)
    } else {
        None
    }
}

/// A VATSIM facility number and the callsign suffix it stands for name the
/// same facility type: reading the number gives what reading a callsign
/// with that suffix gives, and a number outside the numbering names none.
/// Distinct numbers name distinct types.
pub proof fn lemma_facility_number_agrees_with_callsign(n: u8, m: u8)
    ensures
        match vatsim_number_suffix(n) {
            Some(s) => facility_of_number(n) is Some && facility_of_number(n) == facility_of_text(s)
                && facility_suffix(facility_of_number(n)->0) == s,
            None => facility_of_number(n) is None,
        },
        facility_of_number(n) is Some && n != m ==> facility_of_number(n) != facility_of_number(m),
{
    let f = if n == 1 {
        FacilityType::FlightServiceStation
    } else if n == 2 {
        FacilityType::Delivery
    } else if n == 3 {
        FacilityType::Ground
    } else if n == 4 {
        FacilityType::Tower
    } else if n == 5 {
        FacilityType::Approach
    } else {
        FacilityType::Enroute
    };
    if vatsim_number_suffix(n) is Some {
        lemma_suffix_parses_back(f);
        assert(vatsim_number_suffix(n) == Some(facility_suffix(f)));
        assert(facility_of_number(n) == Some(f));
    }
}

/// The suffix that names a facility type reads back as that type, so a type
/// written out by its suffix is read back unchanged; `Unknown`, written as
/// `UNKNOWN`, names no type and is not read back.
pub proof fn lemma_suffix_parses_back(f: FacilityType)
    ensures
        f != FacilityType::Unknown ==> facility_of_text(facility_suffix(f)) == Some(f),
        f == FacilityType::Unknown ==> facility_of_text(facility_suffix(f)) is None,
{
    reveal_strlit("RMP");
    reveal_strlit("RAMP");
    reveal_strlit("DEL");
    reveal_strlit("DELIVERY");
    reveal_strlit("GND");
    reveal_strlit("GROUND");
    reveal_strlit("TWR");
    reveal_strlit("TOWER");
    reveal_strlit("APP");
    reveal_strlit("APPROACH");
    reveal_strlit("DEP");
    reveal_strlit("DEPARTURE");
    reveal_strlit("CTR");
    reveal_strlit("CENTER");
    reveal_strlit("ENROUTE");
    reveal_strlit("FSS");
    reveal_strlit("FLIGHTSERVICESTATION");
    reveal_strlit("RDO");
    reveal_strlit("RADIO");
    reveal_strlit("TMU");
    reveal_strlit("TRAFFICMANAGEMENTUNIT");
    reveal_strlit("FMP");
    reveal_strlit("FLOWMANAGEMENTPOSITION");
    reveal_strlit("TRAFFICFLOW");
    reveal_strlit("UNKNOWN");
    let t = facility_suffix(f);
    lemma_plain_suffix(t);
    assert(facility_of_text(t) == facility_of_suffix(t));
    match f {
        FacilityType::Ramp => {
            assert(t =~= "RMP"@);
            assert(facility_of_suffix(t) == Some(FacilityType::Ramp));
        },
        FacilityType::Delivery => {
            assert(t =~= "DEL"@);
            assert(t[0] != "RMP"@[0]);
            assert(facility_of_suffix(t) == Some(FacilityType::Delivery));
        },
        FacilityType::Ground => {
            assert(t =~= "GND"@);
            assert(t[0] != "RMP"@[0]);
            assert(t[0] != "DEL"@[0]);
            assert(facility_of_suffix(t) == Some(FacilityType::Ground));
        },
        FacilityType::Tower => {
            assert(t =~= "TWR"@);
            assert(t[0] != "RMP"@[0]);
            assert(t[0] != "DEL"@[0]);
            assert(t[0] != "GND"@[0]);
            assert(facility_of_suffix(t) == Some(FacilityType::Tower));
        },
        FacilityType::Approach => {
            assert(t =~= "APP"@);
            assert(t[0] != "RMP"@[0]);
            assert(t[0] != "DEL"@[0]);
            assert(t[0] != "GND"@[0]);
            assert(t[0] != "TWR"@[0]);
            assert(facility_of_suffix(t) == Some(FacilityType::Approach));
        },
        FacilityType::Departure => {
            assert(t =~= "DEP"@);
            assert(t[0] != "RMP"@[0]);
            assert(t[2] != "DEL"@[2]);
            assert(t[0] != "GND"@[0]);
            assert(t[0] != "TWR"@[0]);
            assert(t[0] != "APP"@[0]);
            assert(facility_of_suffix(t) == Some(FacilityType::Departure));
        },
        FacilityType::Enroute => {
            assert(t =~= "CTR"@);
            assert(t[0] != "RMP"@[0]);
            assert(t[0] != "DEL"@[0]);
            assert(t[0] != "GND"@[0]);
            assert(t[0] != "TWR"@[0]);
            assert(t[0] != "APP"@[0]);
            assert(t[0] != "DEP"@[0]);
            assert(facility_of_suffix(t) == Some(FacilityType::Enroute));
        },
        FacilityType::FlightServiceStation => {
            assert(t =~= "FSS"@);
            assert(t[0] != "RMP"@[0]);
            assert(t[0] != "DEL"@[0]);
            assert(t[0] != "GND"@[0]);
            assert(t[0] != "TWR"@[0]);
            assert(t[0] != "APP"@[0]);
            assert(t[0] != "DEP"@[0]);
            assert(t[0] != "CTR"@[0]);
            assert(facility_of_suffix(t) == Some(FacilityType::FlightServiceStation));
        },
        FacilityType::Radio => {
            assert(t =~= "RDO"@);
            assert(t[1] != "RMP"@[1]);
            assert(t[0] != "DEL"@[0]);
            assert(t[0] != "GND"@[0]);
            assert(t[0] != "TWR"@[0]);
            assert(t[0] != "APP"@[0]);
            assert(t[0] != "DEP"@[0]);
            assert(t[0] != "CTR"@[0]);
            assert(t[0] != "FSS"@[0]);
            assert(facility_of_suffix(t) == Some(FacilityType::Radio));
        },
        FacilityType::TrafficFlow => {
            assert(t =~= "FMP"@);
            assert(t[0] != "RMP"@[0]);
            assert(t[0] != "DEL"@[0]);
            assert(t[0] != "GND"@[0]);
            assert(t[0] != "TWR"@[0]);
            assert(t[0] != "APP"@[0]);
            assert(t[0] != "DEP"@[0]);
            assert(t[0] != "CTR"@[0]);
            assert(t[1] != "FSS"@[1]);
            assert(t[0] != "RDO"@[0]);
            assert(t[0] != "TMU"@[0]);
            assert(facility_of_suffix(t) == Some(FacilityType::TrafficFlow));
        },
        FacilityType::Unknown => {
            assert(t =~= "UNKNOWN"@);
            assert(t[0] != "ENROUTE"@[0]);
            assert(facility_of_suffix(t) is None);
        },
    }
}

fn text_is(t: &String, lit: &str) -> (r: bool)
    ensures
        r == (t@ == lit@),
{
    let l = lit.to_owned();
    *t == l
}

impl FacilityType {
    /// The callsign suffix of the facility type.
    pub fn as_str(&self) -> (r: &'static str)
        ensures
            r@ == facility_suffix(*self),
    {
        match self {
            FacilityType::Ramp => "RMP",
            FacilityType::Delivery => "DEL",
            FacilityType::Ground => "GND",
            FacilityType::Tower => "TWR",
            FacilityType::Approach => "APP",
            FacilityType::Departure => "DEP",
            FacilityType::Enroute => "CTR",
            FacilityType::FlightServiceStation => "FSS",
            FacilityType::Radio => "RDO",
            FacilityType::TrafficFlow => "FMP",
            FacilityType::Unknown => "UNKNOWN",
        }
    }

    /// The facility type of a VATSIM facility number; `Unknown` for numbers
    /// that name none.
    pub fn from_vatsim_facility(facility: u8) -> (r: FacilityType)
        ensures
            r == (match facility_of_number(facility) {
                Some(f) => f,
                None => FacilityType::Unknown,
            }),
            match vatsim_number_suffix(facility) {
                Some(s) => facility_suffix(r) == s,
                None => r == FacilityType::Unknown,
            },
    {
        match FacilityType::try_from_u8(facility) {
            Ok(f) => f,
            Err(_) => FacilityType::Unknown,
        }
    }

    /// The facility type of a VATSIM facility number, or the error that names
    /// the number.
    pub fn try_from_u8(value: u8) -> (r: Result<FacilityType, Error>)
        ensures
            match facility_of_number(value) {
                Some(f) => r == Ok::<FacilityType, Error>(f),
                None => r matches Err(Error::UnknownFacilityType(s)) && s@ == decimal(value as nat),
            },
            match vatsim_number_suffix(value) {
                Some(s) => (r matches Ok(f) && facility_suffix(f) == s),
                None => r is Err,
            },
    {
        if value == 1 {
            Ok(FacilityType::FlightServiceStation)
        } else if value == 2 {
            Ok(FacilityType::Delivery)
        } else if value == 3 {
            Ok(FacilityType::Ground)
        } else if value == 4 {
            Ok(FacilityType::Tower)
        } else if value == 5 {
            Ok(FacilityType::Approach)
        } else if value == 6 {
            Ok(FacilityType::Enroute)
        } else {
            Err(Error::UnknownFacilityType(u8_to_string(value)))
        }
    }

    /// Parses a facility type from a callsign or a facility name: the last
    /// `_`-separated part of `s`, without regard to ASCII case, must name one.
    pub fn parse(s: &str) -> (r: Result<FacilityType, Error>)
        ensures
            match facility_of_text(s@) {
                Some(f) => r == Ok::<FacilityType, Error>(f),
                None => r matches Err(Error::UnknownFacilityType(t)) && t@ == last_segment(
                    ascii_upper(s@),
                ),
            },
    {
        let upper = str_to_ascii_uppercase(s);
        let chars = str_chars(upper.as_str());
        let seg = chars_last_segment(&chars);
        let t = string_from_chars(&seg);
        if text_is(&t, "RMP") || text_is(&t, "RAMP") {
            Ok(FacilityType::Ramp)
        } else if text_is(&t, "DEL") || text_is(&t, "DELIVERY") {
            Ok(FacilityType::Delivery)
        } else if text_is(&t, "GND") || text_is(&t, "GROUND") {
            Ok(FacilityType::Ground)
        } else if text_is(&t, "TWR") || text_is(&t, "TOWER") {
            Ok(FacilityType::Tower)
        } else if text_is(&t, "APP") || text_is(&t, "APPROACH") {
            Ok(FacilityType::Approach)
        } else if text_is(&t, "DEP") || text_is(&t, "DEPARTURE") {
            Ok(FacilityType::Departure)
        } else if text_is(&t, "CTR") || text_is(&t, "CENTER") || text_is(&t, "ENROUTE") {
            Ok(FacilityType::Enroute)
        } else if text_is(&t, "FSS") || text_is(&t, "FLIGHTSERVICESTATION") {
            Ok(FacilityType::FlightServiceStation)
        } else if text_is(&t, "RDO") || text_is(&t, "RADIO") {
            Ok(FacilityType::Radio)
        } else if text_is(&t, "TMU") || text_is(&t, "TRAFFICMANAGEMENTUNIT") || text_is(&t, "FMP")
            || text_is(&t, "FLOWMANAGEMENTPOSITION") || text_is(&t, "TRAFFICFLOW") {
            Ok(FacilityType::TrafficFlow)
        } else {
            Err(Error::UnknownFacilityType(t))
        }
    }

    /// The facility type that `s` names, `Unknown` when it names none.
    pub fn from_text(s: &str) -> (r: FacilityType)
        ensures
            r == (match facility_of_text(s@) {
                Some(f) => f,
                None => FacilityType::Unknown,
            }),
    {
        match FacilityType::parse(s) {
            Ok(f) => f,
            Err(_) => FacilityType::Unknown,
        }
    }
}

} // verus!
