//! Positions: the controller logins that can cover stations.
use crate::coverage::{CoverageError, CoverageErrorView, ValidationError, ValidationErrorView, Validator};
use crate::facility::FacilityType;
use crate::ids::{FlightInformationRegionId, PositionId, ProfileId};
use crate::coverage::station::{dedup_first, lemma_dedup_no_duplicates, lemma_dedup_push};
use crate::coverage::strings_view;
use vstd::prelude::*;

verus! {

/// The regular expression that a frequency must match: three digits, a dot,
/// three digits.
pub const FREQUENCY_PATTERN: &'static str = "^\\d{3}\\.\\d{3}$";

/// Whether the `regex` crate accepts `pattern` as a regular expression.
pub uninterp spec fn regex_compiles(pattern: Seq<char>) -> bool;

/// Whether the regular expression `pattern`, compiled by the `regex` crate,
/// matches somewhere in `text`.
pub uninterp spec fn regex_is_match(pattern: Seq<char>, text: Seq<char>) -> bool;

/// `regex::Regex::new(pattern)` and then `Regex::is_match(text)`: `None` when
/// the pattern does not compile, otherwise whether it matches `text`. The
/// matching itself is left to the crate and named, not restated.
#[verifier::external_body]
pub(crate) fn regex_matches(pattern: &str, text: &str) -> (r: Option<bool>)
    ensures
        r is Some <==> regex_compiles(pattern@),
        r matches Some(b) ==> b == regex_is_match(pattern@, text@),
{
    match regex::Regex::new(pattern) {
        Ok(re) => Some(re.is_match(text)),
        Err(_) => None,
    }
}

/// Whether `f` has the frequency format `XXX.XXX`.
pub open spec fn frequency_format_ok(f: Seq<char>) -> bool {
    regex_compiles(FREQUENCY_PATTERN@) && regex_is_match(FREQUENCY_PATTERN@, f)
}

/// A position as read from the coverage files.
#[derive(Debug)]
pub struct PositionRaw {
    pub id: PositionId,
    pub prefixes: Vec<String>,
    pub frequency: String,
    pub facility_type: FacilityType,
    pub profile_id: Option<ProfileId>,
}

/// The mathematical content of a [`PositionRaw`].
pub struct PositionRawView {
    pub id: Seq<char>,
    pub prefixes: Seq<Seq<char>>,
    pub frequency: Seq<char>,
    pub facility_type: FacilityType,
    pub profile_id: Option<Seq<char>>,
}

/// The text of an optional profile identifier.
pub open spec fn opt_profile_view(o: Option<ProfileId>) -> Option<Seq<char>> {
    match o {
        Some(p) => Some(p@),
        None => None,
    }
}

/// A copy of an optional profile identifier.
fn clone_opt_profile(o: &Option<ProfileId>) -> (r: Option<ProfileId>)
    ensures
        opt_profile_view(r) == opt_profile_view(*o),
{
    match o {
        Some(p) => Some(p.clone()),
        None => None,
    }
}

impl View for PositionRaw {
    type V = PositionRawView;

    open spec fn view(&self) -> PositionRawView {
        PositionRawView {
            id: self.id@,
            prefixes: strings_view(self.prefixes@),
            frequency: self.frequency@,
            facility_type: self.facility_type,
            profile_id: opt_profile_view(self.profile_id),
        }
    }
}

impl Clone for PositionRaw {
    fn clone(&self) -> (r: Self)
        ensures
            r@ == self@,
    {
        let mut prefixes: Vec<String> = Vec::new();
        let mut i: usize = 0;
        while i < self.prefixes.len()
            invariant
                i <= self.prefixes.len(),
                strings_view(prefixes@) == strings_view(self.prefixes@).subrange(0, i as int),
            decreases self.prefixes.len() - i,
        {
            let c = self.prefixes[i].clone();
            let ghost old = prefixes@;
            prefixes.push(c);
            proof {
                assert(strings_view(old).len() == old.len());
                assert(prefixes@ == old.push(c));
                assert(strings_view(prefixes@) =~= strings_view(self.prefixes@).subrange(0, i + 1));
            }
            i = i + 1;
        }
        assert(strings_view(self.prefixes@).subrange(0, i as int) =~= strings_view(self.prefixes@));
        PositionRaw {
            id: self.id.clone(),
            prefixes,
            frequency: self.frequency.clone(),
            facility_type: self.facility_type,
            profile_id: clone_opt_profile(&self.profile_id),
        }
    }
}

/// A position of the network.
#[derive(Debug)]
pub struct Position {
    pub id: PositionId,
    pub prefixes: Vec<String>,
    pub frequency: String,
    pub facility_type: FacilityType,
    pub fir_id: FlightInformationRegionId,
    pub profile_id: Option<ProfileId>,
}

/// The mathematical content of a [`Position`].
pub struct PositionView {
    pub id: Seq<char>,
    pub prefixes: Seq<Seq<char>>,
    pub frequency: Seq<char>,
    pub facility_type: FacilityType,
    pub fir_id: Seq<char>,
    pub profile_id: Option<Seq<char>>,
}

impl View for Position {
    type V = PositionView;

    open spec fn view(&self) -> PositionView {
        PositionView {
            id: self.id@,
            prefixes: strings_view(self.prefixes@),
            frequency: self.frequency@,
            facility_type: self.facility_type,
            fir_id: self.fir_id@,
            profile_id: opt_profile_view(self.profile_id),
        }
    }
}

impl PartialEq for Position {
    /// Positions are the same when their identifiers are.
    fn eq(&self, other: &Self) -> (r: bool) {
        self.id == other.id
    }
}

impl vstd::std_specs::cmp::PartialEqSpecImpl for Position {
    open spec fn obeys_eq_spec() -> bool {
        true
    }

    open spec fn eq_spec(&self, other: &Self) -> bool {
        self.id@ == other.id@
    }
}

/// The first rule that a raw position breaks, if any.
pub open spec fn position_problem(p: PositionRawView) -> Option<ValidationErrorView> {
    if p.id.len() == 0 {
        Some(ValidationErrorView::Empty { field: "id"@ })
    } else if p.prefixes.len() == 0 || exists|i: int|
        0 <= i < p.prefixes.len() && #[trigger] p.prefixes[i].len() == 0 {
        Some(ValidationErrorView::Empty { field: "prefixes"@ })
    } else if p.frequency.len() == 0 {
        Some(ValidationErrorView::Empty { field: "frequency"@ })
    } else if !frequency_format_ok(p.frequency) {
        Some(
            ValidationErrorView::InvalidFormat {
                field: "frequency"@,
                value: p.frequency,
                reason: "must match pattern XXX.XXX"@,
            },
        )
    } else if p.facility_type == FacilityType::Unknown {
        Some(
            ValidationErrorView::InvalidValue {
                field: "facility_type"@,
                value: "Unknown"@,
                reason: "must not be Unknown"@,
            },
        )
    } else {
        None
    }
}

/// The position that a raw position becomes in the FIR `fir`.
pub open spec fn position_view_of(p: PositionRawView, fir: Seq<char>) -> PositionView {
    PositionView {
        id: p.id,
        prefixes: dedup_first(p.prefixes),
        frequency: p.frequency,
        facility_type: p.facility_type,
        fir_id: fir,
        profile_id: p.profile_id,
    }
}

/// The strings of `v`, each once, in the order first given.
fn dedup_strings(v: Vec<String>) -> (r: Vec<String>)
    ensures
        strings_view(r@) == dedup_first(strings_view(v@)),
{
    let mut r: Vec<String> = Vec::new();
    let mut i: usize = 0;
    assert(strings_view(v@).subrange(0, 0) =~= Seq::<Seq<char>>::empty());
    while i < v.len()
        invariant
            i <= v.len(),
            strings_view(r@) == dedup_first(strings_view(v@).subrange(0, i as int)),
        decreases v.len() - i,
    {
        let ghost before = strings_view(v@).subrange(0, i as int);
        let ghost x = v@[i as int]@;
        assert(strings_view(v@).subrange(0, i + 1) =~= before.push(x));
        proof {
            lemma_dedup_push(before, x);
        }
        let mut seen = false;
        let mut j: usize = 0;
        while j < r.len()
            invariant
                j <= r.len(),
                i < v.len(),
                x == v@[i as int]@,
                seen == exists|k: int| 0 <= k < j && r@[k]@ == x,
            decreases r.len() - j,
        {
            if r[j] == v[i] {
                seen = true;
            }
            j = j + 1;
        }
        proof {
            let d = strings_view(r@);
            if seen {
                let k = choose|k: int| 0 <= k < j && r@[k]@ == x;
                assert(d[k] == x);
            }
            if d.contains(x) {
                let k = choose|k: int| 0 <= k < d.len() && d[k] == x;
                assert(r@[k]@ == x);
            }
        }
        if !seen {
            let ghost old_r = r@;
            r.push(v[i].clone());
            assert(strings_view(r@) =~= strings_view(old_r).push(x));
        }
        i = i + 1;
    }
    assert(strings_view(v@).subrange(0, i as int) =~= strings_view(v@));
    r
}

impl Validator for PositionRaw {
    /// Checks the position: a non-empty identifier, at least one prefix and
    /// no empty one, a frequency of the form `XXX.XXX`, a known facility type.
    fn validate(&self) -> (r: Result<(), CoverageError>)
        ensures
            match position_problem(self@) {
                None => r is Ok,
                Some(e) => r matches Err(err) && err@ == CoverageErrorView::Validation(e),
            },
    {
        if self.id.is_empty() {
            return Err(CoverageError::Validation(ValidationError::Empty { field: "id".to_owned() }));
        }
        let mut any_empty = false;
        let mut i: usize = 0;
        while i < self.prefixes.len()
            invariant
                i <= self.prefixes.len(),
                any_empty == exists|j: int| 0 <= j < i && #[trigger] self@.prefixes[j].len() == 0,
            decreases self.prefixes.len() - i,
        {
            assert(self@.prefixes[i as int] == self.prefixes@[i as int]@);
            if self.prefixes[i].as_str().is_empty() {
                any_empty = true;
            }
            i = i + 1;
        }
        if self.prefixes.len() == 0 || any_empty {
            return Err(
                CoverageError::Validation(ValidationError::Empty { field: "prefixes".to_owned() }),
            );
        }
        if self.frequency.as_str().is_empty() {
            return Err(
                CoverageError::Validation(ValidationError::Empty { field: "frequency".to_owned() }),
            );
        }
        let matched = match regex_matches(FREQUENCY_PATTERN, self.frequency.as_str()) {
            Some(b) => b,
            None => false,
        };
        if !matched {
            return Err(
                CoverageError::Validation(
                    ValidationError::InvalidFormat {
                        field: "frequency".to_owned(),
                        value: self.frequency.clone(),
                        reason: "must match pattern XXX.XXX".to_owned(),
                    },
                ),
            );
        }
        if self.facility_type == FacilityType::Unknown {
            return Err(
                CoverageError::Validation(
                    ValidationError::InvalidValue {
                        field: "facility_type".to_owned(),
                        value: "Unknown".to_owned(),
                        reason: "must not be Unknown".to_owned(),
                    },
                ),
            );
        }
        Ok(())
    }
}

impl Position {
    /// Builds a position of `fir_id` from its raw form, after checking it.
    pub fn from_raw(position_raw: PositionRaw, fir_id: FlightInformationRegionId) -> (r: Result<
        Position,
        CoverageError,
    >)
        ensures
            match position_problem(position_raw@) {
                None => r matches Ok(p) && p@ == position_view_of(position_raw@, fir_id@)
                    && p@.prefixes.no_duplicates(),
                Some(e) => r matches Err(err) && err@ == CoverageErrorView::Validation(e),
            },
    {
        position_raw.validate()?;
        proof {
            lemma_dedup_no_duplicates(position_raw@.prefixes);
        }
        Ok(
            Position {
                id: position_raw.id,
                prefixes: dedup_strings(position_raw.prefixes),
                frequency: position_raw.frequency,
                facility_type: position_raw.facility_type,
                fir_id,
                profile_id: position_raw.profile_id,
            },
        )
    }
}

} // verus!
