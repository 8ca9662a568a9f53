//! Flight information regions: the groups in which coverage data is kept.
use crate::coverage::position::PositionRaw;
use crate::coverage::station::{dedup_first, StationRaw};
use crate::coverage::{CoverageError, CoverageErrorView, ValidationError, ValidationErrorView, Validator};
use crate::ids::{FlightInformationRegionId, PositionId, StationId};
use vstd::prelude::*;

verus! {

/// A flight information region as read from its directory.
#[derive(Debug)]
pub struct FlightInformationRegionRaw {
    pub id: FlightInformationRegionId,
    pub stations: Vec<StationRaw>,
    pub positions: Vec<PositionRaw>,
}

/// A flight information region of the network: its identifier and the
/// identifiers of its stations and positions, each listed once.
#[derive(Debug)]
pub struct FlightInformationRegion {
    pub id: FlightInformationRegionId,
    pub stations: Vec<StationId>,
    pub positions: Vec<PositionId>,
}

/// The contents of a [`FlightInformationRegion`].
pub struct FirView {
    pub id: Seq<char>,
    pub stations: Seq<Seq<char>>,
    pub positions: Seq<Seq<char>>,
}

impl View for FlightInformationRegion {
    type V = FirView;

    open spec fn view(&self) -> FirView {
        FirView {
            id: self.id@,
            stations: self.stations@.map_values(|s: StationId| s@),
            positions: self.positions@.map_values(|p: PositionId| p@),
        }
    }
}

/// The region that the raw region `f` becomes: its identifier, and the
/// identifiers of its stations and of its positions, each once, in the order
/// first given.
pub open spec fn fir_view_of(f: FlightInformationRegionRaw) -> FirView {
    FirView {
        id: f.id@,
        stations: dedup_first(f.stations@.map_values(|s: StationRaw| s.id@)),
        positions: dedup_first(f.positions@.map_values(|p: PositionRaw| p.id@)),
    }
}

impl PartialEq for FlightInformationRegion {
    /// Regions are the same when their identifiers are.
    fn eq(&self, other: &Self) -> (r: bool) {
        self.id == other.id
    }
}

impl vstd::std_specs::cmp::PartialEqSpecImpl for FlightInformationRegion {
    open spec fn obeys_eq_spec() -> bool {
        true
    }

    open spec fn eq_spec(&self, other: &Self) -> bool {
        self.id@ == other.id@
    }
}

/// The first rule that a raw region breaks, if any.
pub open spec fn fir_problem(f: FlightInformationRegionRaw) -> Option<ValidationErrorView> {
    if f.id@.len() == 0 {
        Some(ValidationErrorView::MissingField("id"@))
    } else if f.stations@.len() == 0 {
        Some(ValidationErrorView::MissingField("stations"@))
    } else if f.positions@.len() == 0 {
        Some(ValidationErrorView::MissingField("positions"@))
    } else {
        None
    }
}

impl Validator for FlightInformationRegionRaw {
    /// Checks the region: an identifier, at least one station and at least one
    /// position.
    fn validate(&self) -> (r: Result<(), CoverageError>)
        ensures
            match fir_problem(*self) {
                None => r is Ok,
                Some(e) => r matches Err(err) && err@ == CoverageErrorView::Validation(e),
            },
    {
        if self.id.is_empty() {
            return Err(CoverageError::Validation(ValidationError::MissingField("id".to_owned())));
        }
        if self.stations.len() == 0 {
            return Err(
                CoverageError::Validation(ValidationError::MissingField("stations".to_owned())),
            );
        }
        if self.positions.len() == 0 {
            return Err(
                CoverageError::Validation(ValidationError::MissingField("positions".to_owned())),
            );
        }
        Ok(())
    }
}

impl FlightInformationRegion {
    /// Builds a region from its raw form, after checking it.
    pub fn from_raw(value: &FlightInformationRegionRaw) -> (r: Result<
        FlightInformationRegion,
        CoverageError,
    >)
        ensures
            match fir_problem(*value) {
                None => r matches Ok(f) && f.id@ == value.id@
                    && f.stations@.map_values(|s: StationId| s@) == dedup_first(
                    value.stations@.map_values(|s: StationRaw| s.id@),
                ) && f.positions@.map_values(|p: PositionId| p@) == dedup_first(
                    value.positions@.map_values(|p: PositionRaw| p.id@),
                ),
                Some(e) => r matches Err(err) && err@ == CoverageErrorView::Validation(e),
            },
    {
        value.validate()?;
        let mut stations: Vec<StationId> = Vec::new();
        let mut i: usize = 0;
        while i < value.stations.len()
            invariant
                i <= value.stations.len(),
                stations@.map_values(|s: StationId| s@) == dedup_first(
                    value.stations@.subrange(0, i as int).map_values(|s: StationRaw| s.id@),
                ),
            decreases value.stations.len() - i,
        {
            let id = &value.stations[i].id;
            let ghost prev = stations@.map_values(|s: StationId| s@);
            let ghost ids = value.stations@.subrange(0, i + 1).map_values(|s: StationRaw| s.id@);
            assert(ids.drop_last() =~= value.stations@.subrange(0, i as int).map_values(
                |s: StationRaw| s.id@,
            ));
            let mut seen = false;
            let mut k: usize = 0;
            while k < stations.len()
                invariant
                    k <= stations.len(),
                    seen == exists|q: int| 0 <= q < k && stations@[q]@ == id@,
                decreases stations.len() - k,
            {
                if stations[k] == *id {
                    seen = true;
                }
                k = k + 1;
            }
            if !seen {
                stations.push(id.clone());
            }
            proof {
                assert(ids.last() == id@);
                if prev.contains(id@) {
                    let q = choose|q: int| 0 <= q < prev.len() && prev[q] == id@;
                    assert(stations@[q]@ == id@);
                }
                if seen {
                    let q = choose|q: int| 0 <= q < stations@.len() && stations@[q]@ == id@;
                    assert(prev[q] == id@);
                }
                assert(seen == prev.contains(id@));
                assert(dedup_first(ids) == (if dedup_first(ids.drop_last()).contains(ids.last()) {
                    dedup_first(ids.drop_last())
                } else {
                    dedup_first(ids.drop_last()).push(ids.last())
                }));
                assert(stations@.map_values(|s: StationId| s@) =~= dedup_first(ids));
            }
            i = i + 1;
        }
        let mut positions: Vec<PositionId> = Vec::new();
        let mut i: usize = 0;
        while i < value.positions.len()
            invariant
                i <= value.positions.len(),
                positions@.map_values(|s: PositionId| s@) == dedup_first(
                    value.positions@.subrange(0, i as int).map_values(|p: PositionRaw| p.id@),
                ),
            decreases value.positions.len() - i,
        {
            let id = &value.positions[i].id;
            let ghost prev = positions@.map_values(|s: PositionId| s@);
            let ghost ids = value.positions@.subrange(0, i + 1).map_values(|p: PositionRaw| p.id@);
            assert(ids.drop_last() =~= value.positions@.subrange(0, i as int).map_values(
                |p: PositionRaw| p.id@,
            ));
            let mut seen = false;
            let mut k: usize = 0;
            while k < positions.len()
                invariant
                    k <= positions.len(),
                    seen == exists|q: int| 0 <= q < k && positions@[q]@ == id@,
                decreases positions.len() - k,
            {
                if positions[k] == *id {
                    seen = true;
                }
                k = k + 1;
            }
            if !seen {
                positions.push(id.clone());
            }
            proof {
                assert(ids.last() == id@);
                if prev.contains(id@) {
                    let q = choose|q: int| 0 <= q < prev.len() && prev[q] == id@;
                    assert(positions@[q]@ == id@);
                }
                if seen {
                    let q = choose|q: int| 0 <= q < positions@.len() && positions@[q]@ == id@;
                    assert(prev[q] == id@);
                }
                assert(seen == prev.contains(id@));
                assert(dedup_first(ids) == (if dedup_first(ids.drop_last()).contains(ids.last()) {
                    dedup_first(ids.drop_last())
                } else {
                    dedup_first(ids.drop_last()).push(ids.last())
                }));
                assert(positions@.map_values(|s: PositionId| s@) =~= dedup_first(ids));
            }
            i = i + 1;
        }
        assert(value.stations@.subrange(0, value.stations@.len() as int) =~= value.stations@);
        assert(value.positions@.subrange(0, value.positions@.len() as int) =~= value.positions@);
        Ok(FlightInformationRegion { id: value.id.clone(), stations, positions })
    }
}

} // verus!
