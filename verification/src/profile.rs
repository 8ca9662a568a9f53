//! Profiles: the pages of direct access keys that a client shows, and the
//! stations that those keys call.
use crate::coverage::{CoverageError, CoverageErrorView, ValidationError, ValidationErrorView, Validator};
use crate::ids::{ProfileId, StationId};
use vstd::prelude::*;

verus! {

/// A key on a direct access page, calling a station where it has one.
#[derive(Debug)]
pub struct DirectAccessKey {
    pub label: Vec<String>,
    pub station_id: Option<StationId>,
}

/// A page of direct access keys, laid out in rows or in columns.
#[derive(Debug)]
pub struct DirectAccessPage {
    pub keys: Vec<DirectAccessKey>,
    pub rows: Option<u8>,
    pub columns: Option<u8>,
}

/// A button of a GEO profile, placed by coordinates, that opens a page.
#[derive(Debug)]
pub struct GeoPageButton {
    pub label: Vec<String>,
    pub x: u8,
    pub y: u8,
    pub size: u8,
    pub page: DirectAccessPage,
}

/// A tab of a tabbed profile and the page it opens.
#[derive(Debug)]
pub struct Tab {
    pub label: String,
    pub page: DirectAccessPage,
}

/// How a profile lays out its pages.
#[derive(Debug)]
pub enum ProfileType {
    Geo(Vec<GeoPageButton>),
    Tabbed(Vec<Tab>),
}

/// A profile of the coverage data.
#[derive(Debug)]
pub struct Profile {
    pub id: ProfileId,
    pub profile_type: ProfileType,
}

/// How the client page shows frequencies.
#[derive(Debug, Clone, Copy, PartialEq, Eq, Structural)]
pub enum FrequencyDisplayMode {
    HideAll,
    ShowAll,
}

/// How the client page groups its keys.
#[derive(Debug, Clone, Copy, PartialEq, Eq, Structural)]
pub enum ClientGroupMode {
    /// No grouping.
    Flat,
    /// By the first two letters (FIR) of the display name.
    Fir,
    /// By the first four letters (ICAO code) of the display name.
    Icao,
    /// By FIR first, then by ICAO code.
    FirAndIcao,
}

/// What the client page, which lists the connected clients, shows.
#[derive(Debug)]
pub struct ClientPageConfig {
    pub included: Vec<String>,
    pub exclude: Vec<String>,
    pub priority: Vec<String>,
    pub frequencies: FrequencyDisplayMode,
    pub grouping: ClientGroupMode,
}

impl Default for ClientPageConfig {
    /// No inclusion or exclusion patterns; controllers prioritised by facility
    /// (flow management, centre, approach, tower, ground); all frequencies
    /// shown; grouped by FIR and then by ICAO code.
    fn default() -> (r: Self)
        ensures
            r.included@.len() == 0,
            r.exclude@.len() == 0,
            r.priority@.len() == 5,
            r.priority@[0]@ == "*_FMP"@,
            r.priority@[1]@ == "*_CTR"@,
            r.priority@[2]@ == "*_APP"@,
            r.priority@[3]@ == "*_TWR"@,
            r.priority@[4]@ == "*_GND"@,
            r.frequencies == FrequencyDisplayMode::ShowAll,
            r.grouping == ClientGroupMode::FirAndIcao,
    {
        let mut priority: Vec<String> = Vec::new();
        priority.push("*_FMP".to_string());
        priority.push("*_CTR".to_string());
        priority.push("*_APP".to_string());
        priority.push("*_TWR".to_string());
        priority.push("*_GND".to_string());
        ClientPageConfig {
            included: Vec::new(),
            exclude: Vec::new(),
            priority,
            frequencies: FrequencyDisplayMode::ShowAll,
            grouping: ClientGroupMode::FirAndIcao,
        }
    }
}

/// The client page and its number of rows.
#[derive(Debug)]
pub struct ClientPage {
    pub config: ClientPageConfig,
    pub rows: u8,
}

impl Validator for ClientPage {
    /// A client page needs at least one row.
    fn validate(&self) -> (r: Result<(), CoverageError>)
        ensures
            self.rows == 0 ==> (r matches Err(e) && e@ == CoverageErrorView::Validation(
                ValidationErrorView::OutOfRange {
                    field: "rows"@,
                    value: "0"@,
                    min: "1"@,
                    max: None,
                },
            )),
            self.rows != 0 ==> r is Ok,
    {
        if self.rows == 0 {
            return Err(
                CoverageError::Validation(
                    ValidationError::OutOfRange {
                        field: "rows".to_string(),
                        value: "0".to_string(),
                        min: "1".to_string(),
                        max: None,
                    },
                ),
            );
        }
        Ok(())
    }
}

/// The texts of the station identifiers `v`.
pub open spec fn station_texts(v: Seq<StationId>) -> Seq<Seq<char>> {
    v.map_values(|s: StationId| s@)
}

/// The stations that the keys of `keys` call, in order, one entry per key.
pub open spec fn key_stations(keys: Seq<DirectAccessKey>) -> Seq<Option<Seq<char>>> {
    keys.map_values(
        |k: DirectAccessKey|
            match k.station_id {
                Some(s) => Some(s@),
                None => None,
            },
    )
}

/// The stations that the keys of the pages `pages` call, page after page.
pub open spec fn pages_stations(pages: Seq<DirectAccessPage>) -> Seq<Option<Seq<char>>>
    decreases pages.len(),
{
    if pages.len() == 0 {
        Seq::empty()
    } else {
        pages_stations(pages.drop_last()) + key_stations(pages.last().keys@)
    }
}

/// The pages of a profile, in order.
pub open spec fn profile_pages(t: ProfileType) -> Seq<DirectAccessPage> {
    match t {
        ProfileType::Geo(buttons) => buttons@.map_values(|b: GeoPageButton| b.page),
        ProfileType::Tabbed(tabs) => tabs@.map_values(|t: Tab| t.page),
    }
}

/// The set of stations that keys of `s` call.
pub open spec fn called(s: Seq<Option<Seq<char>>>) -> Set<Seq<char>> {
    Set::new(|id: Seq<char>| s.contains(Some(id)))
}

/// The first station that a key of `s` calls and that is not in `known`.
pub open spec fn first_unknown(s: Seq<Option<Seq<char>>>, known: Set<Seq<char>>) -> Option<
    Seq<char>,
>
    decreases s.len(),
{
    if s.len() == 0 {
        None
    } else {
        match s[0] {
            Some(id) => if !known.contains(id) {
                Some(id)
            } else {
                first_unknown(s.drop_first(), known)
            },
            None => first_unknown(s.drop_first(), known),
        }
    }
}

/// The pages of the profile type.
fn pages_of(t: &ProfileType) -> (r: Vec<&DirectAccessPage>)
    ensures
        r@.map_values(|p: &DirectAccessPage| *p) == profile_pages(*t),
{
    let mut r: Vec<&DirectAccessPage> = Vec::new();
    match t {
        ProfileType::Geo(buttons) => {
            let mut i: usize = 0;
            while i < buttons.len()
                invariant
                    0 <= i <= buttons@.len(),
                    r@.len() == i,
                    forall|j: int| 0 <= j < i ==> *#[trigger] r@[j] == buttons@[j].page,
                decreases buttons@.len() - i,
            {
                r.push(&buttons[i].page);
                i = i + 1;
            }
            assert(r@.map_values(|p: &DirectAccessPage| *p) =~= profile_pages(*t));
        },
        ProfileType::Tabbed(tabs) => {
            let mut i: usize = 0;
            while i < tabs.len()
                invariant
                    0 <= i <= tabs@.len(),
                    r@.len() == i,
                    forall|j: int| 0 <= j < i ==> *#[trigger] r@[j] == tabs@[j].page,
                decreases tabs@.len() - i,
            {
                r.push(&tabs[i].page);
                i = i + 1;
            }
            assert(r@.map_values(|p: &DirectAccessPage| *p) =~= profile_pages(*t));
        },
    }
    r
}

/// Whether `id` is in `v`.
pub fn contains_station(v: &Vec<StationId>, id: &StationId) -> (r: bool)
    ensures
        r == station_texts(v@).contains(id@),
{
    let mut i: usize = 0;
    while i < v.len()
        invariant
            0 <= i <= v.len(),
            forall|j: int| 0 <= j < i ==> v@[j]@ != id@,
        decreases v.len() - i,
    {
        if v[i] == *id {
            assert(station_texts(v@)[i as int] == id@);
            return true;
        }
        i = i + 1;
    }
    assert(!station_texts(v@).contains(id@)) by {
        let ids = station_texts(v@);
        if ids.contains(id@) {
            let j = choose|j: int| 0 <= j < ids.len() && #[trigger] ids[j] == id@;
            assert(v@[j]@ == id@);
        }
    }
    false
}

impl ProfileType {
    /// The stations that the keys of the profile call, each once.
    pub fn relevant_station_ids(&self) -> (r: Vec<StationId>)
        ensures
            station_texts(r@).no_duplicates(),
            station_texts(r@).to_set() == called(
                pages_stations(profile_pages(*self)),
            ),
    {
        let pages = pages_of(self);
        let ghost ps = profile_pages(*self);
        let mut r: Vec<StationId> = Vec::new();
        let mut i: usize = 0;
        assert(ps.subrange(0, 0) =~= Seq::<DirectAccessPage>::empty());
        assert(station_texts(r@).to_set() =~= called(pages_stations(ps.subrange(0, 0))));
        while i < pages.len()
            invariant
                0 <= i <= pages@.len(),
                ps == profile_pages(*self),
                pages@.map_values(|p: &DirectAccessPage| *p) == ps,
                station_texts(r@).no_duplicates(),
                station_texts(r@).to_set() == called(
                    pages_stations(ps.subrange(0, i as int)),
                ),
            decreases pages@.len() - i,
        {
            let page = pages[i];
            proof {
                assert(pages@.map_values(|p: &DirectAccessPage| *p)[i as int] == *page);
                assert(ps.subrange(0, i + 1).drop_last() =~= ps.subrange(0, i as int));
            }
            let ghost before = station_texts(r@).to_set();
            let mut j: usize = 0;
            while j < page.keys.len()
                invariant
                    0 <= j <= page.keys@.len(),
                    station_texts(r@).no_duplicates(),
                    station_texts(r@).to_set() == before.union(
                        called(key_stations(page.keys@).subrange(0, j as int)),
                    ),
                decreases page.keys@.len() - j,
            {
                let ghost prev = r@;
                proof {
                    assert(key_stations(page.keys@).subrange(0, j + 1) =~= key_stations(
                        page.keys@,
                    ).subrange(0, j as int).push(key_stations(page.keys@)[j as int]));
                }
                let ghost step: Set<Seq<char>> = match key_stations(page.keys@)[j as int] {
                    Some(y) => set![y],
                    None => Set::empty(),
                };
                proof {
                    assert(key_stations(page.keys@)[j as int] == match page.keys@[j as int].station_id {
                        Some(x) => Some(x@),
                        None => None::<Seq<char>>,
                    });
                }
                match &page.keys[j] {
                    DirectAccessKey { station_id: Some(id), .. } => {
                        if !contains_station(&r, id) {
                            r.push(id.clone());
                            proof {
                                assert(station_texts(r@) =~= station_texts(prev).push(id@));
                                crate::sets::lemma_push_distinct(station_texts(prev), id@);
                            }
                        } else {
                            assert(station_texts(prev).to_set().insert(id@) =~= station_texts(prev).to_set());
                        }
                        assert(station_texts(r@).to_set() =~= station_texts(prev).to_set().union(step));
                    },
                    _ => {
                        assert(station_texts(r@).to_set() =~= station_texts(prev).to_set().union(step));
                    },
                }
                proof {
                    let ks = key_stations(page.keys@);
                    assert forall|x: Seq<char>| #[trigger] called(ks.subrange(0, j + 1)).contains(x)
                        <==> (called(ks.subrange(0, j as int)).contains(x) || step.contains(x)) by {
                        if called(ks.subrange(0, j + 1)).contains(x) {
                            let q = choose|q: int| 0 <= q < j + 1 && #[trigger] ks.subrange(0, j + 1)[q] == Some(x);
                            if q < j {
                                assert(ks.subrange(0, j as int)[q] == Some(x));
                            }
                        }
                        if called(ks.subrange(0, j as int)).contains(x) {
                            let q = choose|q: int| 0 <= q < j && #[trigger] ks.subrange(0, j as int)[q] == Some(x);
                            assert(ks.subrange(0, j + 1)[q] == Some(x));
                        }
                        if step.contains(x) {
                            assert(ks.subrange(0, j + 1)[j as int] == Some(x));
                        }
                    }
                    assert(station_texts(r@).to_set() =~= before.union(
                        called(ks.subrange(0, j + 1)),
                    ));
                }
                j = j + 1;
            }
            proof {
                let ks = key_stations(page.keys@);
                assert(ks.subrange(0, ks.len() as int) =~= ks);
                let a = pages_stations(ps.subrange(0, i as int));
                assert(pages_stations(ps.subrange(0, i + 1)) == a + ks);
                assert forall|x: Seq<char>| called(a + ks).contains(x) <==> (called(a).contains(x)
                    || called(ks).contains(x)) by {
                    if called(a + ks).contains(x) {
                        let q = choose|q: int| 0 <= q < (a + ks).len() && #[trigger] (a + ks)[q] == Some(x);
                        if q < a.len() {
                            assert(a[q] == Some(x));
                        } else {
                            assert(ks[q - a.len()] == Some(x));
                        }
                    }
                    if called(a).contains(x) {
                        let q = choose|q: int| 0 <= q < a.len() && #[trigger] a[q] == Some(x);
                        assert((a + ks)[q] == Some(x));
                    }
                    if called(ks).contains(x) {
                        let q = choose|q: int| 0 <= q < ks.len() && #[trigger] ks[q] == Some(x);
                        assert((a + ks)[a.len() + q] == Some(x));
                    }
                }
                assert(station_texts(r@).to_set() =~= called(
                    pages_stations(ps.subrange(0, i + 1)),
                ));
            }
            i = i + 1;
        }
        assert(ps.subrange(0, pages@.len() as int) =~= ps);
        r
    }

    /// Checks that every key calls a station of `stations`; the first key,
    /// page after page, that calls another gives the error.
    pub fn validate_references(&self, stations: &Vec<StationId>) -> (r: Result<(), CoverageError>)
        ensures
            match first_unknown(
                pages_stations(profile_pages(*self)),
                station_texts(stations@).to_set(),
            ) {
                None => r is Ok,
                Some(id) => r matches Err(e) && e@ == CoverageErrorView::Validation(
                    ValidationErrorView::MissingReference { field: "station_id"@, ref_id: id },
                ),
            },
    {
        let pages = pages_of(self);
        let ghost ps = profile_pages(*self);
        let ghost known = station_texts(stations@).to_set();
        let mut i: usize = 0;
        assert(ps.subrange(0, 0) =~= Seq::<DirectAccessPage>::empty());
        assert(pages_stations(ps) =~= pages_stations(ps.subrange(0, 0)) + pages_stations(ps).skip(0));
        while i < pages.len()
            invariant
                0 <= i <= pages@.len(),
                ps == profile_pages(*self),
                pages@.map_values(|p: &DirectAccessPage| *p) == ps,
                known == station_texts(stations@).to_set(),
                first_unknown(pages_stations(ps), known) == first_unknown(
                    pages_stations(ps).skip(pages_stations(ps.subrange(0, i as int)).len() as int),
                    known,
                ),
                pages_stations(ps.subrange(0, i as int)).len() <= pages_stations(ps).len(),
                pages_stations(ps) == pages_stations(ps.subrange(0, i as int)) + pages_stations(ps).skip(
                    pages_stations(ps.subrange(0, i as int)).len() as int,
                ),
            decreases pages@.len() - i,
        {
            let page = pages[i];
            proof {
                assert(pages@.map_values(|p: &DirectAccessPage| *p)[i as int] == *page);
                assert(ps.subrange(0, i + 1).drop_last() =~= ps.subrange(0, i as int));
                lemma_pages_stations_prefix(ps, i + 1);
            }
            let ghost off = pages_stations(ps.subrange(0, i as int)).len() as int;
            let ghost ks = key_stations(page.keys@);
            let mut j: usize = 0;
            proof {
                assert(pages_stations(ps.subrange(0, i + 1)) == pages_stations(ps.subrange(0, i as int)) + ks);
            }
            while j < page.keys.len()
                invariant
                    0 <= j <= page.keys@.len(),
                    ps == profile_pages(*self),
                    known == station_texts(stations@).to_set(),
                    ks == key_stations(page.keys@),
                    0 <= off,
                    off + ks.len() <= pages_stations(ps).len(),
                    forall|q: int| 0 <= q < ks.len() ==> #[trigger] pages_stations(ps)[off + q] == ks[q],
                    first_unknown(pages_stations(ps), known) == first_unknown(
                        pages_stations(ps).skip(off + j),
                        known,
                    ),
                decreases page.keys@.len() - j,
            {
                let ghost rest = pages_stations(ps).skip(off + j);
                proof {
                    assert(pages_stations(ps)[off + j] == ks[j as int]);
                    assert(rest[0] == ks[j as int]);
                    assert(rest.drop_first() =~= pages_stations(ps).skip(off + j + 1));
                    assert(ks[j as int] == match page.keys@[j as int].station_id {
                        Some(x) => Some(x@),
                        None => None::<Seq<char>>,
                    });
                }
                match &page.keys[j] {
                    DirectAccessKey { station_id: Some(id), .. } => {
                        if !contains_station(stations, id) {
                            proof {
                                assert(!known.contains(id@));
                                assert(rest.len() > 0);
                                assert(first_unknown(rest, known) == Some(id@));
                                assert(first_unknown(pages_stations(ps), known) == Some(id@));
                            }
                            return Err(
                                CoverageError::Validation(
                                    ValidationError::MissingReference {
                                        field: "station_id".to_string(),
                                        ref_id: id.to_string(),
                                    },
                                ),
                            );
                        }
                        proof {
                            assert(known.contains(id@));
                        }
                    },
                    _ => {},
                }
                j = j + 1;
            }
            proof {
                assert(off + ks.len() == pages_stations(ps.subrange(0, i + 1)).len());
            }
            i = i + 1;
        }
        proof {
            assert(pages@.len() == ps.len());
            assert(ps.subrange(0, pages@.len() as int) =~= ps);
            assert(pages_stations(ps).skip(pages_stations(ps).len() as int) =~= Seq::<
                Option<Seq<char>>,
            >::empty());
            assert(first_unknown(Seq::<Option<Seq<char>>>::empty(), known) is None);
        }
        Ok(())
    }
}

/// The stations of the first `n` pages are a prefix of the stations of all
/// pages.
proof fn lemma_pages_stations_prefix(ps: Seq<DirectAccessPage>, n: int)
    requires
        0 <= n <= ps.len(),
    ensures
        pages_stations(ps) == pages_stations(ps.subrange(0, n)) + pages_stations(ps).skip(
            pages_stations(ps.subrange(0, n)).len() as int,
        ),
        pages_stations(ps.subrange(0, n)).len() <= pages_stations(ps).len(),
        n > 0 ==> pages_stations(ps.subrange(0, n)) == pages_stations(ps.subrange(0, n - 1))
            + key_stations(ps[n - 1].keys@),
    decreases ps.len(),
{
    if n > 0 {
        assert(ps.subrange(0, n).drop_last() =~= ps.subrange(0, n - 1));
        assert(ps.subrange(0, n).last() == ps[n - 1]);
    }
    if n < ps.len() {
        lemma_pages_stations_prefix(ps.drop_last(), n);
        assert(ps.drop_last().subrange(0, n) =~= ps.subrange(0, n));
        let a = pages_stations(ps.subrange(0, n));
        let b = pages_stations(ps.drop_last());
        assert(pages_stations(ps) == b + key_stations(ps.last().keys@));
        assert(pages_stations(ps) =~= a + pages_stations(ps).skip(a.len() as int));
    } else {
        assert(ps.subrange(0, n) =~= ps);
        assert(pages_stations(ps) =~= pages_stations(ps) + pages_stations(ps).skip(
            pages_stations(ps).len() as int,
        ));
    }
}

} // verus!
