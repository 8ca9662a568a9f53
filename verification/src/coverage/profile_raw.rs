//! Direct access pages and tabs as read from the profile files, and the rules
//! they must keep before they become part of a profile.
use crate::coverage::{CoverageError, CoverageErrorView, ValidationError, ValidationErrorView, Validator};
use crate::coverage::strings_view;
use crate::ids::StationId;
use crate::profile::{station_texts, ClientPage};
use vstd::prelude::*;

verus! {

/// The text that `{:?}` gives for a list of labels.
pub uninterp spec fn debug_labels(labels: Seq<Seq<char>>) -> Seq<char>;

/// `format!("{:?}", labels)`: std's `Debug` for a list of strings, a
/// function of the strings alone; its text is named, not restated.
#[verifier::external_body]
pub(crate) fn format_labels(labels: &Vec<String>) -> (r: String)
    ensures
        r@ == debug_labels(strings_view(labels@)),
{
    format!("{:?}", labels)
}

/// A page of direct access keys, as read.
#[derive(Debug)]
pub struct DirectAccessPageRaw {
    pub keys: Vec<DirectAccessKeyRaw>,
    pub rows: u8,
}

/// A direct access key, as read: it calls a station, opens a page or opens
/// the client page, at most one of these.
#[derive(Debug)]
pub struct DirectAccessKeyRaw {
    pub label: Vec<String>,
    pub station_id: Option<StationId>,
    pub page: Option<DirectAccessPageRaw>,
    pub client_page: Option<ClientPage>,
}

/// A tab of a tabbed profile, as read.
#[derive(Debug)]
pub struct TabRaw {
    pub label: String,
    pub page: DirectAccessPageRaw,
}

/// The error of a list of more than three label lines.
pub open spec fn label_lines_error(labels: Seq<Seq<char>>) -> ValidationErrorView {
    ValidationErrorView::InvalidValue {
        field: "label"@,
        value: debug_labels(labels),
        reason: "cannot have more than 3 lines"@,
    }
}

/// The error of a page or client page without rows.
pub open spec fn no_rows_error() -> ValidationErrorView {
    ValidationErrorView::OutOfRange { field: "rows"@, value: "0"@, min: "1"@, max: None }
}

/// The names of the targets that a key defines, in the order station, page,
/// client page.
pub open spec fn defined_targets(k: DirectAccessKeyRaw) -> Seq<Seq<char>> {
    let a: Seq<Seq<char>> = if k.station_id is Some {
        seq!["station_id"@]
    } else {
        Seq::empty()
    };
    let b: Seq<Seq<char>> = if k.page is Some {
        a.push("page"@)
    } else {
        a
    };
    if k.client_page is Some {
        b.push("client_page"@)
    } else {
        b
    }
}

/// The first rule that the page `p` breaks, if any: it needs a row, and
/// each of its keys, in order, must keep the rules of keys.
pub open spec fn page_problem(p: DirectAccessPageRaw) -> Option<ValidationErrorView>
    decreases p,
{
    if p.rows == 0 {
        Some(no_rows_error())
    } else {
        keys_problem(p.keys@)
    }
}

/// The first rule that a key of `ks` breaks, if any.
pub open spec fn keys_problem(ks: Seq<DirectAccessKeyRaw>) -> Option<ValidationErrorView>
    decreases ks,
{
    if ks.len() == 0 {
        None
    } else {
        match key_problem(ks[0]) {
            Some(e) => Some(e),
            None => keys_problem(ks.subrange(1, ks.len() as int)),
        }
    }
}

/// The first rule that the key `k` breaks, if any: at most three label
/// lines; at most one target; a page or client page it opens must keep the
/// rules of pages.
pub open spec fn key_problem(k: DirectAccessKeyRaw) -> Option<ValidationErrorView>
    decreases k,
{
    if k.label@.len() > 3 {
        Some(label_lines_error(strings_view(k.label@)))
    } else if defined_targets(k).len() > 1 {
        Some(ValidationErrorView::MutuallyExclusive { fields: defined_targets(k) })
    } else {
        match k.page {
            Some(p) => page_problem(p),
            None => match k.client_page {
                Some(c) => if c.rows == 0 {
                    Some(no_rows_error())
                } else {
                    None
                },
                None => None,
            },
        }
    }
}

/// The first rule that the tab `t` breaks, if any: it needs a label, and
/// its page must keep the rules of pages.
pub open spec fn tab_problem(t: TabRaw) -> Option<ValidationErrorView> {
    if t.label@.len() == 0 {
        Some(ValidationErrorView::Empty { field: "label"@ })
    } else {
        page_problem(t.page)
    }
}

/// The first rule that a tab of `ts` breaks, if any.
pub open spec fn tabs_problem(ts: Seq<TabRaw>) -> Option<ValidationErrorView>
    decreases ts.len(),
{
    if ts.len() == 0 {
        None
    } else {
        match tab_problem(ts[0]) {
            Some(e) => Some(e),
            None => tabs_problem(ts.subrange(1, ts.len() as int)),
        }
    }
}

/// The first rule that the tabs of a tabbed profile break, if any: there
/// must be a tab, and each must keep the rules of tabs.
pub open spec fn tabbed_problem(ts: Seq<TabRaw>) -> Option<ValidationErrorView> {
    if ts.len() == 0 {
        Some(ValidationErrorView::Empty { field: "tabs"@ })
    } else {
        tabs_problem(ts)
    }
}

fn validation(e: ValidationError) -> (r: CoverageError)
    ensures
        r@ == CoverageErrorView::Validation(e@),
{
    CoverageError::Validation(e)
}

impl Validator for DirectAccessPageRaw {
    /// Checks the page: at least one row, and every key, in order.
    fn validate(&self) -> (r: Result<(), CoverageError>)
        ensures
            match page_problem(*self) {
                None => r is Ok,
                Some(e) => r matches Err(err) && err@ == CoverageErrorView::Validation(e),
            },
        decreases *self,
    {
        if self.rows == 0 {
            return Err(
                validation(
                    ValidationError::OutOfRange {
                        field: "rows".to_string(),
                        value: "0".to_string(),
                        min: "1".to_string(),
                        max: None,
                    },
                ),
            );
        }
        let ghost ks = self.keys@;
        let n = self.keys.len();
        let mut i: usize = 0;
        assert(ks.subrange(0, n as int) =~= ks);
        while i < n
            invariant
                i <= n,
                n == ks.len(),
                ks == self.keys@,
                self.rows != 0,
                page_problem(*self) == keys_problem(ks.subrange(i as int, n as int)),
            decreases n - i,
        {
            let ghost rest = ks.subrange(i as int, n as int);
            assert(rest[0] == ks[i as int]);
            assert(rest.subrange(1, rest.len() as int) =~= ks.subrange(i + 1, n as int));
            proof {
                assert(decreases_to!(*self => self.keys));
                assert(decreases_to!(self.keys => self.keys@));
                assert(decreases_to!(self.keys@ => self.keys@[i as int]));
            }
            match self.keys[i].validate() {
                Ok(()) => {},
                Err(err) => {
                    return Err(err);
                },
            }
            i = i + 1;
        }
        assert(ks.subrange(n as int, n as int).len() == 0);
        Ok(())
    }
}

impl Validator for DirectAccessKeyRaw {
    /// Checks the key: at most three label lines, at most one of station,
    /// page and client page, and the page or client page it opens.
    fn validate(&self) -> (r: Result<(), CoverageError>)
        ensures
            match key_problem(*self) {
                None => r is Ok,
                Some(e) => r matches Err(err) && err@ == CoverageErrorView::Validation(e),
            },
        decreases *self,
    {
        if self.label.len() > 3 {
            return Err(
                validation(
                    ValidationError::InvalidValue {
                        field: "label".to_string(),
                        value: format_labels(&self.label),
                        reason: "cannot have more than 3 lines".to_string(),
                    },
                ),
            );
        }
        let mut defined: Vec<String> = Vec::new();
        if self.station_id.is_some() {
            defined.push("station_id".to_string());
        }
        if self.page.is_some() {
            defined.push("page".to_string());
        }
        if self.client_page.is_some() {
            defined.push("client_page".to_string());
        }
        assert(strings_view(defined@) =~= defined_targets(*self));
        if defined.len() > 1 {
            return Err(validation(ValidationError::MutuallyExclusive { fields: defined }));
        }
        match &self.page {
            Some(p) => {
                proof {
                    assert(decreases_to!(*self => self.page));
                }
                p.validate()
            },
            None => match &self.client_page {
                Some(c) => c.validate(),
                None => Ok(()),
            },
        }
    }
}

impl Validator for TabRaw {
    /// Checks the tab: a label, and its page.
    fn validate(&self) -> (r: Result<(), CoverageError>)
        ensures
            match tab_problem(*self) {
                None => r is Ok,
                Some(e) => r matches Err(err) && err@ == CoverageErrorView::Validation(e),
            },
    {
        if self.label.as_str().is_empty() {
            return Err(validation(ValidationError::Empty { field: "label".to_string() }));
        }
        self.page.validate()
    }
}

/// Checks the tabs of a tabbed profile: at least one, and each in order.
pub fn validate_tabs(tabs: &Vec<TabRaw>) -> (r: Result<(), CoverageError>)
    ensures
        match tabbed_problem(tabs@) {
            None => r is Ok,
            Some(e) => r matches Err(err) && err@ == CoverageErrorView::Validation(e),
        },
{
    if tabs.len() == 0 {
        return Err(validation(ValidationError::Empty { field: "tabs".to_string() }));
    }
    let ghost ts = tabs@;
    let n = tabs.len();
    let mut i: usize = 0;
    assert(ts.subrange(0, n as int) =~= ts);
    while i < n
        invariant
            i <= n,
            n == ts.len(),
            n > 0,
            ts == tabs@,
            tabbed_problem(ts) == tabs_problem(ts.subrange(i as int, n as int)),
        decreases n - i,
    {
        let ghost rest = ts.subrange(i as int, n as int);
        assert(rest[0] == ts[i as int]);
        assert(rest.subrange(1, rest.len() as int) =~= ts.subrange(i + 1, n as int));
        match tabs[i].validate() {
            Ok(()) => {},
            Err(err) => {
                return Err(err);
            },
        }
        i = i + 1;
    }
    assert(ts.subrange(n as int, n as int).len() == 0);
    Ok(())
}

/// The stations that the keys of the page `p` call, and those of the pages
/// that its keys open, at any depth.
pub open spec fn page_stations(p: DirectAccessPageRaw) -> Set<Seq<char>>
    decreases p,
{
    keys_stations(p.keys@)
}

/// The stations that the keys `ks` call, and those of the pages they open.
pub open spec fn keys_stations(ks: Seq<DirectAccessKeyRaw>) -> Set<Seq<char>>
    decreases ks,
{
    if ks.len() == 0 {
        Set::empty()
    } else {
        key_stations(ks[0]).union(keys_stations(ks.subrange(1, ks.len() as int)))
    }
}

/// The station that the key `k` calls, and those of the page it opens.
pub open spec fn key_stations(k: DirectAccessKeyRaw) -> Set<Seq<char>>
    decreases k,
{
    let own: Set<Seq<char>> = match k.station_id {
        Some(s) => set![s@],
        None => Set::empty(),
    };
    match k.page {
        Some(p) => own.union(page_stations(p)),
        None => own,
    }
}

/// The stations that the pages `ps` call.
pub open spec fn pages_stations(ps: Seq<DirectAccessPageRaw>) -> Set<Seq<char>>
    decreases ps.len(),
{
    if ps.len() == 0 {
        Set::empty()
    } else {
        page_stations(ps[0]).union(pages_stations(ps.subrange(1, ps.len() as int)))
    }
}

/// Adds `id` to `out` where it is not there yet.
fn add_station(out: &mut Vec<StationId>, id: &StationId)
    requires
        station_texts(old(out)@).no_duplicates(),
    ensures
        station_texts(final(out)@).no_duplicates(),
        station_texts(final(out)@).to_set() == station_texts(old(out)@).to_set().insert(id@),
{
    let ghost prev = out@;
    let mut i: usize = 0;
    while i < out.len()
        invariant
            0 <= i <= out.len(),
            out@ == prev,
            station_texts(prev).no_duplicates(),
            forall|j: int| 0 <= j < i ==> out@[j]@ != id@,
        decreases out.len() - i,
    {
        if out[i] == *id {
            proof {
                assert(station_texts(prev)[i as int] == id@);
                assert(station_texts(prev).to_set().insert(id@) =~= station_texts(prev).to_set());
            }
            return;
        }
        i = i + 1;
    }
    proof {
        if station_texts(prev).contains(id@) {
            let j = choose|j: int| 0 <= j < station_texts(prev).len() && #[trigger] station_texts(prev)[j] == id@;
            assert(prev[j]@ == id@);
        }
    }
    out.push(id.clone());
    proof {
        assert(station_texts(out@) =~= station_texts(prev).push(id@));
        crate::sets::lemma_push_distinct(station_texts(prev), id@);
    }
}

/// Adds to `out` the stations that the page `p` calls.
fn add_page_stations(p: &DirectAccessPageRaw, out: &mut Vec<StationId>)
    requires
        station_texts(old(out)@).no_duplicates(),
    ensures
        station_texts(final(out)@).no_duplicates(),
        station_texts(final(out)@).to_set() == station_texts(old(out)@).to_set().union(
            page_stations(*p),
        ),
    decreases *p,
{
    let ghost before = station_texts(out@).to_set();
    let ghost ks = p.keys@;
    let n = p.keys.len();
    let mut i: usize = 0;
    assert(ks.subrange(0, n as int) =~= ks);
    while i < n
        invariant
            i <= n,
            n == ks.len(),
            ks == p.keys@,
            station_texts(out@).no_duplicates(),
            station_texts(out@).to_set().union(keys_stations(ks.subrange(i as int, n as int)))
                == before.union(page_stations(*p)),
        decreases n - i,
    {
        let ghost rest = ks.subrange(i as int, n as int);
        let ghost was = station_texts(out@).to_set();
        assert(rest[0] == ks[i as int]);
        assert(rest.subrange(1, rest.len() as int) =~= ks.subrange(i + 1, n as int));
        let key = &p.keys[i];
        let ghost own: Set<Seq<char>> = match ks[i as int].station_id {
            Some(s) => set![s@],
            None => Set::empty(),
        };
        match &key.station_id {
            Some(id) => {
                add_station(out, id);
                assert(was.insert(id@) =~= was.union(own));
            },
            None => {
                assert(was =~= was.union(own));
            },
        }
        let ghost mid = station_texts(out@).to_set();
        match &key.page {
            Some(sub) => {
                proof {
                    assert(decreases_to!(*p => p.keys));
                    assert(decreases_to!(p.keys => p.keys@));
                    assert(decreases_to!(p.keys@ => p.keys@[i as int]));
                    assert(decreases_to!(p.keys@[i as int] => p.keys@[i as int].page));
                }
                add_page_stations(sub, out);
            },
            None => {},
        }
        proof {
            assert(station_texts(out@).to_set() =~= was.union(key_stations(ks[i as int])));
            assert(station_texts(out@).to_set().union(keys_stations(ks.subrange(i + 1, n as int)))
                =~= was.union(keys_stations(rest)));
        }
        i = i + 1;
    }
    assert(keys_stations(ks.subrange(n as int, n as int)) =~= Set::<Seq<char>>::empty());
    assert(station_texts(out@).to_set() =~= before.union(page_stations(*p)));
}

/// The stations that the pages `pages` call, at any depth, each once.
pub fn pages_station_ids(pages: &Vec<DirectAccessPageRaw>) -> (r: Vec<StationId>)
    ensures
        station_texts(r@).no_duplicates(),
        station_texts(r@).to_set() == pages_stations(pages@),
{
    let mut out: Vec<StationId> = Vec::new();
    let ghost ps = pages@;
    let n = pages.len();
    let mut i: usize = 0;
    assert(ps.subrange(0, n as int) =~= ps);
    assert(station_texts(out@).to_set() =~= Set::<Seq<char>>::empty());
    while i < n
        invariant
            i <= n,
            n == ps.len(),
            ps == pages@,
            station_texts(out@).no_duplicates(),
            station_texts(out@).to_set().union(pages_stations(ps.subrange(i as int, n as int)))
                == pages_stations(ps),
        decreases n - i,
    {
        let ghost rest = ps.subrange(i as int, n as int);
        let ghost was = station_texts(out@).to_set();
        assert(rest[0] == ps[i as int]);
        assert(rest.subrange(1, rest.len() as int) =~= ps.subrange(i + 1, n as int));
        add_page_stations(&pages[i], &mut out);
        assert(station_texts(out@).to_set().union(pages_stations(ps.subrange(i + 1, n as int)))
            =~= was.union(pages_stations(rest)));
        i = i + 1;
    }
    assert(pages_stations(ps.subrange(n as int, n as int)) =~= Set::<Seq<char>>::empty());
    assert(station_texts(out@).to_set() =~= pages_stations(ps));
    out
}

/// The key `k` calls no station, or one of `known`.
pub open spec fn key_ref_known(k: DirectAccessKeyRaw, known: Set<Seq<char>>) -> bool {
    match k.station_id {
        Some(s) => known.contains(s@),
        None => true,
    }
}

/// The key `j` of page `i` comes before the key `jj` of page `ii`.
pub open spec fn key_before(i: int, j: int, ii: int, jj: int) -> bool {
    i < ii || (i == ii && j < jj)
}

/// Every key of the pages `ps` calls no station or one of `known`; the keys
/// of the pages that keys open are not looked at.
pub open spec fn refs_known(ps: Seq<DirectAccessPageRaw>, known: Set<Seq<char>>) -> bool {
    forall|i: int, j: int|
        0 <= i < ps.len() && 0 <= j < ps[i].keys@.len() ==> key_ref_known(
            #[trigger] ps[i].keys@[j],
            known,
        )
}

/// The key `j` of page `i` is the first, page after page, that calls a
/// station outside `known`.
pub open spec fn first_unknown_ref(ps: Seq<DirectAccessPageRaw>, known: Set<Seq<char>>, i: int, j: int) -> bool {
    &&& 0 <= i < ps.len()
    &&& 0 <= j < ps[i].keys@.len()
    &&& !key_ref_known(ps[i].keys@[j], known)
    &&& forall|ii: int, jj: int|
        0 <= ii < ps.len() && 0 <= jj < ps[ii].keys@.len() && key_before(ii, jj, i, j)
            ==> key_ref_known(#[trigger] ps[ii].keys@[jj], known)
}

/// Checks that every key of the pages `pages` calls a station of `stations`
/// or none; the first, page after page, that calls another gives the error.
pub fn validate_page_references(pages: &Vec<DirectAccessPageRaw>, stations: &Vec<StationId>) -> (r:
    Result<(), CoverageError>)
    ensures
        r is Ok <==> refs_known(pages@, station_texts(stations@).to_set()),
        r is Err ==> exists|i: int, j: int|
            #![trigger pages@[i].keys@[j]]
            first_unknown_ref(pages@, station_texts(stations@).to_set(), i, j) && (r matches Err(e)
                && e@ == CoverageErrorView::Validation(
                ValidationErrorView::MissingReference {
                    field: "station_id"@,
                    ref_id: pages@[i].keys@[j].station_id->0@,
                },
            )),
{
    let ghost known = station_texts(stations@).to_set();
    let ghost ps = pages@;
    let mut i: usize = 0;
    while i < pages.len()
        invariant
            i <= ps.len(),
            ps == pages@,
            known == station_texts(stations@).to_set(),
            forall|ii: int, jj: int|
                0 <= ii < i && 0 <= jj < ps[ii].keys@.len() ==> key_ref_known(
                    #[trigger] ps[ii].keys@[jj],
                    known,
                ),
        decreases ps.len() - i,
    {
        let page = &pages[i];
        let mut j: usize = 0;
        while j < page.keys.len()
            invariant
                i < ps.len(),
                j <= ps[i as int].keys@.len(),
                ps == pages@,
                *page == ps[i as int],
                known == station_texts(stations@).to_set(),
                forall|ii: int, jj: int|
                    0 <= ii < ps.len() && 0 <= jj < ps[ii].keys@.len() && key_before(ii, jj, i as int, j as int)
                        ==> key_ref_known(#[trigger] ps[ii].keys@[jj], known),
            decreases page.keys@.len() - j,
        {
            match &page.keys[j].station_id {
                Some(id) => {
                    if !crate::profile::contains_station(stations, id) {
                        assert(first_unknown_ref(ps, known, i as int, j as int));
                        return Err(
                            validation(
                                ValidationError::MissingReference {
                                    field: "station_id".to_string(),
                                    ref_id: id.to_string(),
                                },
                            ),
                        );
                    }
                },
                None => {},
            }
            assert(key_ref_known(ps[i as int].keys@[j as int], known));
            j = j + 1;
        }
        i = i + 1;
    }
    Ok(())
}

} // verus!
