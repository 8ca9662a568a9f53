//! Stations: the airspace parts that positions cover, with their parent chain.
use crate::coverage::{CoverageError, ValidationError, Validator};
use crate::ids::{FlightInformationRegionId, PositionId, StationId};
use vstd::prelude::*;

verus! {

/// The identifiers in `v`, as text.
pub open spec fn position_ids(v: Seq<PositionId>) -> Seq<Seq<char>> {
    v.map_values(|p: PositionId| p@)
}

/// `s` without repetitions, each element kept where it first occurs.
pub open spec fn dedup_first<A>(s: Seq<A>) -> Seq<A>
    decreases s.len(),
{
    if s.len() == 0 {
        s
    } else {
        let d = dedup_first(s.drop_last());
        if d.contains(s.last()) {
            d
        } else {
            d.push(s.last())
        }
    }
}

/// The concatenation of the sequences in `ss`, in order.
pub open spec fn concat_all<A>(ss: Seq<Seq<A>>) -> Seq<A>
    decreases ss.len(),
{
    if ss.len() == 0 {
        Seq::empty()
    } else {
        concat_all(ss.drop_last()) + ss.last()
    }
}

/// A station as read from the coverage files, before its coverage is resolved.
#[derive(Debug)]
pub struct StationRaw {
    pub id: StationId,
    pub parent_id: Option<StationId>,
    pub controlled_by: Vec<PositionId>,
}

/// A station of the network, with the full, ordered list of positions that
/// can cover it.
#[derive(Debug)]
pub struct Station {
    pub id: StationId,
    pub parent_id: Option<StationId>,
    pub controlled_by: Vec<PositionId>,
    pub fir_id: FlightInformationRegionId,
}

/// The mathematical content of a [`StationRaw`].
pub struct StationRawView {
    pub id: Seq<char>,
    pub parent_id: Option<Seq<char>>,
    pub controlled_by: Seq<Seq<char>>,
}

impl View for StationRaw {
    type V = StationRawView;

    open spec fn view(&self) -> StationRawView {
        StationRawView {
            id: self.id@,
            parent_id: opt_station_view(self.parent_id),
            controlled_by: position_ids(self.controlled_by@),
        }
    }
}

/// The contents of a list of raw stations.
pub open spec fn raw_views(v: Seq<StationRaw>) -> Seq<StationRawView> {
    v.map_values(|s: StationRaw| s@)
}

impl Clone for StationRaw {
    fn clone(&self) -> (r: Self)
        ensures
            r@ == self@,
    {
        let mut controlled_by: Vec<PositionId> = Vec::new();
        let mut i: usize = 0;
        while i < self.controlled_by.len()
            invariant
                i <= self.controlled_by.len(),
                position_ids(controlled_by@) == position_ids(self.controlled_by@).subrange(0, i as int),
            decreases self.controlled_by.len() - i,
        {
            let c = self.controlled_by[i].clone();
            assert(c@ == self.controlled_by@[i as int]@);
            let ghost old = controlled_by@;
            controlled_by.push(c);
            proof {
                assert(position_ids(old).len() == old.len());
                assert(old.len() == i);
                assert(controlled_by@ == old.push(c));
                assert(position_ids(controlled_by@).len() == i + 1);
                assert(forall|j: int| 0 <= j < i ==> position_ids(controlled_by@)[j] == position_ids(old)[j]);
                assert(position_ids(controlled_by@) =~= position_ids(self.controlled_by@).subrange(0, i + 1));
            }
            i = i + 1;
        }
        assert(position_ids(self.controlled_by@).subrange(0, i as int) =~= position_ids(self.controlled_by@));
        let parent_id = match &self.parent_id {
            Some(p) => Some(p.clone()),
            None => None,
        };
        StationRaw { id: self.id.clone(), parent_id, controlled_by }
    }
}

/// The mathematical content of a [`Station`].
pub struct StationView {
    pub id: Seq<char>,
    pub parent_id: Option<Seq<char>>,
    pub controlled_by: Seq<Seq<char>>,
    pub fir_id: Seq<char>,
}

/// The identifier of an optional station, as text.
pub open spec fn opt_station_view(o: Option<StationId>) -> Option<Seq<char>> {
    match o {
        Some(s) => Some(s@),
        None => None,
    }
}

impl View for Station {
    type V = StationView;

    open spec fn view(&self) -> StationView {
        StationView {
            id: self.id@,
            parent_id: opt_station_view(self.parent_id),
            controlled_by: position_ids(self.controlled_by@),
            fir_id: self.fir_id@,
        }
    }
}

impl PartialEq for Station {
    /// Stations are the same when their identifiers are.
    fn eq(&self, other: &Self) -> (r: bool) {
        self.id == other.id
    }
}

impl vstd::std_specs::cmp::PartialEqSpecImpl for Station {
    open spec fn obeys_eq_spec() -> bool {
        true
    }

    open spec fn eq_spec(&self, other: &Self) -> bool {
        self.id@ == other.id@
    }
}

/// The index of the last station in `all` whose identifier is `id`.
pub open spec fn last_index_of(all: Seq<StationRawView>, id: Seq<char>) -> Option<int>
    decreases all.len(),
{
    if all.len() == 0 {
        None
    } else if all.last().id == id {
        Some(all.len() - 1)
    } else {
        last_index_of(all.drop_last(), id)
    }
}

/// The stations met when following parents from `cur`: it stops before a
/// station already visited, at a station without parent, at a parent that
/// `all` lacks, or after `steps` parent steps.
pub open spec fn parent_chain(
    all: Seq<StationRawView>,
    cur: StationRawView,
    visited: Seq<Seq<char>>,
    steps: nat,
) -> Seq<StationRawView>
    decreases steps,
{
    if visited.contains(cur.id) {
        Seq::empty()
    } else if steps == 0 {
        seq![cur]
    } else {
        match cur.parent_id {
            None => seq![cur],
            Some(pid) => match last_index_of(all, pid) {
                None => seq![cur],
                Some(i) => seq![cur] + parent_chain(
                    all,
                    all[i],
                    visited.push(cur.id),
                    (steps - 1) as nat,
                ),
            },
        }
    }
}

/// The positions that cover `s`: those listed for it, then those of its
/// parent, and so on up the chain, each kept once, in the order met.
pub open spec fn resolved_coverage(s: StationRawView, all: Seq<StationRawView>) -> Seq<Seq<char>> {
    dedup_first(
        concat_all(
            parent_chain(all, s, Seq::empty(), all.len()).map_values(
                |st: StationRawView| st.controlled_by,
            ),
        ),
    )
}

/// An element is in `s.push(y)` exactly when it is `y` or is in `s`.
pub proof fn lemma_push_contains<A>(s: Seq<A>, y: A, x: A)
    ensures
        s.push(y).contains(x) <==> (s.contains(x) || x == y),
{
    if s.contains(x) {
        let i = choose|i: int| 0 <= i < s.len() && s[i] == x;
        assert(s.push(y)[i] == x);
    }
    if x == y {
        assert(s.push(y)[s.len() as int] == x);
    }
    if s.push(y).contains(x) {
        let i = choose|i: int| 0 <= i < s.len() + 1 && s.push(y)[i] == x;
        if i < s.len() {
            assert(s[i] == x);
        }
    }
}

proof fn lemma_dedup_contains<A>(s: Seq<A>, x: A)
    ensures
        dedup_first(s).contains(x) <==> s.contains(x),
    decreases s.len(),
{
    if s.len() > 0 {
        let t = s.drop_last();
        lemma_dedup_contains(t, x);
        lemma_dedup_contains(t, s.last());
        assert(s =~= t.push(s.last()));
        lemma_push_contains(t, s.last(), x);
        lemma_push_contains(dedup_first(t), s.last(), x);
    }
}

/// The result of [`dedup_first`] holds no element twice.
pub proof fn lemma_dedup_no_duplicates<A>(s: Seq<A>)
    ensures
        dedup_first(s).no_duplicates(),
    decreases s.len(),
{
    if s.len() > 0 {
        lemma_dedup_no_duplicates(s.drop_last());
    }
}

proof fn lemma_concat_prefix<A>(ss: Seq<Seq<A>>, k: int)
    requires
        ss.len() > 0,
        0 <= k < ss[0].len(),
    ensures
        k < concat_all(ss).len(),
        concat_all(ss)[k] == ss[0][k],
    decreases ss.len(),
{
    if ss.len() > 1 {
        lemma_concat_prefix(ss.drop_last(), k);
    } else {
        assert(concat_all(ss.drop_last()) =~= Seq::<A>::empty());
    }
}

/// The positions that cover a station are listed once each, and include
/// every position listed for the station itself.
pub proof fn lemma_resolved_coverage_keeps_own(s: StationRawView, all: Seq<StationRawView>)
    ensures
        resolved_coverage(s, all).no_duplicates(),
        forall|x: Seq<char>| s.controlled_by.contains(x) ==> resolved_coverage(s, all).contains(x),
{
    let chain = parent_chain(all, s, Seq::empty(), all.len());
    let lists = chain.map_values(|st: StationRawView| st.controlled_by);
    lemma_dedup_no_duplicates(concat_all(lists));
    assert(chain.len() > 0 && chain[0] == s);
    assert forall|x: Seq<char>| s.controlled_by.contains(x) implies resolved_coverage(s, all).contains(
        x,
    ) by {
        let k = choose|k: int| 0 <= k < s.controlled_by.len() && s.controlled_by[k] == x;
        assert(lists[0] == s.controlled_by);
        lemma_concat_prefix(lists, k);
        assert(concat_all(lists).contains(x));
        lemma_dedup_contains(concat_all(lists), x);
    }
}

pub(crate) proof fn lemma_dedup_push<A>(s: Seq<A>, x: A)
    ensures
        dedup_first(s.push(x)) == (if dedup_first(s).contains(x) {
            dedup_first(s)
        } else {
            dedup_first(s).push(x)
        }),
{
    assert(s.push(x).drop_last() =~= s);
}

impl Validator for StationRaw {
    /// Checks the station on its own: its identifier must not be empty.
    fn validate(&self) -> (r: Result<(), CoverageError>)
        ensures
            self.id@.len() == 0 ==> (r matches Err(
                CoverageError::Validation(ValidationError::Empty { field }),
            ) && field@ == "id"@),
            self.id@.len() != 0 ==> r is Ok,
    {
        if self.id.is_empty() {
            return Err(CoverageError::Validation(ValidationError::Empty { field: "id".to_owned() }));
        }
        Ok(())
    }
}

impl StationRaw {
    /// The positions that can cover this station: its own list, then the lists
    /// of its parents in turn (parents looked up in `all_stations`, the last
    /// entry winning where an identifier repeats), each position kept once.
    /// Following parents stops at a station already visited, so a cycle in
    /// the parent chain ends the walk.
    pub fn resolve_controlled_by(&self, all_stations: &Vec<StationRaw>) -> (r: Vec<PositionId>)
        ensures
            position_ids(r@) == resolved_coverage(self@, raw_views(all_stations@)),
    {
        let ghost all = raw_views(all_stations@);
        let ghost whole = parent_chain(all, self@, Seq::empty(), all.len());
        let mut controlled_by: Vec<PositionId> = Vec::new();
        let mut visited: Vec<StationId> = Vec::new();
        let mut current: &StationRaw = self;
        let mut steps: usize = all_stations.len();
        let ghost mut done: Seq<StationRawView> = Seq::empty();
        assert(visited@.map_values(|s: StationId| s@) =~= Seq::<Seq<char>>::empty());
        assert(done + whole =~= whole);
        assert(done.map_values(|st: StationRawView| st.controlled_by) =~= Seq::<Seq<Seq<char>>>::empty());
        assert(position_ids(controlled_by@) =~= Seq::<Seq<char>>::empty());
        loop
            invariant_except_break
                whole == done + parent_chain(
                    all,
                    current@,
                    visited@.map_values(|s: StationId| s@),
                    steps as nat,
                ),
                position_ids(controlled_by@) == dedup_first(
                    concat_all(done.map_values(|st: StationRawView| st.controlled_by)),
                ),
            invariant
                all == raw_views(all_stations@),
                whole == parent_chain(all, self@, Seq::empty(), all.len()),
            ensures
                whole == done,
                position_ids(controlled_by@) == dedup_first(
                    concat_all(done.map_values(|st: StationRawView| st.controlled_by)),
                ),
            decreases steps, 1nat,
        {
            let ghost vis = visited@.map_values(|s: StationId| s@);
            let ghost old_done = done;
            let ghost pc = parent_chain(all, current@, vis, steps as nat);
            let mut seen = false;
            let mut k: usize = 0;
            while k < visited.len()
                invariant
                    k <= visited.len(),
                    vis == visited@.map_values(|s: StationId| s@),
                    seen == vis.subrange(0, k as int).contains(current.id@),
                decreases visited.len() - k,
            {
                proof {
                    assert(vis.subrange(0, k + 1) =~= vis.subrange(0, k as int).push(vis[k as int]));
                    lemma_push_contains(vis.subrange(0, k as int), vis[k as int], current.id@);
                }
                if visited[k] == current.id {
                    seen = true;
                }
                k = k + 1;
            }
            assert(vis.subrange(0, vis.len() as int) =~= vis);
            if seen {
                assert(pc =~= Seq::<StationRawView>::empty());
                assert(whole =~= done);
                break;
            }
            assert(!vis.contains(current.id@));
            proof {
                lemma_dedup_contains(Seq::<Seq<char>>::empty(), current.id@);
            }
            let ghost flat = concat_all(done.map_values(|st: StationRawView| st.controlled_by));
            let mut j: usize = 0;
            while j < current.controlled_by.len()
                invariant
                    j <= current.controlled_by.len(),
                    position_ids(controlled_by@) == dedup_first(
                        flat + position_ids(current.controlled_by@).subrange(0, j as int),
                    ),
                decreases current.controlled_by.len() - j,
            {
                let pos = &current.controlled_by[j];
                let mut present = false;
                let mut m: usize = 0;
                while m < controlled_by.len()
                    invariant
                        m <= controlled_by.len(),
                        present == position_ids(controlled_by@).subrange(0, m as int).contains(pos@),
                    decreases controlled_by.len() - m,
                {
                    proof {
                        let ids = position_ids(controlled_by@);
                        assert(ids.subrange(0, m + 1) =~= ids.subrange(0, m as int).push(ids[m as int]));
                        lemma_push_contains(ids.subrange(0, m as int), ids[m as int], pos@);
                    }
                    if controlled_by[m] == *pos {
                        present = true;
                    }
                    m = m + 1;
                }
                let ghost ids = position_ids(controlled_by@);
                assert(ids.subrange(0, ids.len() as int) =~= ids);
                proof {
                    let pre = flat + position_ids(current.controlled_by@).subrange(0, j as int);
                    lemma_dedup_push(pre, pos@);
                    assert(flat + position_ids(current.controlled_by@).subrange(0, j + 1) =~= pre.push(pos@));
                }
                if !present {
                    controlled_by.push(pos.clone());
                    assert(position_ids(controlled_by@) =~= ids.push(pos@));
                }
                j = j + 1;
            }
            proof {
                assert(position_ids(current.controlled_by@).subrange(0, j as int) =~= position_ids(current.controlled_by@));
                let nd = done.push(current@);
                assert(nd.drop_last() =~= done);
                assert(nd.map_values(|st: StationRawView| st.controlled_by).drop_last() =~=
                    done.map_values(|st: StationRawView| st.controlled_by));
                done = nd;
            }
            let ghost old_steps = steps;
            let ghost old_vis = vis;
            let ghost old_current = current@;
            visited.push(current.id.clone());
            assert(visited@.map_values(|s: StationId| s@) =~= old_vis.push(old_current.id));
            if steps == 0 {
                assert(pc =~= seq![old_current]);
                assert(whole =~= done);
                break;
            }
            match &current.parent_id {
                None => {
                    assert(pc =~= seq![old_current]);
                    assert(whole =~= done);
                    break;
                },
                Some(pid) => {
                    let mut found: Option<usize> = None;
                    let mut q: usize = all_stations.len();
                    assert(all.subrange(0, all.len() as int) =~= all);
                    while q > 0
                        invariant
                            q <= all_stations.len(),
                            all == raw_views(all_stations@),
                            last_index_of(all, pid@) == (match found {
                                Some(i) => Some(i as int),
                                None => last_index_of(all.subrange(0, q as int), pid@),
                            }),
                            found matches Some(i) ==> i < all.len(),
                        ensures
                            q <= all_stations.len(),
                            last_index_of(all, pid@) == (match found {
                                Some(i) => Some(i as int),
                                None => last_index_of(all.subrange(0, q as int), pid@),
                            }),
                            found matches Some(i) ==> i < all.len(),
                            found is None ==> q == 0,
                        decreases q,
                    {
                        if found.is_some() {
                            break;
                        }
                        proof {
                            let sub = all.subrange(0, q as int);
                            assert(sub.drop_last() =~= all.subrange(0, q - 1));
                        }
                        if all_stations[q - 1].id == *pid {
                            found = Some(q - 1);
                        }
                        q = q - 1;
                    }
                    if found.is_none() {
                        assert(all.subrange(0, 0) =~= Seq::<StationRawView>::empty());
                    }
                    match found {
                        None => {
                            assert(pc =~= seq![old_current]);
                            assert(whole =~= done);
                            break;
                        },
                        Some(i) => {
                            current = &all_stations[i];
                            steps = steps - 1;
                            proof {
                                let rest = parent_chain(all, current@, old_vis.push(old_current.id), steps as nat);
                                assert(pc =~= seq![old_current] + rest);
                                assert(whole =~= done + rest);
                            }
                        },
                    }
                },
            }
        }
        controlled_by
    }
}

impl Station {
    /// Builds a station of `fir_id` from its raw form: checks it, then resolves
    /// its coverage against `all_stations`.
    pub fn from_raw(
        station_raw: StationRaw,
        fir_id: FlightInformationRegionId,
        all_stations: &Vec<StationRaw>,
    ) -> (r: Result<Station, CoverageError>)
        ensures
            station_raw.id@.len() == 0 ==> (r matches Err(
                CoverageError::Validation(ValidationError::Empty { field }),
            ) && field@ == "id"@),
            station_raw.id@.len() != 0 ==> (r matches Ok(s) && s@ == (StationView {
                id: station_raw.id@,
                parent_id: opt_station_view(station_raw.parent_id),
                controlled_by: resolved_coverage(station_raw@, raw_views(all_stations@)),
                fir_id: fir_id@,
            })),
    {
        station_raw.validate()?;
        let controlled_by = station_raw.resolve_controlled_by(all_stations);
        Ok(Station {
            id: station_raw.id,
            parent_id: station_raw.parent_id,
            controlled_by,
            fir_id,
        })
    }
}

} // verus!
