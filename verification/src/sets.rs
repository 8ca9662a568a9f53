//! Lists without repeats, read as sets: of client identifiers (compared by
//! their text) and of call identifiers.
use crate::calls::CallId;
use crate::ids::ClientId;
use vstd::prelude::*;

verus! {

/// Dropping the member at `i` of a list without repeats drops it from the
/// set and keeps the list without repeats.
pub proof fn lemma_remove_distinct<A>(s: Seq<A>, i: int)
    requires
        s.no_duplicates(),
        0 <= i < s.len(),
    ensures
        s.remove(i).no_duplicates(),
        s.remove(i).to_set() == s.to_set().remove(s[i]),
{
    broadcast use vstd::set::group_set_axioms;

    let t = s.remove(i);
    assert forall|a: int, b: int| 0 <= a < t.len() && 0 <= b < t.len() && a != b implies t[a]
        != t[b] by {
        let a2 = if a < i { a } else { a + 1 };
        let b2 = if b < i { b } else { b + 1 };
        assert(t[a] == s[a2] && t[b] == s[b2]);
    }
    assert forall|x: A| t.to_set().contains(x) <==> s.to_set().remove(s[i]).contains(x) by {
        if t.contains(x) {
            let j = choose|j: int| 0 <= j < t.len() && t[j] == x;
            let j2 = if j < i { j } else { j + 1 };
            assert(s[j2] == x);
        }
        if s.contains(x) && x != s[i] {
            let j = choose|j: int| 0 <= j < s.len() && s[j] == x;
            if j < i {
                assert(t[j] == x);
            } else {
                assert(t[j - 1] == x);
            }
        }
    }
    assert(t.to_set() =~= s.to_set().remove(s[i]));
}

/// Appending a new member to a list without repeats adds it to the set and
/// keeps the list without repeats.
pub proof fn lemma_push_distinct<A>(s: Seq<A>, x: A)
    requires
        s.no_duplicates(),
        !s.contains(x),
    ensures
        s.push(x).no_duplicates(),
        s.push(x).to_set() == s.to_set().insert(x),
{
    broadcast use vstd::set::group_set_axioms;

    let t = s.push(x);
    assert forall|a: int, b: int| 0 <= a < t.len() && 0 <= b < t.len() && a != b implies t[a]
        != t[b] by {
        if a < s.len() && b < s.len() {
            assert(t[a] == s[a] && t[b] == s[b]);
        } else if a < s.len() {
            assert(t[a] == s[a]);
        } else {
            assert(t[b] == s[b]);
        }
    }
    assert forall|y: A| t.to_set().contains(y) <==> s.to_set().insert(x).contains(y) by {
        if t.contains(y) {
            let j = choose|j: int| 0 <= j < t.len() && t[j] == y;
            if j < s.len() {
                assert(s[j] == y);
            }
        }
        if s.contains(y) {
            let j = choose|j: int| 0 <= j < s.len() && s[j] == y;
            assert(t[j] == y);
        }
        if y == x {
            assert(t[s.len() as int] == y);
        }
    }
    assert(t.to_set() =~= s.to_set().insert(x));
}

/// The texts of the identifiers in `v`, in order.
pub open spec fn client_ids(v: Seq<ClientId>) -> Seq<Seq<char>> {
    v.map_values(|c: ClientId| c@)
}

/// The set of identifier texts in `v`.
pub open spec fn client_set(v: Seq<ClientId>) -> Set<Seq<char>> {
    client_ids(v).to_set()
}

/// No identifier text occurs twice in `v`.
pub open spec fn clients_distinct(v: Seq<ClientId>) -> bool {
    client_ids(v).no_duplicates()
}

/// A list without repeats has as many members as its set.
pub proof fn lemma_client_set_len(v: Seq<ClientId>)
    requires
        clients_distinct(v),
    ensures
        client_set(v).len() == v.len(),
        client_set(v).finite(),
{
    client_ids(v).unique_seq_to_set();
    vstd::seq_lib::seq_to_set_is_finite(client_ids(v));
}

/// Whether `c` is in `v`.
pub fn contains_client(v: &Vec<ClientId>, c: &ClientId) -> (r: bool)
    ensures
        r == client_set(v@).contains(c@),
{
    let mut i: usize = 0;
    while i < v.len()
        invariant
            0 <= i <= v.len(),
            forall|j: int| 0 <= j < i ==> v@[j]@ != c@,
        decreases v.len() - i,
    {
        if v[i] == *c {
            assert(client_ids(v@)[i as int] == c@);
            return true;
        }
        i = i + 1;
    }
    assert(!client_ids(v@).contains(c@)) by {
        if client_ids(v@).contains(c@) {
            let j = choose|j: int| 0 <= j < client_ids(v@).len() && client_ids(v@)[j] == c@;
            assert(v@[j]@ == c@);
        }
    }
    false
}

/// Adds `c` to `v` unless it is there already.
pub fn insert_client(v: &mut Vec<ClientId>, c: &ClientId)
    requires
        clients_distinct(old(v)@),
    ensures
        clients_distinct(final(v)@),
        client_set(final(v)@) == client_set(old(v)@).insert(c@),
{
    broadcast use vstd::set::group_set_axioms;

    if !contains_client(v, c) {
        let ghost before = v@;
        v.push(c.clone());
        proof {
            assert(client_ids(v@) =~= client_ids(before).push(c@));
            lemma_push_distinct(client_ids(before), c@);
        }
    } else {
        assert(client_set(v@) =~= client_set(v@).insert(c@));
    }
}

/// Removes `c` from `v`.
pub fn remove_client(v: &mut Vec<ClientId>, c: &ClientId)
    requires
        clients_distinct(old(v)@),
    ensures
        clients_distinct(final(v)@),
        client_set(final(v)@) == client_set(old(v)@).remove(c@),
{
    broadcast use vstd::set::group_set_axioms;

    let ghost before = v@;
    let mut i: usize = 0;
    while i < v.len()
        invariant
            0 <= i <= v.len(),
            v@ == before,
            before == old(v)@,
            clients_distinct(before),
            forall|j: int| 0 <= j < i ==> v@[j]@ != c@,
        decreases v.len() - i,
    {
        if v[i] == *c {
            v.remove(i);
            proof {
                assert(client_ids(v@) =~= client_ids(before).remove(i as int));
                assert(client_ids(before)[i as int] == c@);
                lemma_remove_distinct(client_ids(before), i as int);
            }
            return ;
        }
        i = i + 1;
    }
    assert forall|x: Seq<char>| client_set(before).contains(x) implies x != c@ by {
        let j = choose|j: int| 0 <= j < client_ids(before).len() && client_ids(before)[j] == x;
        assert(before[j]@ == x);
    }
    assert(client_set(v@) =~= client_set(before).remove(c@));
}

/// The members of `v`, each once, in the order of their first occurrence.
pub fn distinct_clients(v: &Vec<ClientId>) -> (r: Vec<ClientId>)
    ensures
        clients_distinct(r@),
        client_set(r@) == client_set(v@),
{
    let mut r: Vec<ClientId> = Vec::new();
    let mut i: usize = 0;
    while i < v.len()
        invariant
            0 <= i <= v.len(),
            clients_distinct(r@),
            client_set(r@) == client_ids(v@).subrange(0, i as int).to_set(),
        decreases v.len() - i,
    {
        insert_client(&mut r, &v[i]);
        proof {
            assert(client_ids(v@).subrange(0, i + 1) =~= client_ids(v@).subrange(
                0,
                i as int,
            ).push(v@[i as int]@));
            client_ids(v@).subrange(0, i as int).lemma_push_to_set_commute(v@[i as int]@);
        }
        i = i + 1;
    }
    assert(client_ids(v@).subrange(0, v.len() as int) =~= client_ids(v@));
    r
}

/// The set of call identifiers in `v`.
pub open spec fn call_set(v: Seq<CallId>) -> Set<CallId> {
    v.to_set()
}

/// Whether `id` is in `v`.
pub fn contains_call(v: &Vec<CallId>, id: CallId) -> (r: bool)
    ensures
        r == call_set(v@).contains(id),
{
    let mut i: usize = 0;
    while i < v.len()
        invariant
            0 <= i <= v.len(),
            forall|j: int| 0 <= j < i ==> v@[j] != id,
        decreases v.len() - i,
    {
        if v[i] == id {
            return true;
        }
        i = i + 1;
    }
    false
}

/// Adds `id` to `v` unless it is there already.
pub fn insert_call(v: &mut Vec<CallId>, id: CallId)
    requires
        old(v)@.no_duplicates(),
    ensures
        final(v)@.no_duplicates(),
        call_set(final(v)@) == call_set(old(v)@).insert(id),
{
    broadcast use vstd::set::group_set_axioms;

    if !contains_call(v, id) {
        let ghost before = v@;
        v.push(id);
        proof {
            lemma_push_distinct(before, id);
        }
    } else {
        assert(call_set(v@) =~= call_set(v@).insert(id));
    }
}

/// Removes `id` from `v`.
pub fn remove_call(v: &mut Vec<CallId>, id: CallId)
    requires
        old(v)@.no_duplicates(),
    ensures
        final(v)@.no_duplicates(),
        call_set(final(v)@) == call_set(old(v)@).remove(id),
{
    broadcast use vstd::set::group_set_axioms;

    let ghost before = v@;
    let mut i: usize = 0;
    while i < v.len()
        invariant
            0 <= i <= v.len(),
            v@ == before,
            before == old(v)@,
            before.no_duplicates(),
            forall|j: int| 0 <= j < i ==> v@[j] != id,
        decreases v.len() - i,
    {
        if v[i] == id {
            v.remove(i);
            proof {
                assert(before[i as int] == id);
                lemma_remove_distinct(before, i as int);
            }
            return ;
        }
        i = i + 1;
    }
    assert(call_set(v@) =~= call_set(before).remove(id));
}

} // verus!
