//! Keeping a load balancer's endpoints in step with name resolution: the
//! resolved addresses become service URIs, each round is compared with the
//! previous one, and the difference becomes insertions and removals.
use vstd::prelude::*;
use tonic::transport::Endpoint;
use crate::text::{endpoint_uri, endpoint_uri_text};

verus! {

#[verifier::external_type_specification]
#[verifier::external_body]
pub struct ExEndpoint(Endpoint);

#[verifier::external_type_specification]
#[verifier::external_body]
pub struct ExTransportError(tonic::transport::Error);

/// The texts of a sequence of strings.
pub open spec fn names(v: Seq<String>) -> Seq<Seq<char>> {
    v.map_values(|s: String| s@)
}

/// The set of texts of a sequence of strings.
pub open spec fn name_set(v: Seq<String>) -> Set<Seq<char>> {
    names(v).to_set()
}

/// Whether `s` is one of the strings of `v`.
pub fn contains_name(v: &Vec<String>, s: &String) -> (r: bool)
    ensures
        r == names(v@).contains(s@),
{
    let mut i: usize = 0;
    while i < v.len()
        invariant
            i <= v.len(),
            forall|k: int| 0 <= k < i ==> v@[k]@ != s@,
        decreases v.len() - i,
    {
        if v[i] == *s {
            assert(names(v@)[i as int] == s@);
            return true;
        }
        i += 1;
    }
    proof {
        if names(v@).contains(s@) {
            let k = choose|k: int| 0 <= k < names(v@).len() && names(v@)[k] == s@;
            assert(v@[k]@ == s@);
        }
    }
    false
}

/// An element is in a sequence with one more element exactly where it is
/// that element or was in the sequence already.
proof fn lemma_push_contains<A>(s: Seq<A>, x: A, y: A)
    ensures
        s.push(x).contains(y) <==> (s.contains(y) || y == x),
{
    if s.push(x).contains(y) {
        let k = choose|k: int| 0 <= k < s.push(x).len() && s.push(x)[k] == y;
        if k < s.len() {
            assert(s[k] == y);
        }
    }
    if s.contains(y) {
        let k = choose|k: int| 0 <= k < s.len() && s[k] == y;
        assert(s.push(x)[k] == y);
    }
    assert(s.push(x)[s.len() as int] == x);
}

/// Adding an element that is not there keeps a sequence free of duplicates.
proof fn lemma_push_no_dup<A>(s: Seq<A>, x: A)
    requires
        s.no_duplicates(),
        !s.contains(x),
    ensures
        s.push(x).no_duplicates(),
{
    assert forall|i: int, j: int|
        0 <= i < s.push(x).len() && 0 <= j < s.push(x).len() && i != j implies s.push(x)[i]
        != s.push(x)[j] by {
        if i == s.len() {
            assert(s[j] == s.push(x)[j]);
        } else if j == s.len() {
            assert(s[i] == s.push(x)[i]);
        }
    }
}

/// The strings of `a` whose text is not among those of `b`, each once.
pub fn names_not_in(a: &Vec<String>, b: &Vec<String>) -> (out: Vec<String>)
    ensures
        name_set(out@) == name_set(a@).difference(name_set(b@)),
        names(out@).no_duplicates(),
{
    broadcast use vstd::seq_lib::group_seq_properties;

    let mut out: Vec<String> = Vec::new();
    let mut i: usize = 0;
    assert(name_set(out@) =~= name_set(a@.take(0)).difference(name_set(b@)));
    while i < a.len()
        invariant
            i <= a.len(),
            name_set(out@) == name_set(a@.take(i as int)).difference(name_set(b@)),
            names(out@).no_duplicates(),
        decreases a.len() - i,
    {
        let ghost before = out@;
        let ghost x = a@[i as int]@;
        assert(names(a@.take(i + 1)) =~= names(a@.take(i as int)).push(x));
        let in_b = contains_name(b, &a[i]);
        let in_out = contains_name(&out, &a[i]);
        if !in_b && !in_out {
            out.push(a[i].clone());
            assert(names(out@) =~= names(before).push(x));
            proof {
                lemma_push_no_dup(names(before), x);
            }
        } else {
            assert(names(out@) =~= names(before));
        }
        assert forall|y: Seq<char>|
            name_set(out@).contains(y) <==> name_set(a@.take(i + 1)).difference(name_set(b@)).contains(
                y,
            ) by {
            lemma_push_contains(names(a@.take(i as int)), x, y);
            lemma_push_contains(names(before), x, y);
            assert(name_set(before).contains(y) <==> names(before).contains(y));
            assert(name_set(b@).contains(y) <==> names(b@).contains(y));
        }
        assert(name_set(out@) =~= name_set(a@.take(i + 1)).difference(name_set(b@)));
        i += 1;
    }
    assert(a@.take(a.len() as int) =~= a@);
    out
}

/// The strings of `v`, each once.
pub fn dedup_names(v: &Vec<String>) -> (out: Vec<String>)
    ensures
        name_set(out@) == name_set(v@),
        names(out@).no_duplicates(),
{
    let none: Vec<String> = Vec::new();
    let out = names_not_in(v, &none);
    assert(name_set(none@) =~= Set::<Seq<char>>::empty());
    assert(name_set(out@) =~= name_set(v@));
    out
}

/// The service URIs of the resolved hosts, each once: `http://<host>:7788`.
pub fn resolved_uris(hosts: &Vec<String>) -> (uris: Vec<String>)
    ensures
        name_set(uris@) == names(hosts@).map_values(|h: Seq<char>| endpoint_uri_text(h)).to_set(),
        names(uris@).no_duplicates(),
{
    let mut all: Vec<String> = Vec::new();
    let mut i: usize = 0;
    while i < hosts.len()
        invariant
            i <= hosts.len(),
            all@.len() == i,
            forall|k: int| 0 <= k < i ==> (#[trigger] all@[k])@ == endpoint_uri_text(hosts@[k]@),
        decreases hosts.len() - i,
    {
        all.push(endpoint_uri(hosts[i].as_str()));
        i += 1;
    }
    let uris = dedup_names(&all);
    assert(names(all@) =~= names(hosts@).map_values(|h: Seq<char>| endpoint_uri_text(h)));
    uris
}

/// What changed between two rounds of resolution.
pub struct EndpointDiff {
    /// The URIs that are new, each once.
    pub added: Vec<String>,
    /// The URIs that are gone, each once.
    pub removed: Vec<String>,
}

/// `diff` says exactly how `new` differs from `old`, as sets of texts, and
/// names nothing twice.
pub open spec fn is_diff(diff: EndpointDiff, old: Seq<String>, new: Seq<String>) -> bool {
    &&& name_set(diff.added@) == name_set(new).difference(name_set(old))
    &&& name_set(diff.removed@) == name_set(old).difference(name_set(new))
    &&& names(diff.added@).no_duplicates()
    &&& names(diff.removed@).no_duplicates()
}

/// The URIs of `new` missing from `old`, and those of `old` missing from
/// `new` (as `new - old` and `old - new` on sets).
pub fn diff_endpoints(old: &Vec<String>, new: &Vec<String>) -> (diff: EndpointDiff)
    ensures
        is_diff(diff, old@, new@),
{
    let added = names_not_in(new, old);
    let removed = names_not_in(old, new);
    EndpointDiff { added, removed }
}

/// Reconciliation: applying a difference to the old set (dropping what was
/// removed, adding what was added) gives the new set, and nothing is both
/// added and removed.
pub proof fn lemma_diff_reconciles(old: Set<Seq<char>>, new: Set<Seq<char>>, added: Set<Seq<char>>, removed: Set<Seq<char>>)
    requires
        added == new.difference(old),
        removed == old.difference(new),
    ensures
        old.difference(removed).union(added) == new,
        added.disjoint(removed),
{
    assert(old.difference(removed).union(added) =~= new);
}

/// A round that resolves to the same set as the previous one changes
/// nothing.
pub proof fn lemma_same_round_no_change(diff: EndpointDiff, old: Seq<String>, new: Seq<String>)
    requires
        is_diff(diff, old, new),
        name_set(old) == name_set(new),
    ensures
        diff.added@.len() == 0,
        diff.removed@.len() == 0,
{
    if diff.added@.len() > 0 {
        assert(names(diff.added@)[0] == diff.added@[0]@);
        assert(name_set(diff.added@).contains(diff.added@[0]@));
    }
    if diff.removed@.len() > 0 {
        assert(names(diff.removed@)[0] == diff.removed@[0]@);
        assert(name_set(diff.removed@).contains(diff.removed@[0]@));
    }
}

/// The URIs that the balancer was last told about.
pub struct EndpointSet {
    current: Vec<String>,
}

impl EndpointSet {
    /// The URIs of the last round.
    pub closed spec fn current(&self) -> Seq<String> {
        self.current@
    }

    /// No URIs yet.
    pub fn new() -> (s: Self)
        ensures
            s.current() == Seq::<String>::empty(),
    {
        EndpointSet { current: Vec::new() }
    }

    /// Takes in a new round of resolved URIs: returns how it differs from
    /// the last round, and keeps it as the last round.
    pub fn update(&mut self, resolved: Vec<String>) -> (diff: EndpointDiff)
        ensures
            is_diff(diff, old(self).current(), resolved@),
            final(self).current() == resolved@,
    {
        let diff = diff_endpoints(&self.current, &resolved);
        self.current = resolved;
        diff
    }
}

/// The endpoint that `tonic` makes of the text `uri`, or `None` where it
/// does not parse as a URI.
pub uninterp spec fn parsed_endpoint(uri: Seq<char>) -> Option<Endpoint>;

/// Whether `tonic` accepts `uri` as the address of an endpoint.
pub open spec fn uri_is_valid(uri: Seq<char>) -> bool {
    parsed_endpoint(uri) is Some
}

/// `Endpoint::from_str` of `tonic` (`uri.parse::<Endpoint>()`): it parses
/// `uri` as a URI (through `Endpoint::from_shared` and `http`'s
/// `Uri::from_maybe_shared`), a function of the text alone; it succeeds
/// exactly where `parsed_endpoint(uri)` is an endpoint, and gives that one.
#[verifier::external_body]
fn parse_endpoint(uri: &str) -> (res: Result<Endpoint, tonic::transport::Error>)
    ensures
        res is Ok <==> parsed_endpoint(uri@) is Some,
        res matches Ok(e) ==> parsed_endpoint(uri@) == Some(e),
{
    uri.parse::<Endpoint>()
}

/// A change to tell the balancer of.
pub enum EndpointChange {
    /// Connect to a new endpoint, known by its URI.
    Insert(String, Endpoint),
    /// Drop the endpoint with this URI.
    Remove(String),
}

/// A URI that does not name an endpoint.
#[derive(Debug)]
pub struct InvalidEndpoint {
    pub uri: String,
}

/// Whether `c` inserts the endpoint that `tonic` makes of `uri`, under the
/// key `uri`.
pub open spec fn inserts(c: EndpointChange, uri: Seq<char>) -> bool {
    c matches EndpointChange::Insert(k, e) && k@ == uri && Some(e) == parsed_endpoint(uri)
}

/// The key that a change is about.
pub open spec fn change_key(c: EndpointChange) -> Seq<char> {
    match c {
        EndpointChange::Insert(k, _) => k@,
        EndpointChange::Remove(k) => k@,
    }
}

/// The insertion of the endpoint at `uri`, or the error where `uri` is no
/// valid URI.
pub fn insert_change(uri: String) -> (res: Result<EndpointChange, InvalidEndpoint>)
    ensures
        res is Ok <==> uri_is_valid(uri@),
        match res {
            Ok(c) => inserts(c, uri@),
            Err(e) => e.uri@ == uri@,
        },
{
    match parse_endpoint(uri.as_str()) {
        Ok(endpoint) => Ok(EndpointChange::Insert(uri, endpoint)),
        Err(_) => Err(InvalidEndpoint { uri }),
    }
}

/// The changes for a difference: an insertion for each added URI, in
/// order, then a removal for each removed one. Where an added URI is not
/// valid, the error names the first such URI.
pub fn plan_changes(diff: EndpointDiff) -> (res: Result<Vec<EndpointChange>, InvalidEndpoint>)
    ensures
        match res {
            Ok(changes) => {
                &&& forall|i: int| 0 <= i < diff.added@.len() ==> uri_is_valid(#[trigger] diff.added@[i]@)
                &&& changes@.len() == diff.added@.len() + diff.removed@.len()
                &&& forall|i: int|
                    0 <= i < diff.added@.len() ==> inserts(#[trigger] changes@[i], diff.added@[i]@)
                &&& forall|j: int|
                    0 <= j < diff.removed@.len() ==> (#[trigger] changes@[diff.added@.len() + j]) is Remove
                        && change_key(changes@[diff.added@.len() + j]) == diff.removed@[j]@
            },
            Err(e) => exists|i: int|
                0 <= i < diff.added@.len() && !uri_is_valid(#[trigger] diff.added@[i]@) && e.uri@
                    == diff.added@[i]@ && forall|k: int| 0 <= k < i ==> uri_is_valid(#[trigger] diff.added@[k]@),
        },
{
    let ghost added = diff.added@;
    let ghost removed = diff.removed@;
    let EndpointDiff { added: added_uris, removed: removed_uris } = diff;
    let mut changes: Vec<EndpointChange> = Vec::new();
    let mut i: usize = 0;
    while i < added_uris.len()
        invariant
            added_uris@ == added,
            added == diff.added@,
            i <= added.len(),
            changes@.len() == i,
            forall|k: int| 0 <= k < i ==> uri_is_valid(#[trigger] added[k]@),
            forall|k: int|
                0 <= k < i ==> inserts(#[trigger] changes@[k], added[k]@),
        decreases added.len() - i,
    {
        match insert_change(added_uris[i].clone()) {
            Ok(c) => changes.push(c),
            Err(e) => {
                assert(!uri_is_valid(added[i as int]@));
                assert(e.uri@ == added[i as int]@);
                assert(diff.added@ == added);
                assert(exists|i: int|
                    0 <= i < diff.added@.len() && !uri_is_valid(#[trigger] diff.added@[i]@) && e.uri@
                        == diff.added@[i]@ && forall|k: int| 0 <= k < i ==> uri_is_valid(#[trigger] diff.added@[k]@));
                return Err(e);
            },
        }
        i += 1;
    }
    let mut j: usize = 0;
    while j < removed_uris.len()
        invariant
            removed_uris@ == removed,
            added == diff.added@,
            removed == diff.removed@,
            j <= removed.len(),
            changes@.len() == added.len() + j,
            forall|k: int|
                0 <= k < added.len() ==> inserts(#[trigger] changes@[k], added[k]@),
            forall|k: int|
                0 <= k < j ==> (#[trigger] changes@[added.len() + k]) is Remove && change_key(
                    changes@[added.len() + k],
                ) == removed[k]@,
        decreases removed.len() - j,
    {
        changes.push(EndpointChange::Remove(removed_uris[j].clone()));
        j += 1;
    }
    Ok(changes)
}

} // verus!
