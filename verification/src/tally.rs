//! A tally of which worker answered, reported periodically from the most
//! frequent down and then cleared.
use vstd::prelude::*;
use crate::keyed::{
    find_key, key_map, lemma_key_map_dom, lemma_key_map_update, lemma_key_map_value,
    lemma_unique_push, lemma_unique_update, unique_keys,
};

verus! {

/// Whether the counts of `s` never grow from one entry to a later one.
pub open spec fn sorted_by_count_desc(s: Seq<(String, usize)>) -> bool {
    forall|i: int, j: int| 0 <= i < j < s.len() ==> (#[trigger] s[i]).1 >= (#[trigger] s[j]).1
}

/// How often each answer came, by answer text.
pub struct ResponseTally {
    counts: Vec<(String, usize)>,
}

impl ResponseTally {
    /// The invariant: one entry per answer.
    pub closed spec fn wf(&self) -> bool {
        unique_keys(self.counts@)
    }

    /// The count of each answer seen.
    pub closed spec fn counts(&self) -> Map<Seq<char>, usize> {
        key_map(self.counts@)
    }

    /// The entries, one per answer, in no particular order.
    pub closed spec fn entries(&self) -> Seq<(String, usize)> {
        self.counts@
    }

    /// Nothing counted.
    pub fn new() -> (t: Self)
        ensures
            t.wf(),
            t.counts() == Map::<Seq<char>, usize>::empty(),
            t.entries() == Seq::<(String, usize)>::empty(),
    {
        ResponseTally { counts: Vec::new() }
    }

    /// How often `key` was counted, if at all.
    pub fn count_of(&self, key: &String) -> (n: Option<usize>)
        requires
            self.wf(),
        ensures
            n == (if self.counts().dom().contains(key@) {
                Some(self.counts()[key@])
            } else {
                None
            }),
    {
        proof {
            lemma_key_map_dom(self.counts@, key@);
        }
        match find_key(&self.counts, key) {
            Some(i) => {
                proof {
                    lemma_key_map_value(self.counts@, i as int);
                }
                Some(self.counts[i].1)
            },
            None => None,
        }
    }

    /// Counts one more answer `key` (a first one counts 1).
    pub fn record(&mut self, key: String)
        requires
            old(self).wf(),
            old(self).counts().dom().contains(key@) ==> old(self).counts()[key@] < usize::MAX,
        ensures
            final(self).wf(),
            final(self).counts() == old(self).counts().insert(
                key@,
                if old(self).counts().dom().contains(key@) {
                    (old(self).counts()[key@] + 1) as usize
                } else {
                    1usize
                },
            ),
    {
        proof {
            lemma_key_map_dom(self.counts@, key@);
        }
        match find_key(&self.counts, &key) {
            Some(i) => {
                proof {
                    lemma_key_map_value(self.counts@, i as int);
                }
                let n = self.counts[i].1 + 1;
                proof {
                    lemma_key_map_update(self.counts@, i as int, (key, n));
                    lemma_unique_update(self.counts@, i as int, (key, n));
                }
                self.counts.set(i, (key, n));
            },
            None => {
                proof {
                    lemma_unique_push(self.counts@, (key, 1usize));
                }
                self.counts.push((key, 1));
                assert(self.counts@.drop_last() =~= old(self).counts@);
            },
        }
    }

    /// Hands out every entry, the highest count first, and clears the
    /// tally.
    pub fn drain_sorted(&mut self) -> (report: Vec<(String, usize)>)
        requires
            old(self).wf(),
        ensures
            final(self).wf(),
            final(self).counts() == Map::<Seq<char>, usize>::empty(),
            final(self).entries() == Seq::<(String, usize)>::empty(),
            report@.to_multiset() == old(self).entries().to_multiset(),
            sorted_by_count_desc(report@),
    {
        broadcast use vstd::seq_lib::group_to_multiset_ensures;

        let mut pending: Vec<(String, usize)> = Vec::new();
        std::mem::swap(&mut pending, &mut self.counts);
        let ghost orig = pending@;
        let mut report: Vec<(String, usize)> = Vec::new();
        while pending.len() > 0
            invariant
                sorted_by_count_desc(report@),
                report@.to_multiset().add(pending@.to_multiset()) == orig.to_multiset(),
            decreases pending.len(),
        {
            let ghost before_pending = pending@;
            let ghost before_report = report@;
            let entry = pending.pop().unwrap();
            proof {
                assert(before_pending =~= pending@.push(entry));
            }
            let mut p: usize = 0;
            while p < report.len() && report[p].1 >= entry.1
                invariant
                    report@ == before_report,
                    p <= report.len(),
                    forall|i: int| 0 <= i < p ==> (#[trigger] report@[i]).1 >= entry.1,
                decreases report.len() - p,
            {
                p += 1;
            }
            proof {
                if p < report.len() {
                    assert forall|j: int| p <= j < report@.len() implies (#[trigger] report@[j]).1
                        < entry.1 by {
                        if j > p {
                            assert(report@[p as int].1 >= report@[j].1);
                        }
                    }
                }
            }
            report.insert(p, entry);
            proof {
                let r = report@;
                assert forall|i: int, j: int| 0 <= i < j < r.len() implies (#[trigger] r[i]).1
                    >= (#[trigger] r[j]).1 by {
                    if j < p {
                        assert(r[j] == before_report[j]);
                        assert(r[i] == before_report[i]);
                    } else if i < p && j == p {
                    } else if i < p && j > p {
                        assert(r[j] == before_report[j - 1]);
                        assert(r[i] == before_report[i]);
                    } else if i == p {
                        assert(r[j] == before_report[j - 1]);
                    } else {
                        assert(r[j] == before_report[j - 1]);
                        assert(r[i] == before_report[i - 1]);
                    }
                }
                assert(report@.to_multiset() == before_report.to_multiset().insert(entry)) by {
                    vstd::seq_lib::to_multiset_insert(before_report, p as int, entry);
                }
                assert(before_pending.to_multiset() == pending@.to_multiset().insert(entry)) by {
                    vstd::seq_lib::to_multiset_build(pending@, entry);
                }
                assert(report@.to_multiset().add(pending@.to_multiset()) =~= before_report.to_multiset().add(
                    before_pending.to_multiset(),
                ));
            }
        }
        proof {
            assert(pending@ =~= Seq::<(String, usize)>::empty());
            assert(pending@.to_multiset() =~= vstd::multiset::Multiset::empty());
            assert(report@.to_multiset().add(pending@.to_multiset()) =~= report@.to_multiset());
            assert(self.counts@ =~= Seq::<(String, usize)>::empty());
            assert(key_map(self.counts@) =~= Map::<Seq<char>, usize>::empty());
        }
        report
    }
}

/// A report lists every counted answer with its count: each of its entries
/// is an answer with the count the tally had for it, and every answer the
/// tally counted appears in it.
pub proof fn lemma_report_matches_counts(t: ResponseTally, report: Seq<(String, usize)>)
    requires
        t.wf(),
        report.to_multiset() == t.entries().to_multiset(),
    ensures
        report.len() == t.entries().len(),
        forall|i: int|
            0 <= i < report.len() ==> t.counts().dom().contains((#[trigger] report[i]).0@)
                && t.counts()[report[i].0@] == report[i].1,
        forall|k: Seq<char>|
            #[trigger] t.counts().dom().contains(k) ==> exists|i: int|
                0 <= i < report.len() && (#[trigger] report[i]).0@ == k,
{
    broadcast use vstd::seq_lib::group_to_multiset_ensures;

    let e = t.entries();
    assert(report.len() == e.len()) by {
        vstd::seq_lib::to_multiset_len(report);
        vstd::seq_lib::to_multiset_len(e);
    }
    assert forall|i: int| 0 <= i < report.len() implies t.counts().dom().contains(
        (#[trigger] report[i]).0@,
    ) && t.counts()[report[i].0@] == report[i].1 by {
        vstd::seq_lib::to_multiset_contains(report, report[i]);
        assert(report.contains(report[i]));
        vstd::seq_lib::to_multiset_contains(e, report[i]);
        let j = choose|j: int| 0 <= j < e.len() && e[j] == report[i];
        lemma_key_map_value(e, j);
    }
    assert forall|k: Seq<char>| #[trigger] t.counts().dom().contains(k) implies exists|i: int|
        0 <= i < report.len() && (#[trigger] report[i]).0@ == k by {
        lemma_key_map_dom(e, k);
        let j = choose|j: int| 0 <= j < e.len() && (#[trigger] e[j]).0@ == k;
        assert(e.contains(e[j]));
        vstd::seq_lib::to_multiset_contains(e, e[j]);
        vstd::seq_lib::to_multiset_contains(report, e[j]);
        let i = choose|i: int| 0 <= i < report.len() && report[i] == e[j];
        assert(report[i].0@ == k);
    }
}

} // verus!
