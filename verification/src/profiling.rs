//! The profiler: one entry of measurements for each key, and the timings
//! of the handlers by method.

use vstd::prelude::*;
use crate::names::{
    compare_names,
    lemma_before_is_transitive,
    lemma_not_before_itself,
    name_before,
    NameOrder,
};
use crate::profiler::{
    flushed,
    gained,
    is_sorted_copy,
    report_of,
    reports_on,
    sorted_report,
    Entry,
    EntryReport,
};

verus! {

/// The state of the profiler. Keys are numbers; the timings of the
/// handlers are kept in the order of the names of their methods.
pub struct Profiler {
    keys: Vec<u64>,
    entries: Vec<Entry>,
    methods: Vec<String>,
    timings: Vec<Vec<(usize, u128)>>,
}

/// The microseconds of a handler's time as measurements hold them: the
/// number given, or the largest number where there is none or a negative one.
pub open spec fn micros_of(duration: Option<i64>) -> usize {
    match duration {
        Some(micros) => if 0 <= micros <= usize::MAX {
            micros as usize
        } else {
            usize::MAX
        },
        None => usize::MAX,
    }
}

/// Whether `key` is one of `keys`.
pub open spec fn holds_key(keys: Seq<u64>, key: u64) -> bool {
    exists|i: int| 0 <= i < keys.len() && keys[i] == key
}

/// Whether `method` is one of `methods`.
pub open spec fn holds_method(methods: Seq<Seq<char>>, method: Seq<char>) -> bool {
    exists|i: int| 0 <= i < methods.len() && methods[i] == method
}

/// Whether the lists `after` are the lists `before` with one more timing
/// for `method` at place `i`: with the timings of the method where it had
/// some, else as a new list at the place that the name of the method takes.
pub open spec fn recorded_at(
    after_methods: Seq<Seq<char>>,
    after_timings: Seq<Seq<(usize, u128)>>,
    methods: Seq<Seq<char>>,
    timings: Seq<Seq<(usize, u128)>>,
    method: Seq<char>,
    value: usize,
    i: int,
) -> bool {
    &&& 0 <= i < after_methods.len()
    &&& after_methods[i] == method
    &&& if holds_method(methods, method) {
        after_methods == methods && after_timings == timings.update(
            i,
            timings[i].push((value, 0u128)),
        )
    } else {
        after_methods == methods.insert(i, method) && after_timings == timings.insert(
            i,
            seq![(value, 0u128)],
        )
    }
}

/// Names in strictly ascending order.
pub open spec fn names_ascend(names: Seq<Seq<char>>) -> bool {
    forall|i: int, j: int| 0 <= i < j < names.len() ==> name_before(names[i], names[j])
}

impl Profiler {
    /// The keys that have an entry, in the order in which they came.
    pub closed spec fn keys(&self) -> Seq<u64> {
        self.keys@
    }

    /// The measurements of the entries, key by key.
    pub closed spec fn measurements(&self) -> Seq<Seq<(usize, u128)>> {
        Seq::new(self.entries.len() as nat, |i: int| self.entries[i]@)
    }

    /// The methods that have timings, in ascending order of their names.
    pub closed spec fn methods(&self) -> Seq<Seq<char>> {
        Seq::new(self.methods.len() as nat, |i: int| self.methods[i]@)
    }

    /// The timings of the handlers, method by method; every timing stands
    /// at the time 0.
    pub closed spec fn timings(&self) -> Seq<Seq<(usize, u128)>> {
        Seq::new(self.timings.len() as nat, |i: int| self.timings[i]@)
    }

    /// The state is well formed: every key has one entry and every method
    /// one list of timings; no key stands twice; the methods ascend.
    pub closed spec fn wf(&self) -> bool {
        &&& self.keys.len() == self.entries.len()
        &&& self.methods.len() == self.timings.len()
        &&& forall|i: int, j: int| 0 <= i < j < self.keys.len() ==> self.keys[i] != self.keys[j]
        &&& names_ascend(self.methods())
    }

    /// What a well-formed state says of its parts.
    pub proof fn law_well_formed(&self)
        requires
            self.wf(),
        ensures
            self.keys().len() == self.measurements().len(),
            self.methods().len() == self.timings().len(),
            forall|i: int, j: int| 0 <= i < j < self.keys().len() ==> self.keys()[i] != self.keys()[j],
            names_ascend(self.methods()),
    {
    }

    /// A profiler without measurements.
    pub fn start() -> (res: Profiler)
        ensures
            res.wf(),
            res.keys().len() == 0,
            res.measurements().len() == 0,
            res.methods().len() == 0,
            res.timings().len() == 0,
    {
        Profiler { keys: Vec::new(), entries: Vec::new(), methods: Vec::new(), timings: Vec::new() }
    }

    /// Registers a measurement under a key: with the entry of the key, or
    /// with a new entry behind the others where the key has none.
    pub fn register(&mut self, key: u64, value: usize)
        requires
            old(self).wf(),
        ensures
            final(self).wf(),
            final(self).methods() == old(self).methods(),
            final(self).timings() == old(self).timings(),
            holds_key(old(self).keys(), key) ==> final(self).keys() == old(self).keys(),
            !holds_key(old(self).keys(), key) ==> final(self).keys() == old(self).keys().push(key),
            final(self).measurements().len() == final(self).keys().len(),
            forall|i: int|
                0 <= i < old(self).keys().len() && old(self).keys()[i] != key ==> #[trigger] final(self).measurements()[i] == old(self).measurements()[i],
            forall|i: int|
                0 <= i < final(self).keys().len() && final(self).keys()[i] == key ==> gained(
                    #[trigger] final(self).measurements()[i],
                    if i < old(self).keys().len() {
                        old(self).measurements()[i]
                    } else {
                        Seq::empty()
                    },
                    value,
                ),
    {
        let mut i: usize = 0;
        while i < self.keys.len() && self.keys[i] != key
            invariant
                0 <= i <= self.keys.len(),
                forall|k: int| 0 <= k < i ==> self.keys[k] != key,
                *self == *old(self),
            decreases self.keys.len() - i,
        {
            i += 1;
        }
        let ghost before = self.measurements();
        if i < self.keys.len() {
            let mut entry = self.entries.remove(i);
            entry.register(value);
            self.entries.insert(i, entry);
            proof {
                assert(holds_key(old(self).keys(), key));
                assert(self.methods() =~= old(self).methods());
                assert(self.timings() =~= old(self).timings());
                assert forall|k: int|
                    0 <= k < old(self).keys().len() && old(self).keys()[k] != key implies #[trigger] self.measurements()[k]
                    == before[k] by {
                    assert(k != i);
                }
                assert forall|k: int|
                    0 <= k < self.keys().len() && self.keys()[k] == key implies gained(
                    #[trigger] self.measurements()[k],
                    if k < old(self).keys().len() {
                        before[k]
                    } else {
                        Seq::empty()
                    },
                    value,
                ) by {
                    assert(k == i);
                    assert(self.measurements()[k] == self.entries[i as int]@);
                }
            }
        } else {
            let mut entry = Entry::new();
            entry.register(value);
            self.keys.push(key);
            self.entries.push(entry);
            proof {
                assert(!holds_key(old(self).keys(), key));
                assert(self.methods() =~= old(self).methods());
                assert(self.timings() =~= old(self).timings());
                assert forall|k: int|
                    0 <= k < self.keys().len() && self.keys()[k] == key implies gained(
                    #[trigger] self.measurements()[k],
                    if k < old(self).keys().len() {
                        before[k]
                    } else {
                        Seq::empty()
                    },
                    value,
                ) by {
                    assert(k == i);
                    assert(self.measurements()[k] == self.entries[i as int]@);
                }
            }
        }
    }

    /// Flushes every entry: the measurements that are `duration` seconds
    /// old or older are dropped, and the entry reports on the others. The
    /// reports come key by key.
    pub fn flush(&mut self, duration: u64) -> (reports: Vec<(u64, EntryReport)>)
        requires
            old(self).wf(),
        ensures
            final(self).wf(),
            final(self).keys() == old(self).keys(),
            final(self).methods() == old(self).methods(),
            final(self).timings() == old(self).timings(),
            final(self).measurements().len() == old(self).measurements().len(),
            reports.len() == old(self).keys().len(),
            forall|i: int|
                0 <= i < reports.len() ==> (#[trigger] reports[i]).0 == old(self).keys()[i]
                    && reports[i].1 == report_of(final(self).measurements()[i]),
            forall|i: int|
                0 <= i < reports.len() ==> flushed(
                    #[trigger] final(self).measurements()[i],
                    old(self).measurements()[i],
                    duration,
                ),
    {
        let mut reports: Vec<(u64, EntryReport)> = Vec::new();
        let mut done: Vec<Entry> = Vec::new();
        let ghost before = self.measurements();
        let n = self.entries.len();
        let mut i: usize = 0;
        while i < n
            invariant
                0 <= i <= n,
                n == old(self).entries.len(),
                n == self.keys.len(),
                self.keys == old(self).keys,
                self.methods == old(self).methods,
                self.timings == old(self).timings,
                self.entries.len() == n - i,
                forall|k: int| 0 <= k < n - i ==> (#[trigger] self.entries[k])@ == before[i + k],
                before == old(self).measurements(),
                done.len() == i,
                reports.len() == i,
                forall|k: int|
                    0 <= k < i ==> (#[trigger] reports[k]).0 == self.keys[k] && reports[k].1
                        == report_of(done[k]@),
                forall|k: int|
                    0 <= k < i ==> flushed((#[trigger] done[k])@, before[k], duration),
            decreases n - i,
        {
            let mut entry = self.entries.remove(0);
            let ghost was = entry@;
            let report = entry.flush(duration);
            proof {
                assert(was == before[i as int]);
            }
            reports.push((self.keys[i], report));
            done.push(entry);
            i += 1;
        }
        self.entries = done;
        proof {
            assert(self.methods() =~= old(self).methods());
            assert(self.timings() =~= old(self).timings());
            assert forall|k: int| 0 <= k < reports.len() implies flushed(
                #[trigger] self.measurements()[k],
                old(self).measurements()[k],
                duration,
            ) by {
                assert(self.measurements()[k] == done[k]@);
            }
            assert forall|k: int| 0 <= k < reports.len() implies (#[trigger] reports[k]).0 == old(self).keys()[k] && reports[k].1 == report_of(self.measurements()[k]) by {
                assert(self.measurements()[k] == done[k]@);
            }
        }
        reports
    }

    /// The microseconds of a handler's time as measurements hold them.
    pub fn micros(duration: Option<i64>) -> (res: usize)
        ensures
            res == micros_of(duration),
    {
        match duration {
            Some(micros) => if micros < 0 {
                usize::MAX
            } else if micros as u64 > usize::MAX as u64 {
                usize::MAX
            } else {
                micros as usize
            },
            None => usize::MAX,
        }
    }

    /// Records the time that a handler took, in microseconds, with the
    /// timings of its method; a method without timings gets its place among
    /// the methods by its name.
    pub fn record_future_time(&mut self, duration: Option<i64>, method: String)
        requires
            old(self).wf(),
        ensures
            final(self).wf(),
            final(self).keys() == old(self).keys(),
            final(self).measurements() == old(self).measurements(),
            final(self).methods().len() == final(self).timings().len(),
            exists|i: int| #[trigger]
                recorded_at(
                    final(self).methods(),
                    final(self).timings(),
                    old(self).methods(),
                    old(self).timings(),
                    method@,
                    micros_of(duration),
                    i,
                ),
    {
        let value = Self::micros(duration);
        let ghost names = self.methods();
        let ghost lists = self.timings();
        let mut i: usize = 0;
        let mut found = false;
        let mut searching = true;
        while searching && i < self.methods.len()
            invariant
                0 <= i <= self.methods.len(),
                *self == *old(self),
                names == self.methods(),
                names_ascend(names),
                forall|k: int| 0 <= k < i ==> name_before(#[trigger] names[k], method@),
                !searching ==> i < self.methods.len() && if found {
                    names[i as int] == method@
                } else {
                    name_before(method@, names[i as int])
                },
                searching ==> !found,
            decreases self.methods.len() - i, if searching { 1int } else { 0int },
        {
            match compare_names(method.as_str(), self.methods[i].as_str()) {
                NameOrder::After => {
                    i += 1;
                },
                NameOrder::Same => {
                    found = true;
                    searching = false;
                },
                NameOrder::Before => {
                    searching = false;
                },
            }
        }
        proof {
            // The method stands nowhere but at `i`, if it stands there.
            assert forall|k: int| 0 <= k < names.len() && k != i implies names[k] != method@ by {
                lemma_not_before_itself(method@);
                if k > i {
                    if found {
                        assert(name_before(names[i as int], names[k]));
                    } else {
                        assert(name_before(names[i as int], names[k]));
                        lemma_before_is_transitive(method@, names[i as int], names[k]);
                    }
                }
            }
        }
        if found {
            let mut list = self.timings.remove(i);
            list.push((value, 0));
            self.timings.insert(i, list);
            proof {
                assert(holds_method(names, method@));
                assert(self.methods() =~= names);
                assert(self.timings() =~= lists.update(i as int, lists[i as int].push((value, 0u128))));
                assert(self.keys() =~= old(self).keys());
                assert(self.measurements() =~= old(self).measurements());
                assert(recorded_at(
                    self.methods(),
                    self.timings(),
                    names,
                    lists,
                    method@,
                    value,
                    i as int,
                ));
            }
        } else {
            let mut list: Vec<(usize, u128)> = Vec::new();
            list.push((value, 0));
            let ghost name = method@;
            self.methods.insert(i, method);
            self.timings.insert(i, list);
            proof {
                assert(!holds_method(names, name));
                assert(self.methods() =~= names.insert(i as int, name));
                assert(self.timings() =~= lists.insert(i as int, seq![(value, 0u128)]));
                assert(self.keys() =~= old(self).keys());
                assert(self.measurements() =~= old(self).measurements());
                let after = self.methods();
                assert forall|a: int, b: int| 0 <= a < b < after.len() implies name_before(
                    after[a],
                    after[b],
                ) by {
                    if b < i {
                        assert(after[a] == names[a] && after[b] == names[b]);
                    } else if b == i {
                        assert(after[a] == names[a]);
                    } else if a < i {
                        assert(after[a] == names[a] && after[b] == names[b - 1]);
                    } else if a == i {
                        assert(after[b] == names[b - 1]);
                        if b - 1 > i {
                            assert(name_before(names[i as int], names[b - 1]));
                            lemma_before_is_transitive(name, names[i as int], names[b - 1]);
                        }
                    } else {
                        assert(after[a] == names[a - 1] && after[b] == names[b - 1]);
                    }
                }
                assert(recorded_at(self.methods(), self.timings(), names, lists, name, value, i as int));
            }
        }
    }

    /// Reports on the timings of the handlers, method by method in
    /// ascending order of the names, and forgets them.
    pub fn get_handler_timings(&mut self) -> (reports: Vec<(String, EntryReport)>)
        requires
            old(self).wf(),
        ensures
            final(self).wf(),
            final(self).keys() == old(self).keys(),
            final(self).measurements() == old(self).measurements(),
            final(self).methods().len() == 0,
            final(self).timings().len() == 0,
            reports.len() == old(self).methods().len(),
            forall|i: int| 0 <= i < reports.len() ==> (#[trigger] reports[i]).0@ == old(self).methods()[i],
            forall|i: int|
                0 <= i < reports.len() ==> reports_on((#[trigger] reports[i]).1, old(self).timings()[i]),
            forall|i: int, j: int|
                0 <= i < j < reports.len() ==> name_before(reports[i].0@, reports[j].0@),
    {
        let mut reports: Vec<(String, EntryReport)> = Vec::new();
        let n = self.methods.len();
        let mut i: usize = 0;
        while i < n
            invariant
                0 <= i <= n,
                *self == *old(self),
                self.wf(),
                n == self.methods.len(),
                reports.len() == i,
                forall|k: int| 0 <= k < i ==> (#[trigger] reports[k]).0@ == self.methods()[k],
                forall|k: int| 0 <= k < i ==> reports_on((#[trigger] reports[k]).1, self.timings()[k]),
            decreases n - i,
        {
            let (sorted, report) = sorted_report(&self.timings[i]);
            proof {
                assert(is_sorted_copy(sorted@, self.timings()[i as int]) && report == report_of(
                    sorted@,
                ));
            }
            reports.push((self.methods[i].clone(), report));
            i += 1;
        }
        proof {
            assert forall|a: int, b: int| 0 <= a < b < reports.len() implies name_before(
                reports[a].0@,
                reports[b].0@,
            ) by {
                assert(name_before(self.methods()[a], self.methods()[b]));
            }
        }
        self.methods = Vec::new();
        self.timings = Vec::new();
        proof {
            assert(self.keys() =~= old(self).keys());
            assert(self.measurements() =~= old(self).measurements());
        }
        reports
    }
}

} // verus!
