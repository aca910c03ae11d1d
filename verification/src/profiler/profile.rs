//! The finished profile of one run: per-function totals and the run's own
//! figures, fixed once it is made.

use vstd::prelude::*;
use vstd::string::StringExecFns;
use super::order::{is_ranking, key_values, position_values, rank_descending, ranked};
use super::units::{Duration, Percent, WHOLE};

verus! {

/// The statistics of one function within a run.
#[derive(Clone, Debug, PartialEq, Eq)]
pub struct FunctionProfile {
    /// Name of the function.
    pub name: String,
    /// How often it was entered.
    pub call_count: u64,
    /// Inclusive time of all its calls together.
    pub total_time: Duration,
    /// `total_time` divided by `call_count`, rounded down.
    pub avg_time: Duration,
}

/// A `FunctionProfile` as plain mathematical values.
pub struct FunctionProfileView {
    pub name: Seq<char>,
    pub call_count: nat,
    pub total_time: nat,
    pub avg_time: nat,
}

impl View for FunctionProfile {
    type V = FunctionProfileView;

    open spec fn view(&self) -> FunctionProfileView {
        FunctionProfileView {
            name: self.name@,
            call_count: self.call_count as nat,
            total_time: self.total_time.nanos as nat,
            avg_time: self.avg_time.nanos as nat,
        }
    }
}

impl FunctionProfileView {
    /// The function was called, and its average is its total divided by
    /// its call count.
    pub open spec fn wf(self) -> bool {
        &&& self.call_count > 0
        &&& self.avg_time == self.total_time / self.call_count
    }
}

impl FunctionProfile {
    /// A copy with the same contents.
    pub fn duplicate(&self) -> (copy: FunctionProfile)
        ensures
            copy@ == self@,
    {
        FunctionProfile {
            name: self.name.clone(),
            call_count: self.call_count,
            total_time: self.total_time,
            avg_time: self.avg_time,
        }
    }
}

/// The total times of the entries, in their order.
pub open spec fn total_times(functions: Seq<FunctionProfileView>) -> Seq<int> {
    Seq::new(functions.len(), |i: int| functions[i].total_time as int)
}

/// The views of a sequence of function profiles, in the same order.
pub open spec fn function_views(functions: Seq<FunctionProfile>) -> Seq<FunctionProfileView> {
    Seq::new(functions.len(), |i: int| functions[i]@)
}

/// The characters of an optional string.
pub open spec fn opt_text(text: Option<String>) -> Option<Seq<char>> {
    match text {
        Some(t) => Some(t@),
        None => None,
    }
}

/// A `ProfileData` as plain mathematical values.
pub struct ProfileDataView {
    pub contract_path: Seq<char>,
    pub method: Option<Seq<char>>,
    pub total_duration: nat,
    pub overhead_percent: int,
    pub functions: Seq<FunctionProfileView>,
}

impl ProfileDataView {
    /// Whether the profile has an entry for `name`.
    pub open spec fn has(self, name: Seq<char>) -> bool {
        exists|i: int| 0 <= i < self.functions.len() && self.functions[i].name == name
    }

    /// The position of the entry for `name`.
    pub open spec fn position(self, name: Seq<char>) -> int
        recommends
            self.has(name),
    {
        choose|i: int| 0 <= i < self.functions.len() && self.functions[i].name == name
    }

    /// The total time recorded for `name`; zero where the profile has no
    /// entry for it.
    pub open spec fn total_time_of(self, name: Seq<char>) -> nat {
        if self.has(name) {
            self.functions[self.position(name)].total_time
        } else {
            0
        }
    }

    /// No two entries bear the same name.
    pub open spec fn names_distinct(self) -> bool {
        forall|i: int, j: int|
            0 <= i < j < self.functions.len() ==> (#[trigger] self.functions[i]).name != (
            #[trigger] self.functions[j]).name
    }

    /// What holds of every profile: one entry per function, each with at
    /// least one call and an exact average, and an overhead between 0%
    /// and 100%.
    pub open spec fn wf(self) -> bool {
        &&& self.names_distinct()
        &&& forall|i: int| 0 <= i < self.functions.len() ==> (#[trigger] self.functions[i]).wf()
        &&& 0 <= self.overhead_percent <= WHOLE
    }
}

/// In a set of entries with distinct names, the entry at a position is
/// the one that its name finds.
pub proof fn lemma_entry_found(profile: ProfileDataView, i: int)
    requires
        profile.names_distinct(),
        0 <= i < profile.functions.len(),
    ensures
        profile.has(profile.functions[i].name),
        profile.position(profile.functions[i].name) == i,
        profile.total_time_of(profile.functions[i].name) == profile.functions[i].total_time,
{
    let name = profile.functions[i].name;
    assert(profile.has(name));
    let found = profile.position(name);
    if found < i {
        assert(profile.functions[found].name != profile.functions[i].name);
    } else if i < found {
        assert(profile.functions[i].name != profile.functions[found].name);
    }
}

/// Finds the entry for `name` among `functions`.
pub fn find_function(functions: &Vec<FunctionProfile>, name: &String) -> (found: Option<usize>)
    ensures
        match found {
            Some(i) => i < functions.len() && functions[i as int].name@ == name@,
            None => forall|i: int| 0 <= i < functions.len() ==> functions[i].name@ != name@,
        },
{
    let mut i: usize = 0;
    while i < functions.len()
        invariant
            i <= functions.len(),
            forall|j: int| 0 <= j < i ==> functions[j].name@ != name@,
        decreases functions.len() - i,
    {
        if functions[i].name == *name {
            return Some(i);
        }
        i += 1;
    }
    None
}

/// The profile of one run. It is made by finishing a recorder or by
/// importing a profile document, and never changes afterwards.
#[derive(Debug, PartialEq, Eq)]
pub struct ProfileData {
    contract_path: String,
    method: Option<String>,
    total_duration: Duration,
    overhead_percent: Percent,
    functions: Vec<FunctionProfile>,
}

impl View for ProfileData {
    type V = ProfileDataView;

    closed spec fn view(&self) -> ProfileDataView {
        ProfileDataView {
            contract_path: self.contract_path@,
            method: opt_text(self.method),
            total_duration: self.total_duration.nanos as nat,
            overhead_percent: self.overhead_percent.hundredths as int,
            functions: function_views(self.functions@),
        }
    }
}

impl ProfileData {
    #[verifier::type_invariant]
    closed spec fn valid(&self) -> bool {
        self@.wf()
    }

    /// Puts a profile together from parts that are known to fit.
    pub(crate) fn assemble(
        contract_path: String,
        method: Option<String>,
        total_duration: Duration,
        overhead_percent: Percent,
        functions: Vec<FunctionProfile>,
    ) -> (profile: ProfileData)
        requires
            (ProfileDataView {
                contract_path: contract_path@,
                method: opt_text(method),
                total_duration: total_duration.nanos as nat,
                overhead_percent: overhead_percent.hundredths as int,
                functions: function_views(functions@),
            }).wf(),
        ensures
            profile@.contract_path == contract_path@,
            profile@.method == opt_text(method),
            profile@.total_duration == total_duration.nanos,
            profile@.overhead_percent == overhead_percent.hundredths,
            profile@.functions == function_views(functions@),
            profile@.wf(),
    {
        ProfileData { contract_path, method, total_duration, overhead_percent, functions }
    }

    /// Path of the contract that was profiled.
    pub fn contract_path(&self) -> (path: &String)
        ensures
            path@ == self@.contract_path,
    {
        &self.contract_path
    }

    /// The invoked method, where one was named.
    pub fn method(&self) -> (method: &Option<String>)
        ensures
            opt_text(*method) == self@.method,
    {
        &self.method
    }

    /// Wall time of the whole run.
    pub fn total_duration(&self) -> (d: Duration)
        ensures
            d.nanos == self@.total_duration,
    {
        self.total_duration
    }

    /// Share of the run that the recorder spent on its own bookkeeping.
    pub fn overhead_percent(&self) -> (p: Percent)
        ensures
            p.hundredths == self@.overhead_percent,
            0 <= p.hundredths <= WHOLE,
    {
        proof {
            use_type_invariant(self);
        }
        self.overhead_percent
    }

    /// The entry for `name`, where the profile has one.
    pub fn get(&self, name: &str) -> (entry: Option<&FunctionProfile>)
        ensures
            entry is Some <==> self@.has(name@),
            entry matches Some(f) ==> f@ == self@.functions[self@.position(name@)],
    {
        proof {
            use_type_invariant(self);
        }
        let wanted = String::from_str(name);
        match find_function(&self.functions, &wanted) {
            Some(i) => {
                proof {
                    assert(self@.functions[i as int] == self.functions@[i as int]@);
                    lemma_entry_found(self@, i as int);
                }
                Some(&self.functions[i])
            },
            None => {
                proof {
                    if self@.has(name@) {
                        let w = self@.position(name@);
                        assert(self@.functions[w] == self.functions@[w]@);
                    }
                }
                None
            },
        }
    }

    /// The total time recorded for `name`; zero where the profile has no
    /// entry for it.
    pub fn total_time_of(&self, name: &str) -> (total: Duration)
        ensures
            total.nanos == self@.total_time_of(name@),
    {
        match self.get(name) {
            Some(f) => f.total_time,
            None => Duration { nanos: 0 },
        }
    }

    /// The `limit` functions with the largest total time, largest first;
    /// all of them where there are no more than `limit`. Functions with
    /// equal totals keep the order of the profile.
    pub fn top_functions(&self, limit: usize) -> (top: Vec<FunctionProfile>)
        ensures
            function_views(top@) == ranked(self@.functions, total_times(self@.functions)).take(
                if limit <= self@.functions.len() {
                    limit as int
                } else {
                    self@.functions.len() as int
                },
            ),
    {
        let ghost entries = self@.functions;
        let mut keys: Vec<u128> = Vec::new();
        let mut i: usize = 0;
        while i < self.functions.len()
            invariant
                i <= self.functions.len(),
                entries == function_views(self.functions@),
                keys.len() == i,
                forall|n: int| 0 <= n < i ==> keys[n] as int == #[trigger] total_times(entries)[n],
            decreases self.functions.len() - i,
        {
            proof {
                assert(entries[i as int] == self.functions@[i as int]@);
            }
            keys.push(self.functions[i].total_time.nanos as u128);
            i += 1;
        }
        proof {
            assert(key_values(keys@) =~= total_times(entries));
        }
        let order = rank_descending(&keys);
        let ghost places = position_values(order@);
        let count: usize = if limit <= order.len() {
            limit
        } else {
            order.len()
        };
        let mut top: Vec<FunctionProfile> = Vec::new();
        let mut r: usize = 0;
        while r < count
            invariant
                r <= count <= order.len(),
                order.len() == self.functions.len(),
                top.len() == r,
                places == position_values(order@),
                is_ranking(total_times(entries), places),
                entries == function_views(self.functions@),
                forall|n: int| 0 <= n < r ==> (#[trigger] top[n])@ == entries[places[n]],
            decreases count - r,
        {
            proof {
                assert(places[r as int] == order@[r as int]);
                assert(0 <= places[r as int] < self.functions.len());
                assert(entries[places[r as int]] == self.functions@[places[r as int]]@);
            }
            top.push(self.functions[order[r]].duplicate());
            r += 1;
        }
        proof {
            assert(function_views(top@) =~= ranked(entries, total_times(entries)).take(
                count as int,
            ));
        }
        top
    }

    /// The per-function statistics, one entry for each function, in the
    /// order in which the functions were first entered.
    pub fn functions(&self) -> (functions: &Vec<FunctionProfile>)
        ensures
            function_views(functions@) == self@.functions,
            self@.wf(),
    {
        proof {
            use_type_invariant(self);
        }
        &self.functions
    }
}

} // verus!
