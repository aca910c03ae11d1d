//! The exchange form of a profile: what is written out for later runs to
//! compare against, and the checks a document passes before it is
//! accepted back as a profile.

use vstd::prelude::*;
use super::error::{DocumentField, ProfileError};
use super::profile::{
    function_views, opt_text, FunctionProfile, FunctionProfileView, ProfileData, ProfileDataView,
};
use super::units::{Duration, Percent, WHOLE};

verus! {

/// One entry of a document's function map: the key and what stands
/// under it.
#[derive(Clone, Debug, PartialEq, Eq)]
pub struct ProfileEntry {
    pub key: String,
    pub profile: FunctionProfile,
}

/// A profile as it is exchanged. Any value can be written here; only
/// [`import_profile`] turns one into a profile.
#[derive(Clone, Debug, PartialEq, Eq)]
pub struct ProfileDocument {
    pub contract_path: String,
    pub method: Option<String>,
    pub total_duration: Duration,
    pub overhead_percent: Percent,
    pub functions: Vec<ProfileEntry>,
}

/// A `ProfileEntry` as plain mathematical values.
pub struct ProfileEntryView {
    pub key: Seq<char>,
    pub profile: FunctionProfileView,
}

/// A `ProfileDocument` as plain mathematical values.
pub struct ProfileDocumentView {
    pub contract_path: Seq<char>,
    pub method: Option<Seq<char>>,
    pub total_duration: nat,
    pub overhead_percent: int,
    pub functions: Seq<ProfileEntryView>,
}

impl View for ProfileEntry {
    type V = ProfileEntryView;

    open spec fn view(&self) -> ProfileEntryView {
        ProfileEntryView { key: self.key@, profile: self.profile@ }
    }
}

impl View for ProfileDocument {
    type V = ProfileDocumentView;

    open spec fn view(&self) -> ProfileDocumentView {
        ProfileDocumentView {
            contract_path: self.contract_path@,
            method: opt_text(self.method),
            total_duration: self.total_duration.nanos as nat,
            overhead_percent: self.overhead_percent.hundredths as int,
            functions: Seq::new(self.functions@.len(), |i: int| self.functions@[i]@),
        }
    }
}

impl ProfileDocumentView {
    /// Whether an earlier entry has the key of entry `i`.
    pub open spec fn repeats_key(self, i: int) -> bool {
        exists|j: int| 0 <= j < i && #[trigger] self.functions[j].key == self.functions[i].key
    }

    /// What is wrong with entry `i`, if anything. Faults are looked for
    /// in this order: the key, the call count, the average.
    pub open spec fn entry_fault(self, i: int) -> Option<DocumentField> {
        let entry = self.functions[i];
        if entry.key != entry.profile.name || self.repeats_key(i) {
            Some(DocumentField::FunctionKey)
        } else if entry.profile.call_count == 0 {
            Some(DocumentField::CallCount)
        } else if entry.profile.avg_time != entry.profile.total_time / entry.profile.call_count {
            Some(DocumentField::AvgTime)
        } else {
            None
        }
    }

    /// Whether the overhead lies between 0% and 100%.
    pub open spec fn overhead_ok(self) -> bool {
        0 <= self.overhead_percent <= WHOLE
    }

    /// Whether none of the first `n` entries has a fault.
    pub open spec fn entries_ok(self, n: int) -> bool {
        forall|i: int| 0 <= i < n ==> #[trigger] self.entry_fault(i) is None
    }

    /// Whether the document is a valid profile.
    pub open spec fn valid(self) -> bool {
        self.overhead_ok() && self.entries_ok(self.functions.len() as int)
    }

    /// The profile that the document stands for.
    pub open spec fn profile(self) -> ProfileDataView {
        ProfileDataView {
            contract_path: self.contract_path,
            method: self.method,
            total_duration: self.total_duration,
            overhead_percent: self.overhead_percent,
            functions: Seq::new(self.functions.len(), |i: int| self.functions[i].profile),
        }
    }

    /// What importing the document gives: its profile where it is valid,
    /// nothing otherwise.
    pub open spec fn import(self) -> Option<ProfileDataView> {
        if self.valid() {
            Some(self.profile())
        } else {
            None
        }
    }

    /// Whether `error` reports the first fault of the document: the
    /// overhead before any entry, an earlier entry before a later one.
    pub open spec fn first_fault(self, error: ProfileError) -> bool {
        if !self.overhead_ok() {
            error == (ProfileError::SerializationError {
                field: DocumentField::OverheadPercent,
                entry: None,
            })
        } else {
            &&& error matches ProfileError::SerializationError { field, entry: Some(i) }
            &&& i < self.functions.len()
            &&& self.entries_ok(i as int)
            &&& self.entry_fault(i as int) == Some(field)
        }
    }
}

impl ProfileDataView {
    /// The document that the profile is exchanged as: each entry under
    /// the name of its function.
    pub open spec fn export(self) -> ProfileDocumentView {
        ProfileDocumentView {
            contract_path: self.contract_path,
            method: self.method,
            total_duration: self.total_duration,
            overhead_percent: self.overhead_percent,
            functions: Seq::new(
                self.functions.len(),
                |i: int| ProfileEntryView { key: self.functions[i].name, profile: self.functions[i] },
            ),
        }
    }
}

/// A valid document stands for a well-formed profile.
pub proof fn lemma_valid_document(doc: ProfileDocumentView)
    requires
        doc.valid(),
    ensures
        doc.profile().wf(),
{
    let profile = doc.profile();
    assert forall|i: int, j: int| 0 <= i < j < profile.functions.len() implies (
    #[trigger] profile.functions[i]).name != (#[trigger] profile.functions[j]).name by {
        assert(doc.entry_fault(i) is None);
        assert(doc.entry_fault(j) is None);
        if profile.functions[i].name == profile.functions[j].name {
            assert(doc.functions[i].key == doc.functions[j].key);
            assert(doc.repeats_key(j));
        }
    }
    assert forall|i: int| 0 <= i < profile.functions.len() implies (
    #[trigger] profile.functions[i]).wf() by {
        assert(doc.entry_fault(i) is None);
    }
}

/// Export, then import, gives back every well-formed profile, field for
/// field.
pub proof fn lemma_export_import(profile: ProfileDataView)
    requires
        profile.wf(),
    ensures
        profile.export().import() == Some(profile),
{
    let doc = profile.export();
    assert forall|i: int| 0 <= i < doc.functions.len() implies #[trigger] doc.entry_fault(i)
        is None by {
        assert(profile.functions[i].wf());
        if doc.repeats_key(i) {
            let j = choose|j: int| 0 <= j < i && #[trigger] doc.functions[j].key == doc.functions[i].key;
            assert(profile.functions[j].name != profile.functions[i].name);
        }
    }
    assert(doc.profile().functions =~= profile.functions);
}

/// Whether an entry before position `i` has the key `key`.
fn key_used(functions: &Vec<ProfileEntry>, i: usize, key: &String) -> (used: bool)
    requires
        i <= functions.len(),
    ensures
        used == exists|j: int| 0 <= j < i && #[trigger] functions[j].key@ == key@,
{
    let mut j: usize = 0;
    while j < i
        invariant
            j <= i <= functions.len(),
            forall|k: int| 0 <= k < j ==> #[trigger] functions[k].key@ != key@,
        decreases i - j,
    {
        if functions[j].key == *key {
            return true;
        }
        j += 1;
    }
    false
}

/// Writes a profile out as a document.
pub fn export_profile(profile: &ProfileData) -> (doc: ProfileDocument)
    ensures
        doc@ == profile@.export(),
{
    let functions = profile.functions();
    let mut entries: Vec<ProfileEntry> = Vec::new();
    let mut i: usize = 0;
    while i < functions.len()
        invariant
            i <= functions.len(),
            entries.len() == i,
            forall|k: int|
                0 <= k < i ==> (#[trigger] entries[k])@ == (ProfileEntryView {
                    key: functions[k].name@,
                    profile: functions[k]@,
                }),
        decreases functions.len() - i,
    {
        let f = &functions[i];
        entries.push(
            ProfileEntry {
                key: f.name.clone(),
                profile: FunctionProfile {
                    name: f.name.clone(),
                    call_count: f.call_count,
                    total_time: f.total_time,
                    avg_time: f.avg_time,
                },
            },
        );
        i += 1;
    }
    let method: Option<String> = match profile.method() {
        Some(m) => Some(m.clone()),
        None => None,
    };
    let doc = ProfileDocument {
        contract_path: profile.contract_path().clone(),
        method,
        total_duration: profile.total_duration(),
        overhead_percent: profile.overhead_percent(),
        functions: entries,
    };
    proof {
        assert forall|k: int| 0 <= k < functions.len() implies doc@.functions[k]
            == profile@.export().functions[k] by {
            assert(profile@.functions[k] == functions@[k]@);
        }
        assert(profile@.functions.len() == functions.len());
        assert(doc@.functions =~= profile@.export().functions);
    }
    doc
}

/// Reads a document back as a profile. A valid document gives the
/// profile it stands for; any other is refused with its first fault.
pub fn import_profile(doc: ProfileDocument) -> (read: Result<ProfileData, ProfileError>)
    ensures
        match read {
            Ok(profile) => doc@.import() == Some(profile@),
            Err(error) => doc@.import() is None && doc@.first_fault(error),
        },
{
    if doc.overhead_percent.hundredths < 0 || doc.overhead_percent.hundredths > WHOLE as i128 {
        return Err(
            ProfileError::SerializationError { field: DocumentField::OverheadPercent, entry: None },
        );
    }
    let mut functions: Vec<FunctionProfile> = Vec::new();
    let mut i: usize = 0;
    while i < doc.functions.len()
        invariant
            i <= doc.functions.len(),
            doc@.overhead_ok(),
            doc@.entries_ok(i as int),
            functions.len() == i,
            forall|k: int| 0 <= k < i ==> (#[trigger] functions[k])@ == doc@.functions[k].profile,
        decreases doc.functions.len() - i,
    {
        let entry = &doc.functions[i];
        let ghost view = doc@;
        proof {
            assert(view.functions[i as int] == entry@);
        }
        let repeated = key_used(&doc.functions, i, &entry.key);
        proof {
            if repeated {
                let j = choose|j: int| 0 <= j < i && #[trigger] doc.functions[j].key@ == entry.key@;
                assert(view.functions[j] == doc.functions@[j]@);
                assert(view.functions[j].key == view.functions[i as int].key);
            }
            if view.repeats_key(i as int) {
                let j = choose|j: int|
                    0 <= j < i && #[trigger] view.functions[j].key == view.functions[i as int].key;
                assert(view.functions[j] == doc.functions@[j]@);
                assert(doc.functions[j].key@ == entry.key@);
            }
        }
        let fault: Option<DocumentField> = if !(entry.key == entry.profile.name) || repeated {
            Some(DocumentField::FunctionKey)
        } else if entry.profile.call_count == 0 {
            Some(DocumentField::CallCount)
        } else if entry.profile.avg_time.nanos != entry.profile.total_time.nanos
            / entry.profile.call_count {
            Some(DocumentField::AvgTime)
        } else {
            None
        };
        assert(fault == view.entry_fault(i as int));
        match fault {
            Some(field) => {
                return Err(ProfileError::SerializationError { field, entry: Some(i) });
            },
            None => {},
        }
        functions.push(
            FunctionProfile {
                name: entry.profile.name.clone(),
                call_count: entry.profile.call_count,
                total_time: entry.profile.total_time,
                avg_time: entry.profile.avg_time,
            },
        );
        i += 1;
    }
    proof {
        assert(doc@.valid());
        lemma_valid_document(doc@);
        assert(function_views(functions@) =~= doc@.profile().functions);
    }
    Ok(
        ProfileData::assemble(
            doc.contract_path,
            doc.method,
            doc.total_duration,
            doc.overhead_percent,
            functions,
        ),
    )
}

} // verus!
