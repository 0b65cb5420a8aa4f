//! The profile store and the reconciliation controller. A `Store` is what the
//! commands read from disk: the stored profiles, the global marker, the live
//! settings, and the working project's mapping and overlay. Each command decides
//! from it alone and answers with the file changes to make, as `Effect`s; what
//! those changes do is `apply_all`.

use vstd::prelude::*;
use crate::json::{
    check_well_formed, is_empty_object, is_object, json_equal, merge, merged, model, subtract, subtracted, wf,
    Json, JsonModel,
};
use crate::text::{lemma_seq_less_total, lemma_seq_less_transitive, seq_less, text_less};

verus! {

/// A document as found on disk.
#[derive(Debug)]
pub enum Document {
    Missing,
    /// The file is there but does not hold valid JSON.
    Invalid,
    Parsed(Json),
}

pub enum DocModel {
    Missing,
    Invalid,
    Parsed(JsonModel),
}

/// A stored profile: its name, and its document unless the file does not hold
/// valid JSON.
#[derive(Debug)]
pub struct StoredProfile {
    pub name: String,
    pub doc: Option<Json>,
}

/// What the commands read from disk.
#[derive(Debug)]
pub struct Store {
    pub profiles: Vec<StoredProfile>,
    /// The globally active profile, as the marker names it.
    pub current: Option<String>,
    /// The live settings document.
    pub settings: Document,
    /// The profile that the working project is mapped to.
    pub project_mapping: Option<String>,
    /// The working project's settings overlay.
    pub project_overlay: Document,
}

pub struct StoreModel {
    pub profiles: Map<Seq<char>, Option<JsonModel>>,
    pub current: Option<Seq<char>>,
    pub settings: DocModel,
    pub mapping: Option<Seq<char>>,
    pub overlay: DocModel,
}

/// A change to the files.
#[derive(Debug)]
pub enum Effect {
    /// Copy the live settings file over the profile's file, as it is.
    CopySettingsToProfile { name: String },
    /// Copy the profile's file over the live settings file, as it is.
    CopyProfileToSettings { name: String },
    /// Copy the profile's file to the project overlay, as it is.
    CopyProfileToOverlay { name: String },
    RenameProfile { from: String, to: String },
    DeleteProfile { name: String },
    /// Point the global marker at the profile.
    SetCurrent { name: String },
    WriteOverlay { doc: Json },
    DeleteOverlay,
    /// Map the working project to the profile.
    SetMapping { name: String },
    DeleteMapping,
}

/// The answer to a mismatch between the active profile and the live settings.
#[derive(Debug, PartialEq, Eq, Structural, Clone, Copy)]
pub enum MismatchChoice {
    /// Overwrite the live settings anyway.
    Proceed,
    /// First store the live settings into the active profile.
    Absorb,
    /// Do nothing.
    Cancel,
}

#[derive(Debug)]
pub enum ProfileError {
    NotFound(String),
    AlreadyExists(String),
    CorruptProfile(String),
    CorruptSettings,
    CorruptProjectSettings,
    NoActiveProfile,
    NoSettings,
}

pub enum Failure {
    NotFound(Seq<char>),
    AlreadyExists(Seq<char>),
    CorruptProfile(Seq<char>),
    CorruptSettings,
    CorruptProjectSettings,
    NoActiveProfile,
    NoSettings,
}

pub open spec fn failure(e: ProfileError) -> Failure {
    match e {
        ProfileError::NotFound(n) => Failure::NotFound(n@),
        ProfileError::AlreadyExists(n) => Failure::AlreadyExists(n@),
        ProfileError::CorruptProfile(n) => Failure::CorruptProfile(n@),
        ProfileError::CorruptSettings => Failure::CorruptSettings,
        ProfileError::CorruptProjectSettings => Failure::CorruptProjectSettings,
        ProfileError::NoActiveProfile => Failure::NoActiveProfile,
        ProfileError::NoSettings => Failure::NoSettings,
    }
}

pub open spec fn opt_model(d: Option<Json>) -> Option<JsonModel> {
    match d {
        Some(j) => Some(model(j)),
        None => None,
    }
}

pub open spec fn doc_model(d: Document) -> DocModel {
    match d {
        Document::Missing => DocModel::Missing,
        Document::Invalid => DocModel::Invalid,
        Document::Parsed(j) => DocModel::Parsed(model(j)),
    }
}

pub open spec fn profiles_model(s: Seq<StoredProfile>) -> Map<Seq<char>, Option<JsonModel>>
    decreases s.len(),
{
    if s.len() == 0 {
        Map::empty()
    } else {
        profiles_model(s.subrange(0, s.len() - 1)).insert(
            s[s.len() - 1].name@,
            opt_model(s[s.len() - 1].doc),
        )
    }
}

pub open spec fn names_unique(s: Seq<StoredProfile>) -> bool {
    forall|i: int, j: int| 0 <= i < j < s.len() ==> s[i].name@ != s[j].name@
}

/// A stored document is a well-formed object: a document whose top level is not
/// an object is not a valid profile or settings file.
pub open spec fn opt_wf(d: Option<Json>) -> bool {
    d matches Some(j) ==> wf(j) && model(j) is Object
}

pub open spec fn doc_wf(d: Document) -> bool {
    d matches Document::Parsed(j) ==> wf(j) && model(j) is Object
}

impl View for Store {
    type V = StoreModel;

    open spec fn view(&self) -> StoreModel {
        StoreModel {
            profiles: profiles_model(self.profiles@),
            current: match self.current {
                Some(c) => Some(c@),
                None => None,
            },
            settings: doc_model(self.settings),
            mapping: match self.project_mapping {
                Some(c) => Some(c@),
                None => None,
            },
            overlay: doc_model(self.project_overlay),
        }
    }
}

impl Store {
    /// Profile names are unique and every document is well formed.
    pub open spec fn wf(&self) -> bool {
        &&& names_unique(self.profiles@)
        &&& forall|i: int| 0 <= i < self.profiles@.len() ==> opt_wf(#[trigger] self.profiles@[i].doc)
        &&& doc_wf(self.settings)
        &&& doc_wf(self.project_overlay)
    }
}

/// What a file holds, given what parsing it gave: valid documents are
/// well-formed objects, and anything else read counts as invalid.
pub fn classify(parsed: Option<Json>) -> (r: Document)
    ensures
        doc_wf(r),
        r is Missing ==> false,
        match parsed {
            Some(j) => if wf(j) && model(j) is Object {
                r == Document::Parsed(j)
            } else {
                r is Invalid
            },
            None => r is Invalid,
        },
{
    match parsed {
        Some(j) => if check_well_formed(&j) && is_object(&j) {
            Document::Parsed(j)
        } else {
            Document::Invalid
        },
        None => Document::Invalid,
    }
}

fn document_well_formed(d: &Document) -> (r: bool)
    ensures
        r == doc_wf(*d),
{
    match d {
        Document::Parsed(j) => check_well_formed(j) && is_object(j),
        _ => true,
    }
}

impl Store {
    /// Whether the profile names are unique and every document is well formed.
    pub fn is_well_formed(&self) -> (r: bool)
        ensures
            r == self.wf(),
    {
        let ps = &self.profiles;
        let mut i: usize = 0;
        while i < ps.len()
            invariant
                i <= ps.len(),
                ps@ == self.profiles@,
                forall|a: int, b: int| 0 <= a < b < i ==> ps@[a].name@ != ps@[b].name@,
                forall|a: int| 0 <= a < i ==> opt_wf(#[trigger] ps@[a].doc),
            decreases ps.len() - i,
        {
            let ok = match &ps[i].doc {
                Some(j) => check_well_formed(j) && is_object(j),
                None => true,
            };
            if !ok {
                proof {
                    assert(!opt_wf(ps@[i as int].doc));
                }
                return false;
            }
            let mut j: usize = 0;
            while j < i
                invariant
                    j <= i < ps.len(),
                    ps@ == self.profiles@,
                    forall|a: int| 0 <= a < j ==> ps@[a].name@ != ps@[i as int].name@,
                decreases i - j,
            {
                if ps[j].name == ps[i].name {
                    proof {
                        assert(ps@[j as int].name@ == ps@[i as int].name@);
                        assert(!names_unique(ps@));
                    }
                    return false;
                }
                j += 1;
            }
            i += 1;
        }
        document_well_formed(&self.settings) && document_well_formed(&self.project_overlay)
    }
}

/// The profile map holds exactly the stored names, each with its own document.
pub proof fn lemma_profiles(s: Seq<StoredProfile>)
    requires
        names_unique(s),
    ensures
        forall|k: Seq<char>|
            #[trigger] profiles_model(s).contains_key(k) <==> exists|i: int|
                0 <= i < s.len() && s[i].name@ == k,
        forall|i: int|
            0 <= i < s.len() ==> #[trigger] profiles_model(s)[s[i].name@] == opt_model(s[i].doc),
    decreases s.len(),
{
    if s.len() > 0 {
        let p = s.subrange(0, s.len() - 1);
        lemma_profiles(p);
        assert forall|i: int| 0 <= i < s.len() - 1 implies #[trigger] s[i] == p[i] by {}
        assert forall|k: Seq<char>| #[trigger]
            profiles_model(s).contains_key(k) <==> exists|i: int|
                0 <= i < s.len() && s[i].name@ == k by {
            if profiles_model(s).contains_key(k) && k != s[s.len() - 1].name@ {
                let i = choose|i: int| 0 <= i < p.len() && p[i].name@ == k;
                assert(s[i] == p[i]);
            }
            if exists|i: int| 0 <= i < s.len() && s[i].name@ == k {
                let i = choose|i: int| 0 <= i < s.len() && s[i].name@ == k;
                if i < s.len() - 1 {
                    assert(s[i] == p[i]);
                }
            }
        }
    }
}

/// What one change does to the files.
pub open spec fn apply_effect(m: StoreModel, e: Effect) -> StoreModel {
    match e {
        Effect::CopySettingsToProfile { name } => StoreModel {
            profiles: m.profiles.insert(
                name@,
                match m.settings {
                    DocModel::Parsed(v) => Some(v),
                    _ => None,
                },
            ),
            ..m
        },
        Effect::CopyProfileToSettings { name } => StoreModel {
            settings: match m.profiles[name@] {
                Some(v) => DocModel::Parsed(v),
                None => DocModel::Invalid,
            },
            ..m
        },
        Effect::CopyProfileToOverlay { name } => StoreModel {
            overlay: match m.profiles[name@] {
                Some(v) => DocModel::Parsed(v),
                None => DocModel::Invalid,
            },
            ..m
        },
        Effect::RenameProfile { from, to } => StoreModel {
            profiles: m.profiles.remove(from@).insert(to@, m.profiles[from@]),
            ..m
        },
        Effect::DeleteProfile { name } => StoreModel { profiles: m.profiles.remove(name@), ..m },
        Effect::SetCurrent { name } => StoreModel { current: Some(name@), ..m },
        Effect::WriteOverlay { doc } => StoreModel { overlay: DocModel::Parsed(model(doc)), ..m },
        Effect::DeleteOverlay => StoreModel { overlay: DocModel::Missing, ..m },
        Effect::SetMapping { name } => StoreModel { mapping: Some(name@), ..m },
        Effect::DeleteMapping => StoreModel { mapping: None, ..m },
    }
}

/// What a list of changes does, made in order.
pub open spec fn apply_all(m: StoreModel, es: Seq<Effect>) -> StoreModel
    decreases es.len(),
{
    if es.len() == 0 {
        m
    } else {
        apply_effect(apply_all(m, es.subrange(0, es.len() - 1)), es[es.len() - 1])
    }
}

proof fn lemma_apply_one(m: StoreModel, a: Effect)
    ensures
        apply_all(m, seq![a]) == apply_effect(m, a),
{
    assert(seq![a].subrange(0, 0) =~= Seq::<Effect>::empty());
    assert(apply_all(m, Seq::<Effect>::empty()) == m);
}

proof fn lemma_apply_two(m: StoreModel, a: Effect, b: Effect)
    ensures
        apply_all(m, seq![a, b]) == apply_effect(apply_effect(m, a), b),
{
    assert(seq![a, b].subrange(0, 1) =~= seq![a]);
    lemma_apply_one(m, a);
}

proof fn lemma_apply_three(m: StoreModel, a: Effect, b: Effect, c: Effect)
    ensures
        apply_all(m, seq![a, b, c]) == apply_effect(apply_effect(apply_effect(m, a), b), c),
{
    assert(seq![a, b, c].subrange(0, 2) =~= seq![a, b]);
    lemma_apply_two(m, a, b);
}

/// What reading the active profile and the live settings for comparison fails on.
pub open spec fn check_failure(m: StoreModel) -> Option<Failure> {
    match m.current {
        None => None,
        Some(c) => if m.settings is Missing || !m.profiles.contains_key(c) {
            None
        } else if m.settings is Invalid {
            Some(Failure::CorruptSettings)
        } else if m.profiles[c] is None {
            Some(Failure::CorruptProfile(c))
        } else {
            None
        },
    }
}

/// The active profile's stored document differs from the live settings.
pub open spec fn mismatch(m: StoreModel) -> bool {
    &&& m.current is Some
    &&& m.settings is Parsed
    &&& m.profiles.contains_key(m.current->0)
    &&& m.profiles[m.current->0] is Some
    &&& m.profiles[m.current->0]->0 != m.settings->Parsed_0
}

/// What switching to `name` fails on.
pub open spec fn switch_failure(m: StoreModel, name: Seq<char>, project: bool) -> Option<Failure> {
    if !m.profiles.contains_key(name) {
        Some(Failure::NotFound(name))
    } else if m.profiles[name] is None {
        Some(Failure::CorruptProfile(name))
    } else if project {
        if m.overlay is Invalid {
            Some(Failure::CorruptProjectSettings)
        } else {
            None
        }
    } else {
        check_failure(m)
    }
}

/// The files once switched to `name`: globally, the live settings become the
/// profile's document and the marker names it; for the project, the profile is
/// merged into the overlay (or becomes it) and the project is mapped to it.
pub open spec fn switched(m: StoreModel, name: Seq<char>, project: bool) -> StoreModel {
    let doc = m.profiles[name]->0;
    if project {
        StoreModel {
            overlay: DocModel::Parsed(
                match m.overlay {
                    DocModel::Parsed(ov) => merge(ov, doc),
                    _ => doc,
                },
            ),
            mapping: Some(name),
            ..m
        }
    } else {
        StoreModel { settings: DocModel::Parsed(doc), current: Some(name), ..m }
    }
}

/// The files once the live settings are stored into the active profile.
pub open spec fn absorbed(m: StoreModel) -> StoreModel {
    StoreModel {
        profiles: m.profiles.insert(m.current->0, Some(m.settings->Parsed_0)),
        ..m
    }
}

/// How a switch ended.
#[derive(Debug)]
pub enum SwitchOutcome {
    /// The active profile differs from the live settings: ask which way to go.
    NeedsChoice,
    Cancelled,
    Switched(Vec<Effect>),
    /// The live settings were stored into the active profile first.
    UpdatedThenSwitched(Vec<Effect>),
}

pub open spec fn is_copy_to_settings(e: Effect, name: Seq<char>) -> bool {
    e matches Effect::CopyProfileToSettings { name: n } && n@ == name
}

pub open spec fn is_copy_to_profile(e: Effect, name: Seq<char>) -> bool {
    e matches Effect::CopySettingsToProfile { name: n } && n@ == name
}

pub open spec fn is_set_current(e: Effect, name: Seq<char>) -> bool {
    e matches Effect::SetCurrent { name: n } && n@ == name
}

pub open spec fn is_set_mapping(e: Effect, name: Seq<char>) -> bool {
    e matches Effect::SetMapping { name: n } && n@ == name
}

/// The order of a switch's changes: the document is written first (after the
/// active profile, where it absorbs the live settings), and the marker or the
/// project mapping is set last.
pub open spec fn switch_order(
    m: StoreModel,
    name: Seq<char>,
    project: bool,
    absorb: bool,
    es: Seq<Effect>,
) -> bool {
    if project {
        &&& es.len() == 2
        &&& es[0] is WriteOverlay || es[0] is CopyProfileToOverlay
        &&& is_set_mapping(es[1], name)
    } else if absorb {
        &&& es.len() == 3
        &&& is_copy_to_profile(es[0], m.current->0)
        &&& is_copy_to_settings(es[1], name)
        &&& is_set_current(es[2], name)
    } else {
        &&& es.len() == 2
        &&& is_copy_to_settings(es[0], name)
        &&& is_set_current(es[1], name)
    }
}

pub open spec fn switch_ok(
    m: StoreModel,
    name: Seq<char>,
    project: bool,
    choice: Option<MismatchChoice>,
    o: SwitchOutcome,
) -> bool {
    let asks = !project && mismatch(m);
    match o {
        SwitchOutcome::NeedsChoice => asks && choice is None,
        SwitchOutcome::Cancelled => asks && choice == Some(MismatchChoice::Cancel),
        SwitchOutcome::Switched(es) => (!asks || choice == Some(MismatchChoice::Proceed))
            && apply_all(m, es@) == switched(m, name, project) && switch_order(
            m,
            name,
            project,
            false,
            es@,
        ),
        SwitchOutcome::UpdatedThenSwitched(es) => asks && choice == Some(MismatchChoice::Absorb)
            && apply_all(m, es@) == switched(absorbed(m), name, false) && switch_order(
            m,
            name,
            false,
            true,
            es@,
        ),
    }
}

/// The index of the profile named `name`, if it is stored.
pub fn find_profile(store: &Store, name: &String) -> (r: Option<usize>)
    requires
        store.wf(),
    ensures
        match r {
            Some(i) => i < store.profiles.len() && store.profiles@[i as int].name@ == name@
                && store@.profiles.contains_key(name@) && store@.profiles[name@] == opt_model(
                store.profiles@[i as int].doc,
            ),
            None => !store@.profiles.contains_key(name@),
        },
{
    proof {
        lemma_profiles(store.profiles@);
    }
    let mut i: usize = 0;
    while i < store.profiles.len()
        invariant
            i <= store.profiles.len(),
            forall|j: int| 0 <= j < i ==> store.profiles@[j].name@ != name@,
            store.wf(),
        decreases store.profiles.len() - i,
    {
        if store.profiles[i].name == *name {
            proof {
                lemma_profiles(store.profiles@);
            }
            return Some(i);
        }
        i += 1;
    }
    None
}

/// Compares the active profile with the live settings: `Ok(true)` where they
/// differ, `Ok(false)` where there is nothing to compare or they agree.
fn check_mismatch(store: &Store) -> (r: Result<bool, ProfileError>)
    requires
        store.wf(),
    ensures
        match r {
            Ok(b) => check_failure(store@) is None && b == mismatch(store@),
            Err(e) => check_failure(store@) == Some(failure(e)),
        },
{
    let c = match &store.current {
        None => return Ok(false),
        Some(c) => c,
    };
    let settings = match &store.settings {
        Document::Missing => return Ok(false),
        Document::Invalid => {
            match find_profile(store, c) {
                None => return Ok(false),
                Some(_) => return Err(ProfileError::CorruptSettings),
            }
        },
        Document::Parsed(j) => j,
    };
    match find_profile(store, c) {
        None => Ok(false),
        Some(i) => match &store.profiles[i].doc {
            None => Err(ProfileError::CorruptProfile(c.clone())),
            Some(d) => {
                proof {
                    assert(opt_wf(store.profiles@[i as int].doc));
                }
                Ok(!json_equal(d, settings))
            },
        },
    }
}

/// Switches to the profile `name`: globally, or for the working project.
/// Globally, where the active profile differs from the live settings, `choice`
/// says what to do; without one, the outcome asks for it and nothing is changed.
pub fn switch_to_profile(
    store: &Store,
    name: &String,
    project_mode: bool,
    choice: Option<MismatchChoice>,
) -> (r: Result<SwitchOutcome, ProfileError>)
    requires
        store.wf(),
    ensures
        match r {
            Ok(o) => switch_failure(store@, name@, project_mode) is None && switch_ok(
                store@,
                name@,
                project_mode,
                choice,
                o,
            ),
            Err(e) => switch_failure(store@, name@, project_mode) == Some(failure(e)),
        },
{
    let i = match find_profile(store, name) {
        None => return Err(ProfileError::NotFound(name.clone())),
        Some(i) => i,
    };
    let target = match &store.profiles[i].doc {
        None => return Err(ProfileError::CorruptProfile(name.clone())),
        Some(d) => d,
    };
    proof {
        assert(opt_wf(store.profiles@[i as int].doc));
    }
    if project_mode {
        let mut es: Vec<Effect> = Vec::new();
        match &store.project_overlay {
            Document::Invalid => return Err(ProfileError::CorruptProjectSettings),
            Document::Missing => {
                es.push(Effect::CopyProfileToOverlay { name: name.clone() });
            },
            Document::Parsed(ov) => {
                let doc = merged(ov.deep_copy(), target);
                es.push(Effect::WriteOverlay { doc });
            },
        }
        es.push(Effect::SetMapping { name: name.clone() });
        proof {
            lemma_apply_two(store@, es@[0], es@[1]);
            assert(es@ =~= seq![es@[0], es@[1]]);
        }
        return Ok(SwitchOutcome::Switched(es));
    }
    let differs = match check_mismatch(store) {
        Err(e) => return Err(e),
        Ok(b) => b,
    };
    let mut es: Vec<Effect> = Vec::new();
    if differs {
        match choice {
            None => return Ok(SwitchOutcome::NeedsChoice),
            Some(MismatchChoice::Cancel) => return Ok(SwitchOutcome::Cancelled),
            Some(MismatchChoice::Proceed) => {},
            Some(MismatchChoice::Absorb) => {
                let active = match &store.current {
                    Some(c) => c.clone(),
                    None => String::new(),
                };
                es.push(Effect::CopySettingsToProfile { name: active });
                es.push(Effect::CopyProfileToSettings { name: name.clone() });
                es.push(Effect::SetCurrent { name: name.clone() });
                proof {
                    lemma_apply_three(store@, es@[0], es@[1], es@[2]);
                    assert(es@ =~= seq![es@[0], es@[1], es@[2]]);
                    let a = apply_effect(store@, es@[0]);
                    assert(a.profiles =~= absorbed(store@).profiles);
                }
                return Ok(SwitchOutcome::UpdatedThenSwitched(es));
            },
        }
    }
    es.push(Effect::CopyProfileToSettings { name: name.clone() });
    es.push(Effect::SetCurrent { name: name.clone() });
    proof {
        lemma_apply_two(store@, es@[0], es@[1]);
        assert(es@ =~= seq![es@[0], es@[1]]);
    }
    Ok(SwitchOutcome::Switched(es))
}

/// How a removal ended.
#[derive(Debug)]
pub enum RemoveOutcome {
    /// Refused: the profile is the globally active one.
    ActiveGlobally,
    /// Refused: the working project is mapped to the profile.
    ActiveForProject,
    Removed(Vec<Effect>),
    Missing,
}

pub open spec fn remove_ok(m: StoreModel, name: Seq<char>, o: RemoveOutcome) -> bool {
    match o {
        RemoveOutcome::ActiveGlobally => m.current == Some(name),
        RemoveOutcome::ActiveForProject => m.current != Some(name) && m.mapping == Some(name),
        RemoveOutcome::Removed(es) => {
            &&& m.current != Some(name)
            &&& m.mapping != Some(name)
            &&& m.profiles.contains_key(name)
            &&& apply_all(m, es@) == StoreModel { profiles: m.profiles.remove(name), ..m }
        },
        RemoveOutcome::Missing => {
            &&& m.current != Some(name)
            &&& m.mapping != Some(name)
            &&& !m.profiles.contains_key(name)
        },
    }
}

/// Removes the profile `name`, unless it is active globally or for the
/// working project.
pub fn remove_profile(store: &Store, name: &String) -> (r: RemoveOutcome)
    requires
        store.wf(),
    ensures
        remove_ok(store@, name@, r),
{
    if let Some(c) = &store.current {
        if *c == *name {
            return RemoveOutcome::ActiveGlobally;
        }
    }
    if let Some(p) = &store.project_mapping {
        if *p == *name {
            return RemoveOutcome::ActiveForProject;
        }
    }
    match find_profile(store, name) {
        None => RemoveOutcome::Missing,
        Some(_) => {
            let mut es: Vec<Effect> = Vec::new();
            es.push(Effect::DeleteProfile { name: name.clone() });
            proof {
                lemma_apply_one(store@, es@[0]);
                assert(es@ =~= seq![es@[0]]);
            }
            RemoveOutcome::Removed(es)
        },
    }
}

/// The files once `origin` is renamed to `new`: the document moves, and the
/// marker follows it where it named `origin`.
pub open spec fn renamed(m: StoreModel, origin: Seq<char>, new: Seq<char>) -> StoreModel {
    StoreModel {
        profiles: m.profiles.remove(origin).insert(new, m.profiles[origin]),
        current: if m.current == Some(origin) {
            Some(new)
        } else {
            m.current
        },
        ..m
    }
}

/// Renames the profile `origin` to `new`.
pub fn rename_profile(store: &Store, origin: &String, new: &String) -> (r: Result<
    Vec<Effect>,
    ProfileError,
>)
    requires
        store.wf(),
    ensures
        match r {
            Ok(es) => {
                &&& store@.profiles.contains_key(origin@)
                &&& !store@.profiles.contains_key(new@)
                &&& apply_all(store@, es@) == renamed(store@, origin@, new@)
            },
            Err(e) => if !store@.profiles.contains_key(origin@) {
                failure(e) == Failure::NotFound(origin@)
            } else {
                store@.profiles.contains_key(new@) && failure(e) == Failure::AlreadyExists(new@)
            },
        },
{
    if find_profile(store, origin).is_none() {
        return Err(ProfileError::NotFound(origin.clone()));
    }
    if find_profile(store, new).is_some() {
        return Err(ProfileError::AlreadyExists(new.clone()));
    }
    let is_current = match &store.current {
        Some(c) => *c == *origin,
        None => false,
    };
    let mut es: Vec<Effect> = Vec::new();
    es.push(Effect::RenameProfile { from: origin.clone(), to: new.clone() });
    if is_current {
        es.push(Effect::SetCurrent { name: new.clone() });
        proof {
            lemma_apply_two(store@, es@[0], es@[1]);
            assert(es@ =~= seq![es@[0], es@[1]]);
        }
    } else {
        proof {
            lemma_apply_one(store@, es@[0]);
            assert(es@ =~= seq![es@[0]]);
        }
    }
    Ok(es)
}

/// Stores the live settings as the new profile `name` and makes it active.
pub fn import_current_profile(store: &Store, name: &String) -> (r: Result<Vec<Effect>, ProfileError>)
    requires
        store.wf(),
    ensures
        match r {
            Ok(es) => {
                &&& store@.settings is Parsed
                &&& !store@.profiles.contains_key(name@)
                &&& apply_all(store@, es@) == StoreModel {
                    profiles: store@.profiles.insert(name@, Some(store@.settings->Parsed_0)),
                    current: Some(name@),
                    ..store@
                }
            },
            Err(e) => if store@.settings is Missing {
                failure(e) == Failure::NoSettings
            } else if store@.profiles.contains_key(name@) {
                failure(e) == Failure::AlreadyExists(name@)
            } else {
                store@.settings is Invalid && failure(e) == Failure::CorruptSettings
            },
        },
{
    if let Document::Missing = &store.settings {
        return Err(ProfileError::NoSettings);
    }
    if find_profile(store, name).is_some() {
        return Err(ProfileError::AlreadyExists(name.clone()));
    }
    if let Document::Invalid = &store.settings {
        return Err(ProfileError::CorruptSettings);
    }
    let mut es: Vec<Effect> = Vec::new();
    es.push(Effect::CopySettingsToProfile { name: name.clone() });
    es.push(Effect::SetCurrent { name: name.clone() });
    proof {
        lemma_apply_two(store@, es@[0], es@[1]);
        assert(es@ =~= seq![es@[0], es@[1]]);
    }
    Ok(es)
}

/// How a sync ended.
#[derive(Debug)]
pub enum SyncOutcome {
    AlreadyInSync,
    Synced(Vec<Effect>),
}

/// What syncing the active profile with the live settings fails on.
pub open spec fn sync_failure(m: StoreModel) -> Option<Failure> {
    match m.current {
        None => Some(Failure::NoActiveProfile),
        Some(c) => if m.settings is Missing {
            Some(Failure::NoSettings)
        } else if !m.profiles.contains_key(c) {
            Some(Failure::NotFound(c))
        } else if m.settings is Invalid {
            Some(Failure::CorruptSettings)
        } else if m.profiles[c] is None {
            Some(Failure::CorruptProfile(c))
        } else {
            None
        },
    }
}

/// Stores the live settings into the active profile, where they differ.
pub fn sync_profile(store: &Store) -> (r: Result<SyncOutcome, ProfileError>)
    requires
        store.wf(),
    ensures
        match r {
            Err(e) => sync_failure(store@) == Some(failure(e)),
            Ok(SyncOutcome::AlreadyInSync) => sync_failure(store@) is None && !mismatch(store@),
            Ok(SyncOutcome::Synced(es)) => sync_failure(store@) is None && mismatch(store@)
                && apply_all(store@, es@) == absorbed(store@),
        },
{
    let c = match &store.current {
        None => return Err(ProfileError::NoActiveProfile),
        Some(c) => c,
    };
    if let Document::Missing = &store.settings {
        return Err(ProfileError::NoSettings);
    }
    if find_profile(store, c).is_none() {
        return Err(ProfileError::NotFound(c.clone()));
    }
    match check_mismatch(store) {
        Err(e) => Err(e),
        Ok(false) => Ok(SyncOutcome::AlreadyInSync),
        Ok(true) => {
            let mut es: Vec<Effect> = Vec::new();
            es.push(Effect::CopySettingsToProfile { name: c.clone() });
            proof {
                lemma_apply_one(store@, es@[0]);
                assert(es@ =~= seq![es@[0]]);
            }
            Ok(SyncOutcome::Synced(es))
        },
    }
}

/// How clearing the project's override ended.
#[derive(Debug)]
pub enum ClearOutcome {
    /// The project is mapped to no profile; nothing changes.
    NoMapping,
    /// The mapped profile is gone: only the mapping is removed, and the overlay
    /// may need a look by hand.
    Corrupted(Vec<Effect>),
    Cleared(Vec<Effect>),
}

/// The overlay once the profile's keys are taken out of it: removed where
/// nothing is left, kept as it was where it is not an object.
pub open spec fn overlay_without(overlay: DocModel, doc: JsonModel) -> DocModel {
    match overlay {
        DocModel::Parsed(ov) => {
            let r = subtract(ov, doc);
            if !(r is Object) {
                overlay
            } else if is_empty_object(r) {
                DocModel::Missing
            } else {
                DocModel::Parsed(r)
            }
        },
        _ => overlay,
    }
}

pub open spec fn clear_failure(m: StoreModel) -> Option<Failure> {
    match m.mapping {
        None => None,
        Some(p) => if !m.profiles.contains_key(p) || m.overlay is Missing {
            None
        } else if m.profiles[p] is None {
            Some(Failure::CorruptProfile(p))
        } else if m.overlay is Invalid {
            Some(Failure::CorruptProjectSettings)
        } else {
            None
        },
    }
}

pub open spec fn clear_ok(m: StoreModel, r: Result<ClearOutcome, ProfileError>) -> bool {
    match r {
        Err(e) => clear_failure(m) == Some(failure(e)),
        Ok(ClearOutcome::NoMapping) => m.mapping is None,
        Ok(ClearOutcome::Corrupted(es)) => {
            &&& es@.len() == 1
            &&& es@[0] is DeleteMapping
            &&& m.mapping is Some
            &&& !m.profiles.contains_key(m.mapping->0)
            &&& apply_all(m, es@) == StoreModel { mapping: None, ..m }
        },
        Ok(ClearOutcome::Cleared(es)) => {
            &&& es@.len() > 0
            &&& es@[es@.len() - 1] is DeleteMapping
            &&& clear_failure(m) is None
            &&& m.mapping is Some
            &&& m.profiles.contains_key(m.mapping->0)
            &&& apply_all(m, es@) == StoreModel {
                mapping: None,
                overlay: if m.overlay is Missing {
                    DocModel::Missing
                } else {
                    overlay_without(m.overlay, m.profiles[m.mapping->0]->0)
                },
                ..m
            }
        },
    }
}

/// Takes the mapped profile's keys back out of the project overlay and removes
/// the mapping.
pub fn clear_project_profile(store: &Store) -> (r: Result<ClearOutcome, ProfileError>)
    requires
        store.wf(),
    ensures
        clear_ok(store@, r),
{
    let p = match &store.project_mapping {
        None => return Ok(ClearOutcome::NoMapping),
        Some(p) => p,
    };
    let mut es: Vec<Effect> = Vec::new();
    let i = match find_profile(store, p) {
        None => {
            es.push(Effect::DeleteMapping);
            proof {
                lemma_apply_one(store@, es@[0]);
                assert(es@ =~= seq![es@[0]]);
            }
            return Ok(ClearOutcome::Corrupted(es));
        },
        Some(i) => i,
    };
    match &store.project_overlay {
        Document::Missing => {
            es.push(Effect::DeleteMapping);
            proof {
                lemma_apply_one(store@, es@[0]);
                assert(es@ =~= seq![es@[0]]);
            }
            Ok(ClearOutcome::Cleared(es))
        },
        Document::Invalid => {
            match &store.profiles[i].doc {
                None => Err(ProfileError::CorruptProfile(p.clone())),
                Some(_) => Err(ProfileError::CorruptProjectSettings),
            }
        },
        Document::Parsed(ov) => {
            let doc = match &store.profiles[i].doc {
                None => return Err(ProfileError::CorruptProfile(p.clone())),
                Some(d) => d,
            };
            proof {
                assert(opt_wf(store.profiles@[i as int].doc));
            }
            let rest = subtracted(ov.deep_copy(), doc);
            let kept = match &rest {
                Json::Object(members) => Some(members.len() > 0),
                _ => None,
            };
            proof {
                if let Json::Object(members) = &rest {
                    crate::json::lemma_members_keys(members@);
                }
            }
            match kept {
                Some(true) => es.push(Effect::WriteOverlay { doc: rest }),
                Some(false) => es.push(Effect::DeleteOverlay),
                None => {},
            }
            let ghost before = es@;
            es.push(Effect::DeleteMapping);
            proof {
                if before.len() == 0 {
                    lemma_apply_one(store@, es@[0]);
                    assert(es@ =~= seq![es@[0]]);
                } else {
                    lemma_apply_two(store@, es@[0], es@[1]);
                    assert(es@ =~= seq![es@[0], es@[1]]);
                }
            }
            Ok(ClearOutcome::Cleared(es))
        },
    }
}

/// One line of the profile list.
#[derive(Debug)]
pub struct ListedProfile {
    pub name: String,
    /// The profile is the globally active one.
    pub current: bool,
    /// The working project is mapped to the profile.
    pub current_project: bool,
}

/// `es` lists every stored profile once, in lexicographic order of names, with
/// its marks.
pub open spec fn list_ok(m: StoreModel, es: Seq<ListedProfile>) -> bool {
    &&& forall|i: int, j: int| 0 <= i < j < es.len() ==> seq_less(es[i].name@, es[j].name@)
    &&& forall|k: Seq<char>|
        #[trigger] m.profiles.contains_key(k) <==> exists|i: int|
            0 <= i < es.len() && es[i].name@ == k
    &&& forall|i: int|
        0 <= i < es.len() ==> {
            &&& (#[trigger] es[i]).current == (m.current == Some(es[i].name@))
            &&& es[i].current_project == (m.mapping == Some(es[i].name@))
        }
}

/// Some element of `s` is `k`.
pub open spec fn has_name(s: Seq<String>, k: Seq<char>) -> bool {
    exists|a: int| 0 <= a < s.len() && s[a]@ == k
}

/// One of the first `n` profiles is named `k`.
pub open spec fn named_before(ps: Seq<StoredProfile>, n: int, k: Seq<char>) -> bool {
    exists|b: int| 0 <= b < n && ps[b].name@ == k
}

/// The stored profiles' names, sorted.
fn sorted_names(store: &Store) -> (r: Vec<String>)
    requires
        store.wf(),
    ensures
        forall|i: int, j: int| 0 <= i < j < r.len() ==> seq_less(r@[i]@, r@[j]@),
        forall|k: Seq<char>|
            #[trigger] store@.profiles.contains_key(k) <==> exists|i: int|
                0 <= i < r.len() && r@[i]@ == k,
{
    let ps = &store.profiles;
    proof {
        lemma_profiles(ps@);
        assert forall|k: Seq<char>| #[trigger] has_name(Seq::<String>::empty(), k) <==> named_before(
            ps@,
            0,
            k,
        ) by {}
    }
    let mut out: Vec<String> = Vec::new();
    let mut i: usize = 0;
    while i < ps.len()
        invariant
            i <= ps.len(),
            names_unique(ps@),
            forall|a: int, b: int| 0 <= a < b < out.len() ==> seq_less(out@[a]@, out@[b]@),
            forall|k: Seq<char>| #[trigger] has_name(out@, k) <==> named_before(ps@, i as int, k),
        decreases ps.len() - i,
    {
        let x = ps[i].name.clone();
        let mut q: usize = 0;
        while q < out.len() && text_less(out[q].as_str(), x.as_str())
            invariant
                q <= out.len(),
                forall|a: int| 0 <= a < q ==> seq_less(out@[a]@, x@),
            decreases out.len() - q,
        {
            q += 1;
        }
        let ghost s = out@;
        proof {
            assert forall|a: int| 0 <= a < s.len() implies s[a]@ != x@ by {
                if s[a]@ == x@ {
                    assert(has_name(s, s[a]@));
                    let b = choose|b: int| 0 <= b < i && ps@[b].name@ == s[a]@;
                    assert(ps@[b].name@ != ps@[i as int].name@);
                }
            }
            if q < s.len() {
                lemma_seq_less_total(s[q as int]@, x@);
            }
            assert forall|a: int| q < a < s.len() implies seq_less(x@, #[trigger] s[a]@) by {
                lemma_seq_less_transitive(x@, s[q as int]@, s[a]@);
            }
        }
        out.insert(q, x);
        proof {
            let t = out@;
            assert(t =~= s.insert(q as int, x));
            assert forall|a: int, b: int| 0 <= a < b < t.len() implies seq_less(t[a]@, t[b]@) by {
                if a < q && b == q {
                } else if a < q && b > q {
                    assert(t[b] == s[b - 1]);
                    if q < s.len() {
                        lemma_seq_less_transitive(t[a]@, x@, t[b]@);
                    }
                } else if a == q {
                    assert(t[b] == s[b - 1]);
                } else if a > q {
                    assert(t[a] == s[a - 1] && t[b] == s[b - 1]);
                }
            }
            assert forall|k: Seq<char>| #[trigger] has_name(t, k) <==> named_before(
                ps@,
                i + 1,
                k,
            ) by {
                if has_name(t, k) {
                    let a = choose|a: int| 0 <= a < t.len() && t[a]@ == k;
                    if a < q {
                        assert(s[a]@ == k);
                        assert(has_name(s, k));
                    } else if a > q {
                        assert(s[a - 1]@ == k);
                        assert(has_name(s, k));
                    }
                    if a != q {
                        let b = choose|b: int| 0 <= b < i && ps@[b].name@ == k;
                        assert(named_before(ps@, i + 1, k));
                    } else {
                        assert(ps@[i as int].name@ == k);
                    }
                }
                if named_before(ps@, i + 1, k) {
                    let b = choose|b: int| 0 <= b < i + 1 && ps@[b].name@ == k;
                    if b < i {
                        assert(named_before(ps@, i as int, k));
                        assert(has_name(s, k));
                        let a = choose|a: int| 0 <= a < s.len() && s[a]@ == k;
                        if a < q {
                            assert(t[a]@ == k);
                        } else {
                            assert(t[a + 1]@ == k);
                        }
                    } else {
                        assert(t[q as int]@ == k);
                    }
                }
            }
        }
        i += 1;
    }
    proof {
        assert forall|k: Seq<char>| #[trigger]
            store@.profiles.contains_key(k) <==> exists|a: int|
                0 <= a < out.len() && out@[a]@ == k by {
            assert(has_name(out@, k) <==> named_before(ps@, ps.len() as int, k));
        }
    }
    out
}

/// Lists the stored profiles, sorted by name, each marked where it is active
/// globally or for the working project.
pub fn list_profiles(store: &Store) -> (r: Vec<ListedProfile>)
    requires
        store.wf(),
    ensures
        list_ok(store@, r@),
{
    let names = sorted_names(store);
    let mut out: Vec<ListedProfile> = Vec::new();
    let mut i: usize = 0;
    while i < names.len()
        invariant
            i <= names.len(),
            out.len() == i,
            forall|a: int| 0 <= a < i ==> (#[trigger] out@[a]).name@ == names@[a]@,
            forall|a: int|
                0 <= a < i ==> {
                    &&& (#[trigger] out@[a]).current == (store@.current == Some(out@[a].name@))
                    &&& out@[a].current_project == (store@.mapping == Some(out@[a].name@))
                },
        decreases names.len() - i,
    {
        let name = names[i].clone();
        let current = match &store.current {
            Some(c) => *c == name,
            None => false,
        };
        let current_project = match &store.project_mapping {
            Some(p) => *p == name,
            None => false,
        };
        out.push(ListedProfile { name, current, current_project });
        i += 1;
    }
    proof {
        assert forall|k: Seq<char>| #[trigger]
            store@.profiles.contains_key(k) <==> exists|a: int|
                0 <= a < out.len() && out@[a].name@ == k by {
            if store@.profiles.contains_key(k) {
                let a = choose|a: int| 0 <= a < names.len() && names@[a]@ == k;
                assert(out@[a].name@ == k);
            }
            if exists|a: int| 0 <= a < out.len() && out@[a].name@ == k {
                let a = choose|a: int| 0 <= a < out.len() && out@[a].name@ == k;
                assert(names@[a]@ == k);
            }
        }
    }
    out
}

/// The profile to launch with: the globally active one.
pub fn launch_claude_code(store: &Store) -> (r: Result<String, ProfileError>)
    ensures
        match r {
            Ok(n) => store@.current == Some(n@),
            Err(e) => store@.current is None && failure(e) == Failure::NoActiveProfile,
        },
{
    match &store.current {
        Some(c) => Ok(c.clone()),
        None => Err(ProfileError::NoActiveProfile),
    }
}

/// A global switch never stops to ask while the active profile's stored
/// document equals the live settings.
pub proof fn lemma_matching_settings_never_ask(
    m: StoreModel,
    name: Seq<char>,
    choice: Option<MismatchChoice>,
    o: SwitchOutcome,
)
    requires
        m.current is Some,
        m.profiles.contains_key(m.current->0),
        m.settings is Parsed,
        m.profiles[m.current->0] == Some(m.settings->Parsed_0),
        switch_ok(m, name, false, choice, o),
    ensures
        o is Switched,
{
}

/// Switching to a profile whose stored document equals the live settings never
/// stops to ask, where that profile is the active one or none is active.
pub proof fn lemma_switch_to_matching_profile_never_asks(
    m: StoreModel,
    name: Seq<char>,
    choice: Option<MismatchChoice>,
    o: SwitchOutcome,
)
    requires
        m.profiles.contains_key(name),
        m.settings is Parsed,
        m.profiles[name] == Some(m.settings->Parsed_0),
        m.current is None || m.current == Some(name),
        switch_ok(m, name, false, choice, o),
    ensures
        o is Switched,
{
}

/// While the active profile differs from the live settings, a global switch
/// asks first; once answered it ends in exactly the outcome the answer names,
/// and the live settings are then either untouched or the target's whole
/// document. Where the live settings are absorbed, the first change alone
/// stores them into the active profile and leaves the live settings and the
/// marker as they were.
pub proof fn lemma_mismatch_resolution(
    m: StoreModel,
    name: Seq<char>,
    choice: Option<MismatchChoice>,
    o: SwitchOutcome,
)
    requires
        mismatch(m),
        switch_failure(m, name, false) is None,
        switch_ok(m, name, false, choice, o),
    ensures
        choice is None <==> o is NeedsChoice,
        choice == Some(MismatchChoice::Proceed) <==> o is Switched,
        choice == Some(MismatchChoice::Absorb) <==> o is UpdatedThenSwitched,
        choice == Some(MismatchChoice::Cancel) <==> o is Cancelled,
        match o {
            SwitchOutcome::Switched(es) => {
                &&& apply_all(m, es@).settings == DocModel::Parsed(m.profiles[name]->0)
                &&& apply_all(m, es@).current == Some(name)
            },
            SwitchOutcome::UpdatedThenSwitched(es) => {
                &&& apply_all(m, es@.subrange(0, 1)) == absorbed(m)
                &&& absorbed(m).settings == m.settings
                &&& absorbed(m).current == m.current
                &&& absorbed(m).profiles[m.current->0] == Some(m.settings->Parsed_0)
                &&& apply_all(m, es@).profiles[m.current->0] == Some(m.settings->Parsed_0)
                &&& apply_all(m, es@).settings == DocModel::Parsed(
                    apply_all(m, es@).profiles[name]->0,
                )
                &&& apply_all(m, es@).current == Some(name)
            },
            _ => true,
        },
{
    if let SwitchOutcome::UpdatedThenSwitched(es) = o {
        assert(es@.subrange(0, 1) =~= seq![es@[0]]);
        lemma_apply_one(m, es@[0]);
        assert(apply_effect(m, es@[0]).profiles =~= absorbed(m).profiles);
    }
}

/// Removing the globally active profile is refused.
pub proof fn lemma_remove_active_refused(m: StoreModel, name: Seq<char>, o: RemoveOutcome)
    requires
        m.current == Some(name),
        remove_ok(m, name, o),
    ensures
        o is ActiveGlobally,
{
}

/// Removing a stored profile that is active nowhere succeeds, and no later list
/// shows it.
pub proof fn lemma_remove_inactive(m: StoreModel, name: Seq<char>, o: RemoveOutcome)
    requires
        m.current != Some(name),
        m.mapping != Some(name),
        m.profiles.contains_key(name),
        remove_ok(m, name, o),
    ensures
        o is Removed,
        forall|l: Seq<ListedProfile>|
            list_ok(apply_all(m, o->Removed_0@), l) ==> forall|i: int|
                0 <= i < l.len() ==> (#[trigger] l[i]).name@ != name,
{
    assert forall|l: Seq<ListedProfile>| list_ok(apply_all(m, o->Removed_0@), l) implies forall|
        i: int,
    |
        0 <= i < l.len() ==> (#[trigger] l[i]).name@ != name by {
        let after = apply_all(m, o->Removed_0@);
        assert forall|i: int| 0 <= i < l.len() implies (#[trigger] l[i]).name@ != name by {
            if l[i].name@ == name {
                assert(after.profiles.contains_key(l[i].name@));
            }
        }
    }
}

/// Renaming the active profile moves the marker with it: the list then marks
/// exactly one profile as current, the one under the new name.
pub proof fn lemma_rename_active_keeps_one_current(
    m: StoreModel,
    origin: Seq<char>,
    new: Seq<char>,
    es: Seq<Effect>,
    l: Seq<ListedProfile>,
)
    requires
        m.current == Some(origin),
        m.profiles.contains_key(origin),
        !m.profiles.contains_key(new),
        apply_all(m, es) == renamed(m, origin, new),
        list_ok(apply_all(m, es), l),
    ensures
        exists|i: int|
            0 <= i < l.len() && l[i].name@ == new && l[i].current && forall|j: int|
                0 <= j < l.len() && j != i ==> !(#[trigger] l[j]).current,
{
    let after = apply_all(m, es);
    assert(after.profiles.contains_key(new));
    let i = choose|i: int| 0 <= i < l.len() && l[i].name@ == new;
    assert(l[i].current);
    assert forall|j: int| 0 <= j < l.len() && j != i implies !(#[trigger] l[j]).current by {
        if j < i {
            lemma_seq_less_total(l[j].name@, l[i].name@);
        } else {
            lemma_seq_less_total(l[i].name@, l[j].name@);
        }
    }
}

/// Clearing the project override where no mapping exists changes nothing.
pub proof fn lemma_clear_without_mapping_is_noop(
    m: StoreModel,
    r: Result<ClearOutcome, ProfileError>,
)
    requires
        m.mapping is None,
        clear_ok(m, r),
    ensures
        r matches Ok(ClearOutcome::NoMapping),
{
}

} // verus!
