use ccm::json::{json_equal, Json};
use ccm::store::{
    classify, clear_project_profile, import_current_profile, launch_claude_code, list_profiles,
    remove_profile, rename_profile, switch_to_profile, sync_profile, ClearOutcome, Document,
    Effect, MismatchChoice, ProfileError, RemoveOutcome, Store, StoredProfile, SwitchOutcome,
    SyncOutcome,
};

fn text(s: &str) -> Json {
    Json::Str(s.to_string())
}

fn obj(members: Vec<(&str, Json)>) -> Json {
    Json::Object(members.into_iter().map(|(k, v)| (k.to_string(), v)).collect())
}

fn env(pairs: Vec<(&str, &str)>) -> Json {
    obj(vec![("env", obj(pairs.into_iter().map(|(k, v)| (k, text(v))).collect()))])
}

fn profile(name: &str, doc: Json) -> StoredProfile {
    StoredProfile { name: name.to_string(), doc: Some(doc) }
}

fn store(profiles: Vec<StoredProfile>, current: Option<&str>, settings: Document) -> Store {
    Store {
        profiles,
        current: current.map(|c| c.to_string()),
        settings,
        project_mapping: None,
        project_overlay: Document::Missing,
    }
}

fn names(effects: &[Effect]) -> Vec<String> {
    effects
        .iter()
        .map(|e| match e {
            Effect::CopySettingsToProfile { name } => format!("settings->{}", name),
            Effect::CopyProfileToSettings { name } => format!("{}->settings", name),
            Effect::CopyProfileToOverlay { name } => format!("{}->overlay", name),
            Effect::RenameProfile { from, to } => format!("rename {} {}", from, to),
            Effect::DeleteProfile { name } => format!("delete {}", name),
            Effect::SetCurrent { name } => format!("current {}", name),
            Effect::WriteOverlay { .. } => "write overlay".to_string(),
            Effect::DeleteOverlay => "delete overlay".to_string(),
            Effect::SetMapping { name } => format!("map {}", name),
            Effect::DeleteMapping => "unmap".to_string(),
        })
        .collect()
}

#[test]
fn switch_without_settings_copies_profile_and_sets_current() {
    let s = store(vec![profile("work", env(vec![("ANTHROPIC_BASE_URL", "https://x")]))], None, Document::Missing);
    match switch_to_profile(&s, &"work".to_string(), false, None).unwrap() {
        SwitchOutcome::Switched(es) => {
            assert_eq!(names(&es), vec!["work->settings", "current work"]);
        }
        other => panic!("unexpected {:?}", other),
    }
}

#[test]
fn switch_with_drift_asks_then_absorbs_before_switching() {
    let s = store(
        vec![
            profile("play", env(vec![("FOO", "3")])),
            profile("work", env(vec![("FOO", "2")])),
        ],
        Some("work"),
        Document::Parsed(env(vec![("FOO", "1")])),
    );
    let play = "play".to_string();
    assert!(matches!(switch_to_profile(&s, &play, false, None).unwrap(), SwitchOutcome::NeedsChoice));
    match switch_to_profile(&s, &play, false, Some(MismatchChoice::Absorb)).unwrap() {
        SwitchOutcome::UpdatedThenSwitched(es) => {
            assert_eq!(names(&es), vec!["settings->work", "play->settings", "current play"]);
        }
        other => panic!("unexpected {:?}", other),
    }
    assert!(matches!(
        switch_to_profile(&s, &play, false, Some(MismatchChoice::Cancel)).unwrap(),
        SwitchOutcome::Cancelled
    ));
    match switch_to_profile(&s, &play, false, Some(MismatchChoice::Proceed)).unwrap() {
        SwitchOutcome::Switched(es) => assert_eq!(names(&es), vec!["play->settings", "current play"]),
        other => panic!("unexpected {:?}", other),
    }
}

#[test]
fn switch_never_asks_when_active_profile_matches_settings() {
    let s = store(
        vec![profile("play", env(vec![("FOO", "3")])), profile("work", env(vec![("FOO", "1")]))],
        Some("work"),
        Document::Parsed(env(vec![("FOO", "1")])),
    );
    assert!(matches!(
        switch_to_profile(&s, &"play".to_string(), false, None).unwrap(),
        SwitchOutcome::Switched(_)
    ));
}

#[test]
fn switch_failures() {
    let s = store(
        vec![StoredProfile { name: "bad".to_string(), doc: None }, profile("work", env(vec![]))],
        Some("work"),
        Document::Invalid,
    );
    assert!(matches!(switch_to_profile(&s, &"none".to_string(), false, None), Err(ProfileError::NotFound(n)) if n == "none"));
    assert!(matches!(switch_to_profile(&s, &"bad".to_string(), false, None), Err(ProfileError::CorruptProfile(n)) if n == "bad"));
    assert!(matches!(switch_to_profile(&s, &"work".to_string(), false, None), Err(ProfileError::CorruptSettings)));
    let mut p = store(vec![profile("work", env(vec![]))], None, Document::Missing);
    p.project_overlay = Document::Invalid;
    assert!(matches!(switch_to_profile(&p, &"work".to_string(), true, None), Err(ProfileError::CorruptProjectSettings)));
}

#[test]
fn project_switch_merges_into_overlay_and_maps_project() {
    let mut s = store(vec![profile("work", env(vec![("A", "1")]))], None, Document::Missing);
    s.project_overlay = Document::Parsed(obj(vec![("env", obj(vec![("B", text("2"))])), ("x", Json::Int(1))]));
    match switch_to_profile(&s, &"work".to_string(), true, None).unwrap() {
        SwitchOutcome::Switched(es) => {
            assert_eq!(names(&es), vec!["write overlay", "map work"]);
            match &es[0] {
                Effect::WriteOverlay { doc } => {
                    let expected = obj(vec![
                        ("env", obj(vec![("B", text("2")), ("A", text("1"))])),
                        ("x", Json::Int(1)),
                    ]);
                    assert!(json_equal(doc, &expected));
                }
                _ => panic!("not a write"),
            }
        }
        other => panic!("unexpected {:?}", other),
    }
    s.project_overlay = Document::Missing;
    match switch_to_profile(&s, &"work".to_string(), true, None).unwrap() {
        SwitchOutcome::Switched(es) => assert_eq!(names(&es), vec!["work->overlay", "map work"]),
        other => panic!("unexpected {:?}", other),
    }
}

#[test]
fn remove_is_refused_while_active() {
    let mut s = store(vec![profile("a", env(vec![])), profile("b", env(vec![]))], Some("a"), Document::Missing);
    assert!(matches!(remove_profile(&s, &"a".to_string()), RemoveOutcome::ActiveGlobally));
    s.project_mapping = Some("b".to_string());
    assert!(matches!(remove_profile(&s, &"b".to_string()), RemoveOutcome::ActiveForProject));
    assert!(matches!(remove_profile(&s, &"zzz".to_string()), RemoveOutcome::Missing));
}

#[test]
fn removed_profile_leaves_the_list() {
    let s = store(vec![profile("a", env(vec![])), profile("b", env(vec![]))], Some("a"), Document::Missing);
    match remove_profile(&s, &"b".to_string()) {
        RemoveOutcome::Removed(es) => assert_eq!(names(&es), vec!["delete b"]),
        other => panic!("unexpected {:?}", other),
    }
    let after = store(vec![profile("a", env(vec![]))], Some("a"), Document::Missing);
    let listed = list_profiles(&after);
    assert!(listed.iter().all(|l| l.name != "b"));
    assert_eq!(listed.len(), 1);
}

#[test]
fn rename_of_active_profile_moves_marker() {
    let s = store(vec![profile("old", env(vec![])), profile("x", env(vec![]))], Some("old"), Document::Missing);
    let es = rename_profile(&s, &"old".to_string(), &"new".to_string()).unwrap();
    assert_eq!(names(&es), vec!["rename old new", "current new"]);
    let after = store(vec![profile("x", env(vec![])), profile("new", env(vec![]))], Some("new"), Document::Missing);
    let listed = list_profiles(&after);
    let current: Vec<&str> = listed.iter().filter(|l| l.current).map(|l| l.name.as_str()).collect();
    assert_eq!(current, vec!["new"]);
    let other = rename_profile(&s, &"x".to_string(), &"y".to_string()).unwrap();
    assert_eq!(names(&other), vec!["rename x y"]);
    assert!(matches!(rename_profile(&s, &"nope".to_string(), &"y".to_string()), Err(ProfileError::NotFound(n)) if n == "nope"));
    assert!(matches!(rename_profile(&s, &"old".to_string(), &"x".to_string()), Err(ProfileError::AlreadyExists(n)) if n == "x"));
}

#[test]
fn list_is_sorted_and_marked() {
    let mut s = store(
        vec![profile("zeta", env(vec![])), profile("alpha", env(vec![])), profile("Mid", env(vec![]))],
        Some("zeta"),
        Document::Missing,
    );
    s.project_mapping = Some("alpha".to_string());
    let listed = list_profiles(&s);
    let order: Vec<&str> = listed.iter().map(|l| l.name.as_str()).collect();
    assert_eq!(order, vec!["Mid", "alpha", "zeta"]);
    assert!(listed[2].current && !listed[2].current_project);
    assert!(listed[1].current_project && !listed[1].current);
    assert!(!listed[0].current && !listed[0].current_project);
    assert!(list_profiles(&store(vec![], None, Document::Missing)).is_empty());
}

#[test]
fn clear_without_mapping_changes_nothing() {
    let s = store(vec![profile("a", env(vec![]))], Some("a"), Document::Missing);
    assert!(matches!(clear_project_profile(&s).unwrap(), ClearOutcome::NoMapping));
}

#[test]
fn clear_takes_profile_keys_out_of_overlay() {
    let mut s = store(vec![profile("work", env(vec![("A", "1")]))], None, Document::Missing);
    s.project_mapping = Some("work".to_string());
    s.project_overlay = Document::Parsed(obj(vec![("env", obj(vec![("A", text("1")), ("B", text("2"))]))]));
    match clear_project_profile(&s).unwrap() {
        ClearOutcome::Cleared(es) => {
            assert_eq!(names(&es), vec!["write overlay", "unmap"]);
            match &es[0] {
                Effect::WriteOverlay { doc } => assert!(json_equal(doc, &env(vec![("B", "2")]))),
                _ => panic!("not a write"),
            }
        }
        other => panic!("unexpected {:?}", other),
    }
    s.project_overlay = Document::Parsed(env(vec![("A", "1")]));
    match clear_project_profile(&s).unwrap() {
        ClearOutcome::Cleared(es) => assert_eq!(names(&es), vec!["delete overlay", "unmap"]),
        other => panic!("unexpected {:?}", other),
    }
    s.project_overlay = Document::Missing;
    match clear_project_profile(&s).unwrap() {
        ClearOutcome::Cleared(es) => assert_eq!(names(&es), vec!["unmap"]),
        other => panic!("unexpected {:?}", other),
    }
    s.project_mapping = Some("gone".to_string());
    match clear_project_profile(&s).unwrap() {
        ClearOutcome::Corrupted(es) => assert_eq!(names(&es), vec!["unmap"]),
        other => panic!("unexpected {:?}", other),
    }
    s.project_mapping = Some("work".to_string());
    s.project_overlay = Document::Invalid;
    assert!(matches!(clear_project_profile(&s), Err(ProfileError::CorruptProjectSettings)));
}

#[test]
fn import_copies_settings_and_activates() {
    let s = store(vec![profile("a", env(vec![]))], None, Document::Parsed(env(vec![("K", "v")])));
    let es = import_current_profile(&s, &"b".to_string()).unwrap();
    assert_eq!(names(&es), vec!["settings->b", "current b"]);
    assert!(matches!(import_current_profile(&s, &"a".to_string()), Err(ProfileError::AlreadyExists(n)) if n == "a"));
    let none = store(vec![], None, Document::Missing);
    assert!(matches!(import_current_profile(&none, &"b".to_string()), Err(ProfileError::NoSettings)));
}

#[test]
fn sync_stores_drifted_settings() {
    let s = store(vec![profile("w", env(vec![("K", "1")]))], Some("w"), Document::Parsed(env(vec![("K", "2")])));
    match sync_profile(&s).unwrap() {
        SyncOutcome::Synced(es) => assert_eq!(names(&es), vec!["settings->w"]),
        other => panic!("unexpected {:?}", other),
    }
    let same = store(vec![profile("w", env(vec![("K", "2")]))], Some("w"), Document::Parsed(env(vec![("K", "2")])));
    assert!(matches!(sync_profile(&same).unwrap(), SyncOutcome::AlreadyInSync));
    assert!(matches!(sync_profile(&store(vec![], None, Document::Missing)), Err(ProfileError::NoActiveProfile)));
    assert!(matches!(sync_profile(&store(vec![], Some("w"), Document::Missing)), Err(ProfileError::NoSettings)));
    assert!(matches!(
        sync_profile(&store(vec![], Some("w"), Document::Parsed(env(vec![])))),
        Err(ProfileError::NotFound(n)) if n == "w"
    ));
}

#[test]
fn launch_needs_an_active_profile() {
    let s = store(vec![], Some("w"), Document::Missing);
    assert_eq!(launch_claude_code(&s).unwrap(), "w");
    assert!(matches!(launch_claude_code(&store(vec![], None, Document::Missing)), Err(ProfileError::NoActiveProfile)));
}

#[test]
fn store_well_formedness() {
    let ok = store(vec![profile("a", env(vec![])), profile("b", env(vec![]))], None, Document::Missing);
    assert!(ok.is_well_formed());
    let twice = store(vec![profile("a", env(vec![])), profile("a", env(vec![]))], None, Document::Missing);
    assert!(!twice.is_well_formed());
    let bad_doc = store(
        vec![],
        None,
        Document::Parsed(Json::Object(vec![("k".to_string(), Json::Null), ("k".to_string(), Json::Null)])),
    );
    assert!(!bad_doc.is_well_formed());
}

#[test]
fn non_object_documents_are_invalid() {
    assert!(matches!(classify(Some(Json::Int(1))), Document::Invalid));
    assert!(matches!(classify(Some(Json::Array(vec![]))), Document::Invalid));
    assert!(matches!(classify(None), Document::Invalid));
    assert!(matches!(classify(Some(obj(vec![("a", Json::Null)]))), Document::Parsed(_)));
    let s = store(vec![], None, Document::Parsed(Json::Str("x".to_string())));
    assert!(!s.is_well_formed());
    let p = store(vec![profile("a", Json::Null)], None, Document::Missing);
    assert!(!p.is_well_formed());
}

#[test]
fn import_refuses_invalid_settings() {
    let s = store(vec![], None, Document::Invalid);
    assert!(matches!(import_current_profile(&s, &"b".to_string()), Err(ProfileError::CorruptSettings)));
}
