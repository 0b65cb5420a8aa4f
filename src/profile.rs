//! Profile documents: building one from the answers to the add prompts, hiding
//! its secrets for display, and the small documents that map a project to a
//! profile.

use vstd::prelude::*;
use crate::json::{
    get_member, lemma_members, lemma_members_keys, lemma_members_push, members_model,
    members_wf, model, set_member, wf, Json, JsonModel,
};
use crate::store::MismatchChoice;
use crate::text::{
    contains_text, first_at, has_infix, i64_value, parse_i64, split_once, trim, trimmed,
};

verus! {

/// The answers to the add prompts, each already trimmed; an empty answer is
/// skipped.
#[derive(Debug)]
pub struct ProfileAnswers {
    pub base_url: String,
    pub auth_token: String,
    pub model: String,
    pub small_fast_model: String,
    pub timeout: String,
    pub disable_nonessential: String,
}

/// A profile document built from the answers.
#[derive(Debug)]
pub struct NewProfile {
    pub doc: Json,
    /// The extra environment entries that were not `KEY=VALUE`, to warn about.
    pub rejected: Vec<String>,
    /// The traffic switch was not an integer and was stored as text.
    pub disable_as_text: bool,
}

pub open spec fn put_text(m: Map<Seq<char>, JsonModel>, key: Seq<char>, v: Seq<char>) -> Map<
    Seq<char>,
    JsonModel,
> {
    if v.len() > 0 {
        m.insert(key, JsonModel::Str(v))
    } else {
        m
    }
}

/// The environment that the answers give.
pub open spec fn answers_env(a: ProfileAnswers) -> Map<Seq<char>, JsonModel> {
    let m = put_text(Map::empty(), "ANTHROPIC_BASE_URL"@, a.base_url@);
    let m = put_text(m, "ANTHROPIC_AUTH_TOKEN"@, a.auth_token@);
    let m = put_text(m, "ANTHROPIC_MODEL"@, a.model@);
    let m = put_text(m, "API_TIMEOUT_MS"@, a.timeout@);
    let m = put_text(m, "ANTHROPIC_SMALL_FAST_MODEL"@, a.small_fast_model@);
    if a.disable_nonessential@.len() > 0 {
        m.insert(
            "CLAUDE_CODE_DISABLE_NONESSENTIAL_TRAFFIC"@,
            match i64_value(a.disable_nonessential@) {
                Some(n) => JsonModel::Int(n as int),
                None => JsonModel::Str(a.disable_nonessential@),
            },
        )
    } else {
        m
    }
}

/// The first place where `c` occurs in `s`, if it does.
pub open spec fn first_index(s: Seq<char>, c: char) -> Option<int> {
    if exists|i: int| first_at(s, c, i) {
        Some(choose|i: int| first_at(s, c, i))
    } else {
        None
    }
}

/// The environment once the extra `KEY=VALUE` entries are added in order, key
/// and value trimmed; entries without `=` are left out.
pub open spec fn with_env_pairs(m: Map<Seq<char>, JsonModel>, pairs: Seq<String>) -> Map<
    Seq<char>,
    JsonModel,
>
    decreases pairs.len(),
{
    if pairs.len() == 0 {
        m
    } else {
        let before = with_env_pairs(m, pairs.subrange(0, pairs.len() - 1));
        let p = pairs[pairs.len() - 1]@;
        match first_index(p, '=') {
            Some(i) => before.insert(
                trimmed(p.subrange(0, i)),
                JsonModel::Str(trimmed(p.subrange(i + 1, p.len() as int))),
            ),
            None => before,
        }
    }
}

/// The entries without `=`, in order.
pub open spec fn rejected_pairs(pairs: Seq<String>) -> Seq<Seq<char>>
    decreases pairs.len(),
{
    if pairs.len() == 0 {
        Seq::empty()
    } else {
        let before = rejected_pairs(pairs.subrange(0, pairs.len() - 1));
        let p = pairs[pairs.len() - 1]@;
        if first_index(p, '=') is None {
            before.push(p)
        } else {
            before
        }
    }
}

/// The profile document: the environment under `env`, or an empty object where
/// there is none.
pub open spec fn profile_doc(env: Map<Seq<char>, JsonModel>) -> JsonModel {
    if env.dom() == Set::<Seq<char>>::empty() {
        JsonModel::Object(Map::empty())
    } else {
        JsonModel::Object(Map::empty().insert("env"@, JsonModel::Object(env)))
    }
}

proof fn lemma_first_at_unique(s: Seq<char>, c: char, i: int, j: int)
    requires
        first_at(s, c, i),
        first_at(s, c, j),
    ensures
        i == j,
{
}

fn put_answer(env: &mut Vec<(String, Json)>, key: &str, v: &String)
    requires
        members_wf(old(env)@),
    ensures
        members_wf(final(env)@),
        members_model(final(env)@) == put_text(members_model(old(env)@), key@, v@),
{
    if v.unicode_len() > 0 {
        set_member(env, String::from_str(key), Json::Str(v.clone()));
    }
}

/// Builds the profile document from the answers and the extra `KEY=VALUE`
/// environment entries.
pub fn build_profile(answers: &ProfileAnswers, extra_env: &Vec<String>) -> (r: NewProfile)
    ensures
        wf(r.doc),
        model(r.doc) == profile_doc(with_env_pairs(answers_env(*answers), extra_env@)),
        r.rejected@.map_values(|s: String| s@) == rejected_pairs(extra_env@),
        r.disable_as_text == (answers.disable_nonessential@.len() > 0 && i64_value(
            answers.disable_nonessential@,
        ) is None),
{
    let mut env: Vec<(String, Json)> = Vec::new();
    proof {
        assert(members_model(env@) =~= Map::<Seq<char>, JsonModel>::empty());
    }
    put_answer(&mut env, "ANTHROPIC_BASE_URL", &answers.base_url);
    put_answer(&mut env, "ANTHROPIC_AUTH_TOKEN", &answers.auth_token);
    put_answer(&mut env, "ANTHROPIC_MODEL", &answers.model);
    put_answer(&mut env, "API_TIMEOUT_MS", &answers.timeout);
    put_answer(&mut env, "ANTHROPIC_SMALL_FAST_MODEL", &answers.small_fast_model);
    let mut disable_as_text = false;
    if answers.disable_nonessential.unicode_len() > 0 {
        let key = String::from_str("CLAUDE_CODE_DISABLE_NONESSENTIAL_TRAFFIC");
        match parse_i64(answers.disable_nonessential.as_str()) {
            Some(n) => set_member(&mut env, key, Json::Int(n as i128)),
            None => {
                disable_as_text = true;
                set_member(&mut env, key, Json::Str(answers.disable_nonessential.clone()));
            },
        }
    }
    let mut rejected: Vec<String> = Vec::new();
    let mut i: usize = 0;
    proof {
        assert(extra_env@.subrange(0, 0) =~= Seq::<String>::empty());
        assert(rejected@.map_values(|s: String| s@) =~= rejected_pairs(extra_env@.subrange(0, 0)));
    }
    while i < extra_env.len()
        invariant
            i <= extra_env.len(),
            members_wf(env@),
            members_model(env@) == with_env_pairs(
                answers_env(*answers),
                extra_env@.subrange(0, i as int),
            ),
            rejected@.map_values(|s: String| s@) == rejected_pairs(extra_env@.subrange(0, i as int)),
        decreases extra_env.len() - i,
    {
        let ghost p = extra_env@[i as int]@;
        proof {
            assert(extra_env@.subrange(0, i + 1).subrange(0, i as int) =~= extra_env@.subrange(
                0,
                i as int,
            ));
        }
        match split_once(extra_env[i].as_str(), '=') {
            Some((k, v)) => {
                proof {
                    let w = choose|w: int|
                        first_at(p, '=', w) && k@ == p.subrange(0, w) && v@ == p.subrange(
                            w + 1,
                            p.len() as int,
                        );
                    let c = choose|c: int| first_at(p, '=', c);
                    lemma_first_at_unique(p, '=', w, c);
                }
                set_member(&mut env, trim(k.as_str()), Json::Str(trim(v.as_str())));
            },
            None => {
                proof {
                    if exists|w: int| first_at(p, '=', w) {
                        let w = choose|w: int| first_at(p, '=', w);
                        assert(p[w] == '=');
                    }
                }
                rejected.push(extra_env[i].clone());
                proof {
                    assert(rejected@.map_values(|s: String| s@) =~= rejected_pairs(
                        extra_env@.subrange(0, i + 1),
                    ));
                }
            },
        }
        i += 1;
    }
    proof {
        assert(extra_env@.subrange(0, extra_env@.len() as int) =~= extra_env@);
        lemma_members_keys(env@);
    }
    let mut top: Vec<(String, Json)> = Vec::new();
    if env.len() > 0 {
        let key = String::from_str("env");
        let inner = Json::Object(env);
        proof {
            assert(members_model(top@) =~= Map::<Seq<char>, JsonModel>::empty());
            lemma_members_push(top@, key, inner);
        }
        top.push((key, inner));
    } else {
        proof {
            assert(members_model(top@) =~= Map::<Seq<char>, JsonModel>::empty());
        }
    }
    NewProfile { doc: Json::Object(top), rejected, disable_as_text }
}

/// The text shown in place of a secret.
pub open spec fn mask_text() -> Seq<char> {
    "••••••••••••••••"@
}

/// The document as shown: every member of `env` whose key contains `TOKEN`
/// holds the mask instead of its value.
pub open spec fn masked(v: JsonModel) -> JsonModel {
    match v {
        JsonModel::Object(m) => if m.contains_key("env"@) && m["env"@] is Object {
            let env = m["env"@]->Object_0;
            JsonModel::Object(
                m.insert(
                    "env"@,
                    JsonModel::Object(
                        Map::new(
                            |k: Seq<char>| env.contains_key(k),
                            |k: Seq<char>|
                                if has_infix(k, "TOKEN"@) {
                                    JsonModel::Str(mask_text())
                                } else {
                                    env[k]
                                },
                        ),
                    ),
                ),
            )
        } else {
            v
        },
        _ => v,
    }
}

/// A copy of the document with its tokens hidden, for display.
pub fn mask_secrets(doc: &Json) -> (r: Json)
    requires
        wf(*doc),
    ensures
        wf(r),
        model(r) == masked(model(*doc)),
{
    let key = String::from_str("env");
    let members = match doc {
        Json::Object(members) => members,
        _ => return doc.deep_copy(),
    };
    let env = match get_member(doc, &key) {
        Some(Json::Object(env)) => env,
        _ => return doc.deep_copy(),
    };
    let ghost em = members_model(env@);
    proof {
        lemma_members(env@);
        assert(members_model(Seq::<(String, Json)>::empty()) =~= Map::<
            Seq<char>,
            JsonModel,
        >::empty());
    }
    let mut out: Vec<(String, Json)> = Vec::new();
    let mut i: usize = 0;
    while i < env.len()
        invariant
            i <= env.len(),
            members_wf(env@),
            em == members_model(env@),
            forall|x: int| 0 <= x < env.len() ==> wf(#[trigger] env@[x].1),
            members_wf(out@),
            members_model(out@) == Map::new(
                |k: Seq<char>| members_model(env@.subrange(0, i as int)).contains_key(k),
                |k: Seq<char>|
                    if has_infix(k, "TOKEN"@) {
                        JsonModel::Str(mask_text())
                    } else {
                        members_model(env@.subrange(0, i as int))[k]
                    },
            ),
        decreases env.len() - i,
    {
        proof {
            crate::json::lemma_members_prefix(env@, i + 1);
            assert(env@.subrange(0, i + 1).subrange(0, i as int) =~= env@.subrange(0, i as int));
        }
        let k = env[i].0.clone();
        let v = if contains_text(k.as_str(), "TOKEN") {
            Json::Str(String::from_str("••••••••••••••••"))
        } else {
            env[i].1.deep_copy()
        };
        proof {
            lemma_members_push(out@, k, v);
        }
        out.push((k, v));
        proof {
            assert(members_model(out@) =~= Map::new(
                |k: Seq<char>| members_model(env@.subrange(0, i + 1)).contains_key(k),
                |k: Seq<char>|
                    if has_infix(k, "TOKEN"@) {
                        JsonModel::Str(mask_text())
                    } else {
                        members_model(env@.subrange(0, i + 1))[k]
                    },
            ));
        }
        i += 1;
    }
    proof {
        assert(env@.subrange(0, env@.len() as int) =~= env@);
        lemma_members(members@);
    }
    let mut top: Vec<(String, Json)> = Vec::new();
    let mut j: usize = 0;
    proof {
        assert(members_model(top@) =~= Map::<Seq<char>, JsonModel>::empty());
    }
    while j < members.len()
        invariant
            j <= members.len(),
            members_wf(members@),
            forall|x: int| 0 <= x < members.len() ==> wf(#[trigger] members@[x].1),
            members_wf(top@),
            members_model(top@) == members_model(members@.subrange(0, j as int)),
        decreases members.len() - j,
    {
        proof {
            crate::json::lemma_members_prefix(members@, j + 1);
            assert(members@.subrange(0, j + 1).subrange(0, j as int) =~= members@.subrange(
                0,
                j as int,
            ));
        }
        let k = members[j].0.clone();
        let c = members[j].1.deep_copy();
        proof {
            lemma_members_push(top@, k, c);
        }
        top.push((k, c));
        j += 1;
    }
    proof {
        assert(members@.subrange(0, members@.len() as int) =~= members@);
    }
    let inner = Json::Object(out);
    set_member(&mut top, key, inner);
    proof {
        assert(members_model(top@) =~= masked(model(*doc))->Object_0);
    }
    Json::Object(top)
}

/// The document that maps a project to a profile.
pub fn project_mapping_doc(profile: &String, path: &String) -> (r: Json)
    ensures
        wf(r),
        model(r) == JsonModel::Object(
            Map::empty().insert("profile"@, JsonModel::Str(profile@)).insert(
                "path"@,
                JsonModel::Str(path@),
            ),
        ),
{
    let mut top: Vec<(String, Json)> = Vec::new();
    proof {
        assert(members_model(top@) =~= Map::<Seq<char>, JsonModel>::empty());
    }
    set_member(&mut top, String::from_str("profile"), Json::Str(profile.clone()));
    set_member(&mut top, String::from_str("path"), Json::Str(path.clone()));
    Json::Object(top)
}

/// The text of a member, where the document is an object and the member holds
/// a string.
pub open spec fn text_member(v: JsonModel, key: Seq<char>) -> Option<Seq<char>> {
    if v is Object && v->Object_0.contains_key(key) && v->Object_0[key] is Str {
        Some(v->Object_0[key]->Str_0)
    } else {
        None
    }
}

fn get_text(doc: &Json, key: &str) -> (r: Option<String>)
    requires
        wf(*doc),
    ensures
        match r {
            Some(s) => text_member(model(*doc), key@) == Some(s@),
            None => text_member(model(*doc), key@) is None,
        },
{
    let k = String::from_str(key);
    match get_member(doc, &k) {
        Some(Json::Str(s)) => Some(s.clone()),
        _ => None,
    }
}

/// The profile name and the project path that a mapping document holds; `None`
/// where either is missing or not a string.
pub fn get_project_profile_info(doc: &Json) -> (r: Option<(String, String)>)
    requires
        wf(*doc),
    ensures
        match r {
            Some((n, p)) => text_member(model(*doc), "profile"@) == Some(n@) && text_member(
                model(*doc),
                "path"@,
            ) == Some(p@),
            None => text_member(model(*doc), "profile"@) is None || text_member(
                model(*doc),
                "path"@,
            ) is None,
        },
{
    match (get_text(doc, "profile"), get_text(doc, "path")) {
        (Some(n), Some(p)) => Some((n, p)),
        _ => None,
    }
}

/// The profile a project is mapped to, given its mapping document where there
/// is one.
pub fn get_project_current_profile(doc: Option<&Json>) -> (r: Option<String>)
    requires
        doc matches Some(d) ==> wf(*d),
    ensures
        match doc {
            None => r is None,
            Some(d) => match r {
                Some(n) => text_member(model(*d), "profile"@) == Some(n@) && text_member(
                    model(*d),
                    "path"@,
                ) is Some,
                None => text_member(model(*d), "profile"@) is None || text_member(
                    model(*d),
                    "path"@,
                ) is None,
            },
        },
{
    match doc {
        None => None,
        Some(d) => match get_project_profile_info(d) {
            Some((n, _)) => Some(n),
            None => None,
        },
    }
}

/// The answer to the mismatch prompt: `1` proceeds, `2` stores the live
/// settings first, anything else cancels.
pub fn parse_choice(line: &str) -> (r: MismatchChoice)
    ensures
        r == match i64_value(trimmed(line@)) {
            Some(1) => MismatchChoice::Proceed,
            Some(2) => MismatchChoice::Absorb,
            _ => MismatchChoice::Cancel,
        },
{
    let t = trim(line);
    match parse_i64(t.as_str()) {
        Some(1) => MismatchChoice::Proceed,
        Some(2) => MismatchChoice::Absorb,
        _ => MismatchChoice::Cancel,
    }
}

} // verus!
