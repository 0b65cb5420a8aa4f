//! Where things live: the configuration root and the files under it, the live
//! settings file, and the per-project files. Every function here is a pure
//! function of the values it is given; reading the environment is the caller's.

use vstd::prelude::*;
use crate::text::{ends_with_text, starts_with_text, string_of};
use vstd::string::StringSliceAdditionalSpecFns;

verus! {

/// `name` under the directory `base`, with one `/` between them.
pub open spec fn joined(base: Seq<char>, name: Seq<char>) -> Seq<char> {
    if base.len() == 0 {
        name
    } else if base[base.len() - 1] == '/' {
        base + name
    } else {
        base + seq!['/'] + name
    }
}

/// `name` under the directory `base`. `name` is taken as relative.
pub fn join_path(base: &str, name: &str) -> (r: String)
    ensures
        r@ == joined(base@, name@),
{
    let n = base.unicode_len();
    if n == 0 {
        return String::from_str(name);
    }
    let mut out = String::from_str(base);
    if base.get_char(n - 1) != '/' {
        let sep = "/";
        proof {
            reveal_strlit("/");
        }
        out.append(sep);
    }
    out.append(name);
    out
}

/// The configuration root: the override where one is given, else `ccm` under
/// the platform's configuration directory, else under the working directory.
pub fn ccm_dir(custom: Option<&str>, config_dir: Option<&str>) -> (r: String)
    ensures
        r@ == match custom {
            Some(c) => c@,
            None => match config_dir {
                Some(d) => joined(d@, "ccm"@),
                None => joined("./"@, "ccm"@),
            },
        },
{
    match custom {
        Some(c) => String::from_str(c),
        None => match config_dir {
            Some(d) => join_path(d, "ccm"),
            None => join_path("./", "ccm"),
        },
    }
}

/// The directory of the stored profiles.
pub fn profiles_dir(root: &str) -> (r: String)
    ensures
        r@ == joined(root@, "profiles"@),
{
    join_path(root, "profiles")
}

/// The directory of the per-project mappings.
pub fn project_profiles_dir(root: &str) -> (r: String)
    ensures
        r@ == joined(root@, "projects"@),
{
    join_path(root, "projects")
}

/// The file that names the globally active profile.
pub fn current_profile_path(root: &str) -> (r: String)
    ensures
        r@ == joined(root@, "current"@),
{
    join_path(root, "current")
}

/// The file of the profile `name`: `<name>.json` in the profiles directory.
pub fn profile_path(root: &str, name: &str) -> (r: String)
    ensures
        r@ == joined(joined(root@, "profiles"@), name@ + ".json"@),
{
    let dir = profiles_dir(root);
    let mut file = String::from_str(name);
    file.append(".json");
    join_path(dir.as_str(), file.as_str())
}

pub const FNV_OFFSET: u64 = 0xcbf2_9ce4_8422_2325;

pub const FNV_PRIME: u64 = 0x0000_0100_0000_01b3;

/// The 64-bit FNV-1a hash of a byte string.
pub open spec fn fnv1a(bytes: Seq<u8>) -> u64
    decreases bytes.len(),
{
    if bytes.len() == 0 {
        FNV_OFFSET
    } else {
        (fnv1a(bytes.subrange(0, bytes.len() - 1)) ^ (bytes[bytes.len() - 1] as u64)).wrapping_mul(
            FNV_PRIME,
        )
    }
}

pub open spec fn hex_digit(d: u64) -> char {
    "0123456789abcdef"@[d as int]
}

/// The value as sixteen lower-case hex digits, most significant first.
pub open spec fn hex16(h: u64) -> Seq<char> {
    Seq::new(16, |i: int| hex_digit((h >> ((4 * (15 - i)) as u64)) & 15))
}

/// A stable name for a project directory: the FNV-1a hash of its UTF-8 bytes,
/// in hex.
pub fn hash_path(path: &str) -> (r: String)
    ensures
        r@ == hex16(fnv1a(path.spec_bytes())),
{
    let bytes = path.as_bytes();
    let mut h: u64 = FNV_OFFSET;
    let mut i: usize = 0;
    while i < bytes.len()
        invariant
            bytes@ == path.spec_bytes(),
            i <= bytes@.len(),
            h == fnv1a(bytes@.subrange(0, i as int)),
        decreases bytes.len() - i,
    {
        proof {
            assert(bytes@.subrange(0, i + 1).subrange(0, i as int) =~= bytes@.subrange(0, i as int));
        }
        h = (h ^ (bytes[i] as u64)).wrapping_mul(FNV_PRIME);
        i += 1;
    }
    proof {
        assert(bytes@.subrange(0, bytes@.len() as int) =~= bytes@);
    }
    let digits = "0123456789abcdef";
    proof {
        reveal_strlit("0123456789abcdef");
    }
    let mut out = String::new();
    let mut k: usize = 0;
    while k < 16
        invariant
            k <= 16,
            digits@ == "0123456789abcdef"@,
            digits@.len() == 16,
            out@ == hex16(h).subrange(0, k as int),
        decreases 16 - k,
    {
        let shift: u64 = 4 * (15 - k as u64);
        let d = ((h >> shift) & 15) as usize;
        proof {
            assert(((h >> shift) & 15) < 16) by (bit_vector);
        }
        let one = digits.substring_char(d, d + 1);
        out.append(one);
        k += 1;
        proof {
            assert(one@ =~= seq![hex_digit((h >> shift) & 15)]);
            assert(out@ =~= hex16(h).subrange(0, k as int));
        }
    }
    proof {
        assert(hex16(h).subrange(0, 16) =~= hex16(h));
    }
    out
}

/// The file of the mapping for a project directory.
pub fn project_profile_path(root: &str, project_dir: &str) -> (r: String)
    ensures
        r@ == joined(joined(root@, "projects"@), hex16(fnv1a(project_dir.spec_bytes())) + ".json"@),
{
    let dir = project_profiles_dir(root);
    let mut file = hash_path(project_dir);
    file.append(".json");
    join_path(dir.as_str(), file.as_str())
}

/// The project's own settings overlay: `settings.local.json` in the
/// assistant's directory `tool_dir` of the project.
pub fn project_settings_local_path(project_dir: &str, tool_dir: &str) -> (r: String)
    ensures
        r@ == joined(joined(project_dir@, tool_dir@), "settings.local.json"@),
{
    let dir = join_path(project_dir, tool_dir);
    join_path(dir.as_str(), "settings.local.json")
}

/// The live settings file: the override where one is given, else
/// `settings.json` in the assistant's directory `tool_dir` under the home
/// directory, else in the working directory.
pub fn claude_settings_path(custom: Option<&str>, home: Option<&str>, tool_dir: &str) -> (r:
    String)
    ensures
        r@ == match custom {
            Some(c) => c@,
            None => match home {
                Some(h) => joined(joined(h@, tool_dir@), "settings.json"@),
                None => "./settings.json"@,
            },
        },
{
    match custom {
        Some(c) => String::from_str(c),
        None => match home {
            Some(h) => {
                let dir = join_path(h, tool_dir);
                join_path(dir.as_str(), "settings.json")
            },
            None => String::from_str("./settings.json"),
        },
    }
}

/// The profile that a file in the profiles directory holds: visible files named
/// `<name>.json` hold the profile `<name>`.
pub open spec fn profile_name_of_file(f: Seq<char>) -> Option<Seq<char>> {
    if f.len() > 5 && f[0] != '.' && f.subrange(f.len() - 5, f.len() as int) == ".json"@ {
        Some(f.subrange(0, f.len() - 5))
    } else {
        None
    }
}

/// The profile that a file in the profiles directory holds, if any.
pub fn profile_name_of(file_name: &str) -> (r: Option<String>)
    ensures
        r is Some ==> profile_name_of_file(file_name@) == Some(r->0@),
        r is None ==> profile_name_of_file(file_name@) is None,
{
    let suffix = ".json";
    proof {
        reveal_strlit(".json");
        reveal_strlit(".");
    }
    let n = file_name.unicode_len();
    if n > 5 && !starts_with_text(file_name, ".") && ends_with_text(file_name, suffix) {
        proof {
            if file_name@[0] == '.' {
                assert(file_name@.subrange(0, 1) =~= "."@);
            }
        }
        let stem = string_of(file_name, 0, n - 5);
        proof {
            assert(profile_name_of_file(file_name@) == Some(stem@));
        }
        Some(stem)
    } else {
        proof {
            if n > 5 {
                assert(file_name@.subrange(0, 1)[0] == file_name@[0]);
                assert("."@[0] == '.');
            }
        }
        None
    }
}

} // verus!
