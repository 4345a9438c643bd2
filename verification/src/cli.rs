//! The decisions of the command line: reading its arguments, the answers to
//! its prompts, the configuration it keeps, the MCP servers it installs, and
//! the paths and service files of the daemon.
use vstd::prelude::*;
use crate::agent::{AgentConfig, is_default_agent};
use crate::assoc::{keys_distinct, lookup, assoc_insert, kv_view, lemma_lookup, find_key};
use crate::budget::BudgetConfig;
use crate::json::{Json, JsonV};
use crate::llm::{LlmConfig, ProviderConfig};
use crate::memory::MemoryConfig;
use crate::plugin::McpServerConfig;
use crate::text::{
    starts_with, ends_with, contains, find, lower, chars_of, string_of, concat, str_eq, to_lowercase, find_exec,
    lemma_find_from_some, rfind, rfind_exec, lemma_rfind_below_some, ToOwnedString, trim, trim_str,
};
use crate::protocol::Protocol;
use crate::workflow::InputDef;

verus! {

// ---------------------------------------------------------------------------
// Arguments
// ---------------------------------------------------------------------------

/// Checks a `KEY=VALUE` argument: kept as it is when it has an `=`.
pub fn parse_key_value(s: &str) -> (r: Result<String, String>)
    ensures
        match r {
            Ok(t) => contains(s@, seq!['=']) && t@ == s@,
            Err(m) => !contains(s@, seq!['=']) && m@ == "Expected KEY=VALUE format, got: "@ + s@,
        },
{
    let v = chars_of(s);
    let mut eq: Vec<char> = Vec::new();
    eq.push('=');
    assert(eq@ =~= seq!['=']);
    if find_exec(&v, &eq).is_some() {
        Ok(s.to_owned_string())
    } else {
        Err(concat("Expected KEY=VALUE format, got: ", s))
    }
}

/// The text before the first `=` of `s` and the text after it.
pub open spec fn split_once_eq(s: Seq<char>) -> Option<(Seq<char>, Seq<char>)> {
    match find(s, seq!['=']) {
        Some(i) => Some((s.subrange(0, i), s.subrange(i + 1, s.len() as int))),
        None => None,
    }
}

/// Splits `s` at its first `=`.
fn split_once_eq_exec(s: &str) -> (r: Option<(String, String)>)
    ensures
        match r {
            Some((k, v)) => split_once_eq(s@) == Some((k@, v@)),
            None => split_once_eq(s@) is None,
        },
{
    let v = chars_of(s);
    let mut eq: Vec<char> = Vec::new();
    eq.push('=');
    assert(eq@ =~= seq!['=']);
    proof {
        lemma_find_from_some(v@, eq@, 0);
    }
    match find_exec(&v, &eq) {
        Some(i) => {
            assert(crate::text::occurs_at(v@, eq@, i as int));
            assert(i + 1 <= v.len());
            Some((string_of(&v, 0, i), string_of(&v, i + 1, v.len())))
        },
        None => None,
    }
}

/// The variables of `KEY=VALUE` texts: each split at its first `=`, those
/// without one left out; a key given again takes the later value.
pub open spec fn env_vars(pairs: Seq<String>) -> Seq<(Seq<char>, Seq<char>)>
    decreases pairs.len(),
{
    if pairs.len() == 0 {
        Seq::empty()
    } else {
        let prev = env_vars(pairs.drop_last());
        match split_once_eq(pairs.last()@) {
            Some((k, v)) => assoc_insert(prev, k, v),
            None => prev,
        }
    }
}

/// Reads `KEY=VALUE` texts as environment variables.
pub fn parse_env_vars(env_pairs: &[String]) -> (r: Vec<(String, String)>)
    ensures
        r@.map_values(|p: (String, String)| (p.0@, p.1@)) == env_vars(env_pairs@),
        keys_distinct(env_vars(env_pairs@)),
{
    let mut r: Vec<(String, String)> = Vec::new();
    let mut i: usize = 0;
    while i < env_pairs.len()
        invariant
            i <= env_pairs.len(),
            r@.map_values(|p: (String, String)| (p.0@, p.1@)) == env_vars(env_pairs@.subrange(0, i as int)),
            keys_distinct(r@.map_values(|p: (String, String)| (p.0@, p.1@))),
        decreases env_pairs.len() - i,
    {
        let ghost cur = env_pairs@.subrange(0, i + 1);
        assert(cur.drop_last() =~= env_pairs@.subrange(0, i as int));
        assert(cur.last() == env_pairs@[i as int]);
        match split_once_eq_exec(env_pairs[i].as_str()) {
            Some((k, v)) => {
                set_text(&mut r, k.as_str(), v);
            },
            None => {},
        }
        i = i + 1;
    }
    assert(env_pairs@.subrange(0, i as int) =~= env_pairs@);
    r
}

/// Sets `k` to `v` in a list of text pairs.
fn set_text(kvs: &mut Vec<(String, String)>, k: &str, v: String)
    requires
        keys_distinct(old(kvs)@.map_values(|p: (String, String)| (p.0@, p.1@))),
    ensures
        final(kvs)@.map_values(|p: (String, String)| (p.0@, p.1@)) == assoc_insert(
            old(kvs)@.map_values(|p: (String, String)| (p.0@, p.1@)),
            k@,
            v@,
        ),
        keys_distinct(final(kvs)@.map_values(|p: (String, String)| (p.0@, p.1@))),
{
    let ghost old_kv = kvs@.map_values(|p: (String, String)| (p.0@, p.1@));
    let ghost vv = v@;
    match find_key(kvs, k) {
        Some(j) => {
            proof {
                crate::template::lemma_found_pub(old_kv, j as int, k@);
            }
            let key = kvs[j].0.clone();
            kvs.set(j, (key, v));
            assert(kvs@.map_values(|p: (String, String)| (p.0@, p.1@)) =~= old_kv.update(j as int, (k@, vv)));
        },
        None => {
            proof {
                crate::template::lemma_not_found_pub(old_kv, k@);
            }
            kvs.push((k.to_owned_string(), v));
            assert(kvs@.map_values(|p: (String, String)| (p.0@, p.1@)) =~= old_kv.push((k@, vv)));
        },
    }
    proof {
        crate::assoc::lemma_lookup_insert(old_kv, k@, vv);
    }
}

/// The inputs of a workflow run: each input's default, when it has one, then
/// each `KEY=VALUE` argument (split at its first `=`) as a string, a key given
/// again taking the later value.
pub open spec fn run_inputs(pairs: Seq<String>, defaults: Seq<(String, InputDef)>) -> Seq<(Seq<char>, JsonV)> {
    args_inputs(default_inputs(defaults), pairs)
}

/// The defaults of inputs that have one.
pub open spec fn default_inputs(defaults: Seq<(String, InputDef)>) -> Seq<(Seq<char>, JsonV)>
    decreases defaults.len(),
{
    if defaults.len() == 0 {
        Seq::empty()
    } else {
        let prev = default_inputs(defaults.drop_last());
        match defaults.last().1.default {
            Some(d) => assoc_insert(prev, defaults.last().0@, d@),
            None => prev,
        }
    }
}

/// Inputs with `KEY=VALUE` arguments set over them.
pub open spec fn args_inputs(base: Seq<(Seq<char>, JsonV)>, pairs: Seq<String>) -> Seq<(Seq<char>, JsonV)>
    decreases pairs.len(),
{
    if pairs.len() == 0 {
        base
    } else {
        let prev = args_inputs(base, pairs.drop_last());
        match split_once_eq(pairs.last()@) {
            Some((k, v)) => assoc_insert(prev, k, JsonV::Str(v)),
            None => prev,
        }
    }
}

/// Sets `k` to `v` among inputs.
fn set_input(kvs: &mut Vec<(String, Json)>, k: &str, v: Json)
    requires
        keys_distinct(old(kvs)@.map_values(|p: (String, Json)| (p.0@, p.1@))),
    ensures
        final(kvs)@.map_values(|p: (String, Json)| (p.0@, p.1@)) == assoc_insert(
            old(kvs)@.map_values(|p: (String, Json)| (p.0@, p.1@)),
            k@,
            v@,
        ),
        keys_distinct(final(kvs)@.map_values(|p: (String, Json)| (p.0@, p.1@))),
{
    let ghost old_kv = kvs@.map_values(|p: (String, Json)| (p.0@, p.1@));
    let ghost vv = v@;
    match find_key(kvs, k) {
        Some(j) => {
            proof {
                crate::template::lemma_found_pub(old_kv, j as int, k@);
            }
            let key = kvs[j].0.clone();
            kvs.set(j, (key, v));
            assert(kvs@.map_values(|p: (String, Json)| (p.0@, p.1@)) =~= old_kv.update(j as int, (k@, vv)));
        },
        None => {
            proof {
                crate::template::lemma_not_found_pub(old_kv, k@);
            }
            kvs.push((k.to_owned_string(), v));
            assert(kvs@.map_values(|p: (String, Json)| (p.0@, p.1@)) =~= old_kv.push((k@, vv)));
        },
    }
    proof {
        crate::assoc::lemma_lookup_insert(old_kv, k@, vv);
    }
}

/// The inputs of a workflow run from its defaults and `KEY=VALUE` arguments.
pub fn parse_inputs(pairs: &[String], defaults: &Vec<(String, InputDef)>) -> (r: Vec<(String, Json)>)
    ensures
        r@.map_values(|p: (String, Json)| (p.0@, p.1@)) == run_inputs(pairs@, defaults@),
        keys_distinct(run_inputs(pairs@, defaults@)),
{
    let mut r: Vec<(String, Json)> = Vec::new();
    let mut i: usize = 0;
    assert(r@.map_values(|p: (String, Json)| (p.0@, p.1@)) =~= Seq::<(Seq<char>, JsonV)>::empty());
    while i < defaults.len()
        invariant
            i <= defaults.len(),
            r@.map_values(|p: (String, Json)| (p.0@, p.1@)) == default_inputs(defaults@.subrange(0, i as int)),
            keys_distinct(r@.map_values(|p: (String, Json)| (p.0@, p.1@))),
        decreases defaults.len() - i,
    {
        let ghost cur = defaults@.subrange(0, i + 1);
        assert(cur.drop_last() =~= defaults@.subrange(0, i as int));
        assert(cur.last() == defaults@[i as int]);
        match &defaults[i].1.default {
            Some(d) => {
                set_input(&mut r, defaults[i].0.as_str(), d.deep_clone());
            },
            None => {},
        }
        i = i + 1;
    }
    assert(defaults@.subrange(0, i as int) =~= defaults@);
    let ghost base = r@.map_values(|p: (String, Json)| (p.0@, p.1@));
    let mut k: usize = 0;
    while k < pairs.len()
        invariant
            k <= pairs.len(),
            base == default_inputs(defaults@),
            r@.map_values(|p: (String, Json)| (p.0@, p.1@)) == args_inputs(base, pairs@.subrange(0, k as int)),
            keys_distinct(r@.map_values(|p: (String, Json)| (p.0@, p.1@))),
        decreases pairs.len() - k,
    {
        let ghost cur = pairs@.subrange(0, k + 1);
        assert(cur.drop_last() =~= pairs@.subrange(0, k as int));
        assert(cur.last() == pairs@[k as int]);
        match split_once_eq_exec(pairs[k].as_str()) {
            Some((key, value)) => {
                set_input(&mut r, key.as_str(), Json::Str(value));
            },
            None => {},
        }
        k = k + 1;
    }
    assert(pairs@.subrange(0, k as int) =~= pairs@);
    r
}

// ---------------------------------------------------------------------------
// Prompts
// ---------------------------------------------------------------------------

/// The answer to a prompt with a default: the default when nothing was typed.
pub fn prompt_default(input: &str, default: &str) -> (r: String)
    ensures
        r@ == if input@.len() == 0 {
            default@
        } else {
            input@
        },
{
    if input.is_empty() {
        default.to_owned_string()
    } else {
        input.to_owned_string()
    }
}

/// The answer to a yes/no prompt: the default when nothing was typed, else
/// yes for `y` or `yes` in any case.
pub fn prompt_yes_no(input: &str, default_yes: bool) -> (r: bool)
    ensures
        r == if input@.len() == 0 {
            default_yes
        } else {
            lower(input@) == "y"@ || lower(input@) == "yes"@
        },
{
    if input.is_empty() {
        return default_yes;
    }
    let l = to_lowercase(input);
    str_eq(l.as_str(), "y") || str_eq(l.as_str(), "yes")
}

/// `u64::from_str` on a text, for `usize`.
pub open spec fn parse_usize(t: Seq<char>) -> Option<usize> {
    match crate::workflow::parse_u64(t) {
        Some(n) => if n <= usize::MAX {
            Some(n as usize)
        } else {
            None
        },
        None => None,
    }
}

/// The answer to a number prompt: `min` when nothing was typed; the number
/// when it is one between `min` and `max`; otherwise `None`, and the prompt is asked again.
pub fn prompt_usize(input: &str, min: usize, max: usize) -> (r: Option<usize>)
    ensures
        r == if input@.len() == 0 {
            Some(min)
        } else {
            match parse_usize(input@) {
                Some(n) => if min <= n <= max {
                    Some(n)
                } else {
                    None
                },
                None => None,
            }
        },
{
    if input.is_empty() {
        return Some(min);
    }
    let v = chars_of(input);
    assert(v@.subrange(0, v@.len() as int) =~= v@);
    match crate::workflow::parse_u64_text(&v) {
        Some(n) => {
            if n <= usize::MAX as u64 {
                let k = n as usize;
                if min <= k && k <= max {
                    Some(k)
                } else {
                    None
                }
            } else {
                None
            }
        },
        None => None,
    }
}

/// The text looks like the name of an environment variable: upper-case ASCII
/// letters and underscores only.
pub open spec fn env_name_like(s: Seq<char>) -> bool {
    forall|i: int| 0 <= i < s.len() ==> ('A' <= #[trigger] s[i] && s[i] <= 'Z') || s[i] == '_'
}

/// The answer to the API key prompt: a reference to the suggested variable
/// when nothing was typed; a reference `${NAME}` when a variable name was
/// typed; else the key itself.
pub fn prompt_api_key(input: &str, env_var_hint: &str) -> (r: String)
    ensures
        r@ == if input@.len() == 0 {
            "${"@ + env_var_hint@ + "}"@
        } else if env_name_like(input@) {
            "${"@ + input@ + "}"@
        } else {
            input@
        },
{
    if input.is_empty() {
        let mut s = concat("${", env_var_hint);
        s.append("}");
        return s;
    }
    let v = chars_of(input);
    let mut i: usize = 0;
    while i < v.len()
        invariant
            i <= v.len(),
            v@ == input@,
            input@.len() > 0,
            forall|k: int| 0 <= k < i ==> ('A' <= #[trigger] v@[k] && v@[k] <= 'Z') || v@[k] == '_',
        decreases v.len() - i,
    {
        if !(('A' <= v[i] && v[i] <= 'Z') || v[i] == '_') {
            assert(!(('A' <= input@[i as int] && input@[i as int] <= 'Z') || input@[i as int] == '_'));
            return input.to_owned_string();
        }
        i = i + 1;
    }
    let mut s = concat("${", input);
    s.append("}");
    s
}

/// The variable a `${NAME}` text refers to.
pub open spec fn env_reference(s: Seq<char>) -> Option<Seq<char>> {
    if starts_with(s, "${"@) && ends_with(s, "}"@) && s.len() >= 3 {
        Some(s.subrange(2, s.len() - 1))
    } else {
        None
    }
}

/// The variable a `${NAME}` text refers to, if it is one.
pub fn env_var_reference(s: &str) -> (r: Option<String>)
    ensures
        match r {
            Some(n) => env_reference(s@) == Some(n@),
            None => env_reference(s@) is None,
        },
{
    proof {
        reveal_strlit("${");
        reveal_strlit("}");
    }
    let v = chars_of(s);
    let n = v.len();
    if n >= 3 && v[0] == '$' && v[1] == '{' && v[n - 1] == '}' {
        assert(v@.subrange(0, 2) =~= "${"@);
        assert(v@.subrange(n - 1, n as int) =~= "}"@);
        Some(string_of(&v, 2, n - 1))
    } else {
        proof {
            if starts_with(s@, "${"@) && ends_with(s@, "}"@) && n >= 3 {
                assert(v@.subrange(0, 2)[0] == '$');
                assert(v@.subrange(0, 2)[1] == '{');
                assert(v@.subrange(n - 1, n as int)[0] == '}');
            }
        }
        None
    }
}

// ---------------------------------------------------------------------------
// MCP servers
// ---------------------------------------------------------------------------

/// How an MCP server package is run.
#[derive(Debug, Clone, Copy, PartialEq, Eq, Structural)]
pub enum PackageType {
    /// With `npx`.
    Npm,
    /// With `uvx`.
    Python,
}

/// The type of a package: the given type when there is one (`npm` or `node`
/// for npm, `python`, `pip` or `pypi` for Python, in any case, anything else
/// npm); else npm for a scoped (`@`) or path-like (`/`) name, Python otherwise.
pub open spec fn package_type(package: Seq<char>, type_override: Option<Seq<char>>) -> PackageType {
    match type_override {
        Some(t) => {
            let l = lower(t);
            if l == "python"@ || l == "pip"@ || l == "pypi"@ {
                PackageType::Python
            } else {
                PackageType::Npm
            }
        },
        None => if starts_with(package, "@"@) || contains(package, "/"@) {
            PackageType::Npm
        } else {
            PackageType::Python
        },
    }
}

/// Decides how a package is run.
pub fn detect_package_type(package: &str, type_override: Option<&str>) -> (r: PackageType)
    ensures
        r == package_type(
            package@,
            match type_override {
                Some(t) => Some(t@),
                None => None,
            },
        ),
{
    match type_override {
        Some(t) => {
            let l = to_lowercase(t);
            let ls = l.as_str();
            if str_eq(ls, "python") || str_eq(ls, "pip") || str_eq(ls, "pypi") {
                PackageType::Python
            } else {
                PackageType::Npm
            }
        },
        None => {
            let v = chars_of(package);
            let at = chars_of("@");
            let slash = chars_of("/");
            if crate::text::starts_with_exec(&v, &at) || find_exec(&v, &slash).is_some() {
                PackageType::Npm
            } else {
                PackageType::Python
            }
        },
    }
}

/// The name a package is installed under: the given name, or the part of the
/// package after its last `/`.
pub open spec fn package_server_name(package: Seq<char>, name_override: Option<Seq<char>>) -> Seq<char> {
    match name_override {
        Some(n) => n,
        None => match rfind(package, "/"@) {
            Some(i) => package.subrange(i + 1, package.len() as int),
            None => package,
        },
    }
}

/// The name a package is installed under.
pub fn server_name_for(package: &str, name_override: Option<&str>) -> (r: String)
    ensures
        r@ == package_server_name(
            package@,
            match name_override {
                Some(n) => Some(n@),
                None => None,
            },
        ),
{
    match name_override {
        Some(n) => n.to_owned_string(),
        None => {
            let v = chars_of(package);
            let slash = chars_of("/");
            proof {
                reveal_strlit("/");
                lemma_rfind_below_some(v@, slash@, v@.len() as int + 1);
            }
            match rfind_exec(&v, &slash) {
                Some(i) => {
                    assert(crate::text::occurs_at(v@, slash@, i as int));
                    assert(i + slash.len() <= v.len());
                    string_of(&v, i + slash.len(), v.len())
                },
                None => package.to_owned_string(),
            }
        },
    }
}

/// The command and arguments that run a package: `npx -y <package>` or `uvx <package>`.
pub fn install_command(package: &str, package_type: PackageType) -> (r: (String, Vec<String>))
    ensures
        package_type == PackageType::Npm ==> r.0@ == "npx"@ && crate::text::views(r.1@) == seq!["-y"@, package@],
        package_type == PackageType::Python ==> r.0@ == "uvx"@ && crate::text::views(r.1@) == seq![package@],
{
    match package_type {
        PackageType::Npm => {
            let mut args: Vec<String> = Vec::new();
            args.push("-y".to_owned_string());
            args.push(package.to_owned_string());
            assert(crate::text::views(args@) =~= seq!["-y"@, package@]);
            ("npx".to_owned_string(), args)
        },
        PackageType::Python => {
            let mut args: Vec<String> = Vec::new();
            args.push(package.to_owned_string());
            assert(crate::text::views(args@) =~= seq![package@]);
            ("uvx".to_owned_string(), args)
        },
    }
}

// ---------------------------------------------------------------------------
// Paths and services
// ---------------------------------------------------------------------------

/// `part` (a relative path) joined to `base` (`Path::join`): a separator
/// between them unless `base` is empty or ends with one.
pub open spec fn join_path(base: Seq<char>, part: Seq<char>) -> Seq<char> {
    if base.len() == 0 || base.last() == '/' {
        base + part
    } else {
        base + "/"@ + part
    }
}

/// Joins a relative path to a base.
pub fn path_join(base: &str, part: &str) -> (r: String)
    ensures
        r@ == join_path(base@, part@),
{
    let v = chars_of(base);
    if v.len() == 0 || v[v.len() - 1] == '/' {
        concat(base, part)
    } else {
        let mut s = concat(base, "/");
        s.append(part);
        s
    }
}

/// Calls `dirs::home_dir`: the user's home directory, when one is known. It
/// comes from the environment, so nothing is claimed of it.
#[verifier::external_body]
fn home_dir_text() -> Option<String> {
    dirs::home_dir().map(|p| p.to_string_lossy().to_string())
}

/// The directory of the program's files: `.xuanji` in the home directory
/// (in the current directory when there is none).
pub open spec fn xuanji_home_in(home: Option<Seq<char>>) -> Seq<char> {
    join_path(
        match home {
            Some(h) => h,
            None => "."@,
        },
        ".xuanji"@,
    )
}

/// The directory of the program's files under the given home.
pub fn xuanji_home_from(home: Option<String>) -> (r: String)
    ensures
        r@ == xuanji_home_in(
            match home {
                Some(h) => Some(h@),
                None => None,
            },
        ),
{
    match home {
        Some(h) => path_join(h.as_str(), ".xuanji"),
        None => path_join(".", ".xuanji"),
    }
}

/// The home directory, or the current directory when there is none.
pub open spec fn home_or_here(home: Option<Seq<char>>) -> Seq<char> {
    match home {
        Some(h) => h,
        None => "."@,
    }
}

/// The systemd user unit of the daemon: `.config/systemd/user/xuanji.service`
/// under the given home.
pub fn systemd_service_path_in(home: Option<String>) -> (r: String)
    ensures
        r@ == join_path(
            join_path(
                join_path(
                    join_path(
                        home_or_here(
                            match home {
                                Some(h) => Some(h@),
                                None => None,
                            },
                        ),
                        ".config"@,
                    ),
                    "systemd"@,
                ),
                "user"@,
            ),
            "xuanji.service"@,
        ),
{
    let base = match home {
        Some(h) => h,
        None => ".".to_owned_string(),
    };
    let a = path_join(base.as_str(), ".config");
    let b = path_join(a.as_str(), "systemd");
    let c = path_join(b.as_str(), "user");
    path_join(c.as_str(), "xuanji.service")
}

/// The launchd agent of the daemon: `Library/LaunchAgents/com.trueai.xuanji.plist`
/// under the given home.
pub fn launchd_plist_path_in(home: Option<String>) -> (r: String)
    ensures
        r@ == join_path(
            join_path(
                join_path(
                    home_or_here(
                        match home {
                            Some(h) => Some(h@),
                            None => None,
                        },
                    ),
                    "Library"@,
                ),
                "LaunchAgents"@,
            ),
            "com.trueai.xuanji.plist"@,
        ),
{
    let base = match home {
        Some(h) => h,
        None => ".".to_owned_string(),
    };
    let a = path_join(base.as_str(), "Library");
    let b = path_join(a.as_str(), "LaunchAgents");
    path_join(b.as_str(), "com.trueai.xuanji.plist")
}

/// The file that holds the daemon's process id, under the given home.
pub fn pid_file_path_in(home: Option<String>) -> (r: String)
    ensures
        r@ == join_path(
            xuanji_home_in(
                match home {
                    Some(h) => Some(h@),
                    None => None,
                },
            ),
            "daemon.pid"@,
        ),
{
    path_join(xuanji_home_from(home).as_str(), "daemon.pid")
}

/// The daemon's log file, under the given home.
pub fn log_file_path_in(home: Option<String>) -> (r: String)
    ensures
        r@ == join_path(
            xuanji_home_in(
                match home {
                    Some(h) => Some(h@),
                    None => None,
                },
            ),
            "daemon.log"@,
        ),
{
    path_join(xuanji_home_from(home).as_str(), "daemon.log")
}

/// The file that holds the daemon's process id, under the user's home.
pub fn pid_file_path() -> (r: String)
    ensures
        exists|home: Option<Seq<char>>| r@ == join_path(xuanji_home_in(home), "daemon.pid"@),
{
    let home = home_dir_text();
    let ghost h = match &home {
        Some(h) => Some(h@),
        None => None,
    };
    let r = pid_file_path_in(home);
    assert(r@ == join_path(xuanji_home_in(h), "daemon.pid"@));
    r
}

/// The daemon's log file, under the user's home.
pub fn log_file_path() -> (r: String)
    ensures
        exists|home: Option<Seq<char>>| r@ == join_path(xuanji_home_in(home), "daemon.log"@),
{
    let home = home_dir_text();
    let ghost h = match &home {
        Some(h) => Some(h@),
        None => None,
    };
    let r = log_file_path_in(home);
    assert(r@ == join_path(xuanji_home_in(h), "daemon.log"@));
    r
}

/// The service manager the daemon is installed with.
#[derive(Debug, Clone, Copy, PartialEq, Eq, Structural)]
pub enum ServiceKind {
    /// A systemd user service (Linux).
    Systemd,
    /// A launchd agent (macOS).
    Launchd,
}

/// The service manager of an operating system (`std::env::consts::OS`), for
/// uninstalling the daemon; refused on systems other than Linux and macOS.
pub fn uninstall_daemon(os: &str) -> (r: Result<ServiceKind, String>)
    ensures
        match r {
            Ok(k) => (os@ == "linux"@ && k == ServiceKind::Systemd) || (os@ != "linux"@ && os@ == "macos"@ && k
                == ServiceKind::Launchd),
            Err(m) => os@ != "linux"@ && os@ != "macos"@ && m@ == "daemon uninstall is only supported on Linux and macOS"@,
        },
{
    if str_eq(os, "linux") {
        Ok(ServiceKind::Systemd)
    } else if str_eq(os, "macos") {
        Ok(ServiceKind::Launchd)
    } else {
        Err("daemon uninstall is only supported on Linux and macOS".to_owned_string())
    }
}

/// The service manager of an operating system, for installing the daemon;
/// refused on systems other than Linux and macOS.
pub fn install_daemon(os: &str) -> (r: Result<ServiceKind, String>)
    ensures
        match r {
            Ok(k) => (os@ == "linux"@ && k == ServiceKind::Systemd) || (os@ != "linux"@ && os@ == "macos"@ && k
                == ServiceKind::Launchd),
            Err(m) => os@ != "linux"@ && os@ != "macos"@ && m@ == "daemon install is only supported on Linux and macOS"@,
        },
{
    if str_eq(os, "linux") {
        Ok(ServiceKind::Systemd)
    } else if str_eq(os, "macos") {
        Ok(ServiceKind::Launchd)
    } else {
        Err("daemon install is only supported on Linux and macOS".to_owned_string())
    }
}

/// The systemd unit of the daemon.
pub open spec fn systemd_unit_text(exe: Seq<char>, pid: Seq<char>, log: Seq<char>) -> Seq<char> {
    "[Unit]\nDescription=xuanji daemon\nAfter=network.target\n\n[Service]\nType=simple\nExecStart="@ + exe
        + " _daemon_run --pid-file "@ + pid + " --log-file "@ + log
        + "\nRestart=on-failure\nRestartSec=5\n\n[Install]\nWantedBy=default.target\n"@
}

/// Writes the systemd unit of the daemon.
pub fn systemd_unit(exe: &str, pid: &str, log: &str) -> (r: String)
    ensures
        r@ == systemd_unit_text(exe@, pid@, log@),
{
    let mut s = concat(
        "[Unit]\nDescription=xuanji daemon\nAfter=network.target\n\n[Service]\nType=simple\nExecStart=",
        exe,
    );
    s.append(" _daemon_run --pid-file ");
    s.append(pid);
    s.append(" --log-file ");
    s.append(log);
    s.append("\nRestart=on-failure\nRestartSec=5\n\n[Install]\nWantedBy=default.target\n");
    s
}

/// The launchd property list of the daemon.
pub open spec fn launchd_plist_text(exe: Seq<char>, pid: Seq<char>, log: Seq<char>) -> Seq<char> {
    "<?xml version=\"1.0\" encoding=\"UTF-8\"?>\n<!DOCTYPE plist PUBLIC \"-//Apple//DTD PLIST 1.0//EN\" \"http://www.apple.com/DTDs/PropertyList-1.0.dtd\">\n<plist version=\"1.0\">\n<dict>\n  <key>Label</key><string>com.trueai.xuanji</string>\n  <key>ProgramArguments</key>\n  <array>\n    <string>"@
        + exe + "</string>\n    <string>_daemon_run</string>\n    <string>--pid-file</string><string>"@ + pid
        + "</string>\n    <string>--log-file</string><string>"@ + log
        + "</string>\n  </array>\n  <key>RunAtLoad</key><true/>\n  <key>KeepAlive</key><true/>\n  <key>StandardOutPath</key><string>"@
        + log + "</string>\n  <key>StandardErrorPath</key><string>"@ + log + "</string>\n</dict>\n</plist>\n"@
}

/// Writes the launchd property list of the daemon.
pub fn launchd_plist(exe: &str, pid: &str, log: &str) -> (r: String)
    ensures
        r@ == launchd_plist_text(exe@, pid@, log@),
{
    let mut s = concat(
        "<?xml version=\"1.0\" encoding=\"UTF-8\"?>\n<!DOCTYPE plist PUBLIC \"-//Apple//DTD PLIST 1.0//EN\" \"http://www.apple.com/DTDs/PropertyList-1.0.dtd\">\n<plist version=\"1.0\">\n<dict>\n  <key>Label</key><string>com.trueai.xuanji</string>\n  <key>ProgramArguments</key>\n  <array>\n    <string>",
        exe,
    );
    s.append("</string>\n    <string>_daemon_run</string>\n    <string>--pid-file</string><string>");
    s.append(pid);
    s.append("</string>\n    <string>--log-file</string><string>");
    s.append(log);
    s.append(
        "</string>\n  </array>\n  <key>RunAtLoad</key><true/>\n  <key>KeepAlive</key><true/>\n  <key>StandardOutPath</key><string>",
    );
    s.append(log);
    s.append("</string>\n  <key>StandardErrorPath</key><string>");
    s.append(log);
    s.append("</string>\n</dict>\n</plist>\n");
    s
}

// ---------------------------------------------------------------------------
// Configuration
// ---------------------------------------------------------------------------

/// The configuration of the program: model providers, the agent, MCP
/// servers, memory and budget.
#[derive(Debug)]
pub struct XuanjiConfig {
    pub llm: LlmConfig,
    pub agent: AgentConfig,
    pub mcp_servers: Vec<McpServerConfig>,
    pub memory: MemoryConfig,
    pub budget: BudgetConfig,
}

impl Default for XuanjiConfig {
    fn default() -> (c: XuanjiConfig)
        ensures
            c.llm.default_provider is None,
            c.llm.providers@.len() == 0,
            c.mcp_servers@.len() == 0,
            is_default_agent(c.agent),
            c.memory == (MemoryConfig { max_history: 100, max_context_turns: 20 }),
            c.budget == (BudgetConfig { total_budget: 0, per_agent_budget: 0, max_depth: 3 }),
    {
        XuanjiConfig {
            llm: LlmConfig { default_provider: None, providers: Vec::new() },
            agent: AgentConfig::default(),
            mcp_servers: Vec::new(),
            memory: MemoryConfig::default(),
            budget: BudgetConfig::default(),
        }
    }
}

/// The first server named `name`.
pub open spec fn server_index(ss: Seq<McpServerConfig>, name: Seq<char>) -> Option<int>
    decreases ss.len(),
{
    if ss.len() == 0 {
        None
    } else if ss[0].name@ == name {
        Some(0)
    } else {
        match server_index(ss.drop_first(), name) {
            Some(i) => Some(i + 1),
            None => None,
        }
    }
}

/// The servers not named `name`, in order.
pub open spec fn without_server(ss: Seq<McpServerConfig>, name: Seq<char>) -> Seq<McpServerConfig>
    decreases ss.len(),
{
    if ss.len() == 0 {
        Seq::empty()
    } else {
        (if ss[0].name@ == name {
            Seq::empty()
        } else {
            seq![ss[0]]
        }) + without_server(ss.drop_first(), name)
    }
}

/// The providers after another configuration's are set over them, one by one.
pub open spec fn providers_extended(
    base: Seq<(Seq<char>, ProviderConfig)>,
    other: Seq<(Seq<char>, ProviderConfig)>,
) -> Seq<(Seq<char>, ProviderConfig)>
    decreases other.len(),
{
    if other.len() == 0 {
        base
    } else {
        assoc_insert(providers_extended(base, other.drop_last()), other.last().0, other.last().1)
    }
}

impl XuanjiConfig {
    /// Adds a server, or replaces the first one with its name.
    #[verifier::loop_isolation(false)]
    pub fn add_mcp_server(&mut self, server: McpServerConfig)
        ensures
            final(self).llm == old(self).llm,
            final(self).memory == old(self).memory,
            final(self).budget == old(self).budget,
            final(self).mcp_servers@ == match server_index(old(self).mcp_servers@, server.name@) {
                Some(i) => old(self).mcp_servers@.update(i, server),
                None => old(self).mcp_servers@.push(server),
            },
    {
        let mut i: usize = 0;
        assert(self.mcp_servers@.subrange(0, self.mcp_servers@.len() as int) =~= self.mcp_servers@);
        while i < self.mcp_servers.len()
            invariant
                i <= self.mcp_servers.len(),
                self.mcp_servers@ == old(self).mcp_servers@,
                self.llm == old(self).llm,
                self.memory == old(self).memory,
                self.budget == old(self).budget,
                server_index(self.mcp_servers@, server.name@) == match server_index(
                    self.mcp_servers@.subrange(i as int, self.mcp_servers@.len() as int),
                    server.name@,
                ) {
                    Some(k) => Some(k + i),
                    None => None,
                },
            decreases self.mcp_servers.len() - i,
        {
            let ghost rest = self.mcp_servers@.subrange(i as int, self.mcp_servers@.len() as int);
            assert(rest[0] == self.mcp_servers@[i as int]);
            assert(rest.drop_first() =~= self.mcp_servers@.subrange(i + 1, self.mcp_servers@.len() as int));
            if str_eq(self.mcp_servers[i].name.as_str(), server.name.as_str()) {
                self.mcp_servers.set(i, server);
                return;
            }
            i = i + 1;
        }
        assert(self.mcp_servers@.subrange(i as int, self.mcp_servers@.len() as int).len() == 0);
        self.mcp_servers.push(server);
    }

    /// Removes every server named `name`; whether there was one.
    pub fn remove_mcp_server(&mut self, name: &str) -> (removed: bool)
        ensures
            final(self).llm == old(self).llm,
            final(self).memory == old(self).memory,
            final(self).budget == old(self).budget,
            final(self).mcp_servers@ == without_server(old(self).mcp_servers@, name@),
            removed == (without_server(old(self).mcp_servers@, name@).len() != old(self).mcp_servers@.len()),
    {
        let before = self.mcp_servers.len();
        let mut rest: Vec<McpServerConfig> = Vec::new();
        std::mem::swap(&mut rest, &mut self.mcp_servers);
        let ghost orig = rest@;
        let mut kept: Vec<McpServerConfig> = Vec::new();
        while rest.len() > 0
            invariant
                kept@ + without_server(rest@, name@) == without_server(orig, name@),
                before == orig.len(),
            decreases rest.len(),
        {
            let ghost r0 = rest@;
            let s = rest.remove(0);
            assert(r0.drop_first() =~= rest@);
            assert(r0[0] == s);
            let ghost k0 = kept@;
            if !str_eq(s.name.as_str(), name) {
                kept.push(s);
                assert(kept@ + without_server(rest@, name@) =~= k0 + (seq![s] + without_server(rest@, name@)));
            } else {
                assert(k0 + without_server(rest@, name@) =~= k0 + (Seq::<McpServerConfig>::empty() + without_server(
                    rest@,
                    name@,
                )));
            }
        }
        assert(kept@ =~= without_server(orig, name@));
        self.mcp_servers = kept;
        self.mcp_servers.len() != before
    }

    /// This configuration with another laid over it: its default provider
    /// when it names one, its providers set over these, its agent, memory
    /// and budget settings, and its servers when it has any.
    pub fn merge(self, other: XuanjiConfig) -> (r: XuanjiConfig)
        requires
            keys_distinct(kv_view(self.llm.providers@)),
        ensures
            r.llm.default_provider == match other.llm.default_provider {
                Some(p) => Some(p),
                None => self.llm.default_provider,
            },
            kv_view(r.llm.providers@) == providers_extended(kv_view(self.llm.providers@), kv_view(other.llm.providers@)),
            r.mcp_servers@ == if other.mcp_servers@.len() > 0 {
                other.mcp_servers@
            } else {
                self.mcp_servers@
            },
            r.memory == other.memory,
            r.budget == other.budget,
    {
        let mut base = self;
        let other = other;
        if other.llm.default_provider.is_some() {
            base.llm.default_provider = other.llm.default_provider;
        }
        let ghost ov = kv_view(other.llm.providers@);
        let ghost bv = kv_view(base.llm.providers@);
        let mut providers = base.llm.providers;
        let mut incoming = other.llm.providers;
        let mut taken: Vec<(String, ProviderConfig)> = Vec::new();
        let ghost all_in = incoming@;
        while incoming.len() > 0
            invariant
                all_in == taken@ + incoming@,
                ov == kv_view(all_in),
                keys_distinct(kv_view(providers@)),
                kv_view(providers@) == providers_extended(bv, kv_view(taken@)),
            decreases incoming.len(),
        {
            let ghost i0 = incoming@;
            let (k, v) = incoming.remove(0);
            assert(i0.drop_first() =~= incoming@);
            let ghost t0 = taken@;
            let ghost pv = kv_view(providers@);
            set_provider(&mut providers, k.as_str(), v.duplicate());
            taken.push((k, v));
            assert(taken@ == t0.push(i0[0]));
            assert(all_in =~= taken@ + incoming@);
            assert(kv_view(taken@).drop_last() =~= kv_view(t0));
        }
        assert(taken@ =~= all_in);
        let mcp = if other.mcp_servers.len() > 0 {
            other.mcp_servers
        } else {
            base.mcp_servers
        };
        XuanjiConfig {
            llm: LlmConfig { default_provider: base.llm.default_provider, providers },
            agent: other.agent,
            mcp_servers: mcp,
            memory: other.memory,
            budget: other.budget,
        }
    }
}

/// Sets a provider by name.
fn set_provider(kvs: &mut Vec<(String, ProviderConfig)>, k: &str, v: ProviderConfig)
    requires
        keys_distinct(kv_view(old(kvs)@)),
    ensures
        kv_view(final(kvs)@) == assoc_insert(kv_view(old(kvs)@), k@, v),
        keys_distinct(kv_view(final(kvs)@)),
{
    crate::assoc::assoc_set(kvs, k, v);
}

/// The default provider of a configuration, with its name; refused when none
/// is named, or when the one named is not configured.
pub fn get_default_provider(config: &XuanjiConfig) -> (r: Result<(String, ProviderConfig), String>)
    requires
        keys_distinct(kv_view(config.llm.providers@)),
    ensures
        match config.llm.default_provider {
            None => r matches Err(m) && m@ == "No default_provider set. Run 'xuanji config-init' to create a config."@,
            Some(name) => match lookup(kv_view(config.llm.providers@), name@) {
                Some(p) => r matches Ok((n, q)) && n@ == name@ && q == p,
                None => r matches Err(m) && m@ == "Provider '"@ + name@ + "' not found in config."@,
            },
        },
{
    let name = match &config.llm.default_provider {
        Some(n) => n,
        None => {
            return Err("No default_provider set. Run 'xuanji config-init' to create a config.".to_owned_string());
        },
    };
    proof {
        lemma_lookup(kv_view(config.llm.providers@), name@);
    }
    match find_key(&config.llm.providers, name.as_str()) {
        Some(j) => {
            proof {
                crate::assoc::lemma_kv_index(config.llm.providers@, j as int, name@);
            }
            Ok((name.clone(), config.llm.providers[j].1.duplicate()))
        },
        None => {
            proof {
                crate::assoc::lemma_kv_absent(config.llm.providers@, name@);
            }
            let mut m = concat("Provider '", name.as_str());
            m.append("' not found in config.");
            Err(m)
        },
    }
}

// ---------------------------------------------------------------------------
// The daemon's process id
// ---------------------------------------------------------------------------

/// The process id in a pid file: its trimmed text read as a `u32` (`u32::from_str`).
pub open spec fn pid_in(text: Seq<char>) -> Option<u32> {
    match crate::workflow::parse_u64(trim(text)) {
        Some(n) => if n <= u32::MAX {
            Some(n as u32)
        } else {
            None
        },
        None => None,
    }
}

/// Reads the process id of a pid file.
pub fn parse_pid(text: &str) -> (r: Option<u32>)
    ensures
        r == pid_in(text@),
{
    let t = trim_str(text);
    let v = chars_of(t.as_str());
    match crate::workflow::parse_u64_text(&v) {
        Some(n) => if n <= u32::MAX as u64 {
            Some(n as u32)
        } else {
            None
        },
        None => None,
    }
}

/// The signed process id in a pid file: its trimmed text read as an `i32`
/// (`i32::from_str`: an optional sign, then digits, within range).
pub open spec fn signed_pid_in(text: Seq<char>) -> Option<i32> {
    let t = trim(text);
    if t.len() > 0 && t[0] == '-' {
        let d = t.subrange(1, t.len() as int);
        if crate::json::all_digits(d) && crate::json::digits_value(d) <= 0x8000_0000 {
            Some((0 - crate::json::digits_value(d)) as i32)
        } else {
            None
        }
    } else {
        match crate::workflow::parse_u64(t) {
            Some(n) => if n <= i32::MAX {
                Some(n as i32)
            } else {
                None
            },
            None => None,
        }
    }
}

/// Reads the signed process id of a pid file.
pub fn parse_signed_pid(text: &str) -> (r: Option<i32>)
    ensures
        r == signed_pid_in(text@),
{
    let t = trim_str(text);
    let v = chars_of(t.as_str());
    if v.len() > 0 && v[0] == '-' {
        let rest = string_of(&v, 1, v.len());
        match crate::json::digits_to_u64(rest.as_str()) {
            Some(n) => if n <= 0x8000_0000u64 {
                let m: i64 = 0 - (n as i64);
                Some(m as i32)
            } else {
                None
            },
            None => None,
        }
    } else {
        match crate::workflow::parse_u64_text(&v) {
            Some(n) => if n <= i32::MAX as u64 {
                Some(n as i32)
            } else {
                None
            },
            None => None,
        }
    }
}

// ---------------------------------------------------------------------------
// The setup wizard
// ---------------------------------------------------------------------------

/// A provider the setup wizard offers, with its defaults.
#[derive(Debug, Clone, Copy)]
pub struct ProviderPreset {
    pub name: &'static str,
    pub protocol: Protocol,
    pub default_model: &'static str,
    pub default_base_url: &'static str,
    pub env_var_hint: &'static str,
}

/// The providers the setup wizard offers, in order.
pub fn provider_presets() -> (r: Vec<ProviderPreset>)
    ensures
        r@.len() == 3,
        r@[0].name@ == "OpenAI"@ && r@[0].protocol == Protocol::OpenAI && r@[0].env_var_hint@ == "OPENAI_API_KEY"@,
        r@[1].name@ == "Anthropic"@ && r@[1].protocol == Protocol::Anthropic && r@[1].env_var_hint@
            == "ANTHROPIC_API_KEY"@,
        r@[2].name@ == "DeepSeek"@ && r@[2].protocol == Protocol::OpenAI && r@[2].env_var_hint@ == "DEEPSEEK_API_KEY"@,
{
    vec![
        ProviderPreset {
            name: "OpenAI",
            protocol: Protocol::OpenAI,
            default_model: "gpt-4o",
            default_base_url: "https://api.openai.com/v1",
            env_var_hint: "OPENAI_API_KEY",
        },
        ProviderPreset {
            name: "Anthropic",
            protocol: Protocol::Anthropic,
            default_model: "sonnet-4-20250514",
            default_base_url: "https://api.anthropic.com",
            env_var_hint: "ANTHROPIC_API_KEY",
        },
        ProviderPreset {
            name: "DeepSeek",
            protocol: Protocol::OpenAI,
            default_model: "deepseek-chat",
            default_base_url: "https://api.deepseek.com/v1",
            env_var_hint: "DEEPSEEK_API_KEY",
        },
    ]
}

/// The configuration the setup wizard writes: the chosen provider as the
/// default and only provider, the built-in shell server when asked for, and
/// default settings for the rest.
pub fn init_config(
    provider_name: &str,
    protocol: Protocol,
    model: &str,
    base_url: &str,
    api_key: &str,
    add_shell: bool,
) -> (c: XuanjiConfig)
    ensures
        c.llm.default_provider matches Some(n) && n@ == provider_name@,
        c.llm.providers@.len() == 1,
        c.llm.providers@[0].0@ == provider_name@,
        c.llm.providers@[0].1.protocol == protocol,
        c.llm.providers@[0].1.model@ == model@,
        c.llm.providers@[0].1.api_key@ == api_key@,
        c.llm.providers@[0].1.base_url matches Some(b) && b@ == base_url@,
        c.llm.providers@[0].1.max_tokens is None,
        c.llm.providers@[0].1.temperature is None,
        add_shell ==> c.mcp_servers@.len() == 1 && c.mcp_servers@[0].name@ == "shell"@ && c.mcp_servers@[0].command@
            == "xuanji-mcp-shell"@ && c.mcp_servers@[0].args@.len() == 0 && c.mcp_servers@[0].env@.len() == 0,
        !add_shell ==> c.mcp_servers@.len() == 0,
        is_default_agent(c.agent),
        c.memory == (MemoryConfig { max_history: 100, max_context_turns: 20 }),
        c.budget == (BudgetConfig { total_budget: 0, per_agent_budget: 0, max_depth: 3 }),
{
    let mut c = XuanjiConfig::default();
    c.llm.default_provider = Some(provider_name.to_owned_string());
    c.llm.providers.push(
        (
            provider_name.to_owned_string(),
            ProviderConfig {
                protocol,
                model: model.to_owned_string(),
                api_key: api_key.to_owned_string(),
                base_url: Some(base_url.to_owned_string()),
                max_tokens: None,
                temperature: None,
            },
        ),
    );
    if add_shell {
        c.mcp_servers.push(
            McpServerConfig {
                name: "shell".to_owned_string(),
                command: "xuanji-mcp-shell".to_owned_string(),
                args: Vec::new(),
                env: Vec::new(),
            },
        );
    }
    c
}

} // verus!
