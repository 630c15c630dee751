//! The simulator's configuration rules: where its config files are looked
//! for, and how environment variables override the values of the file. The
//! caller reads the variables; these functions decide.

use vstd::prelude::*;
use crate::environment::opt_string_view;
use crate::expired::strings_view;
use crate::text::{
    chars_of, int_error_message, parse_bool, parse_bool_spec, parse_unsigned, parse_unsigned_spec, push_char, trim,
    trimmed,
};

verus! {

/// Where the container image bakes the config files in.
pub const IMAGE_CONFIG_ROOT: &'static str = "/etc/notification-service";

/// The scenario file, relative to a config root.
pub const SCENARIO_RELATIVE_DEFAULT: &'static str = "dhall-configs/dev/sim.dhall";

/// The service's own config file, relative to a config root.
pub const SERVICE_RELATIVE_DEFAULT: &'static str = "dhall-configs/dev/notification_service.dhall";

pub const SCENARIO_HINT: &'static str = "sim.dhall is self-contained; a scenario is the env vars set on top of it, not a file of its own.";

pub const SERVICE_HINT: &'static str = "This is the notification service's own config, read for its Redis settings and max_shards, not a scenario.";

/// A directory that config paths are resolved against, with a description
/// for error messages.
pub struct ConfigRoot {
    pub path: String,
    pub label: &'static str,
}

/// Where config files are looked for: the working directory of a checkout,
/// then the directory the container image bakes them into.
pub fn default_roots() -> (roots: Vec<ConfigRoot>)
    ensures
        roots@.len() == 2,
        roots@[0].path@ == "."@,
        roots@[0].label@ == "repo checkout, relative to the working directory"@,
        roots@[1].path@ == "/etc/notification-service"@,
        roots@[1].label@ == "container image, baked at build time"@,
{
    let mut roots: Vec<ConfigRoot> = Vec::new();
    roots.push(ConfigRoot { path: String::from_str("."), label: "repo checkout, relative to the working directory" });
    roots.push(
        ConfigRoot { path: String::from_str("/etc/notification-service"), label: "container image, baked at build time" },
    );
    roots
}

/// What an override of a `u64` setting gives: the default when the variable
/// is unset or blank, its trimmed value read as a number, or an error that
/// names the variable.
pub open spec fn override_u64_spec(key: Seq<char>, raw: Option<Seq<char>>, default: u64) -> Result<u64, Seq<char>> {
    match raw {
        None => Ok(default),
        Some(v) => if trimmed(v).len() == 0 {
            Ok(default)
        } else {
            match parse_unsigned_spec(trimmed(v), u64::MAX as nat) {
                Ok(n) => Ok(n as u64),
                Err(e) => Err("invalid "@ + key + ": "@ + int_error_message(e)),
            }
        },
    }
}

/// What an override of a `bool` setting gives.
pub open spec fn override_bool_spec(key: Seq<char>, raw: Option<Seq<char>>, default: bool) -> Result<bool, Seq<char>> {
    match raw {
        None => Ok(default),
        Some(v) => if trimmed(v).len() == 0 {
            Ok(default)
        } else {
            match parse_bool_spec(trimmed(v)) {
                Some(b) => Ok(b),
                None => Err("invalid "@ + key + ": provided string was not `true` or `false`"@),
            }
        },
    }
}

/// The value of the `u64` setting `key`: `raw`, the variable's value, when it
/// is set and not blank, else `default`. A value that is not a number is an
/// error that names `key`, never a silent fallback.
pub fn env_override(key: &str, raw: Option<String>, default: u64) -> (r: Result<u64, String>)
    ensures
        match r {
            Ok(n) => override_u64_spec(key@, opt_string_view(raw), default) == Ok::<u64, Seq<char>>(n),
            Err(m) => override_u64_spec(key@, opt_string_view(raw), default) == Err::<u64, Seq<char>>(m@),
        },
{
    match raw {
        None => Ok(default),
        Some(v) => {
            let t = trim(v.as_str());
            if t.as_str().is_empty() {
                Ok(default)
            } else {
                match parse_unsigned(t.as_str(), u64::MAX) {
                    Ok(n) => Ok(n),
                    Err(e) => {
                        let mut m = String::from_str("invalid ");
                        m.append(key);
                        m.append(": ");
                        m.append(e.message());
                        Err(m)
                    },
                }
            }
        },
    }
}

/// The value of the `bool` setting `key`, as `env_override` reads numbers.
pub fn env_override_bool(key: &str, raw: Option<String>, default: bool) -> (r: Result<bool, String>)
    ensures
        match r {
            Ok(b) => override_bool_spec(key@, opt_string_view(raw), default) == Ok::<bool, Seq<char>>(b),
            Err(m) => override_bool_spec(key@, opt_string_view(raw), default) == Err::<bool, Seq<char>>(m@),
        },
{
    match raw {
        None => Ok(default),
        Some(v) => {
            let t = trim(v.as_str());
            if t.as_str().is_empty() {
                Ok(default)
            } else {
                match parse_bool(t.as_str()) {
                    Some(b) => Ok(b),
                    None => {
                        let mut m = String::from_str("invalid ");
                        m.append(key);
                        m.append(": provided string was not `true` or `false`");
                        Err(m)
                    },
                }
            }
        },
    }
}

/// The index of the first simulated client: `CLIENT_INDEX_START` (its value
/// is `raw`) overrides the scenario's value.
pub fn client_index_start(raw: Option<String>, scenario_value: u64) -> (r: Result<u64, String>)
    ensures
        match r {
            Ok(n) => override_u64_spec("CLIENT_INDEX_START"@, opt_string_view(raw), scenario_value) == Ok::<
                u64,
                Seq<char>,
            >(n),
            Err(m) => override_u64_spec("CLIENT_INDEX_START"@, opt_string_view(raw), scenario_value) == Err::<
                u64,
                Seq<char>,
            >(m@),
        },
{
    env_override("CLIENT_INDEX_START", raw, scenario_value)
}

/// The pieces of `s` between commas, as `str::split(',')` yields them.
pub open spec fn split_commas(s: Seq<char>) -> Seq<Seq<char>>
    decreases s.len(),
{
    if s.len() == 0 {
        seq![Seq::<char>::empty()]
    } else {
        let p = split_commas(s.drop_last());
        if s.last() == ',' {
            p.push(Seq::<char>::empty())
        } else {
            p.update(p.len() - 1, p.last().push(s.last()))
        }
    }
}

/// The pieces, trimmed, without the blank ones.
pub open spec fn nonblank_trimmed(ps: Seq<Seq<char>>) -> Seq<Seq<char>>
    decreases ps.len(),
{
    if ps.len() == 0 {
        Seq::empty()
    } else {
        let r = nonblank_trimmed(ps.drop_last());
        if trimmed(ps.last()).len() > 0 {
            r.push(trimmed(ps.last()))
        } else {
            r
        }
    }
}

/// What a list override gives: the comma-separated items of the variable,
/// trimmed and without blanks, or `default` when it is unset or lists none.
pub open spec fn override_list_spec(raw: Option<Seq<char>>, default: Seq<Seq<char>>) -> Seq<Seq<char>> {
    match raw {
        Some(v) => if nonblank_trimmed(split_commas(v)).len() > 0 {
            nonblank_trimmed(split_commas(v))
        } else {
            default
        },
        None => default,
    }
}

proof fn lemma_split_nonempty(s: Seq<char>)
    ensures
        split_commas(s).len() >= 1,
    decreases s.len(),
{
    if s.len() > 0 {
        lemma_split_nonempty(s.drop_last());
    }
}

/// The pieces of `s` between commas.
fn split_on_commas(s: &str) -> (r: Vec<String>)
    ensures
        strings_view(r@) == split_commas(s@),
{
    let v = chars_of(s);
    let mut done: Vec<String> = Vec::new();
    let mut current = String::new();
    let mut i: usize = 0;
    assert(v@.take(0) =~= Seq::<char>::empty());
    assert(strings_view(done@).push(current@) =~= split_commas(v@.take(0)));
    while i < v.len()
        invariant
            i <= v@.len(),
            v@ == s@,
            strings_view(done@).push(current@) == split_commas(v@.take(i as int)),
        decreases v.len() - i,
    {
        let ghost t = v@.take(i + 1);
        assert(t.drop_last() == v@.take(i as int));
        assert(t.last() == v@[i as int]);
        let ghost before = strings_view(done@);
        proof {
            lemma_split_nonempty(v@.take(i as int));
        }
        if v[i] == ',' {
            let mut finished = String::new();
            std::mem::swap(&mut finished, &mut current);
            let ghost done_before = done@;
            done.push(finished);
            proof {
                assert(strings_view(done@) =~= strings_view(done_before).push(finished@));
                assert(strings_view(done@).push(current@) =~= split_commas(t));
            }
        } else {
            push_char(&mut current, v[i]);
            proof {
                assert(strings_view(done@).push(current@) =~= split_commas(t));
            }
        }
        i = i + 1;
    }
    assert(v@.take(v@.len() as int) == v@);
    let ghost done_before = done@;
    done.push(current);
    proof {
        assert(strings_view(done@) =~= strings_view(done_before).push(current@));
    }
    done
}

/// The items, trimmed, without the blank ones.
pub fn keep_nonblank_trimmed(pieces: &Vec<String>) -> (items: Vec<String>)
    ensures
        strings_view(items@) == nonblank_trimmed(strings_view(pieces@)),
{
    let ghost ps = strings_view(pieces@);
    let mut items: Vec<String> = Vec::new();
    let mut j: usize = 0;
    assert(strings_view(items@) =~= nonblank_trimmed(ps.take(0)));
    while j < pieces.len()
        invariant
            j <= pieces@.len(),
            ps == strings_view(pieces@),
            strings_view(items@) == nonblank_trimmed(ps.take(j as int)),
        decreases pieces.len() - j,
    {
        let ghost t = ps.take(j + 1);
        assert(t.drop_last() == ps.take(j as int));
        assert(t.last() == pieces@[j as int]@);
        let item = trim(pieces[j].as_str());
        if !item.as_str().is_empty() {
            let ghost before = items@;
            items.push(item);
            proof {
                assert(strings_view(items@) =~= strings_view(before).push(item@));
            }
        }
        j = j + 1;
    }
    assert(ps.take(ps.len() as int) == ps);
    items
}

/// The list setting of a variable whose value is `raw`: its comma-separated
/// items, trimmed, blanks left out; `default` when it is unset or lists none.
pub fn env_override_list(raw: Option<String>, default: Vec<String>) -> (r: Vec<String>)
    ensures
        strings_view(r@) == override_list_spec(opt_string_view(raw), strings_view(default@)),
{
    match raw {
        None => default,
        Some(v) => {
            let pieces = split_on_commas(v.as_str());
            let items = keep_nonblank_trimmed(&pieces);
            if items.len() == 0 {
                default
            } else {
                items
            }
        },
    }
}

/// What probing one config root found: the candidate path (the root joined
/// with the relative default) and whether the file, or at least the root
/// directory, exists.
pub struct RootProbe {
    pub candidate: String,
    pub label: &'static str,
    pub file_exists: bool,
    pub dir_exists: bool,
}

/// The first candidate that exists, in root order.
pub open spec fn first_existing_spec(ps: Seq<RootProbe>) -> Option<Seq<char>>
    decreases ps.len(),
{
    if ps.len() == 0 {
        None
    } else if ps[0].file_exists {
        Some(ps[0].candidate@)
    } else {
        first_existing_spec(ps.drop_first())
    }
}

pub fn first_existing(probes: &Vec<RootProbe>) -> (r: Option<String>)
    ensures
        match r {
            Some(c) => first_existing_spec(probes@) == Some(c@),
            None => first_existing_spec(probes@) is None,
        },
{
    let mut i: usize = 0;
    assert(probes@.skip(0) == probes@);
    while i < probes.len()
        invariant
            i <= probes@.len(),
            first_existing_spec(probes@) == first_existing_spec(probes@.skip(i as int)),
        decreases probes.len() - i,
    {
        assert(probes@.skip(i as int).drop_first() == probes@.skip(i + 1));
        assert(probes@.skip(i as int)[0] == probes@[i as int]);
        if probes[i].file_exists {
            return Some(probes[i].candidate.clone());
        }
        i = i + 1;
    }
    assert(probes@.skip(i as int).len() == 0);
    None
}

/// The line that tells what one root held.
pub open spec fn candidate_line(p: RootProbe) -> Seq<char> {
    "  tried "@ + p.candidate@ + " ("@ + p.label@ + ": "@ + (if p.dir_exists {
        "directory exists, file absent"@
    } else {
        "directory absent"@
    }) + ")"@
}

/// The lines of all roots, one per line.
pub open spec fn describe_spec(ps: Seq<RootProbe>) -> Seq<char>
    decreases ps.len(),
{
    if ps.len() == 0 {
        Seq::empty()
    } else if ps.len() == 1 {
        candidate_line(ps[0])
    } else {
        describe_spec(ps.drop_last()) + "\n"@ + candidate_line(ps.last())
    }
}

fn push_candidate_line(s: &mut String, p: &RootProbe)
    ensures
        final(s)@ == old(s)@ + candidate_line(*p),
{
    s.append("  tried ");
    s.append(p.candidate.as_str());
    s.append(" (");
    s.append(p.label);
    s.append(": ");
    if p.dir_exists {
        s.append("directory exists, file absent");
    } else {
        s.append("directory absent");
    }
    s.append(")");
}

/// What each root held, one line per root, for the error of an unresolved
/// default.
pub fn describe_candidates(probes: &Vec<RootProbe>) -> (d: String)
    ensures
        d@ == describe_spec(probes@),
{
    let mut d = String::new();
    let mut i: usize = 0;
    assert(d@ =~= describe_spec(probes@.take(0)));
    while i < probes.len()
        invariant
            i <= probes@.len(),
            d@ == describe_spec(probes@.take(i as int)),
        decreases probes.len() - i,
    {
        let ghost t = probes@.take(i + 1);
        assert(t.drop_last() == probes@.take(i as int));
        assert(t.last() == probes@[i as int]);
        if i > 0 {
            d.append("\n");
        } else {
            assert(t[0] == probes@[0]);
        }
        push_candidate_line(&mut d, &probes[i]);
        assert(d@ =~= describe_spec(t));
        i = i + 1;
    }
    assert(probes@.take(probes@.len() as int) == probes@);
    d
}

/// Where an explicit setting of a config path points.
pub enum ExplicitPath {
    /// The variable is unset: the defaults are tried.
    Unset,
    /// The variable is set but blank: an error.
    Blank(String),
    /// The trimmed path, to be checked for a file.
    Path(String),
}

pub open spec fn blank_error(var: Seq<char>, relative_default: Seq<char>) -> Seq<char> {
    var + " is set but empty. Unset it to fall back to "@ + relative_default + ", or point it at a config file."@
}

/// Reads the setting of the config path variable `var`, whose value is
/// `value`: unset, blank (which is refused rather than taken for unset), or
/// a path.
pub fn explicit_config_path(var: &str, value: Option<String>, relative_default: &str) -> (r: ExplicitPath)
    ensures
        value is None ==> r is Unset,
        value matches Some(v) ==> (trimmed(v@).len() == 0 ==> (r matches ExplicitPath::Blank(m) && m@ == blank_error(var@, relative_default@))),
        value matches Some(v) ==> (trimmed(v@).len() > 0 ==> (r matches ExplicitPath::Path(p) && p@ == trimmed(v@))),
{
    match value {
        None => ExplicitPath::Unset,
        Some(raw) => {
            let path = trim(raw.as_str());
            if path.as_str().is_empty() {
                let mut m = String::from_str(var);
                m.append(" is set but empty. Unset it to fall back to ");
                m.append(relative_default);
                m.append(", or point it at a config file.");
                ExplicitPath::Blank(m)
            } else {
                ExplicitPath::Path(path)
            }
        },
    }
}

pub open spec fn missing_path_error(var: Seq<char>, path: Seq<char>, working_directory: Seq<char>) -> Seq<char> {
    var + "="@ + path + " does not exist (working directory "@ + working_directory
        + "). In a pod this is usually a ConfigMap that is not mounted, or mounted somewhere else."@
}

/// An explicit path is used as it is when the file exists; a missing one is
/// an error, never a fallback to a default.
pub fn explicit_path_outcome(var: &str, path: String, exists: bool, working_directory: &str) -> (r: Result<String, String>)
    ensures
        exists ==> (r matches Ok(p) && p@ == path@),
        !exists ==> (r matches Err(m) && m@ == missing_path_error(var@, path@, working_directory@)),
{
    if exists {
        Ok(path)
    } else {
        let mut m = String::from_str(var);
        m.append("=");
        m.append(path.as_str());
        m.append(" does not exist (working directory ");
        m.append(working_directory);
        m.append("). In a pod this is usually a ConfigMap that is not mounted, or mounted somewhere else.");
        Err(m)
    }
}

pub open spec fn unresolved_error(
    var: Seq<char>,
    relative_default: Seq<char>,
    hint: Seq<char>,
    ps: Seq<RootProbe>,
    working_directory: Seq<char>,
) -> Seq<char> {
    var + " is unset and no built-in default resolved (working directory "@ + working_directory + ").\n"@
        + describe_spec(ps) + "\nSet "@ + var + " explicitly: "@ + relative_default
        + " relative to a repository checkout, or the path it is mounted at in a pod. "@ + hint
}

/// With the variable unset, the first root that holds the default file wins;
/// when none does, the error names every root tried and what it held.
pub fn resolve_default(
    var: &str,
    relative_default: &str,
    hint: &str,
    probes: &Vec<RootProbe>,
    working_directory: &str,
) -> (r: Result<String, String>)
    ensures
        match first_existing_spec(probes@) {
            Some(c) => r matches Ok(p) && p@ == c,
            None => r matches Err(m) && m@ == unresolved_error(var@, relative_default@, hint@, probes@, working_directory@),
        },
{
    match first_existing(probes) {
        Some(c) => Ok(c),
        None => {
            let mut m = String::from_str(var);
            m.append(" is unset and no built-in default resolved (working directory ");
            m.append(working_directory);
            m.append(").\n");
            let d = describe_candidates(probes);
            m.append(d.as_str());
            m.append("\nSet ");
            m.append(var);
            m.append(" explicitly: ");
            m.append(relative_default);
            m.append(" relative to a repository checkout, or the path it is mounted at in a pod. ");
            m.append(hint);
            Err(m)
        },
    }
}

} // verus!
