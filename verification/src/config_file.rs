use vstd::prelude::*;

use crate::env::Env;
use crate::strutil::{find_char, rfind_char, spec_find, spec_rfind};

verus! {

/// Why a raw path specification failed to resolve.
#[derive(Clone, Copy, Debug, PartialEq, Eq, Structural)]
pub enum PathError {
    /// A `$VAR` prefix named an environment variable that is unset.
    EnvVarMissing,
    /// A trailing-slash/directory mismatch: a path ending in `/` must name
    /// an existing directory, and a path naming an existing directory must
    /// end in `/`.
    InvalidDirectorySpec,
    /// The final path segment, which becomes the include pattern, is
    /// empty or one of the relative-path markers `.` and `..`.
    InvalidFileName,
    /// A structured specification without a `path` field.
    MissingPathField,
}

/// `s` with every leading `'$'` removed.
pub open spec fn strip_dollars(s: Seq<char>) -> Seq<char>
    decreases s.len(),
{
    if s.len() > 0 && s[0] == '$' {
        strip_dollars(s.skip(1))
    } else {
        s
    }
}

/// The environment-variable name a `$`-prefixed path refers to: the part
/// of the stripped path before the first `/`, or all of it.
pub open spec fn dollar_key(s: Seq<char>) -> Seq<char> {
    let t = strip_dollars(s);
    match spec_find(t, '/') {
        Some(i) => t.take(i),
        None => t,
    }
}

/// The `$VAR` expansion step: a path starting with `$` has the variable
/// name up to the first `/` replaced by its value; `None` when the
/// variable is unset. Any other path passes through unchanged.
pub open spec fn spec_dollar_expand(s: Seq<char>, env: Map<Seq<char>, Seq<char>>) -> Option<
    Seq<char>,
> {
    if s.len() > 0 && s[0] == '$' {
        if env.dom().contains(dollar_key(s)) {
            let t = strip_dollars(s);
            match spec_find(t, '/') {
                Some(i) => Some(env[dollar_key(s)] + seq!['/'] + t.skip(i + 1)),
                None => Some(env[dollar_key(s)]),
            }
        } else {
            None
        }
    } else {
        Some(s)
    }
}

/// Whether expansion takes the `~` step, which reads `HOME`: only a path
/// that itself starts with `~` does; a `$VAR` path is reassembled exactly
/// and its value is not expanded again.
pub open spec fn needs_home(s: Seq<char>) -> bool {
    s.len() > 0 && s[0] == '~'
}

/// Full expansion: a path starting with `$` takes the `$VAR` step and is
/// reassembled exactly; else a path starting with `~` has everything
/// before its first `/` replaced by the value of `HOME`; any other path
/// passes through unchanged.
pub open spec fn spec_escape_var(s: Seq<char>, env: Map<Seq<char>, Seq<char>>) -> Option<
    Seq<char>,
> {
    if s.len() > 0 && s[0] == '$' {
        spec_dollar_expand(s, env)
    } else if needs_home(s) {
        let home = env["HOME"@];
        match spec_find(s, '/') {
            Some(i) => Some(home + seq!['/'] + s.skip(i + 1)),
            None => Some(home),
        }
    } else {
        Some(s)
    }
}

proof fn lemma_strip_dollars_skip(s: Seq<char>, k: int)
    requires
        0 <= k <= s.len(),
        forall|j: int| 0 <= j < k ==> s[j] == '$',
        k == s.len() || s[k] != '$',
    ensures
        strip_dollars(s) == s.skip(k),
    decreases k,
{
    if k > 0 {
        lemma_strip_dollars_skip(s.skip(1), k - 1);
        assert(s.skip(1).skip(k - 1) =~= s.skip(k));
    } else {
        assert(s.skip(0) =~= s);
    }
}

/// Replaces a leading `$VAR` or `~` with its value from the environment
/// table; the two steps never combine, so a variable's value is used as
/// it is.
pub fn escape_var(path: &str, env: &Env) -> (r: Result<String, PathError>)
    requires
        env.wf(),
        needs_home(path@) ==> env@.dom().contains("HOME"@),
    ensures
        match r {
            Ok(s) => spec_escape_var(path@, env@) == Some(s@),
            Err(e) => e == PathError::EnvVarMissing && spec_escape_var(path@, env@) is None,
        },
{
    let len = path.unicode_len();
    if len > 0 && path.get_char(0) == '$' {
        // the `$VAR` step: reassembled exactly as `<value>/<rest>`
        let mut k: usize = 0;
        while k < len && path.get_char(k) == '$'
            invariant
                len == path@.len(),
                0 <= k <= len,
                forall|j: int| 0 <= j < k ==> path@[j] == '$',
            decreases len - k,
        {
            k += 1;
        }
        let stripped = path.substring_char(k, len);
        proof {
            lemma_strip_dollars_skip(path@, k as int);
        }
        match find_char(stripped, '/') {
            Some(i) => {
                proof {
                    crate::strutil::lemma_spec_find_props(stripped@, '/');
                }
                let env_key = stripped.substring_char(0, i);
                match env.lookup(env_key) {
                    None => Err(PathError::EnvVarMissing),
                    Some(v) => {
                        let mut out = v.clone();
                        out.append("/");
                        proof {
                            reveal_strlit("/");
                            assert("/"@ =~= seq!['/']);
                        }
                        let rest = stripped.substring_char(i + 1, len - k);
                        out.append(rest);
                        Ok(out)
                    },
                }
            },
            None => {
                match env.lookup(stripped) {
                    None => Err(PathError::EnvVarMissing),
                    Some(v) => Ok(v.clone()),
                }
            },
        }
    } else if len > 0 && path.get_char(0) == '~' {
        // the `~` step
        let home = match env.lookup("HOME") {
            Some(h) => h.clone(),
            None => {
                // the precondition rules a missing HOME out here
                proof {
                    assert(false);
                }
                return Err(PathError::EnvVarMissing);
            },
        };
        match find_char(path, '/') {
            Some(i) => {
                proof {
                    crate::strutil::lemma_spec_find_props(path@, '/');
                }
                let mut out = home;
                out.append("/");
                proof {
                    reveal_strlit("/");
                    assert("/"@ =~= seq!['/']);
                }
                let rest = path.substring_char(i + 1, len);
                out.append(rest);
                Ok(out)
            },
            None => Ok(home),
        }
    } else {
        Ok(path.to_owned())
    }
}

/// Whether the specification asserts "this is a directory" by a trailing `/`.
pub open spec fn ends_slash(s: Seq<char>) -> bool {
    s.len() > 0 && s.last() == '/'
}

/// The prefix of an expanded path before its last `/`; empty when the path
/// has no `/`.
pub open spec fn spec_base_of(p: Seq<char>) -> Seq<char> {
    match spec_rfind(p, '/') {
        Some(i) => p.take(i),
        None => Seq::empty(),
    }
}

/// The final segment of an expanded path: everything after its last `/`.
pub open spec fn spec_file_name_of(p: Seq<char>) -> Seq<char> {
    match spec_rfind(p, '/') {
        Some(i) => p.skip(i + 1),
        None => p,
    }
}

/// A usable final segment: non-empty and neither of the relative-path
/// markers `.` and `..`.
pub open spec fn valid_file_name(f: Seq<char>) -> bool {
    f.len() > 0 && f != "."@ && f != ".."@
}

/// The view of an optional owned string.
pub open spec fn opt_view(o: Option<String>) -> Option<Seq<char>> {
    match o {
        Some(s) => Some(s@),
        None => None,
    }
}

/// What resolving one path-bearing string yields: the base directory and
/// the include pattern (untouched when already set, otherwise the final
/// segment of a path that names a file), or the error.
pub open spec fn spec_validated_path(
    val: Seq<char>,
    env: Map<Seq<char>, Seq<char>>,
    is_dir: bool,
    include0: Option<Seq<char>>,
) -> Result<(Seq<char>, Option<Seq<char>>), PathError> {
    match spec_escape_var(val, env) {
        None => Err(PathError::EnvVarMissing),
        Some(p) => {
            if ends_slash(val) {
                if is_dir {
                    Ok((p, include0))
                } else {
                    Err(PathError::InvalidDirectorySpec)
                }
            } else if is_dir {
                Err(PathError::InvalidDirectorySpec)
            } else if !valid_file_name(spec_file_name_of(p)) {
                Err(PathError::InvalidFileName)
            } else {
                Ok(
                    (
                        spec_base_of(p),
                        if include0 is None {
                            Some(spec_file_name_of(p))
                        } else {
                            include0
                        },
                    ),
                )
            }
        },
    }
}

/// Expands `val` and splits it into a base directory and, for a path that
/// names a file, the file's name as the include pattern. `expanded_is_dir`
/// tells whether the expanded path names an existing directory: a path
/// with a trailing `/` must, and one without must not.
pub fn validated_path(
    val: &str,
    env: &Env,
    expanded_is_dir: bool,
    include_glob: &mut Option<String>,
) -> (r: Result<String, PathError>)
    requires
        env.wf(),
        needs_home(val@) ==> env@.dom().contains("HOME"@),
    ensures
        match r {
            Ok(base) => {
                &&& spec_validated_path(
                    val@,
                    env@,
                    expanded_is_dir,
                    opt_view(*old(include_glob)),
                ) matches Ok(pair)
                &&& base@ == pair.0
                &&& opt_view(*final(include_glob)) == pair.1
            },
            Err(e) => {
                &&& spec_validated_path(val@, env@, expanded_is_dir, opt_view(*old(include_glob)))
                    == Err::<(Seq<char>, Option<Seq<char>>), PathError>(e)
                &&& *final(include_glob) == *old(include_glob)
            },
        },
{
    let len = val.unicode_len();
    let ends_with_slash = len > 0 && val.get_char(len - 1) == '/';
    let path = match escape_var(val, env) {
        Ok(p) => p,
        Err(e) => {
            return Err(e);
        },
    };
    if ends_with_slash {
        if !expanded_is_dir {
            return Err(PathError::InvalidDirectorySpec);
        }
        return Ok(path);
    }
    if expanded_is_dir {
        return Err(PathError::InvalidDirectorySpec);
    }
    let plen = path.as_str().unicode_len();
    match rfind_char(path.as_str(), '/') {
        Some(i) => {
            proof {
                crate::strutil::lemma_spec_rfind_props(path@, '/');
            }
            let file_name = path.as_str().substring_char(i + 1, plen);
            if file_name.unicode_len() == 0 || crate::strutil::str_eq(file_name, ".")
                || crate::strutil::str_eq(file_name, "..") {
                return Err(PathError::InvalidFileName);
            }
            if include_glob.is_none() {
                *include_glob = Some(file_name.to_owned());
            }
            Ok(path.as_str().substring_char(0, i).to_owned())
        },
        None => {
            if plen == 0 || crate::strutil::str_eq(path.as_str(), ".")
                || crate::strutil::str_eq(path.as_str(), "..") {
                return Err(PathError::InvalidFileName);
            }
            if include_glob.is_none() {
                *include_glob = Some(path.clone());
            }
            Ok(String::new())
        },
    }
}

/// A resolved path specification: the base directory, the include glob
/// pattern and the optional exclude glob pattern, both relative to the
/// base.
#[derive(Clone, Debug)]
pub struct ConfigPath {
    pub base_path: String,
    pub include_glob: String,
    pub exclude_glob: Option<String>,
}

/// The include pattern a specification gets when it names a directory and
/// sets none itself: match everything, recursively.
pub open spec fn default_include() -> Seq<char> {
    "**/*"@
}

/// One key/value pair of a structured path specification, together with
/// whether the value, once expanded, names an existing directory (the one
/// filesystem fact resolution depends on; it is only read for a `path`
/// key).
pub struct TableEntry {
    pub key: String,
    pub value: String,
    pub expanded_is_dir: bool,
}

impl TableEntry {
    pub open spec fn view_triple(self) -> (Seq<char>, Seq<char>, bool) {
        (self.key@, self.value@, self.expanded_is_dir)
    }
}

/// The state a structured specification is folded into, field by field.
/// The include pattern a `path` value yields is kept apart from an
/// explicit `include` field, so that the field wins whatever the order of
/// the keys.
pub struct TableAcc {
    pub base: Option<Seq<char>>,
    pub incl_field: Option<Seq<char>>,
    pub incl_path: Option<Seq<char>>,
    pub exclude: Option<Seq<char>>,
}

impl TableAcc {
    /// The include pattern the table settles on: an explicit `include`
    /// field always takes precedence over a file name split off a `path`
    /// value.
    pub open spec fn chosen_include(self) -> Option<Seq<char>> {
        if self.incl_field is Some {
            self.incl_field
        } else {
            self.incl_path
        }
    }
}

/// Folding the key/value pairs of a structured specification, in order:
/// each `path` value is validated and becomes the base, its file name
/// kept aside; the first `include` value is kept; an `exclude` value
/// always overwrites; unknown keys are ignored.
pub open spec fn spec_visit_map(
    entries: Seq<(Seq<char>, Seq<char>, bool)>,
    env: Map<Seq<char>, Seq<char>>,
) -> Result<TableAcc, PathError>
    decreases entries.len(),
{
    if entries.len() == 0 {
        Ok(TableAcc { base: None, incl_field: None, incl_path: None, exclude: None })
    } else {
        match spec_visit_map(entries.drop_last(), env) {
            Err(e) => Err(e),
            Ok(acc) => {
                let (k, v, d) = entries.last();
                if k == "path"@ {
                    match spec_validated_path(v, env, d, None) {
                        Err(e) => Err(e),
                        Ok(pair) => Ok(
                            TableAcc {
                                base: Some(pair.0),
                                incl_field: acc.incl_field,
                                incl_path: pair.1,
                                exclude: acc.exclude,
                            },
                        ),
                    }
                } else if k == "include"@ {
                    Ok(
                        TableAcc {
                            base: acc.base,
                            incl_field: if acc.incl_field is None {
                                Some(v)
                            } else {
                                acc.incl_field
                            },
                            incl_path: acc.incl_path,
                            exclude: acc.exclude,
                        },
                    )
                } else if k == "exclude"@ {
                    Ok(
                        TableAcc {
                            base: acc.base,
                            incl_field: acc.incl_field,
                            incl_path: acc.incl_path,
                            exclude: Some(v),
                        },
                    )
                } else {
                    Ok(acc)
                }
            },
        }
    }
}

proof fn lemma_visit_map_err_persists(
    entries: Seq<(Seq<char>, Seq<char>, bool)>,
    i: int,
    env: Map<Seq<char>, Seq<char>>,
)
    requires
        0 <= i <= entries.len(),
        spec_visit_map(entries.take(i), env) is Err,
    ensures
        spec_visit_map(entries, env) == spec_visit_map(entries.take(i), env),
    decreases entries.len(),
{
    if i < entries.len() {
        assert(entries.drop_last().take(i) =~= entries.take(i));
        lemma_visit_map_err_persists(entries.drop_last(), i, env);
    } else {
        assert(entries.take(i) =~= entries);
    }
}

/// Turns the raw form of one configuration entry — a bare string or a
/// `{ path, include?, exclude? }` table — into a resolved [`ConfigPath`].
pub struct ConfigVisitor;

impl ConfigVisitor {
    /// A bare string specification: the path is validated, the include
    /// pattern is the file's name or the match-everything default, and
    /// there is no exclude pattern.
    pub fn visit_str(&self, v: &str, env: &Env, expanded_is_dir: bool) -> (r: Result<
        ConfigPath,
        PathError,
    >)
        requires
            env.wf(),
            needs_home(v@) ==> env@.dom().contains("HOME"@),
        ensures
            match r {
                Ok(cp) => {
                    &&& spec_validated_path(v@, env@, expanded_is_dir, None) matches Ok(pair)
                    &&& cp.base_path@ == pair.0
                    &&& cp.include_glob@ == match pair.1 {
                        Some(f) => f,
                        None => default_include(),
                    }
                    &&& cp.exclude_glob is None
                },
                Err(e) => spec_validated_path(v@, env@, expanded_is_dir, None) == Err::<
                    (Seq<char>, Option<Seq<char>>),
                    PathError,
                >(e),
            },
    {
        let mut include_glob: Option<String> = None;
        let base_path = validated_path(v, env, expanded_is_dir, &mut include_glob)?;
        Ok(
            ConfigPath {
                base_path,
                include_glob: match include_glob {
                    Some(f) => f,
                    None => String::from_str("**/*"),
                },
                exclude_glob: None,
            },
        )
    }

    /// An owned-string specification resolves exactly as [`Self::visit_str`].
    pub fn visit_string(&self, v: String, env: &Env, expanded_is_dir: bool) -> (r: Result<
        ConfigPath,
        PathError,
    >)
        requires
            env.wf(),
            needs_home(v@) ==> env@.dom().contains("HOME"@),
        ensures
            match r {
                Ok(cp) => {
                    &&& spec_validated_path(v@, env@, expanded_is_dir, None) matches Ok(pair)
                    &&& cp.base_path@ == pair.0
                    &&& cp.include_glob@ == match pair.1 {
                        Some(f) => f,
                        None => default_include(),
                    }
                    &&& cp.exclude_glob is None
                },
                Err(e) => spec_validated_path(v@, env@, expanded_is_dir, None) == Err::<
                    (Seq<char>, Option<Seq<char>>),
                    PathError,
                >(e),
            },
    {
        self.visit_str(v.as_str(), env, expanded_is_dir)
    }

    /// A structured specification: its key/value pairs are folded in
    /// order, and the table must end up with a base path. An explicit
    /// `include` field takes precedence over a file name split off a
    /// `path` value, whatever the order of the keys.
    pub fn visit_map(&self, entries: &Vec<TableEntry>, env: &Env) -> (r: Result<
        ConfigPath,
        PathError,
    >)
        requires
            env.wf(),
            forall|i: int|
                0 <= i < entries@.len() && (#[trigger] entries@[i]).key@ == "path"@ && needs_home(
                    entries@[i].value@,
                ) ==> env@.dom().contains("HOME"@),
        ensures
            ({
                let folded = spec_visit_map(
                    entries@.map_values(|e: TableEntry| e.view_triple()),
                    env@,
                );
                match r {
                    Ok(cp) => {
                        &&& folded matches Ok(acc)
                        &&& acc.base matches Some(b)
                        &&& cp.base_path@ == b
                        &&& cp.include_glob@ == match acc.chosen_include() {
                            Some(f) => f,
                            None => default_include(),
                        }
                        &&& opt_view(cp.exclude_glob) == acc.exclude
                    },
                    Err(e) => match folded {
                        Err(fe) => e == fe,
                        Ok(acc) => acc.base is None && e == PathError::MissingPathField,
                    },
                }
            }),
    {
        let ghost eview = entries@.map_values(|e: TableEntry| e.view_triple());
        let mut base_path: Option<String> = None;
        let mut include_field: Option<String> = None;
        let mut include_from_path: Option<String> = None;
        let mut exclude_glob: Option<String> = None;
        let n = entries.len();
        let mut i: usize = 0;
        while i < n
            invariant
                env.wf(),
                forall|k: int|
                    0 <= k < entries@.len() && (#[trigger] entries@[k]).key@ == "path"@
                        && needs_home(entries@[k].value@) ==> env@.dom().contains("HOME"@),
                n == entries@.len(),
                0 <= i <= n,
                eview == entries@.map_values(|e: TableEntry| e.view_triple()),
                spec_visit_map(eview.take(i as int), env@) == Ok::<TableAcc, PathError>(
                    TableAcc {
                        base: opt_view(base_path),
                        incl_field: opt_view(include_field),
                        incl_path: opt_view(include_from_path),
                        exclude: opt_view(exclude_glob),
                    },
                ),
            decreases n - i,
        {
            proof {
                assert(eview.take(i + 1).drop_last() =~= eview.take(i as int));
                assert(eview.take(i + 1).last() == entries@[i as int].view_triple());
            }
            let entry = &entries[i];
            if crate::strutil::str_eq(entry.key.as_str(), "path") {
                let mut path_include: Option<String> = None;
                match validated_path(
                    entry.value.as_str(),
                    env,
                    entry.expanded_is_dir,
                    &mut path_include,
                ) {
                    Ok(p) => {
                        base_path = Some(p);
                        include_from_path = path_include;
                    },
                    Err(e) => {
                        proof {
                            lemma_visit_map_err_persists(eview, i + 1, env@);
                        }
                        return Err(e);
                    },
                }
            } else if crate::strutil::str_eq(entry.key.as_str(), "include") {
                if include_field.is_none() {
                    include_field = Some(entry.value.clone());
                }
            } else if crate::strutil::str_eq(entry.key.as_str(), "exclude") {
                exclude_glob = Some(entry.value.clone());
            }
            i += 1;
        }
        proof {
            assert(eview.take(n as int) =~= eview);
        }
        let chosen: Option<String> = match include_field {
            Some(f) => Some(f),
            None => include_from_path,
        };
        match base_path {
            Some(b) => Ok(
                ConfigPath {
                    base_path: b,
                    include_glob: match chosen {
                        Some(f) => f,
                        None => String::from_str("**/*"),
                    },
                    exclude_glob,
                },
            ),
            None => Err(PathError::MissingPathField),
        }
    }
}

/// Why reducing the configuration mapping to a selection failed.
#[derive(Clone, Debug)]
pub enum ConfigError {
    /// The caller selected a name that the configuration mapping lacks.
    UnknownConfigName(String),
}

/// The entries with their names as character sequences.
pub open spec fn vpairs(s: Seq<(String, ConfigPath)>) -> Seq<(Seq<char>, ConfigPath)> {
    s.map_values(|p: (String, ConfigPath)| (p.0@, p.1))
}

/// Index of the first entry named `n`, if any.
pub open spec fn spec_find_name(s: Seq<(Seq<char>, ConfigPath)>, n: Seq<char>) -> Option<int>
    decreases s.len(),
{
    if s.len() == 0 {
        None
    } else if s[0].0 == n {
        Some(0)
    } else {
        match spec_find_name(s.skip(1), n) {
            Some(i) => Some(i + 1),
            None => None,
        }
    }
}

pub proof fn lemma_spec_find_name_props(s: Seq<(Seq<char>, ConfigPath)>, n: Seq<char>)
    ensures
        match spec_find_name(s, n) {
            Some(i) => 0 <= i < s.len() && s[i].0 == n && forall|j: int|
                0 <= j < i ==> (#[trigger] s[j]).0 != n,
            None => forall|j: int| 0 <= j < s.len() ==> (#[trigger] s[j]).0 != n,
        },
    decreases s.len(),
{
    if s.len() > 0 && s[0].0 != n {
        lemma_spec_find_name_props(s.skip(1), n);
        match spec_find_name(s.skip(1), n) {
            Some(i) => {
                assert(s.skip(1)[i] == s[i + 1]);
                assert forall|j: int| 0 <= j < i + 1 implies (#[trigger] s[j]).0 != n by {
                    if j >= 1 {
                        assert(s[j] == s.skip(1)[j - 1]);
                    }
                }
            },
            None => {
                assert forall|j: int| 0 <= j < s.len() implies (#[trigger] s[j]).0 != n by {
                    if j >= 1 {
                        assert(s[j] == s.skip(1)[j - 1]);
                    }
                }
            },
        }
    }
}

/// Selecting `names` out of `configs`, in the caller's order: each name
/// takes the first entry so named out of the mapping, and a name with no
/// entry fails the whole selection with that name.
pub open spec fn spec_reduce(
    configs: Seq<(Seq<char>, ConfigPath)>,
    names: Seq<Seq<char>>,
) -> Result<Seq<(Seq<char>, ConfigPath)>, Seq<char>>
    decreases names.len(),
{
    if names.len() == 0 {
        Ok(Seq::empty())
    } else {
        match spec_find_name(configs, names[0]) {
            None => Err(names[0]),
            Some(i) => match spec_reduce(configs.remove(i), names.skip(1)) {
                Err(m) => Err(m),
                Ok(rest) => Ok(seq![(names[0], configs[i].1)] + rest),
            },
        }
    }
}

/// The configuration mapping: each name paired with its resolved path
/// specification, names distinct.
#[derive(Clone, Debug)]
pub struct ConfigFile {
    pub configs: Vec<(String, ConfigPath)>,
}

/// Index of the first entry of `v` named `name`, if any.
fn find_name(v: &Vec<(String, ConfigPath)>, name: &str) -> (r: Option<usize>)
    ensures
        match r {
            Some(i) => spec_find_name(vpairs(v@), name@) == Some(i as int),
            None => spec_find_name(vpairs(v@), name@) is None,
        },
{
    let n = v.len();
    let mut j: usize = 0;
    while j < n
        invariant
            n == v@.len(),
            0 <= j <= n,
            forall|jj: int| 0 <= jj < j ==> (#[trigger] v@[jj]).0@ != name@,
        decreases n - j,
    {
        if crate::strutil::str_eq(v[j].0.as_str(), name) {
            proof {
                lemma_spec_find_name_props(vpairs(v@), name@);
                assert(vpairs(v@)[j as int].0 == name@);
            }
            return Some(j);
        }
        j += 1;
    }
    proof {
        lemma_spec_find_name_props(vpairs(v@), name@);
        assert(forall|jj: int|
            0 <= jj < vpairs(v@).len() ==> (#[trigger] vpairs(v@)[jj]).0 == v@[jj].0@);
    }
    None
}

impl ConfigFile {
    /// Distinct configuration names.
    pub open spec fn wf(self) -> bool {
        forall|i: int, j: int|
            0 <= i < j < self.configs@.len() ==> (#[trigger] self.configs@[i]).0@ != (
            #[trigger] self.configs@[j]).0@
    }

    /// The entries the caller selected, in the caller's order; all of them
    /// when no selection was made. A selected name with no entry fails the
    /// whole reduction, returning nothing.
    #[verifier::loop_isolation(false)]
    pub fn reduce_to_configs(self, specific_configs: Option<Vec<String>>) -> (r: Result<
        Vec<(String, ConfigPath)>,
        ConfigError,
    >)
        ensures
            match r {
                Ok(v) => match specific_configs {
                    None => v@ == self.configs@,
                    Some(names) => spec_reduce(
                        vpairs(self.configs@),
                        names@.map_values(|s: String| s@),
                    ) == Ok::<Seq<(Seq<char>, ConfigPath)>, Seq<char>>(vpairs(v@)),
                },
                Err(e) => {
                    &&& e matches ConfigError::UnknownConfigName(m)
                    &&& specific_configs matches Some(names)
                    &&& spec_reduce(vpairs(self.configs@), names@.map_values(|s: String| s@))
                        == Err::<Seq<(Seq<char>, ConfigPath)>, Seq<char>>(m@)
                },
            },
    {
        let ghost sc0 = specific_configs;
        let names = match specific_configs {
            None => {
                return Ok(self.configs);
            },
            Some(names) => names,
        };
        proof {
            assert(sc0 == Some(names));
        }
        let ghost cview0 = vpairs(self.configs@);
        let ghost nviews = names@.map_values(|s: String| s@);
        let mut remaining = self.configs;
        let mut ret: Vec<(String, ConfigPath)> = Vec::new();
        let n = names.len();
        let mut k: usize = 0;
        proof {
            assert(nviews.skip(0) =~= nviews);
            match spec_reduce(cview0, nviews) {
                Ok(rest) => {
                    assert(vpairs(ret@) + rest =~= rest);
                },
                Err(_) => {},
            }
        }
        while k < n
            invariant
                n == names@.len(),
                0 <= k <= n,
                nviews == names@.map_values(|s: String| s@),
                spec_reduce(cview0, nviews) == (match spec_reduce(
                    vpairs(remaining@),
                    nviews.skip(k as int),
                ) {
                    Ok(rest) => Ok::<Seq<(Seq<char>, ConfigPath)>, Seq<char>>(vpairs(ret@) + rest),
                    Err(m) => Err(m),
                }),
            decreases n - k,
        {
            let name = names[k].clone();
            proof {
                assert(nviews.skip(k as int)[0] == name@);
                assert(nviews.skip(k as int).skip(1) =~= nviews.skip(k as int + 1));
            }
            match find_name(&remaining, name.as_str()) {
                None => {
                    proof {
                        assert(spec_reduce(vpairs(remaining@), nviews.skip(k as int)) == Err::<
                            Seq<(Seq<char>, ConfigPath)>,
                            Seq<char>,
                        >(name@));
                    }
                    return Err(ConfigError::UnknownConfigName(name));
                },
                Some(i) => {
                    proof {
                        lemma_spec_find_name_props(vpairs(remaining@), name@);
                    }
                    let ghost rem_old = vpairs(remaining@);
                    let ghost ret_old = vpairs(ret@);
                    let pair = remaining.remove(i);
                    ret.push((name, pair.1));
                    proof {
                        assert(vpairs(remaining@) =~= rem_old.remove(i as int));
                        assert(vpairs(ret@) =~= ret_old.push((name@, pair.1)));
                        assert(rem_old[i as int].1 == pair.1);
                        match spec_reduce(rem_old.remove(i as int), nviews.skip(k + 1)) {
                            Ok(rest) => {
                                assert(spec_reduce(rem_old, nviews.skip(k as int)) == Ok::<
                                    Seq<(Seq<char>, ConfigPath)>,
                                    Seq<char>,
                                >(seq![(name@, pair.1)] + rest));
                                assert(ret_old + (seq![(name@, pair.1)] + rest) =~= ret_old.push(
                                    (name@, pair.1),
                                ) + rest);
                            },
                            Err(_) => {},
                        }
                    }
                    k += 1;
                },
            }
        }
        proof {
            assert(nviews.skip(n as int) =~= Seq::<Seq<char>>::empty());
            assert(vpairs(ret@) + Seq::<(Seq<char>, ConfigPath)>::empty() =~= vpairs(ret@));
        }
        Ok(ret)
    }
}

} // verus!
