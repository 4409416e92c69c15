//! The backend configuration, drawn from the process environment.
use vstd::prelude::*;
use vstd::string::StrSliceExecFns;

verus! {

/// The prefix shared by every variable that configures the backend.
pub open spec fn env_prefix() -> Seq<char> {
    seq!['O', 'P', 'E', 'N', 'D', 'A', 'L', '_']
}

/// The variable that selects the storage scheme.
pub open spec fn scheme_var() -> Seq<char> {
    env_prefix() + seq!['T', 'Y', 'P', 'E']
}

/// What `str::to_lowercase` makes of a text.
pub uninterp spec fn lower_of(s: Seq<char>) -> Seq<char>;

/// Relies on `str::to_lowercase`: the result depends on the characters alone.
#[verifier::external_body]
fn lowercase(s: &str) -> (r: String)
    ensures
        r@ == lower_of(s@),
{
    s.to_lowercase()
}

/// Whether `s` begins with `prefix`.
pub open spec fn has_prefix(s: Seq<char>, prefix: Seq<char>) -> bool {
    prefix.len() <= s.len() && s.take(prefix.len() as int) == prefix
}

/// The option key that an environment variable of this name gives, if any:
/// the name with the prefix stripped and lower-cased, for every prefixed
/// name but the scheme variable.
pub open spec fn option_key_of(name: Seq<char>) -> Option<Seq<char>> {
    if has_prefix(name, env_prefix()) && name != scheme_var() {
        Some(lower_of(name.skip(env_prefix().len() as int)))
    } else {
        None
    }
}

fn starts_with(s: &str, prefix: &str) -> (r: bool)
    ensures
        r == has_prefix(s@, prefix@),
{
    let n = s.unicode_len();
    let m = prefix.unicode_len();
    if m > n {
        return false;
    }
    let mut i: usize = 0;
    while i < m
        invariant
            m == prefix@.len(),
            n == s@.len(),
            m <= n,
            i <= m,
            forall|j: int| 0 <= j < i ==> s@[j] == prefix@[j],
        decreases m - i,
    {
        if s.get_char(i) != prefix.get_char(i) {
            assert(s@.take(m as int)[i as int] != prefix@[i as int]);
            return false;
        }
        i = i + 1;
    }
    assert(s@.take(m as int) =~= prefix@);
    true
}

fn same_text(a: &str, b: &str) -> (r: bool)
    ensures
        r == (a@ == b@),
{
    a.to_owned() == b.to_owned()
}

/// The option key that the environment variable `name` gives, if any.
pub fn option_key(name: &str) -> (r: Option<String>)
    ensures
        r matches Some(k) ==> option_key_of(name@) == Some(k@),
        r is None ==> option_key_of(name@) is None,
{
    let prefix = "OPENDAL_";
    let scheme = "OPENDAL_TYPE";
    proof {
        reveal_strlit("OPENDAL_");
        reveal_strlit("OPENDAL_TYPE");
        assert(prefix@ =~= env_prefix());
        assert(scheme@ =~= scheme_var());
    }
    if starts_with(name, prefix) && !same_text(name, scheme) {
        let n = name.unicode_len();
        let rest = name.substring_char(8, n);
        assert(rest@ =~= name@.skip(8));
        Some(lowercase(rest))
    } else {
        None
    }
}

/// The environment as name and value texts.
pub open spec fn vars_view(vars: Seq<(String, String)>) -> Seq<(Seq<char>, Seq<char>)> {
    vars.map_values(|p: (String, String)| (p.0@, p.1@))
}

/// The backend options that a sequence of environment variables gives: each
/// prefixed variable but the scheme variable sets its key, and a later
/// variable overrides an earlier one with the same key.
pub open spec fn options_of(vars: Seq<(Seq<char>, Seq<char>)>) -> Map<Seq<char>, Seq<char>>
    decreases vars.len(),
{
    if vars.len() == 0 {
        Map::empty()
    } else {
        let m = options_of(vars.drop_last());
        match option_key_of(vars.last().0) {
            Some(k) => m.insert(k, vars.last().1),
            None => m,
        }
    }
}

/// Each prefixed variable but the scheme variable gives an option under its
/// name stripped of the prefix and lower-cased, with exactly its own value,
/// unless a later variable gives the same key; every option comes from such a
/// variable; and the scheme variable gives none.
pub proof fn options_hold_prefixed_vars(vars: Seq<(Seq<char>, Seq<char>)>, i: int)
    requires
        0 <= i < vars.len(),
        has_prefix(vars[i].0, env_prefix()),
        vars[i].0 != scheme_var(),
        forall|j: int|
            i < j < vars.len() ==> option_key_of(#[trigger] vars[j].0) != option_key_of(vars[i].0),
    ensures
        options_of(vars).contains_key(lower_of(vars[i].0.skip(env_prefix().len() as int))),
        options_of(vars)[lower_of(vars[i].0.skip(env_prefix().len() as int))] == vars[i].1,
        forall|k: Seq<char>| #[trigger]
            options_of(vars).contains_key(k) ==> exists|j: int|
                0 <= j < vars.len() && option_key_of(#[trigger] vars[j].0) == Some(k),
        option_key_of(scheme_var()) is None,
    decreases vars.len(),
{
    let k = lower_of(vars[i].0.skip(env_prefix().len() as int));
    if i < vars.len() - 1 {
        let last = vars.len() - 1;
        assert(option_key_of(vars[last].0) != Some(k));
        options_hold_prefixed_vars(vars.drop_last(), i);
        assert(vars.drop_last()[i] == vars[i]);
    } else {
        options_come_from_vars(vars.drop_last());
    }
    options_come_from_vars(vars);
}

proof fn options_come_from_vars(vars: Seq<(Seq<char>, Seq<char>)>)
    ensures
        forall|k: Seq<char>| #[trigger]
            options_of(vars).contains_key(k) ==> exists|j: int|
                0 <= j < vars.len() && option_key_of(#[trigger] vars[j].0) == Some(k),
    decreases vars.len(),
{
    if vars.len() > 0 {
        let prev = vars.drop_last();
        options_come_from_vars(prev);
        assert forall|k: Seq<char>| #[trigger] options_of(vars).contains_key(k) implies exists|
            j: int,
        | 0 <= j < vars.len() && option_key_of(#[trigger] vars[j].0) == Some(k) by {
            if option_key_of(vars.last().0) == Some(k) {
                assert(option_key_of(vars[vars.len() - 1].0) == Some(k));
            } else {
                assert(options_of(prev).contains_key(k));
                let j = choose|j: int|
                    0 <= j < prev.len() && option_key_of(#[trigger] prev[j].0) == Some(k);
                assert(vars[j] == prev[j]);
            }
        }
    }
}

/// The value of the scheme variable: the last one given, if any.
pub open spec fn scheme_value_of(vars: Seq<(Seq<char>, Seq<char>)>) -> Option<Seq<char>>
    decreases vars.len(),
{
    if vars.len() == 0 {
        None
    } else if vars.last().0 == scheme_var() {
        Some(vars.last().1)
    } else {
        scheme_value_of(vars.drop_last())
    }
}

/// No key occurs twice among the pairs.
pub open spec fn keys_distinct(pairs: Seq<(String, String)>) -> bool {
    forall|i: int, j: int|
        0 <= i < pairs.len() && 0 <= j < pairs.len() && i != j ==> pairs[i].0@ != pairs[j].0@
}

/// The pairs hold exactly the entries of `m`, each key once.
pub open spec fn pairs_match(pairs: Seq<(String, String)>, m: Map<Seq<char>, Seq<char>>) -> bool {
    &&& keys_distinct(pairs)
    &&& forall|i: int| 0 <= i < pairs.len() ==> #[trigger] m.contains_key(pairs[i].0@)
        && m[pairs[i].0@] == pairs[i].1@
    &&& forall|k: Seq<char>|
        m.contains_key(k) ==> exists|i: int| 0 <= i < pairs.len() && #[trigger] pairs[i].0@ == k
}

/// The index of the pair whose key is `key`, if there is one.
fn find_key(pairs: &Vec<(String, String)>, key: &String) -> (r: Option<usize>)
    ensures
        r matches Some(i) ==> i < pairs@.len() && pairs@[i as int].0@ == key@,
        r is None ==> forall|i: int| 0 <= i < pairs@.len() ==> pairs@[i].0@ != key@,
{
    let mut i: usize = 0;
    while i < pairs.len()
        invariant
            i <= pairs@.len(),
            forall|j: int| 0 <= j < i ==> pairs@[j].0@ != key@,
        decreases pairs@.len() - i,
    {
        if pairs[i].0 == *key {
            return Some(i);
        }
        i = i + 1;
    }
    None
}

/// The backend options that the environment variables give, as pairs with
/// distinct keys.
pub fn collect_options(vars: &Vec<(String, String)>) -> (r: Vec<(String, String)>)
    ensures
        pairs_match(r@, options_of(vars_view(vars@))),
{
    let mut r: Vec<(String, String)> = Vec::new();
    let mut i: usize = 0;
    while i < vars.len()
        invariant
            i <= vars@.len(),
            pairs_match(r@, options_of(vars_view(vars@).take(i as int))),
        decreases vars@.len() - i,
    {
        let ghost before = r@;
        let ghost prev = options_of(vars_view(vars@).take(i as int));
        assert(vars_view(vars@).take(i + 1).drop_last() =~= vars_view(vars@).take(i as int));
        assert(vars_view(vars@).take(i + 1).last() == (vars@[i as int].0@, vars@[i as int].1@));
        match option_key(vars[i].0.as_str()) {
            Some(k) => {
                let v = vars[i].1.clone();
                let ghost m = prev.insert(k@, v@);
                assert(options_of(vars_view(vars@).take(i + 1)) == m);
                match find_key(&r, &k) {
                    Some(j) => {
                        r.set(j, (k, v));
                        assert forall|a: int, b: int|
                            0 <= a < r@.len() && 0 <= b < r@.len() && a != b implies r@[a].0@
                            != r@[b].0@ by {
                            assert(before[a].0@ != before[b].0@);
                        }
                        assert forall|a: int| 0 <= a < r@.len() implies #[trigger] m.contains_key(
                            r@[a].0@,
                        ) && m[r@[a].0@] == r@[a].1@ by {
                            if a != j {
                                assert(before[a].0@ != before[j as int].0@);
                            }
                        }
                        assert forall|key: Seq<char>| m.contains_key(key) implies exists|a: int|
                            0 <= a < r@.len() && #[trigger] r@[a].0@ == key by {
                            if key == k@ {
                                assert(r@[j as int].0@ == key);
                            } else {
                                let a = choose|a: int| 0 <= a < before.len() && #[trigger] before[a].0@ == key;
                                assert(r@[a].0@ == key);
                            }
                        }
                        assert(pairs_match(r@, m));
                    },
                    None => {
                        r.push((k, v));
                        assert forall|key: Seq<char>| m.contains_key(key) implies exists|a: int|
                            0 <= a < r@.len() && #[trigger] r@[a].0@ == key by {
                            if key == k@ {
                                assert(r@[before.len() as int].0@ == key);
                            } else {
                                let a = choose|a: int| 0 <= a < before.len() && #[trigger] before[a].0@ == key;
                                assert(r@[a].0@ == key);
                            }
                        }
                        assert forall|a: int| 0 <= a < r@.len() implies #[trigger] m.contains_key(
                            r@[a].0@,
                        ) && m[r@[a].0@] == r@[a].1@ by {
                            if a < before.len() {
                                assert(before[a].0@ != k@);
                            }
                        }
                        assert(pairs_match(r@, m));
                    },
                }
            },
            None => {
                assert(options_of(vars_view(vars@).take(i + 1)) == prev);
            },
        }
        i = i + 1;
    }
    assert(vars_view(vars@).take(vars@.len() as int) =~= vars_view(vars@));
    r
}

/// Why the backend configuration could not be had.
#[derive(Debug, Clone, PartialEq, Eq)]
pub enum ConfigError {
    /// The scheme variable is not set.
    MissingScheme,
    /// The scheme variable names no scheme that this build supports.
    UnknownScheme(String),
    /// The backend refused its configuration; the text says why.
    BackendInit(String),
    /// The port is not a number from 1 to 65535.
    InvalidPort(String),
}

/// A validated backend configuration: a supported scheme and the options
/// handed to its backend, each key once.
#[derive(Debug, Clone)]
pub struct BackendConfig {
    pub scheme: String,
    pub options: Vec<(String, String)>,
}

impl BackendConfig {
    /// The value of the option `key`, if the configuration holds it.
    pub fn option(&self, key: &str) -> (r: Option<String>)
        ensures
            r is Some <==> exists|i: int|
                0 <= i < self.options@.len() && #[trigger] self.options@[i].0@ == key@,
            r matches Some(v) ==> exists|i: int|
                0 <= i < self.options@.len() && #[trigger] self.options@[i].0@ == key@
                    && self.options@[i].1@ == v@,
    {
        let k = key.to_owned();
        match find_key(&self.options, &k) {
            Some(i) => Some(self.options[i].1.clone()),
            None => None,
        }
    }
}

/// `d` is what ASCII lower-casing makes of `c`.
pub open spec fn ascii_lower_is(c: char, d: char) -> bool {
    if 'A' <= c && c <= 'Z' {
        d as u32 == c as u32 + 32
    } else {
        d == c
    }
}

/// `name` is the ASCII lower-case form of `scheme`.
pub open spec fn names_scheme(name: Seq<char>, scheme: Seq<char>) -> bool {
    name.len() == scheme.len() && forall|j: int| 0 <= j < scheme.len() ==> ascii_lower_is(
        #[trigger] scheme[j],
        name[j],
    )
}

/// Some registered name is the scheme, letter case aside.
pub open spec fn scheme_known(scheme: Seq<char>, registered: Seq<String>) -> bool {
    exists|i: int| 0 <= i < registered.len() && names_scheme(#[trigger] registered[i]@, scheme)
}

fn names_scheme_exec(name: &str, scheme: &str) -> (r: bool)
    ensures
        r == names_scheme(name@, scheme@),
{
    let n = scheme.unicode_len();
    if name.unicode_len() != n {
        return false;
    }
    let mut j: usize = 0;
    while j < n
        invariant
            n == scheme@.len(),
            n == name@.len(),
            j <= n,
            forall|k: int| 0 <= k < j ==> ascii_lower_is(#[trigger] scheme@[k], name@[k]),
        decreases n - j,
    {
        let c = scheme.get_char(j);
        let d = name.get_char(j);
        let ok = if 'A' <= c && c <= 'Z' {
            d as u32 == c as u32 + 32
        } else {
            d == c
        };
        if !ok {
            assert(!ascii_lower_is(scheme@[j as int], name@[j as int]));
            return false;
        }
        j = j + 1;
    }
    true
}

/// Whether one of the registered scheme names is `scheme`, letter case aside.
pub fn scheme_supported(scheme: &str, registered: &Vec<String>) -> (r: bool)
    ensures
        r == scheme_known(scheme@, registered@),
{
    let mut i: usize = 0;
    while i < registered.len()
        invariant
            i <= registered@.len(),
            forall|k: int| 0 <= k < i ==> !names_scheme(#[trigger] registered@[k]@, scheme@),
        decreases registered@.len() - i,
    {
        if names_scheme_exec(registered[i].as_str(), scheme) {
            return true;
        }
        i = i + 1;
    }
    false
}

/// The value of the scheme variable: the last one among `vars`, if any.
pub fn scheme_value(vars: &Vec<(String, String)>) -> (r: Option<String>)
    ensures
        r matches Some(v) ==> scheme_value_of(vars_view(vars@)) == Some(v@),
        r is None ==> scheme_value_of(vars_view(vars@)) is None,
{
    let scheme = "OPENDAL_TYPE";
    proof {
        reveal_strlit("OPENDAL_TYPE");
        assert(scheme@ =~= scheme_var());
    }
    let mut r: Option<String> = None;
    let mut i: usize = 0;
    while i < vars.len()
        invariant
            i <= vars@.len(),
            scheme@ == scheme_var(),
            r matches Some(v) ==> scheme_value_of(vars_view(vars@).take(i as int)) == Some(v@),
            r is None ==> scheme_value_of(vars_view(vars@).take(i as int)) is None,
        decreases vars@.len() - i,
    {
        assert(vars_view(vars@).take(i + 1).drop_last() =~= vars_view(vars@).take(i as int));
        assert(vars_view(vars@).take(i + 1).last() == (vars@[i as int].0@, vars@[i as int].1@));
        if same_text(vars[i].0.as_str(), scheme) {
            r = Some(vars[i].1.clone());
        }
        i = i + 1;
    }
    assert(vars_view(vars@).take(vars@.len() as int) =~= vars_view(vars@));
    r
}

/// The backend configuration that the environment variables `vars` give,
/// where `registered` names the schemes that can be built.
pub fn backend_config_from_vars(vars: &Vec<(String, String)>, registered: &Vec<String>) -> (r:
    Result<BackendConfig, ConfigError>)
    ensures
        scheme_value_of(vars_view(vars@)) is None <==> r == Err::<BackendConfig, ConfigError>(
            ConfigError::MissingScheme,
        ),
        r matches Err(ConfigError::UnknownScheme(s)) ==> scheme_value_of(vars_view(vars@)) == Some(
            s@,
        ) && !scheme_known(s@, registered@),
        r matches Ok(cfg) <==> (scheme_value_of(vars_view(vars@)) matches Some(s) && scheme_known(
            s,
            registered@,
        )),
        r matches Ok(cfg) ==> scheme_value_of(vars_view(vars@)) == Some(cfg.scheme@) && pairs_match(
            cfg.options@,
            options_of(vars_view(vars@)),
        ),
        r is Err ==> (r matches Err(ConfigError::MissingScheme) || r matches Err(
            ConfigError::UnknownScheme(_),
        )),
{
    match scheme_value(vars) {
        None => Err(ConfigError::MissingScheme),
        Some(scheme) => {
            if scheme_supported(scheme.as_str(), registered) {
                Ok(BackendConfig { scheme, options: collect_options(vars) })
            } else {
                Err(ConfigError::UnknownScheme(scheme))
            }
        },
    }
}

#[verifier::external_type_specification]
#[verifier::external_body]
pub struct ExOperator(opendal::Operator);

#[verifier::external_type_specification]
#[verifier::external_body]
pub struct ExError(opendal::Error);

/// Relies on opendal's `init_default_registry`: registers, once per process,
/// every service that this build was compiled with.
#[verifier::external_body]
fn register_services() {
    opendal::init_default_registry()
}

/// Relies on opendal's `OperatorRegistry::schemes`: the schemes that this
/// build can construct, each once, in no given order.
#[verifier::external_body]
fn registered_schemes() -> (r: Vec<String>) {
    opendal::OperatorRegistry::get().schemes().into_iter().collect()
}

/// Relies on opendal's `Operator::via_iter`: builds the backend registered
/// for the scheme from the options; the backend may refuse them.
#[verifier::external_body]
fn operator_via_iter(scheme: &str, options: Vec<(String, String)>) -> (r: Result<
    opendal::Operator,
    opendal::Error,
>) {
    opendal::Operator::via_iter(scheme, options)
}

/// Relies on opendal's `Display` for `Error`: the kind, the message and the
/// context of the error as text.
#[verifier::external_body]
fn error_text(e: &opendal::Error) -> (r: String) {
    e.to_string()
}

/// Builds the storage operator that a validated configuration describes.
pub fn build_operator(cfg: &BackendConfig) -> (r: Result<opendal::Operator, ConfigError>)
    ensures
        r is Err ==> r matches Err(ConfigError::BackendInit(_)),
{
    match operator_via_iter(cfg.scheme.as_str(), cfg.options.clone()) {
        Ok(op) => Ok(op),
        Err(e) => Err(ConfigError::BackendInit(error_text(&e))),
    }
}

/// Builds the storage operator from the environment variables `vars`.
pub fn build_operator_from_env(vars: &Vec<(String, String)>) -> (r: Result<
    opendal::Operator,
    ConfigError,
>)
    ensures
        scheme_value_of(vars_view(vars@)) is None <==> r matches Err(ConfigError::MissingScheme),
        r matches Err(ConfigError::UnknownScheme(s)) ==> scheme_value_of(vars_view(vars@)) == Some(
            s@,
        ),
        !(r matches Err(ConfigError::InvalidPort(_))),
{
    register_services();
    let registered = registered_schemes();
    match backend_config_from_vars(vars, &registered) {
        Ok(cfg) => build_operator(&cfg),
        Err(e) => Err(e),
    }
}

} // verus!
