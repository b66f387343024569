//! The program configuration: which storages exist (name and path), the
//! default one, and where to look for a local storage. The configuration
//! file is read and parsed by the caller; this module extracts and checks
//! the storage table from the parsed document, or builds the default
//! configuration when no file exists.

use vstd::prelude::*;
use vstd::string::StringExecFns;
use crate::toml;
use crate::toml::ValueS;
use crate::toml::spec_find;
use crate::text::str_eq;

verus! {

broadcast use {vstd::std_specs::vec::group_vec_axioms, vstd::seq::group_seq_axioms};

/// The checked storage configuration.
pub struct StorageConfig {
    default: String,
    local_search_paths: Vec<String>,
    storages: Vec<(String, String)>,
}

/// The program configuration: the parsed file (if any) and the storage
/// configuration drawn from it.
pub struct Config {
    value: Option<toml::Value>,
    storage: StorageConfig,
}

/// One storage entry as written in the file.
pub struct ParseStorage {
    pub name: String,
    pub path: String,
}

/// The storage section as written in the file.
pub struct ParseStorageConfig {
    pub default: Option<String>,
    pub local_search_paths: Option<Vec<String>>,
    pub storages: Option<Vec<ParseStorage>>,
}

/// Why a configuration is rejected. File-level failures (`Read`,
/// `Parse`) are raised by the caller that loads the file.
#[derive(Debug)]
pub enum ConfigError {
    Read,
    Parse,
    InvalidStorage,
    NoStorage,
    NoStorages,
    RedundantStorages,
    InvalidDefaultStorage,
}

pub struct StorageConfigV {
    pub default: Seq<char>,
    pub local_search_paths: Seq<Seq<char>>,
    pub storages: Seq<(Seq<char>, Seq<char>)>,
}

pub struct ConfigV {
    pub value: Option<ValueS>,
    pub storage: StorageConfigV,
}

pub struct ParseStorageConfigV {
    pub default: Option<Seq<char>>,
    pub local_search_paths: Option<Seq<Seq<char>>>,
    pub storages: Option<Seq<(Seq<char>, Seq<char>)>>,
}

impl View for ParseStorage {
    type V = (Seq<char>, Seq<char>);

    open spec fn view(&self) -> (Seq<char>, Seq<char>) {
        (self.name@, self.path@)
    }
}

pub open spec fn ps_list_view(v: Seq<ParseStorage>) -> Seq<(Seq<char>, Seq<char>)> {
    Seq::new(v.len(), |i: int| if 0 <= i < v.len() {
        v[i]@
    } else {
        (Seq::<char>::empty(), Seq::<char>::empty())
    })
}

impl View for ParseStorageConfig {
    type V = ParseStorageConfigV;

    open spec fn view(&self) -> ParseStorageConfigV {
        ParseStorageConfigV {
            default: match self.default {
                Some(ref d) => Some(d@),
                None => None,
            },
            local_search_paths: match self.local_search_paths {
                Some(ref l) => Some(l.deep_view()),
                None => None,
            },
            storages: match self.storages {
                Some(ref s) => Some(ps_list_view(s@)),
                None => None,
            },
        }
    }
}

impl View for StorageConfig {
    type V = StorageConfigV;

    closed spec fn view(&self) -> StorageConfigV {
        StorageConfigV {
            default: self.default@,
            local_search_paths: self.local_search_paths.deep_view(),
            storages: Seq::new(self.storages@.len(), |i: int| if 0 <= i < self.storages@.len() {
                (self.storages@[i].0@, self.storages@[i].1@)
            } else {
                (Seq::<char>::empty(), Seq::<char>::empty())
            }),
        }
    }
}

impl View for Config {
    type V = ConfigV;

    closed spec fn view(&self) -> ConfigV {
        ConfigV {
            value: match self.value {
                Some(ref v) => Some(v@),
                None => None,
            },
            storage: self.storage@,
        }
    }
}

/// Two entries that share a name or a path.
pub open spec fn dup_exists(ss: Seq<(Seq<char>, Seq<char>)>) -> bool {
    exists|i: int, j: int|
        0 <= i < j < ss.len() && ((#[trigger] ss[i]).0 == (#[trigger] ss[j]).0
            || ss[i].1 == ss[j].1)
}

/// The default storage: the named one, or the first entry's name.
pub open spec fn chosen_default(c: ParseStorageConfigV) -> Seq<char> {
    match c.default {
        Some(d) => d,
        None => c.storages->0[0].0,
    }
}

pub open spec fn default_present(c: ParseStorageConfigV) -> bool {
    exists|k: int| 0 <= k < c.storages->0.len() && (#[trigger] c.storages->0[k]).0
        == chosen_default(c)
}

pub open spec fn chosen_search_paths(c: ParseStorageConfigV) -> Seq<Seq<char>> {
    match c.local_search_paths {
        Some(l) => l,
        None => seq![".nodes"@],
    }
}

/// What checking the storage section yields: the entries must exist, be
/// nonempty, share no name or path, and contain the default.
pub open spec fn spec_storage_config(c: ParseStorageConfigV) -> Result<StorageConfigV, ConfigError> {
    if c.storages is None || c.storages->0.len() == 0 {
        Err(ConfigError::NoStorages)
    } else if dup_exists(c.storages->0) {
        Err(ConfigError::RedundantStorages)
    } else if !default_present(c) {
        Err(ConfigError::InvalidDefaultStorage)
    } else {
        Ok(StorageConfigV {
            default: chosen_default(c),
            local_search_paths: chosen_search_paths(c),
            storages: c.storages->0,
        })
    }
}

/// The error constructors carry no payload, so equality of the results
/// can be stated directly.
pub open spec fn config_err_eq(a: ConfigError, b: ConfigError) -> bool {
    match (a, b) {
        (ConfigError::Read, ConfigError::Read) => true,
        (ConfigError::Parse, ConfigError::Parse) => true,
        (ConfigError::InvalidStorage, ConfigError::InvalidStorage) => true,
        (ConfigError::NoStorage, ConfigError::NoStorage) => true,
        (ConfigError::NoStorages, ConfigError::NoStorages) => true,
        (ConfigError::RedundantStorages, ConfigError::RedundantStorages) => true,
        (ConfigError::InvalidDefaultStorage, ConfigError::InvalidDefaultStorage) => true,
        _ => false,
    }
}

impl Config {
    /// Checks the storage section.
    pub fn parse_storage_config(config: &ParseStorageConfig) -> (r: Result<
        StorageConfig,
        ConfigError,
    >)
        ensures
            match r {
                Ok(sc) => spec_storage_config(config@) matches Ok(v) && sc@ == v,
                Err(e) => spec_storage_config(config@) matches Err(v) && config_err_eq(e, v),
            },
    {
        let cstorages = match &config.storages {
            Some(a) => a,
            None => {
                return Err(ConfigError::NoStorages);
            },
        };
        let n = cstorages.len();
        if n == 0 {
            return Err(ConfigError::NoStorages);
        }
        let ghost ss = ps_list_view(cstorages@);
        // no two entries may share a name or a path
        let mut i: usize = 1;
        while i < n
            invariant
                1 <= i <= n,
                n == cstorages@.len(),
                ss == ps_list_view(cstorages@),
                config@.storages == Some(ss),
                ss.len() == n,
                forall|a: int, b: int| 0 <= a < b < i
                    ==> (#[trigger] ss[a]).0 != (#[trigger] ss[b]).0 && ss[a].1 != ss[b].1,
            decreases n - i,
        {
            let mut j: usize = 0;
            while j < i
                invariant
                    0 <= j <= i < n,
                    n == cstorages@.len(),
                    ss == ps_list_view(cstorages@),
                    config@.storages == Some(ss),
                    ss.len() == n,
                    forall|a: int, b: int| 0 <= a < b < i
                        ==> (#[trigger] ss[a]).0 != (#[trigger] ss[b]).0 && ss[a].1 != ss[b].1,
                    forall|a: int| 0 <= a < j
                        ==> (#[trigger] ss[a]).0 != ss[i as int].0 && ss[a].1 != ss[i as int].1,
                decreases i - j,
            {
                if str_eq(cstorages[j].name.as_str(), cstorages[i].name.as_str())
                    || str_eq(cstorages[j].path.as_str(), cstorages[i].path.as_str()) {
                    proof {
                        assert(ss[j as int] == cstorages@[j as int]@);
                        assert(ss[i as int] == cstorages@[i as int]@);
                        assert(dup_exists(ss));
                    }
                    return Err(ConfigError::RedundantStorages);
                }
                proof {
                    assert(ss[j as int] == cstorages@[j as int]@);
                    assert(ss[i as int] == cstorages@[i as int]@);
                }
                j += 1;
            }
            i += 1;
        }
        proof {
            assert(!dup_exists(ss));
        }
        // the default: named, or the first entry
        let default: String = match &config.default {
            Some(d) => d.clone(),
            None => cstorages[0].name.clone(),
        };
        proof {
            assert(ss[0] == cstorages@[0]@);
            assert(default@ == chosen_default(config@));
        }
        let mut found = false;
        let mut k: usize = 0;
        while k < n
            invariant
                k <= n,
                n == cstorages@.len(),
                ss == ps_list_view(cstorages@),
                config@.storages == Some(ss),
                ss.len() == n,
                default@ == chosen_default(config@),
                found ==> default_present(config@),
                !found ==> forall|a: int| 0 <= a < k ==> (#[trigger] ss[a]).0 != default@,
            decreases n - k,
        {
            if str_eq(cstorages[k].name.as_str(), default.as_str()) {
                proof {
                    assert(ss[k as int] == cstorages@[k as int]@);
                }
                found = true;
            }
            proof {
                assert(ss[k as int] == cstorages@[k as int]@);
            }
            k += 1;
        }
        if !found {
            return Err(ConfigError::InvalidDefaultStorage);
        }
        // the local search paths: given, or `.nodes`
        let local_search_paths: Vec<String> = match &config.local_search_paths {
            Some(l) => l.clone(),
            None => {
                let mut v: Vec<String> = Vec::new();
                v.push(String::from_str(".nodes"));
                proof {
                    assert(v.deep_view() =~= seq![".nodes"@]);
                }
                v
            },
        };
        // the checked entries
        let mut storages: Vec<(String, String)> = Vec::new();
        let mut m: usize = 0;
        while m < n
            invariant
                m <= n,
                n == cstorages@.len(),
                ss == ps_list_view(cstorages@),
                storages@.len() == m,
                forall|a: int| 0 <= a < m
                    ==> ((#[trigger] storages@[a]).0@, storages@[a].1@) == ss[a],
            decreases n - m,
        {
            storages.push((cstorages[m].name.clone(), cstorages[m].path.clone()));
            proof {
                assert(ss[m as int] == cstorages@[m as int]@);
            }
            m += 1;
        }
        let sc = StorageConfig { default, local_search_paths, storages };
        proof {
            assert(sc@.storages =~= ss);
            assert(sc@.local_search_paths == chosen_search_paths(config@));
        }
        Ok(sc)
    }

    /// The parsed config file as a value.
    pub fn value(&self) -> (r: &Option<toml::Value>)
        ensures
            match r {
                Some(v) => self@.value == Some(v@),
                None => self@.value is None,
            },
    {
        &self.value
    }

    /// The path of the configured storage with this name, if any.
    pub fn storage_path(&self, name: &str) -> (r: Option<&String>)
        ensures
            match r {
                Some(p) => exists|k: int|
                    0 <= k < self@.storage.storages.len()
                        && (#[trigger] self@.storage.storages[k]) == (name@, p@),
                None => forall|k: int|
                    0 <= k < self@.storage.storages.len()
                        ==> (#[trigger] self@.storage.storages[k]).0 != name@,
            },
    {
        let n = self.storage.storages.len();
        let mut k: usize = 0;
        while k < n
            invariant
                k <= n,
                n == self.storage.storages@.len(),
                n == self@.storage.storages.len(),
                forall|a: int| 0 <= a < k ==> (#[trigger] self@.storage.storages[a]).0 != name@,
                forall|a: int| 0 <= a < n
                    ==> (#[trigger] self@.storage.storages[a])
                        == (self.storage.storages@[a].0@, self.storage.storages@[a].1@),
            decreases n - k,
        {
            if str_eq(self.storage.storages[k].0.as_str(), name) {
                proof {
                    assert(self@.storage.storages[k as int]
                        == (name@, self.storage.storages@[k as int].1@));
                }
                return Some(&self.storage.storages[k].1);
            }
            k += 1;
        }
        None
    }

    /// The name of the default storage.
    pub fn default_storage_name(&self) -> (r: &str)
        ensures
            r@ == self@.storage.default,
    {
        self.storage.default.as_str()
    }

    /// The configured directories a local storage is searched in.
    pub fn local_search_paths(&self) -> (r: &Vec<String>)
        ensures
            r.deep_view() == self@.storage.local_search_paths,
    {
        &self.storage.local_search_paths
    }

    /// Where the configuration lives, under the home directory.
    pub fn config_folder(home: &str) -> (r: String)
        ensures
            r@ == home@ + "/.config/nodes"@,
    {
        let mut p = home.to_owned();
        p.append("/.config/nodes");
        p
    }

    /// The configuration file's path, under the home directory.
    pub fn config_path(home: &str) -> (r: String)
        ensures
            r@ == home@ + "/.config/nodes"@ + "/config"@,
    {
        let mut p = Config::config_folder(home);
        p.append("/config");
        p
    }

    /// The configuration when no file exists: one storage named
    /// `default` in the user's data directory.
    fn default_config(home: &str) -> (r: Config)
        ensures
            r@.value is None,
            r@.storage.default == "default"@,
            r@.storage.local_search_paths =~= seq![".nodes"@],
            r@.storage.storages =~= seq![("default"@, home@ + "/.local/share/nodes-dummy"@)],
    {
        let mut path = home.to_owned();
        path.append("/.local/share/nodes-dummy");
        let mut storages: Vec<(String, String)> = Vec::new();
        storages.push((String::from_str("default"), path));
        let mut lsp: Vec<String> = Vec::new();
        lsp.push(String::from_str(".nodes"));
        proof {
            assert(lsp.deep_view() =~= seq![".nodes"@]);
        }
        Config {
            value: None,
            storage: StorageConfig {
                default: String::from_str("default"),
                local_search_paths: lsp,
                storages,
            },
        }
    }

    /// Builds the configuration from the already-read file: absent file
    /// means the default configuration; a file without a `storage`
    /// section, or one of the wrong shape, is rejected; the section
    /// itself is then checked.
    pub fn load_default(file: Option<toml::Value>, home: &str) -> (r: Result<Config, ConfigError>)
        ensures
            match file {
                None => r matches Ok(c) && c@.value is None
                    && c@.storage.default == "default"@
                    && c@.storage.local_search_paths =~= seq![".nodes"@]
                    && c@.storage.storages
                        =~= seq![("default"@, home@ + "/.local/share/nodes-dummy"@)],
                Some(value) => match spec_find(value@, "storage"@) {
                    None => r matches Err(e) && config_err_eq(e, ConfigError::NoStorage),
                    Some(sv) => match spec_psc(sv) {
                        None => r matches Err(e) && config_err_eq(e, ConfigError::InvalidStorage),
                        Some(psc) => match spec_storage_config(psc) {
                            Ok(scv) => r matches Ok(c) && c@.storage == scv
                                && c@.value == Some(value@),
                            Err(ev) => r matches Err(e) && config_err_eq(e, ev),
                        },
                    },
                },
            },
    {
        let value = match file {
            Some(v) => v,
            None => {
                return Ok(Config::default_config(home));
            },
        };
        let psc = match toml::toml_find(&value, "storage") {
            None => {
                return Err(ConfigError::NoStorage);
            },
            Some(sv) => match extract_psc(sv) {
                None => {
                    return Err(ConfigError::InvalidStorage);
                },
                Some(psc) => psc,
            },
        };
        match Config::parse_storage_config(&psc) {
            Ok(storage) => Ok(Config { value: Some(value), storage }),
            Err(e) => Err(e),
        }
    }
}

/// The storage section's shape: optional `default` string, optional
/// `local_search_paths` array of strings, optional `storages` array of
/// `{name, path}` tables; anything else is malformed.
pub open spec fn spec_psc(v: ValueS) -> Option<ParseStorageConfigV> {
    if !(v is Table) {
        None
    } else {
        let d = match spec_find(v, "default"@) {
            None => Some(None::<Seq<char>>),
            Some(w) => match w {
                ValueS::String(s) => Some(Some(s)),
                _ => None,
            },
        };
        let l = match spec_find(v, "local_search_paths"@) {
            None => Some(None::<Seq<Seq<char>>>),
            Some(w) => match w {
                ValueS::Array(vs) => match spec_strings(vs) {
                    Some(ss) => Some(Some(ss)),
                    None => None,
                },
                _ => None,
            },
        };
        let s = match spec_find(v, "storages"@) {
            None => Some(None::<Seq<(Seq<char>, Seq<char>)>>),
            Some(w) => match w {
                ValueS::Array(vs) => match spec_entries(vs) {
                    Some(es) => Some(Some(es)),
                    None => None,
                },
                _ => None,
            },
        };
        if d is Some && l is Some && s is Some {
            Some(ParseStorageConfigV { default: d->0, local_search_paths: l->0, storages: s->0 })
        } else {
            None
        }
    }
}

/// An array of strings, or nothing.
pub open spec fn spec_strings(vs: Seq<ValueS>) -> Option<Seq<Seq<char>>>
    decreases vs.len(),
{
    if vs.len() == 0 {
        Some(Seq::empty())
    } else {
        match vs[0] {
            ValueS::String(s) => match spec_strings(vs.drop_first()) {
                Some(r) => Some(seq![s] + r),
                None => None,
            },
            _ => None,
        }
    }
}

/// An array of `{name, path}` tables, or nothing.
pub open spec fn spec_entries(vs: Seq<ValueS>) -> Option<Seq<(Seq<char>, Seq<char>)>>
    decreases vs.len(),
{
    if vs.len() == 0 {
        Some(Seq::empty())
    } else {
        match spec_entry(vs[0]) {
            Some(e) => match spec_entries(vs.drop_first()) {
                Some(r) => Some(seq![e] + r),
                None => None,
            },
            None => None,
        }
    }
}

pub open spec fn spec_entry(v: ValueS) -> Option<(Seq<char>, Seq<char>)> {
    match spec_find(v, "name"@) {
        Some(n) => match n {
            ValueS::String(ns) => match spec_find(v, "path"@) {
                Some(p) => match p {
                    ValueS::String(ps) => Some((ns, ps)),
                    _ => None,
                },
                _ => None,
            },
            _ => None,
        },
        _ => None,
    }
}

fn extract_entry(v: &toml::Value) -> (r: Option<ParseStorage>)
    ensures
        match r {
            Some(e) => spec_entry(v@) == Some(e@),
            None => spec_entry(v@) is None,
        },
{
    let n = match toml::toml_find(v, "name") {
        Some(toml::Value::String(s)) => s.clone(),
        _ => {
            return None;
        },
    };
    let p = match toml::toml_find(v, "path") {
        Some(toml::Value::String(s)) => s.clone(),
        _ => {
            return None;
        },
    };
    Some(ParseStorage { name: n, path: p })
}

fn extract_entries(vs: &Vec<toml::Value>, k: usize) -> (r: Option<Vec<ParseStorage>>)
    requires
        k <= vs@.len(),
    ensures
        ({
            let tail = crate::toml::value_view(toml::Value::Array(*vs))->Array_0.skip(k as int);
            match r {
                Some(es) => spec_entries(tail) == Some(ps_list_view(es@)),
                None => spec_entries(tail) is None,
            }
        }),
    decreases vs@.len() - k,
{
    let ghost tail = crate::toml::value_view(toml::Value::Array(*vs))->Array_0.skip(k as int);
    if k == vs.len() {
        proof {
            assert(ps_list_view(Seq::<ParseStorage>::empty()) =~= Seq::<(Seq<char>,
                Seq<char>)>::empty());
        }
        return Some(Vec::new());
    }
    proof {
        assert(tail[0] == crate::toml::value_view(vs@[k as int]));
        assert(tail.drop_first() =~= crate::toml::value_view(
            toml::Value::Array(*vs),
        )->Array_0.skip((k + 1) as int));
    }
    let e = match extract_entry(&vs[k]) {
        Some(e) => e,
        None => {
            return None;
        },
    };
    match extract_entries(vs, k + 1) {
        Some(mut rest) => {
            let ghost restv = rest@;
            rest.insert(0, e);
            proof {
                assert(ps_list_view(rest@) =~= seq![rest@[0]@] + ps_list_view(restv));
            }
            Some(rest)
        },
        None => None,
    }
}

fn extract_strings(vs: &Vec<toml::Value>, k: usize) -> (r: Option<Vec<String>>)
    requires
        k <= vs@.len(),
    ensures
        ({
            let tail = crate::toml::value_view(toml::Value::Array(*vs))->Array_0.skip(k as int);
            match r {
                Some(es) => spec_strings(tail) == Some(es.deep_view()),
                None => spec_strings(tail) is None,
            }
        }),
    decreases vs@.len() - k,
{
    let ghost tail = crate::toml::value_view(toml::Value::Array(*vs))->Array_0.skip(k as int);
    if k == vs.len() {
        let empty: Vec<String> = Vec::new();
        proof {
            assert(empty.deep_view() =~= Seq::<Seq<char>>::empty());
        }
        return Some(empty);
    }
    proof {
        assert(tail[0] == crate::toml::value_view(vs@[k as int]));
        assert(tail.drop_first() =~= crate::toml::value_view(
            toml::Value::Array(*vs),
        )->Array_0.skip((k + 1) as int));
    }
    let e = match &vs[k] {
        toml::Value::String(s) => s.clone(),
        _ => {
            return None;
        },
    };
    match extract_strings(vs, k + 1) {
        Some(mut rest) => {
            let ghost restv = rest.deep_view();
            rest.insert(0, e);
            proof {
                assert(rest.deep_view() =~= seq![rest@[0]@] + restv);
            }
            Some(rest)
        },
        None => None,
    }
}

/// Reads the storage section into its written shape.
fn extract_psc(v: &toml::Value) -> (r: Option<ParseStorageConfig>)
    ensures
        match r {
            Some(psc) => spec_psc(v@) == Some(psc@),
            None => spec_psc(v@) is None,
        },
{
    match v {
        toml::Value::Table(_) => {},
        _ => {
            return None;
        },
    }
    let default: Option<String> = match toml::toml_find(v, "default") {
        None => None,
        Some(toml::Value::String(s)) => Some(s.clone()),
        Some(_) => {
            return None;
        },
    };
    let local_search_paths: Option<Vec<String>> = match toml::toml_find(v, "local_search_paths") {
        None => None,
        Some(toml::Value::Array(vs)) => {
            proof {
                assert(crate::toml::value_view(toml::Value::Array(*vs))->Array_0.skip(0)
                    =~= crate::toml::value_view(toml::Value::Array(*vs))->Array_0);
            }
            match extract_strings(vs, 0) {
                Some(l) => Some(l),
                None => {
                    return None;
                },
            }
        },
        Some(_) => {
            return None;
        },
    };
    let storages: Option<Vec<ParseStorage>> = match toml::toml_find(v, "storages") {
        None => None,
        Some(toml::Value::Array(vs)) => {
            proof {
                assert(crate::toml::value_view(toml::Value::Array(*vs))->Array_0.skip(0)
                    =~= crate::toml::value_view(toml::Value::Array(*vs))->Array_0);
            }
            match extract_entries(vs, 0) {
                Some(l) => Some(l),
                None => {
                    return None;
                },
            }
        },
        Some(_) => {
            return None;
        },
    };
    Some(ParseStorageConfig { default, local_search_paths, storages })
}

} // verus!
