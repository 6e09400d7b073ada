//! The registry: cached installations with scan metadata and tool
//! tracking, and version-pattern lookup against the cache.

use vstd::prelude::*;

use crate::detector::{primary_index, PhpInstallation};
use crate::version::{spec_matches, spec_parse_result, spec_version_string, PhpVersion};

verus! {

/// The whole persisted configuration.
#[derive(Debug, Clone, PartialEq)]
pub struct Config {
    pub settings: Settings,
    pub versions: Vec<VersionEntry>,
    pub tools: ToolsConfig,
}

/// Global settings of the registry.
#[derive(Debug, Clone, PartialEq)]
pub struct Settings {
    pub last_scan: Option<String>,
    pub default_version: Option<String>,
}

/// One cached installation: its version text, its paths, and how the
/// entry came to be.
#[derive(Debug, Clone, PartialEq)]
pub struct VersionEntry {
    pub version: String,
    pub paths: Vec<String>,
    pub source: String,
}

/// Settings and records for auxiliary tool handling.
#[derive(Debug, Clone, PartialEq)]
pub struct ToolsConfig {
    pub scan_for_tools: bool,
    pub custom_tool_names: Vec<String>,
    pub custom_search_paths: Vec<String>,
    pub managed: Vec<ToolEntry>,
}

/// One tracked auxiliary tool.
#[derive(Debug, Clone, PartialEq)]
pub struct ToolEntry {
    pub name: String,
    pub original_path: String,
    pub shebang: String,
    pub shim_created: bool,
}

impl Default for Settings {
    fn default() -> (r: Self)
        ensures
            r.last_scan is None,
            r.default_version is None,
    {
        Self { last_scan: None, default_version: None }
    }
}

impl Default for ToolsConfig {
    fn default() -> (r: Self)
        ensures
            !r.scan_for_tools,
            r.custom_tool_names@.len() == 0,
            r.custom_search_paths@.len() == 0,
            r.managed@.len() == 0,
    {
        Self {
            // Tool scanning is opt-in.
            scan_for_tools: false,
            custom_tool_names: Vec::new(),
            custom_search_paths: Vec::new(),
            managed: Vec::new(),
        }
    }
}

impl Default for Config {
    fn default() -> (r: Self)
        ensures
            r.settings.last_scan is None,
            r.settings.default_version is None,
            r.versions@.len() == 0,
            !r.tools.scan_for_tools,
            r.tools.custom_tool_names@.len() == 0,
            r.tools.custom_search_paths@.len() == 0,
            r.tools.managed@.len() == 0,
    {
        Self {
            settings: Settings::default(),
            versions: Vec::new(),
            tools: ToolsConfig::default(),
        }
    }
}

/// An element-wise copy of a vector of strings.
pub fn clone_string_vec(v: &Vec<String>) -> (r: Vec<String>)
    ensures
        r@ == v@,
{
    let n = v.len();
    let mut r: Vec<String> = Vec::new();
    let mut i: usize = 0;
    while i < n
        invariant
            i <= n,
            n == v@.len(),
            r@ == v@.take(i as int),
        decreases n - i,
    {
        r.push(v[i].clone());
        i = i + 1;
        proof {
            assert(r@ =~= v@.take(i as int));
        }
    }
    proof {
        assert(v@.take(n as int) =~= v@);
    }
    r
}

/// Whether a cached entry's version text parses as a banner version
/// that satisfies `pat`.
pub open spec fn entry_matches(e: VersionEntry, pat: Seq<char>) -> bool {
    match spec_parse_result(seq!['P', 'H', 'P', ' '] + e.version@) {
        Ok(v) => spec_matches(v, pat),
        Err(_) => false,
    }
}

/// The first cached entry satisfying `pat`, scanning from index `i`.
pub open spec fn lookup_index_from(entries: Seq<VersionEntry>, pat: Seq<char>, i: int) -> Option<
    int,
>
    decreases entries.len() - i,
{
    if i < 0 || i >= entries.len() {
        None
    } else if entry_matches(entries[i], pat) {
        Some(i)
    } else {
        lookup_index_from(entries, pat, i + 1)
    }
}

/// The first cached entry satisfying `pat`, if any.
pub open spec fn lookup_index(entries: Seq<VersionEntry>, pat: Seq<char>) -> Option<int> {
    lookup_index_from(entries, pat, 0)
}

proof fn lemma_lookup_index_bounds(entries: Seq<VersionEntry>, pat: Seq<char>, i: int)
    requires
        0 <= i,
    ensures
        match lookup_index_from(entries, pat, i) {
            Some(k) => i <= k < entries.len() && entry_matches(entries[k], pat),
            None => true,
        },
    decreases entries.len() - i,
{
    if i < entries.len() && !entry_matches(entries[i], pat) {
        lemma_lookup_index_bounds(entries, pat, i + 1);
    }
}

impl Config {
    /// Replaces the cached entries with one entry per installation, in
    /// the given order, each tagged as automatically discovered, and
    /// records the present moment as the last scan time.
    pub fn update_from_installations(&mut self, installations: &Vec<PhpInstallation>)
        ensures
            final(self).versions@.len() == installations@.len(),
            forall|i: int|
                0 <= i < installations@.len() ==> {
                    &&& (#[trigger] final(self).versions@[i]).version@ == spec_version_string(
                        installations@[i].version,
                    )
                    &&& final(self).versions@[i].paths@ == installations@[i].paths@
                    &&& final(self).versions@[i].source@ == "auto"@
                },
            final(self).settings.last_scan is Some,
            final(self).settings.default_version == old(self).settings.default_version,
            final(self).tools == old(self).tools,
    {
        self.versions = Vec::new();
        let n = installations.len();
        let mut i: usize = 0;
        while i < n
            invariant
                i <= n,
                n == installations@.len(),
                self.versions@.len() == i,
                forall|j: int|
                    0 <= j < i ==> {
                        &&& (#[trigger] self.versions@[j]).version@ == spec_version_string(
                            installations@[j].version,
                        )
                        &&& self.versions@[j].paths@ == installations@[j].paths@
                        &&& self.versions@[j].source@ == "auto"@
                    },
                self.settings == old(self).settings,
                self.tools == old(self).tools,
            decreases n - i,
        {
            let inst = &installations[i];
            let entry = VersionEntry {
                version: inst.version.to_string(),
                paths: clone_string_vec(&inst.paths),
                source: String::from_str("auto"),
            };
            self.versions.push(entry);
            i = i + 1;
        }
        self.settings.last_scan = Some(now_rfc3339());
    }

    /// All paths cached for the first entry whose version satisfies the
    /// pattern; `None` when no cached entry does.
    pub fn get_installation_by_version(&self, version_pattern: &str) -> (r: Option<Vec<String>>)
        ensures
            match lookup_index(self.versions@, version_pattern@) {
                Some(k) => r matches Some(ps) && ps@ == self.versions@[k].paths@,
                None => r is None,
            },
    {
        proof {
            reveal_strlit("PHP ");
            lemma_lookup_index_bounds(self.versions@, version_pattern@, 0);
        }
        let n = self.versions.len();
        let mut i: usize = 0;
        while i < n
            invariant
                i <= n,
                n == self.versions@.len(),
                lookup_index(self.versions@, version_pattern@) == lookup_index_from(
                    self.versions@,
                    version_pattern@,
                    i as int,
                ),
            decreases n - i,
        {
            let entry = &self.versions[i];
            let mut probe = String::from_str("PHP ");
            probe.append(entry.version.as_str());
            proof {
                reveal_strlit("PHP ");
                assert(probe@ =~= seq!['P', 'H', 'P', ' '] + entry.version@);
            }
            match PhpVersion::from_php_output(probe.as_str()) {
                Ok(version) => {
                    if version.matches(version_pattern) {
                        proof {
                            assert(entry_matches(self.versions@[i as int], version_pattern@));
                        }
                        return Some(clone_string_vec(&entry.paths));
                    }
                    proof {
                        assert(!entry_matches(self.versions@[i as int], version_pattern@));
                    }
                },
                Err(_) => {
                    proof {
                        assert(!entry_matches(self.versions@[i as int], version_pattern@));
                    }
                },
            }
            i = i + 1;
        }
        None
    }

    /// The primary binary path for the first entry whose version
    /// satisfies the pattern: the path named `php` if one is cached for
    /// it, else its first path; `None` when no entry matches or the
    /// matching entry has no paths.
    pub fn get_primary_path_by_version(&self, version_pattern: &str) -> (r: Option<String>)
        ensures
            match lookup_index(self.versions@, version_pattern@) {
                Some(k) => if self.versions@[k].paths@.len() > 0 {
                    r matches Some(p) && p@ == self.versions@[k].paths@[primary_index(
                        self.versions@[k].paths@,
                    )]@
                } else {
                    r is None
                },
                None => r is None,
            },
    {
        match self.get_installation_by_version(version_pattern) {
            Some(paths) => {
                crate::detector::primary_of_paths(&paths)
            },
            None => None,
        }
    }
}

impl ToolsConfig {
    /// Replaces the managed tool records with one per detected tool,
    /// in detection order; shims for them are owed but not yet created.
    pub fn set_managed_from_tools(&mut self, tools: &Vec<crate::tools::PhpTool>)
        ensures
            final(self).scan_for_tools == old(self).scan_for_tools,
            final(self).custom_tool_names == old(self).custom_tool_names,
            final(self).custom_search_paths == old(self).custom_search_paths,
            final(self).managed@.len() == tools@.len(),
            forall|i: int|
                0 <= i < tools@.len() ==> {
                    &&& (#[trigger] final(self).managed@[i]).name == tools@[i].name
                    &&& final(self).managed@[i].original_path == tools@[i].original_path
                    &&& final(self).managed@[i].shebang == tools@[i].shebang
                    &&& !final(self).managed@[i].shim_created
                },
    {
        self.managed = Vec::new();
        let n = tools.len();
        let mut i: usize = 0;
        while i < n
            invariant
                i <= n,
                n == tools@.len(),
                self.managed@.len() == i,
                self.scan_for_tools == old(self).scan_for_tools,
                self.custom_tool_names == old(self).custom_tool_names,
                self.custom_search_paths == old(self).custom_search_paths,
                forall|j: int|
                    0 <= j < i ==> {
                        &&& (#[trigger] self.managed@[j]).name == tools@[j].name
                        &&& self.managed@[j].original_path == tools@[j].original_path
                        &&& self.managed@[j].shebang == tools@[j].shebang
                        &&& !self.managed@[j].shim_created
                    },
            decreases n - i,
        {
            let tool = &tools[i];
            self.managed.push(
                ToolEntry {
                    name: tool.name.clone(),
                    original_path: tool.original_path.clone(),
                    shebang: tool.shebang.clone(),
                    shim_created: false,
                },
            );
            i = i + 1;
        }
    }
}

/// Relies on `chrono::Utc::now` and `chrono::DateTime::to_rfc3339` for
/// the current time as an RFC 3339 timestamp; the value depends on the
/// clock, so nothing is stated of it.
#[verifier::external_body]
fn now_rfc3339() -> (s: String) {
    chrono::Utc::now().to_rfc3339()
}

/// Why a configuration location could not be determined.
#[derive(Debug, Clone, PartialEq, Eq, Structural)]
pub enum ConfigError {
    /// The system reports no home directory.
    HomeNotFound,
}

/// Relies on `dirs::home_dir` for the user's home directory; the value
/// depends on the environment, so nothing is stated of it.
#[verifier::external_body]
pub(crate) fn home_dir_string() -> (r: Option<String>) {
    dirs::home_dir().map(|p| p.to_string_lossy().into_owned())
}

/// The directory holding the configuration: `.php-switcher` under the
/// user's home; fails only when no home directory is reported.
pub fn get_config_dir() -> (r: Result<String, ConfigError>)
    ensures
        match r {
            Ok(p) => exists|h: Seq<char>| p@ == h + "/.php-switcher"@,
            Err(e) => e == ConfigError::HomeNotFound,
        },
{
    match home_dir_string() {
        Some(home) => {
            let dir = home.concat("/.php-switcher");
            proof {
                let h = home@;
                assert(dir@ == h + "/.php-switcher"@);
            }
            Ok(dir)
        },
        None => Err(ConfigError::HomeNotFound),
    }
}

/// The path of the configuration file: `config.toml` inside the
/// configuration directory.
pub fn get_config_path() -> (r: Result<String, ConfigError>)
    ensures
        match r {
            Ok(p) => exists|h: Seq<char>| p@ == h + "/.php-switcher"@ + "/config.toml"@,
            Err(e) => e == ConfigError::HomeNotFound,
        },
{
    match get_config_dir() {
        Ok(dir) => {
            let ghost h = choose|h: Seq<char>| dir@ == h + "/.php-switcher"@;
            let p = dir.concat("/config.toml");
            proof {
                assert(p@ == h + "/.php-switcher"@ + "/config.toml"@);
            }
            Ok(p)
        },
        Err(e) => Err(e),
    }
}

} // verus!
