//! The roster of repositories, and where the dashboard keeps its files.
use vstd::prelude::*;
use vstd::string::*;
use vstd::utf8::*;
use crate::path::{
    components, file_name_bytes, joined, law_join_adds_a_component, lossy_utf8, parent_path,
    plain_name, rooted, same_bytes, strictly_within, trimmed_path, FsPath, DOT, SLASH,
};
use crate::text::{decimal, decimal_text, law_decimal_is_injective};

verus! {

/// A repository of the roster.
#[derive(Debug, PartialEq, Eq)]
pub struct RepoEntry {
    pub path: FsPath,
}

impl View for RepoEntry {
    type V = Seq<u8>;

    open spec fn view(&self) -> Seq<u8> {
        self.path@
    }
}

impl Clone for RepoEntry {
    fn clone(&self) -> (res: RepoEntry)
        ensures
            res@ == self@,
    {
        RepoEntry { path: self.path.clone() }
    }
}

/// The roster: the repositories that the dashboard federates, in order.
#[derive(Debug, PartialEq, Eq)]
pub struct Config {
    pub repos: Vec<RepoEntry>,
}

impl View for Config {
    type V = Seq<Seq<u8>>;

    open spec fn view(&self) -> Seq<Seq<u8>> {
        self.repos@.map_values(|r: RepoEntry| r@)
    }
}

impl Default for Config {
    fn default() -> (res: Config)
        ensures
            res@ == Seq::<Seq<u8>>::empty(),
    {
        let res = Config { repos: Vec::new() };
        assert(res@ =~= Seq::<Seq<u8>>::empty());
        res
    }
}

impl Clone for Config {
    fn clone(&self) -> (res: Config)
        ensures
            res@ == self@,
    {
        let mut repos: Vec<RepoEntry> = Vec::new();
        let mut i: usize = 0;
        while i < self.repos.len()
            invariant
                i <= self.repos.len(),
                repos.len() == i,
                forall|k: int| 0 <= k < i ==> #[trigger] repos@[k]@ == self.repos@[k]@,
            decreases self.repos.len() - i,
        {
            repos.push(self.repos[i].clone());
            i += 1;
        }
        let res = Config { repos };
        assert(res@ =~= self@);
        res
    }
}

impl Config {
    /// Whether two rosters list the same paths, byte for byte and in the same
    /// order.
    pub fn same_roster(&self, other: &Config) -> (res: bool)
        ensures
            res == (self@ == other@),
    {
        if self.repos.len() != other.repos.len() {
            assert(self@.len() != other@.len());
            return false;
        }
        let mut i: usize = 0;
        while i < self.repos.len()
            invariant
                i <= self.repos.len(),
                self.repos.len() == other.repos.len(),
                forall|k: int| 0 <= k < i ==> #[trigger] self.repos@[k]@ == other.repos@[k]@,
            decreases self.repos.len() - i,
        {
            if !same_bytes(self.repos[i].path.as_bytes(), other.repos[i].path.as_bytes()) {
                assert(self@[i as int] != other@[i as int]);
                return false;
            }
            i += 1;
        }
        assert(self@ =~= other@);
        true
    }
}

/// The resolved locations of the dashboard's files.
#[derive(Debug, PartialEq, Eq)]
pub struct Paths {
    config_file: FsPath,
    data_dir: FsPath,
    cache_file: FsPath,
    ui_state_file: FsPath,
    legacy_config_file: FsPath,
    legacy_ui_state_file: FsPath,
    migration_lock_file: FsPath,
}

/// What [`Paths`] holds.
pub struct PathsModel {
    pub config_file: Seq<u8>,
    pub data_dir: Seq<u8>,
    pub cache_file: Seq<u8>,
    pub ui_state_file: Seq<u8>,
    pub legacy_config_file: Seq<u8>,
    pub legacy_ui_state_file: Seq<u8>,
    pub migration_lock_file: Seq<u8>,
}

impl View for Paths {
    type V = PathsModel;

    closed spec fn view(&self) -> PathsModel {
        PathsModel {
            config_file: self.config_file@,
            data_dir: self.data_dir@,
            cache_file: self.cache_file@,
            ui_state_file: self.ui_state_file@,
            legacy_config_file: self.legacy_config_file@,
            legacy_ui_state_file: self.legacy_ui_state_file@,
            migration_lock_file: self.migration_lock_file@,
        }
    }
}

/// The path of `file` in the directory `dir` below `root`.
pub open spec fn in_app_dir(root: Seq<u8>, dir: Seq<char>, file: Seq<char>) -> Seq<u8> {
    joined(joined(root, encode_utf8(dir)), encode_utf8(file))
}

/// The locations below a root for configuration and a root for data.
pub open spec fn paths_below(config_root: Seq<u8>, data_root: Seq<u8>) -> PathsModel {
    PathsModel {
        config_file: in_app_dir(config_root, "hank"@, "config.toml"@),
        data_dir: joined(data_root, encode_utf8("hank"@)),
        cache_file: in_app_dir(data_root, "hank"@, "snapshot_cache.json"@),
        ui_state_file: in_app_dir(data_root, "hank"@, "ui_state.json"@),
        legacy_config_file: in_app_dir(config_root, "federated-beads"@, "config.toml"@),
        legacy_ui_state_file: in_app_dir(data_root, "federated-beads"@, "ui_state.json"@),
        migration_lock_file: in_app_dir(data_root, "hank"@, ".hank-migration.lock"@),
    }
}

/// A roster entry as an absolute path, or relative to the directory of the
/// configuration file.
pub open spec fn resolved_roster_path(paths: PathsModel, p: Seq<u8>) -> Seq<u8> {
    if rooted(p) {
        p
    } else {
        joined(parent_path(paths.config_file)->Some_0, p)
    }
}

/// A name of ASCII characters without a separator is a single component.
pub proof fn lemma_ascii_name(s: Seq<char>)
    requires
        s.len() > 0,
        is_ascii_chars(s),
        forall|i: int| 0 <= i < s.len() ==> #[trigger] s[i] != '/',
        s.len() > 1 || s[0] != '.',
    ensures
        plain_name(encode_utf8(s)),
        encode_utf8(s).len() == s.len(),
{
    is_ascii_chars_encode_utf8(s);
    let b = encode_utf8(s);
    assert forall|i: int| 0 <= i < b.len() implies b[i] != SLASH by {
        assert(s[i] != '/');
        let c = s[i];
        assert(c as u8 == b[i]);
        assert('\0' <= c <= '\u{7f}');
    }
    if b == seq![DOT] {
        let c = s[0];
        assert(c as u8 == b[0]);
        assert('\0' <= c <= '\u{7f}');
    }
}

/// The file and directory names in use are single components.
pub proof fn lemma_own_names()
    ensures
        plain_name(encode_utf8("config.toml"@)),
        plain_name(encode_utf8(".hank-migration.lock"@)),
        plain_name(encode_utf8("ui_state.json"@)),
        plain_name(encode_utf8("snapshot_cache.json"@)),
        plain_name(encode_utf8("hub"@)),
        plain_name(encode_utf8("hank"@)),
        plain_name(encode_utf8("federated-beads"@)),
        encode_utf8("config.toml"@).len() == 11,
        encode_utf8("ui_state.json"@).len() == 13,
        encode_utf8("snapshot_cache.json"@).len() == 19,
        encode_utf8(".hank-migration.lock"@).len() == 20,
        encode_utf8("hub"@).len() == 3,
        encode_utf8("hank"@).len() == 4,
        encode_utf8("federated-beads"@).len() == 15,
{
    reveal_strlit("config.toml");
    reveal_strlit(".hank-migration.lock");
    reveal_strlit("ui_state.json");
    reveal_strlit("snapshot_cache.json");
    reveal_strlit("hub");
    reveal_strlit("hank");
    reveal_strlit("federated-beads");
    lemma_ascii_name("hank"@);
    lemma_ascii_name("federated-beads"@);
    lemma_ascii_name("config.toml"@);
    lemma_ascii_name(".hank-migration.lock"@);
    lemma_ascii_name("ui_state.json"@);
    lemma_ascii_name("snapshot_cache.json"@);
    lemma_ascii_name("hub"@);
}

impl Clone for Paths {
    fn clone(&self) -> (res: Paths)
        ensures
            res@ == self@,
    {
        proof {
            use_type_invariant(self);
        }
        Paths {
            config_file: self.config_file.clone(),
            data_dir: self.data_dir.clone(),
            cache_file: self.cache_file.clone(),
            ui_state_file: self.ui_state_file.clone(),
            legacy_config_file: self.legacy_config_file.clone(),
            legacy_ui_state_file: self.legacy_ui_state_file.clone(),
            migration_lock_file: self.migration_lock_file.clone(),
        }
    }
}

impl Paths {
    #[verifier::type_invariant]
    spec fn has_parents(self) -> bool {
        &&& parent_path(self.config_file@) is Some
        &&& parent_path(self.migration_lock_file@) is Some
    }

    /// Path of the roster file.
    pub fn config_file(&self) -> (res: &FsPath)
        ensures
            res@ == self@.config_file,
    {
        &self.config_file
    }

    /// Path of the data directory.
    pub fn data_dir(&self) -> (res: &FsPath)
        ensures
            res@ == self@.data_dir,
    {
        &self.data_dir
    }

    /// Path of the cached snapshot.
    pub fn cache_file(&self) -> (res: &FsPath)
        ensures
            res@ == self@.cache_file,
    {
        &self.cache_file
    }

    /// Path of the persisted preferences.
    pub fn ui_state_file(&self) -> (res: &FsPath)
        ensures
            res@ == self@.ui_state_file,
    {
        &self.ui_state_file
    }

    /// Path of the roster file under the application's former name.
    pub fn legacy_config_file(&self) -> (res: &FsPath)
        ensures
            res@ == self@.legacy_config_file,
    {
        &self.legacy_config_file
    }

    /// Path of the preferences under the application's former name.
    pub fn legacy_ui_state_file(&self) -> (res: &FsPath)
        ensures
            res@ == self@.legacy_ui_state_file,
    {
        &self.legacy_ui_state_file
    }

    /// Path of the lock that serializes migrations.
    pub fn migration_lock_file(&self) -> (res: &FsPath)
        ensures
            res@ == self@.migration_lock_file,
    {
        &self.migration_lock_file
    }

    /// The directory of the migration lock.
    pub fn migration_lock_dir(&self) -> (res: FsPath)
        ensures
            parent_path(self@.migration_lock_file) == Some(res@),
    {
        proof {
            use_type_invariant(self);
        }
        match self.migration_lock_file.parent() {
            Some(parent) => parent,
            None => self.data_dir.clone(),
        }
    }

    /// Resolves a roster entry against the directory of the roster file.
    pub fn resolve_roster_path(&self, path: &FsPath) -> (res: FsPath)
        ensures
            parent_path(self@.config_file) is Some,
            res@ == resolved_roster_path(self@, path@),
    {
        proof {
            use_type_invariant(self);
        }
        if path.is_absolute() {
            path.clone()
        } else {
            match self.config_file.parent() {
                Some(parent) => parent.join(path),
                None => path.clone(),
            }
        }
    }

    /// The locations below a root for configuration and a root for data.
    pub fn from_roots(config_root: &FsPath, data_root: &FsPath) -> (res: Paths)
        ensures
            res@ == paths_below(config_root@, data_root@),
    {
        proof {
            lemma_own_names();
            law_join_adds_a_component(
                joined(config_root@, encode_utf8("hank"@)),
                encode_utf8("config.toml"@),
            );
            law_join_adds_a_component(
                joined(data_root@, encode_utf8("hank"@)),
                encode_utf8(".hank-migration.lock"@),
            );
        }
        let config_dir = config_root.join_text("hank");
        let data_dir = data_root.join_text("hank");
        Paths {
            config_file: config_dir.join_text("config.toml"),
            cache_file: data_dir.join_text("snapshot_cache.json"),
            ui_state_file: data_dir.join_text("ui_state.json"),
            legacy_config_file: config_root.join_text("federated-beads").join_text("config.toml"),
            legacy_ui_state_file: data_root.join_text("federated-beads").join_text("ui_state.json"),
            migration_lock_file: data_dir.join_text(".hank-migration.lock"),
            data_dir,
        }
    }

    /// The locations below one base.
    pub fn with_base(base: &FsPath) -> (res: Paths)
        ensures
            res@ == paths_below(base@, base@),
    {
        Paths::from_roots(base, base)
    }
}

/// The cache and the preferences lie strictly within the data directory, and
/// a relative roster entry is taken from the directory of the roster file.
pub proof fn law_files_lie_in_their_directories(config_root: Seq<u8>, data_root: Seq<u8>)
    ensures
        ({
            let p = paths_below(config_root, data_root);
            &&& strictly_within(p.data_dir, p.cache_file)
            &&& strictly_within(p.data_dir, p.ui_state_file)
            &&& strictly_within(p.data_dir, p.migration_lock_file)
            &&& parent_path(p.config_file) == Some(
                trimmed_path(joined(config_root, encode_utf8("hank"@))),
            )
        }),
{
    lemma_own_names();
    let p = paths_below(config_root, data_root);
    law_join_adds_a_component(p.data_dir, encode_utf8("snapshot_cache.json"@));
    law_join_adds_a_component(p.data_dir, encode_utf8("ui_state.json"@));
    law_join_adds_a_component(p.data_dir, encode_utf8(".hank-migration.lock"@));
    law_join_adds_a_component(
        joined(config_root, encode_utf8("hank"@)),
        encode_utf8("config.toml"@),
    );
}

/// A file beside another one.
pub open spec fn beside(path: Seq<u8>, name: Seq<char>) -> Seq<u8> {
    match parent_path(path) {
        Some(parent) if parent.len() > 0 => joined(parent, encode_utf8(name)),
        _ => encode_utf8(name),
    }
}

/// The path of the file `name` beside `path`.
pub fn sibling(path: &FsPath, name: &str) -> (res: FsPath)
    ensures
        res@ == beside(path@, name@),
{
    match path.parent() {
        Some(parent) => if parent.is_empty() {
            FsPath::new(name)
        } else {
            parent.join_text(name)
        },
        None => FsPath::new(name),
    }
}

/// The name of the file through which a process replaces the file `name`.
pub open spec fn temp_name(name: Seq<char>, process: nat) -> Seq<char> {
    "."@ + name + ".tmp."@ + decimal(process)
}

/// The file through which a process replaces the file `name` beside `path`.
pub fn temp_beside(path: &FsPath, name: &str, process: u32) -> (res: FsPath)
    ensures
        res@ == beside(path@, temp_name(name@, process as nat)),
{
    let mut temp = String::from_str(".");
    temp.append(name);
    temp.append(".tmp.");
    temp.append(decimal_text(process as u64).as_str());
    sibling(path, temp.as_str())
}

/// The file through which a process replaces a file: it lies in the same
/// directory, so that one rename puts it in place. None where the path names
/// no file.
pub fn replacement_path(path: &FsPath, process: u32) -> (res: Option<FsPath>)
    ensures
        match file_name_bytes(path@) {
            Some(name) => res matches Some(p) && p@ == beside(
                path@,
                temp_name(lossy_utf8(name), process as nat),
            ),
            None => res is None,
        },
{
    match path.file_name() {
        Some(name) => Some(temp_beside(path, name.display().as_str(), process)),
        None => None,
    }
}

/// Where the files lie below their roots: under the application's name, and the
/// former ones under its former name.
pub proof fn law_where_the_files_lie(config_root: Seq<u8>, data_root: Seq<u8>)
    ensures
        ({
            let p = paths_below(config_root, data_root);
            let now = encode_utf8("hank"@);
            let before = encode_utf8("federated-beads"@);
            let roster = encode_utf8("config.toml"@);
            let choices = encode_utf8("ui_state.json"@);
            let c = components(config_root);
            let d = components(data_root);
            &&& components(p.config_file) == c.push(now).push(roster)
            &&& components(p.legacy_config_file) == c.push(before).push(roster)
            &&& components(p.data_dir) == d.push(now)
            &&& components(p.ui_state_file) == d.push(now).push(choices)
            &&& components(p.legacy_ui_state_file) == d.push(before).push(choices)
            &&& components(p.cache_file) == d.push(now).push(encode_utf8("snapshot_cache.json"@))
            &&& components(p.migration_lock_file) == d.push(now).push(
                encode_utf8(".hank-migration.lock"@),
            )
        }),
{
    lemma_own_names();
    let now = encode_utf8("hank"@);
    let before = encode_utf8("federated-beads"@);
    let roster = encode_utf8("config.toml"@);
    let choices = encode_utf8("ui_state.json"@);
    law_join_adds_a_component(config_root, now);
    law_join_adds_a_component(config_root, before);
    law_join_adds_a_component(data_root, now);
    law_join_adds_a_component(data_root, before);
    law_join_adds_a_component(joined(config_root, now), roster);
    law_join_adds_a_component(joined(config_root, before), roster);
    law_join_adds_a_component(joined(data_root, now), choices);
    law_join_adds_a_component(joined(data_root, before), choices);
    law_join_adds_a_component(joined(data_root, now), encode_utf8("snapshot_cache.json"@));
    law_join_adds_a_component(joined(data_root, now), encode_utf8(".hank-migration.lock"@));
}

/// An absolute entry of the roster stays as it is; a single name lies in the
/// directory of the roster file.
pub proof fn law_relative_entries_lie_beside_the_roster(paths: PathsModel, entry: Seq<u8>)
    requires
        parent_path(paths.config_file) is Some,
    ensures
        rooted(entry) ==> resolved_roster_path(paths, entry) == entry,
        plain_name(entry) ==> components(resolved_roster_path(paths, entry)) == components(
            parent_path(paths.config_file)->Some_0,
        ).push(entry),
{
    if plain_name(entry) {
        law_join_adds_a_component(parent_path(paths.config_file)->Some_0, entry);
        if rooted(entry) {
            assert(entry[0] == SLASH);
        }
    }
}

/// A file through which another is replaced has a hidden name of its own: no two
/// processes use the same, and it ends in the number of its process.
pub proof fn law_every_process_has_its_own_replacement(name: Seq<char>, p: nat, q: nat)
    ensures
        temp_name(name, p) == temp_name(name, q) ==> p == q,
        temp_name(name, p).len() > name.len() + 1,
        temp_name(name, p)[0] == '.',
        temp_name(name, p).subrange(1, 1 + name.len() as int) == name,
        temp_name(name, p) != name,
{
    reveal_strlit(".");
    reveal_strlit(".tmp.");
    let a = temp_name(name, p);
    let b = temp_name(name, q);
    let n = name.len() as int + 6;
    assert(a.skip(n) =~= decimal(p));
    assert(b.skip(n) =~= decimal(q));
    assert(a.subrange(1, 1 + name.len() as int) =~= name);
    law_decimal_is_injective(p, q);
}

/// A file beside another lies in the same directory under the given name.
pub proof fn law_a_sibling_lies_in_the_same_directory(path: Seq<u8>, name: Seq<char>)
    requires
        plain_name(encode_utf8(name)),
    ensures
        parent_path(path) matches Some(dir) && dir.len() > 0 ==> components(beside(path, name))
            == components(parent_path(path)->Some_0).push(encode_utf8(name)),
        !(parent_path(path) matches Some(dir) && dir.len() > 0) ==> beside(path, name)
            == encode_utf8(name),
{
    match parent_path(path) {
        Some(dir) => {
            law_join_adds_a_component(dir, encode_utf8(name));
        },
        None => {},
    }
}

} // verus!
