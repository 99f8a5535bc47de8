//! The configuration model: projects, their start items, settings and the
//! per-task environment policy.

use vstd::prelude::*;
use crate::paths::is_sep;
use crate::text::{chars_of, copy_chars, extend_chars, owned, string_of, trim, trimmed, vec_eq};

verus! {

pub const CONFIG_VERSION: u32 = 8;

pub const MODERN_VERSION: u32 = 3;

pub const TEMPLATE_VERSION: u32 = 4;

pub const DEFAULT_HOTKEY: &'static str = "Ctrl+Alt+D";

pub const DEFAULT_THEME: &'static str = "signal";

pub const DEFAULT_PORT_KEY: &'static str = "PORT";

pub const DEFAULT_ROOT_SUFFIX: &'static str = "-wt";

/// The shell dialect a start item runs in.
#[derive(PartialEq, Eq, Structural, Clone, Copy, Debug)]
pub enum Shell {
    Cmd,
    PowerShell,
    Bash,
}

pub open spec fn opt_str(o: Option<String>) -> Option<Seq<char>> {
    match o {
        Some(s) => Some(s@),
        None => None,
    }
}

pub fn copy_string(s: &String) -> (r: String)
    ensures
        r@ == s@,
{
    string_of(&chars_of(s.as_str()))
}

pub fn copy_opt_string(o: &Option<String>) -> (r: Option<String>)
    ensures
        opt_str(r) == opt_str(*o),
{
    match o {
        Some(s) => Some(copy_string(s)),
        None => None,
    }
}

pub open spec fn strs(v: Seq<String>) -> Seq<Seq<char>> {
    v.map_values(|s: String| s@)
}

pub fn copy_strings(v: &Vec<String>) -> (r: Vec<String>)
    ensures
        strs(r@) == strs(v@),
{
    let mut out: Vec<String> = Vec::new();
    for i in 0..v.len()
        invariant
            strs(out@) == strs(v@.take(i as int)),
    {
        let ghost ov = strs(out@);
        let s = copy_string(&v[i]);
        let ghost sv = s@;
        out.push(s);
        assert(strs(out@) =~= ov.push(sv));
        assert(strs(v@.take(i + 1)) =~= strs(v@.take(i as int)).push(v@[i as int]@));
    }
    assert(v@.take(v@.len() as int) == v@);
    out
}

/// One thing to start: a command run in a shell in a directory.
#[derive(Clone, Debug)]
pub struct Item {
    pub id: String,
    pub name: String,
    pub work_dir: Option<String>,
    pub shell: Shell,
    pub command: String,
}

pub struct ItemV {
    pub id: Seq<char>,
    pub name: Seq<char>,
    pub work_dir: Option<Seq<char>>,
    pub shell: Shell,
    pub command: Seq<char>,
}

impl View for Item {
    type V = ItemV;

    open spec fn view(&self) -> ItemV {
        ItemV {
            id: self.id@,
            name: self.name@,
            work_dir: opt_str(self.work_dir),
            shell: self.shell,
            command: self.command@,
        }
    }
}

pub fn copy_item(i: &Item) -> (r: Item)
    ensures
        r@ == i@,
{
    Item {
        id: copy_string(&i.id),
        name: copy_string(&i.name),
        work_dir: copy_opt_string(&i.work_dir),
        shell: i.shell,
        command: copy_string(&i.command),
    }
}

pub open spec fn items_view(v: Seq<Item>) -> Seq<ItemV> {
    v.map_values(|i: Item| i@)
}

pub fn copy_items(v: &Vec<Item>) -> (r: Vec<Item>)
    ensures
        items_view(r@) == items_view(v@),
{
    let mut out: Vec<Item> = Vec::new();
    for i in 0..v.len()
        invariant
            items_view(out@) == items_view(v@.take(i as int)),
    {
        let ghost ov = items_view(out@);
        let s = copy_item(&v[i]);
        let ghost sv = s@;
        out.push(s);
        assert(items_view(out@) =~= ov.push(sv));
        assert(items_view(v@.take(i + 1)) =~= items_view(v@.take(i as int)).push(v@[i as int]@));
    }
    assert(v@.take(v@.len() as int) == v@);
    out
}

/// A port held by a branch: it stays the same across creating and removing
/// the branch's environment.
#[derive(Clone, Debug)]
pub struct WorktreeLease {
    pub branch: String,
    pub port: u16,
}

pub struct WorktreeLeaseV {
    pub branch: Seq<char>,
    pub port: u16,
}

impl View for WorktreeLease {
    type V = WorktreeLeaseV;

    open spec fn view(&self) -> WorktreeLeaseV {
        WorktreeLeaseV { branch: self.branch@, port: self.port }
    }
}

pub open spec fn leases_view(v: Seq<WorktreeLease>) -> Seq<WorktreeLeaseV> {
    v.map_values(|l: WorktreeLease| l@)
}

pub fn copy_lease(l: &WorktreeLease) -> (r: WorktreeLease)
    ensures
        r@ == l@,
{
    WorktreeLease { branch: copy_string(&l.branch), port: l.port }
}

pub fn copy_leases(v: &Vec<WorktreeLease>) -> (r: Vec<WorktreeLease>)
    ensures
        leases_view(r@) == leases_view(v@),
{
    let mut out: Vec<WorktreeLease> = Vec::new();
    for i in 0..v.len()
        invariant
            leases_view(out@) == leases_view(v@.take(i as int)),
    {
        let ghost ov = leases_view(out@);
        let s = copy_lease(&v[i]);
        let ghost sv = s@;
        out.push(s);
        assert(leases_view(out@) =~= ov.push(sv));
        assert(leases_view(v@.take(i + 1)) =~= leases_view(v@.take(i as int)).push(v@[i as int]@));
    }
    assert(v@.take(v@.len() as int) == v@);
    out
}

/// The per-task environment policy of a repository (git worktrees).
#[derive(Clone, Debug)]
pub struct WorktreeSettings {
    /// Root directory of the environments; relative to the project's root.
    pub root: Option<String>,
    /// Relative paths copied from the main worktree into a new environment.
    pub copy: Vec<String>,
    /// First port of the range handed out; `None`: no port is injected.
    pub port_base: Option<u16>,
    /// Name of the port variable; `PORT` when unset.
    pub port_key: Option<String>,
    pub leases: Vec<WorktreeLease>,
}

pub struct WorktreeSettingsV {
    pub root: Option<Seq<char>>,
    pub copy: Seq<Seq<char>>,
    pub port_base: Option<u16>,
    pub port_key: Option<Seq<char>>,
    pub leases: Seq<WorktreeLeaseV>,
}

impl View for WorktreeSettings {
    type V = WorktreeSettingsV;

    open spec fn view(&self) -> WorktreeSettingsV {
        WorktreeSettingsV {
            root: opt_str(self.root),
            copy: strs(self.copy@),
            port_base: self.port_base,
            port_key: opt_str(self.port_key),
            leases: leases_view(self.leases@),
        }
    }
}

impl Default for WorktreeSettings {
    fn default() -> (r: Self)
        ensures
            r@.root is None,
            r@.copy.len() == 0,
            r@.port_base is None,
            r@.port_key is None,
            r@.leases.len() == 0,
    {
        WorktreeSettings { root: None, copy: Vec::new(), port_base: None, port_key: None, leases: Vec::new() }
    }
}

/// The port variable's name: the trimmed `port_key` when it is not blank, else `PORT`.
pub open spec fn effective_port_key_spec(s: WorktreeSettingsV) -> Seq<char> {
    match s.port_key {
        Some(k) if trim(k).len() > 0 => trim(k),
        _ => "PORT"@,
    }
}

/// The settings say anything besides leases.
pub open spec fn has_policy(s: WorktreeSettingsV) -> bool {
    s.root is Some || s.copy.len() > 0 || s.port_base is Some || s.port_key is Some
}

pub fn copy_worktree_settings(s: &WorktreeSettings) -> (r: WorktreeSettings)
    ensures
        r@ == s@,
{
    WorktreeSettings {
        root: copy_opt_string(&s.root),
        copy: copy_strings(&s.copy),
        port_base: s.port_base,
        port_key: copy_opt_string(&s.port_key),
        leases: copy_leases(&s.leases),
    }
}

impl WorktreeSettings {
    pub fn effective_port_key(&self) -> (r: String)
        ensures
            r@ == effective_port_key_spec(self@),
    {
        match &self.port_key {
            Some(k) => {
                let t = trimmed(&chars_of(k.as_str()));
                if t.len() > 0 {
                    return string_of(&t);
                }
            },
            None => {},
        }
        owned("PORT")
    }

    /// The policy for a project template: the same settings without leases
    /// (they are this machine's state), or nothing when no policy is set.
    pub fn for_template(&self) -> (r: Option<WorktreeSettings>)
        ensures
            r is Some <==> has_policy(self@),
            r matches Some(t) ==> t@ == (WorktreeSettingsV { leases: Seq::empty(), ..self@ }),
    {
        if self.root.is_some() || self.copy.len() > 0 || self.port_base.is_some() || self.port_key.is_some() {
            let t = WorktreeSettings {
                root: copy_opt_string(&self.root),
                copy: copy_strings(&self.copy),
                port_base: self.port_base,
                port_key: copy_opt_string(&self.port_key),
                leases: Vec::new(),
            };
            assert(t@.leases =~= Seq::<WorktreeLeaseV>::empty());
            Some(t)
        } else {
            None
        }
    }
}

pub open spec fn opt_settings_view(o: Option<WorktreeSettings>) -> Option<WorktreeSettingsV> {
    match o {
        Some(s) => Some(s@),
        None => None,
    }
}

/// A repository with its start items.
#[derive(Clone, Debug)]
pub struct Project {
    pub id: String,
    pub name: String,
    pub root_dir: String,
    pub favorite: bool,
    pub last_launched_at: Option<u64>,
    pub items: Vec<Item>,
    /// `None`: per-task environments are off for this repository.
    pub worktree: Option<WorktreeSettings>,
}

pub struct ProjectV {
    pub id: Seq<char>,
    pub name: Seq<char>,
    pub root_dir: Seq<char>,
    pub favorite: bool,
    pub last_launched_at: Option<u64>,
    pub items: Seq<ItemV>,
    pub worktree: Option<WorktreeSettingsV>,
}

impl View for Project {
    type V = ProjectV;

    open spec fn view(&self) -> ProjectV {
        ProjectV {
            id: self.id@,
            name: self.name@,
            root_dir: self.root_dir@,
            favorite: self.favorite,
            last_launched_at: self.last_launched_at,
            items: items_view(self.items@),
            worktree: opt_settings_view(self.worktree),
        }
    }
}

pub open spec fn projects_view(v: Seq<Project>) -> Seq<ProjectV> {
    v.map_values(|p: Project| p@)
}

pub fn copy_project(p: &Project) -> (r: Project)
    ensures
        r@ == p@,
{
    Project {
        id: copy_string(&p.id),
        name: copy_string(&p.name),
        root_dir: copy_string(&p.root_dir),
        favorite: p.favorite,
        last_launched_at: p.last_launched_at,
        items: copy_items(&p.items),
        worktree: match &p.worktree {
            Some(w) => Some(copy_worktree_settings(w)),
            None => None,
        },
    }
}

#[derive(Clone, Debug)]
pub struct Settings {
    pub autostart: bool,
    pub hotkey: String,
    /// The git executable chosen by the user; `None`: found automatically.
    pub git_path: Option<String>,
    /// Colour theme of the window.
    pub theme: String,
}

pub struct SettingsV {
    pub autostart: bool,
    pub hotkey: Seq<char>,
    pub git_path: Option<Seq<char>>,
    pub theme: Seq<char>,
}

impl View for Settings {
    type V = SettingsV;

    open spec fn view(&self) -> SettingsV {
        SettingsV {
            autostart: self.autostart,
            hotkey: self.hotkey@,
            git_path: opt_str(self.git_path),
            theme: self.theme@,
        }
    }
}

pub open spec fn default_settings() -> SettingsV {
    SettingsV { autostart: false, hotkey: "Ctrl+Alt+D"@, git_path: None, theme: "signal"@ }
}

impl Default for Settings {
    fn default() -> (r: Self)
        ensures
            r@ == default_settings(),
    {
        Settings {
            autostart: false,
            hotkey: owned("Ctrl+Alt+D"),
            git_path: None,
            theme: owned("signal"),
        }
    }
}

/// The names of the colour themes.
pub open spec fn is_theme(s: Seq<char>) -> bool {
    s == "signal"@ || s == "graphite"@ || s == "indigo"@ || s == "amber"@
}

/// A theme name trimmed when it names a theme, else the default theme.
pub fn normalize_theme(name: &str) -> (r: String)
    ensures
        r@ == (if is_theme(trim(name@)) {
            trim(name@)
        } else {
            "signal"@
        }),
{
    let t = trimmed(&chars_of(name));
    if vec_eq(&t, &chars_of("signal")) || vec_eq(&t, &chars_of("graphite")) || vec_eq(
        &t,
        &chars_of("indigo"),
    ) || vec_eq(&t, &chars_of("amber")) {
        string_of(&t)
    } else {
        owned("signal")
    }
}

#[derive(Clone, Debug)]
pub struct AppConfig {
    pub version: u32,
    pub settings: Settings,
    pub projects: Vec<Project>,
}

impl Default for AppConfig {
    fn default() -> (r: Self)
        ensures
            r.version == CONFIG_VERSION,
            r.settings@ == default_settings(),
            r.projects@.len() == 0,
    {
        AppConfig { version: CONFIG_VERSION, settings: Settings::default(), projects: Vec::new() }
    }
}

impl AppConfig {
    /// An empty configuration of the current version with default settings.
    pub fn new() -> (r: Self)
        ensures
            r.version == CONFIG_VERSION,
            r.settings@ == default_settings(),
            r.projects@.len() == 0,
    {
        AppConfig::default()
    }
}

/// What loading the configuration found.
#[derive(Debug)]
pub struct LoadedConfig {
    pub config: AppConfig,
    /// Where the damaged file was moved, when it could not be parsed.
    pub corrupt_backup: Option<String>,
    /// The backup the configuration was recovered from.
    pub restored_from: Option<String>,
    /// The file exists but could not be read: saving is refused for the session.
    pub blocked: Option<String>,
}

/// The start items of a project, as written to the repository's own file.
#[derive(Clone, Debug)]
pub struct ProjectTemplate {
    pub version: u32,
    pub name: String,
    pub items: Vec<Item>,
    /// The environment policy, without leases.
    pub worktree: Option<WorktreeSettings>,
}

impl ProjectTemplate {
    pub fn from_project(p: &Project) -> (r: ProjectTemplate)
        ensures
            r.version == TEMPLATE_VERSION,
            r.name@ == p.name@,
            items_view(r.items@) == items_view(p.items@),
            match p.worktree {
                Some(w) => opt_settings_view(r.worktree) == (if has_policy(w@) {
                    Some(WorktreeSettingsV { leases: Seq::empty(), ..w@ })
                } else {
                    None
                }),
                None => r.worktree is None,
            },
    {
        let worktree = match &p.worktree {
            Some(w) => w.for_template(),
            None => None,
        };
        ProjectTemplate {
            version: TEMPLATE_VERSION,
            name: copy_string(&p.name),
            items: copy_items(&p.items),
            worktree,
        }
    }
}

/// `s` without its trailing separators.
pub open spec fn trim_seps(s: Seq<char>) -> Seq<char>
    decreases s.len(),
{
    if s.len() > 0 && is_sep(s.last()) {
        trim_seps(s.drop_last())
    } else {
        s
    }
}

/// The rolling backup beside the configuration file: its name with `.bak` added.
pub open spec fn backup_path_spec(path: Seq<char>) -> Seq<char> {
    trim_seps(path) + ".bak"@
}

pub fn backup_path_of(path: &str) -> (r: String)
    ensures
        r@ == backup_path_spec(path@),
{
    let s = chars_of(path);
    let mut k: usize = s.len();
    assert(s@.take(k as int) == s@);
    while k > 0 && (s[k - 1] == '\\' || s[k - 1] == '/')
        invariant
            k <= s@.len(),
            trim_seps(s@) == trim_seps(s@.take(k as int)),
        decreases k,
    {
        assert(s@.take(k as int).drop_last() == s@.take(k - 1));
        k = k - 1;
    }
    let mut out: Vec<char> = Vec::new();
    let mut i: usize = 0;
    while i < k
        invariant
            i <= k <= s@.len(),
            out@ == s@.take(i as int),
        decreases k - i,
    {
        out.push(s[i]);
        assert(out@ =~= s@.take(i + 1));
        i = i + 1;
    }
    extend_chars(&mut out, &chars_of(".bak"));
    string_of(&out)
}

} // verus!
