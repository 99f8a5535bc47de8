//! Loading the configuration file without ever losing the user's data: a file
//! that cannot be read blocks saving; a damaged one is set aside and the
//! newest readable backup is used instead.

use vstd::prelude::*;
use crate::config::{opt_str, AppConfig, LoadedConfig, SettingsV, default_settings, CONFIG_VERSION};
use crate::text::{chars_of, ends_with, has_prefix, has_suffix, starts_with, vec_eq};

verus! {

/// What reading the configuration file gave: three cases that must never be
/// confused (a failed read is not an absent file).
#[derive(Debug)]
pub enum ReadOutcome {
    Absent,
    Failed(String),
    Text(String),
}

pub enum ReadV {
    Absent,
    Failed(Seq<char>),
    Text(Seq<char>),
}

pub open spec fn read_view(r: ReadOutcome) -> ReadV {
    match r {
        ReadOutcome::Absent => ReadV::Absent,
        ReadOutcome::Failed(e) => ReadV::Failed(e@),
        ReadOutcome::Text(t) => ReadV::Text(t@),
    }
}

/// The fresh configuration: current version, default settings, no projects.
pub open spec fn is_fresh(c: AppConfig) -> bool {
    c.version == CONFIG_VERSION && c.settings@ == default_settings() && c.projects@.len() == 0
}

/// What loading gives for the answers it got: the file's configuration; a
/// fresh one when there is no file; a fresh one with saving blocked when the
/// file could not be read; for a damaged file, the newest readable backup
/// (or a fresh one), with where the damaged file was moved.
pub open spec fn loaded_spec(
    read: ReadV,
    parsed: Option<Result<AppConfig, Seq<char>>>,
    backup: Option<Seq<char>>,
    restored: Option<(AppConfig, Seq<char>)>,
    r: LoadedConfig,
) -> bool {
    match read {
        ReadV::Absent => is_fresh(r.config) && r.corrupt_backup is None && r.restored_from is None && r.blocked is None,
        ReadV::Failed(e) => is_fresh(r.config) && r.corrupt_backup is None && r.restored_from is None && opt_str(r.blocked)
            == Some(e),
        ReadV::Text(_) => match parsed {
            Some(Ok(c)) => r.config == c && r.corrupt_backup is None && r.restored_from is None && r.blocked is None,
            _ => opt_str(r.corrupt_backup) == backup && r.blocked is None && match restored {
                Some((c, from)) => r.config == c && opt_str(r.restored_from) == Some(from),
                None => is_fresh(r.config) && r.restored_from is None,
            },
        },
    }
}

pub open spec fn parse_view(o: Result<AppConfig, String>) -> Result<AppConfig, Seq<char>> {
    match o {
        Ok(c) => Ok(c),
        Err(e) => Err(e@),
    }
}

pub open spec fn restored_view(o: Option<(AppConfig, String)>) -> Option<(AppConfig, Seq<char>)> {
    match o {
        Some((c, p)) => Some((c, p@)),
        None => None,
    }
}

/// Loads the configuration. `read` reads the file; `parse` parses its text;
/// `set_aside` moves a damaged file away and says where; `newest_backup`
/// finds the newest backup that reads and parses.
pub fn load_diagnostic<
    R: Fn() -> ReadOutcome,
    P: Fn(String) -> Result<AppConfig, String>,
    B: Fn() -> Option<String>,
    N: Fn() -> Option<(AppConfig, String)>,
>(read: &R, parse: &P, set_aside: &B, newest_backup: &N) -> (r: LoadedConfig)
    requires
        read.requires(()),
        forall|t: String| parse.requires((t,)),
        set_aside.requires(()),
        newest_backup.requires(()),
    ensures
        exists|rd: ReadOutcome, parsed: Option<Result<AppConfig, Seq<char>>>, bk: Option<String>, rs: Option<(AppConfig, String)>|
            #![trigger read.ensures((), rd), loaded_spec(read_view(rd), parsed, opt_str(bk), restored_view(rs), r)]
            read.ensures((), rd) && (match rd {
                ReadOutcome::Text(t) => exists|x: String, o: Result<AppConfig, String>|
                    #[trigger] parse.ensures((x,), o) && x@ == t@ && parsed == Some(parse_view(o)) && (o is Ok || (
                    set_aside.ensures((), bk) && newest_backup.ensures((), rs))),
                _ => true,
            }) && loaded_spec(read_view(rd), parsed, opt_str(bk), restored_view(rs), r),
{
    let rd = read();
    let ghost rdv = read_view(rd);
    assert(read.ensures((), rd));
    match rd {
        ReadOutcome::Absent => {
            let r = LoadedConfig { config: AppConfig::new(), corrupt_backup: None, restored_from: None, blocked: None };
            assert(loaded_spec(rdv, None, None, None, r));
            r
        },
        ReadOutcome::Failed(e) => {
            let ghost ev = e@;
            let r = LoadedConfig { config: AppConfig::new(), corrupt_backup: None, restored_from: None, blocked: Some(e) };
            assert(loaded_spec(rdv, None, None, None, r));
            r
        },
        ReadOutcome::Text(text) => {
            let ghost tv = text;
            let o = parse(text);
            assert(parse.ensures((tv,), o));
            let ghost ov = parse_view(o);
            match o {
                Ok(config) => {
                    let r = LoadedConfig { config, corrupt_backup: None, restored_from: None, blocked: None };
                    assert(loaded_spec(rdv, Some(ov), None, None, r));
                    r
                },
                Err(_) => {
                    let bk = set_aside();
                    assert(set_aside.ensures((), bk));
                    let ghost bkv = opt_str(bk);
                    let rs = newest_backup();
                    assert(newest_backup.ensures((), rs));
                    let ghost rsv = restored_view(rs);
                    let r = match rs {
                        Some((config, from)) => LoadedConfig {
                            config,
                            restored_from: Some(from),
                            corrupt_backup: bk,
                            blocked: None,
                        },
                        None => LoadedConfig {
                            config: AppConfig::new(),
                            corrupt_backup: bk,
                            restored_from: None,
                            blocked: None,
                        },
                    };
                    assert(loaded_spec(rdv, Some(ov), bkv, rsv, r));
                    r
                },
            }
        },
    }
}

/// A backup of the configuration file `name`: a file named `name` followed by
/// something, and not a temporary file.
pub open spec fn is_backup_name(name: Seq<char>, file: Seq<char>) -> bool {
    file != name && starts_with(file, name) && !ends_with(file, ".tmp"@)
}

pub fn backup_name(name: &str, file: &str) -> (r: bool)
    ensures
        r == is_backup_name(name@, file@),
{
    let n = chars_of(name);
    let f = chars_of(file);
    !vec_eq(&f, &n) && has_prefix(&f, &n) && !has_suffix(&f, &chars_of(".tmp"))
}

/// The index of the newest candidate: the greatest time, and among equal
/// times the last one (a stable sort by time, then the last element).
pub open spec fn newest_index(times: Seq<u128>) -> Option<int>
    decreases times.len(),
{
    if times.len() == 0 {
        None
    } else {
        match newest_index(times.drop_last()) {
            None => Some(times.len() - 1),
            Some(k) => if times[k] <= times.last() {
                Some(times.len() - 1)
            } else {
                Some(k)
            },
        }
    }
}

/// Picks the newest of the candidates by modification time.
pub fn pick_newest(times: &Vec<u128>) -> (r: Option<usize>)
    ensures
        match r {
            Some(k) => newest_index(times@) == Some(k as int),
            None => newest_index(times@) is None,
        },
{
    let mut best: Option<usize> = None;
    for i in 0..times.len()
        invariant
            match best {
                Some(k) => newest_index(times@.take(i as int)) == Some(k as int) && k < i,
                None => newest_index(times@.take(i as int)) is None,
            },
    {
        assert(times@.take(i + 1).drop_last() == times@.take(i as int));
        assert(times@.take(i + 1).last() == times@[i as int]);
        match best {
            None => {
                best = Some(i);
            },
            Some(k) => {
                assert(times@.take(i as int)[k as int] == times@[k as int]);
                if times[k] <= times[i] {
                    best = Some(i);
                }
            },
        }
    }
    assert(times@.take(times@.len() as int) == times@);
    best
}

} // verus!
