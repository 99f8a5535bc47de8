//! Telling configuration and template files apart, and their formats, from
//! the shape of their JSON: which version they declare and which keys they hold.

use vstd::prelude::*;
use crate::config::{normalize_theme, AppConfig, ProjectTemplate, CONFIG_VERSION, MODERN_VERSION, TEMPLATE_VERSION};
use crate::ids::{normalize_ids, normalize_item_ids};
use crate::text::{chars_of, decimal, decimal_string, extend_chars, owned, string_of, vec_eq};

verus! {

/// A JSON value, as far as the format checks read it.
#[derive(Debug)]
pub enum Json {
    Null,
    Bool(bool),
    /// A number, with its value when it is an unsigned integer.
    Number(Option<u64>),
    Str(String),
    Array(Vec<Json>),
    Object(Vec<(String, Json)>),
}

/// Whether a key named `items` occurs anywhere in the value.
pub open spec fn has_items(v: Json) -> bool
    decreases v, 1int,
{
    match v {
        Json::Array(a) => any_has_items(a@),
        Json::Object(m) => any_entry_has_items(m@),
        _ => false,
    }
}

pub open spec fn any_has_items(a: Seq<Json>) -> bool
    decreases a, 0int,
{
    if a.len() == 0 {
        false
    } else {
        has_items(a[0]) || any_has_items(a.subrange(1, a.len() as int))
    }
}

pub open spec fn any_entry_has_items(m: Seq<(String, Json)>) -> bool
    decreases m, 0int,
{
    if m.len() == 0 {
        false
    } else {
        m[0].0@ == "items"@ || has_items(m[0].1) || any_entry_has_items(m.subrange(1, m.len() as int))
    }
}

/// Whether a key named `items` occurs anywhere in the value.
pub fn has_items_key(v: &Json) -> (r: bool)
    ensures
        r == has_items(*v),
    decreases v,
{
    match v {
        Json::Array(a) => {
            assert(*v == Json::Array(*a));
            let n = a.len();
            assert(a@.subrange(0, n as int) == a@);
            for i in 0..n
                invariant
                    n == a@.len(),
                    *v == Json::Array(*a),
                    any_has_items(a@) == any_has_items(a@.subrange(i as int, n as int)),
            {
                let ghost sub = a@.subrange(i as int, n as int);
                assert(sub[0] == a@[i as int]);
                assert(sub.subrange(1, sub.len() as int) == a@.subrange(i + 1, n as int));
                proof {
                    let ghost w = *v;
                    assert(decreases_to!(w => w->Array_0));
                    assert(decreases_to!(w->Array_0 => w->Array_0@));
                    assert(decreases_to!(w->Array_0@ => w->Array_0@[i as int]));
                    assert(decreases_to!(w => w->Array_0@[i as int]));
                }
                if has_items_key(&a[i]) {
                    assert(any_has_items(sub));
                    return true;
                }
            }
            false
        },
        Json::Object(m) => {
            assert(*v == Json::Object(*m));
            let n = m.len();
            assert(m@.subrange(0, n as int) == m@);
            let key = chars_of("items");
            for i in 0..n
                invariant
                    n == m@.len(),
                    *v == Json::Object(*m),
                    key@ == "items"@,
                    any_entry_has_items(m@) == any_entry_has_items(m@.subrange(i as int, n as int)),
            {
                let ghost sub = m@.subrange(i as int, n as int);
                assert(sub[0] == m@[i as int]);
                assert(sub.subrange(1, sub.len() as int) == m@.subrange(i + 1, n as int));
                if vec_eq(&chars_of(m[i].0.as_str()), &key) {
                    assert(any_entry_has_items(sub));
                    return true;
                }
                proof {
                    let ghost w = *v;
                    assert(decreases_to!(w => w->Object_0));
                    assert(decreases_to!(w->Object_0 => w->Object_0@));
                    assert(decreases_to!(w->Object_0@ => w->Object_0@[i as int]));
                    assert(decreases_to!(w->Object_0@[i as int] => w->Object_0@[i as int].1));
                    assert(decreases_to!(w => w->Object_0@[i as int].1));
                }
                if has_items_key(&m[i].1) {
                    assert(any_entry_has_items(sub));
                    return true;
                }
            }
            false
        },
        _ => false,
    }
}

/// The value of the first entry named `key`.
pub open spec fn member_in(m: Seq<(String, Json)>, key: Seq<char>) -> Option<Json>
    decreases m.len(),
{
    if m.len() == 0 {
        None
    } else if m[0].0@ == key {
        Some(m[0].1)
    } else {
        member_in(m.drop_first(), key)
    }
}

/// The value of the member named `key` of an object.
pub open spec fn member(v: Json, key: Seq<char>) -> Option<Json> {
    match v {
        Json::Object(m) => member_in(m@, key),
        _ => None,
    }
}

pub open spec fn has_key_spec(v: Json, key: Seq<char>) -> bool {
    member(v, key) is Some
}

/// The declared `version`, when it is an unsigned integer.
pub open spec fn version_of(v: Json) -> Option<u64> {
    match member(v, "version"@) {
        Some(Json::Number(Some(n))) => Some(n),
        _ => None,
    }
}

fn find_member<'a>(v: &'a Json, key: &str) -> (r: Option<&'a Json>)
    ensures
        match r {
            Some(x) => member(*v, key@) == Some(*x),
            None => member(*v, key@) is None,
        },
{
    match v {
        Json::Object(m) => {
            assert(*v == Json::Object(*m));
            let k = chars_of(key);
            let n = m.len();
            assert(m@.subrange(0, n as int) == m@);
            for i in 0..n
                invariant
                    n == m@.len(),
                    *v == Json::Object(*m),
                    k@ == key@,
                    member_in(m@, key@) == member_in(m@.subrange(i as int, n as int), key@),
            {
                let ghost sub = m@.subrange(i as int, n as int);
                assert(sub[0] == m@[i as int]);
                assert(sub.drop_first() == m@.subrange(i + 1, n as int));
                if vec_eq(&chars_of(m[i].0.as_str()), &k) {
                    return Some(&m[i].1);
                }
            }
            None
        },
        _ => None,
    }
}

pub fn has_key(v: &Json, key: &str) -> (r: bool)
    ensures
        r == has_key_spec(*v, key@),
{
    find_member(v, key).is_some()
}

pub fn declared_version(v: &Json) -> (r: Option<u64>)
    ensures
        r == version_of(*v),
{
    match find_member(v, "version") {
        Some(Json::Number(Some(n))) => Some(*n),
        _ => None,
    }
}

pub open spec fn too_new_msg(v: u64, max: u32) -> Seq<char> {
    "文件版本 v"@ + decimal(v as nat) + " 高于当前 DevLaunch 支持的 v"@ + decimal(max as nat) + "，请升级应用后再导入"@
}

/// A file declaring a version above `max` is refused.
pub fn reject_too_new(v: &Json, max_version: u32) -> (r: Result<(), String>)
    ensures
        match version_of(*v) {
            Some(n) if n > max_version => r matches Err(e) && e@ == too_new_msg(n, max_version),
            _ => r is Ok,
        },
{
    match declared_version(v) {
        Some(n) => {
            if n > max_version as u64 {
                let mut m = chars_of("文件版本 v");
                extend_chars(&mut m, &chars_of(decimal_string(n).as_str()));
                extend_chars(&mut m, &chars_of(" 高于当前 DevLaunch 支持的 v"));
                extend_chars(&mut m, &chars_of(decimal_string(max_version as u64).as_str()));
                extend_chars(&mut m, &chars_of("，请升级应用后再导入"));
                return Err(string_of(&m));
            }
            Ok(())
        },
        None => Ok(()),
    }
}

/// The modern format (items): a declared version of at least
/// `MODERN_VERSION`, or, with none declared, an `items` key anywhere.
pub open spec fn is_modern(v: Json) -> bool {
    match version_of(v) {
        Some(n) => n >= MODERN_VERSION,
        None => has_items(v),
    }
}

pub fn probe_modern(v: &Json) -> (r: bool)
    ensures
        r == is_modern(*v),
{
    match declared_version(v) {
        Some(n) => n >= MODERN_VERSION as u64,
        None => has_items_key(v),
    }
}

pub open spec fn not_config_msg() -> Seq<char> {
    "这不是 DevLaunch 配置备份（缺少 projects 字段）；请选择通过「设置 → 导出」生成的配置文件"@
}

pub open spec fn not_template_msg() -> Seq<char> {
    "这不是项目配置文件（需要 items 或 groups 字段）；请选择「导出到项目根」生成的文件"@
}

/// How a configuration file is read: `Ok(true)` in the modern format,
/// `Ok(false)` as a legacy one; refused when too new or without `projects`.
pub open spec fn config_format_spec(v: Json) -> Result<bool, Seq<char>> {
    match version_of(v) {
        Some(n) if n > CONFIG_VERSION => Err(too_new_msg(n, CONFIG_VERSION)),
        _ => if !has_key_spec(v, "projects"@) {
            Err(not_config_msg())
        } else {
            Ok(is_modern(v))
        },
    }
}

pub open spec fn fmt_view(r: Result<bool, String>) -> Result<bool, Seq<char>> {
    match r {
        Ok(b) => Ok(b),
        Err(e) => Err(e@),
    }
}

pub fn config_format(v: &Json) -> (r: Result<bool, String>)
    ensures
        fmt_view(r) == config_format_spec(*v),
{
    reject_too_new(v, CONFIG_VERSION)?;
    if !has_key(v, "projects") {
        return Err(owned("这不是 DevLaunch 配置备份（缺少 projects 字段）；请选择通过「设置 → 导出」生成的配置文件"));
    }
    Ok(probe_modern(v))
}

/// How a project file is read: refused when too new, when it is a whole
/// configuration (`projects`), or when it has neither `items` nor `groups`.
pub open spec fn template_format_spec(v: Json) -> Result<bool, Seq<char>> {
    match version_of(v) {
        Some(n) if n > TEMPLATE_VERSION => Err(too_new_msg(n, TEMPLATE_VERSION)),
        _ => if has_key_spec(v, "projects"@) || !(has_key_spec(v, "items"@) || has_key_spec(v, "groups"@)) {
            Err(not_template_msg())
        } else {
            Ok(is_modern(v))
        },
    }
}

pub fn template_format(v: &Json) -> (r: Result<bool, String>)
    ensures
        fmt_view(r) == template_format_spec(*v),
{
    reject_too_new(v, TEMPLATE_VERSION)?;
    if has_key(v, "projects") || !(has_key(v, "items") || has_key(v, "groups")) {
        return Err(owned("这不是项目配置文件（需要 items 或 groups 字段）；请选择「导出到项目根」生成的文件"));
    }
    Ok(probe_modern(v))
}

/// The last steps of reading a configuration: a modern file of an older
/// version counts as the current version; ids are normalized; an unknown
/// theme falls back to the default.
pub fn finish_config(cfg: AppConfig, modern: bool) -> (r: AppConfig)
    ensures
        r.version == (if modern && cfg.version < CONFIG_VERSION {
            CONFIG_VERSION
        } else {
            cfg.version
        }),
        crate::ids::normalized(
            crate::ids::project_ids(crate::config::projects_view(cfg.projects@)),
            crate::ids::project_ids(crate::config::projects_view(r.projects@)),
        ),
        r.settings@ == (crate::config::SettingsV {
            theme: if crate::config::is_theme(crate::text::trim(cfg.settings@.theme)) {
                crate::text::trim(cfg.settings@.theme)
            } else {
                "signal"@
            },
            ..cfg.settings@
        }),
{
    let mut c = cfg;
    if modern && c.version < CONFIG_VERSION {
        c.version = CONFIG_VERSION;
    }
    normalize_ids(&mut c);
    c.settings.theme = normalize_theme(c.settings.theme.as_str());
    c
}

/// The last steps of reading a project file: a modern file of an older
/// version counts as the current version; item ids are normalized.
pub fn finish_template(tpl: ProjectTemplate, modern: bool) -> (r: ProjectTemplate)
    ensures
        r.version == (if modern && tpl.version < TEMPLATE_VERSION {
            TEMPLATE_VERSION
        } else {
            tpl.version
        }),
        r.name@ == tpl.name@,
        crate::ids::normalized(
            crate::ids::item_ids(crate::config::items_view(tpl.items@)),
            crate::ids::item_ids(crate::config::items_view(r.items@)),
        ),
        crate::config::opt_settings_view(r.worktree) == crate::config::opt_settings_view(tpl.worktree),
{
    let mut t = tpl;
    if modern && t.version < TEMPLATE_VERSION {
        t.version = TEMPLATE_VERSION;
    }
    normalize_item_ids(&mut t.items);
    t
}

} // verus!
