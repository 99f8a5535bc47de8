//! Stable identifiers: every project and start item gets a non-blank id of
//! its own; blank and repeated ids are replaced by fresh random ones.

use vstd::prelude::*;
use crate::config::{copy_item, copy_project, items_view, projects_view, AppConfig, Item, ItemV, Project, ProjectV};
use crate::text::{blank, chars_of, is_blank, is_ws, trim, vec_eq};

verus! {

pub open spec fn is_lower_hex(c: char) -> bool {
    ('0' <= c && c <= '9') || ('a' <= c && c <= 'f')
}

/// The hyphenated form of a UUID: 36 characters, lower-case hex digits in
/// groups of 8, 4, 4, 4 and 12 separated by `-`.
pub open spec fn uuid_form(s: Seq<char>) -> bool {
    &&& s.len() == 36
    &&& forall|i: int|
        0 <= i < 36 ==> if i == 8 || i == 13 || i == 18 || i == 23 {
            #[trigger] s[i] == '-'
        } else {
            is_lower_hex(s[i])
        }
}

/// `uuid::Uuid::new_v4()` written with `to_string()`: a random UUID. Only
/// its form is stated (the `Display` of `Uuid` is the lower-case hyphenated
/// form); which value comes out is chance.
#[verifier::external_body]
fn new_id() -> (r: String)
    ensures
        uuid_form(r@),
{
    uuid::Uuid::new_v4().to_string()
}

/// A fresh id is never blank.
pub proof fn lemma_uuid_not_blank(s: Seq<char>)
    requires
        uuid_form(s),
    ensures
        !is_blank(s),
{
    assert(is_lower_hex(s[0]));
    assert(!is_ws(s[0]));
    crate::text::lemma_trim_keeps_non_ws(s, 0);
}

/// An id is kept when it is not blank and no earlier entry has it.
pub open spec fn keeps_id(earlier: Seq<Seq<char>>, id: Seq<char>) -> bool {
    !is_blank(id) && !earlier.contains(id)
}

/// `out` is `ids` with every blank or repeated id replaced by a fresh one.
pub open spec fn normalized(ids: Seq<Seq<char>>, out: Seq<Seq<char>>) -> bool {
    &&& out.len() == ids.len()
    &&& forall|i: int|
        0 <= i < ids.len() ==> if keeps_id(out.take(i), ids[i]) {
            #[trigger] out[i] == ids[i]
        } else {
            uuid_form(out[i])
        }
}

pub open spec fn item_ids(v: Seq<ItemV>) -> Seq<Seq<char>> {
    v.map_values(|i: ItemV| i.id)
}

pub open spec fn project_ids(v: Seq<ProjectV>) -> Seq<Seq<char>> {
    v.map_values(|p: ProjectV| p.id)
}

fn seen_before(ids: &Vec<Vec<char>>, id: &Vec<char>) -> (r: bool)
    ensures
        r == ids@.map_values(|x: Vec<char>| x@).contains(id@),
{
    let ghost v = ids@.map_values(|x: Vec<char>| x@);
    for i in 0..ids.len()
        invariant
            v == ids@.map_values(|x: Vec<char>| x@),
            forall|k: int| 0 <= k < i ==> v[k] != id@,
    {
        if vec_eq(&ids[i], id) {
            assert(v[i as int] == id@);
            return true;
        }
    }
    false
}

/// Gives each item a usable id: blank or repeated ids become fresh UUIDs;
/// nothing else changes.
pub fn normalize_item_ids(items: &mut Vec<Item>)
    ensures
        normalized(item_ids(items_view(old(items)@)), item_ids(items_view(final(items)@))),
        final(items)@.len() == old(items)@.len(),
        forall|i: int|
            0 <= i < old(items)@.len() ==> (ItemV { id: old(items)@[i]@.id, ..#[trigger] final(items)@[i]@ }) == old(items)@[i]@,
{
    let ghost before = items_view(items@);
    let ghost ids = item_ids(before);
    let mut out: Vec<Item> = Vec::new();
    let mut seen: Vec<Vec<char>> = Vec::new();
    let n = items.len();
    for i in 0..n
        invariant
            n == items@.len(),
            before == items_view(items@),
            ids == item_ids(before),
            out@.len() == i,
            seen@.map_values(|x: Vec<char>| x@) == item_ids(items_view(out@)),
            forall|k: int|
                0 <= k < i ==> if keeps_id(item_ids(items_view(out@)).take(k), ids[k]) {
                    #[trigger] item_ids(items_view(out@))[k] == ids[k]
                } else {
                    uuid_form(item_ids(items_view(out@))[k])
                },
            forall|k: int| 0 <= k < i ==> (ItemV { id: before[k].id, ..#[trigger] out@[k]@ }) == before[k],
    {
        let mut it = copy_item(&items[i]);
        let idc = chars_of(it.id.as_str());
        let ghost prev = item_ids(items_view(out@));
        assert(ids[i as int] == idc@);
        if blank(&idc) || seen_before(&seen, &idc) {
            it.id = new_id();
        }
        let ghost nid = it.id@;
        let ghost iv = it@;
        seen.push(chars_of(it.id.as_str()));
        out.push(it);
        assert(items_view(out@) =~= items_view(out@.drop_last()).push(iv));
        assert(item_ids(items_view(out@)) =~= prev.push(nid));
        assert(seen@.map_values(|x: Vec<char>| x@) =~= prev.push(nid));
        assert forall|k: int|
            0 <= k < i + 1 implies if keeps_id(item_ids(items_view(out@)).take(k), ids[k]) {
            #[trigger] item_ids(items_view(out@))[k] == ids[k]
        } else {
            uuid_form(item_ids(items_view(out@))[k])
        } by {
            assert(item_ids(items_view(out@)).take(k) == prev.take(k) || k == i);
            if k < i {
                assert(item_ids(items_view(out@)).take(k) =~= prev.take(k));
                assert(item_ids(items_view(out@))[k] == prev[k]);
            } else {
                assert(item_ids(items_view(out@)).take(k) =~= prev);
            }
        }
    }
    *items = out;
}

/// Gives each project, and each start item within it, a usable id.
pub fn normalize_ids(cfg: &mut AppConfig)
    ensures
        normalized(project_ids(projects_view(old(cfg).projects@)), project_ids(projects_view(final(cfg).projects@))),
        final(cfg).projects@.len() == old(cfg).projects@.len(),
        forall|i: int|
            0 <= i < old(cfg).projects@.len() ==> {
                let a = old(cfg).projects@[i]@;
                let b = #[trigger] final(cfg).projects@[i]@;
                &&& normalized(item_ids(a.items), item_ids(b.items))
                &&& b.items.len() == a.items.len()
                &&& forall|j: int|
                    0 <= j < a.items.len() ==> (ItemV { id: a.items[j].id, ..#[trigger] b.items[j] }) == a.items[j]
                &&& (ProjectV { id: a.id, items: a.items, ..b }) == a
            },
        final(cfg).version == old(cfg).version,
        final(cfg).settings@ == old(cfg).settings@,
{
    let ghost before = projects_view(cfg.projects@);
    let ghost ids = project_ids(before);
    let mut out: Vec<Project> = Vec::new();
    let mut seen: Vec<Vec<char>> = Vec::new();
    let n = cfg.projects.len();
    for i in 0..n
        invariant
            n == cfg.projects@.len(),
            before == projects_view(cfg.projects@),
            ids == project_ids(before),
            out@.len() == i,
            seen@.map_values(|x: Vec<char>| x@) == project_ids(projects_view(out@)),
            forall|k: int|
                0 <= k < i ==> if keeps_id(project_ids(projects_view(out@)).take(k), ids[k]) {
                    #[trigger] project_ids(projects_view(out@))[k] == ids[k]
                } else {
                    uuid_form(project_ids(projects_view(out@))[k])
                },
            forall|k: int|
                0 <= k < i ==> {
                    let a = before[k];
                    let b = #[trigger] out@[k]@;
                    &&& normalized(item_ids(a.items), item_ids(b.items))
                    &&& b.items.len() == a.items.len()
                    &&& forall|j: int|
                        0 <= j < a.items.len() ==> (ItemV { id: a.items[j].id, ..#[trigger] b.items[j] }) == a.items[j]
                    &&& (ProjectV { id: a.id, items: a.items, ..b }) == a
                },
    {
        let mut p = copy_project(&cfg.projects[i]);
        let idc = chars_of(p.id.as_str());
        let ghost prev = project_ids(projects_view(out@));
        assert(ids[i as int] == idc@);
        if blank(&idc) || seen_before(&seen, &idc) {
            p.id = new_id();
        }
        normalize_item_ids(&mut p.items);
        let ghost nid = p.id@;
        let ghost pv = p@;
        seen.push(chars_of(p.id.as_str()));
        out.push(p);
        assert(projects_view(out@) =~= projects_view(out@.drop_last()).push(pv));
        assert(project_ids(projects_view(out@)) =~= prev.push(nid));
        assert(seen@.map_values(|x: Vec<char>| x@) =~= prev.push(nid));
        assert forall|k: int|
            0 <= k < i + 1 implies if keeps_id(project_ids(projects_view(out@)).take(k), ids[k]) {
            #[trigger] project_ids(projects_view(out@))[k] == ids[k]
        } else {
            uuid_form(project_ids(projects_view(out@))[k])
        } by {
            if k < i {
                assert(project_ids(projects_view(out@)).take(k) =~= prev.take(k));
                assert(project_ids(projects_view(out@))[k] == prev[k]);
            } else {
                assert(project_ids(projects_view(out@)).take(k) =~= prev);
            }
        }
    }
    cfg.projects = out;
}

/// After normalizing, no id is blank.
pub proof fn lemma_normalized_not_blank(ids: Seq<Seq<char>>, out: Seq<Seq<char>>)
    requires
        normalized(ids, out),
    ensures
        forall|i: int| 0 <= i < out.len() ==> !is_blank(#[trigger] out[i]),
{
    assert forall|i: int| 0 <= i < out.len() implies !is_blank(#[trigger] out[i]) by {
        if !keeps_id(out.take(i), ids[i]) {
            lemma_uuid_not_blank(out[i]);
        }
    }
}

/// An id that survives normalizing differs from every id before it.
pub proof fn lemma_kept_ids_distinct(ids: Seq<Seq<char>>, out: Seq<Seq<char>>, i: int, j: int)
    requires
        normalized(ids, out),
        0 <= i < j < out.len(),
        keeps_id(out.take(j), ids[j]),
    ensures
        out[i] != out[j],
{
    assert(out.take(j)[i] == out[i]);
}

/// Ids that are all non-blank and distinct are left as they are.
pub proof fn lemma_normalize_keeps_valid_ids(ids: Seq<Seq<char>>, out: Seq<Seq<char>>)
    requires
        normalized(ids, out),
        forall|i: int| 0 <= i < ids.len() ==> !is_blank(#[trigger] ids[i]),
        forall|i: int, j: int| 0 <= i < j < ids.len() ==> ids[i] != ids[j],
    ensures
        out == ids,
{
    assert forall|k: int| 0 <= k <= ids.len() implies #[trigger] out.take(k) == ids.take(k) by {
        lemma_prefix_kept(ids, out, k);
    }
    assert(out.take(ids.len() as int) == out);
    assert(ids.take(ids.len() as int) == ids);
}

proof fn lemma_prefix_kept(ids: Seq<Seq<char>>, out: Seq<Seq<char>>, k: int)
    requires
        normalized(ids, out),
        forall|i: int| 0 <= i < ids.len() ==> !is_blank(#[trigger] ids[i]),
        forall|i: int, j: int| 0 <= i < j < ids.len() ==> ids[i] != ids[j],
        0 <= k <= ids.len(),
    ensures
        out.take(k) == ids.take(k),
    decreases k,
{
    if k > 0 {
        lemma_prefix_kept(ids, out, k - 1);
        let j = k - 1;
        assert(!out.take(j).contains(ids[j])) by {
            if out.take(j).contains(ids[j]) {
                let m = choose|m: int| 0 <= m < out.take(j).len() && out.take(j)[m] == ids[j];
                assert(ids.take(j)[m] == ids[m]);
            }
        }
        assert(keeps_id(out.take(j), ids[j]));
        assert(out.take(k) =~= out.take(j).push(out[j]));
        assert(ids.take(k) =~= ids.take(j).push(ids[j]));
    }
}

} // verus!
