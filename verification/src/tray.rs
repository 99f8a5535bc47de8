//! The tray menu: its labels, the ids of its entries and what a click on
//! an entry asks for.

use vstd::prelude::*;
use crate::text::{chars_of, extend_chars, has_prefix, owned, starts_with, string_of, vec_eq};

verus! {

/// `&` doubled: a single `&` would mark the next letter as the menu accelerator.
pub open spec fn menu_label_spec(s: Seq<char>) -> Seq<char>
    decreases s.len(),
{
    if s.len() == 0 {
        s
    } else if s.last() == '&' {
        menu_label_spec(s.drop_last()) + seq!['&', '&']
    } else {
        menu_label_spec(s.drop_last()).push(s.last())
    }
}

pub fn menu_label(name: &str) -> (r: String)
    ensures
        r@ == menu_label_spec(name@),
{
    let s = chars_of(name);
    let mut out: Vec<char> = Vec::new();
    let n = s.len();
    for i in 0..n
        invariant
            n == s@.len(),
            out@ == menu_label_spec(s@.take(i as int)),
    {
        assert(s@.take(i + 1).drop_last() == s@.take(i as int));
        if s[i] == '&' {
            out.push('&');
            out.push('&');
            assert(out@ =~= menu_label_spec(s@.take(i as int)) + seq!['&', '&']);
        } else {
            out.push(s[i]);
        }
    }
    assert(s@.take(n as int) == s@);
    string_of(&out)
}

/// What a click on a tray entry asks for.
#[derive(Debug, PartialEq, Eq)]
pub enum MenuAction {
    ShowWindow,
    Quit,
    Launch(String),
    OpenDir(String),
    Nothing,
}

pub enum MenuActionV {
    ShowWindow,
    Quit,
    Launch(Seq<char>),
    OpenDir(Seq<char>),
    Nothing,
}

pub open spec fn action_view(a: MenuAction) -> MenuActionV {
    match a {
        MenuAction::ShowWindow => MenuActionV::ShowWindow,
        MenuAction::Quit => MenuActionV::Quit,
        MenuAction::Launch(p) => MenuActionV::Launch(p@),
        MenuAction::OpenDir(p) => MenuActionV::OpenDir(p@),
        MenuAction::Nothing => MenuActionV::Nothing,
    }
}

pub open spec fn launch_prefix() -> Seq<char> {
    seq!['l', 'a', 'u', 'n', 'c', 'h', ':']
}

pub open spec fn open_prefix() -> Seq<char> {
    seq!['o', 'p', 'e', 'n', ':']
}

pub open spec fn show_id() -> Seq<char> {
    seq!['s', 'h', 'o', 'w']
}

pub open spec fn quit_id() -> Seq<char> {
    seq!['q', 'u', 'i', 't']
}

/// The entry that launches the project: `launch:` and its id.
pub fn launch_entry_id(project_id: &str) -> (r: String)
    ensures
        r@ == launch_prefix() + project_id@,
{
    let mut v = chars_of("launch:");
    proof {
        reveal_strlit("launch:");
        assert("launch:"@ =~= launch_prefix());
    }
    assert(v@ == launch_prefix());
    extend_chars(&mut v, &chars_of(project_id));
    string_of(&v)
}

/// The entry that opens the project's directory: `open:` and its id.
pub fn open_entry_id(project_id: &str) -> (r: String)
    ensures
        r@ == open_prefix() + project_id@,
{
    let mut v = chars_of("open:");
    proof {
        reveal_strlit("open:");
        assert("open:"@ =~= open_prefix());
    }
    assert(v@ == open_prefix());
    extend_chars(&mut v, &chars_of(project_id));
    string_of(&v)
}

pub open spec fn menu_action_spec(id: Seq<char>) -> MenuActionV {
    if id == show_id() {
        MenuActionV::ShowWindow
    } else if id == quit_id() {
        MenuActionV::Quit
    } else if starts_with(id, launch_prefix()) {
        MenuActionV::Launch(id.skip(7))
    } else if starts_with(id, open_prefix()) {
        MenuActionV::OpenDir(id.skip(5))
    } else {
        MenuActionV::Nothing
    }
}

/// What the entry with id `id` asks for.
pub fn menu_action(id: &str) -> (r: MenuAction)
    ensures
        action_view(r) == menu_action_spec(id@),
{
    let v = chars_of(id);
    proof {
        reveal_strlit("show");
        reveal_strlit("quit");
        reveal_strlit("launch:");
        reveal_strlit("open:");
        assert("show"@ =~= show_id());
        assert("quit"@ =~= quit_id());
        assert("launch:"@ =~= launch_prefix());
        assert("open:"@ =~= open_prefix());
    }
    if vec_eq(&v, &chars_of("show")) {
        return MenuAction::ShowWindow;
    }
    if vec_eq(&v, &chars_of("quit")) {
        return MenuAction::Quit;
    }
    if has_prefix(&v, &chars_of("launch:")) {
        let rest = crate::text::slice_vec(&v, 7, v.len());
        return MenuAction::Launch(string_of(&rest));
    }
    if has_prefix(&v, &chars_of("open:")) {
        let rest = crate::text::slice_vec(&v, 5, v.len());
        return MenuAction::OpenDir(string_of(&rest));
    }
    MenuAction::Nothing
}

/// The entries the menu lists for a project ask for exactly that project.
pub proof fn lemma_entry_ids_round_trip(project_id: Seq<char>)
    ensures
        menu_action_spec(launch_prefix() + project_id) == MenuActionV::Launch(project_id),
        menu_action_spec(open_prefix() + project_id) == MenuActionV::OpenDir(project_id),
{
    let l = launch_prefix() + project_id;
    let o = open_prefix() + project_id;
    assert(l.take(7) =~= launch_prefix());
    assert(l.skip(7) =~= project_id);
    assert(l[0] == 'l');
    assert(l != show_id());
    assert(l != quit_id());
    assert(o.take(5) =~= open_prefix());
    assert(o.skip(5) =~= project_id);
    assert(o[0] == 'o');
    assert(o != show_id());
    assert(o != quit_id());
    if starts_with(o, launch_prefix()) {
        assert(o.take(7)[0] == 'l');
    }
}

} // verus!
