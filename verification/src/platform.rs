//! Terminal command lines: one Windows Terminal window with a pane per start
//! item, or one console window per item when Windows Terminal is missing.

use vstd::prelude::*;
use crate::config::Shell;
use crate::image::{base64_encode, base64_standard};
use crate::text::{
    chars_of, extend_chars, is_blank, lines, lines_of, owned, replace_char, string_of, trimmed_pieces,
    trimmed_pieces_exec, blank, copy_chars, cat,
};

verus! {

#[derive(Debug)]
pub struct PaneSpec {
    pub title: String,
    pub work_dir: String,
    pub shell: Shell,
    pub command: String,
    /// Environment variables injected into the pane.
    pub env: Vec<(String, String)>,
}

#[derive(Debug, PartialEq, Eq, Structural, Clone, Copy)]
pub enum LaunchMode {
    WindowsTerminal,
    Fallback,
}

#[derive(Debug)]
pub struct FallbackLaunch {
    pub program: String,
    pub args: String,
    pub work_dir: String,
}

#[derive(Debug)]
pub enum SpawnPlan {
    Wt { program: String, args: String },
    Fallback { launches: Vec<FallbackLaunch> },
}

/// Longest command line Windows accepts, in UTF-16 code units.
pub const MAX_COMMANDLINE_UTF16: usize = 30000;

/// `text` with `^` before each cmd metacharacter, so `echo` prints it literally.
pub open spec fn escape_echo(s: Seq<char>) -> Seq<char>
    decreases s.len(),
{
    if s.len() == 0 {
        s
    } else {
        let c = s.last();
        let prev = escape_echo(s.drop_last());
        if c == '^' || c == '&' || c == '|' || c == '<' || c == '>' {
            prev + seq!['^', c]
        } else {
            prev.push(c)
        }
    }
}

pub fn escape_echo_text(text: &str) -> (r: String)
    ensures
        r@ == escape_echo(text@),
{
    let s = chars_of(text);
    let mut out: Vec<char> = Vec::new();
    let n = s.len();
    for i in 0..n
        invariant
            n == s@.len(),
            out@ == escape_echo(s@.take(i as int)),
    {
        assert(s@.take(i + 1).drop_last() == s@.take(i as int));
        let c = s[i];
        if c == '^' || c == '&' || c == '|' || c == '<' || c == '>' {
            out.push('^');
            out.push(c);
            assert(out@ =~= escape_echo(s@.take(i as int)) + seq!['^', c]);
        } else {
            out.push(c);
        }
    }
    assert(s@.take(n as int) == s@);
    string_of(&out)
}

/// For each line: echo the prompt `dir>line`, then run the line.
pub open spec fn echo_and_run(dir: Seq<char>, ls: Seq<Seq<char>>) -> Seq<char>
    decreases ls.len(),
{
    if ls.len() == 0 {
        Seq::empty()
    } else {
        echo_and_run(dir, ls.drop_last()) + " && echo "@ + escape_echo(dir + ">"@ + ls.last()) + " && "@
            + ls.last()
    }
}

/// The cmd command of a pane: `cd` into the work directory, then echo and run
/// each non-blank line, all chained with `&&`.
pub open spec fn cmd_pane_spec(dir: Seq<char>, command: Seq<char>) -> Seq<char> {
    "cd /d \""@ + dir + "\""@ + echo_and_run(dir, trimmed_pieces(lines(command)))
}

pub fn cmd_pane_command(work_dir: &str, command: &str) -> (r: String)
    ensures
        r@ == cmd_pane_spec(work_dir@, command@),
{
    let dir = chars_of(work_dir);
    let mut out = chars_of("cd /d \"");
    extend_chars(&mut out, &dir);
    extend_chars(&mut out, &chars_of("\""));
    let raw = lines_of(&chars_of(command));
    assert(raw@.map_values(|x: Vec<char>| x@) =~= lines(command@));
    let ls = trimmed_pieces_exec(&raw);
    let ghost lv = trimmed_pieces(lines(command@));
    let ghost head = "cd /d \""@ + dir@ + "\""@;
    assert(out@ == head);
    let n = ls.len();
    for i in 0..n
        invariant
            n == ls@.len(),
            ls@.map_values(|x: Vec<char>| x@) == lv,
            dir@ == work_dir@,
            out@ == head + echo_and_run(dir@, lv.take(i as int)),
    {
        assert(lv.take(i + 1).drop_last() == lv.take(i as int));
        let line = &ls[i];
        assert(line@ == lv[i as int]);
        let mut prompt = copy_chars(&dir);
        prompt.push('>');
        extend_chars(&mut prompt, line);
        let esc = chars_of(escape_echo_text(string_of(&prompt).as_str()).as_str());
        extend_chars(&mut out, &chars_of(" && echo "));
        extend_chars(&mut out, &esc);
        extend_chars(&mut out, &chars_of(" && "));
        extend_chars(&mut out, line);
        assert(prompt@ =~= dir@ + ">"@ + line@) by {
            reveal_strlit(">");
        }
        assert(out@ =~= head + echo_and_run(dir@, lv.take(i + 1)));
    }
    assert(lv.take(n as int) == lv);
    string_of(&out)
}

/// `s` with each `'` doubled (PowerShell single-quoted string).
pub open spec fn double_single_quotes(s: Seq<char>) -> Seq<char>
    decreases s.len(),
{
    if s.len() == 0 {
        s
    } else if s.last() == '\'' {
        double_single_quotes(s.drop_last()) + seq!['\'', '\'']
    } else {
        double_single_quotes(s.drop_last()).push(s.last())
    }
}

pub fn double_single_quotes_exec(s: &[char]) -> (r: Vec<char>)
    ensures
        r@ == double_single_quotes(s@),
{
    let mut out: Vec<char> = Vec::new();
    let n = s.len();
    for i in 0..n
        invariant
            n == s@.len(),
            out@ == double_single_quotes(s@.take(i as int)),
    {
        assert(s@.take(i + 1).drop_last() == s@.take(i as int));
        if s[i] == '\'' {
            out.push('\'');
            out.push('\'');
            assert(out@ =~= double_single_quotes(s@.take(i as int)) + seq!['\'', '\'']);
        } else {
            out.push(s[i]);
        }
    }
    assert(s@.take(n as int) == s@);
    out
}

/// The PowerShell script of a pane: `Set-Location` into the work directory, then the
/// command as written.
pub open spec fn ps_pane_spec(dir: Seq<char>, command: Seq<char>) -> Seq<char> {
    let cd = "Set-Location -LiteralPath '"@ + double_single_quotes(dir) + "'"@;
    if is_blank(command) {
        cd
    } else {
        cd + "\r\n"@ + command
    }
}

pub fn ps_pane_script(work_dir: &str, command: &str) -> (r: String)
    ensures
        r@ == ps_pane_spec(work_dir@, command@),
{
    let mut out = chars_of("Set-Location -LiteralPath '");
    extend_chars(&mut out, &double_single_quotes_exec(&chars_of(work_dir)));
    extend_chars(&mut out, &chars_of("'"));
    let cmd = chars_of(command);
    if !blank(&cmd) {
        extend_chars(&mut out, &chars_of("\r\n"));
        extend_chars(&mut out, &cmd);
    }
    string_of(&out)
}

/// UTF-16 code units of `s`.
pub open spec fn utf16_units(s: Seq<char>) -> Seq<u16>
    decreases s.len(),
{
    if s.len() == 0 {
        Seq::empty()
    } else {
        let c = s.last() as u32;
        let prev = utf16_units(s.drop_last());
        if c < 0x10000 {
            prev.push(c as u16)
        } else {
            let v = (c - 0x10000) as nat;
            prev + seq![(0xd800 + v / 1024) as u16, (0xdc00 + v % 1024) as u16]
        }
    }
}

/// Little-endian bytes of UTF-16 code units.
pub open spec fn le_bytes(units: Seq<u16>) -> Seq<u8>
    decreases units.len(),
{
    if units.len() == 0 {
        Seq::empty()
    } else {
        le_bytes(units.drop_last()) + seq![(units.last() % 256) as u8, (units.last() / 256) as u8]
    }
}

/// The `-EncodedCommand` argument for `script`: base64 of its UTF-16LE bytes.
pub open spec fn encode_ps_spec(script: Seq<char>) -> Seq<char> {
    base64_standard(le_bytes(utf16_units(script)))
}

fn push_unit(bytes: &mut Vec<u8>, u: u16)
    ensures
        final(bytes)@ == old(bytes)@ + seq![(u % 256) as u8, (u / 256) as u8],
{
    bytes.push((u % 256) as u8);
    bytes.push((u / 256) as u8);
    assert(final(bytes)@ =~= old(bytes)@ + seq![(u % 256) as u8, (u / 256) as u8]);
}

proof fn lemma_le_bytes_one(u: u16)
    ensures
        le_bytes(seq![u]) == seq![(u % 256) as u8, (u / 256) as u8],
{
    assert(seq![u].drop_last() =~= Seq::<u16>::empty());
    assert(le_bytes(Seq::<u16>::empty()) =~= Seq::<u8>::empty());
    assert(seq![u].last() == u);
    assert(le_bytes(seq![u]) =~= seq![(u % 256) as u8, (u / 256) as u8]);
}

proof fn lemma_le_bytes_append(a: Seq<u16>, b: Seq<u16>)
    ensures
        le_bytes(a + b) == le_bytes(a) + le_bytes(b),
    decreases b.len(),
{
    if b.len() == 0 {
        assert(a + b =~= a);
        assert(le_bytes(b) =~= Seq::<u8>::empty());
        assert(le_bytes(a) + le_bytes(b) =~= le_bytes(a));
    } else {
        lemma_le_bytes_append(a, b.drop_last());
        assert((a + b).drop_last() =~= a + b.drop_last());
        assert((a + b).last() == b.last());
        assert(le_bytes(a + b) =~= le_bytes(a) + le_bytes(b));
    }
}

/// The `-EncodedCommand` form of a PowerShell script.
pub fn encode_ps_command(script: &str) -> (r: String)
    requires
        (script@.len() * 4 / 3 + 1) * 4 <= usize::MAX,
    ensures
        r@ == encode_ps_spec(script@),
{
    let s = chars_of(script);
    let mut bytes: Vec<u8> = Vec::new();
    let n = s.len();
    for i in 0..n
        invariant
            n == s@.len(),
            bytes@ == le_bytes(utf16_units(s@.take(i as int))),
            bytes@.len() <= 4 * i,
    {
        let ghost prev = utf16_units(s@.take(i as int));
        assert(s@.take(i + 1).drop_last() == s@.take(i as int));
        let c = s[i] as u32;
        if c < 0x10000 {
            push_unit(&mut bytes, c as u16);
            proof {
                lemma_le_bytes_append(prev, seq![c as u16]);
                assert(prev.push(c as u16) == prev + seq![c as u16]);
                lemma_le_bytes_one(c as u16);
            }
        } else {
            let v = c - 0x10000;
            let hi = (0xd800 + v / 1024) as u16;
            let lo = (0xdc00 + v % 1024) as u16;
            push_unit(&mut bytes, hi);
            push_unit(&mut bytes, lo);
            proof {
                lemma_le_bytes_append(prev, seq![hi, lo]);
                assert(seq![hi, lo].drop_last() =~= seq![hi]);
                lemma_le_bytes_one(hi);
                assert(le_bytes(seq![hi, lo]) =~= seq![(hi % 256) as u8, (hi / 256) as u8] + seq![(lo % 256) as u8, (lo / 256) as u8]);
            }
        }
    }
    assert(s@.take(n as int) == s@);
    assert(bytes@.len() <= 4 * n);
    assert((bytes@.len() / 3 + 1) * 4 <= usize::MAX) by (nonlinear_arith)
        requires
            bytes@.len() <= 4 * n,
            (n * 4 / 3 + 1) * 4 <= usize::MAX,
    ;
    base64_encode(bytes.as_slice())
}


// ---------------------------------------------------------------------------
// Windows Terminal command line

/// Number of `\` at the end of `s`.
pub open spec fn trailing_backslashes(s: Seq<char>) -> nat
    decreases s.len(),
{
    if s.len() > 0 && s.last() == '\\' {
        trailing_backslashes(s.drop_last()) + 1
    } else {
        0
    }
}

pub open spec fn backslashes(n: nat) -> Seq<char> {
    Seq::new(n, |i: int| '\\')
}

/// A Windows Terminal argument in double quotes: each `"` becomes `'`, and the
/// trailing backslashes are doubled so that they do not escape the closing quote.
pub open spec fn quote_wt(v: Seq<char>) -> Seq<char> {
    let r = replace_char(v, '"', '\'');
    seq!['"'] + r + backslashes(trailing_backslashes(r)) + seq!['"']
}

/// A quoted Windows Terminal argument is read back as one argument: it opens
/// and closes with `"`, holds no other `"`, and the backslashes before the
/// closing quote come in an even number (so none escapes it).
pub proof fn lemma_quoted_single_arg(v: Seq<char>)
    ensures
        quote_wt(v).len() >= 2,
        quote_wt(v)[0] == '"',
        quote_wt(v).last() == '"',
        forall|i: int| 1 <= i < quote_wt(v).len() - 1 ==> #[trigger] quote_wt(v)[i] != '"',
        trailing_backslashes(quote_wt(v).drop_last()) % 2 == 0,
{
    let r = replace_char(v, '"', '\'');
    let n = trailing_backslashes(r);
    let q = quote_wt(v);
    assert(q == seq!['"'] + r + backslashes(n) + seq!['"']);
    assert forall|i: int| 1 <= i < q.len() - 1 implies #[trigger] q[i] != '"' by {
        if i <= r.len() {
            assert(q[i] == r[i - 1]);
        } else {
            assert(q[i] == backslashes(n)[i - 1 - r.len()]);
        }
    }
    lemma_trailing_doubled(r, n);
    assert(q.drop_last() == seq!['"'] + r + backslashes(n));
    lemma_trailing_prefixed(r, n);
}

proof fn lemma_trailing_doubled(r: Seq<char>, n: nat)
    ensures
        trailing_backslashes(r + backslashes(n)) == trailing_backslashes(r) + n,
    decreases n,
{
    if n > 0 {
        lemma_trailing_doubled(r, (n - 1) as nat);
        assert((r + backslashes(n)).drop_last() =~= r + backslashes((n - 1) as nat));
        assert((r + backslashes(n)).last() == '\\');
    } else {
        assert(r + backslashes(0) =~= r);
    }
}

proof fn lemma_trailing_prefixed(r: Seq<char>, n: nat)
    requires
        n == trailing_backslashes(r),
    ensures
        trailing_backslashes(seq!['"'] + r + backslashes(n)) == 2 * n,
    decreases r.len(), n,
{
    lemma_trailing_doubled(seq!['"'] + r, n);
    lemma_trailing_quote_prefix(r);
}

proof fn lemma_trailing_quote_prefix(r: Seq<char>)
    ensures
        trailing_backslashes(seq!['"'] + r) == trailing_backslashes(r),
    decreases r.len(),
{
    if r.len() == 0 {
        assert(seq!['"'] + r =~= seq!['"']);
        assert(seq!['"'].drop_last() =~= Seq::<char>::empty());
    } else {
        assert((seq!['"'] + r).drop_last() =~= seq!['"'] + r.drop_last());
        assert((seq!['"'] + r).last() == r.last());
        if r.last() == '\\' {
            lemma_trailing_quote_prefix(r.drop_last());
        }
    }
}

fn count_trailing_backslashes(s: &[char]) -> (n: usize)
    ensures
        n == trailing_backslashes(s@),
{
    let mut k: usize = s.len();
    assert(s@.take(k as int) == s@);
    while k > 0 && s[k - 1] == '\\'
        invariant
            k <= s@.len(),
            trailing_backslashes(s@) == trailing_backslashes(s@.take(k as int)) + (s@.len() - k),
        decreases k,
    {
        assert(s@.take(k as int).drop_last() == s@.take(k - 1));
        assert(s@.take(k as int).last() == s@[k - 1]);
        k = k - 1;
    }
    if k > 0 {
        assert(s@.take(k as int).last() == s@[k - 1]);
    }
    assert(s@.take(s@.len() as int) == s@);
    s.len() - k
}

fn quote_wt_arg(value: &[char]) -> (r: Vec<char>)
    ensures
        r@ == quote_wt(value@),
{
    let mut body: Vec<char> = Vec::new();
    let n = value.len();
    for i in 0..n
        invariant
            n == value@.len(),
            body@ == replace_char(value@.take(i as int), '"', '\''),
    {
        if value[i] == '"' {
            body.push('\'');
        } else {
            body.push(value[i]);
        }
        assert(body@ =~= replace_char(value@.take(i + 1), '"', '\''));
    }
    assert(value@.take(n as int) == value@);
    let t = count_trailing_backslashes(&body);
    let mut out: Vec<char> = Vec::new();
    out.push('"');
    extend_chars(&mut out, &body);
    let ghost base = out@;
    for j in 0..t
        invariant
            out@ == base + backslashes(j as nat),
    {
        out.push('\\');
        assert(out@ =~= base + backslashes((j + 1) as nat));
    }
    out.push('"');
    assert(out@ =~= quote_wt(value@));
    out
}

/// What a pane runs after its Windows Terminal options.
pub open spec fn shell_part(p: PaneSpec) -> Seq<char> {
    match p.shell {
        Shell::Cmd => " cmd /K \""@ + cmd_pane_spec(p.work_dir@, p.command@) + "\""@,
        Shell::PowerShell => " powershell -NoExit -ExecutionPolicy Bypass -EncodedCommand "@
            + encode_ps_spec(ps_pane_spec(p.work_dir@, p.command@)),
        Shell::Bash => Seq::empty(),
    }
}

/// The part of the command line for one pane: the first opens a new tab titled
/// with the project name, the others split it vertically under their own title.
pub open spec fn wt_segment(first: bool, project_name: Seq<char>, p: PaneSpec) -> Seq<char> {
    let head = if first { " nt -d "@ } else { " ; sp -V -d "@ };
    let title = if first { project_name } else { p.title@ };
    head + quote_wt(p.work_dir@) + " --title "@ + quote_wt(title) + " --suppressApplicationTitle"@
        + shell_part(p)
}

pub open spec fn wt_segments(project_name: Seq<char>, panes: Seq<PaneSpec>) -> Seq<char>
    decreases panes.len(),
{
    if panes.len() == 0 {
        Seq::empty()
    } else {
        wt_segments(project_name, panes.drop_last()) + wt_segment(
            panes.len() == 1,
            project_name,
            panes.last(),
        )
    }
}

/// The Windows Terminal arguments that open all panes in one new window.
pub open spec fn wt_commandline(project_name: Seq<char>, panes: Seq<PaneSpec>) -> Seq<char> {
    "-w -1"@ + wt_segments(project_name, panes)
}

/// The encoded PowerShell script of the pane fits in memory (a machine limit).
pub open spec fn ps_encodable(dir: Seq<char>, command: Seq<char>) -> bool {
    (ps_pane_spec(dir, command).len() * 4 / 3 + 1) * 4 <= usize::MAX
}

/// The panes that can be laid out: none runs Git Bash, and each PowerShell
/// script fits in memory once encoded.
pub open spec fn panes_launchable(panes: Seq<PaneSpec>) -> bool {
    forall|i: int|
        0 <= i < panes.len() ==> #[trigger] panes[i].shell != Shell::Bash && (panes[i].shell
            == Shell::PowerShell ==> ps_encodable(panes[i].work_dir@, panes[i].command@))
}

fn shell_part_exec(p: &PaneSpec) -> (r: Vec<char>)
    requires
        p.shell == Shell::PowerShell ==> ps_encodable(p.work_dir@, p.command@),
    ensures
        r@ == shell_part(*p),
{
    match p.shell {
        Shell::Cmd => {
            let mut out = chars_of(" cmd /K \"");
            let c = cmd_pane_command(p.work_dir.as_str(), p.command.as_str());
            extend_chars(&mut out, &chars_of(c.as_str()));
            extend_chars(&mut out, &chars_of("\""));
            out
        },
        Shell::PowerShell => {
            let mut out = chars_of(" powershell -NoExit -ExecutionPolicy Bypass -EncodedCommand ");
            let script = ps_pane_script(p.work_dir.as_str(), p.command.as_str());
            let enc = encode_ps_command(script.as_str());
            extend_chars(&mut out, &chars_of(enc.as_str()));
            out
        },
        Shell::Bash => Vec::new(),
    }
}

fn wt_segment_exec(first: bool, name: &[char], p: &PaneSpec) -> (r: Vec<char>)
    requires
        p.shell == Shell::PowerShell ==> ps_encodable(p.work_dir@, p.command@),
    ensures
        r@ == wt_segment(first, name@, *p),
{
    let dir = chars_of(p.work_dir.as_str());
    let mut out = if first {
        chars_of(" nt -d ")
    } else {
        chars_of(" ; sp -V -d ")
    };
    extend_chars(&mut out, &quote_wt_arg(&dir));
    extend_chars(&mut out, &chars_of(" --title "));
    let title = if first {
        copy_chars(name)
    } else {
        chars_of(p.title.as_str())
    };
    extend_chars(&mut out, &quote_wt_arg(&title));
    extend_chars(&mut out, &chars_of(" --suppressApplicationTitle"));
    extend_chars(&mut out, &shell_part_exec(p));
    out
}

/// The Windows Terminal arguments for `panes`, none of which runs Git Bash.
pub fn build_wt_commandline(project_name: &str, panes: &[PaneSpec]) -> (r: String)
    requires
        panes_launchable(panes@),
    ensures
        r@ == wt_commandline(project_name@, panes@),
{
    let name = chars_of(project_name);
    let mut line = chars_of("-w -1");
    let n = panes.len();
    for i in 0..n
        invariant
            n == panes@.len(),
            name@ == project_name@,
            panes_launchable(panes@),
            line@ == "-w -1"@ + wt_segments(project_name@, panes@.take(i as int)),
    {
        assert(panes@.take(i + 1).drop_last() == panes@.take(i as int));
        assert(panes@.take(i + 1).last() == panes@[i as int]);
        assert(panes@[i as int].shell != Shell::Bash);
        let seg = wt_segment_exec(i == 0, &name, &panes[i]);
        extend_chars(&mut line, &seg);
        assert(line@ =~= "-w -1"@ + wt_segments(project_name@, panes@.take(i + 1)));
    }
    assert(panes@.take(n as int) == panes@);
    string_of(&line)
}

pub open spec fn cmd_launch_spec(dir: Seq<char>, command: Seq<char>) -> Seq<char> {
    "/K \""@ + cmd_pane_spec(dir, command) + "\""@
}

pub open spec fn ps_launch_spec(dir: Seq<char>, command: Seq<char>) -> Seq<char> {
    "-NoExit -ExecutionPolicy Bypass -EncodedCommand "@ + encode_ps_spec(ps_pane_spec(dir, command))
}

/// The `cmd` arguments of a console window for one start item.
pub fn cmd_launch_args(work_dir: &str, command: &str) -> (r: String)
    ensures
        r@ == cmd_launch_spec(work_dir@, command@),
{
    let mut out = chars_of("/K \"");
    let c = cmd_pane_command(work_dir, command);
    extend_chars(&mut out, &chars_of(c.as_str()));
    extend_chars(&mut out, &chars_of("\""));
    string_of(&out)
}

/// The `powershell` arguments of a console window for one start item.
pub fn ps_launch_args(work_dir: &str, command: &str) -> (r: String)
    requires
        ps_encodable(work_dir@, command@),
    ensures
        r@ == ps_launch_spec(work_dir@, command@),
{
    let mut out = chars_of("-NoExit -ExecutionPolicy Bypass -EncodedCommand ");
    let script = ps_pane_script(work_dir, command);
    let enc = encode_ps_command(script.as_str());
    extend_chars(&mut out, &chars_of(enc.as_str()));
    string_of(&out)
}

proof fn lemma_utf16_prefix(s: Seq<char>, i: int)
    requires
        0 <= i <= s.len(),
    ensures
        utf16_units(s.take(i)).len() <= utf16_units(s).len(),
    decreases s.len() - i,
{
    if i < s.len() {
        lemma_utf16_prefix(s.drop_last(), i);
        assert(s.drop_last().take(i) == s.take(i));
    } else {
        assert(s.take(i) == s);
    }
}

/// The UTF-16 length of `s` while it is at most `cap`, else `cap + 1`.
fn utf16_len_upto(s: &str, cap: usize) -> (r: usize)
    requires
        cap <= usize::MAX - 2,
    ensures
        utf16_units(s@).len() <= cap ==> r == utf16_units(s@).len(),
        utf16_units(s@).len() > cap ==> r == cap + 1,
{
    let cs = chars_of(s);
    let mut count: usize = 0;
    let n = cs.len();
    for i in 0..n
        invariant
            n == cs@.len(),
            cs@ == s@,
            cap <= usize::MAX - 2,
            count == utf16_units(cs@.take(i as int)).len(),
            count <= cap,
    {
        assert(cs@.take(i + 1).drop_last() == cs@.take(i as int));
        assert(cs@.take(i + 1).last() == cs@[i as int]);
        let c = cs[i] as u32;
        if c < 0x10000 {
            count = count + 1;
        } else {
            count = count + 2;
        }
        if count > cap {
            proof {
                lemma_utf16_prefix(s@, i + 1);
            }
            return cap + 1;
        }
    }
    assert(cs@.take(n as int) == cs@);
    count
}

/// Text of the error for a Windows Terminal command line that is too long.
pub open spec fn too_long_msg() -> Seq<char> {
    "启动项命令总长度超过 30000 字符，请拆分启动项"@
}

/// Refuses a command line longer than Windows accepts, counted in UTF-16 units.
pub fn validate_wt_commandline(line: &str) -> (r: Result<(), String>)
    ensures
        r is Ok <==> utf16_units(line@).len() <= MAX_COMMANDLINE_UTF16,
        r matches Err(e) ==> e@ == too_long_msg(),
{
    if utf16_len_upto(line, MAX_COMMANDLINE_UTF16) > MAX_COMMANDLINE_UTF16 {
        Err(owned("启动项命令总长度超过 30000 字符，请拆分启动项"))
    } else {
        Ok(())
    }
}

/// The program a console window runs for a shell.
pub open spec fn launch_program(shell: Shell) -> Seq<char> {
    match shell {
        Shell::Cmd => "cmd"@,
        Shell::PowerShell => "powershell"@,
        Shell::Bash => Seq::empty(),
    }
}

pub open spec fn launch_args(p: PaneSpec) -> Seq<char> {
    match p.shell {
        Shell::Cmd => cmd_launch_spec(p.work_dir@, p.command@),
        Shell::PowerShell => ps_launch_spec(p.work_dir@, p.command@),
        Shell::Bash => Seq::empty(),
    }
}

/// The console command line of the pane (program, a space, arguments) is longer
/// than Windows accepts.
pub open spec fn launch_too_long(p: PaneSpec) -> bool {
    utf16_units(launch_program(p.shell)).len() + 1 + utf16_units(launch_args(p)).len()
        > MAX_COMMANDLINE_UTF16
}

fn commandline_too_long(program: &str, args: &str) -> (r: bool)
    ensures
        r == (utf16_units(program@).len() + 1 + utf16_units(args@).len() > MAX_COMMANDLINE_UTF16),
{
    let a = utf16_len_upto(program, MAX_COMMANDLINE_UTF16);
    if a > MAX_COMMANDLINE_UTF16 {
        return true;
    }
    let b = utf16_len_upto(args, MAX_COMMANDLINE_UTF16);
    a + 1 + b > MAX_COMMANDLINE_UTF16
}

/// Index of the first element of `s` that satisfies `f`.
pub open spec fn first_index(s: Seq<PaneSpec>, f: spec_fn(PaneSpec) -> bool) -> Option<int>
    decreases s.len(),
{
    if s.len() == 0 {
        None
    } else {
        match first_index(s.drop_last(), f) {
            Some(i) => Some(i),
            None => if f(s.last()) {
                Some(s.len() - 1)
            } else {
                None
            },
        }
    }
}

proof fn lemma_first_index_prefix(s: Seq<PaneSpec>, f: spec_fn(PaneSpec) -> bool, j: int)
    requires
        0 <= j <= s.len(),
        first_index(s.take(j), f) is Some,
    ensures
        first_index(s, f) == first_index(s.take(j), f),
    decreases s.len() - j,
{
    if j < s.len() {
        assert(s.drop_last().take(j) == s.take(j));
        lemma_first_index_prefix(s.drop_last(), f, j);
    } else {
        assert(s.take(j) == s);
    }
}

proof fn lemma_first_index_bounds(s: Seq<PaneSpec>, f: spec_fn(PaneSpec) -> bool)
    ensures
        first_index(s, f) matches Some(i) ==> 0 <= i < s.len() && f(s[i]),
        first_index(s, f) is None ==> forall|k: int| 0 <= k < s.len() ==> !f(#[trigger] s[k]),
    decreases s.len(),
{
    if s.len() > 0 {
        lemma_first_index_bounds(s.drop_last(), f);
        assert forall|k: int| 0 <= k < s.len() - 1 implies s.drop_last()[k] == s[k] by {}
    }
}

pub open spec fn is_bash(p: PaneSpec) -> bool {
    p.shell == Shell::Bash
}

pub open spec fn no_items_msg() -> Seq<char> {
    "没有可启动的启动项"@
}

pub open spec fn bash_msg(title: Seq<char>) -> Seq<char> {
    "启动项「"@ + title + "」暂不支持 Git Bash（等待后续版本接线）"@
}

pub open spec fn over_long_msg(title: Seq<char>) -> Seq<char> {
    "启动项「"@ + title + "」命令过长，请拆分启动项"@
}

/// Every PowerShell pane's script fits in memory once encoded (a machine limit).
pub open spec fn ps_panes_encodable(panes: Seq<PaneSpec>) -> bool {
    forall|i: int|
        0 <= i < panes.len() && #[trigger] panes[i].shell == Shell::PowerShell ==> ps_encodable(
            panes[i].work_dir@,
            panes[i].command@,
        )
}

fn titled_msg(head: &str, title: &str, tail: &str) -> (r: String)
    ensures
        r@ == head@ + title@ + tail@,
{
    let mut v = chars_of(head);
    extend_chars(&mut v, &chars_of(title));
    extend_chars(&mut v, &chars_of(tail));
    string_of(&v)
}

fn clone_string(s: &String) -> (r: String)
    ensures
        r@ == s@,
{
    string_of(&chars_of(s.as_str()))
}

/// How to start `panes`: one Windows Terminal window when `resolved_wt` names
/// it, else one console window per pane. Refuses an empty list, a Git Bash pane
/// and a command line longer than Windows accepts.
pub fn plan_spawn(resolved_wt: Option<&str>, project_name: &str, panes: &[PaneSpec]) -> (r: Result<
    SpawnPlan,
    String,
>)
    requires
        ps_panes_encodable(panes@),
    ensures
        panes@.len() == 0 ==> (r matches Err(e) && e@ == no_items_msg()),
        panes@.len() > 0 ==> match first_index(panes@, |p: PaneSpec| is_bash(p)) {
            Some(k) => r matches Err(e) && e@ == bash_msg(panes@[k].title@),
            None => match resolved_wt {
                Some(wt) => if utf16_units(wt_commandline(project_name@, panes@)).len()
                    > MAX_COMMANDLINE_UTF16 {
                    r matches Err(e) && e@ == too_long_msg()
                } else {
                    r matches Ok(SpawnPlan::Wt { program, args }) && program@ == wt@ && args@
                        == wt_commandline(project_name@, panes@)
                },
                None => match first_index(panes@, |p: PaneSpec| launch_too_long(p)) {
                    Some(k) => r matches Err(e) && e@ == over_long_msg(panes@[k].title@),
                    None => r matches Ok(SpawnPlan::Fallback { launches }) && launches@.len()
                        == panes@.len() && forall|i: int|
                        0 <= i < panes@.len() ==> {
                            &&& (#[trigger] launches@[i]).program@ == launch_program(
                                panes@[i].shell,
                            )
                            &&& launches@[i].args@ == launch_args(panes@[i])
                            &&& launches@[i].work_dir@ == panes@[i].work_dir@
                        },
                },
            },
        },
{
    if panes.len() == 0 {
        return Err(owned("没有可启动的启动项"));
    }
    let ghost bash = |p: PaneSpec| is_bash(p);
    let n = panes.len();
    for i in 0..n
        invariant
            n == panes@.len(),
            first_index(panes@.take(i as int), bash) is None,
            bash == (|p: PaneSpec| is_bash(p)),
    {
        assert(panes@.take(i + 1).drop_last() == panes@.take(i as int));
        assert(panes@.take(i + 1).last() == panes@[i as int]);
        if panes[i].shell == Shell::Bash {
            proof {
                lemma_first_index_prefix(panes@, bash, i + 1);
            }
            return Err(titled_msg("启动项「", panes[i].title.as_str(), "」暂不支持 Git Bash（等待后续版本接线）"));
        }
    }
    assert(panes@.take(n as int) == panes@);
    proof {
        lemma_first_index_bounds(panes@, bash);
        assert forall|i: int| 0 <= i < panes@.len() implies #[trigger] panes@[i].shell != Shell::Bash
            by {
            assert(!bash(panes@[i]));
        }
    }
    match resolved_wt {
        Some(wt) => {
            let args = build_wt_commandline(project_name, panes);
            match validate_wt_commandline(args.as_str()) {
                Err(e) => Err(e),
                Ok(()) => Ok(SpawnPlan::Wt { program: owned(wt), args }),
            }
        },
        None => {
            let ghost long = |p: PaneSpec| launch_too_long(p);
            let mut launches: Vec<FallbackLaunch> = Vec::new();
            for i in 0..n
                invariant
                    n == panes@.len(),
                    ps_panes_encodable(panes@),
                    forall|k: int| 0 <= k < panes@.len() ==> #[trigger] panes@[k].shell != Shell::Bash,
                    long == (|p: PaneSpec| launch_too_long(p)),
                    resolved_wt is None,
                    panes@.len() > 0,
                    first_index(panes@, |p: PaneSpec| is_bash(p)) is None,
                    first_index(panes@.take(i as int), long) is None,
                    launches@.len() == i,
                    forall|k: int|
                        0 <= k < i ==> {
                            &&& (#[trigger] launches@[k]).program@ == launch_program(
                                panes@[k].shell,
                            )
                            &&& launches@[k].args@ == launch_args(panes@[k])
                            &&& launches@[k].work_dir@ == panes@[k].work_dir@
                        },
            {
                assert(panes@.take(i + 1).drop_last() == panes@.take(i as int));
                assert(panes@.take(i + 1).last() == panes@[i as int]);
                let p = &panes[i];
                let launch = match p.shell {
                    Shell::PowerShell => FallbackLaunch {
                        program: owned("powershell"),
                        args: ps_launch_args(p.work_dir.as_str(), p.command.as_str()),
                        work_dir: clone_string(&p.work_dir),
                    },
                    _ => FallbackLaunch {
                        program: owned("cmd"),
                        args: cmd_launch_args(p.work_dir.as_str(), p.command.as_str()),
                        work_dir: clone_string(&p.work_dir),
                    },
                };
                if commandline_too_long(launch.program.as_str(), launch.args.as_str()) {
                    proof {
                        lemma_first_index_prefix(panes@, long, i + 1);
                    }
                    return Err(titled_msg("启动项「", p.title.as_str(), "」命令过长，请拆分启动项"));
                }
                launches.push(launch);
            }
            assert(panes@.take(n as int) == panes@);
            Ok(SpawnPlan::Fallback { launches })
        },
    }
}

} // verus!
