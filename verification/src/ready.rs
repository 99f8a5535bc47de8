//! Waiting for a step to be ready, written into the start script: a PowerShell
//! one-liner that polls a port or a process for cmd (and Windows Terminal), and
//! a native block for PowerShell.

use vstd::prelude::*;
use crate::platform::{double_single_quotes};
use crate::text::{chars_of, decimal, decimal_chars, extend_chars, has_suffix, ends_with, lower, owned, slice_vec, string_of, to_lower_char};

verus! {

/// When a step counts as ready.
#[derive(Debug)]
pub enum ReadyCondition {
    Immediate,
    Delay { seconds: u64 },
    Port { port: u16, host: String, timeout_sec: u64 },
    Process { process_name: String, timeout_sec: u64 },
}

/// The condition's own timeout when it has a positive one, else the default.
pub open spec fn effective_timeout_spec(cond: ReadyCondition, default_timeout_sec: u64) -> u64 {
    match cond {
        ReadyCondition::Port { timeout_sec, .. } => if timeout_sec > 0 {
            timeout_sec
        } else {
            default_timeout_sec
        },
        ReadyCondition::Process { timeout_sec, .. } => if timeout_sec > 0 {
            timeout_sec
        } else {
            default_timeout_sec
        },
        _ => default_timeout_sec,
    }
}

pub fn effective_timeout(cond: &ReadyCondition, default_timeout_sec: u64) -> (r: u64)
    ensures
        r == effective_timeout_spec(*cond, default_timeout_sec),
{
    match cond {
        ReadyCondition::Port { timeout_sec, .. } => if *timeout_sec > 0 {
            *timeout_sec
        } else {
            default_timeout_sec
        },
        ReadyCondition::Process { timeout_sec, .. } => if *timeout_sec > 0 {
            *timeout_sec
        } else {
            default_timeout_sec
        },
        _ => default_timeout_sec,
    }
}

/// A process name for `Get-Process -Name`: ASCII lower case, without `.exe`.
pub open spec fn ps_process_name_spec(name: Seq<char>) -> Seq<char> {
    let l = lower(name);
    if ends_with(l, ".exe"@) {
        l.take(l.len() - 4)
    } else {
        l
    }
}

pub fn ps_process_name(name: &str) -> (r: String)
    ensures
        r@ == ps_process_name_spec(name@),
{
    let s = chars_of(name);
    let mut l: Vec<char> = Vec::new();
    let n = s.len();
    for i in 0..n
        invariant
            n == s@.len(),
            l@ == lower(s@).take(i as int),
    {
        l.push(to_lower_char(s[i]));
        assert(l@ =~= lower(s@).take(i + 1));
    }
    assert(lower(s@).take(n as int) =~= lower(s@));
    let suffix = chars_of(".exe");
    if has_suffix(&l, &suffix) {
        proof {
            reveal_strlit(".exe");
        }
        string_of(&slice_vec(&l, 0, l.len() - 4))
    } else {
        string_of(&l)
    }
}

/// Characters that would break a batch or PowerShell line.
pub open spec fn label_bad(c: char) -> bool {
    c == '&' || c == '|' || c == '<' || c == '>' || c == '"' || c == '^' || c == '%' || c == '!' || c == '('
        || c == ')' || c == '\'' || c == '`'
}

/// A step name safe to echo: the breaking characters removed.
pub open spec fn safe_label(s: Seq<char>) -> Seq<char>
    decreases s.len(),
{
    if s.len() == 0 {
        s
    } else if label_bad(s.last()) {
        safe_label(s.drop_last())
    } else {
        safe_label(s.drop_last()).push(s.last())
    }
}

fn safe_label_exec(s: &[char]) -> (r: Vec<char>)
    ensures
        r@ == safe_label(s@),
{
    let mut out: Vec<char> = Vec::new();
    let n = s.len();
    for i in 0..n
        invariant
            n == s@.len(),
            out@ == safe_label(s@.take(i as int)),
    {
        assert(s@.take(i + 1).drop_last() == s@.take(i as int));
        let c = s[i];
        if !(c == '&' || c == '|' || c == '<' || c == '>' || c == '"' || c == '^' || c == '%' || c == '!'
            || c == '(' || c == ')' || c == '\'' || c == '`') {
            out.push(c);
        }
    }
    assert(s@.take(n as int) == s@);
    out
}

pub open spec fn poll_expr_port(host: Seq<char>, port: u16) -> Seq<char> {
    "Test-NetConnection '"@ + double_single_quotes(host) + "' -Port "@ + decimal(port as nat)
        + " -InformationLevel Quiet -WarningAction SilentlyContinue"@
}

pub open spec fn poll_expr_process(name: Seq<char>) -> Seq<char> {
    "Get-Process -Name '"@ + ps_process_name_spec(name) + "' -ErrorAction SilentlyContinue"@
}

/// A PowerShell one-liner that polls `expr` every half second, `2 * t` times:
/// exit 0 once ready, 1 on timeout.
pub open spec fn poll_one_liner(expr: Seq<char>, t: nat) -> Seq<char> {
    "powershell -NoProfile -Command \"$tries="@ + decimal(2 * t)
        + "; while($tries -gt 0){ if("@ + expr + "){ exit 0 }; Start-Sleep -Milliseconds 500; $tries=$tries-1 } exit 1\""@
}

/// A polling wait's timeout can be doubled without overflow (the other
/// conditions do not poll).
pub open spec fn timeouts_fit(cond: ReadyCondition, default_timeout_sec: u64) -> bool {
    match cond {
        ReadyCondition::Port { .. } | ReadyCondition::Process { .. } => effective_timeout_spec(cond, default_timeout_sec)
            <= u64::MAX / 2,
        _ => true,
    }
}

/// The wait block of a cmd script; empty for no wait.
pub open spec fn wait_block_cmd_spec(cond: ReadyCondition, default_timeout_sec: u64, step: Seq<char>) -> Seq<char> {
    let t = effective_timeout_spec(cond, default_timeout_sec) as nat;
    match cond {
        ReadyCondition::Immediate => Seq::empty(),
        ReadyCondition::Delay { seconds } => if seconds == 0 {
            Seq::empty()
        } else {
            "timeout /t "@ + decimal(seconds as nat) + " /nobreak >nul"@
        },
        ReadyCondition::Port { port, host, .. } => poll_one_liner(poll_expr_port(host@, port), t)
            + "\r\nif errorlevel 1 echo [DevLaunch] step \""@ + safe_label(step) + "\" NOT READY - port "@ + host@
            + ":"@ + decimal(port as nat) + " - timeout "@ + decimal(t) + "s && pause && exit /b 1"@,
        ReadyCondition::Process { process_name, .. } => poll_one_liner(poll_expr_process(process_name@), t)
            + "\r\nif errorlevel 1 echo [DevLaunch] step \""@ + safe_label(step) + "\" NOT READY - process "@
            + ps_process_name_spec(process_name@) + " - timeout "@ + decimal(t) + "s && pause && exit /b 1"@,
    }
}

/// The wait block of a PowerShell script; empty for no wait.
pub open spec fn wait_block_ps_spec(cond: ReadyCondition, default_timeout_sec: u64, step: Seq<char>) -> Seq<char> {
    let t = effective_timeout_spec(cond, default_timeout_sec) as nat;
    let head = "$tries = "@ + decimal(2 * t) + "\r\nwhile($tries -gt 0){ if("@;
    let tail = "){ break }; Start-Sleep -Milliseconds 500; $tries = $tries - 1 }\r\nif($tries -le 0){ Write-Host '[DevLaunch] step "@
        + safe_label(step);
    match cond {
        ReadyCondition::Immediate => Seq::empty(),
        ReadyCondition::Delay { seconds } => if seconds == 0 {
            Seq::empty()
        } else {
            "Start-Sleep -Seconds "@ + decimal(seconds as nat)
        },
        ReadyCondition::Port { port, host, .. } => head + poll_expr_port(host@, port) + tail + " NOT READY - port "@
            + host@ + ":"@ + decimal(port as nat) + " - timeout "@ + decimal(t)
            + "s'; Read-Host 'Press Enter to exit'; exit 1 }"@,
        ReadyCondition::Process { process_name, .. } => head + poll_expr_process(process_name@) + tail
            + " NOT READY - process "@ + ps_process_name_spec(process_name@) + " - timeout "@ + decimal(t)
            + "s'; Read-Host 'Press Enter to exit'; exit 1 }"@,
    }
}

struct Text {
    v: Vec<char>,
}

impl Text {
    fn new() -> (r: Text)
        ensures
            r.v@ == Seq::<char>::empty(),
    {
        Text { v: Vec::new() }
    }

    fn lit(&mut self, s: &str)
        ensures
            final(self).v@ == old(self).v@ + s@,
    {
        extend_chars(&mut self.v, &chars_of(s));
    }

    fn chars(&mut self, s: &[char])
        ensures
            final(self).v@ == old(self).v@ + s@,
    {
        extend_chars(&mut self.v, s);
    }

    fn num(&mut self, n: u64)
        ensures
            final(self).v@ == old(self).v@ + decimal(n as nat),
    {
        extend_chars(&mut self.v, &decimal_chars(n));
    }
}

fn port_expr(host: &String, port: u16) -> (r: Vec<char>)
    ensures
        r@ == poll_expr_port(host@, port),
{
    let mut t = Text::new();
    t.lit("Test-NetConnection '");
    t.chars(&crate::platform::double_single_quotes_exec(&chars_of(host.as_str())));
    t.lit("' -Port ");
    t.num(port as u64);
    t.lit(" -InformationLevel Quiet -WarningAction SilentlyContinue");
    assert(t.v@ =~= poll_expr_port(host@, port));
    t.v
}

fn process_expr(name: &String) -> (r: Vec<char>)
    ensures
        r@ == poll_expr_process(name@),
{
    let mut t = Text::new();
    t.lit("Get-Process -Name '");
    t.chars(&chars_of(ps_process_name(name.as_str()).as_str()));
    t.lit("' -ErrorAction SilentlyContinue");
    assert(t.v@ =~= poll_expr_process(name@));
    t.v
}

fn one_liner(expr: &[char], t: u64) -> (r: Vec<char>)
    requires
        t <= u64::MAX / 2,
    ensures
        r@ == poll_one_liner(expr@, t as nat),
{
    let mut b = Text::new();
    b.lit("powershell -NoProfile -Command \"$tries=");
    b.num(t * 2);
    b.lit("; while($tries -gt 0){ if(");
    b.chars(expr);
    b.lit("){ exit 0 }; Start-Sleep -Milliseconds 500; $tries=$tries-1 } exit 1\"");
    assert(b.v@ =~= poll_one_liner(expr@, t as nat));
    b.v
}

/// The wait block of a cmd script for `cond`.
pub fn wait_block_cmd(cond: &ReadyCondition, default_timeout_sec: u64, step_name: &str) -> (r: String)
    requires
        timeouts_fit(*cond, default_timeout_sec),
    ensures
        r@ == wait_block_cmd_spec(*cond, default_timeout_sec, step_name@),
{
    let label = safe_label_exec(&chars_of(step_name));
    let t = effective_timeout(cond, default_timeout_sec);
    match cond {
        ReadyCondition::Immediate => String::new(),
        ReadyCondition::Delay { seconds } => {
            if *seconds == 0 {
                String::new()
            } else {
                let mut b = Text::new();
                b.lit("timeout /t ");
                b.num(*seconds);
                b.lit(" /nobreak >nul");
                assert(b.v@ =~= wait_block_cmd_spec(*cond, default_timeout_sec, step_name@));
                string_of(&b.v)
            }
        },
        ReadyCondition::Port { port, host, .. } => {
            let mut b = Text::new();
            b.chars(&one_liner(&port_expr(host, *port), t));
            b.lit("\r\nif errorlevel 1 echo [DevLaunch] step \"");
            b.chars(&label);
            b.lit("\" NOT READY - port ");
            b.chars(&chars_of(host.as_str()));
            b.lit(":");
            b.num(*port as u64);
            b.lit(" - timeout ");
            b.num(t);
            b.lit("s && pause && exit /b 1");
            assert(b.v@ =~= wait_block_cmd_spec(*cond, default_timeout_sec, step_name@));
            string_of(&b.v)
        },
        ReadyCondition::Process { process_name, .. } => {
            let mut b = Text::new();
            b.chars(&one_liner(&process_expr(process_name), t));
            b.lit("\r\nif errorlevel 1 echo [DevLaunch] step \"");
            b.chars(&label);
            b.lit("\" NOT READY - process ");
            b.chars(&chars_of(ps_process_name(process_name.as_str()).as_str()));
            b.lit(" - timeout ");
            b.num(t);
            b.lit("s && pause && exit /b 1");
            assert(b.v@ =~= wait_block_cmd_spec(*cond, default_timeout_sec, step_name@));
            string_of(&b.v)
        },
    }
}

/// The wait block of a PowerShell script for `cond`.
pub fn wait_block_ps(cond: &ReadyCondition, default_timeout_sec: u64, step_name: &str) -> (r: String)
    requires
        timeouts_fit(*cond, default_timeout_sec),
    ensures
        r@ == wait_block_ps_spec(*cond, default_timeout_sec, step_name@),
{
    let label = safe_label_exec(&chars_of(step_name));
    let t = effective_timeout(cond, default_timeout_sec);
    match cond {
        ReadyCondition::Immediate => String::new(),
        ReadyCondition::Delay { seconds } => {
            if *seconds == 0 {
                String::new()
            } else {
                let mut b = Text::new();
                b.lit("Start-Sleep -Seconds ");
                b.num(*seconds);
                assert(b.v@ =~= wait_block_ps_spec(*cond, default_timeout_sec, step_name@));
                string_of(&b.v)
            }
        },
        ReadyCondition::Port { port, host, .. } => {
            let mut b = Text::new();
            b.lit("$tries = ");
            b.num(t * 2);
            b.lit("\r\nwhile($tries -gt 0){ if(");
            b.chars(&port_expr(host, *port));
            b.lit("){ break }; Start-Sleep -Milliseconds 500; $tries = $tries - 1 }\r\nif($tries -le 0){ Write-Host '[DevLaunch] step ");
            b.chars(&label);
            b.lit(" NOT READY - port ");
            b.chars(&chars_of(host.as_str()));
            b.lit(":");
            b.num(*port as u64);
            b.lit(" - timeout ");
            b.num(t);
            b.lit("s'; Read-Host 'Press Enter to exit'; exit 1 }");
            assert(b.v@ =~= wait_block_ps_spec(*cond, default_timeout_sec, step_name@));
            string_of(&b.v)
        },
        ReadyCondition::Process { process_name, .. } => {
            let mut b = Text::new();
            b.lit("$tries = ");
            b.num(t * 2);
            b.lit("\r\nwhile($tries -gt 0){ if(");
            b.chars(&process_expr(process_name));
            b.lit("){ break }; Start-Sleep -Milliseconds 500; $tries = $tries - 1 }\r\nif($tries -le 0){ Write-Host '[DevLaunch] step ");
            b.chars(&label);
            b.lit(" NOT READY - process ");
            b.chars(&chars_of(ps_process_name(process_name.as_str()).as_str()));
            b.lit(" - timeout ");
            b.num(t);
            b.lit("s'; Read-Host 'Press Enter to exit'; exit 1 }");
            assert(b.v@ =~= wait_block_ps_spec(*cond, default_timeout_sec, step_name@));
            string_of(&b.v)
        },
    }
}

} // verus!
