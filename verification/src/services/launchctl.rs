//! The `launchctl` invocations for a service, and reading their output.
use vstd::prelude::*;
use crate::error::OlmaError;
use crate::services::label;
use crate::text::{
    chars_of, dec_string, first_word, first_word_chars, has_prefix_at, lines, lines_chars,
    parse_i32, parse_i32_spec, parse_u32, parse_u32_spec, push_str, push_u64, to_string, trim,
    trim_chars, u32_error_message, u32_parse_error,
};

verus! {

/// `gui/<uid>`, the launchd domain of the user's session.
pub open spec fn gui_domain(uid: u32) -> Seq<char> {
    "gui/"@ + dec_string(uid as nat)
}

/// `gui/<uid>/sh.olma.<name>`, the launchd target of a service.
pub open spec fn service_target(uid: u32, name: Seq<char>) -> Seq<char> {
    gui_domain(uid) + "/"@ + label(name)
}

/// The launchd domain of the user `uid`.
pub fn domain_for(uid: u32) -> (r: String)
    ensures
        r@ == gui_domain(uid),
{
    let mut r = to_string("gui/");
    push_u64(&mut r, uid as u64);
    r
}

/// The launchd target of the service of formula `name` for user `uid`.
pub fn target_for(uid: u32, name: &str) -> (r: String)
    ensures
        r@ == service_target(uid, name@),
{
    let mut r = domain_for(uid);
    push_str(&mut r, "/");
    push_str(&mut r, "sh.olma.");
    push_str(&mut r, name);
    assert(r@ =~= service_target(uid, name@));
    r
}

/// The views of a vector of strings.
pub open spec fn argv(v: Seq<String>) -> Seq<Seq<char>> {
    v.map_values(|s: String| s@)
}

/// `launchctl bootstrap gui/<uid> <plist>`: loads a service.
pub fn bootstrap(uid: u32, plist: &str) -> (r: Vec<String>)
    ensures
        argv(r@) == seq!["bootstrap"@, gui_domain(uid), plist@],
{
    let mut r: Vec<String> = Vec::new();
    r.push(to_string("bootstrap"));
    r.push(domain_for(uid));
    r.push(to_string(plist));
    assert(argv(r@) =~= seq!["bootstrap"@, gui_domain(uid), plist@]);
    r
}

/// `launchctl bootout gui/<uid>/sh.olma.<name>`: unloads a service.
pub fn bootout(uid: u32, name: &str) -> (r: Vec<String>)
    ensures
        argv(r@) == seq!["bootout"@, service_target(uid, name@)],
{
    let mut r: Vec<String> = Vec::new();
    r.push(to_string("bootout"));
    r.push(target_for(uid, name));
    assert(argv(r@) =~= seq!["bootout"@, service_target(uid, name@)]);
    r
}

/// `launchctl kickstart -k gui/<uid>/sh.olma.<name>`: restarts a service.
pub fn kickstart(uid: u32, name: &str) -> (r: Vec<String>)
    ensures
        argv(r@) == seq!["kickstart"@, "-k"@, service_target(uid, name@)],
{
    let mut r: Vec<String> = Vec::new();
    r.push(to_string("kickstart"));
    r.push(to_string("-k"));
    r.push(target_for(uid, name));
    assert(argv(r@) =~= seq!["kickstart"@, "-k"@, service_target(uid, name@)]);
    r
}

/// `launchctl disable gui/<uid>/sh.olma.<name>`: keeps a service from loading.
pub fn disable(uid: u32, name: &str) -> (r: Vec<String>)
    ensures
        argv(r@) == seq!["disable"@, service_target(uid, name@)],
{
    let mut r: Vec<String> = Vec::new();
    r.push(to_string("disable"));
    r.push(target_for(uid, name));
    assert(argv(r@) =~= seq!["disable"@, service_target(uid, name@)]);
    r
}

/// `launchctl print gui/<uid>/sh.olma.<name>`: describes a service.
pub fn print(uid: u32, name: &str) -> (r: Vec<String>)
    ensures
        argv(r@) == seq!["print"@, service_target(uid, name@)],
{
    let mut r: Vec<String> = Vec::new();
    r.push(to_string("print"));
    r.push(target_for(uid, name));
    assert(argv(r@) =~= seq!["print"@, service_target(uid, name@)]);
    r
}

/// The user id printed by `id -u`: the trimmed output parsed as a `u32`.
pub fn parse_uid(out: &str) -> (r: Result<u32, OlmaError>)
    ensures
        r is Ok <==> parse_u32_spec(trim(out@)) is Some,
        r matches Ok(u) ==> parse_u32_spec(trim(out@)) == Some(u),
        r matches Err(e) ==> (e matches OlmaError::Other(m) && m@ == "uid parse failed: "@ + u32_parse_error(trim(out@))),
{
    let c = chars_of(out);
    let t = trim_chars(&c);
    match parse_u32(&t) {
        Some(u) => Ok(u),
        None => {
            let mut m = to_string("uid parse failed: ");
            let why = u32_error_message(&t);
            push_str(&mut m, why.as_str());
            Err(OlmaError::Other(m))
        },
    }
}

/// Whether a service is running, as `launchctl print` reports it.
#[derive(Debug, Clone, Copy, PartialEq, Eq, Structural)]
pub enum ServiceState {
    Unknown,
    Running,
    Stopped,
    Failed,
}

impl Default for ServiceState {
    fn default() -> (r: Self)
        ensures
            r == ServiceState::Unknown,
    {
        ServiceState::Unknown
    }
}

/// What `launchctl print` tells about a service.
#[derive(Debug, Clone, Copy, PartialEq, Eq, Structural)]
pub struct PrintSnapshot {
    pub pid: Option<u32>,
    pub state: ServiceState,
    pub last_exit: Option<i32>,
}

impl Default for PrintSnapshot {
    fn default() -> (r: Self)
        ensures
            r == (PrintSnapshot { pid: None, state: ServiceState::Unknown, last_exit: None }),
    {
        PrintSnapshot { pid: None, state: ServiceState::Unknown, last_exit: None }
    }
}

/// The first word of `rest` parsed as a `u32`.
pub open spec fn first_u32(rest: Seq<char>) -> Option<u32> {
    match first_word(rest) {
        Some(w) => parse_u32_spec(w),
        None => None,
    }
}

/// The first word of `rest` parsed as an `i32`.
pub open spec fn first_i32(rest: Seq<char>) -> Option<i32> {
    match first_word(rest) {
        Some(w) => parse_i32_spec(w),
        None => None,
    }
}

/// The state named by the text after `state = `.
pub open spec fn state_of(rest: Seq<char>) -> ServiceState {
    if trim(rest) == "running"@ {
        ServiceState::Running
    } else if trim(rest) == "not running"@ {
        ServiceState::Stopped
    } else {
        ServiceState::Unknown
    }
}

/// One line of `launchctl print` output applied to the snapshot; a later
/// line overrides an earlier one.
pub open spec fn print_step(s: PrintSnapshot, line: Seq<char>) -> PrintSnapshot {
    let t = trim(line);
    if "pid = "@.is_prefix_of(t) {
        PrintSnapshot { pid: first_u32(t.skip(6)), ..s }
    } else if "state = "@.is_prefix_of(t) {
        PrintSnapshot { state: state_of(t.skip(8)), ..s }
    } else if "last exit code = "@.is_prefix_of(t) {
        PrintSnapshot { last_exit: first_i32(t.skip(17)), ..s }
    } else {
        s
    }
}

/// The snapshot after the lines `ls`.
pub open spec fn print_run(ls: Seq<Seq<char>>) -> PrintSnapshot
    decreases ls.len(),
{
    if ls.len() == 0 {
        PrintSnapshot { pid: None, state: ServiceState::Unknown, last_exit: None }
    } else {
        print_step(print_run(ls.drop_last()), ls.last())
    }
}

/// `s[from..]` as a new vector.
fn tail_chars(s: &Vec<char>, from: usize) -> (r: Vec<char>)
    requires
        from <= s@.len(),
    ensures
        r@ == s@.skip(from as int),
{
    let mut r: Vec<char> = Vec::new();
    let mut i = from;
    while i < s.len()
        invariant
            from <= i <= s@.len(),
            r@ == s@.subrange(from as int, i as int),
        decreases s.len() - i,
    {
        r.push(s[i]);
        assert(s@.subrange(from as int, i + 1) == s@.subrange(from as int, i as int).push(s@[i as int]));
        i = i + 1;
    }
    assert(s@.subrange(from as int, s@.len() as int) == s@.skip(from as int));
    r
}

/// Reads the pid, state and last exit code from `launchctl print` output.
pub fn parse_print(out: &str) -> (r: PrintSnapshot)
    ensures
        r == print_run(lines(out@)),
{
    let chars = chars_of(out);
    let ls = lines_chars(&chars);
    let pid_kw = chars_of("pid = ");
    let state_kw = chars_of("state = ");
    let exit_kw = chars_of("last exit code = ");
    let running = chars_of("running");
    let not_running = chars_of("not running");
    proof {
        reveal_strlit("pid = ");
        reveal_strlit("state = ");
        reveal_strlit("last exit code = ");
    }
    let mut snap = PrintSnapshot { pid: None, state: ServiceState::Unknown, last_exit: None };
    let ghost all = ls@.map_values(|l: Vec<char>| l@);
    assert(all.take(0) =~= Seq::<Seq<char>>::empty());
    let mut i: usize = 0;
    while i < ls.len()
        invariant
            i <= ls@.len(),
            all == ls@.map_values(|l: Vec<char>| l@),
            all == lines(out@),
            pid_kw@ == "pid = "@,
            state_kw@ == "state = "@,
            exit_kw@ == "last exit code = "@,
            pid_kw@.len() == 6,
            state_kw@.len() == 8,
            exit_kw@.len() == 17,
            running@ == "running"@,
            not_running@ == "not running"@,
            snap == print_run(all.take(i as int)),
        decreases ls.len() - i,
    {
        let t = trim_chars(&ls[i]);
        assert(all.take(i + 1).drop_last() == all.take(i as int));
        assert(all.take(i + 1).last() == ls@[i as int]@);
        assert(t@.skip(0) == t@);
        if has_prefix_at(&t, 0, &pid_kw) {
            let rest = tail_chars(&t, 6);
            snap.pid = match first_word_chars(&rest) {
                Some(w) => parse_u32(&w),
                None => None,
            };
        } else if has_prefix_at(&t, 0, &state_kw) {
            let rest = tail_chars(&t, 8);
            let rt = trim_chars(&rest);
            snap.state = if crate::text::seq_eq(&rt, &running) {
                ServiceState::Running
            } else if crate::text::seq_eq(&rt, &not_running) {
                ServiceState::Stopped
            } else {
                ServiceState::Unknown
            };
        } else if has_prefix_at(&t, 0, &exit_kw) {
            let rest = tail_chars(&t, 17);
            snap.last_exit = match first_word_chars(&rest) {
                Some(w) => parse_i32(&w),
                None => None,
            };
        }
        i = i + 1;
    }
    assert(all.take(ls@.len() as int) == all);
    snap
}

} // verus!
