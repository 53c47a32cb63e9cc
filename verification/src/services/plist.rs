//! The launchd property list of a service.
use vstd::prelude::*;
use crate::metadata::{KeepAlive, KeepAliveValue, Service};
use crate::services::label;
use crate::text::{
    chars_of, contains_seq, int_string, lemma_contains_end, lemma_contains_extend, lemma_contains_start_of, push_char,
    push_i64, push_str, to_string,
};

verus! {

/// `c` as it appears in XML text: `&`, `<` and `>` escaped.
pub open spec fn escape_char(c: char) -> Seq<char> {
    if c == '&' {
        "&amp;"@
    } else if c == '<' {
        "&lt;"@
    } else if c == '>' {
        "&gt;"@
    } else {
        seq![c]
    }
}

/// `s` with `&`, `<` and `>` escaped.
pub open spec fn escape(s: Seq<char>) -> Seq<char>
    decreases s.len(),
{
    if s.len() == 0 {
        seq![]
    } else {
        escape(s.drop_last()) + escape_char(s.last())
    }
}

/// Escaped text holds no `<` and no `>`.
pub proof fn lemma_escape_no_markup(s: Seq<char>)
    ensures
        !escape(s).contains('<'),
        !escape(s).contains('>'),
    decreases s.len(),
{
    reveal_strlit("&amp;");
    reveal_strlit("&lt;");
    reveal_strlit("&gt;");
    if s.len() > 0 {
        lemma_escape_no_markup(s.drop_last());
        let a = escape(s.drop_last());
        let b = escape_char(s.last());
        assert(!b.contains('<') && !b.contains('>'));
        assert forall|i: int| 0 <= i < (a + b).len() implies (a + b)[i] != '<' && (a + b)[i] != '>' by {
            if i < a.len() {
                assert((a + b)[i] == a[i]);
            } else {
                assert((a + b)[i] == b[i - a.len()]);
            }
        }
    }
}

/// Escapes `&`, `<` and `>` for XML text.
pub fn xml_escape(s: &str) -> (r: String)
    ensures
        r@ == escape(s@),
{
    let cs = chars_of(s);
    let mut r = String::new();
    let mut i: usize = 0;
    proof {
        reveal_strlit("&amp;");
        reveal_strlit("&lt;");
        reveal_strlit("&gt;");
    }
    assert(cs@.take(0) =~= Seq::<char>::empty());
    while i < cs.len()
        invariant
            i <= cs@.len(),
            r@ == escape(cs@.take(i as int)),
        decreases cs.len() - i,
    {
        let c = cs[i];
        assert(cs@.take(i + 1).drop_last() == cs@.take(i as int));
        assert(cs@.take(i + 1).last() == c);
        if c == '&' {
            push_str(&mut r, "&amp;");
        } else if c == '<' {
            push_str(&mut r, "&lt;");
        } else if c == '>' {
            push_str(&mut r, "&gt;");
        } else {
            push_char(&mut r, c);
        }
        i = i + 1;
    }
    assert(cs@.take(cs@.len() as int) == cs@);
    r
}

/// A `<key>` with a `<string>` value.
pub open spec fn kv_spec(key: Seq<char>, value: Seq<char>) -> Seq<char> {
    "\t<key>"@ + key + "</key>\n\t<string>"@ + escape(value) + "</string>\n"@
}

/// Appends a `<key>` with a `<string>` value (the value escaped).
pub fn kv_string(buf: &mut String, key: &str, value: &str)
    ensures
        final(buf)@ == old(buf)@ + kv_spec(key@, value@),
{
    push_str(buf, "\t<key>");
    push_str(buf, key);
    push_str(buf, "</key>\n\t<string>");
    let e = xml_escape(value);
    push_str(buf, e.as_str());
    push_str(buf, "</string>\n");
    assert(buf@ =~= old(buf)@ + kv_spec(key@, value@));
}

/// `true` or `false`.
pub open spec fn bool_word(b: bool) -> Seq<char> {
    if b { "true"@ } else { "false"@ }
}

/// The keep-alive conditions `entries`; values neither boolean nor integer
/// are left out.
pub open spec fn keep_alive_entries(entries: Seq<(String, KeepAliveValue)>) -> Seq<char>
    decreases entries.len(),
{
    if entries.len() == 0 {
        seq![]
    } else {
        let (k, v) = entries.last();
        keep_alive_entries(entries.drop_last()) + match v {
            KeepAliveValue::Bool(b) => "\t\t<key>"@ + k@ + "</key>\n\t\t<"@ + bool_word(b) + "/>\n"@,
            KeepAliveValue::Int(n) => "\t\t<key>"@ + k@ + "</key>\n\t\t<integer>"@ + int_string(n as int) + "</integer>\n"@,
            KeepAliveValue::Other => seq![],
        }
    }
}

/// The `KeepAlive` part of a property list.
pub open spec fn keep_alive_spec(ka: Option<KeepAlive>) -> Seq<char> {
    match ka {
        None => seq![],
        Some(KeepAlive::Bool(b)) => "\t<key>KeepAlive</key>\n\t<"@ + bool_word(b) + "/>\n"@,
        Some(KeepAlive::Obj(m)) => "\t<key>KeepAlive</key>\n\t<dict>\n"@ + keep_alive_entries(m@) + "\t</dict>\n"@,
    }
}

/// One `<string>` per program argument.
pub open spec fn arg_lines(run: Seq<String>) -> Seq<char>
    decreases run.len(),
{
    if run.len() == 0 {
        seq![]
    } else {
        arg_lines(run.drop_last()) + "\t\t<string>"@ + escape(run.last()@) + "</string>\n"@
    }
}

/// The `ProgramArguments` part of a property list.
pub open spec fn program_arguments_spec(run: Seq<String>) -> Seq<char> {
    if run.len() == 0 {
        seq![]
    } else {
        "\t<key>ProgramArguments</key>\n\t<array>\n"@ + arg_lines(run) + "\t</array>\n"@
    }
}

/// One `<key>`/`<string>` pair per environment variable, both escaped.
pub open spec fn env_lines(env: Seq<(String, String)>) -> Seq<char>
    decreases env.len(),
{
    if env.len() == 0 {
        seq![]
    } else {
        env_lines(env.drop_last()) + "\t\t<key>"@ + escape(env.last().0@) + "</key>\n\t\t<string>"@ + escape(
            env.last().1@,
        ) + "</string>\n"@
    }
}

/// The `EnvironmentVariables` part of a property list.
pub open spec fn environment_spec(env: Seq<(String, String)>) -> Seq<char> {
    if env.len() == 0 {
        seq![]
    } else {
        "\t<key>EnvironmentVariables</key>\n\t<dict>\n"@ + env_lines(env) + "\t</dict>\n"@
    }
}

/// The opening of every property list.
pub open spec fn plist_header() -> Seq<char> {
    "<?xml version=\"1.0\" encoding=\"UTF-8\"?>\n<!DOCTYPE plist PUBLIC \"-//Apple//DTD PLIST 1.0//EN\" \"http://www.apple.com/DTDs/PropertyList-1.0.dtd\">\n<plist version=\"1.0\">\n<dict>\n"@
}

/// The launchd property list of the service of formula `name`.
pub open spec fn render_spec(name: Seq<char>, s: Service, out_log: Seq<char>, err_log: Seq<char>, run_at_load: bool) -> Seq<char> {
    plist_header() + kv_spec("Label"@, label(name)) + "\t<key>RunAtLoad</key>\n\t<"@ + bool_word(run_at_load)
        + "/>\n"@ + keep_alive_spec(s.keep_alive) + match s.working_dir {
        Some(wd) => kv_spec("WorkingDirectory"@, wd@),
        None => seq![],
    } + match s.process_type {
        Some(pt) => kv_spec("ProcessType"@, pt@),
        None => kv_spec("ProcessType"@, "Background"@),
    } + kv_spec("StandardOutPath"@, out_log) + kv_spec("StandardErrorPath"@, err_log)
        + program_arguments_spec(s.run@) + environment_spec(s.environment_variables@) + "</dict>\n</plist>\n"@
}

/// `h` starts everything built by appending to it.
proof fn lemma_prefix_grows(
    h: Seq<char>, a: Seq<char>, b: Seq<char>, c: Seq<char>, d: Seq<char>, f: Seq<char>, g: Seq<char>,
    i: Seq<char>, j: Seq<char>, k: Seq<char>, l: Seq<char>, m: Seq<char>, n: Seq<char>,
)
    ensures
        h.is_prefix_of(h + a + b + c + d + f + g + i + j + k + l + m + n),
{
    let r = h + a + b + c + d + f + g + i + j + k + l + m + n;
    assert forall|q: int| 0 <= q < h.len() implies r[q] == h[q] by {
        assert((h + a)[q] == h[q]);
        assert((h + a + b)[q] == h[q]);
        assert((h + a + b + c)[q] == h[q]);
        assert((h + a + b + c + d)[q] == h[q]);
        assert((h + a + b + c + d + f)[q] == h[q]);
        assert((h + a + b + c + d + f + g)[q] == h[q]);
        assert((h + a + b + c + d + f + g + i)[q] == h[q]);
        assert((h + a + b + c + d + f + g + i + j)[q] == h[q]);
        assert((h + a + b + c + d + f + g + i + j + k)[q] == h[q]);
        assert((h + a + b + c + d + f + g + i + j + k + l)[q] == h[q]);
        assert((h + a + b + c + d + f + g + i + j + k + l + m)[q] == h[q]);
    }
}

/// What every rendered property list holds, in launchd's key/string form:
/// the label `sh.olma.<name>`, whether to run at load, the keep-alive key
/// when the service has one, the working directory when it has one, the
/// process type (`Background` by default), and the two log paths; and it
/// opens with the XML header and closes the dictionary and the list.
/// The label `sh.olma.<name>` is in every property list.
pub proof fn lemma_render_label(name: Seq<char>, s: Service, out_log: Seq<char>, err_log: Seq<char>, run_at_load: bool)
    ensures
        contains_seq(render_spec(name, s, out_log, err_log, run_at_load), "\t<key>Label</key>\n\t<string>"@ + escape("sh.olma."@ + name) + "</string>\n"@),
{
    let h = plist_header();
    let l = kv_spec("Label"@, label(name));
    let lit1 = "\t<key>RunAtLoad</key>\n\t<"@;
    let bw = bool_word(run_at_load);
    let lit2 = "/>\n"@;
    let ka = keep_alive_spec(s.keep_alive);
    let wd = match s.working_dir {
        Some(w) => kv_spec("WorkingDirectory"@, w@),
        None => seq![],
    };
    let pt = match s.process_type {
        Some(p) => kv_spec("ProcessType"@, p@),
        None => kv_spec("ProcessType"@, "Background"@),
    };
    let o = kv_spec("StandardOutPath"@, out_log);
    let e = kv_spec("StandardErrorPath"@, err_log);
    let pa = program_arguments_spec(s.run@);
    let ev = environment_spec(s.environment_variables@);
    let t = "</dict>\n</plist>\n"@;
    let p1 = h + l;
    let p2 = p1 + lit1;
    let p3 = p2 + bw;
    let p4 = p3 + lit2;
    let p5 = p4 + ka;
    let p6 = p5 + wd;
    let p7 = p6 + pt;
    let p8 = p7 + o;
    let p9 = p8 + e;
    let p10 = p9 + pa;
    let p11 = p10 + ev;
    let r = p11 + t;
    assert(r == render_spec(name, s, out_log, err_log, run_at_load));
    lemma_contains_end(h, l);
    lemma_contains_extend(p1, lit1, l);
    lemma_contains_extend(p2, bw, l);
    lemma_contains_extend(p3, lit2, l);
    lemma_contains_extend(p4, ka, l);
    lemma_contains_extend(p5, wd, l);
    lemma_contains_extend(p6, pt, l);
    lemma_contains_extend(p7, o, l);
    lemma_contains_extend(p8, e, l);
    lemma_contains_extend(p9, pa, l);
    lemma_contains_extend(p10, ev, l);
    lemma_contains_extend(p11, t, l);
    lemma_key_label();
}

/// The process type is in every property list: the service's own, or
/// `Background`.
pub proof fn lemma_render_process_type(name: Seq<char>, s: Service, out_log: Seq<char>, err_log: Seq<char>, run_at_load: bool)
    ensures
        contains_seq(render_spec(name, s, out_log, err_log, run_at_load), "\t<key>ProcessType</key>\n\t<string>"@ + escape(match s.process_type {
            Some(p) => p@,
            None => "Background"@,
        }) + "</string>\n"@),
{
    let h = plist_header();
    let l = kv_spec("Label"@, label(name));
    let lit1 = "\t<key>RunAtLoad</key>\n\t<"@;
    let bw = bool_word(run_at_load);
    let lit2 = "/>\n"@;
    let ka = keep_alive_spec(s.keep_alive);
    let wd = match s.working_dir {
        Some(w) => kv_spec("WorkingDirectory"@, w@),
        None => seq![],
    };
    let pt = match s.process_type {
        Some(p) => kv_spec("ProcessType"@, p@),
        None => kv_spec("ProcessType"@, "Background"@),
    };
    let o = kv_spec("StandardOutPath"@, out_log);
    let e = kv_spec("StandardErrorPath"@, err_log);
    let pa = program_arguments_spec(s.run@);
    let ev = environment_spec(s.environment_variables@);
    let t = "</dict>\n</plist>\n"@;
    let p1 = h + l;
    let p2 = p1 + lit1;
    let p3 = p2 + bw;
    let p4 = p3 + lit2;
    let p5 = p4 + ka;
    let p6 = p5 + wd;
    let p7 = p6 + pt;
    let p8 = p7 + o;
    let p9 = p8 + e;
    let p10 = p9 + pa;
    let p11 = p10 + ev;
    let r = p11 + t;
    assert(r == render_spec(name, s, out_log, err_log, run_at_load));
    lemma_contains_end(p6, pt);
    lemma_contains_extend(p7, o, pt);
    lemma_contains_extend(p8, e, pt);
    lemma_contains_extend(p9, pa, pt);
    lemma_contains_extend(p10, ev, pt);
    lemma_contains_extend(p11, t, pt);
    lemma_key_process_type();
}

/// Both log paths are in every property list.
pub proof fn lemma_render_logs(name: Seq<char>, s: Service, out_log: Seq<char>, err_log: Seq<char>, run_at_load: bool)
    ensures
        contains_seq(render_spec(name, s, out_log, err_log, run_at_load), "\t<key>StandardOutPath</key>\n\t<string>"@ + escape(out_log) + "</string>\n"@),
        contains_seq(render_spec(name, s, out_log, err_log, run_at_load), "\t<key>StandardErrorPath</key>\n\t<string>"@ + escape(err_log) + "</string>\n"@),
{
    let h = plist_header();
    let l = kv_spec("Label"@, label(name));
    let lit1 = "\t<key>RunAtLoad</key>\n\t<"@;
    let bw = bool_word(run_at_load);
    let lit2 = "/>\n"@;
    let ka = keep_alive_spec(s.keep_alive);
    let wd = match s.working_dir {
        Some(w) => kv_spec("WorkingDirectory"@, w@),
        None => seq![],
    };
    let pt = match s.process_type {
        Some(p) => kv_spec("ProcessType"@, p@),
        None => kv_spec("ProcessType"@, "Background"@),
    };
    let o = kv_spec("StandardOutPath"@, out_log);
    let e = kv_spec("StandardErrorPath"@, err_log);
    let pa = program_arguments_spec(s.run@);
    let ev = environment_spec(s.environment_variables@);
    let t = "</dict>\n</plist>\n"@;
    let p1 = h + l;
    let p2 = p1 + lit1;
    let p3 = p2 + bw;
    let p4 = p3 + lit2;
    let p5 = p4 + ka;
    let p6 = p5 + wd;
    let p7 = p6 + pt;
    let p8 = p7 + o;
    let p9 = p8 + e;
    let p10 = p9 + pa;
    let p11 = p10 + ev;
    let r = p11 + t;
    assert(r == render_spec(name, s, out_log, err_log, run_at_load));
    lemma_contains_end(p7, o);
    lemma_contains_extend(p8, e, o);
    lemma_contains_extend(p9, pa, o);
    lemma_contains_extend(p10, ev, o);
    lemma_contains_extend(p11, t, o);
    lemma_contains_end(p8, e);
    lemma_contains_extend(p9, pa, e);
    lemma_contains_extend(p10, ev, e);
    lemma_contains_extend(p11, t, e);
    lemma_key_out();
    lemma_key_err();
}

/// A service with a keep-alive setting has a `KeepAlive` key.
pub proof fn lemma_render_keep_alive(name: Seq<char>, s: Service, out_log: Seq<char>, err_log: Seq<char>, run_at_load: bool)
    requires
        s.keep_alive is Some,
    ensures
        contains_seq(render_spec(name, s, out_log, err_log, run_at_load), "\t<key>KeepAlive</key>\n\t<"@),
{
    let h = plist_header();
    let l = kv_spec("Label"@, label(name));
    let lit1 = "\t<key>RunAtLoad</key>\n\t<"@;
    let bw = bool_word(run_at_load);
    let lit2 = "/>\n"@;
    let ka = keep_alive_spec(s.keep_alive);
    let wd = match s.working_dir {
        Some(w) => kv_spec("WorkingDirectory"@, w@),
        None => seq![],
    };
    let pt = match s.process_type {
        Some(p) => kv_spec("ProcessType"@, p@),
        None => kv_spec("ProcessType"@, "Background"@),
    };
    let o = kv_spec("StandardOutPath"@, out_log);
    let e = kv_spec("StandardErrorPath"@, err_log);
    let pa = program_arguments_spec(s.run@);
    let ev = environment_spec(s.environment_variables@);
    let t = "</dict>\n</plist>\n"@;
    let p1 = h + l;
    let p2 = p1 + lit1;
    let p3 = p2 + bw;
    let p4 = p3 + lit2;
    let p5 = p4 + ka;
    let p6 = p5 + wd;
    let p7 = p6 + pt;
    let p8 = p7 + o;
    let p9 = p8 + e;
    let p10 = p9 + pa;
    let p11 = p10 + ev;
    let r = p11 + t;
    assert(r == render_spec(name, s, out_log, err_log, run_at_load));
    let kp = "\t<key>KeepAlive</key>\n\t<"@;
    assert(kp.is_prefix_of(ka)) by {
        reveal_strlit("\t<key>KeepAlive</key>\n\t<");
        reveal_strlit("\t<key>KeepAlive</key>\n\t<dict>\n");
    }
    lemma_contains_start_of(p4, ka, kp);
    lemma_contains_extend(p5, wd, kp);
    lemma_contains_extend(p6, pt, kp);
    lemma_contains_extend(p7, o, kp);
    lemma_contains_extend(p8, e, kp);
    lemma_contains_extend(p9, pa, kp);
    lemma_contains_extend(p10, ev, kp);
    lemma_contains_extend(p11, t, kp);
}

/// Every property list opens with the XML header and closes the dictionary
/// and the list.
pub proof fn lemma_render_frame(name: Seq<char>, s: Service, out_log: Seq<char>, err_log: Seq<char>, run_at_load: bool)
    ensures
        plist_header().is_prefix_of(render_spec(name, s, out_log, err_log, run_at_load)),
        "</dict>\n</plist>\n"@.is_suffix_of(render_spec(name, s, out_log, err_log, run_at_load)),
{
    let h = plist_header();
    let l = kv_spec("Label"@, label(name));
    let lit1 = "\t<key>RunAtLoad</key>\n\t<"@;
    let bw = bool_word(run_at_load);
    let lit2 = "/>\n"@;
    let ka = keep_alive_spec(s.keep_alive);
    let wd = match s.working_dir {
        Some(w) => kv_spec("WorkingDirectory"@, w@),
        None => seq![],
    };
    let pt = match s.process_type {
        Some(p) => kv_spec("ProcessType"@, p@),
        None => kv_spec("ProcessType"@, "Background"@),
    };
    let o = kv_spec("StandardOutPath"@, out_log);
    let e = kv_spec("StandardErrorPath"@, err_log);
    let pa = program_arguments_spec(s.run@);
    let ev = environment_spec(s.environment_variables@);
    let t = "</dict>\n</plist>\n"@;
    let p1 = h + l;
    let p2 = p1 + lit1;
    let p3 = p2 + bw;
    let p4 = p3 + lit2;
    let p5 = p4 + ka;
    let p6 = p5 + wd;
    let p7 = p6 + pt;
    let p8 = p7 + o;
    let p9 = p8 + e;
    let p10 = p9 + pa;
    let p11 = p10 + ev;
    let r = p11 + t;
    assert(r == render_spec(name, s, out_log, err_log, run_at_load));
    assert(r.subrange(r.len() - t.len(), r.len() as int) =~= t);
    lemma_prefix_grows(h, l, lit1, bw, lit2, ka, wd, pt, o, e, pa, ev, t);
}

/// The opening of the `Label` entry, spelled out.
proof fn lemma_key_label()
    ensures
        "\t<key>"@ + "Label"@ + "</key>\n\t<string>"@ == "\t<key>Label</key>\n\t<string>"@,
{
    reveal_strlit("\t<key>");
    reveal_strlit("Label");
    reveal_strlit("</key>\n\t<string>");
    reveal_strlit("\t<key>Label</key>\n\t<string>");
    assert("\t<key>"@ + "Label"@ + "</key>\n\t<string>"@ =~= "\t<key>Label</key>\n\t<string>"@);
}

/// The opening of the `ProcessType` entry, spelled out.
proof fn lemma_key_process_type()
    ensures
        "\t<key>"@ + "ProcessType"@ + "</key>\n\t<string>"@ == "\t<key>ProcessType</key>\n\t<string>"@,
{
    reveal_strlit("\t<key>");
    reveal_strlit("ProcessType");
    reveal_strlit("</key>\n\t<string>");
    reveal_strlit("\t<key>ProcessType</key>\n\t<string>");
    assert("\t<key>"@ + "ProcessType"@ + "</key>\n\t<string>"@ =~= "\t<key>ProcessType</key>\n\t<string>"@);
}

/// The opening of the `StandardOutPath` entry, spelled out.
proof fn lemma_key_out()
    ensures
        "\t<key>"@ + "StandardOutPath"@ + "</key>\n\t<string>"@ == "\t<key>StandardOutPath</key>\n\t<string>"@,
{
    reveal_strlit("\t<key>");
    reveal_strlit("StandardOutPath");
    reveal_strlit("</key>\n\t<string>");
    reveal_strlit("\t<key>StandardOutPath</key>\n\t<string>");
    assert("\t<key>"@ + "StandardOutPath"@ + "</key>\n\t<string>"@ =~= "\t<key>StandardOutPath</key>\n\t<string>"@);
}

/// The opening of the `StandardErrorPath` entry, spelled out.
proof fn lemma_key_err()
    ensures
        "\t<key>"@ + "StandardErrorPath"@ + "</key>\n\t<string>"@ == "\t<key>StandardErrorPath</key>\n\t<string>"@,
{
    reveal_strlit("\t<key>");
    reveal_strlit("StandardErrorPath");
    reveal_strlit("</key>\n\t<string>");
    reveal_strlit("\t<key>StandardErrorPath</key>\n\t<string>");
    assert("\t<key>"@ + "StandardErrorPath"@ + "</key>\n\t<string>"@ =~= "\t<key>StandardErrorPath</key>\n\t<string>"@);
}

/// The working directory of a service that has one is in its property list,
/// as a `WorkingDirectory` key with the escaped path as its string.
pub proof fn lemma_render_working_dir(name: Seq<char>, s: Service, out_log: Seq<char>, err_log: Seq<char>, run_at_load: bool)
    requires
        s.working_dir is Some,
    ensures
        contains_seq(render_spec(name, s, out_log, err_log, run_at_load),
            "\t<key>WorkingDirectory</key>\n\t<string>"@ + escape(s.working_dir->0@) + "</string>\n"@),
{
    let w = s.working_dir->0;
    let p5 = plist_header() + kv_spec("Label"@, label(name)) + "\t<key>RunAtLoad</key>\n\t<"@ + bool_word(run_at_load)
        + "/>\n"@ + keep_alive_spec(s.keep_alive);
    let wd = kv_spec("WorkingDirectory"@, w@);
    let p6 = p5 + wd;
    let pt = match s.process_type {
        Some(pt) => kv_spec("ProcessType"@, pt@),
        None => kv_spec("ProcessType"@, "Background"@),
    };
    let p7 = p6 + pt;
    let p8 = p7 + kv_spec("StandardOutPath"@, out_log);
    let p9 = p8 + kv_spec("StandardErrorPath"@, err_log);
    let p10 = p9 + program_arguments_spec(s.run@);
    let p11 = p10 + environment_spec(s.environment_variables@);
    let r = p11 + "</dict>\n</plist>\n"@;
    assert(r == render_spec(name, s, out_log, err_log, run_at_load));
    lemma_contains_end(p5, wd);
    lemma_contains_extend(p6, pt, wd);
    lemma_contains_extend(p7, kv_spec("StandardOutPath"@, out_log), wd);
    lemma_contains_extend(p8, kv_spec("StandardErrorPath"@, err_log), wd);
    lemma_contains_extend(p9, program_arguments_spec(s.run@), wd);
    lemma_contains_extend(p10, environment_spec(s.environment_variables@), wd);
    lemma_contains_extend(p11, "</dict>\n</plist>\n"@, wd);
    lemma_key_working_dir();
}

/// The opening of the `WorkingDirectory` entry, spelled out.
proof fn lemma_key_working_dir()
    ensures
        "\t<key>"@ + "WorkingDirectory"@ + "</key>\n\t<string>"@ == "\t<key>WorkingDirectory</key>\n\t<string>"@,
{
    reveal_strlit("\t<key>");
    reveal_strlit("WorkingDirectory");
    reveal_strlit("</key>\n\t<string>");
    reveal_strlit("\t<key>WorkingDirectory</key>\n\t<string>");
    assert("\t<key>"@ + "WorkingDirectory"@ + "</key>\n\t<string>"@ =~= "\t<key>WorkingDirectory</key>\n\t<string>"@);
}

fn push_bool_word(buf: &mut String, b: bool)
    ensures
        final(buf)@ == old(buf)@ + bool_word(b),
{
    if b {
        push_str(buf, "true");
    } else {
        push_str(buf, "false");
    }
}

fn push_keep_alive(buf: &mut String, ka: &Option<KeepAlive>)
    ensures
        final(buf)@ == old(buf)@ + keep_alive_spec(*ka),
{
    match ka {
        None => {
            assert(old(buf)@ + Seq::<char>::empty() == old(buf)@);
        },
        Some(KeepAlive::Bool(b)) => {
            push_str(buf, "\t<key>KeepAlive</key>\n\t<");
            push_bool_word(buf, *b);
            push_str(buf, "/>\n");
            assert(buf@ =~= old(buf)@ + keep_alive_spec(*ka));
        },
        Some(KeepAlive::Obj(m)) => {
            push_str(buf, "\t<key>KeepAlive</key>\n\t<dict>\n");
            let ghost start = buf@;
            let mut i: usize = 0;
            assert(m@.take(0) =~= Seq::<(String, KeepAliveValue)>::empty());
            assert(start + keep_alive_entries(m@.take(0)) == start);
            while i < m.len()
                invariant
                    i <= m@.len(),
                    buf@ == start + keep_alive_entries(m@.take(i as int)),
                decreases m.len() - i,
            {
                assert(m@.take(i + 1).drop_last() == m@.take(i as int));
                assert(m@.take(i + 1).last() == m@[i as int]);
                let ghost before = buf@;
                let k = &m[i].0;
                match &m[i].1 {
                    KeepAliveValue::Bool(b) => {
                        push_str(buf, "\t\t<key>");
                        push_str(buf, k.as_str());
                        push_str(buf, "</key>\n\t\t<");
                        push_bool_word(buf, *b);
                        push_str(buf, "/>\n");
                    },
                    KeepAliveValue::Int(n) => {
                        push_str(buf, "\t\t<key>");
                        push_str(buf, k.as_str());
                        push_str(buf, "</key>\n\t\t<integer>");
                        push_i64(buf, *n);
                        push_str(buf, "</integer>\n");
                    },
                    KeepAliveValue::Other => {},
                }
                assert(buf@ =~= start + keep_alive_entries(m@.take(i + 1)));
                i = i + 1;
            }
            assert(m@.take(m@.len() as int) == m@);
            push_str(buf, "\t</dict>\n");
            assert(buf@ =~= old(buf)@ + keep_alive_spec(*ka));
        },
    }
}

fn push_program_arguments(buf: &mut String, run: &Vec<String>)
    ensures
        final(buf)@ == old(buf)@ + program_arguments_spec(run@),
{
    if run.len() == 0 {
        assert(old(buf)@ + Seq::<char>::empty() == old(buf)@);
        return;
    }
    push_str(buf, "\t<key>ProgramArguments</key>\n\t<array>\n");
    let ghost start = buf@;
    let mut i: usize = 0;
    assert(run@.take(0) =~= Seq::<String>::empty());
    assert(start + arg_lines(run@.take(0)) == start);
    while i < run.len()
        invariant
            i <= run@.len(),
            buf@ == start + arg_lines(run@.take(i as int)),
        decreases run.len() - i,
    {
        assert(run@.take(i + 1).drop_last() == run@.take(i as int));
        assert(run@.take(i + 1).last() == run@[i as int]);
        push_str(buf, "\t\t<string>");
        let e = xml_escape(run[i].as_str());
        push_str(buf, e.as_str());
        push_str(buf, "</string>\n");
        assert(buf@ =~= start + arg_lines(run@.take(i + 1)));
        i = i + 1;
    }
    assert(run@.take(run@.len() as int) == run@);
    push_str(buf, "\t</array>\n");
    assert(buf@ =~= old(buf)@ + program_arguments_spec(run@));
}

fn push_environment(buf: &mut String, env: &Vec<(String, String)>)
    ensures
        final(buf)@ == old(buf)@ + environment_spec(env@),
{
    if env.len() == 0 {
        assert(old(buf)@ + Seq::<char>::empty() == old(buf)@);
        return;
    }
    push_str(buf, "\t<key>EnvironmentVariables</key>\n\t<dict>\n");
    let ghost start = buf@;
    let mut i: usize = 0;
    assert(env@.take(0) =~= Seq::<(String, String)>::empty());
    assert(start + env_lines(env@.take(0)) == start);
    while i < env.len()
        invariant
            i <= env@.len(),
            buf@ == start + env_lines(env@.take(i as int)),
        decreases env.len() - i,
    {
        assert(env@.take(i + 1).drop_last() == env@.take(i as int));
        assert(env@.take(i + 1).last() == env@[i as int]);
        push_str(buf, "\t\t<key>");
        let k = xml_escape(env[i].0.as_str());
        push_str(buf, k.as_str());
        push_str(buf, "</key>\n\t\t<string>");
        let v = xml_escape(env[i].1.as_str());
        push_str(buf, v.as_str());
        push_str(buf, "</string>\n");
        assert(buf@ =~= start + env_lines(env@.take(i + 1)));
        i = i + 1;
    }
    assert(env@.take(env@.len() as int) == env@);
    push_str(buf, "\t</dict>\n");
    assert(buf@ =~= old(buf)@ + environment_spec(env@));
}

/// The launchd property list for the service of formula `name`, logging to
/// `out_log` and `err_log`.
pub fn render(name: &str, service: &Service, out_log: &str, err_log: &str, run_at_load: bool) -> (r: String)
    ensures
        r@ == render_spec(name@, *service, out_log@, err_log@, run_at_load),
        service.working_dir is Some ==> contains_seq(r@,
            "\t<key>WorkingDirectory</key>\n\t<string>"@ + escape(service.working_dir->0@) + "</string>\n"@),
        contains_seq(r@, "\t<key>Label</key>\n\t<string>"@ + escape("sh.olma."@ + name@) + "</string>\n"@),
        contains_seq(r@, "\t<key>ProcessType</key>\n\t<string>"@ + escape(match service.process_type {
            Some(p) => p@,
            None => "Background"@,
        }) + "</string>\n"@),
        contains_seq(r@, "\t<key>StandardOutPath</key>\n\t<string>"@ + escape(out_log@) + "</string>\n"@),
        contains_seq(r@, "\t<key>StandardErrorPath</key>\n\t<string>"@ + escape(err_log@) + "</string>\n"@),
        service.keep_alive is Some ==> contains_seq(r@, "\t<key>KeepAlive</key>\n\t<"@),
        plist_header().is_prefix_of(r@),
        "</dict>\n</plist>\n"@.is_suffix_of(r@),
{
    proof {
        if service.working_dir is Some {
            lemma_render_working_dir(name@, *service, out_log@, err_log@, run_at_load);
        }
        if service.keep_alive is Some {
            lemma_render_keep_alive(name@, *service, out_log@, err_log@, run_at_load);
        }
        lemma_render_label(name@, *service, out_log@, err_log@, run_at_load);
        lemma_render_process_type(name@, *service, out_log@, err_log@, run_at_load);
        lemma_render_logs(name@, *service, out_log@, err_log@, run_at_load);
        lemma_render_frame(name@, *service, out_log@, err_log@, run_at_load);
    }
    let lbl = crate::services::label_for(name);
    let mut s = to_string(
        "<?xml version=\"1.0\" encoding=\"UTF-8\"?>\n<!DOCTYPE plist PUBLIC \"-//Apple//DTD PLIST 1.0//EN\" \"http://www.apple.com/DTDs/PropertyList-1.0.dtd\">\n<plist version=\"1.0\">\n<dict>\n",
    );
    kv_string(&mut s, "Label", lbl.as_str());
    push_str(&mut s, "\t<key>RunAtLoad</key>\n\t<");
    push_bool_word(&mut s, run_at_load);
    push_str(&mut s, "/>\n");
    push_keep_alive(&mut s, &service.keep_alive);
    let ghost after_ka = s@;
    match &service.working_dir {
        Some(wd) => kv_string(&mut s, "WorkingDirectory", wd.as_str()),
        None => {},
    }
    let ghost after_wd = s@;
    match &service.process_type {
        Some(pt) => kv_string(&mut s, "ProcessType", pt.as_str()),
        None => kv_string(&mut s, "ProcessType", "Background"),
    }
    kv_string(&mut s, "StandardOutPath", out_log);
    kv_string(&mut s, "StandardErrorPath", err_log);
    push_program_arguments(&mut s, &service.run);
    push_environment(&mut s, &service.environment_variables);
    push_str(&mut s, "</dict>\n</plist>\n");
    assert(after_wd == after_ka + match service.working_dir {
        Some(wd) => kv_spec("WorkingDirectory"@, wd@),
        None => Seq::<char>::empty(),
    });
    assert(s@ =~= render_spec(name@, *service, out_log@, err_log@, run_at_load));
    s
}

} // verus!
