use olma::metadata::{KeepAlive, KeepAliveValue, Service};
use olma::pipeline::link::{link_action, package_name_of, ExistingLink, LinkAction, LinkStats, record_link};
use olma::pipeline::relocate::{relocated_symlink_target, RelocStats};
use olma::relocator::classify::{classify_bytes, FileKind};
use olma::relocator::macho::{check_clt_available, clt_tools, macho_commands, parse_otool_l, swap_prefix, LoadCmds};
use olma::relocator::text::replace_prefix_in_bytes;
use olma::services::launchctl::{bootout, bootstrap, disable, kickstart, parse_print, parse_uid, print, ServiceState};
use olma::services::plist::{kv_string, render, xml_escape};
use olma::services::{label_for, relocate_service, swap_all};
use olma::error::OlmaError;

fn swaps() -> Vec<(String, String)> {
    vec![("@@HOMEBREW_PREFIX@@".to_string(), "/opt/olma".to_string())]
}

#[test]
fn labels_and_launchctl() {
    assert_eq!(label_for("redis"), "sh.olma.redis");
    assert_eq!(bootstrap(501, "/p.plist"), vec!["bootstrap", "gui/501", "/p.plist"]);
    assert_eq!(bootout(501, "redis"), vec!["bootout", "gui/501/sh.olma.redis"]);
    assert_eq!(kickstart(501, "redis"), vec!["kickstart", "-k", "gui/501/sh.olma.redis"]);
    assert_eq!(disable(501, "redis"), vec!["disable", "gui/501/sh.olma.redis"]);
    assert_eq!(print(501, "redis"), vec!["print", "gui/501/sh.olma.redis"]);
    assert_eq!(parse_uid(" 501\n").unwrap(), 501);
    match parse_uid("abc") {
        Err(OlmaError::Other(m)) => assert_eq!(m, format!("uid parse failed: {}", "abc".parse::<u32>().unwrap_err())),
        _ => panic!("not a number"),
    }
    match parse_uid("  \n") {
        Err(OlmaError::Other(m)) => assert_eq!(m, format!("uid parse failed: {}", "".parse::<u32>().unwrap_err())),
        _ => panic!("empty"),
    }
    match parse_uid("99999999999") {
        Err(OlmaError::Other(m)) => assert_eq!(m, format!("uid parse failed: {}", "99999999999".parse::<u32>().unwrap_err())),
        _ => panic!("too large"),
    }
    match parse_uid("+") {
        Err(OlmaError::Other(m)) => assert_eq!(m, format!("uid parse failed: {}", "+".parse::<u32>().unwrap_err())),
        _ => panic!("a lone sign"),
    }
    assert_eq!(parse_uid("+7").unwrap(), 7);
}

#[test]
fn launchctl_print_snapshot() {
    let out = "gui/501/sh.olma.redis = {\n\tstate = running\n\tpid = 4242\n\tlast exit code = -15\n}\n";
    let s = parse_print(out);
    assert_eq!(s.pid, Some(4242));
    assert_eq!(s.state, ServiceState::Running);
    assert_eq!(s.last_exit, Some(-15));
    let t = parse_print("state = not running\n");
    assert_eq!(t.state, ServiceState::Stopped);
    assert_eq!(t.pid, None);
    assert_eq!(parse_print("").state, ServiceState::Unknown);
}

#[test]
fn escaping() {
    assert_eq!(xml_escape("a<b>&c"), "a&lt;b&gt;&amp;c");
    assert_eq!(xml_escape("plain"), "plain");
    let mut s = String::from("x");
    kv_string(&mut s, "K", "<v>");
    assert_eq!(s, "x\t<key>K</key>\n\t<string>&lt;v&gt;</string>\n");
}

#[test]
fn property_list() {
    let svc = Service {
        run: vec!["/opt/olma/bin/redis-server".to_string(), "a&b".to_string()],
        keep_alive: Some(KeepAlive::Obj(vec![
            ("Crashed".to_string(), KeepAliveValue::Bool(true)),
            ("Other".to_string(), KeepAliveValue::Other),
            ("ThrottleInterval".to_string(), KeepAliveValue::Int(30)),
        ])),
        working_dir: None,
        log_path: None,
        error_log_path: None,
        process_type: None,
        environment_variables: vec![("LANG".to_string(), "C".to_string())],
    };
    let expected = "<?xml version=\"1.0\" encoding=\"UTF-8\"?>\n\
<!DOCTYPE plist PUBLIC \"-//Apple//DTD PLIST 1.0//EN\" \"http://www.apple.com/DTDs/PropertyList-1.0.dtd\">\n\
<plist version=\"1.0\">\n<dict>\n\
\t<key>Label</key>\n\t<string>sh.olma.redis</string>\n\
\t<key>RunAtLoad</key>\n\t<true/>\n\
\t<key>KeepAlive</key>\n\t<dict>\n\t\t<key>Crashed</key>\n\t\t<true/>\n\t\t<key>ThrottleInterval</key>\n\t\t<integer>30</integer>\n\t</dict>\n\
\t<key>ProcessType</key>\n\t<string>Background</string>\n\
\t<key>StandardOutPath</key>\n\t<string>/o.log</string>\n\
\t<key>StandardErrorPath</key>\n\t<string>/e.log</string>\n\
\t<key>ProgramArguments</key>\n\t<array>\n\t\t<string>/opt/olma/bin/redis-server</string>\n\t\t<string>a&amp;b</string>\n\t</array>\n\
\t<key>EnvironmentVariables</key>\n\t<dict>\n\t\t<key>LANG</key>\n\t\t<string>C</string>\n\t</dict>\n\
</dict>\n</plist>\n";
    assert_eq!(render("redis", &svc, "/o.log", "/e.log", true), expected);
}

#[test]
fn relocating_services() {
    assert_eq!(swap_all("@@HOMEBREW_PREFIX@@/bin/x", &swaps()), "/opt/olma/bin/x");
    assert_eq!(swap_all("/usr/bin/x", &swaps()), "/usr/bin/x");
    assert_eq!(swap_all("same", &[("same".to_string(), "same".to_string())]), "same");
    let mut svc = Service {
        run: vec!["@@HOMEBREW_PREFIX@@/bin/redis".to_string()],
        keep_alive: Some(KeepAlive::Bool(true)),
        working_dir: Some("@@HOMEBREW_PREFIX@@/var".to_string()),
        log_path: None,
        error_log_path: Some("@@HOMEBREW_PREFIX@@/var/log/e".to_string()),
        process_type: None,
        environment_variables: vec![("HOME".to_string(), "@@HOMEBREW_PREFIX@@".to_string())],
    };
    relocate_service(&mut svc, &swaps());
    assert_eq!(svc.run, vec!["/opt/olma/bin/redis"]);
    assert_eq!(svc.working_dir.as_deref(), Some("/opt/olma/var"));
    assert_eq!(svc.log_path, None);
    assert_eq!(svc.error_log_path.as_deref(), Some("/opt/olma/var/log/e"));
    assert_eq!(svc.environment_variables, vec![("HOME".to_string(), "/opt/olma".to_string())]);
}

#[test]
fn byte_replacement() {
    assert_eq!(replace_prefix_in_bytes(b"a/OLD/b/OLD", "/OLD", "/NEW"), b"a/NEW/b/NEW".to_vec());
    assert_eq!(replace_prefix_in_bytes(b"nothing here", "/OLD", "/NEW"), b"nothing here".to_vec());
    assert_eq!(replace_prefix_in_bytes(b"aaaa", "aa", "b"), b"bb".to_vec());
}

#[test]
fn file_kinds() {
    assert_eq!(classify_bytes(&[0xCF, 0xFA, 0xED, 0xFE, 0, 0]), FileKind::MachO);
    assert_eq!(classify_bytes(&[0xCA, 0xFE, 0xBA, 0xBE]), FileKind::MachO);
    assert_eq!(classify_bytes(b"#!/bin/sh\necho hi\n"), FileKind::Text);
    assert_eq!(classify_bytes(b"ab\0cd"), FileKind::Binary);
    assert_eq!(classify_bytes(&[0xFF, 0xFE, 0x41]), FileKind::Binary);
    assert_eq!(classify_bytes(b""), FileKind::Text);
}

#[test]
fn macho_tools() {
    assert_eq!(clt_tools(), vec!["install_name_tool", "codesign", "otool"]);
    assert!(check_clt_available(&[true, true, true]).is_ok());
    assert!(matches!(check_clt_available(&[true, false, true]), Err(OlmaError::MissingXcodeCLT)));
    assert_eq!(swap_prefix("/old/lib/x.dylib", "/old", "/new").as_deref(), Some("/new/lib/x.dylib"));
    assert_eq!(swap_prefix("/usr/lib/x.dylib", "/old", "/new"), None);
}

#[test]
fn otool_load_commands() {
    let out = "Load command 3\n          cmd LC_ID_DYLIB\n      cmdsize 56\n         name /old/lib/libx.dylib (offset 24)\n\
Load command 4\n          cmd LC_LOAD_DYLIB\n      cmdsize 56\n         name /old/lib/liby.dylib (offset 24)\n\
Load command 5\n          cmd LC_LOAD_DYLIB\n      cmdsize 56\n         name /usr/lib/libSystem.B.dylib (offset 24)\n\
Load command 6\n          cmd LC_RPATH\n      cmdsize 32\n         path /old/lib (offset 12)\n";
    let cmds = parse_otool_l(out);
    assert_eq!(cmds.id_dylib.as_deref(), Some("/old/lib/libx.dylib"));
    assert_eq!(cmds.load_dylibs, vec!["/old/lib/liby.dylib", "/usr/lib/libSystem.B.dylib"]);
    assert_eq!(cmds.rpaths, vec!["/old/lib"]);
    let argv = macho_commands(&cmds, "/f", "/old", "/new");
    assert_eq!(
        argv,
        vec![
            vec!["install_name_tool", "-id", "/new/lib/libx.dylib", "/f"],
            vec!["install_name_tool", "-change", "/old/lib/liby.dylib", "/new/lib/liby.dylib", "/f"],
            vec!["install_name_tool", "-rpath", "/old/lib", "/new/lib", "/f"],
            vec!["codesign", "--force", "--sign", "-", "/f"],
        ]
    );
    let none = LoadCmds { id_dylib: None, load_dylibs: vec![], rpaths: vec![] };
    assert_eq!(macho_commands(&none, "/f", "/old", "/new").len(), 1);
}

#[test]
fn linking_executables() {
    let bin = "/opt/olma/bin";
    let pkg = "/opt/olma/packages/jq/1.7";
    assert_eq!(link_action(&ExistingLink::Absent, bin, pkg), LinkAction::Link);
    assert_eq!(link_action(&ExistingLink::Symlink("/opt/olma/packages/jq/1.7/bin/jq".to_string()), bin, pkg), LinkAction::Replace);
    assert_eq!(link_action(&ExistingLink::Symlink("../packages/jq/1.7/bin/jq".to_string()), bin, pkg), LinkAction::Skip);
    assert_eq!(link_action(&ExistingLink::Symlink("/usr/bin/jq".to_string()), bin, pkg), LinkAction::Skip);
    assert_eq!(link_action(&ExistingLink::Other, bin, pkg), LinkAction::Skip);
    let mut stats = LinkStats::new();
    record_link(&mut stats, "jq".to_string(), LinkAction::Link);
    record_link(&mut stats, "jv".to_string(), LinkAction::Skip);
    assert_eq!(stats.linked, vec!["jq"]);
    assert_eq!(stats.skipped_collisions, vec!["jv"]);
    assert_eq!(package_name_of(pkg).as_deref(), Some("jq"));
    assert_eq!(package_name_of("1.7"), None);
}

#[test]
fn relocation_bookkeeping() {
    assert_eq!(relocated_symlink_target("@@HOMEBREW_PREFIX@@/lib/x", &swaps()).as_deref(), Some("/opt/olma/lib/x"));
    assert_eq!(relocated_symlink_target("/usr/lib/x", &swaps()), None);
    let mut s = RelocStats::new();
    s.record_symlink();
    s.record_file(FileKind::MachO, true);
    s.record_file(FileKind::Text, true);
    s.record_file(FileKind::Text, false);
    assert_eq!((s.macho_files, s.text_files, s.symlinks), (1, 1, 1));
}
