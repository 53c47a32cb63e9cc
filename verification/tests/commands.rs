use olma::cli::add::plan_lines;
use olma::cli::autoclean::{autoclean_done, autoclean_plan, cleared_row, orphan_bottle, rollback_targets};
use olma::cli::autoremove::classify_orphans;
use olma::cli::default::{current_default, default_change, is_current, resolve_choice};
use olma::cli::history::{describe_change, history_line};
use olma::cli::info::{fmt_ts, unit_index, unit_name};
use olma::cli::list::list_line;
use olma::cli::outdated::{outdated_line, outdated_rows, OutdatedRow};
use olma::cli::prompt::is_affirmative;
use olma::cli::remove::{count_message, removal_change, row_line};
use olma::cli::rollback::{rollback_header, rollback_line, rollback_step, RollbackStep};
use olma::cli::update::{refresh_status, refresh_summary, skips_refresh_error};
use olma::cli::upgrade::{readded_row, requested_rows, upgrade_change, upgrade_line, upgrade_targets, upgraded_row};
use olma::error::OlmaError;
use olma::metadata::{BottleSpec, BottleStable, Formula, Versions};
use olma::resolver::InstallPlan;
use olma::state::packages::PackageRow;
use olma::state::schema::{pending_migrations, version_after};
use olma::state::transactions::{PackageChange, TransactionRow};

fn row(name: &str, version: &str, requested: bool) -> PackageRow {
    PackageRow {
        name: name.to_string(),
        version: version.to_string(),
        installed_at: 0,
        requested,
        previous_ver: None,
    }
}

fn change(name: &str, from: Option<&str>, to: Option<&str>) -> PackageChange {
    PackageChange {
        name: name.to_string(),
        from_version: from.map(|s| s.to_string()),
        to_version: to.map(|s| s.to_string()),
        requested: true,
    }
}

#[test]
fn exact_name_wins() {
    let rows = vec![row("python@3.12", "3.12.1", true), row("python@3.11", "3.11.9", true)];
    let r = resolve_choice(&rows, "python@3.11", "python").unwrap();
    assert_eq!(r.name, "python@3.11");
}

#[test]
fn bare_family_picks_greatest_name() {
    let rows = vec![row("python@3.11", "3.11.9", true), row("python@3.12", "3.12.1", true), row("node", "20", true)];
    let r = resolve_choice(&rows, "python", "python").unwrap();
    assert_eq!(r.name, "python@3.12");
}

#[test]
fn missing_family_is_an_error() {
    let rows = vec![row("node", "20", true)];
    match resolve_choice(&rows, "python", "python") {
        Err(OlmaError::Other(m)) => assert_eq!(m, "no installed package in family python"),
        _ => panic!("expected an error"),
    }
}

#[test]
fn missing_versioned_target_is_an_error() {
    let rows = vec![row("python@3.12", "3.12.1", true)];
    match resolve_choice(&rows, "python@3.9", "python") {
        Err(OlmaError::Other(m)) => assert_eq!(m, "python@3.9 is not installed; run `olma add python@3.9` first"),
        _ => panic!("expected an error"),
    }
}

#[test]
fn current_default_and_change() {
    let rows = vec![row("python@3.12", "3.12.1", true), row("python", "3.13.0", true)];
    let cur = current_default(&rows, "python");
    assert_eq!(cur.as_ref().map(|r| r.name.as_str()), Some("python"));
    assert!(current_default(&rows, "node").is_none());
    let chosen = row("python@3.12", "3.12.1", true);
    assert!(!is_current(&cur, &chosen));
    let c = default_change("python", &cur, &chosen);
    assert_eq!(c.name, "python");
    assert_eq!(c.from_version.as_deref(), Some("python:3.13.0"));
    assert_eq!(c.to_version.as_deref(), Some("python@3.12:3.12.1"));
    assert!(c.requested);
    let none = default_change("python", &None, &chosen);
    assert_eq!(none.from_version.as_deref(), Some(""));
}

#[test]
fn orphans_are_unrequested_and_unneeded() {
    let rows = vec![row("a", "1", true), row("b", "1", false), row("c", "1", false), row("a", "2", false)];
    let deps = |n: &str| -> Vec<String> { if n == "a" { vec!["b".to_string()] } else { vec![] } };
    let orphans = classify_orphans(&rows, &deps);
    assert_eq!(orphans, vec!["c".to_string()]);
}

#[test]
fn history_lines() {
    assert_eq!(describe_change(&change("jq", None, Some("1.7"))), "jq 1.7");
    assert_eq!(describe_change(&change("jq", Some("1.6"), Some("1.7"))), "jq 1.6→1.7");
    assert_eq!(describe_change(&change("jq", Some("1.6"), None)), "jq- 1.6");
    assert_eq!(describe_change(&change("jq", None, None)), "jq");
    let t = TransactionRow { id: 7, ts: 0, kind: "add".to_string(), payload: String::new(), reverted: true };
    let changes = vec![change("jq", None, Some("1.7")), change("oniguruma", None, Some("6.9"))];
    assert_eq!(
        history_line(&t, &changes),
        format!("  #{:<4}  {:<8}  {}{}", 7, "add", "jq 1.7, oniguruma 6.9", " (reverted)")
    );
    let t2 = TransactionRow { id: -12345, ts: 0, kind: "upgrade-all".to_string(), payload: String::new(), reverted: false };
    assert_eq!(history_line(&t2, &vec![]), format!("  #{:<4}  {:<8}  {}{}", -12345, "upgrade-all", "", ""));
}

#[test]
fn rollback_decisions() {
    let changes = vec![change("jq", None, Some("1.7"))];
    match rollback_step("add", &changes) {
        Ok(RollbackStep::Remove(ns)) => assert_eq!(ns, vec!["jq".to_string()]),
        _ => panic!("add undoes by removing"),
    }
    match rollback_step("remove", &changes) {
        Ok(RollbackStep::Add(ns)) => assert_eq!(ns, vec!["jq".to_string()]),
        _ => panic!("remove undoes by adding"),
    }
    match rollback_step("upgrade", &changes) {
        Err(OlmaError::Other(m)) => assert_eq!(m, "rollback for upgrade not implemented yet"),
        _ => panic!("upgrade cannot be undone"),
    }
    assert_eq!(rollback_line(&change("jq", None, Some("1.7"))).as_deref(), Some("  remove jq 1.7"));
    assert_eq!(rollback_line(&change("jq", Some("1.6"), None)).as_deref(), Some("  reinstall jq 1.6"));
    assert_eq!(rollback_line(&change("jq", Some("1.6"), Some("1.7"))).as_deref(), Some("  revert jq 1.7→1.6"));
    assert_eq!(rollback_line(&change("jq", None, None)), None);
    assert_eq!(rollback_header(3, "add"), "Reverting transaction #3 (add)");
}

#[test]
fn upgrades() {
    let rows = vec![row("a", "1", true), row("b", "1", false), row("c", "2", true)];
    let req = requested_rows(&rows);
    assert_eq!(req.iter().map(|r| r.name.as_str()).collect::<Vec<_>>(), vec!["a", "c"]);
    let checked = vec![(row("a", "1", true), "2".to_string()), (row("c", "2", true), "2".to_string())];
    let t = upgrade_targets(&checked);
    assert_eq!(t.len(), 1);
    assert_eq!(t[0].0.name, "a");
    assert_eq!(t[0].1, "2");
    let up = upgraded_row(&rows[0], "2", 99);
    assert_eq!(up.version, "2");
    assert_eq!(up.previous_ver.as_deref(), Some("1"));
    assert_eq!(up.installed_at, 99);
    let c = upgrade_change(&rows[0], "2");
    assert_eq!(c.from_version.as_deref(), Some("1"));
    assert_eq!(c.to_version.as_deref(), Some("2"));
    assert_eq!(upgrade_line(&rows[0], "2"), "  a 1 → 2");
    let re = readded_row(&row("a", "3", false), true, &Some("2".to_string()));
    assert!(re.requested);
    assert_eq!(re.previous_ver.as_deref(), Some("2"));
}

#[test]
fn outdated_table() {
    let checked = vec![(row("jq", "1.6", true), "1.7".to_string()), (row("tree", "2.1", true), "2.1".to_string())];
    let o = outdated_rows(&checked);
    assert_eq!(o.len(), 1);
    assert_eq!(o[0].latest, "1.7");
    assert_eq!(outdated_line(&o[0]), format!("  {:<24} {:<14} → {}", "jq", "1.6", "1.7"));
    let head = OutdatedRow { name: "NAME".to_string(), installed: "INSTALLED".to_string(), latest: "LATEST".to_string() };
    assert_eq!(outdated_line(&head), format!("  {:<24} {:<14} → {}", "NAME", "INSTALLED", "LATEST"));
}

#[test]
fn prompt_answers() {
    assert!(is_affirmative("\n"));
    assert!(is_affirmative(" Y \n"));
    assert!(is_affirmative("yes"));
    assert!(is_affirmative("YES"));
    assert!(!is_affirmative("n"));
    assert!(!is_affirmative("yep"));
}

#[test]
fn removal_records() {
    let r = row("jq", "1.7", true);
    let c = removal_change(&r);
    assert_eq!(c.from_version.as_deref(), Some("1.7"));
    assert!(c.to_version.is_none());
    assert_eq!(row_line(&r), "  jq 1.7");
    assert_eq!(count_message("Will remove ", 2, " packages:"), "Will remove 2 packages:");
    assert_eq!(list_line(&r), format!("  ●  {:<24} {}", "jq", "1.7"));
    assert_eq!(list_line(&row("oniguruma", "6.9", false)), format!("     {:<24} {}", "oniguruma", "6.9"));
}

#[test]
fn ages_and_units() {
    assert_eq!(fmt_ts(100, 130), "30s ago");
    assert_eq!(fmt_ts(0, 120), "2m ago");
    assert_eq!(fmt_ts(0, 7200), "2h ago");
    assert_eq!(fmt_ts(0, 3 * 86400 + 5), "3d ago");
    assert_eq!(fmt_ts(500, 100), "0s ago");
    assert_eq!(fmt_ts(-50, 10), "10s ago");
    assert_eq!(unit_index(1023), 0);
    assert_eq!(unit_index(1024), 1);
    assert_eq!(unit_index(5 * 1024 * 1024), 2);
    assert_eq!(unit_index(u64::MAX), 3);
    assert_eq!(unit_name(2), "MB");
}

#[test]
fn autoclean_choices() {
    let live = vec!["abc".to_string()];
    assert_eq!(orphan_bottle("abc.tar.gz", &live), None);
    assert_eq!(orphan_bottle("def.tar.gz", &live).as_deref(), Some("def"));
    assert_eq!(orphan_bottle("def.tar.gz.tar.gz", &live).as_deref(), Some("def"));
    assert_eq!(orphan_bottle("def.tar.gz.partial", &live), None);
    let mut r = row("jq", "1.7", true);
    r.previous_ver = Some("1.6".to_string());
    let rows = vec![r.clone(), row("tree", "2", true)];
    assert_eq!(rollback_targets(&rows), vec![("jq".to_string(), "1.6".to_string())]);
    assert!(cleared_row(&r, "1.6").unwrap().previous_ver.is_none());
    assert!(cleared_row(&r, "1.5").is_none());
    assert_eq!(autoclean_plan(1, 2), "Will remove 1 previous-generation packages and 2 orphan bottles");
    assert_eq!(autoclean_done(1, 2), "Cleaned 1 previous versions and 2 bottles");
}

#[test]
fn update_reports() {
    assert!(skips_refresh_error(&OlmaError::Network("x".to_string())));
    assert!(!skips_refresh_error(&OlmaError::ChecksumMismatch));
    assert_eq!(refresh_status("jq", 1, 3), "Refreshing jq (1/3)");
    assert_eq!(refresh_summary(2, 3, false), "Refreshed 2/3 installed formulae");
    assert_eq!(refresh_summary(3, 3, true), "Refreshed 3/3 installed formulae + full index");
}

fn formula(name: &str, version: &str) -> Formula {
    Formula {
        name: name.to_string(),
        desc: None,
        homepage: None,
        dependencies: vec![],
        versions: Versions { stable: version.to_string() },
        bottle: BottleSpec { stable: BottleStable { rebuild: None, root_url: String::new(), files: vec![] } },
    }
}

#[test]
fn plan_announcement() {
    let plan = InstallPlan { ordered: vec![formula("oniguruma", "6.9"), formula("jq", "1.7")], requested: vec!["jq".to_string()] };
    assert_eq!(plan_lines(&plan), vec!["Will install 2 packages", "  oniguruma 6.9", "  jq 1.7"]);
}

#[test]
fn migrations_still_to_run() {
    assert_eq!(pending_migrations(0, 3), vec![0, 1, 2]);
    assert_eq!(pending_migrations(2, 3), vec![2]);
    assert_eq!(pending_migrations(3, 3), Vec::<usize>::new());
    assert_eq!(pending_migrations(-1, 3), vec![0, 1, 2]);
    assert_eq!(version_after(1, 3), Some(3));
    assert_eq!(version_after(3, 3), None);
}
