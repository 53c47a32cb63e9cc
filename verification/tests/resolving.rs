use olma::error::OlmaError;
use olma::metadata::{BottleSpec, BottleStable, Formula, Versions};
use olma::resolver::{topo_sort, ResolveState};

fn dep(name: &str, needs: &[&str]) -> (String, Vec<String>) {
    (name.to_string(), needs.iter().map(|s| s.to_string()).collect())
}

fn pos(order: &[String], name: &str) -> usize {
    order.iter().position(|n| n == name).unwrap()
}

#[test]
fn dependencies_come_first() {
    let deps = vec![dep("jq", &["oniguruma"]), dep("oniguruma", &[]), dep("app", &["jq", "oniguruma"])];
    let order = topo_sort(&deps).unwrap();
    assert_eq!(order.len(), 3);
    assert!(pos(&order, "oniguruma") < pos(&order, "jq"));
    assert!(pos(&order, "jq") < pos(&order, "app"));
}

#[test]
fn a_cycle_is_refused() {
    let deps = vec![dep("a", &["b"]), dep("b", &["a"])];
    assert!(matches!(topo_sort(&deps), Err(OlmaError::Other(_))));
}

#[test]
fn unknown_dependencies_still_order() {
    let deps = vec![dep("a", &["zlib"])];
    let order = topo_sort(&deps).unwrap();
    assert!(pos(&order, "zlib") < pos(&order, "a"));
}

fn formula(name: &str, deps: &[&str]) -> Formula {
    Formula {
        name: name.to_string(),
        desc: None,
        homepage: None,
        dependencies: deps.iter().map(|s| s.to_string()).collect(),
        versions: Versions { stable: "1".to_string() },
        bottle: BottleSpec { stable: BottleStable { rebuild: None, root_url: String::new(), files: vec![] } },
    }
}

#[test]
fn a_handed_out_name_stays_queued_until_recorded() {
    let mut st = ResolveState::new(&["a".to_string()]);
    let n = st.next_to_fetch().unwrap();
    assert_eq!(n, "a");
    assert!(st.has_pending());
    st.record(n, formula("a", &["b", "c"]));
    let mut rest = Vec::new();
    while let Some(n) = st.next_to_fetch() {
        rest.push(n.clone());
        st.record(n.clone(), formula(&n, &["a"]));
    }
    assert_eq!(rest, vec!["b".to_string(), "c".to_string()]);
    assert!(!st.has_pending());
    assert!(matches!(st.finish(), Err(OlmaError::Other(_))));
}

#[test]
fn discovery_then_plan() {
    let mut st = ResolveState::new(&["jq".to_string(), "jq".to_string()]);
    let mut asked = Vec::new();
    while let Some(n) = st.next_to_fetch() {
        let f = match n.as_str() {
            "jq" => formula("jq", &["oniguruma"]),
            _ => formula(&n, &[]),
        };
        asked.push(n.clone());
        st.record(n, f);
    }
    assert_eq!(asked, vec!["jq".to_string(), "oniguruma".to_string()]);
    assert!(!st.has_pending());
    let plan = st.finish().unwrap();
    let names: Vec<&str> = plan.ordered.iter().map(|f| f.name.as_str()).collect();
    assert_eq!(names, vec!["oniguruma", "jq"]);
    assert_eq!(plan.requested, vec!["jq".to_string()]);
}
