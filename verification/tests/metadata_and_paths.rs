use olma::cache::FormulaCache;
use olma::config::{formulae_api_base, ghcr_base, Paths};
use olma::metadata::fetch::{fetch_start, formula_url, ghcr_token_url, response_action, FetchPolicy, FetchStart, ResponseAction};
use olma::metadata::index::{levenshtein, Index, IndexEntry};
use olma::metadata::{has_unique_tags, BottleFile, BottleSpec, BottleStable, Formula, Versions};
use olma::cache::FormulaCacheEntry;
use olma::cli::search::search_lines;
use olma::error::OlmaError;
use olma::pipeline::download::{bottle_cache_path, bottle_partial_path, extract_scope_repo, sha256_hex};
use olma::pipeline::{bottle_or_error, download_concurrency, download_status, install_summary, join_names};
use olma::platform::{bottle_tag, codename_for, macos_codename_for_product_version, Arch};

fn paths() -> Paths {
    Paths { root: "/opt/olma".to_string() }
}

#[test]
fn layout_paths() {
    let p = paths();
    assert_eq!(p.bin(), "/opt/olma/bin");
    assert_eq!(p.packages(), "/opt/olma/packages");
    assert_eq!(p.cache_bottles(), "/opt/olma/cache/bottles");
    assert_eq!(p.cache_formulae(), "/opt/olma/cache/formulae");
    assert_eq!(p.lock_file(), "/opt/olma/.lock");
    assert_eq!(p.package_dir("jq", "1.7"), "/opt/olma/packages/jq/1.7");
    assert_eq!(p.opt_link("jq"), "/opt/olma/opt/jq");
    assert_eq!(p.layout_dirs().len(), 4);
    assert_eq!(Paths::from_root(None).root, "/opt/olma");
    assert_eq!(Paths::from_root(Some("/tmp/x".to_string())).root, "/tmp/x");
    let c = FormulaCache::new(&p);
    assert_eq!(c.formula_path("jq"), "/opt/olma/cache/formulae/jq.json");
    assert_eq!(c.etag_path("jq"), "/opt/olma/cache/formulae/jq.etag");
    assert_eq!(bottle_cache_path(&p, "ab12"), "/opt/olma/cache/bottles/ab12.tar.gz");
    assert_eq!(bottle_partial_path(&p, "ab12"), "/opt/olma/cache/bottles/ab12.tar.gz.partial");
}

#[test]
fn endpoints() {
    assert_eq!(formulae_api_base(), "https://formulae.brew.sh/api/formula");
    assert_eq!(ghcr_base(), "https://ghcr.io");
    assert_eq!(formula_url(formulae_api_base(), "jq"), "https://formulae.brew.sh/api/formula/jq.json");
    assert_eq!(ghcr_token_url("homebrew/core/jq"), "https://ghcr.io/token?service=ghcr.io&scope=repository:homebrew/core/jq:pull");
    assert_eq!(
        extract_scope_repo("https://ghcr.io/v2/homebrew/core/jq/blobs/sha256:abc").as_deref(),
        Some("homebrew/core/jq")
    );
    assert_eq!(extract_scope_repo("https://example.com/x"), None);
}

#[test]
fn sha256_of_known_input() {
    assert_eq!(sha256_hex(b"abc"), "ba7816bf8f01cfea414140de5dae2223b00361a396177a9cb410ff61f20015ad");
    assert_eq!(sha256_hex(b"").len(), 64);
}

#[test]
fn fetch_decisions() {
    let cached = Some(FormulaCacheEntry { json: "{}".to_string(), etag: Some("e1".to_string()) });
    assert!(matches!(fetch_start("jq", FetchPolicy::CacheFirst, &cached), FetchStart::UseCache));
    assert!(matches!(fetch_start("jq", FetchPolicy::OfflineOnly, &cached), FetchStart::UseCache));
    match fetch_start("jq", FetchPolicy::OfflineOnly, &None) {
        FetchStart::Fail(OlmaError::Network(m)) => assert_eq!(m, "offline: no cached metadata for jq"),
        _ => panic!("offline without cache fails"),
    }
    match fetch_start("jq", FetchPolicy::ForceRefresh, &cached) {
        FetchStart::Request { if_none_match } => assert_eq!(if_none_match.as_deref(), Some("e1")),
        _ => panic!("a refresh asks the server"),
    }
    assert!(matches!(response_action("jq", FetchPolicy::CacheFirst, 304, "304", true), ResponseAction::UseCache));
    assert!(matches!(response_action("jq", FetchPolicy::BypassCache, 200, "200 OK", false), ResponseAction::UseBody { store: false }));
    assert!(matches!(response_action("jq", FetchPolicy::CacheFirst, 200, "200 OK", false), ResponseAction::UseBody { store: true }));
    match response_action("jq", FetchPolicy::CacheFirst, 404, "404 Not Found", false) {
        ResponseAction::Fail(OlmaError::FormulaNotFound(n)) => assert_eq!(n, "jq"),
        _ => panic!("404 means no such formula"),
    }
    match response_action("jq", FetchPolicy::CacheFirst, 500, "500 Internal Server Error", false) {
        ResponseAction::Fail(OlmaError::Network(m)) => assert_eq!(m, "formulae.brew.sh returned 500 Internal Server Error"),
        _ => panic!("other statuses fail"),
    }
    match response_action("jq", FetchPolicy::CacheFirst, 304, "304", false) {
        ResponseAction::Fail(OlmaError::Network(m)) => assert_eq!(m, "304 without cache"),
        _ => panic!("304 needs a cache"),
    }
}

fn formula_with(files: Vec<(&str, &str)>) -> Formula {
    Formula {
        name: "jq".to_string(),
        desc: None,
        homepage: None,
        dependencies: vec![],
        versions: Versions { stable: "1.7.1".to_string() },
        bottle: BottleSpec {
            stable: BottleStable {
                rebuild: None,
                root_url: String::new(),
                files: files
                    .into_iter()
                    .map(|(t, s)| (t.to_string(), BottleFile { cellar: String::new(), url: format!("u/{t}"), sha256: s.to_string() }))
                    .collect(),
            },
        },
    }
}

#[test]
fn bottles_for_platforms() {
    let f = formula_with(vec![("arm64_sonoma", "s1"), ("all", "s2")]);
    assert_eq!(f.version(), "1.7.1");
    assert_eq!(f.bottle_for_tag("arm64_sonoma").unwrap().sha256, "s1");
    assert_eq!(f.bottle_for_tag("x86_64_ventura").unwrap().sha256, "s2");
    assert!(has_unique_tags(&f.bottle.stable.files));
    let dup = formula_with(vec![("all", "s1"), ("arm64_sonoma", "s2"), ("all", "s3")]);
    assert!(!has_unique_tags(&dup.bottle.stable.files));
    assert_eq!(dup.bottle_for_tag("x86_64_ventura").unwrap().sha256, "s1");
    let g = formula_with(vec![("arm64_sonoma", "s1")]);
    assert!(g.bottle_for_tag("x86_64_ventura").is_none());
    match bottle_or_error(&g, "x86_64_ventura") {
        Err(OlmaError::BottleNotForPlatform { name, platform }) => {
            assert_eq!(name, "jq");
            assert_eq!(platform, "x86_64_ventura");
        }
        _ => panic!("no bottle for this platform"),
    }
    assert_eq!(download_status(&f), "Downloading jq 1.7.1");
}

#[test]
fn platforms() {
    assert_eq!(Arch::Arm64.as_bottle_str(), "arm64");
    assert_eq!(Arch::X64.as_bottle_str(), "x86_64");
    assert_eq!(macos_codename_for_product_version("14.4.1"), Some("sonoma"));
    assert_eq!(macos_codename_for_product_version("15"), Some("sequoia"));
    assert_eq!(macos_codename_for_product_version("26.0"), Some("tahoe"));
    assert_eq!(macos_codename_for_product_version("10.15"), None);
    assert_eq!(macos_codename_for_product_version("x"), None);
    assert_eq!(bottle_tag(Arch::Arm64, "sonoma"), "arm64_sonoma");
    assert_eq!(codename_for("13.6").unwrap(), "ventura");
    match codename_for("10.15.7") {
        Err(OlmaError::Other(m)) => assert_eq!(m, "unsupported macOS version: 10.15.7"),
        _ => panic!("no bottles for 10.15"),
    }
}

#[test]
fn pipeline_messages() {
    assert_eq!(download_concurrency(1), 2);
    assert_eq!(download_concurrency(16), 8);
    assert_eq!(join_names(&vec!["a".to_string(), "b".to_string()]), "a, b");
    assert_eq!(install_summary(3, &vec!["jq".to_string(), "tree".to_string()]), "Installed 3 packages (jq, tree)");
    assert_eq!(install_summary(0, &vec![]), "Installed 0 packages ()");
}

fn index() -> Index {
    Index {
        entries: vec![
            IndexEntry { name: "jq".to_string(), desc: Some("Lightweight JSON processor".to_string()) },
            IndexEntry { name: "jo".to_string(), desc: None },
            IndexEntry { name: "tree".to_string(), desc: Some("Display directories as trees".to_string()) },
        ],
    }
}

#[test]
fn edit_distance() {
    assert_eq!(levenshtein("kitten", "sitting"), 3);
    assert_eq!(levenshtein("JQ", "jq"), 0);
    assert_eq!(levenshtein("", "abc"), 3);
    assert_eq!(levenshtein("abc", "abc"), 0);
}

#[test]
fn index_search() {
    let ix = index();
    let hits = ix.substring("JSON");
    assert_eq!(hits.len(), 1);
    assert_eq!(hits[0].name, "jq");
    let hits = ix.substring("TREE");
    assert_eq!(hits.len(), 1);
    let near = ix.did_you_mean("jx", 2);
    assert_eq!(near.iter().map(|e| e.name.as_str()).collect::<Vec<_>>(), vec!["jq", "jo"]);
    assert!(ix.lengths_fit_for("jx"));
}

#[test]
fn search_output() {
    let ix = index();
    assert_eq!(search_lines(&ix, "json"), vec![format!("  {:<28} {}", "jq", "Lightweight JSON processor")]);
    assert_eq!(
        search_lines(&ix, "zz"),
        vec![
            "  No formula matches \"zz\".".to_string(),
            "\n  Did you mean:".to_string(),
            "    jq".to_string(),
            "    jo".to_string(),
            "    tree".to_string()
        ]
    );
    let many = Index {
        entries: (0..45).map(|i| IndexEntry { name: format!("lib{i}"), desc: None }).collect(),
    };
    let lines = search_lines(&many, "lib");
    assert_eq!(lines.len(), 41);
    assert_eq!(lines[40], "  ... and 5 more");
    assert_eq!(lines[0], format!("  {:<28} ", "lib0"));
}
