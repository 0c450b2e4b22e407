use nixpkgs_build_failure_notifier::hydra::{discover_build_id, parse_u64, FetchError, HydraBuild};
use nixpkgs_build_failure_notifier::jobs::generate_job_combinations;
use nixpkgs_build_failure_notifier::maintainers::{
    fetch_packages_of_maintainers, packages_of_maintainers, wants_package_index, ResolveError,
};
use nixpkgs_build_failure_notifier::pipeline::{
    classify_newly_failing, evaluate_builds, failing_indices,
};
use nixpkgs_build_failure_notifier::report::{
    build_email_content, build_report_line, u64_to_string,
};
use nixpkgs_build_failure_notifier::state::StatusStore;

fn build(project: &str, jobset: &str, job: &str, id: u64, status: u8) -> HydraBuild {
    HydraBuild {
        id,
        buildstatus: status,
        project: project.to_string(),
        jobset: jobset.to_string(),
        job: job.to_string(),
        nixname: format!("{job}-1.0"),
    }
}

fn strings(items: &[&str]) -> Vec<String> {
    items.iter().map(|s| s.to_string()).collect()
}

#[test]
fn expansion_is_sorted_and_deduplicated() {
    let got = generate_job_combinations(
        &strings(&["nixos:trunk"]),
        &strings(&["hello"]),
        &strings(&["x86_64-linux", "aarch64-linux"]),
        &strings(&[]),
    );
    assert_eq!(
        got,
        vec![
            ("nixos/trunk".to_string(), "hello.aarch64-linux".to_string()),
            ("nixos/trunk".to_string(), "hello.x86_64-linux".to_string()),
        ]
    );
}

#[test]
fn expansion_applies_prefix_and_extra_packages() {
    let got = generate_job_combinations(
        &strings(&["nixos:trunk:nixpkgs."]),
        &strings(&["hello"]),
        &strings(&["x86_64-linux"]),
        &strings(&["htop"]),
    );
    assert_eq!(
        got,
        vec![
            ("nixos/trunk".to_string(), "nixpkgs.hello.x86_64-linux".to_string()),
            ("nixos/trunk".to_string(), "nixpkgs.htop.x86_64-linux".to_string()),
        ]
    );
}

#[test]
fn expansion_defaults_empty_components() {
    let got = generate_job_combinations(
        &strings(&["proj"]),
        &strings(&["job"]),
        &strings(&["sys"]),
        &strings(&[]),
    );
    assert_eq!(got, vec![("proj/".to_string(), "job.sys".to_string())]);
}

#[test]
fn expansion_drops_duplicates() {
    let got = generate_job_combinations(
        &strings(&["nixos:trunk", "nixos:trunk"]),
        &strings(&["hello", "hello"]),
        &strings(&["x86_64-linux"]),
        &strings(&["hello"]),
    );
    assert_eq!(
        got,
        vec![("nixos/trunk".to_string(), "hello.x86_64-linux".to_string())]
    );
}

#[test]
fn update_status_returns_previous_value() {
    let mut store = StatusStore::new();
    let key = "a:b:c".to_string();
    assert_eq!(store.update_build_status(&key, 1), None);
    assert_eq!(store.update_build_status(&key, 1), Some(1));
    assert_eq!(store.update_build_status(&key, 2), Some(1));
}

#[test]
fn classification_follows_change_and_failure() {
    assert!(classify_newly_failing(1, None));
    assert!(!classify_newly_failing(1, Some(1)));
    assert!(classify_newly_failing(2, Some(1)));
    assert!(!classify_newly_failing(0, None));
    assert!(!classify_newly_failing(0, Some(1)));
}

#[test]
fn build_status_text_is_total() {
    let cases: &[(u8, &str)] = &[
        (0, "Succeeded"),
        (1, "Failed"),
        (2, "Dependency Failed"),
        (3, "Aborted"),
        (4, "Cancelled"),
        (6, "Failed with output"),
        (7, "Timed out"),
        (9, "Aborted"),
        (10, "Log limit exceeded"),
        (11, "Output size limit exceeded"),
        (12, "Non-deterministic build"),
        (5, "Failed (unknown)"),
        (8, "Failed (unknown)"),
        (200, "Failed (unknown)"),
    ];
    for (status, text) in cases {
        let b = build("p", "j", "job", 1, *status);
        assert_eq!(b.build_status_to_str(), *text);
        assert_eq!(b.is_failing(), *status != 0);
    }
}

#[test]
fn full_name_joins_components() {
    let b = build("nixpkgs", "trunk", "hello.x86_64-linux", 7, 0);
    assert_eq!(b.get_full_name(), "nixpkgs:trunk:hello.x86_64-linux");
}

#[test]
fn no_builds_is_the_distinguished_failure() {
    let mut store = StatusStore::new();
    let builds: Vec<HydraBuild> = vec![];
    assert!(evaluate_builds(&mut store, &builds).is_err());
}

#[test]
fn second_identical_run_reports_nothing_new() {
    let mut store = StatusStore::new();
    let builds = vec![
        build("nixpkgs", "trunk", "hello.x86_64-linux", 10, 1),
        build("nixpkgs", "trunk", "htop.x86_64-linux", 11, 0),
        build("nixpkgs", "trunk", "vim.x86_64-linux", 12, 7),
    ];
    let first = evaluate_builds(&mut store, &builds).ok().unwrap();
    assert_eq!(first, vec![0, 2]);
    let second = evaluate_builds(&mut store, &builds).ok().unwrap();
    assert_eq!(second, Vec::<usize>::new());
}

#[test]
fn changed_failure_code_is_newly_failing_again() {
    let mut store = StatusStore::new();
    let first = vec![build("p", "j", "job", 1, 1)];
    let second = vec![build("p", "j", "job", 2, 7)];
    assert_eq!(evaluate_builds(&mut store, &first).ok().unwrap(), vec![0]);
    assert_eq!(evaluate_builds(&mut store, &second).ok().unwrap(), vec![0]);
}

#[test]
fn failing_indices_lists_all_failures() {
    let builds = vec![
        build("p", "j", "a", 1, 0),
        build("p", "j", "b", 2, 1),
        build("p", "j", "c", 3, 0),
        build("p", "j", "d", 4, 2),
    ];
    assert_eq!(failing_indices(&builds), vec![1, 3]);
}

#[test]
fn decimal_rendering_is_exact() {
    assert_eq!(u64_to_string(0), "0");
    assert_eq!(u64_to_string(7), "7");
    assert_eq!(u64_to_string(1234567890), "1234567890");
    assert_eq!(u64_to_string(u64::MAX), "18446744073709551615");
}

#[test]
fn report_line_has_name_link_and_status() {
    let b = build("nixpkgs", "trunk", "hello.x86_64-linux", 123, 1);
    assert_eq!(
        build_report_line(&b),
        "- nixpkgs:trunk:hello.x86_64-linux - https://hydra.nixos.org/build/123 - Failed"
    );
}

#[test]
fn email_content_joins_chosen_lines() {
    let builds = vec![
        build("p", "j", "a", 1, 1),
        build("p", "j", "b", 2, 7),
    ];
    let content = build_email_content(&builds, &vec![0, 1]);
    assert_eq!(
        content,
        "- p:j:a - https://hydra.nixos.org/build/1 - Failed\n\
         - p:j:b - https://hydra.nixos.org/build/2 - Timed out\n"
    );
    assert_eq!(build_email_content(&builds, &vec![]), "");
}

#[test]
fn parse_u64_accepts_digits_only() {
    assert_eq!(parse_u64("123"), Some(123));
    assert_eq!(parse_u64("+12"), Some(12));
    assert_eq!(parse_u64("0"), Some(0));
    assert_eq!(parse_u64("18446744073709551615"), Some(u64::MAX));
    assert_eq!(parse_u64("18446744073709551616"), None);
    assert_eq!(parse_u64(""), None);
    assert_eq!(parse_u64("+"), None);
    assert_eq!(parse_u64("12a"), None);
    assert_eq!(parse_u64(" 12"), None);
    assert_eq!(parse_u64("-5"), None);
}

#[test]
fn discovery_finds_the_first_build_link() {
    let html = "<html><body><div id=\"tabs-status\"><table><tr>\
        <td><a class=\"row-link\" href=\"/build/123\">123</a></td>\
        <td><a class=\"row-link\" href=\"/build/99\">99</a></td>\
        </tr></table></div></body></html>";
    assert_eq!(discover_build_id(html), Ok(123));
}

#[test]
fn discovery_rejects_pages_with_the_evaluation_warning() {
    let html = "<html><body><div class=\"alert alert-warning\">not here</div>\
        <div id=\"tabs-status\"><table><tr>\
        <td><a class=\"row-link\" href=\"/build/123\">123</a></td>\
        </tr></table></div></body></html>";
    assert_eq!(
        discover_build_id(html),
        Err(FetchError::NotInLatestEvaluation)
    );
}

#[test]
fn discovery_without_link_fails() {
    assert_eq!(
        discover_build_id("<html><body><p>nothing</p></body></html>"),
        Err(FetchError::NoLatestBuild)
    );
    let bad = "<html><body><div id=\"tabs-status\"><table><tr>\
        <td><a class=\"row-link\" href=\"/x\">soon</a></td>\
        </tr></table></div></body></html>";
    assert_eq!(discover_build_id(bad), Err(FetchError::NoLatestBuild));
}

const INDEX: &str = "{\"packages\": {\
    \"foo\": {\"meta\": {\"maintainers\": [{\"github\": \"alice\"}]}},\
    \"bar\": {\"meta\": {\"maintainers\": [{\"github\": \"bob\"}]}}\
  }}";

#[test]
fn resolver_picks_packages_of_requested_maintainers() {
    let doc = INDEX.as_bytes().to_vec();
    let got = packages_of_maintainers(&doc, &strings(&["alice"])).unwrap();
    assert_eq!(got, vec!["foo".to_string()]);
    let both = packages_of_maintainers(&doc, &strings(&["alice", "bob"])).unwrap();
    assert_eq!(both, vec!["foo".to_string(), "bar".to_string()]);
    let none = packages_of_maintainers(&doc, &strings(&["carol"])).unwrap();
    assert_eq!(none, Vec::<String>::new());
}

#[test]
fn resolver_decodes_escapes() {
    let doc = "{\"packages\": {\"f\\u006Fo\": {\"meta\": {\"maintainers\": \
        [{\"github\": \"\\u0061lice\"}]}}}}"
        .as_bytes()
        .to_vec();
    let got = packages_of_maintainers(&doc, &strings(&["alice"])).unwrap();
    assert_eq!(got, vec!["foo".to_string()]);
}

#[test]
fn resolver_ignores_unrelated_members() {
    let doc = "{\"version\": 2, \"packages\": {\
        \"foo\": {\"pname\": \"foo\", \"meta\": {\"description\": \"x\", \
        \"maintainers\": [\"odd\", {\"github\": \"alice\", \"name\": \"A\"}], \
        \"platforms\": [\"a\", \"b\"]}}, \
        \"bar\": true}}"
        .as_bytes()
        .to_vec();
    let got = packages_of_maintainers(&doc, &strings(&["alice"])).unwrap();
    assert_eq!(got, vec!["foo".to_string()]);
}

#[test]
fn resolver_rejects_malformed_documents() {
    let cases = [
        "{\"packages\": {\"foo\": }}",
        "{\"packages\"",
        "[]",
        "{\"packages\": {\"foo\": {}}} trailing",
        "{\"packages\": {\"foo\": {\"meta\": {\"maintainers\": [{\"github\": \"a\"]}}}}}",
    ];
    for doc in cases {
        let r = packages_of_maintainers(&doc.as_bytes().to_vec(), &strings(&["alice"]));
        assert_eq!(r, Err(ResolveError::BadIndex), "{doc}");
    }
}

#[test]
fn resolver_short_circuits_without_maintainers() {
    assert!(!wants_package_index(&strings(&[])));
    assert!(wants_package_index(&strings(&["alice"])));
    let garbage = vec![1, 2, 3];
    let got = fetch_packages_of_maintainers(&garbage, &strings(&[])).unwrap();
    assert_eq!(got, Vec::<String>::new());
}

#[test]
fn resolver_reads_compressed_documents() {
    let mut compressed = Vec::new();
    {
        let mut w = brotli::CompressorWriter::new(&mut compressed, 4096, 5, 22);
        std::io::Write::write_all(&mut w, INDEX.as_bytes()).unwrap();
    }
    let got = fetch_packages_of_maintainers(&compressed, &strings(&["bob"])).unwrap();
    assert_eq!(got, vec!["bar".to_string()]);
    let junk = vec![0xFFu8, 0x00, 0x12, 0x34];
    assert_eq!(
        fetch_packages_of_maintainers(&junk, &strings(&["bob"])),
        Err(ResolveError::BadCompression)
    );
}
