use osv_ranges::advisory::{Advisory, AdvisoryMetadata, AdvisoryVersions, Informational, Severity};
use osv_ranges::gitpath::{GitPath, GitPathError, Repository};
use osv_ranges::report::{Database, Lockfile, Package, Report, Settings, LockfileInfo,
    VulnerabilityInfo};
use osv_ranges::version::Version;

fn ver(major: u64, minor: u64, patch: u64) -> Version {
    Version { major, minor, patch, pre: vec![] }
}

fn package(name: &str) -> Package {
    Package { name: name.to_string(), version: ver(1, 0, 0) }
}

fn advisory(
    id: &str,
    pkg: &str,
    informational: Option<Informational>,
    severity: Option<Severity>,
) -> Advisory {
    Advisory {
        metadata: AdvisoryMetadata {
            id: id.to_string(),
            package: pkg.to_string(),
            title: format!("Advisory for {}", pkg),
            informational,
            severity,
            url: Some(format!("https://example.invalid/{}", id)),
        },
        versions: AdvisoryVersions { patched: vec![], unaffected: vec![] },
    }
}

fn database(advisories: Vec<Advisory>) -> Database {
    Database {
        advisories,
        last_commit: "0123456789abcdef".to_string(),
        last_updated: 1_620_000_000,
    }
}

#[test]
fn settings_query_copies_constraints() {
    let settings = Settings {
        target_arch: None,
        target_os: None,
        severity: Some(Severity::High),
        ignore: vec![],
        informational_warnings: vec![],
    };
    let q = settings.query();
    assert!(q.crate_scope);
    assert!(q.target_arch.is_none());
    assert!(q.target_os.is_none());
    assert!(matches!(q.severity, Some(Severity::High)));
    assert!(!q.informational);
}

#[test]
fn query_vulnerabilities_matches_by_package_and_severity() {
    let db = database(vec![
        advisory("RUSTSEC-2021-0001", "alpha", None, Some(Severity::Critical)),
        advisory("RUSTSEC-2021-0002", "beta", None, Some(Severity::Low)),
        advisory("RUSTSEC-2021-0003", "gamma", None, Some(Severity::High)),
    ]);
    let lockfile = Lockfile { packages: vec![package("alpha"), package("beta")] };
    let settings = Settings {
        target_arch: None,
        target_os: None,
        severity: Some(Severity::Medium),
        ignore: vec![],
        informational_warnings: vec![],
    };
    let vulns = lockfile.query_vulnerabilities(&db, &settings.query());
    // beta's advisory is below the threshold, gamma is not in the lockfile
    assert_eq!(vulns.len(), 1);
    assert_eq!(vulns[0].advisory.id, "RUSTSEC-2021-0001");
    assert_eq!(vulns[0].package.name, "alpha");
}

#[test]
fn report_filters_ignored_advisories() {
    let db = database(vec![
        advisory("RUSTSEC-2021-0010", "alpha", None, None),
        advisory("RUSTSEC-2021-0011", "beta", None, None),
    ]);
    let lockfile = Lockfile { packages: vec![package("alpha"), package("beta")] };
    let settings = Settings {
        target_arch: None,
        target_os: None,
        severity: None,
        ignore: vec!["RUSTSEC-2021-0010".to_string()],
        informational_warnings: vec![],
    };
    let report = Report::generate(&db, &lockfile, &settings);
    assert_eq!(report.database.advisory_count, 2);
    assert_eq!(report.database.last_commit, "0123456789abcdef");
    assert_eq!(report.database.last_updated, 1_620_000_000);
    assert_eq!(report.lockfile.dependency_count, 2);
    assert!(report.vulnerabilities.found);
    assert_eq!(report.vulnerabilities.count, 1);
    assert_eq!(report.vulnerabilities.list[0].advisory.id, "RUSTSEC-2021-0011");
    assert!(report.warnings.is_empty());
}

#[test]
fn warnings_select_informational_classes() {
    let db = database(vec![
        advisory(
            "RUSTSEC-2021-0020",
            "alpha",
            Some(Informational::Unmaintained),
            None,
        ),
        advisory("RUSTSEC-2021-0021", "beta", Some(Informational::Notice), None),
        advisory("RUSTSEC-2021-0022", "alpha", None, None),
    ]);
    let lockfile = Lockfile { packages: vec![package("alpha"), package("beta")] };
    let settings = Settings {
        target_arch: None,
        target_os: None,
        severity: None,
        ignore: vec![],
        informational_warnings: vec![Informational::Unmaintained],
    };
    let warnings = osv_ranges::report::Warning::generate(&db, &lockfile, &settings);
    assert_eq!(warnings.len(), 1);
    assert_eq!(warnings[0].package, "alpha");
    assert_eq!(warnings[0].message, "Advisory for alpha");
    assert_eq!(
        warnings[0].url,
        Some("https://example.invalid/RUSTSEC-2021-0020".to_string())
    );
}

#[test]
fn vulnerability_info_counts_its_list() {
    let info = VulnerabilityInfo::new(vec![]);
    assert!(!info.found);
    assert_eq!(info.count, 0);
}

#[test]
fn lockfile_info_counts_dependencies() {
    let lockfile = Lockfile { packages: vec![package("alpha"), package("beta")] };
    let info = LockfileInfo::new(&lockfile);
    assert_eq!(info.dependency_count, 2);
}

#[test]
fn git_path_requires_relative_tracked_path() {
    let repo = Repository {
        tracked_files: vec![
            "crates/alpha/RUSTSEC-2021-0001.md".to_string(),
            "crates/beta/RUSTSEC-2021-0002.md".to_string(),
        ],
    };
    let good = "crates/beta/RUSTSEC-2021-0002.md".to_string();
    let gp = GitPath::new(&repo, &good).unwrap();
    assert_eq!(gp.path(), "crates/beta/RUSTSEC-2021-0002.md");

    let absolute = "/crates/beta/RUSTSEC-2021-0002.md".to_string();
    assert!(matches!(
        GitPath::new(&repo, &absolute),
        Err(GitPathError::NotRelative)
    ));

    let untracked = "crates/gamma/RUSTSEC-2021-0003.md".to_string();
    assert!(matches!(
        GitPath::new(&repo, &untracked),
        Err(GitPathError::NotTracked)
    ));
}
