//! Vulnerability report generation.
//!
//! A report pairs an advisory database with an audited lockfile: the
//! advisories matching the configured query are listed as vulnerabilities,
//! informational advisories the settings select become warnings, and
//! summary information about both inputs is attached. The database and
//! lockfile are modeled by the values this logic reads: the advisories,
//! the locked packages, and the last database commit.

use vstd::prelude::*;

use crate::advisory::{severity_rank, severity_rank_of, Advisory, AdvisoryMetadata, Informational,
    Severity};
use crate::osv::clone_version;
use crate::version::{Version, VersionModel};

verus! {

/// A CPU architecture a query can be narrowed to.
#[derive(Clone, Copy, PartialEq, Eq, Structural, Debug)]
pub enum Arch {
    Aarch64,
    Arm,
    X86,
    X86_64,
    Wasm32,
    OtherArch,
}

/// An operating system a query can be narrowed to.
#[derive(Clone, Copy, PartialEq, Eq, Structural, Debug)]
pub enum Os {
    Android,
    Ios,
    Linux,
    MacOs,
    Windows,
    OtherOs,
}

/// A database query: which advisories to consider.
#[derive(Clone, Copy, Debug)]
pub struct Query {
    /// Consider only the crates collection.
    pub crate_scope: bool,
    /// Consider only advisories affecting this architecture.
    pub target_arch: Option<Arch>,
    /// Consider only advisories affecting this operating system.
    pub target_os: Option<Os>,
    /// Consider only advisories at least this severe.
    pub severity: Option<Severity>,
    /// Whether informational advisories are wanted.
    pub informational: bool,
}

impl Query {
    /// A query over the crates collection, with no further constraint.
    pub fn crate_scope() -> (q: Query)
        ensures
            q == (Query {
                crate_scope: true,
                target_arch: None,
                target_os: None,
                severity: None,
                informational: false,
            }),
    {
        Query {
            crate_scope: true,
            target_arch: None,
            target_os: None,
            severity: None,
            informational: false,
        }
    }

    /// Narrows the query to one CPU architecture.
    pub fn target_arch(self, arch: Arch) -> (q: Query)
        ensures
            q == (Query { target_arch: Some(arch), ..self }),
    {
        Query { target_arch: Some(arch), ..self }
    }

    /// Narrows the query to one operating system.
    pub fn target_os(self, os: Os) -> (q: Query)
        ensures
            q == (Query { target_os: Some(os), ..self }),
    {
        Query { target_os: Some(os), ..self }
    }

    /// Narrows the query to advisories at least this severe.
    pub fn severity(self, severity: Severity) -> (q: Query)
        ensures
            q == (Query { severity: Some(severity), ..self }),
    {
        Query { severity: Some(severity), ..self }
    }

    /// Sets whether informational advisories are wanted.
    pub fn informational(self, informational: bool) -> (q: Query)
        ensures
            q == (Query { informational, ..self }),
    {
        Query { informational, ..self }
    }
}

/// One package of the audited lockfile.
pub struct Package {
    pub name: String,
    pub version: Version,
}

/// Mathematical value of a [`Package`].
#[verifier::ext_equal]
pub struct PackageModel {
    pub name: Seq<char>,
    pub version: VersionModel,
}

impl View for Package {
    type V = PackageModel;

    open spec fn view(&self) -> PackageModel {
        PackageModel { name: self.name@, version: self.version@ }
    }
}

/// The audited lockfile: its locked packages.
pub struct Lockfile {
    pub packages: Vec<Package>,
}

/// The advisory database: its advisories and its latest commit.
pub struct Database {
    pub advisories: Vec<Advisory>,
    /// Git commit hash of the last commit to the database.
    pub last_commit: String,
    /// Unix timestamp of the last commit to the database.
    pub last_updated: i64,
}

/// A match of an advisory against a locked package.
pub struct Vulnerability {
    pub advisory: AdvisoryMetadata,
    pub package: Package,
}

/// Mathematical value of a [`Vulnerability`].
#[verifier::ext_equal]
pub struct VulnerabilityModel {
    pub advisory: AdvisoryMetadata,
    pub package: PackageModel,
}

impl View for Vulnerability {
    type V = VulnerabilityModel;

    open spec fn view(&self) -> VulnerabilityModel {
        VulnerabilityModel { advisory: self.advisory, package: self.package@ }
    }
}

/// The models of locked packages.
pub open spec fn package_models(s: Seq<Package>) -> Seq<PackageModel> {
    s.map_values(|p: Package| p@)
}

/// The models of vulnerabilities.
pub open spec fn vulnerability_models(s: Seq<Vulnerability>) -> Seq<VulnerabilityModel> {
    s.map_values(|v: Vulnerability| v@)
}

/// Whether an advisory matches a query for a given locked package: the
/// advisory names the package, its informational class agrees with what
/// the query wants, and it clears the query's severity threshold.
pub open spec fn query_matches(q: Query, adv: AdvisoryMetadata, pkg: PackageModel) -> bool {
    &&& adv.package@ == pkg.name
    &&& q.informational == (adv.informational is Some)
    &&& match q.severity {
        None => true,
        Some(threshold) => match adv.severity {
            Some(s) => severity_rank(s) >= severity_rank(threshold),
            None => false,
        },
    }
}

/// The matches of one advisory against each package, in lockfile order.
pub open spec fn advisory_matches(
    adv: AdvisoryMetadata,
    pkgs: Seq<PackageModel>,
    q: Query,
) -> Seq<VulnerabilityModel>
    decreases pkgs.len(),
{
    if pkgs.len() == 0 {
        Seq::empty()
    } else {
        let rest = advisory_matches(adv, pkgs.skip(1), q);
        if query_matches(q, adv, pkgs[0]) {
            seq![VulnerabilityModel { advisory: adv, package: pkgs[0] }] + rest
        } else {
            rest
        }
    }
}

/// All matches of a database against a lockfile, advisory by advisory.
pub open spec fn query_results(advs: Seq<Advisory>, pkgs: Seq<PackageModel>, q: Query) -> Seq<
    VulnerabilityModel,
>
    decreases advs.len(),
{
    if advs.len() == 0 {
        Seq::empty()
    } else {
        advisory_matches(advs[0].metadata, pkgs, q) + query_results(advs.skip(1), pkgs, q)
    }
}

fn clone_string(s: &String) -> (r: String)
    ensures
        r == s,
{
    s.clone()
}

fn clone_opt_string(s: &Option<String>) -> (r: Option<String>)
    ensures
        r == s,
{
    match s {
        Some(x) => Some(x.clone()),
        None => None,
    }
}

fn clone_metadata(m: &AdvisoryMetadata) -> (r: AdvisoryMetadata)
    ensures
        r == m,
{
    AdvisoryMetadata {
        id: clone_string(&m.id),
        package: clone_string(&m.package),
        title: clone_string(&m.title),
        informational: m.informational,
        severity: m.severity,
        url: clone_opt_string(&m.url),
    }
}

fn clone_package(p: &Package) -> (r: Package)
    ensures
        r@ == p@,
{
    Package { name: clone_string(&p.name), version: clone_version(&p.version) }
}

/// Whether one advisory matches the query for one package, decided
/// executably.
fn matches_query(q: &Query, adv: &AdvisoryMetadata, pkg: &Package) -> (r: bool)
    ensures
        r == query_matches(*q, *adv, pkg@),
{
    if !(adv.package == pkg.name) {
        return false;
    }
    if q.informational != adv.informational.is_some() {
        return false;
    }
    match &q.severity {
        None => true,
        Some(threshold) => match &adv.severity {
            Some(s) => severity_rank_of(*s) >= severity_rank_of(*threshold),
            None => false,
        },
    }
}

impl Lockfile {
    /// The vulnerabilities a query finds for this lockfile: each advisory
    /// matched against each locked package, in database and lockfile order.
    pub fn query_vulnerabilities(&self, db: &Database, q: &Query) -> (r: Vec<Vulnerability>)
        ensures
            vulnerability_models(r@) == query_results(db.advisories@, package_models(
                self.packages@,
            ), *q),
    {
        let ghost pm = package_models(self.packages@);
        let ghost total = query_results(db.advisories@, pm, *q);
        let mut result: Vec<Vulnerability> = Vec::new();
        proof {
            assert(db.advisories@.skip(0) =~= db.advisories@);
            assert(vulnerability_models(result@) =~= Seq::<VulnerabilityModel>::empty());
            assert(vulnerability_models(result@) + query_results(db.advisories@, pm, *q)
                =~= total);
        }
        let mut i: usize = 0;
        while i < db.advisories.len()
            invariant
                pm == package_models(self.packages@),
                total == query_results(db.advisories@, pm, *q),
                i <= db.advisories@.len(),
                vulnerability_models(result@) + query_results(db.advisories@.skip(i as int), pm, *q)
                    == total,
            decreases db.advisories@.len() - i,
        {
            let adv = &db.advisories[i];
            let ghost base = vulnerability_models(result@);
            proof {
                assert(pm.skip(0) =~= pm);
            }
            let mut j: usize = 0;
            while j < self.packages.len()
                invariant
                    pm == package_models(self.packages@),
                    j <= pm.len(),
                    vulnerability_models(result@) + advisory_matches(adv.metadata, pm.skip(j as int), *q)
                        == base + advisory_matches(adv.metadata, pm, *q),
                decreases pm.len() - j,
            {
                let pkg = &self.packages[j];
                proof {
                    assert(pm.skip(j as int).skip(1) =~= pm.skip(j + 1 as int));
                    assert(pm.skip(j as int)[0] == pm[j as int]);
                    assert(pm[j as int] == pkg@);
                }
                if matches_query(q, &adv.metadata, pkg) {
                    let ghost prev = vulnerability_models(result@);
                    result.push(
                        Vulnerability {
                            advisory: clone_metadata(&adv.metadata),
                            package: clone_package(pkg),
                        },
                    );
                    proof {
                        assert(vulnerability_models(result@) =~= prev.push(
                            VulnerabilityModel { advisory: adv.metadata, package: pkg@ },
                        ));
                        assert(vulnerability_models(result@) + advisory_matches(
                            adv.metadata,
                            pm.skip(j + 1 as int),
                            *q,
                        ) =~= base + advisory_matches(adv.metadata, pm, *q));
                    }
                } else {
                    proof {
                        assert(vulnerability_models(result@) + advisory_matches(
                            adv.metadata,
                            pm.skip(j + 1 as int),
                            *q,
                        ) =~= base + advisory_matches(adv.metadata, pm, *q));
                    }
                }
                j = j + 1;
            }
            proof {
                assert(pm.skip(pm.len() as int) =~= Seq::<PackageModel>::empty());
                assert(advisory_matches(adv.metadata, pm.skip(pm.len() as int), *q)
                    =~= Seq::<VulnerabilityModel>::empty());
                assert(vulnerability_models(result@) =~= base + advisory_matches(
                    adv.metadata,
                    pm,
                    *q,
                ));
                assert(db.advisories@.skip(i as int).skip(1) =~= db.advisories@.skip(i + 1 as int));
                assert(db.advisories@.skip(i as int)[0] == db.advisories@[i as int]);
                assert(vulnerability_models(result@) + query_results(
                    db.advisories@.skip(i + 1 as int),
                    pm,
                    *q,
                ) =~= total);
            }
            i = i + 1;
        }
        proof {
            assert(db.advisories@.skip(db.advisories@.len() as int) =~= Seq::<Advisory>::empty());
            assert(vulnerability_models(result@) =~= total);
        }
        result
    }
}

/// Options to use when generating a report.
pub struct Settings {
    /// CPU architecture to restrict the audit to.
    pub target_arch: Option<Arch>,
    /// Operating system to restrict the audit to.
    pub target_os: Option<Os>,
    /// Severity threshold to alert at.
    pub severity: Option<Severity>,
    /// Advisory identifiers to ignore.
    pub ignore: Vec<String>,
    /// Classes of informational advisories to warn about.
    pub informational_warnings: Vec<Informational>,
}

impl Clone for Settings {
    fn clone(&self) -> (r: Self)
        ensures
            r.target_arch == self.target_arch,
            r.target_os == self.target_os,
            r.severity == self.severity,
            r.ignore@ == self.ignore@,
            r.informational_warnings@ == self.informational_warnings@,
    {
        let mut ignore: Vec<String> = Vec::new();
        let mut i: usize = 0;
        while i < self.ignore.len()
            invariant
                i <= self.ignore@.len(),
                ignore@ == self.ignore@.take(i as int),
            decreases self.ignore@.len() - i,
        {
            ignore.push(self.ignore[i].clone());
            proof {
                assert(self.ignore@.take(i + 1 as int) =~= self.ignore@.take(i as int).push(
                    self.ignore@[i as int],
                ));
            }
            i = i + 1;
        }
        let mut informational_warnings: Vec<Informational> = Vec::new();
        let mut j: usize = 0;
        while j < self.informational_warnings.len()
            invariant
                j <= self.informational_warnings@.len(),
                informational_warnings@ == self.informational_warnings@.take(j as int),
            decreases self.informational_warnings@.len() - j,
        {
            informational_warnings.push(self.informational_warnings[j]);
            proof {
                assert(self.informational_warnings@.take(j + 1 as int)
                    =~= self.informational_warnings@.take(j as int).push(
                    self.informational_warnings@[j as int],
                ));
            }
            j = j + 1;
        }
        proof {
            assert(self.ignore@.take(self.ignore@.len() as int) =~= self.ignore@);
            assert(self.informational_warnings@.take(self.informational_warnings@.len() as int)
                =~= self.informational_warnings@);
        }
        Settings {
            target_arch: self.target_arch,
            target_os: self.target_os,
            severity: self.severity,
            ignore,
            informational_warnings,
        }
    }
}

impl Default for Settings {
    /// Settings with no constraint, no ignored advisory and no warning
    /// class selected.
    fn default() -> (r: Self)
        ensures
            r.target_arch is None,
            r.target_os is None,
            r.severity is None,
            r.ignore@ == Seq::<String>::empty(),
            r.informational_warnings@ == Seq::<Informational>::empty(),
    {
        Settings {
            target_arch: None,
            target_os: None,
            severity: None,
            ignore: Vec::new(),
            informational_warnings: Vec::new(),
        }
    }
}

impl Settings {
    /// The query corresponding to these settings. Queries cannot filter
    /// ignored advisories; that happens in a separate pass.
    pub fn query(&self) -> (q: Query)
        ensures
            q.crate_scope == true,
            q.target_arch == self.target_arch,
            q.target_os == self.target_os,
            q.severity == self.severity,
            q.informational == false,
    {
        let mut query = Query::crate_scope();
        match &self.target_arch {
            Some(target_arch) => {
                query = query.target_arch(*target_arch);
            },
            None => {},
        }
        match &self.target_os {
            Some(target_os) => {
                query = query.target_os(*target_os);
            },
            None => {},
        }
        match &self.severity {
            Some(severity) => {
                query = query.severity(*severity);
            },
            None => {},
        }
        query
    }
}

/// Whether the settings ignore an advisory identifier.
pub open spec fn ignored(settings: Settings, id: Seq<char>) -> bool {
    exists|i: int| 0 <= i < settings.ignore@.len() && #[trigger] settings.ignore@[i]@ == id
}

/// Whether the settings select an advisory's informational class for a
/// warning.
pub open spec fn warning_selected(settings: Settings, info: Option<Informational>) -> bool {
    exists|i: int|
        0 <= i < settings.informational_warnings@.len() && Some(
            #[trigger] settings.informational_warnings@[i],
        ) == info
}

fn is_ignored(settings: &Settings, id: &String) -> (r: bool)
    ensures
        r == ignored(*settings, id@),
{
    let mut i: usize = 0;
    while i < settings.ignore.len()
        invariant
            i <= settings.ignore@.len(),
            forall|t: int| 0 <= t < i ==> #[trigger] settings.ignore@[t]@ != id@,
        decreases settings.ignore@.len() - i,
    {
        if settings.ignore[i] == *id {
            proof {
                assert(settings.ignore@[i as int]@ == id@);
            }
            return true;
        }
        i = i + 1;
    }
    false
}

fn is_warning_selected(settings: &Settings, info: &Option<Informational>) -> (r: bool)
    ensures
        r == warning_selected(*settings, *info),
{
    match *info {
        None => false,
        Some(x) => {
            let mut i: usize = 0;
            while i < settings.informational_warnings.len()
                invariant
                    *info == Some(x),
                    i <= settings.informational_warnings@.len(),
                    forall|t: int|
                        0 <= t < i ==> #[trigger] settings.informational_warnings@[t] != x,
                decreases settings.informational_warnings@.len() - i,
            {
                if settings.informational_warnings[i] == x {
                    proof {
                        assert(Some(settings.informational_warnings@[i as int]) == *info);
                    }
                    return true;
                }
                i = i + 1;
            }
            false
        },
    }
}

/// Warnings about particular dependencies.
pub struct Warning {
    /// Name of the affected package.
    pub package: String,
    /// Text of the warning.
    pub message: String,
    /// URL with additional information, if available.
    pub url: Option<String>,
}

/// The warning a matched informational advisory produces.
pub open spec fn warning_of(v: VulnerabilityModel) -> Warning {
    Warning { package: v.advisory.package, message: v.advisory.title, url: v.advisory.url }
}

/// Whether a matched advisory produces a warning under these settings.
pub open spec fn warning_kept(settings: Settings, v: VulnerabilityModel) -> bool {
    !ignored(settings, v.advisory.id@) && warning_selected(settings, v.advisory.informational)
}

/// The warnings a list of matches produces, in order.
pub open spec fn warnings_of(vulns: Seq<VulnerabilityModel>, settings: Settings) -> Seq<Warning>
    decreases vulns.len(),
{
    if vulns.len() == 0 {
        Seq::empty()
    } else {
        let rest = warnings_of(vulns.skip(1), settings);
        if warning_kept(settings, vulns[0]) {
            seq![warning_of(vulns[0])] + rest
        } else {
            rest
        }
    }
}

/// The query the settings imply, with informational advisories included.
pub open spec fn informational_query(s: Settings) -> Query {
    Query {
        crate_scope: true,
        target_arch: s.target_arch,
        target_os: s.target_os,
        severity: s.severity,
        informational: true,
    }
}

impl Warning {
    /// The warnings for the given advisory database and lockfile: one per
    /// matched informational advisory whose class the settings select,
    /// skipping ignored advisories.
    pub fn generate(db: &Database, lockfile: &Lockfile, settings: &Settings) -> (r: Vec<Warning>)
        ensures
            r@ == warnings_of(
                query_results(
                    db.advisories@,
                    package_models(lockfile.packages@),
                    informational_query(*settings),
                ),
                *settings,
            ),
    {
        let query = settings.query().informational(true);
        proof {
            assert(query == informational_query(*settings));
        }
        let vulns = lockfile.query_vulnerabilities(db, &query);
        let ghost vm = vulnerability_models(vulns@);
        let ghost total = warnings_of(vm, *settings);
        let mut result: Vec<Warning> = Vec::new();
        proof {
            assert(vm.skip(0) =~= vm);
            assert(result@ =~= Seq::<Warning>::empty());
            assert(result@ + warnings_of(vm, *settings) =~= total);
        }
        let mut i: usize = 0;
        while i < vulns.len()
            invariant
                vm == vulnerability_models(vulns@),
                total == warnings_of(vm, *settings),
                i <= vm.len(),
                result@ + warnings_of(vm.skip(i as int), *settings) == total,
            decreases vm.len() - i,
        {
            let vuln = &vulns[i];
            proof {
                assert(vm.skip(i as int).skip(1) =~= vm.skip(i + 1 as int));
                assert(vm.skip(i as int)[0] == vm[i as int]);
                assert(vm[i as int] == vuln@);
            }
            if !is_ignored(settings, &vuln.advisory.id) && is_warning_selected(
                settings,
                &vuln.advisory.informational,
            ) {
                let ghost prev = result@;
                result.push(
                    Warning {
                        package: clone_string(&vuln.advisory.package),
                        message: clone_string(&vuln.advisory.title),
                        url: clone_opt_string(&vuln.advisory.url),
                    },
                );
                proof {
                    assert(result@ =~= prev.push(warning_of(vm[i as int])));
                    assert(result@ + warnings_of(vm.skip(i + 1 as int), *settings) =~= total);
                }
            } else {
                proof {
                    assert(result@ + warnings_of(vm.skip(i + 1 as int), *settings) =~= total);
                }
            }
            i = i + 1;
        }
        proof {
            assert(vm.skip(vm.len() as int) =~= Seq::<VulnerabilityModel>::empty());
            assert(result@ =~= total);
        }
        result
    }
}

/// Information about the advisory database.
pub struct DatabaseInfo {
    /// Number of advisories in the database.
    pub advisory_count: usize,
    /// Git commit hash of the last commit to the database.
    pub last_commit: String,
    /// Unix timestamp of the last commit to the database.
    pub last_updated: i64,
}

impl DatabaseInfo {
    /// Summarizes the advisory database.
    pub fn new(db: &Database) -> (r: Self)
        ensures
            r.advisory_count == db.advisories@.len(),
            r.last_commit@ == db.last_commit@,
            r.last_updated == db.last_updated,
    {
        DatabaseInfo {
            advisory_count: db.advisories.len(),
            last_commit: db.last_commit.clone(),
            last_updated: db.last_updated,
        }
    }
}

/// Information about the audited lockfile.
pub struct LockfileInfo {
    /// Number of dependencies in the lockfile.
    pub dependency_count: usize,
}

impl LockfileInfo {
    /// Summarizes the audited lockfile.
    pub fn new(lockfile: &Lockfile) -> (r: Self)
        ensures
            r.dependency_count == lockfile.packages@.len(),
    {
        LockfileInfo { dependency_count: lockfile.packages.len() }
    }
}

/// Information about detected vulnerabilities.
pub struct VulnerabilityInfo {
    /// Were any vulnerabilities found?
    pub found: bool,
    /// Number of vulnerabilities found.
    pub count: usize,
    /// The detected vulnerabilities.
    pub list: Vec<Vulnerability>,
}

impl VulnerabilityInfo {
    /// Wraps a list of detected vulnerabilities with its summary fields.
    pub fn new(list: Vec<Vulnerability>) -> (r: Self)
        ensures
            r.found == (list@.len() != 0),
            r.count == list@.len(),
            r.list == list,
    {
        let found = !list.is_empty();
        let count = list.len();
        VulnerabilityInfo { found, count, list }
    }
}

/// The matched vulnerabilities that survive the ignore list, in order.
pub open spec fn retained(vulns: Seq<VulnerabilityModel>, settings: Settings) -> Seq<
    VulnerabilityModel,
>
    decreases vulns.len(),
{
    if vulns.len() == 0 {
        Seq::empty()
    } else {
        let rest = retained(vulns.skip(1), settings);
        if !ignored(settings, vulns[0].advisory.id@) {
            seq![vulns[0]] + rest
        } else {
            rest
        }
    }
}

/// A vulnerability report for a given lockfile.
pub struct Report {
    /// Information about the advisory database.
    pub database: DatabaseInfo,
    /// Information about the audited lockfile.
    pub lockfile: LockfileInfo,
    /// Settings used when generating the report.
    pub settings: Settings,
    /// Vulnerabilities detected in the project.
    pub vulnerabilities: VulnerabilityInfo,
    /// Warnings about dependencies.
    pub warnings: Vec<Warning>,
}

impl Report {
    /// Generates a report for the given advisory database and lockfile:
    /// the matched vulnerabilities minus the ignored ones, the selected
    /// warnings, and summaries of both inputs.
    pub fn generate(db: &Database, lockfile: &Lockfile, settings: &Settings) -> (r: Self)
        ensures
            r.database.advisory_count == db.advisories@.len(),
            r.database.last_commit@ == db.last_commit@,
            r.database.last_updated == db.last_updated,
            r.lockfile.dependency_count == lockfile.packages@.len(),
            r.settings.target_arch == settings.target_arch,
            r.settings.target_os == settings.target_os,
            r.settings.severity == settings.severity,
            r.settings.ignore@ == settings.ignore@,
            r.settings.informational_warnings@ == settings.informational_warnings@,
            vulnerability_models(r.vulnerabilities.list@) == retained(
                query_results(
                    db.advisories@,
                    package_models(lockfile.packages@),
                    Query {
                        crate_scope: true,
                        target_arch: settings.target_arch,
                        target_os: settings.target_os,
                        severity: settings.severity,
                        informational: false,
                    },
                ),
                *settings,
            ),
            r.vulnerabilities.count == r.vulnerabilities.list@.len(),
            r.vulnerabilities.found == (r.vulnerabilities.list@.len() != 0),
            r.warnings@ == warnings_of(
                query_results(
                    db.advisories@,
                    package_models(lockfile.packages@),
                    informational_query(*settings),
                ),
                *settings,
            ),
    {
        let query = settings.query();
        let all = lockfile.query_vulnerabilities(db, &query);
        let ghost vm = vulnerability_models(all@);
        let ghost total = retained(vm, *settings);
        let mut kept: Vec<Vulnerability> = Vec::new();
        proof {
            assert(vm.skip(0) =~= vm);
            assert(vulnerability_models(kept@) =~= Seq::<VulnerabilityModel>::empty());
            assert(vulnerability_models(kept@) + retained(vm, *settings) =~= total);
        }
        let mut i: usize = 0;
        while i < all.len()
            invariant
                vm == vulnerability_models(all@),
                total == retained(vm, *settings),
                i <= vm.len(),
                vulnerability_models(kept@) + retained(vm.skip(i as int), *settings) == total,
            decreases vm.len() - i,
        {
            let vuln = &all[i];
            proof {
                assert(vm.skip(i as int).skip(1) =~= vm.skip(i + 1 as int));
                assert(vm.skip(i as int)[0] == vm[i as int]);
                assert(vm[i as int] == vuln@);
            }
            if !is_ignored(settings, &vuln.advisory.id) {
                let ghost prev = vulnerability_models(kept@);
                kept.push(
                    Vulnerability {
                        advisory: clone_metadata(&vuln.advisory),
                        package: clone_package(&vuln.package),
                    },
                );
                proof {
                    assert(vulnerability_models(kept@) =~= prev.push(vm[i as int]));
                    assert(vulnerability_models(kept@) + retained(vm.skip(i + 1 as int), *settings)
                        =~= total);
                }
            } else {
                proof {
                    assert(vulnerability_models(kept@) + retained(vm.skip(i + 1 as int), *settings)
                        =~= total);
                }
            }
            i = i + 1;
        }
        proof {
            assert(vm.skip(vm.len() as int) =~= Seq::<VulnerabilityModel>::empty());
            assert(vulnerability_models(kept@) =~= total);
        }
        Report {
            database: DatabaseInfo::new(db),
            lockfile: LockfileInfo::new(lockfile),
            settings: settings.clone(),
            vulnerabilities: VulnerabilityInfo::new(kept),
            warnings: Warning::generate(db, lockfile, settings),
        }
    }
}


} // verus!
