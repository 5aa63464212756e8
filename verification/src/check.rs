//! The check of CSS properties as a whole, on files that were read, and the
//! search for the front end's root.
use vstd::prelude::*;
use vstd::string::*;
use crate::allowlist::{load_supported_properties, supported_properties, ConfigError};
use crate::dist::{
    ascending_by_file, ascending_by_property, check_dist_css, dist_findings, distinct_paths,
    lemma_dist_findings_in_order,
};
use crate::strings::str_equal;
use crate::report::{
    dist_report, dist_report_lines, lines_of, source_report, source_report_lines,
};
use crate::source::{check_css_properties_in_source, sources_findings, SourceFile};
use crate::tailwind::TailwindHit;
use crate::violation::{violation_views, Violation, ViolationView};

verus! {

/// How the check of CSS properties ended.
#[derive(Debug)]
pub enum CssCheckOutcome {
    /// The front end was not built: there is no directory of build output.
    MissingBuildOutput,
    /// The build output holds no stylesheet.
    NoStylesheets,
    /// The stylesheets, and the script sources if that was asked for, were
    /// checked.
    Checked { source: Vec<Violation>, dist: Vec<Violation> },
}

/// `CssCheckOutcome`, with the violations as characters.
pub enum CssCheckOutcomeView {
    MissingBuildOutput,
    NoStylesheets,
    Checked { source: Seq<ViolationView>, dist: Seq<ViolationView> },
}

impl View for CssCheckOutcome {
    type V = CssCheckOutcomeView;

    open spec fn view(&self) -> CssCheckOutcomeView {
        match self {
            CssCheckOutcome::MissingBuildOutput => CssCheckOutcomeView::MissingBuildOutput,
            CssCheckOutcome::NoStylesheets => CssCheckOutcomeView::NoStylesheets,
            CssCheckOutcome::Checked { source, dist } => CssCheckOutcomeView::Checked {
                source: violation_views(source@),
                dist: violation_views(dist@),
            },
        }
    }
}

/// Whether an outcome lets the check pass: everything was checked and
/// nothing was found.
pub open spec fn outcome_passes(outcome: CssCheckOutcomeView) -> bool {
    match outcome {
        CssCheckOutcomeView::Checked { source, dist } => source.len() == 0 && dist.len() == 0,
        _ => false,
    }
}

impl CssCheckOutcome {
    /// Whether the check passed.
    pub fn passed(&self) -> (r: bool)
        ensures
            r == outcome_passes(self@),
    {
        match self {
            CssCheckOutcome::Checked { source, dist } => source.len() == 0 && dist.len() == 0,
            _ => false,
        }
    }
}

/// The violations of the script sources, or none where they are not
/// scanned.
pub open spec fn scanned_findings(
    sources: Seq<SourceFile>,
    scan_source: bool,
    allow: Set<Seq<char>>,
) -> Result<Seq<ViolationView>, ConfigError> {
    if scan_source {
        sources_findings(sources, allow)
    } else {
        Ok(Seq::empty())
    }
}

/// The outcome of the check of CSS properties. `allowlist` is the text of
/// the list of supported properties, `None` where that file is missing;
/// `dist_css` the stylesheets of the build output, `None` where there is no
/// build output. The steps in their order: a missing list is an error, and
/// so is a list that names nothing, whatever else is there; with no build
/// output the check fails at once; the script sources are scanned if that
/// is asked for; with no stylesheet the check fails; else the stylesheets
/// are checked.
pub open spec fn css_check(
    allowlist: Option<Seq<char>>,
    dist_css: Option<Seq<SourceFile>>,
    sources: Seq<SourceFile>,
    scan_source: bool,
) -> Result<CssCheckOutcomeView, ConfigError> {
    match allowlist {
        None => Err(ConfigError::MissingAllowlist),
        Some(text) => match supported_properties(text) {
            Err(e) => Err(e),
            Ok(allow) => match dist_css {
                None => Ok(CssCheckOutcomeView::MissingBuildOutput),
                Some(stylesheets) => match scanned_findings(sources, scan_source, allow) {
                    Err(e) => Err(e),
                    Ok(source) => if stylesheets.len() == 0 {
                        Ok(CssCheckOutcomeView::NoStylesheets)
                    } else {
                        Ok(
                            CssCheckOutcomeView::Checked {
                                source,
                                dist: dist_findings(stylesheets, allow),
                            },
                        )
                    },
                },
            },
        },
    }
}

/// A fault of the list of supported properties is the outcome of the check,
/// whatever the build output and the script sources are: a list that is
/// missing, or that names nothing, lets no check pass or fail.
pub proof fn lemma_allowlist_fault_comes_first(
    allowlist: Option<Seq<char>>,
    dist_css: Option<Seq<SourceFile>>,
    sources: Seq<SourceFile>,
    scan_source: bool,
)
    ensures
        allowlist is None ==> css_check(allowlist, dist_css, sources, scan_source) == Err::<
            CssCheckOutcomeView,
            ConfigError,
        >(ConfigError::MissingAllowlist),
        match allowlist {
            Some(text) => match supported_properties(text) {
                Err(e) => css_check(allowlist, dist_css, sources, scan_source) == Err::<
                    CssCheckOutcomeView,
                    ConfigError,
                >(e),
                Ok(_) => true,
            },
            None => true,
        },
{
}

/// Checks the built stylesheets, and the script sources where `scan_source`
/// says so, against the list of supported properties.
pub fn check_css_properties_with_source_flag(
    allowlist: Option<&str>,
    dist_css: Option<&Vec<SourceFile>>,
    sources: &Vec<SourceFile>,
    scan_source: bool,
) -> (res: Result<CssCheckOutcome, ConfigError>)
    ensures
        match res {
            Ok(outcome) => css_check(
                match allowlist {
                    Some(text) => Some(text@),
                    None => None,
                },
                match dist_css {
                    Some(files) => Some(files@),
                    None => None,
                },
                sources@,
                scan_source,
            ) == Ok::<CssCheckOutcomeView, ConfigError>(outcome@),
            Err(e) => css_check(
                match allowlist {
                    Some(text) => Some(text@),
                    None => None,
                },
                match dist_css {
                    Some(files) => Some(files@),
                    None => None,
                },
                sources@,
                scan_source,
            ) == Err::<CssCheckOutcomeView, ConfigError>(e),
        },
{
    let Some(text) = allowlist else {
        return Err(ConfigError::MissingAllowlist);
    };
    let supported = load_supported_properties(text)?;
    let Some(stylesheets) = dist_css else {
        return Ok(CssCheckOutcome::MissingBuildOutput);
    };
    let source = if scan_source {
        check_css_properties_in_source(sources, &supported)?
    } else {
        Vec::new()
    };
    proof {
        if !scan_source {
            assert(violation_views(source@) =~= Seq::<ViolationView>::empty());
        }
    }
    if stylesheets.len() == 0 {
        return Ok(CssCheckOutcome::NoStylesheets);
    }
    let dist = check_dist_css(stylesheets, &supported);
    Ok(CssCheckOutcome::Checked { source, dist })
}

/// The line that says that no stylesheet declares an unsupported property.
pub open spec fn dist_ok_line() -> Seq<char> {
    "[check:webf-css-props] OK: All CSS declarations use supported properties (plus custom properties)."@
}

/// What is reported once everything was checked: that the stylesheets are
/// in order, where they are, or else what was found in them; before the
/// latter, and behind the former, what was found in the script sources.
pub open spec fn checked_report(source: Seq<ViolationView>, dist: Seq<ViolationView>) -> Seq<
    Seq<char>,
> {
    let source_lines = if source.len() == 0 {
        Seq::<Seq<char>>::empty()
    } else {
        source_report(source)
    };
    if dist.len() == 0 {
        seq![dist_ok_line()] + source_lines
    } else {
        source_lines + dist_report(dist)
    }
}

/// The lines that report what the check of CSS properties found.
pub fn checked_report_lines(source: &Vec<Violation>, dist: &Vec<Violation>) -> (lines: Vec<String>)
    ensures
        lines_of(lines@) == checked_report(violation_views(source@), violation_views(dist@)),
{
    let mut lines: Vec<String> = Vec::new();
    proof {
        assert(lines_of(lines@) =~= Seq::<Seq<char>>::empty());
    }
    if dist.len() == 0 {
        lines.push(
            "[check:webf-css-props] OK: All CSS declarations use supported properties (plus custom properties).".to_owned(),
        );
        proof {
            assert(lines_of(lines@) =~= seq![dist_ok_line()]);
        }
        if source.len() > 0 {
            let mut more = source_report_lines(source);
            let ghost a = lines_of(lines@);
            let ghost b = lines_of(more@);
            lines.append(&mut more);
            proof {
                assert(lines_of(lines@) =~= a + b);
            }
        } else {
            proof {
                assert(lines_of(lines@) + Seq::<Seq<char>>::empty() =~= lines_of(lines@));
            }
        }
    } else {
        if source.len() > 0 {
            let mut more = source_report_lines(source);
            let ghost b = lines_of(more@);
            lines.append(&mut more);
            proof {
                assert(lines_of(lines@) =~= b);
            }
        }
        let mut rest = dist_report_lines(dist);
        let ghost a = lines_of(lines@);
        let ghost b = lines_of(rest@);
        lines.append(&mut rest);
        proof {
            assert(lines_of(lines@) =~= a + b);
        }
    }
    lines
}

/// Where the stylesheets were checked, the violations found in them stand
/// file by file, the files by ascending path; and where no two stylesheets
/// have the same path, those of each file stand by ascending property, each
/// property of a file once.
pub proof fn lemma_checked_stylesheets_in_order(
    allowlist: Option<Seq<char>>,
    stylesheets: Seq<SourceFile>,
    sources: Seq<SourceFile>,
    scan_source: bool,
)
    ensures
        match css_check(allowlist, Some(stylesheets), sources, scan_source) {
            Ok(CssCheckOutcomeView::Checked { source, dist }) => ascending_by_file(dist) && (
            distinct_paths(stylesheets) ==> ascending_by_property(dist)),
            _ => true,
        },
{
    match allowlist {
        Some(text) => match supported_properties(text) {
            Ok(allow) => {
                lemma_dist_findings_in_order(stylesheets, allow);
            },
            Err(_) => {},
        },
        None => {},
    }
}

/// Two scans of the same sources against the same list report the same
/// violations in the same order.
pub proof fn lemma_source_scan_is_deterministic(
    files: Seq<SourceFile>,
    allow: Set<Seq<char>>,
    first: Seq<Violation>,
    second: Seq<Violation>,
)
    requires
        sources_findings(files, allow) == Ok::<Seq<ViolationView>, ConfigError>(
            violation_views(first),
        ),
        sources_findings(files, allow) == Ok::<Seq<ViolationView>, ConfigError>(
            violation_views(second),
        ),
    ensures
        violation_views(first) == violation_views(second),
        source_report(violation_views(first)) == source_report(violation_views(second)),
{
}

/// Two checks of the same stylesheets against the same list report the same
/// violations in the same order.
pub proof fn lemma_dist_check_is_deterministic(
    files: Seq<SourceFile>,
    allow: Set<Seq<char>>,
    first: Seq<Violation>,
    second: Seq<Violation>,
)
    requires
        violation_views(first) == dist_findings(files, allow),
        violation_views(second) == dist_findings(files, allow),
    ensures
        violation_views(first) == violation_views(second),
        dist_report(violation_views(first)) == dist_report(violation_views(second)),
{
}

/// What was found out about a directory in the search for the front end's
/// root.
#[derive(Clone, Copy, Debug)]
pub struct DirProbe {
    /// The directory holds a file `package.json`.
    pub package_json: bool,
    /// The directory holds a directory `scripts`.
    pub scripts: bool,
    /// Its subdirectory `frontend` holds a file `package.json`.
    pub frontend_package_json: bool,
    /// Its subdirectory `frontend` holds a directory `scripts`.
    pub frontend_scripts: bool,
}

/// Where the front end's root is: in the directory `levels` above the one
/// from which the search started, or in the subdirectory `frontend` of that
/// directory.
#[derive(Clone, Copy, Debug, PartialEq, Eq, Structural)]
pub struct RootChoice {
    pub levels: usize,
    pub in_frontend: bool,
}

/// How many directories the search climbs: the one it starts from and four
/// above it.
pub const SEARCH_DEPTH: usize = 5;

/// The root that the directories from level `k` on give. A directory whose
/// subdirectory `frontend` holds `package.json` gives that subdirectory;
/// else one that holds `package.json` and `scripts` gives itself.
pub open spec fn climb(probes: Seq<DirProbe>, k: int) -> Option<RootChoice>
    decreases SEARCH_DEPTH - k,
{
    if k < 0 || k >= probes.len() || k >= SEARCH_DEPTH {
        None
    } else if probes[k].frontend_package_json {
        Some(RootChoice { levels: k as usize, in_frontend: true })
    } else if probes[k].package_json && probes[k].scripts {
        Some(RootChoice { levels: k as usize, in_frontend: false })
    } else {
        climb(probes, k + 1)
    }
}

/// The front end's root, given what was found out about the directory from
/// which the search starts (`probes[0]`) and the directories above it. The
/// start itself is the root where it holds `package.json` and `scripts`;
/// else its subdirectory `frontend` where that holds both; else the search
/// climbs.
pub open spec fn frontend_root(probes: Seq<DirProbe>) -> Option<RootChoice> {
    if probes.len() == 0 {
        None
    } else if probes[0].package_json && probes[0].scripts {
        Some(RootChoice { levels: 0, in_frontend: false })
    } else if probes[0].frontend_package_json && probes[0].frontend_scripts {
        Some(RootChoice { levels: 0, in_frontend: true })
    } else {
        climb(probes, 0)
    }
}

/// Picks the front end's root from what was found out about the directory
/// from which the search starts and the directories above it.
pub fn locate_frontend_root(probes: &Vec<DirProbe>) -> (r: Option<RootChoice>)
    ensures
        r == frontend_root(probes@),
{
    if probes.len() == 0 {
        return None;
    }
    if probes[0].package_json && probes[0].scripts {
        return Some(RootChoice { levels: 0, in_frontend: false });
    }
    if probes[0].frontend_package_json && probes[0].frontend_scripts {
        return Some(RootChoice { levels: 0, in_frontend: true });
    }
    let mut k: usize = 0;
    while k < probes.len() && k < SEARCH_DEPTH
        invariant
            k <= SEARCH_DEPTH,
            frontend_root(probes@) == climb(probes@, 0),
            climb(probes@, k as int) == climb(probes@, 0),
        decreases SEARCH_DEPTH - k,
    {
        if probes[k].frontend_package_json {
            return Some(RootChoice { levels: k, in_frontend: true });
        }
        if probes[k].package_json && probes[k].scripts {
            return Some(RootChoice { levels: k, in_frontend: false });
        }
        k += 1;
    }
    None
}

/// Which checks a run makes.
#[derive(Clone, Copy, Debug, PartialEq, Eq, Structural)]
pub enum OnlyMode {
    All,
    Tailwind,
    CssProps,
}

impl OnlyMode {
    /// Whether the forbidden Tailwind utilities are looked for.
    pub fn runs_tailwind(&self) -> (r: bool)
        ensures
            r == (*self == OnlyMode::All || *self == OnlyMode::Tailwind),
    {
        matches!(self, OnlyMode::All | OnlyMode::Tailwind)
    }

    /// Whether the CSS properties are checked.
    pub fn runs_css_props(&self) -> (r: bool)
        ensures
            r == (*self == OnlyMode::All || *self == OnlyMode::CssProps),
    {
        matches!(self, OnlyMode::All | OnlyMode::CssProps)
    }
}

/// What a run found: for each check that was made, its findings.
#[derive(Debug)]
pub struct CheckReport {
    /// The uses of forbidden Tailwind utilities, `None` where they were not
    /// looked for.
    pub tailwind: Option<Vec<TailwindHit>>,
    /// The outcome of the check of CSS properties, `None` where it was not
    /// made.
    pub css: Option<CssCheckOutcome>,
}

impl CheckReport {
    /// No forbidden Tailwind utility was found, or none was looked for.
    pub open spec fn tailwind_passes(&self) -> bool {
        match self.tailwind {
            Some(hits) => hits.len() == 0,
            None => true,
        }
    }

    /// The script sources were scanned and hold no unsupported property, or
    /// the check of CSS properties was not made.
    pub open spec fn source_passes(&self) -> bool {
        match self.css {
            Some(CssCheckOutcome::Checked { source, dist }) => source.len() == 0,
            Some(_) => false,
            None => true,
        }
    }

    /// The built stylesheets were checked and hold no unsupported property,
    /// or the check of CSS properties was not made.
    pub open spec fn dist_passes(&self) -> bool {
        match self.css {
            Some(CssCheckOutcome::Checked { source, dist }) => dist.len() == 0,
            Some(_) => false,
            None => true,
        }
    }

    /// Every check that was made passed.
    pub open spec fn passes(&self) -> bool {
        self.tailwind_passes() && self.source_passes() && self.dist_passes()
    }

    /// Whether no forbidden Tailwind utility was found.
    pub fn tailwind_passed(&self) -> (r: bool)
        ensures
            r == self.tailwind_passes(),
    {
        match &self.tailwind {
            Some(hits) => hits.len() == 0,
            None => true,
        }
    }

    /// Whether the script sources hold no unsupported property.
    pub fn source_passed(&self) -> (r: bool)
        ensures
            r == self.source_passes(),
    {
        match &self.css {
            Some(CssCheckOutcome::Checked { source, dist }) => source.len() == 0,
            Some(_) => false,
            None => true,
        }
    }

    /// Whether the built stylesheets hold no unsupported property.
    pub fn dist_passed(&self) -> (r: bool)
        ensures
            r == self.dist_passes(),
    {
        match &self.css {
            Some(CssCheckOutcome::Checked { source, dist }) => dist.len() == 0,
            Some(_) => false,
            None => true,
        }
    }

    /// Whether the run as a whole passed.
    pub fn passed(&self) -> (r: bool)
        ensures
            r == self.passes(),
            r == (self.tailwind_passes() && match self.css {
                Some(outcome) => outcome_passes(outcome@),
                None => true,
            }),
    {
        self.tailwind_passed() && self.source_passed() && self.dist_passed()
    }
}

/// A run passes only if no check that was made has a finding: a single
/// finding lets it fail.
pub proof fn lemma_passing_run_has_no_finding(report: CheckReport)
    requires
        report.passes(),
    ensures
        match report.tailwind {
            Some(hits) => hits.len() == 0,
            None => true,
        },
        match report.css {
            Some(CssCheckOutcome::Checked { source, dist }) => source.len() == 0 && dist.len()
                == 0,
            Some(_) => false,
            None => true,
        },
{
}

/// Whether a file with this extension is a script source.
pub open spec fn script_extension(ext: Seq<char>) -> bool {
    ext == "ts"@ || ext == "tsx"@ || ext == "js"@ || ext == "jsx"@
}

/// Whether a file with this extension is read as a script source.
pub fn is_script_extension(ext: &str) -> (r: bool)
    ensures
        r == script_extension(ext@),
{
    str_equal(ext, "ts") || str_equal(ext, "tsx") || str_equal(ext, "js") || str_equal(ext, "jsx")
}

} // verus!
