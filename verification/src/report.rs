//! The report: the findings of both phases, sorted by path and filtered
//! when they are printed.

use crate::ignore::{path_ignored, texts_of, IgnoreMatcher};
use crate::packagedb::{in_path_order, owner_text, PackageDb};
use crate::packagefile::PackageFile;
use crate::sort::{lemma_map_values_multiset, sort_by_key, Keyed};
use crate::text::{lossy_text, mode_string, mode_text, path_text};
use vstd::prelude::*;
use vstd::string::StringExecFns;

verus! {

/// One discrepancy, as plain values.
pub ghost enum Finding {
    /// A tracked path that is not on disk.
    Missing { path: Seq<u8>, owner: Seq<char> },
    /// A tracked path whose attributes differ from what was recorded.
    Changed { path: Seq<u8>, owner: Seq<char>, desc: Seq<char> },
    /// A path on disk that no package tracks.
    New { path: Seq<u8>, mode: u32 },
}

impl Finding {
    /// The path that the finding is about.
    pub open spec fn path(self) -> Seq<u8> {
        match self {
            Finding::Missing { path, .. } => path,
            Finding::Changed { path, .. } => path,
            Finding::New { path, .. } => path,
        }
    }

    /// The line that reports the finding.
    pub open spec fn line(self) -> Seq<char> {
        match self {
            Finding::Missing { path, owner } => "MISSING "@ + lossy_text(path) + " (package "@
                + owner + ")"@,
            Finding::Changed { path, owner, desc } => "CHANGED "@ + lossy_text(path)
                + " (package "@ + owner + ", "@ + desc + ")"@,
            Finding::New { path, mode } => "NEW "@ + lossy_text(path) + " ("@ + mode_string(
                mode,
            ) + ")"@,
        }
    }
}

/// The findings with one more, if there is one more.
pub open spec fn with_finding(findings: Seq<Finding>, more: Option<Finding>) -> Seq<Finding> {
    match more {
        Some(f) => findings.push(f),
        None => findings,
    }
}

/// The notice that tells of a finding that a pattern kept out of the report.
pub open spec fn filtered_notice(path: Seq<u8>) -> Seq<char> {
    lossy_text(path) + " filtered out by regex"@
}

/// The paths of a list of findings, in the list's order.
pub open spec fn finding_paths(findings: Seq<Finding>) -> Seq<Seq<u8>> {
    findings.map_values(|f: Finding| f.path())
}

/// The test for findings about the path `k`.
pub open spec fn about(k: Seq<u8>) -> spec_fn(Finding) -> bool {
    |f: Finding| f.path() == k
}

/// The findings of a list that are about the path `k`, in the list's order.
pub open spec fn findings_about(findings: Seq<Finding>, k: Seq<u8>) -> Seq<Finding> {
    findings.filter(about(k))
}

/// The findings that no pattern keeps out of the report, in their order.
pub open spec fn printed(findings: Seq<Finding>, patterns: Seq<Seq<char>>) -> Seq<Finding> {
    findings.filter(|f: Finding| !path_ignored(patterns, f.path()))
}

/// The findings that a pattern keeps out of the report, in their order.
pub open spec fn suppressed(findings: Seq<Finding>, patterns: Seq<Seq<char>>) -> Seq<Finding> {
    findings.filter(|f: Finding| path_ignored(patterns, f.path()))
}

/// The lines of the report.
pub open spec fn report_lines(findings: Seq<Finding>, patterns: Seq<Seq<char>>) -> Seq<Seq<char>> {
    printed(findings, patterns).map_values(|f: Finding| f.line())
}

/// The notices of what was kept out of the report; none unless `debug` is
/// above 1.
pub open spec fn report_notices(findings: Seq<Finding>, patterns: Seq<Seq<char>>, debug: u8) -> Seq<
    Seq<char>,
> {
    if debug > 1 {
        suppressed(findings, patterns).map_values(|f: Finding| filtered_notice(f.path()))
    } else {
        Seq::empty()
    }
}

/// A tracked path that is not on disk.
pub struct Missing {
    path: Vec<u8>,
    rpm: String,
}

/// A tracked path whose attributes differ from what was recorded.
pub struct Changed {
    path: Vec<u8>,
    rpm: String,
    desc: String,
}

/// A path on disk that no package tracks.
pub struct New {
    path: Vec<u8>,
    mode: u32,
}

/// One discrepancy.
pub enum ReportItem {
    /// A tracked path that is not on disk.
    Missing(Missing),
    /// A tracked path whose attributes differ from what was recorded.
    Changed(Changed),
    /// A path on disk that no package tracks.
    New(New),
}

impl View for Missing {
    type V = Finding;

    closed spec fn view(&self) -> Finding {
        Finding::Missing { path: self.path@, owner: self.rpm@ }
    }
}

impl View for Changed {
    type V = Finding;

    closed spec fn view(&self) -> Finding {
        Finding::Changed { path: self.path@, owner: self.rpm@, desc: self.desc@ }
    }
}

impl View for New {
    type V = Finding;

    closed spec fn view(&self) -> Finding {
        Finding::New { path: self.path@, mode: self.mode }
    }
}

impl View for ReportItem {
    type V = Finding;

    open spec fn view(&self) -> Finding {
        match self {
            ReportItem::Missing(missing) => missing@,
            ReportItem::Changed(changed) => changed@,
            ReportItem::New(new) => new@,
        }
    }
}

impl Missing {
    /// The path that is missing.
    pub fn path(&self) -> (path: &Vec<u8>)
        ensures
            self@ is Missing,
            path@ == self@.path(),
    {
        &self.path
    }

    /// The text that stands for the owner.
    pub fn package(&self) -> (owner: &str)
        ensures
            self@ == (Finding::Missing { path: self@.path(), owner: owner@ }),
    {
        self.rpm.as_str()
    }
}

impl Changed {
    /// The path that changed.
    pub fn path(&self) -> (path: &Vec<u8>)
        ensures
            self@ is Changed,
            path@ == self@.path(),
    {
        &self.path
    }

    /// The text that stands for the owner.
    pub fn package(&self) -> (owner: &str)
        ensures
            self@ matches Finding::Changed { owner: o, .. } && o == owner@,
    {
        self.rpm.as_str()
    }

    /// What changed.
    pub fn description(&self) -> (desc: &str)
        ensures
            self@ matches Finding::Changed { desc: d, .. } && d == desc@,
    {
        self.desc.as_str()
    }
}

impl New {
    /// The path that is new.
    pub fn path(&self) -> (path: &Vec<u8>)
        ensures
            self@ is New,
            path@ == self@.path(),
    {
        &self.path
    }

    /// The mode that the path has on disk.
    pub fn mode(&self) -> (mode: u32)
        ensures
            self@ == (Finding::New { path: self@.path(), mode }),
    {
        self.mode
    }
}

impl ReportItem {
    /// The path that the finding is about.
    pub fn path(&self) -> (path: &Vec<u8>)
        ensures
            path@ == self@.path(),
    {
        match self {
            ReportItem::Missing(missing) => &missing.path,
            ReportItem::Changed(changed) => &changed.path,
            ReportItem::New(new) => &new.path,
        }
    }

    /// Writes the line that reports the finding.
    pub fn to_line(&self) -> (line: String)
        ensures
            line@ == self@.line(),
    {
        match self {
            ReportItem::Missing(missing) => {
                let mut line = String::from_str("MISSING ");
                line.append(path_text(missing.path.as_slice()).as_str());
                line.append(" (package ");
                line.append(missing.rpm.as_str());
                line.append(")");
                line
            },
            ReportItem::Changed(changed) => {
                let mut line = String::from_str("CHANGED ");
                line.append(path_text(changed.path.as_slice()).as_str());
                line.append(" (package ");
                line.append(changed.rpm.as_str());
                line.append(", ");
                line.append(changed.desc.as_str());
                line.append(")");
                line
            },
            ReportItem::New(new) => {
                let mut line = String::from_str("NEW ");
                line.append(path_text(new.path.as_slice()).as_str());
                line.append(" (");
                line.append(mode_text(new.mode).as_str());
                line.append(")");
                line
            },
        }
    }
}

impl Keyed for ReportItem {
    open spec fn key(&self) -> Seq<u8> {
        self@.path()
    }

    fn key_bytes(&self) -> (k: &[u8]) {
        self.path().as_slice()
    }
}

/// What printing a report gives: the lines for the standard output, and the
/// notices for the diagnostic stream.
pub struct Printed {
    /// One line for each finding that no pattern matches.
    pub lines: Vec<String>,
    /// One notice for each finding that a pattern matches, where they were
    /// asked for.
    pub filtered: Vec<String>,
}

/// What is kept of a list in path order is in path order.
pub proof fn lemma_filter_keeps_order(findings: Seq<Finding>, keep: spec_fn(Finding) -> bool)
    requires
        in_path_order(finding_paths(findings)),
    ensures
        in_path_order(finding_paths(findings.filter(keep))),
        forall|f: Finding| #[trigger] findings.filter(keep).contains(f) ==> findings.contains(f),
    decreases findings.len(),
{
    reveal(Seq::filter);
    if findings.len() > 0 {
        let init = findings.drop_last();
        let last = findings.last();
        assert forall|i: int, j: int| 0 <= i < j < init.len() implies crate::path::path_le(
            finding_paths(init)[i],
            finding_paths(init)[j],
        ) by {
            assert(finding_paths(findings)[i] == finding_paths(init)[i]);
            assert(finding_paths(findings)[j] == finding_paths(init)[j]);
        }
        lemma_filter_keeps_order(init, keep);
        let kept = init.filter(keep);
        assert forall|f: Finding| #[trigger] findings.filter(keep).contains(f) implies findings.contains(
            f,
        ) by {
            let all = findings.filter(keep);
            let i = choose|i: int| 0 <= i < all.len() && all[i] == f;
            if i < kept.len() {
                assert(kept[i] == f);
                assert(kept.contains(f));
                let k = choose|k: int| 0 <= k < init.len() && init[k] == f;
                assert(findings[k] == f);
            } else {
                assert(findings[findings.len() - 1] == f);
            }
        }
        if keep(last) {
            let all = kept.push(last);
            assert forall|i: int, j: int| 0 <= i < j < all.len() implies crate::path::path_le(
                finding_paths(all)[i],
                finding_paths(all)[j],
            ) by {
                if j < kept.len() {
                    assert(finding_paths(kept)[i] == finding_paths(all)[i]);
                    assert(finding_paths(kept)[j] == finding_paths(all)[j]);
                } else {
                    assert(kept.contains(kept[i]));
                    let k = choose|k: int| 0 <= k < init.len() && init[k] == kept[i];
                    assert(finding_paths(findings)[k] == kept[i].path());
                    assert(finding_paths(findings)[findings.len() - 1] == last.path());
                }
            }
        }
    }
}

/// The lines of a sorted report come in path order, whichever phase made
/// each finding and whatever the patterns keep out.
pub proof fn lemma_printed_in_order(findings: Seq<Finding>, patterns: Seq<Seq<char>>)
    requires
        in_path_order(finding_paths(findings)),
    ensures
        in_path_order(finding_paths(printed(findings, patterns))),
{
    lemma_filter_keeps_order(findings, |f: Finding| !path_ignored(patterns, f.path()));
}

/// The findings of one run with the patterns that filter them.
pub struct Report {
    ignores: IgnoreMatcher,
    reports: Vec<ReportItem>,
}

impl Report {
    /// The findings, in the report's order.
    pub closed spec fn findings(&self) -> Seq<Finding> {
        self.reports@.map_values(|r: ReportItem| r@)
    }

    /// The patterns that filter the report when it is printed.
    pub closed spec fn patterns(&self) -> Seq<Seq<char>> {
        self.ignores.patterns()
    }

    /// Makes an empty report that will be filtered by `ignores`.
    pub fn new(ignores: IgnoreMatcher) -> (report: Self)
        ensures
            report.findings() == Seq::<Finding>::empty(),
            report.patterns() == ignores.patterns(),
    {
        let report = Self { ignores, reports: Vec::new() };
        assert(report.findings() =~= Seq::<Finding>::empty());
        report
    }

    /// Records that a tracked file is not on disk.
    pub fn add_missing(&mut self, packagedb: &PackageDb, file: &PackageFile)
        requires
            match file@.package {
                Some(i) => i < packagedb.packages_view().len(),
                None => true,
            },
        ensures
            final(self).findings() == old(self).findings().push(
                Finding::Missing {
                    path: file@.path,
                    owner: owner_text(packagedb.packages_view(), file@.package, false),
                },
            ),
            final(self).patterns() == old(self).patterns(),
    {
        let path = vstd::slice::slice_to_vec(file.path().as_slice());
        let rpm = packagedb.package_to_string(*file.package(), false);
        let item = ReportItem::Missing(Missing { path, rpm });
        assert(self.reports@.push(item).map_values(|r: ReportItem| r@) =~= self.findings().push(
            item@,
        ));
        self.reports.push(item);
    }

    /// Records that a tracked file differs from what was recorded.
    pub fn add_change(&mut self, packagedb: &PackageDb, file: &PackageFile, desc: String)
        requires
            match file@.package {
                Some(i) => i < packagedb.packages_view().len(),
                None => true,
            },
        ensures
            final(self).findings() == old(self).findings().push(
                Finding::Changed {
                    path: file@.path,
                    owner: owner_text(packagedb.packages_view(), file@.package, false),
                    desc: desc@,
                },
            ),
            final(self).patterns() == old(self).patterns(),
    {
        let path = vstd::slice::slice_to_vec(file.path().as_slice());
        let rpm = packagedb.package_to_string(*file.package(), false);
        let item = ReportItem::Changed(Changed { path, rpm, desc });
        assert(self.reports@.push(item).map_values(|r: ReportItem| r@) =~= self.findings().push(
            item@,
        ));
        self.reports.push(item);
    }

    /// Records a path on disk that no package tracks.
    pub fn add_new(&mut self, file: Vec<u8>, mode: u32)
        ensures
            final(self).findings() == old(self).findings().push(
                Finding::New { path: file@, mode },
            ),
            final(self).patterns() == old(self).patterns(),
    {
        let item = ReportItem::New(New { path: file, mode });
        assert(self.reports@.push(item).map_values(|r: ReportItem| r@) =~= self.findings().push(
            item@,
        ));
        self.reports.push(item);
    }

    /// Sorts the findings by path, in byte-lexicographic order: findings of
    /// all kinds are interleaved into one report.
    pub fn sort(&mut self)
        ensures
            in_path_order(finding_paths(final(self).findings())),
            final(self).findings().to_multiset() == old(self).findings().to_multiset(),
            forall|k: Seq<u8>| #[trigger]
                findings_about(final(self).findings(), k) == findings_about(
                    old(self).findings(),
                    k,
                ),
            final(self).patterns() == old(self).patterns(),
    {
        let mut items: Vec<ReportItem> = Vec::new();
        std::mem::swap(&mut self.reports, &mut items);
        let ghost before = items@;
        let sorted = sort_by_key(items);
        proof {
            lemma_map_values_multiset(sorted@, before, |r: ReportItem| r@);
            let now_view = sorted@.map_values(|r: ReportItem| r@);
            let before_view = before.map_values(|r: ReportItem| r@);
            assert forall|k: Seq<u8>| #[trigger]
                findings_about(now_view, k) == findings_about(before_view, k) by {
                let test = crate::sort::has_key::<ReportItem>(k);
                vstd::seq_lib::lemma_filter_view_commute(sorted@, test, about(k));
                vstd::seq_lib::lemma_filter_view_commute(before, test, about(k));
                assert(sorted@.map_values(|x: ReportItem| x.view()) =~= now_view);
                assert(before.map_values(|x: ReportItem| x.view()) =~= before_view);
                assert(crate::sort::with_key(sorted@, k) == crate::sort::with_key(before, k));
            }
            let paths = finding_paths(sorted@.map_values(|r: ReportItem| r@));
            assert forall|i: int, j: int| 0 <= i < j < paths.len() implies crate::path::path_le(
                paths[i],
                paths[j],
            ) by {
                assert(crate::path::path_le(sorted@[i].key(), sorted@[j].key()));
            }
        }
        self.reports = sorted;
    }

    /// Ends a run: sorts the findings by path and makes the printed form of
    /// the report. The lines come in path order, whichever phase made each
    /// finding and whatever the patterns keep out.
    pub fn finish(&mut self, debug: u8) -> (out: Printed)
        ensures
            in_path_order(finding_paths(final(self).findings())),
            final(self).findings().to_multiset() == old(self).findings().to_multiset(),
            forall|k: Seq<u8>| #[trigger]
                findings_about(final(self).findings(), k) == findings_about(
                    old(self).findings(),
                    k,
                ),
            final(self).patterns() == old(self).patterns(),
            texts_of(out.lines@) == report_lines(final(self).findings(), final(self).patterns()),
            texts_of(out.filtered@) == report_notices(
                final(self).findings(),
                final(self).patterns(),
                debug,
            ),
            in_path_order(
                finding_paths(printed(final(self).findings(), final(self).patterns())),
            ),
    {
        self.sort();
        proof {
            lemma_printed_in_order(self.findings(), self.patterns());
        }
        self.print(debug)
    }

    /// The findings, in the report's order.
    pub fn items(&self) -> (items: &Vec<ReportItem>)
        ensures
            items@.map_values(|r: ReportItem| r@) == self.findings(),
    {
        &self.reports
    }

    /// Makes the printed form of the report: a line for each finding whose
    /// path no pattern matches and, where `debug` is above 1, a notice for
    /// each finding that a pattern keeps out. Nothing is removed from the
    /// report itself.
    pub fn print(&self, debug: u8) -> (out: Printed)
        ensures
            texts_of(out.lines@) == report_lines(self.findings(), self.patterns()),
            texts_of(out.filtered@) == report_notices(self.findings(), self.patterns(), debug),
    {
        let mut lines: Vec<String> = Vec::new();
        let mut filtered: Vec<String> = Vec::new();
        let ghost patterns = self.patterns();
        let ghost keep = |f: Finding| !path_ignored(patterns, f.path());
        let ghost drop = |f: Finding| path_ignored(patterns, f.path());
        let ghost to_line = |f: Finding| f.line();
        let ghost to_notice = |f: Finding| filtered_notice(f.path());
        proof {
            reveal(Seq::filter);
            assert(self.findings().take(0) =~= Seq::<Finding>::empty());
            assert(texts_of(lines@) =~= self.findings().take(0).filter(keep).map_values(to_line));
            assert(texts_of(filtered@) =~= self.findings().take(0).filter(drop).map_values(
                to_notice,
            ));
        }
        let mut i: usize = 0;
        while i < self.reports.len()
            invariant
                i <= self.reports.len(),
                patterns == self.patterns(),
                keep == |f: Finding| !path_ignored(patterns, f.path()),
                drop == |f: Finding| path_ignored(patterns, f.path()),
                to_line == |f: Finding| f.line(),
                to_notice == |f: Finding| filtered_notice(f.path()),
                texts_of(lines@) == self.findings().take(i as int).filter(keep).map_values(to_line),
                debug > 1 ==> texts_of(filtered@) == self.findings().take(i as int).filter(
                    drop,
                ).map_values(to_notice),
                debug <= 1 ==> filtered@.len() == 0,
            decreases self.reports.len() - i,
        {
            let item = &self.reports[i];
            let ghost f = item@;
            let ghost done = self.findings().take(i as int);
            proof {
                assert(self.findings().take(i + 1) =~= done.push(f));
                done.lemma_filter_push(f, keep);
                done.lemma_filter_push(f, drop);
            }
            if !self.ignores.is_ignored(item.path().as_slice()) {
                let line = item.to_line();
                assert(texts_of(lines@.push(line)) =~= texts_of(lines@).push(line@));
                assert(done.filter(keep).push(f).map_values(to_line) =~= done.filter(
                    keep,
                ).map_values(to_line).push(f.line()));
                lines.push(line);
            } else if debug > 1 {
                let mut notice = path_text(item.path().as_slice());
                notice.append(" filtered out by regex");
                assert(texts_of(filtered@.push(notice)) =~= texts_of(filtered@).push(notice@));
                assert(done.filter(drop).push(f).map_values(to_notice) =~= done.filter(
                    drop,
                ).map_values(to_notice).push(filtered_notice(f.path())));
                filtered.push(notice);
            }
            i += 1;
        }
        assert(self.findings().take(i as int) =~= self.findings());
        assert(debug <= 1 ==> texts_of(filtered@) =~= Seq::<Seq<char>>::empty());
        Printed { lines, filtered }
    }
}

} // verus!
