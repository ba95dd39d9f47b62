use vstd::prelude::*;

use crate::config::{
    first_unknown_profile, lemma_first_unknown_profile, lookup_resolved, profile_missing, AppConfig,
    Profile,
};
use crate::metadata::MediaMetadata;
use crate::package::{package_findings, package_view, validate_package, DeliveryPackage};
use crate::report::{
    file_report_from_findings, review_state_of, summarizes, BatchReport, FileReport,
    MultiProfileReport,
};
use crate::suggestions::suggestions_spec;
use crate::validate::{status_of, validate, validation_findings, Finding, FindingView, Status};

verus! {

/// What was learned of one file before its report is made: the result of
/// probing it, and the findings of the checks that decode it.
#[derive(Debug)]
pub struct ProbedFile {
    pub path: String,
    pub probe: Result<MediaMetadata, String>,
    pub analysis: Vec<Finding>,
}

/// The findings of the media checks: those of `validate`, then those of the
/// decoding checks.
pub fn run_media_checks(path: &str, metadata: &MediaMetadata, profile: &Profile, analysis: Vec<Finding>) -> (r: Vec<Finding>)
    ensures
        r.deep_view() == validation_findings(path@, *metadata, *profile) + analysis.deep_view(),
{
    let mut findings = validate(path, metadata, profile).findings;
    let mut rest = analysis;
    let ghost a = findings@;
    let ghost b = rest@;
    findings.append(&mut rest);
    proof {
        assert(findings@ == a + b);
        assert(findings.deep_view() =~= a.map_values(|f: Finding| f.deep_view()) + b.map_values(|f: Finding| f.deep_view()));
    }
    findings
}

/// The findings of the delivery-package checks.
pub fn run_package_checks(package: &DeliveryPackage, metadata: &MediaMetadata, profile: &Profile) -> (r: Vec<Finding>)
    ensures
        r.deep_view() == package_findings(
            package_view(*package).0,
            package_view(*package).1,
            package_view(*package).2,
            profile@,
        ),
{
    validate_package(package, profile)
}

/// The findings a file's report holds: none when it could not be probed,
/// else those of the media checks.
pub open spec fn file_findings(file: ProbedFile, profile: Profile) -> Seq<FindingView> {
    match file.probe {
        Err(_) => Seq::empty(),
        Ok(m) => validation_findings(file.path@, m, profile) + file.analysis.deep_view(),
    }
}

/// The status of a file's report: failed when it could not be probed, else
/// the status its findings imply.
pub open spec fn file_status(file: ProbedFile, profile: Profile) -> Status {
    match file.probe {
        Err(_) => Status::Fail,
        Ok(_) => status_of(file_findings(file, profile)),
    }
}

/// The report of one file: a failed report carrying the probe error when
/// the file could not be probed, else the report of its findings.
pub fn process_file(file: ProbedFile, profile: &Profile) -> (r: FileReport)
    ensures
        r.path == file.path,
        r.findings.deep_view() == file_findings(file, *profile),
        r.status == file_status(file, *profile),
        r.review_state == review_state_of(file_status(file, *profile)),
        r.suggestions.deep_view() == suggestions_spec(file_findings(file, *profile)),
        r.width is None,
        r.height is None,
        r.video_codec is None,
        r.file_size_bytes is None,
        match file.probe {
            Err(e) => r.error == Some(e),
            Ok(_) => r.error is None,
        },
{
    let ProbedFile { path, probe, analysis } = file;
    match probe {
        Err(e) => {
            let r = FileReport::error(path, e, None);
            assert(r.findings.deep_view() =~= Seq::<FindingView>::empty());
            assert(r.suggestions.deep_view() =~= suggestions_spec(Seq::<FindingView>::empty()));
            r
        },
        Ok(metadata) => {
            let findings = run_media_checks(path.as_str(), &metadata, profile, analysis);
            file_report_from_findings(path, findings, None)
        },
    }
}

/// Checks each file against `profile` and gathers the reports, in order,
/// into a batch report.
pub fn run_batch(files: Vec<ProbedFile>, profile: &Profile, profile_name: &str) -> (r: BatchReport)
    ensures
        r.profile@ == profile_name@,
        r.files@.len() == files@.len(),
        forall|i: int| 0 <= i < files@.len() ==> {
            let f = #[trigger] r.files@[i];
            let input = files@[i];
            &&& f.path == input.path
            &&& f.findings.deep_view() == file_findings(input, *profile)
            &&& f.status == file_status(input, *profile)
            &&& f.review_state == review_state_of(file_status(input, *profile))
            &&& f.suggestions.deep_view() == suggestions_spec(file_findings(input, *profile))
            &&& f.error == match input.probe {
                Err(e) => Some(e),
                Ok(_) => None::<String>,
            }
        },
        summarizes(r.summary, r.files@),
        r.batch_findings@.len() == 0,
{
    let ghost input = files@;
    let mut reports: Vec<FileReport> = Vec::new();
    let mut rest = files;
    let n = rest.len();
    let mut i: usize = 0;
    while i < n
        invariant
            n == input.len(),
            i <= n,
            rest@ == input.skip(i as int),
            reports@.len() == i,
            forall|k: int| 0 <= k < i ==> {
                let f = #[trigger] reports@[k];
                let input = input[k];
                &&& f.path == input.path
                &&& f.findings.deep_view() == file_findings(input, *profile)
                &&& f.status == file_status(input, *profile)
                &&& f.review_state == review_state_of(file_status(input, *profile))
                &&& f.suggestions.deep_view() == suggestions_spec(file_findings(input, *profile))
                &&& f.error == match input.probe {
                    Err(e) => Some(e),
                    Ok(_) => None::<String>,
                }
            },
        decreases n - i,
    {
        let file = rest.remove(0);
        proof {
            assert(rest@ =~= input.skip(i + 1));
        }
        let report = process_file(file, profile);
        reports.push(report);
        i = i + 1;
    }
    BatchReport::from_files(crate::text::owned(profile_name), reports)
}

/// `r` is the batch report of checking `files` against `profile` under
/// the name `name`: one file report per file, in order, and the summary.
pub open spec fn is_batch_of(r: BatchReport, files: Seq<ProbedFile>, profile: Profile, name: Seq<char>) -> bool {
    &&& r.profile@ == name
    &&& r.files@.len() == files.len()
    &&& forall|i: int| 0 <= i < files.len() ==> {
        let f = #[trigger] r.files@[i];
        let input = files[i];
        &&& f.path == input.path
        &&& f.findings.deep_view() == file_findings(input, profile)
        &&& f.status == file_status(input, profile)
        &&& f.review_state == review_state_of(file_status(input, profile))
        &&& f.suggestions.deep_view() == suggestions_spec(file_findings(input, profile))
        &&& f.error == match input.probe {
            Err(e) => Some(e),
            Ok(_) => None::<String>,
        }
    }
    &&& summarizes(r.summary, r.files@)
    &&& r.batch_findings@.len() == 0
}

/// A copy of the metadata.
fn copy_metadata(m: &MediaMetadata) -> (r: MediaMetadata)
    ensures
        r == *m,
{
    MediaMetadata {
        duration_ns: m.duration_ns,
        width: m.width,
        height: m.height,
        has_audio: m.has_audio,
        format_name: m.format_name.clone(),
        video_codec: match &m.video_codec {
            Some(c) => Some(c.clone()),
            None => None,
        },
    }
}

/// A copy of what was learned of a file.
fn copy_probed(f: &ProbedFile) -> (r: ProbedFile)
    ensures
        r.path == f.path,
        r.probe == f.probe,
        r.analysis.deep_view() == f.analysis.deep_view(),
{
    let probe = match &f.probe {
        Ok(m) => Ok(copy_metadata(m)),
        Err(e) => Err(e.clone()),
    };
    let n = f.analysis.len();
    let mut analysis: Vec<Finding> = Vec::new();
    let mut i: usize = 0;
    while i < n
        invariant
            n == f.analysis@.len(),
            i <= n,
            analysis.deep_view() == f.analysis.deep_view().take(i as int),
        decreases n - i,
    {
        let ghost before = analysis.deep_view();
        assert(f.analysis.deep_view().take(i + 1) =~= f.analysis.deep_view().take(i as int).push(
            f.analysis@[i as int]@,
        ));
        analysis.push(f.analysis[i].duplicate());
        assert(analysis.deep_view() =~= before.push(f.analysis@[i as int]@));
        i = i + 1;
    }
    assert(f.analysis.deep_view().take(n as int) =~= f.analysis.deep_view());
    ProbedFile { path: f.path.clone(), probe, analysis }
}

/// The batch report of the probed `files` against the profile named
/// `name` in `config`; refused when `config` has no such profile.
pub fn profile_report(files: &[ProbedFile], config: &AppConfig, name: &str) -> (r: Result<BatchReport, String>)
    ensures
        match lookup_resolved(config.profiles@, name@) {
            None => r matches Err(e) && e@ == profile_missing(name@),
            Some(p) => r matches Ok(b) && is_batch_of(b, files@, p, name@),
        },
{
    let profile = match config.get(name) {
        Some(p) => p,
        None => {
            let mut msg = crate::text::owned("Profile not found: ");
            crate::text::push_str(&mut msg, name);
            return Err(msg);
        },
    };
    let n = files.len();
    let mut copies: Vec<ProbedFile> = Vec::new();
    let mut i: usize = 0;
    while i < n
        invariant
            n == files@.len(),
            i <= n,
            copies@.len() == i,
            forall|k: int|
                0 <= k < i ==> {
                    &&& (#[trigger] copies@[k]).path == files@[k].path
                    &&& copies@[k].probe == files@[k].probe
                    &&& copies@[k].analysis.deep_view() == files@[k].analysis.deep_view()
                },
        decreases n - i,
    {
        copies.push(copy_probed(&files[i]));
        i = i + 1;
    }
    let ghost cs = copies@;
    let b = run_batch(copies, profile, name);
    proof {
        assert forall|k: int| 0 <= k < files@.len() implies file_findings(#[trigger] cs[k], *profile)
            == file_findings(files@[k], *profile) && file_status(cs[k], *profile) == file_status(
            files@[k],
            *profile,
        ) by {
            assert(cs[k].path == files@[k].path);
        }
        assert forall|k: int| 0 <= k < files@.len() implies ({
            let f = #[trigger] b.files@[k];
            let input = files@[k];
            &&& f.path == input.path
            &&& f.findings.deep_view() == file_findings(input, *profile)
            &&& f.status == file_status(input, *profile)
            &&& f.review_state == review_state_of(file_status(input, *profile))
            &&& f.suggestions.deep_view() == suggestions_spec(file_findings(input, *profile))
            &&& f.error == match input.probe {
                Err(e) => Some(e),
                Ok(_) => None::<String>,
            }
        }) by {
            assert(file_findings(cs[k], *profile) == file_findings(files@[k], *profile));
        }
    }
    Ok(b)
}

/// The reports of the probed `files` against each named profile in turn;
/// refused at the first name that `config` has no profile for.
pub fn run_profiles(files: &[ProbedFile], config: &AppConfig, names: &[String]) -> (r: Result<
    MultiProfileReport,
    String,
>)
    ensures
        ({
            let k = first_unknown_profile(*config, names@);
            if k >= 0 {
                r matches Err(e) && e@ == profile_missing(names@[k]@)
            } else {
                r matches Ok(m) && {
                    &&& m.profiles@ == names@
                    &&& m.reports@.len() == names@.len()
                    &&& forall|i: int|
                        0 <= i < names@.len() ==> (lookup_resolved(config.profiles@, names@[i]@) matches Some(
                            p,
                        ) && is_batch_of(#[trigger] m.reports@[i], files@, p, names@[i]@))
                }
            }
        }),
{
    let n = names.len();
    let mut reports: Vec<BatchReport> = Vec::new();
    let mut kept: Vec<String> = Vec::new();
    let mut i: usize = 0;
    while i < n
        invariant
            n == names@.len(),
            i <= n,
            reports@.len() == i,
            kept@ == names@.take(i as int),
            forall|j: int|
                0 <= j < i ==> (lookup_resolved(config.profiles@, (#[trigger] names@[j])@) matches Some(p)
                    && is_batch_of(reports@[j], files@, p, names@[j]@)),
        decreases n - i,
    {
        match profile_report(files, config, names[i].as_str()) {
            Err(e) => {
                proof {
                    lemma_first_unknown_profile(*config, names@, i as int);
                }
                return Err(e);
            },
            Ok(b) => {
                reports.push(b);
                kept.push(names[i].clone());
                assert(kept@ =~= names@.take(i + 1));
            },
        }
        i = i + 1;
    }
    proof {
        lemma_first_unknown_profile(*config, names@, -1);
        assert(kept@ =~= names@);
    }
    Ok(MultiProfileReport::new(kept, reports))
}

} // verus!
