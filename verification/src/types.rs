//! Enumerated kinds shared across the pipeline: which external datasource a
//! view reads from, what kind of work a job performs, and the job lifecycle
//! states, together with the textual decodings the request layer uses.

use vstd::prelude::*;

verus! {

/// The external data sources a datasource view can point at.
#[derive(Clone, Copy, Debug, PartialEq, Eq, Structural)]
pub enum SupportedDatasource {
    Airtable,
    GoogleWorkspaceAdminDirectory,
}

/// Lifecycle state of a job. Transitions are monotonic: a job leaves
/// `Pending` for exactly one of `Complete` or `Error` and never returns.
#[derive(Clone, Copy, Debug, PartialEq, Eq, Structural)]
pub enum JobStatus {
    Pending,
    Error,
    Complete,
}

/// The kind of work a job tracks.
#[derive(Clone, Copy, Debug, PartialEq, Eq, Structural)]
pub enum JobType {
    ExportData,
    ImportData,
    UndoExport,
}

impl JobStatus {
    /// A job in a terminal state never changes status again.
    pub open spec fn is_terminal(self) -> bool {
        self == JobStatus::Complete || self == JobStatus::Error
    }
}

/// An upper-case ASCII letter folded to its lower-case counterpart; every
/// other character is left alone.
pub open spec fn ascii_fold_eq_char(a: char, b: char) -> bool {
    a == b || ('A' as u32 <= a as u32 && a as u32 <= 'Z' as u32 && a as u32 + 32 == b as u32) || (
    'A' as u32 <= b as u32 && b as u32 <= 'Z' as u32 && b as u32 + 32 == a as u32)
}

/// Equality of two strings up to ASCII case.
pub open spec fn ascii_fold_eq(s: Seq<char>, t: Seq<char>) -> bool {
    s.len() == t.len() && forall|i: int|
        0 <= i < s.len() ==> ascii_fold_eq_char(#[trigger] s[i], t[i])
}

/// Compares two strings for equality up to ASCII case.
pub fn str_eq_fold(s: &str, t: &str) -> (r: bool)
    ensures
        r == ascii_fold_eq(s@, t@),
{
    let sn = s.unicode_len();
    let tn = t.unicode_len();
    if sn != tn {
        return false;
    }
    let mut i: usize = 0;
    while i < sn
        invariant
            sn == s@.len(),
            tn == t@.len(),
            sn == tn,
            i <= sn,
            forall|j: int| 0 <= j < i ==> ascii_fold_eq_char(#[trigger] s@[j], t@[j]),
        decreases sn - i,
    {
        let a = s.get_char(i);
        let b = t.get_char(i);
        let au = a as u32;
        let bu = b as u32;
        let fa = if 65 <= au && au <= 90 {
            au + 32
        } else {
            au
        };
        let fb = if 65 <= bu && bu <= 90 {
            bu + 32
        } else {
            bu
        };
        if fa != fb {
            assert(!ascii_fold_eq_char(s@[i as int], t@[i as int]));
            return false;
        }
        assert(ascii_fold_eq_char(s@[i as int], t@[i as int]));
        i += 1;
    }
    true
}

/// Compares two strings for exact equality, character by character.
pub fn str_eq(s: &str, t: &str) -> (r: bool)
    ensures
        r == (s@ == t@),
{
    let sn = s.unicode_len();
    let tn = t.unicode_len();
    if sn != tn {
        return false;
    }
    let mut i: usize = 0;
    while i < sn
        invariant
            sn == s@.len(),
            tn == t@.len(),
            sn == tn,
            i <= sn,
            forall|j: int| 0 <= j < i ==> s@[j] == t@[j],
        decreases sn - i,
    {
        let a = s.get_char(i);
        let b = t.get_char(i);
        if a != b {
            return false;
        }
        i += 1;
    }
    proof {
        assert(s@ =~= t@);
    }
    true
}

/// Decodes the name of a supported datasource, ignoring ASCII case:
/// `airtable` and `google` are the accepted spellings.
pub fn parse_supported_datasource(s: &str) -> (r: Option<SupportedDatasource>)
    ensures
        r == Some(SupportedDatasource::Airtable) <==> ascii_fold_eq(s@, "airtable"@),
        r == Some(SupportedDatasource::GoogleWorkspaceAdminDirectory) <==> (!ascii_fold_eq(
            s@,
            "airtable"@,
        ) && ascii_fold_eq(s@, "google"@)),
        r is None <==> (!ascii_fold_eq(s@, "airtable"@) && !ascii_fold_eq(s@, "google"@)),
{
    if str_eq_fold(s, "airtable") {
        Some(SupportedDatasource::Airtable)
    } else if str_eq_fold(s, "google") {
        Some(SupportedDatasource::GoogleWorkspaceAdminDirectory)
    } else {
        None
    }
}

/// Decodes a job status from its exact lower-case wire spelling.
pub fn parse_job_status(s: &str) -> (r: Option<JobStatus>)
    ensures
        r == Some(JobStatus::Pending) <==> s@ == "pending"@,
        r == Some(JobStatus::Error) <==> (s@ != "pending"@ && s@ == "error"@),
        r == Some(JobStatus::Complete) <==> (s@ != "pending"@ && s@ != "error"@ && s@
            == "complete"@),
        r is None <==> (s@ != "pending"@ && s@ != "error"@ && s@ != "complete"@),
{
    if str_eq(s, "pending") {
        Some(JobStatus::Pending)
    } else if str_eq(s, "error") {
        Some(JobStatus::Error)
    } else if str_eq(s, "complete") {
        Some(JobStatus::Complete)
    } else {
        None
    }
}

} // verus!
