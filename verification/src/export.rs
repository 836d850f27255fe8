//! The export reconciler: computes which candidate users to export against
//! the already-exported set under a configurable conflict policy, plans one
//! directory account per remaining candidate (generated email, generated
//! password), and applies the outcome of a provisioning run — including a
//! partial failure — to the job store. Undo runs reverse a prior export.

use vstd::prelude::*;

use crate::entities::CreateExportedUser;
use crate::errors::PipelineError;
use crate::external::{
    is_alphanumeric_char, lower_of, lowercase_str, random_alphanumeric, trim_of, trim_str,
};
use crate::entities::ExportedUser;
use crate::store::{
    delete_exported_m, exported_for_job, exported_row, exported_without_email,
    lemma_save_exported_rows_props, mark_complete_m, mark_errored_m, save_exported_m,
    save_exported_rows, wf, JobStore, StoreModel,
};
use crate::types::SupportedDatasource;

verus! {

/// How generated directory emails are formed: the separator placed between
/// the name parts, and whether a numeric disambiguator is appended.
#[derive(Debug)]
pub struct EmailPolicy {
    pub use_both_first_and_last_names: bool,
    pub add_unique_numeric_suffix: bool,
    pub separator: String,
}

/// How generated passwords are formed.
#[derive(Debug)]
pub struct PasswordPolicy {
    pub change_password_at_next_login: bool,
    pub generated_password_length: u8,
}

/// What to do when some candidates already have exported counterparts:
/// silently skip them and export the rest, or refuse the whole request.
#[derive(Clone, Copy, Debug, PartialEq, Eq, Structural)]
pub enum ExportConflictPolicy {
    ExportDifference,
    Reject,
}

/// One candidate user to export: names, source email, and the generated
/// directory email once one is assigned.
#[derive(Debug)]
pub struct ExportUser {
    pub first_name: String,
    pub last_name: String,
    pub email: String,
    pub generated_email: Option<String>,
}

/// A full export request.
#[derive(Debug)]
pub struct ExportUsersRequest {
    pub users: Vec<ExportUser>,
    pub email_policy: EmailPolicy,
    pub password_policy: PasswordPolicy,
    pub export_conflict_policy: ExportConflictPolicy,
}

/// Conflict-detection equality of candidates: names and source email; the
/// generated email is compared only when both sides carry one.
pub open spec fn export_user_matches(a: ExportUser, b: ExportUser) -> bool {
    match (a.generated_email, b.generated_email) {
        (Some(x), Some(y)) => a.first_name@ == b.first_name@ && a.last_name@ == b.last_name@
            && a.email@ == b.email@ && x@ == y@,
        _ => a.first_name@ == b.first_name@ && a.last_name@ == b.last_name@ && a.email@
            == b.email@,
    }
}

impl vstd::std_specs::cmp::PartialEqSpecImpl for ExportUser {
    open spec fn obeys_eq_spec() -> bool {
        true
    }

    open spec fn eq_spec(&self, other: &ExportUser) -> bool {
        export_user_matches(*self, *other)
    }
}

impl PartialEq for ExportUser {
    fn eq(&self, other: &Self) -> (r: bool) {
        match (&self.generated_email, &other.generated_email) {
            (Some(f), Some(s)) => crate::types::str_eq(self.first_name.as_str(), other.first_name.as_str())
                && crate::types::str_eq(self.last_name.as_str(), other.last_name.as_str())
                && crate::types::str_eq(self.email.as_str(), other.email.as_str())
                && crate::types::str_eq(f.as_str(), s.as_str()),
            _ => crate::types::str_eq(self.first_name.as_str(), other.first_name.as_str())
                && crate::types::str_eq(self.last_name.as_str(), other.last_name.as_str())
                && crate::types::str_eq(self.email.as_str(), other.email.as_str()),
        }
    }
}

impl ExportUser {
    /// A field-for-field copy of the candidate.
    pub fn duplicate(&self) -> (r: ExportUser)
        ensures
            r == *self,
    {
        let r = ExportUser {
            first_name: self.first_name.clone(),
            last_name: self.last_name.clone(),
            email: self.email.clone(),
            generated_email: crate::requests::duplicate_opt_string(&self.generated_email),
        };
        proof {
            assert(r == *self);
        }
        r
    }
}

/// Some already-exported entry matches this candidate.
pub open spec fn contained_in(already: Seq<ExportUser>, u: ExportUser) -> bool {
    exists|i: int| 0 <= i < already.len() && export_user_matches(#[trigger] already[i], u)
}

/// The candidates that have no exported counterpart, in input order.
pub open spec fn to_export_spec(cands: Seq<ExportUser>, already: Seq<ExportUser>) -> Seq<
    ExportUser,
>
    decreases cands.len(),
{
    if cands.len() == 0 {
        Seq::empty()
    } else if contained_in(already, cands.last()) {
        to_export_spec(cands.drop_last(), already)
    } else {
        to_export_spec(cands.drop_last(), already).push(cands.last())
    }
}

/// The number of candidates that already have an exported counterpart.
pub open spec fn matched_count(cands: Seq<ExportUser>, already: Seq<ExportUser>) -> int
    decreases cands.len(),
{
    if cands.len() == 0 {
        0
    } else {
        matched_count(cands.drop_last(), already) + if contained_in(already, cands.last()) {
            1int
        } else {
            0int
        }
    }
}

/// The difference set is exactly the candidates without a counterpart: its
/// length is the candidate count minus the matched count.
pub proof fn lemma_to_export_len(cands: Seq<ExportUser>, already: Seq<ExportUser>)
    ensures
        to_export_spec(cands, already).len() == cands.len() - matched_count(cands, already),
        0 <= matched_count(cands, already) <= cands.len(),
    decreases cands.len(),
{
    if cands.len() > 0 {
        lemma_to_export_len(cands.drop_last(), already);
    }
}

/// Whether some already-exported entry matches this candidate.
fn is_already_exported(u: &ExportUser, already: &Vec<ExportUser>) -> (r: bool)
    ensures
        r == contained_in(already@, *u),
{
    let n = already.len();
    let mut i: usize = 0;
    while i < n
        invariant
            n == already.len(),
            i <= n,
            forall|j: int| 0 <= j < i ==> !export_user_matches(#[trigger] already@[j], *u),
        decreases n - i,
    {
        if already[i].eq(u) {
            proof {
                assert(export_user_matches(already@[i as int], *u));
            }
            return true;
        }
        i += 1;
    }
    false
}

/// The candidates not already present in the exported set, in input order:
/// the `toExport` set of the reconciler.
pub fn filter_not_exported(cands: &Vec<ExportUser>, already: &Vec<ExportUser>) -> (r: Vec<
    ExportUser,
>)
    ensures
        r@ == to_export_spec(cands@, already@),
{
    let n = cands.len();
    let mut out: Vec<ExportUser> = Vec::new();
    let mut i: usize = 0;
    proof {
        assert(out@ =~= to_export_spec(cands@.take(0int), already@));
    }
    while i < n
        invariant
            n == cands.len(),
            i <= n,
            out@ == to_export_spec(cands@.take(i as int), already@),
        decreases n - i,
    {
        proof {
            assert(cands@.take(i as int + 1).drop_last() =~= cands@.take(i as int));
            assert(cands@.take(i as int + 1).last() == cands@[i as int]);
        }
        if !is_already_exported(&cands[i], already) {
            out.push(cands[i].duplicate());
        }
        i += 1;
    }
    proof {
        assert(cands@.take(n as int) =~= cands@);
    }
    out
}

/// The local part of a generated directory email: lower-cased trimmed
/// first name, the policy separator, lower-cased trimmed last name.
pub open spec fn email_local_spec(first: Seq<char>, last: Seq<char>, sep: Seq<char>) -> Seq<
    char,
> {
    lower_of(trim_of(first)) + sep + lower_of(trim_of(last))
}

/// The decimal digit characters.
pub open spec fn digit_char(d: int) -> char {
    if d == 0 {
        '0'
    } else if d == 1 {
        '1'
    } else if d == 2 {
        '2'
    } else if d == 3 {
        '3'
    } else if d == 4 {
        '4'
    } else if d == 5 {
        '5'
    } else if d == 6 {
        '6'
    } else if d == 7 {
        '7'
    } else if d == 8 {
        '8'
    } else {
        '9'
    }
}

/// The two decimal digits of a two-digit disambiguator.
pub open spec fn two_digits(n: int) -> Seq<char> {
    seq![digit_char(n / 10), digit_char(n % 10)]
}

/// A full generated email: local part, two-digit disambiguator, and the
/// fixed domain.
pub open spec fn email_with_suffix(base: Seq<char>, n: int) -> Seq<char> {
    base + two_digits(n) + "@developforgood.org"@
}

/// One decimal digit as text.
fn digit_str(d: u64) -> (r: &'static str)
    requires
        d < 10,
    ensures
        r@ == seq![digit_char(d as int)],
{
    proof {
        reveal_strlit("0");
        reveal_strlit("1");
        reveal_strlit("2");
        reveal_strlit("3");
        reveal_strlit("4");
        reveal_strlit("5");
        reveal_strlit("6");
        reveal_strlit("7");
        reveal_strlit("8");
        reveal_strlit("9");
    }
    let r: &'static str = match d {
        0 => "0",
        1 => "1",
        2 => "2",
        3 => "3",
        4 => "4",
        5 => "5",
        6 => "6",
        7 => "7",
        8 => "8",
        _ => "9",
    };
    proof {
        assert(r@ =~= seq![digit_char(d as int)]);
    }
    r
}

/// The local part of a generated email, computed through the trim and
/// lower-case foldings.
fn email_base(first: &str, last: &str, sep: &str) -> (r: String)
    ensures
        r@ == email_local_spec(first@, last@, sep@),
{
    let mut s = lowercase_str(trim_str(first));
    s.append(sep);
    let lowered_last = lowercase_str(trim_str(last));
    s.append(lowered_last.as_str());
    proof {
        assert(s@ =~= email_local_spec(first@, last@, sep@));
    }
    s
}

/// One candidate email for a given two-digit disambiguator.
fn email_candidate(base: &str, n: u64) -> (r: String)
    requires
        10 <= n < 100,
    ensures
        r@ == email_with_suffix(base@, n as int),
{
    let mut s = base.to_owned();
    s.append(digit_str(n / 10));
    s.append(digit_str(n % 10));
    s.append("@developforgood.org");
    proof {
        assert(seq![digit_char((n / 10) as int)] + seq![digit_char((n % 10) as int)] =~= two_digits(
            n as int,
        ));
        assert(s@ =~= email_with_suffix(base@, n as int));
    }
    s
}

/// Some used email equals this candidate email.
pub open spec fn email_taken(base: Seq<char>, n: int, used: Seq<Seq<char>>) -> bool {
    exists|i: int| 0 <= i < used.len() && #[trigger] used[i] == email_with_suffix(base, n)
}

/// The lowest free two-digit disambiguator at or above `n`, if any.
pub open spec fn first_free_suffix(base: Seq<char>, used: Seq<Seq<char>>, n: int) -> Option<int>
    decreases 100 - n,
{
    if n < 10 || n >= 100 {
        None
    } else if email_taken(base, n, used) {
        first_free_suffix(base, used, n + 1)
    } else {
        Some(n)
    }
}

/// The views of a list of strings.
pub open spec fn string_views(v: Seq<String>) -> Seq<Seq<char>> {
    v.map_values(|s: String| s@)
}

/// Whether some string of the list reads like this one.
fn contains_string(v: &Vec<String>, s: &str) -> (r: bool)
    ensures
        r == exists|i: int| 0 <= i < v@.len() && (#[trigger] v@[i])@ == s@,
{
    let n = v.len();
    let mut i: usize = 0;
    while i < n
        invariant
            n == v.len(),
            i <= n,
            forall|j: int| 0 <= j < i ==> (#[trigger] v@[j])@ != s@,
        decreases n - i,
    {
        if crate::types::str_eq(v[i].as_str(), s) {
            proof {
                assert(0 <= i && (i as int) < v@.len() && v@[i as int]@ == s@);
            }
            return true;
        }
        i += 1;
    }
    false
}

/// Assigns the lowest free two-digit disambiguator and returns the full
/// generated email, or nothing when all ninety are taken for this local
/// part.
fn choose_generated_email(first: &str, last: &str, sep: &str, used: &Vec<String>) -> (r: Option<
    String,
>)
    ensures
        ({
            let base = email_local_spec(first@, last@, sep@);
            match r {
                Some(e) => first_free_suffix(base, string_views(used@), 10) is Some && e@
                    == email_with_suffix(
                    base,
                    first_free_suffix(base, string_views(used@), 10)->0,
                ) && !email_taken(
                    base,
                    first_free_suffix(base, string_views(used@), 10)->0,
                    string_views(used@),
                ),
                None => first_free_suffix(base, string_views(used@), 10) is None,
            }
        }),
{
    let base = email_base(first, last, sep);
    let ghost bs = base@;
    let ghost uv = string_views(used@);
    let mut n: u64 = 10;
    while n < 100
        invariant
            10 <= n <= 100,
            bs == email_local_spec(first@, last@, sep@),
            base@ == bs,
            uv == string_views(used@),
            first_free_suffix(bs, uv, 10) == first_free_suffix(bs, uv, n as int),
        decreases 100 - n,
    {
        let e = email_candidate(base.as_str(), n);
        if !contains_string(used, e.as_str()) {
            proof {
                assert forall|i: int| 0 <= i < uv.len() implies #[trigger] uv[i] != email_with_suffix(
                    bs,
                    n as int,
                ) by {
                    assert(uv[i] == used@[i]@);
                }
                assert(!email_taken(bs, n as int, uv));
                assert(first_free_suffix(bs, uv, n as int) == Some(n as int));
            }
            return Some(e);
        }
        proof {
            let w = choose|i: int| 0 <= i < used@.len() && (#[trigger] used@[i])@ == e@;
            assert(uv[w] == used@[w]@);
            assert(email_taken(bs, n as int, uv));
            assert(first_free_suffix(bs, uv, n as int) == first_free_suffix(bs, uv, n as int + 1));
        }
        n += 1;
    }
    proof {
        assert(first_free_suffix(bs, uv, 100int) is None);
    }
    None
}


/// One fully planned directory account: the candidate's names and source
/// email, the assigned generated email, and the generated password.
#[derive(Debug)]
pub struct PlannedUser {
    pub first_name: String,
    pub last_name: String,
    pub email: String,
    pub generated_email: String,
    pub password: String,
}

/// The generated emails of a plan, in order.
pub open spec fn planned_views(s: Seq<PlannedUser>) -> Seq<Seq<char>> {
    s.map_values(|p: PlannedUser| p.generated_email@)
}

/// The generated emails a deterministic planning run assigns: each
/// candidate in input order takes the lowest free two-digit disambiguator
/// against the emails used so far; the run fails when a candidate finds
/// all ninety taken.
pub open spec fn plan_emails(
    cands: Seq<ExportUser>,
    sep: Seq<char>,
    used: Seq<Seq<char>>,
) -> Option<Seq<Seq<char>>>
    decreases cands.len(),
{
    if cands.len() == 0 {
        Some(Seq::empty())
    } else {
        let base = email_local_spec(cands[0].first_name@, cands[0].last_name@, sep);
        if first_free_suffix(base, used, 10) is None {
            None
        } else {
            let e = email_with_suffix(base, first_free_suffix(base, used, 10)->0);
            match plan_emails(cands.drop_first(), sep, used.push(e)) {
                Option::None => None,
                Option::Some(rest) => Some(seq![e] + rest),
            }
        }
    }
}

/// A chosen disambiguator is free among the used emails.
proof fn lemma_ffs_free(base: Seq<char>, used: Seq<Seq<char>>, m: int, n: int)
    requires
        first_free_suffix(base, used, m) == Some(n),
    ensures
        !email_taken(base, n, used),
        10 <= n < 100,
    decreases 100 - m,
{
    if !(m < 10 || m >= 100) && email_taken(base, m, used) {
        lemma_ffs_free(base, used, m + 1, n);
    }
}

/// Planned emails are pairwise distinct and distinct from every email
/// already in use: every directory account gets a unique handle.
pub proof fn lemma_planned_emails_unique(
    cands: Seq<ExportUser>,
    sep: Seq<char>,
    used: Seq<Seq<char>>,
    out: Seq<Seq<char>>,
)
    requires
        plan_emails(cands, sep, used) == Some(out),
    ensures
        out.len() == cands.len(),
        forall|i: int, j: int| 0 <= i < j < out.len() ==> out[i] != out[j],
        forall|i: int, k: int| 0 <= i < out.len() && 0 <= k < used.len() ==> out[i] != used[k],
    decreases cands.len(),
{
    if cands.len() > 0 {
        let base = email_local_spec(cands[0].first_name@, cands[0].last_name@, sep);
        let n = first_free_suffix(base, used, 10)->0;
        let e = email_with_suffix(base, n);
        let restm = plan_emails(cands.drop_first(), sep, used.push(e))->0;
        assert(out == seq![e] + restm);
        lemma_ffs_free(base, used, 10, n);
        lemma_planned_emails_unique(cands.drop_first(), sep, used.push(e), restm);
        assert(out[0] == e);
        assert forall|i: int, k: int|
            0 <= i < out.len() && 0 <= k < used.len() implies out[i] != used[k] by {
            if i == 0 {
                assert(used[k] != e);
            } else {
                assert(out[i] == restm[i - 1]);
                assert(used.push(e)[k] == used[k]);
            }
        }
        assert forall|i: int, j: int| 0 <= i < j < out.len() implies out[i] != out[j] by {
            if i == 0 {
                assert(out[j] == restm[j - 1]);
                assert(used.push(e)[used.len() as int] == e);
            } else {
                assert(out[i] == restm[i - 1]);
                assert(out[j] == restm[j - 1]);
            }
        }
    }
}

/// The difference-policy counts: a plan over the difference set has one
/// account per candidate without a counterpart, each with a unique
/// generated email that is also new to the directory.
pub proof fn lemma_export_difference(
    cands: Seq<ExportUser>,
    already: Seq<ExportUser>,
    sep: Seq<char>,
    existing: Seq<Seq<char>>,
    out: Seq<Seq<char>>,
)
    requires
        plan_emails(to_export_spec(cands, already), sep, existing) == Some(out),
    ensures
        out.len() == cands.len() - matched_count(cands, already),
        forall|i: int, j: int| 0 <= i < j < out.len() ==> out[i] != out[j],
        forall|i: int, k: int| 0 <= i < out.len() && 0 <= k < existing.len() ==> out[i]
            != existing[k],
{
    lemma_to_export_len(cands, already);
    lemma_planned_emails_unique(to_export_spec(cands, already), sep, existing, out);
}

/// Plans one directory account per candidate, in input order: assigns each
/// the deterministic generated email and a fresh random password of the
/// configured length. Fails only when some candidate exhausts all ninety
/// disambiguators against the emails in use.
pub fn plan_export(
    candidates: &Vec<ExportUser>,
    email_policy: &EmailPolicy,
    password_policy: &PasswordPolicy,
    existing_generated: &Vec<String>,
) -> (r: Result<Vec<PlannedUser>, PipelineError>)
    ensures
        (match r {
            Result::Ok(planned) => planned@.len() == candidates@.len() && plan_emails(
                candidates@,
                email_policy.separator@,
                string_views(existing_generated@),
            ) == Some(planned_views(planned@)) && (forall|i: int|
                0 <= i < planned@.len() ==> (#[trigger] planned@[i]).first_name
                    == candidates@[i].first_name && planned@[i].last_name
                    == candidates@[i].last_name && planned@[i].email == candidates@[i].email
                    && planned@[i].password@.len()
                    == password_policy.generated_password_length as nat && (forall|c: int|
                    0 <= c < planned@[i].password@.len() ==> is_alphanumeric_char(
                        #[trigger] planned@[i].password@[c],
                    ))),
            Result::Err(e) => e == PipelineError::Validation && plan_emails(
                candidates@,
                email_policy.separator@,
                string_views(existing_generated@),
            ) is None,
        }),
{
    let ghost uv0 = string_views(existing_generated@);
    let ghost c0 = candidates@;
    let ghost sep = email_policy.separator@;
    let mut used = crate::requests::duplicate_strings(existing_generated);
    let mut out: Vec<PlannedUser> = Vec::new();
    let n = candidates.len();
    let mut i: usize = 0;
    proof {
        assert(string_views(used@) =~= uv0);
        assert(planned_views(out@) =~= Seq::<Seq<char>>::empty());
        assert(uv0 + planned_views(out@) =~= uv0);
        assert(c0.skip(0int) =~= c0);
    }
    while i < n
        invariant
            n == candidates.len(),
            c0 == candidates@,
            sep == email_policy.separator@,
            uv0 == string_views(existing_generated@),
            i <= n,
            out@.len() == i,
            string_views(used@) == uv0 + planned_views(out@),
            plan_emails(c0, sep, uv0) == (match plan_emails(
                c0.skip(i as int),
                sep,
                uv0 + planned_views(out@),
            ) {
                Option::None => None::<Seq<Seq<char>>>,
                Option::Some(rest) => Some(planned_views(out@) + rest),
            }),
            forall|k: int|
                0 <= k < out@.len() ==> (#[trigger] out@[k]).first_name == c0[k].first_name
                    && out@[k].last_name == c0[k].last_name && out@[k].email == c0[k].email
                    && out@[k].password@.len() == password_policy.generated_password_length as nat
                    && (forall|c: int|
                    0 <= c < out@[k].password@.len() ==> is_alphanumeric_char(
                        #[trigger] out@[k].password@[c],
                    )),
        decreases n - i,
    {
        let ghost usedv = uv0 + planned_views(out@);
        let ghost cands_rest = c0.skip(i as int);
        proof {
            assert(cands_rest[0] == c0[i as int]);
        }
        let cand = &candidates[i];
        match choose_generated_email(
            cand.first_name.as_str(),
            cand.last_name.as_str(),
            email_policy.separator.as_str(),
            &used,
        ) {
            Option::None => {
                proof {
                    assert(plan_emails(cands_rest, sep, usedv) is None);
                }
                return Err(PipelineError::Validation);
            },
            Option::Some(e) => {
                let ghost ev = e@;
                let password = random_alphanumeric(
                    password_policy.generated_password_length as usize,
                );
                let planned = PlannedUser {
                    first_name: cand.first_name.clone(),
                    last_name: cand.last_name.clone(),
                    email: cand.email.clone(),
                    generated_email: e.clone(),
                    password,
                };
                used.push(e);
                out.push(planned);
                proof {
                    let base = email_local_spec(c0[i as int].first_name@, c0[i as int].last_name@, sep);
                    assert(ev == email_with_suffix(base, first_free_suffix(base, usedv, 10)->0));
                    assert(planned_views(out@) =~= planned_views(out@.drop_last()).push(ev));
                    assert(string_views(used@) =~= usedv.push(ev));
                    assert(uv0 + planned_views(out@) =~= usedv.push(ev));
                    assert(cands_rest.drop_first() =~= c0.skip(i as int + 1));
                    assert(plan_emails(cands_rest, sep, usedv) == (match plan_emails(
                        c0.skip(i as int + 1),
                        sep,
                        usedv.push(ev),
                    ) {
                        Option::None => None::<Seq<Seq<char>>>,
                        Option::Some(rest) => Some(seq![ev] + rest),
                    }));
                    assert forall|rest: Seq<Seq<char>>|
                        planned_views(out@.drop_last()) + (seq![ev] + rest) =~= planned_views(out@)
                            + rest by {}
                }
            },
        }
        i += 1;
    }
    proof {
        assert(c0.skip(n as int) =~= Seq::<ExportUser>::empty());
        assert(plan_emails(Seq::<ExportUser>::empty(), sep, uv0 + planned_views(out@)) == Some(
            Seq::<Seq<char>>::empty(),
        ));
        assert(planned_views(out@) + Seq::<Seq<char>>::empty() =~= planned_views(out@));
    }
    Ok(out)
}

/// The number of successful provisioning calls before the first failure:
/// the run stops at that failure and never looks further.
pub open spec fn success_prefix_len(outcomes: Seq<bool>) -> int
    decreases outcomes.len(),
{
    if outcomes.len() == 0 {
        0
    } else if !outcomes[0] {
        0
    } else {
        1 + success_prefix_len(outcomes.drop_first())
    }
}

/// Characterisation of the success prefix: everything before it succeeded
/// and, if it is not the whole run, its first excluded call failed.
pub proof fn lemma_success_prefix(outcomes: Seq<bool>)
    ensures
        0 <= success_prefix_len(outcomes) <= outcomes.len(),
        forall|j: int| 0 <= j < success_prefix_len(outcomes) ==> #[trigger] outcomes[j],
        success_prefix_len(outcomes) < outcomes.len() ==> !outcomes[success_prefix_len(outcomes)],
    decreases outcomes.len(),
{
    if outcomes.len() > 0 && outcomes[0] {
        lemma_success_prefix(outcomes.drop_first());
        assert forall|j: int|
            0 <= j < success_prefix_len(outcomes) implies #[trigger] outcomes[j] by {
            if j > 0 {
                assert(outcomes.drop_first()[j - 1]);
            }
        }
    }
}

/// A scan that sees successes up to `k` and then the end or a failure has
/// found the success prefix.
proof fn lemma_success_prefix_char(outcomes: Seq<bool>, k: int)
    requires
        0 <= k <= outcomes.len(),
        forall|j: int| 0 <= j < k ==> #[trigger] outcomes[j],
        k < outcomes.len() ==> !outcomes[k],
    ensures
        success_prefix_len(outcomes) == k,
    decreases outcomes.len(),
{
    if outcomes.len() > 0 && outcomes[0] {
        assert forall|j: int| 0 <= j < k - 1 implies #[trigger] outcomes.drop_first()[j] by {
            assert(outcomes[j + 1]);
        }
        lemma_success_prefix_char(outcomes.drop_first(), if k == 0 { 0 } else { k - 1 });
    }
}

/// The persisted row for one provisioned account.
pub open spec fn record_of(p: PlannedUser, job_id: u128, ds: SupportedDatasource) -> CreateExportedUser {
    CreateExportedUser {
        job_id,
        first_name: p.first_name,
        last_name: p.last_name,
        personal_email: p.email,
        generated_email: p.generated_email,
        exported_from: ds,
    }
}

/// The rows persisted for the first `k` planned accounts, in input order.
pub open spec fn created_records(
    planned: Seq<PlannedUser>,
    k: int,
    job_id: u128,
    ds: SupportedDatasource,
) -> Seq<CreateExportedUser>
    decreases k,
{
    if k <= 0 {
        Seq::empty()
    } else {
        created_records(planned, k - 1, job_id, ds).push(record_of(planned[k - 1], job_id, ds))
    }
}

/// Indexing the created rows.
pub proof fn lemma_created_records_index(
    planned: Seq<PlannedUser>,
    k: int,
    job_id: u128,
    ds: SupportedDatasource,
)
    requires
        0 <= k <= planned.len(),
    ensures
        created_records(planned, k, job_id, ds).len() == k,
        forall|j: int|
            0 <= j < k ==> #[trigger] created_records(planned, k, job_id, ds)[j] == record_of(
                planned[j],
                job_id,
                ds,
            ),
    decreases k,
{
    if k > 0 {
        lemma_created_records_index(planned, k - 1, job_id, ds);
    }
}

/// The store after applying one provisioning run: the job is marked
/// errored when a failure cut the run short, the rows for the successes
/// observed before the failure are persisted either way, and the final
/// completion mark succeeds only when the job is still pending — so a
/// failed run ends in `Error` and a full run in `Complete`.
pub open spec fn export_apply_m(
    m: StoreModel,
    planned: Seq<PlannedUser>,
    ds: SupportedDatasource,
    outcomes: Seq<bool>,
    job_id: u128,
    error_payload: String,
    now: i64,
) -> StoreModel {
    let k = success_prefix_len(outcomes);
    let m1 = if k < planned.len() {
        mark_errored_m(m, job_id, error_payload, now)
    } else {
        m
    };
    let m2 = save_exported_m(m1, created_records(planned, k, job_id, ds), now);
    mark_complete_m(m2, job_id, now)
}

/// Applies one provisioning run to the store: candidates were processed
/// strictly in input order and the run stopped at the first failure, so
/// exactly the accounts before it were created. Their rows are persisted,
/// linked to the job, and the job reaches `Error` on a cut-short run or
/// `Complete` on a full one. Returns whether the run was cut short.
pub fn create_workspace_users(
    store: &mut JobStore,
    planned: Vec<PlannedUser>,
    datasource: SupportedDatasource,
    outcomes: &Vec<bool>,
    job_id: u128,
    error_payload: String,
    now: i64,
) -> (r: bool)
    requires
        wf(old(store)@),
        outcomes@.len() == planned@.len(),
        old(store)@.next_id + planned@.len() + 1 < u128::MAX,
        forall|i: int, j: int|
            0 <= i < j < planned@.len() ==> (#[trigger] planned@[i].generated_email)@ != (
            #[trigger] planned@[j].generated_email)@,
        forall|i: int, k: int|
            0 <= i < planned@.len() && 0 <= k < old(store)@.exported.len() ==> (
            #[trigger] planned@[i].generated_email)@ != (
            #[trigger] old(store)@.exported[k].generated_email)@,
    ensures
        wf(final(store)@),
        final(store)@ == export_apply_m(
            old(store)@,
            planned@,
            datasource,
            outcomes@,
            job_id,
            error_payload,
            now,
        ),
        r == (success_prefix_len(outcomes@) == planned@.len()),
{
    let ghost m0 = store@;
    let ghost p0 = planned@;
    let total = planned.len();
    let mut k: usize = 0;
    while k < total && outcomes[k]
        invariant
            total == planned@.len(),
            outcomes@.len() == total,
            k <= total,
            forall|j: int| 0 <= j < k ==> #[trigger] outcomes@[j],
        decreases total - k,
    {
        k += 1;
    }
    proof {
        lemma_success_prefix_char(outcomes@, k as int);
    }
    if k < total {
        store.mark_job_errored(job_id, error_payload, now);
    }
    let ghost m1 = store@;
    let mut records: Vec<CreateExportedUser> = Vec::new();
    let mut planned = planned;
    let mut j: usize = 0;
    proof {
        assert(records@ =~= created_records(p0, 0int, job_id, datasource));
        assert(planned@ =~= p0.skip(0int));
    }
    while j < k
        invariant
            j <= k <= total,
            total == p0.len(),
            records@ == created_records(p0, j as int, job_id, datasource),
            planned@ == p0.skip(j as int),
        decreases k - j,
    {
        let p = planned.remove(0);
        proof {
            assert(p == p0[j as int]);
        }
        let rec = CreateExportedUser {
            job_id,
            first_name: p.first_name,
            last_name: p.last_name,
            personal_email: p.email,
            generated_email: p.generated_email,
            exported_from: datasource,
        };
        records.push(rec);
        proof {
            assert(records@.last() == record_of(p0[j as int], job_id, datasource));
            assert(records@ =~= created_records(p0, j as int + 1, job_id, datasource));
            assert(planned@ =~= p0.skip(j as int + 1));
        }
        j += 1;
    }
    proof {
        lemma_created_records_index(p0, k as int, job_id, datasource);
        assert forall|a: int, b: int|
            0 <= a < b < records@.len() implies (#[trigger] records@[a].generated_email)@ != (
        #[trigger] records@[b].generated_email)@ by {
            assert(records@[a] == record_of(p0[a], job_id, datasource));
            assert(records@[b] == record_of(p0[b], job_id, datasource));
        }
        assert forall|a: int, w: int|
            0 <= a < records@.len() && 0 <= w < m1.exported.len() implies (
        #[trigger] records@[a].generated_email)@ != (#[trigger] m1.exported[w].generated_email)@ by {
            assert(records@[a] == record_of(p0[a], job_id, datasource));
            assert(m1.exported == m0.exported);
        }
    }
    store.save_exported_users(records, now);
    store.mark_job_complete(job_id, now);
    proof {
        assert(store@ == export_apply_m(m0, p0, datasource, outcomes@, job_id, error_payload, now));
    }
    k == total
}

/// The store after deleting the exported rows of the first `k` generated
/// emails, in order.
pub open spec fn delete_emails_m(m: StoreModel, emails: Seq<String>, k: int) -> StoreModel
    decreases k,
{
    if k <= 0 {
        m
    } else {
        delete_exported_m(delete_emails_m(m, emails, k - 1), emails[k - 1]@)
    }
}

/// The store after applying one undo run: the directory accounts deleted
/// before the first failure have their rows removed, the job is marked
/// errored when a failure cut the run short, and the final completion mark
/// succeeds only when the job is still pending.
pub open spec fn undo_apply_m(
    m: StoreModel,
    emails: Seq<String>,
    outcomes: Seq<bool>,
    job_id: u128,
    error_payload: String,
    now: i64,
) -> StoreModel {
    let k = success_prefix_len(outcomes);
    let m1 = delete_emails_m(m, emails, k);
    let m2 = if k < emails.len() {
        mark_errored_m(m1, job_id, error_payload, now)
    } else {
        m1
    };
    mark_complete_m(m2, job_id, now)
}

/// Applies one undo run to the store: account deletions were attempted
/// strictly in order and the run stopped at the first failure; the rows of
/// the accounts deleted before it are removed, and the undo job reaches
/// `Error` on a cut-short run or `Complete` on a full one. Returns whether
/// the run was cut short.
pub fn delete_workspace_users(
    store: &mut JobStore,
    users_to_delete: &Vec<String>,
    outcomes: &Vec<bool>,
    job_id: u128,
    error_payload: String,
    now: i64,
) -> (r: bool)
    requires
        wf(old(store)@),
        outcomes@.len() == users_to_delete@.len(),
        old(store)@.next_id < u128::MAX,
    ensures
        wf(final(store)@),
        final(store)@ == undo_apply_m(
            old(store)@,
            users_to_delete@,
            outcomes@,
            job_id,
            error_payload,
            now,
        ),
        r == (success_prefix_len(outcomes@) == users_to_delete@.len()),
{
    let ghost m0 = store@;
    let total = users_to_delete.len();
    let mut k: usize = 0;
    while k < total && outcomes[k]
        invariant
            total == users_to_delete@.len(),
            outcomes@.len() == total,
            k <= total,
            forall|j: int| 0 <= j < k ==> #[trigger] outcomes@[j],
        decreases total - k,
    {
        k += 1;
    }
    proof {
        lemma_success_prefix_char(outcomes@, k as int);
    }
    let mut j: usize = 0;
    proof {
        assert(store@ == delete_emails_m(m0, users_to_delete@, 0int));
    }
    while j < k
        invariant
            j <= k <= total,
            total == users_to_delete@.len(),
            wf(store@),
            store@ == delete_emails_m(m0, users_to_delete@, j as int),
            store@.next_id == m0.next_id,
        decreases k - j,
    {
        store.delete_exported_user_by_generated_email(users_to_delete[j].as_str());
        j += 1;
    }
    if k < total {
        store.mark_job_errored(job_id, error_payload, now);
    }
    store.mark_job_complete(job_id, now);
    proof {
        assert(store@ == undo_apply_m(m0, users_to_delete@, outcomes@, job_id, error_payload, now));
    }
    k == total
}


/// A run in which every outcome succeeded.
pub open spec fn all_true(n: int) -> Seq<bool> {
    Seq::new(n as nat, |i: int| true)
}

/// A fully successful run's success prefix is the whole run.
pub proof fn lemma_all_true_prefix(n: int)
    requires
        n >= 0,
    ensures
        success_prefix_len(all_true(n)) == n,
{
    lemma_success_prefix_char(all_true(n), n);
}

/// A table without any row carrying the email is left as it is.
proof fn lemma_without_email_no_match(s: Seq<ExportedUser>, e: Seq<char>)
    requires
        forall|i: int| 0 <= i < s.len() ==> (#[trigger] s[i].generated_email)@ != e,
    ensures
        exported_without_email(s, e) == s,
    decreases s.len(),
{
    if s.len() > 0 {
        lemma_without_email_no_match(s.drop_last(), e);
        assert(exported_without_email(s, e) =~= s);
    } else {
        assert(exported_without_email(s, e) =~= s);
    }
}

/// Deleting the email of the first appended row removes exactly that row.
proof fn lemma_without_email_appended(
    base: Seq<ExportedUser>,
    rows: Seq<ExportedUser>,
    e: Seq<char>,
)
    requires
        forall|i: int| 0 <= i < base.len() ==> (#[trigger] base[i].generated_email)@ != e,
        rows.len() > 0,
        rows[0].generated_email@ == e,
        forall|i: int| 1 <= i < rows.len() ==> (#[trigger] rows[i].generated_email)@ != e,
    ensures
        exported_without_email(base + rows, e) == base + rows.drop_first(),
    decreases rows.len(),
{
    let s = base + rows;
    if rows.len() == 1 {
        assert(s.last() == rows[0]);
        assert(s.drop_last() =~= base);
        lemma_without_email_no_match(base, e);
        assert(exported_without_email(s, e) == base);
        assert(base + rows.drop_first() =~= base);
    } else {
        assert(s.last() == rows.last());
        assert(s.drop_last() =~= base + rows.drop_last());
        assert(rows.drop_last()[0] == rows[0]);
        assert forall|i: int|
            1 <= i < rows.drop_last().len() implies (
        #[trigger] rows.drop_last()[i].generated_email)@ != e by {
            assert(rows.drop_last()[i] == rows[i]);
        }
        lemma_without_email_appended(base, rows.drop_last(), e);
        assert(s.last().generated_email@ != e);
        assert(exported_without_email(s, e) == (base + rows.drop_last().drop_first()).push(
            s.last(),
        ));
        assert((base + rows.drop_last().drop_first()).push(rows.last()) =~= base
            + rows.drop_first());
    }
}

/// Undoing the first `k` created rows in order removes exactly those rows
/// and touches nothing else in the store.
proof fn lemma_delete_created(
    m: StoreModel,
    base: Seq<ExportedUser>,
    rows: Seq<ExportedUser>,
    emails: Seq<String>,
    k: int,
)
    requires
        m.exported == base + rows,
        emails.len() == rows.len(),
        forall|i: int| 0 <= i < rows.len() ==> (#[trigger] emails[i])@ == rows[i].generated_email@,
        forall|i: int, j: int|
            0 <= i < base.len() && 0 <= j < rows.len() ==> (#[trigger] base[i].generated_email)@
                != (#[trigger] rows[j].generated_email)@,
        forall|i: int, j: int|
            0 <= i < j < rows.len() ==> (#[trigger] rows[i].generated_email)@ != (
            #[trigger] rows[j].generated_email)@,
        0 <= k <= rows.len(),
    ensures
        delete_emails_m(m, emails, k).exported == base + rows.skip(k),
        delete_emails_m(m, emails, k).users == m.users,
        delete_emails_m(m, emails, k).views == m.views,
        delete_emails_m(m, emails, k).jobs == m.jobs,
        delete_emails_m(m, emails, k).view_jobs == m.view_jobs,
        delete_emails_m(m, emails, k).job_errors == m.job_errors,
        delete_emails_m(m, emails, k).next_id == m.next_id,
    decreases k,
{
    if k == 0 {
        assert(rows.skip(0int) =~= rows);
    } else {
        lemma_delete_created(m, base, rows, emails, k - 1);
        let prev = delete_emails_m(m, emails, k - 1);
        let rest = rows.skip(k - 1);
        assert(prev.exported == base + rest);
        assert(rest[0] == rows[k - 1]);
        assert forall|i: int|
            1 <= i < rest.len() implies (#[trigger] rest[i].generated_email)@ != emails[k - 1]@ by {
            assert(rest[i] == rows[k - 1 + i]);
        }
        lemma_without_email_appended(base, rest, emails[k - 1]@);
        assert(rest.drop_first() =~= rows.skip(k));
    }
}

/// A filter that rejects every element gives the empty sequence.
proof fn lemma_filter_none(s: Seq<ExportedUser>, pred: spec_fn(ExportedUser) -> bool)
    requires
        forall|i: int| 0 <= i < s.len() ==> !pred(#[trigger] s[i]),
    ensures
        s.filter(pred) == Seq::<ExportedUser>::empty(),
    decreases s.len(),
{
    reveal(Seq::filter);
    if s.len() > 0 {
        lemma_filter_none(s.drop_last(), pred);
    }
}

/// A filter that keeps every element gives the sequence back.
proof fn lemma_filter_all(s: Seq<ExportedUser>, pred: spec_fn(ExportedUser) -> bool)
    requires
        forall|i: int| 0 <= i < s.len() ==> pred(#[trigger] s[i]),
    ensures
        s.filter(pred) == s,
    decreases s.len(),
{
    reveal(Seq::filter);
    if s.len() > 0 {
        lemma_filter_all(s.drop_last(), pred);
        assert(s.filter(pred) =~= s);
    } else {
        assert(s.filter(pred) =~= s);
    }
}

/// The generated emails of a plan, as owned text.
pub open spec fn planned_email_strings(planned: Seq<PlannedUser>) -> Seq<String> {
    planned.map_values(|p: PlannedUser| p.generated_email)
}

/// Undo round trip: a fully successful export of a fresh job persists one
/// row per planned account, and a fully successful undo of the same job
/// deletes every directory account the job created and removes exactly
/// those rows — the exported table returns to its prior state. A second
/// undo of the job operates on an empty set: it deletes nothing, records
/// no error, and only marks its own job complete.
pub proof fn lemma_undo_round_trip(
    m0: StoreModel,
    planned: Seq<PlannedUser>,
    ds: SupportedDatasource,
    job_id: u128,
    export_payload: String,
    undo_payload: String,
    now1: i64,
    now2: i64,
)
    requires
        m0.next_id + planned.len() <= u128::MAX,
        forall|i: int, j: int|
            0 <= i < j < planned.len() ==> (#[trigger] planned[i].generated_email)@ != (
            #[trigger] planned[j].generated_email)@,
        forall|i: int, k: int|
            0 <= i < planned.len() && 0 <= k < m0.exported.len() ==> (
            #[trigger] planned[i].generated_email)@ != (
            #[trigger] m0.exported[k].generated_email)@,
        forall|k: int| 0 <= k < m0.exported.len() ==> (#[trigger] m0.exported[k]).job_id != job_id,
    ensures
        ({
            let m1 = export_apply_m(
                m0,
                planned,
                ds,
                all_true(planned.len() as int),
                job_id,
                export_payload,
                now1,
            );
            let m2 = undo_apply_m(
                m1,
                planned_email_strings(planned),
                all_true(planned.len() as int),
                job_id,
                undo_payload,
                now2,
            );
            &&& exported_for_job(m1, job_id).map_values(|e: ExportedUser| e.generated_email@)
                == planned_views(planned)
            &&& exported_for_job(m1, job_id).len() == planned.len()
            &&& m2.exported == m0.exported
            &&& exported_for_job(m2, job_id) == Seq::<ExportedUser>::empty()
            &&& undo_apply_m(
                m2,
                Seq::<String>::empty(),
                Seq::<bool>::empty(),
                job_id,
                undo_payload,
                now2,
            ) == mark_complete_m(m2, job_id, now2)
            &&& mark_complete_m(m2, job_id, now2).exported == m0.exported
            &&& mark_complete_m(m2, job_id, now2).job_errors == m2.job_errors
        }),
{
    let n = planned.len() as int;
    lemma_all_true_prefix(n);
    let records = created_records(planned, n, job_id, ds);
    lemma_created_records_index(planned, n, job_id, ds);
    let m1 = export_apply_m(m0, planned, ds, all_true(n), job_id, export_payload, now1);
    // A fully successful run skips the errored mark and saves one row per
    // planned account.
    assert(m1.exported == save_exported_rows(m0.exported, records, m0.next_id, now1));
    lemma_save_exported_rows_props(m0.exported, records, m0.next_id, now1);
    let base = m0.exported;
    let rows = m1.exported.skip(base.len() as int);
    assert(m1.exported.len() == base.len() + n);
    assert forall|i: int| 0 <= i < n implies #[trigger] rows[i] == exported_row(
        records[i],
        (m0.next_id + i) as u128,
        now1,
    ) by {
        assert(rows[i] == m1.exported[base.len() + i]);
    }
    assert(m1.exported =~= base + rows);
    assert forall|i: int|
        0 <= i < n implies (#[trigger] rows[i]).generated_email == planned[i].generated_email
            && rows[i].job_id == job_id by {
        assert(records[i] == record_of(planned[i], job_id, ds));
    }
    // The rows the job produced are exactly the appended rows.
    let pred = |e: ExportedUser| e.job_id == job_id;
    broadcast use vstd::seq_lib::group_seq_properties;

    assert((base + rows).filter(pred) == base.filter(pred) + rows.filter(pred));
    lemma_filter_none(base, pred);
    lemma_filter_all(rows, pred);
    assert(exported_for_job(m1, job_id) =~= rows);
    assert(exported_for_job(m1, job_id).map_values(|e: ExportedUser| e.generated_email@)
        =~= planned_views(planned));
    // Undoing deletes exactly those rows.
    let emails = planned_email_strings(planned);
    let m2 = undo_apply_m(m1, emails, all_true(n), job_id, undo_payload, now2);
    assert forall|i: int|
        0 <= i < n implies (#[trigger] emails[i])@ == rows[i].generated_email@ by {
        assert(emails[i] == planned[i].generated_email);
    }
    lemma_delete_created(m1, base, rows, emails, n);
    assert(rows.skip(n) =~= Seq::<ExportedUser>::empty());
    assert(delete_emails_m(m1, emails, n).exported =~= base);
    assert(m2.exported == base);
    lemma_filter_none(base, pred);
    assert(exported_for_job(m2, job_id) =~= Seq::<ExportedUser>::empty());
    assert(undo_apply_m(
        m2,
        Seq::<String>::empty(),
        Seq::<bool>::empty(),
        job_id,
        undo_payload,
        now2,
    ) == mark_complete_m(m2, job_id, now2));
}

} // verus!
