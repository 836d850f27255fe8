//! The exported-users download: joins caller-supplied user rows with the
//! exported accounts by source email and shapes one flat row per match,
//! ready for the delivery layer to serialise.

use vstd::prelude::*;

use crate::entities::ExportedUser;

verus! {

/// The accepted delivery formats.
#[derive(Clone, Copy, Debug, PartialEq, Eq, Structural)]
pub enum DownloadUsersFileFormat {
    Csv,
    Json,
}

/// One caller-supplied user row to look up among the exported accounts.
#[derive(Debug)]
pub struct DownloadUserData {
    pub first_name: String,
    pub last_name: String,
    pub email: Option<String>,
    pub project: Option<String>,
    pub record_id: String,
}

/// A download request: where to send the file, its format, the user rows
/// to join, and the columns the caller asked for.
#[derive(Debug)]
pub struct DownloadUsersRequest {
    pub send_to: String,
    pub format: DownloadUsersFileFormat,
    pub user_data: Vec<DownloadUserData>,
    pub columns: Vec<String>,
}

/// One flat output row: the user's names and project, the source email,
/// and the generated directory email it resolved to.
#[derive(Debug)]
pub struct ExportedUserCsvRecord {
    pub first_name: String,
    pub last_name: String,
    pub project_name: String,
    pub email: String,
    pub dfg_email: String,
}

/// The mathematical content of one output row.
pub ghost struct CsvRowModel {
    pub first_name: Seq<char>,
    pub last_name: Seq<char>,
    pub project_name: Seq<char>,
    pub email: Seq<char>,
    pub dfg_email: Seq<char>,
}

impl View for ExportedUserCsvRecord {
    type V = CsvRowModel;

    open spec fn view(&self) -> CsvRowModel {
        CsvRowModel {
            first_name: self.first_name@,
            last_name: self.last_name@,
            project_name: self.project_name@,
            email: self.email@,
            dfg_email: self.dfg_email@,
        }
    }
}

/// The views of a list of output rows.
pub open spec fn row_views(rows: Seq<ExportedUserCsvRecord>) -> Seq<CsvRowModel> {
    rows.map_values(|r: ExportedUserCsvRecord| r@)
}

/// The generated email of the first exported row carrying this personal
/// email, if any.
pub open spec fn lookup_generated(exported: Seq<ExportedUser>, email: Seq<char>) -> Option<
    Seq<char>,
>
    decreases exported.len(),
{
    if exported.len() == 0 {
        None
    } else if exported[0].personal_email@ == email {
        Some(exported[0].generated_email@)
    } else {
        lookup_generated(exported.drop_first(), email)
    }
}

/// The joined output rows: one per user row whose email is present and
/// resolves to an exported account, in input order; a missing project
/// name becomes empty text.
pub open spec fn csv_rows_spec(
    user_data: Seq<DownloadUserData>,
    exported: Seq<ExportedUser>,
) -> Seq<CsvRowModel>
    decreases user_data.len(),
{
    if user_data.len() == 0 {
        Seq::empty()
    } else {
        let prior = csv_rows_spec(user_data.drop_last(), exported);
        let u = user_data.last();
        match u.email {
            Option::None => prior,
            Option::Some(e) => match lookup_generated(exported, e@) {
                Option::None => prior,
                Option::Some(g) => prior.push(
                    CsvRowModel {
                        first_name: u.first_name@,
                        last_name: u.last_name@,
                        project_name: match u.project {
                            Option::Some(p) => p@,
                            Option::None => Seq::empty(),
                        },
                        email: e@,
                        dfg_email: g,
                    },
                ),
            },
        }
    }
}

/// Looks up the generated email of the first exported row carrying this
/// personal email.
fn find_generated_email(exported: &Vec<ExportedUser>, email: &str) -> (r: Option<String>)
    ensures
        (match r {
            Option::Some(g) => lookup_generated(exported@, email@) == Some(g@),
            Option::None => lookup_generated(exported@, email@) is None,
        }),
{
    let n = exported.len();
    let mut i: usize = 0;
    proof {
        assert(exported@.skip(0int) =~= exported@);
    }
    while i < n
        invariant
            n == exported.len(),
            i <= n,
            lookup_generated(exported@, email@) == lookup_generated(
                exported@.skip(i as int),
                email@,
            ),
        decreases n - i,
    {
        proof {
            assert(exported@.skip(i as int)[0] == exported@[i as int]);
            assert(exported@.skip(i as int).drop_first() =~= exported@.skip(i as int + 1));
        }
        if crate::types::str_eq(exported[i].personal_email.as_str(), email) {
            return Some(exported[i].generated_email.clone());
        }
        i += 1;
    }
    proof {
        assert(exported@.skip(n as int) =~= Seq::<ExportedUser>::empty());
    }
    None
}

/// Joins the caller-supplied user rows with the exported accounts by
/// source email, keeping input order and dropping rows without an email
/// or without a matching account.
pub fn build_exported_users_csv(
    user_data: &Vec<DownloadUserData>,
    exported: &Vec<ExportedUser>,
) -> (r: Vec<ExportedUserCsvRecord>)
    ensures
        row_views(r@) == csv_rows_spec(user_data@, exported@),
{
    let n = user_data.len();
    let mut out: Vec<ExportedUserCsvRecord> = Vec::new();
    let mut i: usize = 0;
    proof {
        assert(row_views(out@) =~= csv_rows_spec(user_data@.take(0int), exported@));
    }
    while i < n
        invariant
            n == user_data.len(),
            i <= n,
            row_views(out@) == csv_rows_spec(user_data@.take(i as int), exported@),
        decreases n - i,
    {
        proof {
            assert(user_data@.take(i as int + 1).drop_last() =~= user_data@.take(i as int));
            assert(user_data@.take(i as int + 1).last() == user_data@[i as int]);
        }
        let u = &user_data[i];
        match &u.email {
            Option::Some(e) => {
                match find_generated_email(exported, e.as_str()) {
                    Option::Some(g) => {
                        let project_name = match &u.project {
                            Option::Some(p) => p.clone(),
                            Option::None => String::new(),
                        };
                        let row = ExportedUserCsvRecord {
                            first_name: u.first_name.clone(),
                            last_name: u.last_name.clone(),
                            project_name,
                            email: e.clone(),
                            dfg_email: g,
                        };
                        out.push(row);
                        proof {
                            assert(row_views(out@) =~= row_views(out@.drop_last()).push(row@));
                            assert(row_views(out@) =~= csv_rows_spec(
                                user_data@.take(i as int + 1),
                                exported@,
                            ));
                        }
                    },
                    Option::None => {
                        proof {
                            assert(row_views(out@) =~= csv_rows_spec(
                                user_data@.take(i as int + 1),
                                exported@,
                            ));
                        }
                    },
                }
            },
            Option::None => {
                proof {
                    assert(row_views(out@) =~= csv_rows_spec(
                        user_data@.take(i as int + 1),
                        exported@,
                    ));
                }
            },
        }
        i += 1;
    }
    proof {
        assert(user_data@.take(n as int) =~= user_data@);
    }
    out
}

} // verus!
