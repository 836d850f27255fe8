use pantheon::entities::CreateUser;
use pantheon::errors::PipelineError;
use pantheon::export::{
    create_workspace_users, delete_workspace_users, filter_not_exported, plan_export,
    EmailPolicy, ExportConflictPolicy, ExportUser, ExportUsersRequest, PasswordPolicy,
};
use pantheon::requests::{AirtableDatasourceViewRequestMetadata, CreateDatasourceViewRequest};
use pantheon::runner::{create_airtable, export_users_to_workspace, undo_export_job};
use pantheon::store::JobStore;
use pantheon::types::{JobStatus, SupportedDatasource};
use pantheon::workspace::{build_workspace_user, welcome_mail_text};

fn export_meta() -> AirtableDatasourceViewRequestMetadata {
    AirtableDatasourceViewRequestMetadata {
        is_user_table: true,
        first_name_column: Some("FirstName".to_string()),
        last_name_column: Some("LastName".to_string()),
        email_column: Some("Email".to_string()),
        base: "appBase".to_string(),
        table: "tblUsers".to_string(),
        view: "viwAll".to_string(),
        fields: vec!["FirstName".to_string()],
    }
}

fn export_acting() -> CreateUser {
    CreateUser {
        email: "ops@example.org".to_string(),
        first_name: "ops".to_string(),
        last_name: String::new(),
        image_uri: String::new(),
    }
}

fn export_candidate(first: &str, last: &str, email: &str) -> ExportUser {
    ExportUser {
        first_name: first.to_string(),
        last_name: last.to_string(),
        email: email.to_string(),
        generated_email: None,
    }
}

fn export_policies() -> (EmailPolicy, PasswordPolicy) {
    (
        EmailPolicy {
            use_both_first_and_last_names: true,
            add_unique_numeric_suffix: true,
            separator: ".".to_string(),
        },
        PasswordPolicy { change_password_at_next_login: true, generated_password_length: 16 },
    )
}

/// A store with one datasource view, ready to accept export jobs.
fn export_fixture() -> (JobStore, String, u128) {
    let mut store = JobStore::new();
    let payload = CreateDatasourceViewRequest {
        name: "volunteers".to_string(),
        description: "volunteer table".to_string(),
        metadata: export_meta(),
    };
    let (_, import_job, _) = create_airtable(&mut store, payload, export_acting(), 1);
    // Resolve the initial import so the view is free for an export job.
    assert!(store.mark_job_complete(import_job, 2));
    let vid = store.fetch_datasource_views()[0].id;
    let vid_text = render_export_uuid(vid);
    (store, vid_text, vid)
}

fn render_export_uuid(n: u128) -> String {
    // The hyphenated rendering of a 128-bit identifier, as the library's
    // public surfaces expect it back.
    let hex: String = format!("{:032x}", n);
    format!(
        "{}-{}-{}-{}-{}",
        &hex[0..8],
        &hex[8..12],
        &hex[12..16],
        &hex[16..20],
        &hex[20..32]
    )
}

fn export_request(users: Vec<ExportUser>, policy: ExportConflictPolicy) -> ExportUsersRequest {
    let (email_policy, password_policy) = export_policies();
    ExportUsersRequest { users, email_policy, password_policy, export_conflict_policy: policy }
}

#[test]
fn generated_email_folds_trims_and_numbers() {
    let (email_policy, password_policy) = export_policies();
    let cands = vec![export_candidate(" Ann ", "LEE", "ann@example.org")];
    let planned =
        plan_export(&cands, &email_policy, &password_policy, &Vec::new()).unwrap();
    assert_eq!(planned.len(), 1);
    // Lower-cased, trimmed, separated, two-digit disambiguator, fixed
    // domain; the lowest free disambiguator is deterministic.
    assert_eq!(planned[0].generated_email, "ann.lee10@developforgood.org");
}

#[test]
fn generated_emails_disambiguate_same_names() {
    let (email_policy, password_policy) = export_policies();
    let cands = vec![
        export_candidate("Ann", "Lee", "ann1@example.org"),
        export_candidate("Ann", "Lee", "ann2@example.org"),
    ];
    let existing = vec!["ann.lee10@developforgood.org".to_string()];
    let planned = plan_export(&cands, &email_policy, &password_policy, &existing).unwrap();
    assert_eq!(planned[0].generated_email, "ann.lee11@developforgood.org");
    assert_eq!(planned[1].generated_email, "ann.lee12@developforgood.org");
}

#[test]
fn generated_passwords_have_configured_length() {
    let (email_policy, password_policy) = export_policies();
    let cands = vec![export_candidate("Ann", "Lee", "ann@example.org")];
    let planned =
        plan_export(&cands, &email_policy, &password_policy, &Vec::new()).unwrap();
    assert_eq!(planned[0].password.len(), 16);
    assert!(planned[0].password.chars().all(|c| c.is_ascii_alphanumeric()));
}

#[test]
fn plan_fails_when_disambiguators_are_exhausted() {
    let (email_policy, password_policy) = export_policies();
    let existing: Vec<String> =
        (10..100).map(|n| format!("ann.lee{}@developforgood.org", n)).collect();
    let cands = vec![export_candidate("Ann", "Lee", "ann@example.org")];
    let r = plan_export(&cands, &email_policy, &password_policy, &existing);
    assert_eq!(r.err(), Some(PipelineError::Validation));
}

#[test]
fn conflict_equality_ignores_generated_email_when_absent() {
    let bare = export_candidate("Ann", "Lee", "ann@example.org");
    let with = ExportUser {
        generated_email: Some("ann.lee10@developforgood.org".to_string()),
        ..export_candidate("Ann", "Lee", "ann@example.org")
    };
    assert!(bare == with);
    let other = export_candidate("Ann", "Lee", "other@example.org");
    assert!(bare != other);
}

#[test]
fn filter_keeps_only_new_candidates_in_order() {
    let already = vec![export_candidate("Ann", "Lee", "ann@example.org")];
    let cands = vec![
        export_candidate("Bo", "Day", "bo@example.org"),
        export_candidate("Ann", "Lee", "ann@example.org"),
        export_candidate("Cy", "Fox", "cy@example.org"),
    ];
    let kept = filter_not_exported(&cands, &already);
    assert_eq!(kept.len(), 2);
    assert_eq!(kept[0].email, "bo@example.org");
    assert_eq!(kept[1].email, "cy@example.org");
}

#[test]
fn reject_policy_aborts_with_zero_side_effects() {
    let (mut store, vid_text, _) = export_fixture();
    // Seed one exported counterpart so a strict subset of the candidates
    // conflicts.
    let (job_text, job, planned) = export_users_to_workspace(
        &mut store,
        &vid_text,
        &export_request(
            vec![export_candidate("Ann", "Lee", "ann@example.org")],
            ExportConflictPolicy::ExportDifference,
        ),
        export_acting(),
        10,
    )
    .unwrap();
    assert!(!job_text.is_empty());
    let outcomes = vec![true; planned.len()];
    assert!(create_workspace_users(
        &mut store,
        planned,
        SupportedDatasource::Airtable,
        &outcomes,
        job,
        "provisioning failed".to_string(),
        11,
    ));
    let jobs_before = store.fetch_jobs().len();
    let rows_before = store.fetch_exported_users().len();
    let r = export_users_to_workspace(
        &mut store,
        &vid_text,
        &export_request(
            vec![
                export_candidate("Ann", "Lee", "ann@example.org"),
                export_candidate("Bo", "Day", "bo@example.org"),
            ],
            ExportConflictPolicy::Reject,
        ),
        export_acting(),
        12,
    );
    assert_eq!(r.err(), Some(PipelineError::Validation));
    assert_eq!(store.fetch_jobs().len(), jobs_before);
    assert_eq!(store.fetch_exported_users().len(), rows_before);
}

#[test]
fn export_difference_provisions_exactly_the_remainder() {
    let (mut store, vid_text, _) = export_fixture();
    let (_, first_job, first_planned) = export_users_to_workspace(
        &mut store,
        &vid_text,
        &export_request(
            vec![export_candidate("Ann", "Lee", "ann@example.org")],
            ExportConflictPolicy::ExportDifference,
        ),
        export_acting(),
        10,
    )
    .unwrap();
    let first_outcomes = vec![true; first_planned.len()];
    create_workspace_users(
        &mut store,
        first_planned,
        SupportedDatasource::Airtable,
        &first_outcomes,
        first_job,
        "provisioning failed".to_string(),
        11,
    );
    // Three candidates, one of which is already exported: exactly two new
    // accounts are planned and persisted, each with a unique email.
    let (_, job, planned) = export_users_to_workspace(
        &mut store,
        &vid_text,
        &export_request(
            vec![
                export_candidate("Ann", "Lee", "ann@example.org"),
                export_candidate("Bo", "Day", "bo@example.org"),
                export_candidate("Cy", "Fox", "cy@example.org"),
            ],
            ExportConflictPolicy::ExportDifference,
        ),
        export_acting(),
        12,
    )
    .unwrap();
    assert_eq!(planned.len(), 2);
    let mut emails: Vec<String> = planned.iter().map(|p| p.generated_email.clone()).collect();
    emails.sort();
    emails.dedup();
    assert_eq!(emails.len(), 2);
    let outcomes = vec![true; planned.len()];
    assert!(create_workspace_users(
        &mut store,
        planned,
        SupportedDatasource::Airtable,
        &outcomes,
        job,
        "provisioning failed".to_string(),
        13,
    ));
    assert_eq!(store.fetch_exported_users_by_job(job).len(), 2);
    assert!(matches!(store.fetch_job(job).unwrap().status, JobStatus::Complete));
}

#[test]
fn partial_failure_persists_prefix_and_errors_job() {
    let (mut store, vid_text, _) = export_fixture();
    let (_, job, planned) = export_users_to_workspace(
        &mut store,
        &vid_text,
        &export_request(
            vec![
                export_candidate("Ann", "Lee", "a@example.org"),
                export_candidate("Bo", "Day", "b@example.org"),
                export_candidate("Cy", "Fox", "c@example.org"),
            ],
            ExportConflictPolicy::ExportDifference,
        ),
        export_acting(),
        10,
    )
    .unwrap();
    assert_eq!(planned.len(), 3);
    // Provisioning fails on the second candidate: exactly one row (the
    // first) is persisted, the third is never attempted, the job errors.
    let outcomes = vec![true, false, true];
    let complete = create_workspace_users(
        &mut store,
        planned,
        SupportedDatasource::Airtable,
        &outcomes,
        job,
        "provisioning failed".to_string(),
        11,
    );
    assert!(!complete);
    let rows = store.fetch_exported_users_by_job(job);
    assert_eq!(rows.len(), 1);
    assert_eq!(rows[0].personal_email, "a@example.org");
    assert!(matches!(store.fetch_job(job).unwrap().status, JobStatus::Error));
}

#[test]
fn undo_round_trip_removes_rows_and_is_safe_twice() {
    let (mut store, vid_text, _) = export_fixture();
    let (job_text, job, planned) = export_users_to_workspace(
        &mut store,
        &vid_text,
        &export_request(
            vec![
                export_candidate("Ann", "Lee", "a@example.org"),
                export_candidate("Bo", "Day", "b@example.org"),
            ],
            ExportConflictPolicy::ExportDifference,
        ),
        export_acting(),
        10,
    )
    .unwrap();
    let outcomes = vec![true; planned.len()];
    assert!(create_workspace_users(
        &mut store,
        planned,
        SupportedDatasource::Airtable,
        &outcomes,
        job,
        "provisioning failed".to_string(),
        11,
    ));
    assert_eq!(store.fetch_exported_users_by_job(job).len(), 2);
    // First undo: deletes both directory accounts and removes both rows.
    let (_, undo_job, emails) =
        undo_export_job(&mut store, &job_text, export_acting(), 12).unwrap();
    assert_eq!(emails.len(), 2);
    let undo_outcomes = vec![true; emails.len()];
    assert!(delete_workspace_users(
        &mut store,
        &emails,
        &undo_outcomes,
        undo_job,
        "deletion failed".to_string(),
        13,
    ));
    assert!(store.fetch_exported_users_by_job(job).is_empty());
    assert!(matches!(store.fetch_job(undo_job).unwrap().status, JobStatus::Complete));
    // Second undo: operates on an empty set and completes without error.
    let (_, undo2, emails2) =
        undo_export_job(&mut store, &job_text, export_acting(), 14).unwrap();
    assert!(emails2.is_empty());
    assert!(delete_workspace_users(
        &mut store,
        &emails2,
        &Vec::new(),
        undo2,
        "deletion failed".to_string(),
        15,
    ));
    assert!(matches!(store.fetch_job(undo2).unwrap().status, JobStatus::Complete));
}

#[test]
fn undo_partial_failure_stops_and_errors() {
    let (mut store, vid_text, _) = export_fixture();
    let (job_text, job, planned) = export_users_to_workspace(
        &mut store,
        &vid_text,
        &export_request(
            vec![
                export_candidate("Ann", "Lee", "a@example.org"),
                export_candidate("Bo", "Day", "b@example.org"),
            ],
            ExportConflictPolicy::ExportDifference,
        ),
        export_acting(),
        10,
    )
    .unwrap();
    let outcomes = vec![true; planned.len()];
    create_workspace_users(
        &mut store,
        planned,
        SupportedDatasource::Airtable,
        &outcomes,
        job,
        "provisioning failed".to_string(),
        11,
    );
    let (_, undo_job, emails) =
        undo_export_job(&mut store, &job_text, export_acting(), 12).unwrap();
    // The first deletion succeeds, the second fails: one row is gone, one
    // remains, and the undo job errors.
    let undo_outcomes = vec![true, false];
    assert!(!delete_workspace_users(
        &mut store,
        &emails,
        &undo_outcomes,
        undo_job,
        "deletion failed".to_string(),
        13,
    ));
    assert_eq!(store.fetch_exported_users_by_job(job).len(), 1);
    assert!(matches!(store.fetch_job(undo_job).unwrap().status, JobStatus::Error));
}

#[test]
fn provisioning_request_trims_names_and_carries_credentials() {
    let (email_policy, password_policy) = export_policies();
    let cands = vec![export_candidate(" Ann ", " Lee ", "ann@example.org")];
    let planned =
        plan_export(&cands, &email_policy, &password_policy, &Vec::new()).unwrap();
    let req = build_workspace_user(&planned[0], true);
    assert_eq!(req.name.given_name, "Ann");
    assert_eq!(req.name.family_name, "Lee");
    assert!(req.name.full_name.is_none());
    assert_eq!(req.primary_email, planned[0].generated_email);
    assert_eq!(req.password, planned[0].password);
    assert!(req.change_password_at_next_login);
}

#[test]
fn welcome_mail_names_handle_and_password() {
    let text = welcome_mail_text("ann.lee10@developforgood.org", "s3cr3tPass");
    assert_eq!(
        text,
        "You have been issued a Develop for Good email. Your handle is: \
         ann.lee10@developforgood.org and your temporary password is s3cr3tPass. \
         You will need to change it at your next login."
    );
}
