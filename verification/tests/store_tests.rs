use pantheon::entities::{
    CreateDatasourceView, CreateJob, CreateJobWithDatasource, CreateUser, EditUser, JobMetadata,
};
use pantheon::errors::DbError;
use pantheon::requests::{AirtableDatasourceViewRequestMetadata, DatasourceViewRequestMetadata};
use pantheon::store::JobStore;
use pantheon::types::{JobStatus, JobType, SupportedDatasource};

fn store_meta() -> DatasourceViewRequestMetadata {
    DatasourceViewRequestMetadata::Airtable(AirtableDatasourceViewRequestMetadata {
        is_user_table: true,
        first_name_column: Some("FirstName".to_string()),
        last_name_column: Some("LastName".to_string()),
        email_column: Some("Email".to_string()),
        base: "appBase".to_string(),
        table: "tblUsers".to_string(),
        view: "viwAll".to_string(),
        fields: vec!["FirstName".to_string(), "LastName".to_string(), "Email".to_string()],
    })
}

fn store_user(email: &str) -> CreateUser {
    CreateUser {
        email: email.to_string(),
        first_name: "ops".to_string(),
        last_name: String::new(),
        image_uri: "https://example.org/p.png".to_string(),
    }
}

fn store_view_dto(user_id: u128) -> CreateDatasourceView {
    CreateDatasourceView {
        user_id,
        view_name: "volunteers".to_string(),
        datasource: SupportedDatasource::Airtable,
        description: "volunteer table".to_string(),
        metadata: store_meta(),
    }
}

fn pending_job_dto(user_id: u128, vid: u128) -> CreateJobWithDatasource {
    CreateJobWithDatasource {
        user_id,
        status: JobStatus::Pending,
        job_type: JobType::ImportData,
        metadata: JobMetadata { datasource_view_id: Some(vid) },
        datasource_view_id: vid,
    }
}

#[test]
fn upsert_user_is_idempotent_on_email() {
    let mut store = JobStore::new();
    let a = store.create_or_fetch_user(store_user("ada@example.org"), 10);
    let b = store.create_or_fetch_user(store_user("ada@example.org"), 20);
    assert_eq!(a, b);
    let c = store.create_or_fetch_user(store_user("grace@example.org"), 30);
    assert_ne!(a, c);
}

#[test]
fn single_flight_rejects_second_pending_job() {
    let mut store = JobStore::new();
    let uid = store.create_or_fetch_user(store_user("ada@example.org"), 1);
    let vid = store.create_datasource_view(store_view_dto(uid), 2);
    let first = store.create_job_with_datasource(pending_job_dto(uid, vid), 3);
    assert!(first.is_ok());
    let jobs_before = store.fetch_jobs().len();
    let second = store.create_job_with_datasource(pending_job_dto(uid, vid), 4);
    assert_eq!(second, Err(DbError::PendingJobExists));
    assert_eq!(store.fetch_jobs().len(), jobs_before);
    assert!(store.has_pending_job_for_view(vid));
}

#[test]
fn single_flight_reopens_after_terminal_transition() {
    let mut store = JobStore::new();
    let uid = store.create_or_fetch_user(store_user("ada@example.org"), 1);
    let vid = store.create_datasource_view(store_view_dto(uid), 2);
    let (job, _) = store.create_job_with_datasource(pending_job_dto(uid, vid), 3).unwrap();
    assert!(store.mark_job_complete(job, 4));
    assert!(!store.has_pending_job_for_view(vid));
    let again = store.create_job_with_datasource(pending_job_dto(uid, vid), 5);
    assert!(again.is_ok());
}

#[test]
fn job_with_datasource_requires_existing_view() {
    let mut store = JobStore::new();
    let uid = store.create_or_fetch_user(store_user("ada@example.org"), 1);
    let r = store.create_job_with_datasource(pending_job_dto(uid, 424242), 2);
    assert_eq!(r, Err(DbError::ViewNotFound));
}

#[test]
fn terminal_status_is_monotonic() {
    let mut store = JobStore::new();
    let uid = store.create_or_fetch_user(store_user("ada@example.org"), 1);
    let vid = store.create_datasource_view(store_view_dto(uid), 2);
    let (job, _) = store.create_job_with_datasource(pending_job_dto(uid, vid), 3).unwrap();
    assert!(store.mark_job_errored(job, "boom".to_string(), 4));
    assert!(matches!(store.fetch_job(job).unwrap().status, JobStatus::Error));
    // A later completion attempt does not move the job out of its terminal
    // state, and a second errored mark changes nothing either.
    assert!(!store.mark_job_complete(job, 5));
    assert!(matches!(store.fetch_job(job).unwrap().status, JobStatus::Error));
    assert!(!store.mark_job_errored(job, "again".to_string(), 6));
    assert!(matches!(store.fetch_job(job).unwrap().status, JobStatus::Error));
}

#[test]
fn mark_complete_only_moves_pending_jobs() {
    let mut store = JobStore::new();
    let uid = store.create_or_fetch_user(store_user("ada@example.org"), 1);
    let vid = store.create_datasource_view(store_view_dto(uid), 2);
    let (job, _) = store.create_job_with_datasource(pending_job_dto(uid, vid), 3).unwrap();
    assert!(store.mark_job_complete(job, 4));
    assert!(matches!(store.fetch_job(job).unwrap().status, JobStatus::Complete));
    assert!(!store.mark_job_errored(job, "late".to_string(), 5));
    assert!(matches!(store.fetch_job(job).unwrap().status, JobStatus::Complete));
}

#[test]
fn fetch_datasource_view_jobs_joins_by_association() {
    let mut store = JobStore::new();
    let uid = store.create_or_fetch_user(store_user("ada@example.org"), 1);
    let vid1 = store.create_datasource_view(store_view_dto(uid), 2);
    let vid2 = store.create_datasource_view(store_view_dto(uid), 3);
    let (j1, _) = store.create_job_with_datasource(pending_job_dto(uid, vid1), 4).unwrap();
    store.mark_job_complete(j1, 5);
    let (j2, _) = store.create_job_with_datasource(pending_job_dto(uid, vid2), 6).unwrap();
    let jobs1 = store.fetch_datasource_view_jobs(vid1);
    assert_eq!(jobs1.len(), 1);
    assert_eq!(jobs1[0].id, j1);
    let jobs2 = store.fetch_datasource_view_jobs(vid2);
    assert_eq!(jobs2.len(), 1);
    assert_eq!(jobs2[0].id, j2);
    // A bare job has no association and shows up for no view.
    let bare = store.create_job(
        CreateJob {
            user_id: uid,
            status: JobStatus::Pending,
            job_type: JobType::ExportData,
            metadata: JobMetadata { datasource_view_id: None },
        },
        7,
    );
    assert!(store.fetch_datasource_view_jobs(vid1).iter().all(|j| j.id != bare));
}

#[test]
fn delete_view_refused_while_pending_job_owns_it() {
    let mut store = JobStore::new();
    let uid = store.create_or_fetch_user(store_user("ada@example.org"), 1);
    let vid = store.create_datasource_view(store_view_dto(uid), 2);
    let (job, _) = store.create_job_with_datasource(pending_job_dto(uid, vid), 3).unwrap();
    assert_eq!(store.delete_datasource_view(vid), Err(DbError::ViewInUse));
    assert!(store.fetch_datasource_view(vid).is_some());
    store.mark_job_complete(job, 4);
    assert_eq!(store.delete_datasource_view(vid), Ok(()));
    assert!(store.fetch_datasource_view(vid).is_none());
    assert!(store.fetch_datasource_view_jobs(vid).is_empty());
}

#[test]
fn edit_user_refuses_taken_email() {
    let mut store = JobStore::new();
    let a = store.create_or_fetch_user(store_user("ada@example.org"), 1);
    let _b = store.create_or_fetch_user(store_user("grace@example.org"), 2);
    let taken = EditUser {
        email: "grace@example.org".to_string(),
        first_name: "Ada".to_string(),
        last_name: "L".to_string(),
        image_uri: String::new(),
    };
    assert_eq!(store.edit_user(a, taken, 3), Err(DbError::UniqueEmail));
    let fresh = EditUser {
        email: "countess@example.org".to_string(),
        first_name: "Ada".to_string(),
        last_name: "L".to_string(),
        image_uri: String::new(),
    };
    assert_eq!(store.edit_user(a, fresh, 4), Ok(true));
    assert_eq!(store.fetch_user(a).unwrap().email, "countess@example.org");
}

#[test]
fn exported_user_rows_round_trip_by_job() {
    let mut store = JobStore::new();
    let uid = store.create_or_fetch_user(store_user("ada@example.org"), 1);
    let vid = store.create_datasource_view(store_view_dto(uid), 2);
    let (job, _) = store.create_job_with_datasource(pending_job_dto(uid, vid), 3).unwrap();
    store.save_exported_users(
        vec![pantheon::entities::CreateExportedUser {
            job_id: job,
            first_name: "Ann".to_string(),
            last_name: "Lee".to_string(),
            personal_email: "ann@example.org".to_string(),
            generated_email: "ann.lee10@developforgood.org".to_string(),
            exported_from: SupportedDatasource::Airtable,
        }],
        4,
    );
    let rows = store.fetch_exported_users_by_job(job);
    assert_eq!(rows.len(), 1);
    assert_eq!(rows[0].generated_email, "ann.lee10@developforgood.org");
    assert!(store.delete_exported_user_by_generated_email("ann.lee10@developforgood.org"));
    assert!(store.fetch_exported_users_by_job(job).is_empty());
    assert!(!store.delete_exported_user_by_generated_email("ann.lee10@developforgood.org"));
}

#[test]
fn error_bodies_render_messages() {
    let body = pantheon::requests::ApiError::from_message("bad view id");
    assert_eq!(body.error, "bad view id");
    assert_eq!(
        pantheon::errors::PipelineError::Conflict.message(),
        "a pending job already exists for this resource"
    );
    assert_eq!(pantheon::errors::PipelineError::Validation.message(), "validation error");
}
