use pantheon::airtable::{Base, Bases, Record};
use pantheon::cache::{Cache, CachedValue};
use pantheon::download::{
    build_exported_users_csv, DownloadUserData, DownloadUsersFileFormat, DownloadUsersRequest,
};
use pantheon::entities::{CreateExportedUser, CreateUser};
use pantheon::errors::PipelineError;
use pantheon::requests::{AirtableDatasourceViewRequestMetadata, CreateDatasourceViewRequest};
use pantheon::runner::{
    cached_bases, create_airtable, download_exported_users_as_csv, fetch_airtable_data, get_job,
    list_datasource_jobs, refresh_airtable_data, store_bases, FetchDataOutcome,
};
use pantheon::store::JobStore;
use pantheon::types::{
    parse_job_status, parse_supported_datasource, JobStatus, JobType, SupportedDatasource,
};

fn runner_meta() -> AirtableDatasourceViewRequestMetadata {
    AirtableDatasourceViewRequestMetadata {
        is_user_table: false,
        first_name_column: None,
        last_name_column: None,
        email_column: None,
        base: "appBase".to_string(),
        table: "tblUsers".to_string(),
        view: "viwAll".to_string(),
        fields: vec!["FirstName".to_string(), "Email".to_string()],
    }
}

fn runner_acting() -> CreateUser {
    CreateUser {
        email: "ops@example.org".to_string(),
        first_name: "ops".to_string(),
        last_name: String::new(),
        image_uri: String::new(),
    }
}

fn runner_payload() -> CreateDatasourceViewRequest {
    CreateDatasourceViewRequest {
        name: "volunteers".to_string(),
        description: "volunteer table".to_string(),
        metadata: runner_meta(),
    }
}

fn render_runner_uuid(n: u128) -> String {
    let hex: String = format!("{:032x}", n);
    format!(
        "{}-{}-{}-{}-{}",
        &hex[0..8],
        &hex[8..12],
        &hex[12..16],
        &hex[16..20],
        &hex[20..32]
    )
}

#[test]
fn create_airtable_starts_a_pending_import_job() {
    let mut store = JobStore::new();
    let (job_text, job, work) = create_airtable(&mut store, runner_payload(), runner_acting(), 1);
    let fetched = get_job(&store, &job_text).unwrap();
    assert_eq!(fetched.id, job);
    assert!(matches!(fetched.status, JobStatus::Pending));
    assert!(matches!(fetched.job_type, JobType::ImportData));
    assert_eq!(work.base, "appBase");
    assert_eq!(work.table, "tblUsers");
    assert_eq!(work.options.view.as_deref(), Some("viwAll"));
    assert_eq!(
        work.options.fields.as_deref(),
        Some(&["FirstName".to_string(), "Email".to_string()][..])
    );
    assert!(work.options.offset.is_none());
}

#[test]
fn job_identifiers_render_and_parse_round_trip() {
    let mut store = JobStore::new();
    let (job_text, job, _) = create_airtable(&mut store, runner_payload(), runner_acting(), 1);
    // The rendered identifier must be the hyphenated form of the job's
    // 128-bit value, and must resolve back to the same job.
    assert_eq!(job_text, render_runner_uuid(job));
    assert_eq!(get_job(&store, &job_text).unwrap().id, job);
}

#[test]
fn get_job_classifies_bad_and_unknown_identifiers() {
    let store = JobStore::new();
    assert_eq!(get_job(&store, "not-a-uuid").err(), Some(PipelineError::Validation));
    assert_eq!(
        get_job(&store, "00000000-0000-0000-0000-0000000000ff").err(),
        Some(PipelineError::NotFound)
    );
}

#[test]
fn refresh_conflicts_while_import_is_pending() {
    let mut store = JobStore::new();
    let (_, job, _) = create_airtable(&mut store, runner_payload(), runner_acting(), 1);
    let vid = store.fetch_datasource_views()[0].id;
    let vid_text = render_runner_uuid(vid);
    let jobs_before = store.fetch_jobs().len();
    let r = refresh_airtable_data(&mut store, &vid_text, runner_acting(), 2);
    assert_eq!(r.err(), Some(PipelineError::Conflict));
    assert_eq!(store.fetch_jobs().len(), jobs_before);
    // Once the import resolves, a refresh starts a new pending job.
    store.mark_job_complete(job, 3);
    let (_, refreshed, work) =
        refresh_airtable_data(&mut store, &vid_text, runner_acting(), 4).unwrap();
    assert!(matches!(store.fetch_job(refreshed).unwrap().status, JobStatus::Pending));
    assert_eq!(work.base, "appBase");
}

#[test]
fn refresh_rejects_malformed_and_unknown_views() {
    let mut store = JobStore::new();
    assert_eq!(
        refresh_airtable_data(&mut store, "garbage", runner_acting(), 1).err(),
        Some(PipelineError::Validation)
    );
    assert_eq!(
        refresh_airtable_data(
            &mut store,
            "00000000-0000-0000-0000-0000000000ff",
            runner_acting(),
            2
        )
        .err(),
        Some(PipelineError::NotFound)
    );
}

#[test]
fn fetch_data_hit_returns_cached_page_set() {
    let mut store = JobStore::new();
    let mut cache = Cache::new();
    let (_, job, _) = create_airtable(&mut store, runner_payload(), runner_acting(), 1);
    store.mark_job_complete(job, 2);
    let vid = store.fetch_datasource_views()[0].id;
    let vid_text = render_runner_uuid(vid);
    cache.set_json(
        &vid_text,
        CachedValue::Records(vec![Record {
            id: "rec0".to_string(),
            fields: "{\"Email\":\"a@example.org\"}".to_string(),
            created_time: "2024-01-01T00:00:00.000Z".to_string(),
        }]),
    );
    match fetch_airtable_data(&mut store, &mut cache, &vid_text, runner_acting(), 3).unwrap() {
        FetchDataOutcome::CachedRecords(rs) => {
            assert_eq!(rs.len(), 1);
            assert_eq!(rs[0].id, "rec0");
        }
        other => panic!("expected a cache hit, got {:?}", other),
    }
}

#[test]
fn fetch_data_corrupt_shape_is_evicted_and_surfaces() {
    let mut store = JobStore::new();
    let mut cache = Cache::new();
    let (_, job, _) = create_airtable(&mut store, runner_payload(), runner_acting(), 1);
    store.mark_job_complete(job, 2);
    let vid = store.fetch_datasource_views()[0].id;
    let vid_text = render_runner_uuid(vid);
    cache.set_json(
        &vid_text,
        CachedValue::BaseList(Bases { bases: Vec::new(), offset: None }),
    );
    let r = fetch_airtable_data(&mut store, &mut cache, &vid_text, runner_acting(), 3);
    assert_eq!(r.err(), Some(PipelineError::CorruptCache));
    // The corrupt entry is gone: the next read is a clean miss that starts
    // an import job rather than serving malformed data.
    assert!(cache.get_json(&vid_text).is_none());
    match fetch_airtable_data(&mut store, &mut cache, &vid_text, runner_acting(), 4).unwrap() {
        FetchDataOutcome::MissJobStarted { job: started, .. } => {
            assert!(matches!(store.fetch_job(started).unwrap().status, JobStatus::Pending));
        }
        other => panic!("expected a miss to start a job, got {:?}", other),
    }
}

#[test]
fn fetch_data_miss_respects_single_flight() {
    let mut store = JobStore::new();
    let mut cache = Cache::new();
    let (_, _job, _) = create_airtable(&mut store, runner_payload(), runner_acting(), 1);
    let vid = store.fetch_datasource_views()[0].id;
    let vid_text = render_runner_uuid(vid);
    // The initial import job is still pending: a cache miss may not start
    // a second job for the same view.
    let r = fetch_airtable_data(&mut store, &mut cache, &vid_text, runner_acting(), 2);
    assert_eq!(r.err(), Some(PipelineError::Conflict));
}

#[test]
fn list_datasource_jobs_returns_the_view_history() {
    let mut store = JobStore::new();
    let (_, job, _) = create_airtable(&mut store, runner_payload(), runner_acting(), 1);
    let vid = store.fetch_datasource_views()[0].id;
    let vid_text = render_runner_uuid(vid);
    let jobs = list_datasource_jobs(&store, &vid_text).unwrap();
    assert_eq!(jobs.len(), 1);
    assert_eq!(jobs[0].id, job);
    assert_eq!(
        list_datasource_jobs(&store, "garbage").err(),
        Some(PipelineError::Validation)
    );
}

#[test]
fn bases_cache_aside_round_trips() {
    let mut cache = Cache::new();
    assert!(cached_bases(&mut cache, "accessible-bases").unwrap().is_none());
    store_bases(
        &mut cache,
        "accessible-bases",
        Bases {
            bases: vec![Base {
                id: "appBase".to_string(),
                name: "Volunteers".to_string(),
                permission_level: "read".to_string(),
            }],
            offset: None,
        },
    );
    let hit = cached_bases(&mut cache, "accessible-bases").unwrap().unwrap();
    assert_eq!(hit.bases.len(), 1);
    assert_eq!(hit.bases[0].id, "appBase");
    // A wrong-shaped payload under the bases key is corruption: evicted
    // and surfaced.
    cache.set_json("accessible-bases", CachedValue::Records(Vec::new()));
    assert_eq!(
        cached_bases(&mut cache, "accessible-bases").err(),
        Some(PipelineError::CorruptCache)
    );
    assert!(cache.get_json("accessible-bases").is_none());
}

#[test]
fn datasource_and_status_names_decode() {
    assert_eq!(parse_supported_datasource("AIRTABLE"), Some(SupportedDatasource::Airtable));
    assert_eq!(
        parse_supported_datasource("Google"),
        Some(SupportedDatasource::GoogleWorkspaceAdminDirectory)
    );
    assert_eq!(parse_supported_datasource("sheets"), None);
    assert_eq!(parse_job_status("pending"), Some(JobStatus::Pending));
    assert_eq!(parse_job_status("error"), Some(JobStatus::Error));
    assert_eq!(parse_job_status("complete"), Some(JobStatus::Complete));
    assert_eq!(parse_job_status("Pending"), None);
}

#[test]
fn download_rows_join_by_source_email() {
    let mut store = JobStore::new();
    store.save_exported_users(
        vec![CreateExportedUser {
            job_id: 7,
            first_name: "Ann".to_string(),
            last_name: "Lee".to_string(),
            personal_email: "ann@example.org".to_string(),
            generated_email: "ann.lee10@developforgood.org".to_string(),
            exported_from: SupportedDatasource::Airtable,
        }],
        1,
    );
    let user_data = vec![
        DownloadUserData {
            first_name: "Ann".to_string(),
            last_name: "Lee".to_string(),
            email: Some("ann@example.org".to_string()),
            project: Some("Food Bank".to_string()),
            record_id: "rec0".to_string(),
        },
        DownloadUserData {
            first_name: "Bo".to_string(),
            last_name: "Day".to_string(),
            email: None,
            project: None,
            record_id: "rec1".to_string(),
        },
        DownloadUserData {
            first_name: "Cy".to_string(),
            last_name: "Fox".to_string(),
            email: Some("cy@example.org".to_string()),
            project: None,
            record_id: "rec2".to_string(),
        },
    ];
    let rows = build_exported_users_csv(&user_data, store.fetch_exported_users());
    assert_eq!(rows.len(), 1);
    assert_eq!(rows[0].first_name, "Ann");
    assert_eq!(rows[0].project_name, "Food Bank");
    assert_eq!(rows[0].email, "ann@example.org");
    assert_eq!(rows[0].dfg_email, "ann.lee10@developforgood.org");
}

#[test]
fn download_creates_job_and_joins_rows() {
    let mut store = JobStore::new();
    let (_, import_job, _) = create_airtable(&mut store, runner_payload(), runner_acting(), 1);
    store.mark_job_complete(import_job, 2);
    store.save_exported_users(
        vec![CreateExportedUser {
            job_id: import_job,
            first_name: "Ann".to_string(),
            last_name: "Lee".to_string(),
            personal_email: "ann@example.org".to_string(),
            generated_email: "ann.lee10@developforgood.org".to_string(),
            exported_from: SupportedDatasource::Airtable,
        }],
        3,
    );
    let vid = store.fetch_datasource_views()[0].id;
    let vid_text = render_runner_uuid(vid);
    let payload = DownloadUsersRequest {
        send_to: "ops@example.org".to_string(),
        format: DownloadUsersFileFormat::Csv,
        user_data: vec![DownloadUserData {
            first_name: "Ann".to_string(),
            last_name: "Lee".to_string(),
            email: Some("ann@example.org".to_string()),
            project: None,
            record_id: "rec0".to_string(),
        }],
        columns: vec!["email".to_string()],
    };
    let (_, job, rows) =
        download_exported_users_as_csv(&mut store, &vid_text, &payload, runner_acting(), 4)
            .unwrap();
    assert!(matches!(store.fetch_job(job).unwrap().status, JobStatus::Pending));
    assert_eq!(rows.len(), 1);
    assert_eq!(rows[0].project_name, "");
    assert_eq!(rows[0].dfg_email, "ann.lee10@developforgood.org");
}
