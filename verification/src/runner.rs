//! The job runner: bridges a synchronous request to an asynchronous
//! pipeline run. Each operation resolves the acting user, enforces the
//! single-flight constraint through the store's guarded job creation,
//! creates the pending job row, and returns the job identifier together
//! with a description of the work for the background execution context;
//! the caller observes progress only by polling the store.

use vstd::prelude::*;

use crate::airtable::{ListRecordsOptions, Record};
use crate::cache::{Cache, CachedValue};
use crate::entities::{
    CreateDatasourceView, CreateJob, CreateJobWithDatasource, CreateUser, Job, JobMetadata,
};
use crate::errors::PipelineError;
use crate::export::{ExportUser, ExportUsersRequest, PlannedUser, plan_export, filter_not_exported,
    to_export_spec, ExportConflictPolicy};
use crate::external::{parse_uuid, uuid_of, uuid_string, uuid_string_of};
use crate::requests::{
    duplicate_strings, AirtableDatasourceViewRequestMetadata, CreateDatasourceViewRequest,
    DatasourceViewRequestMetadata,
};
use crate::store::{
    create_job_m, create_job_with_view_m, create_view_m, has_view, jobs_for_view, has_job,
    pending_job_exists, pending_link, upsert_user_m, upsert_user_id, wf, JobStore, StoreModel,
};
use crate::types::{JobStatus, JobType, SupportedDatasource};

verus! {

/// What the background execution context needs to run one paginated
/// fetch: the base and table to read and the listing options.
#[derive(Debug)]
pub struct FetchWork {
    pub base: String,
    pub table: String,
    pub options: ListRecordsOptions,
}

/// The outcome of the cache-aside read of a datasource view's records.
#[derive(Debug)]
pub enum FetchDataOutcome {
    /// The cache held the expected page set.
    CachedRecords(Vec<Record<String>>),
    /// The cache held nothing: an import job was created and its work must
    /// be run in the background.
    MissJobStarted { job_id: String, job: u128, work: FetchWork },
}

/// The fetch work described by a view's Airtable metadata.
pub open spec fn work_matches_meta(work: FetchWork, meta: AirtableDatasourceViewRequestMetadata) -> bool {
    &&& work.base@ == meta.base@
    &&& work.table@ == meta.table@
    &&& work.options.view matches Some(v) && v@ == meta.view@
    &&& work.options.fields matches Some(fs) && fs@ == meta.fields@
    &&& work.options.offset is None
}

/// The view row a datasource-creation request inserts.
pub open spec fn view_dto_of(payload: CreateDatasourceViewRequest, uid: u128) -> CreateDatasourceView {
    CreateDatasourceView {
        user_id: uid,
        view_name: payload.name,
        datasource: SupportedDatasource::Airtable,
        description: payload.description,
        metadata: DatasourceViewRequestMetadata::Airtable(payload.metadata),
    }
}

/// The pending job row tied to a datasource view.
pub open spec fn job_dto_of(uid: u128, jt: JobType, vid: u128) -> CreateJobWithDatasource {
    CreateJobWithDatasource {
        user_id: uid,
        status: JobStatus::Pending,
        job_type: jt,
        metadata: JobMetadata { datasource_view_id: Some(vid) },
        datasource_view_id: vid,
    }
}

/// The store after a datasource view is created: the acting user is
/// upserted, the view row inserted, and a pending import job created and
/// associated with it.
pub open spec fn create_airtable_m(
    m: StoreModel,
    payload: CreateDatasourceViewRequest,
    acting: CreateUser,
    now: i64,
) -> StoreModel {
    let m1 = upsert_user_m(m, acting, now);
    let uid = upsert_user_id(m, acting);
    let m2 = create_view_m(m1, view_dto_of(payload, uid), now);
    create_job_with_view_m(m2, job_dto_of(uid, JobType::ImportData, m1.next_id), now)
}

impl FetchWork {
    /// The fetch work a view's Airtable metadata describes.
    pub fn from_metadata(meta: &AirtableDatasourceViewRequestMetadata) -> (r: FetchWork)
        ensures
            work_matches_meta(r, *meta),
    {
        FetchWork {
            base: meta.base.clone(),
            table: meta.table.clone(),
            options: ListRecordsOptions {
                fields: Some(duplicate_strings(&meta.fields)),
                view: Some(meta.view.clone()),
                offset: None,
            },
        }
    }
}

/// Creates an Airtable datasource view and starts its first import job:
/// the acting user is upserted, the view row and the pending job with its
/// association are created, and the work for the background fetch is
/// returned with the job identifier. A fresh view cannot be owned by a
/// pending job, so this always succeeds.
pub fn create_airtable(
    store: &mut JobStore,
    payload: CreateDatasourceViewRequest,
    acting: CreateUser,
    now: i64,
) -> (r: (String, u128, FetchWork))
    requires
        wf(old(store)@),
        old(store)@.next_id < u128::MAX - 3,
    ensures
        wf(final(store)@),
        final(store)@ == create_airtable_m(old(store)@, payload, acting, now),
        r.1 == create_view_m(
            upsert_user_m(old(store)@, acting, now),
            view_dto_of(payload, upsert_user_id(old(store)@, acting)),
            now,
        ).next_id,
        r.0@ == uuid_string_of(r.1),
        work_matches_meta(r.2, payload.metadata),
{
    let ghost m0 = store@;
    let work = FetchWork::from_metadata(&payload.metadata);
    let uid = store.create_or_fetch_user(acting, now);
    let ghost m1 = store@;
    let view_dto = CreateDatasourceView {
        user_id: uid,
        view_name: payload.name,
        datasource: SupportedDatasource::Airtable,
        description: payload.description,
        metadata: DatasourceViewRequestMetadata::Airtable(payload.metadata),
    };
    let vid = store.create_datasource_view(view_dto, now);
    let ghost m2 = store@;
    proof {
        assert(has_view(m2.views, vid)) by {
            assert(m2.views.last().id == vid);
        }
        assert forall|l: int, j: int| !pending_link(m2, l, j, vid) by {
            if pending_link(m2, l, j, vid) {
                assert(m2.view_jobs[l] == m0.view_jobs[l]);
                assert(has_view(m0.views, m0.view_jobs[l].datasource_view_id));
                let w = choose|w: int|
                    0 <= w < m0.views.len() && (#[trigger] m0.views[w].id)
                        == m0.view_jobs[l].datasource_view_id;
                assert(m0.views[w].id < m0.next_id);
                assert(vid >= m0.next_id);
            }
        }
        assert(!pending_job_exists(m2, vid));
    }
    let job_dto = CreateJobWithDatasource {
        user_id: uid,
        status: JobStatus::Pending,
        job_type: JobType::ImportData,
        metadata: JobMetadata { datasource_view_id: Some(vid) },
        datasource_view_id: vid,
    };
    match store.create_job_with_datasource(job_dto, now) {
        Result::Ok(ids) => {
            let job_id = ids.0;
            let rendered = uuid_string(job_id);
            (rendered, job_id, work)
        },
        Result::Err(e) => {
            proof {
                assert(false);
            }
            (uuid_string(0), 0, work)
        },
    }
}

/// Starts a fresh import job for an existing datasource view: the explicit
/// refresh path. Rejected with a conflict when a pending job already owns
/// the view — no second job row is created — and with a validation or
/// not-found error on a malformed or unknown view identifier.
pub fn refresh_airtable_data(
    store: &mut JobStore,
    view_id: &str,
    acting: CreateUser,
    now: i64,
) -> (r: Result<(String, u128, FetchWork), PipelineError>)
    requires
        wf(old(store)@),
        old(store)@.next_id < u128::MAX - 2,
    ensures
        wf(final(store)@),
        (match r {
            Result::Ok(out) => {
                let m0 = old(store)@;
                let vid = uuid_of(view_id@)->0;
                &&& uuid_of(view_id@) is Some
                &&& has_view(m0.views, vid)
                &&& !pending_job_exists(m0, vid)
                &&& final(store)@ == create_job_with_view_m(
                    upsert_user_m(m0, acting, now),
                    job_dto_of(upsert_user_id(m0, acting), JobType::ImportData, vid),
                    now,
                )
                &&& out.1 == upsert_user_m(m0, acting, now).next_id
                &&& out.0@ == uuid_string_of(out.1)
                &&& exists|i: int|
                    0 <= i < m0.views.len() && (#[trigger] m0.views[i]).id == vid && (
                    m0.views[i].metadata matches DatasourceViewRequestMetadata::Airtable(am)
                        && work_matches_meta(out.2, am))
            },
            Result::Err(e) => {
                let m0 = old(store)@;
                match e {
                    PipelineError::Validation => uuid_of(view_id@) is None && final(store)@ == m0,
                    PipelineError::NotFound => uuid_of(view_id@) is Some && !has_view(
                        m0.views,
                        uuid_of(view_id@)->0,
                    ) && final(store)@ == m0,
                    PipelineError::Conflict => uuid_of(view_id@) is Some && has_view(
                        m0.views,
                        uuid_of(view_id@)->0,
                    ) && pending_job_exists(m0, uuid_of(view_id@)->0) && final(store)@
                        == upsert_user_m(m0, acting, now) && final(store)@.jobs == m0.jobs,
                    _ => false,
                }
            },
        }),
{
    let ghost m0 = store@;
    let vid = match parse_uuid(view_id) {
        Option::Some(v) => v,
        Option::None => {
            return Err(PipelineError::Validation);
        },
    };
    let work = match store.fetch_datasource_view(vid) {
        Option::Some(view) => {
            match &view.metadata {
                DatasourceViewRequestMetadata::Airtable(am) => FetchWork::from_metadata(am),
            }
        },
        Option::None => {
            return Err(PipelineError::NotFound);
        },
    };
    let uid = store.create_or_fetch_user(acting, now);
    let ghost m1 = store@;
    let job_dto = CreateJobWithDatasource {
        user_id: uid,
        status: JobStatus::Pending,
        job_type: JobType::ImportData,
        metadata: JobMetadata { datasource_view_id: Some(vid) },
        datasource_view_id: vid,
    };
    match store.create_job_with_datasource(job_dto, now) {
        Result::Ok(ids) => {
            proof {
                lemma_pending_same_after_upsert(m0, m1, acting, now, vid);
            }
            let rendered = uuid_string(ids.0);
            Ok((rendered, ids.0, work))
        },
        Result::Err(e) => {
            proof {
                lemma_pending_same_after_upsert(m0, m1, acting, now, vid);
                assert(has_view(m0.views, vid));
            }
            Err(PipelineError::Conflict)
        },
    }
}

/// Upserting a user touches neither jobs, views nor associations: which
/// view a pending job owns is unchanged.
proof fn lemma_pending_same_after_upsert(
    m0: StoreModel,
    m1: StoreModel,
    acting: CreateUser,
    now: i64,
    vid: u128,
)
    requires
        m1 == upsert_user_m(m0, acting, now),
    ensures
        pending_job_exists(m1, vid) == pending_job_exists(m0, vid),
        has_view(m1.views, vid) == has_view(m0.views, vid),
        m1.jobs == m0.jobs,
{
    assert forall|l: int, j: int|
        pending_link(m1, l, j, vid) == pending_link(m0, l, j, vid) by {}
    if pending_job_exists(m0, vid) {
        let (l, j) = choose|l: int, j: int| pending_link(m0, l, j, vid);
        assert(pending_link(m1, l, j, vid));
    }
    if pending_job_exists(m1, vid) {
        let (l, j) = choose|l: int, j: int| pending_link(m1, l, j, vid);
        assert(pending_link(m0, l, j, vid));
    }
}


/// A copy of a fetched record page, row for row.
pub fn duplicate_records(v: &Vec<Record<String>>) -> (r: Vec<Record<String>>)
    ensures
        r@ == v@,
{
    let n = v.len();
    let mut out: Vec<Record<String>> = Vec::new();
    let mut i: usize = 0;
    while i < n
        invariant
            n == v.len(),
            i <= n,
            out@.len() == i,
            forall|j: int| 0 <= j < i ==> #[trigger] out@[j] == v@[j],
        decreases n - i,
    {
        let rec = Record {
            id: v[i].id.clone(),
            fields: v[i].fields.clone(),
            created_time: v[i].created_time.clone(),
        };
        proof {
            assert(rec == v@[i as int]);
        }
        out.push(rec);
        i += 1;
    }
    proof {
        assert(out@ =~= v@);
    }
    out
}

/// Reads a datasource view's records cache-aside: a hit with the expected
/// shape returns the page set; a hit with any other shape is treated as
/// corruption — the entry is evicted and a server-side error surfaces; a
/// miss creates a pending import job (subject to the single-flight
/// constraint) and hands back the background work.
pub fn fetch_airtable_data(
    store: &mut JobStore,
    cache: &mut Cache,
    view_id: &str,
    acting: CreateUser,
    now: i64,
) -> (r: Result<FetchDataOutcome, PipelineError>)
    requires
        wf(old(store)@),
        old(store)@.next_id < u128::MAX - 2,
        old(cache).wf(),
    ensures
        wf(final(store)@),
        final(cache).wf(),
        (match r {
            Result::Ok(outcome) => {
                let m0 = old(store)@;
                let vid = uuid_of(view_id@)->0;
                let key = uuid_string_of(vid);
                &&& uuid_of(view_id@) is Some
                &&& has_view(m0.views, vid)
                &&& (match outcome {
                    FetchDataOutcome::CachedRecords(rs) => old(cache)@.contains_key(key) && (
                    old(cache)@[key] matches CachedValue::Records(recs) && rs@ == recs@)
                        && final(cache)@ == old(cache)@ && final(store)@ == m0,
                    FetchDataOutcome::MissJobStarted { job_id, job, work } => {
                        &&& !old(cache)@.contains_key(key)
                        &&& final(cache)@ == old(cache)@
                        &&& !pending_job_exists(m0, vid)
                        &&& final(store)@ == create_job_with_view_m(
                            upsert_user_m(m0, acting, now),
                            job_dto_of(upsert_user_id(m0, acting), JobType::ImportData, vid),
                            now,
                        )
                        &&& job == upsert_user_m(m0, acting, now).next_id
                        &&& job_id@ == uuid_string_of(job)
                        &&& exists|i: int|
                            0 <= i < m0.views.len() && (#[trigger] m0.views[i]).id == vid && (
                            m0.views[i].metadata matches DatasourceViewRequestMetadata::Airtable(
                                am,
                            ) && work_matches_meta(work, am))
                    },
                })
            },
            Result::Err(e) => {
                let m0 = old(store)@;
                let vid = uuid_of(view_id@)->0;
                let key = uuid_string_of(vid);
                match e {
                    PipelineError::Validation => uuid_of(view_id@) is None && final(store)@ == m0
                        && final(cache)@ == old(cache)@,
                    PipelineError::NotFound => uuid_of(view_id@) is Some && !has_view(
                        m0.views,
                        vid,
                    ) && final(store)@ == m0 && final(cache)@ == old(cache)@,
                    PipelineError::CorruptCache => uuid_of(view_id@) is Some && has_view(
                        m0.views,
                        vid,
                    ) && old(cache)@.contains_key(key) && !(old(cache)@[key] matches CachedValue::Records(_)) && final(cache)@ == old(cache)@.remove(key) && final(store)@ == m0,
                    PipelineError::Conflict => uuid_of(view_id@) is Some && has_view(
                        m0.views,
                        vid,
                    ) && !old(cache)@.contains_key(key) && pending_job_exists(m0, vid) && final(store)@ == upsert_user_m(m0, acting, now) && final(store)@.jobs == m0.jobs && final(cache)@ == old(cache)@,
                    _ => false,
                }
            },
        }),
{
    let ghost m0 = store@;
    let vid = match parse_uuid(view_id) {
        Option::Some(v) => v,
        Option::None => {
            return Err(PipelineError::Validation);
        },
    };
    let work = match store.fetch_datasource_view(vid) {
        Option::Some(view) => {
            match &view.metadata {
                DatasourceViewRequestMetadata::Airtable(am) => FetchWork::from_metadata(am),
            }
        },
        Option::None => {
            return Err(PipelineError::NotFound);
        },
    };
    let key = uuid_string(vid);
    let cached_records = match cache.get_json(key.as_str()) {
        Option::Some(v) => {
            match v {
                CachedValue::Records(recs) => Some(duplicate_records(recs)),
                CachedValue::BaseList(_) => None,
            }
        },
        Option::None => {
            let uid = store.create_or_fetch_user(acting, now);
            let ghost m1 = store@;
            let job_dto = CreateJobWithDatasource {
                user_id: uid,
                status: JobStatus::Pending,
                job_type: JobType::ImportData,
                metadata: JobMetadata { datasource_view_id: Some(vid) },
                datasource_view_id: vid,
            };
            match store.create_job_with_datasource(job_dto, now) {
                Result::Ok(ids) => {
                    proof {
                        lemma_pending_same_after_upsert(m0, m1, acting, now, vid);
                    }
                    let rendered = uuid_string(ids.0);
                    return Ok(
                        FetchDataOutcome::MissJobStarted { job_id: rendered, job: ids.0, work },
                    );
                },
                Result::Err(_) => {
                    proof {
                        lemma_pending_same_after_upsert(m0, m1, acting, now, vid);
                        assert(has_view(m0.views, vid));
                    }
                    return Err(PipelineError::Conflict);
                },
            }
        },
    };
    match cached_records {
        Option::Some(rs) => Ok(FetchDataOutcome::CachedRecords(rs)),
        Option::None => {
            cache.evict(key.as_str());
            Err(PipelineError::CorruptCache)
        },
    }
}

/// The exported rows rephrased as export candidates, generated email
/// included: the `alreadyExported` set of the reconciler.
pub open spec fn already_exported_spec(exported: Seq<crate::entities::ExportedUser>) -> Seq<
    ExportUser,
> {
    exported.map_values(
        |e: crate::entities::ExportedUser| ExportUser {
            first_name: e.first_name,
            last_name: e.last_name,
            email: e.personal_email,
            generated_email: Some(e.generated_email),
        },
    )
}

/// The generated emails already in use, one per exported row.
pub open spec fn existing_generated_spec(exported: Seq<crate::entities::ExportedUser>) -> Seq<
    Seq<char>,
> {
    exported.map_values(|e: crate::entities::ExportedUser| e.generated_email@)
}

/// Starts an export job for a datasource view. In order: the view
/// identifier is validated; a pending job owning the view is a conflict
/// and nothing is written; under the `Reject` policy a candidate set that
/// is not disjoint from the already-exported set is refused before any
/// side effect; an unknown view is not found; then the remaining
/// candidates are planned (deterministic generated emails, fresh random
/// passwords), the acting user is upserted and the pending export job
/// created with its association. The caller hands the plan to the
/// background provisioning run.
pub fn export_users_to_workspace(
    store: &mut JobStore,
    view_id: &str,
    export_data: &ExportUsersRequest,
    acting: CreateUser,
    now: i64,
) -> (r: Result<(String, u128, Vec<PlannedUser>), PipelineError>)
    requires
        wf(old(store)@),
        old(store)@.next_id < u128::MAX - 2,
    ensures
        wf(final(store)@),
        (match r {
            Result::Ok(out) => {
                let m0 = old(store)@;
                let vid = uuid_of(view_id@)->0;
                let cands = to_export_spec(
                    export_data.users@,
                    already_exported_spec(m0.exported),
                );
                &&& uuid_of(view_id@) is Some
                &&& !pending_job_exists(m0, vid)
                &&& (export_data.export_conflict_policy == ExportConflictPolicy::Reject
                    ==> cands.len() == export_data.users@.len())
                &&& has_view(m0.views, vid)
                &&& crate::export::plan_emails(
                    cands,
                    export_data.email_policy.separator@,
                    existing_generated_spec(m0.exported),
                ) == Some(crate::export::planned_views(out.2@))
                &&& out.2@.len() == cands.len()
                &&& (forall|i: int|
                    0 <= i < out.2@.len() ==> (#[trigger] out.2@[i]).password@.len()
                        == export_data.password_policy.generated_password_length as nat)
                &&& final(store)@ == create_job_with_view_m(
                    upsert_user_m(m0, acting, now),
                    job_dto_of(upsert_user_id(m0, acting), JobType::ExportData, vid),
                    now,
                )
                &&& out.1 == upsert_user_m(m0, acting, now).next_id
                &&& out.0@ == uuid_string_of(out.1)
            },
            Result::Err(e) => {
                let m0 = old(store)@;
                let vid = uuid_of(view_id@)->0;
                let cands = to_export_spec(
                    export_data.users@,
                    already_exported_spec(m0.exported),
                );
                match e {
                    PipelineError::Validation => final(store)@ == m0 && (uuid_of(view_id@) is None
                        || (!pending_job_exists(m0, vid) && (
                    export_data.export_conflict_policy == ExportConflictPolicy::Reject
                        && cands.len() != export_data.users@.len() || crate::export::plan_emails(
                        cands,
                        export_data.email_policy.separator@,
                        existing_generated_spec(m0.exported),
                    ) is None))),
                    PipelineError::Conflict => uuid_of(view_id@) is Some && pending_job_exists(
                        m0,
                        vid,
                    ) && final(store)@ == m0,
                    PipelineError::NotFound => uuid_of(view_id@) is Some && !pending_job_exists(
                        m0,
                        vid,
                    ) && !has_view(m0.views, vid) && final(store)@ == m0,
                    _ => false,
                }
            },
        }),
{
    let ghost m0 = store@;
    let vid = match parse_uuid(view_id) {
        Option::Some(v) => v,
        Option::None => {
            return Err(PipelineError::Validation);
        },
    };
    if store.has_pending_job_for_view(vid) {
        return Err(PipelineError::Conflict);
    }
    let exported = store.fetch_exported_users();
    let en = exported.len();
    let mut already: Vec<ExportUser> = Vec::new();
    let mut existing: Vec<String> = Vec::new();
    let mut i: usize = 0;
    while i < en
        invariant
            en == exported@.len(),
            i <= en,
            already@.len() == i,
            existing@.len() == i,
            forall|j: int|
                0 <= j < i ==> #[trigger] already@[j] == already_exported_spec(exported@)[j],
            forall|j: int|
                0 <= j < i ==> (#[trigger] existing@[j])@ == existing_generated_spec(exported@)[j],
        decreases en - i,
    {
        let e = &exported[i];
        let cand = ExportUser {
            first_name: e.first_name.clone(),
            last_name: e.last_name.clone(),
            email: e.personal_email.clone(),
            generated_email: Some(e.generated_email.clone()),
        };
        proof {
            assert(cand == already_exported_spec(exported@)[i as int]);
        }
        already.push(cand);
        existing.push(e.generated_email.clone());
        i += 1;
    }
    proof {
        assert(already@ =~= already_exported_spec(exported@));
        assert(crate::export::string_views(existing@) =~= existing_generated_spec(exported@));
    }
    let users_to_export = filter_not_exported(&export_data.users, &already);
    if matches!(export_data.export_conflict_policy, ExportConflictPolicy::Reject) {
        if users_to_export.len() != export_data.users.len() {
            return Err(PipelineError::Validation);
        }
    }
    if store.fetch_datasource_view(vid).is_none() {
        return Err(PipelineError::NotFound);
    }
    let planned = match plan_export(
        &users_to_export,
        &export_data.email_policy,
        &export_data.password_policy,
        &existing,
    ) {
        Result::Ok(p) => p,
        Result::Err(_) => {
            return Err(PipelineError::Validation);
        },
    };
    let uid = store.create_or_fetch_user(acting, now);
    let ghost m1 = store@;
    let job_dto = CreateJobWithDatasource {
        user_id: uid,
        status: JobStatus::Pending,
        job_type: JobType::ExportData,
        metadata: JobMetadata { datasource_view_id: Some(vid) },
        datasource_view_id: vid,
    };
    match store.create_job_with_datasource(job_dto, now) {
        Result::Ok(ids) => {
            let rendered = uuid_string(ids.0);
            Ok((rendered, ids.0, planned))
        },
        Result::Err(e) => {
            proof {
                lemma_pending_same_after_upsert(m0, m1, acting, now, vid);
                assert(false);
            }
            Err(PipelineError::Conflict)
        },
    }
}

/// Starts an undo job for a prior export job: the exported rows that job
/// produced name the directory accounts to delete, and a fresh undo job
/// tracks the run. When the original job concerned a datasource view that
/// still exists, the undo job is associated with it and subject to the
/// single-flight constraint.
pub fn undo_export_job(
    store: &mut JobStore,
    job_id: &str,
    acting: CreateUser,
    now: i64,
) -> (r: Result<(String, u128, Vec<String>), PipelineError>)
    requires
        wf(old(store)@),
        old(store)@.next_id < u128::MAX - 2,
    ensures
        wf(final(store)@),
        (match r {
            Result::Ok(out) => {
                let m0 = old(store)@;
                let oid = uuid_of(job_id@)->0;
                let orig = m0.jobs[crate::store::job_idx(m0.jobs, oid)];
                &&& uuid_of(job_id@) is Some
                &&& has_job(m0.jobs, oid)
                &&& crate::export::string_views(out.2@) == existing_generated_spec(
                    exported_for_job_rows(m0, oid),
                )
                &&& out.1 == upsert_user_m(m0, acting, now).next_id
                &&& out.0@ == uuid_string_of(out.1)
                &&& (match orig.metadata.datasource_view_id {
                    Option::Some(vid) => if has_view(m0.views, vid) {
                        !pending_job_exists(m0, vid) && final(store)@ == create_job_with_view_m(
                            upsert_user_m(m0, acting, now),
                            job_dto_of(upsert_user_id(m0, acting), JobType::UndoExport, vid),
                            now,
                        )
                    } else {
                        final(store)@ == create_job_m(
                            upsert_user_m(m0, acting, now),
                            undo_job_dto_of(upsert_user_id(m0, acting), orig.metadata),
                            now,
                        )
                    },
                    Option::None => final(store)@ == create_job_m(
                        upsert_user_m(m0, acting, now),
                        undo_job_dto_of(upsert_user_id(m0, acting), orig.metadata),
                        now,
                    ),
                })
            },
            Result::Err(e) => {
                let m0 = old(store)@;
                let oid = uuid_of(job_id@)->0;
                match e {
                    PipelineError::Validation => uuid_of(job_id@) is None && final(store)@ == m0,
                    PipelineError::NotFound => uuid_of(job_id@) is Some && !has_job(m0.jobs, oid)
                        && final(store)@ == m0,
                    PipelineError::Conflict => {
                        let orig = m0.jobs[crate::store::job_idx(m0.jobs, oid)];
                        &&& uuid_of(job_id@) is Some
                        &&& has_job(m0.jobs, oid)
                        &&& (orig.metadata.datasource_view_id matches Some(vid) && has_view(
                            m0.views,
                            vid,
                        ) && pending_job_exists(m0, vid))
                        &&& final(store)@ == upsert_user_m(m0, acting, now)
                        &&& final(store)@.jobs == m0.jobs
                    },
                    _ => false,
                }
            },
        }),
{
    let ghost m0 = store@;
    let oid = match parse_uuid(job_id) {
        Option::Some(v) => v,
        Option::None => {
            return Err(PipelineError::Validation);
        },
    };
    let orig = match store.fetch_job(oid) {
        Option::Some(j) => j,
        Option::None => {
            return Err(PipelineError::NotFound);
        },
    };
    proof {
        let w = crate::store::job_idx(m0.jobs, oid);
        let k = choose|k: int| 0 <= k < m0.jobs.len() && (#[trigger] m0.jobs[k]) == orig;
        assert(0 <= w < m0.jobs.len() && m0.jobs[w].id == oid);
        if k != w {
            assert(m0.jobs[k].id != m0.jobs[w].id);
        }
        assert(orig == m0.jobs[w]);
    }
    let rows = store.fetch_exported_users_by_job(oid);
    let rn = rows.len();
    let mut users_to_delete: Vec<String> = Vec::new();
    let mut i: usize = 0;
    while i < rn
        invariant
            rn == rows@.len(),
            i <= rn,
            users_to_delete@.len() == i,
            forall|j: int|
                0 <= j < i ==> (#[trigger] users_to_delete@[j])@ == rows@[j].generated_email@,
        decreases rn - i,
    {
        users_to_delete.push(rows[i].generated_email.clone());
        i += 1;
    }
    proof {
        assert(crate::export::string_views(users_to_delete@) =~= existing_generated_spec(rows@));
    }
    let uid = store.create_or_fetch_user(acting, now);
    let ghost m1 = store@;
    let mut with_view: Option<u128> = None;
    if let Option::Some(vid) = orig.metadata.datasource_view_id {
        if store.fetch_datasource_view(vid).is_some() {
            with_view = Some(vid);
        }
    }
    match with_view {
        Option::Some(vid) => {
            let job_dto = CreateJobWithDatasource {
                user_id: uid,
                status: JobStatus::Pending,
                job_type: JobType::UndoExport,
                metadata: JobMetadata { datasource_view_id: Some(vid) },
                datasource_view_id: vid,
            };
            match store.create_job_with_datasource(job_dto, now) {
                Result::Ok(ids) => {
                    proof {
                        lemma_pending_same_after_upsert(m0, m1, acting, now, vid);
                    }
                    let rendered = uuid_string(ids.0);
                    Ok((rendered, ids.0, users_to_delete))
                },
                Result::Err(_) => {
                    proof {
                        lemma_pending_same_after_upsert(m0, m1, acting, now, vid);
                        assert(has_view(m0.views, vid));
                    }
                    Err(PipelineError::Conflict)
                },
            }
        },
        Option::None => {
            let job_dto = CreateJob {
                user_id: uid,
                status: JobStatus::Pending,
                job_type: JobType::UndoExport,
                metadata: orig.metadata,
            };
            let jid = store.create_job(job_dto, now);
            let rendered = uuid_string(jid);
            Ok((rendered, jid, users_to_delete))
        },
    }
}

/// The bare undo job row when the original job's view is gone or absent.
pub open spec fn undo_job_dto_of(uid: u128, metadata: JobMetadata) -> CreateJob {
    CreateJob { user_id: uid, status: JobStatus::Pending, job_type: JobType::UndoExport, metadata }
}

/// The exported rows a job produced (alias used by the undo contract).
pub open spec fn exported_for_job_rows(m: StoreModel, job_id: u128) -> Seq<
    crate::entities::ExportedUser,
> {
    crate::store::exported_for_job(m, job_id)
}

/// The jobs of a datasource view, for the polling caller.
pub fn list_datasource_jobs(store: &JobStore, view_id: &str) -> (r: Result<
    Vec<Job>,
    PipelineError,
>)
    ensures
        (match r {
            Result::Ok(jobs) => uuid_of(view_id@) is Some && jobs@ == jobs_for_view(
                store@,
                uuid_of(view_id@)->0,
            ),
            Result::Err(e) => e == PipelineError::Validation && uuid_of(view_id@) is None,
        }),
{
    match parse_uuid(view_id) {
        Option::Some(vid) => Ok(store.fetch_datasource_view_jobs(vid)),
        Option::None => Err(PipelineError::Validation),
    }
}

/// One job by its rendered identifier, for the polling caller.
pub fn get_job(store: &JobStore, job_id: &str) -> (r: Result<Job, PipelineError>)
    requires
        wf(store@),
    ensures
        (match r {
            Result::Ok(j) => uuid_of(job_id@) is Some && has_job(store@.jobs, uuid_of(job_id@)->0)
                && exists|i: int|
                0 <= i < store@.jobs.len() && (#[trigger] store@.jobs[i]) == j && j.id == uuid_of(
                    job_id@,
                )->0,
            Result::Err(e) => match e {
                PipelineError::Validation => uuid_of(job_id@) is None,
                PipelineError::NotFound => uuid_of(job_id@) is Some && !has_job(
                    store@.jobs,
                    uuid_of(job_id@)->0,
                ),
                _ => false,
            },
        }),
{
    match parse_uuid(job_id) {
        Option::Some(jid) => {
            match store.fetch_job(jid) {
                Option::Some(j) => Ok(j),
                Option::None => Err(PipelineError::NotFound),
            }
        },
        Option::None => Err(PipelineError::Validation),
    }
}

/// Reads the accessible-bases payload cache-aside: the expected shape is
/// returned, an unexpected shape is evicted and surfaces as corruption,
/// and a miss tells the caller to fetch from the source and store the
/// result back.
pub fn cached_bases(cache: &mut Cache, key: &str) -> (r: Result<
    Option<crate::airtable::Bases>,
    PipelineError,
>)
    requires
        old(cache).wf(),
    ensures
        final(cache).wf(),
        (match r {
            Result::Ok(found) => match found {
                Option::Some(b) => old(cache)@.contains_key(key@) && (
                old(cache)@[key@] matches CachedValue::BaseList(cb) && b.bases@ == cb.bases@
                    && b.offset == cb.offset) && final(cache)@ == old(cache)@,
                Option::None => !old(cache)@.contains_key(key@) && final(cache)@ == old(cache)@,
            },
            Result::Err(e) => e == PipelineError::CorruptCache && old(cache)@.contains_key(key@)
                && !(old(cache)@[key@] matches CachedValue::BaseList(_)) && final(cache)@ == old(cache)@.remove(key@),
        }),
{
    let hit = match cache.get_json(key) {
        Option::Some(v) => {
            match v {
                CachedValue::BaseList(b) => {
                    let n = b.bases.len();
                    let mut bases: Vec<crate::airtable::Base> = Vec::new();
                    let mut i: usize = 0;
                    while i < n
                        invariant
                            n == b.bases@.len(),
                            i <= n,
                            bases@.len() == i,
                            forall|j: int| 0 <= j < i ==> #[trigger] bases@[j] == b.bases@[j],
                        decreases n - i,
                    {
                        let one = crate::airtable::Base {
                            id: b.bases[i].id.clone(),
                            name: b.bases[i].name.clone(),
                            permission_level: b.bases[i].permission_level.clone(),
                        };
                        proof {
                            assert(one == b.bases@[i as int]);
                        }
                        bases.push(one);
                        i += 1;
                    }
                    proof {
                        assert(bases@ =~= b.bases@);
                    }
                    let offset = crate::requests::duplicate_opt_string(&b.offset);
                    Some(crate::airtable::Bases { bases, offset })
                },
                CachedValue::Records(_) => None,
            }
        },
        Option::None => {
            return Ok(None);
        },
    };
    match hit {
        Option::Some(b) => Ok(Some(b)),
        Option::None => {
            cache.evict(key);
            Err(PipelineError::CorruptCache)
        },
    }
}

/// Stores a freshly fetched accessible-bases payload, replacing any prior
/// value wholesale: the write-back half of the cache-aside read.
pub fn store_bases(cache: &mut Cache, key: &str, bases: crate::airtable::Bases) -> (r: ())
    requires
        old(cache).wf(),
    ensures
        final(cache).wf(),
        final(cache)@ == old(cache)@.insert(key@, CachedValue::BaseList(bases)),
{
    cache.set_json(key, CachedValue::BaseList(bases));
}


/// Creates a download job for a datasource view and shapes the rows to
/// deliver: the caller-supplied user rows joined with the exported
/// accounts by source email. The file writing and delivery happen in the
/// background; the join itself is decided here.
pub fn download_exported_users_as_csv(
    store: &mut JobStore,
    view_id: &str,
    payload: &crate::download::DownloadUsersRequest,
    acting: CreateUser,
    now: i64,
) -> (r: Result<(String, u128, Vec<crate::download::ExportedUserCsvRecord>), PipelineError>)
    requires
        wf(old(store)@),
        old(store)@.next_id < u128::MAX - 2,
    ensures
        wf(final(store)@),
        (match r {
            Result::Ok(out) => {
                let m0 = old(store)@;
                let vid = uuid_of(view_id@)->0;
                &&& uuid_of(view_id@) is Some
                &&& has_view(m0.views, vid)
                &&& !pending_job_exists(m0, vid)
                &&& final(store)@ == create_job_with_view_m(
                    upsert_user_m(m0, acting, now),
                    job_dto_of(upsert_user_id(m0, acting), JobType::ExportData, vid),
                    now,
                )
                &&& out.1 == upsert_user_m(m0, acting, now).next_id
                &&& out.0@ == uuid_string_of(out.1)
                &&& crate::download::row_views(out.2@) == crate::download::csv_rows_spec(
                    payload.user_data@,
                    m0.exported,
                )
            },
            Result::Err(e) => {
                let m0 = old(store)@;
                let vid = uuid_of(view_id@)->0;
                match e {
                    PipelineError::Validation => uuid_of(view_id@) is None && final(store)@ == m0,
                    PipelineError::NotFound => uuid_of(view_id@) is Some && !has_view(
                        m0.views,
                        vid,
                    ) && final(store)@ == m0,
                    PipelineError::Conflict => uuid_of(view_id@) is Some && has_view(
                        m0.views,
                        vid,
                    ) && pending_job_exists(m0, vid) && final(store)@ == upsert_user_m(
                        m0,
                        acting,
                        now,
                    ) && final(store)@.jobs == m0.jobs,
                    _ => false,
                }
            },
        }),
{
    let ghost m0 = store@;
    let vid = match parse_uuid(view_id) {
        Option::Some(v) => v,
        Option::None => {
            return Err(PipelineError::Validation);
        },
    };
    if store.fetch_datasource_view(vid).is_none() {
        return Err(PipelineError::NotFound);
    }
    let rows = crate::download::build_exported_users_csv(
        &payload.user_data,
        store.fetch_exported_users(),
    );
    let uid = store.create_or_fetch_user(acting, now);
    let ghost m1 = store@;
    let job_dto = CreateJobWithDatasource {
        user_id: uid,
        status: JobStatus::Pending,
        job_type: JobType::ExportData,
        metadata: JobMetadata { datasource_view_id: Some(vid) },
        datasource_view_id: vid,
    };
    match store.create_job_with_datasource(job_dto, now) {
        Result::Ok(ids) => {
            proof {
                lemma_pending_same_after_upsert(m0, m1, acting, now, vid);
            }
            let rendered = uuid_string(ids.0);
            Ok((rendered, ids.0, rows))
        },
        Result::Err(_) => {
            proof {
                lemma_pending_same_after_upsert(m0, m1, acting, now, vid);
                assert(has_view(m0.views, vid));
            }
            Err(PipelineError::Conflict)
        },
    }
}

} // verus!
