//! Rows of the durable store: users, datasource views, jobs, the
//! job-to-view association, exported users and job error records, together
//! with the data-transfer values used to create or edit them.
//!
//! Identifiers are 128-bit values (rendered as UUID strings at the surface);
//! timestamps are seconds since the Unix epoch.

use vstd::prelude::*;

use crate::requests::DatasourceViewRequestMetadata;
use crate::types::{JobStatus, JobType, SupportedDatasource};

verus! {

/// An acting user, upserted idempotently by email.
#[derive(Debug)]
pub struct User {
    pub id: u128,
    pub created_at: i64,
    pub updated_at: i64,
    pub email: String,
    pub first_name: String,
    pub last_name: String,
    pub image_uri: String,
}

/// A named window onto an external data set.
#[derive(Debug)]
pub struct DatasourceView {
    pub id: u128,
    pub created_at: i64,
    pub updated_at: i64,
    pub user_id: u128,
    pub view_name: String,
    pub datasource: SupportedDatasource,
    pub description: String,
    pub metadata: DatasourceViewRequestMetadata,
}

/// Kind-specific context a job carries: at most the datasource view it
/// concerns.
#[derive(Clone, Copy, Debug, PartialEq, Eq)]
pub struct JobMetadata {
    pub datasource_view_id: Option<u128>,
}

/// A tracked unit of asynchronous work.
#[derive(Clone, Copy, Debug)]
pub struct Job {
    pub id: u128,
    pub created_at: i64,
    pub updated_at: i64,
    pub user_id: u128,
    pub status: JobStatus,
    pub job_type: JobType,
    pub metadata: JobMetadata,
}

/// Association row linking a job to the datasource view it operates on.
#[derive(Clone, Copy, Debug)]
pub struct DatasourceViewJob {
    pub id: u128,
    pub created_at: i64,
    pub updated_at: i64,
    pub job_id: u128,
    pub datasource_view_id: u128,
}

/// One directory account provisioned by an export job.
#[derive(Debug)]
pub struct ExportedUser {
    pub id: u128,
    pub created_at: i64,
    pub updated_at: i64,
    pub job_id: u128,
    pub first_name: String,
    pub last_name: String,
    pub personal_email: String,
    pub generated_email: String,
    pub exported_from: SupportedDatasource,
}

/// One structured error captured when a job reaches its terminal `Error`
/// state.
#[derive(Debug)]
pub struct JobErrorRecord {
    pub id: u128,
    pub created_at: i64,
    pub job_id: u128,
    pub payload: String,
}

/// Data to create (or idempotently fetch) a user.
#[derive(Debug)]
pub struct CreateUser {
    pub email: String,
    pub first_name: String,
    pub last_name: String,
    pub image_uri: String,
}

/// Data to edit a user in place.
#[derive(Debug)]
pub struct EditUser {
    pub email: String,
    pub first_name: String,
    pub last_name: String,
    pub image_uri: String,
}

/// Data to create a datasource view.
#[derive(Debug)]
pub struct CreateDatasourceView {
    pub user_id: u128,
    pub view_name: String,
    pub datasource: SupportedDatasource,
    pub description: String,
    pub metadata: DatasourceViewRequestMetadata,
}

/// Data to edit a datasource view in place.
#[derive(Debug)]
pub struct EditDatasourceView {
    pub view_name: String,
    pub datasource: SupportedDatasource,
    pub description: String,
    pub metadata: DatasourceViewRequestMetadata,
}

/// Data to create a bare job.
#[derive(Clone, Copy, Debug)]
pub struct CreateJob {
    pub user_id: u128,
    pub status: JobStatus,
    pub job_type: JobType,
    pub metadata: JobMetadata,
}

/// Data to create a job and its datasource view association in one logical
/// transaction: both rows exist afterwards, or neither does.
#[derive(Clone, Copy, Debug)]
pub struct CreateJobWithDatasource {
    pub user_id: u128,
    pub status: JobStatus,
    pub job_type: JobType,
    pub metadata: JobMetadata,
    pub datasource_view_id: u128,
}

/// Data to persist one exported user row.
#[derive(Debug)]
pub struct CreateExportedUser {
    pub job_id: u128,
    pub first_name: String,
    pub last_name: String,
    pub personal_email: String,
    pub generated_email: String,
    pub exported_from: SupportedDatasource,
}

/// The bare-job part of a job-with-association request.
pub open spec fn create_job_of(data: CreateJobWithDatasource) -> CreateJob {
    CreateJob {
        user_id: data.user_id,
        status: data.status,
        job_type: data.job_type,
        metadata: data.metadata,
    }
}

impl CreateJobWithDatasource {
    /// The bare-job part of this request.
    pub fn to_create_job(&self) -> (r: CreateJob)
        ensures
            r == create_job_of(*self),
    {
        CreateJob {
            user_id: self.user_id,
            status: self.status,
            job_type: self.job_type,
            metadata: self.metadata,
        }
    }
}

impl User {
    /// A field-for-field copy of the row.
    pub fn duplicate(&self) -> (r: User)
        ensures
            r == *self,
    {
        let r = User {
            id: self.id,
            created_at: self.created_at,
            updated_at: self.updated_at,
            email: self.email.clone(),
            first_name: self.first_name.clone(),
            last_name: self.last_name.clone(),
            image_uri: self.image_uri.clone(),
        };
        proof {
            assert(r == *self);
        }
        r
    }
}

impl ExportedUser {
    /// A field-for-field copy of the row.
    pub fn duplicate(&self) -> (r: ExportedUser)
        ensures
            r == *self,
    {
        let r = ExportedUser {
            id: self.id,
            created_at: self.created_at,
            updated_at: self.updated_at,
            job_id: self.job_id,
            first_name: self.first_name.clone(),
            last_name: self.last_name.clone(),
            personal_email: self.personal_email.clone(),
            generated_email: self.generated_email.clone(),
            exported_from: self.exported_from,
        };
        proof {
            assert(r == *self);
        }
        r
    }
}

} // verus!
