//! The job store: the durable record of users, datasource views, jobs, job
//! associations, exported users and job error records.
//!
//! The store enforces the two structural rules the pipeline depends on:
//! at most one `Pending` job exists per datasource view at any time (the
//! single-flight constraint, checked at job creation), and a job's status
//! moves only from `Pending` to a terminal `Complete` or `Error`, never out
//! of a terminal state.
//!
//! Row identifiers are assigned by the store from a strictly increasing
//! counter, so every identifier names at most one row forever.

use vstd::prelude::*;

use crate::entities::{
    create_job_of, CreateDatasourceView, CreateExportedUser, CreateJob, CreateJobWithDatasource,
    CreateUser, DatasourceView, DatasourceViewJob, EditDatasourceView, EditUser, ExportedUser,
    Job, JobErrorRecord, User,
};
use crate::errors::DbError;
use crate::types::{str_eq, JobStatus};

verus! {

/// Mathematical contents of the store: one sequence per table, in insertion
/// order, and the next identifier to assign.
pub ghost struct StoreModel {
    pub users: Seq<User>,
    pub views: Seq<DatasourceView>,
    pub jobs: Seq<Job>,
    pub view_jobs: Seq<DatasourceViewJob>,
    pub exported: Seq<ExportedUser>,
    pub job_errors: Seq<JobErrorRecord>,
    pub next_id: u128,
}

/// Identifiers of the user rows are distinct and below the allocation bound.
pub open spec fn user_rows_ok(rows: Seq<User>, bound: u128) -> bool {
    &&& forall|i: int| 0 <= i < rows.len() ==> (#[trigger] rows[i].id) < bound
    &&& forall|i: int, j: int|
        0 <= i < j < rows.len() ==> (#[trigger] rows[i].id) != (#[trigger] rows[j].id)
}

/// Identifiers of the view rows are distinct and below the allocation bound.
pub open spec fn view_rows_ok(rows: Seq<DatasourceView>, bound: u128) -> bool {
    &&& forall|i: int| 0 <= i < rows.len() ==> (#[trigger] rows[i].id) < bound
    &&& forall|i: int, j: int|
        0 <= i < j < rows.len() ==> (#[trigger] rows[i].id) != (#[trigger] rows[j].id)
}

/// Identifiers of the job rows are distinct and below the allocation bound.
pub open spec fn job_rows_ok(rows: Seq<Job>, bound: u128) -> bool {
    &&& forall|i: int| 0 <= i < rows.len() ==> (#[trigger] rows[i].id) < bound
    &&& forall|i: int, j: int|
        0 <= i < j < rows.len() ==> (#[trigger] rows[i].id) != (#[trigger] rows[j].id)
}

/// Identifiers of the association rows are distinct and below the bound.
pub open spec fn link_rows_ok(rows: Seq<DatasourceViewJob>, bound: u128) -> bool {
    &&& forall|i: int| 0 <= i < rows.len() ==> (#[trigger] rows[i].id) < bound
    &&& forall|i: int, j: int|
        0 <= i < j < rows.len() ==> (#[trigger] rows[i].id) != (#[trigger] rows[j].id)
}

/// Identifiers of the exported-user rows are distinct and below the bound.
pub open spec fn exported_rows_ok(rows: Seq<ExportedUser>, bound: u128) -> bool {
    &&& forall|i: int| 0 <= i < rows.len() ==> (#[trigger] rows[i].id) < bound
    &&& forall|i: int, j: int|
        0 <= i < j < rows.len() ==> (#[trigger] rows[i].id) != (#[trigger] rows[j].id)
}

/// Identifiers of the error records are distinct and below the bound.
pub open spec fn error_rows_ok(rows: Seq<JobErrorRecord>, bound: u128) -> bool {
    &&& forall|i: int| 0 <= i < rows.len() ==> (#[trigger] rows[i].id) < bound
    &&& forall|i: int, j: int|
        0 <= i < j < rows.len() ==> (#[trigger] rows[i].id) != (#[trigger] rows[j].id)
}

/// Some job row carries this identifier.
pub open spec fn has_job(jobs: Seq<Job>, id: u128) -> bool {
    exists|i: int| 0 <= i < jobs.len() && (#[trigger] jobs[i].id) == id
}

/// Some view row carries this identifier.
pub open spec fn has_view(views: Seq<DatasourceView>, id: u128) -> bool {
    exists|i: int| 0 <= i < views.len() && (#[trigger] views[i].id) == id
}

/// Some user row carries this email.
pub open spec fn has_user_email(users: Seq<User>, email: Seq<char>) -> bool {
    exists|i: int| 0 <= i < users.len() && (#[trigger] users[i].email)@ == email
}

/// The index of the job row with this identifier (unique when the store is
/// well formed and the row exists).
pub open spec fn job_idx(jobs: Seq<Job>, id: u128) -> int {
    choose|i: int| 0 <= i < jobs.len() && (#[trigger] jobs[i].id) == id
}

/// The index of the user row with this email (unique when the store is well
/// formed and the row exists).
pub open spec fn user_idx_by_email(users: Seq<User>, email: Seq<char>) -> int {
    choose|i: int| 0 <= i < users.len() && (#[trigger] users[i].email)@ == email
}

/// Association row `l` ties a pending job `j` to the view `vid`.
pub open spec fn pending_link(m: StoreModel, l: int, j: int, vid: u128) -> bool {
    &&& 0 <= l < m.view_jobs.len()
    &&& 0 <= j < m.jobs.len()
    &&& m.view_jobs[l].datasource_view_id == vid
    &&& m.jobs[j].id == m.view_jobs[l].job_id
    &&& m.jobs[j].status == JobStatus::Pending
}

/// A pending job currently owns the view `vid`.
pub open spec fn pending_job_exists(m: StoreModel, vid: u128) -> bool {
    exists|l: int, j: int| pending_link(m, l, j, vid)
}

/// The single-flight constraint: all pending jobs owning one view are the
/// same job row.
pub open spec fn single_pending(m: StoreModel) -> bool {
    forall|vid: u128, l1: int, j1: int, l2: int, j2: int|
        #[trigger] pending_link(m, l1, j1, vid) && #[trigger] pending_link(m, l2, j2, vid) ==> j1
            == j2
}

/// Well-formedness of the store: distinct fresh identifiers per table,
/// unique user emails, unique generated emails, association rows that point
/// at existing jobs and views, and the single-flight constraint.
pub open spec fn wf(m: StoreModel) -> bool {
    &&& user_rows_ok(m.users, m.next_id)
    &&& view_rows_ok(m.views, m.next_id)
    &&& job_rows_ok(m.jobs, m.next_id)
    &&& link_rows_ok(m.view_jobs, m.next_id)
    &&& exported_rows_ok(m.exported, m.next_id)
    &&& error_rows_ok(m.job_errors, m.next_id)
    &&& forall|i: int, j: int|
        0 <= i < j < m.users.len() ==> (#[trigger] m.users[i].email)@ != (
        #[trigger] m.users[j].email)@
    &&& forall|i: int, j: int|
        0 <= i < j < m.exported.len() ==> (#[trigger] m.exported[i].generated_email)@ != (
        #[trigger] m.exported[j].generated_email)@
    &&& forall|l: int|
        0 <= l < m.view_jobs.len() ==> has_job(m.jobs, (#[trigger] m.view_jobs[l]).job_id)
            && has_view(m.views, m.view_jobs[l].datasource_view_id)
    &&& single_pending(m)
}

/// The durable store. All operations are total over well-formed stores and
/// preserve well-formedness.
pub struct JobStore {
    users: Vec<User>,
    views: Vec<DatasourceView>,
    jobs: Vec<Job>,
    view_jobs: Vec<DatasourceViewJob>,
    exported: Vec<ExportedUser>,
    job_errors: Vec<JobErrorRecord>,
    next_id: u128,
}

impl View for JobStore {
    type V = StoreModel;

    closed spec fn view(&self) -> StoreModel {
        StoreModel {
            users: self.users@,
            views: self.views@,
            jobs: self.jobs@,
            view_jobs: self.view_jobs@,
            exported: self.exported@,
            job_errors: self.job_errors@,
            next_id: self.next_id,
        }
    }
}

/// The user row an upsert would insert.
pub open spec fn new_user_row(id: u128, data: CreateUser, now: i64) -> User {
    User {
        id,
        created_at: now,
        updated_at: now,
        email: data.email,
        first_name: data.first_name,
        last_name: data.last_name,
        image_uri: data.image_uri,
    }
}

/// The store after an idempotent user upsert: unchanged when a row with the
/// email exists, else the new row is appended.
pub open spec fn upsert_user_m(m: StoreModel, data: CreateUser, now: i64) -> StoreModel {
    if has_user_email(m.users, data.email@) {
        m
    } else {
        StoreModel {
            users: m.users.push(new_user_row(m.next_id, data, now)),
            next_id: (m.next_id + 1) as u128,
            ..m
        }
    }
}

/// The identifier an idempotent user upsert returns: the existing row's id
/// on an email match, else the freshly assigned id.
pub open spec fn upsert_user_id(m: StoreModel, data: CreateUser) -> u128 {
    if has_user_email(m.users, data.email@) {
        m.users[user_idx_by_email(m.users, data.email@)].id
    } else {
        m.next_id
    }
}

impl JobStore {
    /// An empty store.
    pub fn new() -> (r: JobStore)
        ensures
            wf(r@),
            r@.users == Seq::<User>::empty(),
            r@.views == Seq::<DatasourceView>::empty(),
            r@.jobs == Seq::<Job>::empty(),
            r@.view_jobs == Seq::<DatasourceViewJob>::empty(),
            r@.exported == Seq::<ExportedUser>::empty(),
            r@.job_errors == Seq::<JobErrorRecord>::empty(),
            r@.next_id == 1,
    {
        let r = JobStore {
            users: Vec::new(),
            views: Vec::new(),
            jobs: Vec::new(),
            view_jobs: Vec::new(),
            exported: Vec::new(),
            job_errors: Vec::new(),
            next_id: 1,
        };
        proof {
            assert(r@.users =~= Seq::<User>::empty());
            assert(r@.views =~= Seq::<DatasourceView>::empty());
            assert(r@.jobs =~= Seq::<Job>::empty());
            assert(r@.view_jobs =~= Seq::<DatasourceViewJob>::empty());
            assert(r@.exported =~= Seq::<ExportedUser>::empty());
            assert(r@.job_errors =~= Seq::<JobErrorRecord>::empty());
        }
        r
    }

    /// Idempotent upsert keyed on email: returns the existing row's id on a
    /// conflict instead of erroring, else inserts and returns the new id.
    pub fn create_or_fetch_user(&mut self, data: CreateUser, now: i64) -> (r: u128)
        requires
            wf(old(self)@),
            old(self)@.next_id < u128::MAX,
        ensures
            wf(final(self)@),
            final(self)@ == upsert_user_m(old(self)@, data, now),
            r == upsert_user_id(old(self)@, data),
    {
        let n = self.users.len();
        let mut i: usize = 0;
        while i < n
            invariant
                *self == *old(self),
                wf(self@),
                n == self.users.len(),
                i <= n,
                forall|j: int| 0 <= j < i ==> (#[trigger] self.users[j].email)@ != data.email@,
            decreases n - i,
        {
            if self.users[i].email == data.email {
                assert(has_user_email(self@.users, data.email@));
                proof {
                    let k = user_idx_by_email(self@.users, data.email@);
                    assert(0 <= k < self@.users.len() && self@.users[k].email@ == data.email@);
                    assert(k == i as int);
                }
                return self.users[i].id;
            }
            i += 1;
        }
        assert(!has_user_email(self@.users, data.email@));
        let id = self.next_id;
        let ghost m0 = self@;
        let row = User {
            id,
            created_at: now,
            updated_at: now,
            email: data.email,
            first_name: data.first_name,
            last_name: data.last_name,
            image_uri: data.image_uri,
        };
        self.users.push(row);
        self.next_id = self.next_id + 1;
        proof {
            assert(self@.users =~= m0.users.push(new_user_row(m0.next_id, data, now)));
            assert(self@ == upsert_user_m(m0, data, now));
            assert forall|l: int|
                0 <= l < self@.view_jobs.len() implies has_job(
                self@.jobs,
                (#[trigger] self@.view_jobs[l]).job_id,
            ) && has_view(self@.views, self@.view_jobs[l].datasource_view_id) by {
                assert(has_job(m0.jobs, m0.view_jobs[l].job_id));
                assert(has_view(m0.views, m0.view_jobs[l].datasource_view_id));
            }
            assert forall|vid: u128, l1: int, j1: int, l2: int, j2: int| #[trigger]
                pending_link(self@, l1, j1, vid) && #[trigger] pending_link(
                self@,
                l2,
                j2,
                vid,
            ) implies j1 == j2 by {
                assert(pending_link(m0, l1, j1, vid));
                assert(pending_link(m0, l2, j2, vid));
            }
            assert(wf(self@));
        }
        id
    }

    /// The user row with this identifier, if any.
    pub fn fetch_user(&self, user_id: u128) -> (r: Option<User>)
        requires
            wf(self@),
        ensures
            match r {
                Some(u) => exists|i: int|
                    0 <= i < self@.users.len() && (#[trigger] self@.users[i]) == u && u.id
                        == user_id,
                None => forall|i: int|
                    0 <= i < self@.users.len() ==> (#[trigger] self@.users[i].id) != user_id,
            },
    {
        let n = self.users.len();
        let mut i: usize = 0;
        while i < n
            invariant
                n == self.users.len(),
                i <= n,
                forall|j: int| 0 <= j < i ==> (#[trigger] self.users[j].id) != user_id,
            decreases n - i,
        {
            if self.users[i].id == user_id {
                let d = self.users[i].duplicate();
                proof {
                    assert(0 <= i && (i as int) < self@.users.len() && self@.users[i as int] == d
                        && d.id == user_id);
                }
                return Some(d);
            }
            i += 1;
        }
        None
    }
}


/// The view row a create inserts.
pub open spec fn new_view_row(id: u128, data: CreateDatasourceView, now: i64) -> DatasourceView {
    DatasourceView {
        id,
        created_at: now,
        updated_at: now,
        user_id: data.user_id,
        view_name: data.view_name,
        datasource: data.datasource,
        description: data.description,
        metadata: data.metadata,
    }
}

/// The store after creating a datasource view.
pub open spec fn create_view_m(m: StoreModel, data: CreateDatasourceView, now: i64) -> StoreModel {
    StoreModel {
        views: m.views.push(new_view_row(m.next_id, data, now)),
        next_id: (m.next_id + 1) as u128,
        ..m
    }
}

/// The job row a create inserts.
pub open spec fn new_job_row(id: u128, data: CreateJob, now: i64) -> Job {
    Job {
        id,
        created_at: now,
        updated_at: now,
        user_id: data.user_id,
        status: data.status,
        job_type: data.job_type,
        metadata: data.metadata,
    }
}

/// The store after creating a bare job.
pub open spec fn create_job_m(m: StoreModel, data: CreateJob, now: i64) -> StoreModel {
    StoreModel {
        jobs: m.jobs.push(new_job_row(m.next_id, data, now)),
        next_id: (m.next_id + 1) as u128,
        ..m
    }
}

/// Some association row ties this job to this view.
pub open spec fn linked_any(links: Seq<DatasourceViewJob>, job_id: u128, vid: u128) -> bool {
    exists|l: int|
        0 <= l < links.len() && (#[trigger] links[l]).job_id == job_id
            && links[l].datasource_view_id == vid
}

/// The jobs associated to a view, in job-table order.
pub open spec fn jobs_for_view(m: StoreModel, vid: u128) -> Seq<Job> {
    m.jobs.filter(|j: Job| linked_any(m.view_jobs, j.id, vid))
}

impl JobStore {
    /// Creates a datasource view and returns its identifier.
    pub fn create_datasource_view(&mut self, data: CreateDatasourceView, now: i64) -> (r: u128)
        requires
            wf(old(self)@),
            old(self)@.next_id < u128::MAX,
        ensures
            wf(final(self)@),
            final(self)@ == create_view_m(old(self)@, data, now),
            r == old(self)@.next_id,
    {
        let ghost m0 = self@;
        let id = self.next_id;
        let row = DatasourceView {
            id,
            created_at: now,
            updated_at: now,
            user_id: data.user_id,
            view_name: data.view_name,
            datasource: data.datasource,
            description: data.description,
            metadata: data.metadata,
        };
        self.views.push(row);
        self.next_id = self.next_id + 1;
        proof {
            assert(self@.views =~= m0.views.push(new_view_row(m0.next_id, data, now)));
            assert(self@ == create_view_m(m0, data, now));
            assert forall|l: int|
                0 <= l < self@.view_jobs.len() implies has_job(
                self@.jobs,
                (#[trigger] self@.view_jobs[l]).job_id,
            ) && has_view(self@.views, self@.view_jobs[l].datasource_view_id) by {
                assert(has_job(m0.jobs, m0.view_jobs[l].job_id));
                let w = choose|i: int|
                    0 <= i < m0.views.len() && (#[trigger] m0.views[i].id)
                        == m0.view_jobs[l].datasource_view_id;
                assert(has_view(m0.views, m0.view_jobs[l].datasource_view_id));
                assert(self@.views[w].id == m0.view_jobs[l].datasource_view_id);
            }
            assert forall|vid: u128, l1: int, j1: int, l2: int, j2: int| #[trigger]
                pending_link(self@, l1, j1, vid) && #[trigger] pending_link(
                self@,
                l2,
                j2,
                vid,
            ) implies j1 == j2 by {
                assert(pending_link(m0, l1, j1, vid));
                assert(pending_link(m0, l2, j2, vid));
            }
            assert(wf(self@));
        }
        id
    }

    /// The datasource view row with this identifier, if any.
    pub fn fetch_datasource_view(&self, view_id: u128) -> (r: Option<&DatasourceView>)
        ensures
            match r {
                Some(v) => exists|i: int|
                    0 <= i < self@.views.len() && (#[trigger] self@.views[i]) == *v && v.id
                        == view_id,
                None => forall|i: int|
                    0 <= i < self@.views.len() ==> (#[trigger] self@.views[i].id) != view_id,
            },
            r is Some <==> has_view(self@.views, view_id),
    {
        let n = self.views.len();
        let mut i: usize = 0;
        while i < n
            invariant
                n == self.views.len(),
                i <= n,
                forall|j: int| 0 <= j < i ==> (#[trigger] self.views[j].id) != view_id,
            decreases n - i,
        {
            if self.views[i].id == view_id {
                proof {
                    assert(0 <= i && (i as int) < self@.views.len() && self@.views[i as int].id
                        == view_id);
                }
                return Some(&self.views[i]);
            }
            i += 1;
        }
        None
    }

    /// All datasource view rows, in insertion order.
    pub fn fetch_datasource_views(&self) -> (r: &Vec<DatasourceView>)
        ensures
            r@ == self@.views,
    {
        &self.views
    }

    /// Creates a bare job row (no datasource view association) and returns
    /// its identifier.
    pub fn create_job(&mut self, data: CreateJob, now: i64) -> (r: u128)
        requires
            wf(old(self)@),
            old(self)@.next_id < u128::MAX,
        ensures
            wf(final(self)@),
            final(self)@ == create_job_m(old(self)@, data, now),
            r == old(self)@.next_id,
    {
        let ghost m0 = self@;
        let id = self.next_id;
        let row = Job {
            id,
            created_at: now,
            updated_at: now,
            user_id: data.user_id,
            status: data.status,
            job_type: data.job_type,
            metadata: data.metadata,
        };
        self.jobs.push(row);
        self.next_id = self.next_id + 1;
        proof {
            assert(self@.jobs =~= m0.jobs.push(new_job_row(m0.next_id, data, now)));
            assert(self@ == create_job_m(m0, data, now));
            assert forall|l: int|
                0 <= l < self@.view_jobs.len() implies has_job(
                self@.jobs,
                (#[trigger] self@.view_jobs[l]).job_id,
            ) && has_view(self@.views, self@.view_jobs[l].datasource_view_id) by {
                let w = choose|i: int|
                    0 <= i < m0.jobs.len() && (#[trigger] m0.jobs[i].id) == m0.view_jobs[l].job_id;
                assert(has_job(m0.jobs, m0.view_jobs[l].job_id));
                assert(self@.jobs[w].id == m0.view_jobs[l].job_id);
                assert(has_view(m0.views, m0.view_jobs[l].datasource_view_id));
            }
            assert forall|vid: u128, l1: int, j1: int, l2: int, j2: int| #[trigger]
                pending_link(self@, l1, j1, vid) && #[trigger] pending_link(
                self@,
                l2,
                j2,
                vid,
            ) implies j1 == j2 by {
                assert(self@.jobs.subrange(0, m0.jobs.len() as int) =~= m0.jobs);
                lemma_pending_link_after_job_push(m0, self@, l1, j1, vid);
                lemma_pending_link_after_job_push(m0, self@, l2, j2, vid);
            }
            assert(wf(self@));
        }
        id
    }

    /// Whether some association row ties this job to this view.
    fn is_linked(&self, job_id: u128, vid: u128) -> (r: bool)
        ensures
            r == linked_any(self@.view_jobs, job_id, vid),
    {
        let n = self.view_jobs.len();
        let mut i: usize = 0;
        while i < n
            invariant
                n == self.view_jobs.len(),
                i <= n,
                forall|l: int|
                    0 <= l < i ==> !((#[trigger] self.view_jobs[l]).job_id == job_id
                        && self.view_jobs[l].datasource_view_id == vid),
            decreases n - i,
        {
            let link = self.view_jobs[i];
            if link.job_id == job_id && link.datasource_view_id == vid {
                proof {
                    assert(0 <= i && (i as int) < self@.view_jobs.len()
                        && self@.view_jobs[i as int].job_id == job_id
                        && self@.view_jobs[i as int].datasource_view_id == vid);
                }
                return true;
            }
            i += 1;
        }
        false
    }

    /// Whether a pending job currently owns the view: the single-flight
    /// pre-check.
    pub fn has_pending_job_for_view(&self, vid: u128) -> (r: bool)
        ensures
            r == pending_job_exists(self@, vid),
    {
        let n = self.jobs.len();
        let mut i: usize = 0;
        while i < n
            invariant
                n == self.jobs.len(),
                i <= n,
                forall|j: int, l: int| 0 <= j < i ==> !pending_link(self@, l, j, vid),
            decreases n - i,
        {
            let job = self.jobs[i];
            if matches!(job.status, JobStatus::Pending) {
                if self.is_linked(job.id, vid) {
                    proof {
                        let l = choose|l: int|
                            0 <= l < self@.view_jobs.len() && (#[trigger] self@.view_jobs[l]).job_id
                                == job.id && self@.view_jobs[l].datasource_view_id == vid;
                        assert(pending_link(self@, l, i as int, vid));
                    }
                    return true;
                }
            }
            proof {
                assert forall|l: int| !pending_link(self@, l, i as int, vid) by {
                    if pending_link(self@, l, i as int, vid) {
                        assert(linked_any(self@.view_jobs, self@.jobs[i as int].id, vid));
                    }
                }
            }
            i += 1;
        }
        false
    }

    /// The job row with this identifier, if any.
    pub fn fetch_job(&self, job_id: u128) -> (r: Option<Job>)
        ensures
            match r {
                Some(j) => exists|i: int|
                    0 <= i < self@.jobs.len() && (#[trigger] self@.jobs[i]) == j && j.id == job_id,
                None => forall|i: int|
                    0 <= i < self@.jobs.len() ==> (#[trigger] self@.jobs[i].id) != job_id,
            },
            r is Some <==> has_job(self@.jobs, job_id),
    {
        let n = self.jobs.len();
        let mut i: usize = 0;
        while i < n
            invariant
                n == self.jobs.len(),
                i <= n,
                forall|j: int| 0 <= j < i ==> (#[trigger] self.jobs[j].id) != job_id,
            decreases n - i,
        {
            if self.jobs[i].id == job_id {
                proof {
                    assert(0 <= i && (i as int) < self@.jobs.len() && self@.jobs[i as int].id
                        == job_id);
                }
                return Some(self.jobs[i]);
            }
            i += 1;
        }
        None
    }

    /// All job rows, in insertion order.
    pub fn fetch_jobs(&self) -> (r: &Vec<Job>)
        ensures
            r@ == self@.jobs,
    {
        &self.jobs
    }

    /// The jobs associated to a datasource view, in job-table order; the
    /// job runner checks these for an existing pending job.
    pub fn fetch_datasource_view_jobs(&self, vid: u128) -> (r: Vec<Job>)
        ensures
            r@ == jobs_for_view(self@, vid),
    {
        broadcast use vstd::seq_lib::group_seq_properties;

        let ghost pred = |j: Job| linked_any(self@.view_jobs, j.id, vid);
        let n = self.jobs.len();
        let mut out: Vec<Job> = Vec::new();
        let mut i: usize = 0;
        proof {
            assert(self@.jobs.take(0int) =~= Seq::<Job>::empty());
            assert(Seq::<Job>::empty().filter(pred) =~= Seq::<Job>::empty()) by {
                reveal(Seq::filter);
            }
            assert(out@ =~= self@.jobs.take(0int).filter(pred));
        }
        while i < n
            invariant
                n == self.jobs.len(),
                i <= n,
                pred == (|j: Job| linked_any(self@.view_jobs, j.id, vid)),
                out@ == self@.jobs.take(i as int).filter(pred),
            decreases n - i,
        {
            let job = self.jobs[i];
            proof {
                assert(self@.jobs.take(i as int + 1).drop_last() =~= self@.jobs.take(i as int));
                assert(self@.jobs.take(i as int + 1).last() == job);
                Seq::lemma_filter_push(self@.jobs.take(i as int), job, pred);
                assert(self@.jobs.take(i as int).push(job) =~= self@.jobs.take(i as int + 1));
            }
            if self.is_linked(job.id, vid) {
                out.push(job);
            } else {
                proof {
                    assert(!pred(job));
                }
            }
            i += 1;
        }
        proof {
            assert(self@.jobs.take(n as int) =~= self@.jobs);
        }
        out
    }
}

/// After a job row with the fresh identifier is appended, any pending
/// association pair referenced an old job row: association rows only
/// reference job identifiers already present.
proof fn lemma_pending_link_after_job_push(m0: StoreModel, m1: StoreModel, l: int, j: int, vid: u128)
    requires
        wf(m0),
        m1.view_jobs == m0.view_jobs,
        m1.jobs.len() == m0.jobs.len() + 1,
        m1.jobs.subrange(0, m0.jobs.len() as int) == m0.jobs,
        m1.jobs.last().id == m0.next_id,
        pending_link(m1, l, j, vid),
    ensures
        j < m0.jobs.len() && pending_link(m0, l, j, vid),
{
    assert(forall|i: int|
        0 <= i < m0.jobs.len() ==> m1.jobs[i] == #[trigger] m0.jobs[i]) by {
        assert(forall|i: int|
            0 <= i < m0.jobs.len() ==> m1.jobs.subrange(0, m0.jobs.len() as int)[i]
                == #[trigger] m1.jobs[i]);
    }
    if j == m0.jobs.len() as int {
        let lid = m0.view_jobs[l].job_id;
        assert(has_job(m0.jobs, lid));
        let w = choose|i: int| 0 <= i < m0.jobs.len() && (#[trigger] m0.jobs[i].id) == lid;
        assert(m0.jobs[w].id < m0.next_id);
        assert(false);
    }
}


/// Some job row carries this identifier and is still pending.
pub open spec fn job_is_pending(jobs: Seq<Job>, id: u128) -> bool {
    exists|i: int|
        0 <= i < jobs.len() && (#[trigger] jobs[i]).id == id && jobs[i].status == JobStatus::Pending
}

/// The job table after the row with this identifier, if pending, moves to
/// `Complete`; terminal rows and all other rows are untouched.
pub open spec fn mark_complete_jobs(jobs: Seq<Job>, id: u128, now: i64) -> Seq<Job> {
    Seq::new(
        jobs.len(),
        |i: int|
            if jobs[i].id == id && jobs[i].status == JobStatus::Pending {
                Job { status: JobStatus::Complete, updated_at: now, ..jobs[i] }
            } else {
                jobs[i]
            },
    )
}

/// The store after marking a job complete.
pub open spec fn mark_complete_m(m: StoreModel, id: u128, now: i64) -> StoreModel {
    StoreModel { jobs: mark_complete_jobs(m.jobs, id, now), ..m }
}

/// The job table after the row with this identifier, if pending, moves to
/// `Error`.
pub open spec fn mark_errored_jobs(jobs: Seq<Job>, id: u128, now: i64) -> Seq<Job> {
    Seq::new(
        jobs.len(),
        |i: int|
            if jobs[i].id == id && jobs[i].status == JobStatus::Pending {
                Job { status: JobStatus::Error, updated_at: now, ..jobs[i] }
            } else {
                jobs[i]
            },
    )
}

/// The error record inserted alongside an `Error` transition.
pub open spec fn new_error_row(id: u128, job_id: u128, payload: String, now: i64) -> JobErrorRecord {
    JobErrorRecord { id, created_at: now, job_id, payload }
}

/// The store after marking a job errored: the status transition plus one
/// error record, or no change at all when the job is not pending.
pub open spec fn mark_errored_m(m: StoreModel, id: u128, payload: String, now: i64) -> StoreModel {
    if job_is_pending(m.jobs, id) {
        StoreModel {
            jobs: mark_errored_jobs(m.jobs, id, now),
            job_errors: m.job_errors.push(new_error_row(m.next_id, id, payload, now)),
            next_id: (m.next_id + 1) as u128,
            ..m
        }
    } else {
        m
    }
}

/// The association row created next to a job-with-view request.
pub open spec fn new_link_row(id: u128, job_id: u128, vid: u128, now: i64) -> DatasourceViewJob {
    DatasourceViewJob { id, created_at: now, updated_at: now, job_id, datasource_view_id: vid }
}

/// The store after atomically creating a job and its view association.
pub open spec fn create_job_with_view_m(
    m: StoreModel,
    data: CreateJobWithDatasource,
    now: i64,
) -> StoreModel {
    StoreModel {
        jobs: m.jobs.push(new_job_row(m.next_id, create_job_of(data), now)),
        view_jobs: m.view_jobs.push(
            new_link_row((m.next_id + 1) as u128, m.next_id, data.datasource_view_id, now),
        ),
        next_id: (m.next_id + 2) as u128,
        ..m
    }
}

/// After a status-only rewrite of the job table (identifiers and positions
/// unchanged, pending set shrinking), every structural rule carries over.
proof fn lemma_wf_after_status_shrink(m0: StoreModel, m1: StoreModel)
    requires
        wf(m0),
        m1.users == m0.users,
        m1.views == m0.views,
        m1.view_jobs == m0.view_jobs,
        m1.exported == m0.exported,
        m0.next_id <= m1.next_id,
        error_rows_ok(m1.job_errors, m1.next_id),
        m1.jobs.len() == m0.jobs.len(),
        forall|i: int|
            0 <= i < m0.jobs.len() ==> (#[trigger] m1.jobs[i]).id == m0.jobs[i].id,
        forall|i: int|
            0 <= i < m0.jobs.len() && (#[trigger] m1.jobs[i]).status == JobStatus::Pending
                ==> m0.jobs[i].status == JobStatus::Pending,
    ensures
        wf(m1),
{
    assert forall|l: int|
        0 <= l < m1.view_jobs.len() implies has_job(
        m1.jobs,
        (#[trigger] m1.view_jobs[l]).job_id,
    ) && has_view(m1.views, m1.view_jobs[l].datasource_view_id) by {
        assert(has_job(m0.jobs, m0.view_jobs[l].job_id));
        let w = choose|i: int|
            0 <= i < m0.jobs.len() && (#[trigger] m0.jobs[i].id) == m0.view_jobs[l].job_id;
        assert(m1.jobs[w].id == m0.view_jobs[l].job_id);
        assert(has_view(m0.views, m0.view_jobs[l].datasource_view_id));
    }
    assert forall|vid: u128, l1: int, j1: int, l2: int, j2: int| #[trigger]
        pending_link(m1, l1, j1, vid) && #[trigger] pending_link(m1, l2, j2, vid) implies j1
        == j2 by {
        assert(pending_link(m0, l1, j1, vid));
        assert(pending_link(m0, l2, j2, vid));
    }
}

impl JobStore {
    /// Terminal transition to `Complete`. Succeeds (returns true) exactly
    /// when the job exists and is still pending; a job already in a terminal
    /// state is left untouched.
    pub fn mark_job_complete(&mut self, job_id: u128, now: i64) -> (r: bool)
        requires
            wf(old(self)@),
        ensures
            wf(final(self)@),
            final(self)@ == mark_complete_m(old(self)@, job_id, now),
            r == job_is_pending(old(self)@.jobs, job_id),
    {
        let ghost m0 = self@;
        let n = self.jobs.len();
        let mut i: usize = 0;
        while i < n
            invariant
                *self == *old(self),
                m0 == self@,
                wf(self@),
                n == self.jobs.len(),
                i <= n,
                forall|j: int| 0 <= j < i ==> (#[trigger] self.jobs[j].id) != job_id,
            decreases n - i,
        {
            let job = self.jobs[i];
            if job.id == job_id {
                if matches!(job.status, JobStatus::Pending) {
                    let row = Job { status: JobStatus::Complete, updated_at: now, ..job };
                    self.jobs.set(i, row);
                    proof {
                        assert(0 <= i && (i as int) < m0.jobs.len() && m0.jobs[i as int].id
                            == job_id && m0.jobs[i as int].status == JobStatus::Pending);
                        assert(job_is_pending(m0.jobs, job_id));
                        assert forall|k: int| 0 <= k < m0.jobs.len() implies self@.jobs[k]
                            == mark_complete_jobs(m0.jobs, job_id, now)[k] by {
                            if k != i as int {
                                assert(m0.jobs[k].id != job_id);
                            }
                        }
                        assert(self@.jobs =~= mark_complete_jobs(m0.jobs, job_id, now));
                        assert(self@ == mark_complete_m(m0, job_id, now));
                        lemma_wf_after_status_shrink(m0, self@);
                    }
                    return true;
                } else {
                    proof {
                        assert forall|k: int| 0 <= k < m0.jobs.len() implies self@.jobs[k]
                            == mark_complete_jobs(m0.jobs, job_id, now)[k] by {
                            if k != i as int {
                                assert(m0.jobs[k].id != job_id);
                            }
                        }
                        assert(self@.jobs =~= mark_complete_jobs(m0.jobs, job_id, now));
                        assert(self@ == mark_complete_m(m0, job_id, now));
                        assert forall|k: int|
                            !(0 <= k < m0.jobs.len() && (#[trigger] m0.jobs[k]).id == job_id
                                && m0.jobs[k].status == JobStatus::Pending) by {
                            if 0 <= k < m0.jobs.len() && m0.jobs[k].id == job_id {
                                if k != i as int {
                                    assert(m0.jobs[k].id != job_id);
                                }
                            }
                        }
                    }
                    return false;
                }
            }
            i += 1;
        }
        proof {
            assert forall|k: int| 0 <= k < m0.jobs.len() implies self@.jobs[k]
                == mark_complete_jobs(m0.jobs, job_id, now)[k] by {
                assert(m0.jobs[k].id != job_id);
            }
            assert(self@.jobs =~= mark_complete_jobs(m0.jobs, job_id, now));
            assert(self@ == mark_complete_m(m0, job_id, now));
        }
        false
    }

    /// Terminal transition to `Error`, recording one structured error
    /// payload. Succeeds (returns true) exactly when the job exists and is
    /// still pending; a job already in a terminal state is left untouched
    /// and no error record is added.
    pub fn mark_job_errored(&mut self, job_id: u128, payload: String, now: i64) -> (r: bool)
        requires
            wf(old(self)@),
            old(self)@.next_id < u128::MAX,
        ensures
            wf(final(self)@),
            final(self)@ == mark_errored_m(old(self)@, job_id, payload, now),
            r == job_is_pending(old(self)@.jobs, job_id),
    {
        let ghost m0 = self@;
        let n = self.jobs.len();
        let mut i: usize = 0;
        while i < n
            invariant
                *self == *old(self),
                m0 == self@,
                m0.next_id < u128::MAX,
                wf(self@),
                n == self.jobs.len(),
                i <= n,
                forall|j: int| 0 <= j < i ==> (#[trigger] self.jobs[j].id) != job_id,
            decreases n - i,
        {
            let job = self.jobs[i];
            if job.id == job_id {
                if matches!(job.status, JobStatus::Pending) {
                    let row = Job { status: JobStatus::Error, updated_at: now, ..job };
                    self.jobs.set(i, row);
                    let rec = JobErrorRecord {
                        id: self.next_id,
                        created_at: now,
                        job_id,
                        payload,
                    };
                    let ghost payload_snap = rec.payload;
                    self.job_errors.push(rec);
                    self.next_id = self.next_id + 1;
                    proof {
                        assert(0 <= i && (i as int) < m0.jobs.len() && m0.jobs[i as int].id
                            == job_id && m0.jobs[i as int].status == JobStatus::Pending);
                        assert(job_is_pending(m0.jobs, job_id));
                        assert forall|k: int| 0 <= k < m0.jobs.len() implies self@.jobs[k]
                            == mark_errored_jobs(m0.jobs, job_id, now)[k] by {
                            if k != i as int {
                                assert(m0.jobs[k].id != job_id);
                            }
                        }
                        assert(self@.jobs =~= mark_errored_jobs(m0.jobs, job_id, now));
                        assert(self@.job_errors =~= m0.job_errors.push(
                            new_error_row(m0.next_id, job_id, payload_snap, now),
                        ));
                        assert(self@ == mark_errored_m(m0, job_id, payload_snap, now));
                        lemma_wf_after_status_shrink(m0, self@);
                    }
                    return true;
                } else {
                    proof {
                        assert forall|k: int|
                            !(0 <= k < m0.jobs.len() && (#[trigger] m0.jobs[k]).id == job_id
                                && m0.jobs[k].status == JobStatus::Pending) by {
                            if 0 <= k < m0.jobs.len() && m0.jobs[k].id == job_id {
                                if k != i as int {
                                    assert(m0.jobs[k].id != job_id);
                                }
                            }
                        }
                        assert(!job_is_pending(m0.jobs, job_id));
                        assert(self@ == mark_errored_m(m0, job_id, payload, now));
                    }
                    return false;
                }
            }
            i += 1;
        }
        proof {
            assert forall|k: int|
                !(0 <= k < m0.jobs.len() && (#[trigger] m0.jobs[k]).id == job_id
                    && m0.jobs[k].status == JobStatus::Pending) by {
                if 0 <= k < m0.jobs.len() && m0.jobs[k].id == job_id {
                    assert(m0.jobs[k].id != job_id);
                }
            }
            assert(!job_is_pending(m0.jobs, job_id));
            assert(self@ == mark_errored_m(m0, job_id, payload, now));
        }
        false
    }

    /// Creates a job and its datasource view association in one logical
    /// transaction: both rows exist afterwards, or neither does. Enforces
    /// the single-flight constraint: a pending job request for a view that a
    /// pending job already owns is refused outright.
    pub fn create_job_with_datasource(&mut self, data: CreateJobWithDatasource, now: i64) -> (r:
        Result<(u128, u128), DbError>)
        requires
            wf(old(self)@),
            old(self)@.next_id < u128::MAX - 1,
        ensures
            wf(final(self)@),
            (match r {
                Result::Err(e) => final(self)@ == old(self)@ && ((e == DbError::ViewNotFound
                    && !has_view(old(self)@.views, data.datasource_view_id)) || (e
                    == DbError::PendingJobExists && has_view(
                    old(self)@.views,
                    data.datasource_view_id,
                ) && data.status == JobStatus::Pending && pending_job_exists(
                    old(self)@,
                    data.datasource_view_id,
                ))),
                Result::Ok(ids) => has_view(old(self)@.views, data.datasource_view_id) && !(
                data.status == JobStatus::Pending && pending_job_exists(
                    old(self)@,
                    data.datasource_view_id,
                )) && ids.0 == old(self)@.next_id && ids.1 == (old(self)@.next_id + 1) as u128
                    && final(self)@ == create_job_with_view_m(old(self)@, data, now),
            }),
    {
        let ghost m0 = self@;
        let vid = data.datasource_view_id;
        if self.fetch_datasource_view(vid).is_none() {
            return Err(DbError::ViewNotFound);
        }
        if matches!(data.status, JobStatus::Pending) && self.has_pending_job_for_view(vid) {
            return Err(DbError::PendingJobExists);
        }
        let job_id = self.next_id;
        let link_id = self.next_id + 1;
        let job_row = Job {
            id: job_id,
            created_at: now,
            updated_at: now,
            user_id: data.user_id,
            status: data.status,
            job_type: data.job_type,
            metadata: data.metadata,
        };
        let link_row = DatasourceViewJob {
            id: link_id,
            created_at: now,
            updated_at: now,
            job_id,
            datasource_view_id: vid,
        };
        self.jobs.push(job_row);
        self.view_jobs.push(link_row);
        self.next_id = self.next_id + 2;
        proof {
            let m1 = self@;
            assert(m1.jobs =~= m0.jobs.push(new_job_row(m0.next_id, create_job_of(data), now)));
            assert(m1.view_jobs =~= m0.view_jobs.push(
                new_link_row((m0.next_id + 1) as u128, m0.next_id, vid, now),
            ));
            assert(m1 == create_job_with_view_m(m0, data, now));
            let oldjobs = m0.jobs.len() as int;
            let oldlinks = m0.view_jobs.len() as int;
            assert forall|l: int|
                0 <= l < m1.view_jobs.len() implies has_job(
                m1.jobs,
                (#[trigger] m1.view_jobs[l]).job_id,
            ) && has_view(m1.views, m1.view_jobs[l].datasource_view_id) by {
                if l < oldlinks {
                    assert(has_job(m0.jobs, m0.view_jobs[l].job_id));
                    let w = choose|i: int|
                        0 <= i < m0.jobs.len() && (#[trigger] m0.jobs[i].id)
                            == m0.view_jobs[l].job_id;
                    assert(m1.jobs[w].id == m1.view_jobs[l].job_id);
                    assert(has_view(m0.views, m0.view_jobs[l].datasource_view_id));
                } else {
                    assert(m1.jobs[oldjobs].id == m1.view_jobs[l].job_id);
                    assert(has_view(m0.views, vid));
                }
            }
            assert forall|vid2: u128, l1: int, j1: int, l2: int, j2: int| #[trigger]
                pending_link(m1, l1, j1, vid2) && #[trigger] pending_link(
                m1,
                l2,
                j2,
                vid2,
            ) implies j1 == j2 by {
                lemma_pending_pair_cases(m0, m1, data, now, l1, j1, vid2);
                lemma_pending_pair_cases(m0, m1, data, now, l2, j2, vid2);
                if l1 < oldlinks && j1 < oldjobs && l2 < oldlinks && j2 < oldjobs {
                    assert(pending_link(m0, l1, j1, vid2));
                    assert(pending_link(m0, l2, j2, vid2));
                } else if l1 == oldlinks && j1 == oldjobs && l2 < oldlinks && j2 < oldjobs {
                    assert(pending_link(m0, l2, j2, vid));
                    assert(false);
                } else if l2 == oldlinks && j2 == oldjobs && l1 < oldlinks && j1 < oldjobs {
                    assert(pending_link(m0, l1, j1, vid));
                    assert(false);
                }
            }
            assert(wf(m1));
        }
        Ok((job_id, link_id))
    }
}

/// Case analysis of a pending association pair after a job-with-view
/// creation: either both indices are old and the pair was pending before,
/// or both are the freshly created pair, which requires the new job to be
/// pending and names the new view.
proof fn lemma_pending_pair_cases(
    m0: StoreModel,
    m1: StoreModel,
    data: CreateJobWithDatasource,
    now: i64,
    l: int,
    j: int,
    vid2: u128,
)
    requires
        wf(m0),
        m0.next_id < u128::MAX - 1,
        m1 == create_job_with_view_m(m0, data, now),
        data.status == JobStatus::Pending ==> !pending_job_exists(m0, data.datasource_view_id),
        pending_link(m1, l, j, vid2),
    ensures
        (l < m0.view_jobs.len() && j < m0.jobs.len() && pending_link(m0, l, j, vid2)) || (l
            == m0.view_jobs.len() && j == m0.jobs.len() && vid2 == data.datasource_view_id
            && data.status == JobStatus::Pending),
{
    let oldjobs = m0.jobs.len() as int;
    let oldlinks = m0.view_jobs.len() as int;
    if l < oldlinks {
        assert(m1.view_jobs[l] == m0.view_jobs[l]);
        if j < oldjobs {
            assert(m1.jobs[j] == m0.jobs[j]);
            assert(pending_link(m0, l, j, vid2));
        } else {
            assert(m1.jobs[j].id == m0.next_id);
            assert(has_job(m0.jobs, m0.view_jobs[l].job_id));
            let w = choose|i: int|
                0 <= i < m0.jobs.len() && (#[trigger] m0.jobs[i].id) == m0.view_jobs[l].job_id;
            assert(m0.jobs[w].id < m0.next_id);
            assert(false);
        }
    } else {
        assert(m1.view_jobs[l].job_id == m0.next_id);
        if j < oldjobs {
            assert(m1.jobs[j] == m0.jobs[j]);
            assert(m0.jobs[j].id < m0.next_id);
            assert(false);
        } else {
            assert(m1.jobs[j].status == data.status);
        }
    }
}


/// The exported-user row a save inserts.
pub open spec fn exported_row(data: CreateExportedUser, id: u128, now: i64) -> ExportedUser {
    ExportedUser {
        id,
        created_at: now,
        updated_at: now,
        job_id: data.job_id,
        first_name: data.first_name,
        last_name: data.last_name,
        personal_email: data.personal_email,
        generated_email: data.generated_email,
        exported_from: data.exported_from,
    }
}

/// The exported table after appending one row per record, in input order,
/// with consecutive identifiers starting at `next_id`.
pub open spec fn save_exported_rows(
    s: Seq<ExportedUser>,
    records: Seq<CreateExportedUser>,
    next_id: u128,
    now: i64,
) -> Seq<ExportedUser>
    decreases records.len(),
{
    if records.len() == 0 {
        s
    } else {
        save_exported_rows(
            s.push(exported_row(records[0], next_id, now)),
            records.drop_first(),
            (next_id + 1) as u128,
            now,
        )
    }
}

/// The store after persisting a batch of exported users.
pub open spec fn save_exported_m(
    m: StoreModel,
    records: Seq<CreateExportedUser>,
    now: i64,
) -> StoreModel {
    StoreModel {
        exported: save_exported_rows(m.exported, records, m.next_id, now),
        next_id: (m.next_id + records.len()) as u128,
        ..m
    }
}

/// Shape of the appended exported table: the old rows stay in place and one
/// new row per record follows, in input order, with consecutive
/// identifiers.
pub proof fn lemma_save_exported_rows_props(
    s: Seq<ExportedUser>,
    records: Seq<CreateExportedUser>,
    next_id: u128,
    now: i64,
)
    requires
        next_id + records.len() <= u128::MAX,
    ensures
        save_exported_rows(s, records, next_id, now).len() == s.len() + records.len(),
        forall|i: int|
            0 <= i < s.len() ==> #[trigger] save_exported_rows(s, records, next_id, now)[i]
                == s[i],
        forall|k: int|
            0 <= k < records.len() ==> #[trigger] save_exported_rows(s, records, next_id, now)[
                s.len() + k
            ] == exported_row(records[k], (next_id + k) as u128, now),
    decreases records.len(),
{
    if records.len() > 0 {
        let s1 = s.push(exported_row(records[0], next_id, now));
        lemma_save_exported_rows_props(s1, records.drop_first(), (next_id + 1) as u128, now);
        assert forall|k: int|
            0 <= k < records.len() implies #[trigger] save_exported_rows(s, records, next_id, now)[
            s.len() + k
        ] == exported_row(records[k], (next_id + k) as u128, now) by {
            if k > 0 {
                assert(records.drop_first()[k - 1] == records[k]);
                assert(save_exported_rows(s1, records.drop_first(), (next_id + 1) as u128, now)[
                    s1.len() + (k - 1)
                ] == exported_row(records.drop_first()[k - 1], (next_id + k) as u128, now));
            }
        }
    }
}

/// The exported table with every row carrying this generated email removed,
/// order otherwise kept.
pub open spec fn exported_without_email(s: Seq<ExportedUser>, email: Seq<char>) -> Seq<
    ExportedUser,
>
    decreases s.len(),
{
    if s.len() == 0 {
        Seq::empty()
    } else if s.last().generated_email@ == email {
        exported_without_email(s.drop_last(), email)
    } else {
        exported_without_email(s.drop_last(), email).push(s.last())
    }
}

/// The store after deleting the exported rows with this generated email.
pub open spec fn delete_exported_m(m: StoreModel, email: Seq<char>) -> StoreModel {
    StoreModel { exported: exported_without_email(m.exported, email), ..m }
}

/// Deleting by generated email keeps identifiers distinct and bounded,
/// keeps the remaining generated emails distinct, removes every matching
/// row, and keeps only rows of the original table.
pub proof fn lemma_exported_without_email_ok(s: Seq<ExportedUser>, email: Seq<char>, bound: u128)
    requires
        exported_rows_ok(s, bound),
        forall|i: int, j: int|
            0 <= i < j < s.len() ==> (#[trigger] s[i].generated_email)@ != (
            #[trigger] s[j].generated_email)@,
    ensures
        exported_rows_ok(exported_without_email(s, email), bound),
        forall|i: int, j: int|
            0 <= i < j < exported_without_email(s, email).len() ==> (
            #[trigger] exported_without_email(s, email)[i].generated_email)@ != (
            #[trigger] exported_without_email(s, email)[j].generated_email)@,
        forall|i: int|
            0 <= i < exported_without_email(s, email).len() ==> (
            #[trigger] exported_without_email(s, email)[i]).generated_email@ != email,
        forall|i: int|
            0 <= i < exported_without_email(s, email).len() ==> exists|j: int|
                0 <= j < s.len() && s[j] == #[trigger] exported_without_email(s, email)[i],
    decreases s.len(),
{
    let r = exported_without_email(s, email);
    if s.len() > 0 {
        let d = s.drop_last();
        lemma_exported_without_email_ok(d, email, bound);
        let rd = exported_without_email(d, email);
        assert forall|i: int|
            0 <= i < rd.len() implies exists|j: int|
                0 <= j < s.len() && s[j] == #[trigger] rd[i] by {
            let j = choose|j: int| 0 <= j < d.len() && d[j] == rd[i];
            assert(s[j] == rd[i]);
        }
        if s.last().generated_email@ != email {
            assert(r == rd.push(s.last()));
            assert forall|i: int, j: int|
                0 <= i < j < r.len() implies (#[trigger] r[i].generated_email)@ != (
                #[trigger] r[j].generated_email)@ by {
                if j == r.len() - 1 {
                    let w = choose|w: int| 0 <= w < d.len() && d[w] == rd[i];
                    assert(s[w] == r[i]);
                    assert(s[w].generated_email@ != s.last().generated_email@);
                }
            }
            assert forall|i: int, j: int|
                0 <= i < j < r.len() implies (#[trigger] r[i].id) != (#[trigger] r[j].id) by {
                if j == r.len() - 1 {
                    let w = choose|w: int| 0 <= w < d.len() && d[w] == rd[i];
                    assert(s[w] == r[i]);
                    assert(s[w].id != s.last().id);
                }
            }
        }
    } else {
        assert(r =~= Seq::<ExportedUser>::empty());
    }
}

/// The exported rows an export job produced, in table order.
pub open spec fn exported_for_job(m: StoreModel, job_id: u128) -> Seq<ExportedUser> {
    m.exported.filter(|e: ExportedUser| e.job_id == job_id)
}

impl JobStore {
    /// Persists one exported-user row per record, in input order, linked to
    /// the producing job. The batch's generated emails must be distinct and
    /// not yet present: the uniqueness invariant of generated emails.
    pub fn save_exported_users(&mut self, records: Vec<CreateExportedUser>, now: i64) -> (r: ())
        requires
            wf(old(self)@),
            old(self)@.next_id + records@.len() < u128::MAX,
            forall|i: int, j: int|
                0 <= i < j < records@.len() ==> (#[trigger] records@[i].generated_email)@ != (
                #[trigger] records@[j].generated_email)@,
            forall|i: int, k: int|
                0 <= i < records@.len() && 0 <= k < old(self)@.exported.len() ==> (
                #[trigger] records@[i].generated_email)@ != (
                #[trigger] old(self)@.exported[k].generated_email)@,
        ensures
            wf(final(self)@),
            final(self)@ == save_exported_m(old(self)@, records@, now),
    {
        let ghost m0 = self@;
        let ghost r0 = records@;
        let mut records = records;
        while records.len() > 0
            invariant
                wf(self@),
                self@.users == m0.users,
                self@.views == m0.views,
                self@.jobs == m0.jobs,
                self@.view_jobs == m0.view_jobs,
                self@.job_errors == m0.job_errors,
                self@.next_id + records@.len() < u128::MAX,
                save_exported_rows(m0.exported, r0, m0.next_id, now) == save_exported_rows(
                    self@.exported,
                    records@,
                    self@.next_id,
                    now,
                ),
                m0.next_id + r0.len() == self@.next_id + records@.len(),
                forall|i: int, j: int|
                    0 <= i < j < records@.len() ==> (#[trigger] records@[i].generated_email)@ != (
                    #[trigger] records@[j].generated_email)@,
                forall|i: int, k: int|
                    0 <= i < records@.len() && 0 <= k < self@.exported.len() ==> (
                    #[trigger] records@[i].generated_email)@ != (
                    #[trigger] self@.exported[k].generated_email)@,
            decreases records.len(),
        {
            let ghost mprev = self@;
            let ghost rprev = records@;
            let rec = records.remove(0);
            let row = ExportedUser {
                id: self.next_id,
                created_at: now,
                updated_at: now,
                job_id: rec.job_id,
                first_name: rec.first_name,
                last_name: rec.last_name,
                personal_email: rec.personal_email,
                generated_email: rec.generated_email,
                exported_from: rec.exported_from,
            };
            self.exported.push(row);
            self.next_id = self.next_id + 1;
            proof {
                assert(records@ =~= rprev.drop_first());
                assert(row == exported_row(rprev[0], mprev.next_id, now));
                assert(self@.exported =~= mprev.exported.push(
                    exported_row(rprev[0], mprev.next_id, now),
                ));
                assert(save_exported_rows(mprev.exported, rprev, mprev.next_id, now)
                    == save_exported_rows(self@.exported, records@, self@.next_id, now));
                assert forall|i: int, j: int|
                    0 <= i < j < self@.exported.len() implies (
                #[trigger] self@.exported[i].generated_email)@ != (
                #[trigger] self@.exported[j].generated_email)@ by {
                    if j == self@.exported.len() - 1 {
                        if i < mprev.exported.len() {
                            assert(rprev[0].generated_email@
                                != mprev.exported[i].generated_email@);
                        }
                    }
                }
                lemma_wf_structure_unchanged(mprev, self@);
            }
        }
        proof {
            assert(records@.len() == 0);
            assert(save_exported_rows(self@.exported, records@, self@.next_id, now)
                == self@.exported);
            assert(self@.exported == save_exported_rows(m0.exported, r0, m0.next_id, now));
            assert(self@ == save_exported_m(m0, r0, now));
        }
    }

    /// All exported-user rows, in insertion order.
    pub fn fetch_exported_users(&self) -> (r: &Vec<ExportedUser>)
        ensures
            r@ == self@.exported,
    {
        &self.exported
    }

    /// The exported-user rows a job produced, in table order: the rows an
    /// undo run deletes.
    pub fn fetch_exported_users_by_job(&self, job_id: u128) -> (r: Vec<ExportedUser>)
        ensures
            r@ == exported_for_job(self@, job_id),
    {
        broadcast use vstd::seq_lib::group_seq_properties;

        let ghost pred = |e: ExportedUser| e.job_id == job_id;
        let n = self.exported.len();
        let mut out: Vec<ExportedUser> = Vec::new();
        let mut i: usize = 0;
        proof {
            assert(self@.exported.take(0int) =~= Seq::<ExportedUser>::empty());
            assert(Seq::<ExportedUser>::empty().filter(pred) =~= Seq::<ExportedUser>::empty()) by {
                reveal(Seq::filter);
            }
        }
        while i < n
            invariant
                n == self.exported.len(),
                i <= n,
                pred == (|e: ExportedUser| e.job_id == job_id),
                out@ == self@.exported.take(i as int).filter(pred),
            decreases n - i,
        {
            let e = &self.exported[i];
            proof {
                assert(self@.exported.take(i as int + 1).drop_last() =~= self@.exported.take(
                    i as int,
                ));
                assert(self@.exported.take(i as int + 1).last() == self@.exported[i as int]);
                Seq::lemma_filter_push(self@.exported.take(i as int), self@.exported[i as int], pred);
                assert(self@.exported.take(i as int).push(self@.exported[i as int])
                    =~= self@.exported.take(i as int + 1));
            }
            if e.job_id == job_id {
                let d = e.duplicate();
                out.push(d);
            }
            i += 1;
        }
        proof {
            assert(self@.exported.take(n as int) =~= self@.exported);
        }
        out
    }

    /// Deletes the exported rows carrying this generated email (at most one,
    /// by the uniqueness invariant); returns whether any row was removed.
    pub fn delete_exported_user_by_generated_email(&mut self, email: &str) -> (r: bool)
        requires
            wf(old(self)@),
        ensures
            wf(final(self)@),
            final(self)@ == delete_exported_m(old(self)@, email@),
            r == exists|i: int|
                0 <= i < old(self)@.exported.len() && (
                #[trigger] old(self)@.exported[i].generated_email)@ == email@,
    {
        let ghost m0 = self@;
        let n = self.exported.len();
        let mut out: Vec<ExportedUser> = Vec::new();
        let mut found = false;
        let mut i: usize = 0;
        proof {
            assert(out@ =~= exported_without_email(m0.exported.take(0int), email@));
        }
        while i < n
            invariant
                *self == *old(self),
                m0 == self@,
                wf(self@),
                n == self.exported.len(),
                i <= n,
                out@ == exported_without_email(m0.exported.take(i as int), email@),
                found == exists|j: int|
                    0 <= j < i && (#[trigger] m0.exported[j].generated_email)@ == email@,
            decreases n - i,
        {
            let e = &self.exported[i];
            proof {
                assert(m0.exported.take(i as int + 1).drop_last() =~= m0.exported.take(i as int));
                assert(m0.exported.take(i as int + 1).last() == m0.exported[i as int]);
            }
            if str_eq(e.generated_email.as_str(), email) {
                found = true;
                proof {
                    assert(0 <= i && (i as int) < m0.exported.len()
                        && m0.exported[i as int].generated_email@ == email@);
                }
            } else {
                let d = e.duplicate();
                out.push(d);
            }
            i += 1;
        }
        proof {
            assert(m0.exported.take(n as int) =~= m0.exported);
        }
        self.exported = out;
        proof {
            lemma_exported_without_email_ok(m0.exported, email@, m0.next_id);
            assert(self@ == delete_exported_m(m0, email@));
            assert forall|l: int|
                0 <= l < self@.view_jobs.len() implies has_job(
                self@.jobs,
                (#[trigger] self@.view_jobs[l]).job_id,
            ) && has_view(self@.views, self@.view_jobs[l].datasource_view_id) by {
                assert(has_job(m0.jobs, m0.view_jobs[l].job_id));
                assert(has_view(m0.views, m0.view_jobs[l].datasource_view_id));
            }
            assert forall|vid: u128, l1: int, j1: int, l2: int, j2: int| #[trigger]
                pending_link(self@, l1, j1, vid) && #[trigger] pending_link(
                self@,
                l2,
                j2,
                vid,
            ) implies j1 == j2 by {
                assert(pending_link(m0, l1, j1, vid));
                assert(pending_link(m0, l2, j2, vid));
            }
            assert(wf(self@));
        }
        found
    }
}

/// Structural rules carry over whenever the job, view and association
/// tables are untouched and the per-table row conditions hold again.
proof fn lemma_wf_structure_unchanged(m0: StoreModel, m1: StoreModel)
    requires
        wf(m0),
        m1.jobs == m0.jobs,
        m1.views == m0.views,
        m1.view_jobs == m0.view_jobs,
        m0.next_id <= m1.next_id,
        user_rows_ok(m1.users, m1.next_id),
        exported_rows_ok(m1.exported, m1.next_id),
        error_rows_ok(m1.job_errors, m1.next_id),
        forall|i: int, j: int|
            0 <= i < j < m1.users.len() ==> (#[trigger] m1.users[i].email)@ != (
            #[trigger] m1.users[j].email)@,
        forall|i: int, j: int|
            0 <= i < j < m1.exported.len() ==> (#[trigger] m1.exported[i].generated_email)@ != (
            #[trigger] m1.exported[j].generated_email)@,
    ensures
        wf(m1),
{
    assert forall|l: int|
        0 <= l < m1.view_jobs.len() implies has_job(
        m1.jobs,
        (#[trigger] m1.view_jobs[l]).job_id,
    ) && has_view(m1.views, m1.view_jobs[l].datasource_view_id) by {
        assert(has_job(m0.jobs, m0.view_jobs[l].job_id));
        assert(has_view(m0.views, m0.view_jobs[l].datasource_view_id));
    }
    assert forall|vid: u128, l1: int, j1: int, l2: int, j2: int| #[trigger]
        pending_link(m1, l1, j1, vid) && #[trigger] pending_link(m1, l2, j2, vid) implies j1
        == j2 by {
        assert(pending_link(m0, l1, j1, vid));
        assert(pending_link(m0, l2, j2, vid));
    }
}

/// Single-flight invariant: in a well-formed store, any two pending jobs
/// owning the same datasource view are the same job row.
pub proof fn lemma_single_flight_unique(
    m: StoreModel,
    vid: u128,
    l1: int,
    j1: int,
    l2: int,
    j2: int,
)
    requires
        wf(m),
        pending_link(m, l1, j1, vid),
        pending_link(m, l2, j2, vid),
    ensures
        j1 == j2,
        m.jobs[j1].id == m.jobs[j2].id,
{
}

/// Terminal monotonicity: once a job's status is `Complete` or `Error`,
/// neither terminal transition changes the store at all.
pub proof fn lemma_terminal_monotonic(m: StoreModel, id: u128, payload: String, now: i64)
    requires
        wf(m),
        has_job(m.jobs, id),
        m.jobs[job_idx(m.jobs, id)].status.is_terminal(),
    ensures
        mark_complete_m(m, id, now) == m,
        mark_errored_m(m, id, payload, now) == m,
{
    let w = job_idx(m.jobs, id);
    assert(0 <= w < m.jobs.len() && m.jobs[w].id == id);
    assert forall|k: int|
        !(0 <= k < m.jobs.len() && (#[trigger] m.jobs[k]).id == id && m.jobs[k].status
            == JobStatus::Pending) by {
        if 0 <= k < m.jobs.len() && m.jobs[k].id == id {
            if k != w {
                assert(m.jobs[k].id != m.jobs[w].id);
            }
        }
    }
    assert(!job_is_pending(m.jobs, id));
    assert(mark_complete_jobs(m.jobs, id, now) =~= m.jobs);
    assert(mark_complete_m(m, id, now) == m);
    assert(mark_errored_m(m, id, payload, now) == m);
}


/// The user table with the row `id` edited in place.
pub open spec fn edit_user_users(users: Seq<User>, id: u128, data: EditUser, now: i64) -> Seq<
    User,
> {
    Seq::new(
        users.len(),
        |i: int|
            if users[i].id == id {
                User {
                    email: data.email,
                    first_name: data.first_name,
                    last_name: data.last_name,
                    image_uri: data.image_uri,
                    updated_at: now,
                    ..users[i]
                }
            } else {
                users[i]
            },
    )
}

/// The store after editing a user in place.
pub open spec fn edit_user_m(m: StoreModel, id: u128, data: EditUser, now: i64) -> StoreModel {
    StoreModel { users: edit_user_users(m.users, id, data, now), ..m }
}

/// The view table with the row `id` edited in place.
pub open spec fn edit_view_views(
    views: Seq<DatasourceView>,
    id: u128,
    data: EditDatasourceView,
    now: i64,
) -> Seq<DatasourceView> {
    Seq::new(
        views.len(),
        |i: int|
            if views[i].id == id {
                DatasourceView {
                    view_name: data.view_name,
                    datasource: data.datasource,
                    description: data.description,
                    metadata: data.metadata,
                    updated_at: now,
                    ..views[i]
                }
            } else {
                views[i]
            },
    )
}

/// The store after editing a datasource view in place.
pub open spec fn edit_view_m(m: StoreModel, id: u128, data: EditDatasourceView, now: i64) -> StoreModel {
    StoreModel { views: edit_view_views(m.views, id, data, now), ..m }
}

/// The view table without the row `vid`, order otherwise kept.
pub open spec fn views_without(s: Seq<DatasourceView>, vid: u128) -> Seq<DatasourceView>
    decreases s.len(),
{
    if s.len() == 0 {
        Seq::empty()
    } else if s.last().id == vid {
        views_without(s.drop_last(), vid)
    } else {
        views_without(s.drop_last(), vid).push(s.last())
    }
}

/// The association table without the rows naming view `vid`.
pub open spec fn links_without_view(s: Seq<DatasourceViewJob>, vid: u128) -> Seq<
    DatasourceViewJob,
>
    decreases s.len(),
{
    if s.len() == 0 {
        Seq::empty()
    } else if s.last().datasource_view_id == vid {
        links_without_view(s.drop_last(), vid)
    } else {
        links_without_view(s.drop_last(), vid).push(s.last())
    }
}

/// The store after deleting a datasource view: the view row and its
/// association rows go together.
pub open spec fn delete_view_m(m: StoreModel, vid: u128) -> StoreModel {
    StoreModel {
        views: views_without(m.views, vid),
        view_jobs: links_without_view(m.view_jobs, vid),
        ..m
    }
}

/// A table without any matching row is left as it is.
proof fn lemma_views_without_no_match(s: Seq<DatasourceView>, vid: u128)
    requires
        forall|i: int| 0 <= i < s.len() ==> (#[trigger] s[i].id) != vid,
    ensures
        views_without(s, vid) == s,
    decreases s.len(),
{
    if s.len() > 0 {
        lemma_views_without_no_match(s.drop_last(), vid);
        assert(views_without(s, vid) =~= s);
    } else {
        assert(views_without(s, vid) =~= s);
    }
}

/// When exactly one row matches, removing by identifier is removing that
/// row's position.
proof fn lemma_views_without_single_match(s: Seq<DatasourceView>, vid: u128, idx: int)
    requires
        0 <= idx < s.len(),
        s[idx].id == vid,
        forall|i: int| 0 <= i < s.len() && i != idx ==> (#[trigger] s[i].id) != vid,
    ensures
        views_without(s, vid) == s.remove(idx),
    decreases s.len(),
{
    if idx == s.len() - 1 {
        lemma_views_without_no_match(s.drop_last(), vid);
        assert(views_without(s, vid) == s.drop_last());
        assert(s.remove(idx) =~= s.drop_last());
    } else {
        lemma_views_without_single_match(s.drop_last(), vid, idx);
        assert(views_without(s, vid) == s.drop_last().remove(idx).push(s.last()));
        assert(s.drop_last().remove(idx).push(s.last()) =~= s.remove(idx));
    }
}

/// Deleting a view row keeps identifiers distinct and bounded, keeps every
/// other view reachable, and keeps only rows of the original table.
proof fn lemma_views_without_ok(s: Seq<DatasourceView>, vid: u128, bound: u128)
    requires
        view_rows_ok(s, bound),
    ensures
        view_rows_ok(views_without(s, vid), bound),
        forall|i: int|
            0 <= i < views_without(s, vid).len() ==> exists|j: int|
                0 <= j < s.len() && s[j] == #[trigger] views_without(s, vid)[i],
        forall|id: u128|
            id != vid ==> (#[trigger] has_view(views_without(s, vid), id)) == has_view(s, id),
    decreases s.len(),
{
    let r = views_without(s, vid);
    if s.len() > 0 {
        let d = s.drop_last();
        lemma_views_without_ok(d, vid, bound);
        let rd = views_without(d, vid);
        assert forall|i: int|
            0 <= i < rd.len() implies exists|j: int|
                0 <= j < s.len() && s[j] == #[trigger] rd[i] by {
            let j = choose|j: int| 0 <= j < d.len() && d[j] == rd[i];
            assert(s[j] == rd[i]);
        }
        if s.last().id != vid {
            assert(r == rd.push(s.last()));
            assert forall|i: int, j: int|
                0 <= i < j < r.len() implies (#[trigger] r[i].id) != (#[trigger] r[j].id) by {
                if j == r.len() - 1 {
                    assert(rd[i] == r[i]);
                    let w = choose|w: int| 0 <= w < d.len() && d[w] == rd[i];
                    assert(s[w] == d[w]);
                    assert(s[w].id != s.last().id);
                }
            }
        }
        assert forall|id: u128|
            id != vid implies (#[trigger] has_view(r, id)) == has_view(s, id) by {
            if has_view(r, id) {
                let i = choose|i: int| 0 <= i < r.len() && (#[trigger] r[i].id) == id;
                let j = choose|j: int| 0 <= j < s.len() && s[j] == r[i];
                assert(s[j].id == id);
                assert(has_view(s, id));
            }
            if has_view(s, id) {
                let i = choose|i: int| 0 <= i < s.len() && (#[trigger] s[i].id) == id;
                if i < s.len() - 1 {
                    assert(d[i] == s[i]);
                    assert(has_view(d, id));
                    assert(has_view(rd, id));
                    let w = choose|w: int| 0 <= w < rd.len() && (#[trigger] rd[w].id) == id;
                    if s.last().id != vid {
                        assert(r[w] == rd[w]);
                        assert(r[w].id == id);
                        assert(has_view(r, id));
                    } else {
                        assert(r == rd);
                        assert(has_view(r, id));
                    }
                } else {
                    assert(s.last().id == id);
                    assert(s.last().id != vid);
                    assert(r.last().id == id);
                    assert(has_view(r, id));
                }
            }
        }
    } else {
        assert(r =~= Seq::<DatasourceView>::empty());
    }
}

/// Deleting a view's association rows keeps identifiers distinct and
/// bounded and keeps only rows of the original table.
proof fn lemma_links_without_view_ok(s: Seq<DatasourceViewJob>, vid: u128, bound: u128)
    requires
        link_rows_ok(s, bound),
    ensures
        link_rows_ok(links_without_view(s, vid), bound),
        forall|i: int|
            0 <= i < links_without_view(s, vid).len() ==> exists|j: int|
                0 <= j < s.len() && s[j] == #[trigger] links_without_view(s, vid)[i],
        forall|i: int|
            0 <= i < links_without_view(s, vid).len() ==> (#[trigger] links_without_view(s, vid)[
                i
            ]).datasource_view_id != vid,
    decreases s.len(),
{
    let r = links_without_view(s, vid);
    if s.len() > 0 {
        let d = s.drop_last();
        lemma_links_without_view_ok(d, vid, bound);
        let rd = links_without_view(d, vid);
        assert forall|i: int|
            0 <= i < rd.len() implies exists|j: int|
                0 <= j < s.len() && s[j] == #[trigger] rd[i] by {
            let j = choose|j: int| 0 <= j < d.len() && d[j] == rd[i];
            assert(s[j] == rd[i]);
        }
        if s.last().datasource_view_id != vid {
            assert(r == rd.push(s.last()));
            assert forall|i: int, j: int|
                0 <= i < j < r.len() implies (#[trigger] r[i].id) != (#[trigger] r[j].id) by {
                if j == r.len() - 1 {
                    let w = choose|w: int| 0 <= w < d.len() && d[w] == rd[i];
                    assert(s[w].id != s.last().id);
                }
            }
        }
    } else {
        assert(r =~= Seq::<DatasourceViewJob>::empty());
    }
}

impl JobStore {
    /// Edits a user row in place. Refuses an email another user row already
    /// carries; returns whether a row was edited.
    pub fn edit_user(&mut self, user_id: u128, data: EditUser, now: i64) -> (r: Result<
        bool,
        DbError,
    >)
        requires
            wf(old(self)@),
        ensures
            wf(final(self)@),
            (match r {
                Result::Err(e) => e == DbError::UniqueEmail && final(self)@ == old(self)@ && (
                exists|i: int|
                    0 <= i < old(self)@.users.len() && (#[trigger] old(self)@.users[i].id)
                        != user_id && old(self)@.users[i].email@ == data.email@),
                Result::Ok(changed) => (forall|i: int|
                    0 <= i < old(self)@.users.len() ==> ((#[trigger] old(self)@.users[i].id)
                        == user_id || old(self)@.users[i].email@ != data.email@)) && final(self)@
                    == edit_user_m(old(self)@, user_id, data, now) && changed == exists|i: int|
                    0 <= i < old(self)@.users.len() && (#[trigger] old(self)@.users[i].id)
                        == user_id,
            }),
    {
        let ghost m0 = self@;
        let n = self.users.len();
        let mut i: usize = 0;
        while i < n
            invariant
                *self == *old(self),
                m0 == self@,
                wf(self@),
                n == self.users.len(),
                i <= n,
                forall|j: int|
                    0 <= j < i ==> ((#[trigger] self.users[j].id) == user_id
                        || self.users[j].email@ != data.email@),
            decreases n - i,
        {
            if self.users[i].id != user_id && self.users[i].email == data.email {
                proof {
                    assert(0 <= i && (i as int) < m0.users.len() && m0.users[i as int].id != user_id
                        && m0.users[i as int].email@ == data.email@);
                }
                return Err(DbError::UniqueEmail);
            }
            i += 1;
        }
        let mut k: usize = 0;
        while k < n
            invariant
                *self == *old(self),
                m0 == self@,
                wf(self@),
                n == self.users.len(),
                k <= n,
                forall|j: int|
                    0 <= j < m0.users.len() ==> ((#[trigger] m0.users[j].id) == user_id
                        || m0.users[j].email@ != data.email@),
                forall|j: int| 0 <= j < k ==> (#[trigger] self.users[j].id) != user_id,
            decreases n - k,
        {
            if self.users[k].id == user_id {
                let row = User {
                    id: user_id,
                    created_at: self.users[k].created_at,
                    updated_at: now,
                    email: data.email,
                    first_name: data.first_name,
                    last_name: data.last_name,
                    image_uri: data.image_uri,
                };
                self.users.set(k, row);
                proof {
                    assert(0 <= k && (k as int) < m0.users.len() && m0.users[k as int].id
                        == user_id);
                    assert forall|j: int| 0 <= j < m0.users.len() implies self@.users[j]
                        == edit_user_users(m0.users, user_id, data, now)[j] by {
                        if j != k as int {
                            assert(m0.users[j].id != user_id);
                        }
                    }
                    assert(self@.users =~= edit_user_users(m0.users, user_id, data, now));
                    assert(self@ == edit_user_m(m0, user_id, data, now));
                    assert forall|a: int, b: int|
                        0 <= a < b < self@.users.len() implies (#[trigger] self@.users[a].email)@
                        != (#[trigger] self@.users[b].email)@ by {
                        if a != k as int && b != k as int {
                            assert(m0.users[a].email@ != m0.users[b].email@);
                        } else if a == k as int {
                            assert(m0.users[b].id != user_id);
                        } else {
                            assert(m0.users[a].id != user_id);
                        }
                    }
                    lemma_wf_structure_unchanged_users(m0, self@);
                }
                return Ok(true);
            }
            k += 1;
        }
        proof {
            assert forall|j: int| 0 <= j < m0.users.len() implies self@.users[j]
                == edit_user_users(m0.users, user_id, data, now)[j] by {
                assert(m0.users[j].id != user_id);
            }
            assert(self@.users =~= edit_user_users(m0.users, user_id, data, now));
            assert(self@ == edit_user_m(m0, user_id, data, now));
        }
        Ok(false)
    }

    /// Edits a datasource view row in place; returns whether a row was
    /// edited.
    pub fn edit_datasource_view(&mut self, view_id: u128, data: EditDatasourceView, now: i64) -> (r:
        bool)
        requires
            wf(old(self)@),
        ensures
            wf(final(self)@),
            final(self)@ == edit_view_m(old(self)@, view_id, data, now),
            r == has_view(old(self)@.views, view_id),
    {
        let ghost m0 = self@;
        let n = self.views.len();
        let mut k: usize = 0;
        while k < n
            invariant
                *self == *old(self),
                m0 == self@,
                wf(self@),
                n == self.views.len(),
                k <= n,
                forall|j: int| 0 <= j < k ==> (#[trigger] self.views[j].id) != view_id,
            decreases n - k,
        {
            if self.views[k].id == view_id {
                let row = DatasourceView {
                    id: view_id,
                    created_at: self.views[k].created_at,
                    updated_at: now,
                    user_id: self.views[k].user_id,
                    view_name: data.view_name,
                    datasource: data.datasource,
                    description: data.description,
                    metadata: data.metadata,
                };
                self.views.set(k, row);
                proof {
                    assert(0 <= k && (k as int) < m0.views.len() && m0.views[k as int].id
                        == view_id);
                    assert(has_view(m0.views, view_id));
                    assert forall|j: int| 0 <= j < m0.views.len() implies self@.views[j]
                        == edit_view_views(m0.views, view_id, data, now)[j] by {
                        if j != k as int {
                            assert(m0.views[j].id != view_id);
                        }
                    }
                    assert(self@.views =~= edit_view_views(m0.views, view_id, data, now));
                    assert(self@ == edit_view_m(m0, view_id, data, now));
                    assert forall|l: int|
                        0 <= l < self@.view_jobs.len() implies has_job(
                        self@.jobs,
                        (#[trigger] self@.view_jobs[l]).job_id,
                    ) && has_view(self@.views, self@.view_jobs[l].datasource_view_id) by {
                        assert(has_job(m0.jobs, m0.view_jobs[l].job_id));
                        let w = choose|i: int|
                            0 <= i < m0.views.len() && (#[trigger] m0.views[i].id)
                                == m0.view_jobs[l].datasource_view_id;
                        assert(self@.views[w].id == m0.view_jobs[l].datasource_view_id);
                    }
                    assert forall|vid: u128, l1: int, j1: int, l2: int, j2: int| #[trigger]
                        pending_link(self@, l1, j1, vid) && #[trigger] pending_link(
                        self@,
                        l2,
                        j2,
                        vid,
                    ) implies j1 == j2 by {
                        assert(pending_link(m0, l1, j1, vid));
                        assert(pending_link(m0, l2, j2, vid));
                    }
                    assert(wf(self@));
                }
                return true;
            }
            k += 1;
        }
        proof {
            assert forall|j: int| 0 <= j < m0.views.len() implies self@.views[j]
                == edit_view_views(m0.views, view_id, data, now)[j] by {
                assert(m0.views[j].id != view_id);
            }
            assert(self@.views =~= edit_view_views(m0.views, view_id, data, now));
            assert(self@ == edit_view_m(m0, view_id, data, now));
        }
        false
    }

    /// The position of the view row with this identifier, if any.
    fn find_view_index(&self, view_id: u128) -> (r: Option<usize>)
        ensures
            match r {
                Some(i) => (i as int) < self@.views.len() && self@.views[i as int].id == view_id,
                None => forall|j: int|
                    0 <= j < self@.views.len() ==> (#[trigger] self@.views[j].id) != view_id,
            },
    {
        let n = self.views.len();
        let mut i: usize = 0;
        while i < n
            invariant
                n == self.views.len(),
                i <= n,
                forall|j: int| 0 <= j < i ==> (#[trigger] self.views[j].id) != view_id,
            decreases n - i,
        {
            if self.views[i].id == view_id {
                return Some(i);
            }
            i += 1;
        }
        None
    }

    /// Deletes a datasource view and its association rows, unless a pending
    /// job still references the view: a view is never silently deleted
    /// while a pending job owns it.
    #[verifier::rlimit(60)]
    pub fn delete_datasource_view(&mut self, view_id: u128) -> (r: Result<(), DbError>)
        requires
            wf(old(self)@),
        ensures
            wf(final(self)@),
            (match r {
                Result::Err(e) => e == DbError::ViewInUse && final(self)@ == old(self)@
                    && pending_job_exists(old(self)@, view_id),
                Result::Ok(u) => !pending_job_exists(old(self)@, view_id) && final(self)@
                    == delete_view_m(old(self)@, view_id),
            }),
    {
        let ghost m0 = self@;
        if self.has_pending_job_for_view(view_id) {
            return Err(DbError::ViewInUse);
        }
        let ln = self.view_jobs.len();
        let mut lout: Vec<DatasourceViewJob> = Vec::new();
        let mut li: usize = 0;
        proof {
            assert(lout@ =~= links_without_view(m0.view_jobs.take(0int), view_id));
        }
        while li < ln
            invariant
                *self == *old(self),
                m0 == self@,
                wf(self@),
                ln == self.view_jobs.len(),
                li <= ln,
                lout@ == links_without_view(m0.view_jobs.take(li as int), view_id),
            decreases ln - li,
        {
            proof {
                assert(m0.view_jobs.take(li as int + 1).drop_last() =~= m0.view_jobs.take(
                    li as int,
                ));
                assert(m0.view_jobs.take(li as int + 1).last() == m0.view_jobs[li as int]);
            }
            let link = self.view_jobs[li];
            if link.datasource_view_id != view_id {
                lout.push(link);
            }
            li += 1;
        }
        proof {
            assert(m0.view_jobs.take(ln as int) =~= m0.view_jobs);
        }
        let found_idx = self.find_view_index(view_id);
        match found_idx {
            Some(idx) => {
                self.views.remove(idx);
                proof {
                    assert forall|j: int|
                        0 <= j < m0.views.len() && j != idx implies (#[trigger] m0.views[j].id)
                        != view_id by {
                        if j < idx {
                            assert(m0.views[j].id != m0.views[idx as int].id);
                        } else {
                            assert(m0.views[idx as int].id != m0.views[j].id);
                        }
                    }
                    lemma_views_without_single_match(m0.views, view_id, idx as int);
                }
            },
            None => {
                proof {
                    lemma_views_without_no_match(m0.views, view_id);
                    assert(self@.views == views_without(m0.views, view_id));
                }
            },
        }
        self.view_jobs = lout;
        proof {
            assert(self@.views == views_without(m0.views, view_id));
            assert(self@ == delete_view_m(m0, view_id));
            lemma_wf_after_delete_view(m0, view_id);
        }
        Ok(())
    }
}

/// Deleting a datasource view together with its association rows keeps the
/// store well formed.
proof fn lemma_wf_after_delete_view(m0: StoreModel, view_id: u128)
    requires
        wf(m0),
    ensures
        wf(delete_view_m(m0, view_id)),
{
    let m1 = delete_view_m(m0, view_id);
    lemma_views_without_ok(m0.views, view_id, m0.next_id);
    lemma_links_without_view_ok(m0.view_jobs, view_id, m0.next_id);
    assert forall|l: int|
        0 <= l < m1.view_jobs.len() implies has_job(
        m1.jobs,
        (#[trigger] m1.view_jobs[l]).job_id,
    ) && has_view(m1.views, m1.view_jobs[l].datasource_view_id) by {
        let j0 = choose|j: int| 0 <= j < m0.view_jobs.len() && m0.view_jobs[j] == m1.view_jobs[l];
        assert(has_job(m0.jobs, m0.view_jobs[j0].job_id));
        assert(has_view(m0.views, m0.view_jobs[j0].datasource_view_id));
        assert(m1.view_jobs[l].datasource_view_id != view_id);
    }
    assert forall|vid: u128, l1: int, j1: int, l2: int, j2: int| #[trigger]
        pending_link(m1, l1, j1, vid) && #[trigger] pending_link(m1, l2, j2, vid) implies j1
        == j2 by {
        let a = choose|a: int| 0 <= a < m0.view_jobs.len() && m0.view_jobs[a] == m1.view_jobs[l1];
        let b = choose|b: int| 0 <= b < m0.view_jobs.len() && m0.view_jobs[b] == m1.view_jobs[l2];
        assert(pending_link(m0, a, j1, vid));
        assert(pending_link(m0, b, j2, vid));
    }
}

/// Structural rules carry over a users-only rewrite that keeps identifiers
/// in place.
proof fn lemma_wf_structure_unchanged_users(m0: StoreModel, m1: StoreModel)
    requires
        wf(m0),
        m1.jobs == m0.jobs,
        m1.views == m0.views,
        m1.view_jobs == m0.view_jobs,
        m1.exported == m0.exported,
        m1.job_errors == m0.job_errors,
        m1.next_id == m0.next_id,
        user_rows_ok(m1.users, m1.next_id),
        forall|i: int, j: int|
            0 <= i < j < m1.users.len() ==> (#[trigger] m1.users[i].email)@ != (
            #[trigger] m1.users[j].email)@,
    ensures
        wf(m1),
{
    assert forall|l: int|
        0 <= l < m1.view_jobs.len() implies has_job(
        m1.jobs,
        (#[trigger] m1.view_jobs[l]).job_id,
    ) && has_view(m1.views, m1.view_jobs[l].datasource_view_id) by {
        assert(has_job(m0.jobs, m0.view_jobs[l].job_id));
        assert(has_view(m0.views, m0.view_jobs[l].datasource_view_id));
    }
    assert forall|vid: u128, l1: int, j1: int, l2: int, j2: int| #[trigger]
        pending_link(m1, l1, j1, vid) && #[trigger] pending_link(m1, l2, j2, vid) implies j1
        == j2 by {
        assert(pending_link(m0, l1, j1, vid));
        assert(pending_link(m0, l2, j2, vid));
    }
}

} // verus!
