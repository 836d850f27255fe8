//! Request and response bodies of the datasource surface, and the error body
//! every surface renders.

use vstd::prelude::*;

verus! {

/// Error body returned to the caller.
#[derive(Debug)]
pub struct ApiError {
    pub error: String,
}

impl ApiError {
    /// Wraps a message into an error body.
    pub fn from_message(value: &str) -> (r: ApiError)
        ensures
            r.error@ == value@,
    {
        ApiError { error: value.to_owned() }
    }
}

/// How to reach an Airtable table: base, table and view identifiers, the
/// fields to request, and—when the table holds users to import—which columns
/// carry the name and email.
#[derive(Debug)]
pub struct AirtableDatasourceViewRequestMetadata {
    pub is_user_table: bool,
    pub first_name_column: Option<String>,
    pub last_name_column: Option<String>,
    pub email_column: Option<String>,
    pub base: String,
    pub table: String,
    pub view: String,
    pub fields: Vec<String>,
}

/// Metadata describing how to reach the concrete external resource, by
/// datasource kind.
#[derive(Debug)]
pub enum DatasourceViewRequestMetadata {
    Airtable(AirtableDatasourceViewRequestMetadata),
}

/// Query parameters of a datasource read, by datasource kind.
#[derive(Debug)]
pub enum DatasourceViewRequest {
    Airtable { offset: Option<String> },
    Google,
}

/// Body of a request to create a datasource view.
#[derive(Debug)]
pub struct CreateDatasourceViewRequest {
    pub name: String,
    pub description: String,
    pub metadata: AirtableDatasourceViewRequestMetadata,
}

/// Body returned when an Airtable view and its import job were created.
#[derive(Debug)]
pub struct CreateAirtableViewResponse {
    pub job_id: String,
}

/// A copy of an optional string, value for value.
pub fn duplicate_opt_string(s: &Option<String>) -> (r: Option<String>)
    ensures
        r == *s,
{
    match s {
        Some(v) => Some(v.clone()),
        None => None,
    }
}

/// A copy of a list of strings, value for value.
pub fn duplicate_strings(v: &Vec<String>) -> (r: Vec<String>)
    ensures
        r@ == v@,
{
    let r = v.clone();
    proof {
        assert(r@ =~= v@);
    }
    r
}

/// Two Airtable metadata values that carry the same information; the field
/// list is compared element for element.
pub open spec fn airtable_meta_like(
    a: AirtableDatasourceViewRequestMetadata,
    b: AirtableDatasourceViewRequestMetadata,
) -> bool {
    &&& a.is_user_table == b.is_user_table
    &&& a.first_name_column == b.first_name_column
    &&& a.last_name_column == b.last_name_column
    &&& a.email_column == b.email_column
    &&& a.base == b.base
    &&& a.table == b.table
    &&& a.view == b.view
    &&& a.fields@ == b.fields@
}

/// Two metadata values that carry the same information.
pub open spec fn meta_like(
    a: DatasourceViewRequestMetadata,
    b: DatasourceViewRequestMetadata,
) -> bool {
    match (a, b) {
        (
            DatasourceViewRequestMetadata::Airtable(am),
            DatasourceViewRequestMetadata::Airtable(bm),
        ) => airtable_meta_like(am, bm),
    }
}

impl AirtableDatasourceViewRequestMetadata {
    /// A field-for-field copy of the metadata.
    pub fn duplicate(&self) -> (r: AirtableDatasourceViewRequestMetadata)
        ensures
            airtable_meta_like(r, *self),
    {
        let r = AirtableDatasourceViewRequestMetadata {
            is_user_table: self.is_user_table,
            first_name_column: duplicate_opt_string(&self.first_name_column),
            last_name_column: duplicate_opt_string(&self.last_name_column),
            email_column: duplicate_opt_string(&self.email_column),
            base: self.base.clone(),
            table: self.table.clone(),
            view: self.view.clone(),
            fields: duplicate_strings(&self.fields),
        };
        r
    }
}

impl DatasourceViewRequestMetadata {
    /// A field-for-field copy of the metadata.
    pub fn duplicate(&self) -> (r: DatasourceViewRequestMetadata)
        ensures
            meta_like(r, *self),
    {
        match self {
            DatasourceViewRequestMetadata::Airtable(m) => DatasourceViewRequestMetadata::Airtable(
                m.duplicate(),
            ),
        }
    }
}

} // verus!
