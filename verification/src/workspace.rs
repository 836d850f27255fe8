//! Directory-service account data: what the pipeline hands to the external
//! directory client when it provisions an account, and the notification
//! text delivered alongside a freshly created account.

use vstd::prelude::*;

use crate::export::PlannedUser;
use crate::external::{trim_of, trim_str};

verus! {

/// A directory account's name.
#[derive(Debug)]
pub struct Name {
    pub given_name: String,
    pub family_name: String,
    pub full_name: Option<String>,
}

/// A directory account's email entry.
#[derive(Debug)]
pub struct Email {
    pub address: String,
    pub type_field: Option<String>,
    pub primary: Option<bool>,
}

/// A directory account's language entry.
#[derive(Debug)]
pub struct Language {
    pub language_code: String,
    pub preference: String,
}

/// A directory account as the directory service reports it.
#[derive(Debug)]
pub struct WorkspaceUser {
    pub kind: String,
    pub id: String,
    pub etag: String,
    pub primary_email: String,
    pub name: Name,
    pub is_admin: bool,
    pub is_delegated_admin: bool,
    pub last_login_time: String,
    pub creation_time: String,
    pub agreed_to_terms: bool,
    pub suspended: bool,
    pub archived: bool,
    pub change_password_at_next_login: bool,
    pub ip_whitelisted: bool,
    pub emails: Vec<Email>,
    pub languages: Vec<Language>,
    pub non_editable_aliases: Vec<String>,
    pub customer_id: String,
    pub org_unit_path: String,
    pub is_mailbox_setup: bool,
    pub is_enrolled_in2sv: bool,
    pub is_enforced_in2sv: bool,
    pub include_in_global_address_list: bool,
    pub recovery_email: Option<String>,
}

/// A page of directory accounts.
#[derive(Debug)]
pub struct WorkspaceUserData {
    pub kind: String,
    pub etag: String,
    pub users: Vec<WorkspaceUser>,
}

/// The token response of the directory service's credential exchange.
#[derive(Debug)]
pub struct GoogleAccessTokenResponse {
    pub access_token: String,
}

/// The request body that provisions one directory account.
#[derive(Debug)]
pub struct CreateWorkspaceUser {
    pub primary_email: String,
    pub name: Name,
    pub password: String,
    pub change_password_at_next_login: bool,
}

/// The provisioning request for one planned account: trimmed names, the
/// assigned email and password, and the configured password-change flag.
pub fn build_workspace_user(p: &PlannedUser, change_password_at_next_login: bool) -> (r:
    CreateWorkspaceUser)
    ensures
        r.primary_email@ == p.generated_email@,
        r.password@ == p.password@,
        r.name.given_name@ == trim_of(p.first_name@),
        r.name.family_name@ == trim_of(p.last_name@),
        r.name.full_name is None,
        r.change_password_at_next_login == change_password_at_next_login,
{
    CreateWorkspaceUser {
        primary_email: p.generated_email.clone(),
        name: Name {
            given_name: trim_str(p.first_name.as_str()).to_owned(),
            family_name: trim_str(p.last_name.as_str()).to_owned(),
            full_name: None,
        },
        password: p.password.clone(),
        change_password_at_next_login,
    }
}

/// The notification text delivered with one freshly created account.
pub open spec fn welcome_text_spec(email: Seq<char>, password: Seq<char>) -> Seq<char> {
    "You have been issued a Develop for Good email. Your handle is: "@ + email
        + " and your temporary password is "@ + password
        + ". You will need to change it at your next login."@
}

/// Builds the credential-delivery notification text for one account.
pub fn welcome_mail_text(email: &str, password: &str) -> (r: String)
    ensures
        r@ == welcome_text_spec(email@, password@),
{
    let mut s = String::new();
    s.append("You have been issued a Develop for Good email. Your handle is: ");
    s.append(email);
    s.append(" and your temporary password is ");
    s.append(password);
    s.append(". You will need to change it at your next login.");
    proof {
        assert(s@ =~= welcome_text_spec(email@, password@));
    }
    s
}

} // verus!
