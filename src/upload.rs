//! The submission handler's decisions: what a submission writes, and what
//! the caller is told once the write has been tried.

use crate::contact::{contact_json, Contact, ContactView};
use crate::json::opt_view;
use crate::object_key::{new_ulid, object_key, object_key_text};
use vstd::prelude::*;

verus! {

/// The one write that a submission makes: `contents` stored under `path`.
pub struct UploadRequest {
    pub path: String,
    pub contents: String,
}

/// A submission that could not be stored, with the underlying cause.
pub struct UploadFailure {
    pub cause: String,
}

/// The record built from the five submitted fields.
pub open spec fn submitted(
    first_name: Option<String>,
    last_name: Option<String>,
    email: Option<String>,
    phone: Option<String>,
    note: Option<String>,
) -> ContactView {
    ContactView {
        first_name: opt_view(first_name),
        last_name: opt_view(last_name),
        email: opt_view(email),
        phone: opt_view(phone),
        note: opt_view(note),
    }
}

/// The write for a submission named `id`: the document of the five fields,
/// under the key `/<id>.json`.
pub fn prepare_upload(
    first_name: Option<String>,
    last_name: Option<String>,
    email: Option<String>,
    phone: Option<String>,
    note: Option<String>,
    id: u128,
) -> (r: UploadRequest)
    ensures
        r.path@ == object_key_text(id),
        r.contents@ == contact_json(submitted(first_name, last_name, email, phone, note)),
{
    let contact = Contact::new(first_name, last_name, email, phone, note);
    let contents = contact.to_json();
    UploadRequest { path: object_key(id), contents }
}

/// The write for a new submission, under a fresh ULID.
pub fn new_upload(
    first_name: Option<String>,
    last_name: Option<String>,
    email: Option<String>,
    phone: Option<String>,
    note: Option<String>,
) -> (r: UploadRequest)
    ensures
        exists|id: u128| r.path@ == object_key_text(id),
        r.contents@ == contact_json(submitted(first_name, last_name, email, phone, note)),
{
    let id = new_ulid();
    prepare_upload(first_name, last_name, email, phone, note, id)
}

/// Where the caller is sent after a stored submission.
pub open spec fn thank_you_path() -> Seq<char> {
    "/thankyou"@
}

/// The answer to the caller once the write has been tried: on success the
/// path to redirect to, `/thankyou`; on failure an `UploadFailure` that
/// carries the cause, and no redirect.
pub fn finish_upload(outcome: Result<(), String>) -> (r: Result<String, UploadFailure>)
    ensures
        outcome is Ok ==> (r matches Ok(p) && p@ == thank_you_path()),
        outcome matches Err(cause) ==> (r matches Err(f) && f.cause@ == cause@),
{
    match outcome {
        Ok(()) => Ok(String::from_str("/thankyou")),
        Err(cause) => Err(UploadFailure { cause }),
    }
}

/// What the caller is told of a failure: one generic message.
pub open spec fn failure_message() -> Seq<char> {
    "failed to upload contact"@
}

impl UploadFailure {
    /// The message shown to the caller; it says nothing of the cause.
    pub fn message(&self) -> (r: String)
        ensures
            r@ == failure_message(),
    {
        String::from_str("failed to upload contact")
    }

    /// The diagnostic line logged for the operator: the message, then the
    /// cause.
    pub fn log_line(&self) -> (r: String)
        ensures
            r@ == failure_message() + ": "@ + self.cause@,
    {
        let mut line = String::from_str("failed to upload contact");
        line.append(": ");
        line.append(self.cause.as_str());
        line
    }
}

} // verus!
