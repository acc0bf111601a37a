//! Error codes and the error that commands report.

use vstd::prelude::*;

use crate::json::{group_json, put, Json, JsonV};

verus! {

broadcast use group_json;

/// The error codes of the command protocol.
#[derive(Copy, Clone, Debug, PartialEq, Eq, Structural)]
pub enum ErrorCode {
    InvalidArgument,
    ChecklistNotFound,
    ChecklistInvalid,
    ProjectNotFound,
    RuleNotFound,
    InvalidSelection,
    KnowledgeRevisionMismatch,
    OverrideConflict,
    DbLocked,
    DbIntegrityError,
    DbSchemaUnsupported,
    BackupInvalid,
    InternalError,
}

impl ErrorCode {
    /// The word that stands for this code in a failure envelope.
    pub open spec fn word(self) -> Seq<char> {
        match self {
            ErrorCode::InvalidArgument => "INVALID_ARGUMENT"@,
            ErrorCode::ChecklistNotFound => "CHECKLIST_NOT_FOUND"@,
            ErrorCode::ChecklistInvalid => "CHECKLIST_INVALID"@,
            ErrorCode::ProjectNotFound => "PROJECT_NOT_FOUND"@,
            ErrorCode::RuleNotFound => "RULE_NOT_FOUND"@,
            ErrorCode::InvalidSelection => "INVALID_SELECTION"@,
            ErrorCode::KnowledgeRevisionMismatch => "KNOWLEDGE_REVISION_MISMATCH"@,
            ErrorCode::OverrideConflict => "OVERRIDE_CONFLICT"@,
            ErrorCode::DbLocked => "DB_LOCKED"@,
            ErrorCode::DbIntegrityError => "DB_INTEGRITY_ERROR"@,
            ErrorCode::DbSchemaUnsupported => "DB_SCHEMA_UNSUPPORTED"@,
            ErrorCode::BackupInvalid => "BACKUP_INVALID"@,
            ErrorCode::InternalError => "INTERNAL_ERROR"@,
        }
    }

    /// The exit status of a process that fails with this code.
    pub open spec fn status(self) -> int {
        match self {
            ErrorCode::InvalidArgument
            | ErrorCode::ChecklistNotFound
            | ErrorCode::ChecklistInvalid
            | ErrorCode::InvalidSelection => 2,
            ErrorCode::ProjectNotFound | ErrorCode::RuleNotFound => 3,
            ErrorCode::KnowledgeRevisionMismatch | ErrorCode::OverrideConflict => 4,
            ErrorCode::DbLocked
            | ErrorCode::DbIntegrityError
            | ErrorCode::DbSchemaUnsupported
            | ErrorCode::BackupInvalid => 5,
            ErrorCode::InternalError => 1,
        }
    }

    pub fn as_str(self) -> (r: &'static str)
        ensures
            r@ == self.word(),
    {
        match self {
            ErrorCode::InvalidArgument => "INVALID_ARGUMENT",
            ErrorCode::ChecklistNotFound => "CHECKLIST_NOT_FOUND",
            ErrorCode::ChecklistInvalid => "CHECKLIST_INVALID",
            ErrorCode::ProjectNotFound => "PROJECT_NOT_FOUND",
            ErrorCode::RuleNotFound => "RULE_NOT_FOUND",
            ErrorCode::InvalidSelection => "INVALID_SELECTION",
            ErrorCode::KnowledgeRevisionMismatch => "KNOWLEDGE_REVISION_MISMATCH",
            ErrorCode::OverrideConflict => "OVERRIDE_CONFLICT",
            ErrorCode::DbLocked => "DB_LOCKED",
            ErrorCode::DbIntegrityError => "DB_INTEGRITY_ERROR",
            ErrorCode::DbSchemaUnsupported => "DB_SCHEMA_UNSUPPORTED",
            ErrorCode::BackupInvalid => "BACKUP_INVALID",
            ErrorCode::InternalError => "INTERNAL_ERROR",
        }
    }

    pub fn exit_code(self) -> (r: i32)
        ensures
            r == self.status(),
    {
        match self {
            ErrorCode::InvalidArgument
            | ErrorCode::ChecklistNotFound
            | ErrorCode::ChecklistInvalid
            | ErrorCode::InvalidSelection => 2,
            ErrorCode::ProjectNotFound | ErrorCode::RuleNotFound => 3,
            ErrorCode::KnowledgeRevisionMismatch | ErrorCode::OverrideConflict => 4,
            ErrorCode::DbLocked
            | ErrorCode::DbIntegrityError
            | ErrorCode::DbSchemaUnsupported
            | ErrorCode::BackupInvalid => 5,
            ErrorCode::InternalError => 1,
        }
    }
}

/// A domain error. `details` is a JSON object.
#[derive(Debug)]
pub struct ReviewKBError {
    pub code: ErrorCode,
    pub message: String,
    pub details: Json,
}

/// What a [`ReviewKBError`] stands for.
pub struct ErrorV {
    pub code: ErrorCode,
    pub message: Seq<char>,
    pub details: JsonV,
}

impl View for ReviewKBError {
    type V = ErrorV;

    open spec fn view(&self) -> ErrorV {
        ErrorV { code: self.code, message: self.message@, details: self.details@ }
    }
}

/// The object without entries.
pub open spec fn no_details() -> JsonV {
    JsonV::Object(Seq::empty())
}

/// The object that binds `name` to `value` alone.
pub open spec fn detail(name: Seq<char>, value: JsonV) -> JsonV {
    JsonV::Object(put(Seq::empty(), name, value))
}

/// `details` with one more binding.
pub open spec fn and_detail(details: JsonV, name: Seq<char>, value: JsonV) -> JsonV {
    match details {
        JsonV::Object(entries) => JsonV::Object(put(entries, name, value)),
        other => other,
    }
}

/// The error object of a failure envelope.
pub open spec fn error_value(e: ErrorV) -> JsonV {
    and_detail(
        and_detail(
            detail("code"@, JsonV::Text(e.code.word())),
            "message"@,
            JsonV::Text(e.message),
        ),
        "details"@,
        e.details,
    )
}

impl ReviewKBError {
    pub fn new(code: ErrorCode, message: String, details: Json) -> (r: ReviewKBError)
        ensures
            r@ == (ErrorV { code, message: message@, details: details@ }),
    {
        ReviewKBError { code, message, details }
    }

    /// An error with no details.
    pub fn plain(code: ErrorCode, message: &str) -> (r: ReviewKBError)
        ensures
            r@ == (ErrorV { code, message: message@, details: no_details() }),
    {
        ReviewKBError { code, message: message.to_string(), details: Json::object() }
    }

    pub fn exit_code(&self) -> (r: i32)
        ensures
            r == self@.code.status(),
    {
        self.code.exit_code()
    }

    /// The `error` object of a failure envelope.
    pub fn as_value(&self) -> (r: Json)
        ensures
            r@ == error_value(self@),
    {
        Json::object().with("code", Json::text(self.code.as_str())).with(
            "message",
            Json::text(self.message.as_str()),
        ).with("details", self.details.duplicate())
    }

    /// `code: message`, the text of a diagnostic.
    pub fn text(&self) -> (r: String)
        ensures
            r@ == self@.code.word() + ": "@ + self@.message,
    {
        let mut r = self.code.as_str().to_string();
        r.push_str(": ");
        r.push_str(self.message.as_str());
        r
    }
}

} // verus!
