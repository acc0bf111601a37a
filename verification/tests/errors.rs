use review_kb::errors::ErrorCode;

#[test]
fn error_codes_have_exact_wire_strings() {
    let cases = vec![
        (ErrorCode::InvalidArgument, "INVALID_ARGUMENT", 2),
        (ErrorCode::ChecklistNotFound, "CHECKLIST_NOT_FOUND", 2),
        (ErrorCode::ChecklistInvalid, "CHECKLIST_INVALID", 2),
        (ErrorCode::InvalidSelection, "INVALID_SELECTION", 2),
        (ErrorCode::ProjectNotFound, "PROJECT_NOT_FOUND", 3),
        (ErrorCode::RuleNotFound, "RULE_NOT_FOUND", 3),
        (ErrorCode::KnowledgeRevisionMismatch, "KNOWLEDGE_REVISION_MISMATCH", 4),
        (ErrorCode::OverrideConflict, "OVERRIDE_CONFLICT", 4),
        (ErrorCode::DbLocked, "DB_LOCKED", 5),
        (ErrorCode::DbIntegrityError, "DB_INTEGRITY_ERROR", 5),
        (ErrorCode::DbSchemaUnsupported, "DB_SCHEMA_UNSUPPORTED", 5),
        (ErrorCode::BackupInvalid, "BACKUP_INVALID", 5),
        (ErrorCode::InternalError, "INTERNAL_ERROR", 1),
    ];
    for (code, word, status) in cases {
        assert_eq!(code.as_str(), word);
        assert_eq!(code.exit_code(), status);
    }
}
