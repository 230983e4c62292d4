// Tenant provisioning against the directory model, the statement builders,
// and the typed failure mappings.

use otp_auth::outcome::{category_for_code, StatusCategory};
use otp_auth::store::{cache_failure_status, CacheFailure};
use otp_auth::tenants::{
    clone_table_sql, create_schema_sql, create_sequence_sql, db_failure_outcome,
    is_valid_tenant_name, tenant_exists_sql, DbFailure, TenantDirectory,
};

fn directory() -> TenantDirectory {
    TenantDirectory::new(
        vec!["users".to_string(), "access_groups".to_string()],
        vec!["users_user_id_seq".to_string()],
    )
}

#[test]
fn provisioning_twice_conflicts() {
    let mut dir = directory();
    let first = dir.provision(&"acme".to_string());
    assert_eq!(first.status, StatusCategory::Created);
    assert_eq!(first.status.code(), 201);
    assert_eq!(first.detail, "Tenant created");

    let second = dir.provision(&"acme".to_string());
    assert_eq!(second.status, StatusCategory::Conflict);
    assert_eq!(second.status.code(), 409);
    assert_eq!(second.detail, "Tenant already exists");
}

#[test]
fn provisioning_distinct_tenants_succeeds() {
    let mut dir = directory();
    assert_eq!(dir.provision(&"acme".to_string()).status, StatusCategory::Created);
    assert_eq!(dir.provision(&"globex".to_string()).status, StatusCategory::Created);
    assert!(dir.tenant_exists(&"acme".to_string()));
    assert!(dir.tenant_exists(&"globex".to_string()));
    assert!(!dir.tenant_exists(&"initech".to_string()));
}

#[test]
fn invalid_tenant_names_are_rejected() {
    let mut dir = directory();
    for bad in ["", "1acme", "Acme", "acme-corp", "a'; DROP SCHEMA public; --"] {
        let outcome = dir.provision(&bad.to_string());
        assert_eq!(outcome.status, StatusCategory::BadRequest);
        assert_eq!(outcome.detail, "Invalid tenant name");
    }
    // sixty-three characters pass, sixty-four do not
    let long_ok = "a".repeat(63);
    let long_bad = "a".repeat(64);
    assert!(is_valid_tenant_name(&long_ok));
    assert!(!is_valid_tenant_name(&long_bad));
    assert!(is_valid_tenant_name("acme_2"));
}

#[test]
fn statement_texts_are_exact() {
    let schema = "acme".to_string();
    assert_eq!(create_schema_sql(&schema), "CREATE SCHEMA acme");
    assert_eq!(
        clone_table_sql(&schema, &"users".to_string()),
        "CREATE TABLE acme.users (LIKE public.users INCLUDING ALL)"
    );
    assert_eq!(
        create_sequence_sql(&schema, &"users_user_id_seq".to_string()),
        "CREATE SEQUENCE acme.users_user_id_seq"
    );
    assert_eq!(
        tenant_exists_sql(&schema),
        "SELECT EXISTS (SELECT * FROM pg_catalog.pg_namespace WHERE nspname = 'acme');"
    );
}

#[test]
fn db_failures_map_to_their_categories() {
    let cases = [
        (DbFailure::ConnectionAcquire, StatusCategory::Unavailable),
        (DbFailure::TryInto, StatusCategory::BadRequest),
        (DbFailure::Conn, StatusCategory::Internal),
        (DbFailure::Exec, StatusCategory::Internal),
        (DbFailure::Query, StatusCategory::Internal),
        (DbFailure::ConvertFromU64, StatusCategory::BadRequest),
        (DbFailure::UnpackInsertId, StatusCategory::Internal),
        (DbFailure::UpdateGetPrimaryKey, StatusCategory::BadRequest),
        (DbFailure::RecordNotFound, StatusCategory::NotFound),
        (DbFailure::AttrNotSet, StatusCategory::BadRequest),
        (DbFailure::Custom, StatusCategory::Internal),
        (DbFailure::Type, StatusCategory::BadRequest),
        (DbFailure::Json, StatusCategory::BadRequest),
        (DbFailure::Migration, StatusCategory::Internal),
        (DbFailure::AlreadyExists, StatusCategory::Conflict),
    ];
    for (failure, status) in cases {
        let outcome = db_failure_outcome(failure, "boom".to_string());
        assert_eq!(outcome.status, status);
    }
}

#[test]
fn already_exists_detail_is_normalized() {
    let outcome = db_failure_outcome(
        DbFailure::AlreadyExists,
        "ERROR: schema \"acme\" already exists".to_string(),
    );
    assert_eq!(outcome.detail, "Tenant already exists");
    let other = db_failure_outcome(DbFailure::Exec, "boom".to_string());
    assert_eq!(other.detail, "boom");
}

#[test]
fn cache_failures_map_to_their_categories() {
    let cases = [
        (CacheFailure::NilResponse, StatusCategory::NotFound),
        (CacheFailure::IncompatibleResponse, StatusCategory::NotFound),
        (CacheFailure::ResponseError, StatusCategory::Internal),
        (CacheFailure::AuthenticationFailed, StatusCategory::Unauthorized),
        (CacheFailure::TypeError, StatusCategory::BadRequest),
        (CacheFailure::ExecAbort, StatusCategory::Internal),
        (CacheFailure::BusyLoading, StatusCategory::Unavailable),
        (CacheFailure::NoScript, StatusCategory::Internal),
        (CacheFailure::InvalidClientConfig, StatusCategory::BadRequest),
        (CacheFailure::Moved, StatusCategory::MovedPermanently),
        (CacheFailure::Ask, StatusCategory::TemporaryRedirect),
        (CacheFailure::TryAgain, StatusCategory::Internal),
        (CacheFailure::ClusterDown, StatusCategory::Unavailable),
        (CacheFailure::CrossSlot, StatusCategory::Internal),
        (CacheFailure::MasterDown, StatusCategory::Unavailable),
        (CacheFailure::Io, StatusCategory::Internal),
        (CacheFailure::Client, StatusCategory::BadRequest),
        (CacheFailure::Extension, StatusCategory::Internal),
        (CacheFailure::ReadOnly, StatusCategory::Forbidden),
        (CacheFailure::Unknown, StatusCategory::Internal),
    ];
    for (failure, status) in cases {
        assert_eq!(cache_failure_status(failure), status);
    }
}

#[test]
fn status_codes_are_the_http_codes() {
    assert_eq!(StatusCategory::Success.code(), 200);
    assert_eq!(StatusCategory::Created.code(), 201);
    assert_eq!(StatusCategory::MovedPermanently.code(), 301);
    assert_eq!(StatusCategory::TemporaryRedirect.code(), 307);
    assert_eq!(StatusCategory::BadRequest.code(), 400);
    assert_eq!(StatusCategory::Unauthorized.code(), 401);
    assert_eq!(StatusCategory::Forbidden.code(), 403);
    assert_eq!(StatusCategory::NotFound.code(), 404);
    assert_eq!(StatusCategory::Conflict.code(), 409);
    assert_eq!(StatusCategory::Internal.code(), 500);
    assert_eq!(StatusCategory::BadGateway.code(), 502);
    assert_eq!(StatusCategory::Unavailable.code(), 503);
    assert!(StatusCategory::Success.is_success());
    assert!(StatusCategory::Created.is_success());
    assert!(!StatusCategory::NotFound.is_success());
}

#[test]
fn codes_map_back_to_categories() {
    assert_eq!(category_for_code(200), StatusCategory::Success);
    assert_eq!(category_for_code(404), StatusCategory::NotFound);
    assert_eq!(category_for_code(409), StatusCategory::Conflict);
    assert_eq!(category_for_code(500), StatusCategory::Internal);
    assert_eq!(category_for_code(418), StatusCategory::Internal);
}
