use policysql::identity::{
    ClientParameterName, CoreError, PolicyId, ResourceId, RoleName, ServerParameterName,
    SessionKey, TrustedSession,
};
use policysql::text_map::TextMap;

fn session_map(entries: &[(&str, &str)]) -> TextMap<String> {
    let mut map = TextMap::new();
    for (key, value) in entries {
        map.insert((*key).to_owned(), (*value).to_owned());
    }
    map
}

#[test]
fn rejects_zero_identity() {
    assert_eq!(ResourceId::new(0), Err(CoreError::ZeroIdentity));
}

#[test]
fn separates_client_and_server_parameter_namespaces() {
    assert_eq!(
        ClientParameterName::new("__policysql_session_tenant_id"),
        Err(CoreError::ReservedParameterNamespace)
    );
    let server = ServerParameterName::from_trusted_suffix("session_tenant_id");
    assert_eq!(
        server.as_ref().map(ServerParameterName::as_str),
        Ok("__policysql_session_tenant_id")
    );
}

#[test]
fn trusted_session_is_string_only_and_adds_reserved_values() {
    let role = RoleName::new("member");
    assert!(role.is_ok());
    let session = TrustedSession::new(
        role.unwrap_or_else(|error| unreachable!("validated fixture role: {error:?}")),
        "user_1",
        session_map(&[("tenant_id", "tenant_1")]),
    );
    assert!(session.is_ok());
    let session = session.unwrap_or_else(|error| unreachable!("valid session: {error:?}"));
    let tenant_key = SessionKey::new("tenant_id");
    assert!(tenant_key.is_ok());
    assert_eq!(
        session.get(&tenant_key.unwrap_or_else(|error| unreachable!("valid key: {error:?}"))),
        Some("tenant_1")
    );
}

#[test]
fn rejects_client_supplied_reserved_session_key() {
    let role = RoleName::new("member");
    assert!(role.is_ok());
    let result = TrustedSession::new(
        role.unwrap_or_else(|error| unreachable!("validated fixture role: {error:?}")),
        "user_1",
        session_map(&[("role", "admin")]),
    );
    assert_eq!(result, Err(CoreError::ReservedSessionKey));
}

#[test]
fn session_carries_subject_and_role_under_reserved_keys() {
    let role = RoleName::new("member").unwrap_or_else(|e| unreachable!("{e:?}"));
    let session = TrustedSession::new(role, "user_1", session_map(&[]))
        .unwrap_or_else(|e| unreachable!("{e:?}"));
    let subject = SessionKey::new("subject_id").unwrap_or_else(|e| unreachable!("{e:?}"));
    let role_key = SessionKey::new("role").unwrap_or_else(|e| unreachable!("{e:?}"));
    assert_eq!(session.get(&subject), Some("user_1"));
    assert_eq!(session.get(&role_key), Some("member"));
    assert_eq!(session.role().as_str(), "member");
}

#[test]
fn session_refuses_empty_subject_and_bad_keys() {
    let role = RoleName::new("member").unwrap_or_else(|e| unreachable!("{e:?}"));
    assert_eq!(
        TrustedSession::new(role.clone(), "", session_map(&[])),
        Err(CoreError::EmptySubject)
    );
    assert_eq!(
        TrustedSession::new(role, "user_1", session_map(&[("Tenant", "x")])),
        Err(CoreError::InvalidCanonicalKey)
    );
}

#[test]
fn canonical_names_are_lower_snake_case() {
    assert!(RoleName::new("member_2").is_ok());
    assert_eq!(RoleName::new("Member"), Err(CoreError::InvalidCanonicalKey));
    assert_eq!(RoleName::new("2nd"), Err(CoreError::InvalidCanonicalKey));
    assert_eq!(RoleName::new(""), Err(CoreError::InvalidCanonicalKey));
    assert!(ClientParameterName::new("tenant_id").is_ok());
    assert_eq!(PolicyId::new(0), Err(CoreError::ZeroIdentity));
    assert_eq!(PolicyId::new(9).map(PolicyId::get), Ok(9));
}
