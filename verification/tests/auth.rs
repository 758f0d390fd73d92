use policysql::auth::{activate_auth, endpoint_permission, VerifiedAuth};
use policysql::gateway::EndpointPermission;
use policysql::public_error::RuntimeError;
use policysql::text_map::TextMap;

fn credential(role: &str, roles: &[&str], access: &[&str]) -> VerifiedAuth {
    let mut session = TextMap::new();
    session.insert("tenant_id".to_owned(), "tenant_a".to_owned());
    VerifiedAuth {
        subject: "user_1".to_owned(),
        role: role.to_owned(),
        roles: roles.iter().map(|r| (*r).to_owned()).collect(),
        access: access.iter().map(|a| (*a).to_owned()).collect(),
        session,
    }
}

#[test]
fn endpoint_names_are_known_or_refused() {
    assert_eq!(endpoint_permission("explain"), Ok(EndpointPermission::Explain));
    assert_eq!(endpoint_permission("debug"), Err(RuntimeError::Access));
}

#[test]
fn credentials_activate_into_callers_with_their_endpoints() {
    let caller = activate_auth(credential("member", &["member", "admin"], &["execute", "catalog"]), EndpointPermission::Execute)
        .unwrap_or_else(|e| unreachable!("{e:?}"));
    assert!(caller.permitted(EndpointPermission::Catalog));
    assert!(!caller.permitted(EndpointPermission::Explain));

    assert_eq!(
        activate_auth(credential("member", &["admin"], &["execute"]), EndpointPermission::Execute).err(),
        Some(RuntimeError::Authentication)
    );
    assert_eq!(
        activate_auth(credential("member", &["member", "member"], &["execute"]), EndpointPermission::Execute).err(),
        Some(RuntimeError::Authentication)
    );
    assert_eq!(
        activate_auth(credential("member", &[], &["execute"]), EndpointPermission::Execute).err(),
        Some(RuntimeError::Authentication)
    );
    assert_eq!(
        activate_auth(credential("member", &["member"], &["execute"]), EndpointPermission::Explain).err(),
        Some(RuntimeError::Access)
    );
    assert_eq!(
        activate_auth(credential("member", &["member"], &["execute", "debug"]), EndpointPermission::Execute).err(),
        Some(RuntimeError::Access)
    );
    assert_eq!(
        activate_auth(credential("Member", &["Member"], &["execute"]), EndpointPermission::Execute).err(),
        Some(RuntimeError::Authentication)
    );
    let mut reserved = credential("member", &["member"], &["execute"]);
    reserved.session.insert("role".to_owned(), "admin".to_owned());
    assert_eq!(activate_auth(reserved, EndpointPermission::Execute).err(), Some(RuntimeError::Authentication));
}
