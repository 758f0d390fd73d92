//! The authenticated caller that a verified credential describes: its role
//! among the roles it holds, the endpoints it may use, and its trusted
//! session values.
use vstd::prelude::*;
use crate::gateway::{AuthContext, EndpointPermission};
use crate::identity::{is_canonical_key, session_error, RoleName, TrustedSession};
use crate::public_error::RuntimeError;
use crate::text::text_eq;
use crate::text_map::TextMap;

verus! {

/// What a verified credential asserts: the subject, the active role, every
/// role held, the endpoints granted by name, and further session values.
#[derive(Debug)]
pub struct VerifiedAuth {
    pub subject: String,
    pub role: String,
    pub roles: Vec<String>,
    pub access: Vec<String>,
    pub session: TextMap<String>,
}

/// The endpoint a granted name stands for.
pub open spec fn permission_named(name: Seq<char>) -> Option<EndpointPermission> {
    if name == "execute"@ {
        Some(EndpointPermission::Execute)
    } else if name == "explain"@ {
        Some(EndpointPermission::Explain)
    } else if name == "catalog"@ {
        Some(EndpointPermission::Catalog)
    } else {
        None
    }
}

/// The endpoint named `value`; any other name is refused as access the
/// caller does not have.
pub fn endpoint_permission(value: &str) -> (r: Result<EndpointPermission, RuntimeError>)
    ensures
        match permission_named(value@) {
            Some(p) => r == Ok::<EndpointPermission, RuntimeError>(p),
            None => r == Err::<EndpointPermission, RuntimeError>(RuntimeError::Access),
        },
{
    if text_eq(value, "execute") {
        Ok(EndpointPermission::Execute)
    } else if text_eq(value, "explain") {
        Ok(EndpointPermission::Explain)
    } else if text_eq(value, "catalog") {
        Ok(EndpointPermission::Catalog)
    } else {
        Err(RuntimeError::Access)
    }
}

/// The roles are a non-empty list without repeats that holds the active
/// role.
pub open spec fn roles_ok(raw: VerifiedAuth) -> bool {
    &&& raw.roles@.len() > 0
    &&& exists|i: int| 0 <= i < raw.roles@.len() && (#[trigger] raw.roles@[i])@ == raw.role@
    &&& forall|i: int, j: int|
        0 <= i < j < raw.roles@.len() ==> (#[trigger] raw.roles@[i])@ != (#[trigger] raw.roles@[j])@
}

/// Every granted name is a known endpoint.
pub open spec fn access_known(raw: VerifiedAuth) -> bool {
    forall|i: int| 0 <= i < raw.access@.len() ==> permission_named((#[trigger] raw.access@[i])@) is Some
}

/// Endpoint `p` is among the granted ones.
pub open spec fn access_grants(raw: VerifiedAuth, p: EndpointPermission) -> bool {
    exists|i: int| 0 <= i < raw.access@.len() && permission_named((#[trigger] raw.access@[i])@) == Some(p)
}

/// The credential's session can be trusted: a subject, and no session key
/// that is reserved or not canonical.
pub open spec fn session_ok(raw: VerifiedAuth) -> bool {
    raw.subject@.len() > 0 && session_error(raw.session.entries()) is None
}

fn roles_valid(raw: &VerifiedAuth) -> (r: bool)
    ensures
        r == roles_ok(*raw),
{
    let n = raw.roles.len();
    if n == 0 {
        return false;
    }
    let mut found = false;
    let mut i: usize = 0;
    while i < n
        invariant
            n == raw.roles@.len(),
            i <= n,
            found == exists|a: int| 0 <= a < i && (#[trigger] raw.roles@[a])@ == raw.role@,
            forall|a: int, b: int| 0 <= a < b < i ==> (#[trigger] raw.roles@[a])@ != (#[trigger] raw.roles@[b])@,
        decreases n - i,
    {
        let mut j: usize = 0;
        while j < i
            invariant
                n == raw.roles@.len(),
                j <= i < n,
                forall|a: int| 0 <= a < j ==> (#[trigger] raw.roles@[a])@ != raw.roles@[i as int]@,
            decreases i - j,
        {
            if text_eq(raw.roles[j].as_str(), raw.roles[i].as_str()) {
                assert(!roles_ok(*raw)) by {
                    assert(raw.roles@[j as int]@ == raw.roles@[i as int]@);
                }
                return false;
            }
            j = j + 1;
        }
        if text_eq(raw.roles[i].as_str(), raw.role.as_str()) {
            found = true;
        }
        i = i + 1;
    }
    found
}

/// The permissions the credential grants, each known name once per grant.
fn granted(raw: &VerifiedAuth) -> (r: Result<Vec<EndpointPermission>, RuntimeError>)
    ensures
        r is Ok == access_known(*raw),
        r matches Err(e) ==> e == RuntimeError::Access,
        r matches Ok(ps) ==> forall|p: EndpointPermission| #[trigger] ps@.contains(p) == access_grants(*raw, p),
{
    let mut out: Vec<EndpointPermission> = Vec::new();
    let mut i: usize = 0;
    while i < raw.access.len()
        invariant
            i <= raw.access@.len(),
            out@.len() == i,
            forall|a: int| 0 <= a < i ==> permission_named((#[trigger] raw.access@[a])@) == Some(out@[a]),
        decreases raw.access.len() - i,
    {
        let p = match endpoint_permission(raw.access[i].as_str()) {
            Ok(p) => p,
            Err(e) => {
                return Err(e);
            },
        };
        out.push(p);
        i = i + 1;
    }
    proof {
        assert forall|p: EndpointPermission| #[trigger] out@.contains(p) == access_grants(*raw, p) by {
            if out@.contains(p) {
                let a = choose|a: int| 0 <= a < out@.len() && out@[a] == p;
                assert(permission_named(raw.access@[a]@) == Some(p));
            }
            if access_grants(*raw, p) {
                let a = choose|a: int| 0 <= a < raw.access@.len() && permission_named((#[trigger] raw.access@[a])@) == Some(p);
                assert(out@[a] == p);
            }
        }
    }
    Ok(out)
}

/// The authenticated caller that a verified credential describes, where it
/// may use endpoint `requested`. A credential whose roles are inconsistent,
/// whose role is no canonical key or whose session cannot be trusted is
/// refused as unauthenticated; one that names an unknown endpoint or does
/// not grant `requested` is refused access.
pub fn activate_auth(raw: VerifiedAuth, requested: EndpointPermission) -> (r: Result<AuthContext, RuntimeError>)
    requires
        raw.session.wf(),
    ensures
        !roles_ok(raw) ==> r == Err::<AuthContext, RuntimeError>(RuntimeError::Authentication),
        roles_ok(raw) && !access_known(raw) ==> r == Err::<AuthContext, RuntimeError>(RuntimeError::Access),
        roles_ok(raw) && access_known(raw) && !access_grants(raw, requested) ==> r == Err::<AuthContext, RuntimeError>(
            RuntimeError::Access,
        ),
        roles_ok(raw) && access_known(raw) && access_grants(raw, requested) && !(is_canonical_key(raw.role@)
            && session_ok(raw)) ==> r == Err::<AuthContext, RuntimeError>(RuntimeError::Authentication),
        r is Ok <==> roles_ok(raw) && access_known(raw) && access_grants(raw, requested) && is_canonical_key(raw.role@)
            && session_ok(raw),
        r matches Ok(ctx) ==> ctx.session_spec().role_spec()@ == raw.role@ && forall|p: EndpointPermission| #[trigger]
            ctx.permits(p) == access_grants(raw, p),
{
    if !roles_valid(&raw) {
        return Err(RuntimeError::Authentication);
    }
    let permissions = match granted(&raw) {
        Ok(ps) => ps,
        Err(e) => {
            return Err(e);
        },
    };
    let mut present = false;
    let mut i: usize = 0;
    while i < permissions.len()
        invariant
            i <= permissions@.len(),
            present == permissions@.take(i as int).contains(requested),
        decreases permissions.len() - i,
    {
        let ghost before = permissions@.take(i as int);
        let ghost after = permissions@.take(i + 1);
        proof {
            assert(after =~= before.push(permissions@[i as int]));
        }
        if permissions[i] == requested {
            present = true;
            proof {
                assert(after[i as int] == requested);
            }
        } else {
            proof {
                assert(after.contains(requested) ==> before.contains(requested)) by {
                    if after.contains(requested) {
                        let k = choose|k: int| 0 <= k < after.len() && after[k] == requested;
                        assert(k < i);
                        assert(before[k] == after[k]);
                    }
                }
                assert(before.contains(requested) ==> after.contains(requested)) by {
                    if before.contains(requested) {
                        let k = choose|k: int| 0 <= k < before.len() && before[k] == requested;
                        assert(after[k] == before[k]);
                    }
                }
            }
        }
        i = i + 1;
    }
    proof {
        assert(permissions@.take(i as int) =~= permissions@);
    }
    if !present {
        return Err(RuntimeError::Access);
    }
    let role = match RoleName::new(raw.role.as_str()) {
        Ok(role) => role,
        Err(_) => {
            return Err(RuntimeError::Authentication);
        },
    };
    let session = match TrustedSession::new(role, raw.subject.as_str(), raw.session) {
        Ok(s) => s,
        Err(_) => {
            return Err(RuntimeError::Authentication);
        },
    };
    Ok(AuthContext::new(session, permissions.as_slice()))
}

} // verus!
