//! What authentication hands on, and what it shows in logs.

use gears_core::authn::{
    AuthenticationResult, ClientCredentialsRequest, SecurityContext, VerifiedPrincipal,
};
use secrecy::{ExposeSecret, SecretString};
use uuid::Uuid;

const SUBJECT: u128 = 0x0123_4567_89ab_cdef_0011_2233_4455_66ff;

fn context(subject_id: u128) -> SecurityContext<String> {
    SecurityContext {
        subject_id,
        subject_tenant_id: 2,
        token_scopes: vec!["read".to_owned()],
        bearer_token: None,
        tenant_id: None,
    }
}

fn principal(subject_id: u128) -> VerifiedPrincipal {
    VerifiedPrincipal {
        subject_id,
        external_subject: "idp|12345".to_owned(),
        issuer: "https://idp.example/\"q\"".to_owned(),
        email: Some("user@example.com".to_owned()),
        email_verified: Some(true),
        provider: "google.com".to_owned(),
        is_anonymous: false,
        issued_at: 1_700_000_000,
        auth_time: -1,
        expires_at: i64::MIN,
    }
}

#[test]
fn context_alone_carries_no_principal() {
    let result = AuthenticationResult::authenticated(context(SUBJECT));
    assert!(result.security_context == context(SUBJECT));
    assert!(result.principal.is_none());
}

#[test]
fn principal_is_carried_as_it_is() {
    let result = AuthenticationResult::with_principal(context(SUBJECT), principal(SUBJECT));
    assert!(result.security_context == context(SUBJECT));
    assert!(result.principal == Some(principal(SUBJECT)));
    let other = AuthenticationResult::with_principal(context(SUBJECT), principal(1));
    assert_eq!(other.principal.unwrap().subject_id, 1);
}

#[test]
fn log_line_of_a_principal() {
    assert_eq!(
        principal(SUBJECT).debug_text(),
        "VerifiedPrincipal { subject_id: 01234567-89ab-cdef-0011-2233445566ff, \
         external_subject: \"[redacted]\", issuer: \"https://idp.example/\\\"q\\\"\", \
         email: Some(\"[redacted]\"), email_verified: Some(true), provider: \"google.com\", \
         is_anonymous: false, issued_at: 1700000000, auth_time: -1, \
         expires_at: -9223372036854775808 }"
    );
}

#[test]
fn log_line_without_optional_claims() {
    let mut bare = principal(0);
    bare.email = None;
    bare.email_verified = None;
    bare.is_anonymous = true;
    bare.expires_at = 0;
    assert_eq!(
        bare.debug_text(),
        "VerifiedPrincipal { subject_id: 00000000-0000-0000-0000-000000000000, \
         external_subject: \"[redacted]\", issuer: \"https://idp.example/\\\"q\\\"\", \
         email: None, email_verified: None, provider: \"google.com\", \
         is_anonymous: true, issued_at: 1700000000, auth_time: -1, expires_at: 0 }"
    );
    bare.email_verified = Some(false);
    assert!(bare.debug_text().contains("email_verified: Some(false)"));
}

#[test]
fn log_line_does_not_depend_on_personal_data() {
    let a = principal(SUBJECT);
    let mut b = principal(SUBJECT);
    b.external_subject = String::new();
    b.email = Some("someone.else@example.org".to_owned());
    assert_eq!(a.debug_text(), b.debug_text());
    assert!(!a.debug_text().contains("idp|12345"));
    assert!(!a.debug_text().contains("user@example.com"));
}

#[test]
fn redacted_keeps_the_rest() {
    let shown = principal(SUBJECT).redacted();
    assert_eq!(shown.subject_id, SUBJECT);
    assert_eq!(shown.external_subject, "[redacted]");
    assert_eq!(shown.email, Some("[redacted]"));
    assert_eq!(shown.provider, "google.com");
    assert_eq!(shown.expires_at, i64::MIN);
    assert_eq!(Uuid::from_u128(shown.subject_id).to_string(), "01234567-89ab-cdef-0011-2233445566ff");
}

#[test]
fn credentials_keep_their_secret() {
    let request = ClientCredentialsRequest {
        client_id: "service".to_owned(),
        client_secret: SecretString::from("hunter2"),
        scopes: Vec::new(),
    };
    assert_eq!(request.client_secret.expose_secret(), "hunter2");
    assert_eq!(request.client_id, "service");
    assert!(request.scopes.is_empty());
}

/// A context that a log shows by its fields.
#[derive(Debug)]
#[allow(dead_code)]
struct Context {
    subject_id: u32,
    scopes: Vec<&'static str>,
}

/// A value that is shown as its text reads.
struct Shown(String);

impl std::fmt::Debug for Shown {
    fn fmt(&self, f: &mut std::fmt::Formatter<'_>) -> std::fmt::Result {
        f.write_str(&self.0)
    }
}

fn std_principal(principal: &VerifiedPrincipal, pretty: bool) -> String {
    let shown = ShownPrincipal(principal);
    if pretty {
        format!("{shown:#?}")
    } else {
        format!("{shown:?}")
    }
}

/// A principal that std formats, field by field.
struct ShownPrincipal<'a>(&'a VerifiedPrincipal);

impl std::fmt::Debug for ShownPrincipal<'_> {
    fn fmt(&self, f: &mut std::fmt::Formatter<'_>) -> std::fmt::Result {
        f.debug_struct("VerifiedPrincipal")
            .field("subject_id", &Uuid::from_u128(self.0.subject_id))
            .field("external_subject", &"[redacted]")
            .field("issuer", &self.0.issuer)
            .field("email", &self.0.email.as_ref().map(|_| "[redacted]"))
            .field("email_verified", &self.0.email_verified)
            .field("provider", &self.0.provider)
            .field("is_anonymous", &self.0.is_anonymous)
            .field("issued_at", &self.0.issued_at)
            .field("auth_time", &self.0.auth_time)
            .field("expires_at", &self.0.expires_at)
            .finish()
    }
}

fn std_result(context: &Context, principal: Option<&VerifiedPrincipal>, pretty: bool) -> String {
    let principal = principal.map(|principal| Shown(std_principal(principal, pretty)));
    let shown = ShownResult(context, principal);
    if pretty {
        format!("{shown:#?}")
    } else {
        format!("{shown:?}")
    }
}

struct ShownResult<'a>(&'a Context, Option<Shown>);

impl std::fmt::Debug for ShownResult<'_> {
    fn fmt(&self, f: &mut std::fmt::Formatter<'_>) -> std::fmt::Result {
        f.debug_struct("AuthenticationResult")
            .field("security_context", self.0)
            .field("principal", &self.1)
            .finish()
    }
}

fn bare_principal() -> VerifiedPrincipal {
    let mut bare = principal(3);
    bare.email = None;
    bare.email_verified = None;
    bare
}

#[test]
fn principal_reads_as_std_writes_it() {
    for shown in [principal(SUBJECT), bare_principal()] {
        assert_eq!(shown.debug_text(), std_principal(&shown, false));
        assert_eq!(shown.debug_pretty_text(), std_principal(&shown, true));
    }
    assert!(principal(SUBJECT).debug_pretty_text().starts_with(
        "VerifiedPrincipal {\n    subject_id: 01234567-89ab-cdef-0011-2233445566ff,\n"
    ));
}

#[test]
fn result_reads_as_std_writes_it() {
    let logged = Context { subject_id: 7, scopes: vec!["a", "b"] };
    let carried = AuthenticationResult::with_principal(context(SUBJECT), principal(SUBJECT));
    let alone = AuthenticationResult::authenticated(context(SUBJECT));
    assert_eq!(
        carried.debug_text(&format!("{logged:?}")),
        std_result(&logged, Some(&principal(SUBJECT)), false)
    );
    assert_eq!(
        carried.debug_pretty_text(&format!("{logged:#?}")),
        std_result(&logged, Some(&principal(SUBJECT)), true)
    );
    assert_eq!(alone.debug_text(&format!("{logged:?}")), std_result(&logged, None, false));
    assert_eq!(alone.debug_pretty_text(&format!("{logged:#?}")), std_result(&logged, None, true));
}

#[test]
fn result_does_not_show_personal_data() {
    let mut other = principal(SUBJECT);
    other.external_subject = "someone".to_owned();
    other.email = Some("someone@example.org".to_owned());
    let a = AuthenticationResult::with_principal(context(SUBJECT), principal(SUBJECT));
    let b = AuthenticationResult::with_principal(context(SUBJECT), other);
    assert_eq!(a.debug_text("ctx"), b.debug_text("ctx"));
    assert_eq!(a.debug_pretty_text("ctx"), b.debug_pretty_text("ctx"));
    assert!(a.debug_text("ctx").starts_with(
        "AuthenticationResult { security_context: ctx, principal: Some(VerifiedPrincipal { "
    ));
    assert!(!a.debug_pretty_text("ctx").contains("user@example.com"));
}
