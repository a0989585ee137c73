//! What authentication hands to the rest of the platform.
//!
//! Subjects and tenants are UUIDs, held as their 128 bits. The type of a secret is a
//! parameter, so that callers choose one that does not show what it holds.

use vstd::arithmetic::power::pow;
use vstd::prelude::*;

use crate::text::{push_signed_decimal, signed_decimal};

verus! {

/// The identity that authorization decides on.
#[derive(Clone, PartialEq, Eq)]
pub struct SecurityContext<Secret> {
    /// The authenticated user or service.
    pub subject_id: u128,
    /// The subject's home tenant.
    pub subject_tenant_id: u128,
    /// What the token restricts its bearer to.
    pub token_scopes: Vec<String>,
    /// The token itself, to be forwarded.
    pub bearer_token: Option<Secret>,
    /// The tenant of the context, where it is set already.
    pub tenant_id: Option<u128>,
}

/// The result of a successful authentication: the validated context, and verified profile
/// and time claims of the same token for the handlers that need them.
#[derive(Clone, PartialEq, Eq)]
pub struct AuthenticationResult<Secret> {
    pub security_context: SecurityContext<Secret>,
    /// Most plugins expose no profile claims and leave this empty.
    pub principal: Option<VerifiedPrincipal>,
}

/// Verified profile and token-time claims of an authenticated caller.
///
/// When carried on an [`AuthenticationResult`], `subject_id` equals that of the context.
///
/// `email` and `external_subject` are personal data, but no credentials: callers read them
/// as they are, and [`debug_text`](Self::debug_text) leaves them out.
#[derive(Clone, PartialEq, Eq)]
pub struct VerifiedPrincipal {
    /// The internal identifier of the subject.
    pub subject_id: u128,
    /// The subject as the identity provider calls it (`sub`).
    pub external_subject: String,
    /// The issuer of the token (`iss`).
    pub issuer: String,
    /// The verified email, when present.
    pub email: Option<String>,
    /// Whether the identity provider reports the email as verified, when it does.
    pub email_verified: Option<bool>,
    /// The identity provider or way of signing in, such as `password`.
    pub provider: String,
    /// Whether the subject has no durable identity.
    pub is_anonymous: bool,
    /// When the token was issued (`iat`), in unix seconds.
    pub issued_at: i64,
    /// When the subject authenticated (`auth_time`), in unix seconds.
    pub auth_time: i64,
    /// When the token expires (`exp`), in unix seconds.
    pub expires_at: i64,
}

/// A request to exchange OAuth2 client credentials for a context.
pub struct ClientCredentialsRequest<Secret> {
    pub client_id: String,
    pub client_secret: Secret,
    /// The scopes to ask for. When there are none, the identity provider chooses.
    pub scopes: Vec<String>,
}

/// What a principal says.
pub struct PrincipalView {
    pub subject_id: u128,
    pub external_subject: Seq<char>,
    pub issuer: Seq<char>,
    pub email: Option<Seq<char>>,
    pub email_verified: Option<bool>,
    pub provider: Seq<char>,
    pub is_anonymous: bool,
    pub issued_at: i64,
    pub auth_time: i64,
    pub expires_at: i64,
}

impl View for VerifiedPrincipal {
    type V = PrincipalView;

    open spec fn view(&self) -> PrincipalView {
        PrincipalView {
            subject_id: self.subject_id,
            external_subject: self.external_subject@,
            issuer: self.issuer@,
            email: match self.email {
                Some(email) => Some(email@),
                None => None,
            },
            email_verified: self.email_verified,
            provider: self.provider@,
            is_anonymous: self.is_anonymous,
            issued_at: self.issued_at,
            auth_time: self.auth_time,
            expires_at: self.expires_at,
        }
    }
}

impl<Secret> AuthenticationResult<Secret> {
    /// Whether the principal, where there is one, is the subject of the context.
    pub open spec fn subjects_agree(self) -> bool {
        match self.principal {
            Some(principal) => principal.subject_id == self.security_context.subject_id,
            None => true,
        }
    }

    /// A result with the validated context only.
    pub fn authenticated(security_context: SecurityContext<Secret>) -> (result: Self)
        ensures
            result.security_context == security_context,
            result.principal is None,
            result.subjects_agree(),
    {
        AuthenticationResult { security_context, principal: None }
    }

    /// A result with the validated context and verified claims.
    ///
    /// It is up to the caller that both are of one subject.
    pub fn with_principal(
        security_context: SecurityContext<Secret>,
        principal: VerifiedPrincipal,
    ) -> (result: Self)
        ensures
            result.security_context == security_context,
            result.principal == Some(principal),
            result.subjects_agree() <==> principal.subject_id == security_context.subject_id,
    {
        AuthenticationResult { security_context, principal: Some(principal) }
    }
}

/// The character of a hexadecimal digit, in lower case.
pub open spec fn hex_char(digit: int) -> char {
    "0123456789abcdef"@[digit]
}

/// The hexadecimal digit at `i` of 32, the most significant first.
pub open spec fn hex_digit(bits: u128, i: int) -> int {
    bits as int / pow(16, (31 - i) as nat) % 16
}

/// A UUID in its usual form: 32 hexadecimal digits, in groups of 8, 4, 4, 4 and 12 with a
/// hyphen between them.
pub open spec fn uuid_text(bits: u128) -> Seq<char> {
    Seq::new(
        36,
        |i: int|
            if i == 8 || i == 13 || i == 18 || i == 23 {
                '-'
            } else if i < 8 {
                hex_char(hex_digit(bits, i))
            } else if i < 13 {
                hex_char(hex_digit(bits, i - 1))
            } else if i < 18 {
                hex_char(hex_digit(bits, i - 2))
            } else if i < 23 {
                hex_char(hex_digit(bits, i - 3))
            } else {
                hex_char(hex_digit(bits, i - 4))
            },
    )
}

/// How `{:?}` of std writes a string: between quotes, with escapes.
pub uninterp spec fn debug_quoted(text: Seq<char>) -> Seq<char>;

/// Calls `uuid::Uuid::from_u128` on the bits, and writes what comes out with `{:?}`: the
/// hyphenated form in lower case.
#[verifier::external_body]
fn debug_uuid(bits: u128) -> (out: String)
    ensures
        out@ == uuid_text(bits),
{
    format!("{:?}", uuid::Uuid::from_u128(bits))
}

/// Writes a string with `{:?}`, the `Debug` of std's `str`. The name stands for what is
/// written.
#[verifier::external_body]
fn debug_str(text: &str) -> (out: String)
    ensures
        out@ == debug_quoted(text@),
{
    format!("{:?}", text)
}

/// What stands in a log for a value that must not.
pub const REDACTED: &'static str = "[redacted]";

/// A principal without its personal data, as it goes to a log.
pub struct RedactedPrincipal {
    pub subject_id: u128,
    pub external_subject: &'static str,
    pub issuer: String,
    pub email: Option<&'static str>,
    pub email_verified: Option<bool>,
    pub provider: String,
    pub is_anonymous: bool,
    pub issued_at: i64,
    pub auth_time: i64,
    pub expires_at: i64,
}

impl View for RedactedPrincipal {
    type V = PrincipalView;

    open spec fn view(&self) -> PrincipalView {
        PrincipalView {
            subject_id: self.subject_id,
            external_subject: self.external_subject@,
            issuer: self.issuer@,
            email: match self.email {
                Some(email) => Some(email@),
                None => None,
            },
            email_verified: self.email_verified,
            provider: self.provider@,
            is_anonymous: self.is_anonymous,
            issued_at: self.issued_at,
            auth_time: self.auth_time,
            expires_at: self.expires_at,
        }
    }
}

/// How an optional string is written in a log.
pub open spec fn debug_optional_text(text: Option<Seq<char>>) -> Seq<char> {
    match text {
        Some(text) => "Some("@ + debug_quoted(text) + ")"@,
        None => "None"@,
    }
}

/// How an optional flag is written in a log.
pub open spec fn debug_optional_flag(flag: Option<bool>) -> Seq<char> {
    match flag {
        Some(true) => "Some(true)"@,
        Some(false) => "Some(false)"@,
        None => "None"@,
    }
}

/// How a flag is written in a log.
pub open spec fn debug_flag(flag: bool) -> Seq<char> {
    if flag {
        "true"@
    } else {
        "false"@
    }
}

impl PrincipalView {
    /// The same without its personal data: of the external subject and of the email no
    /// character is left, but whether there is an email is.
    pub open spec fn redacted(self) -> PrincipalView {
        PrincipalView {
            external_subject: REDACTED@,
            email: match self.email {
                Some(_) => Some(REDACTED@),
                None => None,
            },
            ..self
        }
    }

    /// The principal as one line, every field as it is.
    pub open spec fn line(self) -> Seq<char> {
        "VerifiedPrincipal { subject_id: "@ + uuid_text(self.subject_id) + ", external_subject: "@
            + debug_quoted(self.external_subject) + ", issuer: "@ + debug_quoted(self.issuer)
            + ", email: "@ + debug_optional_text(self.email) + ", email_verified: "@
            + debug_optional_flag(self.email_verified) + ", provider: "@ + debug_quoted(
            self.provider,
        ) + ", is_anonymous: "@ + debug_flag(self.is_anonymous) + ", issued_at: "@
            + signed_decimal(self.issued_at as int) + ", auth_time: "@ + signed_decimal(
            self.auth_time as int,
        ) + ", expires_at: "@ + signed_decimal(self.expires_at as int) + " }"@
    }
}

/// A field on a line of its own.
pub open spec fn pretty_field(name: Seq<char>, value: Seq<char>) -> Seq<char> {
    "    "@ + name + ": "@ + value + ",\n"@
}

/// An optional value, over three lines where it is there.
pub open spec fn pretty_optional(value: Option<Seq<char>>) -> Seq<char> {
    match value {
        Some(value) => "Some(\n        "@ + value + ",\n    )"@,
        None => "None"@,
    }
}

/// The text with every line but the first indented by one level.
pub open spec fn indented(text: Seq<char>) -> Seq<char>
    decreases text.len(),
{
    if text.len() == 0 {
        text
    } else if text.last() == '\n' {
        indented(text.drop_last()) + "\n    "@
    } else {
        indented(text.drop_last()).push(text.last())
    }
}

impl PrincipalView {
    /// The principal with a line for each field.
    pub open spec fn pretty(self) -> Seq<char> {
        "VerifiedPrincipal {\n"@ + pretty_field("subject_id"@, uuid_text(self.subject_id))
            + pretty_field("external_subject"@, debug_quoted(self.external_subject))
            + pretty_field("issuer"@, debug_quoted(self.issuer)) + pretty_field(
            "email"@,
            pretty_optional(
                match self.email {
                    Some(email) => Some(debug_quoted(email)),
                    None => None,
                },
            ),
        ) + pretty_field(
            "email_verified"@,
            pretty_optional(
                match self.email_verified {
                    Some(flag) => Some(debug_flag(flag)),
                    None => None,
                },
            ),
        ) + pretty_field("provider"@, debug_quoted(self.provider)) + pretty_field(
            "is_anonymous"@,
            debug_flag(self.is_anonymous),
        ) + pretty_field("issued_at"@, signed_decimal(self.issued_at as int)) + pretty_field(
            "auth_time"@,
            signed_decimal(self.auth_time as int),
        ) + pretty_field("expires_at"@, signed_decimal(self.expires_at as int)) + "}"@
    }
}

/// What a log shows of a result, whose context it shows as `context`: of the principal
/// nothing but what [`PrincipalView::redacted`] leaves.
pub open spec fn result_line(context: Seq<char>, principal: Option<PrincipalView>) -> Seq<char> {
    "AuthenticationResult { security_context: "@ + context + ", principal: "@ + (
    match principal {
        Some(principal) => "Some("@ + principal.redacted().line() + ")"@,
        None => "None"@,
    }) + " }"@
}

/// The same with a line for each field.
pub open spec fn result_pretty(context: Seq<char>, principal: Option<PrincipalView>) -> Seq<char> {
    "AuthenticationResult {\n"@ + pretty_field("security_context"@, indented(context))
        + pretty_field(
        "principal"@,
        pretty_optional(
            match principal {
                Some(principal) => Some(indented(indented(principal.redacted().pretty()))),
                None => None,
            },
        ),
    ) + "}"@
}

/// Appends a field on a line of its own.
fn push_pretty_field(out: &mut String, name: &str, value: &str)
    ensures
        final(out)@ == old(out)@ + pretty_field(name@, value@),
{
    out.append("    ");
    out.append(name);
    out.append(": ");
    out.append(value);
    out.append(",\n");
    assert(out@ =~= old(out)@ + pretty_field(name@, value@));
}

/// An optional value, over three lines where it is there.
fn optional_text(value: Option<String>) -> (text: String)
    ensures
        text@ == pretty_optional(
            match value {
                Some(value) => Some(value@),
                None => None,
            },
        ),
{
    match value {
        Some(value) => {
            let mut out = "Some(\n        ".to_owned();
            out.append(value.as_str());
            out.append(",\n    )");
            out
        },
        None => "None".to_owned(),
    }
}

/// A flag as a log writes it.
fn flag_text(flag: bool) -> (text: &'static str)
    ensures
        text@ == debug_flag(flag),
{
    if flag {
        "true"
    } else {
        "false"
    }
}

/// An integer as a log writes it.
fn number_text(n: i64) -> (text: String)
    ensures
        text@ == signed_decimal(n as int),
{
    let mut out = String::new();
    push_signed_decimal(&mut out, n);
    assert(out@ =~= signed_decimal(n as int));
    out
}

/// The text with every line but the first indented by one level.
fn indent(text: &str) -> (out: String)
    ensures
        out@ == indented(text@),
{
    let mut out = String::new();
    let len: usize = text.unicode_len();
    assert(text@.take(0) =~= Seq::<char>::empty());
    for i in 0..len
        invariant
            len == text@.len(),
            out@ == indented(text@.take(i as int)),
    {
        assert(text@.take(i + 1).drop_last() =~= text@.take(i as int));
        if text.get_char(i) == '\n' {
            out.append("\n    ");
        } else {
            out.append(text.substring_char(i, i + 1));
            assert(out@ =~= indented(text@.take(i as int)).push(text@[i as int]));
        }
    }
    assert(text@.take(len as int) =~= text@);
    out
}

impl<Secret> AuthenticationResult<Secret> {
    /// The result as a log may show it: the context as `context`, which is up to the
    /// caller, and the principal with its personal data redacted.
    pub fn debug_text(&self, context: &str) -> (text: String)
        ensures
            text@ == result_line(context@, principal_view(self.principal)),
            text@ == "AuthenticationResult { security_context: "@ + context@ + ", principal: "@ + (
            match self.principal {
                Some(principal) => "Some("@ + principal@.redacted().line() + ")"@,
                None => "None"@,
            }) + " }"@,
    {
        let mut out = "AuthenticationResult { security_context: ".to_owned();
        out.append(context);
        out.append(", principal: ");
        match &self.principal {
            Some(principal) => {
                out.append("Some(");
                out.append(principal.debug_text().as_str());
                out.append(")");
            },
            None => {
                out.append("None");
            },
        }
        out.append(" }");
        assert(out@ =~= result_line(context@, principal_view(self.principal)));
        out
    }

    /// The same with a line for each field. `context` is the context with a line for each
    /// of its fields.
    pub fn debug_pretty_text(&self, context: &str) -> (text: String)
        ensures
            text@ == result_pretty(context@, principal_view(self.principal)),
            text@ == "AuthenticationResult {\n"@ + ("    "@ + "security_context"@ + ": "@
                + indented(context@) + ",\n"@) + ("    "@ + "principal"@ + ": "@ + (
            match self.principal {
                Some(principal) => "Some(\n        "@ + indented(
                    indented(principal@.redacted().pretty()),
                ) + ",\n    )"@,
                None => "None"@,
            }) + ",\n"@) + "}"@,
    {
        let mut out = "AuthenticationResult {\n".to_owned();
        push_pretty_field(&mut out, "security_context", indent(context).as_str());
        let principal = match &self.principal {
            Some(principal) => Some(
                indent(indent(principal.debug_pretty_text().as_str()).as_str()),
            ),
            None => None,
        };
        push_pretty_field(&mut out, "principal", optional_text(principal).as_str());
        out.append("}");
        out
    }
}

/// What an optional principal says.
pub open spec fn principal_view(principal: Option<VerifiedPrincipal>) -> Option<PrincipalView> {
    match principal {
        Some(principal) => Some(principal@),
        None => None,
    }
}

impl VerifiedPrincipal {
    /// The principal without its personal data.
    pub fn redacted(&self) -> (shown: RedactedPrincipal)
        ensures
            shown@ == self@.redacted(),
            shown.subject_id == self.subject_id,
            shown.external_subject@ == "[redacted]"@,
            shown.issuer@ == self.issuer@,
            shown.email is Some <==> self.email is Some,
            shown.email is Some ==> shown.email->0@ == "[redacted]"@,
            shown.email_verified == self.email_verified,
            shown.provider@ == self.provider@,
            shown.is_anonymous == self.is_anonymous,
            shown.issued_at == self.issued_at,
            shown.auth_time == self.auth_time,
            shown.expires_at == self.expires_at,
    {
        RedactedPrincipal {
            subject_id: self.subject_id,
            external_subject: REDACTED,
            issuer: self.issuer.clone(),
            email: match self.email {
                Some(_) => Some(REDACTED),
                None => None,
            },
            email_verified: self.email_verified,
            provider: self.provider.clone(),
            is_anonymous: self.is_anonymous,
            issued_at: self.issued_at,
            auth_time: self.auth_time,
            expires_at: self.expires_at,
        }
    }

    /// The principal as a log may show it: every field, with the personal data redacted.
    pub fn debug_text(&self) -> (text: String)
        ensures
            text@ == self@.redacted().line(),
            text@ == "VerifiedPrincipal { subject_id: "@ + uuid_text(self.subject_id)
                + ", external_subject: "@ + debug_quoted("[redacted]"@) + ", issuer: "@
                + debug_quoted(self.issuer@) + ", email: "@ + (match self.email {
                Some(_) => "Some("@ + debug_quoted("[redacted]"@) + ")"@,
                None => "None"@,
            }) + ", email_verified: "@ + (match self.email_verified {
                Some(true) => "Some(true)"@,
                Some(false) => "Some(false)"@,
                None => "None"@,
            }) + ", provider: "@ + debug_quoted(self.provider@) + ", is_anonymous: "@ + (
            if self.is_anonymous {
                "true"@
            } else {
                "false"@
            }) + ", issued_at: "@ + signed_decimal(self.issued_at as int) + ", auth_time: "@
                + signed_decimal(self.auth_time as int) + ", expires_at: "@ + signed_decimal(
                self.expires_at as int,
            ) + " }"@,
    {
        proof {
            law_redaction_touches_personal_data_only(self@);
            law_line_shows_every_field(self@.redacted());
        }
        self.redacted().line()
    }

    /// The same with a line for each field.
    pub fn debug_pretty_text(&self) -> (text: String)
        ensures
            text@ == self@.redacted().pretty(),
            text@
                == "VerifiedPrincipal {\n"@ + ("    "@ + "subject_id"@ + ": "@
                + uuid_text(self.subject_id) + ",\n"@)
                + ("    "@ + "external_subject"@ + ": "@ + debug_quoted("[redacted]"@) + ",\n"@)
                + ("    "@ + "issuer"@ + ": "@ + debug_quoted(self.issuer@) + ",\n"@)
                + ("    "@ + "email"@ + ": "@ + (match self.email {
                Some(_) => "Some(\n        "@ + debug_quoted("[redacted]"@) + ",\n    )"@,
                None => "None"@,
            }) + ",\n"@)
                + ("    "@ + "email_verified"@ + ": "@ + (match self.email_verified {
                Some(flag) => "Some(\n        "@ + (if flag {
                "true"@
            } else {
                "false"@
            }) + ",\n    )"@,
                None => "None"@,
            }) + ",\n"@)
                + ("    "@ + "provider"@ + ": "@ + debug_quoted(self.provider@) + ",\n"@)
                + ("    "@ + "is_anonymous"@ + ": "@ + (if self.is_anonymous {
                "true"@
            } else {
                "false"@
            }) + ",\n"@)
                + ("    "@ + "issued_at"@ + ": "@ + signed_decimal(self.issued_at as int) + ",\n"@)
                + ("    "@ + "auth_time"@ + ": "@ + signed_decimal(self.auth_time as int) + ",\n"@)
                + ("    "@
                    + "expires_at"@ + ": "@ + signed_decimal(self.expires_at as int) + ",\n"@)
                    + "}"@,
    {
        proof {
            law_redaction_touches_personal_data_only(self@);
            law_lines_show_every_field(self@.redacted());
        }
        self.redacted().pretty()
    }
}

impl RedactedPrincipal {
    /// The fields as one line.
    fn line(&self) -> (text: String)
        ensures
            text@ == self@.line(),
    {
        let mut out = "VerifiedPrincipal { subject_id: ".to_owned();
        out.append(debug_uuid(self.subject_id).as_str());
        out.append(", external_subject: ");
        out.append(debug_str(self.external_subject).as_str());
        out.append(", issuer: ");
        out.append(debug_str(self.issuer.as_str()).as_str());
        out.append(", email: ");
        match self.email {
            Some(email) => {
                out.append("Some(");
                out.append(debug_str(email).as_str());
                out.append(")");
            },
            None => {
                out.append("None");
            },
        }
        out.append(", email_verified: ");
        match self.email_verified {
            Some(true) => {
                out.append("Some(true)");
            },
            Some(false) => {
                out.append("Some(false)");
            },
            None => {
                out.append("None");
            },
        }
        out.append(", provider: ");
        out.append(debug_str(self.provider.as_str()).as_str());
        out.append(", is_anonymous: ");
        out.append(flag_text(self.is_anonymous));
        out.append(", issued_at: ");
        push_signed_decimal(&mut out, self.issued_at);
        out.append(", auth_time: ");
        push_signed_decimal(&mut out, self.auth_time);
        out.append(", expires_at: ");
        push_signed_decimal(&mut out, self.expires_at);
        out.append(" }");
        assert(out@ =~= self@.line());
        out
    }

    /// The fields on a line each.
    fn pretty(&self) -> (text: String)
        ensures
            text@ == self@.pretty(),
    {
        let email = match self.email {
            Some(email) => Some(debug_str(email)),
            None => None,
        };
        let email_verified = match self.email_verified {
            Some(flag) => Some(flag_text(flag).to_owned()),
            None => None,
        };
        let mut out = "VerifiedPrincipal {\n".to_owned();
        push_pretty_field(&mut out, "subject_id", debug_uuid(self.subject_id).as_str());
        push_pretty_field(
            &mut out,
            "external_subject",
            debug_str(self.external_subject).as_str(),
        );
        push_pretty_field(&mut out, "issuer", debug_str(self.issuer.as_str()).as_str());
        push_pretty_field(&mut out, "email", optional_text(email).as_str());
        push_pretty_field(&mut out, "email_verified", optional_text(email_verified).as_str());
        push_pretty_field(&mut out, "provider", debug_str(self.provider.as_str()).as_str());
        push_pretty_field(&mut out, "is_anonymous", flag_text(self.is_anonymous));
        push_pretty_field(&mut out, "issued_at", number_text(self.issued_at).as_str());
        push_pretty_field(&mut out, "auth_time", number_text(self.auth_time).as_str());
        push_pretty_field(&mut out, "expires_at", number_text(self.expires_at).as_str());
        out.append("}");
        out
    }
}

/// Nothing of the personal data reaches a log: principals that differ in it alone, and both
/// have an email or both have none, are logged alike, in one line or in many, and so are the
/// results that carry them beside one context.
pub proof fn law_log_hides_personal_data(
    principal: PrincipalView,
    external_subject: Seq<char>,
    email: Option<Seq<char>>,
    context: Seq<char>,
)
    requires
        email is Some <==> principal.email is Some,
    ensures
        ({
            let other = PrincipalView { external_subject, email, ..principal };
            &&& other.redacted().line() == principal.redacted().line()
            &&& other.redacted().pretty() == principal.redacted().pretty()
            &&& result_line(context, Some(other)) == result_line(context, Some(principal))
            &&& result_pretty(context, Some(other)) == result_pretty(context, Some(principal))
        }),
{
    let other = PrincipalView { external_subject, email, ..principal };
    assert(other.redacted() == principal.redacted());
}

/// The view of a principal holds every claim of it, as it is.
pub proof fn law_view_holds_every_claim(principal: VerifiedPrincipal)
    ensures
        principal@.subject_id == principal.subject_id,
        principal@.external_subject == principal.external_subject@,
        principal@.issuer == principal.issuer@,
        principal@.email is Some <==> principal.email is Some,
        principal.email is Some ==> principal@.email->0 == principal.email->0@,
        principal@.email_verified == principal.email_verified,
        principal@.provider == principal.provider@,
        principal@.is_anonymous == principal.is_anonymous,
        principal@.issued_at == principal.issued_at,
        principal@.auth_time == principal.auth_time,
        principal@.expires_at == principal.expires_at,
{
}

/// Redaction touches the external subject and the email and nothing else: both read
/// `[redacted]` where they are there, and every other claim stays as it is.
pub proof fn law_redaction_touches_personal_data_only(principal: PrincipalView)
    ensures
        principal.redacted().external_subject == "[redacted]"@,
        principal.redacted().email is Some <==> principal.email is Some,
        principal.redacted().email is Some ==> principal.redacted().email->0 == "[redacted]"@,
        principal.redacted().subject_id == principal.subject_id,
        principal.redacted().issuer == principal.issuer,
        principal.redacted().email_verified == principal.email_verified,
        principal.redacted().provider == principal.provider,
        principal.redacted().is_anonymous == principal.is_anonymous,
        principal.redacted().issued_at == principal.issued_at,
        principal.redacted().auth_time == principal.auth_time,
        principal.redacted().expires_at == principal.expires_at,
        principal.redacted().redacted() == principal.redacted(),
{
}

/// Whom a log cannot tell apart: principals are redacted to the same exactly where they
/// agree in every claim that is no personal data, and in whether there is an email.
pub proof fn law_redaction_keeps_the_rest_apart(a: PrincipalView, b: PrincipalView)
    ensures
        a.redacted() == b.redacted() <==> {
            &&& a.subject_id == b.subject_id
            &&& a.issuer == b.issuer
            &&& a.email is Some <==> b.email is Some
            &&& a.email_verified == b.email_verified
            &&& a.provider == b.provider
            &&& a.is_anonymous == b.is_anonymous
            &&& a.issued_at == b.issued_at
            &&& a.auth_time == b.auth_time
            &&& a.expires_at == b.expires_at
        },
{
}

/// A principal on one line: every claim behind its name, in the order of the fields.
pub proof fn law_line_shows_every_field(principal: PrincipalView)
    ensures
        principal.line() == "VerifiedPrincipal { subject_id: "@ + uuid_text(principal.subject_id)
                + ", external_subject: "@ + debug_quoted(principal.external_subject) + ", issuer: "@
                + debug_quoted(principal.issuer) + ", email: "@ + (match principal.email {
                Some(email) => "Some("@ + debug_quoted(email) + ")"@,
                None => "None"@,
            }) + ", email_verified: "@ + (match principal.email_verified {
                Some(true) => "Some(true)"@,
                Some(false) => "Some(false)"@,
                None => "None"@,
            }) + ", provider: "@ + debug_quoted(principal.provider) + ", is_anonymous: "@ + (
            if principal.is_anonymous {
                "true"@
            } else {
                "false"@
            }) + ", issued_at: "@ + signed_decimal(principal.issued_at as int) + ", auth_time: "@
                + signed_decimal(principal.auth_time as int) + ", expires_at: "@ + signed_decimal(
                principal.expires_at as int,
            ) + " }"@,
{
}

/// A principal over many lines: one for every claim, behind its name, in the order of the
/// fields.
pub proof fn law_lines_show_every_field(principal: PrincipalView)
    ensures
        principal.pretty()
            == "VerifiedPrincipal {\n"@ + ("    "@ + "subject_id"@ + ": "@
            + uuid_text(principal.subject_id) + ",\n"@)
                + ("    "@
                    + "external_subject"@ + ": "@ + debug_quoted(principal.external_subject)
                    + ",\n"@)
                + ("    "@ + "issuer"@ + ": "@ + debug_quoted(principal.issuer) + ",\n"@)
                + ("    "@ + "email"@ + ": "@ + (match principal.email {
                Some(email) => "Some(\n        "@ + debug_quoted(email) + ",\n    )"@,
                None => "None"@,
            }) + ",\n"@)
                + ("    "@ + "email_verified"@ + ": "@ + (match principal.email_verified {
                Some(flag) => "Some(\n        "@ + (if flag {
                "true"@
            } else {
                "false"@
            }) + ",\n    )"@,
                None => "None"@,
            }) + ",\n"@)
                + ("    "@ + "provider"@ + ": "@ + debug_quoted(principal.provider) + ",\n"@)
                + ("    "@ + "is_anonymous"@ + ": "@ + (if principal.is_anonymous {
                "true"@
            } else {
                "false"@
            }) + ",\n"@)
                + ("    "@
                    + "issued_at"@ + ": "@ + signed_decimal(principal.issued_at as int) + ",\n"@)
                + ("    "@
                    + "auth_time"@ + ": "@ + signed_decimal(principal.auth_time as int) + ",\n"@)
                + ("    "@
                    + "expires_at"@ + ": "@ + signed_decimal(principal.expires_at as int)
                    + ",\n"@) + "}"@,
{
}

/// A result shows the context that is handed in and the principal without its personal
/// data, on one line or, further indented, over many.
pub proof fn law_result_shows_context_and_principal(
    context: Seq<char>,
    principal: PrincipalView,
)
    ensures
        result_line(context, None) == "AuthenticationResult { security_context: "@ + context
            + ", principal: "@ + "None"@ + " }"@,
        result_line(context, Some(principal)) == "AuthenticationResult { security_context: "@
            + context + ", principal: "@ + ("Some("@ + principal.redacted().line() + ")"@)
            + " }"@,
        result_pretty(context, None) == "AuthenticationResult {\n"@ + ("    "@
            + "security_context"@ + ": "@ + indented(context) + ",\n"@) + ("    "@
            + "principal"@ + ": "@ + "None"@ + ",\n"@) + "}"@,
        result_pretty(context, Some(principal)) == "AuthenticationResult {\n"@ + ("    "@
            + "security_context"@ + ": "@ + indented(context) + ",\n"@) + ("    "@
            + "principal"@ + ": "@ + ("Some(\n        "@ + indented(
            indented(principal.redacted().pretty()),
        ) + ",\n    )"@) + ",\n"@) + "}"@,
{
}

/// Indenting works line by line: a text without a line break stays as it is, a line break
/// gets four blanks behind it, and two texts are indented one behind the other.
pub proof fn law_indenting_goes_by_lines(text: Seq<char>, more: Seq<char>)
    ensures
        !text.contains('\n') ==> indented(text) == text,
        indented(seq!['\n']) == seq!['\n', ' ', ' ', ' ', ' '],
        indented(text + more) == indented(text) + indented(more),
    decreases text.len() + more.len(),
{
    reveal_strlit("\n    ");
    assert(seq!['\n'].drop_last() =~= Seq::<char>::empty());
    assert(indented(Seq::<char>::empty()) =~= Seq::<char>::empty());
    assert(indented(seq!['\n']) =~= seq!['\n', ' ', ' ', ' ', ' ']);
    if !text.contains('\n') && text.len() > 0 {
        assert forall|i: int| 0 <= i < text.drop_last().len() implies text.drop_last()[i]
            != '\n' by {
            assert(text.contains(text[i]));
        }
        assert(text.contains(text.last()));
        law_indenting_goes_by_lines(text.drop_last(), Seq::empty());
        assert(text.drop_last().push(text.last()) =~= text);
    }
    if more.len() == 0 {
        assert(text + more =~= text);
        assert(indented(text) + indented(more) =~= indented(text));
    } else {
        assert((text + more).drop_last() =~= text + more.drop_last());
        law_indenting_goes_by_lines(text, more.drop_last());
        assert(indented(text + more) =~= indented(text) + indented(more));
    }
}

/// A UUID is written as 36 characters: a hyphen at four places, and elsewhere the digits of
/// the number in base sixteen, the most significant first.
pub proof fn law_uuid_is_spelled_out(bits: u128)
    ensures
        uuid_text(bits).len() == 36,
        uuid_text(bits)[8] == '-' && uuid_text(bits)[13] == '-' && uuid_text(bits)[18] == '-'
            && uuid_text(bits)[23] == '-',
        forall|i: int|
            #![trigger pow(16, (31 - i) as nat)]
            0 <= i < 32 ==> uuid_text(bits)[i + (if i < 8 {
                0int
            } else if i < 12 {
                1int
            } else if i < 16 {
                2int
            } else if i < 20 {
                3int
            } else {
                4int
            })] == "0123456789abcdef"@[bits as int / pow(16, (31 - i) as nat) % 16],
{
}

} // verus!
