//! Authentication of the token that a client presents on the direct WebSocket
//! path.
use vstd::prelude::*;
use vstd::string::StringExecFns;
use subtle::ConstantTimeEq;

verus! {

/// Why a token was rejected. Holds nothing of the secret, so it can be logged.
#[derive(Clone, Copy, Debug)]
pub struct ProxyAuthRejected {
    reason: &'static str,
}

impl ProxyAuthRejected {
    /// The reason as a sequence of characters.
    pub closed spec fn reason_text(&self) -> Seq<char> {
        self.reason@
    }

    /// The reason in words.
    pub fn reason(&self) -> (reason: &'static str)
        ensures
            reason@ == self.reason_text(),
    {
        self.reason
    }

    /// The rejection in words.
    pub fn message(&self) -> (text: String)
        ensures
            text@ == "proxy_auth rejected: "@ + self.reason_text(),
    {
        let mut text: String = "proxy_auth rejected: ".to_owned();
        text.append(self.reason);
        text
    }
}

/// Decides whether a token gives access, before a connection is handed on.
/// Whatever is uncertain is to be rejected.
pub trait ProxyAuthValidator: Send + Sync {
    /// Whether a token gives access to a destination.
    spec fn accepts(&self, proxy_auth: Seq<u8>, destination: Seq<char>) -> bool;

    /// The reason for a rejection.
    spec fn rejection(&self) -> Seq<char>;

    fn validate(&self, proxy_auth: &[u8], destination: &str) -> (verdict: Result<
        (),
        ProxyAuthRejected,
    >)
        ensures
            verdict is Ok <==> self.accepts(proxy_auth@, destination@),
            verdict is Err ==> verdict->Err_0.reason_text() == self.rejection(),
    ;
}

/// Rejects every connection. Stands in where no validator is configured, so that
/// an unconfigured listener is closed.
pub struct DenyAll;

impl ProxyAuthValidator for DenyAll {
    open spec fn accepts(&self, proxy_auth: Seq<u8>, destination: Seq<char>) -> bool {
        false
    }

    open spec fn rejection(&self) -> Seq<char> {
        "no proxy_auth validator configured"@
    }

    fn validate(&self, proxy_auth: &[u8], destination: &str) -> (verdict: Result<
        (),
        ProxyAuthRejected,
    >) {
        Err(ProxyAuthRejected { reason: "no proxy_auth validator configured" })
    }
}

/// Accepts whoever presents the secret. It shows possession of the token, not who
/// presents it.
pub struct SharedSecretValidator {
    secret: Vec<u8>,
}

/// Calls `ct_eq` of `subtle` on two byte slices. Claimed: it says whether they are
/// equal. That its time does not depend on their content is left unsaid.
#[verifier::external_body]
fn constant_time_eq(a: &[u8], b: &[u8]) -> (same: bool)
    ensures
        same == (a@ == b@),
{
    a.ct_eq(b).into()
}

impl SharedSecretValidator {
    /// The secret.
    pub closed spec fn secret(&self) -> Seq<u8> {
        self.secret@
    }

    /// A validator for a secret; `None` for an empty one, which would let everyone
    /// in.
    pub fn new(secret: Vec<u8>) -> (validator: Option<Self>)
        ensures
            validator is Some <==> secret@.len() > 0,
            validator is Some ==> validator->Some_0.secret() == secret@,
    {
        if secret.len() == 0 {
            return None;
        }
        Some(SharedSecretValidator { secret })
    }
}

impl ProxyAuthValidator for SharedSecretValidator {
    open spec fn accepts(&self, proxy_auth: Seq<u8>, destination: Seq<char>) -> bool {
        proxy_auth == self.secret()
    }

    open spec fn rejection(&self) -> Seq<char> {
        "shared secret mismatch"@
    }

    fn validate(&self, proxy_auth: &[u8], destination: &str) -> (verdict: Result<
        (),
        ProxyAuthRejected,
    >) {
        if constant_time_eq(proxy_auth, self.secret.as_slice()) {
            Ok(())
        } else {
            Err(ProxyAuthRejected { reason: "shared secret mismatch" })
        }
    }
}

/// Accepts every connection. For local development only.
pub struct AllowAllInsecure;

impl ProxyAuthValidator for AllowAllInsecure {
    open spec fn accepts(&self, proxy_auth: Seq<u8>, destination: Seq<char>) -> bool {
        true
    }

    open spec fn rejection(&self) -> Seq<char> {
        seq![]
    }

    fn validate(&self, proxy_auth: &[u8], destination: &str) -> (verdict: Result<
        (),
        ProxyAuthRejected,
    >) {
        Ok(())
    }
}

/// A validator with a secret never accepts the empty token, and never a part of the
/// secret.
pub proof fn lemma_part_of_secret_is_rejected(
    validator: SharedSecretValidator,
    token: Seq<u8>,
    destination: Seq<char>,
)
    requires
        token.len() < validator.secret().len(),
    ensures
        !validator.accepts(token, destination),
{
}

/// The secret gives access, wherever to, and nothing else does: not a token that
/// differs in a single byte, and not one that is longer or shorter.
pub proof fn lemma_only_the_secret_is_accepted(
    validator: SharedSecretValidator,
    token: Seq<u8>,
    destination: Seq<char>,
    i: int,
)
    ensures
        validator.accepts(validator.secret(), destination),
        0 <= i < token.len() && i < validator.secret().len() && token[i] != validator.secret()[i]
            ==> !validator.accepts(token, destination),
        token.len() != validator.secret().len() ==> !validator.accepts(token, destination),
        validator.accepts(token, destination) ==> token == validator.secret(),
{
}

/// A closed listener lets no token in, an open one every token.
pub proof fn lemma_unconfigured_listeners_are_closed(token: Seq<u8>, destination: Seq<char>)
    ensures
        !DenyAll.accepts(token, destination),
        AllowAllInsecure.accepts(token, destination),
{
}

/// Those who are turned away learn which listener did it, and nothing of the secret.
pub proof fn lemma_rejections_say_who_rejects(
    validator: SharedSecretValidator,
    other: SharedSecretValidator,
)
    ensures
        DenyAll.rejection() == "no proxy_auth validator configured"@,
        validator.rejection() == "shared secret mismatch"@,
        validator.rejection() == other.rejection(),
{
}

} // verus!
