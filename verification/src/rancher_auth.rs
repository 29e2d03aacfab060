//! Who is calling: a Rancher token is resolved to a user and to the global
//! roles that are bound to that user.
use vstd::prelude::*;
use vstd::string::StringExecFns;

use crate::outside::{
    header_fields, header_text, header_value, is_header_name, law_visible_bytes_are_text,
    visible_text,
};
use crate::status::{is_success, status_text, succeeded, written_status};
use crate::text::{
    ends_with, law_trimming_stops_at_the_first_other_character, opt_str, same_text, strings,
    trim_end, trimmed_end,
};

verus! {

/// Holds the authenticated user's identity and their Rancher global roles.
/// Attached to a request once its credentials were checked; read to enforce the
/// role rules before a call is forwarded.
#[derive(Clone, Debug)]
pub struct AuthContext {
    pub display_name: String,
    pub roles: Vec<String>,
}

/// What is known of an authenticated user.
#[verifier::ext_equal]
pub struct ContextView {
    pub display_name: Seq<char>,
    pub roles: Seq<Seq<char>>,
}

impl View for AuthContext {
    type V = ContextView;

    open spec fn view(&self) -> ContextView {
        ContextView { display_name: self.display_name@, roles: strings(self.roles@) }
    }
}

/// Why a request is turned away before it reaches an endpoint. The text in it is
/// for the log.
#[derive(Debug)]
pub enum AuthError {
    RancherUnreachable(String),
    InvalidToken(String),
    BadGateway(String),
}

/// An error and its text for the log.
pub enum AuthErrorView {
    RancherUnreachable(Seq<char>),
    InvalidToken(Seq<char>),
    BadGateway(Seq<char>),
}

impl View for AuthError {
    type V = AuthErrorView;

    open spec fn view(&self) -> AuthErrorView {
        match *self {
            AuthError::RancherUnreachable(detail) => AuthErrorView::RancherUnreachable(detail@),
            AuthError::InvalidToken(detail) => AuthErrorView::InvalidToken(detail@),
            AuthError::BadGateway(detail) => AuthErrorView::BadGateway(detail@),
        }
    }
}

/// What a caller that is turned away is answered.
#[derive(Debug)]
pub struct AuthReply {
    pub status: u16,
    pub body: &'static str,
}

impl AuthReply {
    /// The HTTP status of the answer.
    pub fn status(&self) -> (r: u16)
        ensures
            r == self.status,
    {
        self.status
    }
}

impl AuthError {
    /// What the caller is answered. It tells which of the three things happened,
    /// and nothing of the text for the log.
    pub fn into_response(self) -> (r: AuthReply)
        ensures
            match self {
                AuthError::RancherUnreachable(_) => r.status == 502 && r.body@
                    == "Authentication failed: unable to reach Rancher server"@,
                AuthError::InvalidToken(_) => r.status == 401 && r.body@
                    == "Unauthorized: invalid or expired Rancher token"@,
                AuthError::BadGateway(_) => r.status == 502 && r.body@
                    == "Authentication failed: unexpected response from Rancher"@,
            },
    {
        match self {
            AuthError::RancherUnreachable(_) => AuthReply {
                status: 502,
                body: "Authentication failed: unable to reach Rancher server",
            },
            AuthError::InvalidToken(_) => AuthReply {
                status: 401,
                body: "Unauthorized: invalid or expired Rancher token",
            },
            AuthError::BadGateway(_) => AuthReply {
                status: 502,
                body: "Authentication failed: unexpected response from Rancher",
            },
        }
    }

    /// The text for the log.
    pub fn detail(&self) -> (r: &str)
        ensures
            match self@ {
                AuthErrorView::RancherUnreachable(detail) => r@ == detail,
                AuthErrorView::InvalidToken(detail) => r@ == detail,
                AuthErrorView::BadGateway(detail) => r@ == detail,
            },
    {
        match self {
            AuthError::RancherUnreachable(detail) => detail.as_str(),
            AuthError::InvalidToken(detail) => detail.as_str(),
            AuthError::BadGateway(detail) => detail.as_str(),
        }
    }
}

/// A principal that Rancher resolves a token to: the user, or a group that the
/// user is in.
#[derive(Debug)]
pub struct RancherPrincipal {
    pub id: String,
    pub login_name: Option<String>,
    pub display_name: Option<String>,
    pub principal_type: Option<String>,
    pub me: Option<bool>,
}

/// A global role, and the user or the group that it is bound to.
#[derive(Debug)]
pub struct GlobalRoleBinding {
    pub global_role_id: String,
    pub user_id: Option<String>,
    pub group_principal_id: Option<String>,
}

/// A user, and the ids of the user's principals.
#[derive(Debug)]
pub struct UserIdentity {
    pub display_name: String,
    pub principal_ids: Vec<String>,
}

/// What is known of a user before the roles are.
#[verifier::ext_equal]
pub struct IdentityView {
    pub display_name: Seq<char>,
    pub principal_ids: Seq<Seq<char>>,
}

impl View for UserIdentity {
    type V = IdentityView;

    open spec fn view(&self) -> IdentityView {
        IdentityView {
            display_name: self.display_name@,
            principal_ids: strings(self.principal_ids@),
        }
    }
}

/// The first principal that is marked as the token's own user.
pub open spec fn own_principal(principals: Seq<RancherPrincipal>) -> Option<RancherPrincipal>
    decreases principals.len(),
{
    if principals.len() == 0 {
        None
    } else if principals[0].me == Some(true) {
        Some(principals[0])
    } else {
        own_principal(principals.drop_first())
    }
}

/// The principal that stands for the user: the one that is marked so, or else
/// the first.
pub open spec fn user_principal(principals: Seq<RancherPrincipal>) -> Option<RancherPrincipal> {
    match own_principal(principals) {
        Some(p) => Some(p),
        None => if principals.len() > 0 {
            Some(principals[0])
        } else {
            None
        },
    }
}

/// The name under which the user is shown: the display name, or else the login
/// name, or else `unknown`.
pub open spec fn shown_name(principals: Seq<RancherPrincipal>) -> Seq<char> {
    match user_principal(principals) {
        Some(p) => match (p.display_name, p.login_name) {
            (Some(name), _) => name@,
            (None, Some(name)) => name@,
            (None, None) => "unknown"@,
        },
        None => "unknown"@,
    }
}

/// The ids of the principals.
pub open spec fn principal_ids(principals: Seq<RancherPrincipal>) -> Seq<Seq<char>> {
    Seq::new(principals.len(), |i: int| principals[i].id@)
}

fn user_principal_index(principals: &[RancherPrincipal]) -> (r: Option<usize>)
    ensures
        match r {
            Some(i) => i < principals@.len() && user_principal(principals@) == Some(
                principals@[i as int],
            ),
            None => user_principal(principals@) is None,
        },
{
    assert(principals@.skip(0) =~= principals@);
    for i in 0..principals.len()
        invariant
            own_principal(principals@) == own_principal(principals@.skip(i as int)),
    {
        let ghost rest = principals@.skip(i as int);
        assert(rest[0] == principals@[i as int]);
        if let Some(true) = principals[i].me {
            return Some(i);
        }
        assert(rest.drop_first() =~= principals@.skip(i + 1));
    }
    if principals.len() > 0 {
        Some(0)
    } else {
        None
    }
}

/// The name under which the user with these principals is shown.
pub fn resolve_display_name(principals: &[RancherPrincipal]) -> (r: String)
    ensures
        r@ == shown_name(principals@),
{
    if let Some(i) = user_principal_index(principals) {
        if let Some(name) = &principals[i].display_name {
            return name.clone();
        }
        if let Some(name) = &principals[i].login_name {
            return name.clone();
        }
    }
    "unknown".to_owned()
}

/// The binding is bound to one of the principals: to a user whose id the
/// principal's id ends with, or to a group with exactly the principal's id.
pub open spec fn is_bound(binding: GlobalRoleBinding, ids: Seq<Seq<char>>) -> bool {
    ||| binding.user_id matches Some(user) && exists|i: int|
        0 <= i < ids.len() && user@.is_suffix_of(#[trigger] ids[i])
    ||| binding.group_principal_id matches Some(group) && exists|i: int|
        0 <= i < ids.len() && #[trigger] ids[i] == group@
}

/// The bindings that are bound to one of the principals, in order.
pub open spec fn bound(
    bindings: Seq<GlobalRoleBinding>,
    ids: Seq<Seq<char>>,
) -> Seq<GlobalRoleBinding> {
    bindings.filter(|b: GlobalRoleBinding| is_bound(b, ids))
}

/// The roles of the bindings that are bound to one of the principals, in the
/// order of the bindings.
pub open spec fn bound_roles(
    bindings: Seq<GlobalRoleBinding>,
    ids: Seq<Seq<char>>,
) -> Seq<Seq<char>> {
    Seq::new(
        bound(bindings, ids).len(),
        |i: int| bound(bindings, ids)[i].global_role_id@,
    )
}

/// One more binding adds its role if it is bound, and nothing else.
proof fn lemma_one_more_binding(
    bindings: Seq<GlobalRoleBinding>,
    binding: GlobalRoleBinding,
    ids: Seq<Seq<char>>,
)
    ensures
        bound_roles(bindings.push(binding), ids) == if is_bound(binding, ids) {
            bound_roles(bindings, ids).push(binding.global_role_id@)
        } else {
            bound_roles(bindings, ids)
        },
{
    let all = bindings.push(binding);
    assert(all.drop_last() =~= bindings);
    reveal(Seq::filter);
    assert(bound(all, ids) == if is_bound(binding, ids) {
        bound(bindings, ids).push(binding)
    } else {
        bound(bindings, ids)
    });
    assert(bound_roles(all, ids) =~= if is_bound(binding, ids) {
        bound_roles(bindings, ids).push(binding.global_role_id@)
    } else {
        bound_roles(bindings, ids)
    });
}

fn binding_applies(binding: &GlobalRoleBinding, principal_ids: &[String]) -> (r: bool)
    ensures
        r == is_bound(*binding, strings(principal_ids@)),
{
    let ghost ids = strings(principal_ids@);
    for i in 0..principal_ids.len()
        invariant
            ids == strings(principal_ids@),
            binding.user_id matches Some(user) ==> forall|k: int|
                0 <= k < i ==> !user@.is_suffix_of(#[trigger] ids[k]),
            binding.group_principal_id matches Some(group) ==> forall|k: int|
                0 <= k < i ==> #[trigger] ids[k] != group@,
    {
        assert(ids[i as int] == principal_ids@[i as int]@);
        if let Some(user) = &binding.user_id {
            if ends_with(principal_ids[i].as_str(), user.as_str()) {
                return true;
            }
        }
        if let Some(group) = &binding.group_principal_id {
            if same_text(principal_ids[i].as_str(), group.as_str()) {
                return true;
            }
        }
    }
    false
}

/// The roles that `bindings` give to the user with these principals.
pub fn match_roles(bindings: &[GlobalRoleBinding], principal_ids: &[String]) -> (r: Vec<String>)
    ensures
        strings(r@) == bound_roles(bindings@, strings(principal_ids@)),
{
    let mut roles: Vec<String> = Vec::new();
    let ghost ids = strings(principal_ids@);
    assert(strings(roles@) =~= bound_roles(bindings@.take(0), ids)) by {
        bindings@.take(0).lemma_filter_len(|b: GlobalRoleBinding| is_bound(b, ids));
    }
    for i in 0..bindings.len()
        invariant
            ids == strings(principal_ids@),
            strings(roles@) == bound_roles(bindings@.take(i as int), ids),
    {
        let ghost before = strings(roles@);
        assert(bindings@.take(i + 1) =~= bindings@.take(i as int).push(bindings@[i as int]));
        proof {
            lemma_one_more_binding(bindings@.take(i as int), bindings@[i as int], ids);
        }
        if binding_applies(&bindings[i], principal_ids) {
            roles.push(bindings[i].global_role_id.clone());
            assert(strings(roles@) =~= before.push(bindings@[i as int].global_role_id@));
        }
    }
    assert(bindings@.take(bindings@.len() as int) =~= bindings@);
    roles
}

/// A user has a role exactly if a binding of that role is bound to one of the
/// user's principals.
pub proof fn law_roles_come_from_bindings(
    bindings: Seq<GlobalRoleBinding>,
    ids: Seq<Seq<char>>,
    role: Seq<char>,
)
    ensures
        bound_roles(bindings, ids).contains(role) <==> exists|i: int|
            0 <= i < bindings.len() && (#[trigger] bindings[i]).global_role_id@ == role && is_bound(
                bindings[i],
                ids,
            ),
    decreases bindings.len(),
{
    if bindings.len() > 0 {
        let rest = bindings.drop_last();
        let last = bindings.last();
        let roles = bound_roles(rest, ids);
        law_roles_come_from_bindings(rest, ids, role);
        assert(bindings =~= rest.push(last));
        lemma_one_more_binding(rest, last, ids);
        if bound_roles(bindings, ids).contains(role) {
            if roles.contains(role) {
                let i = choose|i: int|
                    0 <= i < rest.len() && (#[trigger] rest[i]).global_role_id@ == role && is_bound(
                        rest[i],
                        ids,
                    );
                assert(bindings[i] == rest[i]);
            } else {
                assert(bindings[rest.len() as int] == last);
            }
        }
        if exists|i: int|
            0 <= i < bindings.len() && (#[trigger] bindings[i]).global_role_id@ == role && is_bound(
                bindings[i],
                ids,
            ) {
            let i = choose|i: int|
                0 <= i < bindings.len() && (#[trigger] bindings[i]).global_role_id@ == role
                    && is_bound(bindings[i], ids);
            if i < rest.len() {
                assert(rest[i] == bindings[i]);
                let k = choose|k: int| 0 <= k < roles.len() && roles[k] == role;
                assert(bound_roles(bindings, ids)[k] == role);
            } else {
                assert(bound_roles(bindings, ids)[roles.len() as int] == role);
            }
        }
    } else {
        bindings.lemma_filter_len(|b: GlobalRoleBinding| is_bound(b, ids));
    }
}

/// The ids of the principals, and the name under which the user is shown; no
/// principals at all mean that the token is worth nothing.
pub open spec fn identity(principals: Seq<RancherPrincipal>) -> Result<
    IdentityView,
    AuthErrorView,
> {
    if principals.len() == 0 {
        Err(AuthErrorView::InvalidToken("no principals returned"@))
    } else {
        Ok(
            IdentityView {
                display_name: shown_name(principals),
                principal_ids: principal_ids(principals),
            },
        )
    }
}

/// The user that a token with these principals belongs to.
pub fn identify(principals: &[RancherPrincipal]) -> (r: Result<UserIdentity, AuthError>)
    ensures
        match r {
            Ok(user) => identity(principals@) == Ok::<_, AuthErrorView>(user@),
            Err(e) => identity(principals@) == Err::<IdentityView, _>(e@),
        },
{
    if principals.len() == 0 {
        return Err(AuthError::InvalidToken("no principals returned".to_owned()));
    }
    let mut ids: Vec<String> = Vec::new();
    for i in 0..principals.len()
        invariant
            strings(ids@) == principal_ids(principals@).take(i as int),
    {
        let ghost before = strings(ids@);
        ids.push(principals[i].id.clone());
        assert(strings(ids@) =~= before.push(principals@[i as int].id@));
        assert(strings(ids@) =~= principal_ids(principals@).take(i + 1));
    }
    assert(strings(ids@) =~= principal_ids(principals@));
    Ok(UserIdentity { display_name: resolve_display_name(principals), principal_ids: ids })
}

/// The credentials that a request carries.
#[derive(Debug)]
pub struct Credentials {
    pub token: String,
    pub url: String,
}

/// A token, and the address of the Rancher server that it is for.
#[verifier::ext_equal]
pub struct CredentialsView {
    pub token: Seq<char>,
    pub url: Seq<char>,
}

impl View for Credentials {
    type V = CredentialsView;

    open spec fn view(&self) -> CredentialsView {
        CredentialsView { token: self.token@, url: self.url@ }
    }
}

/// The text of a header, if it is there, readable and not empty.
pub open spec fn header_setting(fields: Map<Seq<char>, Seq<u8>>, name: Seq<char>) -> Option<
    Seq<char>,
> {
    if fields.contains_key(name) {
        match visible_text(fields[name]) {
            Some(text) if text.len() > 0 => Some(text),
            _ => None,
        }
    } else {
        None
    }
}

/// The credentials that headers carry: both the token and the address are
/// needed. Slashes at the end of the address do not count.
pub open spec fn credentials(fields: Map<Seq<char>, Seq<u8>>) -> Option<CredentialsView> {
    match (header_setting(fields, "r_token"@), header_setting(fields, "r_url"@)) {
        (Some(token), Some(url)) => Some(CredentialsView { token, url: trimmed_end(url, '/') }),
        _ => None,
    }
}

fn read_setting<'a>(headers: &'a http::HeaderMap, name: &str) -> (r: Option<&'a str>)
    requires
        is_header_name(name@),
    ensures
        opt_str(r) == header_setting(header_fields(*headers), name@),
{
    match header_value(headers, name) {
        Some(value) => match header_text(value) {
            Some(text) if !text.is_empty() => Some(text),
            _ => None,
        },
        None => None,
    }
}

impl Credentials {
    /// The credentials that the headers `R_token` and `R_url` carry.
    pub fn from_headers(headers: &http::HeaderMap) -> (r: Option<Credentials>)
        ensures
            match r {
                Some(c) => credentials(header_fields(*headers)) == Some(c@),
                None => credentials(header_fields(*headers)) is None,
            },
    {
        proof {
            reveal_strlit("r_token");
            reveal_strlit("r_url");
        }
        match (read_setting(headers, "r_token"), read_setting(headers, "r_url")) {
            (Some(token), Some(url)) => Some(
                Credentials { token: token.to_owned(), url: trim_end(url, '/').to_owned() },
            ),
            _ => None,
        }
    }
}

/// How Rancher is asked.
pub struct AuthStateView {
    pub tls_verify: bool,
    pub rancher_timeout_secs: u64,
    pub auth_cache_ttl_secs: u64,
}

/// How Rancher is asked. It holds no credentials: each request brings its own,
/// and is checked anew.
#[derive(Clone, Debug)]
pub struct RancherAuthState {
    tls_verify: bool,
    rancher_timeout_secs: u64,
    auth_cache_ttl_secs: u64,
}

impl View for RancherAuthState {
    type V = AuthStateView;

    closed spec fn view(&self) -> AuthStateView {
        AuthStateView {
            tls_verify: self.tls_verify,
            rancher_timeout_secs: self.rancher_timeout_secs,
            auth_cache_ttl_secs: self.auth_cache_ttl_secs,
        }
    }
}

impl RancherAuthState {
    /// How Rancher is asked: whether its certificate is verified, how long a
    /// request may take, and how long an identity could be kept.
    pub fn new(tls_verify: bool, rancher_timeout_secs: u64, auth_cache_ttl_secs: u64) -> (r:
        RancherAuthState)
        ensures
            r@ == (AuthStateView { tls_verify, rancher_timeout_secs, auth_cache_ttl_secs }),
    {
        RancherAuthState { tls_verify, rancher_timeout_secs, auth_cache_ttl_secs }
    }

    /// Whether Rancher's certificate is verified.
    pub fn tls_verify(&self) -> (r: bool)
        ensures
            r == self@.tls_verify,
    {
        self.tls_verify
    }

    /// How long a request to Rancher may take, in seconds.
    pub fn rancher_timeout_secs(&self) -> (r: u64)
        ensures
            r == self@.rancher_timeout_secs,
    {
        self.rancher_timeout_secs
    }

    /// How long an identity could be kept, in seconds. None is.
    pub fn auth_cache_ttl_secs(&self) -> (r: u64)
        ensures
            r == self@.auth_cache_ttl_secs,
    {
        self.auth_cache_ttl_secs
    }
}

/// A question to Rancher: a GET request that bears a token.
#[derive(Debug)]
pub struct RancherGet {
    pub url: String,
    pub token: String,
}

/// An address, and the token that goes with a request to it.
#[verifier::ext_equal]
pub struct GetView {
    pub url: Seq<char>,
    pub token: Seq<char>,
}

impl View for RancherGet {
    type V = GetView;

    open spec fn view(&self) -> GetView {
        GetView { url: self.url@, token: self.token@ }
    }
}

/// What came of sending a question.
pub enum GetOutcome {
    /// It could not be sent, or no answer came; with the text of the failure.
    Unreachable(String),
    /// An answer with this status came.
    Answered(u16),
}

/// What to do once a question was sent.
pub enum GetStep {
    /// Give up.
    Fail(AuthError),
    /// Read the body as the text of an error with this status.
    ReadErrorText(u16),
    /// Read the body as a collection.
    ReadBody,
}

/// What came of reading the body of an answer.
pub enum CollectionOutcome<T> {
    /// It could not be read; with the text of the failure.
    ReadFailed(String),
    /// It is not the collection that was asked for; with the text of the
    /// failure, and the body.
    ParseFailed { error: String, body: String },
    /// The items of the collection that it holds.
    Parsed(Vec<T>),
}

impl GetView {
    /// The error where the question got no answer.
    pub open spec fn unreachable(self, error: Seq<char>) -> AuthErrorView {
        AuthErrorView::RancherUnreachable(self.url + ": "@ + error)
    }

    /// The error where the answer is no success.
    pub open spec fn refused(self, status: u16, body: Seq<char>) -> AuthErrorView {
        AuthErrorView::InvalidToken(
            "Rancher returned "@ + status_text(status) + " for "@ + self.url + ". Body: "@ + body,
        )
    }

    /// The error where the answer's body could not be read.
    pub open spec fn unreadable(self, error: Seq<char>) -> AuthErrorView {
        AuthErrorView::BadGateway("failed to read body from "@ + self.url + ": "@ + error)
    }

    /// The error where the answer's body is not what was asked for.
    pub open spec fn unparsed(self, error: Seq<char>, body: Seq<char>) -> AuthErrorView {
        AuthErrorView::BadGateway(
            "failed to parse "@ + self.url + ": "@ + error + ". Body: "@ + body,
        )
    }
}

impl RancherGet {
    /// What to do with what came of sending the question.
    pub fn after_send(&self, outcome: GetOutcome) -> (r: GetStep)
        ensures
            match outcome {
                GetOutcome::Unreachable(error) => r matches GetStep::Fail(e) && e@
                    == self@.unreachable(error@),
                GetOutcome::Answered(status) => r == if is_success(status) {
                    GetStep::ReadBody
                } else {
                    GetStep::ReadErrorText(status)
                },
            },
    {
        match outcome {
            GetOutcome::Unreachable(error) => {
                let mut detail = self.url.clone();
                detail.append(": ");
                detail.append(error.as_str());
                GetStep::Fail(AuthError::RancherUnreachable(detail))
            },
            GetOutcome::Answered(status) => if succeeded(status) {
                GetStep::ReadBody
            } else {
                GetStep::ReadErrorText(status)
            },
        }
    }

    /// The error that an answer without success makes. Where its body did not
    /// come, its text counts as empty.
    pub fn status_error(&self, status: u16, body: Option<String>) -> (r: AuthError)
        ensures
            r@ == self@.refused(
                status,
                match body {
                    Some(text) => text@,
                    None => Seq::empty(),
                },
            ),
    {
        let mut detail = "Rancher returned ".to_owned();
        detail.append(written_status(status).as_str());
        detail.append(" for ");
        detail.append(self.url.as_str());
        detail.append(". Body: ");
        if let Some(text) = body {
            detail.append(text.as_str());
        }
        assert(detail@ =~= self@.refused(
            status,
            match body {
                Some(text) => text@,
                None => Seq::empty(),
            },
        )->InvalidToken_0);
        AuthError::InvalidToken(detail)
    }

    /// The items of the collection that was asked for.
    pub fn after_body<T>(&self, outcome: CollectionOutcome<T>) -> (r: Result<Vec<T>, AuthError>)
        ensures
            match outcome {
                CollectionOutcome::ReadFailed(error) => r matches Err(e) && e@ == self@.unreadable(
                    error@,
                ),
                CollectionOutcome::ParseFailed { error, body } => r matches Err(e) && e@
                    == self@.unparsed(error@, body@),
                CollectionOutcome::Parsed(items) => r == Ok::<_, AuthError>(items),
            },
    {
        match outcome {
            CollectionOutcome::ReadFailed(error) => {
                let mut detail = "failed to read body from ".to_owned();
                detail.append(self.url.as_str());
                detail.append(": ");
                detail.append(error.as_str());
                Err(AuthError::BadGateway(detail))
            },
            CollectionOutcome::ParseFailed { error, body } => {
                let mut detail = "failed to parse ".to_owned();
                detail.append(self.url.as_str());
                detail.append(": ");
                detail.append(error.as_str());
                detail.append(". Body: ");
                detail.append(body.as_str());
                Err(AuthError::BadGateway(detail))
            },
            CollectionOutcome::Parsed(items) => Ok(items),
        }
    }
}

/// How far the check of a request's credentials has come.
#[derive(Debug)]
pub enum AuthFlow {
    /// The request carries no credentials: it goes on without a context.
    PassThrough,
    /// Rancher is asked whom the token belongs to.
    Identify(Credentials),
    /// Rancher is asked for the bindings of global roles.
    FetchRoles(Credentials, UserIdentity),
    /// The request goes on with this context.
    Attached(AuthContext),
    /// The request is turned away.
    Rejected(AuthError),
}

/// How far the check of a request's credentials has come.
pub enum FlowView {
    PassThrough,
    Identify(CredentialsView),
    FetchRoles(CredentialsView, IdentityView),
    Attached(ContextView),
    Rejected(AuthErrorView),
}

impl View for AuthFlow {
    type V = FlowView;

    open spec fn view(&self) -> FlowView {
        match *self {
            AuthFlow::PassThrough => FlowView::PassThrough,
            AuthFlow::Identify(c) => FlowView::Identify(c@),
            AuthFlow::FetchRoles(c, user) => FlowView::FetchRoles(c@, user@),
            AuthFlow::Attached(context) => FlowView::Attached(context@),
            AuthFlow::Rejected(error) => FlowView::Rejected(error@),
        }
    }
}

/// What Rancher answered: the items of a collection, or why there are none.
pub open spec fn reply_view<T>(reply: Result<Vec<T>, AuthError>) -> Result<Seq<T>, AuthErrorView> {
    match reply {
        Ok(items) => Ok(items@),
        Err(error) => Err(error@),
    }
}

impl FlowView {
    /// The check of a request with these headers, before Rancher was asked.
    pub open spec fn start(fields: Map<Seq<char>, Seq<u8>>) -> FlowView {
        match credentials(fields) {
            Some(c) => FlowView::Identify(c),
            None => FlowView::PassThrough,
        }
    }

    /// What Rancher is asked next.
    pub open spec fn request(self) -> Option<GetView> {
        match self {
            FlowView::Identify(c) => Some(
                GetView { url: c.url + "/v3/principals"@, token: c.token },
            ),
            FlowView::FetchRoles(c, _) => Some(
                GetView { url: c.url + "/v3/globalRoleBindings"@, token: c.token },
            ),
            _ => None,
        }
    }

    /// The check once Rancher answered with the token's principals.
    pub open spec fn after_principals(
        self,
        reply: Result<Seq<RancherPrincipal>, AuthErrorView>,
    ) -> FlowView {
        match self {
            FlowView::Identify(c) => match reply {
                Ok(principals) => match identity(principals) {
                    Ok(user) => FlowView::FetchRoles(c, user),
                    Err(error) => FlowView::Rejected(error),
                },
                Err(error) => FlowView::Rejected(error),
            },
            _ => self,
        }
    }

    /// The check once Rancher answered with the bindings of global roles.
    pub open spec fn after_bindings(
        self,
        reply: Result<Seq<GlobalRoleBinding>, AuthErrorView>,
    ) -> FlowView {
        match self {
            FlowView::FetchRoles(c, user) => match reply {
                Ok(bindings) => FlowView::Attached(
                    ContextView {
                        display_name: user.display_name,
                        roles: bound_roles(bindings, user.principal_ids),
                    },
                ),
                Err(error) => FlowView::Rejected(error),
            },
            _ => self,
        }
    }
}

/// Starts the check of a request with these headers. Without credentials the
/// request is let through: clients may discover tools before they have a token.
pub fn rancher_auth_middleware(headers: &http::HeaderMap) -> (r: AuthFlow)
    ensures
        r@ == FlowView::start(header_fields(*headers)),
{
    match Credentials::from_headers(headers) {
        Some(c) => AuthFlow::Identify(c),
        None => AuthFlow::PassThrough,
    }
}

impl AuthFlow {
    /// What Rancher is to be asked next.
    pub fn request(&self) -> (r: Option<RancherGet>)
        ensures
            match r {
                Some(get) => self@.request() == Some(get@),
                None => self@.request() is None,
            },
    {
        match self {
            AuthFlow::Identify(c) => {
                let mut url = c.url.clone();
                url.append("/v3/principals");
                Some(RancherGet { url, token: c.token.clone() })
            },
            AuthFlow::FetchRoles(c, _) => {
                let mut url = c.url.clone();
                url.append("/v3/globalRoleBindings");
                Some(RancherGet { url, token: c.token.clone() })
            },
            _ => None,
        }
    }

    /// Goes on with Rancher's answer to whom the token belongs to. It changes
    /// nothing where that was not asked.
    pub fn on_principals(self, reply: Result<Vec<RancherPrincipal>, AuthError>) -> (r: AuthFlow)
        ensures
            r@ == self@.after_principals(reply_view(reply)),
    {
        match self {
            AuthFlow::Identify(c) => match reply {
                Ok(principals) => match identify(principals.as_slice()) {
                    Ok(user) => AuthFlow::FetchRoles(c, user),
                    Err(error) => AuthFlow::Rejected(error),
                },
                Err(error) => AuthFlow::Rejected(error),
            },
            other => other,
        }
    }

    /// Goes on with Rancher's answer to which roles are bound to whom. It
    /// changes nothing where that was not asked.
    pub fn on_bindings(self, reply: Result<Vec<GlobalRoleBinding>, AuthError>) -> (r: AuthFlow)
        ensures
            r@ == self@.after_bindings(reply_view(reply)),
    {
        match self {
            AuthFlow::FetchRoles(c, user) => match reply {
                Ok(bindings) => {
                    let roles = match_roles(bindings.as_slice(), user.principal_ids.as_slice());
                    AuthFlow::Attached(AuthContext { display_name: user.display_name, roles })
                },
                Err(error) => AuthFlow::Rejected(error),
            },
            other => other,
        }
    }
}

/// A request without both credentials is let through without a question to
/// Rancher, and gets no context, whatever Rancher would say.
pub proof fn law_no_credentials_no_context(
    fields: Map<Seq<char>, Seq<u8>>,
    principals: Result<Seq<RancherPrincipal>, AuthErrorView>,
    bindings: Result<Seq<GlobalRoleBinding>, AuthErrorView>,
)
    requires
        header_setting(fields, "r_token"@) is None || header_setting(fields, "r_url"@) is None,
    ensures
        FlowView::start(fields).request() is None,
        FlowView::start(fields).after_principals(principals).after_bindings(bindings)
            == FlowView::PassThrough,
{
}

/// A request gets a context exactly if it carries credentials, Rancher names at
/// least one principal for them, and Rancher lists the bindings; the context is
/// then that of the principals and the bindings. No earlier request has a part
/// in it.
pub proof fn law_context_rests_on_both_answers(
    fields: Map<Seq<char>, Seq<u8>>,
    principals: Result<Seq<RancherPrincipal>, AuthErrorView>,
    bindings: Result<Seq<GlobalRoleBinding>, AuthErrorView>,
)
    ensures
        ({
            let end = FlowView::start(fields).after_principals(principals).after_bindings(bindings);
            &&& end is Attached <==> credentials(fields) is Some && principals is Ok
                && principals->Ok_0.len() > 0 && bindings is Ok
            &&& end matches FlowView::Attached(context) ==> context == (ContextView {
                display_name: shown_name(principals->Ok_0),
                roles: bound_roles(bindings->Ok_0, principal_ids(principals->Ok_0)),
            })
        }),
{
}

/// Where Rancher cannot be reached, refuses the token or answers with something
/// unexpected, the request is turned away with that error; the bindings are
/// asked for only after the principals came.
pub proof fn law_failures_turn_the_request_away(
    fields: Map<Seq<char>, Seq<u8>>,
    principals: Result<Seq<RancherPrincipal>, AuthErrorView>,
    bindings: Result<Seq<GlobalRoleBinding>, AuthErrorView>,
)
    requires
        credentials(fields) is Some,
    ensures
        ({
            let asked = FlowView::start(fields).after_principals(principals);
            let end = asked.after_bindings(bindings);
            match (principals, bindings) {
                (Err(error), _) => asked.request() is None && end == FlowView::Rejected(error),
                (Ok(list), _) if list.len() == 0 => asked.request() is None && end
                    == FlowView::Rejected(AuthErrorView::InvalidToken("no principals returned"@)),
                (Ok(list), Err(error)) => end == FlowView::Rejected(error),
                (Ok(list), Ok(_)) => end is Attached,
            }
        }),
{
}

/// Both questions go to the Rancher server that the request itself names, and
/// bear the token that the request itself carries.
pub proof fn law_questions_use_the_given_credentials(
    fields: Map<Seq<char>, Seq<u8>>,
    principals: Seq<RancherPrincipal>,
)
    requires
        credentials(fields) is Some,
        principals.len() > 0,
    ensures
        ({
            let token = header_setting(fields, "r_token"@)->0;
            let url = trimmed_end(header_setting(fields, "r_url"@)->0, '/');
            let start = FlowView::start(fields);
            &&& start.request() == Some(GetView { url: url + "/v3/principals"@, token })
            &&& start.after_principals(Ok(principals)).request() == Some(
                GetView { url: url + "/v3/globalRoleBindings"@, token },
            )
        }),
{
}

/// The address of the Rancher server is what was given, up to the slashes at its
/// end, of which none is left.
pub proof fn law_slashes_at_the_end_do_not_count(url: Seq<char>)
    ensures
        trimmed_end(url, '/').is_prefix_of(url),
        trimmed_end(url, '/').len() > 0 ==> trimmed_end(url, '/').last() != '/',
        forall|i: int|
            trimmed_end(url, '/').len() <= i < url.len() ==> #[trigger] url[i] == '/',
        trimmed_end(url.push('/'), '/') == trimmed_end(url, '/'),
{
    law_trimming_stops_at_the_first_other_character(url, '/');
    assert(url.push('/').drop_last() =~= url);
}

/// A binding is bound to a user as soon as the id of any one of the principals
/// ends with the user's id, or to a group as soon as any one of them is the
/// group's, whatever its place; and to nobody else.
pub proof fn law_any_principal_can_be_bound(binding: GlobalRoleBinding, ids: Seq<Seq<char>>)
    ensures
        is_bound(binding, ids) <==> exists|k: int|
            0 <= k < ids.len() && {
                ||| binding.user_id matches Some(user) && user@.is_suffix_of(#[trigger] ids[k])
                ||| binding.group_principal_id matches Some(group) && group@ == ids[k]
            },
{
    if is_bound(binding, ids) {
        if let Some(user) = binding.user_id {
            if exists|i: int| 0 <= i < ids.len() && user@.is_suffix_of(#[trigger] ids[i]) {
                let i = choose|i: int| 0 <= i < ids.len() && user@.is_suffix_of(#[trigger] ids[i]);
                assert(user@.is_suffix_of(ids[i]));
            }
        }
        if let Some(group) = binding.group_principal_id {
            if exists|i: int| 0 <= i < ids.len() && #[trigger] ids[i] == group@ {
                let i = choose|i: int| 0 <= i < ids.len() && #[trigger] ids[i] == group@;
                assert(group@ == ids[i]);
            }
        }
    }
}

/// More principals never take a binding away: what is bound to some principals
/// is bound to any others among which they are. In what order they come, and how
/// often, does not matter.
pub proof fn law_more_principals_are_bound_no_less(
    binding: GlobalRoleBinding,
    ids: Seq<Seq<char>>,
    other: Seq<Seq<char>>,
)
    requires
        is_bound(binding, ids),
        forall|k: int| 0 <= k < ids.len() ==> other.contains(#[trigger] ids[k]),
    ensures
        is_bound(binding, other),
{
    law_any_principal_can_be_bound(binding, ids);
    let k = choose|k: int|
        0 <= k < ids.len() && {
            ||| binding.user_id matches Some(user) && user@.is_suffix_of(#[trigger] ids[k])
            ||| binding.group_principal_id matches Some(group) && group@ == ids[k]
        };
    assert(other.contains(ids[k]));
    let j = choose|j: int| 0 <= j < other.len() && other[j] == ids[k];
    assert(other[j] == ids[k]);
    law_any_principal_can_be_bound(binding, other);
}

/// A role that is bound to a user whose id any one of the principal ids ends
/// with is among the roles, wherever the binding and the principal stand.
pub proof fn law_user_bindings_give_their_role(
    bindings: Seq<GlobalRoleBinding>,
    ids: Seq<Seq<char>>,
    i: int,
    k: int,
)
    requires
        0 <= i < bindings.len(),
        0 <= k < ids.len(),
        bindings[i].user_id matches Some(user) && user@.is_suffix_of(ids[k]),
    ensures
        bound_roles(bindings, ids).contains(bindings[i].global_role_id@),
{
    law_any_principal_can_be_bound(bindings[i], ids);
    law_roles_come_from_bindings(bindings, ids, bindings[i].global_role_id@);
}

/// A role that is bound to a group which any one of the principals is, is among
/// the roles, wherever the binding and the principal stand.
pub proof fn law_group_bindings_give_their_role(
    bindings: Seq<GlobalRoleBinding>,
    ids: Seq<Seq<char>>,
    i: int,
    k: int,
)
    requires
        0 <= i < bindings.len(),
        0 <= k < ids.len(),
        bindings[i].group_principal_id matches Some(group) && group@ == ids[k],
    ensures
        bound_roles(bindings, ids).contains(bindings[i].global_role_id@),
{
    law_any_principal_can_be_bound(bindings[i], ids);
    law_roles_come_from_bindings(bindings, ids, bindings[i].global_role_id@);
}

/// A role is not among the roles where no binding of it is bound to a user or a
/// group that the principals are.
pub proof fn law_unbound_roles_are_not_given(
    bindings: Seq<GlobalRoleBinding>,
    ids: Seq<Seq<char>>,
    role: Seq<char>,
)
    requires
        forall|i: int, k: int|
            0 <= i < bindings.len() && 0 <= k < ids.len() && bindings[i].global_role_id@ == role
                ==> {
                &&& (#[trigger] bindings[i]).user_id matches Some(user) ==> !user@.is_suffix_of(
                    #[trigger] ids[k],
                )
                &&& bindings[i].group_principal_id matches Some(group) ==> group@ != ids[k]
            },
    ensures
        !bound_roles(bindings, ids).contains(role),
{
    law_roles_come_from_bindings(bindings, ids, role);
    if bound_roles(bindings, ids).contains(role) {
        let i = choose|i: int|
            0 <= i < bindings.len() && (#[trigger] bindings[i]).global_role_id@ == role && is_bound(
                bindings[i],
                ids,
            );
        law_any_principal_can_be_bound(bindings[i], ids);
    }
}

/// Each binding counts by itself, in its place: the roles of two lists of
/// bindings are those of the first, then those of the second, and a single
/// binding gives its role or nothing.
pub proof fn law_bindings_count_one_by_one(
    first: Seq<GlobalRoleBinding>,
    second: Seq<GlobalRoleBinding>,
    binding: GlobalRoleBinding,
    ids: Seq<Seq<char>>,
)
    ensures
        bound_roles(first + second, ids) == bound_roles(first, ids) + bound_roles(second, ids),
        bound_roles(seq![binding], ids) == if is_bound(binding, ids) {
            seq![binding.global_role_id@]
        } else {
            Seq::empty()
        },
    decreases second.len(),
{
    let none = Seq::<GlobalRoleBinding>::empty();
    none.lemma_filter_len(|b: GlobalRoleBinding| is_bound(b, ids));
    assert(bound_roles(none, ids) =~= Seq::empty());
    lemma_one_more_binding(none, binding, ids);
    assert(seq![binding] =~= none.push(binding));
    assert(Seq::<Seq<char>>::empty().push(binding.global_role_id@)
        =~= seq![binding.global_role_id@]);
    if second.len() == 0 {
        assert(second =~= none);
        assert(first + second =~= first);
        assert(bound_roles(first, ids) + bound_roles(second, ids) =~= bound_roles(first, ids));
    } else {
        let rest = second.drop_last();
        let last = second.last();
        law_bindings_count_one_by_one(first, rest, binding, ids);
        assert(first + second =~= (first + rest).push(last));
        assert(second =~= rest.push(last));
        lemma_one_more_binding(first + rest, last, ids);
        lemma_one_more_binding(rest, last, ids);
        assert(bound_roles(first + second, ids) =~= bound_roles(first, ids) + bound_roles(
            second,
            ids,
        ));
    }
}

/// Which roles a user has does not depend on the order of the principals, nor on
/// how often one is named.
pub proof fn law_order_of_principals_does_not_matter(
    bindings: Seq<GlobalRoleBinding>,
    ids: Seq<Seq<char>>,
    other: Seq<Seq<char>>,
)
    requires
        forall|id: Seq<char>| #[trigger] ids.contains(id) <==> other.contains(id),
    ensures
        bound_roles(bindings, ids) == bound_roles(bindings, other),
    decreases bindings.len(),
{
    if bindings.len() == 0 {
        bindings.lemma_filter_len(|b: GlobalRoleBinding| is_bound(b, ids));
        bindings.lemma_filter_len(|b: GlobalRoleBinding| is_bound(b, other));
        assert(bound_roles(bindings, ids) =~= bound_roles(bindings, other));
    } else {
        let rest = bindings.drop_last();
        let last = bindings.last();
        law_order_of_principals_does_not_matter(rest, ids, other);
        assert(bindings =~= rest.push(last));
        lemma_one_more_binding(rest, last, ids);
        lemma_one_more_binding(rest, last, other);
        assert forall|k: int| 0 <= k < ids.len() implies other.contains(#[trigger] ids[k]) by {
            assert(ids.contains(ids[k]));
        }
        assert forall|k: int| 0 <= k < other.len() implies ids.contains(#[trigger] other[k]) by {
            assert(other.contains(other[k]));
            assert(ids.contains(other[k]));
        }
        if is_bound(last, ids) {
            law_more_principals_are_bound_no_less(last, ids, other);
        }
        if is_bound(last, other) {
            law_more_principals_are_bound_no_less(last, other, ids);
        }
    }
}

/// A user has all the principals that Rancher names, in their order, whether or
/// not they are marked as the user's own; and is known exactly if there is one.
pub proof fn law_every_principal_belongs_to_the_user(principals: Seq<RancherPrincipal>, i: int)
    ensures
        identity(principals) is Ok <==> principals.len() > 0,
        identity(principals) matches Err(error) ==> error == AuthErrorView::InvalidToken(
            "no principals returned"@,
        ),
        identity(principals) matches Ok(user) ==> {
            &&& user.principal_ids == principal_ids(principals)
            &&& user.display_name == shown_name(principals)
        },
        principal_ids(principals).len() == principals.len(),
        0 <= i < principals.len() ==> principal_ids(principals)[i] == principals[i].id@,
{
}

/// A role that is bound to a group is held by every user that the group is named
/// for, whatever else is named.
pub proof fn law_group_members_hold_its_roles(
    principals: Seq<RancherPrincipal>,
    bindings: Seq<GlobalRoleBinding>,
    i: int,
    k: int,
)
    requires
        0 <= k < principals.len(),
        0 <= i < bindings.len(),
        bindings[i].group_principal_id matches Some(group) && group@ == principals[k].id@,
    ensures
        identity(principals) is Ok,
        bound_roles(bindings, identity(principals)->Ok_0.principal_ids).contains(
            bindings[i].global_role_id@,
        ),
{
    law_every_principal_belongs_to_the_user(principals, k);
    law_group_bindings_give_their_role(bindings, principal_ids(principals), i, k);
}

/// The first principal that is marked is the user's own.
proof fn lemma_own_principal(principals: Seq<RancherPrincipal>, i: int)
    requires
        0 <= i < principals.len(),
        principals[i].me == Some(true),
        forall|j: int| 0 <= j < i ==> (#[trigger] principals[j]).me != Some(true),
    ensures
        own_principal(principals) == Some(principals[i]),
    decreases i,
{
    if i > 0 {
        let rest = principals.drop_first();
        assert(principals[0].me != Some(true));
        assert forall|j: int| 0 <= j < i - 1 implies (#[trigger] rest[j]).me != Some(true) by {
            assert(rest[j] == principals[j + 1]);
        }
        lemma_own_principal(rest, i - 1);
    }
}

proof fn lemma_no_own_principal(principals: Seq<RancherPrincipal>)
    requires
        forall|j: int| 0 <= j < principals.len() ==> (#[trigger] principals[j]).me != Some(true),
    ensures
        own_principal(principals) is None,
    decreases principals.len(),
{
    if principals.len() > 0 {
        let rest = principals.drop_first();
        assert(principals[0].me != Some(true));
        assert forall|j: int| 0 <= j < rest.len() implies (#[trigger] rest[j]).me != Some(true) by {
            assert(rest[j] == principals[j + 1]);
        }
        lemma_no_own_principal(rest);
    }
}

/// The first principal that is marked as the user's own gives the name, wherever
/// it stands: its display name, or else its login name, or else `unknown`.
pub proof fn law_marked_principal_gives_the_name(principals: Seq<RancherPrincipal>, i: int)
    requires
        0 <= i < principals.len(),
        principals[i].me == Some(true),
        forall|j: int| 0 <= j < i ==> (#[trigger] principals[j]).me != Some(true),
    ensures
        shown_name(principals) == match (principals[i].display_name, principals[i].login_name) {
            (Some(name), _) => name@,
            (None, Some(name)) => name@,
            (None, None) => "unknown"@,
        },
{
    lemma_own_principal(principals, i);
}

/// Where no principal is marked, the first one gives the name; without any, the
/// user is `unknown`.
pub proof fn law_first_principal_gives_the_name(principals: Seq<RancherPrincipal>)
    requires
        forall|j: int| 0 <= j < principals.len() ==> (#[trigger] principals[j]).me != Some(true),
    ensures
        principals.len() == 0 ==> shown_name(principals) == "unknown"@,
        principals.len() > 0 ==> shown_name(principals) == match (
            principals[0].display_name,
            principals[0].login_name,
        ) {
            (Some(name), _) => name@,
            (None, Some(name)) => name@,
            (None, None) => "unknown"@,
        },
{
    lemma_no_own_principal(principals);
}

/// The bytes of a header are this text, and each of them is visible.
proof fn lemma_header_text(bytes: Seq<u8>, text: Seq<char>)
    requires
        bytes.len() == text.len(),
        forall|i: int|
            0 <= i < bytes.len() ==> (32 <= #[trigger] bytes[i] <= 126 || bytes[i] == 9)
                && bytes[i] as char == text[i],
    ensures
        visible_text(bytes) == Some(text),
{
    law_visible_bytes_are_text(bytes, 0);
    assert(visible_text(bytes)->0 =~= text);
}

/// Headers that both hold readable text carry credentials: the token as it is,
/// and the address up to the slashes at its end. Other headers do not matter.
pub proof fn law_both_headers_are_the_credentials(
    fields: Map<Seq<char>, Seq<u8>>,
    token: Seq<char>,
    url: Seq<char>,
)
    requires
        fields.contains_key("r_token"@),
        fields.contains_key("r_url"@),
        fields["r_token"@].len() == token.len() > 0,
        fields["r_url"@].len() == url.len() > 0,
        forall|i: int|
            0 <= i < token.len() ==> (32 <= #[trigger] fields["r_token"@][i] <= 126
                || fields["r_token"@][i] == 9) && fields["r_token"@][i] as char == token[i],
        forall|i: int|
            0 <= i < url.len() ==> (32 <= #[trigger] fields["r_url"@][i] <= 126
                || fields["r_url"@][i] == 9) && fields["r_url"@][i] as char == url[i],
    ensures
        credentials(fields) == Some(CredentialsView { token, url: trimmed_end(url, '/') }),
{
    lemma_header_text(fields["r_token"@], token);
    lemma_header_text(fields["r_url"@], url);
}

/// A header that is missing, empty or not visible ASCII is no credential, and
/// one credential without the other is none.
pub proof fn law_unreadable_headers_are_no_credentials(
    fields: Map<Seq<char>, Seq<u8>>,
    name: Seq<char>,
    i: int,
)
    requires
        name == "r_token"@ || name == "r_url"@,
        !fields.contains_key(name) || fields[name].len() == 0 || 0 <= i < fields[name].len() && !(32
            <= fields[name][i] <= 126 || fields[name][i] == 9),
    ensures
        credentials(fields) is None,
{
    if fields.contains_key(name) {
        law_visible_bytes_are_text(fields[name], 0);
    }
}

/// A context, a user, credentials and a question say what their fields hold.
pub proof fn law_views_say_what_is_held(
    context: AuthContext,
    user: UserIdentity,
    given: Credentials,
    get: RancherGet,
    i: int,
)
    ensures
        context@.display_name == context.display_name@,
        context@.roles.len() == context.roles@.len(),
        0 <= i < context.roles@.len() ==> context@.roles[i] == context.roles@[i]@,
        user@.display_name == user.display_name@,
        user@.principal_ids.len() == user.principal_ids@.len(),
        0 <= i < user.principal_ids@.len() ==> user@.principal_ids[i] == user.principal_ids@[i]@,
        given@.token == given.token@,
        given@.url == given.url@,
        get@.url == get.url@,
        get@.token == get.token@,
{
}

/// A check is where it says it is, and an answer is taken as it came.
pub proof fn law_flow_is_as_it_says(
    flow: AuthFlow,
    error: AuthError,
    principals: Result<Vec<RancherPrincipal>, AuthError>,
    bindings: Result<Vec<GlobalRoleBinding>, AuthError>,
)
    ensures
        match flow {
            AuthFlow::PassThrough => flow@ == FlowView::PassThrough,
            AuthFlow::Identify(c) => flow@ == FlowView::Identify(c@),
            AuthFlow::FetchRoles(c, user) => flow@ == FlowView::FetchRoles(c@, user@),
            AuthFlow::Attached(context) => flow@ == FlowView::Attached(context@),
            AuthFlow::Rejected(e) => flow@ == FlowView::Rejected(e@),
        },
        match error {
            AuthError::RancherUnreachable(detail) => error@ == AuthErrorView::RancherUnreachable(
                detail@,
            ),
            AuthError::InvalidToken(detail) => error@ == AuthErrorView::InvalidToken(detail@),
            AuthError::BadGateway(detail) => error@ == AuthErrorView::BadGateway(detail@),
        },
        match principals {
            Ok(items) => reply_view(principals) == Ok::<_, AuthErrorView>(items@),
            Err(e) => reply_view(principals) == Err::<Seq<RancherPrincipal>, _>(e@),
        },
        match bindings {
            Ok(items) => reply_view(bindings) == Ok::<_, AuthErrorView>(items@),
            Err(e) => reply_view(bindings) == Err::<Seq<GlobalRoleBinding>, _>(e@),
        },
{
}

/// Each way in which a question fails is told apart: no answer means that Rancher
/// is unreachable, a refusal that the token is invalid, anything unreadable that
/// the answer is bad. The log is told the address and the failure.
pub proof fn law_failed_questions_are_told_apart(
    get: GetView,
    status: u16,
    error: Seq<char>,
    body: Seq<char>,
)
    ensures
        get.unreachable(error) == AuthErrorView::RancherUnreachable(get.url + ": "@ + error),
        get.refused(status, body) == AuthErrorView::InvalidToken(
            "Rancher returned "@ + status_text(status) + " for "@ + get.url + ". Body: "@ + body,
        ),
        get.unreadable(error) == AuthErrorView::BadGateway(
            "failed to read body from "@ + get.url + ": "@ + error,
        ),
        get.unparsed(error, body) == AuthErrorView::BadGateway(
            "failed to parse "@ + get.url + ": "@ + error + ". Body: "@ + body,
        ),
{
}

/// Answers that were not asked for change nothing, and nothing is asked once the
/// check is through.
pub proof fn law_unasked_answers_change_nothing(
    flow: FlowView,
    principals: Result<Seq<RancherPrincipal>, AuthErrorView>,
    bindings: Result<Seq<GlobalRoleBinding>, AuthErrorView>,
)
    ensures
        !(flow is Identify) ==> flow.after_principals(principals) == flow,
        !(flow is FetchRoles) ==> flow.after_bindings(bindings) == flow,
        flow.request() is Some <==> flow is Identify || flow is FetchRoles,
{
}

} // verus!
