//! The identity and SSH key the application supplies when the process cannot
//! read `~/.ssh` or `~/.gitconfig` itself.
use crate::git::error::GitError;
use crate::text::{trim, trimmed_chars};
use vstd::prelude::*;

verus! {

/// Settings chosen in the application.
#[derive(Debug)]
pub struct AuthContext {
    pub imported_ssh_key: Option<String>,
    pub imported_ssh_pub: Option<String>,
    pub user_name: Option<String>,
    pub user_email: Option<String>,
}

/// An `AuthContext` as plain values.
pub type AuthContextView = (Option<Seq<char>>, Option<Seq<char>>, Option<Seq<char>>, Option<Seq<char>>);

pub open spec fn opt_view(o: Option<String>) -> Option<Seq<char>> {
    match o {
        Some(s) => Some(s@),
        None => None,
    }
}

impl View for AuthContext {
    type V = AuthContextView;

    open spec fn view(&self) -> AuthContextView {
        (opt_view(self.imported_ssh_key), opt_view(self.imported_ssh_pub), opt_view(self.user_name), opt_view(self.user_email))
    }
}

fn copy_opt(o: &Option<String>) -> (r: Option<String>)
    ensures
        opt_view(r) == opt_view(*o),
{
    match o {
        Some(s) => Some(s.clone()),
        None => None,
    }
}

impl AuthContext {
    /// No key and no identity.
    pub fn empty() -> (c: Self)
        ensures
            c@ == (None::<Seq<char>>, None::<Seq<char>>, None::<Seq<char>>, None::<Seq<char>>),
    {
        AuthContext { imported_ssh_key: None, imported_ssh_pub: None, user_name: None, user_email: None }
    }

    /// A copy of the settings.
    pub fn duplicate(&self) -> (c: Self)
        ensures
            c@ == self@,
    {
        AuthContext {
            imported_ssh_key: copy_opt(&self.imported_ssh_key),
            imported_ssh_pub: copy_opt(&self.imported_ssh_pub),
            user_name: copy_opt(&self.user_name),
            user_email: copy_opt(&self.user_email),
        }
    }
}

/// The current settings, together with the access grant for the selected
/// key, kept in one snapshot so that an operation never pairs a new key with
/// an old grant.
pub struct AuthRegistry<A> {
    context: AuthContext,
    access: Option<A>,
}

impl<A> AuthRegistry<A> {
    /// The settings in force.
    pub closed spec fn current(&self) -> AuthContextView {
        self.context@
    }

    /// The access grant in force.
    pub closed spec fn grant(&self) -> Option<A> {
        self.access
    }

    /// A registry with empty settings and no grant.
    pub fn new() -> (r: Self)
        ensures
            r.current() == (None::<Seq<char>>, None::<Seq<char>>, None::<Seq<char>>, None::<Seq<char>>),
            r.grant() is None,
    {
        AuthRegistry { context: AuthContext::empty(), access: None }
    }

    /// Replaces the settings; no access grant goes with them.
    pub fn set_context(&mut self, ctx: AuthContext)
        ensures
            final(self).current() == ctx@,
            final(self).grant() is None,
    {
        self.set_context_with_access(ctx, None);
    }

    /// Replaces the settings together with the access grant for their key.
    pub fn set_context_with_access(&mut self, ctx: AuthContext, access: Option<A>)
        ensures
            final(self).current() == ctx@,
            final(self).grant() == access,
    {
        self.context = ctx;
        self.access = access;
    }

    /// A copy of the settings in force.
    pub fn context(&self) -> (c: AuthContext)
        ensures
            c@ == self.current(),
    {
        self.context.duplicate()
    }

    /// The configured commit identity: name and email, when both are set and
    /// not blank.
    pub fn configured_identity(&self) -> (r: Option<(String, String)>)
        ensures
            r is Some <==> identity_of(self.current()) is Some,
            match r {
                Some(pair) => identity_of(self.current()) == Some((pair.0@, pair.1@)),
                None => true,
            },
    {
        let ctx = self.context();
        let name = match non_blank(&ctx.user_name) {
            Some(n) => n,
            None => return None,
        };
        let email = match non_blank(&ctx.user_email) {
            Some(e) => e,
            None => return None,
        };
        Some((name, email))
    }
}

/// `Some(s)` when `s` is set and has a character other than white space.
pub open spec fn filled(o: Option<Seq<char>>) -> Option<Seq<char>> {
    match o {
        Some(s) => if trim(s).len() > 0 {
            Some(s)
        } else {
            None
        },
        None => None,
    }
}

/// The first of two values that is filled in.
pub open spec fn first_filled(a: Option<Seq<char>>, b: Option<Seq<char>>) -> Option<Seq<char>> {
    match filled(a) {
        Some(x) => Some(x),
        None => filled(b),
    }
}

/// The identity the settings give, when both parts are filled in.
pub open spec fn identity_of(ctx: AuthContextView) -> Option<(Seq<char>, Seq<char>)> {
    match (filled(ctx.2), filled(ctx.3)) {
        (Some(n), Some(e)) => Some((n, e)),
        _ => None,
    }
}

fn non_blank(o: &Option<String>) -> (r: Option<String>)
    ensures
        opt_view(r) == filled(opt_view(*o)),
{
    match o {
        Some(s) => {
            let t = trimmed_chars(s.as_str());
            if t.len() > 0 {
                Some(s.clone())
            } else {
                None
            }
        },
        None => None,
    }
}

/// The commit identity for a repository without a global configuration: each
/// of name and email comes from the repository's own configuration when it
/// is filled in there, else from the application's settings.
pub fn resolve_native_identity(
    local_name: Option<String>,
    local_email: Option<String>,
    settings: &AuthContext,
) -> (r: Result<(String, String), GitError>)
    ensures
        match (
            first_filled(opt_view(local_name), settings@.2),
            first_filled(opt_view(local_email), settings@.3),
        ) {
            (Some(n), Some(e)) => r matches Ok(pair) && pair.0@ == n && pair.1@ == e,
            _ => r matches Err(GitError::InvalidInput { message }) && message@
                == "Set the commit name and email in repository config or application settings"@,
        },
{
    let name = match non_blank(&local_name) {
        Some(n) => Some(n),
        None => non_blank(&settings.user_name),
    };
    let email = match non_blank(&local_email) {
        Some(e) => Some(e),
        None => non_blank(&settings.user_email),
    };
    match (name, email) {
        (Some(n), Some(e)) => Ok((n, e)),
        _ => Err(
            GitError::InvalidInput {
                message: String::from_str(
                    "Set the commit name and email in repository config or application settings",
                ),
            },
        ),
    }
}

} // verus!
