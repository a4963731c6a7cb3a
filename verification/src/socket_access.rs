//! Permission policy for the server's sockets (API, client and handoff
//! binds): owner-only, or shared with one group.
use vstd::prelude::*;
use crate::text::{occurs_at, owned, push_octal_padded4, octal_padded4, push_str, str_eq};

verus! {

/// How the `server.socket_access` setting shares the sockets.
#[derive(PartialEq, Eq, Structural, Clone, Copy, Debug)]
pub enum SocketAccessMode {
    /// Owner only.
    User,
    /// Owner and one group.
    Group,
}

impl SocketAccessMode {
    /// The permission bits of a socket under this mode.
    pub fn mode_bits(&self) -> (bits: u32)
        ensures
            *self == SocketAccessMode::User ==> bits == 0o600,
            *self == SocketAccessMode::Group ==> bits == 0o660,
    {
        match self {
            SocketAccessMode::User => 0o600,
            SocketAccessMode::Group => 0o660,
        }
    }
}

/// The `[server]` settings that decide socket access.
pub struct ServerConfig {
    /// `user` or `group`.
    pub socket_access: String,
    /// The group to share with in `group` mode.
    pub socket_group: String,
}

impl Default for ServerConfig {
    /// The default settings: owner-only access, no group.
    fn default() -> (c: ServerConfig)
        ensures
            c.socket_access@ == "user"@,
            c.socket_group@.len() == 0,
    {
        ServerConfig { socket_access: owned("user"), socket_group: String::new() }
    }
}

/// Rust's `{:?}` rendering of a string: quoted, with special characters
/// escaped.
pub uninterp spec fn str_debug(s: Seq<char>) -> Seq<char>;

/// A character that `Debug` for `str` writes as itself: printable ASCII
/// other than a quote or a backslash.
pub open spec fn plain_debug_char(c: char) -> bool {
    ' ' <= c <= '~' && c != '"' && c != '\\' && c != '\''
}

/// `format!("{s:?}")` on a string slice (std's `Debug` for `str`): the
/// result is a function of the text alone, and a text of plain characters
/// comes out unchanged between double quotes.
#[verifier::external_body]
pub(crate) fn debug_quoted(s: &str) -> (out: String)
    ensures
        out@ == str_debug(s@),
        (forall|i: int| 0 <= i < s@.len() ==> plain_debug_char(#[trigger] s@[i])) ==> out@ == seq![
            '"',
        ] + s@ + seq!['"'],
{
    format!("{s:?}")
}

/// The message for an unknown `server.socket_access` value.
pub open spec fn bad_mode_message(value: Seq<char>) -> Seq<char> {
    "server.socket_access must be \"user\" or \"group\", got "@ + str_debug(value)
}

/// The message for `group` mode without a group.
pub open spec fn missing_group_message() -> Seq<char> {
    "server.socket_access = \"group\" requires server.socket_group"@
}

/// The mode the setting names: `user` or `group`, anything else an error.
pub open spec fn spec_socket_access_mode(config: ServerConfig) -> Result<SocketAccessMode, Seq<char>> {
    if config.socket_access@ == "user"@ {
        Ok(SocketAccessMode::User)
    } else if config.socket_access@ == "group"@ {
        Ok(SocketAccessMode::Group)
    } else {
        Err(bad_mode_message(config.socket_access@))
    }
}

pub fn socket_access_mode(config: &ServerConfig) -> (mode: Result<SocketAccessMode, String>)
    ensures
        match mode {
            Ok(m) => spec_socket_access_mode(*config) == Ok::<SocketAccessMode, Seq<char>>(m),
            Err(e) => spec_socket_access_mode(*config) == Err::<SocketAccessMode, Seq<char>>(e@),
        },
{
    if str_eq(config.socket_access.as_str(), "user") {
        Ok(SocketAccessMode::User)
    } else if str_eq(config.socket_access.as_str(), "group") {
        Ok(SocketAccessMode::Group)
    } else {
        let mut msg = owned("server.socket_access must be \"user\" or \"group\", got ");
        let quoted = debug_quoted(config.socket_access.as_str());
        push_str(&mut msg, quoted.as_str());
        Err(msg)
    }
}

/// What the settings ask for before the group is looked up.
pub enum SocketAccessRequest {
    User,
    Group { name: String },
}

/// The request the settings make: owner-only, or a (non-empty) group.
pub open spec fn spec_policy_request(config: ServerConfig) -> Result<Option<Seq<char>>, Seq<char>> {
    match spec_socket_access_mode(config) {
        Err(e) => Err(e),
        Ok(SocketAccessMode::User) => Ok(None),
        Ok(SocketAccessMode::Group) => if config.socket_group@.len() == 0 {
            Err(missing_group_message())
        } else {
            Ok(Some(config.socket_group@))
        },
    }
}

/// The `socket_access` setting alone decides between owner-only and group
/// sockets: "user" asks for owner-only sockets whatever `socket_group`
/// holds; "group" asks for the named group, or fails without one; any
/// other value fails.
pub proof fn lemma_socket_access_decides_the_request(config: ServerConfig)
    ensures
        config.socket_access@ == "user"@ ==> spec_policy_request(config) == Ok::<
            Option<Seq<char>>,
            Seq<char>,
        >(None),
        config.socket_access@ == "group"@ && config.socket_group@.len() > 0 ==> spec_policy_request(
            config,
        ) == Ok::<Option<Seq<char>>, Seq<char>>(Some(config.socket_group@)),
        config.socket_access@ == "group"@ && config.socket_group@.len() == 0 ==> spec_policy_request(
            config,
        ) is Err,
        config.socket_access@ != "user"@ && config.socket_access@ != "group"@ ==> spec_policy_request(
            config,
        ) is Err,
{
    reveal_strlit("user");
    reveal_strlit("group");
    assert("user"@ != "group"@) by {
        assert("user"@.len() != "group"@.len());
    }
}

pub fn policy_request(config: &ServerConfig) -> (req: Result<SocketAccessRequest, String>)
    ensures
        match req {
            Ok(SocketAccessRequest::User) => spec_policy_request(*config) == Ok::<
                Option<Seq<char>>,
                Seq<char>,
            >(None),
            Ok(SocketAccessRequest::Group { name }) => spec_policy_request(*config) == Ok::<
                Option<Seq<char>>,
                Seq<char>,
            >(Some(name@)),
            Err(e) => spec_policy_request(*config) == Err::<Option<Seq<char>>, Seq<char>>(e@),
        },
{
    match socket_access_mode(config) {
        Err(e) => Err(e),
        Ok(SocketAccessMode::User) => Ok(SocketAccessRequest::User),
        Ok(SocketAccessMode::Group) => {
            if config.socket_group.as_str().is_empty() {
                Err(owned("server.socket_access = \"group\" requires server.socket_group"))
            } else {
                Ok(SocketAccessRequest::Group { name: config.socket_group.clone() })
            }
        },
    }
}

/// Resolved socket permission policy.
pub enum SocketAccessPolicy {
    User,
    Group { name: String, gid: u32 },
}

/// The message when a group cannot be resolved.
pub open spec fn unresolved_group_message(name: Seq<char>, err: Seq<char>) -> Seq<char> {
    "server.socket_group "@ + str_debug(name) + " could not be resolved: "@ + err
}

/// The group policy once the group lookup for `name` answered `lookup`.
pub fn resolve_group_policy(name: &str, lookup: Result<u32, String>) -> (policy: Result<
    SocketAccessPolicy,
    String,
>)
    ensures
        match lookup {
            Ok(gid) => policy matches Ok(SocketAccessPolicy::Group { name: n, gid: g }) && n@
                == name@ && g == gid,
            Err(e) => policy matches Err(m) && m@ == unresolved_group_message(name@, e@),
        },
        lookup is Err && (forall|i: int| 0 <= i < name@.len() ==> plain_debug_char(#[trigger] name@[i]))
            ==> (policy matches Err(m) && exists|k: int| occurs_at(m@, name@, k)),
{
    match lookup {
        Ok(gid) => Ok(SocketAccessPolicy::Group { name: owned(name), gid }),
        Err(e) => {
            let mut msg = owned("server.socket_group ");
            let quoted = debug_quoted(name);
            push_str(&mut msg, quoted.as_str());
            push_str(&mut msg, " could not be resolved: ");
            push_str(&mut msg, e.as_str());
            proof {
                if forall|i: int| 0 <= i < name@.len() ==> plain_debug_char(#[trigger] name@[i]) {
                    reveal_strlit("server.socket_group ");
                    assert(msg@.subrange(21, 21 + name@.len() as int) =~= name@);
                    assert(occurs_at(msg@, name@, 21));
                }
            }
            Err(msg)
        },
    }
}

/// "user (0600)" or "group (0660, group=NAME)".
pub open spec fn spec_describe(policy: SocketAccessPolicy) -> Seq<char> {
    match policy {
        SocketAccessPolicy::User => "user ("@ + octal_padded4(0o600) + ")"@,
        SocketAccessPolicy::Group { name, .. } => "group ("@ + octal_padded4(0o660) + ", group="@
            + name@ + ")"@,
    }
}

impl SocketAccessPolicy {
    /// The permission bits the policy gives a socket.
    pub fn mode_bits(&self) -> (bits: u32)
        ensures
            *self is User ==> bits == 0o600,
            *self is Group ==> bits == 0o660,
    {
        match self {
            SocketAccessPolicy::User => SocketAccessMode::User.mode_bits(),
            SocketAccessPolicy::Group { .. } => SocketAccessMode::Group.mode_bits(),
        }
    }

    /// A one-line description of the policy for status output.
    pub fn describe(&self) -> (d: String)
        ensures
            d@ == spec_describe(*self),
    {
        match self {
            SocketAccessPolicy::User => {
                let mut out = owned("user (");
                push_octal_padded4(&mut out, self.mode_bits());
                push_str(&mut out, ")");
                out
            },
            SocketAccessPolicy::Group { name, .. } => {
                let mut out = owned("group (");
                push_octal_padded4(&mut out, self.mode_bits());
                push_str(&mut out, ", group=");
                push_str(&mut out, name.as_str());
                push_str(&mut out, ")");
                out
            },
        }
    }
}

/// The status line for a policy, or why the settings are invalid.
pub open spec fn spec_describe_result(r: Result<SocketAccessPolicy, String>) -> Seq<char> {
    match r {
        Ok(p) => spec_describe(p),
        Err(e) => "invalid ("@ + e@ + ")"@,
    }
}

pub fn describe_policy_result(r: &Result<SocketAccessPolicy, String>) -> (d: String)
    ensures
        d@ == spec_describe_result(*r),
{
    match r {
        Ok(p) => p.describe(),
        Err(e) => {
            let mut out = owned("invalid (");
            push_str(&mut out, e.as_str());
            push_str(&mut out, ")");
            out
        },
    }
}

} // verus!
