//! Verified core of the herdr terminal workspace client: the read-only
//! presence feed of project-user agents, the agent panel of the sidebar,
//! session-level pinned panes, socket access policy and build identity.
pub mod build_info;
pub mod layout;
pub mod pinned;
pub mod presence;
pub mod presence_refresh;
pub mod remote_host;
pub mod sidebar;
pub mod socket_access;
pub mod text;
pub mod timestamp;
