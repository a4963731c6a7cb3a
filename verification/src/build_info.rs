//! Build identity: release channel, build stamp and the version string a
//! running server reports.
use vstd::prelude::*;
use crate::text::{owned, push_char, push_str, str_eq, trim_str, trimmed};

verus! {

/// The build settings a binary was compiled with.
pub struct BuildStamp {
    /// The package version.
    pub base_version: &'static str,
    /// `HERDR_BUILD_CHANNEL` at compile time.
    pub channel: Option<&'static str>,
    /// `HERDR_BUILD_ID` at compile time.
    pub build_id: Option<&'static str>,
}

pub open spec fn opt_str_view(v: Option<&str>) -> Option<Seq<char>> {
    match v {
        Some(s) => Some(s@),
        None => None,
    }
}

/// A setting, trimmed; `None` when absent or blank.
pub open spec fn spec_non_empty(value: Option<Seq<char>>) -> Option<Seq<char>> {
    match value {
        Some(s) => if trimmed(s).len() == 0 {
            None
        } else {
            Some(trimmed(s))
        },
        None => None,
    }
}

pub open spec fn stable_text() -> Seq<char> {
    seq!['s', 't', 'a', 'b', 'l', 'e']
}

pub open spec fn preview_text() -> Seq<char> {
    seq!['p', 'r', 'e', 'v', 'i', 'e', 'w']
}

/// The release channel: the configured one, `stable` by default.
pub open spec fn spec_channel(stamp: BuildStamp) -> Seq<char> {
    match spec_non_empty(opt_str_view(stamp.channel)) {
        Some(c) => c,
        None => stable_text(),
    }
}

pub open spec fn spec_build_id(stamp: BuildStamp) -> Option<Seq<char>> {
    spec_non_empty(opt_str_view(stamp.build_id))
}

/// `{base}` or `{base}-{build_id}` on the stable channel;
/// `{base}-{channel}` or `{base}-{channel}.{build_id}` on any other.
pub open spec fn spec_version(stamp: BuildStamp) -> Seq<char> {
    let base = stamp.base_version@;
    let channel = spec_channel(stamp);
    if channel == stable_text() {
        match spec_build_id(stamp) {
            Some(b) => base.push('-') + b,
            None => base,
        }
    } else {
        match spec_build_id(stamp) {
            Some(b) => base.push('-') + channel.push('.') + b,
            None => base.push('-') + channel,
        }
    }
}

/// The version starts with the package version, and ends with the build
/// stamp whenever one is set, on every channel.
pub proof fn lemma_version_carries_base_and_stamp(stamp: BuildStamp)
    ensures
        spec_version(stamp).len() >= stamp.base_version@.len(),
        spec_version(stamp).take(stamp.base_version@.len() as int) == stamp.base_version@,
        spec_build_id(stamp) matches Some(b) ==> {
            &&& spec_version(stamp).len() >= b.len()
            &&& spec_version(stamp).skip(spec_version(stamp).len() - b.len()) == b
        },
{
    let v = spec_version(stamp);
    let base = stamp.base_version@;
    assert(v.take(base.len() as int) =~= base);
    match spec_build_id(stamp) {
        Some(b) => {
            assert(v.skip(v.len() - b.len()) =~= b);
        },
        None => {},
    }
}

/// A setting, trimmed; `None` when absent or blank.
pub fn non_empty(value: Option<&'static str>) -> (out: Option<&'static str>)
    ensures
        opt_str_view(out) == spec_non_empty(opt_str_view(value)),
{
    match value {
        Some(v) => {
            let trimmed = trim_str(v);
            if trimmed.is_empty() {
                None
            } else {
                Some(trimmed)
            }
        },
        None => None,
    }
}

/// The release channel the binary was built for.
pub fn channel(stamp: &BuildStamp) -> (c: &'static str)
    ensures
        c@ == spec_channel(*stamp),
{
    match non_empty(stamp.channel) {
        Some(c) => c,
        None => {
            proof {
                reveal_strlit("stable");
            }
            assert("stable"@ =~= stable_text());
            "stable"
        },
    }
}

/// The build stamp, when one was set.
pub fn build_id(stamp: &BuildStamp) -> (id: Option<&'static str>)
    ensures
        opt_str_view(id) == spec_build_id(*stamp),
{
    non_empty(stamp.build_id)
}

/// The version a running server reports. The build stamp is part of it on
/// every channel, so a rebuilt binary is told apart from a running one.
pub fn version(stamp: &BuildStamp) -> (v: String)
    ensures
        v@ == spec_version(*stamp),
{
    let ch = channel(stamp);
    proof {
        reveal_strlit("stable");
    }
    let is_stable = str_eq(ch, "stable");
    assert(is_stable == (ch@ == stable_text())) by {
        assert("stable"@ =~= stable_text());
    }
    let mut out = owned(stamp.base_version);
    match build_id(stamp) {
        Some(b) => {
            push_char(&mut out, '-');
            if !is_stable {
                push_str(&mut out, ch);
                push_char(&mut out, '.');
            }
            push_str(&mut out, b);
            proof {
                let base = stamp.base_version@;
                if is_stable {
                    assert(out@ =~= base.push('-') + b@);
                } else {
                    assert(out@ =~= base.push('-') + ch@.push('.') + b@);
                }
            }
        },
        None => {
            if !is_stable {
                push_char(&mut out, '-');
                push_str(&mut out, ch);
            }
        },
    }
    out
}

/// True on the preview channel.
pub fn is_preview(stamp: &BuildStamp) -> (p: bool)
    ensures
        p == (spec_channel(*stamp) == preview_text()),
{
    proof {
        reveal_strlit("preview");
    }
    assert("preview"@ =~= preview_text());
    str_eq(channel(stamp), "preview")
}

} // verus!
