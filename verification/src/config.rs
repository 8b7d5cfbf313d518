//! The decisions of process configuration: where data lives, what a token
//! file holds, and which bind addresses are allowed.

use vstd::prelude::*;

use crate::text::{char_is_white_space, chars_of, is_white_space, string_from_chars};

verus! {

/// The default bind address.
pub const DEFAULT_BIND: &'static str = "127.0.0.1:65113";

/// Where the data directory comes from, in order of preference.
#[derive(Debug, Clone, Copy, PartialEq, Eq, Structural)]
pub enum DataDirSource {
    /// The `--data-dir` option.
    Explicit,
    /// `data` beside the token file.
    BesideTokenFile,
    /// `gaze-hermes-privacy` under `LOCALAPPDATA`.
    LocalAppData,
    /// `gaze-hermes-privacy` under `XDG_DATA_HOME`.
    XdgDataHome,
    /// `.local/share/gaze-hermes-privacy` under `HOME`.
    Home,
    /// `gaze-hermes-privacy-data` in the working directory.
    WorkingDirectory,
}

/// The first source that is available: the option when given, the token
/// file's directory when it has a nonempty one, then each environment
/// variable that is set and nonempty.
pub open spec fn data_dir_source_spec(
    explicit: bool,
    token_parent: bool,
    local_app_data: bool,
    xdg_data_home: bool,
    home: bool,
) -> DataDirSource {
    if explicit {
        DataDirSource::Explicit
    } else if token_parent {
        DataDirSource::BesideTokenFile
    } else if local_app_data {
        DataDirSource::LocalAppData
    } else if xdg_data_home {
        DataDirSource::XdgDataHome
    } else if home {
        DataDirSource::Home
    } else {
        DataDirSource::WorkingDirectory
    }
}

pub fn data_dir_source(
    explicit: bool,
    token_parent: bool,
    local_app_data: bool,
    xdg_data_home: bool,
    home: bool,
) -> (r: DataDirSource)
    ensures
        r == data_dir_source_spec(explicit, token_parent, local_app_data, xdg_data_home, home),
{
    if explicit {
        DataDirSource::Explicit
    } else if token_parent {
        DataDirSource::BesideTokenFile
    } else if local_app_data {
        DataDirSource::LocalAppData
    } else if xdg_data_home {
        DataDirSource::XdgDataHome
    } else if home {
        DataDirSource::Home
    } else {
        DataDirSource::WorkingDirectory
    }
}

/// `s` without leading and trailing white space (`str::trim`).
pub open spec fn trim_spec(s: Seq<char>) -> Seq<char>
    decreases s.len(),
{
    if s.len() > 0 && is_white_space(s[0]) {
        trim_spec(s.drop_first())
    } else if s.len() > 0 && is_white_space(s.last()) {
        trim_spec(s.drop_last())
    } else {
        s
    }
}

proof fn lemma_trim_back(s: Seq<char>)
    requires
        s.len() == 0 || !is_white_space(s[0]),
    ensures
        trim_spec(s) == trim_back_spec(s),
    decreases s.len(),
{
    if s.len() > 0 && is_white_space(s.last()) {
        let t = s.drop_last();
        if t.len() > 0 {
            assert(t[0] == s[0]);
        }
        lemma_trim_back(t);
    }
}

pub open spec fn trim_back_spec(s: Seq<char>) -> Seq<char>
    decreases s.len(),
{
    if s.len() > 0 && is_white_space(s.last()) {
        trim_back_spec(s.drop_last())
    } else {
        s
    }
}

/// `text` with white space trimmed from both ends.
pub fn trim(text: &str) -> (r: String)
    ensures
        r@ == trim_spec(text@),
{
    let cs = chars_of(text);
    let n = cs.len();
    let mut lo: usize = 0;
    assert(cs@.skip(0) =~= cs@);
    while lo < n && char_is_white_space(cs[lo])
        invariant
            n == cs@.len(),
            lo <= n,
            trim_spec(cs@) == trim_spec(cs@.skip(lo as int)),
        decreases n - lo,
    {
        assert(cs@.skip(lo as int).drop_first() =~= cs@.skip(lo + 1));
        lo = lo + 1;
    }
    let mut hi: usize = n;
    assert(cs@.subrange(lo as int, n as int) =~= cs@.skip(lo as int));
    proof {
        lemma_trim_back(cs@.skip(lo as int));
    }
    while hi > lo && char_is_white_space(cs[hi - 1])
        invariant
            n == cs@.len(),
            lo <= hi <= n,
            trim_spec(cs@) == trim_back_spec(cs@.subrange(lo as int, hi as int)),
        decreases hi,
    {
        assert(cs@.subrange(lo as int, hi as int).drop_last() =~= cs@.subrange(lo as int, hi - 1));
        hi = hi - 1;
    }
    let kept = crate::text::chars_range(&cs, lo, hi);
    string_from_chars(kept.as_slice())
}

/// The token a token file holds: its text trimmed, `None` when nothing is
/// left.
pub fn parse_token(raw: &str) -> (r: Option<String>)
    ensures
        trim_spec(raw@).len() == 0 ==> r is None,
        trim_spec(raw@).len() > 0 ==> (r matches Some(t) && t@ == trim_spec(raw@)),
{
    let token = trim(raw);
    if token.as_str().unicode_len() == 0 {
        None
    } else {
        Some(token)
    }
}

/// An IP address as its numeric parts.
#[derive(Debug, Clone, Copy, PartialEq, Eq)]
pub enum IpAddress {
    V4([u8; 4]),
    V6([u16; 8]),
}

/// A loopback address: `127.0.0.0/8`, or `::1`.
pub open spec fn is_loopback_spec(ip: IpAddress) -> bool {
    match ip {
        IpAddress::V4(o) => o[0] == 127,
        IpAddress::V6(s) => s[0] == 0 && s[1] == 0 && s[2] == 0 && s[3] == 0 && s[4] == 0 && s[5]
            == 0 && s[6] == 0 && s[7] == 1,
    }
}

pub fn is_loopback(ip: &IpAddress) -> (r: bool)
    ensures
        r == is_loopback_spec(*ip),
{
    match ip {
        IpAddress::V4(o) => o[0] == 127,
        IpAddress::V6(s) => s[0] == 0 && s[1] == 0 && s[2] == 0 && s[3] == 0 && s[4] == 0 && s[5]
            == 0 && s[6] == 0 && s[7] == 1,
    }
}

/// A bind address is allowed when it is loopback, or when non-loopback
/// binding was asked for.
pub fn bind_allowed(ip: &IpAddress, allow_non_loopback: bool) -> (r: bool)
    ensures
        r == (is_loopback_spec(*ip) || allow_non_loopback),
{
    is_loopback(ip) || allow_non_loopback
}

} // verus!
