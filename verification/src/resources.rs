//! Where the bundled `sing-box(.exe)` binary and `wintun.dll` are found:
//! the first candidate directory that holds each.

use vstd::prelude::*;
use std::path::PathBuf;

verus! {

#[verifier::external_type_specification]
#[verifier::external_body]
pub struct ExPathBuf(PathBuf);

/// Located paths to the sing-box binary and the directory containing
/// `wintun.dll`.
#[derive(Debug)]
pub struct Resources {
    pub singbox: PathBuf,
    pub wintun_dir: PathBuf,
}

/// Name of the Wintun driver library.
pub const WINTUN_FILENAME: &'static str = "wintun.dll";

/// Binary filename for the platform: `sing-box.exe` on Windows, `sing-box`
/// elsewhere.
pub fn singbox_filename(windows: bool) -> (r: &'static str)
    ensures
        r@ == (if windows {
            "sing-box.exe"@
        } else {
            "sing-box"@
        }),
{
    if windows {
        "sing-box.exe"
    } else {
        "sing-box"
    }
}

/// What was found in one candidate directory.
#[derive(Debug, Clone, Copy, PartialEq, Eq, Structural)]
pub struct DirProbe {
    /// The sing-box binary is a file there.
    pub has_singbox: bool,
    /// `wintun.dll` is a file there.
    pub has_wintun: bool,
}

/// The first index in `probes` whose probe satisfies `p`, or -1.
pub open spec fn first_with(probes: Seq<DirProbe>, singbox: bool) -> int
    decreases probes.len(),
{
    if probes.len() == 0 {
        -1
    } else {
        let r = first_with(probes.drop_last(), singbox);
        if r >= 0 {
            r
        } else if (if singbox {
            probes.last().has_singbox
        } else {
            probes.last().has_wintun
        }) {
            probes.len() - 1
        } else {
            -1
        }
    }
}

/// Search the probes of the candidate directories, in order, for the
/// sing-box binary and for `wintun.dll`, taking the first directory that
/// has each (they need not be the same directory). `None` unless both are
/// found.
pub fn search_dirs(probes: &[DirProbe]) -> (r: Option<(usize, usize)>)
    ensures
        match r {
            Some((s, w)) => s == first_with(probes@, true) && w == first_with(probes@, false),
            None => first_with(probes@, true) < 0 || first_with(probes@, false) < 0,
        },
{
    let mut singbox: Option<usize> = None;
    let mut wintun: Option<usize> = None;
    let mut i: usize = 0;
    while i < probes.len()
        invariant
            i <= probes.len(),
            match singbox {
                Some(s) => s == first_with(probes@.take(i as int), true) && s >= 0,
                None => first_with(probes@.take(i as int), true) < 0,
            },
            match wintun {
                Some(w) => w == first_with(probes@.take(i as int), false) && w >= 0,
                None => first_with(probes@.take(i as int), false) < 0,
            },
        decreases probes.len() - i,
    {
        assert(probes@.take(i + 1).drop_last() =~= probes@.take(i as int));
        if singbox.is_none() && probes[i].has_singbox {
            singbox = Some(i);
        }
        if wintun.is_none() && probes[i].has_wintun {
            wintun = Some(i);
        }
        i += 1;
    }
    assert(probes@.take(probes.len() as int) =~= probes@);
    match (singbox, wintun) {
        (Some(s), Some(w)) => Some((s, w)),
        _ => None,
    }
}

} // verus!
