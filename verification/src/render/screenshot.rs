//! Where a screenshot goes.

use crate::text;
use crate::text::{chars_of, decimal_text};
use vstd::prelude::*;
use vstd::string::*;

verus! {

/// A file's name behind its directory's, with the slash the directory lacks.
pub open spec fn joined(dir: Seq<char>, name: Seq<char>) -> Seq<char> {
    if dir.len() == 0 || dir.last() == '/' {
        dir + name
    } else {
        dir.push('/') + name
    }
}

/// A screenshot's own name: when it was taken.
pub open spec fn stamped_name(stamp: u64) -> Seq<char> {
    "bnksound-"@ + text::decimal(stamp as nat) + ".png"@
}

/// Where a screenshot goes: where it was told to, else into the user's pictures
/// under a stamped name, else into the current directory.
pub open spec fn screenshot_at(
    explicit: Option<Seq<char>>,
    pictures: Option<Seq<char>>,
    stamp: u64,
) -> Seq<char> {
    match explicit {
        Some(path) => path,
        None => joined(
            match pictures {
                Some(dir) => dir,
                None => "."@,
            },
            stamped_name(stamp),
        ),
    }
}

pub fn screenshot_path(explicit: Option<&str>, pictures: Option<&str>, stamp: u64) -> (path: String)
    ensures
        path@ == screenshot_at(
            match explicit {
                Some(s) => Some(s@),
                None => None,
            },
            match pictures {
                Some(s) => Some(s@),
                None => None,
            },
            stamp,
        ),
{
    if let Some(path) = explicit {
        return path.to_owned();
    }
    let dir: &str = match pictures {
        Some(dir) => dir,
        None => ".",
    };
    let mut path: String = dir.to_owned();
    let held = chars_of(dir);
    if held.len() > 0 && held[held.len() - 1] != '/' {
        path.push('/');
    }
    path.append("bnksound-");
    path.append(decimal_text(stamp).as_str());
    path.append(".png");
    proof {
        let d = dir@;
        let slashed = if d.len() == 0 || d.last() == '/' {
            d
        } else {
            d.push('/')
        };
        assert(path@ =~= slashed + stamped_name(stamp));
    }
    path
}

} // verus!
