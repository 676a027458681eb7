//! Where quadlets are read from and linked to, and who runs the commands.

use vstd::prelude::*;
use crate::paths::{join_path, joined};
use crate::text::{join, join_strings, strings_view};

verus! {

/// The directory, under the project root, that holds quadlets when it exists.
pub open spec fn nested_quadlets_dir(root: Seq<char>) -> Seq<char> {
    joined(root, "quadlets"@)
}

/// The path of the `quadlets` directory under a project root.
pub fn quadlets_dir(root: &str) -> (r: String)
    ensures
        r@ == nested_quadlets_dir(root@),
{
    join_path(root, "quadlets")
}

/// The directories quadlets are read from: `<root>/quadlets` when it is a
/// directory, then the root itself.
pub open spec fn source_dirs_of(root: Seq<char>, nested_is_dir: bool) -> Seq<Seq<char>> {
    if nested_is_dir {
        seq![nested_quadlets_dir(root), root]
    } else {
        seq![root]
    }
}

/// The directories quadlets are read from, given whether `<root>/quadlets` is a directory.
pub fn discover_source_dirs(root: &str, nested_is_dir: bool) -> (r: Vec<String>)
    ensures
        strings_view(r@) == source_dirs_of(root@, nested_is_dir),
{
    let mut dirs: Vec<String> = Vec::new();
    if nested_is_dir {
        dirs.push(quadlets_dir(root));
    }
    dirs.push(String::from_str(root));
    assert(strings_view(dirs@) =~= source_dirs_of(root@, nested_is_dir));
    dirs
}

/// Where quadlets are linked: `$HOME/.config/containers/systemd`.
pub open spec fn target_dir_of(home: Seq<char>) -> Seq<char> {
    joined(home, ".config/containers/systemd"@)
}

/// The text ", ".
pub open spec fn comma_space() -> Seq<char> {
    seq![',', ' ']
}

/// The settings every operation works with.
#[derive(Debug)]
pub struct AppContext {
    /// The directories quadlets are read from.
    pub source_dirs: Vec<String>,
    /// The directory quadlets are linked into.
    pub target_dir: String,
    /// The user the quadlet check runs for.
    pub user: String,
    /// Report what would be done instead of doing it.
    pub dry_run: bool,
}

/// `HOME` is not set, so there is no target directory.
#[derive(Debug, Clone, Copy, PartialEq, Eq, Structural)]
pub struct HomeNotSet;

impl HomeNotSet {
    /// "HOME is not set".
    pub fn message(&self) -> (r: String)
        ensures
            r@ == "HOME is not set"@,
    {
        String::from_str("HOME is not set")
    }
}

impl AppContext {
    /// The settings for a project root (given whether `<root>/quadlets` is a
    /// directory) and the values of `HOME` and `USER`: an unset `USER` counts
    /// as "unknown", an unset `HOME` is an error.
    pub fn new(root: &str, nested_is_dir: bool, home: Option<&str>, user: Option<&str>, dry_run: bool) -> (r: Result<AppContext, HomeNotSet>)
        ensures
            home is None ==> r is Err,
            home matches Some(h) ==> r matches Ok(c) && {
                &&& strings_view(c.source_dirs@) == source_dirs_of(root@, nested_is_dir)
                &&& c.target_dir@ == target_dir_of(h@)
                &&& c.user@ == (match user {
                    Some(u) => u@,
                    None => "unknown"@,
                })
                &&& c.dry_run == dry_run
            },
    {
        let source_dirs = discover_source_dirs(root, nested_is_dir);
        let h = match home {
            Some(h) => h,
            None => {
                return Err(HomeNotSet);
            },
        };
        let target_dir = join_path(h, ".config/containers/systemd");
        let user = match user {
            Some(u) => String::from_str(u),
            None => String::from_str("unknown"),
        };
        Ok(AppContext { source_dirs, target_dir, user, dry_run })
    }

    /// The source directories as they are shown: joined by ", ".
    pub fn source_display(&self) -> (r: String)
        ensures
            r@ == join(strings_view(self.source_dirs@), comma_space()),
    {
        proof {
            reveal_strlit(", ");
            assert(", "@ =~= comma_space());
        }
        join_strings(self.source_dirs.as_slice(), ", ")
    }
}

} // verus!
