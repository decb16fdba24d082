//! File-system paths as text: joining, and where a figure binary writes.

use crate::text::{concat, text_equals};
use vstd::prelude::*;
use vstd::string::*;

verus! {

/// `base` joined with `rel` as `std::path::Path::join` does on Unix: an
/// absolute `rel` replaces `base`; otherwise a `/` separates the two unless
/// `base` is empty or already ends in one.
pub open spec fn joined(base: Seq<char>, rel: Seq<char>) -> Seq<char> {
    if rel.len() > 0 && rel[0] == '/' {
        rel
    } else if base.len() == 0 || base.last() == '/' {
        base + rel
    } else {
        base + seq!['/'] + rel
    }
}

/// `base` joined with `rel` (see `joined`).
pub fn join_path(base: &str, rel: &str) -> (p: String)
    ensures
        p@ == joined(base@, rel@),
{
    let rn = rel.unicode_len();
    if rn > 0 && rel.get_char(0) == '/' {
        return rel.to_owned();
    }
    let bn = base.unicode_len();
    if bn == 0 || base.get_char(bn - 1) == '/' {
        concat(base, rel)
    } else {
        proof {
            reveal_strlit("/");
        }
        let mut p = concat(base, "/");
        p.append(rel);
        assert(p@ =~= base@ + seq!['/'] + rel@);
        p
    }
}

/// What `std::path::Path::parent` gives for a path on a Unix target: the
/// path without its final component, or `None` for the root or the empty
/// path. (Other targets parse paths by other rules, for instance Windows
/// prefixes and `\\` separators.)
pub uninterp spec fn path_parent_of(p: Seq<char>) -> Option<Seq<char>>;

/// `std::path::Path::parent` on a UTF-8 path. The contract claims only
/// that the result is the one `path_parent_of` names for the argument.
#[verifier::external_body]
fn path_parent(p: &str) -> (r: Option<String>)
    ensures
        match r {
            Some(q) => path_parent_of(p@) == Some(q@),
            None => path_parent_of(p@) is None,
        },
{
    match std::path::Path::new(p).parent() {
        Some(q) => Some(q.to_string_lossy().into_owned()),
        None => None,
    }
}

/// Whether `a` selects the site output (`--site` or `--publish`).
pub open spec fn is_site_flag(a: Seq<char>) -> bool {
    a == "--site"@ || a == "--publish"@
}

/// Whether `a` selects the scratch output (`--scratch` or `--preview`).
pub open spec fn is_scratch_flag(a: Seq<char>) -> bool {
    a == "--scratch"@ || a == "--preview"@
}

/// The output mode the arguments select, starting from `scratch`: the last
/// flag wins; the first unknown argument is the error.
pub open spec fn output_mode(args: Seq<Seq<char>>, scratch: bool) -> Result<bool, Seq<char>>
    decreases args.len(),
{
    if args.len() == 0 {
        Ok(scratch)
    } else if is_site_flag(args[0]) {
        output_mode(args.drop_first(), false)
    } else if is_scratch_flag(args[0]) {
        output_mode(args.drop_first(), true)
    } else {
        Err(args[0])
    }
}

/// Why the output paths could not be set up.
#[derive(Debug)]
pub enum OutputArgError {
    /// An argument that is neither a site nor a scratch flag.
    UnknownArgument(String),
    /// The crate directory has no grandparent to serve as the site root.
    NoRepoRoot,
}

/// Output paths for a figure binary: the working-tree blog asset by default,
/// an ignored preview directory with `--scratch`.
pub struct OutputPaths {
    repo_root: String,
    preview_root: String,
    scratch: bool,
}

impl OutputPaths {
    /// The site root.
    pub closed spec fn repo_root_view(&self) -> Seq<char> {
        self.repo_root@
    }

    /// The preview root.
    pub closed spec fn preview_root_view(&self) -> Seq<char> {
        self.preview_root@
    }

    /// Whether renders go to the preview directory.
    pub closed spec fn is_scratch(&self) -> bool {
        self.scratch
    }

    /// Read the command-line arguments (without the program name) and set up
    /// the roots: the site root is the grandparent of `manifest_dir`, the
    /// preview root `manifest_dir/build/preview`.
    pub fn from_args(args: &Vec<String>, manifest_dir: &str) -> (r: Result<OutputPaths, OutputArgError>)
        ensures
            match output_mode(args.deep_view(), false) {
                Err(bad) => r matches Err(OutputArgError::UnknownArgument(a)) && a@ == bad,
                Ok(scratch) => match path_parent_of(manifest_dir@) {
                    Some(parent) => match path_parent_of(parent) {
                        Some(root) => r matches Ok(paths) && paths.repo_root_view() == root
                            && paths.preview_root_view() == joined(manifest_dir@, "build/preview"@)
                            && paths.is_scratch() == scratch,
                        None => r matches Err(OutputArgError::NoRepoRoot),
                    },
                    None => r matches Err(OutputArgError::NoRepoRoot),
                },
            },
    {
        let mut scratch = false;
        let mut i: usize = 0;
        proof {
            reveal_strlit("--site");
            reveal_strlit("--publish");
            reveal_strlit("--scratch");
            reveal_strlit("--preview");
            assert(args.deep_view().skip(0) =~= args.deep_view());
        }
        while i < args.len()
            invariant
                i <= args.len(),
                output_mode(args.deep_view(), false) == output_mode(
                    args.deep_view().skip(i as int),
                    scratch,
                ),
            decreases args.len() - i,
        {
            let arg = args[i].as_str();
            let ghost rest = args.deep_view().skip(i as int);
            assert(rest[0] == arg@);
            assert(rest.drop_first() =~= args.deep_view().skip(i + 1));
            if text_equals(arg, "--site") || text_equals(arg, "--publish") {
                scratch = false;
            } else if text_equals(arg, "--scratch") || text_equals(arg, "--preview") {
                scratch = true;
            } else {
                return Err(OutputArgError::UnknownArgument(arg.to_owned()));
            }
            i = i + 1;
        }
        let parent = match path_parent(manifest_dir) {
            Some(p) => p,
            None => {
                return Err(OutputArgError::NoRepoRoot);
            },
        };
        let repo_root = match path_parent(parent.as_str()) {
            Some(p) => p,
            None => {
                return Err(OutputArgError::NoRepoRoot);
            },
        };
        let preview_root = join_path(manifest_dir, "build/preview");
        Ok(OutputPaths { repo_root, preview_root, scratch })
    }

    /// Whether renders go to the preview directory.
    pub fn scratch(&self) -> (b: bool)
        ensures
            b == self.is_scratch(),
    {
        self.scratch
    }

    /// Where a blog figure named `filename` is written.
    pub fn blog(&self, filename: &str) -> (p: String)
        ensures
            p@ == if !self.is_scratch() {
                joined(joined(self.repo_root_view(), "src/content/blog/virtua-grotesk"@), filename@)
            } else {
                joined(joined(self.preview_root_view(), "blog"@), filename@)
            },
    {
        if !self.scratch {
            let dir = join_path(self.repo_root.as_str(), "src/content/blog/virtua-grotesk");
            join_path(dir.as_str(), filename)
        } else {
            let dir = join_path(self.preview_root.as_str(), "blog");
            join_path(dir.as_str(), filename)
        }
    }

    /// Where an OG image named `filename` is written.
    pub fn og(&self, filename: &str) -> (p: String)
        ensures
            p@ == if !self.is_scratch() {
                joined(joined(self.repo_root_view(), "public/og"@), filename@)
            } else {
                joined(joined(self.preview_root_view(), "og"@), filename@)
            },
    {
        if !self.scratch {
            let dir = join_path(self.repo_root.as_str(), "public/og");
            join_path(dir.as_str(), filename)
        } else {
            let dir = join_path(self.preview_root.as_str(), "og");
            join_path(dir.as_str(), filename)
        }
    }
}

/// Whether `a` is one of the four output flags.
pub open spec fn is_output_flag(a: Seq<char>) -> bool {
    is_site_flag(a) || is_scratch_flag(a)
}

/// The arguments select the mode their last flag names: scratch for
/// `--scratch` or `--preview`, site for `--site` or `--publish`, and the
/// starting mode when there are none. The first argument that is no flag is
/// the error, whatever follows it.
pub proof fn lemma_last_flag_decides(args: Seq<Seq<char>>, scratch: bool)
    ensures
        (forall|k: int| 0 <= k < args.len() ==> is_output_flag(#[trigger] args[k])) ==> output_mode(
            args,
            scratch,
        ) == Ok::<bool, Seq<char>>(
            if args.len() == 0 {
                scratch
            } else {
                is_scratch_flag(args.last())
            },
        ),
        forall|j: int|
            0 <= j < args.len() && !is_output_flag(#[trigger] args[j]) && (forall|k: int|
                0 <= k < j ==> is_output_flag(args[k])) ==> output_mode(args, scratch) == Err::<
                bool,
                Seq<char>,
            >(args[j]),
    decreases args.len(),
{
    reveal_strlit("--site");
    reveal_strlit("--publish");
    reveal_strlit("--scratch");
    reveal_strlit("--preview");
    if args.len() > 0 {
        let rest = args.drop_first();
        lemma_last_flag_decides(rest, false);
        lemma_last_flag_decides(rest, true);
        assert(is_site_flag(args[0]) ==> !is_scratch_flag(args[0])) by {
            let a = args[0];
            if is_site_flag(a) && is_scratch_flag(a) {
                assert(a[2] == "--site"@[2] || a[2] == "--publish"@[2]);
                assert(a[3] == "--site"@[3] || a[3] == "--publish"@[3]);
                assert(a[2] == "--scratch"@[2] || a[2] == "--preview"@[2]);
                assert(a[3] == "--scratch"@[3] || a[3] == "--preview"@[3]);
            }
        }
        if forall|k: int| 0 <= k < args.len() ==> is_output_flag(#[trigger] args[k]) {
            assert forall|k: int| 0 <= k < rest.len() implies is_output_flag(#[trigger] rest[k]) by {
                assert(rest[k] == args[k + 1]);
            }
            if rest.len() > 0 {
                assert(rest.last() == args.last());
            }
        }
        assert forall|j: int|
            0 <= j < args.len() && !is_output_flag(#[trigger] args[j]) && (forall|k: int|
                0 <= k < j ==> is_output_flag(args[k])) implies output_mode(args, scratch) == Err::<
            bool,
            Seq<char>,
        >(args[j]) by {
            if j > 0 {
                assert(is_output_flag(args[0]));
                assert(rest[j - 1] == args[j]);
                assert forall|k: int| 0 <= k < j - 1 implies is_output_flag(rest[k]) by {
                    assert(rest[k] == args[k + 1]);
                }
                assert(!is_output_flag(rest[j - 1]));
            }
        }
    }
}

} // verus!
