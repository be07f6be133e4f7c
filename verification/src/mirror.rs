//! The mirror controller's decisions.
//!
//! Filesystem events are turned into idempotent actions per watched
//! (source root, destination root) pair: removal events remove the
//! mirrored entry, creation events place one — by symbolic link when the
//! file complies with the policy, by transcoding when it does not. All
//! decisions here are pure; carrying them out is the shell's business.

use vstd::prelude::*;

use crate::engine::{
    MediaFileTasks, build_ffmpeg_args, build_plan, spec_ffmpeg_args, spec_needs_transcode,
    spec_plan,
};
use crate::paths::{map_dst, replace_extension, spec_map_dst, spec_replace_extension};
use crate::policy::TranscoderConfig;
use crate::stream::StreamInfo;
use crate::text::{lemma_chars_cmp_equal, str_cmp};

verus! {

/// A watched pair of directory trees: whatever appears under `src` is
/// mirrored under `dst`.
#[derive(Debug)]
pub struct WatchPair {
    pub src: String,
    pub dst: String,
}

impl Clone for WatchPair {
    fn clone(&self) -> (r: Self)
        ensures
            r == *self,
    {
        WatchPair { src: self.src.clone(), dst: self.dst.clone() }
    }
}

/// Whether `c` separates the two halves of a watch-pair argument.
pub open spec fn is_pair_sep(c: char) -> bool {
    c == ':' || c == ',' || c == '=' || c == ';' || c == ' '
}

/// The index of the first separator at or after `i`.
pub open spec fn first_sep_from(s: Seq<char>, i: int) -> Option<int>
    decreases s.len() - i,
{
    if i < 0 || i >= s.len() {
        None
    } else if is_pair_sep(s[i]) {
        Some(i)
    } else {
        first_sep_from(s, i + 1)
    }
}

/// The index of the first separator in `s`.
pub open spec fn first_sep(s: Seq<char>) -> Option<int> {
    first_sep_from(s, 0)
}

impl WatchPair {
    /// Parses the compact `src<sep>dst` form, splitting at the first
    /// occurrence of one of `:`, `,`, `=`, `;` or a space. An argument
    /// without a separator is rejected.
    pub fn parse(s: &str) -> (r: Result<WatchPair, String>)
        ensures
            r is Ok <==> first_sep(s@) is Some,
            r matches Ok(wp) ==> {
                let k = first_sep(s@)->Some_0;
                wp.src@ == s@.take(k) && wp.dst@ == s@.skip(k + 1)
            },
            r matches Err(e) ==> e@ == "Invalid format of watch pair"@,
    {
        let chars = crate::text::str_to_chars(s);
        let n = chars.len();
        let mut i: usize = 0;
        while i < n
            invariant
                n == chars@.len(),
                chars@ == s@,
                i <= n,
                first_sep(s@) == first_sep_from(s@, i as int),
            decreases n - i,
        {
            let c = chars[i];
            if c == ':' || c == ',' || c == '=' || c == ';' || c == ' ' {
                let mut src: Vec<char> = Vec::new();
                let mut a: usize = 0;
                proof {
                    assert(src@ =~= s@.subrange(0, 0));
                }
                while a < i
                    invariant
                        i <= chars@.len(),
                        chars@ == s@,
                        a <= i,
                        src@ == s@.subrange(0, a as int),
                    decreases i - a,
                {
                    src.push(chars[a]);
                    assert(src@ =~= s@.subrange(0, a + 1));
                    a = a + 1;
                }
                let mut dst: Vec<char> = Vec::new();
                let mut b: usize = i + 1;
                proof {
                    assert(dst@ =~= s@.subrange(i + 1, i + 1));
                }
                while b < n
                    invariant
                        i < b,
                        b <= n,
                        n == chars@.len(),
                        chars@ == s@,
                        dst@ == s@.subrange(i + 1, b as int),
                    decreases n - b,
                {
                    dst.push(chars[b]);
                    assert(dst@ =~= s@.subrange(i + 1, b + 1));
                    b = b + 1;
                }
                proof {
                    assert(s@.subrange(0, i as int) =~= s@.take(i as int));
                    assert(s@.subrange(i + 1, n as int) =~= s@.skip(i + 1));
                }
                return Ok(
                    WatchPair {
                        src: crate::text::chars_to_string(&src),
                        dst: crate::text::chars_to_string(&dst),
                    },
                );
            }
            i = i + 1;
        }
        Err(String::from_str("Invalid format of watch pair"))
    }
}

/// A filesystem event on a watched tree, as the controller classifies
/// it.
#[derive(Clone, Copy, Debug, PartialEq, Eq, Structural)]
pub enum FileEvent {
    Create,
    CloseWrite,
    MovedTo,
    Delete,
    MovedFrom,
    Other,
}

/// Whether the event announces a file that should now be mirrored.
pub open spec fn is_create_kind(e: FileEvent) -> bool {
    e is Create || e is MovedTo || e is CloseWrite
}

/// Whether the event announces a file that has left the source tree.
pub open spec fn is_remove_kind(e: FileEvent) -> bool {
    e is Delete || e is MovedFrom
}

/// What the controller does about one event.
pub enum EventAction {
    /// Remove the destination entry.
    Remove { dst: String },
    /// Mirror the file to the destination (link or transcode).
    Emplace { dst: String },
    /// The path is not under the watched source root: log and ignore.
    SkipOutsideRoot,
    /// Source and destination are the same path: warn and ignore.
    SkipSameTarget,
    /// Directories are not mirrored themselves: ignore.
    SkipDirectory,
    /// Bootstrap found the destination already present: nothing to do.
    SkipExisting,
    /// An event kind the controller does not handle: warn and ignore.
    SkipUnexpected,
}

/// Whether the planned action mirrors the file, that is, performs a link
/// or transcode.
pub open spec fn spec_emplaces(
    event: FileEvent,
    mapped: Option<Seq<char>>,
    f: Seq<char>,
    is_dir: bool,
    dst_exists: bool,
    check_exists: bool,
) -> bool {
    &&& mapped matches Some(d)
    &&& d != f
    &&& is_create_kind(event)
    &&& !is_dir
    &&& !(check_exists && dst_exists)
}

/// Decides what one event means for the mirror. `is_dir` tells whether
/// the source path is (or must be treated as) a directory; `dst_exists`
/// whether the destination entry is already present; `check_exists`
/// whether this is a bootstrap pass, which must not redo work.
pub fn plan_event(
    event: FileEvent,
    f: &str,
    src_root: &str,
    dst_root: &str,
    is_dir: bool,
    dst_exists: bool,
    check_exists: bool,
) -> (r: EventAction)
    ensures
        ({
            let m = spec_map_dst(f@, src_root@, dst_root@);
            &&& (r is SkipOutsideRoot <==> m is None)
            &&& (r matches EventAction::Emplace { dst } ==> m == Some(dst@))
            &&& (r matches EventAction::Remove { dst } ==> m == Some(dst@))
            &&& (m matches Some(d) ==> {
                &&& (r is SkipSameTarget <==> d == f@)
                &&& (d != f@ && is_remove_kind(event) ==> r is Remove)
                &&& (d != f@ && is_create_kind(event) && is_dir ==> r is SkipDirectory)
                &&& (d != f@ && is_create_kind(event) && !is_dir && check_exists && dst_exists
                    ==> r is SkipExisting)
                &&& (d != f@ && !is_create_kind(event) && !is_remove_kind(event)
                    ==> r is SkipUnexpected)
            })
            &&& (r is Emplace <==> spec_emplaces(event, m, f@, is_dir, dst_exists, check_exists))
        }),
{
    let dst = match map_dst(f, src_root, dst_root) {
        Some(d) => d,
        None => {
            return EventAction::SkipOutsideRoot;
        },
    };
    if matches!(str_cmp(dst.as_str(), f), core::cmp::Ordering::Equal) {
        proof {
            lemma_chars_cmp_equal(dst@, f@);
        }
        return EventAction::SkipSameTarget;
    }
    proof {
        lemma_chars_cmp_equal(dst@, f@);
    }
    match event {
        FileEvent::Delete | FileEvent::MovedFrom => EventAction::Remove { dst },
        FileEvent::Create | FileEvent::MovedTo | FileEvent::CloseWrite => {
            if is_dir {
                EventAction::SkipDirectory
            } else if check_exists && dst_exists {
                EventAction::SkipExisting
            } else {
                EventAction::Emplace { dst }
            }
        },
        FileEvent::Other => EventAction::SkipUnexpected,
    }
}

/// A bootstrap pass over an up-to-date mirror plans no work: with the
/// destination entry present and the existence check on, no event is
/// answered with an emplacement.
pub proof fn lemma_bootstrap_idempotent(
    event: FileEvent,
    f: Seq<char>,
    src_root: Seq<char>,
    dst_root: Seq<char>,
    is_dir: bool,
)
    ensures
        !spec_emplaces(event, spec_map_dst(f, src_root, dst_root), f, is_dir, true, true),
{
}

/// A probed media file: its streams where the backend recognized the
/// container, or nothing where it did not.
pub enum MediaFile {
    Input { input: Vec<StreamInfo>, path: String },
    Other { path: String },
}

impl MediaFile {
    /// Wraps the outcome of probing `path`: a recognized file carries
    /// its stream inventory, any other file is opaque.
    pub fn new(path: String, probe: Option<Vec<StreamInfo>>) -> (r: Self)
        ensures
            match probe {
                Some(streams) => r matches MediaFile::Input { input, path: p } && input@ == streams@
                    && p@ == path@,
                None => r matches MediaFile::Other { path: p } && p@ == path@,
            },
    {
        match probe {
            Some(streams) => MediaFile::Input { input: streams, path },
            None => MediaFile::Other { path },
        }
    }
}

/// How a file is mirrored to its destination.
pub enum EmplacePlan {
    /// Create a symbolic link at `dst` pointing to the source.
    Link { dst: String },
    /// Run the toolchain with `args`, writing `out`; where it fails,
    /// remove `out` and — when a fallback is given — link the fallback
    /// path to the source instead.
    Transcode { out: String, args: Vec<String>, fallback: Option<String> },
}

/// The effective transcoding destination: the mapped destination with
/// its extension rewritten to the preferred output container, or kept as
/// it is when no container formats are declared.
pub open spec fn spec_transcode_out(config: TranscoderConfig, dst: Seq<char>) -> Seq<char> {
    if config.supported_formats@.len() > 0 {
        spec_replace_extension(dst, config.supported_formats@[0]@)
    } else {
        dst
    }
}

/// Decides how the file lands at `dst`: an opaque file is linked; a
/// recognized file is linked when it complies with the policy and
/// transcoded when it does not. A transcode plan carries the toolchain
/// arguments and, when the policy asks for it, the link fallback for a
/// failed transcode.
pub fn plan_emplace(file: &MediaFile, dst: &str, config: &TranscoderConfig) -> (r: EmplacePlan)
    ensures
        file matches MediaFile::Other { .. } ==> (r matches EmplacePlan::Link { dst: d } && d@
            == dst@),
        file matches MediaFile::Input { input, path } ==> {
            if spec_needs_transcode(*config, input@, path@) {
                &&& r matches EmplacePlan::Transcode { out, args, fallback }
                &&& out@ == spec_transcode_out(*config, dst@)
                &&& args.deep_view() == spec_ffmpeg_args(
                    path@,
                    spec_transcode_out(*config, dst@),
                    spec_plan(config.supported_codecs@, input@),
                )
                &&& (config.backup_symlink ==> (fallback matches Some(fb) && fb@ == dst@))
                &&& (!config.backup_symlink ==> fallback is None)
            } else {
                r matches EmplacePlan::Link { dst: d } && d@ == dst@
            }
        },
{
    match file {
        MediaFile::Other { .. } => EmplacePlan::Link { dst: String::from_str(dst) },
        MediaFile::Input { input, path } => {
            let tasks = MediaFileTasks::new(input, config);
            let needed = tasks.need_to_transcode(path.as_str());
            proof {
                crate::engine::lemma_tasks_needs_transcode(tasks, *config, input@, path@);
            }
            if !needed {
                EmplacePlan::Link { dst: String::from_str(dst) }
            } else {
                let out = if config.supported_formats.len() > 0 {
                    replace_extension(dst, config.supported_formats[0].as_str())
                } else {
                    String::from_str(dst)
                };
                let plan = build_plan(input, config);
                let args = build_ffmpeg_args(path.as_str(), out.as_str(), &plan);
                let fallback = if config.backup_symlink {
                    Some(String::from_str(dst))
                } else {
                    None
                };
                EmplacePlan::Transcode { out, args, fallback }
            }
        },
    }
}

} // verus!
