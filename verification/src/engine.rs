//! The policy decision engine.
//!
//! Given a probed stream inventory and the policy, the engine decides
//! whether the file complies — its container extension is accepted and
//! every requirement's verdict is "no work needed" — and synthesizes the
//! per-stream transcoding plan for a file that does not.
//!
//! Each stream is claimed by at most one requirement: the first matching
//! one in the ordered requirement set, which by the set's ordering is the
//! most specific one.

use vstd::prelude::*;

use crate::codec::CodecInfoExtra;
use crate::paths::spec_get_format;
use crate::policy::{Requirement, RequirementLevel, RequirementType, TranscoderConfig, opt_view};
use crate::stream::StreamInfo;
use crate::text::{chars_to_string, dec_str, str_to_chars};

verus! {

/// What happens to one stream: carried over as it is, or re-encoded with
/// the given target codec.
pub enum TranscodeTaskType {
    Supported,
    Transcode(CodecInfoExtra),
}

impl Clone for TranscodeTaskType {
    fn clone(&self) -> (r: Self)
        ensures
            r == *self,
    {
        match self {
            TranscodeTaskType::Supported => TranscodeTaskType::Supported,
            TranscodeTaskType::Transcode(c) => TranscodeTaskType::Transcode(c.clone()),
        }
    }
}

/// The action chosen for one stream of the file.
pub struct TranscodeTask {
    pub stream_index: u32,
    pub action: TranscodeTaskType,
}

impl Clone for TranscodeTask {
    fn clone(&self) -> (r: Self)
        ensures
            r == *self,
    {
        TranscodeTask { stream_index: self.stream_index, action: self.action.clone() }
    }
}

/// Whether a requirement speaks about this stream: the kinds must agree,
/// and a language-qualified requirement also needs the stream's
/// `language` tag to equal its own.
pub open spec fn matches_stream(what: RequirementType, s: StreamInfo) -> bool {
    match what {
        RequirementType::Video => s.kind is Video,
        RequirementType::Audio(a) => s.kind is Audio && (a.language is None || opt_view(a.language)
            == opt_view(s.language)),
        RequirementType::Subtitle(t) => s.kind is Subtitle && (t.language is None || opt_view(
            t.language,
        ) == opt_view(s.language)),
    }
}

/// The first requirement at or after `i` that matches `s`.
pub open spec fn first_match_from(required: Seq<Requirement>, s: StreamInfo, i: int) -> Option<int>
    decreases required.len() - i,
{
    if i < 0 || i >= required.len() {
        None
    } else if matches_stream(required[i].what, s) {
        Some(i)
    } else {
        first_match_from(required, s, i + 1)
    }
}

/// The requirement that claims stream `s`: the first — most specific —
/// matching one.
pub open spec fn first_match(required: Seq<Requirement>, s: StreamInfo) -> Option<int> {
    first_match_from(required, s, 0)
}

/// Whether some accepted codec has identifier `id`.
pub open spec fn supports_id(codecs: Seq<CodecInfoExtra>, id: u64) -> bool {
    exists|i: int| 0 <= i < codecs.len() && codecs[i].codec_id == id
}

/// The first accepted codec at or after `i` that handles media of kind
/// `kind` and can encode.
pub open spec fn first_encoder_from(codecs: Seq<CodecInfoExtra>, kind: crate::codec::MediaKind, i: int) -> Option<
    int,
>
    decreases codecs.len() - i,
{
    if i < 0 || i >= codecs.len() {
        None
    } else if codecs[i].media_type == kind && codecs[i].encoder {
        Some(i)
    } else {
        first_encoder_from(codecs, kind, i + 1)
    }
}

/// The action the accepted codecs dictate for stream `s`: carried over
/// when its codec is accepted; re-encoded with the first accepted codec
/// of its kind that can encode; dropped (`None`) when there is neither,
/// or when the backend did not recognize its codec.
pub open spec fn spec_task_action(codecs: Seq<CodecInfoExtra>, s: StreamInfo) -> Option<
    TranscodeTaskType,
> {
    match s.codec_id {
        None => None,
        Some(id) => if supports_id(codecs, id) {
            Some(TranscodeTaskType::Supported)
        } else {
            match first_encoder_from(codecs, s.kind, 0) {
                Some(k) => Some(TranscodeTaskType::Transcode(codecs[k])),
                None => None,
            }
        },
    }
}

/// The task for stream `s`, where one applies.
pub open spec fn spec_task_for(codecs: Seq<CodecInfoExtra>, s: StreamInfo) -> Option<TranscodeTask> {
    match spec_task_action(codecs, s) {
        Some(a) => Some(TranscodeTask { stream_index: s.index, action: a }),
        None => None,
    }
}

/// A task that is not a plain carry-over calls for work.
pub open spec fn task_needs_work(t: TranscodeTask) -> bool {
    !(t.action is Supported)
}

/// The verdict of one requirement over the tasks of the streams it
/// claimed: `All` needs work when any claimed stream does; `AtLeastOne`
/// is satisfied by a single compliant stream; the remaining levels never
/// call for work, and neither does a requirement that claimed nothing.
pub open spec fn spec_verdict(level: RequirementLevel, tasks: Seq<TranscodeTask>) -> bool {
    if tasks.len() == 0 {
        false
    } else {
        match level {
            RequirementLevel::All => exists|i: int|
                0 <= i < tasks.len() && task_needs_work(tasks[i]),
            RequirementLevel::AtLeastOne => forall|i: int|
                0 <= i < tasks.len() ==> task_needs_work(tasks[i]),
            _ => false,
        }
    }
}

/// The tasks of the streams claimed by requirement number `ri`, in
/// stream order; streams with no applicable task are left out.
pub open spec fn spec_group_tasks(
    required: Seq<Requirement>,
    codecs: Seq<CodecInfoExtra>,
    streams: Seq<StreamInfo>,
    ri: int,
) -> Seq<TranscodeTask>
    decreases streams.len(),
{
    if streams.len() == 0 {
        Seq::<TranscodeTask>::empty()
    } else {
        let rest = spec_group_tasks(required, codecs, streams.drop_last(), ri);
        let s = streams.last();
        if first_match(required, s) == Some(ri) && spec_task_for(codecs, s) is Some {
            rest.push(spec_task_for(codecs, s)->Some_0)
        } else {
            rest
        }
    }
}

/// Whether the extension `e` is one of the accepted container formats.
pub open spec fn format_listed(formats: Seq<String>, e: Seq<char>) -> bool {
    exists|i: int| 0 <= i < formats.len() && formats[i]@ == e
}

/// The container rule: a recognized media file whose extension is not
/// among the accepted formats must be transcoded. With no accepted
/// formats declared the rule never fires, and a path without an
/// extension is not judged by it.
pub open spec fn spec_format_rule(formats: Seq<String>, path: Seq<char>) -> bool {
    match spec_get_format(path) {
        Some(e) => formats.len() > 0 && !format_listed(formats, e),
        None => false,
    }
}

/// Whether the file at `path` with streams `streams` must be transcoded
/// under `config`: the container rule fires, or some requirement's
/// verdict calls for work.
pub open spec fn spec_needs_transcode(
    config: TranscoderConfig,
    streams: Seq<StreamInfo>,
    path: Seq<char>,
) -> bool {
    spec_format_rule(config.supported_formats@, path) || exists|ri: int|
        0 <= ri < config.required@.len() && spec_verdict(
            config.required@[ri].level,
            spec_group_tasks(config.required@, config.supported_codecs@, streams, ri),
        )
}

/// The per-stream plan for the whole file, in stream order; streams with
/// no applicable task are dropped from the output.
pub open spec fn spec_plan(codecs: Seq<CodecInfoExtra>, streams: Seq<StreamInfo>) -> Seq<
    TranscodeTask,
>
    decreases streams.len(),
{
    if streams.len() == 0 {
        Seq::<TranscodeTask>::empty()
    } else {
        let rest = spec_plan(codecs, streams.drop_last());
        match spec_task_for(codecs, streams.last()) {
            Some(t) => rest.push(t),
            None => rest,
        }
    }
}

/// The first requirement that matches `s`, executably.
fn find_first_match(required: &Vec<Requirement>, s: &StreamInfo) -> (r: Option<usize>)
    ensures
        match r {
            Some(i) => first_match(required@, *s) == Some(i as int),
            None => first_match(required@, *s) is None,
        },
{
    let n = required.len();
    let mut i: usize = 0;
    while i < n
        invariant
            n == required@.len(),
            i <= n,
            first_match(required@, *s) == first_match_from(required@, *s, i as int),
        decreases n - i,
    {
        if req_matches(&required[i].what, s) {
            return Some(i);
        }
        i = i + 1;
    }
    None
}

/// Whether the requirement kind matches the stream, executably.
pub fn req_matches(what: &RequirementType, s: &StreamInfo) -> (r: bool)
    ensures
        r == matches_stream(*what, *s),
{
    match what {
        RequirementType::Video => matches!(s.kind, crate::codec::MediaKind::Video),
        RequirementType::Audio(a) => {
            if !matches!(s.kind, crate::codec::MediaKind::Audio) {
                false
            } else {
                match (&a.language, &s.language) {
                    (None, _) => true,
                    (Some(want), Some(have)) => *want == *have,
                    (Some(_), None) => false,
                }
            }
        },
        RequirementType::Subtitle(t) => {
            if !matches!(s.kind, crate::codec::MediaKind::Subtitle) {
                false
            } else {
                match (&t.language, &s.language) {
                    (None, _) => true,
                    (Some(want), Some(have)) => *want == *have,
                    (Some(_), None) => false,
                }
            }
        },
    }
}

impl TranscodeTask {
    /// The task the policy dictates for stream `stream`, where one
    /// applies: carry-over when the stream's codec is accepted, else
    /// re-encoding with the first accepted codec of the stream's kind
    /// that can encode, else none — the stream will be dropped.
    pub fn new(stream: &StreamInfo, config: &TranscoderConfig) -> (r: Option<TranscodeTask>)
        ensures
            r == spec_task_for(config.supported_codecs@, *stream),
    {
        let codecs = &config.supported_codecs;
        let id: u64 = match stream.codec_id {
            Some(id) => id,
            None => {
                return None;
            },
        };
        let n = codecs.len();
        let mut i: usize = 0;
        while i < n
            invariant
                codecs == &config.supported_codecs,
                stream.codec_id == Some(id),
                n == codecs@.len(),
                i <= n,
                forall|j: int| 0 <= j < i ==> codecs@[j].codec_id != id,
            decreases n - i,
        {
            if codecs[i].codec_id == id {
                proof {
                    assert(codecs@[i as int].codec_id == id);
                    assert(supports_id(codecs@, id));
                }
                return Some(TranscodeTask { stream_index: stream.index, action: TranscodeTaskType::Supported });
            }
            i = i + 1;
        }
        assert(!supports_id(codecs@, id));
        let mut k: usize = 0;
        while k < n
            invariant
                codecs == &config.supported_codecs,
                stream.codec_id == Some(id),
                !supports_id(codecs@, id),
                n == codecs@.len(),
                k <= n,
                first_encoder_from(codecs@, stream.kind, 0) == first_encoder_from(
                    codecs@,
                    stream.kind,
                    k as int,
                ),
            decreases n - k,
        {
            if codecs[k].media_type == stream.kind && codecs[k].encoder {
                proof {
                    assert(first_encoder_from(codecs@, stream.kind, k as int) == Some(k as int));
                }
                return Some(
                    TranscodeTask {
                        stream_index: stream.index,
                        action: TranscodeTaskType::Transcode(codecs[k].clone()),
                    },
                );
            }
            k = k + 1;
        }
        None
    }

    /// True exactly when the chosen action is not a plain carry-over.
    pub fn need_to_transcode(&self) -> (r: bool)
        ensures
            r == task_needs_work(*self),
    {
        !matches!(self.action, TranscodeTaskType::Supported)
    }
}

/// One requirement together with the tasks of the streams it claimed.
pub struct RequirementTaks {
    pub requirement: Requirement,
    pub tasks: Vec<TranscodeTask>,
}

impl RequirementTaks {
    /// Gathers the tasks of the streams claimed by requirement number
    /// `index` of the ordered set: those whose first matching
    /// requirement it is, and for which a task applies.
    pub fn new(config: &TranscoderConfig, streams: &Vec<StreamInfo>, index: usize) -> (r: Self)
        requires
            index < config.required@.len(),
        ensures
            r.requirement == config.required@[index as int],
            r.tasks@ == spec_group_tasks(
                config.required@,
                config.supported_codecs@,
                streams@,
                index as int,
            ),
    {
        let mut tasks: Vec<TranscodeTask> = Vec::new();
        let n = streams.len();
        let mut i: usize = 0;
        proof {
            assert(streams@.take(0) =~= Seq::<StreamInfo>::empty());
        }
        while i < n
            invariant
                n == streams@.len(),
                i <= n,
                index < config.required@.len(),
                tasks@ == spec_group_tasks(
                    config.required@,
                    config.supported_codecs@,
                    streams@.take(i as int),
                    index as int,
                ),
            decreases n - i,
        {
            proof {
                assert(streams@.take(i as int + 1).drop_last() =~= streams@.take(i as int));
                assert(streams@.take(i as int + 1).last() == streams@[i as int]);
            }
            let claimed = match find_first_match(&config.required, &streams[i]) {
                Some(m) => m == index,
                None => false,
            };
            if claimed {
                if let Some(t) = TranscodeTask::new(&streams[i], config) {
                    tasks.push(t);
                }
            }
            i = i + 1;
        }
        proof {
            assert(streams@.take(n as int) =~= streams@);
        }
        RequirementTaks { requirement: config.required[index].clone(), tasks }
    }

    /// The level of the requirement this group belongs to.
    pub fn get_level(&self) -> (r: RequirementLevel)
        ensures
            r == self.requirement.level,
    {
        self.requirement.level
    }

    /// The requirement's verdict over its claimed streams.
    pub fn need_to_transcode(&self) -> (r: bool)
        ensures
            r == spec_verdict(self.requirement.level, self.tasks@),
    {
        let level = self.get_level();
        if self.tasks.len() == 0 || matches!(level, RequirementLevel::WithOther) || matches!(
            level,
            RequirementLevel::Ignore,
        ) || matches!(level, RequirementLevel::Decline) {
            return false;
        }
        let n = self.tasks.len();
        let mut i: usize = 0;
        while i < n
            invariant
                n == self.tasks@.len(),
                i <= n,
                level == self.requirement.level,
                n > 0,
                !(level is WithOther || level is Ignore || level is Decline),
                forall|j: int| 0 <= j < i ==> !task_needs_work(self.tasks@[j]) || !(level is All),
                forall|j: int| 0 <= j < i ==> task_needs_work(self.tasks@[j]) || !(level
                    is AtLeastOne),
            decreases n - i,
        {
            if self.tasks[i].need_to_transcode() {
                if matches!(level, RequirementLevel::All) {
                    return true;
                }
            } else {
                if matches!(level, RequirementLevel::AtLeastOne) {
                    return false;
                }
            }
            i = i + 1;
        }
        matches!(level, RequirementLevel::AtLeastOne)
    }
}

/// The groups of per-stream tasks, one group per requirement of the
/// ordered set, together with the accepted container formats.
pub struct MediaFileTasks {
    pub supported_formats: Vec<String>,
    pub tasks: Vec<RequirementTaks>,
}

impl MediaFileTasks {
    /// Evaluates every requirement of the policy over the streams: each
    /// stream is claimed by its first — most specific — matching
    /// requirement.
    pub fn new(streams: &Vec<StreamInfo>, config: &TranscoderConfig) -> (r: Self)
        ensures
            r.supported_formats@ == config.supported_formats@,
            r.tasks@.len() == config.required@.len(),
            forall|ri: int|
                0 <= ri < config.required@.len() ==> #[trigger] r.tasks@[ri].requirement
                    == config.required@[ri] && r.tasks@[ri].tasks@ == spec_group_tasks(
                    config.required@,
                    config.supported_codecs@,
                    streams@,
                    ri,
                ),
    {
        let mut formats: Vec<String> = Vec::new();
        let nf = config.supported_formats.len();
        let mut i: usize = 0;
        while i < nf
            invariant
                nf == config.supported_formats@.len(),
                i <= nf,
                formats@.len() == i,
                forall|j: int| 0 <= j < i ==> formats@[j] == config.supported_formats@[j],
            decreases nf - i,
        {
            formats.push(config.supported_formats[i].clone());
            i = i + 1;
        }
        proof {
            assert(formats@ =~= config.supported_formats@);
        }
        let mut tasks: Vec<RequirementTaks> = Vec::new();
        let nr = config.required.len();
        let mut k: usize = 0;
        while k < nr
            invariant
                nr == config.required@.len(),
                k <= nr,
                tasks@.len() == k,
                forall|ri: int|
                    0 <= ri < k ==> #[trigger] tasks@[ri].requirement == config.required@[ri]
                        && tasks@[ri].tasks@ == spec_group_tasks(
                        config.required@,
                        config.supported_codecs@,
                        streams@,
                        ri,
                    ),
            decreases nr - k,
        {
            tasks.push(RequirementTaks::new(config, streams, k));
            k = k + 1;
        }
        MediaFileTasks { supported_formats: formats, tasks }
    }

    /// Whether the file at `src` needs transcoding: its extension is a
    /// recognized one but not accepted (with formats declared at all),
    /// or some requirement's verdict calls for work.
    pub fn need_to_transcode(&self, src: &str) -> (r: bool)
        ensures
            r == (spec_format_rule(self.supported_formats@, src@) || exists|ri: int|
                0 <= ri < self.tasks@.len() && spec_verdict(
                    #[trigger] self.tasks@[ri].requirement.level,
                    self.tasks@[ri].tasks@,
                )),
    {
        if let Some(format) = crate::paths::get_format(src) {
            if self.supported_formats.len() > 0 {
                let mut listed = false;
                let n = self.supported_formats.len();
                let mut i: usize = 0;
                while i < n
                    invariant
                        n == self.supported_formats@.len(),
                        i <= n,
                        format@ == spec_get_format(src@)->Some_0,
                        listed == exists|j: int|
                            0 <= j < i && self.supported_formats@[j]@ == format@,
                    decreases n - i,
                {
                    if self.supported_formats[i] == format {
                        listed = true;
                    }
                    i = i + 1;
                }
                if !listed {
                    assert(!format_listed(self.supported_formats@, format@));
                    return true;
                }
            }
        }
        let n = self.tasks.len();
        let mut i: usize = 0;
        while i < n
            invariant
                n == self.tasks@.len(),
                i <= n,
                forall|j: int|
                    0 <= j < i ==> !spec_verdict(
                        #[trigger] self.tasks@[j].requirement.level,
                        self.tasks@[j].tasks@,
                    ),
            decreases n - i,
        {
            if self.tasks[i].need_to_transcode() {
                return true;
            }
            i = i + 1;
        }
        false
    }

    /// The action recorded for stream `stream`, searching the groups in
    /// requirement order; a stream no group mentions is carried over.
    pub fn find_task_for(&self, stream: &StreamInfo) -> (r: TranscodeTaskType)
        ensures
            r == spec_find_task(self.tasks@, stream.index),
    {
        let ng = self.tasks.len();
        let mut g: usize = 0;
        proof {
            assert(self.tasks@.skip(0) =~= self.tasks@);
        }
        while g < ng
            invariant
                ng == self.tasks@.len(),
                g <= ng,
                spec_find_task(self.tasks@, stream.index) == spec_find_task(
                    self.tasks@.skip(g as int),
                    stream.index,
                ),
            decreases ng - g,
        {
            proof {
                assert(self.tasks@.skip(g as int)[0] == self.tasks@[g as int]);
                assert(self.tasks@.skip(g as int).skip(1) =~= self.tasks@.skip(g as int + 1));
            }
            let group = &self.tasks[g];
            let nt = group.tasks.len();
            let mut t: usize = 0;
            while t < nt
                invariant
                    ng == self.tasks@.len(),
                    g < ng,
                    nt == group.tasks@.len(),
                    t <= nt,
                    *group == self.tasks@[g as int],
                    spec_find_task(self.tasks@, stream.index) == spec_find_task(
                        self.tasks@.skip(g as int),
                        stream.index,
                    ),
                    group_find(group.tasks@, stream.index) == group_find_from(
                        group.tasks@,
                        stream.index,
                        t as int,
                    ),
                decreases nt - t,
            {
                if group.tasks[t].stream_index == stream.index {
                    proof {
                        assert(group_find_from(group.tasks@, stream.index, t as int) == Some(
                            group.tasks@[t as int].action,
                        ));
                        assert(self.tasks@.skip(g as int)[0] == self.tasks@[g as int]);
                    }
                    return group.tasks[t].action.clone();
                }
                t = t + 1;
            }
            proof {
                assert(group_find(self.tasks@[g as int].tasks@, stream.index) is None);
            }
            g = g + 1;
        }
        TranscodeTaskType::Supported
    }
}

/// The first task for stream index `idx` in one group, from position
/// `t` on.
pub open spec fn group_find_from(tasks: Seq<TranscodeTask>, idx: u32, t: int) -> Option<
    TranscodeTaskType,
>
    decreases tasks.len() - t,
{
    if t < 0 || t >= tasks.len() {
        None
    } else if tasks[t].stream_index == idx {
        Some(tasks[t].action)
    } else {
        group_find_from(tasks, idx, t + 1)
    }
}

/// The first task for stream index `idx` in one group.
pub open spec fn group_find(tasks: Seq<TranscodeTask>, idx: u32) -> Option<TranscodeTaskType> {
    group_find_from(tasks, idx, 0)
}

/// The action for stream index `idx` across the groups, in requirement
/// order; `Supported` — carry the stream over — where no group mentions
/// it.
pub open spec fn spec_find_task(groups: Seq<RequirementTaks>, idx: u32) -> TranscodeTaskType
    decreases groups.len(),
{
    if groups.len() == 0 {
        TranscodeTaskType::Supported
    } else {
        match group_find(groups[0].tasks@, idx) {
            Some(a) => a,
            None => spec_find_task(groups.skip(1), idx),
        }
    }
}

/// The per-stream plan for the whole file: one task per stream that a
/// task applies to, in stream order.
pub fn build_plan(streams: &Vec<StreamInfo>, config: &TranscoderConfig) -> (r: Vec<TranscodeTask>)
    ensures
        r@ == spec_plan(config.supported_codecs@, streams@),
{
    let mut plan: Vec<TranscodeTask> = Vec::new();
    let n = streams.len();
    let mut i: usize = 0;
    proof {
        assert(streams@.take(0) =~= Seq::<StreamInfo>::empty());
    }
    while i < n
        invariant
            n == streams@.len(),
            i <= n,
            plan@ == spec_plan(config.supported_codecs@, streams@.take(i as int)),
        decreases n - i,
    {
        proof {
            assert(streams@.take(i as int + 1).drop_last() =~= streams@.take(i as int));
            assert(streams@.take(i as int + 1).last() == streams@[i as int]);
        }
        if let Some(t) = TranscodeTask::new(&streams[i], config) {
            plan.push(t);
        }
        i = i + 1;
    }
    proof {
        assert(streams@.take(n as int) =~= streams@);
    }
    plan
}

/// The command-line word a task contributes: `copy` for a carry-over,
/// the target codec's (short) name for a re-encoding.
pub open spec fn action_arg(a: TranscodeTaskType) -> Seq<char> {
    match a {
        TranscodeTaskType::Supported => "copy"@,
        TranscodeTaskType::Transcode(c) => c.codec_name@,
    }
}

/// The per-stream argument pairs of the toolchain invocation: for each
/// planned stream `-c:<index>` and the task's word, in plan order.
pub open spec fn spec_plan_args(plan: Seq<TranscodeTask>) -> Seq<Seq<char>>
    decreases plan.len(),
{
    if plan.len() == 0 {
        Seq::<Seq<char>>::empty()
    } else {
        spec_plan_args(plan.drop_last()) + seq![
            "-c:"@ + dec_str(plan.last().stream_index as nat),
            action_arg(plan.last().action),
        ]
    }
}

/// The full argument list of the toolchain invocation, without the
/// program name: overwrite, the input, the whole-input mapping, the
/// per-stream codec choices, the output.
pub open spec fn spec_ffmpeg_args(src: Seq<char>, dst: Seq<char>, plan: Seq<TranscodeTask>) -> Seq<
    Seq<char>,
> {
    seq!["-y"@, "-i"@, src, "-map"@, "0"@] + spec_plan_args(plan) + seq![dst]
}

/// Builds the toolchain's argument list for transcoding `src` to `dst`
/// under the given plan.
pub fn build_ffmpeg_args(src: &str, dst: &str, plan: &Vec<TranscodeTask>) -> (r: Vec<String>)
    ensures
        r.deep_view() == spec_ffmpeg_args(src@, dst@, plan@),
{
    let mut args: Vec<String> = Vec::new();
    args.push(String::from_str("-y"));
    args.push(String::from_str("-i"));
    args.push(String::from_str(src));
    args.push(String::from_str("-map"));
    args.push(String::from_str("0"));
    let ghost base: Seq<Seq<char>> = seq!["-y"@, "-i"@, src@, "-map"@, "0"@];
    proof {
        assert(args.deep_view() =~~= base + spec_plan_args(plan@.take(0)));
    }
    let n = plan.len();
    let mut i: usize = 0;
    while i < n
        invariant
            n == plan@.len(),
            i <= n,
            args.deep_view() == base + spec_plan_args(plan@.take(i as int)),
            base == seq!["-y"@, "-i"@, src@, "-map"@, "0"@],
        decreases n - i,
    {
        proof {
            assert(plan@.take(i as int + 1).drop_last() =~= plan@.take(i as int));
            assert(plan@.take(i as int + 1).last() == plan@[i as int]);
        }
        let ghost prev = args.deep_view();
        let ghost flagseq = "-c:"@ + dec_str(plan@[i as int].stream_index as nat);
        let ghost wordseq = action_arg(plan@[i as int].action);
        let mut flag = str_to_chars("-c:");
        crate::text::push_dec(plan[i].stream_index, &mut flag);
        args.push(chars_to_string(&flag));
        let word = match &plan[i].action {
            TranscodeTaskType::Supported => String::from_str("copy"),
            TranscodeTaskType::Transcode(c) => c.codec_name.clone(),
        };
        args.push(word);
        proof {
            assert(spec_plan_args(plan@.take(i as int + 1)) == spec_plan_args(plan@.take(i as int))
                + seq![flagseq, wordseq]);
            let next = base + spec_plan_args(plan@.take(i as int + 1));
            assert(prev.len() == base.len() + spec_plan_args(plan@.take(i as int)).len());
            assert(args@.len() == prev.len() + 2);
            assert(args.deep_view().len() == args@.len());
            assert(args.deep_view().len() == next.len());
            assert forall|k: int| 0 <= k < next.len() implies args.deep_view()[k] == next[k] by {
                if k < prev.len() {
                    assert(args.deep_view()[k] == prev[k]);
                } else if k == prev.len() {
                    assert(args.deep_view()[k] == flagseq);
                } else {
                    assert(args.deep_view()[k] == wordseq);
                }
            }
            assert(args.deep_view() =~= next);
        }
        i = i + 1;
    }
    proof {
        assert(plan@.take(n as int) =~= plan@);
    }
    let ghost prev = args.deep_view();
    args.push(String::from_str(dst));
    proof {
        let next = spec_ffmpeg_args(src@, dst@, plan@);
        assert(args.deep_view().len() == next.len());
        assert forall|k: int| 0 <= k < next.len() implies args.deep_view()[k] == next[k] by {
            if k < prev.len() {
                assert(args.deep_view()[k] == prev[k]);
            } else {
                assert(args.deep_view()[k] == dst@);
            }
        }
        assert(args.deep_view() =~= next);
    }
    args
}

/// Ties the evaluated task groups back to the policy they were built
/// from: the verdict over the groups equals the file-level decision
/// stated over the policy itself.
pub proof fn lemma_tasks_needs_transcode(
    m: MediaFileTasks,
    config: TranscoderConfig,
    streams: Seq<StreamInfo>,
    path: Seq<char>,
)
    requires
        m.supported_formats@ == config.supported_formats@,
        m.tasks@.len() == config.required@.len(),
        forall|ri: int|
            0 <= ri < config.required@.len() ==> #[trigger] m.tasks@[ri].requirement
                == config.required@[ri] && m.tasks@[ri].tasks@ == spec_group_tasks(
                config.required@,
                config.supported_codecs@,
                streams,
                ri,
            ),
    ensures
        (spec_format_rule(m.supported_formats@, path) || exists|ri: int|
            0 <= ri < m.tasks@.len() && spec_verdict(
                #[trigger] m.tasks@[ri].requirement.level,
                m.tasks@[ri].tasks@,
            )) == spec_needs_transcode(config, streams, path),
{
    let group_ex = exists|ri: int|
        0 <= ri < m.tasks@.len() && spec_verdict(
            #[trigger] m.tasks@[ri].requirement.level,
            m.tasks@[ri].tasks@,
        );
    let policy_ex = exists|ri: int|
        0 <= ri < config.required@.len() && spec_verdict(
            config.required@[ri].level,
            spec_group_tasks(config.required@, config.supported_codecs@, streams, ri),
        );
    if group_ex {
        let ri = choose|ri: int|
            0 <= ri < m.tasks@.len() && spec_verdict(
                #[trigger] m.tasks@[ri].requirement.level,
                m.tasks@[ri].tasks@,
            );
        assert(m.tasks@[ri].requirement == config.required@[ri]);
        assert(spec_verdict(
            config.required@[ri].level,
            spec_group_tasks(config.required@, config.supported_codecs@, streams, ri),
        ));
        assert(policy_ex);
    }
    if policy_ex {
        let ri = choose|ri: int|
            0 <= ri < config.required@.len() && spec_verdict(
                config.required@[ri].level,
                spec_group_tasks(config.required@, config.supported_codecs@, streams, ri),
            );
        assert(m.tasks@[ri].requirement == config.required@[ri]);
        assert(spec_verdict(m.tasks@[ri].requirement.level, m.tasks@[ri].tasks@));
        assert(group_ex);
    }
}

/// The decision engine is a pure function: the file-level decision and
/// the per-stream plan are functions of the stream inventory and the
/// policy alone, so identical inputs yield identical outcomes — and
/// every executable entry point is pinned to these functions by its
/// contract.
pub proof fn lemma_policy_deterministic(
    c1: TranscoderConfig,
    c2: TranscoderConfig,
    s1: Seq<StreamInfo>,
    s2: Seq<StreamInfo>,
    p1: Seq<char>,
    p2: Seq<char>,
)
    requires
        c1 == c2,
        s1 == s2,
        p1 == p2,
    ensures
        spec_needs_transcode(c1, s1, p1) == spec_needs_transcode(c2, s2, p2),
        spec_plan(c1.supported_codecs@, s1) == spec_plan(c2.supported_codecs@, s2),
{
}


/// Helper: where requirement `i` matches `s`, the first match exists, is
/// no later than `i`, and itself matches `s`.
proof fn lemma_first_match_bound(required: Seq<Requirement>, s: StreamInfo, t: int, i: int)
    requires
        0 <= t <= i < required.len(),
        matches_stream(required[i].what, s),
    ensures
        first_match_from(required, s, t) matches Some(k) && t <= k <= i && matches_stream(
            required[k].what,
            s,
        ),
    decreases i - t,
{
    if !matches_stream(required[t].what, s) {
        lemma_first_match_bound(required, s, t + 1, i);
    }
}

/// Requirement priority: when both a language-qualified and a
/// language-agnostic requirement match a stream, the stream is claimed
/// by a language-qualified one — its verdict, not the agnostic one's,
/// speaks for the stream — because the ordered set puts the specific
/// requirement first.
pub proof fn lemma_requirement_priority(
    required: Seq<Requirement>,
    s: StreamInfo,
    i: int,
    j: int,
)
    requires
        crate::policy::sorted_strict(required),
        0 <= i < required.len(),
        0 <= j < required.len(),
        matches_stream(required[i].what, s),
        matches_stream(required[j].what, s),
        crate::policy::type_language(required[i].what) is Some,
        crate::policy::type_language(required[j].what) is None,
    ensures
        first_match(required, s) matches Some(k) && matches_stream(required[k].what, s)
            && crate::policy::type_language(required[k].what) is Some && k != j,
{
    lemma_first_match_bound(required, s, 0, i);
    let k = first_match(required, s)->Some_0;
    if crate::policy::type_language(required[k].what) is None {
        // `k` and `i` match the same stream, so their kinds have equal
        // rank; an agnostic requirement then sorts after the qualified
        // one, contradicting that the first match is no later than `i`.
        assert(crate::policy::type_rank(required[k].what) == crate::policy::type_rank(
            required[i].what,
        ));
        assert(crate::policy::req_cmp(required[k], required[i]) is Greater);
        if k < i {
            assert(crate::policy::req_cmp(required[k], required[i]) is Less);
        }
        assert(false);
    }
}


/// The container rule is case-insensitive in the file's extension: two
/// paths whose extensions fold to the same characters are judged alike.
pub proof fn lemma_format_rule_case_insensitive(
    formats: Seq<String>,
    p1: Seq<char>,
    p2: Seq<char>,
)
    requires
        crate::paths::ext_dot(p1) matches Some(d1) ==> (crate::paths::ext_dot(p2) matches Some(d2)
            ==> crate::text::lower(p1.skip(d1 + 1)) == crate::text::lower(p2.skip(d2 + 1))),
        crate::paths::ext_dot(p1) is Some <==> crate::paths::ext_dot(p2) is Some,
    ensures
        spec_format_rule(formats, p1) == spec_format_rule(formats, p2),
{
    if crate::paths::ext_dot(p1) is Some {
        let d1 = crate::paths::ext_dot(p1)->Some_0;
        let d2 = crate::paths::ext_dot(p2)->Some_0;
        crate::text::lemma_lower_idem(p1.skip(d1 + 1));
        crate::text::lemma_lower_idem(p2.skip(d2 + 1));
    }
}

/// Every stream appears at most once in a file plan: for distinct stream
/// indexes, the plan holds one task per planned stream, each task's
/// index is one of the input streams', and no index repeats.
pub proof fn lemma_plan_one_task_per_stream(codecs: Seq<CodecInfoExtra>, streams: Seq<StreamInfo>)
    requires
        forall|i: int, j: int| 0 <= i < j < streams.len() ==> streams[i].index != streams[j].index,
    ensures
        forall|k: int|
            0 <= k < spec_plan(codecs, streams).len() ==> exists|i: int|
                0 <= i < streams.len() && streams[i].index == #[trigger] spec_plan(
                    codecs,
                    streams,
                )[k].stream_index,
        forall|k: int, l: int|
            0 <= k < l < spec_plan(codecs, streams).len() ==> spec_plan(
                codecs,
                streams,
            )[k].stream_index != spec_plan(codecs, streams)[l].stream_index,
    decreases streams.len(),
{
    if streams.len() > 0 {
        let pre = streams.drop_last();
        let last = streams.last();
        assert forall|i: int, j: int| 0 <= i < j < pre.len() implies pre[i].index
            != pre[j].index by {
            assert(pre[i] == streams[i] && pre[j] == streams[j]);
        }
        lemma_plan_one_task_per_stream(codecs, pre);
        let plan_pre = spec_plan(codecs, pre);
        let plan = spec_plan(codecs, streams);
        match spec_task_for(codecs, last) {
            Some(t) => {
                assert(plan == plan_pre.push(t));
                assert(t.stream_index == last.index);
                assert forall|k: int| 0 <= k < plan.len() implies exists|i: int|
                    0 <= i < streams.len() && streams[i].index == #[trigger] plan[k].stream_index by {
                    if k < plan_pre.len() {
                        assert(plan[k] == plan_pre[k]);
                        let i = choose|i: int|
                            0 <= i < pre.len() && pre[i].index == plan_pre[k].stream_index;
                        assert(streams[i].index == plan[k].stream_index);
                    } else {
                        assert(plan[k] == t);
                        assert(streams[streams.len() - 1].index == plan[k].stream_index);
                    }
                }
                assert forall|k: int, l: int| 0 <= k < l < plan.len() implies plan[k].stream_index
                    != plan[l].stream_index by {
                    if l < plan_pre.len() {
                        assert(plan[k] == plan_pre[k] && plan[l] == plan_pre[l]);
                    } else {
                        assert(plan[k] == plan_pre[k] && plan[l] == t);
                        let i = choose|i: int|
                            0 <= i < pre.len() && pre[i].index == plan_pre[k].stream_index;
                        assert(streams[i].index != last.index);
                    }
                }
            },
            None => {
                assert(plan == plan_pre);
                assert forall|k: int| 0 <= k < plan.len() implies exists|i: int|
                    0 <= i < streams.len() && streams[i].index == #[trigger] plan[k].stream_index by {
                    let i = choose|i: int|
                        0 <= i < pre.len() && pre[i].index == plan_pre[k].stream_index;
                    assert(streams[i].index == plan[k].stream_index);
                }
            },
        }
    }
}

} // verus!
