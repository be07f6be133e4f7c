use transcoder::codec::{CodecInfoExtra, MediaKind};
use transcoder::engine::{MediaFileTasks, TranscodeTask, TranscodeTaskType, build_plan};
use transcoder::mirror::{EmplacePlan, MediaFile, plan_emplace};
use transcoder::policy::{
    Requirement, RequirementLevel, RequirementType, RequiredAudio, TranscoderConfig,
};
use transcoder::stream::StreamInfo;

fn codec(id: u64, name: &str, kind: MediaKind) -> CodecInfoExtra {
    CodecInfoExtra {
        codec_id: id,
        codec_name: name.to_string(),
        codec_long_name: name.to_string(),
        media_type: kind,
        encoder: true,
        decoder: true,
    }
}

fn stream(index: u32, kind: MediaKind, codec_id: u64, lang: Option<&str>) -> StreamInfo {
    StreamInfo {
        index,
        kind,
        codec_id: Some(codec_id),
        language: lang.map(|s| s.to_string()),
    }
}

const H264: u64 = 1;
const AAC: u64 = 2;
const HEVC: u64 = 3;
const MP3: u64 = 4;

fn base_config(required: Vec<Requirement>) -> TranscoderConfig {
    TranscoderConfig::new(
        vec!["mp4".to_string()],
        vec![codec(H264, "h264", MediaKind::Video), codec(AAC, "aac", MediaKind::Audio)],
        required,
        false,
        false,
    )
}

fn audio_req(lang: Option<&str>, level: RequirementLevel) -> Requirement {
    Requirement {
        what: RequirementType::Audio(RequiredAudio {
            language: lang.map(|s| s.to_string()),
        }),
        level,
    }
}

fn args_of(plan: &EmplacePlan) -> Vec<String> {
    match plan {
        EmplacePlan::Transcode { args, .. } => args.clone(),
        _ => panic!("expected a transcode plan"),
    }
}

#[test]
fn compliant_file_is_linked() {
    // Accepted container, accepted codecs, no requirements: mirror by link.
    let config = base_config(vec![]);
    let streams = vec![stream(0, MediaKind::Video, H264, None), stream(1, MediaKind::Audio, AAC, None)];
    let file = MediaFile::new("/src/a/b.mp4".to_string(), Some(streams));
    match plan_emplace(&file, "/dst/a/b.mp4", &config) {
        EmplacePlan::Link { dst } => assert_eq!(dst, "/dst/a/b.mp4"),
        _ => panic!("expected a link"),
    }
}

#[test]
fn container_mismatch_forces_transcode_with_copied_streams() {
    // Same policy, unsupported container: transcode, copying every stream.
    let config = base_config(vec![]);
    let streams = vec![stream(0, MediaKind::Video, H264, None), stream(1, MediaKind::Audio, AAC, None)];
    let file = MediaFile::new("/src/a/b.mkv".to_string(), Some(streams));
    let plan = plan_emplace(&file, "/dst/a/b.mkv", &config);
    match &plan {
        EmplacePlan::Transcode { out, fallback, .. } => {
            assert_eq!(out, "/dst/a/b.mp4");
            assert!(fallback.is_none());
        },
        _ => panic!("expected a transcode"),
    }
    assert_eq!(
        args_of(&plan),
        vec!["-y", "-i", "/src/a/b.mkv", "-map", "0", "-c:0", "copy", "-c:1", "copy", "/dst/a/b.mp4"]
            .into_iter()
            .map(|s| s.to_string())
            .collect::<Vec<String>>()
    );
}

#[test]
fn codec_mismatch_under_all_reencodes_that_stream() {
    // A video requirement at level All and an unaccepted video codec.
    let config = base_config(vec![Requirement {
        what: RequirementType::Video,
        level: RequirementLevel::All,
    }]);
    let streams = vec![stream(0, MediaKind::Video, HEVC, None), stream(1, MediaKind::Audio, AAC, None)];
    let file = MediaFile::new("/src/c.mp4".to_string(), Some(streams));
    let plan = plan_emplace(&file, "/dst/c.mp4", &config);
    assert_eq!(
        args_of(&plan),
        vec!["-y", "-i", "/src/c.mp4", "-map", "0", "-c:0", "h264", "-c:1", "copy", "/dst/c.mp4"]
            .into_iter()
            .map(|s| s.to_string())
            .collect::<Vec<String>>()
    );
}

#[test]
fn at_least_one_is_satisfied_by_a_single_compliant_stream() {
    let config = TranscoderConfig::new(
        vec!["mp4".to_string()],
        vec![codec(AAC, "aac", MediaKind::Audio)],
        vec![audio_req(None, RequirementLevel::AtLeastOne)],
        false,
        false,
    );
    let streams = vec![stream(0, MediaKind::Audio, AAC, None), stream(1, MediaKind::Audio, MP3, None)];
    let file = MediaFile::new("/src/d.mp4".to_string(), Some(streams));
    match plan_emplace(&file, "/dst/d.mp4", &config) {
        EmplacePlan::Link { dst } => assert_eq!(dst, "/dst/d.mp4"),
        _ => panic!("one compliant audio stream satisfies AtLeastOne"),
    }
}

#[test]
fn at_least_one_fires_when_no_stream_complies() {
    let config = TranscoderConfig::new(
        vec!["mp4".to_string()],
        vec![codec(AAC, "aac", MediaKind::Audio)],
        vec![audio_req(None, RequirementLevel::AtLeastOne)],
        false,
        false,
    );
    let streams = vec![stream(0, MediaKind::Audio, MP3, None)];
    let file = MediaFile::new("/src/d.mp4".to_string(), Some(streams));
    assert!(matches!(
        plan_emplace(&file, "/dst/d.mp4", &config),
        EmplacePlan::Transcode { .. }
    ));
}

#[test]
fn specific_language_requirement_drives_the_decision() {
    // The English stream matches the qualified All requirement and is not
    // compliant; the Russian stream only matches WithOther.
    let config = base_config(vec![
        audio_req(Some("eng"), RequirementLevel::All),
        audio_req(None, RequirementLevel::WithOther),
    ]);
    let streams = vec![
        stream(0, MediaKind::Audio, MP3, Some("eng")),
        stream(1, MediaKind::Audio, AAC, Some("rus")),
    ];
    let tasks = MediaFileTasks::new(&streams, &config);
    assert!(tasks.need_to_transcode("/src/e.mp4"));
}

#[test]
fn specific_requirement_shields_from_the_general_one() {
    // The most specific matching requirement claims the stream: an English
    // stream declared Ignore is not judged by the language-agnostic All.
    let config = base_config(vec![
        audio_req(Some("eng"), RequirementLevel::Ignore),
        audio_req(None, RequirementLevel::All),
    ]);
    let streams = vec![stream(0, MediaKind::Audio, MP3, Some("eng"))];
    let tasks = MediaFileTasks::new(&streams, &config);
    assert!(!tasks.need_to_transcode("/src/e.mp4"));
}

#[test]
fn backup_symlink_plans_a_fallback() {
    let config = TranscoderConfig::new(
        vec!["mp4".to_string()],
        vec![codec(H264, "h264", MediaKind::Video), codec(AAC, "aac", MediaKind::Audio)],
        vec![],
        true,
        false,
    );
    let streams = vec![stream(0, MediaKind::Video, H264, None)];
    let file = MediaFile::new("/src/f.mkv".to_string(), Some(streams));
    match plan_emplace(&file, "/dst/f.mkv", &config) {
        EmplacePlan::Transcode { out, fallback, .. } => {
            assert_eq!(out, "/dst/f.mp4");
            assert_eq!(fallback.as_deref(), Some("/dst/f.mkv"));
        },
        _ => panic!("expected a transcode"),
    }
}

#[test]
fn empty_requirements_with_unsupported_container_still_transcode() {
    // The container rule alone forces the transcode.
    let config = base_config(vec![]);
    let streams = vec![stream(0, MediaKind::Video, H264, None)];
    let tasks = MediaFileTasks::new(&streams, &config);
    assert!(tasks.need_to_transcode("/src/g.avi"));
}

#[test]
fn empty_format_list_disables_the_container_rule() {
    let config = TranscoderConfig::new(
        vec![],
        vec![codec(H264, "h264", MediaKind::Video)],
        vec![],
        false,
        false,
    );
    let streams = vec![stream(0, MediaKind::Video, H264, None)];
    let file = MediaFile::new("/src/h.mkv".to_string(), Some(streams));
    match plan_emplace(&file, "/dst/h.mkv", &config) {
        EmplacePlan::Link { dst } => assert_eq!(dst, "/dst/h.mkv"),
        _ => panic!("with no declared formats only requirements decide"),
    }
}

#[test]
fn empty_format_list_keeps_the_source_extension() {
    // Transcoding without declared formats must not rewrite the extension.
    let config = TranscoderConfig::new(
        vec![],
        vec![codec(H264, "h264", MediaKind::Video)],
        vec![Requirement { what: RequirementType::Video, level: RequirementLevel::All }],
        false,
        false,
    );
    let streams = vec![stream(0, MediaKind::Video, HEVC, None)];
    let file = MediaFile::new("/src/h.mkv".to_string(), Some(streams));
    match plan_emplace(&file, "/dst/h.mkv", &config) {
        EmplacePlan::Transcode { out, .. } => assert_eq!(out, "/dst/h.mkv"),
        _ => panic!("expected a transcode"),
    }
}

#[test]
fn unprobed_file_is_linked() {
    let config = base_config(vec![]);
    let file = MediaFile::new("/src/notes.txt".to_string(), None);
    match plan_emplace(&file, "/dst/notes.txt", &config) {
        EmplacePlan::Link { dst } => assert_eq!(dst, "/dst/notes.txt"),
        _ => panic!("an opaque file is linked"),
    }
}

#[test]
fn streams_without_an_applicable_codec_are_dropped_from_the_plan() {
    // No accepted codec handles subtitles, so the subtitle stream is
    // omitted; the unknown-codec stream is omitted too.
    let config = base_config(vec![]);
    let streams = vec![
        stream(0, MediaKind::Video, HEVC, None),
        stream(1, MediaKind::Subtitle, 50, None),
        StreamInfo { index: 2, kind: MediaKind::Data, codec_id: None, language: None },
    ];
    let plan = build_plan(&streams, &config);
    assert_eq!(plan.len(), 1);
    assert_eq!(plan[0].stream_index, 0);
    assert!(matches!(plan[0].action, TranscodeTaskType::Transcode(_)));
}

#[test]
fn task_selection_prefers_carry_over() {
    let config = base_config(vec![]);
    let s = stream(4, MediaKind::Audio, AAC, None);
    let t: TranscodeTask = TranscodeTask::new(&s, &config).expect("task applies");
    assert_eq!(t.stream_index, 4);
    assert!(matches!(t.action, TranscodeTaskType::Supported));
    assert!(!t.need_to_transcode());
    let s2 = stream(5, MediaKind::Audio, MP3, None);
    let t2 = TranscodeTask::new(&s2, &config).expect("task applies");
    match &t2.action {
        TranscodeTaskType::Transcode(c) => assert_eq!(c.codec_name, "aac"),
        _ => panic!("expected a re-encoding task"),
    }
    assert!(t2.need_to_transcode());
}

#[test]
fn find_task_for_answers_copy_for_unclaimed_streams() {
    let config = base_config(vec![audio_req(None, RequirementLevel::All)]);
    let streams = vec![
        stream(0, MediaKind::Video, H264, None),
        stream(1, MediaKind::Audio, MP3, None),
    ];
    let tasks = MediaFileTasks::new(&streams, &config);
    // The video stream is claimed by no requirement: carried over.
    assert!(matches!(
        tasks.find_task_for(&streams[0]),
        TranscodeTaskType::Supported
    ));
    match tasks.find_task_for(&streams[1]) {
        TranscodeTaskType::Transcode(c) => assert_eq!(c.codec_name, "aac"),
        _ => panic!("the mp3 stream needs re-encoding"),
    }
}

#[test]
fn language_qualified_requirement_needs_the_matching_tag() {
    let config = base_config(vec![audio_req(Some("eng"), RequirementLevel::All)]);
    // A russian-tagged mp3: the requirement does not match, so nothing
    // forces a transcode of this accepted container.
    let streams = vec![stream(0, MediaKind::Audio, MP3, Some("rus"))];
    let tasks = MediaFileTasks::new(&streams, &config);
    assert!(!tasks.need_to_transcode("/src/i.mp4"));
}
