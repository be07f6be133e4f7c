use transcoder::codec::{CodecInfo, CodecInfoExtra, IndexedCodecs, MediaKind};
use transcoder::policy::{
    ConfigError, Requirement, RequirementLevel, RequirementType, RequiredAudio, RequiredSubtitle,
    TranscoderConfig, prioritize,
};

fn raw(id: u64, name: &str, long: &str, kind: MediaKind) -> CodecInfo {
    CodecInfo {
        codec_id: id,
        codec_name: name.to_string(),
        codec_long_name: long.to_string(),
        media_type: kind,
    }
}

fn catalog() -> IndexedCodecs {
    IndexedCodecs::new(
        vec![
            raw(1, "H264", "H.264 / AVC", MediaKind::Video),
            raw(2, "aac", "AAC (Advanced Audio Coding)", MediaKind::Audio),
        ],
        vec![
            raw(1, "h264", "H.264 / AVC", MediaKind::Video),
            raw(3, "mp3", "MP3 (MPEG audio layer 3)", MediaKind::Audio),
        ],
    )
}

#[test]
fn lookup_is_case_insensitive() {
    let cat = catalog();
    let a = cat.find_in("H264").expect("known codec");
    let b = cat.find_in("h264").expect("known codec");
    assert_eq!(a.codec_id, 1);
    assert_eq!(b.codec_id, 1);
    assert_eq!(a.codec_name, b.codec_name);
}

#[test]
fn lookup_knows_long_names() {
    let cat = catalog();
    let c = cat.find_in("AAC (Advanced Audio Coding)").expect("long name");
    assert_eq!(c.codec_id, 2);
    assert_eq!(c.codec_name, "aac");
}

#[test]
fn capability_flags_cross_reference_both_enumerations() {
    let cat = catalog();
    let h264 = cat.find_encoder_in("h264").expect("encoder");
    assert!(h264.encoder);
    assert!(h264.decoder, "h264 also appears among the decoders");
    let aac = cat.find_encoder_in("aac").expect("encoder");
    assert!(aac.encoder);
    assert!(!aac.decoder, "no aac decoder was enumerated");
    let mp3 = cat.find_decoder_in("mp3").expect("decoder");
    assert!(mp3.decoder);
    assert!(!mp3.encoder, "no mp3 encoder was enumerated");
}

#[test]
fn general_lookup_prefers_decoders() {
    let cat = catalog();
    let c = cat.find_in("mp3").expect("decoder-only codec");
    assert!(c.decoder && !c.encoder);
    let e = cat.find_in("aac").expect("encoder-only codec");
    assert!(e.encoder && !e.decoder);
}

#[test]
fn later_entries_shadow_earlier_ones() {
    let cat = IndexedCodecs::new(
        vec![
            raw(10, "x", "codec x", MediaKind::Audio),
            raw(11, "y", "x", MediaKind::Audio),
        ],
        vec![],
    );
    let c = cat.find_encoder_in("x").expect("shadowed name");
    assert_eq!(c.codec_id, 11, "the later insertion under the name wins");
}

#[test]
fn prioritize_puts_specific_before_unspecific() {
    let eng = Some("eng".to_string());
    let rus = Some("rus".to_string());
    let none: Option<String> = None;
    assert_eq!(prioritize(&eng, &none), std::cmp::Ordering::Less);
    assert_eq!(prioritize(&none, &eng), std::cmp::Ordering::Greater);
    assert_eq!(prioritize(&none, &none), std::cmp::Ordering::Equal);
    assert_eq!(prioritize(&eng, &rus), std::cmp::Ordering::Less);
    assert_eq!(prioritize(&eng, &eng), std::cmp::Ordering::Equal);
}

fn audio_req(lang: Option<&str>, level: RequirementLevel) -> Requirement {
    Requirement {
        what: RequirementType::Audio(RequiredAudio {
            language: lang.map(|s| s.to_string()),
        }),
        level,
    }
}

#[test]
fn config_lowercases_extensions() {
    let c = TranscoderConfig::new(
        vec!["MP4".to_string(), "Mkv".to_string()],
        vec![],
        vec![],
        false,
        false,
    );
    assert_eq!(c.supported_formats, vec!["mp4".to_string(), "mkv".to_string()]);
}

#[test]
fn requirement_set_is_ordered_most_specific_first() {
    let c = TranscoderConfig::new(
        vec![],
        vec![],
        vec![
            audio_req(None, RequirementLevel::WithOther),
            audio_req(Some("eng"), RequirementLevel::All),
        ],
        false,
        false,
    );
    assert_eq!(c.required.len(), 2);
    match &c.required[0].what {
        RequirementType::Audio(a) => assert_eq!(a.language.as_deref(), Some("eng")),
        _ => panic!("expected the language-qualified requirement first"),
    }
    match &c.required[1].what {
        RequirementType::Audio(a) => assert!(a.language.is_none()),
        _ => panic!("expected the language-agnostic requirement second"),
    }
}

#[test]
fn requirement_set_drops_duplicates() {
    let c = TranscoderConfig::new(
        vec![],
        vec![],
        vec![
            audio_req(Some("eng"), RequirementLevel::All),
            audio_req(Some("eng"), RequirementLevel::All),
            Requirement {
                what: RequirementType::Subtitle(RequiredSubtitle { language: None }),
                level: RequirementLevel::Ignore,
            },
        ],
        false,
        false,
    );
    assert_eq!(c.required.len(), 2);
}

#[test]
fn kinds_order_video_audio_subtitle() {
    let c = TranscoderConfig::new(
        vec![],
        vec![],
        vec![
            Requirement {
                what: RequirementType::Subtitle(RequiredSubtitle { language: None }),
                level: RequirementLevel::Ignore,
            },
            audio_req(None, RequirementLevel::All),
            Requirement { what: RequirementType::Video, level: RequirementLevel::All },
        ],
        false,
        false,
    );
    assert!(matches!(c.required[0].what, RequirementType::Video));
    assert!(matches!(c.required[1].what, RequirementType::Audio(_)));
    assert!(matches!(c.required[2].what, RequirementType::Subtitle(_)));
}

#[test]
fn unknown_codec_name_is_rejected() {
    let cat = catalog();
    let r = TranscoderConfig::from_names(
        vec!["mp4".to_string()],
        vec!["h264".to_string(), "nosuchcodec".to_string()],
        vec![],
        false,
        false,
        &cat,
    );
    match r {
        Err(ConfigError::UnknownCodec(n)) => {
            assert_eq!(n, "nosuchcodec");
        },
        _ => panic!("expected the unknown codec to be rejected"),
    }
    let e = ConfigError::UnknownCodec("nosuchcodec".to_string());
    assert_eq!(e.message(), "unknown codec: nosuchcodec");
}

#[test]
fn known_codec_names_resolve() {
    let cat = catalog();
    let c = TranscoderConfig::from_names(
        vec!["MP4".to_string()],
        vec!["H264".to_string(), "aac".to_string()],
        vec![],
        false,
        false,
        &cat,
    )
    .expect("all names known");
    assert_eq!(c.supported_formats, vec!["mp4".to_string()]);
    assert_eq!(c.supported_codecs.len(), 2);
    assert_eq!(c.supported_codecs[0].codec_id, 1);
    assert_eq!(c.supported_codecs[1].codec_id, 2);
}

fn extra(id: u64, name: &str, kind: MediaKind, enc: bool) -> CodecInfoExtra {
    CodecInfoExtra {
        codec_id: id,
        codec_name: name.to_string(),
        codec_long_name: name.to_string(),
        media_type: kind,
        encoder: enc,
        decoder: true,
    }
}

#[test]
fn codec_identity_is_the_short_name() {
    let a = extra(1, "h264", MediaKind::Video, true);
    let mut b = extra(99, "h264", MediaKind::Video, false);
    assert!(a == b);
    b.codec_name = "hevc".to_string();
    assert!(a != b);
}
