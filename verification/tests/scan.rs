use cerberus_agent::catalog::{
    scan_outcome, serve_outcome, build_catalog, first_nonempty, join_parts, parse_track_no, track_from_scan, ProbeTags,
    ReleaseKind, ScannedFile, Track,
};
use cerberus_agent::media::{
    cover_mime_or_error, cover_sidecar_name, ext_of, extracted_cover, is_audio, is_cover_image, is_media, is_video,
    media_kind_of, mime_for, CoverMime, MediaKind,
};

fn scanned(parts: &[&str]) -> ScannedFile {
    ScannedFile {
        parts: parts.iter().map(|s| s.to_string()).collect(),
        tags: ProbeTags::new(),
        duration: None,
        cover: None,
        version_label: None,
    }
}

fn find<'a>(tracks: &'a [Track], filename: &str) -> &'a Track {
    tracks.iter().find(|t| t.filename == filename).unwrap()
}

// The scan model: recursion into subfolders, persona/release from folder names (no tags
// here, so the folder fallback is exercised), video detection, the release-kind heuristic,
// and the direct single (no persona/release).
#[test]
fn recursive_persona_release_scan() {
    let found = [
        "direct.mp3",
        "PersonaA/AlbumX/song1.mp3",
        "PersonaA/AlbumX/song2.mp3",
        "PersonaA/AlbumX/clip.mp4",
        "PersonaB/single.mp3",
        "notes.txt",
    ];
    let media: Vec<ScannedFile> = found
        .iter()
        .filter(|p| is_media(ext_of(p.rsplit('/').next().unwrap()).as_str()))
        .map(|p| scanned(&p.split('/').collect::<Vec<_>>()))
        .collect();
    let tracks = build_catalog(media);
    assert_eq!(tracks.len(), 5, "recursive scan finds all 5 media files, ignores .txt");

    let direct = find(&tracks, "direct.mp3");
    assert!(direct.persona.is_none() && direct.release.is_none(), "top-level = direct single");

    let song1 = find(&tracks, "PersonaA/AlbumX/song1.mp3");
    assert_eq!(song1.persona.as_deref(), Some("PersonaA"));
    assert_eq!(song1.release.as_deref(), Some("AlbumX"));
    assert_eq!(song1.release_kind, Some(ReleaseKind::Ep), "3 tracks in AlbumX -> ep");

    let clip = find(&tracks, "PersonaA/AlbumX/clip.mp4");
    assert_eq!(clip.media_kind, MediaKind::Video, "mp4 detected as video");

    // No embedded art -> no cover.
    assert!(direct.cover.is_none(), "no embedded art -> no cover, no crash");
}

#[test]
fn cover_sidecar_name_safe_and_deterministic() {
    let n = cover_sidecar_name("Styrling Shadow/Fallen Brother.mp3");
    assert_eq!(n, ".cerberus-covers/styrling_shadow_fallen_brother.jpg");
    // Stable across calls, and always inside the covers dir with a .jpg extension.
    assert_eq!(n, cover_sidecar_name("Styrling Shadow/Fallen Brother.mp3"));
    assert!(cover_sidecar_name("weird/../name!.flac").starts_with(".cerberus-covers/"));
    assert!(cover_sidecar_name("x.mp3").ends_with(".jpg"));
}

#[test]
fn sidecar_name_edge_cases() {
    assert_eq!(cover_sidecar_name("weird/../name!.flac"), ".cerberus-covers/weird____name.jpg");
    assert_eq!(cover_sidecar_name("___.mp3"), ".cerberus-covers/cover.jpg");
    assert_eq!(cover_sidecar_name(""), ".cerberus-covers/cover.jpg");
    assert_eq!(cover_sidecar_name("Café Ñ.mp3"), ".cerberus-covers/caf.jpg");
    assert_eq!(cover_sidecar_name("noext"), ".cerberus-covers/noext.jpg");
    assert_eq!(cover_sidecar_name("a.b.c"), ".cerberus-covers/a_b.jpg");
}

#[test]
fn sorted_by_path_and_first_audio_featured() {
    let files = vec![
        scanned(&["b", "z.mp3"]),
        scanned(&["a.mp4"]),
        scanned(&["a", "y.mp3"]),
        scanned(&["b.mp3"]),
    ];
    let tracks = build_catalog(files);
    let names: Vec<&str> = tracks.iter().map(|t| t.filename.as_str()).collect();
    // Path order compares component by component: "a" < "a.mp4" < "b" < "b.mp3".
    assert_eq!(names, vec!["a/y.mp3", "a.mp4", "b/z.mp3", "b.mp3"]);
    let featured: Vec<&str> =
        tracks.iter().filter(|t| t.featured).map(|t| t.filename.as_str()).collect();
    assert_eq!(featured, vec!["a/y.mp3"]);
}

#[test]
fn video_only_catalog_features_nothing() {
    let tracks = build_catalog(vec![scanned(&["clip.mp4"]), scanned(&["film.mkv"])]);
    assert!(tracks.iter().all(|t| !t.featured));
    assert!(tracks.iter().all(|t| t.media_kind == MediaKind::Video));
}

#[test]
fn release_kind_heuristic_counts() {
    let mut files = Vec::new();
    for i in 0..6 {
        files.push(scanned(&["P", "Big", &format!("t{i}.mp3")]));
    }
    files.push(scanned(&["P", "One", "solo.mp3"]));
    files.push(scanned(&["P", "loose.mp3"]));
    let tracks = build_catalog(files);
    assert_eq!(find(&tracks, "P/Big/t0.mp3").release_kind, Some(ReleaseKind::Album));
    assert_eq!(find(&tracks, "P/One/solo.mp3").release_kind, Some(ReleaseKind::Single));
    assert_eq!(find(&tracks, "P/loose.mp3").release_kind, None);
    assert_eq!(find(&tracks, "P/loose.mp3").persona.as_deref(), Some("P"));
}

#[test]
fn release_groups_are_persona_release_pairs() {
    // ("a b", "c") and ("a", "b c") are different groups: each is a single.
    let mut f1 = scanned(&["x1.mp3"]);
    let mut t1 = ProbeTags::new();
    t1.insert("album_artist".into(), "a b".into());
    t1.insert("album".into(), "c".into());
    f1.tags = t1;
    let mut f2 = scanned(&["x2.mp3"]);
    let mut t2 = ProbeTags::new();
    t2.insert("album_artist".into(), "a".into());
    t2.insert("album".into(), "b c".into());
    f2.tags = t2;
    let tracks = build_catalog(vec![f1, f2]);
    assert!(tracks.iter().all(|t| t.release_kind == Some(ReleaseKind::Single)));
}

#[test]
fn tags_win_over_folders() {
    let mut f = scanned(&["Folder Persona", "Folder Release", "03 song.flac"]);
    let mut tags = ProbeTags::new();
    tags.insert("album_artist".into(), "  Kings Without Crowns ".into());
    tags.insert("artist".into(), "El Rey".into());
    tags.insert("album".into(), "Highway".into());
    tags.insert("title".into(), " Highway con Sexy ".into());
    tags.insert("track".into(), " 3/12".into());
    tags.insert("composer".into(), "   ".into());
    f.tags = tags;
    f.cover = Some(".cerberus-covers/x.jpg".into());
    f.version_label = Some("Reggaeton".into());
    let t = track_from_scan(f);
    assert_eq!(t.persona.as_deref(), Some("Kings Without Crowns"));
    assert_eq!(t.release.as_deref(), Some("Highway"));
    assert_eq!(t.title, "Highway con Sexy");
    assert_eq!(t.track_no, Some(3));
    assert_eq!(t.composer, None);
    assert_eq!(t.performer.as_deref(), Some("El Rey"));
    assert_eq!(t.filename, "Folder Persona/Folder Release/03 song.flac");
    assert_eq!(t.cover.as_deref(), Some(".cerberus-covers/x.jpg"));
    assert_eq!(t.version_label.as_deref(), Some("Reggaeton"));
    assert_eq!(t.media_kind, MediaKind::Audio);
    assert!(!t.featured);
}

#[test]
fn untagged_file_falls_back_to_stem_and_artist() {
    let mut f = scanned(&["Persona", "my.song.mp3"]);
    let mut tags = ProbeTags::new();
    tags.insert("artist".into(), "Same".into());
    tags.insert("album_artist".into(), "Same".into());
    f.tags = tags;
    let t = track_from_scan(f);
    assert_eq!(t.title, "my.song");
    assert_eq!(t.persona.as_deref(), Some("Same"));
    assert_eq!(t.performer, None);
    assert_eq!(t.release, None);
}

#[test]
fn video_gets_no_cover_or_version() {
    let mut f = scanned(&["clip.webm"]);
    f.cover = Some("c.jpg".into());
    f.version_label = Some("v".into());
    let t = track_from_scan(f);
    assert_eq!(t.media_kind, MediaKind::Video);
    assert_eq!(t.cover, None);
    assert_eq!(t.version_label, None);
}

#[test]
fn probe_tags_lowercase_and_last_wins() {
    let tags = ProbeTags::from_probe_pairs(vec![
        ("ARTIST".into(), Some("first".into())),
        ("artist".into(), Some("second".into())),
        ("Track".into(), None),
        ("ALBUM".into(), Some("A".into())),
    ]);
    assert_eq!(tags.get(&"artist".chars().collect()), Some("second".to_string()));
    assert_eq!(tags.get(&"album".chars().collect()), Some("A".to_string()));
    assert_eq!(tags.get(&"track".chars().collect()), None);
    assert_eq!(tags.get(&"ALBUM".chars().collect()), None);
}

#[test]
fn first_nonempty_trims_and_skips_blanks() {
    assert_eq!(
        first_nonempty(&vec![None, Some(" \t ".into()), Some("  x y ".into()), Some("z".into())]),
        Some("x y".to_string())
    );
    assert_eq!(first_nonempty(&vec![None, Some("\u{3000}".into())]), None);
}

#[test]
fn track_numbers() {
    assert_eq!(parse_track_no(Some("7".into())), Some(7));
    assert_eq!(parse_track_no(Some(" 07 /10".into())), Some(7));
    assert_eq!(parse_track_no(Some("+4".into())), Some(4));
    assert_eq!(parse_track_no(Some("4294967295".into())), Some(u32::MAX));
    assert_eq!(parse_track_no(Some("4294967296".into())), None);
    assert_eq!(parse_track_no(Some("A1".into())), None);
    assert_eq!(parse_track_no(Some("/3".into())), None);
    assert_eq!(parse_track_no(Some("-1".into())), None);
    assert_eq!(parse_track_no(None), None);
}

#[test]
fn joins_components_with_slashes() {
    assert_eq!(join_parts(&vec!["a".into(), "b c".into(), "d.mp3".into()]), "a/b c/d.mp3");
    assert_eq!(join_parts(&vec![]), "");
}

#[test]
fn extensions_and_kinds() {
    assert_eq!(ext_of("SONG.MP3"), "mp3");
    assert_eq!(ext_of(".mp3"), "");
    assert_eq!(ext_of("noext"), "");
    assert_eq!(ext_of("a.tar.GZ"), "gz");
    assert_eq!(ext_of(".."), "");
    assert_eq!(ext_of("trailing."), "");
    assert!(is_audio("flac") && !is_audio("mp4"));
    assert!(is_video("mkv") && !is_video("mp3"));
    assert!(is_media("m4v") && !is_media("txt") && !is_media("MP3"));
    assert_eq!(media_kind_of("x.MOV"), MediaKind::Video);
    assert_eq!(media_kind_of("x.wav"), MediaKind::Audio);
}

#[test]
fn mime_types() {
    assert_eq!(mime_for("a.mp3"), "audio/mpeg");
    assert_eq!(mime_for("a.WAV"), "audio/wav");
    assert_eq!(mime_for("a.flac"), "audio/flac");
    assert_eq!(mime_for("a.m4a"), "audio/mp4");
    assert_eq!(mime_for("a.ogg"), "audio/ogg");
    assert_eq!(mime_for("a.aac"), "audio/aac");
    assert_eq!(mime_for("a.mp4"), "video/mp4");
    assert_eq!(mime_for("a.webm"), "video/webm");
    assert_eq!(mime_for("a.mov"), "video/quicktime");
    assert_eq!(mime_for("a.m4v"), "video/x-m4v");
    assert_eq!(mime_for("a.mkv"), "video/x-matroska");
    assert_eq!(mime_for("a.jpeg"), "image/jpeg");
    assert_eq!(mime_for("a.jpg"), "image/jpeg");
    assert_eq!(mime_for("a.png"), "image/png");
    assert_eq!(mime_for("a.webp"), "image/webp");
    assert_eq!(mime_for("a.gif"), "image/gif");
    assert_eq!(mime_for("a.txt"), "application/octet-stream");
    assert_eq!(mime_for("README"), "application/octet-stream");
}

#[test]
fn cover_formats() {
    assert_eq!(cover_mime_or_error("art.JPG"), Ok(CoverMime::Jpeg));
    assert_eq!(cover_mime_or_error("art.jpeg"), Ok(CoverMime::Jpeg));
    assert_eq!(cover_mime_or_error("art.png"), Ok(CoverMime::Png));
    assert_eq!(cover_mime_or_error("art.gif"), Ok(CoverMime::Gif));
    assert_eq!(cover_mime_or_error("art.webp"), Err("Cover must be a jpg, png, or gif".to_string()));
    assert!(is_cover_image("x.png") && !is_cover_image("x.webp"));
}

#[test]
fn scan_and_serve_outcomes() {
    assert_eq!(scan_outcome(false, vec![]).err(), Some("Not a folder".to_string()));
    assert_eq!(scan_outcome(true, vec![]).err(), Some("No audio/video files in that folder".to_string()));
    assert_eq!(scan_outcome(true, build_catalog(vec![scanned(&["a.mp3"])])).map(|t| t.len()), Ok(1));
    assert_eq!(serve_outcome(false, vec![]).err(), Some("Music folder not found".to_string()));
    assert_eq!(serve_outcome(true, vec![]).err(), Some("No tracks to serve".to_string()));
}

#[test]
fn extracted_cover_needs_success_and_bytes() {
    assert_eq!(extracted_cover("c.jpg".into(), true, 10), Some("c.jpg".to_string()));
    assert_eq!(extracted_cover("c.jpg".into(), true, 0), None);
    assert_eq!(extracted_cover("c.jpg".into(), false, 10), None);
}
