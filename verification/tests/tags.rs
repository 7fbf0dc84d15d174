use cerberus_agent::catalog::{track_from_scan, ProbeTags, ScannedFile};
use cerberus_agent::media::CoverMime;
use cerberus_agent::tags::{
    apply_tag_edit, embed_front_cover, nonempty, set_cover_result, version_label_of,
    write_tags_result, BatchOutcome, TagEdit,
};
use lofty::picture::{MimeType, Picture, PictureType};
use lofty::tag::{Accessor, ItemKey, Tag, TagType};

fn edit() -> TagEdit {
    TagEdit {
        filename: "song.mp3".into(),
        title: Some("Highway con Sexy".into()),
        persona: Some("Kings Without Crowns".into()),
        release: Some("Highway con Sexy".into()),
        track_no: Some(1),
        composer: Some("Francisco De La Paz".into()),
        version_label: Some("Reggaeton".into()),
        performer: Some("El Rey".into()),
    }
}

#[test]
fn write_tags_roundtrip() {
    let mut tag = Tag::new(TagType::Id3v2);
    apply_tag_edit(&mut tag, &edit());
    assert_eq!(tag.title().as_deref(), Some("Highway con Sexy"));
    assert_eq!(tag.album().as_deref(), Some("Highway con Sexy"));
    assert_eq!(tag.track(), Some(1));
    // album_artist = the act; artist = the version's performer; subtitle = the version.
    assert_eq!(tag.get_string(&ItemKey::AlbumArtist), Some("Kings Without Crowns"));
    assert_eq!(tag.artist().as_deref(), Some("El Rey"));
    assert_eq!(tag.get_string(&ItemKey::TrackSubtitle), Some("Reggaeton"));
    assert_eq!(tag.get_string(&ItemKey::Composer), Some("Francisco De La Paz"));
    assert_eq!(version_label_of(&tag), Some("Reggaeton".to_string()));
}

#[test]
fn set_cover_embeds_picture() {
    let mut tag = Tag::new(TagType::Id3v2);
    let data = vec![0xFFu8, 0xD8, 0xFF, 0xE0, 0x00, 0x10];
    embed_front_cover(&mut tag, CoverMime::Jpeg, data.clone());
    assert!(!tag.pictures().is_empty(), "front cover embedded");
    assert_eq!(tag.pictures()[0].data(), &data[..]);
    assert_eq!(tag.pictures()[0].pic_type(), PictureType::CoverFront);
    assert_eq!(tag.pictures()[0].mime_type(), Some(&MimeType::Jpeg));
}

#[test]
fn embedding_replaces_the_first_picture() {
    let mut tag = Tag::new(TagType::Id3v2);
    tag.push_picture(Picture::new_unchecked(PictureType::CoverBack, Some(MimeType::Png), None, vec![1]));
    tag.push_picture(Picture::new_unchecked(PictureType::Artist, Some(MimeType::Png), None, vec![2]));
    embed_front_cover(&mut tag, CoverMime::Png, vec![9, 9]);
    assert_eq!(tag.pictures().len(), 2);
    assert_eq!(tag.pictures()[0].data(), &[9u8, 9][..]);
    assert_eq!(tag.pictures()[1].data(), &[2u8][..]);
}

#[test]
fn empty_fields_leave_the_tag_untouched() {
    let mut tag = Tag::new(TagType::Id3v2);
    tag.set_title("Old".into());
    tag.set_album("Old Album".into());
    tag.set_artist("Old Artist".into());
    let e = TagEdit {
        filename: "x.mp3".into(),
        title: Some("   ".into()),
        persona: None,
        release: None,
        track_no: Some(0),
        composer: Some("".into()),
        version_label: None,
        performer: None,
    };
    apply_tag_edit(&mut tag, &e);
    assert_eq!(tag.title().as_deref(), Some("Old"));
    assert_eq!(tag.album().as_deref(), Some("Old Album"));
    assert_eq!(tag.artist().as_deref(), Some("Old Artist"));
    assert_eq!(tag.track(), None);
    assert_eq!(tag.get_string(&ItemKey::Composer), None);
}

#[test]
fn persona_without_performer_is_also_the_artist() {
    let mut tag = Tag::new(TagType::Id3v2);
    let e = TagEdit {
        filename: "x.mp3".into(),
        title: None,
        persona: Some("  Act ".into()),
        release: None,
        track_no: None,
        composer: None,
        version_label: None,
        performer: None,
    };
    apply_tag_edit(&mut tag, &e);
    assert_eq!(tag.get_string(&ItemKey::AlbumArtist), Some("Act"));
    assert_eq!(tag.artist().as_deref(), Some("Act"));
}

#[test]
fn performer_alone_sets_only_the_artist() {
    let mut tag = Tag::new(TagType::Id3v2);
    let e = TagEdit {
        filename: "x.mp3".into(),
        title: None,
        persona: None,
        release: None,
        track_no: Some(12),
        composer: None,
        version_label: None,
        performer: Some("Member".into()),
    };
    apply_tag_edit(&mut tag, &e);
    assert_eq!(tag.get_string(&ItemKey::AlbumArtist), None);
    assert_eq!(tag.artist().as_deref(), Some("Member"));
    assert_eq!(tag.track(), Some(12));
}

#[test]
fn nonempty_trims() {
    assert_eq!(nonempty(&Some("  a ".into())), Some("a".to_string()));
    assert_eq!(nonempty(&Some(" \n".into())), None);
    assert_eq!(nonempty(&None), None);
}

#[test]
fn batch_results() {
    let outcomes = vec![
        BatchOutcome::Skipped("../x.mp3".into()),
        BatchOutcome::Written,
        BatchOutcome::Failed("write x: denied".into()),
        BatchOutcome::Written,
    ];
    assert_eq!(write_tags_result(&outcomes), Ok(2));
    let none = vec![
        BatchOutcome::Failed("read a: bad".into()),
        BatchOutcome::Skipped("b".into()),
    ];
    assert_eq!(write_tags_result(&none), Err("read a: bad".to_string()));
    let skipped = vec![BatchOutcome::Skipped("b.mp3".into())];
    assert_eq!(set_cover_result(&skipped), Err("skipped b.mp3".to_string()));
    assert_eq!(write_tags_result(&vec![]), Err("nothing to write".to_string()));
    assert_eq!(set_cover_result(&vec![]), Err("no files".to_string()));
}

#[test]
fn edited_tags_win_on_rescan() {
    let mut tag = Tag::new(TagType::Id3v2);
    tag.set_artist("frankydlp".into());
    apply_tag_edit(&mut tag, &edit());
    // What the probe reports for the rewritten file.
    let mut probe = ProbeTags::new();
    probe.insert("album_artist".into(), tag.get_string(&ItemKey::AlbumArtist).unwrap().to_string());
    probe.insert("artist".into(), tag.artist().unwrap().to_string());
    probe.insert("album".into(), tag.album().unwrap().to_string());
    probe.insert("title".into(), tag.title().unwrap().to_string());
    probe.insert("track".into(), tag.get_string(&ItemKey::TrackNumber).unwrap().to_string());
    probe.insert("composer".into(), tag.get_string(&ItemKey::Composer).unwrap().to_string());
    let t = track_from_scan(ScannedFile {
        parts: vec!["Wrong Persona".into(), "Wrong Release".into(), "song.mp3".into()],
        tags: probe,
        duration: None,
        cover: None,
        version_label: None,
    });
    assert_eq!(t.persona.as_deref(), Some("Kings Without Crowns"));
    assert_eq!(t.release.as_deref(), Some("Highway con Sexy"));
    assert_eq!(t.title, "Highway con Sexy");
    assert_eq!(t.track_no, Some(1));
    assert_eq!(t.composer.as_deref(), Some("Francisco De La Paz"));
    assert_eq!(t.performer.as_deref(), Some("El Rey"));
}

#[test]
fn edits_keep_other_items() {
    let mut tag = Tag::new(TagType::Id3v2);
    tag.set_genre("Reggaeton".into());
    tag.set_comment("live take".into());
    apply_tag_edit(&mut tag, &edit());
    assert_eq!(tag.genre().as_deref(), Some("Reggaeton"));
    assert_eq!(tag.comment().as_deref(), Some("live take"));
    embed_front_cover(&mut tag, CoverMime::Gif, vec![1, 2, 3]);
    assert_eq!(tag.genre().as_deref(), Some("Reggaeton"));
    assert_eq!(tag.pictures()[0].mime_type(), Some(&MimeType::Gif));
    assert_eq!(tag.title().as_deref(), Some("Highway con Sexy"));
}
