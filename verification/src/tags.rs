//! Tag write-back: the Prep panel's edits written into a file's tag, embedded cover art,
//! and the version label read back. The tag itself is lofty's `Tag`; the file it is read
//! from and saved to is handled at the edge.

use vstd::prelude::*;

use lofty::picture::Picture;
use lofty::tag::Tag;

use crate::catalog::{
    first_nonempty_spec, key_album, key_album_artist, key_artist, key_composer, key_title,
    key_track, map_get, opt_view, persona_spec, release_spec, title_spec, track_no_spec,
};
use crate::media::CoverMime;
use crate::text::{chars_of, decimal, string_of, trim, trim_chars};

verus! {

// ---------------------------------------------------------------------------
// lofty's tag
// ---------------------------------------------------------------------------

#[verifier::external_type_specification]
#[verifier::external_body]
pub struct ExTag(Tag);

#[verifier::external_type_specification]
#[verifier::external_body]
pub struct ExPicture(Picture);

/// The text fields the agent reads and writes.
#[derive(PartialEq, Eq, Structural, Clone, Copy, Debug)]
pub enum TagField {
    Title,
    Artist,
    AlbumArtist,
    Album,
    TrackNumber,
    Composer,
    Subtitle,
}

/// What a tag holds: for each field whose first item is text, that text (what
/// `Tag::get_string` returns for the field's item key).
pub uninterp spec fn tag_texts(t: Tag) -> Map<TagField, Seq<char>>;

/// The fields the tag's type has an item key for: those `Tag::insert` accepts.
pub uninterp spec fn tag_accepts(t: Tag) -> Set<TagField>;

/// The tag's items under any key other than the seven fields' keys, in order, each given by
/// the `Debug` text of the `TagItem` (its key and value).
pub uninterp spec fn tag_other_items(t: Tag) -> Seq<Seq<char>>;

/// The tag's pictures, in order, each given as (image data, format when it is JPEG, PNG or
/// GIF, whether its picture type is the front cover).
pub uninterp spec fn tag_pictures(t: Tag) -> Seq<(Seq<u8>, Option<CoverMime>, bool)>;

/// The image data a picture carries.
pub uninterp spec fn picture_data(p: Picture) -> Seq<u8>;

/// A picture's format, when its MIME type is JPEG, PNG or GIF (`None` for any other or none).
pub uninterp spec fn picture_mime(p: Picture) -> Option<CoverMime>;

/// Whether a picture's type is the front cover.
pub uninterp spec fn picture_is_front_cover(p: Picture) -> bool;

/// How a picture appears among a tag's pictures.
pub open spec fn picture_entry(p: Picture) -> (Seq<u8>, Option<CoverMime>, bool) {
    (picture_data(p), picture_mime(p), picture_is_front_cover(p))
}

/// The texts after storing `v` under `f` when the tag accepts `f`.
pub open spec fn stored(t: Tag, f: TagField, v: Seq<char>) -> Map<TagField, Seq<char>> {
    if tag_accepts(t).contains(f) {
        tag_texts(t).insert(f, v)
    } else {
        tag_texts(t)
    }
}

/// lofty's `Tag::insert_text`: stores `text` under the field's item key, replacing any item
/// with that key, when the tag's type has a mapping for the key; returns whether it did.
#[verifier::external_body]
fn tag_insert_text(tag: &mut Tag, field: TagField, text: String) -> (r: bool)
    ensures
        r == tag_accepts(*old(tag)).contains(field),
        tag_texts(*final(tag)) == stored(*old(tag), field, text@),
        tag_accepts(*final(tag)) == tag_accepts(*old(tag)),
        tag_pictures(*final(tag)) == tag_pictures(*old(tag)),
        tag_other_items(*final(tag)) == tag_other_items(*old(tag)),
{
    let key = match field {
        TagField::Title => lofty::tag::ItemKey::TrackTitle,
        TagField::Artist => lofty::tag::ItemKey::TrackArtist,
        TagField::AlbumArtist => lofty::tag::ItemKey::AlbumArtist,
        TagField::Album => lofty::tag::ItemKey::AlbumTitle,
        TagField::TrackNumber => lofty::tag::ItemKey::TrackNumber,
        TagField::Composer => lofty::tag::ItemKey::Composer,
        TagField::Subtitle => lofty::tag::ItemKey::TrackSubtitle,
    };
    tag.insert_text(key, text)
}

/// lofty's `Accessor::set_title` for `Tag`: inserts the text under the title key.
#[verifier::external_body]
fn tag_set_title(tag: &mut Tag, v: String)
    ensures
        tag_texts(*final(tag)) == stored(*old(tag), TagField::Title, v@),
        tag_accepts(*final(tag)) == tag_accepts(*old(tag)),
        tag_pictures(*final(tag)) == tag_pictures(*old(tag)),
        tag_other_items(*final(tag)) == tag_other_items(*old(tag)),
{
    lofty::tag::Accessor::set_title(tag, v)
}

/// lofty's `Accessor::set_artist` for `Tag`: inserts the text under the track-artist key.
#[verifier::external_body]
fn tag_set_artist(tag: &mut Tag, v: String)
    ensures
        tag_texts(*final(tag)) == stored(*old(tag), TagField::Artist, v@),
        tag_accepts(*final(tag)) == tag_accepts(*old(tag)),
        tag_pictures(*final(tag)) == tag_pictures(*old(tag)),
        tag_other_items(*final(tag)) == tag_other_items(*old(tag)),
{
    lofty::tag::Accessor::set_artist(tag, v)
}

/// lofty's `Accessor::set_album` for `Tag`: inserts the text under the album-title key.
#[verifier::external_body]
fn tag_set_album(tag: &mut Tag, v: String)
    ensures
        tag_texts(*final(tag)) == stored(*old(tag), TagField::Album, v@),
        tag_accepts(*final(tag)) == tag_accepts(*old(tag)),
        tag_pictures(*final(tag)) == tag_pictures(*old(tag)),
        tag_other_items(*final(tag)) == tag_other_items(*old(tag)),
{
    lofty::tag::Accessor::set_album(tag, v)
}

/// lofty's `Accessor::set_track` for `Tag`: inserts the number's decimal text under the
/// track-number key.
#[verifier::external_body]
fn tag_set_track(tag: &mut Tag, n: u32)
    ensures
        tag_texts(*final(tag)) == stored(*old(tag), TagField::TrackNumber, decimal(n as nat)),
        tag_accepts(*final(tag)) == tag_accepts(*old(tag)),
        tag_pictures(*final(tag)) == tag_pictures(*old(tag)),
        tag_other_items(*final(tag)) == tag_other_items(*old(tag)),
{
    lofty::tag::Accessor::set_track(tag, n)
}

/// lofty's `Tag::get_string`: the text of the first item under the field's key.
#[verifier::external_body]
fn tag_get_string(tag: &Tag, field: TagField) -> (r: Option<String>)
    ensures
        r matches Some(s) ==> tag_texts(*tag).dom().contains(field) && tag_texts(*tag)[field] == s@,
        r is None ==> !tag_texts(*tag).dom().contains(field),
{
    let key = match field {
        TagField::Title => lofty::tag::ItemKey::TrackTitle,
        TagField::Artist => lofty::tag::ItemKey::TrackArtist,
        TagField::AlbumArtist => lofty::tag::ItemKey::AlbumArtist,
        TagField::Album => lofty::tag::ItemKey::AlbumTitle,
        TagField::TrackNumber => lofty::tag::ItemKey::TrackNumber,
        TagField::Composer => lofty::tag::ItemKey::Composer,
        TagField::Subtitle => lofty::tag::ItemKey::TrackSubtitle,
    };
    tag.get_string(&key).map(|s| s.to_string())
}

/// lofty's `Picture::new_unchecked` for a front cover with the given format, no
/// description, and `data` as its image.
#[verifier::external_body]
fn front_cover_picture(mime: CoverMime, data: Vec<u8>) -> (p: Picture)
    ensures
        picture_data(p) == data@,
        picture_mime(p) == Some(mime),
        picture_is_front_cover(p),
{
    let m = match mime {
        CoverMime::Jpeg => lofty::picture::MimeType::Jpeg,
        CoverMime::Png => lofty::picture::MimeType::Png,
        CoverMime::Gif => lofty::picture::MimeType::Gif,
    };
    Picture::new_unchecked(lofty::picture::PictureType::CoverFront, Some(m), None, data)
}

/// lofty's `Tag::set_picture`: replaces the picture at `index`, or appends when the index is
/// past the end.
#[verifier::external_body]
fn tag_set_picture(tag: &mut Tag, index: usize, picture: Picture)
    ensures
        tag_pictures(*final(tag)) == if index < tag_pictures(*old(tag)).len() {
            tag_pictures(*old(tag)).update(index as int, picture_entry(picture))
        } else {
            tag_pictures(*old(tag)).push(picture_entry(picture))
        },
        tag_texts(*final(tag)) == tag_texts(*old(tag)),
        tag_accepts(*final(tag)) == tag_accepts(*old(tag)),
        tag_other_items(*final(tag)) == tag_other_items(*old(tag)),
{
    tag.set_picture(index, picture)
}

// ---------------------------------------------------------------------------
// Edits
// ---------------------------------------------------------------------------

/// One track's edited fields from the Prep panel. Empty or missing fields leave the tag
/// untouched.
pub struct TagEdit {
    /// Relative path with forward slashes, as the scan returns it.
    pub filename: String,
    pub title: Option<String>,
    /// Written as album_artist (and artist), so a re-scan seats the track under this voice.
    pub persona: Option<String>,
    /// Written as the album.
    pub release: Option<String>,
    pub track_no: Option<u32>,
    pub composer: Option<String>,
    pub version_label: Option<String>,
    pub performer: Option<String>,
}

/// The trimmed text, when it is not empty.
pub open spec fn nonempty_spec(o: Option<Seq<char>>) -> Option<Seq<char>> {
    match o {
        Some(s) => if trim(s).len() > 0 {
            Some(trim(s))
        } else {
            None
        },
        None => None,
    }
}

/// The trimmed text of an optional field, when it is not empty.
pub fn nonempty(o: &Option<String>) -> (r: Option<String>)
    ensures
        opt_view(r) == nonempty_spec(opt_view(*o)),
{
    match o {
        Some(s) => {
            let t = trim_chars(&chars_of(s.as_str()));
            if t.len() > 0 {
                Some(string_of(&t))
            } else {
                None
            }
        },
        None => None,
    }
}

/// Stores `v` under `f` when `v` is present.
pub open spec fn put(m: Map<TagField, Seq<char>>, f: TagField, v: Option<Seq<char>>) -> Map<
    TagField,
    Seq<char>,
> {
    match v {
        Some(x) => m.insert(f, x),
        None => m,
    }
}

/// The artist written: the performer when given, else the persona; nothing without either.
pub open spec fn artist_written(persona: Option<Seq<char>>, performer: Option<Seq<char>>) -> Option<Seq<char>> {
    match persona {
        Some(p) => match performer {
            Some(pf) => Some(pf),
            None => Some(p),
        },
        None => performer,
    }
}

/// The track number written: only a positive one.
pub open spec fn track_written(n: Option<u32>) -> Option<Seq<char>> {
    match n {
        Some(k) => if k > 0 {
            Some(decimal(k as nat))
        } else {
            None
        },
        None => None,
    }
}

/// The texts an edit writes, field by field. Standard TPE2/TPE1 convention: album_artist is
/// the act (the persona), artist the performer of this track when given, else the persona.
pub open spec fn edit_updates(e: TagEdit) -> Map<TagField, Seq<char>> {
    let persona = nonempty_spec(opt_view(e.persona));
    let performer = nonempty_spec(opt_view(e.performer));
    let m = put(Map::empty(), TagField::Title, nonempty_spec(opt_view(e.title)));
    let m = put(m, TagField::AlbumArtist, persona);
    let m = put(m, TagField::Artist, artist_written(persona, performer));
    let m = put(m, TagField::Album, nonempty_spec(opt_view(e.release)));
    let m = put(m, TagField::TrackNumber, track_written(e.track_no));
    let m = put(m, TagField::Composer, nonempty_spec(opt_view(e.composer)));
    put(m, TagField::Subtitle, nonempty_spec(opt_view(e.version_label)))
}

/// The tag's texts after an edit: each field the edit writes and the tag accepts takes the
/// written text; every other field keeps what it held.
pub open spec fn edited_texts(
    old_texts: Map<TagField, Seq<char>>,
    accepts: Set<TagField>,
    e: TagEdit,
) -> Map<TagField, Seq<char>> {
    old_texts.union_prefer_right(edit_updates(e).restrict(accepts))
}

/// Writes one track's edited fields into its tag. Empty or missing fields leave the tag
/// untouched; fields the tag's type has no key for are skipped by lofty.
pub fn apply_tag_edit(tag: &mut Tag, e: &TagEdit)
    ensures
        tag_texts(*final(tag)) == edited_texts(tag_texts(*old(tag)), tag_accepts(*old(tag)), *e),
        tag_accepts(*final(tag)) == tag_accepts(*old(tag)),
        tag_pictures(*final(tag)) == tag_pictures(*old(tag)),
        tag_other_items(*final(tag)) == tag_other_items(*old(tag)),
{
    let ghost t0 = tag_texts(*tag);
    let ghost acc = tag_accepts(*tag);
    let ghost upd = edit_updates(*e);
    let ghost mut m: Map<TagField, Seq<char>> = Map::empty();

    let title = nonempty(&e.title);
    if let Some(v) = title {
        tag_set_title(tag, v);
    }
    proof {
        m = put(m, TagField::Title, nonempty_spec(opt_view(e.title)));
    }
    assert(tag_texts(*tag) =~= t0.union_prefer_right(m.restrict(acc)));

    let persona = nonempty(&e.persona);
    let performer = nonempty(&e.performer);
    match &persona {
        Some(p) => {
            tag_insert_text(tag, TagField::AlbumArtist, p.clone());
            let artist = match &performer {
                Some(pf) => pf.clone(),
                None => p.clone(),
            };
            tag_set_artist(tag, artist);
        },
        None => {
            match &performer {
                Some(pf) => {
                    tag_set_artist(tag, pf.clone());
                },
                None => {},
            }
        },
    }
    proof {
        m = put(m, TagField::AlbumArtist, opt_view(persona));
        m = put(m, TagField::Artist, artist_written(opt_view(persona), opt_view(performer)));
    }
    assert(tag_texts(*tag) =~= t0.union_prefer_right(m.restrict(acc)));

    let release = nonempty(&e.release);
    if let Some(v) = release {
        tag_set_album(tag, v);
    }
    proof {
        m = put(m, TagField::Album, nonempty_spec(opt_view(e.release)));
    }
    assert(tag_texts(*tag) =~= t0.union_prefer_right(m.restrict(acc)));

    if let Some(n) = e.track_no {
        if n > 0 {
            tag_set_track(tag, n);
        }
    }
    proof {
        m = put(m, TagField::TrackNumber, track_written(e.track_no));
    }
    assert(tag_texts(*tag) =~= t0.union_prefer_right(m.restrict(acc)));

    let composer = nonempty(&e.composer);
    if let Some(v) = composer {
        tag_insert_text(tag, TagField::Composer, v);
    }
    proof {
        m = put(m, TagField::Composer, nonempty_spec(opt_view(e.composer)));
    }
    assert(tag_texts(*tag) =~= t0.union_prefer_right(m.restrict(acc)));

    let label = nonempty(&e.version_label);
    if let Some(v) = label {
        tag_insert_text(tag, TagField::Subtitle, v);
    }
    proof {
        m = put(m, TagField::Subtitle, nonempty_spec(opt_view(e.version_label)));
    }
    assert(m == upd);
    assert(tag_texts(*tag) =~= t0.union_prefer_right(upd.restrict(acc)));
}

/// Embeds `data` as the tag's front cover in the given format: it replaces the first
/// picture, or becomes the only one when the tag has none. Texts and other items are
/// untouched.
pub fn embed_front_cover(tag: &mut Tag, mime: CoverMime, data: Vec<u8>)
    ensures
        tag_pictures(*final(tag)).len() == if tag_pictures(*old(tag)).len() == 0 {
            1
        } else {
            tag_pictures(*old(tag)).len()
        },
        tag_pictures(*final(tag))[0] == (data@, Some(mime), true),
        forall|i: int|
            1 <= i < tag_pictures(*old(tag)).len() ==> tag_pictures(*final(tag))[i]
                == tag_pictures(*old(tag))[i],
        tag_texts(*final(tag)) == tag_texts(*old(tag)),
        tag_accepts(*final(tag)) == tag_accepts(*old(tag)),
        tag_other_items(*final(tag)) == tag_other_items(*old(tag)),
{
    let ghost d = data@;
    let pic = front_cover_picture(mime, data);
    tag_set_picture(tag, 0, pic);
}

/// The version label (track subtitle) a tag carries.
pub fn version_label_of(tag: &Tag) -> (r: Option<String>)
    ensures
        opt_view(r) == map_get_field(tag_texts(*tag), TagField::Subtitle),
{
    tag_get_string(tag, TagField::Subtitle)
}

/// The text stored under a field, if any.
pub open spec fn map_get_field(m: Map<TagField, Seq<char>>, f: TagField) -> Option<Seq<char>> {
    if m.dom().contains(f) {
        Some(m[f])
    } else {
        None
    }
}

} // verus!

verus! {

// ---------------------------------------------------------------------------
// Batches of edits
// ---------------------------------------------------------------------------

/// What became of one file of a batch.
pub enum BatchOutcome {
    /// The file was written.
    Written,
    /// The file was refused before writing (outside the library or not a file); holds the
    /// name it was asked under.
    Skipped(String),
    /// Writing the file failed; holds the error message.
    Failed(String),
}

/// How many files were written.
pub open spec fn written_count(s: Seq<BatchOutcome>) -> nat
    decreases s.len(),
{
    if s.len() == 0 {
        0
    } else {
        written_count(s.drop_last()) + match s.last() {
            BatchOutcome::Written => 1nat,
            _ => 0nat,
        }
    }
}

/// The message of a file that was not written.
pub open spec fn outcome_error(o: BatchOutcome) -> Option<Seq<char>> {
    match o {
        BatchOutcome::Written => None,
        BatchOutcome::Skipped(f) => Some("skipped "@ + f@),
        BatchOutcome::Failed(m) => Some(m@),
    }
}

/// The first error of a batch, if any file was not written.
pub open spec fn first_error(s: Seq<BatchOutcome>) -> Option<Seq<char>>
    decreases s.len(),
{
    if s.len() == 0 {
        None
    } else {
        match outcome_error(s[0]) {
            Some(m) => Some(m),
            None => first_error(s.drop_first()),
        }
    }
}

/// A batch reports how many files were written, and fails only when none was: with its
/// first error, or `when_none` when there was nothing to do.
pub open spec fn batch_result_spec(s: Seq<BatchOutcome>, when_none: Seq<char>) -> Result<nat, Seq<char>> {
    if written_count(s) == 0 {
        Err(
            match first_error(s) {
                Some(m) => m,
                None => when_none,
            },
        )
    } else {
        Ok(written_count(s))
    }
}

/// The view of a batch result.
pub open spec fn result_view(r: Result<u32, String>) -> Result<nat, Seq<char>> {
    match r {
        Ok(n) => Ok(n as nat),
        Err(e) => Err(e@),
    }
}

fn summarize_batch(outcomes: &Vec<BatchOutcome>, when_none: String) -> (r: Result<u32, String>)
    requires
        outcomes.len() <= u32::MAX,
    ensures
        result_view(r) == batch_result_spec(outcomes@, when_none@),
{
    let mut written: u32 = 0;
    let mut first_err: Option<String> = None;
    let mut i: usize = 0;
    while i < outcomes.len()
        invariant
            i <= outcomes.len() <= u32::MAX,
            written == written_count(outcomes@.take(i as int)),
            written <= i,
            opt_view(first_err) == first_error(outcomes@.take(i as int)),
        decreases outcomes.len() - i,
    {
        assert(outcomes@.take(i + 1).drop_last() == outcomes@.take(i as int));
        proof {
            lemma_first_error_push(outcomes@.take(i as int), outcomes@[i as int]);
            assert(outcomes@.take(i as int).push(outcomes@[i as int]) == outcomes@.take(i + 1));
        }
        match &outcomes[i] {
            BatchOutcome::Written => {
                written = written + 1;
            },
            BatchOutcome::Skipped(f) => {
                if first_err.is_none() {
                    let mut m = String::from_str("skipped ");
                    m.append(f.as_str());
                    first_err = Some(m);
                }
            },
            BatchOutcome::Failed(msg) => {
                if first_err.is_none() {
                    first_err = Some(msg.clone());
                }
            },
        }
        i = i + 1;
    }
    assert(outcomes@.take(outcomes.len() as int) == outcomes@);
    if written == 0 {
        match first_err {
            Some(m) => Err(m),
            None => Err(when_none),
        }
    } else {
        Ok(written)
    }
}

proof fn lemma_first_error_push(s: Seq<BatchOutcome>, o: BatchOutcome)
    ensures
        first_error(s.push(o)) == match first_error(s) {
            Some(m) => Some(m),
            None => outcome_error(o),
        },
    decreases s.len(),
{
    if s.len() == 0 {
        assert(s.push(o).drop_first() =~= Seq::<BatchOutcome>::empty());
        assert(s.push(o)[0] == o);
        assert(first_error(s.push(o).drop_first()) is None);
    } else {
        lemma_first_error_push(s.drop_first(), o);
        assert(s.push(o).drop_first() =~= s.drop_first().push(o));
        assert(s.push(o)[0] == s[0]);
    }
}

/// The result of writing a batch of tag edits: the number written, or, when nothing was
/// written, the first error (`nothing to write` for an empty batch).
pub fn write_tags_result(outcomes: &Vec<BatchOutcome>) -> (r: Result<u32, String>)
    requires
        outcomes.len() <= u32::MAX,
    ensures
        result_view(r) == batch_result_spec(outcomes@, "nothing to write"@),
{
    summarize_batch(outcomes, String::from_str("nothing to write"))
}

/// The result of embedding a cover into a batch of files: the number written, or, when
/// nothing was written, the first error (`no files` for an empty batch).
pub fn set_cover_result(outcomes: &Vec<BatchOutcome>) -> (r: Result<u32, String>)
    requires
        outcomes.len() <= u32::MAX,
    ensures
        result_view(r) == batch_result_spec(outcomes@, "no files"@),
{
    summarize_batch(outcomes, String::from_str("no files"))
}

// ---------------------------------------------------------------------------
// Laws of the write-back
// ---------------------------------------------------------------------------

/// Read-back: after an edit, each field the edit writes and the tag accepts reads back as the
/// trimmed edited text; album_artist is the persona, artist the performer (else the
/// persona), the track number its decimal text; fields the edit leaves empty keep their old
/// text.
pub proof fn law_edit_read_back(old_texts: Map<TagField, Seq<char>>, accepts: Set<TagField>, e: TagEdit)
    ensures
        ({
            let t = edited_texts(old_texts, accepts, e);
            let persona = nonempty_spec(opt_view(e.persona));
            let performer = nonempty_spec(opt_view(e.performer));
            &&& accepts.contains(TagField::Title) ==> map_get_field(t, TagField::Title)
                == (match nonempty_spec(opt_view(e.title)) {
                Some(v) => Some(v),
                None => map_get_field(old_texts, TagField::Title),
            })
            &&& accepts.contains(TagField::AlbumArtist) ==> map_get_field(t, TagField::AlbumArtist)
                == (match persona {
                Some(v) => Some(v),
                None => map_get_field(old_texts, TagField::AlbumArtist),
            })
            &&& accepts.contains(TagField::Artist) ==> map_get_field(t, TagField::Artist)
                == (match artist_written(persona, performer) {
                Some(v) => Some(v),
                None => map_get_field(old_texts, TagField::Artist),
            })
            &&& accepts.contains(TagField::Album) ==> map_get_field(t, TagField::Album)
                == (match nonempty_spec(opt_view(e.release)) {
                Some(v) => Some(v),
                None => map_get_field(old_texts, TagField::Album),
            })
            &&& accepts.contains(TagField::TrackNumber) ==> map_get_field(t, TagField::TrackNumber)
                == (match track_written(e.track_no) {
                Some(v) => Some(v),
                None => map_get_field(old_texts, TagField::TrackNumber),
            })
            &&& accepts.contains(TagField::Composer) ==> map_get_field(t, TagField::Composer)
                == (match nonempty_spec(opt_view(e.composer)) {
                Some(v) => Some(v),
                None => map_get_field(old_texts, TagField::Composer),
            })
            &&& accepts.contains(TagField::Subtitle) ==> map_get_field(t, TagField::Subtitle)
                == (match nonempty_spec(opt_view(e.version_label)) {
                Some(v) => Some(v),
                None => map_get_field(old_texts, TagField::Subtitle),
            })
            &&& forall|f: TagField| !accepts.contains(f) ==> map_get_field(t, f) == map_get_field(
                old_texts,
                f,
            )
        }),
{
}

} // verus!

verus! {

/// The name the media probe reports a tag field under (the subtitle is not probed).
pub open spec fn probe_key(f: TagField) -> Option<Seq<char>> {
    match f {
        TagField::Title => Some(key_title()),
        TagField::Artist => Some(key_artist()),
        TagField::AlbumArtist => Some(key_album_artist()),
        TagField::Album => Some(key_album()),
        TagField::TrackNumber => Some(key_track()),
        TagField::Composer => Some(key_composer()),
        TagField::Subtitle => None,
    }
}

/// The write-back makes the file the source of truth: when the probe reports the edited
/// tag's fields under their probe names, a re-scan reads the edited persona, release, title,
/// track number and composer straight from the tags, whatever folders the file sits in.
pub proof fn law_edit_then_scan(
    old_texts: Map<TagField, Seq<char>>,
    accepts: Set<TagField>,
    e: TagEdit,
    probe: Map<Seq<char>, Seq<char>>,
    parts: Seq<Seq<char>>,
)
    requires
        accepts.contains(TagField::Title),
        accepts.contains(TagField::AlbumArtist),
        accepts.contains(TagField::Album),
        accepts.contains(TagField::TrackNumber),
        accepts.contains(TagField::Composer),
        forall|f: TagField|
            #[trigger] probe_key(f) matches Some(k) ==> map_get(probe, k) == map_get_field(
                edited_texts(old_texts, accepts, e),
                f,
            ),
    ensures
        nonempty_spec(opt_view(e.persona)) matches Some(p) ==> persona_spec(probe, parts) == Some(p),
        nonempty_spec(opt_view(e.release)) matches Some(r) ==> release_spec(probe, parts) == Some(r),
        nonempty_spec(opt_view(e.title)) matches Some(t) ==> title_spec(probe, parts) == t,
        (e.track_no matches Some(n) && n > 0) ==> track_no_spec(map_get(probe, key_track()))
            == e.track_no,
        nonempty_spec(opt_view(e.composer)) matches Some(c) ==> first_nonempty_spec(
            seq![map_get(probe, key_composer())],
        ) == Some(c),
{
    law_edit_read_back(old_texts, accepts, e);
    assert(probe_key(TagField::AlbumArtist) == Some(key_album_artist()));
    assert(probe_key(TagField::Album) == Some(key_album()));
    assert(probe_key(TagField::Title) == Some(key_title()));
    assert(probe_key(TagField::TrackNumber) == Some(key_track()));
    assert(probe_key(TagField::Composer) == Some(key_composer()));
    if let Some(p) = opt_view(e.persona) {
        crate::text::lemma_trim_idempotent(p);
    }
    if let Some(r) = opt_view(e.release) {
        crate::text::lemma_trim_idempotent(r);
    }
    if let Some(t) = opt_view(e.title) {
        crate::text::lemma_trim_idempotent(t);
    }
    if let Some(c) = opt_view(e.composer) {
        crate::text::lemma_trim_idempotent(c);
    }
    if let Some(n) = e.track_no {
        if n > 0 {
            let d = decimal(n as nat);
            crate::text::lemma_decimal_roundtrip(n as nat, u32::MAX as nat);
            crate::text::lemma_decimal_parses(n as nat);
            assert(crate::catalog::before_slash(d) == d);
        }
    }
}

} // verus!
