//! The catalog scan model.
//!
//! ```text
//! musicDir/<file>                      -> direct single (no persona, no release)
//! musicDir/<persona>/<file>            -> persona single
//! musicDir/<persona>/<release>/<file>  -> release under persona
//! ```
//!
//! Embedded tags win over folder names: album_artist/artist -> persona, album -> release,
//! track -> track number, composer -> composer, title -> title. Untagged files fall back to
//! the folders and the file stem.

use vstd::prelude::*;

use crate::media::{file_stem, media_kind_of, media_kind_spec, stem_of, MediaKind};
use crate::order::{
    insertion_sort, is_sorted_by, is_strict_order, lemma_insertion_sort_multiset,
    lemma_insertion_sort_sorted, lemma_paths_lt_irreflexive, lemma_paths_lt_transitive,
    lemma_sorted_insert_at, paths_less, paths_lt, views,
};
use crate::text::{
    append_chars, chars_eq, chars_of, parse_u32, parse_unsigned, string_of, to_lowercase, trim,
    trim_chars, lowercase_spec,
};

verus! {

/// The view of an optional string.
pub open spec fn opt_view(o: Option<String>) -> Option<Seq<char>> {
    match o {
        Some(s) => Some(s@),
        None => None,
    }
}

/// The value stored under `k`, if any.
pub open spec fn map_get(m: Map<Seq<char>, Seq<char>>, k: Seq<char>) -> Option<Seq<char>> {
    if m.dom().contains(k) {
        Some(m[k])
    } else {
        None
    }
}

// ---------------------------------------------------------------------------
// Probe tags
// ---------------------------------------------------------------------------

/// Key/value pairs folded into a map; a later pair overrides an earlier one with the same key.
pub open spec fn pairs_map(s: Seq<(Seq<char>, Seq<char>)>) -> Map<Seq<char>, Seq<char>>
    decreases s.len(),
{
    if s.len() == 0 {
        Map::empty()
    } else {
        pairs_map(s.drop_last()).insert(s.last().0, s.last().1)
    }
}

/// The tags a media probe reported for one file, keyed by lowercased tag name.
pub struct ProbeTags {
    entries: Vec<(String, String)>,
}

/// The views of the stored pairs, oldest first.
pub open spec fn pair_views(v: Seq<(String, String)>) -> Seq<(Seq<char>, Seq<char>)> {
    v.map_values(|p: (String, String)| (p.0@, p.1@))
}

impl View for ProbeTags {
    type V = Map<Seq<char>, Seq<char>>;

    closed spec fn view(&self) -> Map<Seq<char>, Seq<char>> {
        pairs_map(pair_views(self.entries@))
    }
}

proof fn lemma_pairs_map_found(s: Seq<(Seq<char>, Seq<char>)>, k: Seq<char>, j: int)
    requires
        0 <= j < s.len(),
        s[j].0 == k,
        forall|i: int| j < i < s.len() ==> s[i].0 != k,
    ensures
        map_get(pairs_map(s), k) == Some(s[j].1),
    decreases s.len(),
{
    if j < s.len() - 1 {
        lemma_pairs_map_found(s.drop_last(), k, j);
    }
}

proof fn lemma_pairs_map_missing(s: Seq<(Seq<char>, Seq<char>)>, k: Seq<char>)
    requires
        forall|i: int| 0 <= i < s.len() ==> s[i].0 != k,
    ensures
        map_get(pairs_map(s), k) is None,
    decreases s.len(),
{
    if s.len() > 0 {
        lemma_pairs_map_missing(s.drop_last(), k);
    }
}

impl ProbeTags {
    /// No tags.
    pub fn new() -> (r: ProbeTags)
        ensures
            r@ == Map::<Seq<char>, Seq<char>>::empty(),
    {
        ProbeTags { entries: Vec::new() }
    }

    /// Stores `value` under `key`, replacing what was there.
    pub fn insert(&mut self, key: String, value: String)
        ensures
            final(self)@ == old(self)@.insert(key@, value@),
    {
        let ghost k = key@;
        let ghost v = value@;
        self.entries.push((key, value));
        assert(pair_views(self.entries@).drop_last() =~= pair_views(old(self).entries@));
    }

    /// The value stored under `key`.
    pub fn get(&self, key: &Vec<char>) -> (r: Option<String>)
        ensures
            opt_view(r) == map_get(self@, key@),
    {
        let ghost pv = pair_views(self.entries@);
        let mut j: usize = self.entries.len();
        while j > 0
            invariant
                j <= self.entries.len(),
                pv == pair_views(self.entries@),
                forall|i: int| j <= i < pv.len() ==> pv[i].0 != key@,
            decreases j,
        {
            let k = chars_of(self.entries[j - 1].0.as_str());
            if chars_eq(&k, key) {
                proof {
                    lemma_pairs_map_found(pv, key@, j - 1);
                }
                return Some(self.entries[j - 1].1.clone());
            }
            j = j - 1;
        }
        proof {
            lemma_pairs_map_missing(pv, key@);
        }
        None
    }
}

/// The tag map built from a probe's raw `(name, value)` pairs: names are lowercased, values
/// that are not strings are skipped, and a later pair overrides an earlier one.
pub open spec fn probe_tag_map(pairs: Seq<(Seq<char>, Option<Seq<char>>)>) -> Map<Seq<char>, Seq<char>>
    decreases pairs.len(),
{
    if pairs.len() == 0 {
        Map::empty()
    } else {
        let m = probe_tag_map(pairs.drop_last());
        match pairs.last().1 {
            Some(v) => m.insert(lowercase_spec(pairs.last().0), v),
            None => m,
        }
    }
}

/// The views of raw probe pairs.
pub open spec fn raw_pair_views(v: Seq<(String, Option<String>)>) -> Seq<(Seq<char>, Option<Seq<char>>)> {
    v.map_values(|p: (String, Option<String>)| (p.0@, opt_view(p.1)))
}

impl ProbeTags {
    /// Builds the tag map from a probe's raw pairs (see `probe_tag_map`).
    pub fn from_probe_pairs(pairs: Vec<(String, Option<String>)>) -> (r: ProbeTags)
        ensures
            r@ == probe_tag_map(raw_pair_views(pairs@)),
    {
        let ghost rv = raw_pair_views(pairs@);
        let mut tags = ProbeTags::new();
        let mut i: usize = 0;
        while i < pairs.len()
            invariant
                i <= pairs.len(),
                rv == raw_pair_views(pairs@),
                tags@ == probe_tag_map(rv.take(i as int)),
            decreases pairs.len() - i,
        {
            assert(rv.take(i + 1).drop_last() == rv.take(i as int));
            match &pairs[i].1 {
                Some(v) => {
                    let k = to_lowercase(pairs[i].0.as_str());
                    tags.insert(k, v.clone());
                },
                None => {},
            }
            i = i + 1;
        }
        assert(rv.take(pairs.len() as int) == rv);
        tags
    }
}

// ---------------------------------------------------------------------------
// Tag names
// ---------------------------------------------------------------------------

pub open spec fn key_album_artist() -> Seq<char> {
    seq!['a', 'l', 'b', 'u', 'm', '_', 'a', 'r', 't', 'i', 's', 't']
}

pub open spec fn key_artist() -> Seq<char> {
    seq!['a', 'r', 't', 'i', 's', 't']
}

pub open spec fn key_album() -> Seq<char> {
    seq!['a', 'l', 'b', 'u', 'm']
}

pub open spec fn key_title() -> Seq<char> {
    seq!['t', 'i', 't', 'l', 'e']
}

pub open spec fn key_track() -> Seq<char> {
    seq!['t', 'r', 'a', 'c', 'k']
}

pub open spec fn key_composer() -> Seq<char> {
    seq!['c', 'o', 'm', 'p', 'o', 's', 'e', 'r']
}

fn album_artist_key() -> (r: Vec<char>)
    ensures
        r@ == key_album_artist(),
{
    let r = vec!['a', 'l', 'b', 'u', 'm', '_', 'a', 'r', 't', 'i', 's', 't'];
    assert(r@ =~= key_album_artist());
    r
}

fn artist_key() -> (r: Vec<char>)
    ensures
        r@ == key_artist(),
{
    let r = vec!['a', 'r', 't', 'i', 's', 't'];
    assert(r@ =~= key_artist());
    r
}

fn album_key() -> (r: Vec<char>)
    ensures
        r@ == key_album(),
{
    let r = vec!['a', 'l', 'b', 'u', 'm'];
    assert(r@ =~= key_album());
    r
}

fn title_key() -> (r: Vec<char>)
    ensures
        r@ == key_title(),
{
    let r = vec!['t', 'i', 't', 'l', 'e'];
    assert(r@ =~= key_title());
    r
}

fn track_key() -> (r: Vec<char>)
    ensures
        r@ == key_track(),
{
    let r = vec!['t', 'r', 'a', 'c', 'k'];
    assert(r@ =~= key_track());
    r
}

fn composer_key() -> (r: Vec<char>)
    ensures
        r@ == key_composer(),
{
    let r = vec!['c', 'o', 'm', 'p', 'o', 's', 'e', 'r'];
    assert(r@ =~= key_composer());
    r
}

// ---------------------------------------------------------------------------
// Field rules
// ---------------------------------------------------------------------------

/// The first candidate that is non-empty after trimming, trimmed.
pub open spec fn first_nonempty_spec(c: Seq<Option<Seq<char>>>) -> Option<Seq<char>>
    decreases c.len(),
{
    if c.len() == 0 {
        None
    } else {
        match c[0] {
            Some(s) => if trim(s).len() > 0 {
                Some(trim(s))
            } else {
                first_nonempty_spec(c.drop_first())
            },
            None => first_nonempty_spec(c.drop_first()),
        }
    }
}

/// The views of a list of optional strings.
pub open spec fn opt_views(v: Seq<Option<String>>) -> Seq<Option<Seq<char>>> {
    v.map_values(|o: Option<String>| opt_view(o))
}

/// The first trimmed, non-empty candidate (callers order tags before folder names).
pub fn first_nonempty(cands: &Vec<Option<String>>) -> (r: Option<String>)
    ensures
        opt_view(r) == first_nonempty_spec(opt_views(cands@)),
{
    let ghost cv = opt_views(cands@);
    let mut i: usize = 0;
    assert(cv.skip(0) == cv);
    while i < cands.len()
        invariant
            i <= cands.len(),
            cv == opt_views(cands@),
            first_nonempty_spec(cv) == first_nonempty_spec(cv.skip(i as int)),
        decreases cands.len() - i,
    {
        assert(cv.skip(i as int)[0] == cv[i as int]);
        assert(cv.skip(i as int).drop_first() == cv.skip(i + 1));
        match &cands[i] {
            Some(s) => {
                let t = trim_chars(&chars_of(s.as_str()));
                if t.len() > 0 {
                    return Some(string_of(&t));
                }
            },
            None => {},
        }
        i = i + 1;
    }
    None
}

/// The part of `s` before its first `/` (all of it when there is none).
pub open spec fn before_slash(s: Seq<char>) -> Seq<char> {
    if exists|i: int| 0 <= i < s.len() && s[i] == '/' {
        s.subrange(
            0,
            choose|i: int| 0 <= i < s.len() && s[i] == '/' && forall|j: int| 0 <= j < i ==> s[j] != '/',
        )
    } else {
        s
    }
}

/// The track number of a `track` tag such as `3` or `3/12`.
pub open spec fn track_no_spec(raw: Option<Seq<char>>) -> Option<u32> {
    match raw {
        Some(s) => match parse_unsigned(trim(before_slash(s)), u32::MAX as nat) {
            Some(n) => Some(n as u32),
            None => None,
        },
        None => None,
    }
}

/// Parses the track number from a `track` tag: the part before any `/`, trimmed.
pub fn parse_track_no(raw: Option<String>) -> (r: Option<u32>)
    ensures
        r == track_no_spec(opt_view(raw)),
{
    match raw {
        Some(s) => {
            let c = chars_of(s.as_str());
            let mut i: usize = 0;
            while i < c.len() && c[i] != '/'
                invariant
                    i <= c.len(),
                    forall|j: int| 0 <= j < i ==> c@[j] != '/',
                decreases c.len() - i,
            {
                i = i + 1;
            }
            let mut p: Vec<char> = Vec::new();
            let mut k: usize = 0;
            while k < i
                invariant
                    k <= i <= c.len(),
                    p@ == c@.subrange(0, k as int),
                decreases i - k,
            {
                p.push(c[k]);
                k = k + 1;
                assert(c@.subrange(0, k as int) == c@.subrange(0, k - 1).push(c@[k - 1]));
            }
            proof {
                if i < c.len() {
                    let w = choose|w: int|
                        0 <= w < c@.len() && c@[w] == '/' && forall|j: int| 0 <= j < w ==> c@[j] != '/';
                    assert(c@[i as int] == '/');
                    if w < i {
                    } else if w > i {
                    }
                    assert(before_slash(c@) == p@);
                } else {
                    assert(c@.subrange(0, i as int) == c@);
                }
            }
            let t = trim_chars(&p);
            match parse_u32(&t) {
                Some(n) => Some(n),
                None => None,
            }
        },
        None => None,
    }
}

/// Path components joined with `/`.
pub open spec fn join_path(parts: Seq<Seq<char>>) -> Seq<char>
    decreases parts.len(),
{
    if parts.len() == 0 {
        Seq::empty()
    } else if parts.len() == 1 {
        parts[0]
    } else {
        join_path(parts.drop_last()) + seq!['/'] + parts.last()
    }
}

/// The forward-slash relative URL of a file, e.g. `persona/release/song.mp3`.
pub fn join_parts(parts: &Vec<String>) -> (r: String)
    ensures
        r@ == join_path(views(parts@)),
{
    let ghost pv = views(parts@);
    let mut out: Vec<char> = Vec::new();
    let mut i: usize = 0;
    while i < parts.len()
        invariant
            i <= parts.len(),
            pv == views(parts@),
            out@ == join_path(pv.take(i as int)),
        decreases parts.len() - i,
    {
        let c = chars_of(parts[i].as_str());
        assert(pv.take(i + 1).drop_last() == pv.take(i as int));
        if i > 0 {
            out.push('/');
        }
        append_chars(&mut out, &c);
        i = i + 1;
    }
    assert(pv.take(parts.len() as int) == pv);
    string_of(&out)
}

// ---------------------------------------------------------------------------
// Tracks
// ---------------------------------------------------------------------------

/// Release kind from the number of tracks that share a release.
#[derive(PartialEq, Eq, Structural, Clone, Copy, Debug)]
pub enum ReleaseKind {
    Single,
    Ep,
    Album,
}

/// One entry of the catalog.
pub struct Track {
    pub title: String,
    /// Relative URL path with forward slashes.
    pub filename: String,
    pub duration: Option<String>,
    pub persona: Option<String>,
    pub release: Option<String>,
    pub media_kind: MediaKind,
    pub track_no: Option<u32>,
    pub composer: Option<String>,
    pub release_kind: Option<ReleaseKind>,
    pub featured: bool,
    /// Relative path of the extracted cover sidecar, when the file carries art.
    pub cover: Option<String>,
    /// Genre/version label of a group "versions" release.
    pub version_label: Option<String>,
    /// The member who performed the track, when it differs from the act.
    pub performer: Option<String>,
}

/// The mathematical view of a track.
pub struct TrackView {
    pub title: Seq<char>,
    pub filename: Seq<char>,
    pub duration: Option<Seq<char>>,
    pub persona: Option<Seq<char>>,
    pub release: Option<Seq<char>>,
    pub media_kind: MediaKind,
    pub track_no: Option<u32>,
    pub composer: Option<Seq<char>>,
    pub release_kind: Option<ReleaseKind>,
    pub featured: bool,
    pub cover: Option<Seq<char>>,
    pub version_label: Option<Seq<char>>,
    pub performer: Option<Seq<char>>,
}

impl View for Track {
    type V = TrackView;

    open spec fn view(&self) -> TrackView {
        TrackView {
            title: self.title@,
            filename: self.filename@,
            duration: opt_view(self.duration),
            persona: opt_view(self.persona),
            release: opt_view(self.release),
            media_kind: self.media_kind,
            track_no: self.track_no,
            composer: opt_view(self.composer),
            release_kind: self.release_kind,
            featured: self.featured,
            cover: opt_view(self.cover),
            version_label: opt_view(self.version_label),
            performer: opt_view(self.performer),
        }
    }
}

/// What is known of one media file before it enters the catalog.
pub struct ScannedFile {
    /// Path components relative to the library root; the last one is the file name.
    pub parts: Vec<String>,
    /// Tags reported by the media probe.
    pub tags: ProbeTags,
    /// Duration as `m:ss`, when the probe reported one.
    pub duration: Option<String>,
    /// Extracted cover sidecar, when extraction succeeded.
    pub cover: Option<String>,
    /// Version label read from the file's tag.
    pub version_label: Option<String>,
}

/// The mathematical view of a scanned file.
pub struct ScannedView {
    pub parts: Seq<Seq<char>>,
    pub tags: Map<Seq<char>, Seq<char>>,
    pub duration: Option<Seq<char>>,
    pub cover: Option<Seq<char>>,
    pub version_label: Option<Seq<char>>,
}

impl View for ScannedFile {
    type V = ScannedView;

    open spec fn view(&self) -> ScannedView {
        ScannedView {
            parts: views(self.parts@),
            tags: self.tags@,
            duration: opt_view(self.duration),
            cover: opt_view(self.cover),
            version_label: opt_view(self.version_label),
        }
    }
}

/// The file name: the last path component.
pub open spec fn file_name(parts: Seq<Seq<char>>) -> Seq<char> {
    if parts.len() == 0 {
        Seq::empty()
    } else {
        parts.last()
    }
}

/// The `i`-th folder above the file, if there is one.
pub open spec fn folder(parts: Seq<Seq<char>>, i: int) -> Option<Seq<char>> {
    if 0 <= i < parts.len() - 1 {
        Some(parts[i])
    } else {
        None
    }
}

/// Persona: album_artist, then artist, then the first folder.
pub open spec fn persona_spec(tags: Map<Seq<char>, Seq<char>>, parts: Seq<Seq<char>>) -> Option<Seq<char>> {
    first_nonempty_spec(
        seq![map_get(tags, key_album_artist()), map_get(tags, key_artist()), folder(parts, 0)],
    )
}

/// Release: album, then the second folder.
pub open spec fn release_spec(tags: Map<Seq<char>, Seq<char>>, parts: Seq<Seq<char>>) -> Option<Seq<char>> {
    first_nonempty_spec(seq![map_get(tags, key_album()), folder(parts, 1)])
}

/// Title: the title tag, else the file stem.
pub open spec fn title_spec(tags: Map<Seq<char>, Seq<char>>, parts: Seq<Seq<char>>) -> Seq<char> {
    match first_nonempty_spec(seq![map_get(tags, key_title())]) {
        Some(t) => t,
        None => file_stem(file_name(parts)),
    }
}

/// Performer: the track artist when the act (album_artist) differs from it.
pub open spec fn performer_spec(tags: Map<Seq<char>, Seq<char>>) -> Option<Seq<char>> {
    match (map_get(tags, key_album_artist()), map_get(tags, key_artist())) {
        (Some(act), Some(art)) => if act != art {
            Some(art)
        } else {
            None
        },
        _ => None,
    }
}

/// The catalog entry for one scanned file, before release kinds and the featured flag.
pub open spec fn base_track(f: ScannedView) -> TrackView {
    let audio = media_kind_spec(file_name(f.parts)) == MediaKind::Audio;
    TrackView {
        title: title_spec(f.tags, f.parts),
        filename: join_path(f.parts),
        duration: f.duration,
        persona: persona_spec(f.tags, f.parts),
        release: release_spec(f.tags, f.parts),
        media_kind: media_kind_spec(file_name(f.parts)),
        track_no: track_no_spec(map_get(f.tags, key_track())),
        composer: first_nonempty_spec(seq![map_get(f.tags, key_composer())]),
        release_kind: None,
        featured: false,
        cover: if audio {
            f.cover
        } else {
            None
        },
        version_label: if audio {
            f.version_label
        } else {
            None
        },
        performer: performer_spec(f.tags),
    }
}

fn folder_of(parts: &Vec<String>, i: usize) -> (r: Option<String>)
    ensures
        opt_view(r) == folder(views(parts@), i as int),
{
    if parts.len() > 0 && i < parts.len() - 1 {
        Some(parts[i].clone())
    } else {
        None
    }
}

/// The catalog entry for one scanned file, before release kinds and the featured flag.
pub fn track_from_scan(f: ScannedFile) -> (t: Track)
    ensures
        t@ == base_track(f@),
{
    let ghost fv = f@;
    let name: String = if f.parts.len() == 0 {
        String::new()
    } else {
        f.parts[f.parts.len() - 1].clone()
    };
    assert(name@ == file_name(fv.parts));
    let album_artist = f.tags.get(&album_artist_key());
    let artist = f.tags.get(&artist_key());
    let album = f.tags.get(&album_key());
    let title_tag = f.tags.get(&title_key());
    let track_tag = f.tags.get(&track_key());
    let composer_tag = f.tags.get(&composer_key());

    let performer = match (&album_artist, &artist) {
        (Some(act), Some(art)) => {
            if !act.eq(art) {
                Some(art.clone())
            } else {
                None
            }
        },
        _ => None,
    };
    let persona_cands = vec![album_artist, artist, folder_of(&f.parts, 0)];
    assert(opt_views(persona_cands@) =~= seq![
        map_get(fv.tags, key_album_artist()),
        map_get(fv.tags, key_artist()),
        folder(fv.parts, 0),
    ]);
    let persona = first_nonempty(&persona_cands);
    let release_cands = vec![album, folder_of(&f.parts, 1)];
    assert(opt_views(release_cands@) =~= seq![map_get(fv.tags, key_album()), folder(fv.parts, 1)]);
    let release = first_nonempty(&release_cands);
    let title_cands = vec![title_tag];
    assert(opt_views(title_cands@) =~= seq![map_get(fv.tags, key_title())]);
    let title = match first_nonempty(&title_cands) {
        Some(t) => t,
        None => string_of(&stem_of(&chars_of(name.as_str()))),
    };
    assert(title@ == title_spec(fv.tags, fv.parts));
    let composer_cands = vec![composer_tag];
    assert(opt_views(composer_cands@) =~= seq![map_get(fv.tags, key_composer())]);
    let composer = first_nonempty(&composer_cands);
    let media_kind = media_kind_of(name.as_str());
    let audio = media_kind == MediaKind::Audio;
    let filename = join_parts(&f.parts);
    let ScannedFile { parts: _, tags: _, duration, cover, version_label } = f;
    let t = Track {
        title,
        filename,
        duration,
        persona,
        release,
        media_kind,
        track_no: parse_track_no(track_tag),
        composer,
        release_kind: None,
        featured: false,
        cover: if audio {
            cover
        } else {
            None
        },
        version_label: if audio {
            version_label
        } else {
            None
        },
        performer,
    };
    assert(t@.performer == base_track(fv).performer);
    assert(t@.persona == base_track(fv).persona);
    assert(t@.track_no == base_track(fv).track_no);
    assert(t@.cover == base_track(fv).cover);
    assert(t@ =~= base_track(fv));
    t
}

} // verus!

verus! {

// ---------------------------------------------------------------------------
// Release kinds and the featured track
// ---------------------------------------------------------------------------

/// The views of a list of tracks.
pub open spec fn track_views(v: Seq<Track>) -> Seq<TrackView> {
    v.map_values(|t: Track| t@)
}

/// The grouping key of a track with a release: the (persona, release) pair.
pub open spec fn release_key(t: TrackView) -> Option<(Option<Seq<char>>, Seq<char>)> {
    match t.release {
        Some(r) => Some((t.persona, r)),
        None => None,
    }
}

/// How many tracks carry the grouping key `k`.
pub open spec fn key_count(ts: Seq<TrackView>, k: (Option<Seq<char>>, Seq<char>)) -> nat
    decreases ts.len(),
{
    if ts.len() == 0 {
        0
    } else {
        key_count(ts.drop_last(), k) + if release_key(ts.last()) == Some(k) {
            1nat
        } else {
            0nat
        }
    }
}

/// Single for one track, EP for up to five, album beyond.
pub open spec fn kind_for(n: nat) -> ReleaseKind {
    if n == 1 {
        ReleaseKind::Single
    } else if n <= 5 {
        ReleaseKind::Ep
    } else {
        ReleaseKind::Album
    }
}

/// Index of the first audio track.
pub open spec fn first_audio(ts: Seq<TrackView>) -> Option<int>
    decreases ts.len(),
{
    if ts.len() == 0 {
        None
    } else if ts[0].media_kind == MediaKind::Audio {
        Some(0)
    } else {
        match first_audio(ts.drop_first()) {
            Some(i) => Some(i + 1),
            None => None,
        }
    }
}

/// Track `i` with its release kind from the track count of its group, and featured when it
/// is the first audio track.
pub open spec fn finish_track(ts: Seq<TrackView>, i: int) -> TrackView {
    let t = ts[i];
    TrackView {
        title: t.title,
        filename: t.filename,
        duration: t.duration,
        persona: t.persona,
        release: t.release,
        media_kind: t.media_kind,
        track_no: t.track_no,
        composer: t.composer,
        release_kind: match release_key(t) {
            Some(k) => Some(kind_for(key_count(ts, k))),
            None => t.release_kind,
        },
        featured: t.featured || first_audio(ts) == Some(i),
        cover: t.cover,
        version_label: t.version_label,
        performer: t.performer,
    }
}

/// Every track finished.
pub open spec fn finish_spec(ts: Seq<TrackView>) -> Seq<TrackView> {
    Seq::new(ts.len(), |i: int| finish_track(ts, i))
}

pub proof fn lemma_first_audio(ts: Seq<TrackView>)
    ensures
        first_audio(ts) matches Some(i) ==> 0 <= i < ts.len() && ts[i].media_kind
            == MediaKind::Audio && forall|j: int| 0 <= j < i ==> ts[j].media_kind != MediaKind::Audio,
        first_audio(ts) is None ==> forall|j: int| 0 <= j < ts.len() ==> ts[j].media_kind != MediaKind::Audio,
    decreases ts.len(),
{
    if ts.len() > 0 {
        lemma_first_audio(ts.drop_first());
        assert forall|j: int| 1 <= j < ts.len() implies ts[j] == ts.drop_first()[j - 1] by {}
    }
}

fn opt_string_eq(a: &Option<String>, b: &Option<String>) -> (r: bool)
    ensures
        r == (opt_view(*a) == opt_view(*b)),
{
    match (a, b) {
        (Some(x), Some(y)) => x.eq(y),
        (None, None) => true,
        _ => false,
    }
}

/// Whether `a` has a release and shares its (persona, release) key with `b`.
fn same_group(a: &Track, b: &Track) -> (r: bool)
    ensures
        r == (release_key(a@) is Some && release_key(a@) == release_key(b@)),
{
    match (&a.release, &b.release) {
        (Some(x), Some(y)) => x.eq(y) && opt_string_eq(&a.persona, &b.persona),
        _ => false,
    }
}

/// The catalog with release kinds set from the per-group track counts and the first audio
/// track marked featured.
pub fn finish_catalog(tracks: Vec<Track>) -> (r: Vec<Track>)
    ensures
        track_views(r@) == finish_spec(track_views(tracks@)),
        r.len() == tracks.len(),
{
    let ghost ts = track_views(tracks@);
    let n = tracks.len();
    // Track counts per group.
    let mut counts: Vec<usize> = Vec::new();
    let mut i: usize = 0;
    while i < n
        invariant
            i <= n == tracks.len(),
            ts == track_views(tracks@),
            ts.len() == n,
            counts.len() == i,
            forall|k: int|
                0 <= k < i ==> (#[trigger] release_key(ts[k]) matches Some(key) ==> counts@[k]
                    == key_count(ts, key)),
        decreases n - i,
    {
        let mut c: usize = 0;
        if tracks[i].release.is_some() {
            let ghost kv = release_key(ts[i as int]).unwrap();
            let mut j: usize = 0;
            while j < n
                invariant
                    j <= n == tracks.len(),
                    i < n,
                    ts == track_views(tracks@),
                    ts.len() == n,
                    release_key(ts[i as int]) == Some(kv),
                    c == key_count(ts.take(j as int), kv),
                    c <= j,
                decreases n - j,
            {
                assert(ts.take(j + 1).drop_last() == ts.take(j as int));
                assert(ts.take(j + 1).last() == ts[j as int]);
                if same_group(&tracks[j], &tracks[i]) {
                    c = c + 1;
                }
                j = j + 1;
            }
            assert(ts.take(n as int) == ts);
        }
        counts.push(c);
        i = i + 1;
    }
    // First audio track.
    let mut first: usize = n;
    let mut i: usize = 0;
    while i < n
        invariant
            i <= n == tracks.len(),
            ts == track_views(tracks@),
            first <= n,
            first == n ==> forall|k: int| 0 <= k < i ==> ts[k].media_kind != MediaKind::Audio,
            first < n ==> first < i && ts[first as int].media_kind == MediaKind::Audio && forall|
                k: int,
            | 0 <= k < first ==> ts[k].media_kind != MediaKind::Audio,
        decreases n - i,
    {
        if first == n && tracks[i].media_kind == MediaKind::Audio {
            first = i;
        }
        i = i + 1;
    }
    proof {
        lemma_first_audio(ts);
        if first < n {
            assert(first_audio(ts) == Some(first as int));
        } else {
            assert(first_audio(ts) is None);
        }
    }
    // Assemble.
    let mut tracks = tracks;
    let mut out: Vec<Track> = Vec::new();
    let mut i: usize = 0;
    while i < n
        invariant
            i <= n,
            ts.len() == n,
            tracks.len() == n - i,
            track_views(tracks@) == ts.skip(i as int),
            counts.len() == n,
            forall|k: int|
                0 <= k < n ==> (#[trigger] release_key(ts[k]) matches Some(key) ==> counts@[k]
                    == key_count(ts, key)),
            first < n ==> first_audio(ts) == Some(first as int),
            first >= n ==> first_audio(ts) is None,
            out.len() == i,
            forall|k: int| 0 <= k < i ==> (#[trigger] out@[k])@ == finish_track(ts, k),
        decreases n - i,
    {
        let ghost before = tracks@;
        let mut t = tracks.remove(0);
        assert(t@ == ts[i as int]) by {
            assert(track_views(before)[0] == ts.skip(i as int)[0]);
        }
        assert(track_views(tracks@) == ts.skip(i + 1)) by {
            assert(tracks@ == before.subrange(1, before.len() as int));
            assert forall|k: int| 0 <= k < tracks@.len() implies track_views(tracks@)[k] == ts.skip(
                i + 1,
            )[k] by {
                assert(track_views(tracks@)[k] == before[k + 1]@);
                assert(track_views(before)[k + 1] == ts.skip(i as int)[k + 1]);
            }
            assert(track_views(tracks@) =~= ts.skip(i + 1));
        }
        if t.release.is_some() {
            let c = counts[i];
            t.release_kind = Some(
                if c == 1 {
                    ReleaseKind::Single
                } else if c <= 5 {
                    ReleaseKind::Ep
                } else {
                    ReleaseKind::Album
                },
            );
        }
        if i == first {
            t.featured = true;
        }
        out.push(t);
        proof {
            assert(out@[i as int]@ =~= finish_track(ts, i as int));
        }
        i = i + 1;
    }
    assert(track_views(out@) =~= finish_spec(ts));
    out
}

} // verus!

verus! {

// ---------------------------------------------------------------------------
// The whole catalog
// ---------------------------------------------------------------------------

/// Files in path order (as `Path`'s `Ord` sorts them).
pub open spec fn file_less() -> spec_fn(ScannedFile, ScannedFile) -> bool {
    |a: ScannedFile, b: ScannedFile| paths_lt(a@.parts, b@.parts)
}

/// The catalog of a set of scanned files: sorted by path, one entry per file, then release
/// kinds and the featured track.
pub open spec fn catalog_spec(files: Seq<ScannedFile>) -> Seq<TrackView> {
    finish_spec(insertion_sort(files, file_less()).map_values(|f: ScannedFile| base_track(f@)))
}

/// The scanned files in path order; files that tie keep their order.
pub fn sort_files(files: Vec<ScannedFile>) -> (r: Vec<ScannedFile>)
    ensures
        r@ == insertion_sort(files@, file_less()),
{
    let ghost orig = files@;
    let ghost less = file_less();
    let n = files.len();
    let mut input = files;
    let mut out: Vec<ScannedFile> = Vec::new();
    let mut i: usize = 0;
    while i < n
        invariant
            i <= n == orig.len(),
            less == file_less(),
            input@ == orig.skip(i as int),
            out@ == insertion_sort(orig.take(i as int), less),
        decreases n - i,
    {
        let x = input.remove(0);
        assert(x == orig[i as int]);
        assert(input@ =~= orig.skip(i + 1));
        let mut p: usize = 0;
        while p < out.len() && !paths_less(&x.parts, &out[p].parts)
            invariant
                p <= out.len(),
                forall|k: int| 0 <= k < p ==> !less(x, #[trigger] out@[k]),
                less == file_less(),
            decreases out.len() - p,
        {
            p = p + 1;
        }
        proof {
            lemma_sorted_insert_at(out@, x, less, p as int);
            assert(orig.take(i + 1).drop_last() == orig.take(i as int));
        }
        out.insert(p, x);
        i = i + 1;
    }
    assert(orig.take(n as int) == orig);
    out
}

/// Builds the catalog from the scanned media files: one entry per file, in path order, with
/// tags winning over folder names, release kinds from the track count of each
/// persona/release group, and the first audio track featured.
pub fn build_catalog(files: Vec<ScannedFile>) -> (r: Vec<Track>)
    ensures
        track_views(r@) == catalog_spec(files@),
        r.len() == files.len(),
{
    proof {
        lemma_insertion_sort_multiset(files@, file_less());
    }
    let ghost sorted_spec = insertion_sort(files@, file_less());
    let mut sorted = sort_files(files);
    let n = sorted.len();
    let ghost s0 = sorted@;
    let mut base: Vec<Track> = Vec::new();
    let mut i: usize = 0;
    while i < n
        invariant
            i <= n == s0.len(),
            sorted@ == s0.skip(i as int),
            base.len() == i,
            forall|k: int| 0 <= k < i ==> (#[trigger] base@[k])@ == base_track(s0[k]@),
        decreases n - i,
    {
        let f = sorted.remove(0);
        assert(f == s0[i as int]);
        assert(sorted@ =~= s0.skip(i + 1));
        base.push(track_from_scan(f));
        i = i + 1;
    }
    assert(track_views(base@) =~= s0.map_values(|f: ScannedFile| base_track(f@)));
    finish_catalog(base)
}

// ---------------------------------------------------------------------------
// Laws of the catalog
// ---------------------------------------------------------------------------

/// Path order on scanned files is a strict order.
pub proof fn lemma_file_less_strict()
    ensures
        is_strict_order(file_less()),
{
    assert forall|a: ScannedFile| !#[trigger] file_less()(a, a) by {
        lemma_paths_lt_irreflexive(a@.parts);
    }
    assert forall|a: ScannedFile, b: ScannedFile, c: ScannedFile|
        #[trigger] file_less()(a, b) && #[trigger] file_less()(b, c) implies file_less()(a, c) by {
        lemma_paths_lt_transitive(a@.parts, b@.parts, c@.parts);
    }
}

/// The catalog holds one entry per scanned file, taken in path order: the files behind the
/// entries are exactly the scanned files (as a multiset), sorted by path.
pub proof fn law_catalog_files_in_path_order(files: Seq<ScannedFile>)
    ensures
        catalog_spec(files).len() == files.len(),
        insertion_sort(files, file_less()).to_multiset() == files.to_multiset(),
        is_sorted_by(insertion_sort(files, file_less()), file_less()),
        forall|i: int|
            0 <= i < files.len() ==> (#[trigger] catalog_spec(files)[i]).filename == join_path(
                insertion_sort(files, file_less())[i]@.parts,
            ),
{
    lemma_insertion_sort_multiset(files, file_less());
    lemma_file_less_strict();
    lemma_insertion_sort_sorted(files, file_less());
}

/// Exactly one track is featured when the catalog holds audio: the first audio track.
/// Video tracks are never featured, and a catalog without audio features nothing.
pub proof fn law_catalog_featured(files: Seq<ScannedFile>)
    ensures
        forall|i: int|
            0 <= i < catalog_spec(files).len() ==> ((#[trigger] catalog_spec(files)[i]).featured
                <==> (catalog_spec(files)[i].media_kind == MediaKind::Audio && forall|j: int|
                0 <= j < i ==> catalog_spec(files)[j].media_kind != MediaKind::Audio)),
{
    let bs = insertion_sort(files, file_less()).map_values(|f: ScannedFile| base_track(f@));
    let c = catalog_spec(files);
    lemma_insertion_sort_multiset(files, file_less());
    lemma_first_audio(bs);
    assert forall|i: int| 0 <= i < c.len() implies ((#[trigger] c[i]).featured <==> (
    c[i].media_kind == MediaKind::Audio && forall|j: int|
        0 <= j < i ==> c[j].media_kind != MediaKind::Audio)) by {
        assert(c[i] == finish_track(bs, i));
        assert(!bs[i].featured);
        assert forall|j: int| 0 <= j < c.len() implies c[j].media_kind == bs[j].media_kind by {
            assert(c[j] == finish_track(bs, j));
        }
        if c[i].media_kind == MediaKind::Audio && forall|j: int|
            0 <= j < i ==> c[j].media_kind != MediaKind::Audio {
            match first_audio(bs) {
                Some(f) => {
                    if f < i {
                        assert(c[f].media_kind == bs[f].media_kind);
                    }
                    if f > i {
                        assert(bs[i].media_kind == MediaKind::Audio);
                    }
                },
                None => {
                    assert(bs[i].media_kind == MediaKind::Audio);
                },
            }
        }
    }
}

/// Every track with a release carries the kind that the number of catalog tracks sharing
/// its (persona, release) pair calls for (single, EP up to five, album beyond); tracks without
/// a release carry no kind.
pub proof fn law_catalog_release_kinds(files: Seq<ScannedFile>)
    ensures
        forall|i: int|
            0 <= i < catalog_spec(files).len() ==> (#[trigger] catalog_spec(files)[i]).release_kind
                == match release_key(catalog_spec(files)[i]) {
                Some(k) => Some(kind_for(key_count(catalog_spec(files), k))),
                None => None,
            },
{
    let bs = insertion_sort(files, file_less()).map_values(|f: ScannedFile| base_track(f@));
    let c = catalog_spec(files);
    lemma_insertion_sort_multiset(files, file_less());
    assert forall|j: int| 0 <= j < c.len() implies release_key(#[trigger] c[j]) == release_key(
        bs[j],
    ) by {
        assert(c[j] == finish_track(bs, j));
    }
    assert forall|k: (Option<Seq<char>>, Seq<char>)| key_count(c, k) == key_count(bs, k) by {
        lemma_key_count_same(c, bs, k);
    }
    assert forall|i: int| 0 <= i < c.len() implies (#[trigger] c[i]).release_kind == match release_key(
        c[i],
    ) {
        Some(k) => Some(kind_for(key_count(c, k))),
        None => None,
    } by {
        assert(c[i] == finish_track(bs, i));
        assert(bs[i].release_kind is None);
    }
}

/// Whether an optional tag or folder name holds text that is not blank.
pub open spec fn nonblank(o: Option<Seq<char>>) -> bool {
    o matches Some(s) && trim(s).len() > 0
}

proof fn lemma_first_nonempty_three(a: Option<Seq<char>>, b: Option<Seq<char>>, c: Option<Seq<char>>)
    ensures
        nonblank(a) ==> first_nonempty_spec(seq![a, b, c]) == Some(trim(a.unwrap())),
        !nonblank(a) && nonblank(b) ==> first_nonempty_spec(seq![a, b, c]) == Some(trim(b.unwrap())),
        !nonblank(a) && !nonblank(b) && nonblank(c) ==> first_nonempty_spec(seq![a, b, c]) == Some(
            trim(c.unwrap()),
        ),
        !nonblank(a) && !nonblank(b) && !nonblank(c) ==> first_nonempty_spec(seq![a, b, c]) is None,
{
    assert(seq![a, b, c].drop_first() =~= seq![b, c]);
    assert(seq![b, c].drop_first() =~= seq![c]);
    assert(seq![c].drop_first() =~= Seq::<Option<Seq<char>>>::empty());
    reveal_with_fuel(first_nonempty_spec, 4);
}

proof fn lemma_first_nonempty_two(a: Option<Seq<char>>, b: Option<Seq<char>>)
    ensures
        nonblank(a) ==> first_nonempty_spec(seq![a, b]) == Some(trim(a.unwrap())),
        !nonblank(a) && nonblank(b) ==> first_nonempty_spec(seq![a, b]) == Some(trim(b.unwrap())),
        !nonblank(a) && !nonblank(b) ==> first_nonempty_spec(seq![a, b]) is None,
{
    assert(seq![a, b].drop_first() =~= seq![b]);
    assert(seq![b].drop_first() =~= Seq::<Option<Seq<char>>>::empty());
    reveal_with_fuel(first_nonempty_spec, 3);
}

proof fn lemma_first_nonempty_one(a: Option<Seq<char>>)
    ensures
        nonblank(a) ==> first_nonempty_spec(seq![a]) == Some(trim(a.unwrap())),
        !nonblank(a) ==> first_nonempty_spec(seq![a]) is None,
{
    assert(seq![a].drop_first() =~= Seq::<Option<Seq<char>>>::empty());
    reveal_with_fuel(first_nonempty_spec, 2);
}

/// Embedded tags win over folder names. The persona is the trimmed `album_artist` tag when
/// it is not blank, else the trimmed `artist` tag when that is not blank, and only when
/// neither tag holds text the trimmed first folder (when the file sits in a folder whose
/// name is not blank). The release is the trimmed `album` tag, else the second folder; the
/// title is the trimmed `title` tag, else the file name without its extension.
pub proof fn law_tags_win_over_folders(f: ScannedView)
    ensures
        nonblank(map_get(f.tags, key_album_artist())) ==> base_track(f).persona == Some(
            trim(f.tags[key_album_artist()]),
        ),
        !nonblank(map_get(f.tags, key_album_artist())) && nonblank(map_get(f.tags, key_artist()))
            ==> base_track(f).persona == Some(trim(f.tags[key_artist()])),
        !nonblank(map_get(f.tags, key_album_artist())) && !nonblank(map_get(f.tags, key_artist()))
            ==> base_track(f).persona == (if f.parts.len() >= 2 && trim(f.parts[0]).len() > 0 {
            Some(trim(f.parts[0]))
        } else {
            None
        }),
        nonblank(map_get(f.tags, key_album())) ==> base_track(f).release == Some(
            trim(f.tags[key_album()]),
        ),
        !nonblank(map_get(f.tags, key_album())) ==> base_track(f).release == (if f.parts.len() >= 3
            && trim(f.parts[1]).len() > 0 {
            Some(trim(f.parts[1]))
        } else {
            None
        }),
        nonblank(map_get(f.tags, key_title())) ==> base_track(f).title == trim(f.tags[key_title()]),
        !nonblank(map_get(f.tags, key_title())) ==> base_track(f).title == file_stem(
            file_name(f.parts),
        ),
{
    lemma_first_nonempty_three(
        map_get(f.tags, key_album_artist()),
        map_get(f.tags, key_artist()),
        folder(f.parts, 0),
    );
    lemma_first_nonempty_two(map_get(f.tags, key_album()), folder(f.parts, 1));
    lemma_first_nonempty_one(map_get(f.tags, key_title()));
}

/// Each catalog entry keeps the title, path, persona, release, media kind, track number,
/// composer and performer of the file it was made from, the files taken in path order.
pub proof fn law_catalog_entries_from_files(files: Seq<ScannedFile>)
    ensures
        forall|i: int|
            0 <= i < files.len() ==> {
                let t = #[trigger] catalog_spec(files)[i];
                let b = base_track(insertion_sort(files, file_less())[i]@);
                &&& t.title == b.title
                &&& t.filename == b.filename
                &&& t.persona == b.persona
                &&& t.release == b.release
                &&& t.media_kind == b.media_kind
                &&& t.track_no == b.track_no
                &&& t.composer == b.composer
                &&& t.performer == b.performer
            },
{
    lemma_insertion_sort_multiset(files, file_less());
    let bs = insertion_sort(files, file_less()).map_values(|f: ScannedFile| base_track(f@));
    assert forall|i: int| 0 <= i < files.len() implies {
        let t = #[trigger] catalog_spec(files)[i];
        let b = base_track(insertion_sort(files, file_less())[i]@);
        &&& t.title == b.title
        &&& t.filename == b.filename
        &&& t.persona == b.persona
        &&& t.release == b.release
        &&& t.media_kind == b.media_kind
        &&& t.track_no == b.track_no
        &&& t.composer == b.composer
        &&& t.performer == b.performer
    } by {
        assert(catalog_spec(files)[i] == finish_track(bs, i));
    }
}

/// A track with a release whose (persona, release) group holds `n` tracks is a single when
/// `n` is 1, an EP when `n` is 2 to 5 and an album when `n` is above 5; a track without a
/// release keeps the kind it had.
pub proof fn law_release_kind_bounds(ts: Seq<TrackView>)
    ensures
        finish_spec(ts).len() == ts.len(),
        forall|i: int|
            0 <= i < ts.len() ==> match release_key(ts[i]) {
                Some(k) => {
                    &&& key_count(ts, k) == 1 ==> (#[trigger] finish_spec(ts)[i]).release_kind
                        == Some(ReleaseKind::Single)
                    &&& 2 <= key_count(ts, k) <= 5 ==> finish_spec(ts)[i].release_kind == Some(
                        ReleaseKind::Ep,
                    )
                    &&& key_count(ts, k) > 5 ==> finish_spec(ts)[i].release_kind == Some(
                        ReleaseKind::Album,
                    )
                },
                None => finish_spec(ts)[i].release_kind == ts[i].release_kind,
            },
{
}

/// In the catalog, a track with a release whose (persona, release) group holds `n` catalog
/// tracks is a single for `n` = 1, an EP for 2 <= `n` <= 5 and an album for `n` > 5.
pub proof fn law_catalog_release_kind_bounds(files: Seq<ScannedFile>)
    ensures
        forall|i: int|
            0 <= i < catalog_spec(files).len() ==> (#[trigger] catalog_spec(files)[i]).release
                is Some ==> {
                let n = key_count(catalog_spec(files), release_key(catalog_spec(files)[i]).unwrap());
                &&& n == 1 ==> catalog_spec(files)[i].release_kind == Some(ReleaseKind::Single)
                &&& 2 <= n <= 5 ==> catalog_spec(files)[i].release_kind == Some(ReleaseKind::Ep)
                &&& n > 5 ==> catalog_spec(files)[i].release_kind == Some(ReleaseKind::Album)
            },
{
    law_catalog_release_kinds(files);
}

proof fn lemma_key_count_same(a: Seq<TrackView>, b: Seq<TrackView>, k: (Option<Seq<char>>, Seq<char>))
    requires
        a.len() == b.len(),
        forall|j: int| 0 <= j < a.len() ==> release_key(#[trigger] a[j]) == release_key(b[j]),
    ensures
        key_count(a, k) == key_count(b, k),
    decreases a.len(),
{
    if a.len() > 0 {
        assert forall|j: int| 0 <= j < a.len() - 1 implies release_key(#[trigger] a.drop_last()[j])
            == release_key(b.drop_last()[j]) by {
            assert(a.drop_last()[j] == a[j]);
            assert(b.drop_last()[j] == b[j]);
        }
        lemma_key_count_same(a.drop_last(), b.drop_last(), k);
        assert(release_key(a.last()) == release_key(b.last()));
    }
}

} // verus!

verus! {

// ---------------------------------------------------------------------------
// Scan and serve outcomes
// ---------------------------------------------------------------------------

pub open spec fn not_a_folder_message() -> Seq<char> {
    "Not a folder"@
}

pub open spec fn no_media_found_message() -> Seq<char> {
    "No audio/video files in that folder"@
}

pub open spec fn folder_not_found_message() -> Seq<char> {
    "Music folder not found"@
}

pub open spec fn nothing_to_serve_message() -> Seq<char> {
    "No tracks to serve"@
}

/// The answer to a folder scan: the catalog, unless the path is not a folder or holds no
/// media.
pub fn scan_outcome(is_dir: bool, tracks: Vec<Track>) -> (r: Result<Vec<Track>, String>)
    ensures
        !is_dir ==> (r matches Err(e) && e@ == not_a_folder_message()),
        is_dir && tracks.len() == 0 ==> (r matches Err(e) && e@ == no_media_found_message()),
        is_dir && tracks.len() > 0 ==> (r matches Ok(t) && t@ == tracks@),
{
    if !is_dir {
        return Err(String::from_str("Not a folder"));
    }
    if tracks.len() == 0 {
        return Err(String::from_str("No audio/video files in that folder"));
    }
    Ok(tracks)
}

/// Whether a catalog can be published: not when the folder is missing or holds no tracks.
pub fn serve_outcome(is_dir: bool, tracks: Vec<Track>) -> (r: Result<Vec<Track>, String>)
    ensures
        !is_dir ==> (r matches Err(e) && e@ == folder_not_found_message()),
        is_dir && tracks.len() == 0 ==> (r matches Err(e) && e@ == nothing_to_serve_message()),
        is_dir && tracks.len() > 0 ==> (r matches Ok(t) && t@ == tracks@),
{
    if !is_dir {
        return Err(String::from_str("Music folder not found"));
    }
    if tracks.len() == 0 {
        return Err(String::from_str("No tracks to serve"));
    }
    Ok(tracks)
}

} // verus!
