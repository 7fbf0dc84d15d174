//! File-name rules: extensions, media kinds, MIME types, cover sidecar names.

use vstd::prelude::*;

use crate::text::{
    ascii_lower, ascii_lowercase, chars_eq, chars_of, is_ascii_alnum, lemma_ascii_subrange, lowercase_spec,
    string_of, to_lowercase,
};

verus! {

// ---------------------------------------------------------------------------
// File names
// ---------------------------------------------------------------------------

/// Position of the last occurrence of `c` in `s`.
pub open spec fn last_index_of(s: Seq<char>, c: char) -> Option<int>
    decreases s.len(),
{
    if s.len() == 0 {
        None
    } else if s.last() == c {
        Some(s.len() - 1)
    } else {
        last_index_of(s.drop_last(), c)
    }
}

pub proof fn lemma_last_index_of(s: Seq<char>, c: char)
    ensures
        last_index_of(s, c) matches Some(k) ==> 0 <= k < s.len() && s[k] == c && forall|j: int|
            k < j < s.len() ==> s[j] != c,
        last_index_of(s, c) is None ==> forall|j: int| 0 <= j < s.len() ==> s[j] != c,
    decreases s.len(),
{
    if s.len() > 0 && s.last() != c {
        lemma_last_index_of(s.drop_last(), c);
        assert forall|j: int| 0 <= j < s.len() - 1 implies s[j] == s.drop_last()[j] by {}
    }
}

/// The name `..`.
pub open spec fn dot_dot() -> Seq<char> {
    seq!['.', '.']
}

/// Extension of a file name, as `Path::extension` splits it: the text after the
/// last `.`, unless there is no `.`, the only `.` leads the name, or the name is `..`.
pub open spec fn file_extension(name: Seq<char>) -> Option<Seq<char>> {
    if name == dot_dot() {
        None
    } else {
        match last_index_of(name, '.') {
            Some(k) => if k == 0 {
                None
            } else {
                Some(name.subrange(k + 1, name.len() as int))
            },
            None => None,
        }
    }
}

/// Stem of a file name, as `Path::file_stem` splits it: the text before the last `.`,
/// or the whole name where `file_extension` finds no extension.
pub open spec fn file_stem(name: Seq<char>) -> Seq<char> {
    if name == dot_dot() {
        name
    } else {
        match last_index_of(name, '.') {
            Some(k) => if k == 0 {
                name
            } else {
                name.subrange(0, k)
            },
            None => name,
        }
    }
}

fn last_dot(name: &Vec<char>) -> (r: Option<usize>)
    ensures
        r matches Some(k) ==> last_index_of(name@, '.') == Some(k as int) && k < name.len(),
        r is None ==> last_index_of(name@, '.') is None,
{
    let mut j: usize = name.len();
    while j > 0
        invariant
            j <= name.len(),
            forall|k: int| j <= k < name.len() ==> name@[k] != '.',
        decreases j,
    {
        if name[j - 1] == '.' {
            proof {
                lemma_last_index_of(name@, '.');
                if let Some(k) = last_index_of(name@, '.') {
                    assert(k == j - 1);
                }
            }
            return Some(j - 1);
        }
        j = j - 1;
    }
    proof {
        lemma_last_index_of(name@, '.');
    }
    None
}

fn is_dot_dot(name: &Vec<char>) -> (r: bool)
    ensures
        r == (name@ == dot_dot()),
{
    let r = name.len() == 2 && name[0] == '.' && name[1] == '.';
    if r {
        assert(name@ =~= dot_dot());
    }
    r
}

/// The raw extension of a file name, if any.
pub fn extension_of(name: &Vec<char>) -> (r: Option<Vec<char>>)
    ensures
        r matches Some(e) ==> file_extension(name@) == Some(e@),
        r is None ==> file_extension(name@) is None,
{
    if is_dot_dot(name) {
        return None;
    }
    match last_dot(name) {
        Some(k) => {
            if k == 0 {
                None
            } else {
                let mut e: Vec<char> = Vec::new();
                let mut i = k + 1;
                while i < name.len()
                    invariant
                        k + 1 <= i <= name.len(),
                        e@ == name@.subrange(k + 1, i as int),
                    decreases name.len() - i,
                {
                    e.push(name[i]);
                    i = i + 1;
                    assert(name@.subrange(k + 1, i as int) == name@.subrange(k + 1, i - 1).push(
                        name@[i - 1],
                    ));
                }
                Some(e)
            }
        },
        None => None,
    }
}

/// The stem of a file name.
pub fn stem_of(name: &Vec<char>) -> (r: Vec<char>)
    ensures
        r@ == file_stem(name@),
{
    if is_dot_dot(name) {
        return name.clone();
    }
    match last_dot(name) {
        Some(k) => {
            if k == 0 {
                name.clone()
            } else {
                let mut e: Vec<char> = Vec::new();
                let mut i: usize = 0;
                while i < k
                    invariant
                        i <= k < name.len(),
                        e@ == name@.subrange(0, i as int),
                    decreases k - i,
                {
                    e.push(name[i]);
                    i = i + 1;
                    assert(name@.subrange(0, i as int) == name@.subrange(0, i - 1).push(
                        name@[i - 1],
                    ));
                }
                e
            }
        },
        None => name.clone(),
    }
}

/// The lowercased extension of a file name, or the empty string when it has none.
pub open spec fn ext_spec(name: Seq<char>) -> Seq<char> {
    match file_extension(name) {
        Some(e) => lowercase_spec(e),
        None => Seq::empty(),
    }
}

/// The extension of a file name with `A`-`Z` lowered, or the empty string when it has none.
pub open spec fn ascii_ext_spec(name: Seq<char>) -> Seq<char> {
    match file_extension(name) {
        Some(e) => ascii_lowercase(e),
        None => Seq::empty(),
    }
}

/// The extension of an ASCII name is ASCII, so lowering it is the ASCII mapping.
pub proof fn lemma_ext_spec_ascii(name: Seq<char>)
    requires
        vstd::utf8::is_ascii_chars(name),
    ensures
        ext_spec(name) == ascii_ext_spec(name),
{
    lemma_last_index_of(name, '.');
    if let Some(k) = last_index_of(name, '.') {
        lemma_ascii_subrange(name, k + 1, name.len() as int);
    }
}

/// Lowercased extension of a file name; empty when the name has none.
pub fn ext_of(name: &str) -> (r: String)
    ensures
        r@ == ext_spec(name@),
        vstd::utf8::is_ascii_chars(name@) ==> r@ == ascii_ext_spec(name@),
{
    proof {
        if vstd::utf8::is_ascii_chars(name@) {
            lemma_ext_spec_ascii(name@);
        }
    }
    let chars = chars_of(name);
    match extension_of(&chars) {
        Some(e) => {
            let raw = string_of(&e);
            to_lowercase(raw.as_str())
        },
        None => String::new(),
    }
}

// ---------------------------------------------------------------------------
// Media kinds
// ---------------------------------------------------------------------------

/// Extensions served as audio.
pub open spec fn audio_exts() -> Seq<Seq<char>> {
    seq![
        seq!['m', 'p', '3'],
        seq!['w', 'a', 'v'],
        seq!['f', 'l', 'a', 'c'],
        seq!['m', '4', 'a'],
        seq!['o', 'g', 'g'],
        seq!['a', 'a', 'c'],
    ]
}

/// Extensions served as video.
pub open spec fn video_exts() -> Seq<Seq<char>> {
    seq![
        seq!['m', 'p', '4'],
        seq!['w', 'e', 'b', 'm'],
        seq!['m', 'o', 'v'],
        seq!['m', '4', 'v'],
        seq!['m', 'k', 'v'],
    ]
}

pub open spec fn is_audio_ext(e: Seq<char>) -> bool {
    audio_exts().contains(e)
}

pub open spec fn is_video_ext(e: Seq<char>) -> bool {
    video_exts().contains(e)
}

/// Whether a (lowercased) extension belongs to a servable media file.
pub open spec fn is_media_ext(e: Seq<char>) -> bool {
    is_audio_ext(e) || is_video_ext(e)
}

fn ext_in(e: &Vec<char>, list: &Vec<Vec<char>>) -> (r: bool)
    ensures
        r == list@.map_values(|v: Vec<char>| v@).contains(e@),
{
    let ghost views = list@.map_values(|v: Vec<char>| v@);
    let mut i: usize = 0;
    while i < list.len()
        invariant
            i <= list.len(),
            views == list@.map_values(|v: Vec<char>| v@),
            forall|k: int| 0 <= k < i ==> views[k] != e@,
        decreases list.len() - i,
    {
        if chars_eq(&list[i], e) {
            assert(views[i as int] == e@);
            return true;
        }
        i = i + 1;
    }
    false
}

fn audio_list() -> (r: Vec<Vec<char>>)
    ensures
        r@.map_values(|v: Vec<char>| v@) == audio_exts(),
{
    let r = vec![
        vec!['m', 'p', '3'],
        vec!['w', 'a', 'v'],
        vec!['f', 'l', 'a', 'c'],
        vec!['m', '4', 'a'],
        vec!['o', 'g', 'g'],
        vec!['a', 'a', 'c'],
    ];
    assert(r@.map_values(|v: Vec<char>| v@) =~= audio_exts());
    r
}

fn video_list() -> (r: Vec<Vec<char>>)
    ensures
        r@.map_values(|v: Vec<char>| v@) == video_exts(),
{
    let r = vec![
        vec!['m', 'p', '4'],
        vec!['w', 'e', 'b', 'm'],
        vec!['m', 'o', 'v'],
        vec!['m', '4', 'v'],
        vec!['m', 'k', 'v'],
    ];
    assert(r@.map_values(|v: Vec<char>| v@) =~= video_exts());
    r
}

/// Whether a lowercased extension is one of the audio extensions.
pub fn is_audio(ext: &str) -> (r: bool)
    ensures
        r == is_audio_ext(ext@),
{
    ext_in(&chars_of(ext), &audio_list())
}

/// Whether a lowercased extension is one of the video extensions.
pub fn is_video(ext: &str) -> (r: bool)
    ensures
        r == is_video_ext(ext@),
{
    ext_in(&chars_of(ext), &video_list())
}

/// Whether a lowercased extension belongs to a servable media file.
pub fn is_media(ext: &str) -> (r: bool)
    ensures
        r == is_media_ext(ext@),
{
    is_audio(ext) || is_video(ext)
}

/// Audio or video.
#[derive(PartialEq, Eq, Structural, Clone, Copy, Debug)]
pub enum MediaKind {
    Audio,
    Video,
}

/// The kind a media file is served as: video for the video extensions, audio otherwise.
pub open spec fn media_kind_spec(name: Seq<char>) -> MediaKind {
    if is_video_ext(ext_spec(name)) {
        MediaKind::Video
    } else {
        MediaKind::Audio
    }
}

/// The media kind of a file, judged by its name.
pub fn media_kind_of(name: &str) -> (r: MediaKind)
    ensures
        r == media_kind_spec(name@),
        vstd::utf8::is_ascii_chars(name@) ==> r == (if is_video_ext(ascii_ext_spec(name@)) {
            MediaKind::Video
        } else {
            MediaKind::Audio
        }),
{
    let ext = ext_of(name);
    if is_video(ext.as_str()) {
        MediaKind::Video
    } else {
        MediaKind::Audio
    }
}

} // verus!

verus! {

// ---------------------------------------------------------------------------
// MIME types
// ---------------------------------------------------------------------------

/// The `Content-Type` served for a lowercased extension.
pub open spec fn mime_spec(e: Seq<char>) -> Seq<char> {
    if e == seq!['m', 'p', '3'] {
        "audio/mpeg"@
    } else if e == seq!['w', 'a', 'v'] {
        "audio/wav"@
    } else if e == seq!['f', 'l', 'a', 'c'] {
        "audio/flac"@
    } else if e == seq!['m', '4', 'a'] {
        "audio/mp4"@
    } else if e == seq!['o', 'g', 'g'] {
        "audio/ogg"@
    } else if e == seq!['a', 'a', 'c'] {
        "audio/aac"@
    } else if e == seq!['m', 'p', '4'] {
        "video/mp4"@
    } else if e == seq!['w', 'e', 'b', 'm'] {
        "video/webm"@
    } else if e == seq!['m', 'o', 'v'] {
        "video/quicktime"@
    } else if e == seq!['m', '4', 'v'] {
        "video/x-m4v"@
    } else if e == seq!['m', 'k', 'v'] {
        "video/x-matroska"@
    } else if e == seq!['j', 'p', 'g'] || e == seq!['j', 'p', 'e', 'g'] {
        "image/jpeg"@
    } else if e == seq!['p', 'n', 'g'] {
        "image/png"@
    } else if e == seq!['w', 'e', 'b', 'p'] {
        "image/webp"@
    } else if e == seq!['g', 'i', 'f'] {
        "image/gif"@
    } else {
        "application/octet-stream"@
    }
}

fn is_ext(e: &Vec<char>, lit: Vec<char>) -> (r: bool)
    ensures
        r == (e@ == lit@),
{
    chars_eq(e, &lit)
}

/// The `Content-Type` for a served file, chosen by its extension.
pub fn mime_for(name: &str) -> (r: &'static str)
    ensures
        r@ == mime_spec(ext_spec(name@)),
        vstd::utf8::is_ascii_chars(name@) ==> r@ == mime_spec(ascii_ext_spec(name@)),
{
    let ext = ext_of(name);
    let e = chars_of(ext.as_str());
    if is_ext(&e, vec!['m', 'p', '3']) {
        "audio/mpeg"
    } else if is_ext(&e, vec!['w', 'a', 'v']) {
        "audio/wav"
    } else if is_ext(&e, vec!['f', 'l', 'a', 'c']) {
        "audio/flac"
    } else if is_ext(&e, vec!['m', '4', 'a']) {
        "audio/mp4"
    } else if is_ext(&e, vec!['o', 'g', 'g']) {
        "audio/ogg"
    } else if is_ext(&e, vec!['a', 'a', 'c']) {
        "audio/aac"
    } else if is_ext(&e, vec!['m', 'p', '4']) {
        "video/mp4"
    } else if is_ext(&e, vec!['w', 'e', 'b', 'm']) {
        "video/webm"
    } else if is_ext(&e, vec!['m', 'o', 'v']) {
        "video/quicktime"
    } else if is_ext(&e, vec!['m', '4', 'v']) {
        "video/x-m4v"
    } else if is_ext(&e, vec!['m', 'k', 'v']) {
        "video/x-matroska"
    } else if is_ext(&e, vec!['j', 'p', 'g']) || is_ext(&e, vec!['j', 'p', 'e', 'g']) {
        "image/jpeg"
    } else if is_ext(&e, vec!['p', 'n', 'g']) {
        "image/png"
    } else if is_ext(&e, vec!['w', 'e', 'b', 'p']) {
        "image/webp"
    } else if is_ext(&e, vec!['g', 'i', 'f']) {
        "image/gif"
    } else {
        "application/octet-stream"
    }
}

// ---------------------------------------------------------------------------
// Cover images
// ---------------------------------------------------------------------------

/// The image formats a cover can be embedded from.
#[derive(PartialEq, Eq, Structural, Clone, Copy, Debug)]
pub enum CoverMime {
    Jpeg,
    Png,
    Gif,
}

/// The cover format for a lowercased extension: jpg/jpeg, png or gif.
pub open spec fn cover_mime_spec(e: Seq<char>) -> Option<CoverMime> {
    if e == seq!['j', 'p', 'g'] || e == seq!['j', 'p', 'e', 'g'] {
        Some(CoverMime::Jpeg)
    } else if e == seq!['p', 'n', 'g'] {
        Some(CoverMime::Png)
    } else if e == seq!['g', 'i', 'f'] {
        Some(CoverMime::Gif)
    } else {
        None
    }
}

/// The cover format of an image file, judged by its name.
pub fn cover_mime_of(name: &str) -> (r: Option<CoverMime>)
    ensures
        r == cover_mime_spec(ext_spec(name@)),
        vstd::utf8::is_ascii_chars(name@) ==> r == cover_mime_spec(ascii_ext_spec(name@)),
{
    let ext = ext_of(name);
    let e = chars_of(ext.as_str());
    if is_ext(&e, vec!['j', 'p', 'g']) || is_ext(&e, vec!['j', 'p', 'e', 'g']) {
        Some(CoverMime::Jpeg)
    } else if is_ext(&e, vec!['p', 'n', 'g']) {
        Some(CoverMime::Png)
    } else if is_ext(&e, vec!['g', 'i', 'f']) {
        Some(CoverMime::Gif)
    } else {
        None
    }
}

/// The message a cover in another format is refused with.
pub open spec fn bad_cover_message() -> Seq<char> {
    "Cover must be a jpg, png, or gif"@
}

/// The cover format of an image, or the refusal for any other file.
pub fn cover_mime_or_error(image_name: &str) -> (r: Result<CoverMime, String>)
    ensures
        r matches Ok(m) ==> cover_mime_spec(ext_spec(image_name@)) == Some(m),
        r matches Err(e) ==> cover_mime_spec(ext_spec(image_name@)) is None && e@
            == bad_cover_message(),
        vstd::utf8::is_ascii_chars(image_name@) ==> (r is Ok <==> cover_mime_spec(
            ascii_ext_spec(image_name@),
        ) is Some),
{
    match cover_mime_of(image_name) {
        Some(m) => Ok(m),
        None => Err(String::from_str("Cover must be a jpg, png, or gif")),
    }
}

/// Whether a file can be offered as a cover image.
pub fn is_cover_image(name: &str) -> (r: bool)
    ensures
        r == cover_mime_spec(ext_spec(name@)) is Some,
        vstd::utf8::is_ascii_chars(name@) ==> r == cover_mime_spec(ascii_ext_spec(name@)) is Some,
{
    cover_mime_of(name).is_some()
}

// ---------------------------------------------------------------------------
// Cover sidecar names
// ---------------------------------------------------------------------------

/// The folder (relative to the library root) that extracted covers are written to.
pub open spec fn covers_dir() -> Seq<char> {
    seq!['.', 'c', 'e', 'r', 'b', 'e', 'r', 'u', 's', '-', 'c', 'o', 'v', 'e', 'r', 's']
}

/// A path character is kept (lowercased) when it is an ASCII letter or digit, else becomes `_`.
pub open spec fn safe_char(c: char) -> char {
    if is_ascii_alnum(c) {
        ascii_lower(c)
    } else {
        '_'
    }
}

/// `s` without leading `_` characters.
pub open spec fn strip_start_underscores(s: Seq<char>) -> Seq<char>
    decreases s.len(),
{
    if s.len() > 0 && s[0] == '_' {
        strip_start_underscores(s.drop_first())
    } else {
        s
    }
}

/// `s` without trailing `_` characters.
pub open spec fn strip_end_underscores(s: Seq<char>) -> Seq<char>
    decreases s.len(),
{
    if s.len() > 0 && s.last() == '_' {
        strip_end_underscores(s.drop_last())
    } else {
        s
    }
}

/// The part of a relative URL before its last `.` (all of it when there is none).
pub open spec fn without_last_ext(s: Seq<char>) -> Seq<char> {
    match last_index_of(s, '.') {
        Some(k) => s.subrange(0, k),
        None => s,
    }
}

/// The sidecar stem for a track: its path without the extension, made safe, trimmed of `_`,
/// and `cover` when nothing is left.
pub open spec fn sidecar_stem(rel_url: Seq<char>) -> Seq<char> {
    let safe = without_last_ext(rel_url).map_values(|c: char| safe_char(c));
    let t = strip_end_underscores(strip_start_underscores(safe));
    if t.len() == 0 {
        seq!['c', 'o', 'v', 'e', 'r']
    } else {
        t
    }
}

/// `<covers dir>/<stem>.jpg` for a track's relative URL.
pub open spec fn sidecar_name_spec(rel_url: Seq<char>) -> Seq<char> {
    covers_dir() + seq!['/'] + sidecar_stem(rel_url) + seq!['.', 'j', 'p', 'g']
}

/// Whether a character may stand in a sidecar stem.
pub open spec fn stem_char_ok(c: char) -> bool {
    ('a' <= c <= 'z') || ('0' <= c <= '9') || c == '_'
}

fn lower_ascii_char(c: char) -> (r: char)
    ensures
        r == ascii_lower(c),
{
    if 'A' <= c && c <= 'Z' {
        ((c as u8) + 32) as char
    } else {
        c
    }
}

proof fn lemma_strip_start_at(s: Seq<char>, i: int)
    requires
        0 <= i <= s.len(),
        forall|k: int| 0 <= k < i ==> s[k] == '_',
        i == s.len() || s[i] != '_',
    ensures
        strip_start_underscores(s) == s.subrange(i, s.len() as int),
    decreases i,
{
    if i == 0 {
        assert(s.subrange(0, s.len() as int) == s);
    } else {
        let t = s.drop_first();
        assert forall|k: int| 0 <= k < i - 1 implies t[k] == '_' by {
            assert(t[k] == s[k + 1]);
        }
        lemma_strip_start_at(t, i - 1);
        assert(t.subrange(i - 1, t.len() as int) == s.subrange(i, s.len() as int));
    }
}

proof fn lemma_strip_end_at(s: Seq<char>, j: int)
    requires
        0 <= j <= s.len(),
        forall|k: int| j <= k < s.len() ==> s[k] == '_',
        j == 0 || s[j - 1] != '_',
    ensures
        strip_end_underscores(s) == s.subrange(0, j),
    decreases s.len() - j,
{
    if j == s.len() {
        assert(s.subrange(0, j) == s);
    } else {
        let t = s.drop_last();
        assert forall|k: int| j <= k < t.len() implies t[k] == '_' by {
            assert(t[k] == s[k]);
        }
        lemma_strip_end_at(t, j);
        assert(t.subrange(0, j) == s.subrange(0, j));
    }
}

proof fn lemma_safe_char_ok(c: char)
    ensures
        stem_char_ok(safe_char(c)),
{
}

/// The first `end` characters of `chars`, each made safe.
fn safe_prefix(chars: &Vec<char>, end: usize) -> (safe: Vec<char>)
    requires
        end <= chars.len(),
    ensures
        safe@ == chars@.subrange(0, end as int).map_values(|c: char| safe_char(c)),
{
    let mut safe: Vec<char> = Vec::new();
    let mut i: usize = 0;
    while i < end
        invariant
            i <= end <= chars.len(),
            safe@ == chars@.subrange(0, i as int).map_values(|c: char| safe_char(c)),
        decreases end - i,
    {
        let c = chars[i];
        let ok = ('a' <= c && c <= 'z') || ('A' <= c && c <= 'Z') || ('0' <= c && c <= '9');
        let m = if ok {
            lower_ascii_char(c)
        } else {
            '_'
        };
        safe.push(m);
        i = i + 1;
        assert(chars@.subrange(0, i as int).map_values(|c: char| safe_char(c)) =~= chars@.subrange(
            0,
            i - 1,
        ).map_values(|c: char| safe_char(c)).push(safe_char(c)));
    }
    safe
}

/// `safe` with the `_` at both ends removed.
fn strip_underscores(safe: &Vec<char>) -> (r: Vec<char>)
    requires
        forall|k: int| 0 <= k < safe@.len() ==> stem_char_ok(#[trigger] safe@[k]),
    ensures
        r@ == strip_end_underscores(strip_start_underscores(safe@)),
        r@.len() > 0 ==> r@[0] != '_' && r@.last() != '_',
        forall|k: int| 0 <= k < r@.len() ==> stem_char_ok(#[trigger] r@[k]),
{
    let n = safe.len();
    let mut a: usize = 0;
    while a < n && safe[a] == '_'
        invariant
            a <= n == safe.len(),
            forall|k: int| 0 <= k < a ==> safe@[k] == '_',
        decreases n - a,
    {
        a = a + 1;
    }
    proof {
        lemma_strip_start_at(safe@, a as int);
    }
    let ghost t0 = safe@.subrange(a as int, n as int);
    let mut b: usize = n;
    while b > a && safe[b - 1] == '_'
        invariant
            a <= b <= n == safe.len(),
            forall|k: int| b <= k < n ==> safe@[k] == '_',
        decreases b,
    {
        b = b - 1;
    }
    proof {
        assert forall|k: int| b - a <= k < t0.len() implies t0[k] == '_' by {
            assert(t0[k] == safe@[k + a]);
        }
        if b > a {
            assert(t0[b - a - 1] == safe@[b - 1]);
        }
        lemma_strip_end_at(t0, b - a);
        assert(t0.subrange(0, b - a) == safe@.subrange(a as int, b as int));
    }
    let mut r: Vec<char> = Vec::new();
    let mut k: usize = a;
    while k < b
        invariant
            a <= k <= b <= n == safe.len(),
            r@ == safe@.subrange(a as int, k as int),
        decreases b - k,
    {
        r.push(safe[k]);
        k = k + 1;
        assert(safe@.subrange(a as int, k as int) == safe@.subrange(a as int, k - 1).push(
            safe@[k - 1],
        ));
    }
    proof {
        assert forall|k: int| 0 <= k < r@.len() implies stem_char_ok(#[trigger] r@[k]) by {
            assert(r@[k] == safe@[k + a]);
        }
        if a < b {
            assert(r@[0] == safe@[a as int]);
            assert(r@.last() == safe@[b - 1]);
        }
    }
    r
}

/// The sidecar stem of a relative URL.
fn sidecar_stem_of(rel_url: &str) -> (stem: Vec<char>)
    ensures
        stem@ == sidecar_stem(rel_url@),
        stem@.len() > 0,
        stem@[0] != '_' && stem@.last() != '_',
        forall|k: int| 0 <= k < stem@.len() ==> stem_char_ok(#[trigger] stem@[k]),
{
    let chars = chars_of(rel_url);
    let end = match last_dot(&chars) {
        Some(k) => k,
        None => chars.len(),
    };
    let safe = safe_prefix(&chars, end);
    assert(chars@.subrange(0, end as int) == without_last_ext(rel_url@));
    assert forall|k: int| 0 <= k < safe@.len() implies stem_char_ok(#[trigger] safe@[k]) by {
        lemma_safe_char_ok(chars@[k]);
    }
    let t = strip_underscores(&safe);
    if t.len() == 0 {
        let c = vec!['c', 'o', 'v', 'e', 'r'];
        assert(c@ =~= seq!['c', 'o', 'v', 'e', 'r']);
        c
    } else {
        t
    }
}

/// Deterministic, filesystem-safe sidecar path for a track's extracted cover, under the
/// covers folder: the same relative URL always yields the same name, so a re-scan
/// overwrites rather than piling up files. The stem holds only lowercase ASCII letters,
/// digits and inner `_`, so the name never leaves the covers folder.
pub fn cover_sidecar_name(rel_url: &str) -> (r: String)
    ensures
        r@ == sidecar_name_spec(rel_url@),
        r@.subrange(0, 17) == covers_dir() + seq!['/'],
        r@.subrange(r@.len() - 4, r@.len() as int) == seq!['.', 'j', 'p', 'g'],
        r@.len() > 21,
        forall|i: int| 17 <= i < r@.len() - 4 ==> stem_char_ok(#[trigger] r@[i]),
        r@[17] != '_' && r@[r@.len() - 5] != '_',
{
    let stem = sidecar_stem_of(rel_url);
    let ghost st = stem@;
    let mut out: Vec<char> = vec![
        '.', 'c', 'e', 'r', 'b', 'e', 'r', 'u', 's', '-', 'c', 'o', 'v', 'e', 'r', 's', '/',
    ];
    assert(out@ =~= covers_dir() + seq!['/']);
    crate::text::append_chars(&mut out, &stem);
    let ext = vec!['.', 'j', 'p', 'g'];
    crate::text::append_chars(&mut out, &ext);
    let ghost o = out@;
    assert(o =~= covers_dir() + seq!['/'] + st + seq!['.', 'j', 'p', 'g']);
    assert(o.subrange(0, 17) =~= covers_dir() + seq!['/']);
    assert(o.subrange(o.len() - 4, o.len() as int) =~= seq!['.', 'j', 'p', 'g']);
    assert forall|i: int| 17 <= i < o.len() - 4 implies stem_char_ok(#[trigger] o[i]) by {
        assert(o[i] == st[i - 17]);
    }
    assert(o[17] == st[0]);
    assert(o[o.len() - 5] == st.last());
    string_of(&out)
}

} // verus!

verus! {

/// The cover a track gets from an extraction attempt: its sidecar path when the extractor
/// succeeded and left a non-empty file, else none.
pub fn extracted_cover(sidecar: String, extractor_succeeded: bool, written_len: u64) -> (r: Option<
    String,
>)
    ensures
        extractor_succeeded && written_len > 0 ==> (r matches Some(s) && s@ == sidecar@),
        !(extractor_succeeded && written_len > 0) ==> r is None,
{
    if extractor_succeeded && written_len > 0 {
        Some(sidecar)
    } else {
        None
    }
}

} // verus!
