//! Track metadata (artist/title/album/etc) used to label tracklist entries.

use std::borrow::Cow;
use std::io::Cursor;

use lofty::file::{FileType, TaggedFileExt};
use lofty::probe::Probe;
use lofty::tag::Accessor;
use lofty::tag::ItemKey::{AlbumArtist, Composer};
use vstd::prelude::*;

use crate::paths::{file_stem, path_file_stem};
use crate::project::{SampleRef, SampleRefModel};
use crate::text::{
    clone_opt, decimal, opt_view, push_decimal, string_from_chars, trim, trimmed,
};

verus! {

/// Metadata of one sample file. Every field but `filename` may be missing.
#[derive(Debug, Clone, Default, PartialEq, Eq)]
pub struct TrackMetadata {
    pub artist: Option<String>,
    pub title: Option<String>,
    pub album: Option<String>,
    pub album_artist: Option<String>,
    pub year: Option<String>,
    pub track: Option<String>,
    pub genre: Option<String>,
    pub composer: Option<String>,
    pub comment: Option<String>,
    /// Always populated; basename of any path on the sample with the
    /// extension stripped, falling back to the sample's name.
    pub filename: String,
    pub path: Option<String>,
}

impl TrackMetadata {
    /// Metadata with only the filename and path set.
    pub fn for_test(filename: &str, path: Option<String>) -> (m: TrackMetadata)
        ensures
            m.filename@ == filename@,
            opt_view(m.path) == opt_view(path),
            m.artist is None && m.title is None && m.album is None,
            m.album_artist is None && m.year is None && m.track is None,
            m.genre is None && m.composer is None && m.comment is None,
    {
        TrackMetadata {
            artist: None,
            title: None,
            album: None,
            album_artist: None,
            year: None,
            track: None,
            genre: None,
            composer: None,
            comment: None,
            filename: filename.to_owned(),
            path,
        }
    }
}

/// The tag values read from an audio file, before cleaning. Year and track
/// number are numbers; the metadata shows them as decimal text.
#[derive(Debug, Clone, Default, PartialEq, Eq)]
pub struct RawTags {
    pub artist: Option<String>,
    pub title: Option<String>,
    pub album: Option<String>,
    pub album_artist: Option<String>,
    pub year: Option<u16>,
    pub track: Option<u32>,
    pub genre: Option<String>,
    pub composer: Option<String>,
    pub comment: Option<String>,
}

/// The mathematical form of the tag values.
pub struct RawTagsModel {
    pub artist: Option<Seq<char>>,
    pub title: Option<Seq<char>>,
    pub album: Option<Seq<char>>,
    pub album_artist: Option<Seq<char>>,
    pub year: Option<u16>,
    pub track: Option<u32>,
    pub genre: Option<Seq<char>>,
    pub composer: Option<Seq<char>>,
    pub comment: Option<Seq<char>>,
}

impl View for RawTags {
    type V = RawTagsModel;

    open spec fn view(&self) -> RawTagsModel {
        RawTagsModel {
            artist: opt_view(self.artist),
            title: opt_view(self.title),
            album: opt_view(self.album),
            album_artist: opt_view(self.album_artist),
            year: self.year,
            track: self.track,
            genre: opt_view(self.genre),
            composer: opt_view(self.composer),
            comment: opt_view(self.comment),
        }
    }
}

/// The view of optional tag values.
pub open spec fn tags_view(t: Option<RawTags>) -> Option<RawTagsModel> {
    match t {
        Some(v) => Some(v@),
        None => None,
    }
}

/// The values of the primary tag that lofty reads from the audio file
/// `bytes`, stored at `path`; `None` when the file cannot be parsed or has no
/// tag of its format's primary type.
pub uninterp spec fn file_primary_tags(path: Seq<char>, bytes: Seq<u8>) -> Option<RawTagsModel>;

/// The values of the first tag that lofty reads from the audio file `bytes`,
/// stored at `path`; `None` when the file cannot be parsed or holds no tag.
pub uninterp spec fn file_first_tags(path: Seq<char>, bytes: Seq<u8>) -> Option<RawTagsModel>;

/// Reads the primary tag of an audio file from its bytes with lofty: a
/// `lofty::probe::Probe` over the bytes, with the file type that
/// `FileType::from_path` gives for `path` (the extension), then
/// `Probe::read`, then `TaggedFileExt::primary_tag`; of the tag the artist,
/// title, album, album artist (`ItemKey::AlbumArtist`), year of `date()`,
/// track number, genre, composer (`ItemKey::Composer`) and comment. The
/// contract claims only that the result is the named value for `path` and
/// `bytes`.
#[verifier::external_body]
fn read_primary_tags(path: &str, bytes: &[u8]) -> (r: Option<RawTags>)
    ensures
        tags_view(r) == file_primary_tags(path@, bytes@),
{
    let file = Probe::with_file_type(Cursor::new(bytes), FileType::from_path(path)?).read().ok()?;
    let tag = file.primary_tag()?;
    let text = |v: Option<Cow<str>>| v.map(Cow::into_owned);
    Some(RawTags {
        artist: text(tag.artist()), title: text(tag.title()), album: text(tag.album()),
        album_artist: tag.get_string(AlbumArtist).map(String::from),
        year: tag.date().map(|d| d.year), track: tag.track(),
        genre: text(tag.genre()), composer: tag.get_string(Composer).map(String::from),
        comment: text(tag.comment()),
    })
}

/// Reads the first tag of an audio file from its bytes with lofty, as
/// `read_primary_tags` does but with `TaggedFileExt::first_tag`. The contract
/// claims only that the result is the named value for `path` and `bytes`.
#[verifier::external_body]
fn read_first_tags(path: &str, bytes: &[u8]) -> (r: Option<RawTags>)
    ensures
        tags_view(r) == file_first_tags(path@, bytes@),
{
    let file = Probe::with_file_type(Cursor::new(bytes), FileType::from_path(path)?).read().ok()?;
    let tag = file.first_tag()?;
    let text = |v: Option<Cow<str>>| v.map(Cow::into_owned);
    Some(RawTags {
        artist: text(tag.artist()), title: text(tag.title()), album: text(tag.album()),
        album_artist: tag.get_string(AlbumArtist).map(String::from),
        year: tag.date().map(|d| d.year), track: tag.track(),
        genre: text(tag.genre()), composer: tag.get_string(Composer).map(String::from),
        comment: text(tag.comment()),
    })
}

/// A tag value trimmed of surrounding white space; absent when nothing is
/// left.
pub open spec fn cleaned_tag(o: Option<Seq<char>>) -> Option<Seq<char>> {
    match o {
        Some(v) => if trimmed(v).len() > 0 {
            Some(trimmed(v))
        } else {
            None
        },
        None => None,
    }
}

/// The filename label of a sample: the final path component without its
/// extension, from the absolute path, else the relative path, else the
/// sample's name with its extension stripped.
pub open spec fn derived_filename(s: SampleRefModel) -> Seq<char> {
    let from_abs = match s.absolute_path {
        Some(p) => path_file_stem(p),
        None => None,
    };
    let from_path = if from_abs is Some {
        from_abs
    } else {
        match s.relative_path {
            Some(p) => path_file_stem(p),
            None => None,
        }
    };
    match from_path {
        Some(f) => f,
        None => match path_file_stem(s.name) {
            Some(f) => f,
            None => s.name,
        },
    }
}

/// The path label of a sample: the absolute path, else the relative path.
pub open spec fn derived_path(s: SampleRefModel) -> Option<Seq<char>> {
    if s.absolute_path is Some {
        s.absolute_path
    } else {
        s.relative_path
    }
}

/// Trim a tag value and drop it when nothing is left.
pub fn clean_string(s: Option<String>) -> (r: Option<String>)
    ensures
        opt_view(r) == cleaned_tag(opt_view(s)),
{
    match s {
        Some(v) => {
            let t = trim(v.as_str());
            if t.as_str().is_empty() {
                None
            } else {
                Some(t)
            }
        },
        None => None,
    }
}

fn strip_extension(name: &str) -> (r: String)
    ensures
        r@ == (match path_file_stem(name@) {
            Some(f) => f,
            None => name@,
        }),
{
    match file_stem(name) {
        Some(f) => f,
        None => name.to_owned(),
    }
}

/// The filename label of a sample.
pub fn derive_filename(sample: &SampleRef) -> (r: String)
    ensures
        r@ == derived_filename(sample@),
{
    let from_abs = match &sample.absolute_path {
        Some(p) => file_stem(p.as_str()),
        None => None,
    };
    let from_path = match from_abs {
        Some(f) => Some(f),
        None => match &sample.relative_path {
            Some(p) => file_stem(p.as_str()),
            None => None,
        },
    };
    match from_path {
        Some(f) => f,
        None => strip_extension(sample.name.as_str()),
    }
}

/// The path label of a sample.
pub fn derive_path(sample: &SampleRef) -> (r: Option<String>)
    ensures
        opt_view(r) == derived_path(sample@),
{
    match &sample.absolute_path {
        Some(p) => Some(p.clone()),
        None => clone_opt(&sample.relative_path),
    }
}

/// The year as decimal text, when there is one.
pub open spec fn year_text(y: Option<u16>) -> Option<Seq<char>> {
    match y {
        Some(v) => Some(decimal(v as nat)),
        None => None,
    }
}

/// The track number as decimal text, when there is one.
pub open spec fn track_text(n: Option<u32>) -> Option<Seq<char>> {
    match n {
        Some(v) => Some(decimal(v as nat)),
        None => None,
    }
}

/// The decimal text of `n`.
fn decimal_text(n: u64) -> (r: String)
    ensures
        r@ == decimal(n as nat),
{
    let mut cs: Vec<char> = Vec::new();
    push_decimal(&mut cs, n);
    assert(cs@ =~= decimal(n as nat));
    string_from_chars(&cs)
}

/// Whether `m` is the metadata of sample `s` with the tag values `tags`:
/// the filename and path derive from the sample; each text value is trimmed
/// and dropped when empty, year and track number are shown in decimal; with
/// no tags, every tag field is absent.
pub open spec fn extracted(m: TrackMetadata, s: SampleRefModel, tags: Option<RawTagsModel>) -> bool {
    &&& m.filename@ == derived_filename(s)
    &&& opt_view(m.path) == derived_path(s)
    &&& match tags {
        None => m.artist is None && m.title is None && m.album is None && m.album_artist is None
            && m.year is None && m.track is None && m.genre is None && m.composer is None
            && m.comment is None,
        Some(t) => opt_view(m.artist) == cleaned_tag(t.artist) && opt_view(m.title)
            == cleaned_tag(t.title) && opt_view(m.album) == cleaned_tag(t.album) && opt_view(
            m.album_artist,
        ) == cleaned_tag(t.album_artist) && opt_view(m.year) == year_text(t.year) && opt_view(
            m.track,
        ) == track_text(t.track) && opt_view(m.genre) == cleaned_tag(t.genre) && opt_view(
            m.composer,
        ) == cleaned_tag(t.composer) && opt_view(m.comment) == cleaned_tag(t.comment),
    }
}

/// Law: every metadata field comes from the tag of the same name. Whenever
/// `m` is the metadata extracted with tag values `t`, its artist is `t`'s
/// artist trimmed (absent when blank), its title `t`'s title, its album
/// `t`'s album, and so on for album artist, genre, composer and comment; its
/// year and track are `t`'s year and track number in decimal.
pub proof fn law_fields_come_from_their_own_tags(
    m: TrackMetadata,
    s: SampleRefModel,
    t: RawTagsModel,
)
    requires
        extracted(m, s, Some(t)),
    ensures
        opt_view(m.artist) == cleaned_tag(t.artist),
        opt_view(m.title) == cleaned_tag(t.title),
        opt_view(m.album) == cleaned_tag(t.album),
        opt_view(m.album_artist) == cleaned_tag(t.album_artist),
        opt_view(m.genre) == cleaned_tag(t.genre),
        opt_view(m.composer) == cleaned_tag(t.composer),
        opt_view(m.comment) == cleaned_tag(t.comment),
        t.year matches Some(y) ==> opt_view(m.year) == Some(decimal(y as nat)),
        t.year is None ==> m.year is None,
        t.track matches Some(n) ==> opt_view(m.track) == Some(decimal(n as nat)),
        t.track is None ==> m.track is None,
        m.filename@ == derived_filename(s),
        opt_view(m.path) == derived_path(s),
{
}

/// The metadata of a sample, from the tags read from its file (`None` when
/// the file could not be read or holds no tag). The filename and path are
/// always derived from the sample reference; each tag value is trimmed and
/// dropped when empty.
pub fn extract_with_tags(sample: &SampleRef, tags: Option<&RawTags>) -> (m: TrackMetadata)
    ensures
        extracted(
            m,
            sample@,
            match tags {
                Some(t) => Some(t@),
                None => None,
            },
        ),
{
    let filename = derive_filename(sample);
    let path = derive_path(sample);
    match tags {
        None => TrackMetadata {
            artist: None,
            title: None,
            album: None,
            album_artist: None,
            year: None,
            track: None,
            genre: None,
            composer: None,
            comment: None,
            filename,
            path,
        },
        Some(t) => TrackMetadata {
            artist: clean_string(clone_opt(&t.artist)),
            title: clean_string(clone_opt(&t.title)),
            album: clean_string(clone_opt(&t.album)),
            album_artist: clean_string(clone_opt(&t.album_artist)),
            year: match t.year {
                Some(y) => Some(decimal_text(y as u64)),
                None => None,
            },
            track: match t.track {
                Some(n) => Some(decimal_text(n as u64)),
                None => None,
            },
            genre: clean_string(clone_opt(&t.genre)),
            composer: clean_string(clone_opt(&t.composer)),
            comment: clean_string(clone_opt(&t.comment)),
            filename,
            path,
        },
    }
}

/// The tag values a sample's metadata is taken from: those of the primary
/// tag, else those of the first tag.
pub open spec fn chosen_tags(primary: Option<RawTagsModel>, first: Option<RawTagsModel>) -> Option<
    RawTagsModel,
> {
    if primary is Some {
        primary
    } else {
        first
    }
}

/// The tag values of a file given as its path and bytes: its primary tag's,
/// else its first tag's.
pub open spec fn tags_of_file(file: Option<(&str, &[u8])>) -> Option<RawTagsModel> {
    match file {
        Some((p, b)) => chosen_tags(file_primary_tags(p@, b@), file_first_tags(p@, b@)),
        None => None,
    }
}

/// Law: a file's primary tag wins. When the file has a primary tag, its
/// values are the ones used; only a file without one falls back to its
/// first tag; and with no file there are no tag values.
pub proof fn law_primary_tag_wins(path: &str, bytes: &[u8])
    ensures
        file_primary_tags(path@, bytes@) is Some ==> tags_of_file(Some((path, bytes)))
            == file_primary_tags(path@, bytes@),
        file_primary_tags(path@, bytes@) is None ==> tags_of_file(Some((path, bytes)))
            == file_first_tags(path@, bytes@),
        tags_of_file(None) is None,
{
}

/// The tag values to use: the primary tag's when there is one, else the
/// first tag's.
pub fn choose_tags(primary: Option<RawTags>, first: Option<RawTags>) -> (r: Option<RawTags>)
    ensures
        tags_view(r) == chosen_tags(tags_view(primary), tags_view(first)),
{
    match primary {
        Some(p) => Some(p),
        None => first,
    }
}

/// The metadata of a sample whose audio file, when it could be read, is
/// `file` (its path and bytes): the tags are read from the bytes (the
/// primary tag, else the first), and the metadata holds only the filename
/// and path when there are none.
pub fn extract_from_file(sample: &SampleRef, file: Option<(&str, &[u8])>) -> (m: TrackMetadata)
    ensures
        extracted(m, sample@, tags_of_file(file)),
{
    let tags = match file {
        Some((path, bytes)) => {
            let primary = read_primary_tags(path, bytes);
            if primary.is_some() {
                primary
            } else {
                choose_tags(primary, read_first_tags(path, bytes))
            }
        },
        None => None,
    };
    match &tags {
        Some(t) => extract_with_tags(sample, Some(t)),
        None => extract_with_tags(sample, None),
    }
}

} // verus!
