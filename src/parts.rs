//! Priority merging of tag items into one canonical record, and the path
//! segments synthesised from that record.

use vstd::prelude::*;
use crate::sanitize::{sanitize, sanitized};
use crate::text::{
    dec2, dec_signed, i16_text, parse_i16, parse_u32, push_dec2, push_signed, push_str, trim,
    trimmed, u32_text,
};

verus! {

/// The semantic role of a tag item.
#[derive(Clone, Copy, PartialEq, Eq, Structural, Debug)]
pub enum Key {
    AlbumTitle,
    AlbumArtist,
    TrackArtist,
    TrackTitle,
    TrackNumber,
    DiscNumber,
    DiscTotal,
    Year,
    ReleaseDate,
    OriginalReleaseDate,
    RecordingDate,
    OriginalMediaType,
    /// Any role the resolver does not read.
    Other,
}

/// The value of a tag item.
#[derive(Clone, Debug)]
pub enum Value {
    Text(String),
    Locator(String),
    Binary(Vec<u8>),
}

/// One tag item: a role and a value.
#[derive(Clone, Debug)]
pub struct Item {
    pub key: Key,
    pub value: Value,
}

/// Calendar year of an ISO 8601 date in the text, where the text is one.
pub uninterp spec fn date_year(s: Seq<char>) -> Option<i16>;

/// Relies on `jiff::civil::Date`'s `FromStr` and `Date::year`: the year of
/// the date the text spells, where it spells one.
#[verifier::external_body]
fn parse_date_year(s: &str) -> (r: Option<i16>)
    ensures
        r == date_year(s@),
{
    s.parse::<jiff::civil::Date>().ok().map(|d| d.year())
}

/// The best value offered so far for one field, and its priority (lower is
/// better).
pub struct Best<T> {
    pub value: Option<T>,
    pub prio: u32,
}

/// The view of an optional value.
pub open spec fn opt_view<T: View>(o: Option<T>) -> Option<T::V> {
    match o {
        Some(v) => Some(v@),
        None => None,
    }
}

impl<T: View> View for Best<T> {
    type V = Best<T::V>;

    open spec fn view(&self) -> Best<T::V> {
        Best { value: opt_view(self.value), prio: self.prio }
    }
}

/// No value yet, at the worst priority.
pub open spec fn unset<V>() -> Best<V> {
    Best { value: None, prio: u32::MAX }
}

/// A value offered at priority `p` is taken only when it is present and
/// strictly better than the current one.
pub open spec fn offered<V>(b: Best<V>, v: Option<V>, p: u32) -> Best<V> {
    if v is Some && p < b.prio {
        Best { value: v, prio: p }
    } else {
        b
    }
}

impl<T: View> Best<T> {
    pub fn new() -> (r: Self)
        ensures
            r@ == unset::<T::V>(),
    {
        Best { value: None, prio: u32::MAX }
    }

    pub fn offer(&mut self, v: Option<T>, p: u32)
        ensures
            final(self)@ == offered(old(self)@, opt_view(v), p),
    {
        if v.is_some() && p < self.prio {
            self.value = v;
            self.prio = p;
        }
    }
}

/// Text fields of the record.
pub enum TextField {
    Album,
    Artist,
    Title,
    MediaType,
}

/// Numeric fields of the record.
pub enum NumField {
    Track,
    DiscNumber,
    DiscTotal,
}

/// Priority of each role that supplies the year.
pub open spec fn year_prio(k: Key) -> Option<u32> {
    match k {
        Key::OriginalReleaseDate => Some(1),
        Key::ReleaseDate => Some(2),
        Key::Year => Some(3),
        Key::RecordingDate => Some(4),
        _ => None,
    }
}

/// Priority of each role that supplies a text field.
pub open spec fn text_prio(f: TextField, k: Key) -> Option<u32> {
    match (f, k) {
        (TextField::Album, Key::AlbumTitle) => Some(1),
        (TextField::Artist, Key::AlbumArtist) => Some(1),
        (TextField::Artist, Key::TrackArtist) => Some(2),
        (TextField::Title, Key::TrackTitle) => Some(1),
        (TextField::MediaType, Key::OriginalMediaType) => Some(1),
        _ => None,
    }
}

/// Priority of each role that supplies a numeric field.
pub open spec fn num_prio(f: NumField, k: Key) -> Option<u32> {
    match (f, k) {
        (NumField::Track, Key::TrackNumber) => Some(1),
        (NumField::DiscNumber, Key::DiscNumber) => Some(1),
        (NumField::DiscTotal, Key::DiscTotal) => Some(1),
        _ => None,
    }
}

/// Text value: the trimmed text, unless it is empty.
pub open spec fn text_value(v: Value) -> Option<Seq<char>> {
    match v {
        Value::Text(s) => if trimmed(s@).len() > 0 {
            Some(trimmed(s@))
        } else {
            None
        },
        _ => None,
    }
}

/// Numeric value: the trimmed text read as a `u32`.
pub open spec fn num_value(v: Value) -> Option<u32> {
    match v {
        Value::Text(s) => u32_text(trimmed(s@)),
        _ => None,
    }
}

/// Year value: the year of the trimmed text read as a date, else the trimmed
/// text read as an `i16`.
pub open spec fn year_value(v: Value) -> Option<i16> {
    match v {
        Value::Text(s) => {
            let t = trimmed(s@);
            match date_year(t) {
                Some(y) => Some(y),
                None => i16_text(t),
            }
        },
        _ => None,
    }
}

/// The year after every item has been offered in order.
pub open spec fn best_year(items: Seq<Item>) -> Best<i16>
    decreases items.len(),
{
    if items.len() == 0 {
        unset()
    } else {
        let b = best_year(items.drop_last());
        match year_prio(items.last().key) {
            Some(p) => offered(b, year_value(items.last().value), p),
            None => b,
        }
    }
}

/// A text field after every item has been offered in order.
pub open spec fn best_text(items: Seq<Item>, f: TextField) -> Best<Seq<char>>
    decreases items.len(),
{
    if items.len() == 0 {
        unset()
    } else {
        let b = best_text(items.drop_last(), f);
        match text_prio(f, items.last().key) {
            Some(p) => offered(b, text_value(items.last().value), p),
            None => b,
        }
    }
}

/// A numeric field after every item has been offered in order.
pub open spec fn best_num(items: Seq<Item>, f: NumField) -> Best<u32>
    decreases items.len(),
{
    if items.len() == 0 {
        unset()
    } else {
        let b = best_num(items.drop_last(), f);
        match num_prio(f, items.last().key) {
            Some(p) => offered(b, num_value(items.last().value), p),
            None => b,
        }
    }
}

proof fn lemma_text_nonempty(items: Seq<Item>, f: TextField)
    ensures
        best_text(items, f).value matches Some(v) ==> v.len() > 0,
    decreases items.len(),
{
    if items.len() > 0 {
        lemma_text_nonempty(items.drop_last(), f);
    }
}

/// The canonical metadata record of one file.
#[derive(Clone, Debug)]
pub struct Parts {
    pub year: i16,
    pub artist: String,
    pub album: String,
    pub track: u32,
    pub title: String,
    pub media_type: Option<String>,
    /// Disc number and disc total.
    pub set: Option<(u32, u32)>,
}

/// The record as plain values.
pub struct PartsView {
    pub year: i16,
    pub artist: Seq<char>,
    pub album: Seq<char>,
    pub track: u32,
    pub title: Seq<char>,
    pub media_type: Option<Seq<char>>,
    pub set: Option<(u32, u32)>,
}

impl View for Parts {
    type V = PartsView;

    open spec fn view(&self) -> PartsView {
        PartsView {
            year: self.year,
            artist: self.artist@,
            album: self.album@,
            track: self.track,
            title: self.title@,
            media_type: opt_view(self.media_type),
            set: self.set,
        }
    }
}

impl PartsView {
    /// Every text field that is present is non-empty.
    pub open spec fn wf(self) -> bool {
        &&& self.artist.len() > 0
        &&& self.album.len() > 0
        &&& self.title.len() > 0
        &&& (self.media_type matches Some(m) ==> m.len() > 0)
    }
}

/// The record resolved from `items`: present only when year, album, artist,
/// title and track all resolved; the disc pair only when both halves did.
pub open spec fn resolved(items: Seq<Item>) -> Option<PartsView> {
    let year = best_year(items).value;
    let album = best_text(items, TextField::Album).value;
    let artist = best_text(items, TextField::Artist).value;
    let title = best_text(items, TextField::Title).value;
    let track = best_num(items, NumField::Track).value;
    let set = match (
        best_num(items, NumField::DiscNumber).value,
        best_num(items, NumField::DiscTotal).value,
    ) {
        (Some(n), Some(t)) => Some((n, t)),
        _ => None,
    };
    if year is Some && album is Some && artist is Some && title is Some && track is Some {
        Some(
            PartsView {
                year: year->0,
                artist: artist->0,
                album: album->0,
                track: track->0,
                title: title->0,
                media_type: best_text(items, TextField::MediaType).value,
                set,
            },
        )
    } else {
        None
    }
}

/// `msg` alone when `missing`, else nothing.
pub open spec fn note(missing: bool, msg: Seq<char>) -> Seq<Seq<char>> {
    if missing {
        seq![msg]
    } else {
        Seq::empty()
    }
}

/// One message for each required field that did not resolve, in the order
/// year, album, artist, title, track.
pub open spec fn missing(items: Seq<Item>) -> Seq<Seq<char>> {
    note(best_year(items).value is None, "missing year"@) + note(
        best_text(items, TextField::Album).value is None,
        "missing album"@,
    ) + note(best_text(items, TextField::Artist).value is None, "missing artist"@) + note(
        best_text(items, TextField::Title).value is None,
        "missing title"@,
    ) + note(best_num(items, NumField::Track).value is None, "missing track number"@)
}

/// The characters of each string.
pub open spec fn texts(v: Seq<String>) -> Seq<Seq<char>> {
    v.map_values(|s: String| s@)
}

proof fn lemma_texts_push(v: Seq<String>, s: String)
    ensures
        texts(v.push(s)) == texts(v).push(s@),
{
    assert(texts(v.push(s)) =~= texts(v).push(s@));
}

fn text(v: &Value) -> (r: Option<String>)
    ensures
        opt_view(r) == text_value(*v),
{
    match v {
        Value::Text(s) => {
            let t = trim(s.as_str());
            if t.unicode_len() > 0 {
                Some(t.to_owned())
            } else {
                None
            }
        },
        _ => None,
    }
}

fn number(v: &Value) -> (r: Option<u32>)
    ensures
        r == num_value(*v),
{
    match v {
        Value::Text(s) => parse_u32(trim(s.as_str())),
        _ => None,
    }
}

/// The year of trimmed text `t` given `date`, the year of `t` read as a date
/// where it is one: that year, else `t` read as a bare integer.
pub fn year_or_number(date: Option<i16>, t: &str) -> (r: Option<i16>)
    ensures
        r == match date {
            Some(y) => Some(y),
            None => i16_text(t@),
        },
{
    match date {
        Some(y) => Some(y),
        None => parse_i16(t),
    }
}

fn year_like(v: &Value) -> (r: Option<i16>)
    ensures
        r == year_value(*v),
{
    match v {
        Value::Text(s) => {
            let t = trim(s.as_str());
            year_or_number(parse_date_year(t), t)
        },
        _ => None,
    }
}

fn push_missing(errors: &mut Vec<String>, missing: bool, msg: &str)
    ensures
        texts(final(errors)@) == texts(old(errors)@) + note(missing, msg@),
{
    if missing {
        let m = msg.to_owned();
        proof {
            lemma_texts_push(errors@, m);
        }
        errors.push(m);
        assert(texts(old(errors)@) + note(missing, msg@) =~= texts(old(errors)@).push(msg@));
    } else {
        assert(texts(old(errors)@) + note(missing, msg@) =~= texts(old(errors)@));
    }
}

impl Parts {
    /// Resolves the record of a file from its tag items.
    ///
    /// Each field takes the value of the best-priority item that supplies a
    /// usable value, the earliest such item on ties. A message is appended to
    /// `errors` for each of year, album, artist, title and track that did not
    /// resolve; the record comes back only when all five did.
    pub fn from_items(items: &Vec<Item>, errors: &mut Vec<String>) -> (r: Option<Parts>)
        ensures
            r is Some <==> resolved(items@) is Some,
            r matches Some(p) ==> resolved(items@) == Some(p@) && p@.wf(),
            texts(final(errors)@) == texts(old(errors)@) + missing(items@),
    {
        let mut year: Best<i16> = Best::new();
        let mut album: Best<String> = Best::new();
        let mut artist: Best<String> = Best::new();
        let mut title: Best<String> = Best::new();
        let mut track: Best<u32> = Best::new();
        let mut media_type: Best<String> = Best::new();
        let mut disc_number: Best<u32> = Best::new();
        let mut disc_total: Best<u32> = Best::new();
        let n = items.len();
        let mut i: usize = 0;
        while i < n
            invariant
                n == items@.len(),
                i <= n,
                year@ == best_year(items@.take(i as int)),
                album@ == best_text(items@.take(i as int), TextField::Album),
                artist@ == best_text(items@.take(i as int), TextField::Artist),
                title@ == best_text(items@.take(i as int), TextField::Title),
                media_type@ == best_text(items@.take(i as int), TextField::MediaType),
                track@ == best_num(items@.take(i as int), NumField::Track),
                disc_number@ == best_num(items@.take(i as int), NumField::DiscNumber),
                disc_total@ == best_num(items@.take(i as int), NumField::DiscTotal),
            decreases n - i,
        {
            let item = &items[i];
            assert(items@.take(i + 1).drop_last() =~= items@.take(i as int));
            assert(items@.take(i + 1).last() == items@[i as int]);
            match item.key {
                Key::OriginalReleaseDate => year.offer(year_like(&item.value), 1),
                Key::ReleaseDate => year.offer(year_like(&item.value), 2),
                Key::Year => year.offer(year_like(&item.value), 3),
                Key::RecordingDate => year.offer(year_like(&item.value), 4),
                Key::AlbumTitle => album.offer(text(&item.value), 1),
                Key::AlbumArtist => artist.offer(text(&item.value), 1),
                Key::TrackArtist => artist.offer(text(&item.value), 2),
                Key::TrackTitle => title.offer(text(&item.value), 1),
                Key::OriginalMediaType => media_type.offer(text(&item.value), 1),
                Key::TrackNumber => track.offer(number(&item.value), 1),
                Key::DiscNumber => disc_number.offer(number(&item.value), 1),
                Key::DiscTotal => disc_total.offer(number(&item.value), 1),
                Key::Other => {},
            }
            i = i + 1;
        }
        assert(items@.take(n as int) =~= items@);
        push_missing(errors, year.value.is_none(), "missing year");
        push_missing(errors, album.value.is_none(), "missing album");
        push_missing(errors, artist.value.is_none(), "missing artist");
        push_missing(errors, title.value.is_none(), "missing title");
        push_missing(errors, track.value.is_none(), "missing track number");
        assert(texts(final(errors)@) =~= texts(old(errors)@) + missing(items@));
        proof {
            lemma_text_nonempty(items@, TextField::Album);
            lemma_text_nonempty(items@, TextField::Artist);
            lemma_text_nonempty(items@, TextField::Title);
            lemma_text_nonempty(items@, TextField::MediaType);
        }
        let set = match (disc_number.value, disc_total.value) {
            (Some(n), Some(t)) => Some((n, t)),
            _ => None,
        };
        match (year.value, artist.value, album.value, track.value, title.value) {
            (Some(year), Some(artist), Some(album), Some(track), Some(title)) => Some(
                Parts { year, artist, album, track, title, media_type: media_type.value, set },
            ),
            _ => None,
        }
    }
}

/// The unsanitised path segments of a record: artist, `"{album} ({year})"`,
/// the disc (only when a disc pair is present with a total above one), and
/// `"{artist} - {album} - {track:02} - {title}"`.
pub open spec fn raw_segments(p: PartsView) -> Seq<Seq<char>> {
    let disc = match p.set {
        Some((n, total)) => if total > 1 {
            seq![
                match p.media_type {
                    Some(m) => m + " "@,
                    None => Seq::empty(),
                } + dec2(n as nat),
            ]
        } else {
            Seq::empty()
        },
        None => Seq::empty(),
    };
    seq![p.artist, p.album + " ("@ + dec_signed(p.year as int) + ")"@] + disc + seq![
        p.artist + " - "@ + p.album + " - "@ + dec2(p.track as nat) + " - "@ + p.title,
    ]
}

/// The path segments of a record, each sanitised on its own.
pub open spec fn segments(p: PartsView) -> Seq<Seq<char>> {
    raw_segments(p).map_values(|s: Seq<char>| sanitized(s))
}

/// Appends `s`, sanitised, to `path` as one more segment.
pub fn push_sanitized(path: &mut Vec<String>, s: &str)
    ensures
        texts(final(path)@) == texts(old(path)@).push(sanitized(s@)),
{
    let seg = sanitize(s);
    proof {
        lemma_texts_push(path@, seg);
    }
    path.push(seg);
}

impl Parts {
    /// Appends the record's path segments to `path`, each sanitised.
    pub fn append_to(&self, path: &mut Vec<String>)
        ensures
            texts(final(path)@) == texts(old(path)@) + segments(self@),
    {
        let ghost raw = raw_segments(self@);
        push_sanitized(path, self.artist.as_str());
        let mut s = String::new();
        push_str(&mut s, self.album.as_str());
        push_str(&mut s, " (");
        push_signed(&mut s, self.year);
        push_str(&mut s, ")");
        assert(s@ == raw[1]);
        push_sanitized(path, s.as_str());
        match self.set {
            Some((n, total)) => {
                if total > 1 {
                    let mut d = String::new();
                    match &self.media_type {
                        Some(m) => {
                            push_str(&mut d, m.as_str());
                            push_str(&mut d, " ");
                        },
                        None => {},
                    }
                    push_dec2(&mut d, n);
                    assert(d@ =~= raw[2]);
                    push_sanitized(path, d.as_str());
                }
            },
            None => {},
        }
        let mut t = String::new();
        push_str(&mut t, self.artist.as_str());
        push_str(&mut t, " - ");
        push_str(&mut t, self.album.as_str());
        push_str(&mut t, " - ");
        push_dec2(&mut t, self.track);
        push_str(&mut t, " - ");
        push_str(&mut t, self.title.as_str());
        assert(t@ == raw[raw.len() - 1]);
        push_sanitized(path, t.as_str());
        assert(texts(path@) =~= texts(old(path)@) + segments(self@));
    }
}

/// Items without a role that feeds text field `f` leave it unresolved.
proof fn lemma_text_absent(items: Seq<Item>, f: TextField)
    requires
        forall|i: int| 0 <= i < items.len() ==> text_prio(f, #[trigger] items[i].key) is None,
    ensures
        best_text(items, f).value is None,
    decreases items.len(),
{
    if items.len() > 0 {
        lemma_text_absent(items.drop_last(), f);
        assert(text_prio(f, items[items.len() - 1].key) is None);
    }
}

/// Items without a role that feeds numeric field `f` leave it unresolved.
proof fn lemma_num_absent(items: Seq<Item>, f: NumField)
    requires
        forall|i: int| 0 <= i < items.len() ==> num_prio(f, #[trigger] items[i].key) is None,
    ensures
        best_num(items, f).value is None,
    decreases items.len(),
{
    if items.len() > 0 {
        lemma_num_absent(items.drop_last(), f);
        assert(num_prio(f, items[items.len() - 1].key) is None);
    }
}

/// A file with neither a track number nor a track title resolves to no
/// record, and both are reported missing.
pub proof fn lemma_no_track_no_title(items: Seq<Item>)
    requires
        forall|i: int|
            0 <= i < items.len() ==> #[trigger] items[i].key != Key::TrackNumber && items[i].key
                != Key::TrackTitle,
    ensures
        resolved(items) is None,
        missing(items).contains("missing track number"@),
        missing(items).contains("missing title"@),
{
    lemma_text_absent(items, TextField::Title);
    lemma_num_absent(items, NumField::Track);
    let m = missing(items);
    let k = m.len() - 1;
    assert(m[k] == "missing track number"@);
    assert(m[k - 1] == "missing title"@);
}

/// The disc segment stands between the album and the file name exactly when
/// a disc pair is present with a total above one; otherwise there are three
/// segments.
pub proof fn lemma_disc_segment(p: PartsView)
    ensures
        match p.set {
            Some((n, total)) => if total > 1 {
                &&& segments(p).len() == 4
                &&& segments(p)[2] == sanitized(
                    match p.media_type {
                        Some(m) => m + " "@,
                        None => Seq::empty(),
                    } + dec2(n as nat),
                )
            } else {
                segments(p).len() == 3
            },
            None => segments(p).len() == 3,
        },
        segments(p)[0] == sanitized(p.artist),
{
}

proof fn lemma_year_unset(items: Seq<Item>)
    ensures
        best_year(items).value is None <==> best_year(items).prio == u32::MAX,
    decreases items.len(),
{
    if items.len() > 0 {
        lemma_year_unset(items.drop_last());
    }
}

proof fn lemma_text_unset(items: Seq<Item>, f: TextField)
    ensures
        best_text(items, f).value is None <==> best_text(items, f).prio == u32::MAX,
    decreases items.len(),
{
    if items.len() > 0 {
        lemma_text_unset(items.drop_last(), f);
    }
}

proof fn lemma_year_found(items: Seq<Item>, i: int)
    requires
        0 <= i < items.len(),
        year_prio(items[i].key) is Some,
        year_value(items[i].value) is Some,
    ensures
        best_year(items).value is Some,
    decreases items.len(),
{
    if i < items.len() - 1 {
        assert(items.drop_last()[i] == items[i]);
        lemma_year_found(items.drop_last(), i);
    } else {
        lemma_year_unset(items.drop_last());
    }
}

proof fn lemma_text_found(items: Seq<Item>, f: TextField, i: int)
    requires
        0 <= i < items.len(),
        text_prio(f, items[i].key) is Some,
        text_value(items[i].value) is Some,
    ensures
        best_text(items, f).value is Some,
    decreases items.len(),
{
    if i < items.len() - 1 {
        assert(items.drop_last()[i] == items[i]);
        lemma_text_found(items.drop_last(), f, i);
    } else {
        lemma_text_unset(items.drop_last(), f);
    }
}

/// Item `i` is an original release date that reads as a year.
pub open spec fn has_release_date(items: Seq<Item>, i: int) -> bool {
    items[i].key == Key::OriginalReleaseDate && year_value(items[i].value) is Some
}

proof fn lemma_year_below_best(items: Seq<Item>)
    requires
        forall|i: int| 0 <= i < items.len() ==> !has_release_date(items, i),
    ensures
        best_year(items).prio >= 2,
    decreases items.len(),
{
    if items.len() > 0 {
        let d = items.drop_last();
        assert forall|i: int| 0 <= i < d.len() implies !has_release_date(d, i) by {
            assert(d[i] == items[i]);
            assert(!has_release_date(items, i));
        }
        lemma_year_below_best(d);
        assert(!has_release_date(items, items.len() - 1));
    }
}

proof fn lemma_release_date_held(items: Seq<Item>, i: int)
    requires
        0 <= i < items.len(),
        has_release_date(items, i),
        forall|j: int| 0 <= j < i ==> !has_release_date(items, j),
    ensures
        best_year(items) == (Best { value: year_value(items[i].value), prio: 1 }),
    decreases items.len(),
{
    let d = items.drop_last();
    if i < items.len() - 1 {
        assert(d[i] == items[i]);
        assert forall|j: int| 0 <= j < i implies !has_release_date(d, j) by {
            assert(d[j] == items[j]);
            assert(!has_release_date(items, j));
        }
        lemma_release_date_held(d, i);
    } else {
        assert forall|j: int| 0 <= j < d.len() implies !has_release_date(d, j) by {
            assert(d[j] == items[j]);
            assert(!has_release_date(items, j));
        }
        lemma_year_below_best(d);
    }
}

/// The first usable original release date gives the year, whatever other
/// year-like items come before or after it: its priority is the best.
pub proof fn lemma_release_date_wins(items: Seq<Item>, i: int)
    requires
        0 <= i < items.len(),
        has_release_date(items, i),
        forall|j: int| 0 <= j < i ==> !has_release_date(items, j),
    ensures
        best_year(items).value == year_value(items[i].value),
{
    lemma_release_date_held(items, i);
}

/// When year, album and artist each have a usable item and neither a track
/// number nor a title is present, the messages added are exactly those for
/// the title and the track number, and no record is resolved.
pub proof fn lemma_only_track_and_title_missing(items: Seq<Item>, y: int, a: int, r: int)
    requires
        forall|i: int|
            0 <= i < items.len() ==> #[trigger] items[i].key != Key::TrackNumber && items[i].key
                != Key::TrackTitle,
        0 <= y < items.len(),
        year_prio(items[y].key) is Some,
        year_value(items[y].value) is Some,
        0 <= a < items.len(),
        items[a].key == Key::AlbumTitle,
        text_value(items[a].value) is Some,
        0 <= r < items.len(),
        items[r].key == Key::AlbumArtist || items[r].key == Key::TrackArtist,
        text_value(items[r].value) is Some,
    ensures
        missing(items) == seq!["missing title"@, "missing track number"@],
        resolved(items) is None,
{
    lemma_no_track_no_title(items);
    lemma_year_found(items, y);
    lemma_text_found(items, TextField::Album, a);
    lemma_text_found(items, TextField::Artist, r);
    lemma_text_absent(items, TextField::Title);
    lemma_num_absent(items, NumField::Track);
    assert(note(best_year(items).value is None, "missing year"@) =~= Seq::empty());
    assert(note(best_text(items, TextField::Album).value is None, "missing album"@) =~= Seq::<
        Seq<char>,
    >::empty());
    assert(note(best_text(items, TextField::Artist).value is None, "missing artist"@) =~= Seq::<
        Seq<char>,
    >::empty());
    assert(missing(items) =~= seq!["missing title"@, "missing track number"@]);
}

} // verus!
