//! The world in which a document is compiled, as far as it decides: file
//! entries and their parsed sources, the cache of files read, the errors of
//! position lookups in a source, the current date in a given offset, and the
//! directory against which a document's files are resolved.
use vstd::prelude::*;
use vstd::utf8::{decode_utf8, is_char_boundary, valid_utf8};
use typst::foundations::Bytes;
use typst_syntax::{FileId, Lines, Source};
use time::{Date, OffsetDateTime, UtcOffset};
use crate::text::{push_char, utf8_text};
use crate::package::{package_text, package_to_text, PackageSpec};
use vstd::string::StringExecFns;
use vstd::std_specs::iter::IteratorSpec;

verus! {

/// `typst::foundations::Bytes`, which Verus sees only as a whole.
#[verifier::external_type_specification]
#[verifier::external_body]
pub struct ExBytes(Bytes);

/// `typst_syntax::Source`, a parsed source file, which Verus sees only as a
/// whole.
#[verifier::external_type_specification]
#[verifier::external_body]
pub struct ExSource(Source);

/// `typst_syntax::FileId`, which Verus sees only as a whole.
#[verifier::external_type_specification]
#[verifier::external_body]
pub struct ExFileId(FileId);

/// The bytes that a `typst::foundations::Bytes` holds.
pub uninterp spec fn bytes_data(b: Bytes) -> Seq<u8>;

/// Wraps a vector in `typst::foundations::Bytes` (`Bytes::new`), which then
/// holds exactly the vector's bytes.
#[verifier::external_body]
fn bytes_new(data: Vec<u8>) -> (b: Bytes)
    ensures
        bytes_data(b) == data@,
{
    Bytes::new(data)
}

/// The bytes that a `typst::foundations::Bytes` holds (`Bytes::as_slice`).
#[verifier::external_body]
fn bytes_slice(b: &Bytes) -> (s: &[u8])
    ensures
        s@ == bytes_data(*b),
{
    b.as_slice()
}

/// Another handle on the same bytes (`Bytes::clone`, which clones the `Arc`
/// that holds them).
#[verifier::external_body]
fn bytes_clone(b: &Bytes) -> (r: Bytes)
    ensures
        r == *b,
{
    b.clone()
}

/// The source that `typst_syntax::Source::new` makes of a file id and a text.
pub uninterp spec fn parsed_source(id: FileId, text: Seq<char>) -> Source;

/// Parses a text into a source file with the given id (`Source::new`). It
/// fails only for a text of about 2^47 syntax nodes or more, which no memory
/// holds.
#[verifier::external_body]
fn source_new(id: FileId, text: String) -> (s: Source)
    ensures
        s == parsed_source(id, text@),
{
    Source::new(id, text)
}

/// Another handle on the same source (`Source::clone`, which clones the
/// `Arc` that holds it).
#[verifier::external_body]
fn source_clone(s: &Source) -> (r: Source)
    ensures
        r == *s,
{
    s.clone()
}

/// The byte order mark.
pub open spec fn bom() -> char {
    '\u{feff}'
}

/// The text without its leading byte order marks (as
/// `str::trim_start_matches('\u{feff}')`).
pub open spec fn trim_leading_bom(s: Seq<char>) -> Seq<char>
    decreases s.len(),
{
    if s.len() > 0 && s[0] == bom() {
        trim_leading_bom(s.drop_first())
    } else {
        s
    }
}

/// The number of byte order marks at the start of a text, with what
/// trimming makes of the text.
proof fn lemma_leading_boms(s: Seq<char>) -> (k: int)
    ensures
        0 <= k <= s.len(),
        trim_leading_bom(s) == s.skip(k),
        forall|i: int| 0 <= i < k ==> #[trigger] s[i] == bom(),
        k < s.len() ==> s[k] != bom(),
    decreases s.len(),
{
    if s.len() > 0 && s[0] == bom() {
        let t = s.drop_first();
        let k = lemma_leading_boms(t);
        assert(t.skip(k) =~= s.skip(k + 1));
        assert forall|i: int| 0 <= i < k + 1 implies #[trigger] s[i] == bom() by {
            if i > 0 {
                assert(s[i] == t[i - 1]);
            }
        }
        if k + 1 < s.len() {
            assert(s[k + 1] == t[k]);
        }
        k + 1
    } else {
        assert(s.skip(0) =~= s);
        0
    }
}

/// Trimming removes only the byte order marks at the start: the result is
/// the text after its first `k` characters, where those `k` are all byte
/// order marks and the next one, if any, is not; a text that does not start
/// with a byte order mark comes back unchanged.
pub proof fn law_trim_removes_only_leading_boms(s: Seq<char>)
    ensures
        exists|k: int|
            #![trigger s.skip(k)]
            0 <= k <= s.len() && trim_leading_bom(s) == s.skip(k) && (forall|i: int|
                0 <= i < k ==> #[trigger] s[i] == '\u{feff}') && (k < s.len() ==> s[k] != '\u{feff}'),
        (s.len() == 0 || s[0] != '\u{feff}') ==> trim_leading_bom(s) == s,
{
    let k = lemma_leading_boms(s);
    assert(0 <= k <= s.len() && trim_leading_bom(s) == s.skip(k) && (forall|i: int|
        0 <= i < k ==> #[trigger] s[i] == '\u{feff}') && (k < s.len() ==> s[k] != '\u{feff}'));
    if s.len() == 0 || s[0] != '\u{feff}' {
        assert(k == 0);
        assert(s.skip(0) =~= s);
    }
}

/// Removes the leading byte order marks of a text.
pub fn trim_bom(s: &str) -> (r: String)
    ensures
        r@ == trim_leading_bom(s@),
{
    let mut out = String::new();
    let mut leading = true;
    let ghost text = s@;
    let mut chars = s.chars();
    let ghost mut k: int = 0;
    broadcast use vstd::string::group_string_axioms;
    broadcast use vstd::string::next_postcondition;
    assert(text.skip(0) =~= text);
    loop
        invariant
            chars.remaining() == text.skip(k),
            chars.obeys_prophetic_iter_laws(),
            0 <= k <= text.len(),
            leading ==> out@.len() == 0 && trim_leading_bom(text) == trim_leading_bom(text.skip(k)),
            !leading ==> out@ + text.skip(k) == trim_leading_bom(text),
        ensures
            out@ == trim_leading_bom(text),
        decreases text.len() - k,
    {
        let c = chars.next();
        match c {
            None => {
                assert(text.skip(k).len() == 0);
                if leading {
                    assert(trim_leading_bom(text.skip(k)) == text.skip(k));
                    assert(out@ =~= text.skip(k));
                } else {
                    assert(out@ + text.skip(k) =~= out@);
                }
                break;
            },
            Some(ch) => {
                assert(text.skip(k).drop_first() =~= text.skip(k + 1));
                if leading && ch == '\u{feff}' {
                } else if leading {
                    leading = false;
                    push_char(&mut out, ch);
                    assert(out@ + text.skip(k + 1) =~= text.skip(k));
                } else {
                    let ghost before = out@;
                    push_char(&mut out, ch);
                    assert(out@ + text.skip(k + 1) =~= before + text.skip(k));
                }
                proof {
                    k = k + 1;
                }
            },
        }
    }
    out
}

/// Why a file could not become a source.
#[derive(Debug, PartialEq, Eq)]
pub enum FileEntryError {
    /// The file is not valid UTF-8.
    InvalidUtf8,
}

/// A file that the world has read: its bytes and, once it has been parsed,
/// its source.
#[derive(Debug)]
pub struct FileEntry {
    pub bytes: Bytes,
    pub source: Option<Source>,
}

/// What asking an entry for its source gives, and what the entry holds as
/// source afterwards: a source made before is given back whatever the id;
/// else the bytes, decoded as UTF-8 and without leading byte order marks,
/// are parsed under the id and kept.
pub open spec fn source_outcome(bytes: Seq<u8>, cached: Option<Source>, id: FileId) -> (
    Result<Source, FileEntryError>,
    Option<Source>,
) {
    match cached {
        Some(s) => (Ok(s), Some(s)),
        None => if valid_utf8(bytes) {
            let s = parsed_source(id, trim_leading_bom(decode_utf8(bytes)));
            (Ok(s), Some(s))
        } else {
            (Err(FileEntryError::InvalidUtf8), None)
        },
    }
}

impl Clone for FileEntry {
    fn clone(&self) -> (r: Self)
        ensures
            r == *self,
    {
        let source = match &self.source {
            Some(s) => Some(source_clone(s)),
            None => None,
        };
        FileEntry { bytes: bytes_clone(&self.bytes), source }
    }
}

impl FileEntry {
    /// An entry of the given bytes and source.
    pub fn new(bytes: Vec<u8>, source: Option<Source>) -> (e: Self)
        ensures
            bytes_data(e.bytes) == bytes@,
            e.source == source,
    {
        FileEntry { bytes: bytes_new(bytes), source }
    }

    /// The entry's source, parsed under `id` the first time it is asked for.
    pub fn source(&mut self, id: FileId) -> (res: Result<Source, FileEntryError>)
        ensures
            (res, final(self).source) == source_outcome(bytes_data(old(self).bytes), old(self).source, id),
            final(self).bytes == old(self).bytes,
    {
        match &self.source {
            Some(s) => {
                return Ok(source_clone(s));
            },
            None => {},
        }
        let text = match utf8_text(bytes_slice(&self.bytes)) {
            Ok(t) => t,
            Err(_) => {
                return Err(FileEntryError::InvalidUtf8);
            },
        };
        let contents = trim_bom(text.as_str());
        let source = source_new(id, contents);
        self.source = Some(source_clone(&source));
        Ok(source)
    }
}

/// The number of a file id (`FileId::into_raw`).
pub uninterp spec fn file_id_number(id: FileId) -> u16;

/// The number of a file id (`FileId::into_raw`, which hands back the number
/// that the id wraps).
#[verifier::external_body]
fn file_id_raw(id: FileId) -> (n: u16)
    ensures
        n == file_id_number(id),
{
    id.into_raw().get()
}

/// The files that a world has read, by the number of their id.
pub struct FileCache {
    pub entries: std::collections::HashMap<u16, FileEntry>,
}

impl FileCache {
    /// A cache that holds no file.
    pub fn new() -> (c: Self)
        ensures
            c.entries@ == Map::<u16, FileEntry>::empty(),
    {
        FileCache { entries: std::collections::HashMap::new() }
    }

    /// A copy of the entry kept for the id, if there is one.
    pub fn get(&self, id: FileId) -> (r: Option<FileEntry>)
        ensures
            r == (if self.entries@.contains_key(file_id_number(id)) {
                Some(self.entries@[file_id_number(id)])
            } else {
                None
            }),
    {
        broadcast use vstd::std_specs::hash::group_hash_axioms;
        let n = file_id_raw(id);
        match self.entries.get(&n) {
            Some(entry) => Some(entry.clone()),
            None => None,
        }
    }

    /// Keeps the contents of a file just read, unless an entry for the id is
    /// kept already; gives back a copy of the entry kept for the id.
    pub fn insert_read(&mut self, id: FileId, content: Vec<u8>) -> (e: FileEntry)
        ensures
            old(self).entries@.contains_key(file_id_number(id)) ==> {
                &&& final(self).entries@ == old(self).entries@
                &&& e == old(self).entries@[file_id_number(id)]
            },
            !old(self).entries@.contains_key(file_id_number(id)) ==> {
                &&& final(self).entries@ == old(self).entries@.insert(file_id_number(id), e)
                &&& bytes_data(e.bytes) == content@
                &&& e.source is None
            },
    {
        broadcast use vstd::std_specs::hash::group_hash_axioms;
        let n = file_id_raw(id);
        match self.entries.get(&n) {
            Some(entry) => {
                return entry.clone();
            },
            None => {},
        }
        let entry = FileEntry::new(content, None);
        let kept = entry.clone();
        self.entries.insert(n, entry);
        kept
    }
}

/// Once an entry has given a source, it gives that same source back on every
/// later request, whatever the id, and keeps holding it.
pub proof fn law_source_is_kept(bytes: Seq<u8>, cached: Option<Source>, id: FileId, later: FileId)
    requires
        source_outcome(bytes, cached, id).0 is Ok,
    ensures
        source_outcome(bytes, source_outcome(bytes, cached, id).1, later) == source_outcome(bytes, cached, id),
{
}

/// `typst_syntax::Lines`, the line index of a text, which Verus sees only as
/// a whole.
#[verifier::external_type_specification]
#[verifier::external_body]
#[verifier::reject_recursive_types(S)]
pub struct ExLines<S>(Lines<S>);

/// The UTF-8 bytes of the text that a `typst_syntax::Lines` indexes.
pub uninterp spec fn lines_text(l: Lines<String>) -> Seq<u8>;

/// The byte offsets at which the lines of a `typst_syntax::Lines` begin, in
/// order.
pub uninterp spec fn lines_starts(l: Lines<String>) -> Seq<usize>;

/// The line `i` is the one that holds the byte index `b`: it begins at or
/// before `b`, and the next line, if any, begins after it.
pub open spec fn holds_byte(starts: Seq<usize>, i: int, b: int) -> bool {
    &&& 0 <= i < starts.len()
    &&& starts[i] <= b
    &&& i + 1 < starts.len() ==> b < starts[i + 1]
}

/// The line starts of a text of `len` bytes, as `Lines` keeps them: the
/// first line begins at 0, each line begins after the one before, and none
/// begins past the end of the text.
pub open spec fn starts_well_formed(starts: Seq<usize>, len: int) -> bool {
    &&& starts.len() >= 1
    &&& starts[0] == 0
    &&& forall|i: int, j: int| 0 <= i < j < starts.len() ==> starts[i] < starts[j]
    &&& forall|i: int| 0 <= i < starts.len() ==> starts[i] <= len
}

/// Of well-formed line starts, at most one line holds a byte index.
pub proof fn law_one_line_holds_each_byte(starts: Seq<usize>, len: int, b: int, i: int, j: int)
    requires
        starts_well_formed(starts, len),
        holds_byte(starts, i, b),
        holds_byte(starts, j, b),
    ensures
        i == j,
{
    if i < j {
        assert(starts[i + 1] <= starts[j]);
    } else if j < i {
        assert(starts[j + 1] <= starts[i]);
    }
}

/// The end of line `i`: where the next line begins, or the end of the text.
pub open spec fn line_end(starts: Seq<usize>, i: int, len: int) -> int {
    if i + 1 < starts.len() {
        starts[i + 1] as int
    } else {
        len
    }
}

/// The length of the text in bytes (`Lines::len_bytes`).
#[verifier::external_body]
fn lines_len_bytes(l: &Lines<String>) -> (n: usize)
    ensures
        n == lines_text(*l).len(),
{
    l.len_bytes()
}

/// The number of lines (`Lines::len_lines`).
#[verifier::external_body]
fn lines_len_lines(l: &Lines<String>) -> (n: usize)
    ensures
        n == lines_starts(*l).len(),
{
    l.len_lines()
}

/// The line that holds a byte index (`Lines::byte_to_line`): there is one
/// exactly when the index is at most the text's length. The line starts that
/// it searches begin at 0, increase, and stay within the text, as `Lines`
/// builds and edits them.
#[verifier::external_body]
fn lines_byte_to_line(l: &Lines<String>, byte_idx: usize) -> (r: Option<usize>)
    ensures
        r is Some <==> byte_idx <= lines_text(*l).len(),
        r matches Some(i) ==> holds_byte(lines_starts(*l), i as int, byte_idx as int) && starts_well_formed(
            lines_starts(*l),
            lines_text(*l).len() as int,
        ),
{
    l.byte_to_line(byte_idx)
}

/// The byte range of a line (`Lines::line_to_range`): there is one exactly
/// when the line exists; it runs from the line's start to the next line's
/// start or the end of the text.
#[verifier::external_body]
fn lines_line_to_range(l: &Lines<String>, line_idx: usize) -> (r: Option<std::ops::Range<usize>>)
    ensures
        r is Some <==> line_idx < lines_starts(*l).len(),
        r matches Some(range) ==> range.start == lines_starts(*l)[line_idx as int] && range.end
            == line_end(lines_starts(*l), line_idx as int, lines_text(*l).len() as int),
{
    l.line_to_range(line_idx)
}

/// The column of a byte index (`Lines::byte_to_column`): the number of
/// characters between the start of its line and the index, the line starts
/// being well formed as `Lines` keeps them. An index within
/// the text has one exactly when it falls on a character boundary.
#[verifier::external_body]
fn lines_byte_to_column(l: &Lines<String>, byte_idx: usize) -> (r: Option<usize>)
    ensures
        r is Some ==> byte_idx <= lines_text(*l).len(),
        byte_idx <= lines_text(*l).len() ==> (r is Some <==> is_char_boundary(
            lines_text(*l),
            byte_idx as int,
        )),
        r matches Some(c) ==> starts_well_formed(lines_starts(*l), lines_text(*l).len() as int) && exists|i: int|
            holds_byte(lines_starts(*l), i, byte_idx as int) && c == decode_utf8(
                lines_text(*l).subrange(lines_starts(*l)[i] as int, byte_idx as int),
            ).len(),
{
    l.byte_to_column(byte_idx)
}

/// Why a position could not be found in a source, as
/// `codespan_reporting::files::Error` has it.
#[derive(Debug, PartialEq, Eq)]
pub enum LocationError {
    /// The byte index is past the end of the text.
    IndexTooLarge { given: usize, max: usize },
    /// The line index is past the last line.
    LineTooLarge { given: usize, max: usize },
    /// The byte index falls inside a character.
    InvalidCharBoundary { given: usize },
}

/// The line that holds a byte index; an index past the end of the text is
/// too large.
pub fn line_index(lines: &Lines<String>, given: usize) -> (res: Result<usize, LocationError>)
    ensures
        res is Err <==> given > lines_text(*lines).len(),
        res matches Err(e) ==> e == (LocationError::IndexTooLarge {
            given,
            max: lines_text(*lines).len() as usize,
        }),
        res matches Ok(line) ==> forall|j: int|
            holds_byte(lines_starts(*lines), j, given as int) <==> j == line as int,
{
    match lines_byte_to_line(lines, given) {
        Some(line) => {
            proof {
                assert forall|j: int| holds_byte(lines_starts(*lines), j, given as int) <==> j == line as int by {
                    if holds_byte(lines_starts(*lines), j, given as int) {
                        law_one_line_holds_each_byte(
                            lines_starts(*lines),
                            lines_text(*lines).len() as int,
                            given as int,
                            j,
                            line as int,
                        );
                    }
                }
            }
            Ok(line)
        },
        None => Err(LocationError::IndexTooLarge { given, max: lines_len_bytes(lines) }),
    }
}

/// The byte range of a line; a line past the last is too large.
pub fn line_range(lines: &Lines<String>, given: usize) -> (res: Result<
    std::ops::Range<usize>,
    LocationError,
>)
    ensures
        res is Err <==> given >= lines_starts(*lines).len(),
        res matches Err(e) ==> e == (LocationError::LineTooLarge {
            given,
            max: lines_starts(*lines).len() as usize,
        }),
        res matches Ok(range) ==> range.start == lines_starts(*lines)[given as int] && range.end
            == line_end(lines_starts(*lines), given as int, lines_text(*lines).len() as int),
{
    match lines_line_to_range(lines, given) {
        Some(range) => Ok(range),
        None => Err(LocationError::LineTooLarge { given, max: lines_len_lines(lines) }),
    }
}

/// The column of a byte index: the number of characters between the start of
/// its line and the index. An index past the end of the text is too large,
/// one within it that falls inside a character is not on a boundary.
pub fn column_number(lines: &Lines<String>, given: usize) -> (res: Result<usize, LocationError>)
    ensures
        given > lines_text(*lines).len() ==> res == Err::<usize, LocationError>(
            LocationError::IndexTooLarge { given, max: lines_text(*lines).len() as usize },
        ),
        given <= lines_text(*lines).len() ==> (res is Ok <==> is_char_boundary(
            lines_text(*lines),
            given as int,
        )),
        given <= lines_text(*lines).len() && res is Err ==> res == Err::<usize, LocationError>(
            LocationError::InvalidCharBoundary { given },
        ),
        res matches Ok(c) ==> exists|i: int|
            holds_byte(lines_starts(*lines), i, given as int) && c == decode_utf8(
                lines_text(*lines).subrange(lines_starts(*lines)[i] as int, given as int),
            ).len(),
        res matches Ok(c) ==> forall|i: int|
            holds_byte(lines_starts(*lines), i, given as int) ==> c == decode_utf8(
                lines_text(*lines).subrange(lines_starts(*lines)[i] as int, given as int),
            ).len(),
{
    match lines_byte_to_column(lines, given) {
        Some(column) => {
            proof {
                let starts = lines_starts(*lines);
                let i0 = choose|i: int|
                    holds_byte(starts, i, given as int) && column == decode_utf8(
                        lines_text(*lines).subrange(starts[i] as int, given as int),
                    ).len();
                assert forall|i: int| holds_byte(starts, i, given as int) implies column == decode_utf8(
                    lines_text(*lines).subrange(starts[i] as int, given as int),
                ).len() by {
                    law_one_line_holds_each_byte(starts, lines_text(*lines).len() as int, given as int, i, i0);
                }
            }
            Ok(column)
        },
        None => {
            let max = lines_len_bytes(lines);
            if given <= max {
                Err(LocationError::InvalidCharBoundary { given })
            } else {
                Err(LocationError::IndexTooLarge { given, max })
            }
        },
    }
}

/// `time::OffsetDateTime`, which Verus sees only as a whole.
#[verifier::external_type_specification]
#[verifier::external_body]
pub struct ExOffsetDateTime(OffsetDateTime);

/// `time::UtcOffset`, which Verus sees only as a whole.
#[verifier::external_type_specification]
#[verifier::external_body]
pub struct ExUtcOffset(UtcOffset);

/// `time::Date`, which Verus sees only as a whole.
#[verifier::external_type_specification]
#[verifier::external_body]
pub struct ExDate(Date);

/// The offset that `time::UtcOffset::from_hms(hours, 0, 0)` makes.
pub uninterp spec fn offset_of_hours(hours: i8) -> UtcOffset;

/// The offset of a whole number of hours (`UtcOffset::from_hms(hours, 0,
/// 0)`), which exists exactly for -25 to 25 hours.
#[verifier::external_body]
fn utc_offset_hours(hours: i8) -> (r: Option<UtcOffset>)
    ensures
        r == (if -25 <= hours <= 25 {
            Some(offset_of_hours(hours))
        } else {
            None
        }),
{
    UtcOffset::from_hms(hours, 0, 0).ok()
}

/// What `time::OffsetDateTime::checked_to_offset` makes of a moment and an
/// offset: the same moment in that offset, absent when its date falls
/// outside the range that `time` supports.
pub uninterp spec fn in_offset(t: OffsetDateTime, offset: UtcOffset) -> Option<OffsetDateTime>;

/// The same moment in another offset (`OffsetDateTime::checked_to_offset`).
#[verifier::external_body]
fn to_offset(t: OffsetDateTime, offset: UtcOffset) -> (r: Option<OffsetDateTime>)
    ensures
        r == in_offset(t, offset),
{
    t.checked_to_offset(offset)
}

/// The calendar date of a moment, as `time::OffsetDateTime::date` gives it.
pub uninterp spec fn date_in_offset(t: OffsetDateTime) -> Date;

/// The calendar date of a moment (`OffsetDateTime::date`).
#[verifier::external_body]
fn date_of(t: OffsetDateTime) -> (d: Date)
    ensures
        d == date_in_offset(t),
{
    t.date()
}

/// The date of the moment `now` in an offset of whole hours, as the world
/// reports it to a document.
pub open spec fn date_at(now: OffsetDateTime, offset: Option<i64>) -> Option<Date> {
    let hours = match offset {
        Some(h) => h as int,
        None => 0,
    };
    if -25 <= hours <= 25 {
        match in_offset(now, offset_of_hours(hours as i8)) {
            Some(t) => Some(date_in_offset(t)),
            None => None,
        }
    } else {
        None
    }
}

/// The date of the moment `now` in the offset of `offset` hours (no offset
/// meaning UTC). There is none when the offset lies outside -25 to 25 hours
/// (an offset that does not even fit an `i8` included).
pub fn today_date(now: OffsetDateTime, offset: Option<i64>) -> (res: Option<Date>)
    ensures
        res == date_at(now, offset),
{
    let hours: i64 = match offset {
        Some(h) => h,
        None => 0,
    };
    if hours < -128 || hours > 127 {
        return None;
    }
    let small: i8 = hours as i8;
    let off = match utc_offset_hours(small) {
        Some(o) => o,
        None => {
            return None;
        },
    };
    match to_offset(now, off) {
        Some(t) => Some(date_of(t)),
        None => None,
    }
}

/// The date in an offset of `h` whole hours is the calendar date of the
/// moment seen in the UTC offset of exactly `h` hours, its sign kept, when
/// -25 <= h <= 25 (none when the moment has no date in that offset); no
/// offset means UTC; any other number of hours gives no date.
pub proof fn law_date_in_signed_hour_offset(now: OffsetDateTime, h: i64)
    ensures
        -25 <= h <= 25 ==> date_at(now, Some(h)) == match in_offset(now, offset_of_hours(h as i8)) {
            Some(t) => Some(date_in_offset(t)),
            None => None,
        },
        !(-25 <= h <= 25) ==> date_at(now, Some(h)) is None,
        date_at(now, None) == match in_offset(now, offset_of_hours(0i8)) {
            Some(t) => Some(date_in_offset(t)),
            None => None,
        },
{
}

/// The parent directory of a path (`std::path::Path::parent`, rendered back
/// as text): absent when the path ends in a root or is empty.
pub uninterp spec fn path_parent(p: Seq<char>) -> Option<Seq<char>>;

/// The parent directory of a path (`Path::new(p).parent()`, rendered with
/// `to_string_lossy`, which is exact for text).
#[verifier::external_body]
fn parent_of(p: &str) -> (r: Option<String>)
    ensures
        match r {
            Some(s) => path_parent(p@) == Some(s@),
            None => path_parent(p@) is None,
        },
{
    match std::path::Path::new(p).parent() {
        Some(d) => Some(d.to_string_lossy().into_owned()),
        None => None,
    }
}

/// The directory against which the files of a document are resolved: the
/// directory of the input file, or "." when it has none.
pub fn source_root(input: &str) -> (root: String)
    ensures
        root@ == match path_parent(input@) {
            Some(d) => d,
            None => "."@,
        },
{
    match parent_of(input) {
        Some(d) => d,
        None => String::from_str("."),
    }
}

/// The name under which a file is shown in a report: a file of a package by
/// the package and the file's path from the package's root; any other file
/// by its path under the project root when it has one, else by its path
/// relative to the root.
pub fn file_display_name(
    package: Option<&PackageSpec>,
    rooted: &str,
    resolved: Option<String>,
    rootless: &str,
) -> (name: String)
    ensures
        name@ == match package {
            Some(p) => package_text(*p) + rooted@,
            None => match resolved {
                Some(r) => r@,
                None => rootless@,
            },
        },
{
    match package {
        Some(p) => package_to_text(p).concat(rooted),
        None => match resolved {
            Some(r) => r,
            None => String::from_str(rootless),
        },
    }
}

} // verus!
