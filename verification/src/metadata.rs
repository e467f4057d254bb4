//! The metadata of a chart file (`KEY:value` lines): a map from keys to the line where the key
//! was last set and the value it was given there.
use vstd::prelude::*;

use crate::error::{ErrorKindView, ParseErrorView, TJAParseError, TJAParseErrorKind};
use crate::numbers::{parse_u8, parse_unsigned, is_float_literal, range_is_float_literal};
use crate::text::{chars_eq_str, chars_to_string};

verus! {

broadcast use vstd::string::group_string_axioms;

/// The mathematical value of the metadata: each key with the line number and value it was last
/// given.
pub type MetadataView = Map<Seq<char>, (nat, Seq<char>)>;

/// One `KEY:value` definition.
pub struct MetadataEntry {
    pub key: Vec<char>,
    pub line: usize,
    pub value: Vec<char>,
}

/// The metadata read so far. Entries are kept in the order they were read; a later entry for a
/// key replaces the earlier ones.
pub struct Metadata {
    entries: Vec<MetadataEntry>,
}

/// The map that a list of entries defines, later entries taking precedence.
pub open spec fn entries_map(es: Seq<MetadataEntry>) -> MetadataView
    decreases es.len(),
{
    if es.len() == 0 {
        Map::empty()
    } else {
        entries_map(es.drop_last()).insert(
            es.last().key@,
            (es.last().line as nat, es.last().value@),
        )
    }
}

impl View for Metadata {
    type V = MetadataView;

    closed spec fn view(&self) -> MetadataView {
        entries_map(self.entries@)
    }
}

impl Metadata {
    /// No metadata.
    pub fn new() -> (m: Self)
        ensures
            m@ == Map::<Seq<char>, (nat, Seq<char>)>::empty(),
    {
        Metadata { entries: Vec::new() }
    }

    /// Sets `key` to `value`, read at line `line`.
    pub fn insert(&mut self, key: Vec<char>, line: usize, value: Vec<char>)
        ensures
            final(self)@ == old(self)@.insert(key@, (line as nat, value@)),
    {
        let ghost old_entries = self.entries@;
        let ghost k = key@;
        let ghost v = value@;
        self.entries.push(MetadataEntry { key, line, value });
        assert(self.entries@.drop_last() =~= old_entries);
    }

    /// The line and value of `key`, if it has been set.
    pub fn get(&self, key: &str) -> (r: Option<(usize, Vec<char>)>)
        ensures
            match r {
                Some((line, value)) => self@.get(key@) == Some((line as nat, value@)),
                None => self@.get(key@) is None,
            },
    {
        let mut i = self.entries.len();
        assert(self.entries@.take(i as int) =~= self.entries@);
        while i > 0
            invariant
                i <= self.entries@.len(),
                forall|j: int|
                    i <= j < self.entries@.len() ==> #[trigger] self.entries@[j].key@ != key@,
                entries_map(self.entries@).get(key@) == entries_map(self.entries@.take(i as int)).get(
                    key@,
                ),
            decreases i,
        {
            let ghost pre = self.entries@.take(i as int);
            assert(pre.drop_last() =~= self.entries@.take(i - 1));
            if chars_eq_str(&self.entries[i - 1].key, key) {
                let e = &self.entries[i - 1];
                let value = crate::text::copy_range(&e.value, 0, e.value.len());
                assert(e.value@.subrange(0, e.value@.len() as int) =~= e.value@);
                return Some((e.line, value));
            }
            i = i - 1;
        }
        assert(self.entries@.take(0) =~= Seq::<MetadataEntry>::empty());
        None
    }
}

/// The error for a key that is needed but missing: for a course (at the line of its `#START`)
/// when `course_line` is given, else for the song (at line 0).
pub open spec fn missing_error(key: Seq<char>, course_line: Option<nat>) -> ParseErrorView {
    match course_line {
        Some(l) => ParseErrorView { kind: ErrorKindView::MissingMetadataForCourse(key), line: l },
        None => ParseErrorView { kind: ErrorKindView::MissingMetadataForSong(key), line: 0 },
    }
}

fn missing(key: &str, course_line: Option<usize>) -> (e: TJAParseError)
    ensures
        e@ == missing_error(key@, match course_line {
            Some(l) => Some(l as nat),
            None => None,
        }),
{
    match course_line {
        Some(l) => TJAParseError {
            kind: TJAParseErrorKind::MissingMetadataForCourse(key.to_owned()),
            line: l,
        },
        None => TJAParseError {
            kind: TJAParseErrorKind::MissingMetadataForSong(key.to_owned()),
            line: 0,
        },
    }
}

/// An option of a line number, as a number.
pub open spec fn opt_nat(l: Option<usize>) -> Option<nat> {
    match l {
        Some(x) => Some(x as nat),
        None => None,
    }
}

/// A `u8` metadata value: the value of `key` read with `str::parse::<u8>` (an error at its line
/// if that fails), else `default`, else a missing metadata error.
pub open spec fn parsed_u8_metadata(
    meta: MetadataView,
    key: Seq<char>,
    default: Option<u8>,
    course_line: Option<nat>,
) -> Result<u8, ParseErrorView> {
    match meta.get(key) {
        Some((line, value)) => match parse_unsigned(value, 255) {
            Some(x) => Ok(x as u8),
            None => Err(ParseErrorView { kind: ErrorKindView::InvalidMetadata, line }),
        },
        None => match default {
            Some(d) => Ok(d),
            None => Err(missing_error(key, course_line)),
        },
    }
}

/// Reads a `u8` metadata value (see [parsed_u8_metadata]).
pub fn get_parsed_metadata(
    metadata: &Metadata,
    key: &str,
    default: Option<u8>,
    course_line: Option<usize>,
) -> (r: Result<u8, TJAParseError>)
    ensures
        match r {
            Ok(x) => parsed_u8_metadata(metadata@, key@, default, opt_nat(course_line)) == Ok::<
                u8,
                ParseErrorView,
            >(x),
            Err(e) => parsed_u8_metadata(metadata@, key@, default, opt_nat(course_line)) == Err::<
                u8,
                ParseErrorView,
            >(e@),
        },
{
    match metadata.get(key) {
        Some((line, value)) => match parse_u8(&value) {
            Some(x) => Ok(x),
            None => Err(TJAParseError { kind: TJAParseErrorKind::InvalidMetadata, line }),
        },
        None => match default {
            Some(d) => Ok(d),
            None => Err(missing(key, course_line)),
        },
    }
}

/// A float metadata value with a default: `None` when `key` is not set (the default applies),
/// the text of its value when that is a float literal, and an error at its line otherwise.
pub open spec fn float_metadata(meta: MetadataView, key: Seq<char>) -> Result<
    Option<Seq<char>>,
    ParseErrorView,
> {
    match meta.get(key) {
        Some((line, value)) => if is_float_literal(value) {
            Ok(Some(value))
        } else {
            Err(ParseErrorView { kind: ErrorKindView::InvalidMetadata, line })
        },
        None => Ok(None),
    }
}

/// Reads a float metadata value that has a default (see [float_metadata]).
pub fn get_float_metadata(metadata: &Metadata, key: &str) -> (r: Result<
    Option<String>,
    TJAParseError,
>)
    ensures
        match r {
            Ok(Some(s)) => float_metadata(metadata@, key@) == Ok::<
                Option<Seq<char>>,
                ParseErrorView,
            >(Some(s@)),
            Ok(None) => float_metadata(metadata@, key@) == Ok::<Option<Seq<char>>, ParseErrorView>(
                None,
            ),
            Err(e) => float_metadata(metadata@, key@) == Err::<Option<Seq<char>>, ParseErrorView>(
                e@,
            ),
        },
{
    match metadata.get(key) {
        Some((line, value)) => {
            assert(value@.subrange(0, value@.len() as int) =~= value@);
            if range_is_float_literal(&value, 0, value.len()) {
                Ok(Some(chars_to_string(&value)))
            } else {
                Err(TJAParseError { kind: TJAParseErrorKind::InvalidMetadata, line })
            }
        },
        None => Ok(None),
    }
}

/// A text metadata value: the value of `key`, else `default`, else a missing metadata error.
pub open spec fn owned_metadata(
    meta: MetadataView,
    key: Seq<char>,
    default: Option<Seq<char>>,
    course_line: Option<nat>,
) -> Result<Seq<char>, ParseErrorView> {
    match meta.get(key) {
        Some((_line, value)) => Ok(value),
        None => match default {
            Some(d) => Ok(d),
            None => Err(missing_error(key, course_line)),
        },
    }
}

/// Reads a text metadata value (see [owned_metadata]).
pub fn get_metadata_owned(
    metadata: &Metadata,
    key: &str,
    default: Option<&str>,
    course_line: Option<usize>,
) -> (r: Result<String, TJAParseError>)
    ensures
        ({
            let d = match default {
                Some(s) => Some(s@),
                None => None,
            };
            match r {
                Ok(s) => owned_metadata(metadata@, key@, d, opt_nat(course_line)) == Ok::<
                    Seq<char>,
                    ParseErrorView,
                >(s@),
                Err(e) => owned_metadata(metadata@, key@, d, opt_nat(course_line)) == Err::<
                    Seq<char>,
                    ParseErrorView,
                >(e@),
            }
        }),
{
    match metadata.get(key) {
        Some((_line, value)) => Ok(chars_to_string(&value)),
        None => match default {
            Some(s) => Ok(s.to_owned()),
            None => Err(missing(key, course_line)),
        },
    }
}

} // verus!
