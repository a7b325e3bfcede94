use vstd::prelude::*;

use crate::span::{ByteOffset, SourceIDSpan};
use crate::text::{decimal, push_decimal};

verus! {

/// Identifies a source file inside a `SourceStore`.
pub type SourceID = usize;

/// The id reserved for the built-in definitions; no added source ever gets it.
pub const BUILTINS_SOURCE_ID: SourceID = 0;

/// A 1-based line and column.
#[derive(Clone, Copy, Debug, PartialEq, Eq, Structural)]
pub struct LineCol {
    pub line: usize,
    pub col: usize,
}

/// The bytes of a string's UTF-8 encoding.
pub open spec fn bytes_of(chars: Seq<char>) -> Seq<u8> {
    vstd::utf8::encode_utf8(chars)
}

/// `breaks` lists, in increasing order, exactly the offsets of the newline bytes of `bytes`.
pub open spec fn is_newline_table(bytes: Seq<u8>, breaks: Seq<usize>) -> bool {
    &&& forall|i: int| 0 <= i < breaks.len() ==> breaks[i] < bytes.len() && bytes[breaks[i] as int] == 10u8
    &&& forall|i: int, j: int| 0 <= i < j < breaks.len() ==> breaks[i] < breaks[j]
    &&& forall|k: int| 0 <= k < bytes.len() && bytes[k] == 10u8 ==> breaks.contains(k as usize)
}

/// The number of entries of `breaks` that lie strictly before `offset`.
pub open spec fn count_before(breaks: Seq<usize>, offset: int) -> nat
    decreases breaks.len(),
{
    if breaks.len() == 0 {
        0
    } else {
        count_before(breaks.drop_last(), offset) + if breaks.last() < offset { 1nat } else { 0nat }
    }
}

/// The line and column of `offset`, given the offsets of the line breaks: the line is one more
/// than the number of breaks before `offset`, and the column counts from the last such break
/// (or from the start of the source, in the first line).
pub open spec fn spec_line_col(breaks: Seq<usize>, offset: int) -> (int, int) {
    let p = count_before(breaks, offset);
    if p == 0 {
        (1, offset + 1)
    } else {
        (p + 1 as int, offset - breaks[p - 1])
    }
}

/// The offsets of the line breaks of a source, in increasing order.
#[derive(Debug, PartialEq)]
pub struct LineTable {
    breaks: Vec<usize>,
}

impl LineTable {
    #[verifier::type_invariant]
    closed spec fn inv(self) -> bool {
        &&& forall|i: int, j: int| 0 <= i < j < self.breaks@.len() ==> self.breaks@[i] < self.breaks@[j]
        &&& self.breaks@.len() < usize::MAX
    }

    /// The offsets of the line breaks.
    pub closed spec fn offsets(self) -> Seq<usize> {
        self.breaks@
    }

    /// The offsets of the line breaks, in increasing order.
    pub fn as_slice(&self) -> (offsets: &[usize])
        ensures
            offsets@ == self.offsets(),
    {
        self.breaks.as_slice()
    }
}

/// The two kinds of pieces that finding line breaks splits a source into: a newline byte, and
/// anything else.
#[derive(Debug, PartialEq, Eq, Hash, Clone, Copy, Structural)]
pub enum NewlineLexer {
    Skipped,
    Newline,
}

/// The kind of piece that the byte `b` belongs to.
fn newline_class(b: u8) -> (class: NewlineLexer)
    ensures
        (class == NewlineLexer::Newline) == (b == 10u8),
{
    if b == 10u8 { NewlineLexer::Newline } else { NewlineLexer::Skipped }
}

/// In a strictly increasing sequence, `count_before` is the length of the prefix below `offset`.
proof fn lemma_count_before_prefix(breaks: Seq<usize>, offset: int, p: int)
    requires
        forall|i: int, j: int| 0 <= i < j < breaks.len() ==> breaks[i] < breaks[j],
        0 <= p <= breaks.len(),
        forall|i: int| 0 <= i < p ==> breaks[i] < offset,
        forall|i: int| p <= i < breaks.len() ==> breaks[i] >= offset,
    ensures
        count_before(breaks, offset) == p,
    decreases breaks.len(),
{
    if breaks.len() > 0 {
        if p == breaks.len() {
            lemma_count_before_prefix(breaks.drop_last(), offset, p - 1);
        } else {
            lemma_count_before_prefix(breaks.drop_last(), offset, p);
        }
    }
}

/// Stores the filename and contents of a source, and maps byte offsets to lines and columns.
#[derive(Debug, PartialEq)]
pub struct Source {
    pub filename: String,
    pub contents: String,
    pub linebreaks: LineTable,
}

impl Source {
    /// The offsets of this source's line breaks.
    pub open spec fn breaks(&self) -> Seq<usize> {
        self.linebreaks.offsets()
    }

    /// Creates a source, recording the offset of every newline byte of `contents`.
    pub fn new(filename: &str, contents: &str) -> (source: Source)
        requires
            bytes_of(contents@).len() < usize::MAX,
        ensures
            source.filename@ == filename@,
            source.contents@ == contents@,
            is_newline_table(bytes_of(contents@), source.breaks()),
    {
        let bytes = contents.as_bytes();
        let mut breaks: Vec<usize> = Vec::new();
        let mut i: usize = 0;
        while i < bytes.len()
            invariant
                i <= bytes@.len(),
                bytes@ == bytes_of(contents@),
                bytes@.len() < usize::MAX,
                breaks@.len() <= i,
                forall|a: int| 0 <= a < breaks@.len() ==> breaks@[a] < i && bytes@[breaks@[a] as int] == 10u8,
                forall|a: int, b: int| 0 <= a < b < breaks@.len() ==> breaks@[a] < breaks@[b],
                forall|k: int| 0 <= k < i && bytes@[k] == 10u8 ==> breaks@.contains(k as usize),
            decreases bytes@.len() - i,
        {
            let ghost before = breaks@;
            if newline_class(bytes[i]) == NewlineLexer::Newline {
                breaks.push(i);
                assert(breaks@[breaks@.len() - 1] == i);
            }
            proof {
                assert forall|k: int| 0 <= k < i + 1 && bytes@[k] == 10u8 implies breaks@.contains(k as usize) by {
                    if k == i {
                        assert(breaks@[breaks@.len() - 1] == i);
                    } else {
                        let j = choose|j: int| 0 <= j < before.len() && before[j] == k as usize;
                        assert(breaks@[j] == k as usize);
                    }
                }
            }
            i = i + 1;
        }
        Source {
            filename: filename.to_string(),
            contents: contents.to_string(),
            linebreaks: LineTable { breaks },
        }
    }

    /// The number of line breaks strictly before `offset` (binary search).
    fn partition_point(&self, offset: ByteOffset) -> (p: usize)
        ensures
            p == count_before(self.breaks(), offset as int),
            p <= self.breaks().len(),
    {
        let breaks = &self.linebreaks.breaks;
        proof {
            use_type_invariant(&self.linebreaks);
        }
        let mut lo: usize = 0;
        let mut hi: usize = breaks.len();
        while lo < hi
            invariant
                0 <= lo <= hi <= breaks@.len(),
                breaks@ == self.breaks(),
                forall|i: int, j: int| 0 <= i < j < breaks@.len() ==> breaks@[i] < breaks@[j],
                forall|i: int| 0 <= i < lo ==> breaks@[i] < offset,
                forall|i: int| hi <= i < breaks@.len() ==> breaks@[i] >= offset,
            decreases hi - lo,
        {
            let mid = lo + (hi - lo) / 2;
            if breaks[mid] < offset {
                lo = mid + 1;
            } else {
                hi = mid;
            }
        }
        proof {
            lemma_count_before_prefix(breaks@, offset as int, lo as int);
        }
        lo
    }

    /// Maps a byte offset to its 1-based line and column.
    // NOTE: the column counts bytes, not characters.
    pub fn map_offset(&self, offset: ByteOffset) -> (location: LineCol)
        requires
            offset < usize::MAX,
        ensures
            (location.line as int, location.col as int) == spec_line_col(self.breaks(), offset as int),
    {
        proof {
            use_type_invariant(&self.linebreaks);
        }
        let p = self.partition_point(offset);
        if p == 0 {
            return LineCol { line: 1, col: offset + 1 };
        }
        let last_linebreak_offset = self.linebreaks.breaks[p - 1];
        proof {
            assert(last_linebreak_offset < offset) by {
                assert(count_before(self.breaks(), offset as int) == p);
                lemma_count_before_is_prefix(self.breaks(), offset as int);
            }
        }
        LineCol { line: p + 1, col: offset - last_linebreak_offset }
    }

    /// Maps both ends of `span` to lines and columns.
    pub fn map_span(&self, span: &SourceIDSpan) -> (locations: (LineCol, LineCol))
        requires
            span.start < usize::MAX,
            span.end < usize::MAX,
        ensures
            (locations.0.line as int, locations.0.col as int) == spec_line_col(self.breaks(), span.start as int),
            (locations.1.line as int, locations.1.col as int) == spec_line_col(self.breaks(), span.end as int),
    {
        (self.map_offset(span.start), self.map_offset(span.end))
    }
}

/// In a strictly increasing sequence, the first `count_before` entries are the ones below `offset`.
proof fn lemma_count_before_is_prefix(breaks: Seq<usize>, offset: int)
    requires
        forall|i: int, j: int| 0 <= i < j < breaks.len() ==> breaks[i] < breaks[j],
    ensures
        count_before(breaks, offset) <= breaks.len(),
        forall|i: int| 0 <= i < count_before(breaks, offset) ==> breaks[i] < offset,
        forall|i: int| count_before(breaks, offset) <= i < breaks.len() ==> breaks[i] >= offset,
    decreases breaks.len(),
{
    if breaks.len() > 0 {
        let init = breaks.drop_last();
        lemma_count_before_is_prefix(init, offset);
        let c = count_before(init, offset);
        if breaks.last() < offset {
            assert forall|i: int| 0 <= i < breaks.len() - 1 implies init[i] < offset by {
                assert(breaks[i] < breaks[breaks.len() - 1]);
            }
            assert(c == init.len()) by {
                if c < init.len() {
                    assert(init[c as int] >= offset);
                }
            }
            assert forall|i: int| 0 <= i < count_before(breaks, offset) implies breaks[i] < offset by {
                if i < init.len() {
                    assert(init[i] == breaks[i]);
                }
            }
        } else {
            assert forall|i: int| 0 <= i < count_before(breaks, offset) implies breaks[i] < offset by {
                assert(init[i] == breaks[i]);
            }
            assert forall|i: int| count_before(breaks, offset) <= i < breaks.len() implies breaks[i] >= offset by {
                if i < init.len() {
                    assert(init[i] == breaks[i]);
                }
            }
        }
    }
}

/// Holds the sources of a compilation and hands them out by id. The built-in definitions have
/// a source of their own under `BUILTINS_SOURCE_ID` (0); added sources get the ids `1, 2, 3, ...`.
#[derive(Debug)]
pub struct SourceStore {
    builtins: Source,
    sources: Vec<Source>,
}

/// A location in a source.
#[derive(Debug, PartialEq)]
pub struct SourceLocation<'src> {
    pub source: &'src Source,
    pub line: usize,
    pub col: usize,
}

/// A span of a source, as lines and columns.
#[derive(Debug, PartialEq)]
pub struct SourceSpan<'src> {
    pub source: &'src Source,
    pub start_line: usize,
    pub start_col: usize,
    pub end_line: usize,
    pub end_col: usize,
}

impl SourceStore {
    /// The added sources, in order of their ids: source `id` is at `id - 1`.
    pub closed spec fn files(&self) -> Seq<Source> {
        self.sources@
    }

    /// The source of the built-in definitions.
    pub closed spec fn builtins(&self) -> Source {
        self.builtins
    }

    /// The source with id `id`, if there is one.
    pub open spec fn spec_source(&self, id: int) -> Option<Source> {
        if id == BUILTINS_SOURCE_ID {
            Some(self.builtins())
        } else if 1 <= id <= self.files().len() {
            Some(self.files()[id - 1])
        } else {
            None
        }
    }

    /// Creates a store that holds only the built-in source.
    pub fn new() -> (store: SourceStore)
        ensures
            store.files().len() == 0,
            store.builtins().filename@ == "!BUILTINS!"@,
            store.builtins().contents@ == ""@,
    {
        proof {
            reveal_strlit("");
            assert(bytes_of(""@).len() == 0);
        }
        let builtins = Source::new("!BUILTINS!", "");
        SourceStore { builtins, sources: Vec::new() }
    }

    /// The filename of the source with id `source_id`, if there is one.
    pub fn get_filename(&self, source_id: SourceID) -> (filename: Option<&String>)
        ensures
            match filename {
                Some(name) => self.spec_source(source_id as int) matches Some(s) && s.filename == *name,
                None => self.spec_source(source_id as int) is None,
            },
    {
        let source = self.get_source(source_id)?;
        Some(&source.filename)
    }

    /// The source with id `source_id`, if there is one.
    pub fn get_source(&self, source_id: SourceID) -> (source: Option<&Source>)
        ensures
            match source {
                Some(s) => self.spec_source(source_id as int) == Some(*s),
                None => self.spec_source(source_id as int) is None,
            },
    {
        if source_id == BUILTINS_SOURCE_ID {
            Some(&self.builtins)
        } else if source_id - 1 < self.sources.len() {
            Some(&self.sources[source_id - 1])
        } else {
            None
        }
    }

    /// Adds a source and returns its id.
    pub fn add_source(&mut self, filename: &str, contents: &str) -> (source_id: SourceID)
        requires
            old(self).files().len() + 1 < usize::MAX,
            bytes_of(contents@).len() < usize::MAX,
        ensures
            source_id == old(self).files().len() + 1,
            final(self).files().len() == old(self).files().len() + 1,
            final(self).files().subrange(0, old(self).files().len() as int) == old(self).files(),
            final(self).builtins() == old(self).builtins(),
            final(self).files()[old(self).files().len() as int].filename@ == filename@,
            final(self).files()[old(self).files().len() as int].contents@ == contents@,
            is_newline_table(bytes_of(contents@), final(self).files()[old(self).files().len() as int].breaks()),
            forall|id: int| id != source_id ==> #[trigger] final(self).spec_source(id) == old(self).spec_source(id),
    {
        self.sources.push(Source::new(filename, contents));
        proof {
            assert(self.sources@.subrange(0, old(self).sources@.len() as int) =~= old(self).sources@);
        }
        self.sources.len()
    }

    /// Maps a byte offset in the source `source_id` to its line and column, if the source is an
    /// added one. The built-in source has no text, so no offset in it maps.
    pub fn map_offset<'src>(&'src self, source_id: SourceID, offset: ByteOffset) -> (location: Option<SourceLocation<'src>>)
        requires
            offset < usize::MAX,
        ensures
            match location {
                Some(loc) => source_id != BUILTINS_SOURCE_ID && self.spec_source(source_id as int) == Some(*loc.source)
                    && (loc.line as int, loc.col as int) == spec_line_col(loc.source.breaks(), offset as int),
                None => source_id == BUILTINS_SOURCE_ID || self.spec_source(source_id as int) is None,
            },
    {
        if source_id == BUILTINS_SOURCE_ID {
            return None;
        }
        let source = self.get_source(source_id)?;
        let LineCol { line, col } = source.map_offset(offset);
        Some(SourceLocation { source, line, col })
    }

    /// Maps the start of `span` to a line and column. The span's source must be an added one.
    pub fn map_start<'src>(&'src self, span: &SourceIDSpan) -> (location: SourceLocation<'src>)
        requires
            span.context != BUILTINS_SOURCE_ID,
            self.spec_source(span.context as int) is Some,
            span.start < usize::MAX,
        ensures
            self.spec_source(span.context as int) == Some(*location.source),
            (location.line as int, location.col as int) == spec_line_col(location.source.breaks(), span.start as int),
    {
        match self.map_offset(span.context, span.start) {
            Some(location) => location,
            None => {
                assert(false);
                SourceLocation { source: &self.builtins, line: 0, col: 0 }
            }
        }
    }

    /// Maps the end of `span` to a line and column. The span's source must be an added one.
    pub fn map_end<'src>(&'src self, span: &SourceIDSpan) -> (location: SourceLocation<'src>)
        requires
            span.context != BUILTINS_SOURCE_ID,
            self.spec_source(span.context as int) is Some,
            span.end < usize::MAX,
        ensures
            self.spec_source(span.context as int) == Some(*location.source),
            (location.line as int, location.col as int) == spec_line_col(location.source.breaks(), span.end as int),
    {
        match self.map_offset(span.context, span.end) {
            Some(location) => location,
            None => {
                assert(false);
                SourceLocation { source: &self.builtins, line: 0, col: 0 }
            }
        }
    }

    /// Maps a span of byte offsets to lines and columns. The span's source must exist.
    pub fn map_span<'src>(&'src self, span: &SourceIDSpan) -> (mapped: SourceSpan<'src>)
        requires
            self.spec_source(span.context as int) is Some,
            span.start < usize::MAX,
            span.end < usize::MAX,
        ensures
            self.spec_source(span.context as int) == Some(*mapped.source),
            (mapped.start_line as int, mapped.start_col as int) == spec_line_col(mapped.source.breaks(), span.start as int),
            (mapped.end_line as int, mapped.end_col as int) == spec_line_col(mapped.source.breaks(), span.end as int),
    {
        let source = match self.get_source(span.context) {
            Some(source) => source,
            None => {
                assert(false);
                &self.builtins
            }
        };
        let (start, end) = source.map_span(span);
        SourceSpan {
            source,
            start_line: start.line,
            start_col: start.col,
            end_line: end.line,
            end_col: end.col,
        }
    }
}

impl<'src> SourceLocation<'src> {
    /// The text `filename: line:col`.
    pub fn to_string(&self) -> (text: String)
        ensures
            text@ == self.source.filename@ + ": "@ + decimal(self.line as nat) + ":"@ + decimal(self.col as nat),
    {
        let mut text = self.source.filename.clone();
        text.append(": ");
        push_decimal(&mut text, self.line);
        text.append(":");
        push_decimal(&mut text, self.col);
        text
    }
}

impl<'src> SourceSpan<'src> {
    /// The location where the span starts.
    pub fn get_start(&self) -> (location: SourceLocation<'src>)
        ensures
            location.source == self.source,
            location.line == self.start_line,
            location.col == self.start_col,
    {
        SourceLocation { source: self.source, line: self.start_line, col: self.start_col }
    }

    /// The location where the span ends.
    pub fn get_end(&self) -> (location: SourceLocation<'src>)
        ensures
            location.source == self.source,
            location.line == self.end_line,
            location.col == self.end_col,
    {
        SourceLocation { source: self.source, line: self.end_line, col: self.end_col }
    }

    /// The text `filename: start_line:start_col-end_line:end_col`.
    pub fn to_string(&self) -> (text: String)
        ensures
            text@ == self.source.filename@ + ": "@ + decimal(self.start_line as nat) + ":"@
                + decimal(self.start_col as nat) + "-"@ + decimal(self.end_line as nat) + ":"@
                + decimal(self.end_col as nat),
    {
        let mut text = self.source.filename.clone();
        text.append(": ");
        push_decimal(&mut text, self.start_line);
        text.append(":");
        push_decimal(&mut text, self.start_col);
        text.append("-");
        push_decimal(&mut text, self.end_line);
        text.append(":");
        push_decimal(&mut text, self.end_col);
        text
    }
}

/// The first byte of a source is at line 1, column 1.
pub proof fn law_first_byte_is_line_one_col_one(breaks: Seq<usize>)
    ensures
        spec_line_col(breaks, 0) == (1int, 1int),
{
    lemma_count_before_zero(breaks);
}

proof fn lemma_count_before_zero(breaks: Seq<usize>)
    ensures
        count_before(breaks, 0) == 0,
    decreases breaks.len(),
{
    if breaks.len() > 0 {
        lemma_count_before_zero(breaks.drop_last());
    }
}

/// The byte after a line break starts the next line, at column 1.
pub proof fn law_line_break_starts_next_line(breaks: Seq<usize>, k: usize)
    requires
        forall|i: int, j: int| 0 <= i < j < breaks.len() ==> breaks[i] < breaks[j],
        breaks.contains(k),
    ensures
        spec_line_col(breaks, k + 1int) == (spec_line_col(breaks, k as int).0 + 1, 1int),
{
    lemma_count_before_is_prefix(breaks, k as int);
    let p = count_before(breaks, k as int) as int;
    let j = choose|j: int| 0 <= j < breaks.len() && breaks[j] == k;
    assert(j == p) by {
        if j > p {
            assert(breaks[p] >= k);
            assert(breaks[p] < breaks[j]);
        } else if j < p {
            assert(breaks[j] < k);
        }
    }
    assert forall|i: int| p + 1 <= i < breaks.len() implies breaks[i] >= k + 1 by {
        assert(breaks[p] < breaks[i]);
    }
    lemma_count_before_prefix(breaks, k + 1int, p + 1);
    assert(count_before(breaks, k + 1int) == p + 1);
}

/// A byte that is not a line break is followed, on the same line, by the next column.
pub proof fn law_other_byte_advances_column(breaks: Seq<usize>, k: usize)
    requires
        forall|i: int, j: int| 0 <= i < j < breaks.len() ==> breaks[i] < breaks[j],
        !breaks.contains(k),
    ensures
        spec_line_col(breaks, k + 1int) == (spec_line_col(breaks, k as int).0, spec_line_col(breaks, k as int).1 + 1),
{
    lemma_count_before_is_prefix(breaks, k as int);
    let p = count_before(breaks, k as int) as int;
    assert forall|i: int| p <= i < breaks.len() implies breaks[i] >= k + 1 by {
        if breaks[i] == k {
            assert(breaks.contains(k));
        }
    }
    lemma_count_before_prefix(breaks, k + 1int, p);
}


/// Whether line and column `a` come before line and column `b`.
pub open spec fn line_col_before(a: (int, int), b: (int, int)) -> bool {
    a.0 < b.0 || (a.0 == b.0 && a.1 < b.1)
}

/// Lines and columns grow with the offset: a later byte is on a later line, or on the same line
/// in a later column.
pub proof fn law_line_col_grows_with_offset(breaks: Seq<usize>, o1: usize, o2: usize)
    requires
        forall|i: int, j: int| 0 <= i < j < breaks.len() ==> breaks[i] < breaks[j],
        o1 < o2,
    ensures
        line_col_before(spec_line_col(breaks, o1 as int), spec_line_col(breaks, o2 as int)),
    decreases o2 - o1,
{
    let k = (o2 - 1) as usize;
    if breaks.contains(k) {
        law_line_break_starts_next_line(breaks, k);
    } else {
        law_other_byte_advances_column(breaks, k);
    }
    if o1 < k {
        law_line_col_grows_with_offset(breaks, o1, k);
    }
}

} // verus!
