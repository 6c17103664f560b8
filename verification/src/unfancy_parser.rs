//! The strict FASTQ parser.
//!
//! Each read consumes up to four raw lines (header, sequence, separator,
//! quality) into a caller-owned [`Record`].  The record stores the lines as
//! read, terminators included, and trims at accessor time.  The separator
//! line's content is not validated here; a wrong leading byte on the header
//! line is a fatal format error, and input that ends before the quality line
//! is an incomplete record.

use vstd::prelude::*;

use crate::lines::{find_from, is_ascii_seq, line_stop, raw_line, trim_end, AT, SPACE};
use crate::lines::{copy_range, find_byte_from, is_ascii_bytes, trimmed_copy};
use crate::validation::ValidationError;

verus! {

/// A strict-variant parse failure.
#[derive(Clone, Copy, Debug, PartialEq, Eq, Structural)]
pub enum StrictError {
    /// The header line is present but does not begin with `@`.
    MissingStartMarker,
    /// The input ended before all four lines of the record were read.
    IncompleteRecord,
}

/// The fields of a strict record, as raw lines with terminators kept.
pub struct RecordView {
    pub header: Seq<u8>,
    pub seq: Seq<u8>,
    pub qual: Seq<u8>,
}

impl RecordView {
    /// All three stored lines are empty.
    pub open spec fn is_empty(self) -> bool {
        self.header.len() == 0 && self.seq.len() == 0 && self.qual.len() == 0
    }
}

/// The view of a cleared record.
pub open spec fn empty_record() -> RecordView {
    RecordView { header: Seq::empty(), seq: Seq::empty(), qual: Seq::empty() }
}

/// The trimmed text of the header line after its leading marker byte.
pub open spec fn header_body(header: Seq<u8>) -> Seq<u8>
    recommends
        header.len() >= 1,
{
    trim_end(header.subrange(1, header.len() as int))
}

/// The id a stored header denotes: the text after the marker byte, trimmed,
/// up to the first space.  Absent only when no header line is stored.
pub open spec fn spec_id(header: Seq<u8>) -> Option<Seq<u8>> {
    if header.len() == 0 {
        None
    } else {
        Some(header_body(header).subrange(0, find_from(header_body(header), SPACE, 0)))
    }
}

/// The description a stored header denotes: the text after the first space
/// of the trimmed header body, when that space exists.
pub open spec fn spec_desc(header: Seq<u8>) -> Option<Seq<u8>> {
    if header.len() == 0 {
        None
    } else {
        let body = header_body(header);
        let cut = find_from(body, SPACE, 0);
        if cut < body.len() {
            Some(body.subrange(cut + 1, body.len() as int))
        } else {
            None
        }
    }
}

/// The result `check` owes a record: the first violated invariant, in the
/// order missing id, non-ASCII sequence, non-ASCII quality, length mismatch.
/// A fully empty record is valid.
pub open spec fn spec_check(v: RecordView) -> Result<(), ValidationError> {
    if v.is_empty() {
        Ok(())
    } else if spec_id(v.header) is None || spec_id(v.header).unwrap().len() == 0 {
        Err(ValidationError::MissingId)
    } else if !is_ascii_seq(v.seq) {
        Err(ValidationError::NonAsciiSequence)
    } else if !is_ascii_seq(v.qual) {
        Err(ValidationError::NonAsciiQuality)
    } else if trim_end(v.seq).len() != trim_end(v.qual).len() {
        Err(ValidationError::LengthMismatch)
    } else {
        Ok(())
    }
}

/// A strict FastQ record: the raw header, sequence and quality lines.
#[derive(Clone, Debug, PartialEq)]
pub struct Record {
    header: Vec<u8>,
    seq: Vec<u8>,
    qual: Vec<u8>,
}

impl View for Record {
    type V = RecordView;

    closed spec fn view(&self) -> RecordView {
        RecordView { header: self.header@, seq: self.seq@, qual: self.qual@ }
    }
}

impl Record {
    /// A new, empty record.
    pub fn new() -> (r: Record)
        ensures
            r@ == empty_record(),
    {
        Record { header: Vec::new(), seq: Vec::new(), qual: Vec::new() }
    }

    /// Whether the record is empty.
    pub fn is_empty(&self) -> (r: bool)
        ensures
            r == self@.is_empty(),
    {
        self.header.len() == 0 && self.seq.len() == 0 && self.qual.len() == 0
    }

    /// Resets the record to its empty state.
    pub fn clear(&mut self)
        ensures
            final(self)@ == empty_record(),
    {
        self.header.clear();
        self.seq.clear();
        self.qual.clear();
        proof {
            assert(self@.header =~= empty_record().header);
            assert(self@.seq =~= empty_record().seq);
            assert(self@.qual =~= empty_record().qual);
        }
    }

    /// The id of the record, when a header line is stored.
    pub fn id(&self) -> (r: Option<Vec<u8>>)
        ensures
            match r {
                Some(v) => spec_id(self@.header) == Some(v@),
                None => spec_id(self@.header) is None,
            },
    {
        if self.header.len() == 0 {
            None
        } else {
            let body = trimmed_copy(&copy_range(&self.header, 1, self.header.len()));
            let cut = find_byte_from(&body, SPACE, 0);
            Some(copy_range(&body, 0, cut))
        }
    }

    /// The description of the record, when the header carries one.
    pub fn desc(&self) -> (r: Option<Vec<u8>>)
        ensures
            match r {
                Some(v) => spec_desc(self@.header) == Some(v@),
                None => spec_desc(self@.header) is None,
            },
    {
        if self.header.len() == 0 {
            None
        } else {
            let body = trimmed_copy(&copy_range(&self.header, 1, self.header.len()));
            let cut = find_byte_from(&body, SPACE, 0);
            if cut < body.len() {
                Some(copy_range(&body, cut + 1, body.len()))
            } else {
                None
            }
        }
    }

    /// The sequence of the record, trailing whitespace trimmed.
    pub fn seq(&self) -> (r: Vec<u8>)
        ensures
            r@ == trim_end(self@.seq),
    {
        trimmed_copy(&self.seq)
    }

    /// The base qualities of the record, trailing whitespace trimmed.
    pub fn qual(&self) -> (r: Vec<u8>)
        ensures
            r@ == trim_end(self@.qual),
    {
        trimmed_copy(&self.qual)
    }

    /// Checks the record's invariants, reporting the first violated one.
    pub fn check(&self) -> (r: Result<(), ValidationError>)
        ensures
            r == spec_check(self@),
    {
        if self.is_empty() {
            return Ok(());
        }
        let id_empty = match self.id() {
            None => true,
            Some(v) => v.len() == 0,
        };
        if id_empty {
            return Err(ValidationError::MissingId);
        }
        if !is_ascii_bytes(&self.seq) {
            return Err(ValidationError::NonAsciiSequence);
        }
        if !is_ascii_bytes(&self.qual) {
            return Err(ValidationError::NonAsciiQuality);
        }
        if self.seq().len() != self.qual().len() {
            return Err(ValidationError::LengthMismatch);
        }
        Ok(())
    }
}

/// The outcome of one strict read, over the input and the start position.
pub enum StrictStep {
    /// The input was exhausted: the record stays empty and the read succeeds.
    Empty,
    /// A full four-line group was read.
    Rec { header: Seq<u8>, seq: Seq<u8>, qual: Seq<u8> },
    /// The header line does not begin with `@`; it is left in the record.
    NoMarker { header: Seq<u8> },
    /// The input ended before the quality line.
    Truncated { header: Seq<u8>, seq: Seq<u8> },
}

/// What one strict read of the input `s` at position `p` yields, and the
/// position of the cursor afterwards.
pub open spec fn strict_step(s: Seq<u8>, p: int) -> (StrictStep, int)
    recommends
        0 <= p <= s.len(),
{
    let header = raw_line(s, p);
    let p1 = line_stop(s, p);
    if header.len() == 0 {
        (StrictStep::Empty, p)
    } else if header[0] != AT {
        (StrictStep::NoMarker { header }, p1)
    } else {
        let seq = raw_line(s, p1);
        let p2 = line_stop(s, p1);
        let p3 = line_stop(s, p2);
        let qual = raw_line(s, p3);
        let p4 = line_stop(s, p3);
        if qual.len() == 0 {
            (StrictStep::Truncated { header, seq }, p4)
        } else {
            (StrictStep::Rec { header, seq, qual }, p4)
        }
    }
}

/// Whether a read's observable outcome (its result and the record it filled)
/// matches a step of the spec-level parse.
pub open spec fn read_matches(
    r: Result<(), StrictError>,
    rec: RecordView,
    step: StrictStep,
) -> bool {
    match step {
        StrictStep::Empty => r is Ok && rec == empty_record(),
        StrictStep::Rec { header, seq, qual } => {
            r is Ok && rec == RecordView { header, seq, qual }
        },
        StrictStep::NoMarker { header } => {
            r == Err::<(), StrictError>(StrictError::MissingStartMarker) && rec == RecordView {
                header,
                seq: Seq::empty(),
                qual: Seq::empty(),
            }
        },
        StrictStep::Truncated { header, seq } => {
            r == Err::<(), StrictError>(StrictError::IncompleteRecord) && rec == RecordView {
                header,
                seq,
                qual: Seq::empty(),
            }
        },
    }
}

/// A strict FastQ reader over an in-memory byte input.
pub struct Reader {
    input: Vec<u8>,
    pos: usize,
    sep_line: Vec<u8>,
}

impl Reader {
    /// The bytes this reader parses.
    pub closed spec fn input(&self) -> Seq<u8> {
        self.input@
    }

    /// The position of the next unread byte.
    pub closed spec fn cursor(&self) -> int {
        self.pos as int
    }

    /// The cursor never leaves the input.
    pub open spec fn wf(&self) -> bool {
        0 <= self.cursor() <= self.input().len()
    }

    /// A reader over the given bytes, starting at the beginning.
    pub fn new(input: Vec<u8>) -> (r: Reader)
        ensures
            r.wf(),
            r.input() == input@,
            r.cursor() == 0,
    {
        Reader { input, pos: 0, sep_line: Vec::new() }
    }

    /// Reads the next record of the input into `record`, which is cleared
    /// first.  An exhausted input leaves the record empty and succeeds; a
    /// header line without the `@` marker is a fatal format error; input
    /// that ends before the quality line is an incomplete record.  The
    /// separator line is consumed without inspection.
    pub fn read(&mut self, record: &mut Record) -> (r: Result<(), StrictError>)
        requires
            old(self).wf(),
        ensures
            final(self).wf(),
            final(self).input() == old(self).input(),
            final(self).cursor() == strict_step(old(self).input(), old(self).cursor()).1,
            read_matches(
                r,
                final(record)@,
                strict_step(old(self).input(), old(self).cursor()).0,
            ),
    {
        record.clear();
        let end0 = find_byte_from(&self.input, crate::lines::NL, self.pos);
        let p1 = if end0 < self.input.len() {
            end0 + 1
        } else {
            end0
        };
        if p1 == self.pos {
            // Zero bytes read: the input is exhausted.
            return Ok(());
        }
        record.header = copy_range(&self.input, self.pos, p1);
        self.pos = p1;
        if record.header[0] != AT {
            return Err(StrictError::MissingStartMarker);
        }
        let end1 = find_byte_from(&self.input, crate::lines::NL, self.pos);
        let p2 = if end1 < self.input.len() {
            end1 + 1
        } else {
            end1
        };
        record.seq = copy_range(&self.input, self.pos, p2);
        self.pos = p2;
        let end2 = find_byte_from(&self.input, crate::lines::NL, self.pos);
        let p3 = if end2 < self.input.len() {
            end2 + 1
        } else {
            end2
        };
        self.sep_line = copy_range(&self.input, self.pos, p3);
        self.pos = p3;
        let end3 = find_byte_from(&self.input, crate::lines::NL, self.pos);
        let p4 = if end3 < self.input.len() {
            end3 + 1
        } else {
            end3
        };
        record.qual = copy_range(&self.input, self.pos, p4);
        self.pos = p4;
        if record.qual.len() == 0 {
            proof {
                assert(record.qual@ =~= Seq::<u8>::empty());
            }
            return Err(StrictError::IncompleteRecord);
        }
        Ok(())
    }

    /// An iterator-like sequence over the records of this input.
    pub fn records(self) -> (r: Records)
        requires
            self.wf(),
        ensures
            r.wf(),
            r.input() == self.input(),
            r.cursor() == self.cursor(),
            !r.done(),
    {
        Records { reader: self, done: false }
    }
}

/// What one strict iteration step yields: nothing once the sequence is over,
/// otherwise the read's outcome with empty reads mapped to the end of the
/// sequence.
pub open spec fn next_matches(
    r: Option<Result<Record, StrictError>>,
    step: StrictStep,
) -> bool {
    match step {
        StrictStep::Empty => r is None,
        StrictStep::Rec { header, seq, qual } => {
            r matches Some(Ok(rec)) && rec@ == RecordView { header, seq, qual }
        },
        StrictStep::NoMarker { header } => {
            r == Some(Err::<Record, StrictError>(StrictError::MissingStartMarker))
        },
        StrictStep::Truncated { header, seq } => {
            r == Some(Err::<Record, StrictError>(StrictError::IncompleteRecord))
        },
    }
}

/// A lazy, single-pass sequence of strict parse results.  It ends at the
/// first empty read, and it yields nothing further after the first error.
pub struct Records {
    reader: Reader,
    done: bool,
}

impl Records {
    /// The bytes this sequence parses.
    pub closed spec fn input(&self) -> Seq<u8> {
        self.reader.input()
    }

    /// The position of the next unread byte.
    pub closed spec fn cursor(&self) -> int {
        self.reader.cursor()
    }

    /// Whether the sequence is over.
    pub closed spec fn done(&self) -> bool {
        self.done
    }

    /// The cursor never leaves the input.
    pub open spec fn wf(&self) -> bool {
        0 <= self.cursor() <= self.input().len()
    }

    /// The next parse result, or `None` once the input is exhausted or an
    /// earlier step failed.
    pub fn next(&mut self) -> (r: Option<Result<Record, StrictError>>)
        requires
            old(self).wf(),
        ensures
            final(self).wf(),
            final(self).input() == old(self).input(),
            old(self).done() ==> r is None && final(self).cursor() == old(self).cursor()
                && final(self).done(),
            !old(self).done() ==> {
                let (step, p) = strict_step(old(self).input(), old(self).cursor());
                &&& next_matches(r, step)
                &&& final(self).cursor() == p
                &&& final(self).done() == !(step matches StrictStep::Rec { .. })
            },
    {
        if self.done {
            return None;
        }
        let mut record = Record::new();
        match self.reader.read(&mut record) {
            Ok(()) => {
                if record.is_empty() {
                    self.done = true;
                    None
                } else {
                    Some(Ok(record))
                }
            },
            Err(e) => {
                self.done = true;
                Some(Err(e))
            },
        }
    }
}

// ---------------------------------------------------------------------------
// Laws of the strict parser.
// ---------------------------------------------------------------------------

/// One four-line group as bytes, each line newline-terminated.  The header
/// carries its own leading marker here; the separator content is free.
pub open spec fn group_bytes(header: Seq<u8>, sq: Seq<u8>, sep: Seq<u8>, ql: Seq<u8>) -> Seq<u8> {
    header + seq![crate::lines::NL] + sq + seq![crate::lines::NL] + sep + seq![
        crate::lines::NL,
    ] + ql + seq![crate::lines::NL]
}

/// Reading a well-formed four-line group yields exactly that record — the
/// three stored lines with their terminators — whatever the separator line
/// holds, and consumes the whole group.
pub proof fn lemma_strict_group(header: Seq<u8>, sq: Seq<u8>, sep: Seq<u8>, ql: Seq<u8>)
    requires
        header.len() > 0,
        header[0] == AT,
        forall|i: int| 0 <= i < header.len() ==> header[i] != crate::lines::NL,
        forall|i: int| 0 <= i < sq.len() ==> sq[i] != crate::lines::NL,
        forall|i: int| 0 <= i < sep.len() ==> sep[i] != crate::lines::NL,
        forall|i: int| 0 <= i < ql.len() ==> ql[i] != crate::lines::NL,
    ensures
        ({
            let s = group_bytes(header, sq, sep, ql);
            strict_step(s, 0) == (
                StrictStep::Rec {
                    header: header + seq![crate::lines::NL],
                    seq: sq + seq![crate::lines::NL],
                    qual: ql + seq![crate::lines::NL],
                },
                s.len() as int,
            )
        }),
{
    let nl = crate::lines::NL;
    let s = group_bytes(header, sq, sep, ql);
    let hl = header.len() as int;
    let sl = sq.len() as int;
    let pl = sep.len() as int;
    let qll = ql.len() as int;
    assert(s.len() == hl + sl + pl + qll + 4);
    assert(forall|i: int| 0 <= i < hl ==> s[i] == header[i]);
    assert(s[hl] == nl);
    crate::lines::lemma_find_from_at(s, nl, 0, hl);
    assert(line_stop(s, 0) == hl + 1);
    assert(raw_line(s, 0) =~= header + seq![nl]);
    let p1 = hl + 1;
    assert(forall|i: int| p1 <= i < p1 + sl ==> s[i] == sq[i - p1]);
    assert(s[p1 + sl] == nl);
    crate::lines::lemma_find_from_at(s, nl, p1, p1 + sl);
    assert(line_stop(s, p1) == p1 + sl + 1);
    assert(raw_line(s, p1) =~= sq + seq![nl]);
    let p2 = p1 + sl + 1;
    assert(forall|i: int| p2 <= i < p2 + pl ==> s[i] == sep[i - p2]);
    assert(s[p2 + pl] == nl);
    crate::lines::lemma_find_from_at(s, nl, p2, p2 + pl);
    assert(line_stop(s, p2) == p2 + pl + 1);
    let p3 = p2 + pl + 1;
    assert(forall|i: int| p3 <= i < p3 + qll ==> s[i] == ql[i - p3]);
    assert(s[p3 + qll] == nl);
    crate::lines::lemma_find_from_at(s, nl, p3, p3 + qll);
    assert(line_stop(s, p3) == p3 + qll + 1);
    assert(raw_line(s, p3) =~= ql + seq![nl]);
    assert(p3 + qll + 1 == s.len());
    assert((ql + seq![nl]).len() > 0);
    assert((header + seq![nl])[0] == AT);
}

/// Trimming a newline-terminated line gives the same text as trimming its
/// content: the accessors of a parsed record never show the terminator.
pub proof fn lemma_trim_line(content: Seq<u8>)
    ensures
        trim_end(content + seq![crate::lines::NL]) == trim_end(content),
{
    assert((content + seq![crate::lines::NL]).drop_last() =~= content);
}

/// A stored header of the shape `@id desc` (id without whitespace,
/// description not ending in whitespace) yields back exactly that id and
/// description through the accessors' split.
pub proof fn lemma_strict_header_fields(id: Seq<u8>, d: Seq<u8>)
    requires
        forall|i: int| 0 <= i < id.len() ==> !crate::lines::is_space(id[i]),
        d.len() > 0,
        !crate::lines::is_space(d.last()),
        forall|i: int| 0 <= i < d.len() ==> d[i] != crate::lines::NL,
    ensures
        ({
            let header = seq![AT] + id + seq![SPACE] + d + seq![crate::lines::NL];
            spec_id(header) == Some(id) && spec_desc(header) == Some(d)
        }),
{
    let header = seq![AT] + id + seq![SPACE] + d + seq![crate::lines::NL];
    let il = id.len() as int;
    let dl = d.len() as int;
    let tail = header.subrange(1, header.len() as int);
    assert(tail.len() == il + 1 + dl + 1);
    assert(forall|i: int| 0 <= i < il ==> tail[i] == id[i]);
    assert(tail[il] == SPACE);
    assert(forall|i: int| il + 1 <= i < il + 1 + dl ==> tail[i] == d[i - il - 1]);
    assert(tail[il + 1 + dl] == crate::lines::NL);
    crate::lines::lemma_trim_end_prefix(tail, il + 1 + dl);
    let body = header_body(header);
    assert(body =~= id + seq![SPACE] + d);
    crate::lines::lemma_find_from_at(body, SPACE, 0, il);
    assert(body.subrange(0, il) =~= id);
    assert(body.subrange(il + 1, body.len() as int) =~= d);
}

/// A stored header of the shape `@id`, with a whitespace-free id, yields
/// back exactly that id, and no description.
pub proof fn lemma_strict_header_id_only(id: Seq<u8>)
    requires
        forall|i: int| 0 <= i < id.len() ==> !crate::lines::is_space(id[i]),
    ensures
        ({
            let header = seq![AT] + id + seq![crate::lines::NL];
            spec_id(header) == Some(id) && spec_desc(header) is None
        }),
{
    let header = seq![AT] + id + seq![crate::lines::NL];
    let il = id.len() as int;
    let tail = header.subrange(1, header.len() as int);
    assert(forall|i: int| 0 <= i < il ==> tail[i] == id[i]);
    assert(tail[il] == crate::lines::NL);
    crate::lines::lemma_trim_end_prefix(tail, il);
    let body = header_body(header);
    assert(body =~= id);
    crate::lines::lemma_find_from_at(body, SPACE, 0, il);
    assert(body.subrange(0, il) =~= id);
}

/// A record that satisfies the invariants: fully empty, or with a present,
/// non-empty id, ASCII sequence and quality lines, and matching lengths
/// once trailing whitespace is trimmed.
pub open spec fn record_valid(v: RecordView) -> bool {
    v.is_empty() || (spec_id(v.header) matches Some(id) && id.len() > 0 && is_ascii_seq(v.seq)
        && is_ascii_seq(v.qual) && trim_end(v.seq).len() == trim_end(v.qual).len())
}

/// `check` succeeds exactly on valid records.  Its result is a function of
/// the record's view alone, and `check` borrows the record immutably, so
/// calling it any number of times on an already-valid record keeps
/// returning success and cannot change the record.
pub proof fn lemma_check_exact(v: RecordView)
    ensures
        spec_check(v) is Ok <==> record_valid(v),
{
}

/// An input of zero bytes yields the empty outcome at once: the record
/// stays cleared, no error is reported, and the cursor stays put.
pub proof fn lemma_empty_input()
    ensures
        strict_step(Seq::empty(), 0) == (StrictStep::Empty, 0int),
{
    assert(raw_line(Seq::<u8>::empty(), 0) =~= Seq::<u8>::empty());
}

} // verus!
