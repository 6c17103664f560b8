//! The descriptive FASTQ parser.
//!
//! One record is parsed per step: a one-byte `@` marker, the header line
//! (split into an id and an optional trailing description token), the
//! sequence line, a separator line that must start with `+`, and the quality
//! line.  Errors carry the text assembled so far, with a `<nothing>`
//! sentinel standing for lines that were still missing, so a caller can
//! report where in the input the failure sits.

use vstd::prelude::*;

use crate::lines::{
    is_ascii_seq, is_space, line_content, line_stop, wf_input, AT, NL, PLUS, SPACE,
};
use crate::lines::{append_bytes, copy_range, find_byte_from, is_ascii_bytes, is_space_byte};
use crate::validation::ValidationError;

verus! {

/// A descriptive-variant parse failure.  Every variant is plainly clonable;
/// an underlying stream failure is stored as its description and rendered
/// message rather than as an opaque error value.
#[derive(Clone, Debug, PartialEq)]
pub enum ParseError {
    /// The record starts with this byte instead of `@`.
    NoAt(u8),
    /// The separator line starts with this byte instead of `+`; the first
    /// field is the text assembled before the failure.
    NoPlus(Vec<u8>, u8),
    /// The input ended inside a record; the field is the text assembled
    /// before the failure, missing lines shown as `<nothing>`.
    Incomplete(Vec<u8>),
    /// Sequence and quality lines of one record differ in length; both are
    /// carried in full.
    LengthMismatch(Vec<u8>, Vec<u8>),
    /// A failure of the underlying stream, as its description and its
    /// rendered message.
    Io(String, String),
}

/// The fields of a descriptive record: id, optional description, sequence
/// and quality, each stored without terminators.
pub struct RecordView {
    pub id: Seq<u8>,
    pub desc: Option<Seq<u8>>,
    pub seq: Seq<u8>,
    pub qual: Seq<u8>,
}

impl RecordView {
    /// Every field is empty or absent.
    pub open spec fn is_empty(self) -> bool {
        self.id.len() == 0 && self.desc is None && self.seq.len() == 0 && self.qual.len() == 0
    }
}

/// The view of a newly created record.
pub open spec fn empty_record() -> RecordView {
    RecordView { id: Seq::empty(), desc: None, seq: Seq::empty(), qual: Seq::empty() }
}

/// The result `check` owes a record: the first violated invariant, in the
/// order missing id, non-ASCII sequence, non-ASCII quality, length mismatch.
/// A fully empty record is valid.
pub open spec fn spec_check(v: RecordView) -> Result<(), ValidationError> {
    if v.is_empty() {
        Ok(())
    } else if v.id.len() == 0 {
        Err(ValidationError::MissingId)
    } else if !is_ascii_seq(v.seq) {
        Err(ValidationError::NonAsciiSequence)
    } else if !is_ascii_seq(v.qual) {
        Err(ValidationError::NonAsciiQuality)
    } else if v.seq.len() != v.qual.len() {
        Err(ValidationError::LengthMismatch)
    } else {
        Ok(())
    }
}

/// A descriptive FastQ record.  Fields hold the parsed text without
/// terminators: the descriptive parser trims once, at parse time.
#[derive(Clone, Debug, PartialEq)]
pub struct Record {
    id: Vec<u8>,
    desc: Option<Vec<u8>>,
    seq: Vec<u8>,
    qual: Vec<u8>,
}

/// The view of an optional byte buffer.
pub open spec fn opt_bytes(o: Option<Vec<u8>>) -> Option<Seq<u8>> {
    match o {
        Some(v) => Some(v@),
        None => None,
    }
}

impl View for Record {
    type V = RecordView;

    closed spec fn view(&self) -> RecordView {
        RecordView { id: self.id@, desc: opt_bytes(self.desc), seq: self.seq@, qual: self.qual@ }
    }
}

impl Record {
    /// A record made of the given fields.
    pub fn from_strings(id: Vec<u8>, desc: Option<Vec<u8>>, seq: Vec<u8>, qual: Vec<u8>) -> (r:
        Record)
        ensures
            r@ == (RecordView { id: id@, desc: opt_bytes(desc), seq: seq@, qual: qual@ }),
    {
        Record { id, desc, seq, qual }
    }

    /// A new, empty record.
    pub fn new() -> (r: Record)
        ensures
            r@ == empty_record(),
    {
        Record { id: Vec::new(), desc: None, seq: Vec::new(), qual: Vec::new() }
    }

    /// The id of the record.
    pub fn id(&self) -> (r: &Vec<u8>)
        ensures
            r@ == self@.id,
    {
        &self.id
    }

    /// The description of the record, when the header carried one.
    pub fn desc(&self) -> (r: &Option<Vec<u8>>)
        ensures
            opt_bytes(*r) == self@.desc,
    {
        &self.desc
    }

    /// The sequence of the record.
    pub fn seq(&self) -> (r: &Vec<u8>)
        ensures
            r@ == self@.seq,
    {
        &self.seq
    }

    /// The base qualities of the record.
    pub fn qual(&self) -> (r: &Vec<u8>)
        ensures
            r@ == self@.qual,
    {
        &self.qual
    }

    /// Whether the record is empty.
    pub fn is_empty(&self) -> (r: bool)
        ensures
            r == self@.is_empty(),
    {
        self.id.len() == 0 && self.desc.is_none() && self.seq.len() == 0 && self.qual.len() == 0
    }

    /// Resets the record to its empty state.
    pub fn clear(&mut self)
        ensures
            final(self)@ == empty_record(),
    {
        self.id.clear();
        self.desc = None;
        self.seq.clear();
        self.qual.clear();
        proof {
            assert(self@.id =~= empty_record().id);
            assert(self@.seq =~= empty_record().seq);
            assert(self@.qual =~= empty_record().qual);
        }
    }

    /// Checks the record's invariants, reporting the first violated one.
    pub fn check(&self) -> (r: Result<(), ValidationError>)
        ensures
            r == spec_check(self@),
    {
        if self.is_empty() {
            return Ok(());
        }
        if self.id.len() == 0 {
            return Err(ValidationError::MissingId);
        }
        if !is_ascii_bytes(&self.seq) {
            return Err(ValidationError::NonAsciiSequence);
        }
        if !is_ascii_bytes(&self.qual) {
            return Err(ValidationError::NonAsciiQuality);
        }
        if self.seq.len() != self.qual.len() {
            return Err(ValidationError::LengthMismatch);
        }
        Ok(())
    }
}

// ---------------------------------------------------------------------------
// Header splitting: the last whitespace-delimited token of the header line
// becomes the description; the id is the header cut before that token.
// ---------------------------------------------------------------------------

/// Some byte of `h` is ASCII whitespace.
pub open spec fn has_space(h: Seq<u8>) -> bool {
    exists|i: int| 0 <= i < h.len() && is_space(h[i])
}

/// Some byte of `h` is not ASCII whitespace.
pub open spec fn has_non_space(h: Seq<u8>) -> bool {
    exists|i: int| 0 <= i < h.len() && !is_space(h[i])
}

/// Index of the last non-whitespace byte of `h`, or `-1` if every byte is
/// whitespace.
pub open spec fn last_non_space(h: Seq<u8>) -> int
    decreases h.len(),
{
    if h.len() == 0 {
        -1
    } else if !is_space(h.last()) {
        h.len() - 1
    } else {
        last_non_space(h.drop_last())
    }
}

/// Start of the maximal non-whitespace run of `h` that ends at `e`.
pub open spec fn token_start(h: Seq<u8>, e: int) -> int
    decreases e,
{
    if e <= 0 {
        0
    } else if is_space(h[e - 1]) {
        e
    } else {
        token_start(h, e - 1)
    }
}

/// How the header line splits into an id and an optional description: when
/// the header holds both whitespace and content, the last
/// whitespace-delimited token is the description, and the id is the header
/// truncated to its length less the token and one separator byte; otherwise
/// the whole header is the id.
pub open spec fn split_header(h: Seq<u8>) -> (Seq<u8>, Option<Seq<u8>>) {
    if has_space(h) && has_non_space(h) {
        let e = last_non_space(h) + 1;
        let tok = h.subrange(token_start(h, e), e);
        (h.subrange(0, h.len() - tok.len() - 1), Some(tok))
    } else {
        (h, None)
    }
}

/// A byte that is non-whitespace and has only whitespace after it pins
/// `last_non_space` down.
proof fn lemma_last_non_space_at(h: Seq<u8>, k: int)
    requires
        0 <= k < h.len(),
        !is_space(h[k]),
        forall|i: int| k < i < h.len() ==> is_space(h[i]),
    ensures
        last_non_space(h) == k,
    decreases h.len(),
{
    if k < h.len() - 1 {
        lemma_last_non_space_at(h.drop_last(), k);
    }
}

/// In all-whitespace text there is no last non-whitespace byte.
proof fn lemma_last_non_space_none(h: Seq<u8>)
    requires
        forall|i: int| 0 <= i < h.len() ==> is_space(h[i]),
    ensures
        last_non_space(h) == -1,
    decreases h.len(),
{
    if h.len() > 0 {
        lemma_last_non_space_none(h.drop_last());
    }
}

/// A position preceded by whitespace (or the start), with no whitespace
/// from there up to `e`, pins `token_start` down.
proof fn lemma_token_start_at(h: Seq<u8>, e: int, j: int)
    requires
        0 <= j <= e <= h.len(),
        forall|i: int| j <= i < e ==> !is_space(h[i]),
        j > 0 ==> is_space(h[j - 1]),
    ensures
        token_start(h, e) == j,
    decreases e - j,
{
    if j < e {
        lemma_token_start_at(h, e - 1, j);
    }
}

/// Splits a header line into its id and optional description.
pub fn split_header_bytes(h: &Vec<u8>) -> (r: (Vec<u8>, Option<Vec<u8>>))
    ensures
        r.0@ == split_header(h@).0,
        opt_bytes(r.1) == split_header(h@).1,
{
    let mut e: usize = h.len();
    while e > 0 && is_space_byte(h[e - 1])
        invariant
            e <= h.len(),
            forall|i: int| e <= i < h.len() ==> is_space(h@[i]),
        decreases e,
    {
        e = e - 1;
    }
    if e == 0 {
        // Only whitespace (or nothing at all): no description.
        proof {
            assert(!has_non_space(h@));
        }
        return (copy_range(h, 0, h.len()), None);
    }
    proof {
        lemma_last_non_space_at(h@, e - 1);
    }
    let mut s0: usize = e;
    while s0 > 0 && !is_space_byte(h[s0 - 1])
        invariant
            s0 <= e <= h.len(),
            forall|i: int| s0 <= i < e ==> !is_space(h@[i]),
        decreases s0,
    {
        s0 = s0 - 1;
    }
    proof {
        lemma_token_start_at(h@, e as int, s0 as int);
    }
    if s0 == 0 && e == h.len() {
        // The whole header is one token: no whitespace, no description.
        proof {
            assert(forall|i: int| 0 <= i < h@.len() ==> !is_space(h@[i]));
            assert(!has_space(h@));
        }
        return (copy_range(h, 0, h.len()), None);
    }
    proof {
        assert(has_non_space(h@)) by {
            assert(!is_space(h@[e - 1]));
        }
        assert(has_space(h@)) by {
            if s0 > 0 {
                assert(is_space(h@[s0 - 1]));
            } else {
                assert(is_space(h@[e as int]));
            }
        }
    }
    let tok_len = e - s0;
    let id = copy_range(h, 0, h.len() - tok_len - 1);
    let tok = copy_range(h, s0, e);
    (id, Some(tok))
}

// ---------------------------------------------------------------------------
// The parse step: what one call of the reader yields, over the input bytes
// and the cursor position.
// ---------------------------------------------------------------------------

/// The sentinel text standing for a line that was never read, `<nothing>`.
pub open spec fn nothing_sentinel() -> Seq<u8> {
    seq![60u8, 110u8, 111u8, 116u8, 104u8, 105u8, 110u8, 103u8, 62u8]
}

/// Context of a failure on the header line: the marker and the sentinel.
pub open spec fn prev_header() -> Seq<u8> {
    seq![AT] + nothing_sentinel()
}

/// Context of a failure on the sequence line: marker, id, and sentinels for
/// the lines still missing.
pub open spec fn prev_seq(id: Seq<u8>) -> Seq<u8> {
    seq![AT] + id + seq![NL] + nothing_sentinel() + seq![NL, PLUS, NL] + nothing_sentinel()
}

/// Context of a failure on the separator line: marker, id and sequence.
pub open spec fn prev_sep(id: Seq<u8>, sq: Seq<u8>) -> Seq<u8> {
    seq![AT] + id + seq![NL] + sq
}

/// Context of a failure on the quality line: marker, id, sequence, the
/// separator, and the sentinel.
pub open spec fn prev_qual(id: Seq<u8>, sq: Seq<u8>) -> Seq<u8> {
    seq![AT] + id + seq![NL] + sq + seq![NL, PLUS, NL] + nothing_sentinel()
}

/// The outcome of one descriptive parse step.
pub enum ParseStep {
    /// The input was exhausted before the step began.
    End,
    /// A full record was parsed.
    Rec { id: Seq<u8>, desc: Option<Seq<u8>>, seq: Seq<u8>, qual: Seq<u8> },
    /// The record starts with this byte instead of `@`.
    NoAt { byte: u8 },
    /// The separator line starts with this byte instead of `+`.
    NoPlus { prev: Seq<u8>, byte: u8 },
    /// The input ended inside the record.
    Incomplete { prev: Seq<u8> },
    /// Sequence and quality lines differ in length.
    Mismatch { seq: Seq<u8>, qual: Seq<u8> },
}

/// What one descriptive parse of the input `s` at position `p` yields, and
/// the position of the cursor afterwards.  A line read of at most one byte
/// (an empty line, or none at all) makes the record incomplete; the
/// separator line must start with `+` but its remainder is ignored; the
/// error contexts carry the id as cut by `split_header`.
pub open spec fn fancy_step(s: Seq<u8>, p: int) -> (ParseStep, int)
    recommends
        wf_input(s),
        0 <= p <= s.len(),
{
    if p >= s.len() {
        (ParseStep::End, p)
    } else if s[p] != AT {
        (ParseStep::NoAt { byte: s[p] }, p + 1)
    } else {
        let hp = p + 1;
        let hstop = line_stop(s, hp);
        if hstop - hp <= 1 {
            (ParseStep::Incomplete { prev: prev_header() }, hstop)
        } else {
            let header = line_content(s, hp);
            let id = split_header(header).0;
            let desc = split_header(header).1;
            let sstop = line_stop(s, hstop);
            if sstop - hstop <= 1 {
                (ParseStep::Incomplete { prev: prev_seq(id) }, sstop)
            } else {
                let sq = line_content(s, hstop);
                let pp = sstop;
                if pp >= s.len() {
                    (ParseStep::Incomplete { prev: prev_sep(id, sq) }, pp)
                } else if s[pp] != PLUS {
                    (ParseStep::NoPlus { prev: prev_sep(id, sq), byte: s[pp] }, line_stop(s, pp))
                } else {
                    let qp = line_stop(s, pp);
                    let qstop = line_stop(s, qp);
                    if qstop - qp <= 1 {
                        (ParseStep::Incomplete { prev: prev_qual(id, sq) }, qstop)
                    } else {
                        let ql = line_content(s, qp);
                        if sq.len() == ql.len() {
                            (ParseStep::Rec { id, desc, seq: sq, qual: ql }, qstop)
                        } else {
                            (ParseStep::Mismatch { seq: sq, qual: ql }, qstop)
                        }
                    }
                }
            }
        }
    }
}

/// Whether a step's observable outcome matches the spec-level parse step.
pub open spec fn item_matches(r: Option<Result<Record, ParseError>>, step: ParseStep) -> bool {
    match step {
        ParseStep::End => r is None,
        ParseStep::Rec { id, desc, seq, qual } => {
            r matches Some(Ok(rec)) && rec@ == (RecordView { id, desc, seq, qual })
        },
        ParseStep::NoAt { byte } => {
            r matches Some(Err(ParseError::NoAt(b))) && b == byte
        },
        ParseStep::NoPlus { prev, byte } => {
            r matches Some(Err(ParseError::NoPlus(p, b))) && p@ == prev && b == byte
        },
        ParseStep::Incomplete { prev } => {
            r matches Some(Err(ParseError::Incomplete(p))) && p@ == prev
        },
        ParseStep::Mismatch { seq, qual } => {
            r matches Some(Err(ParseError::LengthMismatch(sv, qv))) && sv@ == seq && qv@ == qual
        },
    }
}

/// The `<nothing>` sentinel as bytes.
fn nothing_bytes() -> (r: Vec<u8>)
    ensures
        r@ == nothing_sentinel(),
{
    let mut v: Vec<u8> = Vec::new();
    v.push(60);
    v.push(110);
    v.push(111);
    v.push(116);
    v.push(104);
    v.push(105);
    v.push(110);
    v.push(103);
    v.push(62);
    proof {
        assert(v@ =~= nothing_sentinel());
    }
    v
}

/// Builds the context of a failure on the header line.
fn prev_header_bytes() -> (r: Vec<u8>)
    ensures
        r@ == prev_header(),
{
    let mut v: Vec<u8> = Vec::new();
    v.push(AT);
    append_bytes(&mut v, &nothing_bytes());
    proof {
        assert(v@ =~= prev_header());
    }
    v
}

/// Builds the context of a failure on the sequence line.
fn prev_seq_bytes(id: &Vec<u8>) -> (r: Vec<u8>)
    ensures
        r@ == prev_seq(id@),
{
    let mut v: Vec<u8> = Vec::new();
    v.push(AT);
    append_bytes(&mut v, id);
    v.push(NL);
    append_bytes(&mut v, &nothing_bytes());
    v.push(NL);
    v.push(PLUS);
    v.push(NL);
    append_bytes(&mut v, &nothing_bytes());
    proof {
        assert(v@ =~= prev_seq(id@));
    }
    v
}

/// Builds the context of a failure on the separator line.
fn prev_sep_bytes(id: &Vec<u8>, sq: &Vec<u8>) -> (r: Vec<u8>)
    ensures
        r@ == prev_sep(id@, sq@),
{
    let mut v: Vec<u8> = Vec::new();
    v.push(AT);
    append_bytes(&mut v, id);
    v.push(NL);
    append_bytes(&mut v, sq);
    proof {
        assert(v@ =~= prev_sep(id@, sq@));
    }
    v
}

/// Builds the context of a failure on the quality line.
fn prev_qual_bytes(id: &Vec<u8>, sq: &Vec<u8>) -> (r: Vec<u8>)
    ensures
        r@ == prev_qual(id@, sq@),
{
    let mut v: Vec<u8> = Vec::new();
    v.push(AT);
    append_bytes(&mut v, id);
    v.push(NL);
    append_bytes(&mut v, sq);
    v.push(NL);
    v.push(PLUS);
    v.push(NL);
    append_bytes(&mut v, &nothing_bytes());
    proof {
        assert(v@ =~= prev_qual(id@, sq@));
    }
    v
}

/// Reads the line starting at `pos`, without its terminator.  A read of at
/// most one byte — an empty line, or an exhausted input — yields `None`:
/// the record the line belongs to is incomplete.
pub fn read_line_without_nl(input: &Vec<u8>, pos: usize) -> (r: (Option<Vec<u8>>, usize))
    requires
        wf_input(input@),
        pos <= input.len(),
    ensures
        pos <= r.1 <= input.len(),
        r.1 == line_stop(input@, pos as int),
        line_stop(input@, pos as int) - pos <= 1 ==> r.0 is None,
        line_stop(input@, pos as int) - pos > 1 ==> (r.0 matches Some(v) && v@ == line_content(
            input@,
            pos as int,
        )),
{
    let e = find_byte_from(input, NL, pos);
    let stop = if e < input.len() {
        e + 1
    } else {
        e
    };
    if stop - pos <= 1 {
        (None, stop)
    } else {
        (Some(copy_range(input, pos, e)), stop)
    }
}

/// A descriptive FastQ reader over an in-memory byte input: a single-step
/// state machine invoked once per produced item.  Unlike the strict
/// variant's iterator, it does not stop after an error: each call parses
/// independently from the cursor left by the one before.
pub struct FastqReader {
    input: Vec<u8>,
    pos: usize,
}

impl FastqReader {
    /// The bytes this reader parses.
    pub closed spec fn input(&self) -> Seq<u8> {
        self.input@
    }

    /// The position of the next unread byte.
    pub closed spec fn cursor(&self) -> int {
        self.pos as int
    }

    /// The cursor never leaves the input, whose final line must carry its
    /// terminator.
    pub open spec fn wf(&self) -> bool {
        0 <= self.cursor() <= self.input().len() && wf_input(self.input())
    }

    /// A reader over the given bytes, starting at the beginning.  The input
    /// must be empty or end with a newline: this parser treats a missing
    /// final terminator as an invariant violation, never as data.
    pub fn new(input: Vec<u8>) -> (r: FastqReader)
        requires
            wf_input(input@),
        ensures
            r.wf(),
            r.input() == input@,
            r.cursor() == 0,
    {
        FastqReader { input, pos: 0 }
    }

    /// Parses the next record, or reports why it could not be parsed.
    /// `None` means the input was exhausted before the step began; every
    /// other outcome, success or error, is one item of the produced
    /// sequence, and the cursor moves past what the step consumed.
    pub fn next(&mut self) -> (r: Option<Result<Record, ParseError>>)
        requires
            old(self).wf(),
        ensures
            final(self).wf(),
            final(self).input() == old(self).input(),
            final(self).cursor() == fancy_step(old(self).input(), old(self).cursor()).1,
            item_matches(r, fancy_step(old(self).input(), old(self).cursor()).0),
    {
        if self.pos == self.input.len() {
            return None;
        }
        let at_byte = self.input[self.pos];
        if at_byte != AT {
            self.pos = self.pos + 1;
            return Some(Err(ParseError::NoAt(at_byte)));
        }
        self.pos = self.pos + 1;
        let (hline, p1) = read_line_without_nl(&self.input, self.pos);
        self.pos = p1;
        let header = match hline {
            None => {
                return Some(Err(ParseError::Incomplete(prev_header_bytes())));
            },
            Some(h) => h,
        };
        let (id, desc) = split_header_bytes(&header);
        let (sline, p2) = read_line_without_nl(&self.input, self.pos);
        self.pos = p2;
        let seq = match sline {
            None => {
                return Some(Err(ParseError::Incomplete(prev_seq_bytes(&id))));
            },
            Some(v) => v,
        };
        if self.pos == self.input.len() {
            return Some(Err(ParseError::Incomplete(prev_sep_bytes(&id, &seq))));
        }
        let plus_byte = self.input[self.pos];
        let e = find_byte_from(&self.input, NL, self.pos);
        self.pos = if e < self.input.len() {
            e + 1
        } else {
            e
        };
        if plus_byte != PLUS {
            return Some(Err(ParseError::NoPlus(prev_sep_bytes(&id, &seq), plus_byte)));
        }
        let (qline, p3) = read_line_without_nl(&self.input, self.pos);
        self.pos = p3;
        let qual = match qline {
            None => {
                return Some(Err(ParseError::Incomplete(prev_qual_bytes(&id, &seq))));
            },
            Some(v) => v,
        };
        if seq.len() == qual.len() {
            Some(Ok(Record::from_strings(id, desc, seq, qual)))
        } else {
            Some(Err(ParseError::LengthMismatch(seq, qual)))
        }
    }
}

// ---------------------------------------------------------------------------
// Laws of the descriptive parser.
// ---------------------------------------------------------------------------

/// One four-line group as bytes: marker, header, sequence, separator and
/// quality lines, each newline-terminated.
pub open spec fn group_bytes(header: Seq<u8>, sq: Seq<u8>, sep: Seq<u8>, ql: Seq<u8>) -> Seq<u8> {
    seq![AT] + header + seq![NL] + sq + seq![NL] + sep + seq![NL] + ql + seq![NL]
}

/// A record's four fields laid out as input text:
/// `@id desc`, sequence, `+`, quality, each line newline-terminated.
pub open spec fn format_record(v: RecordView) -> Seq<u8> {
    seq![AT] + v.id + (match v.desc {
        Some(d) => seq![SPACE] + d,
        None => Seq::<u8>::empty(),
    }) + seq![NL] + v.seq + seq![NL, PLUS, NL] + v.qual + seq![NL]
}

impl Record {
    /// The record laid out as input text, ready to be parsed again.
    pub fn to_bytes(&self) -> (r: Vec<u8>)
        ensures
            r@ == format_record(self@),
    {
        let mut v: Vec<u8> = Vec::new();
        v.push(AT);
        append_bytes(&mut v, &self.id);
        match &self.desc {
            Some(d) => {
                v.push(SPACE);
                append_bytes(&mut v, d);
            },
            None => {},
        }
        v.push(NL);
        append_bytes(&mut v, &self.seq);
        v.push(NL);
        v.push(PLUS);
        v.push(NL);
        append_bytes(&mut v, &self.qual);
        v.push(NL);
        proof {
            assert(v@ =~= format_record(self@));
        }
        v
    }
}

/// A header of the shape `id desc`, with a non-empty all-content
/// description token, splits back into exactly that id and description.
pub proof fn lemma_split_with_desc(id: Seq<u8>, d: Seq<u8>)
    requires
        d.len() > 0,
        forall|i: int| 0 <= i < d.len() ==> !is_space(d[i]),
    ensures
        split_header(id + seq![SPACE] + d) == (id, Some(d)),
{
    let h = id + seq![SPACE] + d;
    let il = id.len() as int;
    let hl = h.len() as int;
    assert(hl == il + 1 + d.len());
    assert(h[il] == SPACE);
    assert(forall|i: int| il + 1 <= i < hl ==> h[i] == d[i - il - 1]);
    assert(has_space(h)) by {
        assert(is_space(h[il]));
    }
    assert(has_non_space(h)) by {
        assert(!is_space(h[hl - 1]));
    }
    lemma_last_non_space_at(h, hl - 1);
    lemma_token_start_at(h, hl, il + 1);
    assert(h.subrange(il + 1, hl) =~= d);
    assert(h.subrange(0, il) =~= id);
}

/// A header without any whitespace does not split: it is all id, and the
/// description is absent.
pub proof fn lemma_split_no_desc(id: Seq<u8>)
    requires
        forall|i: int| 0 <= i < id.len() ==> !is_space(id[i]),
    ensures
        split_header(id) == (id, None::<Seq<u8>>),
{
    assert(!has_space(id));
}

/// Parsing a well-formed four-line group with matching sequence and quality
/// lengths yields exactly that record — the header as `split_header` cuts
/// it, sequence and quality as they stand — and consumes the whole group.
pub proof fn lemma_parse_group(header: Seq<u8>, sq: Seq<u8>, sep: Seq<u8>, ql: Seq<u8>)
    requires
        header.len() > 0,
        forall|i: int| 0 <= i < header.len() ==> header[i] != NL,
        sq.len() > 0,
        forall|i: int| 0 <= i < sq.len() ==> sq[i] != NL,
        sep.len() > 0,
        sep[0] == PLUS,
        forall|i: int| 0 <= i < sep.len() ==> sep[i] != NL,
        ql.len() > 0,
        forall|i: int| 0 <= i < ql.len() ==> ql[i] != NL,
        sq.len() == ql.len(),
    ensures
        ({
            let s = group_bytes(header, sq, sep, ql);
            fancy_step(s, 0) == (
                ParseStep::Rec {
                    id: split_header(header).0,
                    desc: split_header(header).1,
                    seq: sq,
                    qual: ql,
                },
                s.len() as int,
            )
        }),
{
    let s = group_bytes(header, sq, sep, ql);
    let hl = header.len() as int;
    let sl = sq.len() as int;
    let pl = sep.len() as int;
    let qll = ql.len() as int;
    assert(s.len() == hl + sl + pl + qll + 5);
    assert(s[0] == AT);
    // The header line spans [1, 1 + hl), closed by a newline.
    assert(forall|i: int| 1 <= i < 1 + hl ==> s[i] == header[i - 1]);
    assert(s[1 + hl] == NL);
    crate::lines::lemma_find_from_at(s, NL, 1, 1 + hl);
    assert(line_stop(s, 1) == 2 + hl);
    assert(line_content(s, 1) =~= header);
    // The sequence line spans [2 + hl, 2 + hl + sl).
    assert(forall|i: int| 2 + hl <= i < 2 + hl + sl ==> s[i] == sq[i - 2 - hl]);
    assert(s[2 + hl + sl] == NL);
    crate::lines::lemma_find_from_at(s, NL, 2 + hl, 2 + hl + sl);
    assert(line_stop(s, 2 + hl) == 3 + hl + sl);
    assert(line_content(s, 2 + hl) =~= sq);
    // The separator line spans [pp, pp + pl) and starts with the marker.
    let pp = 3 + hl + sl;
    assert(forall|i: int| pp <= i < pp + pl ==> s[i] == sep[i - pp]);
    assert(s[pp] == PLUS);
    assert(s[pp + pl] == NL);
    crate::lines::lemma_find_from_at(s, NL, pp, pp + pl);
    assert(line_stop(s, pp) == pp + pl + 1);
    // The quality line spans [qp, qp + qll) and ends the input.
    let qp = pp + pl + 1;
    assert(forall|i: int| qp <= i < qp + qll ==> s[i] == ql[i - qp]);
    assert(s[qp + qll] == NL);
    crate::lines::lemma_find_from_at(s, NL, qp, qp + qll);
    assert(line_stop(s, qp) == qp + qll + 1);
    assert(line_content(s, qp) =~= ql);
    assert(qp + qll + 1 == s.len());
}

/// Round trip: laying a parsed record out as text and parsing that text
/// again yields the record, field for field, when a description is present
/// (a description token is non-empty and carries no whitespace), or when it
/// is absent and the id carries no whitespace; the sequence and quality are
/// non-empty, newline-free and of equal length either way.
pub proof fn lemma_round_trip(v: RecordView)
    requires
        forall|i: int| 0 <= i < v.id.len() ==> v.id[i] != NL,
        v.desc matches Some(d) ==> d.len() > 0 && (forall|i: int|
            0 <= i < d.len() ==> !is_space(d[i])),
        v.desc is None ==> v.id.len() > 0 && (forall|i: int|
            0 <= i < v.id.len() ==> !is_space(v.id[i])),
        v.seq.len() > 0,
        forall|i: int| 0 <= i < v.seq.len() ==> v.seq[i] != NL,
        v.qual.len() > 0,
        forall|i: int| 0 <= i < v.qual.len() ==> v.qual[i] != NL,
        v.seq.len() == v.qual.len(),
    ensures
        fancy_step(format_record(v), 0) == (
            ParseStep::Rec { id: v.id, desc: v.desc, seq: v.seq, qual: v.qual },
            format_record(v).len() as int,
        ),
{
    match v.desc {
        Some(d) => {
            let header = v.id + seq![SPACE] + d;
            assert(forall|i: int| 0 <= i < header.len() ==> header[i] != NL);
            assert(format_record(v) =~= group_bytes(header, v.seq, seq![PLUS], v.qual));
            lemma_parse_group(header, v.seq, seq![PLUS], v.qual);
            lemma_split_with_desc(v.id, d);
        },
        None => {
            let header = v.id;
            assert(format_record(v) =~= group_bytes(header, v.seq, seq![PLUS], v.qual));
            lemma_parse_group(header, v.seq, seq![PLUS], v.qual);
            lemma_split_no_desc(v.id);
        },
    }
}

/// A record that satisfies the invariants: fully empty, or with a non-empty
/// id, ASCII sequence and quality, and matching lengths.
pub open spec fn record_valid(v: RecordView) -> bool {
    v.is_empty() || (v.id.len() > 0 && is_ascii_seq(v.seq) && is_ascii_seq(v.qual)
        && v.seq.len() == v.qual.len())
}

/// `check` succeeds exactly on valid records.  Its result is a function of
/// the record's view alone, and `check` borrows the record immutably, so
/// calling it any number of times on an already-valid record keeps
/// returning success and cannot change the record.
pub proof fn lemma_check_exact(v: RecordView)
    ensures
        spec_check(v) is Ok <==> record_valid(v),
{
}

/// An input of zero bytes yields the end of the sequence at once: no
/// record, no error, and the cursor stays put.
pub proof fn lemma_empty_input()
    ensures
        fancy_step(Seq::empty(), 0) == (ParseStep::End, 0int),
{
}

} // verus!
