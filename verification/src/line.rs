//! Lines of story text: ordered chunks of plain text, embedded expressions,
//! inline alternatives and guarded parts, with an optional trailing divert
//! and tags.

use vstd::prelude::*;

use crate::address::{Address, AddressV};
use crate::condition::{spec_eval_condition, CondV, Condition};
use crate::error::{InklingErrV, InklingError};
use crate::expression::{spec_eval, ExprV, Expression};
use crate::follow::{data_wf, FollowData};
use crate::log::{Logger, Warning, WarningV};
use crate::variable::spec_variable_text;

verus! {

/// How an inline alternative selects its entry from the visit count of the
/// node that holds the line.
#[derive(Clone, Copy, Debug, PartialEq, Eq, Structural)]
pub enum AlternativeKind {
    /// Walk the entries once and stick on the last.
    Sequence,
    /// Walk the entries once, then produce nothing.
    OnceOnly,
    /// Cycle through the entries forever.
    Cycle,
}

/// One piece of a line.
#[derive(Debug, PartialEq)]
pub enum LineChunk {
    /// Plain text.
    Text(String),
    /// An embedded expression, rendered as the text form of its value.
    Expression(Expression),
    /// An inline alternative whose entry is selected by the visit count.
    Alternative { kind: AlternativeKind, entries: Vec<LineChunk> },
    /// A guarded part: the first chunk when the condition holds, else the
    /// second, else nothing.
    Conditional {
        condition: Condition,
        if_chunk: Box<LineChunk>,
        else_chunk: Option<Box<LineChunk>>,
    },
}

/// The mathematical value of a `LineChunk`.
#[verifier::ext_equal]
pub enum ChunkV {
    Text(Seq<char>),
    Expression(ExprV),
    Alternative { kind: AlternativeKind, entries: Seq<ChunkV> },
    Conditional { condition: CondV, if_chunk: Box<ChunkV>, else_chunk: Option<Box<ChunkV>> },
}

/// The mathematical value of a chunk tree.
pub open spec fn view_chunk(c: LineChunk) -> ChunkV
    decreases c,
{
    match c {
        LineChunk::Text(s) => ChunkV::Text(s@),
        LineChunk::Expression(e) => ChunkV::Expression(e@),
        LineChunk::Alternative { kind, entries } => ChunkV::Alternative {
            kind,
            entries: view_chunks(entries@),
        },
        LineChunk::Conditional { condition, if_chunk, else_chunk } => ChunkV::Conditional {
            condition: condition@,
            if_chunk: Box::new(view_chunk(*if_chunk)),
            else_chunk: match else_chunk {
                Some(c2) => Some(Box::new(view_chunk(*c2))),
                None => None,
            },
        },
    }
}

/// The mathematical value of a list of chunks.
pub open spec fn view_chunks(s: Seq<LineChunk>) -> Seq<ChunkV>
    decreases s,
{
    if s.len() == 0 {
        Seq::empty()
    } else {
        seq![view_chunk(s[0])] + view_chunks(s.drop_first())
    }
}

/// `view_chunks` maps `view_chunk` over the list.
pub proof fn lemma_view_chunks(s: Seq<LineChunk>)
    ensures
        view_chunks(s).len() == s.len(),
        forall|i: int| 0 <= i < s.len() ==> view_chunks(s)[i] == view_chunk(s[i]),
    decreases s.len(),
{
    if s.len() > 0 {
        lemma_view_chunks(s.drop_first());
        assert forall|i: int| 0 <= i < s.len() implies view_chunks(s)[i] == view_chunk(s[i]) by {
            if i > 0 {
                assert(view_chunks(s.drop_first())[i - 1] == view_chunk(s.drop_first()[i - 1]));
                assert(s.drop_first()[i - 1] == s[i]);
            }
        }
    }
}

impl View for LineChunk {
    type V = ChunkV;

    open spec fn view(&self) -> ChunkV {
        view_chunk(*self)
    }
}

/// The mathematical value of a list of strings.
pub open spec fn view_strings(s: Seq<String>) -> Seq<Seq<char>> {
    Seq::new(s.len(), |i: int| s[i]@)
}

/// A line of story text.
///
/// Rendering concatenates the chunk texts left to right and appends a
/// newline unless the line ends with glue. A line may carry a trailing
/// divert, taken after the line is emitted, and a list of tags.
#[derive(Debug, PartialEq)]
pub struct InternalLine {
    /// The chunks, in text order.
    pub chunks: Vec<LineChunk>,
    /// Where to divert after emitting the line, if anywhere.
    pub divert: Option<Address>,
    /// Whether the line begins with glue: no newline separates it from the
    /// line before it.
    pub glue_begin: bool,
    /// Whether the line ends with glue: no newline is appended.
    pub glue_end: bool,
    /// The tags of the line.
    pub tags: Vec<String>,
}

/// The mathematical value of an `InternalLine`.
#[verifier::ext_equal]
pub struct InternalLineV {
    pub chunks: Seq<ChunkV>,
    pub divert: Option<AddressV>,
    pub glue_begin: bool,
    pub glue_end: bool,
    pub tags: Seq<Seq<char>>,
}

impl View for InternalLine {
    type V = InternalLineV;

    open spec fn view(&self) -> InternalLineV {
        InternalLineV {
            chunks: view_chunks(self.chunks@),
            divert: match &self.divert {
                Some(a) => Some(a@),
                None => None,
            },
            glue_begin: self.glue_begin,
            glue_end: self.glue_end,
            tags: view_strings(self.tags@),
        }
    }
}

/// Which entry of an inline alternative a visit count selects, or `None`
/// when a once-only alternative is exhausted.
pub open spec fn spec_alt_index(kind: AlternativeKind, vc: u32, len: int) -> Option<int>
    recommends
        len > 0,
{
    let v: int = if vc == 0 {
        0
    } else {
        vc - 1
    };
    match kind {
        AlternativeKind::Sequence => Some(
            if v < len - 1 {
                v
            } else {
                len - 1
            },
        ),
        AlternativeKind::OnceOnly => if v < len {
            Some(v)
        } else {
            None
        },
        AlternativeKind::Cycle => Some(v % len),
    }
}

/// What rendering one chunk gives: the text it adds and the warnings it
/// logs, or the error that stops the line.
///
/// A divert value rendered as text is not an error here: it logs a warning
/// and adds nothing.
pub open spec fn spec_render_chunk(c: ChunkV, vc: u32, d: FollowData) -> Result<
    (Seq<char>, Seq<WarningV>),
    InklingErrV,
>
    decreases c,
{
    match c {
        ChunkV::Text(s) => Ok((s, Seq::empty())),
        ChunkV::Expression(e) => match spec_eval(e, d) {
            Ok(v) => match spec_variable_text(v, d) {
                Ok(t) => Ok((t, Seq::empty())),
                Err(InklingErrV::PrintInvalidVariable { .. }) => Ok(
                    (Seq::empty(), seq![WarningV::PrintedDivertAsText]),
                ),
                Err(e2) => Err(e2),
            },
            Err(e1) => Err(e1),
        },
        ChunkV::Alternative { kind, entries } => {
            if entries.len() == 0 {
                Ok((Seq::empty(), Seq::empty()))
            } else {
                match spec_alt_index(kind, vc, entries.len() as int) {
                    Some(i) => spec_render_chunk(entries[i], vc, d),
                    None => Ok((Seq::empty(), Seq::empty())),
                }
            }
        },
        ChunkV::Conditional { condition, if_chunk, else_chunk } => match spec_eval_condition(
            condition,
            d,
        ) {
            Ok(true) => spec_render_chunk(*if_chunk, vc, d),
            Ok(false) => match else_chunk {
                Some(c2) => spec_render_chunk(*c2, vc, d),
                None => Ok((Seq::empty(), Seq::empty())),
            },
            Err(e1) => Err(e1),
        },
    }
}

/// What rendering the chunks from position `i` on gives.
pub open spec fn spec_render_chunks_from(
    chunks: Seq<ChunkV>,
    i: int,
    vc: u32,
    d: FollowData,
) -> Result<(Seq<char>, Seq<WarningV>), InklingErrV>
    decreases chunks.len() - i,
{
    if i < 0 || i >= chunks.len() {
        Ok((Seq::empty(), Seq::empty()))
    } else {
        match spec_render_chunk(chunks[i], vc, d) {
            Ok(first) => match spec_render_chunks_from(chunks, i + 1, vc, d) {
                Ok(rest) => Ok((first.0 + rest.0, first.1 + rest.1)),
                Err(e) => Err(e),
            },
            Err(e) => Err(e),
        }
    }
}

/// What rendering a whole line gives: the chunk texts in order, with a
/// newline appended unless the line ends with glue.
pub open spec fn spec_render_line(l: InternalLineV, vc: u32, d: FollowData) -> Result<
    (Seq<char>, Seq<WarningV>),
    InklingErrV,
> {
    match spec_render_chunks_from(l.chunks, 0, vc, d) {
        Ok(body) => Ok(
            (
                if l.glue_end {
                    body.0
                } else {
                    body.0.push('\n')
                },
                body.1,
            ),
        ),
        Err(e) => Err(e),
    }
}

/// Render one chunk against the runtime data, appending its text to `out`
/// and its warnings to the log.
fn render_chunk(
    chunk: &LineChunk,
    visit_count: u32,
    data: &FollowData,
    out: &mut String,
    log: &mut Logger,
) -> (r: Result<(), InklingError>)
    requires
        data_wf(*data),
    ensures
        match spec_render_chunk(chunk@, visit_count, *data) {
            Ok(res) => {
                &&& r is Ok
                &&& final(out)@ == old(out)@ + res.0
                &&& final(log)@ == old(log)@ + res.1
            },
            Err(e) => r is Err && r->Err_0@ == e && old(log)@.is_prefix_of(final(log)@),
        },
    decreases *chunk,
{
    match chunk {
        LineChunk::Text(s) => {
            out.append(s.as_str());
            proof {
                assert(final(log)@ =~= old(log)@ + Seq::<WarningV>::empty());
            }
            Ok(())
        },
        LineChunk::Expression(e) => {
            let value = match e.evaluate(data) {
                Ok(v) => v,
                Err(err) => {
                    proof {
                        assert(final(out)@ == old(out)@);
                    }
                    return Err(err);
                },
            };
            match value.to_string(data) {
                Ok(text) => {
                    out.append(text.as_str());
                    proof {
                        assert(final(log)@ =~= old(log)@ + Seq::<WarningV>::empty());
                    }
                    Ok(())
                },
                Err(InklingError::PrintInvalidVariable { .. }) => {
                    log.push(Warning::PrintedDivertAsText);
                    proof {
                        assert(final(out)@ =~= old(out)@ + Seq::<char>::empty());
                        assert(final(log)@ =~= old(log)@ + seq![WarningV::PrintedDivertAsText]);
                    }
                    Ok(())
                },
                Err(other) => Err(other),
            }
        },
        LineChunk::Alternative { kind, entries } => {
            proof {
                lemma_view_chunks(entries@);
            }
            let len = entries.len();
            if len == 0 {
                proof {
                    assert(final(out)@ =~= old(out)@ + Seq::<char>::empty());
                    assert(final(log)@ =~= old(log)@ + Seq::<WarningV>::empty());
                }
                return Ok(());
            }
            let v: usize = if visit_count == 0 {
                0
            } else {
                (visit_count - 1) as usize
            };
            match kind {
                AlternativeKind::Sequence => {
                    let idx = if v < len - 1 {
                        v
                    } else {
                        len - 1
                    };
                    render_chunk(&entries[idx], visit_count, data, out, log)
                },
                AlternativeKind::OnceOnly => {
                    if v < len {
                        render_chunk(&entries[v], visit_count, data, out, log)
                    } else {
                        proof {
                            assert(final(out)@ =~= old(out)@ + Seq::<char>::empty());
                            assert(final(log)@ =~= old(log)@ + Seq::<WarningV>::empty());
                        }
                        Ok(())
                    }
                },
                AlternativeKind::Cycle => {
                    let idx = v % len;
                    render_chunk(&entries[idx], visit_count, data, out, log)
                },
            }
        },
        LineChunk::Conditional { condition, if_chunk, else_chunk } => {
            match condition.evaluate(data) {
                Ok(true) => render_chunk(if_chunk, visit_count, data, out, log),
                Ok(false) => match else_chunk {
                    Some(c2) => render_chunk(c2, visit_count, data, out, log),
                    None => {
                        proof {
                            assert(final(out)@ =~= old(out)@ + Seq::<char>::empty());
                            assert(final(log)@ =~= old(log)@ + Seq::<WarningV>::empty());
                        }
                        Ok(())
                    },
                },
                Err(err) => Err(err),
            }
        },
    }
}

/// Render the chunks from position `i` on.
pub(crate) fn render_chunks_from(
    chunks: &Vec<LineChunk>,
    i: usize,
    visit_count: u32,
    data: &FollowData,
    out: &mut String,
    log: &mut Logger,
) -> (r: Result<(), InklingError>)
    requires
        data_wf(*data),
    ensures
        match spec_render_chunks_from(view_chunks(chunks@), i as int, visit_count, *data) {
            Ok(res) => {
                &&& r is Ok
                &&& final(out)@ == old(out)@ + res.0
                &&& final(log)@ == old(log)@ + res.1
            },
            Err(e) => r is Err && r->Err_0@ == e && old(log)@.is_prefix_of(final(log)@),
        },
    decreases chunks@.len() - i,
{
    proof {
        lemma_view_chunks(chunks@);
    }
    if i >= chunks.len() {
        proof {
            assert(final(out)@ =~= old(out)@ + Seq::<char>::empty());
            assert(final(log)@ =~= old(log)@ + Seq::<WarningV>::empty());
        }
        return Ok(());
    }
    match render_chunk(&chunks[i], visit_count, data, out, log) {
        Ok(()) => {},
        Err(e) => {
            return Err(e);
        },
    }
    match render_chunks_from(chunks, i + 1, visit_count, data, out, log) {
        Ok(()) => Ok(()),
        Err(e) => Err(e),
    }
}

impl InternalLine {
    /// A line holding one chunk of plain text, with no divert, glue or tags.
    pub fn from_string(text: &str) -> (r: InternalLine)
        ensures
            r@.chunks =~= seq![ChunkV::Text(text@)],
            r@.divert is None,
            !r@.glue_begin,
            !r@.glue_end,
            r@.tags =~= Seq::<Seq<char>>::empty(),
    {
        InternalLine::from_chunk(LineChunk::Text(text.to_owned()))
    }

    /// A line holding one chunk, with no divert, glue or tags.
    pub fn from_chunk(chunk: LineChunk) -> (r: InternalLine)
        ensures
            r@.chunks =~= seq![chunk@],
            r@.divert is None,
            !r@.glue_begin,
            !r@.glue_end,
            r@.tags =~= Seq::<Seq<char>>::empty(),
    {
        let mut chunks: Vec<LineChunk> = Vec::new();
        chunks.push(chunk);
        let r = InternalLine {
            chunks,
            divert: None,
            glue_begin: false,
            glue_end: false,
            tags: Vec::new(),
        };
        proof {
            lemma_view_chunks(r.chunks@);
            assert(r@.chunks =~= seq![view_chunk(r.chunks@[0])]);
        }
        r
    }

    /// Render this line against the runtime data: the chunk texts in order,
    /// with a newline appended unless the line ends with glue. Warnings go
    /// to the log.
    pub fn render(&self, visit_count: u32, data: &FollowData, log: &mut Logger) -> (r: Result<
        String,
        InklingError,
    >)
        requires
            data_wf(*data),
        ensures
            match spec_render_line(self@, visit_count, *data) {
                Ok(res) => {
                    &&& r is Ok
                    &&& r->Ok_0@ == res.0
                    &&& final(log)@ == old(log)@ + res.1
                },
                Err(e) => r is Err && r->Err_0@ == e && old(log)@.is_prefix_of(final(log)@),
            },
    {
        let mut out = String::new();
        match render_chunks_from(&self.chunks, 0, visit_count, data, &mut out, log) {
            Ok(()) => {},
            Err(e) => {
                return Err(e);
            },
        }
        if !self.glue_end {
            proof {
                reveal_strlit("\n");
            }
            out.append("\n");
            proof {
                let body = spec_render_chunks_from(self@.chunks, 0, visit_count, *data)->Ok_0;
                assert(out@ =~= body.0.push('\n'));
            }
        }
        Ok(out)
    }

    /// A copy of this line with the same mathematical value.
    pub fn duplicate(&self) -> (r: InternalLine)
        ensures
            r@ == self@,
    {
        let r = InternalLine {
            chunks: duplicate_chunks(&self.chunks),
            divert: match &self.divert {
                Some(a) => Some(a.duplicate()),
                None => None,
            },
            glue_begin: self.glue_begin,
            glue_end: self.glue_end,
            tags: duplicate_strings(&self.tags),
        };
        proof {
            assert(r@ =~= self@);
        }
        r
    }
}

/// A copy of a chunk with the same mathematical value.
fn duplicate_chunk(c: &LineChunk) -> (r: LineChunk)
    ensures
        r@ == c@,
    decreases *c,
{
    match c {
        LineChunk::Text(s) => LineChunk::Text(s.clone()),
        LineChunk::Expression(e) => LineChunk::Expression(e.duplicate()),
        LineChunk::Alternative { kind, entries } => LineChunk::Alternative {
            kind: *kind,
            entries: duplicate_chunks(entries),
        },
        LineChunk::Conditional { condition, if_chunk, else_chunk } => {
            let r = LineChunk::Conditional {
                condition: condition.duplicate(),
                if_chunk: Box::new(duplicate_chunk(if_chunk)),
                else_chunk: match else_chunk {
                    Some(c2) => Some(Box::new(duplicate_chunk(c2))),
                    None => None,
                },
            };
            proof {
                assert(r@ =~= c@);
            }
            r
        },
    }
}

/// A copy of a chunk list with the same mathematical value.
fn duplicate_chunks(v: &Vec<LineChunk>) -> (r: Vec<LineChunk>)
    ensures
        view_chunks(r@) == view_chunks(v@),
    decreases v@,
{
    let n = v.len();
    let mut r: Vec<LineChunk> = Vec::new();
    let mut i: usize = 0;
    while i < n
        invariant
            n == v@.len(),
            0 <= i <= n,
            r@.len() == i,
            forall|j: int| 0 <= j < i ==> view_chunk(#[trigger] r@[j]) == view_chunk(v@[j]),
        decreases n - i,
    {
        let copy = duplicate_chunk(&v[i]);
        r.push(copy);
        i += 1;
    }
    proof {
        lemma_view_chunks(r@);
        lemma_view_chunks(v@);
        assert(view_chunks(r@) =~= view_chunks(v@));
    }
    r
}

/// A copy of a string list holding the same strings.
pub fn duplicate_strings(v: &Vec<String>) -> (r: Vec<String>)
    ensures
        r@ == v@,
{
    let n = v.len();
    let mut r: Vec<String> = Vec::new();
    let mut i: usize = 0;
    while i < n
        invariant
            n == v@.len(),
            0 <= i <= n,
            r@.len() == i,
            forall|j: int| 0 <= j < i ==> #[trigger] r@[j] == v@[j],
        decreases n - i,
    {
        let copy = v[i].clone();
        r.push(copy);
        i += 1;
    }
    proof {
        assert(r@ =~= v@);
    }
    r
}


/// One rendered line of story text handed to the host.
#[derive(Clone, Debug, PartialEq)]
pub struct Line {
    /// Text content of the line, with its trailing newline unless glue
    /// suppressed it.
    pub text: String,
    /// Tags set for the line.
    pub tags: Vec<String>,
}

/// The mathematical value of a rendered `Line`.
#[verifier::ext_equal]
pub struct LineV {
    pub text: Seq<char>,
    pub tags: Seq<Seq<char>>,
}

impl View for Line {
    type V = LineV;

    open spec fn view(&self) -> LineV {
        LineV { text: self.text@, tags: view_strings(self.tags@) }
    }
}

/// A buffer of rendered lines that `resume` fills.
pub type LineBuffer = Vec<Line>;

/// The mathematical value of a line buffer.
pub open spec fn view_buffer(s: Seq<Line>) -> Seq<LineV> {
    Seq::new(s.len(), |i: int| s[i]@)
}

/// What appending a rendered line to the buffer gives: when the new line
/// begins with glue, the newline that ended the line before it is removed,
/// so that the two concatenate.
///
/// Glue removes exactly the separating newline and nothing else: spaces the
/// author wrote on either side of a glue boundary are kept, so `"Hello, "`
/// glued to `"world."` reads `"Hello, world."`.
pub open spec fn spec_append_line(
    buf: Seq<LineV>,
    text: Seq<char>,
    tags: Seq<Seq<char>>,
    glue_begin: bool,
) -> Seq<LineV> {
    if glue_begin && buf.len() > 0 && buf.last().text.len() > 0 && buf.last().text.last() == '\n' {
        let trimmed = LineV { text: buf.last().text.drop_last(), tags: buf.last().tags };
        buf.update(buf.len() - 1, trimmed).push(LineV { text, tags })
    } else {
        buf.push(LineV { text, tags })
    }
}

/// Append a rendered line to the buffer, joining it to the line before it
/// at a glue boundary.
pub fn append_line(buffer: &mut Vec<Line>, text: String, tags: Vec<String>, glue_begin: bool)
    ensures
        view_buffer(final(buffer)@) == spec_append_line(
            view_buffer(old(buffer)@),
            text@,
            view_strings(tags@),
            glue_begin,
        ),
{
    let ghost pre = view_buffer(old(buffer)@);
    let n = buffer.len();
    if glue_begin && n > 0 {
        let prev_len = buffer[n - 1].text.as_str().unicode_len();
        if prev_len > 0 && buffer[n - 1].text.as_str().get_char(prev_len - 1) == '\n' {
            let shortened = buffer[n - 1].text.as_str().substring_char(0, prev_len - 1).to_owned();
            let prev = &mut buffer[n - 1];
            prev.text = shortened;
            proof {
                assert(prev.text@ =~= pre.last().text.drop_last());
            }
        }
    }
    buffer.push(Line { text, tags });
    proof {
        assert(view_buffer(buffer@) =~= spec_append_line(pre, text@, view_strings(tags@), glue_begin));
    }
}


/// Rendering a chunk fails only with errors the walk can produce.
pub proof fn lemma_render_chunk_err(c: ChunkV, vc: u32, d: FollowData)
    ensures
        spec_render_chunk(c, vc, d) is Err ==> crate::error::walk_err(
            spec_render_chunk(c, vc, d)->Err_0,
        ),
    decreases c,
{
    match c {
        ChunkV::Text(_) => {},
        ChunkV::Expression(e) => {
            crate::expression::lemma_eval_err(e, d);
            if spec_eval(e, d) is Ok {
                crate::variable::lemma_variable_text_err(spec_eval(e, d)->Ok_0, d);
            }
        },
        ChunkV::Alternative { kind, entries } => {
            if entries.len() > 0 {
                match spec_alt_index(kind, vc, entries.len() as int) {
                    Some(i) => {
                        if 0 <= i < entries.len() {
                            lemma_render_chunk_err(entries[i], vc, d);
                        }
                    },
                    None => {},
                }
            }
        },
        ChunkV::Conditional { condition, if_chunk, else_chunk } => {
            crate::condition::lemma_eval_condition_err(condition, d);
            lemma_render_chunk_err(*if_chunk, vc, d);
            match else_chunk {
                Some(c2) => {
                    lemma_render_chunk_err(*c2, vc, d);
                },
                None => {},
            }
        },
    }
}

/// Rendering a chunk list fails only with errors the walk can produce.
pub proof fn lemma_render_chunks_from_err(chunks: Seq<ChunkV>, i: int, vc: u32, d: FollowData)
    ensures
        spec_render_chunks_from(chunks, i, vc, d) is Err ==> crate::error::walk_err(
            spec_render_chunks_from(chunks, i, vc, d)->Err_0,
        ),
    decreases chunks.len() - i,
{
    if 0 <= i < chunks.len() {
        lemma_render_chunk_err(chunks[i], vc, d);
        lemma_render_chunks_from_err(chunks, i + 1, vc, d);
    }
}

/// Rendering a line fails only with errors the walk can produce.
pub proof fn lemma_render_line_err(l: InternalLineV, vc: u32, d: FollowData)
    ensures
        spec_render_line(l, vc, d) is Err ==> crate::error::walk_err(
            spec_render_line(l, vc, d)->Err_0,
        ),
{
    lemma_render_chunks_from_err(l.chunks, 0, vc, d);
}

} // verus!
