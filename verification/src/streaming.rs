//! Decisions of the streaming chat clients: what each server-sent event
//! becomes (a token chunk to pass on, nothing, or the end of the stream),
//! and the assembly of tool calls that arrive in fragments.
use vstd::prelude::*;
use vstd::string::*;
use crate::text::{trim, trim_chars, str_eq};

verus! {

/// Why a model stopped generating.
#[derive(Debug, Clone, Copy, PartialEq, Eq, Structural)]
pub enum FinishReason {
    Stop,
    ToolCalls,
    Length,
    ContentFilter,
}

/// Token counts reported with a chunk.
#[derive(Debug, Clone, Copy, PartialEq, Eq, Structural)]
pub struct TokenUsage {
    pub prompt_tokens: u32,
    pub completion_tokens: u32,
    pub total_tokens: u32,
}

/// A tool call assembled from fragments; `arguments` is its JSON text.
#[derive(Debug, Clone)]
pub struct ToolCallText {
    pub id: String,
    pub name: String,
    pub arguments: String,
}

/// A piece of a streamed answer.
#[derive(Debug, Clone)]
pub struct TokenChunk {
    pub delta: String,
    pub finish_reason: Option<FinishReason>,
    pub usage: Option<TokenUsage>,
    pub tool_calls: Vec<ToolCallText>,
}

/// Abstract value of a tool call.
pub struct ToolCallView {
    pub id: Seq<char>,
    pub name: Seq<char>,
    pub arguments: Seq<char>,
}

/// Abstract value of a chunk.
pub struct ChunkView {
    pub delta: Seq<char>,
    pub finish_reason: Option<FinishReason>,
    pub usage: Option<TokenUsage>,
    pub tool_calls: Seq<ToolCallView>,
}

/// The abstract value of a tool call.
pub open spec fn tool_call_view(t: ToolCallText) -> ToolCallView {
    ToolCallView { id: t.id@, name: t.name@, arguments: t.arguments@ }
}

/// The abstract values of tool calls.
pub open spec fn tool_calls_view(v: Seq<ToolCallText>) -> Seq<ToolCallView> {
    v.map_values(|t: ToolCallText| tool_call_view(t))
}

/// The abstract value of a chunk.
pub open spec fn chunk_view(c: TokenChunk) -> ChunkView {
    ChunkView {
        delta: c.delta@,
        finish_reason: c.finish_reason,
        usage: c.usage,
        tool_calls: tool_calls_view(c.tool_calls@),
    }
}

/// A chunk carrying only text.
pub open spec fn text_chunk(t: Seq<char>) -> ChunkView {
    ChunkView { delta: t, finish_reason: None, usage: None, tool_calls: seq![] }
}

/// What one event leads to.
pub enum StreamStep {
    /// Nothing to pass on; read the next event.
    Skip,
    /// Pass the chunk on and read the next event.
    Emit(TokenChunk),
    /// Pass the error on and end the stream.
    Fail(String),
    /// End the stream.
    Stop,
}

/// Abstract value of a step.
pub enum StepView {
    Skip,
    Emit(ChunkView),
    Fail(Seq<char>),
    Stop,
}

/// The abstract value of a step.
pub open spec fn step_view(s: StreamStep) -> StepView {
    match s {
        StreamStep::Skip => StepView::Skip,
        StreamStep::Emit(c) => StepView::Emit(chunk_view(c)),
        StreamStep::Fail(m) => StepView::Fail(m@),
        StreamStep::Stop => StepView::Stop,
    }
}

fn text_only(t: String) -> (r: TokenChunk)
    ensures
        chunk_view(r) == text_chunk(t@),
{
    let r = TokenChunk { delta: t, finish_reason: None, usage: None, tool_calls: Vec::new() };
    proof {
        assert(tool_calls_view(r.tool_calls@) =~= Seq::<ToolCallView>::empty());
    }
    r
}

fn prefixed(prefix: &str, m: &str) -> (r: String)
    ensures
        r@ == prefix@ + m@,
{
    let mut s = String::from_str(prefix);
    s.append(m);
    s
}

// ── events of the messages protocol ─────────────────────────────────────────

/// What an event of the messages protocol asks for, before its data is
/// read.
pub enum MessageEvent {
    /// Nothing to do (heartbeats, block boundaries, unknown events, empty
    /// data).
    Skip,
    /// A content delta: its data is to be read.
    ContentDelta,
    /// A message delta (stop reason, usage): its data is to be read.
    MessageDelta,
    /// The message is complete.
    Stop,
    /// The server reported an error.
    Fail(String),
}

/// Abstract value of a message event.
pub enum MessageEventView {
    Skip,
    ContentDelta,
    MessageDelta,
    Stop,
    Fail(Seq<char>),
}

/// The abstract value of a message event.
pub open spec fn message_event_view(e: MessageEvent) -> MessageEventView {
    match e {
        MessageEvent::Skip => MessageEventView::Skip,
        MessageEvent::ContentDelta => MessageEventView::ContentDelta,
        MessageEvent::MessageDelta => MessageEventView::MessageDelta,
        MessageEvent::Stop => MessageEventView::Stop,
        MessageEvent::Fail(m) => MessageEventView::Fail(m@),
    }
}

/// How an event of type `kind` with data `data` is handled.
pub open spec fn message_event_spec(kind: Seq<char>, data: Seq<char>) -> MessageEventView {
    let d = trim_chars(data);
    if d.len() == 0 {
        MessageEventView::Skip
    } else if kind == "content_block_delta"@ {
        MessageEventView::ContentDelta
    } else if kind == "message_delta"@ {
        MessageEventView::MessageDelta
    } else if kind == "message_stop"@ {
        MessageEventView::Stop
    } else if kind == "error"@ {
        MessageEventView::Fail("Anthropic stream error: "@ + d)
    } else {
        MessageEventView::Skip
    }
}

/// Classifies an event of the messages protocol by its type; events with
/// empty data, heartbeats, block boundaries and unknown types are skipped.
pub fn classify_message_event(kind: &str, data: &str) -> (r: MessageEvent)
    ensures
        message_event_view(r) == message_event_spec(kind@, data@),
{
    let d = trim(data);
    if d.as_bytes().len() == 0 {
        proof {
            assert(d@.len() == 0) by {
                if d@.len() > 0 {
                    crate::text::lemma_encode_nonempty(d@);
                }
            }
        }
        return MessageEvent::Skip;
    }
    proof {
        reveal_strlit("content_block_delta");
        reveal_strlit("message_delta");
        reveal_strlit("message_stop");
        reveal_strlit("error");
        reveal_strlit("Anthropic stream error: ");
        assert(d@.len() > 0);
    }
    if str_eq(kind, "content_block_delta") {
        MessageEvent::ContentDelta
    } else if str_eq(kind, "message_delta") {
        MessageEvent::MessageDelta
    } else if str_eq(kind, "message_stop") {
        MessageEvent::Stop
    } else if str_eq(kind, "error") {
        MessageEvent::Fail(prefixed("Anthropic stream error: ", d))
    } else {
        MessageEvent::Skip
    }
}

/// The finish reason a stop reason stands for.
pub open spec fn stop_reason_spec(s: Option<Seq<char>>) -> FinishReason {
    match s {
        Some(r) => if r == "tool_use"@ {
            FinishReason::ToolCalls
        } else if r == "max_tokens"@ {
            FinishReason::Length
        } else {
            FinishReason::Stop
        },
        None => FinishReason::Stop,
    }
}

/// The finish reason a stop reason stands for: tool use, the token limit,
/// or else an ordinary stop.
pub fn parse_stop_reason(s: Option<&str>) -> (r: FinishReason)
    ensures
        r == stop_reason_spec(crate::paths::opt_str(s)),
{
    proof {
        reveal_strlit("tool_use");
        reveal_strlit("max_tokens");
    }
    match s {
        Some(r) => if str_eq(r, "tool_use") {
            FinishReason::ToolCalls
        } else if str_eq(r, "max_tokens") {
            FinishReason::Length
        } else {
            FinishReason::Stop
        },
        None => FinishReason::Stop,
    }
}

/// The fields of a content delta: its text and its partial tool-input JSON.
pub struct ContentDelta {
    pub text: Option<String>,
    pub partial_json: Option<String>,
}

/// What a content delta (or the error from reading it) leads to: its text
/// when nonempty, else its partial JSON, else nothing.
pub open spec fn content_step_spec(d: Result<(Option<Seq<char>>, Option<Seq<char>>), Seq<char>>) -> StepView {
    match d {
        Ok((text, partial)) => if text matches Some(t) && t.len() > 0 {
            StepView::Emit(text_chunk(text->0))
        } else if partial is Some {
            StepView::Emit(text_chunk(partial->0))
        } else {
            StepView::Skip
        },
        Err(e) => StepView::Fail("Failed to parse content_block_delta: "@ + e),
    }
}

/// Abstract value of a read content delta.
pub open spec fn content_delta_view(r: Result<ContentDelta, String>) -> Result<
    (Option<Seq<char>>, Option<Seq<char>>),
    Seq<char>,
> {
    match r {
        Ok(d) => Ok((crate::document::opt_chars(d.text), crate::document::opt_chars(d.partial_json))),
        Err(e) => Err(e@),
    }
}

/// Decides what a content delta becomes.
pub fn content_delta_step(delta: Result<ContentDelta, String>) -> (r: StreamStep)
    ensures
        step_view(r) == content_step_spec(content_delta_view(delta)),
{
    match delta {
        Ok(d) => {
            let text = match d.text {
                Some(t) => t,
                None => String::new(),
            };
            if text.as_str().as_bytes().len() > 0 {
                StreamStep::Emit(text_only(text))
            } else {
                proof {
                    assert(text@.len() == 0) by {
                        if text@.len() > 0 {
                            crate::text::lemma_encode_nonempty(text@);
                        }
                    }
                }
                match d.partial_json {
                    Some(p) => StreamStep::Emit(text_only(p)),
                    None => StreamStep::Skip,
                }
            }
        },
        Err(e) => {
            proof {
                reveal_strlit("Failed to parse content_block_delta: ");
            }
            StreamStep::Fail(prefixed("Failed to parse content_block_delta: ", e.as_str()))
        },
    }
}

/// The fields of a message delta: its stop reason and output token count.
pub struct MessageDelta {
    pub stop_reason: Option<String>,
    pub output_tokens: Option<u32>,
}

/// What a message delta (or the error from reading it) leads to: a final
/// chunk with the finish reason and, when reported, the output tokens.
pub open spec fn message_step_spec(d: Result<(Option<Seq<char>>, Option<u32>), Seq<char>>) -> StepView {
    match d {
        Ok((stop, out)) => StepView::Emit(
            ChunkView {
                delta: seq![],
                finish_reason: Some(stop_reason_spec(stop)),
                usage: match out {
                    Some(o) => Some(TokenUsage { prompt_tokens: 0, completion_tokens: o, total_tokens: o }),
                    None => None,
                },
                tool_calls: seq![],
            },
        ),
        Err(e) => StepView::Fail("Failed to parse message_delta: "@ + e),
    }
}

/// Abstract value of a read message delta.
pub open spec fn message_delta_view(r: Result<MessageDelta, String>) -> Result<
    (Option<Seq<char>>, Option<u32>),
    Seq<char>,
> {
    match r {
        Ok(d) => Ok((crate::document::opt_chars(d.stop_reason), d.output_tokens)),
        Err(e) => Err(e@),
    }
}

/// Decides what a message delta becomes.
pub fn message_delta_step(delta: Result<MessageDelta, String>) -> (r: StreamStep)
    ensures
        step_view(r) == message_step_spec(message_delta_view(delta)),
{
    match delta {
        Ok(d) => {
            let finish = match &d.stop_reason {
                Some(s) => parse_stop_reason(Some(s.as_str())),
                None => parse_stop_reason(None),
            };
            let usage = match d.output_tokens {
                Some(o) => Some(TokenUsage { prompt_tokens: 0, completion_tokens: o, total_tokens: o }),
                None => None,
            };
            let c = TokenChunk {
                delta: String::new(),
                finish_reason: Some(finish),
                usage,
                tool_calls: Vec::new(),
            };
            proof {
                assert(tool_calls_view(c.tool_calls@) =~= Seq::<ToolCallView>::empty());
            }
            StreamStep::Emit(c)
        },
        Err(e) => {
            proof {
                reveal_strlit("Failed to parse message_delta: ");
            }
            StreamStep::Fail(prefixed("Failed to parse message_delta: ", e.as_str()))
        },
    }
}

// ── events of the completions protocol ──────────────────────────────────────

/// What the data of an event of the completions protocol is.
#[derive(Debug, Clone, Copy, PartialEq, Eq, Structural)]
pub enum DataKind {
    /// The `[DONE]` marker: the stream is over.
    Done,
    /// Nothing (after trimming): skip the event.
    Empty,
    /// A JSON chunk to read.
    Payload,
}

/// The kind of an event's data.
pub open spec fn data_kind_spec(data: Seq<char>) -> DataKind {
    let d = trim_chars(data);
    if d == "[DONE]"@ {
        DataKind::Done
    } else if d.len() == 0 {
        DataKind::Empty
    } else {
        DataKind::Payload
    }
}

/// Classifies an event's data (after trimming).
pub fn classify_data(data: &str) -> (r: DataKind)
    ensures
        r == data_kind_spec(data@),
{
    let d = trim(data);
    proof {
        reveal_strlit("[DONE]");
    }
    if str_eq(d, "[DONE]") {
        DataKind::Done
    } else if d.as_bytes().len() == 0 {
        proof {
            assert(d@.len() == 0) by {
                if d@.len() > 0 {
                    crate::text::lemma_encode_nonempty(d@);
                }
            }
        }
        DataKind::Empty
    } else {
        DataKind::Payload
    }
}

/// A fragment of a tool call: the slot it belongs to and the parts it
/// brings.
pub struct ToolCallDelta {
    pub index: usize,
    pub id: Option<String>,
    pub name: Option<String>,
    pub arguments: Option<String>,
}

/// Abstract value of a fragment.
pub struct FragmentView {
    pub index: int,
    pub id: Option<Seq<char>>,
    pub name: Option<Seq<char>>,
    pub arguments: Option<Seq<char>>,
}

/// The abstract value of a fragment.
pub open spec fn fragment_view(d: ToolCallDelta) -> FragmentView {
    FragmentView {
        index: d.index as int,
        id: crate::document::opt_chars(d.id),
        name: crate::document::opt_chars(d.name),
        arguments: crate::document::opt_chars(d.arguments),
    }
}

/// An empty tool-call slot.
pub open spec fn empty_call() -> ToolCallView {
    ToolCallView { id: seq![], name: seq![], arguments: seq![] }
}

/// The slots after one fragment: slots are added up to its index; its id
/// and name replace the slot's, its arguments are appended.
pub open spec fn apply_fragment(acc: Seq<ToolCallView>, d: FragmentView) -> Seq<ToolCallView> {
    let grown = if d.index < acc.len() {
        acc
    } else {
        acc + Seq::new((d.index + 1 - acc.len()) as nat, |i: int| empty_call())
    };
    let old = grown[d.index];
    grown.update(
        d.index,
        ToolCallView {
            id: match d.id {
                Some(x) => x,
                None => old.id,
            },
            name: match d.name {
                Some(x) => x,
                None => old.name,
            },
            arguments: old.arguments + match d.arguments {
                Some(a) => a,
                None => seq![],
            },
        },
    )
}

/// The slots after fragments `0..k`.
pub open spec fn apply_fragments(acc: Seq<ToolCallView>, ds: Seq<FragmentView>, k: int) -> Seq<
    ToolCallView,
>
    decreases k,
{
    if k <= 0 || k > ds.len() {
        acc
    } else {
        apply_fragment(apply_fragments(acc, ds, k - 1), ds[k - 1])
    }
}

/// Tool calls being assembled from fragments.
pub struct ToolCallAssembler {
    calls: Vec<ToolCallText>,
}

impl ToolCallAssembler {
    /// The slots so far.
    pub closed spec fn slots(self) -> Seq<ToolCallView> {
        tool_calls_view(self.calls@)
    }

    /// No slots yet.
    pub fn new() -> (r: Self)
        ensures
            r.slots() == Seq::<ToolCallView>::empty(),
    {
        let r = ToolCallAssembler { calls: Vec::new() };
        proof {
            assert(r.slots() =~= Seq::<ToolCallView>::empty());
        }
        r
    }

    /// Applies one fragment.
    pub fn apply(&mut self, d: &ToolCallDelta)
        requires
            d.index < usize::MAX,
        ensures
            final(self).slots() == apply_fragment(old(self).slots(), fragment_view(*d)),
    {
        let ghost s0 = self.slots();
        let ghost grown = if d.index < s0.len() {
            s0
        } else {
            s0 + Seq::new((d.index + 1 - s0.len()) as nat, |i: int| empty_call())
        };
        while self.calls.len() <= d.index
            invariant
                d.index < usize::MAX,
                grown == (if d.index < s0.len() {
                    s0
                } else {
                    s0 + Seq::new((d.index + 1 - s0.len()) as nat, |i: int| empty_call())
                }),
                s0.len() <= self.calls@.len() <= grown.len(),
                self.slots() == grown.take(self.calls@.len() as int),
            decreases d.index + 1 - self.calls@.len(),
        {
            let ghost before = self.slots();
            let ghost len0 = self.calls@.len();
            self.calls.push(ToolCallText { id: String::new(), name: String::new(), arguments: String::new() });
            proof {
                assert(d.index >= s0.len());
                assert(grown[len0 as int] == empty_call());
                assert(self.slots() =~= before.push(empty_call()));
                assert(grown.take(len0 + 1int) =~= grown.take(len0 as int).push(grown[len0 as int]));
            }
        }
        proof {
            assert(self.calls@.len() == grown.len());
            assert(grown.take(grown.len() as int) =~= grown);
        }
        let i = d.index;
        let ghost before = self.slots();
        let mut call = ToolCallText { id: String::new(), name: String::new(), arguments: String::new() };
        std::mem::swap(&mut call, &mut self.calls[i]);
        proof {
            assert(tool_call_view(call) == grown[i as int]);
        }
        if let Some(id) = &d.id {
            call.id = id.clone();
        }
        if let Some(name) = &d.name {
            call.name = name.clone();
        }
        if let Some(args) = &d.arguments {
            call.arguments.append(args.as_str());
        } else {
            proof {
                assert(call.arguments@ + seq![] =~= call.arguments@);
            }
        }
        let ghost nv = tool_call_view(call);
        self.calls.set(i, call);
        proof {
            assert(self.slots() =~= grown.update(i as int, nv));
        }
    }

    /// Takes all slots out, leaving none.
    pub fn take(&mut self) -> (r: Vec<ToolCallText>)
        ensures
            tool_calls_view(r@) == old(self).slots(),
            final(self).slots() == Seq::<ToolCallView>::empty(),
    {
        let mut out: Vec<ToolCallText> = Vec::new();
        std::mem::swap(&mut out, &mut self.calls);
        proof {
            assert(self.slots() =~= Seq::<ToolCallView>::empty());
        }
        out
    }
}

/// The finish reason a completions-protocol reason stands for.
pub open spec fn completion_reason_spec(s: Seq<char>) -> FinishReason {
    if s == "tool_calls"@ {
        FinishReason::ToolCalls
    } else if s == "length"@ {
        FinishReason::Length
    } else if s == "content_filter"@ {
        FinishReason::ContentFilter
    } else {
        FinishReason::Stop
    }
}

/// The finish reason a completions-protocol reason stands for.
pub fn completion_reason(s: &str) -> (r: FinishReason)
    ensures
        r == completion_reason_spec(s@),
{
    proof {
        reveal_strlit("tool_calls");
        reveal_strlit("length");
        reveal_strlit("content_filter");
    }
    if str_eq(s, "tool_calls") {
        FinishReason::ToolCalls
    } else if str_eq(s, "length") {
        FinishReason::Length
    } else if str_eq(s, "content_filter") {
        FinishReason::ContentFilter
    } else {
        FinishReason::Stop
    }
}

/// The first choice of a completions-protocol chunk.
pub struct ChoiceDelta {
    pub content: Option<String>,
    pub finish_reason: Option<String>,
    pub tool_calls: Vec<ToolCallDelta>,
}

/// The fragments of a choice.
pub open spec fn fragments_view(v: Seq<ToolCallDelta>) -> Seq<FragmentView> {
    v.map_values(|d: ToolCallDelta| fragment_view(d))
}

/// The chunks one choice produces, given the slots after its fragments: its
/// text when nonempty, then, when it finishes, a final chunk with the usage
/// and (for a tool-call finish) the assembled calls.
pub open spec fn choice_chunks(
    content: Option<Seq<char>>,
    finish: Option<Seq<char>>,
    usage: Option<TokenUsage>,
    slots: Seq<ToolCallView>,
) -> Seq<ChunkView> {
    (if content is Some && content->0.len() > 0 {
        seq![text_chunk(content->0)]
    } else {
        seq![]
    }) + match finish {
        Some(f) => seq![
            ChunkView {
                delta: seq![],
                finish_reason: Some(completion_reason_spec(f)),
                usage: usage,
                tool_calls: if completion_reason_spec(f) == FinishReason::ToolCalls {
                    slots
                } else {
                    seq![]
                },
            },
        ],
        None => seq![],
    }
}

/// The abstract values of chunks.
pub open spec fn chunks_view(v: Seq<TokenChunk>) -> Seq<ChunkView> {
    v.map_values(|c: TokenChunk| chunk_view(c))
}

/// Handles one completions-protocol chunk: a chunk without a choice gives
/// nothing; otherwise its tool-call fragments are assembled and
/// `choice_chunks` says what is passed on; a tool-call finish hands the
/// assembled calls over and empties the slots.
pub fn completion_step(
    calls_acc: &mut ToolCallAssembler,
    choice: Option<ChoiceDelta>,
    usage: Option<TokenUsage>,
) -> (r: Vec<TokenChunk>)
    requires
        choice matches Some(c) ==> forall|i: int|
            0 <= i < c.tool_calls@.len() ==> (#[trigger] c.tool_calls@[i]).index < usize::MAX,
    ensures
        choice is None ==> r@.len() == 0 && final(calls_acc).slots() == old(calls_acc).slots(),
        choice matches Some(c) ==> ({
            let slots = apply_fragments(
                old(calls_acc).slots(),
                fragments_view(c.tool_calls@),
                c.tool_calls@.len() as int,
            );
            &&& chunks_view(r@) == choice_chunks(
                crate::document::opt_chars(c.content),
                crate::document::opt_chars(c.finish_reason),
                usage,
                slots,
            )
            &&& final(calls_acc).slots() == if c.finish_reason matches Some(f)
                && completion_reason_spec(f@) == FinishReason::ToolCalls {
                Seq::<ToolCallView>::empty()
            } else {
                slots
            }
        }),
{
    let c = match choice {
        Some(c) => c,
        None => {
            let r: Vec<TokenChunk> = Vec::new();
            proof {
                assert(r@.len() == 0);
            }
            return r;
        },
    };
    let ghost frags = fragments_view(c.tool_calls@);
    let ghost s0 = calls_acc.slots();
    let mut k: usize = 0;
    while k < c.tool_calls.len()
        invariant
            frags == fragments_view(c.tool_calls@),
            k <= c.tool_calls@.len(),
            forall|i: int|
                0 <= i < c.tool_calls@.len() ==> (#[trigger] c.tool_calls@[i]).index < usize::MAX,
            calls_acc.slots() == apply_fragments(s0, frags, k as int),
        decreases c.tool_calls@.len() - k,
    {
        calls_acc.apply(&c.tool_calls[k]);
        proof {
            assert(frags[k as int] == fragment_view(c.tool_calls@[k as int]));
        }
        k = k + 1;
    }
    let ghost slots = calls_acc.slots();
    let mut out: Vec<TokenChunk> = Vec::new();
    if let Some(t) = &c.content {
        if t.as_str().as_bytes().len() > 0 {
            out.push(text_only(t.clone()));
        } else {
            proof {
                assert(t@.len() == 0) by {
                    if t@.len() > 0 {
                        crate::text::lemma_encode_nonempty(t@);
                    }
                }
            }
        }
    }
    let ghost first = chunks_view(out@);
    if let Some(f) = &c.finish_reason {
        let reason = completion_reason(f.as_str());
        let calls = if reason == FinishReason::ToolCalls {
            calls_acc.take()
        } else {
            Vec::new()
        };
        let last = TokenChunk { delta: String::new(), finish_reason: Some(reason), usage, tool_calls: calls };
        proof {
            if reason != FinishReason::ToolCalls {
                assert(tool_calls_view(calls@) =~= Seq::<ToolCallView>::empty());
            }
        }
        out.push(last);
        proof {
            assert(chunks_view(out@) =~= first.push(chunk_view(last)));
        }
    }
    proof {
        assert(chunks_view(out@) =~= choice_chunks(
            crate::document::opt_chars(c.content),
            crate::document::opt_chars(c.finish_reason),
            usage,
            slots,
        ));
    }
    out
}

// ── chunks of the local model server ────────────────────────────────────────

/// The finish reason of the local server's chunk: `length` is the token
/// limit, any other reason an ordinary stop.
pub open spec fn local_reason_spec(f: Option<Seq<char>>) -> Option<FinishReason> {
    match f {
        Some(r) => if r == "length"@ {
            Some(FinishReason::Length)
        } else {
            Some(FinishReason::Stop)
        },
        None => None,
    }
}

/// The chunk passed on for one chunk of the local server: its text (empty
/// when absent) and its finish reason.
pub fn local_chunk(content: Option<String>, finish: Option<&str>) -> (r: TokenChunk)
    ensures
        chunk_view(r) == (ChunkView {
            delta: match crate::document::opt_chars(content) {
                Some(t) => t,
                None => seq![],
            },
            finish_reason: local_reason_spec(crate::paths::opt_str(finish)),
            usage: None,
            tool_calls: seq![],
        }),
{
    proof {
        reveal_strlit("length");
    }
    let delta = match content {
        Some(t) => t,
        None => String::new(),
    };
    let finish_reason = match finish {
        Some(f) => if str_eq(f, "length") {
            Some(FinishReason::Length)
        } else {
            Some(FinishReason::Stop)
        },
        None => None,
    };
    let r = TokenChunk { delta, finish_reason, usage: None, tool_calls: Vec::new() };
    proof {
        assert(tool_calls_view(r.tool_calls@) =~= Seq::<ToolCallView>::empty());
    }
    r
}

/// Argument fragments for one slot are joined in the order they arrive.
pub proof fn law_arguments_concatenate(acc: Seq<ToolCallView>, ds: Seq<FragmentView>, k: int)
    requires
        0 <= k <= ds.len(),
        acc.len() > 0,
        forall|i: int| 0 <= i < ds.len() ==> (#[trigger] ds[i]).index == 0,
    ensures
        apply_fragments(acc, ds, k).len() == acc.len(),
        apply_fragments(acc, ds, k)[0].arguments == acc[0].arguments + args_joined(ds, k),
    decreases k,
{
    if k > 0 {
        law_arguments_concatenate(acc, ds, k - 1);
        let prev = apply_fragments(acc, ds, k - 1);
        assert(ds[k - 1].index == 0);
        assert(acc[0].arguments + args_joined(ds, k) =~= acc[0].arguments + args_joined(ds, k - 1)
            + match ds[k - 1].arguments {
            Some(a) => a,
            None => seq![],
        });
    }
}

/// The argument fragments `0..k`, joined.
pub open spec fn args_joined(ds: Seq<FragmentView>, k: int) -> Seq<char>
    decreases k,
{
    if k <= 0 || k > ds.len() {
        seq![]
    } else {
        args_joined(ds, k - 1) + match ds[k - 1].arguments {
            Some(a) => a,
            None => seq![],
        }
    }
}

/// The finish reason of an optional completions-protocol reason: none
/// means an ordinary stop.
pub open spec fn finish_reason_spec(s: Option<Seq<char>>) -> FinishReason {
    match s {
        Some(r) => completion_reason_spec(r),
        None => FinishReason::Stop,
    }
}

/// The finish reason of an optional completions-protocol reason.
pub fn parse_finish_reason(s: Option<&str>) -> (r: FinishReason)
    ensures
        r == finish_reason_spec(crate::paths::opt_str(s)),
{
    match s {
        Some(r) => completion_reason(r),
        None => FinishReason::Stop,
    }
}

/// A completions-protocol chunk as one token chunk: none without a choice;
/// else its text (empty when absent), its finish reason when it has one,
/// and its usage.
pub fn chunk_to_token(choice: Option<ChoiceDelta>, usage: Option<TokenUsage>) -> (r: Option<TokenChunk>)
    ensures
        choice is None ==> r is None,
        choice matches Some(c) ==> (r matches Some(t) && chunk_view(t) == (ChunkView {
            delta: match crate::document::opt_chars(c.content) {
                Some(x) => x,
                None => seq![],
            },
            finish_reason: match crate::document::opt_chars(c.finish_reason) {
                Some(f) => Some(finish_reason_spec(Some(f))),
                None => None,
            },
            usage: usage,
            tool_calls: seq![],
        })),
{
    let c = match choice {
        Some(c) => c,
        None => {
            return None;
        },
    };
    let ChoiceDelta { content, finish_reason, tool_calls: _ } = c;
    let delta = match content {
        Some(t) => t,
        None => String::new(),
    };
    let finish = match &finish_reason {
        Some(f) => Some(parse_finish_reason(Some(f.as_str()))),
        None => None,
    };
    let t = TokenChunk { delta, finish_reason: finish, usage, tool_calls: Vec::new() };
    proof {
        assert(tool_calls_view(t.tool_calls@) =~= Seq::<ToolCallView>::empty());
    }
    Some(t)
}

/// The model a request goes to: the requested one, or the client's default
/// when none is named.
pub fn request_model(default_model: &str, requested: &str) -> (r: String)
    ensures
        r@ == if requested@.len() == 0 {
            default_model@
        } else {
            requested@
        },
{
    if requested.as_bytes().len() == 0 {
        proof {
            assert(requested@.len() == 0) by {
                if requested@.len() > 0 {
                    crate::text::lemma_encode_nonempty(requested@);
                }
            }
        }
        String::from_str(default_model)
    } else {
        String::from_str(requested)
    }
}

/// The fields of a local server's chat completion that the answer is built
/// from: the response's id and model, the first choice's text and finish
/// reason, and the token counts.
#[derive(Debug)]
pub struct OllamaFields {
    pub id: Option<String>,
    pub model: Option<String>,
    pub content: Option<String>,
    pub finish_reason: Option<String>,
    pub prompt_tokens: Option<u64>,
    pub completion_tokens: Option<u64>,
    pub total_tokens: Option<u64>,
}

/// Abstract value of the fields of a chat completion.
pub struct OllamaFieldsView {
    pub id: Option<Seq<char>>,
    pub model: Option<Seq<char>>,
    pub content: Option<Seq<char>>,
    pub finish_reason: Option<Seq<char>>,
    pub prompt_tokens: Option<u64>,
    pub completion_tokens: Option<u64>,
    pub total_tokens: Option<u64>,
}

/// The abstract value of the fields of a chat completion.
pub open spec fn ollama_fields_view(f: OllamaFields) -> OllamaFieldsView {
    OllamaFieldsView {
        id: crate::document::opt_chars(f.id),
        model: crate::document::opt_chars(f.model),
        content: crate::document::opt_chars(f.content),
        finish_reason: crate::document::opt_chars(f.finish_reason),
        prompt_tokens: f.prompt_tokens,
        completion_tokens: f.completion_tokens,
        total_tokens: f.total_tokens,
    }
}

/// What `serde_json::from_str::<serde_json::Value>` gives for a response
/// body, read at `id`, `model`, `choices[0].message.content`,
/// `choices[0].finish_reason` (as strings) and `usage.prompt_tokens`,
/// `usage.completion_tokens`, `usage.total_tokens` (as unsigned numbers);
/// or the text of the parse error.
pub uninterp spec fn ollama_response_fields(body: Seq<char>) -> Result<OllamaFieldsView, Seq<char>>;

/// `serde_json::from_str::<serde_json::Value>(body)` read at the fields of
/// a chat completion.
#[verifier::external_body]
fn read_ollama_fields(body: &str) -> (r: Result<OllamaFields, String>)
    ensures
        match r {
            Ok(f) => ollama_response_fields(body@) == Ok::<OllamaFieldsView, Seq<char>>(ollama_fields_view(f)),
            Err(m) => ollama_response_fields(body@) == Err::<OllamaFieldsView, Seq<char>>(m@),
        },
{
    let v: serde_json::Value = match serde_json::from_str(body) {
        Ok(v) => v,
        Err(e) => return Err(e.to_string()),
    };
    Ok(OllamaFields {
        id: v["id"].as_str().map(String::from),
        model: v["model"].as_str().map(String::from),
        content: v["choices"][0]["message"]["content"].as_str().map(String::from),
        finish_reason: v["choices"][0]["finish_reason"].as_str().map(String::from),
        prompt_tokens: v["usage"]["prompt_tokens"].as_u64(),
        completion_tokens: v["usage"]["completion_tokens"].as_u64(),
        total_tokens: v["usage"]["total_tokens"].as_u64(),
    })
}

/// A chat completion answer: its id, the chat it belongs to, the
/// assistant's text and tool calls, the token counts, the model and the
/// finish reason.
#[derive(Debug)]
pub struct ChatCompletion {
    pub id: String,
    pub chat_id: u128,
    pub content: String,
    pub tool_calls: Vec<ToolCallText>,
    pub usage: TokenUsage,
    pub model: String,
    pub finish_reason: FinishReason,
}

/// Abstract value of a chat completion answer.
pub struct CompletionView {
    pub id: Seq<char>,
    pub chat_id: u128,
    pub content: Seq<char>,
    pub tool_calls: Seq<ToolCallView>,
    pub usage: TokenUsage,
    pub model: Seq<char>,
    pub finish_reason: FinishReason,
}

/// The abstract value of a chat completion answer.
pub open spec fn completion_view(c: ChatCompletion) -> CompletionView {
    CompletionView {
        id: c.id@,
        chat_id: c.chat_id,
        content: c.content@,
        tool_calls: tool_calls_view(c.tool_calls@),
        usage: c.usage,
        model: c.model@,
        finish_reason: c.finish_reason,
    }
}

/// A string field, or `d` when absent.
pub open spec fn or_text(t: Option<Seq<char>>, d: Seq<char>) -> Seq<char> {
    match t {
        Some(x) => x,
        None => d,
    }
}

/// A token count: the number cut to 32 bits, or 0 when absent.
pub open spec fn count_or_zero(n: Option<u64>) -> u32 {
    match n {
        Some(x) => x as u32,
        None => 0u32,
    }
}

/// The finish reason of a local completion: `tool_calls` and `length`
/// stand for themselves, anything else (or nothing) for a stop.
pub open spec fn ollama_reason(f: Option<Seq<char>>) -> FinishReason {
    let s = or_text(f, "stop"@);
    if s == "tool_calls"@ {
        FinishReason::ToolCalls
    } else if s == "length"@ {
        FinishReason::Length
    } else {
        FinishReason::Stop
    }
}

/// The answer built from the fields of a local completion: id `ollama`,
/// empty text and zero counts where absent, the requested model where the
/// response names none.
pub open spec fn ollama_completion_spec(f: OllamaFieldsView, chat_id: u128, model: Seq<char>) -> CompletionView {
    CompletionView {
        id: or_text(f.id, "ollama"@),
        chat_id,
        content: or_text(f.content, seq![]),
        tool_calls: seq![],
        usage: TokenUsage {
            prompt_tokens: count_or_zero(f.prompt_tokens),
            completion_tokens: count_or_zero(f.completion_tokens),
            total_tokens: count_or_zero(f.total_tokens),
        },
        model: or_text(f.model, model),
        finish_reason: ollama_reason(f.finish_reason),
    }
}

/// A string field, or `d` when absent.
fn text_or(t: Option<String>, d: &str) -> (r: String)
    ensures
        r@ == or_text(crate::document::opt_chars(t), d@),
{
    match t {
        Some(x) => x,
        None => String::from_str(d),
    }
}

/// A token count cut to 32 bits, or 0.
fn count_of(n: Option<u64>) -> (r: u32)
    ensures
        r == count_or_zero(n),
{
    match n {
        Some(x) => x as u32,
        None => 0,
    }
}

/// Builds the answer of a local completion from its fields.
pub fn ollama_completion(fields: OllamaFields, chat_id: u128, model: &str) -> (r: ChatCompletion)
    ensures
        completion_view(r) == ollama_completion_spec(ollama_fields_view(fields), chat_id, model@),
{
    proof {
        reveal_strlit("stop");
        reveal_strlit("tool_calls");
        reveal_strlit("length");
        reveal_strlit("ollama");
        reveal_strlit("");
        assert(""@ =~= Seq::<char>::empty());
    }
    let reason = text_or(fields.finish_reason, "stop");
    let finish_reason = if str_eq(reason.as_str(), "tool_calls") {
        FinishReason::ToolCalls
    } else if str_eq(reason.as_str(), "length") {
        FinishReason::Length
    } else {
        FinishReason::Stop
    };
    let r = ChatCompletion {
        id: text_or(fields.id, "ollama"),
        chat_id,
        content: text_or(fields.content, ""),
        tool_calls: Vec::new(),
        usage: TokenUsage {
            prompt_tokens: count_of(fields.prompt_tokens),
            completion_tokens: count_of(fields.completion_tokens),
            total_tokens: count_of(fields.total_tokens),
        },
        model: text_or(fields.model, model),
        finish_reason,
    };
    proof {
        assert(tool_calls_view(r.tool_calls@) =~= Seq::<ToolCallView>::empty());
    }
    r
}

/// Reads a local completion's response body into its answer; a body that
/// is not JSON gives the parse error, prefixed.
pub fn parse_ollama_response(body: &str, chat_id: u128, model: &str) -> (r: Result<ChatCompletion, String>)
    ensures
        match ollama_response_fields(body@) {
            Err(e) => r matches Err(m) && m@ == "Failed to parse Ollama response: "@ + e,
            Ok(f) => r matches Ok(c) && completion_view(c) == ollama_completion_spec(f, chat_id, model@),
        },
{
    proof {
        reveal_strlit("Failed to parse Ollama response: ");
    }
    match read_ollama_fields(body) {
        Ok(f) => Ok(ollama_completion(f, chat_id, model)),
        Err(e) => {
            let mut m = String::from_str("Failed to parse Ollama response: ");
            m.append(e.as_str());
            Err(m)
        },
    }
}

/// What `serde_json::from_str::<serde_json::Value>` gives for the data of a
/// local server's stream event, read at `choices[0].delta.content` and
/// `choices[0].finish_reason` (as strings); or the text of the parse error.
pub uninterp spec fn ollama_chunk_fields(data: Seq<char>) -> Result<(Option<Seq<char>>, Option<Seq<char>>), Seq<char>>;

/// `serde_json::from_str::<serde_json::Value>(data)` read at the fields of a
/// stream chunk.
#[verifier::external_body]
fn read_ollama_chunk(data: &str) -> (r: Result<(Option<String>, Option<String>), String>)
    ensures
        match r {
            Ok((c, f)) => ollama_chunk_fields(data@) == Ok::<(Option<Seq<char>>, Option<Seq<char>>), Seq<char>>(
                (crate::document::opt_chars(c), crate::document::opt_chars(f)),
            ),
            Err(m) => ollama_chunk_fields(data@) == Err::<(Option<Seq<char>>, Option<Seq<char>>), Seq<char>>(m@),
        },
{
    match serde_json::from_str::<serde_json::Value>(data) {
        Ok(v) => Ok((
            v["choices"][0]["delta"]["content"].as_str().map(String::from),
            v["choices"][0]["finish_reason"].as_str().map(String::from),
        )),
        Err(e) => Err(e.to_string()),
    }
}

/// What one event of a local server's stream leads to: `[DONE]` ends the
/// stream, blank data is skipped, a JSON chunk passes on its text (empty
/// when absent) and finish reason, and data that is not JSON ends the
/// stream with a parse error.
pub open spec fn ollama_item_spec(data: Seq<char>) -> StepView {
    match data_kind_spec(data) {
        DataKind::Done => StepView::Stop,
        DataKind::Empty => StepView::Skip,
        DataKind::Payload => match ollama_chunk_fields(trim_chars(data)) {
            Ok((c, f)) => StepView::Emit(
                ChunkView {
                    delta: match c {
                        Some(t) => t,
                        None => seq![],
                    },
                    finish_reason: local_reason_spec(f),
                    usage: None,
                    tool_calls: seq![],
                },
            ),
            Err(e) => StepView::Fail("Parse error: "@ + e),
        },
    }
}

/// Handles the data of one event of a local server's stream.
pub fn ollama_stream_item(data: &str) -> (r: StreamStep)
    ensures
        step_view(r) == ollama_item_spec(data@),
{
    match classify_data(data) {
        DataKind::Done => StreamStep::Stop,
        DataKind::Empty => StreamStep::Skip,
        DataKind::Payload => {
            let d = trim(data);
            match read_ollama_chunk(d) {
                Ok((c, f)) => {
                    let chunk = match &f {
                        Some(x) => local_chunk(c, Some(x.as_str())),
                        None => local_chunk(c, None),
                    };
                    StreamStep::Emit(chunk)
                },
                Err(e) => {
                    proof {
                        reveal_strlit("Parse error: ");
                    }
                    StreamStep::Fail(prefixed("Parse error: ", e.as_str()))
                },
            }
        },
    }
}

} // verus!
