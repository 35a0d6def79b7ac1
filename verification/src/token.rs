//! Fixed-density token estimates and the priced surface fold of the token meter.

use vstd::prelude::*;
use crate::text::{chars_of, push_str};
use crate::time_context::ConfigShape;
use vstd::string::StringExecFns;

verus! {

/// UTF-16 code units per estimated token.
pub const CHARS_PER_TOKEN: u32 = 4;

/// Tokens added per content block.
pub const BLOCK_OVERHEAD: u32 = 4;

/// Tokens added per message role and per system prompt.
pub const ROLE_OVERHEAD: u32 = 4;

/// UTF-16 code units of `s`.
pub open spec fn utf16_len(s: Seq<char>) -> nat
    decreases s.len(),
{
    if s.len() == 0 {
        0
    } else {
        utf16_len(s.drop_last()) + if (s.last() as u32) >= 0x10000 { 2nat } else { 1nat }
    }
}

/// Estimated tokens of a text: its UTF-16 length divided by four, rounded up.
pub open spec fn text_tokens(s: Seq<char>) -> nat {
    (utf16_len(s) + 3) / 4
}

/// Estimated tokens of `text`.
pub fn ceil_chars(text: &str) -> (r: u64)
    ensures
        r == text_tokens(text@),
        r <= text@.len(),
{
    let v = chars_of(text);
    let mut units: u128 = 0;
    let mut i: usize = 0;
    while i < v.len()
        invariant
            0 <= i <= v.len(),
            units == utf16_len(v@.take(i as int)),
            units <= 2 * i,
        decreases v.len() - i,
    {
        assert(v@.take(i + 1).drop_last() =~= v@.take(i as int));
        let wide: bool = (v[i] as u32) >= 0x10000;
        units = units + if wide { 2 } else { 1 };
        i = i + 1;
    }
    assert(v@.take(v.len() as int) =~= v@);
    ((units + 3) / 4) as u64
}

/// One content block, as the estimate reads it.
#[derive(Debug)]
pub enum ContentBlock {
    /// Visible text.
    Text { text: String },
    /// Reasoning text.
    Reasoning { text: String },
    /// A tool call: its name and JSON arguments.
    ToolCall { name: String, arguments: String },
    /// A tool result with nested content.
    ToolResult { content: Vec<ContentBlock> },
    /// An image, priced by the JSON text of the whole block.
    Image { json: String },
}

/// Estimated tokens of one block.
pub open spec fn block_tokens(b: ContentBlock) -> nat
    decreases b,
{
    match b {
        ContentBlock::Text { text } => text_tokens(text@) + 4,
        ContentBlock::Reasoning { text } => text_tokens(text@) + 4,
        ContentBlock::ToolCall { name, arguments } => text_tokens(name@) + text_tokens(arguments@) + 4,
        ContentBlock::ToolResult { content } => blocks_tokens(content@) + 4,
        ContentBlock::Image { json } => 4 + text_tokens(json@),
    }
}

/// Estimated tokens of a block sequence.
pub open spec fn blocks_tokens(bs: Seq<ContentBlock>) -> nat
    decreases bs,
{
    if bs.len() == 0 {
        0
    } else {
        blocks_tokens(bs.drop_last()) + block_tokens(bs.last())
    }
}

proof fn lemma_utf16_at_least_chars(s: Seq<char>)
    ensures
        s.len() <= utf16_len(s) <= 2 * s.len(),
    decreases s.len(),
{
    if s.len() > 0 {
        lemma_utf16_at_least_chars(s.drop_last());
    }
}

/// A reasoning block is priced exactly as a visible text block with the same
/// text, and a text block costs its UTF-16 length divided by four, rounded up,
/// plus the block overhead: at least a quarter of its characters.
pub proof fn law_reasoning_priced_as_text(text: String)
    ensures
        block_tokens(ContentBlock::Reasoning { text }) == block_tokens(ContentBlock::Text { text }),
        blocks_tokens(seq![ContentBlock::Reasoning { text }]) == blocks_tokens(seq![ContentBlock::Text { text }]),
        4 * (block_tokens(ContentBlock::Text { text }) - 4) >= utf16_len(text@),
        4 * (block_tokens(ContentBlock::Text { text }) - 4) < utf16_len(text@) + 4,
        4 * (block_tokens(ContentBlock::Reasoning { text }) - 4) >= text@.len(),
{
    lemma_utf16_at_least_chars(text@);
    let r = seq![ContentBlock::Reasoning { text }];
    let t = seq![ContentBlock::Text { text }];
    assert(r.drop_last() =~= Seq::<ContentBlock>::empty());
    assert(t.drop_last() =~= Seq::<ContentBlock>::empty());
}

proof fn lemma_blocks_concat(a: Seq<ContentBlock>, b: Seq<ContentBlock>)
    ensures
        blocks_tokens(a + b) == blocks_tokens(a) + blocks_tokens(b),
    decreases b.len(),
{
    if b.len() == 0 {
        assert(a + b =~= a);
    } else {
        lemma_blocks_concat(a, b.drop_last());
        assert((a + b).drop_last() =~= a + b.drop_last());
    }
}

/// Every block kind is priced through text: a tool call as the texts of its
/// name and its arguments under one block overhead, an image as the text of
/// its JSON, a tool result as its nested blocks plus one overhead; and the
/// estimate of a block sequence is the sum over its parts, however it is split.
pub proof fn law_blocks_priced_through_text(
    name: String,
    arguments: String,
    json: String,
    content: Vec<ContentBlock>,
    a: Seq<ContentBlock>,
    b: Seq<ContentBlock>,
)
    ensures
        block_tokens(ContentBlock::ToolCall { name, arguments }) + 4
            == block_tokens(ContentBlock::Text { text: name }) + block_tokens(ContentBlock::Text { text: arguments }),
        block_tokens(ContentBlock::Image { json }) == block_tokens(ContentBlock::Text { text: json }),
        block_tokens(ContentBlock::ToolResult { content }) == blocks_tokens(content@) + 4,
        blocks_tokens(a + b) == blocks_tokens(a) + blocks_tokens(b),
        blocks_tokens(Seq::<ContentBlock>::empty()) == 0,
{
    lemma_blocks_concat(a, b);
}

/// Estimated tokens of content blocks, the sum of their block estimates.
pub fn estimate_content(blocks: &[ContentBlock]) -> (r: u64)
    requires
        blocks_tokens(blocks@) <= u64::MAX,
    ensures
        r == blocks_tokens(blocks@),
    decreases blocks@,
{
    let mut tokens: u64 = 0;
    let mut i: usize = 0;
    while i < blocks.len()
        invariant
            0 <= i <= blocks.len(),
            tokens == blocks_tokens(blocks@.take(i as int)),
            blocks_tokens(blocks@) <= u64::MAX,
        decreases blocks.len() - i,
    {
        let ghost pre = blocks@.take(i as int);
        assert(blocks@.take(i + 1).drop_last() =~= pre);
        assert(blocks@.take(i + 1).last() == blocks@[i as int]);
        proof {
            lemma_blocks_prefix(blocks@, i + 1);
        }
        assert(tokens + block_tokens(blocks@[i as int]) <= u64::MAX);
        let t: u64 = match &blocks[i] {
            ContentBlock::Text { text } => ceil_chars(text.as_str()) + 4,
            ContentBlock::Reasoning { text } => ceil_chars(text.as_str()) + 4,
            ContentBlock::ToolCall { name, arguments } => ceil_chars(name.as_str()) + ceil_chars(arguments.as_str()) + 4,
            ContentBlock::ToolResult { content } => {
                assert(decreases_to!(blocks@ => blocks@[i as int]));
                estimate_content(content.as_slice()) + 4
            },
            ContentBlock::Image { json } => 4 + ceil_chars(json.as_str()),
        };
        assert(t == block_tokens(blocks@[i as int]));
        tokens = tokens + t;
        i = i + 1;
    }
    assert(blocks@.take(blocks.len() as int) =~= blocks@);
    tokens
}

proof fn lemma_blocks_prefix(bs: Seq<ContentBlock>, n: int)
    requires
        0 <= n <= bs.len(),
    ensures
        blocks_tokens(bs.take(n)) <= blocks_tokens(bs),
    decreases bs.len() - n,
{
    if n < bs.len() {
        lemma_blocks_prefix(bs, n + 1);
        assert(bs.take(n + 1).drop_last() =~= bs.take(n));
    } else {
        assert(bs.take(n) =~= bs);
    }
}

/// Estimated tokens of a message: its content plus the role overhead.
pub fn estimate_message(content: &[ContentBlock]) -> (r: u64)
    requires
        blocks_tokens(content@) + 4 <= u64::MAX,
    ensures
        r == blocks_tokens(content@) + 4,
{
    estimate_content(content) + 4
}

/// Whether a compact JSON text is an empty tool list: `[]`, `""` or `null`.
pub open spec fn is_empty_tools_json(t: Seq<char>) -> bool {
    ||| t == seq!['[', ']']
    ||| t == seq!['"', '"']
    ||| t == seq!['n', 'u', 'l', 'l']
}

/// Estimated tokens of the request envelope: the system text (plus role overhead)
/// when present, and the compact JSON text of the tools (plus block overhead) when
/// present and not an empty list, string or null.
pub open spec fn header_tokens(system: Option<Seq<char>>, tools_json: Option<Seq<char>>) -> nat {
    (match system {
        Some(t) => text_tokens(t) + 4,
        None => 0nat,
    }) + (match tools_json {
        Some(t) => if is_empty_tools_json(t) { 0nat } else { text_tokens(t) + 4 },
        None => 0nat,
    })
}

/// The view of an optional text.
pub open spec fn opt_text(t: Option<&str>) -> Option<Seq<char>> {
    match t {
        Some(s) => Some(s@),
        None => None,
    }
}

fn empty_tools_json(text: &str) -> (r: bool)
    ensures
        r == is_empty_tools_json(text@),
{
    let v = chars_of(text);
    if v.len() == 2 {
        let list = v[0] == '[' && v[1] == ']';
        let quoted = v[0] == '"' && v[1] == '"';
        assert(list ==> v@ =~= seq!['[', ']']);
        assert(quoted ==> v@ =~= seq!['"', '"']);
        assert(v@ != seq!['n', 'u', 'l', 'l']);
        list || quoted
    } else if v.len() == 4 {
        let null = v[0] == 'n' && v[1] == 'u' && v[2] == 'l' && v[3] == 'l';
        assert(null ==> v@ =~= seq!['n', 'u', 'l', 'l']);
        assert(v@ != seq!['[', ']'] && v@ != seq!['"', '"']);
        null
    } else {
        assert(v@ != seq!['[', ']'] && v@ != seq!['"', '"'] && v@ != seq!['n', 'u', 'l', 'l']);
        false
    }
}

/// Estimated tokens of the request envelope, from the system text and the compact
/// JSON text of the tool list; 0 when both are absent.
pub fn estimate_header(system: Option<&str>, tools_json: Option<&str>) -> (r: u64)
    requires
        header_tokens(opt_text(system), opt_text(tools_json)) <= u64::MAX,
    ensures
        r == header_tokens(opt_text(system), opt_text(tools_json)),
{
    let s: u64 = match system {
        Some(t) => ceil_chars(t) + 4,
        None => 0,
    };
    let t: u64 = match tools_json {
        Some(j) => if empty_tools_json(j) { 0 } else { ceil_chars(j) + 4 },
        None => 0,
    };
    s + t
}

/// One token-priced node of the current ordered session surface.
#[derive(Clone, Copy, Debug, PartialEq, Eq, Structural)]
pub struct TokenSurfaceNode {
    /// Durable sequence number of the surface event.
    pub seq: u64,
    /// Estimated tokens of the message the node projects.
    pub tokens: u64,
}

impl TokenSurfaceNode {
    /// Durable sequence number of the surface event.
    pub fn seq(&self) -> (r: u64)
        ensures
            r == self.seq,
    {
        self.seq
    }

    /// Estimated tokens of the message this node projects.
    pub fn tokens(&self) -> (r: u64)
        ensures
            r == self.tokens,
    {
        self.tokens
    }
}

/// How a surface event changes the ordered surface.
#[derive(Clone, Copy, Debug, PartialEq, Eq, Structural)]
pub enum SurfaceOp {
    /// The event's message is added at the tail.
    Append,
    /// The nodes from `start` through `end` (by sequence number) are replaced by the event's node.
    Replace { start: u64, end: u64 },
}

/// Sum of the tokens of a node sequence.
pub open spec fn surface_sum(ns: Seq<TokenSurfaceNode>) -> int
    decreases ns.len(),
{
    if ns.len() == 0 {
        0
    } else {
        surface_sum(ns.drop_last()) + ns.last().tokens
    }
}

/// Index of the first node with sequence number `s`, or -1.
pub open spec fn position_of(ns: Seq<TokenSurfaceNode>, s: u64) -> int
    decreases ns.len(),
{
    if ns.len() == 0 {
        -1
    } else {
        let p = position_of(ns.drop_last(), s);
        if p >= 0 {
            p
        } else if ns.last().seq == s {
            ns.len() - 1
        } else {
            -1
        }
    }
}

/// Whether `start` and `end` name a current range of the surface, `start` first.
pub open spec fn replace_range_valid(ns: Seq<TokenSurfaceNode>, start: u64, end: u64) -> bool {
    0 <= position_of(ns, start) <= position_of(ns, end)
}

/// The surface after one surface event of sequence number `seq` priced at `tokens`.
pub open spec fn folded_nodes(ns: Seq<TokenSurfaceNode>, seq: u64, tokens: u64, op: SurfaceOp) -> Seq<TokenSurfaceNode> {
    let node = TokenSurfaceNode { seq, tokens };
    match op {
        SurfaceOp::Append => ns.push(node),
        SurfaceOp::Replace { start, end } => {
            let a = position_of(ns, start);
            let b = position_of(ns, end);
            ns.subrange(0, a) + seq![node] + ns.subrange(b + 1, ns.len() as int)
        },
    }
}

/// The signed change of surface tokens made by one surface event.
pub open spec fn folded_delta(ns: Seq<TokenSurfaceNode>, tokens: u64, op: SurfaceOp) -> int {
    match op {
        SurfaceOp::Append => tokens as int,
        SurfaceOp::Replace { start, end } => {
            let a = position_of(ns, start);
            let b = position_of(ns, end);
            tokens - surface_sum(ns.subrange(a, b + 1))
        },
    }
}

/// What one surface event does to the priced surface.
#[derive(Debug)]
pub struct SurfaceTokenFold {
    /// Estimated tokens of the event's own message.
    pub tokens: u64,
    /// The surface after the event.
    pub nodes: Vec<TokenSurfaceNode>,
    /// The signed change of surface tokens.
    pub delta_tokens: i64,
}

/// Finds the first node with sequence number `s`.
pub(crate) fn find_node(nodes: &[TokenSurfaceNode], s: u64) -> (r: Option<usize>)
    ensures
        match r {
            Some(i) => i == position_of(nodes@, s),
            None => position_of(nodes@, s) == -1,
        },
{
    let mut i: usize = 0;
    while i < nodes.len()
        invariant
            0 <= i <= nodes.len(),
            position_of(nodes@.take(i as int), s) == -1,
        decreases nodes.len() - i,
    {
        assert(nodes@.take(i + 1).drop_last() =~= nodes@.take(i as int));
        if nodes[i].seq == s {
            proof {
                lemma_position_prefix(nodes@, s, i + 1);
            }
            return Some(i);
        }
        i = i + 1;
    }
    assert(nodes@.take(nodes.len() as int) =~= nodes@);
    None
}

proof fn lemma_position_prefix(ns: Seq<TokenSurfaceNode>, s: u64, n: int)
    requires
        0 <= n <= ns.len(),
        position_of(ns.take(n), s) >= 0,
    ensures
        position_of(ns, s) == position_of(ns.take(n), s),
    decreases ns.len() - n,
{
    if n < ns.len() {
        assert(ns.take(n + 1).drop_last() =~= ns.take(n));
        lemma_position_prefix(ns, s, n + 1);
    } else {
        assert(ns.take(n) =~= ns);
    }
}

pub(crate) proof fn lemma_position_bounds(ns: Seq<TokenSurfaceNode>, s: u64)
    ensures
        -1 <= position_of(ns, s) < ns.len(),
        position_of(ns, s) >= 0 ==> ns[position_of(ns, s)].seq == s,
    decreases ns.len(),
{
    if ns.len() > 0 {
        lemma_position_bounds(ns.drop_last(), s);
    }
}

/// Sum over a concatenation.
pub proof fn lemma_surface_sum_concat(a: Seq<TokenSurfaceNode>, b: Seq<TokenSurfaceNode>)
    ensures
        surface_sum(a + b) == surface_sum(a) + surface_sum(b),
    decreases b.len(),
{
    if b.len() == 0 {
        assert(a + b =~= a);
    } else {
        lemma_surface_sum_concat(a, b.drop_last());
        assert((a + b).drop_last() =~= a + b.drop_last());
    }
}

pub(crate) proof fn lemma_surface_sum_nonneg(a: Seq<TokenSurfaceNode>)
    ensures
        surface_sum(a) >= 0,
    decreases a.len(),
{
    if a.len() > 0 {
        lemma_surface_sum_nonneg(a.drop_last());
    }
}

fn range_sum(nodes: &[TokenSurfaceNode], a: usize, b: usize) -> (r: u64)
    requires
        a <= b < nodes.len(),
        surface_sum(nodes@.subrange(a as int, b + 1)) <= i64::MAX,
    ensures
        r == surface_sum(nodes@.subrange(a as int, b + 1)),
{
    let mut total: u64 = 0;
    let mut i: usize = a;
    while i <= b
        invariant
            a <= i <= b + 1,
            b < nodes.len(),
            total == surface_sum(nodes@.subrange(a as int, i as int)),
            surface_sum(nodes@.subrange(a as int, b + 1)) <= i64::MAX,
        decreases b + 1 - i,
    {
        proof {
            assert(nodes@.subrange(a as int, i + 1).drop_last() =~= nodes@.subrange(a as int, i as int));
            let whole = nodes@.subrange(a as int, b + 1);
            assert(whole =~= nodes@.subrange(a as int, i + 1) + nodes@.subrange(i + 1, b + 1));
            lemma_surface_sum_concat(nodes@.subrange(a as int, i + 1), nodes@.subrange(i + 1, b + 1));
            lemma_surface_sum_nonneg(nodes@.subrange(i + 1, b + 1));
        }
        total = total + nodes[i].tokens;
        i = i + 1;
    }
    total
}

pub(crate) fn copy_nodes(nodes: &[TokenSurfaceNode]) -> (r: Vec<TokenSurfaceNode>)
    ensures
        r@ == nodes@,
{
    let mut next: Vec<TokenSurfaceNode> = Vec::new();
    let mut i: usize = 0;
    while i < nodes.len()
        invariant
            0 <= i <= nodes.len(),
            next@ == nodes@.subrange(0, i as int),
        decreases nodes.len() - i,
    {
        next.push(nodes[i]);
        i = i + 1;
    }
    next
}

/// Folds one surface event into the priced surface. An append adds the event's
/// node at the tail; a replace swaps the nodes from `start` through `end` for it.
pub fn fold_surface(nodes: &[TokenSurfaceNode], seq: u64, tokens: u64, op: SurfaceOp) -> (r: SurfaceTokenFold)
    requires
        tokens <= i64::MAX,
        op matches SurfaceOp::Replace { start, end } ==> replace_range_valid(nodes@, start, end)
            && surface_sum(nodes@.subrange(position_of(nodes@, start), position_of(nodes@, end) + 1)) <= i64::MAX,
    ensures
        r.tokens == tokens,
        r.nodes@ == folded_nodes(nodes@, seq, tokens, op),
        r.delta_tokens == folded_delta(nodes@, tokens, op),
{
    let node = TokenSurfaceNode { seq, tokens };
    match op {
        SurfaceOp::Append => {
            let mut next = copy_nodes(nodes);
            next.push(node);
            SurfaceTokenFold { tokens, nodes: next, delta_tokens: tokens as i64 }
        },
        SurfaceOp::Replace { start, end } => {
            let a = find_node(nodes, start).unwrap();
            let b = find_node(nodes, end).unwrap();
            proof {
                lemma_position_bounds(nodes@, end);
                lemma_surface_sum_nonneg(nodes@.subrange(a as int, b + 1));
            }
            let removed = range_sum(nodes, a, b);
            let mut next: Vec<TokenSurfaceNode> = Vec::new();
            let mut i: usize = 0;
            while i < a
                invariant
                    0 <= i <= a <= b < nodes.len(),
                    next@ == nodes@.subrange(0, i as int),
                decreases a - i,
            {
                next.push(nodes[i]);
                i = i + 1;
            }
            next.push(node);
            let mut j: usize = b + 1;
            while j < nodes.len()
                invariant
                    b + 1 <= j <= nodes.len(),
                    next@ == nodes@.subrange(0, a as int) + seq![node] + nodes@.subrange(b + 1, j as int),
                decreases nodes.len() - j,
            {
                next.push(nodes[j]);
                j = j + 1;
            }
            SurfaceTokenFold { tokens, nodes: next, delta_tokens: (tokens as i64) - (removed as i64) }
        },
    }
}

/// Folding a surface event moves the surface's token sum by exactly the fold's delta.
pub proof fn law_fold_moves_sum_by_delta(ns: Seq<TokenSurfaceNode>, seq: u64, tokens: u64, op: SurfaceOp)
    requires
        op matches SurfaceOp::Replace { start, end } ==> replace_range_valid(ns, start, end),
    ensures
        surface_sum(folded_nodes(ns, seq, tokens, op)) == surface_sum(ns) + folded_delta(ns, tokens, op),
{
    let node = TokenSurfaceNode { seq, tokens };
    match op {
        SurfaceOp::Append => {
            assert(ns.push(node).drop_last() =~= ns);
        },
        SurfaceOp::Replace { start, end } => {
            let a = position_of(ns, start);
            let b = position_of(ns, end);
            lemma_position_bounds(ns, end);
            let pre = ns.subrange(0, a);
            let mid = ns.subrange(a, b + 1);
            let post = ns.subrange(b + 1, ns.len() as int);
            assert(ns =~= pre + mid + post);
            lemma_surface_sum_concat(pre + mid, post);
            lemma_surface_sum_concat(pre, mid);
            lemma_surface_sum_concat(pre + seq![node], post);
            lemma_surface_sum_concat(pre, seq![node]);
            assert(seq![node].drop_last() =~= Seq::<TokenSurfaceNode>::empty());
            assert(surface_sum(seq![node]) == tokens) by {
                reveal_with_fuel(surface_sum, 2);
            }
            assert(folded_nodes(ns, seq, tokens, op) == pre + seq![node] + post);
        },
    }
}

/// Provider-reported usage of one model call, in disjoint buckets.
#[derive(Clone, Copy, Debug, PartialEq, Eq, Structural)]
pub struct TokenUsage {
    /// Uncached input tokens.
    pub input_tokens: u64,
    /// Output tokens, reasoning included.
    pub output_tokens: u64,
    /// Input tokens read from the provider cache.
    pub cache_read_tokens: Option<u64>,
    /// Input tokens written to the provider cache.
    pub cache_write_tokens: Option<u64>,
    /// Reasoning tokens, already counted in the output.
    pub reasoning_tokens: Option<u64>,
}

/// The value of an optional count, 0 when absent.
pub open spec fn or_zero(v: Option<u64>) -> int {
    match v {
        Some(n) => n as int,
        None => 0,
    }
}

/// Sum of the disjoint usage buckets; reasoning is part of the output and not added again.
pub open spec fn usage_total(u: TokenUsage) -> int {
    u.input_tokens + or_zero(u.cache_read_tokens) + or_zero(u.cache_write_tokens) + u.output_tokens
}

/// Sum of the disjoint usage buckets.
pub fn usage_tokens(usage: &TokenUsage) -> (r: u64)
    requires
        usage_total(*usage) <= u64::MAX,
    ensures
        r == usage_total(*usage),
{
    let read: u64 = match usage.cache_read_tokens {
        Some(n) => n,
        None => 0,
    };
    let write: u64 = match usage.cache_write_tokens {
        Some(n) => n,
        None => 0,
    };
    usage.input_tokens + read + write + usage.output_tokens
}

/// The baseline from which a signed surface delta gives the current pressure.
#[derive(Clone, Copy, Debug, PartialEq, Eq, Structural)]
pub enum TokenMeasurementBaseline {
    /// No request envelope and an empty surface.
    Empty,
    /// Full estimated price of the measured envelope plus surface.
    Estimated { tokens: u64 },
    /// Provider-reported usage reused for an identical envelope.
    Usage { tokens: u64, usage: TokenUsage },
}

/// Tokens a baseline contributes before the surface delta.
pub open spec fn baseline_tokens(b: TokenMeasurementBaseline) -> u64 {
    match b {
        TokenMeasurementBaseline::Empty => 0,
        TokenMeasurementBaseline::Estimated { tokens } => tokens,
        TokenMeasurementBaseline::Usage { tokens, .. } => tokens,
    }
}

impl TokenMeasurementBaseline {
    /// Tokens this baseline contributes before the signed surface delta.
    pub fn tokens(&self) -> (r: u64)
        ensures
            r == baseline_tokens(*self),
    {
        match self {
            TokenMeasurementBaseline::Empty => 0,
            TokenMeasurementBaseline::Estimated { tokens } => *tokens,
            TokenMeasurementBaseline::Usage { tokens, .. } => *tokens,
        }
    }

    /// Provider usage when this is a usage baseline.
    pub fn usage(&self) -> (r: Option<&TokenUsage>)
        ensures
            match *self {
                TokenMeasurementBaseline::Usage { usage, .. } => r == Some(&usage),
                _ => r is None,
            },
    {
        match self {
            TokenMeasurementBaseline::Usage { usage, .. } => Some(usage),
            _ => None,
        }
    }
}

/// The anchor a successful model call leaves: the surface tokens it saw and the baseline.
#[derive(Clone, Copy, Debug, PartialEq, Eq, Structural)]
pub struct MeasurementAnchor {
    /// Surface tokens at the anchor.
    pub surface_tokens: u64,
    /// Baseline measured at the anchor.
    pub baseline: TokenMeasurementBaseline,
}

/// Estimated tokens of the assistant output the provider streamed: the durable
/// message's tokens when no source chunks were recorded, 0 for an empty stream,
/// else the assembled content plus role overhead.
pub open spec fn provider_assistant_spec(durable_tokens: u64, provider_content: Option<Seq<ContentBlock>>) -> int {
    match provider_content {
        None => durable_tokens as int,
        Some(c) => if c.len() == 0 { 0 } else { (blocks_tokens(c) + 4) as int },
    }
}

/// The optional view of an optional slice of blocks.
pub open spec fn opt_blocks(c: Option<&[ContentBlock]>) -> Option<Seq<ContentBlock>> {
    match c {
        Some(s) => Some(s@),
        None => None,
    }
}

/// Prices the assistant output that the provider actually streamed.
pub fn provider_assistant_tokens(durable_tokens: u64, provider_content: Option<&[ContentBlock]>) -> (r: u64)
    requires
        provider_assistant_spec(durable_tokens, opt_blocks(provider_content)) <= u64::MAX,
    ensures
        r == provider_assistant_spec(durable_tokens, opt_blocks(provider_content)),
{
    match provider_content {
        None => durable_tokens,
        Some(c) => if c.len() == 0 { 0 } else { estimate_content(c) + 4 },
    }
}

/// The anchor a successful call leaves. With usage reported for a known envelope, the
/// anchor surface counts the provider's own output; the usage total becomes the
/// baseline when it is no lower than the estimate of envelope plus anchor surface,
/// else that estimate does. Without usage the durable output and the estimate are used.
pub open spec fn anchor_spec(
    step_start_surface: u64,
    header_tokens: u64,
    usage: Option<TokenUsage>,
    provider_tokens: u64,
    event_tokens: u64,
) -> (int, TokenMeasurementBaseline) {
    match usage {
        Some(u) => {
            let surface = step_start_surface + provider_tokens;
            let estimated = header_tokens + surface;
            if usage_total(u) >= estimated {
                (surface, TokenMeasurementBaseline::Usage { tokens: usage_total(u) as u64, usage: u })
            } else {
                (surface, TokenMeasurementBaseline::Estimated { tokens: estimated as u64 })
            }
        },
        None => {
            let surface = step_start_surface + event_tokens;
            (surface, TokenMeasurementBaseline::Estimated { tokens: (header_tokens + surface) as u64 })
        },
    }
}

/// Builds the anchor of a successful call. `usage` is the reported usage when the
/// call's envelope is known; `provider_tokens` prices the streamed output and
/// `event_tokens` the durable message.
pub fn anchor_for_call(
    step_start_surface: u64,
    header_tokens: u64,
    usage: Option<TokenUsage>,
    provider_tokens: u64,
    event_tokens: u64,
) -> (r: MeasurementAnchor)
    requires
        usage matches Some(u) ==> usage_total(u) <= u64::MAX
            && header_tokens + step_start_surface + provider_tokens <= u64::MAX,
        usage is None ==> header_tokens + step_start_surface + event_tokens <= u64::MAX,
    ensures
        r.surface_tokens == anchor_spec(step_start_surface, header_tokens, usage, provider_tokens, event_tokens).0,
        r.baseline == anchor_spec(step_start_surface, header_tokens, usage, provider_tokens, event_tokens).1,
{
    match usage {
        Some(u) => {
            let surface = step_start_surface + provider_tokens;
            let estimated = header_tokens + surface;
            let provider = usage_tokens(&u);
            if provider >= estimated {
                MeasurementAnchor { surface_tokens: surface, baseline: TokenMeasurementBaseline::Usage { tokens: provider, usage: u } }
            } else {
                MeasurementAnchor { surface_tokens: surface, baseline: TokenMeasurementBaseline::Estimated { tokens: estimated } }
            }
        },
        None => {
            let surface = step_start_surface + event_tokens;
            MeasurementAnchor {
                surface_tokens: surface,
                baseline: TokenMeasurementBaseline::Estimated { tokens: header_tokens + surface },
            }
        },
    }
}

/// `x + d` clamped to the range of `u64`.
pub open spec fn sat_add_signed(x: u64, d: i64) -> int {
    let v = x + d;
    if v < 0 {
        0
    } else if v > u64::MAX {
        u64::MAX as int
    } else {
        v
    }
}

/// Adds a signed delta to a count, saturating at both ends.
pub fn saturating_add_signed(x: u64, d: i64) -> (r: u64)
    ensures
        r == sat_add_signed(x, d),
{
    let v: i128 = x as i128 + d as i128;
    if v < 0 {
        0
    } else if v > u64::MAX as i128 {
        u64::MAX
    } else {
        v as u64
    }
}

/// Request pressure and surface snapshot at one consumed log revision.
#[derive(Debug)]
pub struct TokenMeasurement {
    log_revision: u64,
    baseline: TokenMeasurementBaseline,
    surface_delta_tokens: i64,
    total_tokens: u64,
    surface_tokens: u64,
    nodes: Vec<TokenSurfaceNode>,
}

impl TokenMeasurement {
    /// Number of log events consumed.
    pub closed spec fn log_revision_spec(&self) -> u64 {
        self.log_revision
    }

    /// Baseline of the measurement.
    pub closed spec fn baseline_spec(&self) -> TokenMeasurementBaseline {
        self.baseline
    }

    /// Signed repricing of the surface relative to the baseline.
    pub closed spec fn surface_delta_spec(&self) -> i64 {
        self.surface_delta_tokens
    }

    /// Current pressure.
    pub closed spec fn total_spec(&self) -> u64 {
        self.total_tokens
    }

    /// Tokens across the current surface.
    pub closed spec fn surface_spec(&self) -> u64 {
        self.surface_tokens
    }

    /// Current surface nodes.
    pub closed spec fn nodes_spec(&self) -> Seq<TokenSurfaceNode> {
        self.nodes@
    }

    /// Number of durable events consumed; the next unread event's sequence number.
    pub fn log_revision(&self) -> (r: u64)
        ensures
            r == self.log_revision_spec(),
    {
        self.log_revision
    }

    /// Provider or estimated anchor used for this measurement.
    pub fn baseline(&self) -> (r: &TokenMeasurementBaseline)
        ensures
            *r == self.baseline_spec(),
    {
        &self.baseline
    }

    /// Signed repricing of the current surface relative to the baseline anchor.
    pub fn surface_delta_tokens(&self) -> (r: i64)
        ensures
            r == self.surface_delta_spec(),
    {
        self.surface_delta_tokens
    }

    /// Non-negative current request pressure.
    pub fn total_tokens(&self) -> (r: u64)
        ensures
            r == self.total_spec(),
    {
        self.total_tokens
    }

    /// Total estimated tokens across the current surface.
    pub fn surface_tokens(&self) -> (r: u64)
        ensures
            r == self.surface_spec(),
    {
        self.surface_tokens
    }

    /// Current surface nodes, head to tail.
    pub fn nodes(&self) -> (r: &[TokenSurfaceNode])
        ensures
            r@ == self.nodes_spec(),
    {
        self.nodes.as_slice()
    }
}

/// The baseline and delta of a snapshot: the anchor's own when its envelope matches
/// the measured one; none with no envelope and an empty surface; else a full
/// estimate of envelope plus surface, with no delta.
pub open spec fn snapshot_choice(
    surface_tokens: u64,
    anchor: Option<MeasurementAnchor>,
    anchor_matches: bool,
    header_tokens: Option<u64>,
) -> (TokenMeasurementBaseline, int) {
    match anchor {
        Some(a) if anchor_matches => (a.baseline, surface_tokens - a.surface_tokens),
        _ => if header_tokens is None && surface_tokens == 0 {
            (TokenMeasurementBaseline::Empty, 0)
        } else {
            (TokenMeasurementBaseline::Estimated { tokens: (or_zero(header_tokens) + surface_tokens) as u64 }, 0)
        },
    }
}

/// Measures the current pressure. `anchor_matches` says whether the anchor's envelope
/// equals the measured one; `header_tokens` prices the measured envelope, `None`
/// when there is none.
pub fn snapshot(
    log_revision: u64,
    nodes: Vec<TokenSurfaceNode>,
    surface_tokens: u64,
    anchor: Option<MeasurementAnchor>,
    anchor_matches: bool,
    header_tokens: Option<u64>,
) -> (r: TokenMeasurement)
    requires
        surface_tokens <= i64::MAX,
        anchor matches Some(a) ==> a.surface_tokens <= i64::MAX,
        or_zero(header_tokens) + surface_tokens <= u64::MAX,
    ensures
        r.log_revision_spec() == log_revision,
        r.nodes_spec() == nodes@,
        r.surface_spec() == surface_tokens,
        r.baseline_spec() == snapshot_choice(surface_tokens, anchor, anchor_matches, header_tokens).0,
        r.surface_delta_spec() == snapshot_choice(surface_tokens, anchor, anchor_matches, header_tokens).1,
        r.total_spec() == sat_add_signed(baseline_tokens(r.baseline_spec()), r.surface_delta_spec()),
{
    let (baseline, delta): (TokenMeasurementBaseline, i64) = match anchor {
        Some(a) if anchor_matches => (a.baseline, (surface_tokens as i64) - (a.surface_tokens as i64)),
        _ => {
            let no_header = match header_tokens {
                Some(_) => false,
                None => true,
            };
            if no_header && surface_tokens == 0 {
                (TokenMeasurementBaseline::Empty, 0)
            } else {
                let h: u64 = match header_tokens {
                    Some(t) => t,
                    None => 0,
                };
                (TokenMeasurementBaseline::Estimated { tokens: h + surface_tokens }, 0)
            }
        },
    };
    let total = saturating_add_signed(baseline.tokens(), delta);
    TokenMeasurement {
        log_revision,
        baseline,
        surface_delta_tokens: delta,
        total_tokens: total,
        surface_tokens,
        nodes,
    }
}

/// The token meter takes no settings: `null` or an empty object is accepted; the
/// first key of any other object, or any other value, fails.
pub fn reject_meter_config(shape: ConfigShape, keys: &[String]) -> (r: Result<(), String>)
    ensures
        shape == ConfigShape::Null ==> r is Ok,
        shape == ConfigShape::Object ==> (if keys@.len() == 0 {
            r is Ok
        } else {
            r matches Err(m) && m@ == "TokenMeterConfig: unknown key \""@ + keys@[0]@ + "\" (no settings are supported)"@
        }),
        shape == ConfigShape::Other ==> (r matches Err(m) && m@ == "TokenMeterConfig: unknown key (config must be an empty object)"@),
{
    match shape {
        ConfigShape::Null => Ok(()),
        ConfigShape::Object => if keys.len() == 0 {
            Ok(())
        } else {
            let mut m = String::new();
            push_str(&mut m, "TokenMeterConfig: unknown key \"");
            push_str(&mut m, keys[0].as_str());
            push_str(&mut m, "\" (no settings are supported)");
            Err(m)
        },
        ConfigShape::Other => Err(String::from_str("TokenMeterConfig: unknown key (config must be an empty object)")),
    }
}

} // verus!
