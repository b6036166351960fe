//! The snapshot renderer: a deterministic textual dump of a source text, its
//! diagnostics and its syntax tree.
use vstd::prelude::*;
use vstd::string::StringSliceAdditionalSpecFns;
use vstd::utf8::encode_utf8;
use crate::cst::{
    edges_height, edges_text, height, lemma_edges_height, lemma_edges_prefix_len, lemma_edges_text_step,
    node_len, node_text, text_len, Edge, Node, TextRange,
};
use crate::grammar::InliningPolicy;
use crate::text::{decimal, line_spans, lines, lit, push_decimal, push_spaces, push_str, spaces, split_lines};

verus! {

/// Longest preview, in bytes, before it is cut and marked.
pub const MAX_PREVIEW: usize = 50;

/// The UTF-8 bytes of a string.
pub open spec fn bytes_of(s: String) -> Seq<u8> {
    encode_utf8(s@)
}

/// The bytes of `src` in `range`, cut to the preview length and to the source.
pub open spec fn clipped(src: Seq<u8>, range: TextRange) -> Seq<u8> {
    let n = if range.spec_len() < MAX_PREVIEW { range.spec_len() } else { MAX_PREVIEW as nat };
    let a = if range.start < src.len() { range.start as int } else { src.len() as int };
    let b = if range.start + n < src.len() { range.start + n } else { src.len() as int };
    src.subrange(a, b)
}

/// A byte with tab, carriage return and line feed written as `\t`, `\r`, `\n`.
pub open spec fn escape_byte(b: u8) -> Seq<u8> {
    if b == 9u8 {
        seq![92u8, 116u8]
    } else if b == 13u8 {
        seq![92u8, 114u8]
    } else if b == 10u8 {
        seq![92u8, 110u8]
    } else {
        seq![b]
    }
}

/// `s` with every line break and tab escaped.
pub open spec fn escaped(s: Seq<u8>) -> Seq<u8>
    decreases s.len(),
{
    if s.len() == 0 {
        seq![]
    } else {
        escaped(s.drop_last()) + escape_byte(s.last())
    }
}

/// `s` with every single quote doubled.
pub open spec fn quotes_doubled(s: Seq<u8>) -> Seq<u8>
    decreases s.len(),
{
    if s.len() == 0 {
        seq![]
    } else {
        quotes_doubled(s.drop_last()) + if s.last() == 39u8 {
            seq![39u8, 39u8]
        } else {
            seq![s.last()]
        }
    }
}

/// The quoted, escaped and possibly cut text of `range` in `src`: in single
/// quotes (doubling those inside) when it holds a double quote, else in double
/// quotes.
pub open spec fn preview(src: Seq<u8>, range: TextRange) -> Seq<u8> {
    let cut = clipped(src, range) + if range.spec_len() > MAX_PREVIEW {
        lit("...")
    } else {
        seq![]
    };
    let e = escaped(cut);
    if e.contains(34u8) {
        seq![39u8] + quotes_doubled(e) + seq![39u8]
    } else {
        seq![34u8] + e + seq![34u8]
    }
}

fn escape_line_breaks(s: &Vec<u8>) -> (r: Vec<u8>)
    ensures
        r@ == escaped(s@),
{
    let mut r: Vec<u8> = Vec::new();
    let mut i: usize = 0;
    while i < s.len()
        invariant
            i <= s@.len(),
            r@ == escaped(s@.subrange(0, i as int)),
        decreases s@.len() - i,
    {
        let b = s[i];
        if b == 9u8 {
            r.push(92u8);
            r.push(116u8);
        } else if b == 13u8 {
            r.push(92u8);
            r.push(114u8);
        } else if b == 10u8 {
            r.push(92u8);
            r.push(110u8);
        } else {
            r.push(b);
        }
        assert(s@.subrange(0, i + 1).drop_last() =~= s@.subrange(0, i as int));
        i = i + 1;
        assert(r@ =~= escaped(s@.subrange(0, i as int)));
    }
    assert(s@.subrange(0, s@.len() as int) =~= s@);
    r
}

fn double_quotes(s: &Vec<u8>) -> (r: Vec<u8>)
    ensures
        r@ == quotes_doubled(s@),
{
    let mut r: Vec<u8> = Vec::new();
    let mut i: usize = 0;
    while i < s.len()
        invariant
            i <= s@.len(),
            r@ == quotes_doubled(s@.subrange(0, i as int)),
        decreases s@.len() - i,
    {
        let b = s[i];
        r.push(b);
        if b == 39u8 {
            r.push(39u8);
        }
        assert(s@.subrange(0, i + 1).drop_last() =~= s@.subrange(0, i as int));
        i = i + 1;
        assert(r@ =~= quotes_doubled(s@.subrange(0, i as int)));
    }
    assert(s@.subrange(0, s@.len() as int) =~= s@);
    r
}

fn contains_byte(s: &Vec<u8>, x: u8) -> (r: bool)
    ensures
        r == s@.contains(x),
{
    let mut i: usize = 0;
    while i < s.len()
        invariant
            i <= s@.len(),
            forall|j: int| 0 <= j < i ==> s@[j] != x,
        decreases s@.len() - i,
    {
        if s[i] == x {
            return true;
        }
        i = i + 1;
    }
    false
}

/// The preview of the text of `range` in `source`: its bytes, cut after
/// `MAX_PREVIEW` bytes and then marked with `...`, with line breaks and tabs
/// escaped, and quoted.
pub fn render_preview(source: &str, range: &TextRange) -> (r: Vec<u8>)
    ensures
        r@ == preview(source.spec_bytes(), *range),
{
    let src = source.as_bytes();
    let length: usize = if range.end > range.start { range.end - range.start } else { 0 };
    let n: usize = if length < MAX_PREVIEW { length } else { MAX_PREVIEW };
    let a: usize = if range.start < src.len() { range.start } else { src.len() };
    let b: usize = if range.start < src.len() && n < src.len() - range.start { range.start + n } else { src.len() };
    let mut contents: Vec<u8> = Vec::new();
    let mut i: usize = a;
    while i < b
        invariant
            a <= i <= b <= src@.len(),
            contents@ == src@.subrange(a as int, i as int),
        decreases b - i,
    {
        contents.push(src[i]);
        i = i + 1;
        assert(contents@ =~= src@.subrange(a as int, i as int));
    }
    assert(contents@ =~= clipped(src@, *range));
    if length > MAX_PREVIEW {
        push_str(&mut contents, "...");
    } else {
        assert(contents@ =~= contents@ + Seq::<u8>::empty());
    }
    let e = escape_line_breaks(&contents);
    let mut r: Vec<u8> = Vec::new();
    if contains_byte(&e, 34u8) {
        r.push(39u8);
        let mut d = double_quotes(&e);
        r.append(&mut d);
        r.push(39u8);
    } else {
        r.push(34u8);
        let mut d = e;
        r.append(&mut d);
        r.push(34u8);
    }
    assert(r@ =~= preview(src@, *range));
    r
}

/// The lines of the diagnostics block for messages `ls`, first `n` of them,
/// each indented by four spaces.
pub open spec fn message_lines(ls: Seq<Seq<u8>>, n: nat) -> Seq<u8>
    decreases n,
{
    if n == 0 || n > ls.len() {
        seq![]
    } else {
        message_lines(ls, (n - 1) as nat) + lit("    ") + ls[n - 1] + lit("\n")
    }
}

/// The entries for the first `n` diagnostics of `errs`.
pub open spec fn error_entries(errs: Seq<String>, n: nat) -> Seq<u8>
    decreases n,
{
    if n == 0 || n > errs.len() {
        seq![]
    } else {
        let ls = lines(bytes_of(errs[n - 1]));
        error_entries(errs, (n - 1) as nat) + lit("  - >\n") + message_lines(ls, ls.len())
    }
}

/// The diagnostics block: an explicit empty list, or a count followed by one
/// entry per diagnostic.
pub open spec fn errors_text(errs: Seq<String>) -> Seq<u8> {
    if errs.len() == 0 {
        lit("Errors: []\n")
    } else {
        lit("Errors: # ") + decimal(errs.len()) + lit(" total\n") + error_entries(errs, errs.len())
    }
}

/// Appends the bytes of `s` in `a..b`.
fn push_range(w: &mut Vec<u8>, s: &[u8], a: usize, b: usize)
    requires
        a <= b <= s@.len(),
    ensures
        final(w)@ == old(w)@ + s@.subrange(a as int, b as int),
{
    let mut i: usize = a;
    while i < b
        invariant
            a <= i <= b <= s@.len(),
            w@ == old(w)@ + s@.subrange(a as int, i as int),
        decreases b - i,
    {
        w.push(s[i]);
        i = i + 1;
        assert(w@ =~= old(w)@ + s@.subrange(a as int, i as int));
    }
}

/// Appends the diagnostics block for `errors`.
pub fn write_errors(w: &mut Vec<u8>, errors: &Vec<String>)
    ensures
        final(w)@ == old(w)@ + errors_text(errors@),
{
    if errors.len() == 0 {
        push_str(w, "Errors: []\n");
        return;
    }
    push_str(w, "Errors: # ");
    push_decimal(w, errors.len());
    push_str(w, " total\n");
    let ghost head = w@;
    let mut k: usize = 0;
    while k < errors.len()
        invariant
            k <= errors@.len(),
            w@ == head + error_entries(errors@, k as nat),
        decreases errors@.len() - k,
    {
        let ghost before = w@;
        push_str(w, "  - >\n");
        let msg = errors[k].as_str().as_bytes();
        let ranges = split_lines(msg);
        let ghost ls = lines(msg@);
        let ghost mid = w@;
        let mut j: usize = 0;
        while j < ranges.len()
            invariant
                j <= ranges@.len() == ls.len(),
                ls == lines(msg@),
                forall|q: int|
                    0 <= q < ranges@.len() ==> (#[trigger] ranges@[q]).0 <= ranges@[q].1 <= msg@.len()
                        && msg@.subrange(ranges@[q].0 as int, ranges@[q].1 as int) == lines(msg@)[q],
                w@ == mid + message_lines(ls, j as nat),
            decreases ranges@.len() - j,
        {
            push_str(w, "    ");
            push_range(w, msg, ranges[j].0, ranges[j].1);
            push_str(w, "\n");
            j = j + 1;
            assert(w@ =~= mid + message_lines(ls, j as nat));
        }
        assert(bytes_of(errors@[k as int]) == msg@);
        k = k + 1;
        assert(w@ =~= head + error_entries(errors@, k as nat));
    }
    assert(w@ =~= old(w)@ + errors_text(errors@));
}

/// Narrowest width of the source column.
pub const MIN_SOURCE_WIDTH: usize = 80;

/// Whether `b` continues a multi-byte UTF-8 character.
pub open spec fn is_continuation(b: u8) -> bool {
    128 <= b < 192
}

/// The number of characters in the UTF-8 bytes `l`: the bytes that begin one.
pub open spec fn char_count(l: Seq<u8>) -> nat
    decreases l.len(),
{
    if l.len() == 0 {
        0
    } else {
        char_count(l.drop_last()) + if is_continuation(l.last()) {
            0nat
        } else {
            1nat
        }
    }
}

/// The most characters in any of the first `n` lines of `ls`, at least `MIN_SOURCE_WIDTH`.
pub open spec fn source_width(ls: Seq<Seq<u8>>, n: nat) -> nat
    decreases n,
{
    if n == 0 || n > ls.len() {
        MIN_SOURCE_WIDTH as nat
    } else {
        let w = source_width(ls, (n - 1) as nat);
        let c = char_count(ls[n - 1]);
        if c > w {
            c
        } else {
            w
        }
    }
}

/// A line number, left-aligned in two columns.
pub open spec fn line_number(n: nat) -> Seq<u8> {
    if n < 10 {
        decimal(n) + lit(" ")
    } else {
        decimal(n)
    }
}

/// A range written as `start..end`.
pub open spec fn range_text(start: nat, end: nat) -> Seq<u8> {
    decimal(start) + lit("..") + decimal(end)
}

/// One row of the source block: number, the line's text padded to `width`
/// characters, and the line's byte span `start..end` in the source.
pub open spec fn source_row(n: nat, line: Seq<u8>, width: nat, start: nat, end: nat) -> Seq<u8> {
    lit("  ") + line_number(n) + lit(" │ ") + line + spaces((width - char_count(line)) as nat)
        + lit(" │ ") + range_text(start, end) + lit("\n")
}

/// The rows of the first `n` lines of `src`.
pub open spec fn source_rows(src: Seq<u8>, width: nat, n: nat) -> Seq<u8>
    decreases n,
{
    let spans = line_spans(src);
    if n == 0 || n > spans.len() {
        seq![]
    } else {
        source_rows(src, width, (n - 1) as nat) + source_row(
            n,
            lines(src)[n - 1],
            width,
            spans[n - 1].0 as nat,
            spans[n - 1].1 as nat,
        )
    }
}

/// The source block: an explicit empty string, or one row per line.
pub open spec fn source_text(src: Seq<u8>) -> Seq<u8> {
    let ls = lines(src);
    if src.len() == 0 {
        lit("Source: \"\"\n")
    } else {
        lit("Source: >\n") + source_rows(src, source_width(ls, ls.len()), ls.len())
    }
}

fn count_chars(s: &[u8], a: usize, b: usize) -> (r: usize)
    requires
        a <= b <= s@.len(),
    ensures
        r == char_count(s@.subrange(a as int, b as int)),
        r <= b - a,
{
    let mut r: usize = 0;
    let mut i: usize = a;
    while i < b
        invariant
            a <= i <= b <= s@.len(),
            r == char_count(s@.subrange(a as int, i as int)),
            r <= i - a,
        decreases b - i,
    {
        assert(s@.subrange(a as int, i + 1).drop_last() =~= s@.subrange(a as int, i as int));
        if !(128u8 <= s[i] && s[i] < 192u8) {
            r = r + 1;
        }
        i = i + 1;
    }
    r
}

fn write_row(w: &mut Vec<u8>, n: usize, src: &[u8], a: usize, b: usize, width: usize, count: usize)
    requires
        a <= b <= src@.len(),
        count <= width,
        count == char_count(src@.subrange(a as int, b as int)),
    ensures
        final(w)@ == old(w)@ + source_row(n as nat, src@.subrange(a as int, b as int), width as nat, a as nat, b as nat),
{
    let ghost start = old(w)@;
    push_str(w, "  ");
    push_decimal(w, n);
    if n < 10 {
        push_str(w, " ");
    }
    assert(w@ =~= start + lit("  ") + line_number(n as nat));
    push_str(w, " │ ");
    push_range(w, src, a, b);
    let ghost mid = w@;
    push_spaces(w, width - count);
    push_str(w, " │ ");
    push_decimal(w, a);
    push_str(w, "..");
    push_decimal(w, b);
    push_str(w, "\n");
    assert(w@ =~= mid + spaces((width - count) as nat) + lit(" │ ") + range_text(a as nat, b as nat) + lit("\n"));
    assert(w@ =~= old(w)@ + source_row(n as nat, src@.subrange(a as int, b as int), width as nat, a as nat, b as nat));
}

/// Appends the source block for `source`.
pub fn write_source(w: &mut Vec<u8>, source: &str)
    ensures
        final(w)@ == old(w)@ + source_text(source.spec_bytes()),
{
    let src = source.as_bytes();
    if src.len() == 0 {
        push_str(w, "Source: \"\"\n");
        return;
    }
    let ranges = split_lines(src);
    let ghost ls = lines(src@);
    let mut counts: Vec<usize> = Vec::new();
    let mut width: usize = MIN_SOURCE_WIDTH;
    let mut k: usize = 0;
    while k < ranges.len()
        invariant
            k <= ranges@.len() == ls.len(),
            ls == lines(src@),
            forall|q: int|
                0 <= q < ranges@.len() ==> (#[trigger] ranges@[q]).0 <= ranges@[q].1 <= src@.len()
                    && src@.subrange(ranges@[q].0 as int, ranges@[q].1 as int) == lines(src@)[q],
            counts@.len() == k,
            forall|q: int| 0 <= q < k ==> #[trigger] counts@[q] == char_count(ls[q]),
            forall|q: int| 0 <= q < k ==> #[trigger] counts@[q] <= width,
            width == source_width(ls, k as nat),
        decreases ranges@.len() - k,
    {
        let (a, b) = ranges[k];
        assert(ranges@[k as int] == (a, b));
        let c = count_chars(src, a, b);
        counts.push(c);
        if c > width {
            width = c;
        }
        k = k + 1;
    }
    push_str(w, "Source: >\n");
    let ghost head = w@;
    let mut n: usize = 0;
    while n < ranges.len()
        invariant
            n <= ranges@.len() == ls.len() == counts@.len(),
            ls == lines(src@),
            forall|q: int|
                0 <= q < ranges@.len() ==> (#[trigger] ranges@[q]).0 <= ranges@[q].1 <= src@.len()
                    && src@.subrange(ranges@[q].0 as int, ranges@[q].1 as int) == lines(src@)[q]
                    && line_spans(src@)[q] == (ranges@[q].0 as int, ranges@[q].1 as int),
            forall|q: int| 0 <= q < counts@.len() ==> #[trigger] counts@[q] == char_count(ls[q]),
            forall|q: int| 0 <= q < counts@.len() ==> #[trigger] counts@[q] <= width,
            width == source_width(ls, ls.len()),
            w@ == head + source_rows(src@, width as nat, n as nat),
        decreases ranges@.len() - n,
    {
        let (a, b) = ranges[n];
        assert(ranges@[n as int] == (a, b));
        write_row(w, n + 1, src, a, b, width, counts[n]);
        n = n + 1;
        assert(w@ =~= head + source_rows(src@, width as nat, n as nat));
    }
}

/// What `to_snake_case` makes of a field name.
pub uninterp spec fn snake_case_of(s: Seq<char>) -> Seq<char>;

/// Relies on inflector's `to_snake_case`: the field name in snake case, which
/// depends on the characters of the name alone.
#[verifier::external_body]
fn snake_case(s: &String) -> (r: String)
    ensures
        r@ == snake_case_of(s@),
{
    inflector::cases::snakecase::to_snake_case(s)
}

/// The kind of a node.
pub open spec fn node_kind(n: Node) -> String {
    match n {
        Node::Rule(r) => r.kind,
        Node::Token(t) => t.kind,
    }
}

/// A node's key: its kind, after its field name in snake case when it has one.
pub open spec fn key_text(kind: String, name: Option<String>) -> Seq<u8> {
    match name {
        Some(s) => lit("(") + encode_utf8(snake_case_of(s@)) + lit("꞉ ") + bytes_of(kind) + lit(")"),
        None => lit("(") + bytes_of(kind) + lit(")"),
    }
}

/// A node's value: an empty rule is marked `[]`, any other node shows the
/// preview of its text; the range comes last.
pub open spec fn value_text(src: Seq<u8>, n: Node, range: TextRange) -> Seq<u8> {
    let rt = range_text(range.start as nat, range.end as nat);
    match n {
        Node::Rule(r) => if r.children@.len() == 0 {
            lit("[] # (") + rt + lit(")")
        } else {
            lit("# ") + preview(src, range) + lit(" (") + rt + lit(")")
        },
        Node::Token(_) => preview(src, range) + lit(" # (") + rt + lit(")"),
    }
}

/// Whether `n` shares its line with its only child.
pub open spec fn inlines(p: InliningPolicy, n: Node) -> bool {
    match n {
        Node::Rule(r) => r.children@.len() == 1 && !p.blocks(r.kind@),
        Node::Token(_) => false,
    }
}

/// The range of a node that starts at `off`.
pub open spec fn range_at(n: Node, off: nat) -> TextRange {
    TextRange { start: off as usize, end: (off + node_len(n)) as usize }
}

/// The rest of a row from node `n` on: keys joined by ` ► ` down a chain of
/// inlined nodes, then the value of the last one and the rows of its children.
pub open spec fn chain_text(
    p: InliningPolicy,
    src: Seq<u8>,
    n: Node,
    name: Option<String>,
    off: nat,
    depth: nat,
) -> Seq<u8>
    decreases n, 0nat,
{
    key_text(node_kind(n), name) + match n {
        Node::Rule(r) => if r.children@.len() == 1 && !p.blocks(r.kind@) {
            lit(" ► ") + chain_text(p, src, r.children@[0].node, r.children@[0].name, off, depth)
        } else {
            lit(": ") + value_text(src, n, range_at(n, off)) + lit("\n") + edges_rows(
                p,
                src,
                r.children@,
                off,
                depth + 1,
            )
        },
        Node::Token(_) => lit(": ") + value_text(src, n, range_at(n, off)) + lit("\n"),
    }
}

/// The rows of node `n` at `depth`: indented four spaces per level.
pub open spec fn node_rows(
    p: InliningPolicy,
    src: Seq<u8>,
    n: Node,
    name: Option<String>,
    off: nat,
    depth: nat,
) -> Seq<u8>
    decreases n, 1nat,
{
    spaces(4 * depth) + lit("  - ") + chain_text(p, src, n, name, off, depth)
}

/// The rows of the children `es`, the first of which starts at `off`.
pub open spec fn edges_rows(p: InliningPolicy, src: Seq<u8>, es: Seq<Edge>, off: nat, depth: nat) -> Seq<u8>
    decreases es, 0nat,
{
    if es.len() == 0 {
        seq![]
    } else {
        let init = es.subrange(0, es.len() - 1);
        edges_rows(p, src, init, off, depth) + node_rows(
            p,
            src,
            es[es.len() - 1].node,
            es[es.len() - 1].name,
            off + edges_text(init).len(),
            depth,
        )
    }
}

/// The tree block.
pub open spec fn tree_text(p: InliningPolicy, src: Seq<u8>, root: Node) -> Seq<u8> {
    lit("Tree:\n") + node_rows(p, src, root, None, 0, 0)
}

fn render_key(w: &mut Vec<u8>, n: &Node, name: &Option<String>)
    ensures
        final(w)@ == old(w)@ + key_text(node_kind(*n), *name),
{
    proof {
        reveal(lit);
    }
    let kind = match n {
        Node::Rule(r) => &r.kind,
        Node::Token(t) => &t.kind,
    };
    push_str(w, "(");
    match name {
        Some(s) => {
            let snake = snake_case(s);
            push_str(w, snake.as_str());
            push_str(w, "꞉ ");
        },
        None => {},
    }
    push_str(w, kind.as_str());
    push_str(w, ")");
    assert(w@ =~= old(w)@ + key_text(node_kind(*n), *name));
}

fn render_value(w: &mut Vec<u8>, source: &str, n: &Node, range: TextRange)
    ensures
        final(w)@ == old(w)@ + value_text(source.spec_bytes(), *n, range),
{
    let ghost start = old(w)@;
    let is_empty_rule = match n {
        Node::Rule(r) => r.children.len() == 0,
        Node::Token(_) => false,
    };
    if is_empty_rule {
        push_str(w, "[] # (");
    } else {
        let mut pv = render_preview(source, &range);
        match n {
            Node::Rule(_) => {
                push_str(w, "# ");
                w.append(&mut pv);
                push_str(w, " (");
            },
            Node::Token(_) => {
                w.append(&mut pv);
                push_str(w, " # (");
            },
        }
    }
    push_decimal(w, range.start);
    push_str(w, "..");
    push_decimal(w, range.end);
    push_str(w, ")");
    assert(w@ =~= start + value_text(source.spec_bytes(), *n, range));
}

fn write_chain(
    w: &mut Vec<u8>,
    p: &InliningPolicy,
    source: &str,
    n: &Node,
    name: &Option<String>,
    off: usize,
    depth: usize,
)
    requires
        off + node_len(*n) <= usize::MAX,
        depth + height(*n) < usize::MAX,
    ensures
        final(w)@ == old(w)@ + chain_text(*p, source.spec_bytes(), *n, *name, off as nat, depth as nat),
    decreases n, 0nat,
{
    let ghost src = source.spec_bytes();
    render_key(w, n, name);
    let ghost after_key = w@;
    let len = text_len(n);
    let range = TextRange { start: off, end: off + len };
    match n {
        Node::Rule(r) => {
            if r.children.len() == 1 && !p.is_blocked(&r.kind) {
                push_str(w, " ► ");
                proof {
                    assert(decreases_to!(r.children => r.children[0]));
                    assert(decreases_to!(r.children[0] => r.children[0].node));
                    assert(r.children@.subrange(0, 0) =~= Seq::<Edge>::empty());
                    assert(r.children@.subrange(0, 1).subrange(0, 0) =~= Seq::<Edge>::empty());
                    assert(r.children@.subrange(0, 1) =~= r.children@);
                    assert(edges_text(r.children@.subrange(0, 0)) =~= Seq::<u8>::empty());
                    assert(node_text(*n) =~= node_text(r.children@[0].node));
                    lemma_edges_height(r.children@, 0);
                }
                write_chain(w, p, source, &r.children[0].node, &r.children[0].name, off, depth);
            } else {
                push_str(w, ": ");
                render_value(w, source, n, range);
                push_str(w, "\n");
                let ghost mid = w@;
                let ghost es = r.children@;
                let mut k: usize = 0;
                let mut pos: usize = off;
                while k < r.children.len()
                    invariant
                        *n == Node::Rule(*r),
                        src == source.spec_bytes(),
                        es == r.children@,
                        off + node_len(*n) <= usize::MAX,
                        depth + height(*n) < usize::MAX,
                        node_text(*n) == edges_text(es),
                        height(*n) == 1 + edges_height(es),
                        k <= es.len(),
                        pos == off + edges_text(es.subrange(0, k as int)).len(),
                        w@ == mid + edges_rows(*p, src, es.subrange(0, k as int), off as nat, (depth + 1) as nat),
                    decreases es.len() - k,
                {
                    proof {
                        assert(decreases_to!(r.children => r.children[k as int]));
                        assert(decreases_to!(r.children[k as int] => r.children[k as int].node));
                        lemma_edges_text_step(es, k as int);
                        lemma_edges_prefix_len(es, k + 1);
                        lemma_edges_height(es, k as int);
                        let s = es.subrange(0, k + 1);
                        assert(s.subrange(0, s.len() - 1) =~= es.subrange(0, k as int));
                    }
                    let ghost before = w@;
                    write_node(w, p, source, &r.children[k].node, &r.children[k].name, pos, depth + 1);
                    proof {
                        let s = es.subrange(0, k + 1);
                        assert(s[s.len() - 1] == es[k as int]);
                        assert(edges_rows(*p, src, s, off as nat, (depth + 1) as nat) == edges_rows(
                            *p,
                            src,
                            es.subrange(0, k as int),
                            off as nat,
                            (depth + 1) as nat,
                        ) + node_rows(*p, src, es[k as int].node, es[k as int].name, pos as nat, (depth + 1) as nat));
                        assert(w@ =~= mid + edges_rows(*p, src, s, off as nat, (depth + 1) as nat));
                    }
                    let c = text_len(&r.children[k].node);
                    pos = pos + c;
                    k = k + 1;
                }
                assert(es.subrange(0, es.len() as int) =~= es);
            }
        },
        Node::Token(_) => {
            push_str(w, ": ");
            render_value(w, source, n, range);
            push_str(w, "\n");
        },
    }
    assert(w@ =~= old(w)@ + chain_text(*p, src, *n, *name, off as nat, depth as nat));
}

fn write_node(
    w: &mut Vec<u8>,
    p: &InliningPolicy,
    source: &str,
    n: &Node,
    name: &Option<String>,
    off: usize,
    depth: usize,
)
    requires
        off + node_len(*n) <= usize::MAX,
        depth + height(*n) < usize::MAX,
    ensures
        final(w)@ == old(w)@ + node_rows(*p, source.spec_bytes(), *n, *name, off as nat, depth as nat),
    decreases n, 1nat,
{
    let mut i: usize = 0;
    while i < depth
        invariant
            i <= depth,
            w@ == old(w)@ + spaces(4 * i as nat),
        decreases depth - i,
    {
        push_spaces(w, 4);
        i = i + 1;
        assert(w@ =~= old(w)@ + spaces(4 * i as nat));
    }
    push_str(w, "  - ");
    write_chain(w, p, source, n, name, off, depth);
    assert(w@ =~= old(w)@ + node_rows(*p, source.spec_bytes(), *n, *name, off as nat, depth as nat));
}

/// Appends the tree block for `root`.
pub fn write_tree(w: &mut Vec<u8>, p: &InliningPolicy, source: &str, root: &Node)
    requires
        node_len(*root) <= usize::MAX,
        height(*root) < usize::MAX,
    ensures
        final(w)@ == old(w)@ + tree_text(*p, source.spec_bytes(), *root),
{
    push_str(w, "Tree:\n");
    write_node(w, p, source, root, &None, 0, 0);
    assert(w@ =~= old(w)@ + tree_text(*p, source.spec_bytes(), *root));
}

/// The whole snapshot: source block, diagnostics block and tree block,
/// separated by empty lines.
pub open spec fn snapshot_text(p: InliningPolicy, src: Seq<u8>, errors: Seq<String>, root: Node) -> Seq<u8> {
    source_text(src) + lit("\n") + errors_text(errors) + lit("\n") + tree_text(p, src, root)
}

/// Renders regression snapshots of parsed sources.
pub struct CstSnapshots;

impl CstSnapshots {
    /// The snapshot of `source`, its diagnostics `errors` and its tree `root`,
    /// with single-child chains inlined as `policy` allows.
    pub fn render(source: &str, errors: &Vec<String>, root: &Node, policy: &InliningPolicy) -> (r: Vec<u8>)
        requires
            node_len(*root) <= usize::MAX,
            height(*root) < usize::MAX,
        ensures
            r@ == snapshot_text(*policy, source.spec_bytes(), errors@, *root),
    {
        let mut w: Vec<u8> = Vec::new();
        write_source(&mut w, source);
        push_str(&mut w, "\n");
        write_errors(&mut w, errors);
        push_str(&mut w, "\n");
        write_tree(&mut w, policy, source, root);
        assert(w@ =~= snapshot_text(*policy, source.spec_bytes(), errors@, *root));
        w
    }
}

} // verus!
