//! Properties of the library's text: error counts, decimal notation and Mermaid ids, prose
//! links and frontmatter blocks, stated in terms of what the text holds.
use vstd::prelude::*;
use crate::graph::{edge_views, node_addr};
use crate::graph_text::{
    dot_char, dot_edge_line, dot_escape, dot_node_line, dot_text, mermaid_char, mermaid_edge_line,
    mermaid_escape, mermaid_id, mermaid_node_line, mermaid_text, node_index_from,
};
use crate::model::{finding_views, EdgeView, Finding, FindingView, Graph};
use crate::plan::error_count;
use crate::frontmatter::{
    after_opening, before_fence, close_crlf, close_lf, end_lf, frontmatter_parts, is_link_text, link_close, link_end,
    open_crlf, open_lf, prose_links, prose_links_from, split_led, with_lead,
};
use crate::text::{decimal, digit_char, first_occurrence, is_first_occurrence, lemma_first_occurrence_unique, occurs_at};

verus! {

/// The resulting error count of a plan counts the current findings whose severity is
/// `error`, one each: none among no findings, none where no finding is an error (all
/// warnings, say), and one more for each further finding exactly when it is an error.
pub proof fn law_error_count_counts_errors(fs: Seq<Finding>, f: Finding)
    ensures
        error_count(Seq::empty()) == 0,
        (forall|k: int| 0 <= k < fs.len() ==> (#[trigger] fs[k]).severity@ != "error"@)
            ==> error_count(fs) == 0,
        error_count(fs.push(f)) == error_count(fs) + (if f.severity@ == "error"@ {
            1nat
        } else {
            0nat
        }),
        error_count(fs) <= fs.len(),
{
    let p = |x: FindingView| x.severity == "error"@;
    assert(finding_views(Seq::<Finding>::empty()) =~= Seq::<FindingView>::empty());
    assert(Seq::<FindingView>::empty().filter(p) =~= Seq::<FindingView>::empty()) by {
        reveal(Seq::filter);
    }
    let vs = finding_views(fs);
    if forall|k: int| 0 <= k < fs.len() ==> (#[trigger] fs[k]).severity@ != "error"@ {
        assert forall|k: int| 0 <= k < vs.len() implies !p(#[trigger] vs[k]) by {
            assert(vs[k] == fs[k]@);
        }
        crate::laws::lemma_filter_none(vs, p);
    }
    assert(finding_views(fs.push(f)) =~= vs.push(f@));
    vs.lemma_filter_push(f@, p);
    vs.lemma_filter_len(p);
}

/// The value of a string of decimal digits.
pub open spec fn digits_value(ds: Seq<char>) -> int
    decreases ds.len(),
{
    if ds.len() == 0 {
        0
    } else {
        digits_value(ds.drop_last()) * 10 + (ds.last() as int - '0' as int)
    }
}

proof fn lemma_digit_char(d: nat)
    requires
        d < 10,
    ensures
        '0' <= digit_char(d) <= '9',
        digit_char(d) as int - '0' as int == d,
{
}

/// `decimal(n)` is the decimal notation of `n`: digits `0`–`9` whose value is `n`, without
/// a leading zero.
pub proof fn law_decimal_notation(n: nat)
    ensures
        decimal(n).len() >= 1,
        forall|k: int| 0 <= k < decimal(n).len() ==> '0' <= #[trigger] decimal(n)[k] <= '9',
        digits_value(decimal(n)) == n,
        decimal(n).len() > 1 ==> decimal(n)[0] != '0',
    decreases n,
{
    if n < 10 {
        lemma_digit_char(n);
        assert(decimal(n) == seq![digit_char(n)]);
        assert(decimal(n).drop_last() =~= Seq::<char>::empty());
        assert(digits_value(decimal(n).drop_last()) == 0);
        assert(digits_value(decimal(n)) == digits_value(decimal(n).drop_last()) * 10 + (
        decimal(n).last() as int - '0' as int));
    } else {
        law_decimal_notation(n / 10);
        lemma_digit_char(n % 10);
        let d = decimal(n);
        assert(d == decimal(n / 10).push(digit_char(n % 10)));
        assert(d.drop_last() =~= decimal(n / 10));
        assert(d[0] == decimal(n / 10)[0]);
        assert((n / 10) * 10 + n % 10 == n) by (nonlinear_arith);
        assert(digits_value(d) == digits_value(decimal(n / 10)) * 10 + (d.last() as int - '0' as int));
        if decimal(n / 10).len() == 1 {
            let e = decimal(n / 10);
            assert(e.drop_last() =~= Seq::<char>::empty());
            assert(digits_value(e.drop_last()) == 0);
            assert(digits_value(e) == e[0] as int - '0' as int);
            assert(e[0] <= '9');
            lemma_digit_char(n / 10);
            assert(decimal(n / 10)[0] == digit_char(n / 10));
        }
    }
}

/// Different numbers have different decimal notations.
pub proof fn law_decimal_injective(a: nat, b: nat)
    requires
        a != b,
    ensures
        decimal(a) != decimal(b),
{
    law_decimal_notation(a);
    law_decimal_notation(b);
}

/// Distinct node positions get distinct Mermaid ids: the id of position `i` is `n` followed
/// by the decimal notation of `i`.
pub proof fn law_mermaid_ids_distinct(i: int, j: int)
    requires
        0 <= i,
        0 <= j,
        i != j,
    ensures
        mermaid_id(i) != mermaid_id(j),
        mermaid_id(i) == seq!['n'] + decimal(i as nat),
{
    reveal_strlit("n");
    assert("n"@ =~= seq!['n']);
    law_decimal_injective(i as nat, j as nat);
    if mermaid_id(i) == mermaid_id(j) {
        assert(mermaid_id(i).skip(1) =~= decimal(i as nat));
        assert(mermaid_id(j).skip(1) =~= decimal(j as nat));
    }
}

/// The position of `part` `k` within the concatenation of `parts`.
proof fn lemma_part_occurs(parts: Seq<Seq<char>>, k: int) -> (pos: int)
    requires
        0 <= k < parts.len(),
    ensures
        occurs_at(parts.flatten(), parts[k], pos),
    decreases parts.len(),
{
    let rest = parts.drop_first();
    assert(parts.flatten() == parts[0] + rest.flatten());
    if k == 0 {
        assert(parts.flatten().subrange(0, parts[0].len() as int) =~= parts[0]);
        0
    } else {
        let q = lemma_part_occurs(rest, k - 1);
        assert(rest[k - 1] == parts[k]);
        let pos = parts[0].len() + q;
        assert(parts.flatten().subrange(pos, pos + parts[k].len()) =~= rest.flatten().subrange(
            q,
            q + parts[k].len(),
        ));
        pos
    }
}

/// The Mermaid flowchart of a graph holds, for each node position `k`, the line that
/// declares id `n<k>` (the decimal notation of `k`) with the node's address as its label.
pub proof fn law_mermaid_declares_each_node(g: Graph, k: int)
    requires
        0 <= k < g.nodes@.len(),
    ensures
        exists|pos: int|
            #[trigger] occurs_at(
                mermaid_text(g),
                "    "@ + seq!['n'] + decimal(k as nat) + "[\""@ + mermaid_escape(
                    node_addr(g.nodes@[k]),
                ) + "\"]\n"@,
                pos,
            ),
{
    reveal_strlit("n");
    assert("n"@ =~= seq!['n']);
    let lines = Seq::new(
        g.nodes@.len(),
        |i: int| mermaid_node_line(i, g.nodes@[i]),
    );
    let line = "    "@ + seq!['n'] + decimal(k as nat) + "[\""@ + mermaid_escape(
        node_addr(g.nodes@[k]),
    ) + "\"]\n"@;
    assert(lines[k] =~= line);
    let q = lemma_part_occurs(lines, k);
    let head = "flowchart LR\n"@;
    let t = mermaid_text(g);
    let pos = head.len() + q;
    assert(t.subrange(pos, pos + line.len()) =~= lines.flatten().subrange(q, q + line.len()));
    assert(occurs_at(t, line, pos));
}

/// The opening fence, `---\n` or (with `crlf`) `---\r\n`.
pub open spec fn opening(crlf: bool) -> Seq<char> {
    if crlf {
        seq!['-', '-', '-', '\r', '\n']
    } else {
        seq!['-', '-', '-', '\n']
    }
}

/// The fence line that closes a block before a body: `\n---\n`.
pub open spec fn fence_line() -> Seq<char> {
    seq!['\n', '-', '-', '-', '\n']
}

proof fn lemma_opening_removed(crlf: bool, rest: Seq<char>)
    ensures
        after_opening(opening(crlf) + rest) == Some(rest),
{
    let text = opening(crlf) + rest;
    if crlf {
        assert(text.take(4) != open_lf()) by {
            assert(text.take(4)[3] == '\r');
        }
        assert(text.take(5) =~= open_crlf());
        assert(text.skip(5) =~= rest);
    } else {
        assert(text.take(4) =~= open_lf());
        assert(text.skip(4) =~= rest);
    }
}

proof fn lemma_no_fence_before(f: Seq<char>, body: Seq<char>, k: int)
    requires
        !occurs_at(seq!['\n'] + f + seq!['\n'], fence_line(), k),
        0 <= k <= f.len(),
    ensures
        !occurs_at(with_lead(f + fence_line() + body), close_lf(), k),
{
    let n = with_lead(f + fence_line() + body);
    let lined = seq!['\n'] + f + seq!['\n'];
    let p: int = f.len() as int + 1;
    assert(n.len() == p + 5 + body.len());
    if occurs_at(n, close_lf(), k) {
        let w = n.subrange(k, k + 5);
        assert(w == close_lf());
        if k + 5 <= lined.len() {
            assert forall|i: int| 0 <= i < 5 implies #[trigger] w[i] == lined.subrange(k, k + 5)[i] by {
                assert(w[i] == n[k + i]);
                assert(lined[k + i] == n[k + i]);
            }
            assert(w =~= lined.subrange(k, k + 5));
        } else {
            assert(n[p] == '\n');
            assert(w[p - k] == n[p]);
            assert(1 <= p - k <= 3);
            assert(close_lf()[p - k] == '-');
        }
    }
}

proof fn lemma_fence_first(f: Seq<char>, body: Seq<char>)
    requires
        forall|k: int| !#[trigger] occurs_at(seq!['\n'] + f + seq!['\n'], fence_line(), k),
    ensures
        is_first_occurrence(with_lead(f + fence_line() + body), close_lf(), f.len() as int + 1),
{
    let n = with_lead(f + fence_line() + body);
    let p: int = f.len() as int + 1;
    assert(n.subrange(p, p + 5) =~= fence_line());
    assert forall|k: int| 0 <= k < p implies !occurs_at(n, close_lf(), k) by {
        lemma_no_fence_before(f, body, k);
    }
}

/// A frontmatter block is closed by the first `---` line after it: a text made of an
/// opening fence, a frontmatter `f` whose lines hold no `---` line, the line `---` and any
/// body (an empty one too) splits into exactly `f` and that body.
pub proof fn law_fence_line_closes_block(crlf: bool, f: Seq<char>, body: Seq<char>)
    requires
        forall|k: int| !#[trigger] occurs_at(seq!['\n'] + f + seq!['\n'], fence_line(), k),
    ensures
        frontmatter_parts(opening(crlf) + f + fence_line() + body) == Some((f, body)),
{
    let rest = f + fence_line() + body;
    assert(opening(crlf) + f + fence_line() + body =~= opening(crlf) + rest);
    lemma_opening_removed(crlf, rest);
    let n = with_lead(rest);
    let p: int = f.len() as int + 1;
    lemma_fence_first(f, body);
    lemma_first_occurrence_unique(n, close_lf(), p);
    assert(split_led(n) == Some((before_fence(n, p), n.skip(p + 5))));
    if p <= 1 {
        assert(f =~= Seq::<char>::empty());
    } else {
        assert(n.subrange(1, p) =~= f);
    }
    assert(n.skip(p + 5) =~= body);
}

/// Prose links are found from the front: text without a `[` holds none and leaves the
/// links of what follows it unchanged.
pub proof fn law_text_without_brackets_has_no_links(p: Seq<char>, s: Seq<char>)
    requires
        !p.contains('['),
    ensures
        prose_links(p + s) == prose_links(s),
{
    lemma_links_skip_plain(p, s, 0);
    lemma_links_shift(p, s, p.len() as int);
}

/// A body that begins with `[[x]]`, where `x` holds a `/`, no space, no line end and no `]`,
/// has `x` as its first prose link, followed by the links of the rest.
pub proof fn law_leading_link_found(x: Seq<char>, rest: Seq<char>)
    requires
        x.contains('/'),
        !x.contains(' '),
        !x.contains('\n'),
        !x.contains(']'),
    ensures
        prose_links(seq!['[', '['] + x + seq![']', ']'] + rest) == seq![x] + prose_links(rest),
{
    lemma_leading_brackets(x, rest);
}

/// A body that begins with `[[y]]`, where `y` holds no `]` but is no link (no `/`, or a
/// space or a line end in it), has the prose links of the rest.
pub proof fn law_leading_non_link_skipped(y: Seq<char>, rest: Seq<char>)
    requires
        !y.contains(']'),
        !y.contains('/') || y.contains(' ') || y.contains('\n'),
    ensures
        prose_links(seq!['[', '['] + y + seq![']', ']'] + rest) == prose_links(rest),
{
    lemma_leading_brackets(y, rest);
}

proof fn lemma_leading_brackets(x: Seq<char>, rest: Seq<char>)
    requires
        !x.contains(']'),
    ensures
        prose_links(seq!['[', '['] + x + seq![']', ']'] + rest) == (if x.contains('/')
            && !x.contains(' ') && !x.contains('\n') {
            seq![x]
        } else {
            Seq::empty()
        }) + prose_links(rest),
{
    let head = seq!['[', '['] + x + seq![']', ']'];
    let t = head + rest;
    let u = t.skip(2);
    let e = x.len() as int;
    assert(u.subrange(e, e + 2) =~= link_close());
    assert forall|k: int| 0 <= k < e implies !occurs_at(u, link_close(), k) by {
        if occurs_at(u, link_close(), k) {
            assert(u.subrange(k, k + 2)[0] == u[k]);
            assert(u[k] == x[k]);
        }
    }
    assert(is_first_occurrence(u, link_close(), e));
    lemma_first_occurrence_unique(u, link_close(), e);
    assert(link_end(t, 0) == Some(e));
    assert(t.subrange(2, 2 + e) =~= x);
    assert(prose_links_from(t, 0) == (if is_link_text(x) {
        seq![x]
    } else {
        Seq::empty()
    }) + prose_links_from(t, 4 + e));
    lemma_links_shift(head, rest, head.len() as int);
    assert(head.len() == 4 + e);
}

/// The scan of `p + s` from a position in `s` is the scan of `s`.
proof fn lemma_links_shift(p: Seq<char>, s: Seq<char>, i: int)
    requires
        p.len() <= i,
    ensures
        prose_links_from(p + s, i) == prose_links_from(s, i - p.len()),
    decreases (p + s).len() - i,
{
    let t = p + s;
    let j = i - p.len();
    if 0 <= i && i + 1 < t.len() {
        assert(t[i] == s[j] && t[i + 1] == s[j + 1]);
        assert(t.skip(i + 2) =~= s.skip(j + 2));
        assert(link_end(t, i) == link_end(s, j));
        match link_end(t, i) {
            Some(end) => {
                let kk = choose|kk: int| #[trigger] is_first_occurrence(t.skip(i + 2), link_close(), kk);
                assert(occurs_at(t.skip(i + 2), link_close(), kk));
                assert(t.subrange(i + 2, i + 2 + end) =~= s.subrange(j + 2, j + 2 + end));
                lemma_links_shift(p, s, i + 4 + end);
            },
            None => {
                lemma_links_shift(p, s, i + 1);
            },
        }
    }
}

/// Positions holding no `[` start no link.
proof fn lemma_links_skip_plain(p: Seq<char>, s: Seq<char>, i: int)
    requires
        0 <= i <= p.len(),
        !p.contains('['),
    ensures
        prose_links_from(p + s, i) == prose_links_from(p + s, p.len() as int),
    decreases p.len() - i,
{
    let t = p + s;
    if i < p.len() {
        assert(t[i] == p[i]);
        assert(p[i] != '[');
        lemma_links_skip_plain(p, s, i + 1);
        if i + 1 < t.len() {
            assert(link_end(t, i) is None);
        }
    }
}

/// The first node with address `a` is at `i`.
proof fn lemma_node_index_from(nodes: Seq<crate::model::Node>, a: Seq<char>, i: int, m: int)
    requires
        0 <= m <= i < nodes.len(),
        node_addr(nodes[i]) == a,
        forall|q: int| 0 <= q < i ==> node_addr(#[trigger] nodes[q]) != a,
    ensures
        node_index_from(nodes, a, m) == Some(i),
    decreases i - m,
{
    if m < i {
        lemma_node_index_from(nodes, a, i, m + 1);
    }
}

/// `i` is the first node position with address `a`.
pub open spec fn first_node_at(nodes: Seq<crate::model::Node>, a: Seq<char>, i: int) -> bool {
    &&& 0 <= i < nodes.len()
    &&& node_addr(nodes[i]) == a
    &&& forall|q: int| 0 <= q < i ==> node_addr(#[trigger] nodes[q]) != a
}

/// The line for edge `e` from the node with id `n<i>` to the node with id `n<j>`: dotted
/// (`-.->`) for a prose link, solid (`-->`) otherwise, labelled with the field.
pub open spec fn expected_mermaid_edge(e: EdgeView, i: int, j: int) -> Seq<char> {
    "    "@ + seq!['n'] + decimal(i as nat) + (if e.field == "prose"@ {
        " -.->|"@
    } else {
        " -->|"@
    }) + mermaid_escape(e.field) + "| "@ + seq!['n'] + decimal(j as nat) + "\n"@
}

/// The Mermaid flowchart draws each edge whose ends are nodes, from the id of the first
/// node at its source to the id of the first node at its target, labelled with its field,
/// dotted (`-.->`) exactly for a prose link and solid (`-->`) otherwise.
pub proof fn law_mermaid_draws_each_edge(g: Graph, k: int, i: int, j: int)
    requires
        0 <= k < g.edges@.len(),
        first_node_at(g.nodes@, g.edges@[k].from@, i),
        first_node_at(g.nodes@, g.edges@[k].to@, j),
    ensures
        exists|pos: int|
            #[trigger] occurs_at(mermaid_text(g), expected_mermaid_edge(g.edges@[k]@, i, j), pos),
{
    reveal_strlit("n");
    assert("n"@ =~= seq!['n']);
    let e = g.edges@[k]@;
    lemma_node_index_from(g.nodes@, e.from, i, 0);
    lemma_node_index_from(g.nodes@, e.to, j, 0);
    let es = edge_views(g.edges@);
    assert(es[k] == e);
    let elines = es.map_values(|x: EdgeView| mermaid_edge_line(g.nodes@, x));
    assert(e.field == g.edges@[k].field@ && e.from == g.edges@[k].from@ && e.to == g.edges@[k].to@);
    let line = expected_mermaid_edge(e, i, j);
    assert(elines[k] =~= line);
    let q = lemma_part_occurs(elines, k);
    let head = "flowchart LR\n"@ + Seq::new(
        g.nodes@.len(),
        |x: int| mermaid_node_line(x, g.nodes@[x]),
    ).flatten();
    let t = mermaid_text(g);
    assert(t == head + elines.flatten());
    let pos = head.len() + q;
    assert(t.subrange(pos, pos + line.len()) =~= elines.flatten().subrange(q, q + line.len()));
    assert(occurs_at(mermaid_text(g), line, pos));
}

/// The DOT digraph declares each node by its quoted address.
pub proof fn law_dot_declares_each_node(g: Graph, k: int)
    requires
        0 <= k < g.nodes@.len(),
    ensures
        exists|pos: int|
            #[trigger] occurs_at(
                dot_text(g),
                "    \""@ + dot_escape(node_addr(g.nodes@[k])) + "\";\n"@,
                pos,
            ),
{
    let lines = g.nodes@.map_values(|n: crate::model::Node| dot_node_line(n));
    let line = "    \""@ + dot_escape(node_addr(g.nodes@[k])) + "\";\n"@;
    assert(lines[k] == line);
    let q = lemma_part_occurs(lines, k);
    let head = "digraph company {\n"@;
    let t = dot_text(g);
    let pos = head.len() + q;
    assert(t.subrange(pos, pos + line.len()) =~= lines.flatten().subrange(q, q + line.len()));
    assert(occurs_at(t, line, pos));
}

/// The DOT line for edge `e`: quoted source, arrow, quoted target, its field as label, and
/// dashed for a prose link.
pub open spec fn expected_dot_edge(e: EdgeView) -> Seq<char> {
    "    \""@ + dot_escape(e.from) + "\" -> \""@ + dot_escape(e.to) + "\" [label=\""@ + dot_escape(
        e.field,
    ) + (if e.field == "prose"@ {
        "\", style=dashed];\n"@
    } else {
        "\"];\n"@
    })
}

/// The DOT digraph draws each edge from its quoted source to its quoted target, labelled
/// with its field, dashed exactly for a prose link.
pub proof fn law_dot_draws_each_edge(g: Graph, k: int)
    requires
        0 <= k < g.edges@.len(),
    ensures
        exists|pos: int| #[trigger] occurs_at(dot_text(g), expected_dot_edge(g.edges@[k]@), pos),
{
    let e = g.edges@[k]@;
    let es = edge_views(g.edges@);
    assert(es[k] == e);
    let elines = es.map_values(|x: EdgeView| dot_edge_line(x));
    assert(e.field == g.edges@[k].field@ && e.from == g.edges@[k].from@ && e.to == g.edges@[k].to@);
    let line = expected_dot_edge(e);
    assert(elines[k] == line);
    let q = lemma_part_occurs(elines, k);
    let head = "digraph company {\n"@ + g.nodes@.map_values(
        |n: crate::model::Node| dot_node_line(n),
    ).flatten();
    let t = dot_text(g);
    assert(t == head + elines.flatten() + "}\n"@);
    let pos = head.len() + q;
    assert(t.subrange(pos, pos + line.len()) =~= elines.flatten().subrange(q, q + line.len()));
    assert(occurs_at(dot_text(g), line, pos));
}

proof fn lemma_escape_plain(s: Seq<char>, mermaid: bool)
    requires
        mermaid ==> !s.contains('"') && !s.contains('|'),
        !mermaid ==> !s.contains('"') && !s.contains('\\'),
    ensures
        mermaid ==> mermaid_escape(s) == s,
        !mermaid ==> dot_escape(s) == s,
    decreases s.len(),
{
    if s.len() > 0 {
        let init = s.drop_last();
        assert(!init.contains('"') && !init.contains('|') && !init.contains('\\')
            ==> true);
        assert forall|c: char| init.contains(c) implies s.contains(c) by {
            let i = choose|i: int| 0 <= i < init.len() && init[i] == c;
            assert(s[i] == c);
        }
        lemma_escape_plain(init, mermaid);
        let c = s.last();
        assert(s.contains(c));
        assert(s =~= init.push(c));
        let mp = s.map_values(|x: char| mermaid_char(x));
        let dp = s.map_values(|x: char| dot_char(x));
        assert(mp =~= init.map_values(|x: char| mermaid_char(x)).push(mermaid_char(c)));
        assert(dp =~= init.map_values(|x: char| dot_char(x)).push(dot_char(c)));
        init.map_values(|x: char| mermaid_char(x)).lemma_flatten_push(mermaid_char(c));
        init.map_values(|x: char| dot_char(x)).lemma_flatten_push(dot_char(c));
    } else {
        assert(s.map_values(|x: char| mermaid_char(x)) =~= Seq::<Seq<char>>::empty());
        assert(s.map_values(|x: char| dot_char(x)) =~= Seq::<Seq<char>>::empty());
    }
}

/// Escaping leaves ordinary text alone: a Mermaid label without `"` or `|`, and a DOT
/// string without `"` or `\`, are written as they are.
pub proof fn law_escapes_keep_plain_text(s: Seq<char>)
    ensures
        !s.contains('"') && !s.contains('|') ==> mermaid_escape(s) == s,
        !s.contains('"') && !s.contains('\\') ==> dot_escape(s) == s,
{
    if !s.contains('"') && !s.contains('|') {
        lemma_escape_plain(s, true);
    }
    if !s.contains('"') && !s.contains('\\') {
        lemma_escape_plain(s, false);
    }
}

/// An empty frontmatter block is a block: an opening fence directly followed by the `---`
/// line splits into an empty frontmatter and the rest as body.
pub proof fn law_empty_block(crlf: bool, body: Seq<char>)
    ensures
        frontmatter_parts(opening(crlf) + seq!['-', '-', '-', '\n'] + body) == Some(
            (Seq::<char>::empty(), body),
        ),
{
    let rest = seq!['-', '-', '-', '\n'] + body;
    assert(opening(crlf) + seq!['-', '-', '-', '\n'] + body =~= opening(crlf) + rest);
    lemma_opening_removed(crlf, rest);
    let n = with_lead(rest);
    assert(n.subrange(0, 5) =~= close_lf());
    assert(is_first_occurrence(n, close_lf(), 0));
    lemma_first_occurrence_unique(n, close_lf(), 0);
    assert(n.skip(5) =~= body);
}

/// A block may end the file: an opening fence, a frontmatter `f` (without carriage returns)
/// whose lines hold no `---` line, and a last line `---` split into `f` and an empty body.
pub proof fn law_block_at_end_of_file(crlf: bool, f: Seq<char>)
    requires
        forall|k: int| !#[trigger] occurs_at(seq!['\n'] + f + seq!['\n'], fence_line(), k),
        !f.contains('\r'),
    ensures
        frontmatter_parts(opening(crlf) + f + seq!['\n', '-', '-', '-']) == Some((f, Seq::<char>::empty())),
{
    let rest = f + seq!['\n', '-', '-', '-'];
    assert(opening(crlf) + f + seq!['\n', '-', '-', '-'] =~= opening(crlf) + rest);
    lemma_opening_removed(crlf, rest);
    let n = with_lead(rest);
    let lined = seq!['\n'] + f + seq!['\n'];
    let p: int = f.len() as int + 1;
    assert(n.len() == p + 4);
    assert forall|k: int| 0 <= k implies !occurs_at(n, close_lf(), k) by {
        if occurs_at(n, close_lf(), k) {
            let w = n.subrange(k, k + 5);
            if k + 5 <= lined.len() {
                assert forall|i: int| 0 <= i < 5 implies #[trigger] w[i] == lined.subrange(k, k + 5)[i] by {
                    assert(w[i] == n[k + i]);
                    assert(lined[k + i] == n[k + i]);
                }
                assert(w =~= lined.subrange(k, k + 5));
                assert(occurs_at(lined, fence_line(), k));
            } else {
                assert(w[4] == n[k + 4]);
                assert(n[k + 4] == '-');
            }
        }
    }
    assert forall|k: int| 0 <= k implies !occurs_at(n, close_crlf(), k) by {
        if occurs_at(n, close_crlf(), k) {
            let w = n.subrange(k, k + 6);
            assert(w[4] == n[k + 4]);
            if k + 4 < p {
                assert(n[k + 4] == f[k + 3]);
                assert(f.contains(f[k + 3]));
            } else {
                assert(n[k + 4] == '\n' || n[k + 4] == '-');
            }
        }
    }
    if first_occurrence(n, close_lf()) is Some {
        let q = choose|q: int| is_first_occurrence(n, close_lf(), q);
        assert(occurs_at(n, close_lf(), q));
    }
    if first_occurrence(n, close_crlf()) is Some {
        let q = choose|q: int| is_first_occurrence(n, close_crlf(), q);
        assert(occurs_at(n, close_crlf(), q));
    }
    assert(n.skip(n.len() - 4) =~= end_lf());
    assert(n.subrange(1, p) =~= f);
}

} // verus!
