//! Markdown documents: the YAML frontmatter block and the `[[type/id]]` prose links.
use vstd::prelude::*;
use crate::text::{
    chars_of, find_from, first_occurrence, has_prefix, has_suffix, is_first_occurrence,
    matches_at, occurs_at, range_contains, string_from_chars,
};

verus! {

/// Opening fence with a Unix line end: `---\n`.
pub open spec fn open_lf() -> Seq<char> {
    seq!['-', '-', '-', '\n']
}

/// Opening fence with a Windows line end: `---\r\n`.
pub open spec fn open_crlf() -> Seq<char> {
    seq!['-', '-', '-', '\r', '\n']
}

/// Closing fence followed by a body, Unix: `\n---\n`.
pub open spec fn close_lf() -> Seq<char> {
    seq!['\n', '-', '-', '-', '\n']
}

/// Closing fence followed by a body, Windows: `\n---\r\n`.
pub open spec fn close_crlf() -> Seq<char> {
    seq!['\n', '-', '-', '-', '\r', '\n']
}

/// Closing fence that ends the file, Unix: `\n---`.
pub open spec fn end_lf() -> Seq<char> {
    seq!['\n', '-', '-', '-']
}

/// Closing fence that ends the file, Windows: `\r\n---`.
pub open spec fn end_crlf() -> Seq<char> {
    seq!['\r', '\n', '-', '-', '-']
}

/// What follows the opening fence, if the text starts with one.
pub open spec fn after_opening(text: Seq<char>) -> Option<Seq<char>> {
    if has_prefix(text, open_lf()) {
        Some(text.skip(4))
    } else if has_prefix(text, open_crlf()) {
        Some(text.skip(5))
    } else {
        None
    }
}

/// The text after the opening fence with the opening fence's own line end put back in front,
/// so that a closing fence right after the opening one (an empty block) is found like any
/// other.
pub open spec fn with_lead(rest: Seq<char>) -> Seq<char> {
    seq!['\n'] + rest
}

/// The frontmatter before a closing fence found at `p` in `n == with_lead(rest)`: `n[1..p]`.
pub open spec fn before_fence(n: Seq<char>, p: int) -> Seq<char> {
    if p <= 1 {
        Seq::empty()
    } else {
        n.subrange(1, p)
    }
}

/// Splits `rest` (the text after the opening fence) at the first closing fence.
pub open spec fn split_at_closing(rest: Seq<char>) -> Option<(Seq<char>, Seq<char>)> {
    split_led(with_lead(rest))
}

/// Splits `n == with_lead(rest)` at the first closing fence.
pub open spec fn split_led(n: Seq<char>) -> Option<(Seq<char>, Seq<char>)> {
    match first_occurrence(n, close_lf()) {
        Some(p) => Some((before_fence(n, p), n.skip(p + 5))),
        None => match first_occurrence(n, close_crlf()) {
            Some(p) => Some((before_fence(n, p), n.skip(p + 6))),
            None => if has_suffix(n, end_lf()) {
                Some((before_fence(n, n.len() - 4), Seq::empty()))
            } else if has_suffix(n, end_crlf()) {
                Some((before_fence(n, n.len() - 5), Seq::empty()))
            } else {
                None
            },
        },
    }
}

/// The (frontmatter, body) split of a markdown text; `None` when it has no frontmatter block.
pub open spec fn frontmatter_parts(text: Seq<char>) -> Option<(Seq<char>, Seq<char>)> {
    match after_opening(text) {
        Some(rest) => split_at_closing(rest),
        None => None,
    }
}

/// Splits a markdown file into (frontmatter YAML, body). Returns `None` when there is no
/// frontmatter block.
pub fn split_frontmatter(text: &str) -> (r: Option<(String, String)>)
    ensures
        r is None ==> frontmatter_parts(text@) is None,
        r matches Some((front, body)) ==> frontmatter_parts(text@) == Some((front@, body@)),
{
    let v = chars_of(text);
    let start: usize;
    if matches_at(&v, &vec!['-', '-', '-', '\n'], 0) {
        assert(v@.subrange(0, 4) =~= v@.take(4));
        start = 4;
    } else if matches_at(&v, &vec!['-', '-', '-', '\r', '\n'], 0) {
        assert(v@.subrange(0, 5) =~= v@.take(5));
        assert(!has_prefix(v@, open_lf())) by {
            if has_prefix(v@, open_lf()) {
                assert(v@.subrange(0, 4) =~= v@.take(4));
            }
        }
        start = 5;
    } else {
        proof {
            if has_prefix(v@, open_lf()) {
                assert(v@.subrange(0, 4) =~= v@.take(4));
            }
            if has_prefix(v@, open_crlf()) {
                assert(v@.subrange(0, 5) =~= v@.take(5));
            }
        }
        return None;
    }
    let ghost rest = v@.skip(start as int);
    assert(after_opening(v@) == Some(rest));
    let n = lead_chars(&v, start);
    split_led_exec(&n)
}

/// `with_lead(v[start..])` as a vector.
fn lead_chars(v: &Vec<char>, start: usize) -> (n: Vec<char>)
    requires
        start <= v@.len(),
    ensures
        n@ == with_lead(v@.skip(start as int)),
{
    let mut n: Vec<char> = Vec::new();
    n.push('\n');
    let mut i = start;
    while i < v.len()
        invariant
            start <= i <= v@.len(),
            n@ == seq!['\n'] + v@.subrange(start as int, i as int),
        decreases v@.len() - i,
    {
        n.push(v[i]);
        assert(v@.subrange(start as int, i + 1) =~= v@.subrange(start as int, i as int).push(
            v@[i as int],
        ));
        i = i + 1;
        assert(n@ =~= seq!['\n'] + v@.subrange(start as int, i as int));
    }
    assert(n@ =~= with_lead(v@.skip(start as int)));
    n
}

/// Splits the led text `n` at its first closing fence.
fn split_led_exec(n: &Vec<char>) -> (r: Option<(String, String)>)
    ensures
        r is None ==> split_led(n@) is None,
        r matches Some((front, body)) ==> split_led(n@) == Some((front@, body@)),
{
    assert(n@.skip(0) =~= n@);
    let len = n.len();
    if let Some(p) = find_from(n, &vec!['\n', '-', '-', '-', '\n'], 0) {
        let front = fence_front(n, p);
        let body = string_from_chars(n, p + 5, len);
        assert(body@ =~= n@.skip(p + 5));
        return Some((front, body));
    }
    if let Some(p) = find_from(n, &vec!['\n', '-', '-', '-', '\r', '\n'], 0) {
        let front = fence_front(n, p);
        let body = string_from_chars(n, p + 6, len);
        assert(body@ =~= n@.skip(p + 6));
        return Some((front, body));
    }
    if len >= 4 && matches_at(n, &vec!['\n', '-', '-', '-'], len - 4) {
        assert(n@.skip(len - 4) =~= n@.subrange(len - 4, len as int));
        let front = fence_front(n, len - 4);
        return Some((front, String::new()));
    }
    proof {
        if has_suffix(n@, end_lf()) {
            assert(n@.skip(len - 4) =~= n@.subrange(len - 4, len as int));
        }
    }
    if len >= 5 && matches_at(n, &vec!['\r', '\n', '-', '-', '-'], len - 5) {
        assert(n@.skip(len - 5) =~= n@.subrange(len - 5, len as int));
        let front = fence_front(n, len - 5);
        return Some((front, String::new()));
    }
    proof {
        if has_suffix(n@, end_crlf()) {
            assert(n@.skip(len - 5) =~= n@.subrange(len - 5, len as int));
        }
    }
    None
}

/// `n[1..p]` as a string (empty when `p <= 1`).
fn fence_front(n: &Vec<char>, p: usize) -> (r: String)
    requires
        p <= n@.len(),
    ensures
        r@ == before_fence(n@, p as int),
{
    if p <= 1 {
        let r = String::new();
        assert(r@ =~= before_fence(n@, p as int));
        r
    } else {
        string_from_chars(n, 1, p)
    }
}

/// The closing brackets of a prose link: `]]`.
pub open spec fn link_close() -> Seq<char> {
    seq![']', ']']
}

/// Text between `[[` and `]]` that counts as a link: it holds a `/`, and no newline or space.
pub open spec fn is_link_text(inner: Seq<char>) -> bool {
    inner.contains('/') && !inner.contains('\n') && !inner.contains(' ')
}

/// The end of a link that opens at `i`: the position of its `]]` within `s.skip(i + 2)`.
pub open spec fn link_end(s: Seq<char>, i: int) -> Option<int> {
    if 0 <= i && i + 1 < s.len() && s[i] == '[' && s[i + 1] == '[' {
        first_occurrence(s.skip(i + 2), link_close())
    } else {
        None
    }
}

/// The prose links found by scanning `s` from position `i`: at each `[[` that is closed
/// by a later `]]`, the text between them is taken (if it is link text) and the scan goes
/// on after the `]]`; everywhere else it moves on by one character.
pub open spec fn prose_links_from(s: Seq<char>, i: int) -> Seq<Seq<char>>
    decreases s.len() - i,
{
    if 0 <= i && i + 1 < s.len() {
        match link_end(s, i) {
            Some(end) => {
                proof {
                    let k = choose|k: int| #[trigger] is_first_occurrence(s.skip(i + 2), link_close(), k);
                    assert(occurs_at(s.skip(i + 2), link_close(), k));
                }
                let inner = s.subrange(i + 2, i + 2 + end);
                (if is_link_text(inner) {
                    seq![inner]
                } else {
                    Seq::empty()
                }) + prose_links_from(s, i + 4 + end)
            },
            None => prose_links_from(s, i + 1),
        }
    } else {
        Seq::empty()
    }
}

/// The `[[type/id]]` prose links of a body, in order of appearance.
pub open spec fn prose_links(body: Seq<char>) -> Seq<Seq<char>> {
    prose_links_from(body, 0)
}

/// Collects the `[[...]]` prose links of a markdown body: the text between `[[` and the next
/// `]]` when it holds a `/` and no space or newline.
pub fn scan_prose_refs(body: &str) -> (out: Vec<String>)
    ensures
        out.deep_view() == prose_links(body@),
{
    let v = chars_of(body);
    let n = v.len();
    let ghost s = v@;
    let mut out: Vec<String> = Vec::new();
    let mut i: usize = 0;
    while n > 0 && i < n - 1
        invariant
            s == v@,
            s == body@,
            n == v@.len(),
            i <= n,
            out.deep_view() + prose_links_from(s, i as int) == prose_links(s),
        decreases n - i,
    {
        if v[i] == '[' && v[i + 1] == '[' {
            if let Some(end) = find_from(&v, &vec![']', ']'], i + 2) {
                let ghost k = choose|k: int| #[trigger] is_first_occurrence(s.skip(i + 2), link_close(), k);
                assert(occurs_at(s.skip(i + 2), link_close(), k));
                assert(k == end);
                let lo = i + 2;
                let hi = i + 2 + end;
                let ghost inner = s.subrange(lo as int, hi as int);
                let ghost before = out.deep_view();
                assert(link_end(s, i as int) == Some(end as int));
                if range_contains(&v, lo, hi, '/') && !range_contains(&v, lo, hi, '\n')
                    && !range_contains(&v, lo, hi, ' ') {
                    let link = string_from_chars(&v, lo, hi);
                    out.push(link);
                    assert(out.deep_view() =~= before.push(inner));
                    assert(before.push(inner) + prose_links_from(s, hi + 2) =~= before + (seq![inner]
                        + prose_links_from(s, hi + 2)));
                } else {
                    assert(Seq::<Seq<char>>::empty() + prose_links_from(s, hi + 2) =~= prose_links_from(s, hi + 2));
                }
                i = hi + 2;
                continue;
            }
        }
        i = i + 1;
    }
    assert(prose_links_from(s, i as int) =~= Seq::<Seq<char>>::empty());
    assert(out.deep_view() + Seq::<Seq<char>>::empty() =~= out.deep_view());
    out
}

} // verus!
