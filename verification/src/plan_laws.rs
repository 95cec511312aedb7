//! Properties of the rendered plan: one line per entry, then the summary line.
use vstd::prelude::*;
use crate::plan::{
    added_line, changed_line, changed_views, impact_line, impact_views, removed_line, rendered,
    summary_line, what_changed, ChangedView, ImpactView, Plan,
};
use crate::text::{decimal, digit_char, has_suffix, join};

verus! {

/// The number of line ends in `s`.
pub open spec fn newlines(s: Seq<char>) -> nat
    decreases s.len(),
{
    if s.len() == 0 {
        0
    } else {
        (if s[0] == '\n' {
            1nat
        } else {
            0nat
        }) + newlines(s.drop_first())
    }
}

/// Line ends add up over a concatenation.
pub proof fn lemma_newlines_concat(a: Seq<char>, b: Seq<char>)
    ensures
        newlines(a + b) == newlines(a) + newlines(b),
    decreases a.len(),
{
    if a.len() == 0 {
        assert(a + b =~= b);
    } else {
        lemma_newlines_concat(a.drop_first(), b);
        assert((a + b).drop_first() =~= a.drop_first() + b);
        assert((a + b)[0] == a[0]);
    }
}

/// A text without a line end has none.
pub proof fn lemma_no_newline(s: Seq<char>)
    requires
        forall|k: int| 0 <= k < s.len() ==> s[k] != '\n',
    ensures
        newlines(s) == 0,
    decreases s.len(),
{
    if s.len() > 0 {
        assert forall|k: int| 0 <= k < s.drop_first().len() implies s.drop_first()[k] != '\n' by {
            assert(s.drop_first()[k] == s[k + 1]);
        }
        lemma_no_newline(s.drop_first());
    }
}

/// `s` holds no line end.
pub open spec fn one_line(s: Seq<char>) -> bool {
    forall|k: int| 0 <= k < s.len() ==> s[k] != '\n'
}

proof fn lemma_decimal_one_line(n: nat)
    ensures
        newlines(decimal(n)) == 0,
    decreases n,
{
    if n >= 10 {
        lemma_decimal_one_line(n / 10);
        lemma_no_newline(seq![digit_char(n % 10)]);
        assert(decimal(n) =~= decimal(n / 10) + seq![digit_char(n % 10)]);
        lemma_newlines_concat(decimal(n / 10), seq![digit_char(n % 10)]);
    } else {
        lemma_no_newline(decimal(n));
    }
}

proof fn lemma_join_one_line(list: Seq<Seq<char>>, sep: Seq<char>)
    requires
        forall|k: int| 0 <= k < list.len() ==> newlines(#[trigger] list[k]) == 0,
        newlines(sep) == 0,
    ensures
        newlines(join(list, sep)) == 0,
    decreases list.len(),
{
    if list.len() == 1 {
        assert(newlines(list[0]) == 0);
    } else if list.len() > 1 {
        let init = list.drop_last();
        assert forall|k: int| 0 <= k < init.len() implies newlines(#[trigger] init[k]) == 0 by {
            assert(init[k] == list[k]);
        }
        lemma_join_one_line(init, sep);
        assert(newlines(list.last()) == 0);
        lemma_newlines_concat(join(init, sep), sep);
        lemma_newlines_concat(join(init, sep) + sep, list.last());
    } else {
        lemma_no_newline(join(list, sep));
    }
}

/// Lines of one line end each, flattened, have as many line ends as there are lines.
proof fn lemma_lines_flatten(lines: Seq<Seq<char>>)
    requires
        forall|k: int| 0 <= k < lines.len() ==> newlines(#[trigger] lines[k]) == 1,
    ensures
        newlines(lines.flatten()) == lines.len(),
    decreases lines.len(),
{
    if lines.len() > 0 {
        let rest = lines.drop_first();
        assert forall|k: int| 0 <= k < rest.len() implies newlines(#[trigger] rest[k]) == 1 by {
            assert(rest[k] == lines[k + 1]);
        }
        lemma_lines_flatten(rest);
        assert(newlines(lines[0]) == 1);
        lemma_newlines_concat(lines.first(), rest.flatten());
    } else {
        lemma_no_newline(lines.flatten());
    }
}

/// The text of `a` then one line end.
proof fn lemma_line_end(a: Seq<char>)
    requires
        newlines(a) == 0,
    ensures
        newlines(a + "\n"@) == 1,
{
    reveal_strlit("\n");
    lemma_newlines_concat(a, "\n"@);
    assert(newlines("\n"@.drop_first()) == 0) by {
        lemma_no_newline("\n"@.drop_first());
    }
}

/// A literal without line ends.
proof fn lemma_literals_one_line()
    ensures
        newlines("+ "@) == 0,
        newlines("- "@) == 0,
        newlines("~ "@) == 0,
        newlines("! "@) == 0,
        newlines("    ("@) == 0,
        newlines(", "@) == 0,
        newlines("    "@) == 0,
        newlines(" → "@) == 0,
        newlines("prose"@) == 0,
        newlines(" added · "@) == 0,
        newlines(" changed · "@) == 0,
        newlines(" removed · "@) == 0,
        newlines(" impacted · resulting errors: "@) == 0,
        newlines(")\n"@) == 1,
        newlines("\n"@) == 1,
{
    reveal_strlit("+ ");
    reveal_strlit("- ");
    reveal_strlit("~ ");
    reveal_strlit("! ");
    reveal_strlit("    (");
    reveal_strlit(", ");
    reveal_strlit("    ");
    reveal_strlit(" → ");
    reveal_strlit("prose");
    reveal_strlit(" added · ");
    reveal_strlit(" changed · ");
    reveal_strlit(" removed · ");
    reveal_strlit(" impacted · resulting errors: ");
    reveal_strlit(")\n");
    reveal_strlit("\n");
    lemma_no_newline("+ "@);
    lemma_no_newline("- "@);
    lemma_no_newline("~ "@);
    lemma_no_newline("! "@);
    lemma_no_newline("    ("@);
    lemma_no_newline(", "@);
    lemma_no_newline("    "@);
    lemma_no_newline(" → "@);
    lemma_no_newline("prose"@);
    lemma_no_newline(" added · "@);
    lemma_no_newline(" changed · "@);
    lemma_no_newline(" removed · "@);
    lemma_no_newline(" impacted · resulting errors: "@);
    assert(")\n"@ =~= seq![')'] + "\n"@);
    lemma_no_newline(seq![')']);
    lemma_line_end(seq![')']);
    lemma_line_end(Seq::empty());
    assert(Seq::<char>::empty() + "\n"@ =~= "\n"@);
}

/// The strings of a plan hold no line end.
pub open spec fn plan_one_line(p: Plan) -> bool {
    &&& forall|k: int| 0 <= k < p.added@.len() ==> one_line(#[trigger] p.added@[k]@)
    &&& forall|k: int| 0 <= k < p.removed@.len() ==> one_line(#[trigger] p.removed@[k]@)
    &&& forall|k: int|
        0 <= k < p.changed@.len() ==> one_line((#[trigger] p.changed@[k])@.address) && forall|
            j: int,
        |
            0 <= j < p.changed@[k]@.fields.len() ==> one_line(#[trigger] p.changed@[k]@.fields[j])
    &&& forall|k: int|
        0 <= k < p.impacts@.len() ==> one_line((#[trigger] p.impacts@[k])@.from) && one_line(
            p.impacts@[k]@.field,
        ) && one_line(p.impacts@[k]@.to)
}

proof fn lemma_changed_line(c: ChangedView)
    requires
        one_line(c.address),
        forall|j: int| 0 <= j < c.fields.len() ==> one_line(#[trigger] c.fields[j]),
    ensures
        newlines(changed_line(c)) == 1,
{
    lemma_literals_one_line();
    lemma_no_newline(c.address);
    let w = what_changed(c);
    assert forall|j: int| 0 <= j < w.len() implies newlines(#[trigger] w[j]) == 0 by {
        if j < c.fields.len() {
            assert(w[j] == c.fields[j]);
            lemma_no_newline(c.fields[j]);
        }
    }
    lemma_join_one_line(w, ", "@);
    let j = join(w, ", "@);
    lemma_newlines_concat("~ "@, c.address);
    lemma_newlines_concat("~ "@ + c.address, "    ("@);
    lemma_newlines_concat("~ "@ + c.address + "    ("@, j);
    lemma_newlines_concat("~ "@ + c.address + "    ("@ + j, ")\n"@);
}

proof fn lemma_impact_line(i: ImpactView)
    requires
        one_line(i.from),
        one_line(i.field),
        one_line(i.to),
    ensures
        newlines(impact_line(i)) == 1,
{
    lemma_literals_one_line();
    lemma_no_newline(i.from);
    lemma_no_newline(i.field);
    lemma_no_newline(i.to);
    lemma_newlines_concat("! "@, i.from);
    lemma_newlines_concat("! "@ + i.from, "    "@);
    lemma_newlines_concat("! "@ + i.from + "    "@, i.field);
    lemma_newlines_concat("! "@ + i.from + "    "@ + i.field, " → "@);
    lemma_newlines_concat("! "@ + i.from + "    "@ + i.field + " → "@, i.to);
    lemma_line_end("! "@ + i.from + "    "@ + i.field + " → "@ + i.to);
}

proof fn lemma_address_line(head: Seq<char>, a: Seq<char>)
    requires
        newlines(head) == 0,
        one_line(a),
    ensures
        newlines(head + a + "\n"@) == 1,
{
    lemma_no_newline(a);
    lemma_newlines_concat(head, a);
    lemma_line_end(head + a);
}

proof fn lemma_summary_line(added: nat, changed: nat, removed: nat, impacted: nat, errors: nat)
    ensures
        newlines(summary_line(added, changed, removed, impacted, errors)) == 1,
{
    lemma_literals_one_line();
    lemma_decimal_one_line(added);
    lemma_decimal_one_line(changed);
    lemma_decimal_one_line(removed);
    lemma_decimal_one_line(impacted);
    lemma_decimal_one_line(errors);
    let s1 = decimal(added) + " added · "@;
    lemma_newlines_concat(decimal(added), " added · "@);
    lemma_newlines_concat(s1, decimal(changed));
    let s2 = s1 + decimal(changed) + " changed · "@;
    lemma_newlines_concat(s1 + decimal(changed), " changed · "@);
    lemma_newlines_concat(s2, decimal(removed));
    let s3 = s2 + decimal(removed) + " removed · "@;
    lemma_newlines_concat(s2 + decimal(removed), " removed · "@);
    lemma_newlines_concat(s3, decimal(impacted));
    let s4 = s3 + decimal(impacted) + " impacted · resulting errors: "@;
    lemma_newlines_concat(s3 + decimal(impacted), " impacted · resulting errors: "@);
    lemma_newlines_concat(s4, decimal(errors));
    lemma_line_end(s4 + decimal(errors));
}

/// The rendered plan has one line per added, changed, removed and impacted entry and then the
/// summary line (`<added> added · ...`) that ends it, where no string of the plan holds a line
/// end.
pub proof fn law_rendered_plan_lines(p: Plan)
    requires
        plan_one_line(p),
    ensures
        newlines(rendered(p)) == p.added@.len() + p.changed@.len() + p.removed@.len()
            + p.impacts@.len() + 1,
        has_suffix(
            rendered(p),
            summary_line(
                p.added@.len(),
                p.changed@.len(),
                p.removed@.len(),
                p.impacts@.len(),
                p.resulting_errors as nat,
            ),
        ),
        newlines(
            summary_line(
                p.added@.len(),
                p.changed@.len(),
                p.removed@.len(),
                p.impacts@.len(),
                p.resulting_errors as nat,
            ),
        ) == 1,
        rendered(p).last() == '\n',
{
    lemma_literals_one_line();
    let la = p.added.deep_view().map_values(|a: Seq<char>| added_line(a));
    let lc = changed_views(p.changed@).map_values(|c: ChangedView| changed_line(c));
    let lr = p.removed.deep_view().map_values(|a: Seq<char>| removed_line(a));
    let li = impact_views(p.impacts@).map_values(|i: ImpactView| impact_line(i));
    let sl = summary_line(
        p.added@.len(),
        p.changed@.len(),
        p.removed@.len(),
        p.impacts@.len(),
        p.resulting_errors as nat,
    );
    assert forall|k: int| 0 <= k < la.len() implies newlines(#[trigger] la[k]) == 1 by {
        assert(p.added.deep_view()[k] == p.added@[k]@);
        lemma_address_line("+ "@, p.added@[k]@);
    }
    assert forall|k: int| 0 <= k < lr.len() implies newlines(#[trigger] lr[k]) == 1 by {
        assert(p.removed.deep_view()[k] == p.removed@[k]@);
        lemma_address_line("- "@, p.removed@[k]@);
    }
    assert forall|k: int| 0 <= k < lc.len() implies newlines(#[trigger] lc[k]) == 1 by {
        assert(changed_views(p.changed@)[k] == p.changed@[k]@);
        lemma_changed_line(p.changed@[k]@);
    }
    assert forall|k: int| 0 <= k < li.len() implies newlines(#[trigger] li[k]) == 1 by {
        assert(impact_views(p.impacts@)[k] == p.impacts@[k]@);
        lemma_impact_line(p.impacts@[k]@);
    }
    lemma_lines_flatten(la);
    lemma_lines_flatten(lc);
    lemma_lines_flatten(lr);
    lemma_lines_flatten(li);
    lemma_summary_line(
        p.added@.len(),
        p.changed@.len(),
        p.removed@.len(),
        p.impacts@.len(),
        p.resulting_errors as nat,
    );
    let body = la.flatten() + lc.flatten() + lr.flatten() + li.flatten();
    lemma_newlines_concat(la.flatten(), lc.flatten());
    lemma_newlines_concat(la.flatten() + lc.flatten(), lr.flatten());
    lemma_newlines_concat(la.flatten() + lc.flatten() + lr.flatten(), li.flatten());
    lemma_newlines_concat(body, sl);
    assert(rendered(p) == body + sl);
    assert((body + sl).skip(body.len() as int) =~= sl);
    reveal_strlit("\n");
    assert(sl.last() == '\n');
    assert((body + sl).last() == sl.last());
}

} // verus!
