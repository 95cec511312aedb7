//! Reports: finding counts, lookups by address, and the lines a person reads.
use vstd::prelude::*;
use crate::model::{addr_of, finding_views, Edge, Finding, FindingView, Resource};
use crate::text::{decimal, push_decimal, str_eq};

verus! {

/// The number of findings with severity `severity`.
pub open spec fn severity_count(fs: Seq<Finding>, severity: Seq<char>) -> nat {
    finding_views(fs).filter(|f: FindingView| f.severity == severity).len()
}

/// Counts the findings with the given severity (`error`, `warning`).
pub fn count_severity(fs: &Vec<Finding>, severity: &str) -> (n: usize)
    ensures
        n == severity_count(fs@, severity@),
{
    let ghost vs = finding_views(fs@);
    let ghost pred = |f: FindingView| f.severity == severity@;
    let mut n: usize = 0;
    let mut i: usize = 0;
    while i < fs.len()
        invariant
            i <= fs@.len(),
            vs == finding_views(fs@),
            pred == (|f: FindingView| f.severity == severity@),
            n == vs.take(i as int).filter(pred).len(),
            n <= i,
        decreases fs@.len() - i,
    {
        if str_eq(fs[i].severity.as_str(), severity) {
            n = n + 1;
        }
        proof {
            assert(vs.take(i + 1) =~= vs.take(i as int).push(vs[i as int]));
            vs.take(i as int).lemma_filter_push(vs[i as int], pred);
        }
        i = i + 1;
    }
    assert(vs.take(vs.len() as int) =~= vs);
    n
}

/// `i` is the first resource of `rs` with address `a`.
pub open spec fn is_first_at(rs: Seq<Resource>, a: Seq<char>, i: int) -> bool {
    0 <= i < rs.len() && addr_of(rs[i]) == a && forall|j: int| 0 <= j < i ==> addr_of(#[trigger] rs[j]) != a
}

/// The index of the first resource with address `address`, if there is one.
pub fn find_resource(rs: &Vec<Resource>, address: &str) -> (r: Option<usize>)
    ensures
        r matches Some(i) ==> is_first_at(rs@, address@, i as int),
        r is None ==> forall|j: int| 0 <= j < rs@.len() ==> addr_of(#[trigger] rs@[j]) != address@,
{
    let mut i: usize = 0;
    while i < rs.len()
        invariant
            i <= rs@.len(),
            forall|j: int| 0 <= j < i ==> addr_of(#[trigger] rs@[j]) != address@,
        decreases rs@.len() - i,
    {
        let a = rs[i].addr();
        if str_eq(a.as_str(), address) {
            return Some(i);
        }
        i = i + 1;
    }
    None
}

/// The line for a finding: level, severity, `[resource]` (`-` when none), ` field:` when
/// there is one, and the message.
pub open spec fn finding_line(f: FindingView) -> Seq<char> {
    f.level + " "@ + f.severity + " ["@ + (match f.resource {
        Some(r) => r,
        None => "-"@,
    }) + "]"@ + (match f.field {
        Some(x) => " "@ + x + ":"@,
        None => Seq::empty(),
    }) + " "@ + f.message
}

/// Formats a finding as one line of the human-readable report.
pub fn format_finding(f: &Finding) -> (s: String)
    ensures
        s@ == finding_line(f@),
{
    let mut s = f.level.clone();
    s.append(" ");
    s.append(f.severity.as_str());
    s.append(" [");
    match &f.resource {
        Some(r) => s.append(r.as_str()),
        None => s.append("-"),
    }
    s.append("]");
    match &f.field {
        Some(x) => {
            s.append(" ");
            s.append(x.as_str());
            s.append(":");
        },
        None => {},
    }
    s.append(" ");
    s.append(f.message.as_str());
    assert(s@ =~= finding_line(f@));
    s
}

/// The closing line of the human-readable report.
pub open spec fn summary_text(resources: nat, errors: nat, warnings: nat) -> Seq<char> {
    decimal(resources) + " resources · "@ + decimal(errors) + " errors · "@ + decimal(warnings)
        + " warnings"@
}

/// Formats the closing line of the human-readable report.
pub fn format_summary(resources: usize, errors: usize, warnings: usize) -> (s: String)
    ensures
        s@ == summary_text(resources as nat, errors as nat, warnings as nat),
{
    let mut s = String::new();
    push_decimal(&mut s, resources);
    s.append(" resources · ");
    push_decimal(&mut s, errors);
    s.append(" errors · ");
    push_decimal(&mut s, warnings);
    s.append(" warnings");
    assert(s@ =~= summary_text(resources as nat, errors as nat, warnings as nat));
    s
}

/// The line for an edge in a backlinks listing: `from --field--> to`.
pub open spec fn edge_line(from: Seq<char>, field: Seq<char>, to: Seq<char>) -> Seq<char> {
    from + " --"@ + field + "--> "@ + to
}

/// Formats an edge for a backlinks listing.
pub fn format_edge(e: &Edge) -> (s: String)
    ensures
        s@ == edge_line(e.from@, e.field@, e.to@),
{
    let mut s = e.from.clone();
    s.append(" --");
    s.append(e.field.as_str());
    s.append("--> ");
    s.append(e.to.as_str());
    s
}

} // verus!
