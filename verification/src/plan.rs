//! The plan: what a change to the company description touches, between a baseline
//! workspace and the current one.
use vstd::prelude::*;
use crate::graph::{backlinks, edge_views, graph, graph_edges};
use crate::model::Graph;
use crate::model::{addr_of, addresses, Edge, EdgeView, Finding, Resource, Workspace};
use crate::sorted::{sorted_distinct, sorted_listing, sorted_unique, insert_sorted};
use crate::text::{decimal, join, push_decimal, push_joined, str_eq};
use crate::validate::{contains_str, resource_addresses};
use crate::report::{count_severity, severity_count};
use crate::yaml::{value_str, values_equal, yaml_eq, YamlMapping, YamlValue};

verus! {

/// A resource present in both workspaces whose envelope fields or prose differ.
#[derive(Debug)]
pub struct Changed {
    pub address: String,
    /// The envelope keys whose values differ, ascending.
    pub fields: Vec<String>,
    /// Whether the prose body differs.
    pub prose: bool,
}

/// A reference to a changed or removed resource: `from` refers to `to` through `field`.
#[derive(Debug)]
pub struct Impact {
    pub from: String,
    pub field: String,
    pub to: String,
}

/// The difference between a baseline and the current workspace.
#[derive(Debug)]
pub struct Plan {
    /// The baseline's name (a git ref).
    pub from: String,
    pub added: Vec<String>,
    pub changed: Vec<Changed>,
    pub removed: Vec<String>,
    pub impacts: Vec<Impact>,
    /// How many error findings the current workspace carries.
    pub resulting_errors: usize,
}

/// A change as plain values.
pub struct ChangedView {
    pub address: Seq<char>,
    pub fields: Seq<Seq<char>>,
    pub prose: bool,
}

impl View for Changed {
    type V = ChangedView;

    open spec fn view(&self) -> ChangedView {
        ChangedView { address: self.address@, fields: self.fields.deep_view(), prose: self.prose }
    }
}

/// An impact as plain values.
pub struct ImpactView {
    pub from: Seq<char>,
    pub field: Seq<char>,
    pub to: Seq<char>,
}

impl View for Impact {
    type V = ImpactView;

    open spec fn view(&self) -> ImpactView {
        ImpactView { from: self.from@, field: self.field@, to: self.to@ }
    }
}

/// The views of a sequence of changes.
pub open spec fn changed_views(cs: Seq<Changed>) -> Seq<ChangedView> {
    cs.map_values(|c: Changed| c@)
}

/// The views of a sequence of impacts.
pub open spec fn impact_views(is: Seq<Impact>) -> Seq<ImpactView> {
    is.map_values(|i: Impact| i@)
}

/// The set of addresses of `rs`.
pub open spec fn addr_set(rs: Seq<Resource>) -> Set<Seq<char>> {
    addresses(rs).to_set()
}

/// The last resource of `rs` with address `a` (a map keyed by address keeps the last one).
pub open spec fn last_at(rs: Seq<Resource>, a: Seq<char>) -> Option<Resource>
    decreases rs.len(),
{
    if rs.len() == 0 {
        None
    } else if addr_of(rs.last()) == a {
        Some(rs.last())
    } else {
        last_at(rs.drop_last(), a)
    }
}

/// The string keys of a mapping (tags looked through).
pub open spec fn str_keys(m: YamlMapping) -> Set<Seq<char>> {
    Set::new(
        |k: Seq<char>|
            exists|i: int| 0 <= i < m.entries@.len() && value_str(#[trigger] m.entries@[i].key) == Some(k),
    )
}

/// Two optional values are equal (both absent, or both present and equal).
pub open spec fn same_value(x: Option<YamlValue>, y: Option<YamlValue>) -> bool {
    match (x, y) {
        (None, None) => true,
        (Some(a), Some(b)) => yaml_eq(a, b),
        _ => false,
    }
}

/// The keys, ascending, under which the two envelopes hold different values.
pub open spec fn changed_fields(b: Resource, c: Resource) -> Seq<Seq<char>> {
    sorted_listing(str_keys(b.fields).union(str_keys(c.fields))).filter(
        |k: Seq<char>| !same_value(b.fields.get_spec(k), c.fields.get_spec(k)),
    )
}

/// The change entry for address `a`, if the resource changed.
pub open spec fn change_at(base: Seq<Resource>, cur: Seq<Resource>, a: Seq<char>) -> Seq<
    ChangedView,
> {
    match (last_at(base, a), last_at(cur, a)) {
        (Some(b), Some(c)) => {
            let fields = changed_fields(b, c);
            let prose = b.body@ != c.body@;
            if fields.len() > 0 || prose {
                seq![ChangedView { address: a, fields, prose }]
            } else {
                Seq::empty()
            }
        },
        _ => Seq::empty(),
    }
}

/// Addresses present now and not in the baseline, ascending.
pub open spec fn plan_added(base: Seq<Resource>, cur: Seq<Resource>) -> Seq<Seq<char>> {
    sorted_listing(addr_set(cur)).filter(|a: Seq<char>| !addr_set(base).contains(a))
}

/// Addresses in the baseline and no longer present, ascending.
pub open spec fn plan_removed(base: Seq<Resource>, cur: Seq<Resource>) -> Seq<Seq<char>> {
    sorted_listing(addr_set(base)).filter(|a: Seq<char>| !addr_set(cur).contains(a))
}

/// Changed resources, ascending by address.
pub open spec fn plan_changed(base: Seq<Resource>, cur: Seq<Resource>) -> Seq<ChangedView> {
    sorted_listing(addr_set(cur)).map_values(|a: Seq<char>| change_at(base, cur, a)).flatten()
}

/// The references to `a` among `edges`, as impacts.
pub open spec fn impacts_on(edges: Seq<EdgeView>, a: Seq<char>) -> Seq<ImpactView> {
    edges.filter(|e: EdgeView| e.to == a).map_values(
        |e: EdgeView| ImpactView { from: e.from, field: e.field, to: a },
    )
}

/// Who references what was removed (in the baseline graph) and what changed (in the
/// current graph).
pub open spec fn plan_impacts(base: Seq<Resource>, cur: Seq<Resource>) -> Seq<ImpactView> {
    plan_removed(base, cur).map_values(|a: Seq<char>| impacts_on(graph_edges(base), a)).flatten()
        + plan_changed(base, cur).map_values(
        |c: ChangedView| impacts_on(graph_edges(cur), c.address),
    ).flatten()
}

/// The number of error findings.
pub open spec fn error_count(fs: Seq<Finding>) -> nat {
    severity_count(fs, "error"@)
}

/// The index of the last resource with address `a`.
fn last_index(rs: &Vec<Resource>, a: &str) -> (r: Option<usize>)
    ensures
        r matches Some(i) ==> i < rs@.len() && last_at(rs@, a@) == Some(rs@[i as int]),
        r is None ==> last_at(rs@, a@) is None,
{
    let mut i = rs.len();
    assert(rs@.take(i as int) =~= rs@);
    while i > 0
        invariant
            i <= rs@.len(),
            last_at(rs@.take(i as int), a@) == last_at(rs@, a@),
        decreases i,
    {
        assert(rs@.take(i as int).drop_last() =~= rs@.take(i - 1));
        let ra = rs[i - 1].addr();
        if str_eq(ra.as_str(), a) {
            return Some(i - 1);
        }
        i = i - 1;
    }
    None
}

/// Adds the string keys of `m` to the ascending list `keys`.
fn add_string_keys(m: &YamlMapping, keys: &mut Vec<String>)
    requires
        sorted_distinct(old(keys).deep_view()),
    ensures
        sorted_distinct(final(keys).deep_view()),
        final(keys).deep_view().to_set() == old(keys).deep_view().to_set().union(str_keys(*m)),
{
    let ghost start = keys.deep_view().to_set();
    let ghost es = m.entries@;
    let mut i: usize = 0;
    while i < m.entries.len()
        invariant
            i <= es.len(),
            es == m.entries@,
            sorted_distinct(keys.deep_view()),
            keys.deep_view().to_set() == start.union(
                Set::new(
                    |k: Seq<char>|
                        exists|j: int| 0 <= j < i && value_str(#[trigger] es[j].key) == Some(k),
                ),
            ),
        decreases es.len() - i,
    {
        let ghost before = keys.deep_view().to_set();
        match m.entries[i].key.as_str() {
            Some(k) => {
                insert_sorted(keys, k.clone());
            },
            None => {},
        }
        assert(keys.deep_view().to_set() =~= start.union(
            Set::new(
                |k: Seq<char>|
                    exists|j: int| 0 <= j < i + 1 && value_str(#[trigger] es[j].key) == Some(k),
            ),
        )) by {
            assert forall|k: Seq<char>|
                (exists|j: int| 0 <= j < i + 1 && value_str(#[trigger] es[j].key) == Some(k))
                    <==> ((exists|j: int| 0 <= j < i && value_str(#[trigger] es[j].key) == Some(k))
                    || value_str(es[i as int].key) == Some(k)) by {
                if exists|j: int| 0 <= j < i + 1 && value_str(#[trigger] es[j].key) == Some(k) {
                    let j = choose|j: int| 0 <= j < i + 1 && value_str(#[trigger] es[j].key) == Some(k);
                    if j < i {
                    }
                }
            }
        }
        i = i + 1;
    }
    assert(Set::new(
        |k: Seq<char>| exists|j: int| 0 <= j < i && value_str(#[trigger] es[j].key) == Some(k),
    ) =~= str_keys(*m));
}

/// Whether two optional values are equal.
fn same_value_exec(x: Option<&YamlValue>, y: Option<&YamlValue>) -> (r: bool)
    ensures
        r == same_value(
            match x {
                Some(v) => Some(*v),
                None => None,
            },
            match y {
                Some(v) => Some(*v),
                None => None,
            },
        ),
{
    match (x, y) {
        (None, None) => true,
        (Some(a), Some(b)) => values_equal(a, b),
        _ => false,
    }
}

/// The envelope keys, ascending, whose values differ between `b` and `c`.
fn changed_field_names(b: &Resource, c: &Resource) -> (r: Vec<String>)
    ensures
        r.deep_view() == changed_fields(*b, *c),
{
    let mut keys: Vec<String> = Vec::new();
    add_string_keys(&b.fields, &mut keys);
    add_string_keys(&c.fields, &mut keys);
    assert(keys.deep_view().to_set() =~= str_keys(b.fields).union(str_keys(c.fields)));
    proof {
        crate::sorted::lemma_is_sorted_listing(keys.deep_view());
    }
    let ghost all = keys.deep_view();
    let ghost pred = |k: Seq<char>| !same_value(b.fields.get_spec(k), c.fields.get_spec(k));
    let mut out: Vec<String> = Vec::new();
    let mut i: usize = 0;
    while i < keys.len()
        invariant
            i <= all.len(),
            all == keys.deep_view(),
            pred == (|k: Seq<char>| !same_value(b.fields.get_spec(k), c.fields.get_spec(k))),
            out.deep_view() == all.take(i as int).filter(pred),
        decreases all.len() - i,
    {
        let k = &keys[i];
        let ghost before = out.deep_view();
        if !same_value_exec(b.fields.get(k.as_str()), c.fields.get(k.as_str())) {
            out.push(k.clone());
            assert(out.deep_view() =~= before.push(all[i as int]));
        }
        proof {
            assert(all.take(i + 1) =~= all.take(i as int).push(all[i as int]));
            all.take(i as int).lemma_filter_push(all[i as int], pred);
        }
        i = i + 1;
    }
    assert(all.take(all.len() as int) =~= all);
    out
}

/// The addresses of `list` that are not among `others`, in list order.
fn not_among(list: &Vec<String>, others: &Vec<String>) -> (r: Vec<String>)
    ensures
        r.deep_view() == list.deep_view().filter(
            |a: Seq<char>| !others.deep_view().to_set().contains(a),
        ),
{
    let ghost all = list.deep_view();
    let ghost pred = |a: Seq<char>| !others.deep_view().to_set().contains(a);
    let mut out: Vec<String> = Vec::new();
    let mut i: usize = 0;
    while i < list.len()
        invariant
            i <= all.len(),
            all == list.deep_view(),
            pred == (|a: Seq<char>| !others.deep_view().to_set().contains(a)),
            out.deep_view() == all.take(i as int).filter(pred),
        decreases all.len() - i,
    {
        let ghost before = out.deep_view();
        if !contains_str(others, list[i].as_str()) {
            out.push(list[i].clone());
            assert(out.deep_view() =~= before.push(all[i as int]));
        }
        proof {
            assert(all.take(i + 1) =~= all.take(i as int).push(all[i as int]));
            all.take(i as int).lemma_filter_push(all[i as int], pred);
        }
        i = i + 1;
    }
    assert(all.take(all.len() as int) =~= all);
    out
}

/// Appends the impacts on `a`: one for each edge of `g` that points to `a`.
fn push_impacts(out: &mut Vec<Impact>, g: &Graph, a: &str, Ghost(edges): Ghost<Seq<EdgeView>>)
    requires
        edge_views(g.edges@) == edges,
    ensures
        impact_views(final(out)@) == impact_views(old(out)@) + impacts_on(edges, a@),
{
    let es = backlinks(g, a);
    let ghost ev = es@.map_values(|e: &Edge| e@);
    assert(ev == edges.filter(|e: EdgeView| e.to == a@));
    let ghost mk = |e: EdgeView| ImpactView { from: e.from, field: e.field, to: a@ };
    let ghost start = impact_views(out@);
    let mut j: usize = 0;
    while j < es.len()
        invariant
            j <= es@.len(),
            ev == es@.map_values(|e: &Edge| e@),
            mk == (|e: EdgeView| ImpactView { from: e.from, field: e.field, to: a@ }),
            impact_views(out@) == start + ev.take(j as int).map_values(mk),
        decreases es@.len() - j,
    {
        let e = es[j];
        let imp = Impact { from: e.from.clone(), field: e.field.clone(), to: a.to_owned() };
        let ghost iv = imp@;
        let ghost before = out@;
        out.push(imp);
        assert(impact_views(out@) =~= impact_views(before).push(iv));
        assert(ev.take(j + 1).map_values(mk) =~= ev.take(j as int).map_values(mk).push(mk(ev[j as int])));
        j = j + 1;
    }
    assert(ev.take(ev.len() as int) =~= ev);
}

/// The change entry for address `a`, if the resource changed between the two workspaces.
fn push_change(out: &mut Vec<Changed>, base: &Vec<Resource>, cur: &Vec<Resource>, a: &String)
    ensures
        changed_views(final(out)@) == changed_views(old(out)@) + change_at(base@, cur@, a@),
{
    match (last_index(base, a.as_str()), last_index(cur, a.as_str())) {
        (Some(bi), Some(ci)) => {
            let fields = changed_field_names(&base[bi], &cur[ci]);
            let prose = !str_eq(base[bi].body.as_str(), cur[ci].body.as_str());
            if fields.len() > 0 || prose {
                let c = Changed { address: a.clone(), fields, prose };
                let ghost cv = c@;
                let ghost before = out@;
                out.push(c);
                assert(changed_views(out@) =~= changed_views(before) + seq![cv]);
            } else {
                assert(changed_views(out@) =~= changed_views(out@) + Seq::<ChangedView>::empty());
            }
        },
        _ => {
            assert(changed_views(out@) =~= changed_views(out@) + Seq::<ChangedView>::empty());
        },
    }
}

/// Compares the baseline workspace with the current one (both loaded and validated): the
/// addresses added and removed, the resources whose envelope or prose changed, who
/// references what changed or was removed, and how many errors the current workspace has.
pub fn plan_between(from: &str, baseline: &Workspace, current: &Workspace) -> (p: Plan)
    ensures
        p.from@ == from@,
        p.added.deep_view() == plan_added(baseline.resources@, current.resources@),
        p.removed.deep_view() == plan_removed(baseline.resources@, current.resources@),
        sorted_distinct(p.added.deep_view()),
        sorted_distinct(p.removed.deep_view()),
        changed_views(p.changed@) == plan_changed(baseline.resources@, current.resources@),
        impact_views(p.impacts@) == plan_impacts(baseline.resources@, current.resources@),
        p.resulting_errors == error_count(current.findings@),
{
    let ghost b = baseline.resources@;
    let ghost c = current.resources@;
    let base_addrs = resource_addresses(&baseline.resources);
    let cur_addrs = resource_addresses(&current.resources);
    let base_list = sorted_unique(&base_addrs);
    let cur_list = sorted_unique(&cur_addrs);
    let added = not_among(&cur_list, &base_addrs);
    let removed = not_among(&base_list, &cur_addrs);
    proof {
        crate::sorted::lemma_filter_sorted(
            cur_list.deep_view(),
            |a: Seq<char>| !base_addrs.deep_view().to_set().contains(a),
        );
        crate::sorted::lemma_filter_sorted(
            base_list.deep_view(),
            |a: Seq<char>| !cur_addrs.deep_view().to_set().contains(a),
        );
    }

    let ghost cl = cur_list.deep_view();
    let ghost f = |a: Seq<char>| change_at(b, c, a);
    let mut changed: Vec<Changed> = Vec::new();
    let mut i: usize = 0;
    while i < cur_list.len()
        invariant
            i <= cl.len(),
            cl == cur_list.deep_view(),
            b == baseline.resources@,
            c == current.resources@,
            f == (|a: Seq<char>| change_at(b, c, a)),
            changed_views(changed@) == cl.take(i as int).map_values(f).flatten(),
        decreases cl.len() - i,
    {
        push_change(&mut changed, &baseline.resources, &current.resources, &cur_list[i]);
        proof {
            assert(cl.take(i + 1) =~= cl.take(i as int).push(cl[i as int]));
            assert(cl.take(i + 1).map_values(f) =~= cl.take(i as int).map_values(f).push(f(cl[i as int])));
            cl.take(i as int).map_values(f).lemma_flatten_push(f(cl[i as int]));
        }
        i = i + 1;
    }
    assert(cl.take(cl.len() as int) =~= cl);

    let base_graph = graph(baseline);
    let cur_graph = graph(current);
    let mut impacts: Vec<Impact> = Vec::new();
    let ghost rl = removed.deep_view();
    let ghost g1 = |a: Seq<char>| impacts_on(graph_edges(b), a);
    let mut k: usize = 0;
    while k < removed.len()
        invariant
            k <= rl.len(),
            rl == removed.deep_view(),
            b == baseline.resources@,
            edge_views(base_graph.edges@) == graph_edges(b),
            g1 == (|a: Seq<char>| impacts_on(graph_edges(b), a)),
            impact_views(impacts@) == rl.take(k as int).map_values(g1).flatten(),
        decreases rl.len() - k,
    {
        push_impacts(&mut impacts, &base_graph, removed[k].as_str(), Ghost(graph_edges(b)));
        proof {
            assert(rl.take(k + 1) =~= rl.take(k as int).push(rl[k as int]));
            assert(rl.take(k + 1).map_values(g1) =~= rl.take(k as int).map_values(g1).push(g1(rl[k as int])));
            rl.take(k as int).map_values(g1).lemma_flatten_push(g1(rl[k as int]));
        }
        k = k + 1;
    }
    assert(rl.take(rl.len() as int) =~= rl);
    let ghost first_part = impact_views(impacts@);
    let ghost chv = changed_views(changed@);
    let ghost g2 = |cv: ChangedView| impacts_on(graph_edges(c), cv.address);
    let mut m: usize = 0;
    while m < changed.len()
        invariant
            m <= chv.len(),
            chv == changed_views(changed@),
            c == current.resources@,
            edge_views(cur_graph.edges@) == graph_edges(c),
            g2 == (|cv: ChangedView| impacts_on(graph_edges(c), cv.address)),
            impact_views(impacts@) == first_part + chv.take(m as int).map_values(g2).flatten(),
        decreases chv.len() - m,
    {
        push_impacts(&mut impacts, &cur_graph, changed[m].address.as_str(), Ghost(graph_edges(c)));
        proof {
            assert(chv.take(m + 1) =~= chv.take(m as int).push(chv[m as int]));
            assert(chv.take(m + 1).map_values(g2) =~= chv.take(m as int).map_values(g2).push(g2(chv[m as int])));
            chv.take(m as int).map_values(g2).lemma_flatten_push(g2(chv[m as int]));
        }
        m = m + 1;
    }
    assert(chv.take(chv.len() as int) =~= chv);
    let resulting_errors = count_severity(&current.findings, "error");
    Plan { from: from.to_owned(), added, changed, removed, impacts, resulting_errors }
}

/// The line for an added address.
pub open spec fn added_line(a: Seq<char>) -> Seq<char> {
    "+ "@ + a + "\n"@
}

/// What changed in a resource: its changed fields, then `prose` if the body changed.
pub open spec fn what_changed(c: ChangedView) -> Seq<Seq<char>> {
    if c.prose {
        c.fields.push("prose"@)
    } else {
        c.fields
    }
}

/// The line for a changed resource.
pub open spec fn changed_line(c: ChangedView) -> Seq<char> {
    "~ "@ + c.address + "    ("@ + join(what_changed(c), ", "@) + ")\n"@
}

/// The line for a removed address.
pub open spec fn removed_line(a: Seq<char>) -> Seq<char> {
    "- "@ + a + "\n"@
}

/// The line for an impact.
pub open spec fn impact_line(i: ImpactView) -> Seq<char> {
    "! "@ + i.from + "    "@ + i.field + " → "@ + i.to + "\n"@
}

/// The closing summary line.
pub open spec fn summary_line(added: nat, changed: nat, removed: nat, impacted: nat, errors: nat) -> Seq<char> {
    decimal(added) + " added · "@ + decimal(changed) + " changed · "@ + decimal(removed)
        + " removed · "@ + decimal(impacted) + " impacted · resulting errors: "@ + decimal(errors)
        + "\n"@
}

/// The text of a plan.
pub open spec fn rendered(p: Plan) -> Seq<char> {
    p.added.deep_view().map_values(|a: Seq<char>| added_line(a)).flatten()
        + changed_views(p.changed@).map_values(|c: ChangedView| changed_line(c)).flatten()
        + p.removed.deep_view().map_values(|a: Seq<char>| removed_line(a)).flatten()
        + impact_views(p.impacts@).map_values(|i: ImpactView| impact_line(i)).flatten()
        + summary_line(
        p.added@.len(),
        p.changed@.len(),
        p.removed@.len(),
        p.impacts@.len(),
        p.resulting_errors as nat,
    )
}

/// Appends one line per address, each `prefix`, the address and a newline.
fn push_address_lines(out: &mut String, list: &Vec<String>, prefix: &str, Ghost(line): Ghost<spec_fn(Seq<char>) -> Seq<char>>)
    requires
        forall|a: Seq<char>| #[trigger] line(a) == prefix@ + a + "\n"@,
    ensures
        final(out)@ == old(out)@ + list.deep_view().map_values(line).flatten(),
{
    let ghost start = out@;
    let ghost l = list.deep_view();
    let mut i: usize = 0;
    while i < list.len()
        invariant
            i <= l.len(),
            l == list.deep_view(),
            forall|a: Seq<char>| #[trigger] line(a) == prefix@ + a + "\n"@,
            out@ == start + l.take(i as int).map_values(line).flatten(),
        decreases l.len() - i,
    {
        out.append(prefix);
        out.append(list[i].as_str());
        out.append("\n");
        proof {
            assert(l.take(i + 1) =~= l.take(i as int).push(l[i as int]));
            assert(l.take(i + 1).map_values(line) =~= l.take(i as int).map_values(line).push(line(l[i as int])));
            l.take(i as int).map_values(line).lemma_flatten_push(line(l[i as int]));
            assert(line(l[i as int]) == prefix@ + l[i as int] + "\n"@);
        }
        assert(out@ =~= start + l.take(i + 1).map_values(line).flatten());
        i = i + 1;
    }
    assert(l.take(l.len() as int) =~= l);
}

/// The items of `c`'s fields, then `prose` if its body changed.
fn what_changed_list(c: &Changed) -> (what: Vec<String>)
    ensures
        what.deep_view() == what_changed(c@),
{
    let mut what: Vec<String> = Vec::new();
    let mut j: usize = 0;
    while j < c.fields.len()
        invariant
            j <= c.fields@.len(),
            what.deep_view() == c.fields.deep_view().take(j as int),
        decreases c.fields@.len() - j,
    {
        let ghost before = what.deep_view();
        let fj = c.fields[j].clone();
        assert(fj@ == c.fields.deep_view()[j as int]);
        what.push(fj);
        assert(what.deep_view() =~= before.push(c.fields.deep_view()[j as int]));
        assert(c.fields.deep_view().take(j + 1) =~= c.fields.deep_view().take(j as int).push(
            c.fields.deep_view()[j as int],
        ));
        j = j + 1;
    }
    assert(c.fields.deep_view().take(c.fields@.len() as int) =~= c.fields.deep_view());
    if c.prose {
        let ghost before = what.deep_view();
        what.push("prose".to_owned());
        assert(what.deep_view() =~= before.push("prose"@));
    }
    what
}

/// Appends the line of each changed resource.
fn push_changed_lines(out: &mut String, changed: &Vec<Changed>)
    ensures
        final(out)@ == old(out)@ + changed_views(changed@).map_values(|c: ChangedView| changed_line(c)).flatten(),
{
    let ghost start = out@;
    let ghost cv = changed_views(changed@);
    let ghost f = |c: ChangedView| changed_line(c);
    let mut i: usize = 0;
    while i < changed.len()
        invariant
            i <= cv.len(),
            cv == changed_views(changed@),
            f == (|c: ChangedView| changed_line(c)),
            out@ == start + cv.take(i as int).map_values(f).flatten(),
        decreases cv.len() - i,
    {
        let c = &changed[i];
        let what = what_changed_list(c);
        let ghost line_start = out@;
        out.append("~ ");
        out.append(c.address.as_str());
        out.append("    (");
        push_joined(out, &what, ", ");
        out.append(")\n");
        assert(out@ =~= line_start + changed_line(cv[i as int]));
        proof {
            assert(cv.take(i + 1) =~= cv.take(i as int).push(cv[i as int]));
            assert(cv.take(i + 1).map_values(f) =~= cv.take(i as int).map_values(f).push(f(cv[i as int])));
            cv.take(i as int).map_values(f).lemma_flatten_push(f(cv[i as int]));
        }
        i = i + 1;
    }
    assert(cv.take(cv.len() as int) =~= cv);
}

/// Appends the line of each impact.
fn push_impact_lines(out: &mut String, impacts: &Vec<Impact>)
    ensures
        final(out)@ == old(out)@ + impact_views(impacts@).map_values(|i: ImpactView| impact_line(i)).flatten(),
{
    let ghost start = out@;
    let ghost iv = impact_views(impacts@);
    let ghost f = |i: ImpactView| impact_line(i);
    let mut k: usize = 0;
    while k < impacts.len()
        invariant
            k <= iv.len(),
            iv == impact_views(impacts@),
            f == (|i: ImpactView| impact_line(i)),
            out@ == start + iv.take(k as int).map_values(f).flatten(),
        decreases iv.len() - k,
    {
        let imp = &impacts[k];
        let ghost line_start = out@;
        out.append("! ");
        out.append(imp.from.as_str());
        out.append("    ");
        out.append(imp.field.as_str());
        out.append(" → ");
        out.append(imp.to.as_str());
        out.append("\n");
        assert(out@ =~= line_start + impact_line(iv[k as int]));
        proof {
            assert(iv.take(k + 1) =~= iv.take(k as int).push(iv[k as int]));
            assert(iv.take(k + 1).map_values(f) =~= iv.take(k as int).map_values(f).push(f(iv[k as int])));
            iv.take(k as int).map_values(f).lemma_flatten_push(f(iv[k as int]));
        }
        k = k + 1;
    }
    assert(iv.take(iv.len() as int) =~= iv);
}

/// Appends the summary line.
fn push_summary(out: &mut String, p: &Plan)
    ensures
        final(out)@ == old(out)@ + summary_line(
            p.added@.len(),
            p.changed@.len(),
            p.removed@.len(),
            p.impacts@.len(),
            p.resulting_errors as nat,
        ),
{
    push_decimal(out, p.added.len());
    out.append(" added · ");
    push_decimal(out, p.changed.len());
    out.append(" changed · ");
    push_decimal(out, p.removed.len());
    out.append(" removed · ");
    push_decimal(out, p.impacts.len());
    out.append(" impacted · resulting errors: ");
    push_decimal(out, p.resulting_errors);
    out.append("\n");
    assert(final(out)@ =~= old(out)@ + summary_line(
        p.added@.len(),
        p.changed@.len(),
        p.removed@.len(),
        p.impacts@.len(),
        p.resulting_errors as nat,
    ));
}

/// Renders a plan for people: `+` added, `~` changed (with what changed), `-` removed, `!`
/// impacted references, and a summary line.
pub fn render(p: &Plan) -> (out: String)
    ensures
        out@ == rendered(*p),
{
    let mut out = String::new();
    push_address_lines(&mut out, &p.added, "+ ", Ghost(|a: Seq<char>| added_line(a)));
    push_changed_lines(&mut out, &p.changed);
    push_address_lines(&mut out, &p.removed, "- ", Ghost(|a: Seq<char>| removed_line(a)));
    push_impact_lines(&mut out, &p.impacts);
    push_summary(&mut out, p);
    assert(out@ =~= rendered(*p));
    out
}

} // verus!
