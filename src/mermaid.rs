//! Mermaid flowcharts of a call graph: one of functions, one of modules.
use vstd::prelude::*;
use crate::analyzer::ArchitectureAnalyzer;
use crate::code_unit::{FunctionRef, FunctionNode};
use crate::hook::{
    extension_of, file_name_of, trim_trailing_slashes, trim_trailing_slashes_exec,
    last_index_exec,
};
use crate::text::{
    replace, join, last_segment, starts_with, to_chars, from_chars, replace_chars, join_chars,
    last_segment_chars, slice_chars, extend_chars, starts_with_chars,
};

verus! {

/// The node id of a name: `::`, `/`, `.` and `-` each replaced by `_`.
pub open spec fn node_id_of(name: Seq<char>) -> Seq<char> {
    replace(
        replace(replace(replace(name, "::"@, "_"@), "/"@, "_"@), "."@, "_"@),
        "-"@,
        "_"@,
    )
}

/// `s` without the `/` chars that start it.
pub open spec fn trim_leading_slashes(s: Seq<char>) -> Seq<char>
    decreases s.len(),
{
    if s.len() > 0 && s[0] == '/' {
        trim_leading_slashes(s.drop_first())
    } else {
        s
    }
}

/// A path without the extension of its last component (and its dot).
pub open spec fn without_extension(p: Seq<char>) -> Seq<char> {
    match extension_of(p) {
        Some(e) => {
            let t = trim_trailing_slashes(p);
            t.subrange(0, t.len() - e.len() - 1)
        },
        None => p,
    }
}

/// The module of a file: its path relative to `workspace` (when under
/// it), leading `/` dropped, extension dropped, `/` turned into `::`.
pub open spec fn module_of(file_path: Seq<char>, workspace: Seq<char>) -> Seq<char> {
    let relative = if starts_with(file_path, workspace) {
        file_path.subrange(workspace.len() as int, file_path.len() as int)
    } else {
        file_path
    };
    replace(without_extension(trim_leading_slashes(relative)), "/"@, "::"@)
}

/// Number of call edges of a node.
pub open spec fn degree(n: &FunctionNode) -> int {
    n.callers.len() + n.callees.len()
}

/// Where `x` goes in `sorted` (by descending degree): after every element
/// of degree at least its own.
pub open spec fn insert_pos(sorted: Seq<&FunctionNode>, x: &FunctionNode) -> int
    decreases sorted.len(),
{
    if sorted.len() == 0 {
        0
    } else if degree(sorted.last()) >= degree(x) {
        sorted.len() as int
    } else {
        insert_pos(sorted.drop_last(), x)
    }
}

/// The nodes by descending degree, equal degrees in their original order.
pub open spec fn sort_by_degree(s: Seq<&FunctionNode>) -> Seq<&FunctionNode>
    decreases s.len(),
{
    if s.len() == 0 {
        Seq::empty()
    } else {
        let t = sort_by_degree(s.drop_last());
        t.insert(insert_pos(t, s.last()), s.last())
    }
}

/// The line of a node: `[[name]]` when nothing calls it, `([name])` when it
/// calls nothing, `[name]` otherwise.
pub open spec fn node_line(n: &FunctionNode) -> Seq<char> {
    let id = node_id_of(n.name@);
    let short = last_segment(n.name@);
    if n.callers.len() == 0 {
        "    "@ + id + "[["@ + short + "]]"@
    } else if n.callees.len() == 0 {
        "    "@ + id + "(["@ + short + "])"@
    } else {
        "    "@ + id + "["@ + short + "]"@
    }
}

/// The first node of `sel` located at `r`.
pub open spec fn target_in(sel: Seq<&FunctionNode>, r: FunctionRef) -> Option<&FunctionNode>
    decreases sel.len(),
{
    if sel.len() == 0 {
        None
    } else if sel[0].file_path@ == r.file_path@ && sel[0].line == r.line {
        Some(sel[0])
    } else {
        target_in(sel.drop_first(), r)
    }
}

/// The edge lines from `n` to the nodes of `sel` that it calls, in the
/// order of its callees (the first `k` of them).
pub open spec fn edges_from(sel: Seq<&FunctionNode>, n: &FunctionNode, k: int) -> Seq<Seq<char>>
    decreases k,
{
    if k <= 0 || k > n.callees.len() {
        Seq::empty()
    } else {
        let rest = edges_from(sel, n, k - 1);
        match target_in(sel, n.callees[k - 1]) {
            Some(t) => rest.push("    "@ + node_id_of(n.name@) + " --> "@ + node_id_of(t.name@)),
            None => rest,
        }
    }
}

/// The edge lines of the first `k` nodes of `sel`.
pub open spec fn all_edges(sel: Seq<&FunctionNode>, k: int) -> Seq<Seq<char>>
    decreases k,
{
    if k <= 0 || k > sel.len() {
        Seq::empty()
    } else {
        all_edges(sel, k - 1) + edges_from(sel, sel[k - 1], sel[k - 1].callees.len() as int)
    }
}

/// The nodes of the call-graph chart: the `max` of highest degree.
pub open spec fn chart_nodes(nodes: Seq<&FunctionNode>, max: nat) -> Seq<&FunctionNode> {
    let s = sort_by_degree(nodes);
    if s.len() > max {
        s.take(max as int)
    } else {
        s
    }
}

/// The call-graph chart of `nodes`, at most `max` of them.
pub open spec fn call_graph_text(nodes: Seq<&FunctionNode>, max: nat) -> Seq<char> {
    let sel = chart_nodes(nodes, max);
    join(
        seq!["flowchart TD"@] + sel.map_values(|n: &FunctionNode| node_line(n)) + all_edges(
            sel,
            sel.len() as int,
        ),
        "\n"@,
    )
}

/// Draws call graphs and module graphs as Mermaid flowcharts.
pub struct MermaidGenerator {
    /// Most functions a call-graph chart shows.
    pub max_nodes: usize,
}

impl MermaidGenerator {
    /// A generator showing at most 100 functions.
    pub fn new() -> (r: MermaidGenerator)
        ensures
            r.max_nodes == 100,
    {
        MermaidGenerator { max_nodes: 100 }
    }

    /// The same generator, showing at most `max` functions.
    pub fn with_max_nodes(self, max: usize) -> (r: MermaidGenerator)
        ensures
            r.max_nodes == max,
    {
        MermaidGenerator { max_nodes: max }
    }

    /// The node id of a name: `::`, `/`, `.` and `-` each replaced by `_`.
    pub fn node_id(name: &str) -> (r: String)
        ensures
            r@ == node_id_of(name@),
    {
        let v = to_chars(name);
        let r = node_id_chars(&v);
        from_chars(&r)
    }

    /// The last `::` segment of a name.
    pub fn short_name(name: &str) -> (r: String)
        ensures
            r@ == last_segment(name@),
    {
        crate::hook::short_name(name)
    }

    /// The module of a file (see `module_of`).
    pub fn extract_module(file_path: &str, workspace: &str) -> (r: String)
        ensures
            r@ == module_of(file_path@, workspace@),
    {
        let f = to_chars(file_path);
        let w = to_chars(workspace);
        let r = module_chars(&f, &w);
        from_chars(&r)
    }

    /// The module chart: a line per module (in order of first appearance),
    /// then a line per ordered pair of different modules with calls from the
    /// first to the second, giving their number (a callee counts when it is
    /// one of the analyzer's functions).
    pub fn generate_module_diagram(&self, analyzer: &ArchitectureAnalyzer, workspace: &str) -> (r:
        String)
        ensures
            r@ == module_diagram_text(
                analyzer.entries().map_values(|e: (FunctionRef, FunctionNode)| &e.1),
                workspace@,
            ),
    {
        let functions = analyzer.functions();
        let ws = to_chars(workspace);
        let mut nodes: Vec<&FunctionNode> = Vec::new();
        let mut mods: Vec<Vec<char>> = Vec::new();
        let mut i: usize = 0;
        while i < functions.len()
            invariant
                i <= functions.len(),
                ws@ == workspace@,
                functions@ == analyzer.entries(),
                nodes@ =~= functions@.take(i as int).map_values(|e: (FunctionRef, FunctionNode)| &e.1),
                mods@.map_values(|v: Vec<char>| v@) =~= node_modules(nodes@, workspace@),
            decreases functions.len() - i,
        {
            let n = &functions[i].1;
            let ghost bn = nodes@;
            let ghost bm = mods@.map_values(|v: Vec<char>| v@);
            nodes.push(n);
            let m = module_chars(&to_chars(n.file_path.as_str()), &ws);
            mods.push(m);
            proof {
                assert(mods@.map_values(|v: Vec<char>| v@) =~= bm.push(m@));
                assert(node_modules(nodes@, workspace@) =~= node_modules(bn, workspace@).push(
                    module_of(n.file_path@, workspace@),
                ));
            }
            i = i + 1;
        }
        assert(functions@.take(functions@.len() as int) =~= functions@);
        let ghost all = nodes@;
        let mut calls: Vec<(Vec<char>, Vec<char>)> = Vec::new();
        let mut e: usize = 0;
        while e < nodes.len()
            invariant
                e <= nodes.len(),
                nodes@ == all,
                ws@ == workspace@,
                calls@.map_values(|p: (Vec<char>, Vec<char>)| (p.0@, p.1@)) =~= module_calls(
                    all,
                    workspace@,
                    e as int,
                ),
            decreases nodes.len() - e,
        {
            let n = nodes[e];
            let from = module_chars(&to_chars(n.file_path.as_str()), &ws);
            let ghost before = calls@.map_values(|p: (Vec<char>, Vec<char>)| (p.0@, p.1@));
            let mut c: usize = 0;
            while c < n.callees.len()
                invariant
                    c <= n.callees.len(),
                    nodes@ == all,
                    n == all[e as int],
                    from@ == module_of(n.file_path@, workspace@),
                    ws@ == workspace@,
                    calls@.map_values(|p: (Vec<char>, Vec<char>)| (p.0@, p.1@)) =~= before
                        + module_calls_from(all, n, workspace@, c as int),
                decreases n.callees.len() - c,
            {
                match find_target(&nodes, &n.callees[c]) {
                    Some(t) => {
                        let to = module_chars(&to_chars(t.file_path.as_str()), &ws);
                        if !crate::text::chars_eq(&from, &to) {
                            let ghost b2 = calls@.map_values(|p: (Vec<char>, Vec<char>)| (p.0@, p.1@));
                            let fc = slice_chars(&from, 0, from.len());
                            assert(fc@ =~= from@);
                            calls.push((fc, to));
                            assert(calls@.map_values(|p: (Vec<char>, Vec<char>)| (p.0@, p.1@)) =~= b2.push(
                                (from@, to@),
                            ));
                        }
                    },
                    None => {},
                }
                c = c + 1;
            }
            e = e + 1;
        }
        let ghost cv = calls@.map_values(|p: (Vec<char>, Vec<char>)| (p.0@, p.1@));
        let names = tally_names(&mods);
        let (edges, counts) = tally_pairs(&calls);
        let mut lines: Vec<Vec<char>> = Vec::new();
        lines.push(to_chars("flowchart TD"));
        let ghost dn = distinct(node_modules(all, workspace@));
        let mut k: usize = 0;
        while k < names.len()
            invariant
                k <= names.len(),
                names@.map_values(|v: Vec<char>| v@) == dn,
                lines@.map_values(|v: Vec<char>| v@) =~= seq!["flowchart TD"@] + dn.take(
                    k as int,
                ).map_values(|m: Seq<char>| module_line(m)),
            decreases names.len() - k,
        {
            let m = &names[k];
            let mut l = to_chars("    ");
            extend_chars(&mut l, &node_id_chars(m));
            extend_chars(&mut l, &to_chars("["));
            extend_chars(&mut l, m);
            extend_chars(&mut l, &to_chars("]"));
            let ghost before = lines@.map_values(|v: Vec<char>| v@);
            lines.push(l);
            proof {
                assert(dn[k as int] == m@);
                assert(dn.take(k + 1) =~= dn.take(k as int).push(dn[k as int]));
                assert(lines@.map_values(|v: Vec<char>| v@) =~= before.push(l@));
            }
            k = k + 1;
        }
        assert(dn.take(dn.len() as int) =~= dn);
        let ghost head = lines@.map_values(|v: Vec<char>| v@);
        let ghost de = distinct(cv);
        let mut q: usize = 0;
        while q < edges.len()
            invariant
                q <= edges.len(),
                edges@.map_values(|p: (Vec<char>, Vec<char>)| (p.0@, p.1@)) == de,
                counts@.len() == edges@.len(),
                forall|z: int|
                    0 <= z < counts@.len() ==> #[trigger] counts@[z] as nat == count(
                        cv,
                        (edges@[z].0@, edges@[z].1@),
                    ),
                lines@.map_values(|v: Vec<char>| v@) =~= head + de.take(q as int).map_values(
                    |p: (Seq<char>, Seq<char>)| module_edge_line(p, count(cv, p)),
                ),
            decreases edges.len() - q,
        {
            let mut l = to_chars("    ");
            extend_chars(&mut l, &node_id_chars(&edges[q].0));
            extend_chars(&mut l, &to_chars(" -->|"));
            extend_chars(&mut l, &to_chars(crate::code_unit::decimal_string(counts[q] as u64).as_str()));
            extend_chars(&mut l, &to_chars("| "));
            extend_chars(&mut l, &node_id_chars(&edges[q].1));
            let ghost before = lines@.map_values(|v: Vec<char>| v@);
            lines.push(l);
            proof {
                assert(de[q as int] == (edges@[q as int].0@, edges@[q as int].1@));
                assert(de.take(q + 1) =~= de.take(q as int).push(de[q as int]));
                assert(lines@.map_values(|v: Vec<char>| v@) =~= before.push(l@));
            }
            q = q + 1;
        }
        assert(de.take(de.len() as int) =~= de);
        let nl = to_chars("\n");
        let out = join_chars(&lines, &nl);
        from_chars(&out)
    }
}

fn module_chars(f: &Vec<char>, w: &Vec<char>) -> (r: Vec<char>)
    ensures
        r@ == module_of(f@, w@),
{
    {
        let relative = if starts_with_chars(f, w) {
            slice_chars(f, w.len(), f.len())
        } else {
            slice_chars(f, 0, f.len())
        };
        assert(f@.subrange(0, f@.len() as int) =~= f@);
        let trimmed = trim_leading_slashes_chars(&relative);
        let stem = without_extension_chars(&trimmed);
        let slash: Vec<char> = vec!['/'];
        let colons: Vec<char> = vec![':', ':'];
        proof {
            reveal_strlit("/");
            reveal_strlit("::");
            assert(slash@ =~= "/"@);
            assert(colons@ =~= "::"@);
        }
        replace_chars(&stem, &slash, &colons)
    }
}

impl MermaidGenerator {
    /// The call graph as a flowchart: the `max_nodes` functions of highest
    /// degree (ties in insertion order), a node line each, then an edge line
    /// for each call between two shown functions.
    pub fn generate_call_graph(&self, analyzer: &ArchitectureAnalyzer) -> (r: String)
        ensures
            r@ == call_graph_text(
                analyzer.entries().map_values(|e: (FunctionRef, FunctionNode)| &e.1),
                self.max_nodes as nat,
            ),
    {
        let functions = analyzer.functions();
        let mut nodes: Vec<&FunctionNode> = Vec::new();
        let mut i: usize = 0;
        while i < functions.len()
            invariant
                i <= functions.len(),
                functions@ == analyzer.entries(),
                nodes@ =~= functions@.take(i as int).map_values(|e: (FunctionRef, FunctionNode)| &e.1),
            decreases functions.len() - i,
        {
            nodes.push(&functions[i].1);
            i = i + 1;
        }
        assert(functions@.take(functions@.len() as int) =~= functions@);
        let mut sorted = sort_nodes(&nodes);
        if sorted.len() > self.max_nodes {
            sorted.truncate(self.max_nodes);
        }
        let ghost sel = sorted@;
        assert(sel == chart_nodes(nodes@, self.max_nodes as nat));
        let mut lines: Vec<Vec<char>> = Vec::new();
        lines.push(to_chars("flowchart TD"));
        let mut k: usize = 0;
        while k < sorted.len()
            invariant
                k <= sorted.len(),
                sorted@ == sel,
                lines@.map_values(|v: Vec<char>| v@) =~= seq!["flowchart TD"@] + sel.take(
                    k as int,
                ).map_values(|n: &FunctionNode| node_line(n)),
            decreases sorted.len() - k,
        {
            let l = node_line_chars(sorted[k]);
            let ghost before = lines@.map_values(|v: Vec<char>| v@);
            lines.push(l);
            proof {
                assert(sel.take(k + 1) =~= sel.take(k as int).push(sel[k as int]));
                assert(lines@.map_values(|v: Vec<char>| v@) =~= before.push(l@));
            }
            k = k + 1;
        }
        assert(sel.take(sel.len() as int) =~= sel);
        let ghost head = lines@.map_values(|v: Vec<char>| v@);
        let mut e: usize = 0;
        while e < sorted.len()
            invariant
                e <= sorted.len(),
                sorted@ == sel,
                lines@.map_values(|v: Vec<char>| v@) =~= head + all_edges(sel, e as int),
            decreases sorted.len() - e,
        {
            let n = sorted[e];
            let from_id = node_id_chars(&to_chars(n.name.as_str()));
            let ghost before = lines@.map_values(|v: Vec<char>| v@);
            let mut c: usize = 0;
            while c < n.callees.len()
                invariant
                    c <= n.callees.len(),
                    sorted@ == sel,
                    n == sel[e as int],
                    from_id@ == node_id_of(n.name@),
                    lines@.map_values(|v: Vec<char>| v@) =~= before + edges_from(sel, n, c as int),
                decreases n.callees.len() - c,
            {
                match find_target(&sorted, &n.callees[c]) {
                    Some(t) => {
                        let mut l = to_chars("    ");
                        extend_chars(&mut l, &from_id);
                        extend_chars(&mut l, &to_chars(" --> "));
                        extend_chars(&mut l, &node_id_chars(&to_chars(t.name.as_str())));
                        let ghost b2 = lines@.map_values(|v: Vec<char>| v@);
                        lines.push(l);
                        assert(lines@.map_values(|v: Vec<char>| v@) =~= b2.push(l@));
                    },
                    None => {},
                }
                c = c + 1;
            }
            proof {
                assert(all_edges(sel, e + 1) == all_edges(sel, e as int) + edges_from(
                    sel,
                    sel[e as int],
                    sel[e as int].callees.len() as int,
                ));
            }
            e = e + 1;
        }
        let nl = to_chars("\n");
        let out = join_chars(&lines, &nl);
        from_chars(&out)
    }
}

impl Default for MermaidGenerator {
    fn default() -> (r: MermaidGenerator)
        ensures
            r.max_nodes == 100,
    {
        MermaidGenerator::new()
    }
}

fn node_id_chars(v: &Vec<char>) -> (r: Vec<char>)
    ensures
        r@ == node_id_of(v@),
{
    let under: Vec<char> = vec!['_'];
    let colons: Vec<char> = vec![':', ':'];
    let slash: Vec<char> = vec!['/'];
    let dot: Vec<char> = vec!['.'];
    let dash: Vec<char> = vec!['-'];
    proof {
        reveal_strlit("_");
        reveal_strlit("::");
        reveal_strlit("/");
        reveal_strlit(".");
        reveal_strlit("-");
        assert(under@ =~= "_"@);
        assert(colons@ =~= "::"@);
        assert(slash@ =~= "/"@);
        assert(dot@ =~= "."@);
        assert(dash@ =~= "-"@);
    }
    let a = replace_chars(v, &colons, &under);
    let b = replace_chars(&a, &slash, &under);
    let c = replace_chars(&b, &dot, &under);
    replace_chars(&c, &dash, &under)
}

fn node_line_chars(n: &FunctionNode) -> (r: Vec<char>)
    ensures
        r@ == node_line(n),
{
    let name = to_chars(n.name.as_str());
    let id = node_id_chars(&name);
    let short = last_segment_chars(&name);
    let (open, close) = if n.callers.len() == 0 {
        ("[[", "]]")
    } else if n.callees.len() == 0 {
        ("([", "])")
    } else {
        ("[", "]")
    };
    let mut l = to_chars("    ");
    extend_chars(&mut l, &id);
    extend_chars(&mut l, &to_chars(open));
    extend_chars(&mut l, &short);
    extend_chars(&mut l, &to_chars(close));
    l
}

fn find_target<'a>(sel: &Vec<&'a FunctionNode>, r: &FunctionRef) -> (res: Option<&'a FunctionNode>)
    ensures
        res == target_in(sel@, *r),
{
    let mut i: usize = 0;
    assert(sel@.subrange(0, sel@.len() as int) =~= sel@);
    while i < sel.len()
        invariant
            i <= sel.len(),
            target_in(sel@.subrange(i as int, sel@.len() as int), *r) == target_in(sel@, *r),
        decreases sel.len() - i,
    {
        proof {
            assert(sel@.subrange(i as int, sel@.len() as int).drop_first() =~= sel@.subrange(
                i + 1,
                sel@.len() as int,
            ));
        }
        if sel[i].line == r.line && sel[i].file_path == r.file_path {
            return Some(sel[i]);
        }
        i = i + 1;
    }
    None
}

fn sort_nodes<'a>(nodes: &Vec<&'a FunctionNode>) -> (r: Vec<&'a FunctionNode>)
    ensures
        r@ == sort_by_degree(nodes@),
{
    let mut sorted: Vec<&FunctionNode> = Vec::new();
    let mut i: usize = 0;
    while i < nodes.len()
        invariant
            i <= nodes.len(),
            sorted@ == sort_by_degree(nodes@.take(i as int)),
        decreases nodes.len() - i,
    {
        let x = nodes[i];
        let dx = x.callers.len() as u128 + x.callees.len() as u128;
        let mut j: usize = sorted.len();
        assert(sorted@.take(sorted@.len() as int) =~= sorted@);
        while j > 0 && (sorted[j - 1].callers.len() as u128 + sorted[j - 1].callees.len() as u128)
            < dx
            invariant
                j <= sorted.len(),
                dx == degree(x),
                insert_pos(sorted@.take(j as int), x) == insert_pos(sorted@, x),
            decreases j,
        {
            assert(sorted@.take(j as int).drop_last() =~= sorted@.take(j - 1));
            j = j - 1;
        }
        sorted.insert(j, x);
        proof {
            assert(nodes@.take(i + 1).drop_last() =~= nodes@.take(i as int));
        }
        i = i + 1;
    }
    assert(nodes@.take(nodes@.len() as int) =~= nodes@);
    sorted
}

fn without_extension_chars(p: &Vec<char>) -> (r: Vec<char>)
    ensures
        r@ == without_extension(p@),
{
    let t = trim_trailing_slashes_exec(p);
    let ns: usize = match last_index_exec(&t, '/', t.len()) {
        Some(k) => k + 1,
        None => 0,
    };
    let name = slice_chars(&t, ns, t.len());
    proof {
        assert(t@.subrange(0, t@.len() as int) =~= t@);
    }
    match last_index_exec(&name, '.', name.len()) {
        Some(k) => {
            if k > 0 {
                assert(name@ == file_name_of(p@));
                let ghost e = name@.subrange(k + 1, name@.len() as int);
                assert(extension_of(p@) == Some(e));
                assert(t@.len() - e.len() - 1 == ns + k);
                slice_chars(&t, 0, ns + k)
            } else {
                assert(name@ == file_name_of(p@));
                slice_chars(p, 0, p.len())
            }
        },
        None => {
            assert(name@ == file_name_of(p@));
            slice_chars(p, 0, p.len())
        },
    }
}

fn trim_leading_slashes_chars(s: &Vec<char>) -> (r: Vec<char>)
    ensures
        r@ == trim_leading_slashes(s@),
{
    let mut i: usize = 0;
    assert(s@.subrange(0, s@.len() as int) =~= s@);
    while i < s.len() && s[i] == '/'
        invariant
            i <= s.len(),
            trim_leading_slashes(s@.subrange(i as int, s@.len() as int)) == trim_leading_slashes(s@),
        decreases s.len() - i,
    {
        assert(s@.subrange(i as int, s@.len() as int).drop_first() =~= s@.subrange(
            i + 1,
            s@.len() as int,
        ));
        i = i + 1;
    }
    slice_chars(s, i, s.len())
}

/// The distinct elements of `s`, in order of first appearance.
pub open spec fn distinct<A>(s: Seq<A>) -> Seq<A>
    decreases s.len(),
{
    if s.len() == 0 {
        Seq::empty()
    } else {
        let d = distinct(s.drop_last());
        if d.contains(s.last()) {
            d
        } else {
            d.push(s.last())
        }
    }
}

/// How often `x` occurs in `s`.
pub open spec fn count<A>(s: Seq<A>, x: A) -> nat
    decreases s.len(),
{
    if s.len() == 0 {
        0
    } else {
        count(s.drop_last(), x) + if s.last() == x {
            1nat
        } else {
            0nat
        }
    }
}

/// The module of each node, in order.
pub open spec fn node_modules(nodes: Seq<&FunctionNode>, ws: Seq<char>) -> Seq<Seq<char>> {
    nodes.map_values(|n: &FunctionNode| module_of(n.file_path@, ws))
}

/// The cross-module calls of node `n`: a (from, to) module pair for each of
/// its first `k` callees that is one of `all` and lies in another module.
pub open spec fn module_calls_from(
    all: Seq<&FunctionNode>,
    n: &FunctionNode,
    ws: Seq<char>,
    k: int,
) -> Seq<(Seq<char>, Seq<char>)>
    decreases k,
{
    if k <= 0 || k > n.callees.len() {
        Seq::empty()
    } else {
        let rest = module_calls_from(all, n, ws, k - 1);
        match target_in(all, n.callees[k - 1]) {
            Some(t) => {
                let from = module_of(n.file_path@, ws);
                let to = module_of(t.file_path@, ws);
                if from != to {
                    rest.push((from, to))
                } else {
                    rest
                }
            },
            None => rest,
        }
    }
}

/// The cross-module calls of the first `k` nodes, in order.
pub open spec fn module_calls(all: Seq<&FunctionNode>, ws: Seq<char>, k: int) -> Seq<
    (Seq<char>, Seq<char>),
>
    decreases k,
{
    if k <= 0 || k > all.len() {
        Seq::empty()
    } else {
        module_calls(all, ws, k - 1) + module_calls_from(
            all,
            all[k - 1],
            ws,
            all[k - 1].callees.len() as int,
        )
    }
}

/// The line of a module.
pub open spec fn module_line(m: Seq<char>) -> Seq<char> {
    "    "@ + node_id_of(m) + "["@ + m + "]"@
}

/// The line of a module edge with its number of calls.
pub open spec fn module_edge_line(e: (Seq<char>, Seq<char>), n: nat) -> Seq<char> {
    "    "@ + node_id_of(e.0) + " -->|"@ + crate::code_unit::decimal_of(n) + "| "@ + node_id_of(e.1)
}

/// The module chart of `nodes`: a line per module, then a line per pair of
/// modules with calls between them, giving their number.
pub open spec fn module_diagram_text(nodes: Seq<&FunctionNode>, ws: Seq<char>) -> Seq<char> {
    let calls = module_calls(nodes, ws, nodes.len() as int);
    let edges = distinct(calls);
    join(
        seq!["flowchart TD"@] + distinct(node_modules(nodes, ws)).map_values(
            |m: Seq<char>| module_line(m),
        ) + edges.map_values(|e: (Seq<char>, Seq<char>)| module_edge_line(e, count(calls, e))),
        "\n"@,
    )
}

fn pair_eq(a: &(Vec<char>, Vec<char>), b: &(Vec<char>, Vec<char>)) -> (r: bool)
    ensures
        r == ((a.0@, a.1@) == (b.0@, b.1@)),
{
    crate::text::chars_eq(&a.0, &b.0) && crate::text::chars_eq(&a.1, &b.1)
}


/// The distinct module names of `items` and, in the same order, how often
/// each occurs.
fn tally_names(items: &Vec<Vec<char>>) -> (r: Vec<Vec<char>>)
    ensures
        r@.map_values(|v: Vec<char>| v@) == distinct(items@.map_values(|v: Vec<char>| v@)),
{
    let ghost iv = items@.map_values(|v: Vec<char>| v@);
    let mut out: Vec<Vec<char>> = Vec::new();
    let mut i: usize = 0;
    while i < items.len()
        invariant
            i <= items.len(),
            iv == items@.map_values(|v: Vec<char>| v@),
            out@.map_values(|v: Vec<char>| v@) == distinct(iv.take(i as int)),
        decreases items.len() - i,
    {
        let ghost ov = out@.map_values(|v: Vec<char>| v@);
        let mut found = false;
        let mut j: usize = 0;
        while j < out.len()
            invariant
                j <= out.len(),
                i < items.len(),
                iv == items@.map_values(|v: Vec<char>| v@),
                ov == out@.map_values(|v: Vec<char>| v@),
                found ==> ov.contains(iv[i as int]),
                !found ==> forall|q: int| 0 <= q < j ==> ov[q] != iv[i as int],
            decreases out.len() - j,
        {
            if crate::text::chars_eq(&out[j], &items[i]) {
                found = true;
                assert(ov[j as int] == out@[j as int]@);
                assert(iv[i as int] == items@[i as int]@);
                assert(ov[j as int] == iv[i as int]);
            } else {
                assert(ov[j as int] == out@[j as int]@);
                assert(iv[i as int] == items@[i as int]@);
            }
            j = j + 1;
        }
        proof {
            assert(iv.take(i + 1).drop_last() =~= iv.take(i as int));
            assert(iv.take(i + 1).last() == iv[i as int]);
        }
        if !found {
            let c = slice_chars(&items[i], 0, items[i].len());
            assert(items@[i as int]@.subrange(0, items@[i as int]@.len() as int) =~= items@[i as int]@);
            assert(c@ == iv[i as int]);
            out.push(c);
            proof {
                assert(out@.map_values(|v: Vec<char>| v@) =~= ov.push(iv[i as int]));
            }
        }
        i = i + 1;
    }
    assert(iv.take(items@.len() as int) =~= iv);
    out
}

/// The distinct pairs of `items`, in order of first appearance, with how
/// often each occurs.
fn tally_pairs(items: &Vec<(Vec<char>, Vec<char>)>) -> (r: (Vec<(Vec<char>, Vec<char>)>, Vec<usize>))
    ensures
        r.0@.map_values(|p: (Vec<char>, Vec<char>)| (p.0@, p.1@)) == distinct(
            items@.map_values(|p: (Vec<char>, Vec<char>)| (p.0@, p.1@)),
        ),
        r.1@.len() == r.0@.len(),
        forall|k: int|
            0 <= k < r.1@.len() ==> #[trigger] r.1@[k] as nat == count(
                items@.map_values(|p: (Vec<char>, Vec<char>)| (p.0@, p.1@)),
                (r.0@[k].0@, r.0@[k].1@),
            ),
{
    let ghost iv = items@.map_values(|p: (Vec<char>, Vec<char>)| (p.0@, p.1@));
    let mut out: Vec<(Vec<char>, Vec<char>)> = Vec::new();
    let mut counts: Vec<usize> = Vec::new();
    let mut i: usize = 0;
    while i < items.len()
        invariant
            i <= items.len(),
            iv == items@.map_values(|p: (Vec<char>, Vec<char>)| (p.0@, p.1@)),
            out@.map_values(|p: (Vec<char>, Vec<char>)| (p.0@, p.1@)) == distinct(iv.take(i as int)),
            counts@.len() == out@.len(),
            forall|k: int|
                0 <= k < counts@.len() ==> #[trigger] counts@[k] as nat == count(
                    iv.take(i as int),
                    (out@[k].0@, out@[k].1@),
                ),
            forall|k: int| 0 <= k < counts@.len() ==> #[trigger] counts@[k] <= i,
        decreases items.len() - i,
    {
        let ghost ov = out@.map_values(|p: (Vec<char>, Vec<char>)| (p.0@, p.1@));
        let ghost x = iv[i as int];
        proof {
            assert(iv.take(i + 1).drop_last() =~= iv.take(i as int));
            assert(iv.take(i + 1).last() == x);
            assert(items@[i as int].0@ == x.0 && items@[i as int].1@ == x.1);
        }
        let mut found: Option<usize> = None;
        let mut j: usize = 0;
        while j < out.len()
            invariant
                j <= out.len(),
                i < items.len(),
                iv == items@.map_values(|p: (Vec<char>, Vec<char>)| (p.0@, p.1@)),
                x == iv[i as int],
                ov == out@.map_values(|p: (Vec<char>, Vec<char>)| (p.0@, p.1@)),
                found matches Some(f) ==> f < out@.len() && ov[f as int] == x,
                found is None ==> forall|q: int| 0 <= q < j ==> ov[q] != x,
            decreases out.len() - j,
        {
            assert(ov[j as int] == (out@[j as int].0@, out@[j as int].1@));
            if found.is_none() && pair_eq(&out[j], &items[i]) {
                found = Some(j);
            }
            j = j + 1;
        }
        match found {
            Some(f) => {
                let ghost before = counts@;
                let c = counts[f];
                counts.set(f, c + 1);
                proof {
                    lemma_distinct_unique(iv.take(i as int));
                    assert forall|k: int| 0 <= k < counts@.len() implies #[trigger] counts@[k] as nat
                        == count(iv.take(i + 1), (out@[k].0@, out@[k].1@)) by {
                        assert(ov[k] == (out@[k].0@, out@[k].1@));
                        if k != f {
                            assert(ov[k] != ov[f as int]);
                        }
                    }
                    assert(ov[f as int] == x);
                    assert(ov.contains(x));
                    assert(out@.map_values(|p: (Vec<char>, Vec<char>)| (p.0@, p.1@)) =~= ov);
                }
            },
            None => {
                let c = (
                    slice_chars(&items[i].0, 0, items[i].0.len()),
                    slice_chars(&items[i].1, 0, items[i].1.len()),
                );
                out.push(c);
                counts.push(1);
                proof {
                    assert(items@[i as int].0@.subrange(0, items@[i as int].0@.len() as int)
                        =~= items@[i as int].0@);
                    assert(items@[i as int].1@.subrange(0, items@[i as int].1@.len() as int)
                        =~= items@[i as int].1@);
                    assert(out@.map_values(|p: (Vec<char>, Vec<char>)| (p.0@, p.1@)) =~= ov.push(x));
                    assert(!ov.contains(x));
                    assert forall|k: int| 0 <= k < counts@.len() implies #[trigger] counts@[k] as nat
                        == count(iv.take(i + 1), (out@[k].0@, out@[k].1@)) by {
                        if k < ov.len() {
                            assert(ov[k] == (out@[k].0@, out@[k].1@));
                        } else {
                            lemma_count_absent(iv.take(i as int), x);
                        }
                    }
                }
            },
        }
        i = i + 1;
    }
    assert(iv.take(items@.len() as int) =~= iv);
    (out, counts)
}

proof fn lemma_count_absent<A>(s: Seq<A>, x: A)
    requires
        !distinct(s).contains(x),
    ensures
        count(s, x) == 0,
    decreases s.len(),
{
    if s.len() > 0 {
        let d = distinct(s.drop_last());
        if d.contains(s.last()) {
            lemma_count_absent(s.drop_last(), x);
            assert(s.last() != x);
        } else {
            assert(d.push(s.last())[d.len() as int] == s.last());
            assert(!d.contains(x)) by {
                if d.contains(x) {
                    let q = choose|q: int| 0 <= q < d.len() && d[q] == x;
                    assert(d.push(s.last())[q] == x);
                }
            }
            lemma_count_absent(s.drop_last(), x);
        }
    }
}

proof fn lemma_distinct_unique<A>(s: Seq<A>)
    ensures
        forall|a: int, b: int|
            0 <= a < b < distinct(s).len() ==> #[trigger] distinct(s)[a] != #[trigger] distinct(s)[b],
    decreases s.len(),
{
    if s.len() > 0 {
        lemma_distinct_unique(s.drop_last());
        let d = distinct(s.drop_last());
        if !d.contains(s.last()) {
            let e = d.push(s.last());
            assert forall|a: int, b: int| 0 <= a < b < e.len() implies #[trigger] e[a] != #[trigger] e[b] by {
                if b == d.len() {
                    if e[a] == e[b] {
                        assert(d[a] == s.last());
                    }
                } else {
                    assert(e[a] == d[a] && e[b] == d[b]);
                }
            }
        }
    }
}

} // verus!
