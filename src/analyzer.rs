//! Static call-graph analysis: dead-code detection and call trees over the
//! functions of a project, each keyed by its (file, line) location.
use vstd::prelude::*;
use crate::code_unit::{FunctionRef, FunctionNode};
use crate::hook::{lower_of, to_lowercase};
use crate::text::{contains_seq, contains_chars, ends_with, ends_with_chars, to_chars, str_eq};

verus! {

/// Errors of the analysis.
#[derive(Debug)]
pub enum ArchError {
    /// The language server failed.
    Lsp(String),
}

/// Which edges a call tree follows.
#[derive(Debug, Clone, Copy, PartialEq, Eq, Structural)]
pub enum CallDirection {
    /// Towards callers.
    Incoming,
    /// Towards callees.
    Outgoing,
}

/// One line of a call tree.
#[derive(Debug, Clone)]
pub struct CallTreeNode {
    pub name: String,
    pub file_path: String,
    pub line: u32,
    pub depth: usize,
}

/// The name fragments that mark an entry point (lower case).
pub open spec fn entry_patterns() -> Seq<Seq<char>> {
    seq!["main"@, "test_"@, "_test"@, "new"@, "default"@, "init"@, "setup"@, "run"@]
}

/// A lower-cased function name marks an entry point when it contains one
/// of the entry patterns.
pub open spec fn is_entry_lowered(lower: Seq<char>) -> bool {
    exists|i: int| 0 <= i < entry_patterns().len() && contains_seq(lower, #[trigger] entry_patterns()[i])
}

/// A node is an entry point when its lower-cased name contains one of the
/// entry patterns.
pub open spec fn is_entry(node: FunctionNode) -> bool {
    is_entry_lowered(lower_of(node.name@))
}

/// A node is dead when nothing calls it and it is no entry point.
pub open spec fn is_dead(node: FunctionNode) -> bool {
    node.callers.len() == 0 && !is_entry(node)
}

/// The dead nodes among `entries`, in order.
pub open spec fn dead_nodes(entries: Seq<(FunctionRef, FunctionNode)>) -> Seq<FunctionNode>
    decreases entries.len(),
{
    if entries.len() == 0 {
        Seq::empty()
    } else if is_dead(entries.last().1) {
        dead_nodes(entries.drop_last()).push(entries.last().1)
    } else {
        dead_nodes(entries.drop_last())
    }
}

/// The entry stored at a location, if any.
pub open spec fn lookup(entries: Seq<(FunctionRef, FunctionNode)>, r: FunctionRef) -> Option<
    FunctionNode,
>
    decreases entries.len(),
{
    if entries.len() == 0 {
        None
    } else if entries.last().0.same(&r) {
        Some(entries.last().1)
    } else {
        lookup(entries.drop_last(), r)
    }
}

/// The first entry whose node's name satisfies the test.
pub open spec fn first_named(
    entries: Seq<(FunctionRef, FunctionNode)>,
    test: spec_fn(Seq<char>) -> bool,
    from: int,
) -> Option<FunctionRef>
    decreases entries.len() - from,
{
    if from < 0 || from >= entries.len() {
        None
    } else if test(entries[from].1.name@) {
        Some(entries[from].0)
    } else {
        first_named(entries, test, from + 1)
    }
}

/// The location of the function called `name`: the first whose short name
/// is `name`, else the first whose name ends with `::name`.
pub open spec fn root_of(entries: Seq<(FunctionRef, FunctionNode)>, name: Seq<char>) -> Option<
    FunctionRef,
> {
    match first_named(entries, |n: Seq<char>| n == name, 0) {
        Some(r) => Some(r),
        None => first_named(entries, |n: Seq<char>| ends_with(n, seq![':', ':'] + name), 0),
    }
}

/// A call-tree line shows one of the stored functions.
pub open spec fn shows_entry(entries: Seq<(FunctionRef, FunctionNode)>, t: CallTreeNode) -> bool {
    exists|j: int|
        0 <= j < entries.len() && (#[trigger] entries[j]).1.name@ == t.name@ && entries[j].1.file_path@
            == t.file_path@ && entries[j].1.line == t.line
}

/// A call-tree line as values: name, file, line, depth.
pub open spec fn line_of(t: CallTreeNode) -> (Seq<char>, Seq<char>, u32, int) {
    (t.name@, t.file_path@, t.line, t.depth as int)
}

/// The lines of a call tree as values.
pub open spec fn lines_of(ts: Seq<CallTreeNode>) -> Seq<(Seq<char>, Seq<char>, u32, int)> {
    ts.map_values(|t: CallTreeNode| line_of(t))
}

/// A location is among the visited ones.
pub open spec fn seen(visited: Seq<FunctionRef>, r: FunctionRef) -> bool {
    exists|i: int| 0 <= i < visited.len() && (#[trigger] visited[i]).same(&r)
}

/// The edges a call tree follows out of a node.
pub open spec fn children_of(n: FunctionNode, dir: CallDirection) -> Seq<FunctionRef> {
    match dir {
        CallDirection::Incoming => n.callers@,
        CallDirection::Outgoing => n.callees@,
    }
}

/// The depth-first walk from `r` at `depth`: nothing past `max` or at a
/// visited location; else the location is visited and, when a function is
/// stored there, its line comes first, then the walks from its children
/// in order (when `depth < max`). Returns the lines and the visited
/// locations afterwards.
pub open spec fn walk(
    entries: Seq<(FunctionRef, FunctionNode)>,
    r: FunctionRef,
    dir: CallDirection,
    depth: int,
    max: int,
    visited: Seq<FunctionRef>,
) -> (Seq<(Seq<char>, Seq<char>, u32, int)>, Seq<FunctionRef>)
    decreases max - depth, 1int, 0int,
{
    if depth > max || seen(visited, r) {
        (Seq::empty(), visited)
    } else {
        let v2 = visited.push(r);
        match lookup(entries, r) {
            None => (Seq::empty(), v2),
            Some(n) => {
                let head = seq![(n.name@, n.file_path@, n.line, depth)];
                if depth < max {
                    let f = walk_children(entries, children_of(n, dir), 0, dir, depth + 1, max, v2);
                    (head + f.0, f.1)
                } else {
                    (head, v2)
                }
            },
        }
    }
}

/// The walks from `cs[i..]` at `depth`, one after another, each starting
/// from the locations the previous ones visited.
pub open spec fn walk_children(
    entries: Seq<(FunctionRef, FunctionNode)>,
    cs: Seq<FunctionRef>,
    i: int,
    dir: CallDirection,
    depth: int,
    max: int,
    visited: Seq<FunctionRef>,
) -> (Seq<(Seq<char>, Seq<char>, u32, int)>, Seq<FunctionRef>)
    decreases max - depth + 1, 0int, cs.len() - i,
{
    if depth > max || i < 0 || i >= cs.len() {
        (Seq::empty(), visited)
    } else {
        let a = walk(entries, cs[i], dir, depth, max, visited);
        let b = walk_children(entries, cs, i + 1, dir, depth, max, a.1);
        (a.0 + b.0, b.1)
    }
}

/// The functions of a project and their call relations.
pub struct ArchitectureAnalyzer {
    functions: Vec<(FunctionRef, FunctionNode)>,
}

impl ArchitectureAnalyzer {
    /// The stored functions, in insertion order.
    pub closed spec fn entries(&self) -> Seq<(FunctionRef, FunctionNode)> {
        self.functions@
    }

    /// No two stored functions share a location.
    pub open spec fn wf(&self) -> bool {
        forall|i: int, j: int|
            0 <= i < j < self.entries().len() ==> !(#[trigger] self.entries()[i]).0.same(
                &(#[trigger] self.entries()[j]).0,
            )
    }

    /// An analyzer with no functions.
    pub fn new() -> (r: ArchitectureAnalyzer)
        ensures
            r.entries().len() == 0,
            r.wf(),
    {
        ArchitectureAnalyzer { functions: Vec::new() }
    }

    /// All stored functions with their locations.
    pub fn functions(&self) -> (r: &Vec<(FunctionRef, FunctionNode)>)
        ensures
            r@ == self.entries(),
    {
        &self.functions
    }

    /// Stores `node` at `(file_path, line)`, replacing what was there.
    pub fn add_function(&mut self, file_path: &str, line: u32, node: FunctionNode)
        requires
            old(self).wf(),
        ensures
            final(self).wf(),
            forall|r: FunctionRef|
                r.file_path@ == file_path@ && r.line == line ==> lookup(final(self).entries(), r)
                    == Some(node),
            forall|r: FunctionRef|
                !(r.file_path@ == file_path@ && r.line == line) ==> lookup(final(self).entries(), r)
                    == lookup(old(self).entries(), r),
    {
        let key = FunctionRef::new(file_path.to_owned(), line);
        let ghost old_entries = self.functions@;
        let mut i: usize = 0;
        while i < self.functions.len()
            invariant
                i <= self.functions.len(),
                self.functions@ == old_entries,
                old_entries == old(self).entries(),
                old(self).wf(),
                key.file_path@ == file_path@,
                key.line == line,
                forall|j: int| 0 <= j < i ==> !(#[trigger] old_entries[j]).0.same(&key),
            decreases self.functions.len() - i,
        {
            if self.functions[i].0.same_location(&key) {
                let ghost k = key;
                self.functions.set(i, (key, node));
                proof {
                    assert(forall|a: int, b: int|
                        0 <= a < b < old_entries.len() ==> !(#[trigger] old_entries[a]).0.same(
                            &(#[trigger] old_entries[b]).0,
                        )) by {
                        assert forall|a: int, b: int|
                            0 <= a < b < old_entries.len() implies !(#[trigger] old_entries[a]).0.same(
                                &(#[trigger] old_entries[b]).0,
                            ) by {
                            assert(old_entries[a] == old(self).entries()[a]);
                            assert(old_entries[b] == old(self).entries()[b]);
                        }
                    }
                    assert forall|a: int, b: int|
                        0 <= a < b < self.entries().len() implies !(#[trigger] self.entries()[a]).0.same(
                            &(#[trigger] self.entries()[b]).0,
                        ) by {
                        assert(!old_entries[a].0.same(&old_entries[b].0));
                    }
                    assert(self.functions@ =~= old_entries.update(i as int, (k, node)));
                    assert(self.functions@.take(self.functions@.len() as int) =~= self.functions@);
                    assert(old_entries.take(old_entries.len() as int) =~= old_entries);
                    let n = old_entries.len() as int;
                    lemma_lookup_replaced(old_entries, self.functions@, i as int, k, node, n);
                    assert(self.functions@.take(n) == self.functions@);
                    assert(old_entries.take(n) == old_entries);
                    assert forall|r: FunctionRef|
                        r.file_path@ == file_path@ && r.line == line implies lookup(
                            self.entries(),
                            r,
                        ) == Some(node) by {
                        assert(r.same(&k));
                        assert(lookup(self.functions@.take(n), r) == Some(node));
                    }
                    assert forall|r: FunctionRef|
                        !(r.file_path@ == file_path@ && r.line == line) implies lookup(
                            self.entries(),
                            r,
                        ) == lookup(old(self).entries(), r) by {
                        assert(!r.same(&k));
                        assert(lookup(self.functions@.take(n), r) == lookup(old_entries.take(n), r));
                    }
                }
                return;
            }
            i = i + 1;
        }
        let ghost k = key;
        self.functions.push((key, node));
        proof {
            assert(self.functions@.drop_last() =~= old_entries);
            assert forall|a: int, b: int|
                0 <= a < b < self.entries().len() implies !(#[trigger] self.entries()[a]).0.same(
                    &(#[trigger] self.entries()[b]).0,
                ) by {
                if b < old_entries.len() {
                    assert(old_entries[a] == old(self).entries()[a]);
                    assert(old_entries[b] == old(self).entries()[b]);
                } else {
                    assert(!old_entries[a].0.same(&k));
                }
            }
            lemma_lookup_pushed(old_entries, self.functions@);
        }
    }

    /// Whether `node` is an entry point (its lower-cased name contains
    /// `main`, `test_`, `_test`, `new`, `default`, `init`, `setup` or `run`).
    pub fn is_entry_point(node: &FunctionNode) -> (r: bool)
        ensures
            r == is_entry(*node),
    {
        let lower = to_lowercase(node.name.as_str());
        is_entry_name(lower.as_str())
    }

    /// The functions that nothing calls and that are no entry points, in
    /// insertion order.
    pub fn find_dead_code(&self) -> (r: Vec<&FunctionNode>)
        ensures
            r@.len() == dead_nodes(self.entries()).len(),
            forall|k: int| 0 <= k < r@.len() ==> *(#[trigger] r@[k]) == dead_nodes(self.entries())[k],
    {
        let mut r: Vec<&FunctionNode> = Vec::new();
        let mut i: usize = 0;
        while i < self.functions.len()
            invariant
                i <= self.functions.len(),
                r@.len() == dead_nodes(self.functions@.take(i as int)).len(),
                forall|k: int|
                    0 <= k < r@.len() ==> *(#[trigger] r@[k]) == dead_nodes(
                        self.functions@.take(i as int),
                    )[k],
            decreases self.functions.len() - i,
        {
            let node = &self.functions[i].1;
            proof {
                assert(self.functions@.take(i + 1).drop_last() =~= self.functions@.take(i as int));
            }
            if node.callers.len() == 0 && !Self::is_entry_point(node) {
                r.push(node);
            }
            i = i + 1;
        }
        proof {
            assert(self.functions@.take(self.functions@.len() as int) =~= self.functions@);
        }
        r
    }

    /// The location of the function called `name`: the first whose short
    /// name is `name`, else the first whose name ends with `::name`.
    fn find_function_ref(&self, name: &str) -> (r: Option<FunctionRef>)
        ensures
            r == root_of(self.entries(), name@),
    {
        let mut i: usize = 0;
        while i < self.functions.len()
            invariant
                i <= self.functions.len(),
                first_named(self.functions@, |n: Seq<char>| n == name@, i as int) == first_named(
                    self.functions@,
                    |n: Seq<char>| n == name@,
                    0,
                ),
            decreases self.functions.len() - i,
        {
            if str_eq(self.functions[i].1.name.as_str(), name) {
                return Some(self.functions[i].0.clone_ref());
            }
            i = i + 1;
        }
        assert(first_named(self.functions@, |n: Seq<char>| n == name@, 0) is None);
        let mut suffix: Vec<char> = vec![':', ':'];
        let nv = to_chars(name);
        crate::text::extend_chars(&mut suffix, &nv);
        let mut j: usize = 0;
        while j < self.functions.len()
            invariant
                j <= self.functions.len(),
                suffix@ == seq![':', ':'] + name@,
                first_named(self.functions@, |n: Seq<char>| n == name@, 0) is None,
                first_named(self.functions@, |n: Seq<char>| ends_with(n, seq![':', ':'] + name@), j as int)
                    == first_named(
                    self.functions@,
                    |n: Seq<char>| ends_with(n, seq![':', ':'] + name@),
                    0,
                ),
            decreases self.functions.len() - j,
        {
            let n = to_chars(self.functions[j].1.name.as_str());
            if ends_with_chars(&n, &suffix) {
                return Some(self.functions[j].0.clone_ref());
            }
            j = j + 1;
        }
        None
    }

    fn find_entry(&self, r: &FunctionRef) -> (res: Option<&FunctionNode>)
        ensures
            res matches Some(n) ==> lookup(self.entries(), *r) == Some(*n),
            res is None ==> lookup(self.entries(), *r) is None,
    {
        let mut i: usize = self.functions.len();
        assert(self.functions@.take(i as int) =~= self.functions@);
        while i > 0
            invariant
                i <= self.functions.len(),
                lookup(self.functions@.take(i as int), *r) == lookup(self.functions@, *r),
            decreases i,
        {
            proof {
                assert(self.functions@.take(i as int).drop_last() =~= self.functions@.take(i - 1));
            }
            if self.functions[i - 1].0.same_location(r) {
                return Some(&self.functions[i - 1].1);
            }
            i = i - 1;
        }
        None
    }

    /// The call tree from the function called `root` (see `root_of`),
    /// depth first, following callers or callees down to `max_depth`, each
    /// location visited once.
    pub fn get_call_tree(&self, root: &str, direction: CallDirection, max_depth: usize) -> (r: Vec<
        CallTreeNode,
    >)
        ensures
            root_of(self.entries(), root@) is None ==> r@.len() == 0,
            root_of(self.entries(), root@) matches Some(k) ==> (lookup(self.entries(), k) matches Some(
                n,
            ) ==> r@.len() >= 1 && r@[0].name@ == n.name@ && r@[0].file_path@ == n.file_path@
                && r@[0].line == n.line && r@[0].depth == 0),
            forall|i: int| 0 <= i < r@.len() ==> (#[trigger] r@[i]).depth <= max_depth,
            forall|i: int| 0 <= i < r@.len() ==> shows_entry(self.entries(), #[trigger] r@[i]),
            lines_of(r@) == match root_of(self.entries(), root@) {
                None => Seq::empty(),
                Some(k) => walk(self.entries(), k, direction, 0, max_depth as int, Seq::empty()).0,
            },
    {
        let mut result: Vec<CallTreeNode> = Vec::new();
        assert(lines_of(result@) =~= Seq::empty());
        let mut visited: Vec<FunctionRef> = Vec::new();
        match self.find_function_ref(root) {
            Some(start) => {
                self.build_tree(&start, direction, 0, max_depth, &mut visited, &mut result);
                assert(lines_of(result@) =~= walk(
                    self.entries(),
                    start,
                    direction,
                    0,
                    max_depth as int,
                    Seq::empty(),
                ).0);
            },
            None => {},
        }
        result
    }

    fn build_tree(
        &self,
        func_ref: &FunctionRef,
        direction: CallDirection,
        depth: usize,
        max_depth: usize,
        visited: &mut Vec<FunctionRef>,
        result: &mut Vec<CallTreeNode>,
    )
        requires
            depth <= max_depth,
        ensures
            lines_of(final(result)@) == lines_of(old(result)@) + walk(
                self.entries(),
                *func_ref,
                direction,
                depth as int,
                max_depth as int,
                old(visited)@,
            ).0,
            final(visited)@ == walk(
                self.entries(),
                *func_ref,
                direction,
                depth as int,
                max_depth as int,
                old(visited)@,
            ).1,
            final(result)@.len() >= old(result)@.len(),
            forall|i: int| 0 <= i < old(result)@.len() ==> final(result)@[i] == old(result)@[i],
            forall|i: int|
                old(result)@.len() <= i < final(result)@.len() ==> (#[trigger] final(result)@[i]).depth
                    <= max_depth && depth <= final(result)@[i].depth,
            forall|i: int|
                old(result)@.len() <= i < final(result)@.len() ==> shows_entry(
                    self.entries(),
                    #[trigger] final(result)@[i],
                ),
            (forall|v: int| 0 <= v < old(visited)@.len() ==> !old(visited)@[v].same(func_ref))
                ==> (lookup(self.entries(), *func_ref) matches Some(n) ==> final(result)@.len()
                > old(result)@.len() && final(result)@[old(result)@.len() as int].name@ == n.name@
                && final(result)@[old(result)@.len() as int].file_path@ == n.file_path@
                && final(result)@[old(result)@.len() as int].line == n.line
                && final(result)@[old(result)@.len() as int].depth == depth),
        decreases max_depth - depth,
    {
        let mut v: usize = 0;
        while v < visited.len()
            invariant
                v <= visited.len(),
                forall|k: int| 0 <= k < v ==> !visited@[k].same(func_ref),
            decreases visited.len() - v,
        {
            if visited[v].same_location(func_ref) {
                proof {
                    assert(visited@[v as int].same(func_ref));
                    assert(seen(visited@, *func_ref));
                    assert(lines_of(old(result)@) + Seq::<(Seq<char>, Seq<char>, u32, int)>::empty()
                        =~= lines_of(old(result)@));
                }
                return;
            }
            v = v + 1;
        }
        assert(!seen(old(visited)@, *func_ref));
        visited.push(func_ref.clone_ref());
        let ghost v2 = visited@;
        assert(v2 == old(visited)@.push(*func_ref));
        match self.find_entry(func_ref) {
            None => {
                assert(lines_of(old(result)@) + Seq::<(Seq<char>, Seq<char>, u32, int)>::empty()
                    =~= lines_of(old(result)@));
            },
            Some(node) => {
                proof {
                    lemma_lookup_member(self.entries(), *func_ref);
                }
                let ghost before = result@;
                let t = CallTreeNode {
                    name: node.name.clone(),
                    file_path: node.file_path.clone(),
                    line: node.line,
                    depth,
                };
                assert(shows_entry(self.entries(), t));
                assert(t.name@ == node.name@ && t.file_path@ == node.file_path@);
                result.push(t);
                assert(result@ == before.push(t));
                assert(result@[old(result)@.len() as int] == t);
                let ghost head = seq![(node.name@, node.file_path@, node.line, depth as int)];
                assert(lines_of(result@) =~= lines_of(old(result)@) + head);
                if depth < max_depth {
                    let children = match direction {
                        CallDirection::Incoming => &node.callers,
                        CallDirection::Outgoing => &node.callees,
                    };
                    let ghost cs = children_of(*node, direction);
                    assert(children@ == cs);
                    let ghost base = lines_of(result@);
                    let ghost full = walk_children(
                        self.entries(),
                        cs,
                        0,
                        direction,
                        depth + 1,
                        max_depth as int,
                        v2,
                    );
                    let ghost start = result@;
                    let mut c: usize = 0;
                    while c < children.len()
                        invariant
                            depth < max_depth,
                            children@ == cs,
                            lines_of(result@) + walk_children(
                                self.entries(),
                                cs,
                                c as int,
                                direction,
                                depth + 1,
                                max_depth as int,
                                visited@,
                            ).0 == base + full.0,
                            walk_children(
                                self.entries(),
                                cs,
                                c as int,
                                direction,
                                depth + 1,
                                max_depth as int,
                                visited@,
                            ).1 == full.1,
                            result@.len() >= start.len(),
                            start.len() == old(result)@.len() + 1,
                            forall|i: int| 0 <= i < start.len() ==> result@[i] == start[i],
                            forall|i: int| 0 <= i < old(result)@.len() ==> result@[i] == old(result)@[i],
                            forall|i: int|
                                old(result)@.len() <= i < result@.len() ==> (#[trigger] result@[i]).depth
                                    <= max_depth && depth <= result@[i].depth,
                            forall|i: int|
                                old(result)@.len() <= i < result@.len() ==> shows_entry(
                                    self.entries(),
                                    #[trigger] result@[i],
                                ),
                        decreases children.len() - c,
                    {
                        let ghost lines_before = lines_of(result@);
                        let ghost vis_before = visited@;
                        self.build_tree(&children[c], direction, depth + 1, max_depth, visited, result);
                        proof {
                            let a = walk(
                                self.entries(),
                                cs[c as int],
                                direction,
                                depth + 1,
                                max_depth as int,
                                vis_before,
                            );
                            let rest = walk_children(
                                self.entries(),
                                cs,
                                c + 1,
                                direction,
                                depth + 1,
                                max_depth as int,
                                a.1,
                            );
                            assert(visited@ == a.1);
                            assert(lines_of(result@) == lines_before + a.0);
                            assert((lines_before + a.0) + rest.0 =~= lines_before + (a.0 + rest.0));
                        }
                        c = c + 1;
                    }
                    proof {
                        assert(lines_of(result@) + Seq::<(Seq<char>, Seq<char>, u32, int)>::empty()
                            =~= lines_of(result@));
                        assert((lines_of(old(result)@) + head) + full.0 =~= lines_of(old(result)@) + (
                        head + full.0));
                    }
                }
            },
        }
    }
}

impl FunctionRef {
    /// A copy of this reference.
    pub fn clone_ref(&self) -> (r: FunctionRef)
        ensures
            r.same(self),
            r == *self,
    {
        FunctionRef { file_path: self.file_path.clone(), line: self.line }
    }
}

/// Whether a lower-cased name marks an entry point: it contains `main`,
/// `test_`, `_test`, `new`, `default`, `init`, `setup` or `run`.
pub fn is_entry_name(lower: &str) -> (r: bool)
    ensures
        r == is_entry_lowered(lower@),
{
    let s = to_chars(lower);
    let pats: Vec<&str> = vec!["main", "test_", "_test", "new", "default", "init", "setup", "run"];
    assert(pats@.map_values(|p: &str| p@) =~= entry_patterns());
    let mut i: usize = 0;
    while i < pats.len()
        invariant
            i <= pats.len(),
            s@ == lower@,
            pats@.map_values(|p: &str| p@) == entry_patterns(),
            forall|k: int| 0 <= k < i ==> !contains_seq(lower@, #[trigger] entry_patterns()[k]),
        decreases pats.len() - i,
    {
        let p = to_chars(pats[i]);
        assert(p@ == entry_patterns()[i as int]) by {
            assert(pats@.map_values(|p: &str| p@)[i as int] == pats@[i as int]@);
        }
        if contains_chars(&s, &p) {
            return true;
        }
        i = i + 1;
    }
    false
}

proof fn lemma_lookup_member(entries: Seq<(FunctionRef, FunctionNode)>, r: FunctionRef)
    ensures
        lookup(entries, r) matches Some(n) ==> exists|j: int|
            0 <= j < entries.len() && (#[trigger] entries[j]).1 == n,
    decreases entries.len(),
{
    if entries.len() > 0 && !entries.last().0.same(&r) {
        lemma_lookup_member(entries.drop_last(), r);
        if let Some(n) = lookup(entries.drop_last(), r) {
            let j = choose|j: int| 0 <= j < entries.drop_last().len() && (#[trigger] entries.drop_last()[j]).1 == n;
            assert(entries[j].1 == n);
        }
    } else if entries.len() > 0 {
        assert(entries[entries.len() - 1].1 == entries.last().1);
    }
}

proof fn lemma_lookup_pushed(old_entries: Seq<(FunctionRef, FunctionNode)>, new_entries: Seq<(FunctionRef, FunctionNode)>)
    requires
        new_entries.len() == old_entries.len() + 1,
        new_entries.drop_last() == old_entries,
    ensures
        forall|r: FunctionRef|
            !new_entries.last().0.same(&r) ==> lookup(new_entries, r) == lookup(old_entries, r),
        lookup(new_entries, new_entries.last().0) == Some(new_entries.last().1),
{
}

proof fn lemma_lookup_replaced(
    old_entries: Seq<(FunctionRef, FunctionNode)>,
    new_entries: Seq<(FunctionRef, FunctionNode)>,
    i: int,
    key: FunctionRef,
    node: FunctionNode,
    n: int,
)
    requires
        0 <= i < n <= old_entries.len(),
        new_entries == old_entries.update(i, (key, node)),
        old_entries[i].0.same(&key),
        forall|a: int, b: int|
            0 <= a < b < old_entries.len() ==> !(#[trigger] old_entries[a]).0.same(
                &(#[trigger] old_entries[b]).0,
            ),
    ensures
        forall|r: FunctionRef| r.same(&key) ==> lookup(new_entries.take(n), r) == Some(node),
        forall|r: FunctionRef|
            !r.same(&key) ==> lookup(new_entries.take(n), r) == lookup(old_entries.take(n), r),
    decreases n,
{
    let nt = new_entries.take(n);
    let ot = old_entries.take(n);
    assert(nt.drop_last() =~= new_entries.take(n - 1));
    assert(ot.drop_last() =~= old_entries.take(n - 1));
    if n - 1 == i {
        assert(nt.last() == (key, node));
        assert forall|r: FunctionRef| !r.same(&key) implies lookup(nt, r) == lookup(ot, r) by {
            assert(!nt.last().0.same(&r));
            assert(!ot.last().0.same(&r));
            assert(new_entries.take(n - 1) =~= old_entries.take(n - 1));
        }
    } else {
        lemma_lookup_replaced(old_entries, new_entries, i, key, node, n - 1);
        assert(nt.last() == ot.last());
        assert(!old_entries[n - 1].0.same(&old_entries[i].0));
        assert(!nt.last().0.same(&key));
    }
}

} // verus!
