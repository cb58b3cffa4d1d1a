//! Dependency tree expansion: the full transitive dependency closure of one
//! tool, annotated with installed/missing status, bounded by a depth
//! ceiling, and tolerant of broken branches.
use vstd::prelude::*;
use crate::types::{CliToolTemplate, DependencyNode, DependencyTree, spec_deps};
use crate::resolution::{catalog_has, catalog_index, catalog_deps, lemma_catalog_index,
    unknown_tool_msg, find_template};
use crate::text::{names_contain, str_eq};

verus! {

/// The ceiling on expansion depth; deeper chains are treated as a probable
/// data error.
pub const MAX_TREE_DEPTH: u32 = 50;

/// The exact text reported when expansion runs past the depth ceiling.
pub open spec fn too_deep_msg() -> Seq<char> {
    "Dependency tree too deep - possible circular dependency"@
}

/// The display name of the first catalog entry with the given id.
pub open spec fn catalog_name(ts: Seq<CliToolTemplate>, id: Seq<char>) -> Seq<char> {
    ts[catalog_index(ts, id)].name@
}

/// The mathematical shape of a dependency tree node.
pub ghost struct SpecNode {
    pub id: Seq<char>,
    pub name: Seq<char>,
    pub installed: bool,
    pub children: Seq<SpecNode>,
}

/// The tree that expansion yields for `id` at the given depth: `None` past
/// the depth ceiling or for an unknown id; otherwise a node whose children
/// expand the declared dependencies in order, where a self-reference or a
/// failing branch is silently skipped.
pub open spec fn spec_expand(
    ts: Seq<CliToolTemplate>,
    inst: Seq<Seq<char>>,
    id: Seq<char>,
    depth: nat,
) -> Option<SpecNode>
    decreases 50 - depth, 1int, 0int,
{
    if depth >= 50 {
        None
    } else if !catalog_has(ts, id) {
        None
    } else {
        Some(
            SpecNode {
                id: id,
                name: catalog_name(ts, id),
                installed: inst.contains(id),
                children: spec_expand_list(ts, inst, id, catalog_deps(ts, id), depth),
            },
        )
    }
}

/// The children that the dependency list `deps` of a node named `parent`
/// yields at the given depth.
pub open spec fn spec_expand_list(
    ts: Seq<CliToolTemplate>,
    inst: Seq<Seq<char>>,
    parent: Seq<char>,
    deps: Seq<Seq<char>>,
    depth: nat,
) -> Seq<SpecNode>
    decreases 50 - depth, 0int, deps.len(),
{
    if depth >= 50 || deps.len() == 0 {
        Seq::empty()
    } else {
        let rest = spec_expand_list(ts, inst, parent, deps.drop_first(), depth);
        if deps.first() == parent {
            rest
        } else {
            match spec_expand(ts, inst, deps.first(), (depth + 1) as nat) {
                Some(n) => seq![n] + rest,
                None => rest,
            }
        }
    }
}

/// How many nodes a tree holds.
pub open spec fn node_count(s: SpecNode) -> nat
    decreases s, 1int,
{
    1 + children_count(s.children)
}

/// How many nodes a forest holds.
pub open spec fn children_count(cs: Seq<SpecNode>) -> nat
    decreases cs, 0int, cs.len(),
{
    if cs.len() == 0 {
        0
    } else {
        node_count(cs.first()) + children_count(cs.drop_first())
    }
}

/// How many nodes of a tree are marked installed.
pub open spec fn installed_node_count(s: SpecNode) -> nat
    decreases s, 1int,
{
    (if s.installed {
        1nat
    } else {
        0nat
    }) + installed_children_count(s.children)
}

/// How many nodes of a forest are marked installed.
pub open spec fn installed_children_count(cs: Seq<SpecNode>) -> nat
    decreases cs, 0int, cs.len(),
{
    if cs.len() == 0 {
        0
    } else {
        installed_node_count(cs.first()) + installed_children_count(cs.drop_first())
    }
}

/// An executable node carries exactly the data of a mathematical node.
pub open spec fn matches_node(n: DependencyNode, s: SpecNode) -> bool
    decreases s, 1int,
{
    &&& n.tool_id@ == s.id
    &&& n.name@ == s.name
    &&& n.installed == s.installed
    &&& matches_children(n.dependencies@, s.children)
}

/// Executable nodes pairwise carry the data of mathematical nodes.
pub open spec fn matches_children(v: Seq<DependencyNode>, cs: Seq<SpecNode>) -> bool
    decreases cs, 0int,
{
    &&& v.len() == cs.len()
    &&& forall|i: int| 0 <= i < cs.len() ==> matches_node(v[i], #[trigger] cs[i])
}

/// Every node's installed flag agrees with membership in the installed set,
/// independent of its ancestors and descendants.
pub open spec fn installed_flags_ok(s: SpecNode, inst: Seq<Seq<char>>) -> bool
    decreases s, 1int,
{
    &&& s.installed == inst.contains(s.id)
    &&& forall|i: int|
        0 <= i < s.children.len() ==> installed_flags_ok(#[trigger] s.children[i], inst)
}

proof fn lemma_expand_list_snoc(
    ts: Seq<CliToolTemplate>,
    inst: Seq<Seq<char>>,
    parent: Seq<char>,
    deps: Seq<Seq<char>>,
    d: Seq<char>,
    depth: nat,
)
    requires
        depth < 50,
    ensures
        spec_expand_list(ts, inst, parent, deps.push(d), depth) == spec_expand_list(
            ts,
            inst,
            parent,
            deps,
            depth,
        ) + (if d == parent {
            Seq::<SpecNode>::empty()
        } else {
            match spec_expand(ts, inst, d, (depth + 1) as nat) {
                Some(n) => seq![n],
                None => Seq::<SpecNode>::empty(),
            }
        }),
    decreases deps.len(),
{
    let tail = if d == parent {
        Seq::<SpecNode>::empty()
    } else {
        match spec_expand(ts, inst, d, (depth + 1) as nat) {
            Some(n) => seq![n],
            None => Seq::<SpecNode>::empty(),
        }
    };
    if deps.len() == 0 {
        assert(deps.push(d).first() == d);
        assert(deps.push(d).drop_first() =~= Seq::<Seq<char>>::empty());
        assert(spec_expand_list(ts, inst, parent, Seq::empty(), depth) =~= Seq::<
            SpecNode,
        >::empty());
        assert(spec_expand_list(ts, inst, parent, deps.push(d), depth) =~= tail);
    } else {
        let whole = deps.push(d);
        assert(whole.first() == deps.first());
        assert(whole.drop_first() =~= deps.drop_first().push(d));
        lemma_expand_list_snoc(ts, inst, parent, deps.drop_first(), d, depth);
        let rest_whole = spec_expand_list(ts, inst, parent, whole.drop_first(), depth);
        let rest = spec_expand_list(ts, inst, parent, deps.drop_first(), depth);
        assert(rest_whole == rest + tail);
        if whole.first() == parent {
            assert(spec_expand_list(ts, inst, parent, whole, depth) == rest + tail);
            assert(spec_expand_list(ts, inst, parent, deps, depth) == rest);
        } else {
            match spec_expand(ts, inst, whole.first(), (depth + 1) as nat) {
                Some(n) => {
                    assert(spec_expand_list(ts, inst, parent, whole, depth) == seq![n] + (rest
                        + tail));
                    assert(spec_expand_list(ts, inst, parent, deps, depth) == seq![n] + rest);
                    assert(seq![n] + (rest + tail) =~= (seq![n] + rest) + tail);
                },
                None => {
                    assert(spec_expand_list(ts, inst, parent, whole, depth) == rest + tail);
                    assert(spec_expand_list(ts, inst, parent, deps, depth) == rest);
                },
            }
        }
    }
}

proof fn lemma_children_count_concat(a: Seq<SpecNode>, b: Seq<SpecNode>)
    ensures
        children_count(a + b) == children_count(a) + children_count(b),
    decreases a.len(),
{
    if a.len() == 0 {
        assert(a + b =~= b);
    } else {
        assert((a + b).first() == a.first());
        assert((a + b).drop_first() =~= a.drop_first() + b);
        lemma_children_count_concat(a.drop_first(), b);
    }
}

proof fn lemma_installed_children_count_concat(a: Seq<SpecNode>, b: Seq<SpecNode>)
    ensures
        installed_children_count(a + b) == installed_children_count(a)
            + installed_children_count(b),
    decreases a.len(),
{
    if a.len() == 0 {
        assert(a + b =~= b);
    } else {
        assert((a + b).first() == a.first());
        assert((a + b).drop_first() =~= a.drop_first() + b);
        lemma_installed_children_count_concat(a.drop_first(), b);
    }
}

/// Each installed node is a node: the installed count never exceeds the
/// node count.
pub proof fn lemma_installed_le_total(s: SpecNode)
    ensures
        installed_node_count(s) <= node_count(s),
    decreases s, 1int,
{
    lemma_installed_le_total_children(s.children);
}

pub proof fn lemma_installed_le_total_children(cs: Seq<SpecNode>)
    ensures
        installed_children_count(cs) <= children_count(cs),
    decreases cs, 0int, cs.len(),
{
    if cs.len() > 0 {
        lemma_installed_le_total(cs.first());
        lemma_installed_le_total_children(cs.drop_first());
    }
}

/// Expansion marks a node installed exactly when its id is in the supplied
/// installed set, at every node of the tree.
pub proof fn lemma_expand_installed_flags(
    ts: Seq<CliToolTemplate>,
    inst: Seq<Seq<char>>,
    id: Seq<char>,
    depth: nat,
    s: SpecNode,
)
    requires
        spec_expand(ts, inst, id, depth) == Some(s),
    ensures
        installed_flags_ok(s, inst),
    decreases 50 - depth, 1int, 0int,
{
    assert(depth < 50);
    lemma_expand_list_installed_flags(
        ts,
        inst,
        id,
        catalog_deps(ts, id),
        depth,
        s.children,
    );
}

pub proof fn lemma_expand_list_installed_flags(
    ts: Seq<CliToolTemplate>,
    inst: Seq<Seq<char>>,
    parent: Seq<char>,
    deps: Seq<Seq<char>>,
    depth: nat,
    cs: Seq<SpecNode>,
)
    requires
        spec_expand_list(ts, inst, parent, deps, depth) == cs,
    ensures
        forall|i: int| 0 <= i < cs.len() ==> installed_flags_ok(#[trigger] cs[i], inst),
    decreases 50 - depth, 0int, deps.len(),
{
    if depth >= 50 || deps.len() == 0 {
    } else {
        let rest = spec_expand_list(ts, inst, parent, deps.drop_first(), depth);
        lemma_expand_list_installed_flags(ts, inst, parent, deps.drop_first(), depth, rest);
        if deps.first() == parent {
        } else {
            match spec_expand(ts, inst, deps.first(), (depth + 1) as nat) {
                Some(n) => {
                    lemma_expand_installed_flags(ts, inst, deps.first(), (depth + 1) as nat, n);
                    assert(cs == seq![n] + rest);
                    assert(cs[0] == n);
                    assert(forall|i: int| 1 <= i < cs.len() ==> cs[i] == rest[i - 1]);
                },
                None => {},
            }
        }
    }
}

proof fn lemma_expand_list_concat(
    ts: Seq<CliToolTemplate>,
    inst: Seq<Seq<char>>,
    parent: Seq<char>,
    a: Seq<Seq<char>>,
    b: Seq<Seq<char>>,
    depth: nat,
)
    requires
        depth < 50,
    ensures
        spec_expand_list(ts, inst, parent, a + b, depth) == spec_expand_list(
            ts,
            inst,
            parent,
            a,
            depth,
        ) + spec_expand_list(ts, inst, parent, b, depth),
    decreases a.len(),
{
    if a.len() == 0 {
        assert(a + b =~= b);
        assert(spec_expand_list(ts, inst, parent, a, depth) =~= Seq::<SpecNode>::empty());
        assert(Seq::<SpecNode>::empty() + spec_expand_list(ts, inst, parent, b, depth)
            =~= spec_expand_list(ts, inst, parent, b, depth));
    } else {
        let whole = a + b;
        assert(whole.len() > 0);
        assert(whole.first() == a.first());
        assert(whole.drop_first() =~= a.drop_first() + b);
        lemma_expand_list_concat(ts, inst, parent, a.drop_first(), b, depth);
        let ra = spec_expand_list(ts, inst, parent, a.drop_first(), depth);
        let rb = spec_expand_list(ts, inst, parent, b, depth);
        if a.first() == parent {
        } else {
            match spec_expand(ts, inst, a.first(), (depth + 1) as nat) {
                Some(n) => {
                    assert(seq![n] + (ra + rb) =~= (seq![n] + ra) + rb);
                },
                None => {},
            }
        }
    }
}

/// Best-effort expansion of one tool into a node, together with the number
/// of nodes and the number of installed nodes in the subtree. A dependency
/// that is unknown, self-referential, or too deep is skipped rather than
/// failing the whole expansion.
fn build_dependency_tree_with_templates(
    templates: &Vec<CliToolTemplate>,
    installed_tools: &Vec<String>,
    tool_id: &str,
    depth: u32,
) -> (r: Result<(DependencyNode, usize, usize), String>)
    requires
        match spec_expand(templates@, installed_tools.deep_view(), tool_id@, depth as nat) {
            Some(s) => node_count(s) <= usize::MAX,
            None => true,
        },
    ensures
        ({
            let ts = templates@;
            let inst = installed_tools.deep_view();
            match (r, spec_expand(ts, inst, tool_id@, depth as nat)) {
                (Ok(out), Some(s)) => {
                    &&& matches_node(out.0, s)
                    &&& out.1 == node_count(s)
                    &&& out.2 == installed_node_count(s)
                },
                (Err(m), None) => {
                    &&& depth >= 50 ==> m@ == too_deep_msg()
                    &&& depth < 50 ==> !catalog_has(ts, tool_id@) && m@ == unknown_tool_msg(
                        tool_id@,
                    )
                },
                _ => false,
            }
        }),
    decreases 50 - depth,
{
    let ghost ts = templates@;
    let ghost inst = installed_tools.deep_view();
    if depth >= MAX_TREE_DEPTH {
        return Err("Dependency tree too deep - possible circular dependency".to_owned());
    }
    let t = match find_template(templates, tool_id) {
        Some(t) => t,
        None => {
            let mut m = "Unknown tool ID: ".to_owned();
            m.append(tool_id);
            return Err(m);
        },
    };
    let ghost s = spec_expand(ts, inst, tool_id@, depth as nat).unwrap();
    let ghost du = catalog_deps(ts, tool_id@);
    proof {
        assert(spec_expand(ts, inst, tool_id@, depth as nat) == Some(s));
        assert(s.children == spec_expand_list(ts, inst, tool_id@, du, depth as nat));
        lemma_catalog_index(ts, tool_id@);
    }
    let installed = names_contain(installed_tools, tool_id);
    let mut children: Vec<DependencyNode> = Vec::new();
    let mut total: usize = 1;
    let mut installed_count: usize = if installed {
        1
    } else {
        0
    };
    match &t.dependencies {
        Some(deps) => {
            proof {
                assert(catalog_has(ts, tool_id@));
                assert(*t == ts[catalog_index(ts, tool_id@)]);
                assert(du == crate::types::spec_deps(*t));
                assert(du == deps.deep_view());
            }
            let dl = deps.len();
            for q in 0..dl
                invariant
                    ts == templates@,
                    inst == installed_tools.deep_view(),
                    depth < 50,
                    dl == deps@.len(),
                    du == deps.deep_view(),
                    spec_expand(ts, inst, tool_id@, depth as nat) == Some(s),
                    s.children == spec_expand_list(ts, inst, tool_id@, du, depth as nat),
                    node_count(s) <= usize::MAX,
                    matches_children(
                        children@,
                        spec_expand_list(ts, inst, tool_id@, du.take(q as int), depth as nat),
                    ),
                    total == 1 + children_count(
                        spec_expand_list(ts, inst, tool_id@, du.take(q as int), depth as nat),
                    ),
                    installed_count == (if s.installed {
                        1int
                    } else {
                        0int
                    }) + installed_children_count(
                        spec_expand_list(ts, inst, tool_id@, du.take(q as int), depth as nat),
                    ),
                    installed_count <= total,
            {
                let ghost taken = spec_expand_list(
                    ts,
                    inst,
                    tool_id@,
                    du.take(q as int),
                    depth as nat,
                );
                proof {
                    // split the remaining work off the whole forest
                    assert(du =~= du.take(q as int) + du.skip(q as int));
                    lemma_expand_list_concat(
                        ts,
                        inst,
                        tool_id@,
                        du.take(q as int),
                        du.skip(q as int),
                        depth as nat,
                    );
                    lemma_children_count_concat(
                        taken,
                        spec_expand_list(ts, inst, tool_id@, du.skip(q as int), depth as nat),
                    );
                    assert(du.skip(q as int) =~= seq![du[q as int]] + du.skip(q + 1));
                    lemma_expand_list_concat(
                        ts,
                        inst,
                        tool_id@,
                        seq![du[q as int]],
                        du.skip(q + 1),
                        depth as nat,
                    );
                    assert(seq![du[q as int]].drop_first() =~= Seq::<Seq<char>>::empty());
                    assert(du.take(q + 1) =~= du.take(q as int).push(du[q as int]));
                    lemma_expand_list_snoc(
                        ts,
                        inst,
                        tool_id@,
                        du.take(q as int),
                        du[q as int],
                        depth as nat,
                    );
                }
                let ghost single = spec_expand_list(
                    ts,
                    inst,
                    tool_id@,
                    seq![du[q as int]],
                    depth as nat,
                );
                let ghost taken_next = spec_expand_list(
                    ts,
                    inst,
                    tool_id@,
                    du.take(q + 1),
                    depth as nat,
                );
                proof {
                    // evaluating the single-dependency forest
                    assert(seq![du[q as int]].first() == du[q as int]);
                    assert(seq![du[q as int]].drop_first() =~= Seq::<Seq<char>>::empty());
                    assert(spec_expand_list(
                        ts,
                        inst,
                        tool_id@,
                        Seq::<Seq<char>>::empty(),
                        depth as nat,
                    ) =~= Seq::<SpecNode>::empty());
                    if du[q as int] == tool_id@ {
                        assert(single =~= Seq::<SpecNode>::empty());
                        assert(taken + single =~= taken);
                        assert(taken_next =~= taken);
                    } else {
                        match spec_expand(ts, inst, du[q as int], (depth + 1) as nat) {
                            Some(n) => {
                                assert(single =~= seq![n]);
                                assert(taken_next == taken + single) by {
                                    assert(seq![n] + Seq::<SpecNode>::empty() =~= seq![n]);
                                };
                            },
                            None => {
                                assert(single =~= Seq::<SpecNode>::empty());
                                assert(taken + single =~= taken);
                                assert(taken_next =~= taken);
                            },
                        }
                    }
                    assert(taken_next == taken + single);
                    lemma_children_count_concat(taken, single);
                    lemma_installed_children_count_concat(taken, single);
                    let rest1 = spec_expand_list(ts, inst, tool_id@, du.skip(q as int), depth as nat);
                    let rest2 = spec_expand_list(ts, inst, tool_id@, du.skip(q + 1), depth as nat);
                    assert(s.children == taken + rest1);
                    lemma_children_count_concat(taken, rest1);
                    assert(rest1 == single + rest2);
                    lemma_children_count_concat(single, rest2);
                    assert(children_count(s.children) == children_count(taken) + children_count(
                        single,
                    ) + children_count(rest2));
                    assert(children_count(taken) + children_count(single) <= children_count(
                        s.children,
                    ));
                    // evaluating the single-dependency forest
                    assert(seq![du[q as int]].first() == du[q as int]);
                    assert(seq![du[q as int]].drop_first() =~= Seq::<Seq<char>>::empty());
                    assert(spec_expand_list(
                        ts,
                        inst,
                        tool_id@,
                        Seq::<Seq<char>>::empty(),
                        depth as nat,
                    ) =~= Seq::<SpecNode>::empty());
                }
                if !str_eq(deps[q].as_str(), tool_id) {
                    match build_dependency_tree_with_templates(
                        templates,
                        installed_tools,
                        deps[q].as_str(),
                        depth + 1,
                    ) {
                        Ok((child, ct, ci)) => {
                            proof {
                                let cn = spec_expand(
                                    ts,
                                    inst,
                                    du[q as int],
                                    (depth + 1) as nat,
                                ).unwrap();
                                assert(single =~= seq![cn]);
                                assert(seq![cn].first() == cn);
                                assert(seq![cn].drop_first() =~= Seq::<SpecNode>::empty());
                                assert(children_count(Seq::<SpecNode>::empty()) == 0);
                                assert(installed_children_count(Seq::<SpecNode>::empty()) == 0);
                                assert(children_count(single) == node_count(cn));
                                assert(installed_children_count(single) == installed_node_count(
                                    cn,
                                ));
                                lemma_installed_le_total(cn);
                            }
                            let ghost old_children = children@;
                            children.push(child);
                            total = total + ct;
                            installed_count = installed_count + ci;
                            proof {
                                assert(children@ == old_children.push(child));
                                assert forall|i: int| 0 <= i < taken_next.len() implies matches_node(
                                    children@[i],
                                    #[trigger] taken_next[i],
                                ) by {
                                    if i < taken.len() {
                                        assert(children@[i] == old_children[i]);
                                        assert(taken_next[i] == taken[i]);
                                    } else {
                                        assert(children@[i] == child);
                                        assert(taken_next[i] == single[0]);
                                    }
                                }
                            }
                        },
                        Err(_) => {
                            proof {
                                assert(spec_expand(ts, inst, du[q as int], (depth + 1) as nat)
                                    is None);
                                assert(single =~= Seq::<SpecNode>::empty());
                                assert(taken_next =~= taken);
                            }
                        },
                    }
                } else {
                    proof {
                        assert(du[q as int] == tool_id@);
                        assert(single =~= Seq::<SpecNode>::empty());
                        assert(taken_next =~= taken);
                    }
                }
            }
            proof {
                assert(du.take(dl as int) =~= du);
            }
        },
        None => {
            proof {
                assert(du =~= Seq::<Seq<char>>::empty());
                assert(s.children =~= Seq::<SpecNode>::empty());
                assert(matches_children(children@, s.children));
            }
        },
    }
    proof {
        assert(s.installed == installed);
        assert(s.id == tool_id@);
        assert(s.name == catalog_name(ts, tool_id@));
    }
    let node = DependencyNode {
        tool_id: tool_id.to_owned(),
        name: t.name.clone(),
        installed,
        dependencies: children,
    };
    proof {
        assert(matches_node(node, s));
    }
    Ok((node, total, installed_count))
}

/// What tree building promises: failure exactly for an unknown root, and
/// otherwise a tree carrying exactly the expansion of the root, with its
/// node count, installed count and their difference, and with every
/// installed flag agreeing with the installed set.
pub open spec fn tree_post(
    ts: Seq<CliToolTemplate>,
    inst: Seq<Seq<char>>,
    id: Seq<char>,
    r: Result<DependencyTree, String>,
) -> bool {
    match r {
        Ok(tree) => {
            &&& catalog_has(ts, id)
            &&& match spec_expand(ts, inst, id, 0) {
                Some(s) => {
                    &&& matches_node(tree.root, s)
                    &&& installed_flags_ok(s, inst)
                    &&& tree.total_tools == node_count(s)
                    &&& tree.installed_count == installed_node_count(s)
                    &&& tree.missing_count == node_count(s) - installed_node_count(s)
                },
                None => false,
            }
        },
        Err(m) => !catalog_has(ts, id) && m@ == unknown_tool_msg(id),
    }
}

/// Expand the full dependency tree of one tool, annotated with
/// installed/missing counts. Fails exactly when the root id is unknown;
/// broken branches below the root are omitted instead.
pub fn get_dependency_tree_with_templates(
    tool_id: &str,
    installed_tools: &Vec<String>,
    templates: &Vec<CliToolTemplate>,
) -> (r: Result<DependencyTree, String>)
    requires
        match spec_expand(templates@, installed_tools.deep_view(), tool_id@, 0) {
            Some(s) => node_count(s) <= usize::MAX,
            None => true,
        },
    ensures
        tree_post(templates@, installed_tools.deep_view(), tool_id@, r),
{
    let ghost ts = templates@;
    let ghost inst = installed_tools.deep_view();
    match build_dependency_tree_with_templates(templates, installed_tools, tool_id, 0) {
        Ok((root, total_tools, installed_count)) => {
            proof {
                let s = spec_expand(ts, inst, tool_id@, 0).unwrap();
                lemma_installed_le_total(s);
                lemma_expand_installed_flags(ts, inst, tool_id@, 0, s);
            }
            let missing_count = total_tools - installed_count;
            Ok(DependencyTree { root, total_tools, installed_count, missing_count })
        },
        Err(m) => Err(m),
    }
}

/// The tree of a known tool with no dependencies is the single node: one
/// visit, no children, and the installed count is its own flag.
pub proof fn lemma_tree_single_tool(ts: Seq<CliToolTemplate>, inst: Seq<Seq<char>>, id: Seq<char>)
    requires
        catalog_has(ts, id),
        catalog_deps(ts, id).len() == 0,
    ensures
        match spec_expand(ts, inst, id, 0) {
            Some(s) => {
                &&& s.children =~= Seq::<SpecNode>::empty()
                &&& node_count(s) == 1
                &&& installed_node_count(s) == (if inst.contains(id) {
                    1int
                } else {
                    0int
                })
            },
            None => false,
        },
{
    let s = spec_expand(ts, inst, id, 0).unwrap();
    assert(catalog_deps(ts, id) =~= Seq::<Seq<char>>::empty());
    assert(s.children =~= Seq::<SpecNode>::empty());
    assert(children_count(Seq::<SpecNode>::empty()) == 0);
    assert(installed_children_count(Seq::<SpecNode>::empty()) == 0);
}

/// In a catalog where every dependency list has at most one entry,
/// expansion trees are chains: never more nodes than the depth budget
/// leaves room for.
proof fn lemma_expand_count_short_deps(
    ts: Seq<CliToolTemplate>,
    inst: Seq<Seq<char>>,
    id: Seq<char>,
    depth: nat,
)
    requires
        forall|k: int| 0 <= k < ts.len() ==> spec_deps(#[trigger] ts[k]).len() <= 1,
    ensures
        match spec_expand(ts, inst, id, depth) {
            Some(s) => node_count(s) <= 51 - depth,
            None => true,
        },
    decreases 50 - depth,
{
    if depth >= 50 || !catalog_has(ts, id) {
    } else {
        let s = spec_expand(ts, inst, id, depth).unwrap();
        let du = catalog_deps(ts, id);
        assert(du.len() <= 1) by {
            lemma_catalog_index(ts, id);
        }
        assert(spec_expand_list(ts, inst, id, Seq::<Seq<char>>::empty(), depth) =~= Seq::<
            SpecNode,
        >::empty());
        assert(children_count(Seq::<SpecNode>::empty()) == 0);
        if du.len() == 0 {
            assert(du =~= Seq::<Seq<char>>::empty());
            assert(node_count(s) == 1);
        } else {
            assert(du.drop_first() =~= Seq::<Seq<char>>::empty());
            assert(du.first() == du[0]);
            if du[0] == id {
                assert(node_count(s) == 1);
            } else {
                match spec_expand(ts, inst, du[0], (depth + 1) as nat) {
                    Some(n) => {
                        lemma_expand_count_short_deps(ts, inst, du[0], (depth + 1) as nat);
                        assert(s.children == seq![n] + Seq::<SpecNode>::empty());
                        assert(s.children =~= seq![n]);
                        assert(seq![n].first() == n);
                        assert(seq![n].drop_first() =~= Seq::<SpecNode>::empty());
                        assert(children_count(s.children) == node_count(n));
                        assert(node_count(s) == 1 + node_count(n));
                    },
                    None => {
                        assert(node_count(s) == 1);
                    },
                }
            }
        }
    }
}

/// Expand the dependency tree of one tool against the full catalog, with
/// the installed set supplied by the caller.
pub fn get_dependency_tree(tool_id: &str, installed_tools: &Vec<String>) -> (r: Result<
    DependencyTree,
    String,
>)
    ensures
        exists|ts: Seq<CliToolTemplate>|
            #[trigger] crate::template::builtin_catalog(ts) && tree_post(
                ts,
                installed_tools.deep_view(),
                tool_id@,
                r,
            ),
{
    let templates = crate::template::list_all_templates();
    let ghost ts = templates@;
    let ghost inst = installed_tools.deep_view();
    proof {
        // the built-in dependency lists hold at most one entry each
        assert forall|k: int| 0 <= k < ts.len() implies spec_deps(#[trigger] ts[k]).len()
            <= 1 by {
            assert(spec_deps(ts[k]) == crate::template::builtin_deps()[k]);
            assert(crate::template::builtin_deps()[k].len() <= 1);
        }
        lemma_expand_count_short_deps(ts, inst, tool_id@, 0);
    }
    let r = get_dependency_tree_with_templates(tool_id, installed_tools, &templates);
    proof {
        assert(crate::template::builtin_catalog(ts) && tree_post(ts, inst, tool_id@, r));
    }
    r
}

} // verus!
