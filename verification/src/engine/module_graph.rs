//! The graph of a project's modules and what each depends on, with cycle
//! detection and a topological order.
use vstd::prelude::*;
use vstd::string::StringExecFns;
use crate::strmap::StrMap;
use crate::text::{str_eq, owned};
use crate::jetcrab::module::{str_views, copy_strings};

verus! {

/// The graph by characters: the dependencies of each module.
pub open spec fn dep_graph(m: StrMap<Vec<String>>) -> Map<Seq<char>, Seq<Seq<char>>> {
    m@.map_values(|v: Vec<String>| str_views(v@))
}

/// Whether module `x` depends on `d`.
pub open spec fn edge(g: Map<Seq<char>, Seq<Seq<char>>>, x: Seq<char>, d: Seq<char>) -> bool {
    g.dom().contains(x) && g[x].contains(d)
}

/// The `i`-th module of `p` depends on the next.
pub open spec fn step(g: Map<Seq<char>, Seq<Seq<char>>>, p: Seq<Seq<char>>, i: int) -> bool {
    edge(g, p[i], p[i + 1])
}

/// Each module of `p` depends on the next.
pub open spec fn is_path(g: Map<Seq<char>, Seq<Seq<char>>>, p: Seq<Seq<char>>) -> bool {
    forall|i: int| 0 <= i < p.len() - 1 ==> #[trigger] step(g, p, i)
}

/// A cycle: a nonempty path whose last module depends on its first.
pub open spec fn is_cycle(g: Map<Seq<char>, Seq<Seq<char>>>, c: Seq<Seq<char>>) -> bool {
    c.len() > 0 && is_path(g, c) && edge(g, c.last(), c[0])
}

/// Whether the graph has a cycle.
pub open spec fn has_cycle(g: Map<Seq<char>, Seq<Seq<char>>>) -> bool {
    exists|c: Seq<Seq<char>>| is_cycle(g, c)
}

/// A module of the graph, or a dependency of one.
pub open spec fn is_node(g: Map<Seq<char>, Seq<Seq<char>>>, x: Seq<char>) -> bool {
    g.dom().contains(x) || exists|k: Seq<char>| edge(g, k, x)
}

/// Every dependency of a module of `order` is in `order`, after it.
pub open spec fn topo_order(g: Map<Seq<char>, Seq<Seq<char>>>, order: Seq<Seq<char>>) -> bool {
    &&& forall|i: int, d: Seq<char>| 0 <= i < order.len() && #[trigger] edge(g, order[i], d) ==> order.contains(d)
    &&& forall|i: int, j: int|
        0 <= i < order.len() && 0 <= j < order.len() && #[trigger] edge(g, order[i], order[j]) ==> i < j
}

/// The message for a cycle found along the dependency of `m` on `d`.
pub open spec fn cycle_message(m: Seq<char>, d: Seq<char>) -> Seq<char> {
    "Circular dependency detected: "@ + m + " -> "@ + d
}

/// The modules in order, each followed by its dependencies.
pub open spec fn all_nodes(ks: Seq<Seq<char>>, g: Map<Seq<char>, Seq<Seq<char>>>) -> Seq<Seq<char>>
    decreases ks.len(),
{
    if ks.len() == 0 {
        Seq::empty()
    } else {
        all_nodes(ks.drop_last(), g) + seq![ks.last()] + g[ks.last()]
    }
}

/// The nodes listed hold each module of `ks` and its dependencies.
proof fn lemma_all_nodes(ks: Seq<Seq<char>>, g: Map<Seq<char>, Seq<Seq<char>>>, i: int)
    requires
        0 <= i < ks.len(),
    ensures
        all_nodes(ks, g).contains(ks[i]),
        forall|d: Seq<char>| g[ks[i]].contains(d) ==> all_nodes(ks, g).contains(d),
    decreases ks.len(),
{
    let a = all_nodes(ks.drop_last(), g);
    let whole = all_nodes(ks, g);
    if i == ks.len() - 1 {
        assert(whole[a.len() as int] == ks[i]);
        assert forall|d: Seq<char>| g[ks[i]].contains(d) implies whole.contains(d) by {
            let k = choose|k: int| 0 <= k < g[ks[i]].len() && g[ks[i]][k] == d;
            assert(whole[a.len() + 1 + k] == d);
        }
    } else {
        lemma_all_nodes(ks.drop_last(), g, i);
        assert(ks.drop_last()[i] == ks[i]);
        assert forall|x: Seq<char>| a.contains(x) implies whole.contains(x) by {
            let k = choose|k: int| 0 <= k < a.len() && a[k] == x;
            assert(whole[k] == x);
        }
    }
}

/// The modules and dependencies of a graph whose modules are `ks` all lie
/// in the listed nodes.
proof fn lemma_nodes_listed(ks: Seq<Seq<char>>, g: Map<Seq<char>, Seq<Seq<char>>>)
    requires
        forall|k: Seq<char>| g.dom().contains(k) ==> ks.contains(k),
    ensures
        forall|x: Seq<char>| is_node(g, x) ==> all_nodes(ks, g).to_set().contains(x),
        all_nodes(ks, g).to_set().finite(),
{
    assert forall|x: Seq<char>| is_node(g, x) implies all_nodes(ks, g).to_set().contains(x) by {
        if g.dom().contains(x) {
            assert(ks.contains(x));
            let i = choose|i: int| 0 <= i < ks.len() && ks[i] == x;
            lemma_all_nodes(ks, g, i);
        } else {
            let k = choose|k: Seq<char>| edge(g, k, x);
            assert(ks.contains(k));
            let i = choose|i: int| 0 <= i < ks.len() && ks[i] == k;
            lemma_all_nodes(ks, g, i);
        }
    }
    vstd::seq_lib::seq_to_set_is_finite(all_nodes(ks, g));
}

/// A list without repeats, within `u`.
pub open spec fn listed_in(s: Seq<Seq<char>>, u: Set<Seq<char>>) -> bool {
    s.no_duplicates() && forall|i: int| 0 <= i < s.len() ==> u.contains(#[trigger] s[i])
}

/// The state of a depth-first search: `s` is the path of modules being
/// visited, `r` the modules finished, in the order they finished. Every
/// dependency of a finished module has been reached; when no cycle was
/// found, each was finished before it.
pub open spec fn search_state(
    g: Map<Seq<char>, Seq<Seq<char>>>,
    u: Set<Seq<char>>,
    s: Seq<Seq<char>>,
    r: Seq<Seq<char>>,
    no_cycle: bool,
) -> bool {
    &&& listed_in(s, u)
    &&& listed_in(r, u)
    &&& forall|i: int, j: int| 0 <= i < s.len() && 0 <= j < r.len() ==> #[trigger] s[i] != #[trigger] r[j]
    &&& is_path(g, s)
    &&& forall|i: int, d: Seq<char>|
        0 <= i < r.len() && #[trigger] edge(g, r[i], d) ==> r.contains(d) || s.contains(d)
    &&& no_cycle ==> forall|i: int, d: Seq<char>| 0 <= i < r.len() && #[trigger] edge(g, r[i], d) ==> r.contains(d)
    &&& no_cycle ==> forall|i: int, j: int|
        0 <= i < r.len() && 0 <= j < r.len() && #[trigger] edge(g, r[i], r[j]) ==> j < i
}

/// Each of the lists is a cycle.
pub open spec fn all_cycles(g: Map<Seq<char>, Seq<Seq<char>>>, cs: Seq<Vec<String>>) -> bool {
    forall|i: int| 0 <= i < cs.len() ==> is_cycle(g, str_views(#[trigger] cs[i]@))
}

/// Less of `u` is left unvisited once more is visited.
proof fn lemma_fewer_left(u: Set<Seq<char>>, a: Set<Seq<char>>, b: Set<Seq<char>>, m: Seq<char>)
    requires
        u.finite(),
        a.subset_of(b),
        b.contains(m),
        !a.contains(m),
        u.contains(m),
    ensures
        u.difference(b).len() < u.difference(a).len(),
{
    let da = u.difference(a);
    let db = u.difference(b);
    assert(db.subset_of(da.remove(m)));
    vstd::set_lib::lemma_len_subset(db, da.remove(m));
    vstd::set_lib::lemma_len_subset(da, u);
}

/// Where `x` stands in `order`.
pub open spec fn pos_of(order: Seq<Seq<char>>, x: Seq<char>) -> int {
    choose|p: int| 0 <= p < order.len() && order[p] == x
}

/// Positions grow along a chain whose steps each go forward.
proof fn lemma_chain(order: Seq<Seq<char>>, c: Seq<Seq<char>>, k: int)
    requires
        0 <= k < c.len(),
        forall|i: int| 0 <= i < c.len() - 1 ==> #[trigger] pos_of(order, c[i]) < pos_of(order, c[i + 1]),
    ensures
        pos_of(order, c[0]) <= pos_of(order, c[k]),
    decreases k,
{
    if k > 0 {
        lemma_chain(order, c, k - 1);
        assert(pos_of(order, c[k - 1]) < pos_of(order, c[k]));
    }
}

/// A list in topological order that holds every module shows the graph has
/// no cycle.
pub proof fn lemma_topo_order_acyclic(g: Map<Seq<char>, Seq<Seq<char>>>, order: Seq<Seq<char>>)
    requires
        topo_order(g, order),
        forall|k: Seq<char>| g.dom().contains(k) ==> order.contains(k),
    ensures
        !has_cycle(g),
{
    if has_cycle(g) {
        let c = choose|c: Seq<Seq<char>>| is_cycle(g, c);
        let n = c.len();
        assert forall|i: int| 0 <= i < n implies order.contains(#[trigger] c[i]) by {
            if i < n - 1 {
                assert(step(g, c, i));
            }
        }
        assert forall|i: int| 0 <= i < n implies 0 <= #[trigger] pos_of(order, c[i]) < order.len() && order[pos_of(order, c[i])] == c[i] by {
            assert(order.contains(c[i]));
        }
        assert forall|i: int| 0 <= i < n - 1 implies #[trigger] pos_of(order, c[i]) < pos_of(order, c[i + 1]) by {
            assert(step(g, c, i));
            assert(0 <= pos_of(order, c[i + 1]) < order.len());
            assert(0 <= pos_of(order, c[i]) < order.len());
            assert(edge(g, order[pos_of(order, c[i])], order[pos_of(order, c[i + 1])]));
        }
        lemma_chain(order, c, n - 1);
        assert(0 <= pos_of(order, c[n - 1]) < order.len());
        assert(0 <= pos_of(order, c[0]) < order.len());
        assert(edge(g, order[pos_of(order, c[n - 1])], order[pos_of(order, c[0])]));
    }
}

/// Every listed node is a module or a dependency of one.
proof fn lemma_listed_are_nodes(ks: Seq<Seq<char>>, g: Map<Seq<char>, Seq<Seq<char>>>)
    requires
        forall|i: int| 0 <= i < ks.len() ==> g.dom().contains(#[trigger] ks[i]),
    ensures
        forall|x: Seq<char>| all_nodes(ks, g).contains(x) ==> is_node(g, x),
    decreases ks.len(),
{
    if ks.len() > 0 {
        let a = all_nodes(ks.drop_last(), g);
        let k = ks.last();
        assert forall|i: int| 0 <= i < ks.drop_last().len() implies g.dom().contains(#[trigger] ks.drop_last()[i]) by {
            assert(ks.drop_last()[i] == ks[i]);
        }
        lemma_listed_are_nodes(ks.drop_last(), g);
        assert forall|x: Seq<char>| all_nodes(ks, g).contains(x) implies is_node(g, x) by {
            let w = choose|w: int| 0 <= w < all_nodes(ks, g).len() && all_nodes(ks, g)[w] == x;
            if w < a.len() {
                assert(a[w] == x);
            } else if w == a.len() {
                assert(x == k);
            } else {
                assert(g[k][w - a.len() - 1] == x);
                assert(edge(g, k, x));
            }
        }
    }
}

/// Whether `v` holds `s`, and where.
fn find_str(v: &Vec<String>, s: &str) -> (r: Option<usize>)
    ensures
        match r {
            Some(i) => i < v@.len() && v@[i as int]@ == s@,
            None => !str_views(v@).contains(s@),
        },
{
    let mut i: usize = 0;
    while i < v.len()
        invariant
            i <= v@.len(),
            forall|j: int| 0 <= j < i ==> v@[j]@ != s@,
        decreases v@.len() - i,
    {
        if str_eq(v[i].as_str(), s) {
            return Some(i);
        }
        i = i + 1;
    }
    proof {
        if str_views(v@).contains(s@) {
            let j = choose|j: int| 0 <= j < str_views(v@).len() && str_views(v@)[j] == s@;
            assert(v@[j]@ == s@);
        }
    }
    None
}

/// The modules of a project and what each imports.
#[derive(Debug)]
pub struct ModuleGraph {
    modules: StrMap<Vec<String>>,
}

impl ModuleGraph {
    /// The graph: the dependencies of each module.
    pub closed spec fn graph(&self) -> Map<Seq<char>, Seq<Seq<char>>> {
        dep_graph(self.modules)
    }

    /// The modules in the order they were first added.
    pub closed spec fn module_order(&self) -> Seq<Seq<char>> {
        self.modules.key_seq()
    }

    /// Every module and dependency, as a finite set.
    closed spec fn universe(&self) -> Set<Seq<char>> {
        all_nodes(self.modules.key_seq(), self.graph()).to_set()
    }

    /// The universe is finite and holds every node.
    proof fn lemma_universe(&self)
        requires
            self.modules.inv(),
        ensures
            self.universe().finite(),
            forall|x: Seq<char>| is_node(self.graph(), x) <==> self.universe().contains(x),
            forall|k: Seq<char>| self.graph().dom().contains(k) <==> self.module_order().contains(k),
    {
        self.modules.lemma_keys();
        lemma_nodes_listed(self.modules.key_seq(), self.graph());
        self.modules.lemma_key_seq_in_dom();
        assert(self.graph().dom() =~= self.modules@.dom());
        lemma_listed_are_nodes(self.modules.key_seq(), self.graph());
    }


    /// Depth-first search from `module`, which is not yet reached: its
    /// dependencies are searched in turn; a dependency on a module of the
    /// current path closes a cycle, which is recorded, or with `stop` ends
    /// the search with the dependency that closed it.
    fn visit(
        &self,
        module: &String,
        stack: &mut Vec<String>,
        res: &mut Vec<String>,
        cycles: &mut Vec<Vec<String>>,
        stop: bool,
    ) -> (r: Option<(String, String)>)
        requires
            self.modules.inv(),
            self.universe().finite(),
            forall|x: Seq<char>| is_node(self.graph(), x) ==> self.universe().contains(x),
            search_state(self.graph(), self.universe(), str_views(old(stack)@), str_views(old(res)@), old(cycles)@.len() == 0),
            !str_views(old(stack)@).contains(module@),
            !str_views(old(res)@).contains(module@),
            self.universe().contains(module@),
            old(stack)@.len() > 0 ==> edge(self.graph(), old(stack)@.last()@, module@),
            all_cycles(self.graph(), old(cycles)@),
            stop ==> old(cycles)@.len() == 0,
        ensures
            all_cycles(self.graph(), final(cycles)@),
            old(cycles)@.len() <= final(cycles)@.len(),
            stop ==> final(cycles)@.len() == 0,
            r matches Some(p) ==> stop && exists|c: Seq<Seq<char>>|
                is_cycle(self.graph(), c) && c.last() == p.0@ && c[0] == p.1@,
            r is None ==> str_views(final(stack)@) == str_views(old(stack)@),
            r is None ==> str_views(final(res)@).contains(module@),
            r is None ==> str_views(old(res)@).is_prefix_of(str_views(final(res)@)),
            r is None ==> search_state(self.graph(), self.universe(), str_views(final(stack)@), str_views(final(res)@), final(cycles)@.len() == 0),
        decreases self.universe().difference(str_views(old(stack)@).to_set().union(str_views(old(res)@).to_set())).len(),
    {
        let ghost g = self.graph();
        let ghost u = self.universe();
        let ghost s0 = str_views(stack@);
        let ghost r0 = str_views(res@);
        let ghost m = module@;
        stack.push(module.clone());
        let ghost s1 = str_views(stack@);
        proof {
            assert(s1 =~= s0.push(m));
            assert forall|i: int| 0 <= i < s1.len() - 1 implies #[trigger] step(g, s1, i) by {
                if i < s0.len() - 1 {
                    assert(step(g, s0, i));
                }
            }
            assert(s1.no_duplicates()) by {
                assert forall|i: int, j: int| 0 <= i < s1.len() && 0 <= j < s1.len() && i != j implies s1[i] != s1[j] by {
                    if i == s0.len() {
                        assert(s0.contains(s1[j]));
                    } else if j == s0.len() {
                        assert(s0.contains(s1[i]));
                    }
                }
            }
            assert forall|i: int, j: int| 0 <= i < s1.len() && 0 <= j < r0.len() implies #[trigger] s1[i] != #[trigger] r0[j] by {
                if i == s0.len() {
                    assert(r0.contains(r0[j]));
                }
            }
            assert forall|i: int, d: Seq<char>| 0 <= i < r0.len() && #[trigger] edge(g, r0[i], d) implies r0.contains(d) || s1.contains(d) by {
                if s0.contains(d) {
                    let k = choose|k: int| 0 <= k < s0.len() && s0[k] == d;
                    assert(s1[k] == d);
                }
            }
            assert(search_state(g, u, s1, r0, cycles@.len() == 0));
        }
        match self.modules.get(module.as_str()) {
            Some(deps) => {
                let ghost dv = str_views(deps@);
                assert(dv == g[m]);
                let mut j: usize = 0;
                while j < deps.len()
                    invariant
                        self.modules.inv(),
                        u == self.universe(),
                        g == self.graph(),
                        u.finite(),
                        forall|x: Seq<char>| is_node(g, x) ==> u.contains(x),
                        j <= deps@.len(),
                        dv == str_views(deps@),
                        dv == g[m],
                        g.dom().contains(m),
                        s1 == s0.push(m),
                        m == module@,
                        s0 == str_views(old(stack)@),
                        r0 == str_views(old(res)@),
                        !s0.contains(m),
                        !r0.contains(m),
                        u.contains(m),
                        str_views(stack@) == s1,
                        search_state(g, u, s1, str_views(res@), cycles@.len() == 0),
                        r0.is_prefix_of(str_views(res@)),
                        all_cycles(g, cycles@),
                        old(cycles)@.len() <= cycles@.len(),
                        stop ==> cycles@.len() == 0,
                        forall|k: int| 0 <= k < j ==> str_views(res@).contains(#[trigger] dv[k]) || s1.contains(dv[k]),
                        cycles@.len() == 0 ==> forall|k: int| 0 <= k < j ==> str_views(res@).contains(#[trigger] dv[k]),
                    decreases deps@.len() - j,
                {
                    let dep = &deps[j];
                    assert(dv[j as int] == dep@);
                    assert(edge(g, m, dep@));
                    let ghost rj = str_views(res@);
                    match find_str(res, dep.as_str()) {
                        Some(at) => {
                            assert(rj[at as int] == dep@);
                        },
                        None => {
                            match find_str(stack, dep.as_str()) {
                                Some(at) => {
                                    let ghost c = s1.subrange(at as int, s1.len() as int);
                                    proof {
                                        assert(s1[at as int] == dep@);
                                        assert forall|i: int| 0 <= i < c.len() - 1 implies #[trigger] step(g, c, i) by {
                                            assert(step(g, s1, at + i));
                                        }
                                        assert(c.last() == m);
                                        assert(c[0] == dep@);
                                        assert(is_cycle(g, c));
                                    }
                                    if stop {
                                        let a = module.clone();
                                        let b = dep.clone();
                                        assert(is_cycle(self.graph(), c) && c.last() == a@ && c[0] == b@);
                                        return Some((a, b));
                                    }
                                    let mut cyc: Vec<String> = Vec::new();
                                    let mut q: usize = at;
                                    while q < stack.len()
                                        invariant
                                            at <= q <= stack@.len(),
                                            str_views(stack@) == s1,
                                            str_views(cyc@) == s1.subrange(at as int, q as int),
                                        decreases stack@.len() - q,
                                    {
                                        let ghost before = cyc@;
                                        cyc.push(stack[q].clone());
                                        assert(str_views(cyc@) =~= str_views(before).push(s1[q as int]));
                                        q = q + 1;
                                        assert(str_views(cyc@) =~= s1.subrange(at as int, q as int));
                                    }
                                    let ghost cs_before = cycles@;
                                    cycles.push(cyc);
                                    assert forall|i: int| 0 <= i < cycles@.len() implies is_cycle(g, str_views(#[trigger] cycles@[i]@)) by {
                                        if i < cs_before.len() {
                                            assert(cycles@[i] == cs_before[i]);
                                        }
                                    }
                                },
                                None => {
                                    proof {
                                        assert(!s1.contains(dep@));
                                        assert(u.contains(dep@));
                                        assert(s0.to_set().union(r0.to_set()).subset_of(s1.to_set().union(rj.to_set()))) by {
                                            assert forall|x: Seq<char>| s0.to_set().union(r0.to_set()).contains(x) implies s1.to_set().union(rj.to_set()).contains(x) by {
                                                if s0.contains(x) {
                                                    let k = choose|k: int| 0 <= k < s0.len() && s0[k] == x;
                                                    assert(s1[k] == x);
                                                } else {
                                                    let k = choose|k: int| 0 <= k < r0.len() && r0[k] == x;
                                                    assert(rj[k] == x);
                                                }
                                            }
                                        }
                                        assert(s1[s0.len() as int] == m);
                                        assert(s1.to_set().union(rj.to_set()).contains(m));
                                        lemma_fewer_left(
                                            u,
                                            s0.to_set().union(r0.to_set()),
                                            s1.to_set().union(rj.to_set()),
                                            m,
                                        );
                                        assert(stack@.last()@ == m);
                                    }
                                    let res_inner = self.visit(dep, stack, res, cycles, stop);
                                    match res_inner {
                                        Some(p) => {
                                            return Some(p);
                                        },
                                        None => {},
                                    }
                                },
                            }
                        },
                    }
                    proof {
                        let rn = str_views(res@);
                        assert forall|k: int| 0 <= k < j + 1 implies rn.contains(#[trigger] dv[k]) || s1.contains(dv[k]) by {
                            if k < j && rj.contains(dv[k]) {
                                let w = choose|w: int| 0 <= w < rj.len() && rj[w] == dv[k];
                                assert(rn[w] == dv[k]);
                            }
                        }
                        if cycles@.len() == 0 {
                            assert forall|k: int| 0 <= k < j + 1 implies rn.contains(#[trigger] dv[k]) by {
                                if k < j {
                                    let w = choose|w: int| 0 <= w < rj.len() && rj[w] == dv[k];
                                    assert(rn[w] == dv[k]);
                                }
                            }
                        }
                    }
                    j = j + 1;
                }
                proof {
                    let rn = str_views(res@);
                    assert forall|d: Seq<char>| #[trigger] edge(g, m, d) implies rn.contains(d) || s1.contains(d) by {
                        let k = choose|k: int| 0 <= k < dv.len() && dv[k] == d;
                    }
                    if cycles@.len() == 0 {
                        assert forall|d: Seq<char>| #[trigger] edge(g, m, d) implies rn.contains(d) by {
                            let k = choose|k: int| 0 <= k < dv.len() && dv[k] == d;
                        }
                    }
                }
            },
            None => {
                assert(!g.dom().contains(m));
            },
        }
        let ghost rn = str_views(res@);
        proof {
            assert(s1[s0.len() as int] == m);
            assert(!rn.contains(m)) by {
                if rn.contains(m) {
                    let w = choose|w: int| 0 <= w < rn.len() && rn[w] == m;
                    assert(s1[s0.len() as int] != rn[w]);
                }
            }
        }
        assert(str_views(stack@) == s1);
        let ghost sfull = stack@;
        stack.pop();
        assert(stack@ =~= sfull.drop_last());
        assert forall|i: int| 0 <= i < s0.len() implies str_views(stack@)[i] == s0[i] by {
            assert(str_views(sfull)[i] == s1[i]);
        }
        assert(str_views(stack@) =~= s0);
        res.push(module.clone());
        proof {
            let r1 = str_views(res@);
            assert(r1 =~= rn.push(m));
            let nc = cycles@.len() == 0;
            assert(s0.no_duplicates() && forall|i: int| 0 <= i < s0.len() ==> u.contains(#[trigger] s0[i])) by {
                assert forall|i: int| 0 <= i < s0.len() implies u.contains(#[trigger] s0[i]) by {
                    assert(s1[i] == s0[i]);
                }
                assert forall|i: int, j: int| 0 <= i < s0.len() && 0 <= j < s0.len() && i != j implies s0[i] != s0[j] by {
                    assert(s1[i] == s0[i] && s1[j] == s0[j]);
                }
            }
            assert(listed_in(r1, u)) by {
                assert forall|i: int, j: int| 0 <= i < r1.len() && 0 <= j < r1.len() && i != j implies r1[i] != r1[j] by {
                    if i < rn.len() && j < rn.len() {
                        assert(r1[i] == rn[i] && r1[j] == rn[j]);
                    } else if i < rn.len() {
                        assert(rn.contains(rn[i]));
                    } else {
                        assert(rn.contains(rn[j]));
                    }
                }
                assert forall|i: int| 0 <= i < r1.len() implies u.contains(#[trigger] r1[i]) by {
                    if i < rn.len() {
                        assert(r1[i] == rn[i]);
                    }
                }
            }
            assert forall|i: int, j: int| 0 <= i < s0.len() && 0 <= j < r1.len() implies #[trigger] s0[i] != #[trigger] r1[j] by {
                assert(s1[i] == s0[i]);
                if j < rn.len() {
                    assert(r1[j] == rn[j]);
                } else {
                    assert(s0.contains(s0[i]));
                }
            }
            assert forall|i: int| 0 <= i < s0.len() - 1 implies #[trigger] step(g, s0, i) by {
                assert(step(g, s1, i));
            }
            assert forall|i: int, d: Seq<char>| 0 <= i < r1.len() && #[trigger] edge(g, r1[i], d) implies r1.contains(d) || s0.contains(d) by {
                let x = r1[i];
                if i < rn.len() {
                    assert(rn[i] == x);
                }
                assert(rn.contains(d) || s1.contains(d));
                if rn.contains(d) {
                    let w = choose|w: int| 0 <= w < rn.len() && rn[w] == d;
                    assert(r1[w] == d);
                } else if d == m {
                    assert(r1[rn.len() as int] == d);
                } else {
                    let w = choose|w: int| 0 <= w < s1.len() && s1[w] == d;
                    assert(s0[w] == d);
                }
            }
            if nc {
                assert forall|i: int, d: Seq<char>| 0 <= i < r1.len() && #[trigger] edge(g, r1[i], d) implies r1.contains(d) by {
                    if i < rn.len() {
                        assert(rn[i] == r1[i]);
                    }
                    assert(rn.contains(d));
                    let w = choose|w: int| 0 <= w < rn.len() && rn[w] == d;
                    assert(r1[w] == d);
                }
                assert forall|i: int, j: int| 0 <= i < r1.len() && 0 <= j < r1.len() && #[trigger] edge(g, r1[i], r1[j]) implies j < i by {
                    if i < rn.len() && j < rn.len() {
                        assert(rn[i] == r1[i] && rn[j] == r1[j]);
                    } else if j == rn.len() {
                        if i < rn.len() {
                            assert(rn[i] == r1[i]);
                            assert(edge(g, rn[i], m));
                        } else {
                            assert(edge(g, m, m));
                        }
                        assert(rn.contains(m));
                    }
                }
            }
            assert(search_state(g, u, s0, r1, nc));
            assert(r1[rn.len() as int] == m);
            assert(r0.is_prefix_of(r1)) by {
                assert forall|i: int| 0 <= i < r0.len() implies r0[i] == r1[i] by {
                    assert(rn[i] == r0[i]);
                }
            }
        }
        None
    }


    /// Searches from each module in turn, in the order they were added,
    /// skipping those already reached.
    fn search(&self, stop: bool) -> (r: (Vec<String>, Vec<Vec<String>>, Option<(String, String)>))
        ensures
            all_cycles(self.graph(), r.1@),
            stop ==> r.1@.len() == 0,
            r.2 matches Some(p) ==> stop && exists|c: Seq<Seq<char>>|
                is_cycle(self.graph(), c) && c.last() == p.0@ && c[0] == p.1@,
            r.2 is None ==> search_state(self.graph(), self.universe(), Seq::empty(), str_views(r.0@), r.1@.len() == 0),
            r.2 is None ==> forall|k: Seq<char>| self.graph().dom().contains(k) ==> str_views(r.0@).contains(k),
    {
        proof {
            use_type_invariant(&self.modules);
            self.lemma_universe();
        }
        let ghost g = self.graph();
        let ghost u = self.universe();
        let ghost ks = self.modules.key_seq();
        assert(ks == self.module_order());
        let n = self.modules.len();
        let mut stack: Vec<String> = Vec::new();
        let mut res: Vec<String> = Vec::new();
        let mut cycles: Vec<Vec<String>> = Vec::new();
        assert(str_views(stack@) =~= Seq::<Seq<char>>::empty());
        assert(str_views(res@) =~= Seq::<Seq<char>>::empty());
        let mut i: usize = 0;
        while i < n
            invariant
                self.modules.inv(),
                g == self.graph(),
                u == self.universe(),
                ks == self.modules.key_seq(),
                n == ks.len(),
                i <= n,
                u.finite(),
                forall|x: Seq<char>| is_node(g, x) <==> u.contains(x),
                forall|k: Seq<char>| g.dom().contains(k) <==> ks.contains(k),
                str_views(stack@) == Seq::<Seq<char>>::empty(),
                search_state(g, u, Seq::empty(), str_views(res@), cycles@.len() == 0),
                all_cycles(g, cycles@),
                stop ==> cycles@.len() == 0,
                forall|k: int| 0 <= k < i ==> str_views(res@).contains(#[trigger] ks[k]),
            decreases n - i,
        {
            let key = self.modules.key_at(i);
            let ghost rb = str_views(res@);
            match find_str(&res, key.as_str()) {
                Some(at) => {
                    assert(rb[at as int] == key@);
                },
                None => {
                    proof {
                        assert(g.dom().contains(key@));
                        assert(is_node(g, key@));
                        assert(stack@.len() == 0);
                    }
                    match self.visit(key, &mut stack, &mut res, &mut cycles, stop) {
                        Some(p) => {
                            return (res, cycles, Some(p));
                        },
                        None => {},
                    }
                },
            }
            proof {
                let rn = str_views(res@);
                assert(key@ == ks[i as int]);
                assert forall|k: int| 0 <= k < i + 1 implies rn.contains(#[trigger] ks[k]) by {
                    if k < i || rb.contains(ks[k]) {
                        let w = choose|w: int| 0 <= w < rb.len() && rb[w] == ks[k];
                        assert(rn[w] == ks[k]);
                    }
                }
            }
            i = i + 1;
        }
        proof {
            assert forall|k: Seq<char>| g.dom().contains(k) implies str_views(res@).contains(k) by {
                assert(ks.contains(k));
                let w = choose|w: int| 0 <= w < ks.len() && ks[w] == k;
            }
        }
        (res, cycles, None)
    }

    /// The order found by a complete search without a cycle, reversed, puts
    /// each module before its dependencies, and holds every node once.
    proof fn lemma_search_order(&self, r: Seq<Seq<char>>)
        requires
            self.modules.inv(),
            search_state(self.graph(), self.universe(), Seq::empty(), r, true),
            forall|k: Seq<char>| self.graph().dom().contains(k) ==> r.contains(k),
        ensures
            topo_order(self.graph(), r.reverse()),
            r.reverse().no_duplicates(),
            forall|x: Seq<char>| r.reverse().contains(x) <==> is_node(self.graph(), x),
            !has_cycle(self.graph()),
    {
        let g = self.graph();
        let o = r.reverse();
        let n = r.len();
        self.lemma_universe();
        assert forall|i: int| 0 <= i < n implies #[trigger] o[i] == r[n - 1 - i] by {}
        assert forall|x: Seq<char>| o.contains(x) <==> r.contains(x) by {
            if o.contains(x) {
                let w = choose|w: int| 0 <= w < n && o[w] == x;
                assert(r[n - 1 - w] == x);
            }
            if r.contains(x) {
                let w = choose|w: int| 0 <= w < n && r[w] == x;
                assert(o[n - 1 - w] == x);
            }
        }
        assert forall|i: int, d: Seq<char>| 0 <= i < o.len() && #[trigger] edge(g, o[i], d) implies o.contains(d) by {
            assert(edge(g, r[n - 1 - i], d));
        }
        assert forall|i: int, j: int| 0 <= i < o.len() && 0 <= j < o.len() && #[trigger] edge(g, o[i], o[j]) implies i < j by {
            assert(edge(g, r[n - 1 - i], r[n - 1 - j]));
        }
        assert(o.no_duplicates()) by {
            assert forall|i: int, j: int| 0 <= i < n && 0 <= j < n && i != j implies o[i] != o[j] by {
                assert(r[n - 1 - i] != r[n - 1 - j]);
            }
        }
        assert forall|x: Seq<char>| o.contains(x) <==> is_node(g, x) by {
            if r.contains(x) {
                let w = choose|w: int| 0 <= w < n && r[w] == x;
                assert(self.universe().contains(r[w]));
            }
            if is_node(g, x) && !g.dom().contains(x) {
                let k = choose|k: Seq<char>| edge(g, k, x);
                assert(r.contains(k));
                let w = choose|w: int| 0 <= w < n && r[w] == k;
                assert(edge(g, r[w], x));
            }
        }
        lemma_topo_order_acyclic(g, o);
    }

    /// The modules in an order where each comes before every module it
    /// depends on, or the first dependency found that closes a cycle.
    pub fn topological_sort(&self) -> (r: Result<Vec<String>, String>)
        ensures
            r is Ok <==> !has_cycle(self.graph()),
            r matches Ok(order) ==> {
                &&& topo_order(self.graph(), str_views(order@))
                &&& str_views(order@).no_duplicates()
                &&& forall|x: Seq<char>| str_views(order@).contains(x) <==> is_node(self.graph(), x)
            },
            r matches Err(msg) ==> exists|c: Seq<Seq<char>>|
                is_cycle(self.graph(), c) && msg@ == cycle_message(c.last(), c[0]),
    {
        proof {
            use_type_invariant(&self.modules);
        }
        let (res, _cycles, found) = self.search(true);
        match found {
            Some((a, b)) => {
                let msg = owned("Circular dependency detected: ").concat(a.as_str()).concat(" -> ").concat(b.as_str());
                Err(msg)
            },
            None => {
                let ghost rv = str_views(res@);
                let mut out: Vec<String> = Vec::new();
                let mut i: usize = res.len();
                while i > 0
                    invariant
                        i <= res@.len(),
                        rv == str_views(res@),
                        str_views(out@) == rv.reverse().take((res@.len() - i) as int),
                    decreases i,
                {
                    i = i - 1;
                    let ghost before = out@;
                    out.push(res[i].clone());
                    assert(str_views(out@) =~= rv.reverse().take((res@.len() - i) as int)) by {
                        assert(str_views(out@) =~= str_views(before).push(rv[i as int]));
                    }
                }
                assert(rv.reverse().take(res@.len() as int) =~= rv.reverse());
                proof {
                    self.lemma_search_order(rv);
                }
                Ok(out)
            },
        }
    }

    /// The cycles found by a search from every module, or `None` when the
    /// graph has none. Each cycle lists modules that each depend on the
    /// next, the last on the first.
    pub fn detect_cycles(&self) -> (r: Option<Vec<Vec<String>>>)
        ensures
            r is None <==> !has_cycle(self.graph()),
            r matches Some(cs) ==> cs@.len() > 0 && all_cycles(self.graph(), cs@),
    {
        proof {
            use_type_invariant(&self.modules);
        }
        let (res, cycles, _found) = self.search(false);
        if cycles.len() == 0 {
            proof {
                self.lemma_search_order(str_views(res@));
            }
            None
        } else {
            assert(is_cycle(self.graph(), str_views(cycles@[0]@)));
            Some(cycles)
        }
    }

    /// An empty graph.
    pub fn new() -> (g: Self)
        ensures
            g.graph() == Map::<Seq<char>, Seq<Seq<char>>>::empty(),
    {
        let g = ModuleGraph { modules: StrMap::new() };
        assert(g.graph() =~= Map::<Seq<char>, Seq<Seq<char>>>::empty());
        g
    }

    /// Records the dependencies of a module, replacing earlier ones.
    pub fn add_module(&mut self, mod_path: String, dependencies: Vec<String>)
        ensures
            final(self).graph() == old(self).graph().insert(mod_path@, str_views(dependencies@)),
    {
        self.modules.insert(mod_path.as_str(), dependencies);
        assert(self.graph() =~= old(self).graph().insert(mod_path@, str_views(dependencies@)));
    }

    /// Number of modules.
    pub fn len(&self) -> (n: usize)
        ensures
            n == self.graph().dom().len(),
    {
        assert(self.graph().dom() =~= self.modules@.dom());
        self.modules.len()
    }

    /// Whether there is no module.
    pub fn is_empty(&self) -> (b: bool)
        ensures
            b == (self.graph().dom().len() == 0),
    {
        assert(self.graph().dom() =~= self.modules@.dom());
        self.modules.is_empty()
    }

    /// The dependencies of a module.
    pub fn get_dependencies(&self, mod_path: &str) -> (r: Option<&Vec<String>>)
        ensures
            match r {
                Some(v) => self.graph().dom().contains(mod_path@) && str_views(v@) == self.graph()[mod_path@],
                None => !self.graph().dom().contains(mod_path@),
            },
    {
        self.modules.get(mod_path)
    }

    /// Every module, in the order they were first added.
    pub fn get_all_modules(&self) -> (r: Vec<String>)
        ensures
            str_views(r@) == self.module_order(),
            forall|k: Seq<char>| self.graph().dom().contains(k) <==> str_views(r@).contains(k),
    {
        proof {
            use_type_invariant(&self.modules);
            self.modules.lemma_keys();
        }
        let n = self.modules.len();
        let mut out: Vec<String> = Vec::new();
        let mut i: usize = 0;
        while i < n
            invariant
                i <= n,
                n == self.modules.key_seq().len(),
                str_views(out@) == self.modules.key_seq().take(i as int),
            decreases n - i,
        {
            let k = self.modules.key_at(i);
            let c = k.clone();
            let ghost before = out@;
            out.push(c);
            assert(str_views(out@) =~= str_views(before).push(c@));
            i = i + 1;
            assert(str_views(out@) =~= self.modules.key_seq().take(i as int));
        }
        assert(self.modules.key_seq().take(n as int) =~= self.modules.key_seq());
        out
    }
}

impl Default for ModuleGraph {
    fn default() -> (g: Self)
        ensures
            g.graph() == Map::<Seq<char>, Seq<Seq<char>>>::empty(),
    {
        Self::new()
    }
}

} // verus!
