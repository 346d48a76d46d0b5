use vstd::prelude::*;

use crate::catalog::Action;
use crate::equality::same_game;
use crate::state::{
    evaluation, game_wf, legal, lemma_possible_actions_legal, lemma_step_keeps_wf, possible_actions, step,
    with_me, GameState, GameView,
};

verus! {

/// The mathematical value of a search node.
pub struct NodeView {
    pub state: GameView,
    pub parent: int,
    pub action: Action,
    pub depth: int,
}

/// A discovered state, with the node it was first reached from, the action taken there,
/// and its distance in actions from the seed.
pub struct SearchNode {
    pub state: GameState,
    pub parent: usize,
    pub action: Action,
    pub depth: usize,
}

impl View for SearchNode {
    type V = NodeView;

    open spec fn view(&self) -> NodeView {
        NodeView {
            state: self.state@,
            parent: self.parent as int,
            action: self.action,
            depth: self.depth as int,
        }
    }
}

pub open spec fn views(nodes: Seq<SearchNode>) -> Seq<NodeView> {
    nodes.map_values(|n: SearchNode| n@)
}

/// The discovered nodes form a search tree rooted at index 0: every other node was reached
/// from an earlier one among the first `h` by a legal action, one level deeper; no state
/// appears twice; levels never decrease along the sequence.
#[verifier::opaque]
pub open spec fn tree_wf(ns: Seq<NodeView>, h: int) -> bool {
    &&& ns.len() >= 1
    &&& 0 <= h <= ns.len()
    &&& h == 0 ==> ns.len() == 1
    &&& ns[0].depth == 0
    &&& forall|i: int|
        1 <= i < ns.len() ==> {
            let p = (#[trigger] ns[i]).parent;
            &&& 0 <= p < h
            &&& p < i
            &&& ns[i].depth == ns[p].depth + 1
            &&& legal(ns[p].state, ns[i].action)
            &&& ns[i].state == step(ns[p].state, ns[i].action)
        }
    &&& forall|i: int| 0 <= i < ns.len() ==> game_wf((#[trigger] ns[i]).state)
    &&& forall|i: int, j: int| 0 <= i < j < ns.len() ==> (#[trigger] ns[i]).state != (#[trigger] ns[j]).state
    &&& forall|i: int| 0 <= i < ns.len() ==> 0 <= (#[trigger] ns[i]).depth <= i
    &&& forall|i: int, j: int| 0 <= i <= j < ns.len() ==> (#[trigger] ns[i]).depth <= (#[trigger] ns[j]).depth
    &&& h > 0 ==> forall|j: int| 0 <= j < ns.len() ==> (#[trigger] ns[j]).depth <= ns[h - 1].depth + 1
}

/// The nodes after trying each of `acts` from node `from`, in order: a resulting state
/// that is already known is dropped, a new one is appended.
pub open spec fn discover(seen: Seq<NodeView>, from: int, acts: Seq<Action>) -> Seq<NodeView>
    decreases acts.len(),
{
    if acts.len() == 0 {
        seen
    } else {
        let prev = discover(seen, from, acts.drop_last());
        let s = step(seen[from].state, acts.last());
        if exists|i: int| 0 <= i < prev.len() && prev[i].state == s {
            prev
        } else {
            prev.push(NodeView { state: s, parent: from, action: acts.last(), depth: seen[from].depth + 1 })
        }
    }
}

/// Every offered action from each of the first `h` nodes leads to a discovered state at
/// most one level deeper.
#[verifier::opaque]
pub open spec fn closed(ns: Seq<NodeView>, h: int, turn: int) -> bool {
    forall|i: int, a: Action|
        0 <= i < h && #[trigger] possible_actions(ns[i].state.me, ns[i].state, turn).contains(a) ==> exists|j: int|
            0 <= j < ns.len() && ns[j].state == step(ns[i].state, a) && ns[j].depth <= ns[i].depth + 1
}

/// The state that playing `path` from `g` reaches, if each action is one the search offers
/// in the state it is played in on turn `turn`.
pub open spec fn offered_run(g: GameView, turn: int, path: Seq<Action>) -> Option<GameView>
    decreases path.len(),
{
    if path.len() == 0 {
        Some(g)
    } else {
        match offered_run(g, turn, path.drop_last()) {
            Some(m) => if possible_actions(m.me, m, turn).contains(path.last()) {
                Some(step(m, path.last()))
            } else {
                None
            },
            None => None,
        }
    }
}

/// Each action tried from node `from` leads to a node of the result; the nodes given keep
/// their places.
proof fn lemma_discover_covers(ns: Seq<NodeView>, from: int, acts: Seq<Action>)
    ensures
        discover(ns, from, acts).len() >= ns.len(),
        forall|j: int| 0 <= j < ns.len() ==> #[trigger] discover(ns, from, acts)[j] == ns[j],
        forall|i: int|
            0 <= i < acts.len() ==> exists|j: int|
                0 <= j < discover(ns, from, acts).len() && discover(ns, from, acts)[j].state == step(
                    ns[from].state,
                    #[trigger] acts[i],
                ),
    decreases acts.len(),
{
    if acts.len() > 0 {
        let init = acts.drop_last();
        lemma_discover_covers(ns, from, init);
        let prev = discover(ns, from, init);
        let d = discover(ns, from, acts);
        assert(forall|j: int| 0 <= j < prev.len() ==> #[trigger] d[j] == prev[j]);
        assert forall|i: int| 0 <= i < acts.len() implies exists|j: int|
            0 <= j < d.len() && d[j].state == step(ns[from].state, #[trigger] acts[i]) by {
            if i < acts.len() - 1 {
                assert(acts[i] == init[i]);
                let j = choose|j: int| 0 <= j < prev.len() && prev[j].state == step(ns[from].state, init[i]);
                assert(d[j] == prev[j]);
            } else {
                let s = step(ns[from].state, acts.last());
                if exists|j: int| 0 <= j < prev.len() && prev[j].state == s {
                    let j = choose|j: int| 0 <= j < prev.len() && prev[j].state == s;
                    assert(d[j] == prev[j]);
                } else {
                    assert(d[prev.len() as int].state == s);
                }
            }
        }
    }
}

/// Expanding node `h` keeps the tree closed, now over its first `h + 1` nodes.
proof fn lemma_closed_after_expand(ns: Seq<NodeView>, h: int, turn: int)
    requires
        closed(ns, h, turn),
        0 <= h < ns.len(),
        tree_wf(
            discover(ns, h, possible_actions(ns[h].state.me, ns[h].state, turn)),
            h + 1,
        ),
    ensures
        closed(discover(ns, h, possible_actions(ns[h].state.me, ns[h].state, turn)), h + 1, turn),
{
    let acts = possible_actions(ns[h].state.me, ns[h].state, turn);
    let d = discover(ns, h, acts);
    lemma_discover_covers(ns, h, acts);
    reveal(closed);
    reveal(tree_wf);
    assert forall|i: int, a: Action|
        0 <= i < h + 1 && #[trigger] possible_actions(d[i].state.me, d[i].state, turn).contains(a) implies exists|j: int|
            0 <= j < d.len() && d[j].state == step(d[i].state, a) && d[j].depth <= d[i].depth + 1 by {
        assert(d[i] == ns[i]);
        if i < h {
            assert(possible_actions(ns[i].state.me, ns[i].state, turn).contains(a));
            let j = choose|j: int|
                0 <= j < ns.len() && ns[j].state == step(ns[i].state, a) && ns[j].depth <= ns[i].depth + 1;
            assert(d[j] == ns[j]);
        } else {
            let t = choose|t: int| 0 <= t < acts.len() && acts[t] == a;
            let j = choose|j: int| 0 <= j < d.len() && d[j].state == step(ns[h].state, #[trigger] acts[t]);
            assert(d[j].depth <= d[h].depth + 1);
        }
    }
}

/// Where every node shallower than `l` has been expanded, a play of `l` offered actions
/// from the root ends in a discovered state at most `l` levels deep.
proof fn lemma_offered_reach(ns: Seq<NodeView>, h: int, turn: int, path: Seq<Action>)
    requires
        tree_wf(ns, h),
        closed(ns, h, turn),
        offered_run(ns[0].state, turn, path) is Some,
        forall|i: int| 0 <= i < ns.len() && (#[trigger] ns[i]).depth < path.len() ==> i < h,
    ensures
        exists|j: int|
            0 <= j < ns.len() && ns[j].state == offered_run(ns[0].state, turn, path)->Some_0 && ns[j].depth
                <= path.len(),
    decreases path.len(),
{
    reveal(tree_wf);
    if path.len() == 0 {
        assert(ns[0].state == offered_run(ns[0].state, turn, path)->Some_0);
    } else {
        let init = path.drop_last();
        lemma_offered_reach(ns, h, turn, init);
        let m = offered_run(ns[0].state, turn, init)->Some_0;
        let j0 = choose|j: int| 0 <= j < ns.len() && ns[j].state == m && ns[j].depth <= init.len();
        assert(j0 < h);
        reveal(closed);
        assert(possible_actions(ns[j0].state.me, ns[j0].state, turn).contains(path.last()));
    }
}

/// The actions along the tree from the root to node `k`.
pub open spec fn path_to_node(ns: Seq<NodeView>, k: int) -> Seq<Action>
    decreases k,
{
    if k <= 0 || k >= ns.len() || ns[k].parent < 0 || ns[k].parent >= k {
        seq![]
    } else {
        path_to_node(ns, ns[k].parent).push(ns[k].action)
    }
}

/// The state that playing `path` from `g` reaches, if every action is legal where it is played.
pub open spec fn run(g: GameView, path: Seq<Action>) -> Option<GameView>
    decreases path.len(),
{
    if path.len() == 0 {
        Some(g)
    } else {
        match run(g, path.drop_last()) {
            Some(m) => if legal(m, path.last()) {
                Some(step(m, path.last()))
            } else {
                None
            },
            None => None,
        }
    }
}

/// Following the tree from the root to node `k` is a legal play of `depth` actions that
/// reaches the state of `k`.
pub proof fn lemma_path_to_node(ns: Seq<NodeView>, h: int, k: int)
    requires
        tree_wf(ns, h),
        0 <= k < ns.len(),
    ensures
        run(ns[0].state, path_to_node(ns, k)) == Some(ns[k].state),
        path_to_node(ns, k).len() == ns[k].depth,
    decreases k,
{
    reveal(tree_wf);
    if k > 0 {
        let p = ns[k].parent;
        lemma_path_to_node(ns, h, p);
        assert(path_to_node(ns, k).drop_last() =~= path_to_node(ns, p));
    }
}

/// The search: every discovered node, the index of the next to expand (those before it
/// were expanded, those from it on form the frontier), and the best node expanded so far.
pub struct Planner {
    pub nodes: Vec<SearchNode>,
    pub head: usize,
    pub best: usize,
    pub best_score: i64,
    pub turn: usize,
}

/// The mathematical value of a search.
pub struct PlannerView {
    pub nodes: Seq<NodeView>,
    pub head: int,
    pub best: int,
    pub best_score: int,
    pub turn: int,
}

impl View for Planner {
    type V = PlannerView;

    open spec fn view(&self) -> PlannerView {
        PlannerView {
            nodes: views(self.nodes@),
            head: self.head as int,
            best: self.best as int,
            best_score: self.best_score as int,
            turn: self.turn as int,
        }
    }
}

/// A search in a consistent state: the best node has the highest evaluation among the
/// expanded nodes and the seed, and the first of them that has it.
pub open spec fn planner_wf(v: PlannerView) -> bool {
    &&& tree_wf(v.nodes, v.head)
    &&& closed(v.nodes, v.head, v.turn)
    &&& 0 <= v.best < v.nodes.len()
    &&& v.best < v.head || v.best == 0
    &&& v.best_score == evaluation(v.nodes[v.best].state.me)
    &&& forall|i: int| 0 <= i < v.head ==> evaluation((#[trigger] v.nodes[i]).state.me) <= v.best_score
    &&& forall|i: int| 0 <= i < v.best ==> evaluation((#[trigger] v.nodes[i]).state.me) < v.best_score
}

/// The search after expanding its next node: the node becomes the best if it beats every
/// node before it, and each action possible from it is tried in order.
pub open spec fn expand(v: PlannerView) -> PlannerView {
    let cur = v.nodes[v.head];
    let e = evaluation(cur.state.me);
    PlannerView {
        nodes: discover(v.nodes, v.head, possible_actions(cur.state.me, cur.state, v.turn)),
        head: v.head + 1,
        best: if e > v.best_score {
            v.head
        } else {
            v.best
        },
        best_score: if e > v.best_score {
            e
        } else {
            v.best_score
        },
        turn: v.turn,
    }
}

/// A search of the states reachable from `g`, with only `g` discovered.
pub open spec fn seeded(g: GameView, turn: int) -> PlannerView {
    PlannerView {
        nodes: seq![NodeView { state: g, parent: 0, action: Action::Wait, depth: 0 }],
        head: 0,
        best: 0,
        best_score: evaluation(g.me),
        turn,
    }
}

/// The search from `g` after at most `n` expansions; it stops early when the frontier is empty.
pub open spec fn expanded(g: GameView, turn: int, n: nat) -> PlannerView
    decreases n,
{
    if n == 0 {
        seeded(g, turn)
    } else {
        let v = expanded(g, turn, (n - 1) as nat);
        if v.head < v.nodes.len() {
            expand(v)
        } else {
            v
        }
    }
}

/// What a search with a budget of `n` expansions returns: nothing when the frontier ran
/// empty, else the path to the best node.
pub open spec fn planned(g: GameView, turn: int, n: nat) -> Seq<Action> {
    let v = expanded(g, turn, n);
    if v.head >= v.nodes.len() {
        seq![]
    } else {
        path_to_node(v.nodes, v.best)
    }
}

/// Appending a node reached by a legal action from node `h`, one level deeper, whose state
/// is new, keeps the tree consistent.
proof fn lemma_append_node(ns: Seq<NodeView>, h: int, nv: NodeView)
    requires
        tree_wf(ns, h + 1),
        0 <= h < ns.len(),
        nv.parent == h,
        nv.depth == ns[h].depth + 1,
        legal(ns[h].state, nv.action),
        nv.state == step(ns[h].state, nv.action),
        game_wf(nv.state),
        forall|i: int| 0 <= i < ns.len() ==> (#[trigger] ns[i]).state != nv.state,
    ensures
        tree_wf(ns.push(nv), h + 1),
{
    reveal(tree_wf);
    let ns2 = ns.push(nv);
    let n = ns.len() as int;
    assert(ns2[n] == nv);
    assert forall|i: int| 1 <= i < ns2.len() implies {
        let p = (#[trigger] ns2[i]).parent;
        &&& 0 <= p < h + 1
        &&& p < i
        &&& ns2[i].depth == ns2[p].depth + 1
        &&& legal(ns2[p].state, ns2[i].action)
        &&& ns2[i].state == step(ns2[p].state, ns2[i].action)
    } by {
        if i < n {
            assert(ns2[i] == ns[i]);
            assert(ns2[ns[i].parent] == ns[ns[i].parent]);
        } else {
            assert(ns2[h] == ns[h]);
        }
    }
    assert forall|i: int, k: int| 0 <= i < k < ns2.len() implies (#[trigger] ns2[i]).state
        != (#[trigger] ns2[k]).state by {
        if k < n {
            assert(ns2[i] == ns[i] && ns2[k] == ns[k]);
        } else {
            assert(ns2[i] == ns[i]);
        }
    }
    assert forall|i: int, k: int| 0 <= i <= k < ns2.len() implies (#[trigger] ns2[i]).depth
        <= (#[trigger] ns2[k]).depth by {
        if k < n {
            assert(ns2[i] == ns[i] && ns2[k] == ns[k]);
        } else if i < n {
            assert(ns2[i] == ns[i]);
        }
    }
    assert forall|i: int| 0 <= i < ns2.len() implies game_wf((#[trigger] ns2[i]).state)
        && 0 <= ns2[i].depth <= i && ns2[i].depth <= ns2[h].depth + 1 by {
        if i < n {
            assert(ns2[i] == ns[i]);
        }
    }
}

/// A consistent tree whose node `h` is about to be expanded stays consistent with `h`
/// counted among the expanded nodes.
proof fn lemma_tree_next_head(ns: Seq<NodeView>, h: int)
    requires
        tree_wf(ns, h),
        0 <= h < ns.len(),
    ensures
        tree_wf(ns, h + 1),
{
    reveal(tree_wf);
    assert forall|j: int| 0 <= j < ns.len() implies (#[trigger] ns[j]).depth <= ns[h].depth + 1 by {
        if h > 0 {
            assert(ns[h - 1].depth <= ns[h].depth);
        }
    }
}

/// Plays `a` from node `from` and appends the resulting state as a new node, one level
/// deeper, unless some node already holds it.
fn try_action(nodes: &mut Vec<SearchNode>, from: usize, a: Action, h: Ghost<int>)
    requires
        tree_wf(views(old(nodes)@), h@),
        h@ == from + 1,
        from < old(nodes)@.len(),
        legal(old(nodes)@[from as int].state@, a),
    ensures
        tree_wf(views(final(nodes)@), h@),
        views(final(nodes)@) == (if exists|i: int|
            0 <= i < views(old(nodes)@).len() && views(old(nodes)@)[i].state == step(
                views(old(nodes)@)[from as int].state,
                a,
            ) {
            views(old(nodes)@)
        } else {
            views(old(nodes)@).push(
                NodeView {
                    state: step(views(old(nodes)@)[from as int].state, a),
                    parent: from as int,
                    action: a,
                    depth: views(old(nodes)@)[from as int].depth + 1,
                },
            )
        }),
{
    let ghost ns = views(nodes@);
    assert(ns[from as int] == nodes@[from as int]@);
    proof {
        reveal(tree_wf);
    }
    let mut next = nodes[from].state.duplicate();
    next.apply(a);
    proof {
        lemma_step_keeps_wf(ns[from as int].state, a);
    }
    let mut found = false;
    let mut j: usize = 0;
    while j < nodes.len() && !found
        invariant
            j <= nodes.len(),
            ns == views(nodes@),
            found ==> exists|i: int| 0 <= i < ns.len() && ns[i].state == next@,
            !found ==> forall|i: int| 0 <= i < j ==> (#[trigger] ns[i]).state != next@,
        decreases nodes.len() - j + if found { 0int } else { 1int },
    {
        assert(ns[j as int] == nodes@[j as int]@);
        if same_game(&nodes[j].state, &next) {
            found = true;
        } else {
            j = j + 1;
        }
    }
    if !found {
        let depth = nodes[from].depth + 1;
        let node = SearchNode { state: next, parent: from, action: a, depth };
        let ghost nv = node@;
        nodes.push(node);
        proof {
            assert(views(nodes@) =~= ns.push(nv));
            lemma_append_node(ns, from as int, nv);
        }
    }
}

/// Tries each of `actions` from node `from`, in order.
fn discover_all(nodes: &mut Vec<SearchNode>, from: usize, actions: &Vec<Action>)
    requires
        tree_wf(views(old(nodes)@), from + 1),
        from < old(nodes)@.len(),
        forall|j: int| 0 <= j < actions@.len() ==> legal(views(old(nodes)@)[from as int].state, #[trigger] actions@[j]),
    ensures
        views(final(nodes)@) == discover(views(old(nodes)@), from as int, actions@),
        tree_wf(views(final(nodes)@), from + 1),
        views(final(nodes)@).len() >= views(old(nodes)@).len(),
        forall|j: int|
            0 <= j < views(old(nodes)@).len() ==> views(final(nodes)@)[j] == #[trigger] views(old(nodes)@)[j],
{
    let ghost ov = views(nodes@);
    let ghost acts = actions@;
    let mut next_act: usize = 0;
    while next_act < actions.len()
        invariant
            next_act <= actions.len(),
            acts == actions@,
            forall|j: int| 0 <= j < acts.len() ==> legal(ov[from as int].state, #[trigger] acts[j]),
            from < ov.len(),
            views(nodes@) == discover(ov, from as int, acts.subrange(0, next_act as int)),
            tree_wf(views(nodes@), from + 1),
            views(nodes@).len() >= ov.len(),
            forall|j: int| 0 <= j < ov.len() ==> views(nodes@)[j] == #[trigger] ov[j],
        decreases actions.len() - next_act,
    {
        let a = actions[next_act];
        proof {
            assert(acts.subrange(0, next_act + 1).drop_last() =~= acts.subrange(0, next_act as int));
            assert(acts.subrange(0, next_act + 1).last() == a);
            assert(views(nodes@)[from as int] == ov[from as int]);
            assert(views(nodes@)[from as int] == nodes@[from as int]@);
        }
        let ghost before = views(nodes@);
        try_action(nodes, from, a, Ghost(from as int + 1));
        proof {
            assert forall|j: int| 0 <= j < ov.len() implies views(nodes@)[j] == #[trigger] ov[j] by {
                assert(before[j] == ov[j]);
            }
        }
        next_act = next_act + 1;
    }
    assert(acts.subrange(0, acts.len() as int) =~= acts);
}

impl Planner {
    /// A search whose only discovered node is `game_state`.
    pub fn new(game_state: &GameState, turn: usize) -> (r: Planner)
        requires
            game_wf(game_state@),
        ensures
            r@ == seeded(game_state@, turn as int),
            planner_wf(r@),
    {
        let root = SearchNode { state: game_state.duplicate(), parent: 0, action: Action::Wait, depth: 0 };
        let best_score = root.state.me.evaluate();
        let mut nodes: Vec<SearchNode> = Vec::new();
        nodes.push(root);
        let r = Planner { nodes, head: 0, best: 0, best_score, turn };
        assert(r@.nodes =~= seeded(game_state@, turn as int).nodes);
        proof {
            reveal(tree_wf);
            reveal(closed);
        }
        r
    }

    /// Whether some discovered node is still to be expanded.
    pub fn has_frontier(&self) -> (r: bool)
        ensures
            r == (self@.head < self@.nodes.len()),
    {
        self.head < self.nodes.len()
    }

    /// Expands the oldest node of the frontier.
    pub fn expand_next(&mut self)
        requires
            planner_wf(old(self)@),
            old(self)@.head < old(self)@.nodes.len(),
        ensures
            planner_wf(final(self)@),
            final(self)@ == expand(old(self)@),
            final(self)@.nodes[0] == old(self)@.nodes[0],
    {
        let ghost ov = self@.nodes;
        let ghost old_view = self@;
        let h = self.head;
        let ghost cur = ov[h as int];
        assert(views(self.nodes@)[h as int] == self.nodes@[h as int]@);
        let score = self.nodes[h].state.me.evaluate();
        if score > self.best_score {
            self.best = h;
            self.best_score = score;
        }
        let count = self.nodes.len();
        proof {
            assert(game_wf(cur.state)) by {
                reveal(tree_wf);
            }
        }
        let actions = self.nodes[h].state.me.get_possible_actions(&self.nodes[h].state, self.turn);
        proof {
            lemma_possible_actions_legal(cur.state.me, cur.state, self.turn as int);
            assert(with_me(cur.state, cur.state.me) == cur.state);
            lemma_tree_next_head(ov, h as int);
        }
        discover_all(&mut self.nodes, h, &actions);
        proof {
            lemma_closed_after_expand(ov, h as int, self.turn as int);
        }
        assert(h < count);
        self.head = h + 1;
        proof {
            let nv = self@;
            let e = expand(old_view);
            assert(nv.nodes == e.nodes);
            assert forall|i: int| 0 <= i < nv.head implies evaluation((#[trigger] nv.nodes[i]).state.me)
                <= nv.best_score by {
                assert(nv.nodes[i] == ov[i]);
            }
            assert forall|i: int| 0 <= i < nv.best implies evaluation((#[trigger] nv.nodes[i]).state.me)
                < nv.best_score by {
                assert(nv.nodes[i] == ov[i]);
            }
            assert(nv.nodes[nv.best] == ov[nv.best]);
        }
    }

    /// The actions from the seed to node `k`, in the order they are played.
    pub fn path_to(&self, k: usize) -> (r: Vec<Action>)
        requires
            planner_wf(self@),
            k < self@.nodes.len(),
        ensures
            r@ == path_to_node(self@.nodes, k as int),
            run(self@.nodes[0].state, r@) == Some(self@.nodes[k as int].state),
            r@.len() == self@.nodes[k as int].depth,
    {
        let ghost ns = self@.nodes;
        proof {
            lemma_path_to_node(ns, self@.head, k as int);
            assert(ns[k as int] == self.nodes@[k as int]@);
            reveal(tree_wf);
        }
        let d = self.nodes[k].depth;
        let mut out: Vec<Action> = Vec::new();
        let mut i: usize = 0;
        while i < d
            invariant
                i <= d,
                out@.len() == i,
            decreases d - i,
        {
            out.push(Action::Wait);
            i = i + 1;
        }
        let mut cur = k;
        let mut pos = d;
        while cur != 0
            invariant
                ns == self@.nodes,
                ns[0].depth == 0,
                forall|i: int|
                    1 <= i < ns.len() ==> {
                        let p = (#[trigger] ns[i]).parent;
                        0 <= p < i && ns[i].depth == ns[p].depth + 1
                    },
                cur < ns.len(),
                pos == ns[cur as int].depth,
                out@.len() == d,
                pos <= d,
                path_to_node(ns, k as int) == path_to_node(ns, cur as int) + out@.subrange(pos as int, d as int),
            decreases cur,
        {
            assert(ns[cur as int] == self.nodes@[cur as int]@);
            let parent = self.nodes[cur].parent;
            let action = self.nodes[cur].action;
            let ghost before = out@;
            assert(ns[parent as int].depth + 1 == pos);
            pos = pos - 1;
            out.set(pos, action);
            proof {
                assert(out@.subrange(pos as int, d as int) =~= seq![action] + before.subrange(pos + 1, d as int));
                assert(path_to_node(ns, cur as int) == path_to_node(ns, parent as int).push(action));
                assert(path_to_node(ns, parent as int).push(action) + before.subrange(pos + 1, d as int)
                    =~= path_to_node(ns, parent as int) + out@.subrange(pos as int, d as int));
            }
            cur = parent;
        }
        assert(out@.subrange(0, d as int) =~= out@);
        out
    }

    /// The actions from the seed to the best node expanded so far.
    pub fn best_path(&self) -> (r: Vec<Action>)
        requires
            planner_wf(self@),
        ensures
            r@ == path_to_node(self@.nodes, self@.best),
            run(self@.nodes[0].state, r@) == Some(self@.nodes[self@.best].state),
            r@.len() == self@.nodes[self@.best].depth,
            evaluation(self@.nodes[self@.best].state.me) >= evaluation(self@.nodes[0].state.me),
            forall|p: Seq<Action>|
                #[trigger] offered_run(self@.nodes[0].state, self@.turn, p) == Some(self@.nodes[self@.best].state)
                    ==> r@.len() <= p.len(),
    {
        proof {
            assert forall|p: Seq<Action>|
                #[trigger] offered_run(self@.nodes[0].state, self@.turn, p) == Some(
                    self@.nodes[self@.best].state,
                ) implies self@.nodes[self@.best].depth <= p.len() by {
                if self@.best < self@.head {
                    lemma_expanded_depth_is_shortest(self@, self@.best, p);
                } else {
                    reveal(tree_wf);
                }
            }
            if self@.head == 0 {
                assert(self@.best == 0);
            } else {
                assert(evaluation(self@.nodes[0].state.me) <= self@.best_score);
            }
        }
        self.path_to(self.best)
    }
}

/// Once the frontier is empty, further expansions change nothing.
proof fn lemma_expanded_stable(g: GameView, turn: int, n: nat, m: nat)
    requires
        n <= m,
        expanded(g, turn, n).head >= expanded(g, turn, n).nodes.len(),
    ensures
        expanded(g, turn, m) == expanded(g, turn, n),
    decreases m - n,
{
    if n < m {
        lemma_expanded_stable(g, turn, n, (m - 1) as nat);
    }
}

/// The first action of a legal play is legal where the play starts.
pub proof fn lemma_run_first(g: GameView, path: Seq<Action>)
    requires
        path.len() > 0,
        run(g, path) is Some,
    ensures
        legal(g, path[0]),
    decreases path.len(),
{
    assert(run(g, path.drop_last()) is Some);
    if path.len() > 1 {
        lemma_run_first(g, path.drop_last());
        assert(path.drop_last()[0] == path[0]);
    } else {
        assert(run(g, path.drop_last()) == Some(g));
        assert(path.last() == path[0]);
    }
}

impl Planner {
    /// Searches from `game_state` with at most `budget` expansions. Returns nothing when
    /// every reachable state was expanded within the budget, else the shortest path found
    /// to the best state expanded, which is no worse than the seed.
    pub fn plan(game_state: &GameState, turn: usize, budget: usize) -> (r: Vec<Action>)
        requires
            game_wf(game_state@),
        ensures
            r@ == planned(game_state@, turn as int, budget as nat),
            r@.len() > 0 ==> run(game_state@, r@) is Some,
            r@.len() > 0 ==> evaluation(run(game_state@, r@)->Some_0.me) >= evaluation(game_state@.me),
            forall|p: Seq<Action>|
                #[trigger] offered_run(game_state@, turn as int, p) == run(game_state@, r@) ==> r@.len() <= p.len(),
    {
        let mut planner = Planner::new(game_state, turn);
        let mut n: usize = 0;
        while n < budget && planner.has_frontier()
            invariant
                n <= budget,
                planner_wf(planner@),
                planner@ == expanded(game_state@, turn as int, n as nat),
                planner@.nodes[0].state == game_state@,
                planner@.turn == turn,
            decreases budget - n,
        {
            planner.expand_next();
            n = n + 1;
        }
        if planner.has_frontier() {
            assert(n == budget);
            planner.best_path()
        } else {
            proof {
                lemma_expanded_stable(game_state@, turn as int, n as nat, budget as nat);
            }
            Vec::new()
        }
    }
}

/// A breadth-first search finds shortest plays: no sequence of offered actions from the
/// seed reaches the state of an expanded node in fewer actions than that node's depth.
pub proof fn lemma_expanded_depth_is_shortest(v: PlannerView, k: int, path: Seq<Action>)
    requires
        planner_wf(v),
        0 <= k < v.head,
        offered_run(v.nodes[0].state, v.turn, path) == Some(v.nodes[k].state),
    ensures
        v.nodes[k].depth <= path.len(),
{
    let ns = v.nodes;
    if path.len() < ns[k].depth {
        assert forall|i: int| 0 <= i < ns.len() && (#[trigger] ns[i]).depth < path.len() implies i < v.head by {
            reveal(tree_wf);
            if i >= k {
                assert(ns[k].depth <= ns[i].depth);
            }
        }
        lemma_offered_reach(ns, v.head, v.turn, path);
        let j = choose|j: int| 0 <= j < ns.len() && ns[j].state == ns[k].state && ns[j].depth <= path.len();
        reveal(tree_wf);
        if j < k {
            assert(ns[j].state != ns[k].state);
        } else if j > k {
            assert(ns[k].state != ns[j].state);
        }
    }
}

} // verus!
