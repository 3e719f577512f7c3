//! A snapshot of a parsed document's node tree, and the index of its
//! elements by `id` attribute that template edits go through.
use vstd::prelude::*;

verus! {

/// One node of the document, as the index needs it.
pub struct DomNode {
    /// The `id` attribute, for an element that has one.
    pub element_id: Option<String>,
    /// Whether the node is a text node.
    pub is_text: bool,
    /// The node's children, in document order.
    pub children: Vec<usize>,
}

/// The document's nodes by node id (a slot holds `None` where no node
/// lives), and the id of the root element.
pub struct DomSnapshot {
    pub nodes: Vec<Option<DomNode>>,
    pub root: usize,
}

/// A node as plain values.
pub struct NodeView {
    pub element_id: Option<Seq<char>>,
    pub is_text: bool,
    pub children: Seq<usize>,
}

impl DomNode {
    pub open spec fn view(&self) -> NodeView {
        NodeView {
            element_id: match self.element_id {
                Some(s) => Some(s@),
                None => None,
            },
            is_text: self.is_text,
            children: self.children@,
        }
    }
}

impl DomSnapshot {
    /// The nodes as plain values.
    pub open spec fn nodes_view(&self) -> Seq<Option<NodeView>> {
        self.nodes@.map_values(|o: Option<DomNode>| match o {
            Some(n) => Some(n.view()),
            None => None,
        })
    }
}

/// The node with id `n`, if one lives there (`BaseDocument::get_node`).
pub open spec fn node_at(t: Seq<Option<NodeView>>, n: int) -> Option<NodeView> {
    if 0 <= n < t.len() {
        t[n]
    } else {
        None
    }
}

/// The node's only child, when it has exactly one child and that child is a
/// text node.
pub open spec fn text_child(t: Seq<Option<NodeView>>, node: NodeView) -> Option<usize> {
    if node.children.len() == 1 {
        match node_at(t, node.children[0] as int) {
            Some(c) => if c.is_text { Some(node.children[0]) } else { None },
            None => None,
        }
    } else {
        None
    }
}

/// The order in which the walk meets the nodes below `n` (itself first): a
/// depth-first walk that takes a node's children last to first. `fuel`
/// bounds the depth.
pub open spec fn walk(t: Seq<Option<NodeView>>, n: usize, fuel: nat) -> Seq<usize>
    decreases fuel, 0nat,
{
    if fuel == 0 {
        Seq::<usize>::empty()
    } else {
        match node_at(t, n as int) {
            None => Seq::<usize>::empty(),
            Some(node) => seq![n] + walk_all(t, node.children, (fuel - 1) as nat),
        }
    }
}

/// The walks below the nodes of `cs`, last to first.
pub open spec fn walk_all(t: Seq<Option<NodeView>>, cs: Seq<usize>, fuel: nat) -> Seq<usize>
    decreases fuel, cs.len(),
{
    if cs.len() == 0 {
        Seq::<usize>::empty()
    } else {
        walk(t, cs.last(), fuel) + walk_all(t, cs.drop_last(), fuel)
    }
}

/// A rank for each node that grows from each node to each child that lives,
/// and stays below the number of slots: the node graph has no cycle.
pub open spec fn ranked(t: Seq<Option<NodeView>>, rank: Seq<nat>) -> bool {
    &&& rank.len() == t.len()
    &&& forall|i: int| 0 <= i < t.len() ==> #[trigger] rank[i] < t.len()
    &&& forall|i: int, j: int|
        0 <= i < t.len() && t[i] is Some && 0 <= j < t[i]->0.children.len() && node_at(t, t[i]->0.children[j] as int)
            is Some ==> rank[i] < #[trigger] rank[t[i]->0.children[j] as int]
}

/// The snapshot is a forest: walking it from any node ends.
pub open spec fn acyclic(t: Seq<Option<NodeView>>) -> bool {
    exists|rank: Seq<nat>| ranked(t, rank)
}

/// The id index that a walk in the given order builds: each element with an
/// `id` attribute met is recorded under that id, a later one replacing an
/// earlier one with the same id.
pub open spec fn index_of_walk(t: Seq<Option<NodeView>>, order: Seq<usize>) -> Map<Seq<char>, (usize, Option<usize>)>
    decreases order.len(),
{
    if order.len() == 0 {
        Map::empty()
    } else {
        let m = index_of_walk(t, order.drop_last());
        let n = order.last();
        match node_at(t, n as int) {
            Some(node) => match node.element_id {
                Some(k) => m.insert(k, (n, text_child(t, node))),
                None => m,
            },
            None => m,
        }
    }
}

/// The index of the document below the root element.
pub open spec fn document_index(t: Seq<Option<NodeView>>, root: usize) -> Map<Seq<char>, (usize, Option<usize>)> {
    index_of_walk(t, walk(t, root, t.len()))
}

/// One indexed element: its id, its node and its single text child.
pub struct IdEntry {
    pub id: String,
    pub node: usize,
    pub text: Option<usize>,
}

/// The elements of a document by `id` attribute. No id is recorded twice.
pub struct IdMap {
    entries: Vec<IdEntry>,
}

pub open spec fn entries_map(es: Seq<IdEntry>) -> Map<Seq<char>, (usize, Option<usize>)>
    decreases es.len(),
{
    if es.len() == 0 {
        Map::empty()
    } else {
        entries_map(es.drop_last()).insert(es.last().id@, (es.last().node, es.last().text))
    }
}

pub open spec fn unique_ids(es: Seq<IdEntry>) -> bool {
    forall|i: int, j: int| 0 <= i < es.len() && 0 <= j < es.len() && i != j ==> #[trigger] es[i].id@ != #[trigger] es[j].id@
}

impl View for IdMap {
    type V = Map<Seq<char>, (usize, Option<usize>)>;

    closed spec fn view(&self) -> Self::V {
        entries_map(self.entries@)
    }
}

proof fn lemma_entries_map_contains(es: Seq<IdEntry>, i: int)
    requires
        unique_ids(es),
        0 <= i < es.len(),
    ensures
        entries_map(es).contains_key(es[i].id@),
        entries_map(es)[es[i].id@] == (es[i].node, es[i].text),
    decreases es.len(),
{
    if i < es.len() - 1 {
        let p = es.drop_last();
        assert(p[i] == es[i]);
        assert(es.last().id@ != es[i].id@);
        lemma_entries_map_contains(p, i);
    }
}

proof fn lemma_entries_map_keys(es: Seq<IdEntry>, k: Seq<char>)
    ensures
        entries_map(es).contains_key(k) <==> exists|i: int| 0 <= i < es.len() && #[trigger] es[i].id@ == k,
    decreases es.len(),
{
    if es.len() > 0 {
        let p = es.drop_last();
        lemma_entries_map_keys(p, k);
        if exists|i: int| 0 <= i < p.len() && #[trigger] p[i].id@ == k {
            let i = choose|i: int| 0 <= i < p.len() && #[trigger] p[i].id@ == k;
            assert(es[i] == p[i]);
        }
        if exists|i: int| 0 <= i < es.len() && #[trigger] es[i].id@ == k {
            let i = choose|i: int| 0 <= i < es.len() && #[trigger] es[i].id@ == k;
            if i < es.len() - 1 {
                assert(p[i] == es[i]);
            }
        }
    }
}

proof fn lemma_entries_map_update(es: Seq<IdEntry>, i: int, e: IdEntry)
    requires
        unique_ids(es),
        0 <= i < es.len(),
        es[i].id@ == e.id@,
    ensures
        entries_map(es.update(i, e)) == entries_map(es).insert(e.id@, (e.node, e.text)),
    decreases es.len(),
{
    let u = es.update(i, e);
    if i == es.len() - 1 {
        assert(u.drop_last() =~= es.drop_last());
        let p = es.drop_last();
        assert forall|k: Seq<char>| #[trigger] entries_map(p).insert(e.id@, (e.node, e.text)).contains_key(k)
            == entries_map(es).insert(e.id@, (e.node, e.text)).contains_key(k) by {}
        assert(entries_map(u) =~= entries_map(es).insert(e.id@, (e.node, e.text)));
    } else {
        let p = es.drop_last();
        assert(u.drop_last() =~= p.update(i, e));
        assert forall|a: int, b: int| 0 <= a < p.len() && 0 <= b < p.len() && a != b implies #[trigger] p[a].id@
            != #[trigger] p[b].id@ by {
            assert(p[a] == es[a] && p[b] == es[b]);
        }
        lemma_entries_map_update(p, i, e);
        assert(es.last().id@ != es[i].id@);
        assert(u.last() == es.last());
        assert(entries_map(u) =~= entries_map(es).insert(e.id@, (e.node, e.text)));
    }
}

proof fn lemma_entries_map_len(es: Seq<IdEntry>)
    requires
        unique_ids(es),
    ensures
        entries_map(es).dom().finite(),
        entries_map(es).len() == es.len(),
    decreases es.len(),
{
    if es.len() > 0 {
        let p = es.drop_last();
        assert forall|a: int, b: int| 0 <= a < p.len() && 0 <= b < p.len() && a != b implies #[trigger] p[a].id@
            != #[trigger] p[b].id@ by {
            assert(p[a] == es[a] && p[b] == es[b]);
        }
        lemma_entries_map_len(p);
        lemma_entries_map_keys(p, es.last().id@);
        if entries_map(p).contains_key(es.last().id@) {
            let i = choose|i: int| 0 <= i < p.len() && #[trigger] p[i].id@ == es.last().id@;
            assert(p[i] == es[i]);
        }
        assert(entries_map(es).dom() =~= entries_map(p).dom().insert(es.last().id@));
    }
}

/// Records `node` under `id` in a list with no id twice, replacing what was
/// recorded under it before.
fn insert_entry(entries: &mut Vec<IdEntry>, id: String, node: usize, text: Option<usize>)
    requires
        unique_ids(old(entries)@),
    ensures
        unique_ids(final(entries)@),
        entries_map(final(entries)@) == entries_map(old(entries)@).insert(id@, (node, text)),
{
    let mut i: usize = 0;
    while i < entries.len()
        invariant
            i <= entries.len(),
            entries@ == old(entries)@,
            unique_ids(old(entries)@),
            forall|j: int| 0 <= j < i ==> #[trigger] entries@[j].id@ != id@,
        decreases entries.len() - i,
    {
        if entries[i].id == id {
            let ghost before = entries@;
            let e = IdEntry { id, node, text };
            entries.set(i, e);
            proof {
                lemma_entries_map_update(before, i as int, e);
                assert(entries@ == before.update(i as int, e));
                assert forall|a: int, b: int|
                    0 <= a < entries@.len() && 0 <= b < entries@.len() && a != b implies #[trigger] entries@[a].id@
                    != #[trigger] entries@[b].id@ by {
                    if a != i && b != i {
                        assert(entries@[a] == before[a]);
                        assert(entries@[b] == before[b]);
                    } else if a == i {
                        assert(entries@[b] == before[b]);
                    } else {
                        assert(entries@[a] == before[a]);
                    }
                }
            }
            return;
        }
        i = i + 1;
    }
    let ghost before = entries@;
    entries.push(IdEntry { id, node, text });
    proof {
        assert(entries@.drop_last() =~= before);
        assert forall|a: int, b: int|
            0 <= a < entries@.len() && 0 <= b < entries@.len() && a != b implies #[trigger] entries@[a].id@
            != #[trigger] entries@[b].id@ by {
            if a < before.len() {
                assert(entries@[a] == before[a]);
            }
            if b < before.len() {
                assert(entries@[b] == before[b]);
            }
        }
    }
}

impl IdMap {
    /// An index holding nothing.
    pub fn new() -> (m: IdMap)
        ensures
            m@ == Map::<Seq<char>, (usize, Option<usize>)>::empty(),
    {
        IdMap { entries: Vec::new() }
    }

    /// No id is recorded twice.
    #[verifier::type_invariant]
    spec fn wf(&self) -> bool {
        unique_ids(self.entries@)
    }

    /// How many ids are recorded.
    pub fn len(&self) -> (n: usize)
        ensures
            n == self@.len(),
    {
        proof {
            use_type_invariant(self);
            lemma_entries_map_len(self.entries@);
        }
        self.entries.len()
    }

    /// Records `node` (with its single text child) under `id`, replacing
    /// what was recorded under it before.
    pub fn insert(&mut self, id: String, node: usize, text: Option<usize>)
        ensures
            final(self)@ == old(self)@.insert(id@, (node, text)),
    {
        proof {
            use_type_invariant(&*self);
        }
        let mut entries: Vec<IdEntry> = Vec::new();
        std::mem::swap(&mut entries, &mut self.entries);
        insert_entry(&mut entries, id, node, text);
        self.entries = entries;
    }

    /// The node recorded under `id`, and its single text child.
    pub fn get(&self, id: &str) -> (res: Option<(usize, Option<usize>)>)
        ensures
            self@.contains_key(id@) ==> res == Some(self@[id@]),
            !self@.contains_key(id@) ==> res is None,
    {
        proof {
            use_type_invariant(self);
        }
        let key = id.to_owned();
        let mut i: usize = 0;
        while i < self.entries.len()
            invariant
                i <= self.entries.len(),
                unique_ids(self.entries@),
                key@ == id@,
                forall|j: int| 0 <= j < i ==> #[trigger] self.entries@[j].id@ != id@,
            decreases self.entries.len() - i,
        {
            if self.entries[i].id == key {
                proof {
                    lemma_entries_map_contains(self.entries@, i as int);
                }
                return Some((self.entries[i].node, self.entries[i].text));
            }
            i = i + 1;
        }
        proof {
            lemma_entries_map_keys(self.entries@, id@);
        }
        None
    }
}


proof fn lemma_walk_fuel(t: Seq<Option<NodeView>>, rank: Seq<nat>, cs: Seq<usize>, r: int, g1: nat, g2: nat)
    requires
        ranked(t, rank),
        -1 <= r < t.len(),
        forall|k: int|
            0 <= k < cs.len() && #[trigger] node_at(t, cs[k] as int) is Some ==> r < rank[cs[k] as int] && g1
                + rank[cs[k] as int] >= t.len() && g2 + rank[cs[k] as int] >= t.len(),
    ensures
        walk_all(t, cs, g1) == walk_all(t, cs, g2),
    decreases t.len() - r, cs.len(),
{
    if cs.len() > 0 {
        let c = cs.last();
        let p = cs.drop_last();
        assert forall|k: int| 0 <= k < p.len() && #[trigger] node_at(t, p[k] as int) is Some implies r < rank[p[k] as int]
            && g1 + rank[p[k] as int] >= t.len() && g2 + rank[p[k] as int] >= t.len() by {
            assert(p[k] == cs[k]);
        }
        lemma_walk_fuel(t, rank, p, r, g1, g2);
        assert(cs[cs.len() - 1] == c);
        assert(walk_all(t, cs, g1) == walk(t, c, g1) + walk_all(t, p, g1));
        assert(walk_all(t, cs, g2) == walk(t, c, g2) + walk_all(t, p, g2));
        match node_at(t, c as int) {
            None => {
                assert(walk(t, c, g1) == Seq::<usize>::empty());
                assert(walk(t, c, g2) == Seq::<usize>::empty());
            },
            Some(node) => {
                let rc = rank[c as int];
                assert(rc < t.len());
                assert(g1 >= 1 && g2 >= 1);
                let ch = node.children;
                assert forall|k: int| 0 <= k < ch.len() && #[trigger] node_at(t, ch[k] as int) is Some implies rc
                    < rank[ch[k] as int] && (g1 - 1) + rank[ch[k] as int] >= t.len() && (g2 - 1) + rank[ch[k] as int]
                    >= t.len() by {
                    assert(t[c as int] is Some);
                    assert(t[c as int]->0.children[k] == ch[k]);
                }
                lemma_walk_fuel(t, rank, ch, rc as int, (g1 - 1) as nat, (g2 - 1) as nat);
                assert(walk(t, c, g1) == seq![c] + walk_all(t, ch, (g1 - 1) as nat));
                assert(walk(t, c, g2) == seq![c] + walk_all(t, ch, (g2 - 1) as nat));
            },
        }
    }
}

proof fn lemma_walk_all_concat(t: Seq<Option<NodeView>>, a: Seq<usize>, b: Seq<usize>, f: nat)
    ensures
        walk_all(t, a + b, f) == walk_all(t, b, f) + walk_all(t, a, f),
    decreases b.len(),
{
    if b.len() == 0 {
        assert(a + b =~= a);
        assert(walk_all(t, b, f) == Seq::<usize>::empty());
        assert(Seq::<usize>::empty() + walk_all(t, a, f) =~= walk_all(t, a, f));
    } else {
        lemma_walk_all_concat(t, a, b.drop_last(), f);
        assert((a + b).drop_last() =~= a + b.drop_last());
        assert((a + b).last() == b.last());
        assert(walk_all(t, a + b, f) =~= walk_all(t, b, f) + walk_all(t, a, f));
    }
}

fn node_ref(doc: &DomSnapshot, n: usize) -> (r: Option<&DomNode>)
    ensures
        match node_at(doc.nodes_view(), n as int) {
            Some(v) => r matches Some(node) && node.view() == v,
            None => r is None,
        },
{
    if n < doc.nodes.len() {
        match &doc.nodes[n] {
            Some(node) => Some(node),
            None => None,
        }
    } else {
        None
    }
}

/// Walks the tree from the root element and indexes every element with an
/// `id` attribute by that id, with its single text child (when its only
/// child is a text node). Where two elements share an id, the one the walk
/// meets later (depth-first, children last to first) is kept.
pub fn build_id_map(doc: &DomSnapshot) -> (m: IdMap)
    requires
        acyclic(doc.nodes_view()),
    ensures
        m@ == document_index(doc.nodes_view(), doc.root),
{
    let ghost t = doc.nodes_view();
    let ghost n = t.len();
    let ghost rank = choose|rank: Seq<nat>| ranked(t, rank);
    let ghost full = walk(t, doc.root, n);
    let mut map = IdMap::new();
    let mut stack: Vec<usize> = Vec::new();
    stack.push(doc.root);
    let ghost mut visited: Seq<usize> = Seq::empty();
    proof {
        assert(stack@.drop_last() =~= Seq::<usize>::empty());
        assert(stack@.last() == doc.root);
        assert(walk_all(t, Seq::<usize>::empty(), n) == Seq::<usize>::empty());
        assert(walk_all(t, stack@, n) == walk(t, doc.root, n) + walk_all(t, Seq::<usize>::empty(), n));
        assert(walk_all(t, stack@, n) =~= full);
        assert(visited + walk_all(t, stack@, n) =~= full);
    }
    while stack.len() > 0
        invariant
            t == doc.nodes_view(),
            n == t.len(),
            ranked(t, rank),
            full == visited + walk_all(t, stack@, n),
            map@ == index_of_walk(t, visited),
        decreases walk_all(t, stack@, n).len(), stack.len(),
    {
        let ghost before = stack@;
        let node_id = stack.pop().unwrap();
        proof {
            assert(before.drop_last() =~= stack@);
            assert(before.last() == node_id);
        }
        match node_ref(doc, node_id) {
            None => {
                assert(walk(t, node_id, n) =~= Seq::<usize>::empty());
                assert(walk_all(t, before, n) =~= walk_all(t, stack@, n));
            },
            Some(node) => {
                let ghost nv = node.view();
                let ghost ch = nv.children;
                proof {
                    assert(t[node_id as int] == Some(nv));
                    assert forall|k: int| 0 <= k < ch.len() && #[trigger] node_at(t, ch[k] as int) is Some implies rank[node_id as int]
                        < rank[ch[k] as int] && (n - 1) + rank[ch[k] as int] >= n && n + rank[ch[k] as int] >= n by {
                        assert(t[node_id as int]->0.children[k] == ch[k]);
                    }
                    lemma_walk_fuel(t, rank, ch, rank[node_id as int] as int, (n - 1) as nat, n);
                    assert(walk(t, node_id, n) == seq![node_id] + walk_all(t, ch, n));
                }
                match &node.element_id {
                    Some(id) => {
                        let text = if node.children.len() == 1 {
                            let c = node.children[0];
                            match node_ref(doc, c) {
                                Some(cn) => if cn.is_text { Some(c) } else { None },
                                None => None,
                            }
                        } else {
                            None
                        };
                        assert(text == text_child(t, nv));
                        map.insert(id.clone(), node_id, text);
                    },
                    None => {},
                }
                let ghost rest = stack@;
                let mut k: usize = 0;
                while k < node.children.len()
                    invariant
                        k <= node.children.len(),
                        ch == node.children@,
                        stack@ == rest + ch.take(k as int),
                    decreases node.children.len() - k,
                {
                    stack.push(node.children[k]);
                    assert(ch.take(k + 1) =~= ch.take(k as int).push(ch[k as int]));
                    k = k + 1;
                }
                proof {
                    assert(ch.take(ch.len() as int) =~= ch);
                    lemma_walk_all_concat(t, rest, ch, n);
                    let vis2 = visited.push(node_id);
                    assert(vis2.drop_last() =~= visited);
                    assert(index_of_walk(t, vis2) == map@);
                    assert(full =~= vis2 + walk_all(t, stack@, n));
                    visited = vis2;
                }
            },
        }
    }
    proof {
        assert(walk_all(t, stack@, n) =~= Seq::<usize>::empty());
        assert(visited =~= full);
    }
    map
}


/// The index holds what it claims: every id it records names an element met
/// by the walk that carries exactly that id, recorded with its single text
/// child; and every element met by the walk that carries an id is found
/// under that id.
pub proof fn law_index_is_faithful(t: Seq<Option<NodeView>>, order: Seq<usize>)
    ensures
        forall|k: Seq<char>| #[trigger] index_of_walk(t, order).contains_key(k) ==> {
            let (n, tc) = index_of_walk(t, order)[k];
            &&& order.contains(n)
            &&& node_at(t, n as int) is Some
            &&& node_at(t, n as int)->0.element_id == Some(k)
            &&& tc == text_child(t, node_at(t, n as int)->0)
        },
        forall|i: int|
            0 <= i < order.len() && node_at(t, order[i] as int) is Some && #[trigger] node_at(t, order[i] as int)->0.element_id
                is Some ==> index_of_walk(t, order).contains_key(node_at(t, order[i] as int)->0.element_id->0),
    decreases order.len(),
{
    if order.len() > 0 {
        let p = order.drop_last();
        law_index_is_faithful(t, p);
        let m = index_of_walk(t, p);
        assert forall|k: Seq<char>| #[trigger] index_of_walk(t, order).contains_key(k) implies {
            let (n, tc) = index_of_walk(t, order)[k];
            &&& order.contains(n)
            &&& node_at(t, n as int) is Some
            &&& node_at(t, n as int)->0.element_id == Some(k)
            &&& tc == text_child(t, node_at(t, n as int)->0)
        } by {
            let n2 = index_of_walk(t, order)[k].0;
            if m.contains_key(k) && index_of_walk(t, order)[k] == m[k] {
                let j = choose|j: int| 0 <= j < p.len() && p[j] == n2;
                assert(order[j] == p[j]);
            } else {
                assert(order[order.len() - 1] == order.last());
            }
        }
        assert forall|i: int|
            0 <= i < order.len() && node_at(t, order[i] as int) is Some && #[trigger] node_at(t, order[i] as int)->0.element_id
                is Some implies index_of_walk(t, order).contains_key(node_at(t, order[i] as int)->0.element_id->0) by {
            if i < p.len() {
                assert(p[i] == order[i]);
            }
        }
    }
}


/// `p` is a path down the tree: every node on it lives, and each is a child
/// of the one before.
pub open spec fn is_path(t: Seq<Option<NodeView>>, p: Seq<usize>) -> bool {
    &&& p.len() >= 1
    &&& forall|i: int| 0 <= i < p.len() ==> #[trigger] node_at(t, p[i] as int) is Some
    &&& forall|i: int| 0 <= i < p.len() - 1 ==> node_at(t, p[i] as int)->0.children.contains(#[trigger] p[i + 1])
}

/// `n` lives in the subtree of `r` (`r` itself included).
pub open spec fn in_subtree(t: Seq<Option<NodeView>>, r: usize, n: usize) -> bool {
    exists|p: Seq<usize>| #[trigger] is_path(t, p) && p[0] == r && p.last() == n
}

proof fn lemma_walk_step(t: Seq<Option<NodeView>>, rank: Seq<nat>, n: usize)
    requires
        ranked(t, rank),
        node_at(t, n as int) is Some,
    ensures
        walk(t, n, t.len()) == seq![n] + walk_all(t, node_at(t, n as int)->0.children, t.len()),
{
    let ch = node_at(t, n as int)->0.children;
    assert forall|k: int| 0 <= k < ch.len() && #[trigger] node_at(t, ch[k] as int) is Some implies rank[n as int]
        < rank[ch[k] as int] && (t.len() - 1) + rank[ch[k] as int] >= t.len() && t.len() + rank[ch[k] as int] >= t.len() by {
        assert(t[n as int]->0.children[k] == ch[k]);
    }
    lemma_walk_fuel(t, rank, ch, rank[n as int] as int, (t.len() - 1) as nat, t.len());
}

proof fn lemma_walk_all_contains(t: Seq<Option<NodeView>>, cs: Seq<usize>, f: nat, x: usize)
    ensures
        walk_all(t, cs, f).contains(x) <==> exists|k: int| 0 <= k < cs.len() && #[trigger] walk(t, cs[k], f).contains(x),
    decreases cs.len(),
{
    if cs.len() > 0 {
        let p = cs.drop_last();
        lemma_walk_all_contains(t, p, f, x);
        let a = walk(t, cs.last(), f);
        let b = walk_all(t, p, f);
        assert(walk_all(t, cs, f) == a + b);
        if (a + b).contains(x) {
            let i = choose|i: int| 0 <= i < (a + b).len() && (a + b)[i] == x;
            if i < a.len() {
                assert(a[i] == x);
                assert(cs[cs.len() - 1] == cs.last());
                assert(walk(t, cs[cs.len() - 1], f).contains(x));
            } else {
                assert(b[i - a.len()] == x);
                let k = choose|k: int| 0 <= k < p.len() && #[trigger] walk(t, p[k], f).contains(x);
                assert(cs[k] == p[k]);
            }
        }
        if exists|k: int| 0 <= k < cs.len() && #[trigger] walk(t, cs[k], f).contains(x) {
            let k = choose|k: int| 0 <= k < cs.len() && #[trigger] walk(t, cs[k], f).contains(x);
            if k == cs.len() - 1 {
                let i = choose|i: int| 0 <= i < a.len() && a[i] == x;
                assert((a + b)[i] == x);
            } else {
                assert(p[k] == cs[k]);
                assert(b.contains(x));
                let i = choose|i: int| 0 <= i < b.len() && b[i] == x;
                assert((a + b)[a.len() + i] == x);
            }
        }
    }
}

/// The walk from `r` holds `x` exactly when `x` lives in the subtree of `r`.
proof fn lemma_walk_is_subtree(t: Seq<Option<NodeView>>, rank: Seq<nat>, r: usize, x: usize)
    requires
        ranked(t, rank),
    ensures
        walk(t, r, t.len()).contains(x) <==> in_subtree(t, r, x),
    decreases t.len() - (if node_at(t, r as int) is Some { rank[r as int] as int } else { 0 }), 0int,
{
    let n = t.len();
    match node_at(t, r as int) {
        None => {
            assert(walk(t, r, n) == Seq::<usize>::empty()) by {
                if n > 0 {
                    assert(walk(t, r, n) == Seq::<usize>::empty());
                }
            }
            if in_subtree(t, r, x) {
                let p = choose|p: Seq<usize>| #[trigger] is_path(t, p) && p[0] == r && p.last() == x;
                assert(node_at(t, p[0] as int) is Some);
            }
        },
        Some(node) => {
            lemma_walk_step(t, rank, r);
            let ch = node.children;
            lemma_walk_all_contains(t, ch, n, x);
            if walk(t, r, n).contains(x) {
                if x != r {
                    let w = walk(t, r, n);
                    let i = choose|i: int| 0 <= i < w.len() && w[i] == x;
                    assert(i > 0);
                    assert(walk_all(t, ch, n)[i - 1] == x);
                    assert(walk_all(t, ch, n).contains(x));
                    let k = choose|k: int| 0 <= k < ch.len() && #[trigger] walk(t, ch[k], n).contains(x);
                    let c = ch[k];
                    assert(node_at(t, c as int) is Some) by {
                        if node_at(t, c as int) is None {
                            assert(walk(t, c, n) == Seq::<usize>::empty());
                        }
                    }
                    assert(t[r as int]->0.children[k] == c);
                    assert(rank[r as int] < rank[c as int]);
                    lemma_walk_is_subtree(t, rank, c, x);
                    let q = choose|q: Seq<usize>| #[trigger] is_path(t, q) && q[0] == c && q.last() == x;
                    let p = seq![r] + q;
                    assert(p[0] == r);
                    assert(p.last() == x);
                    assert forall|j: int| 0 <= j < p.len() implies #[trigger] node_at(t, p[j] as int) is Some by {
                        if j > 0 {
                            assert(p[j] == q[j - 1]);
                        }
                    }
                    assert forall|j: int| 0 <= j < p.len() - 1 implies node_at(t, p[j] as int)->0.children.contains(
                        #[trigger] p[j + 1],
                    ) by {
                        if j == 0 {
                            assert(p[1] == q[0]);
                            assert(ch[k] == c);
                            assert(ch.contains(c));
                            assert(node_at(t, p[0] as int)->0.children == ch);
                        } else {
                            assert(p[j] == q[j - 1]);
                            assert(p[j + 1] == q[j]);
                            assert(node_at(t, q[j - 1] as int)->0.children.contains(q[(j - 1) + 1]));
                        }
                    }
                    assert(is_path(t, p));
                } else {
                    let p = seq![r];
                    assert(is_path(t, p));
                }
            }
            if in_subtree(t, r, x) {
                let p = choose|p: Seq<usize>| #[trigger] is_path(t, p) && p[0] == r && p.last() == x;
                if p.len() == 1 {
                    assert(x == r);
                    assert(walk(t, r, n)[0] == r);
                } else {
                    let c = p[1];
                    assert(node_at(t, p[0] as int)->0.children.contains(p[1]));
                    let k = choose|k: int| 0 <= k < ch.len() && ch[k] == c;
                    assert(node_at(t, c as int) is Some);
                    assert(t[r as int]->0.children[k] == c);
                    assert(rank[r as int] < rank[c as int]);
                    let q = p.drop_first();
                    assert(q[0] == c);
                    assert(q.last() == x);
                    assert forall|j: int| 0 <= j < q.len() implies #[trigger] node_at(t, q[j] as int) is Some by {
                        assert(q[j] == p[j + 1]);
                    }
                    assert forall|j: int| 0 <= j < q.len() - 1 implies node_at(t, q[j] as int)->0.children.contains(
                        #[trigger] q[j + 1],
                    ) by {
                        assert(q[j] == p[j + 1]);
                        assert(q[j + 1] == p[j + 2]);
                    }
                    assert(is_path(t, q));
                    lemma_walk_is_subtree(t, rank, c, x);
                    assert(walk(t, ch[k], n).contains(x));
                    assert(walk_all(t, ch, n).contains(x));
                    let i = choose|i: int| 0 <= i < walk_all(t, ch, n).len() && walk_all(t, ch, n)[i] == x;
                    assert(walk(t, r, n)[i + 1] == x);
                }
            }
        },
    }
}

/// The index covers exactly the elements below the root element: an id is
/// recorded if and only if some element in the root's subtree carries it,
/// and the node recorded under it is such an element.
pub proof fn law_index_covers_the_subtree(t: Seq<Option<NodeView>>, root: usize)
    requires
        acyclic(t),
    ensures
        forall|k: Seq<char>| #[trigger] document_index(t, root).contains_key(k) <==> exists|n: usize|
            in_subtree(t, root, n) && #[trigger] node_at(t, n as int)->0.element_id == Some(k),
        forall|k: Seq<char>| #[trigger] document_index(t, root).contains_key(k) ==> {
            let n = document_index(t, root)[k].0;
            in_subtree(t, root, n) && node_at(t, n as int)->0.element_id == Some(k)
        },
{
    let rank = choose|rank: Seq<nat>| ranked(t, rank);
    let w = walk(t, root, t.len());
    law_index_is_faithful(t, w);
    assert forall|k: Seq<char>| #[trigger] document_index(t, root).contains_key(k) implies {
        let n = document_index(t, root)[k].0;
        in_subtree(t, root, n) && node_at(t, n as int)->0.element_id == Some(k)
    } by {
        let n = document_index(t, root)[k].0;
        lemma_walk_is_subtree(t, rank, root, n);
    }
    assert forall|k: Seq<char>| #[trigger] document_index(t, root).contains_key(k) <==> exists|n: usize|
        in_subtree(t, root, n) && #[trigger] node_at(t, n as int)->0.element_id == Some(k) by {
        if document_index(t, root).contains_key(k) {
            let n = document_index(t, root)[k].0;
            lemma_walk_is_subtree(t, rank, root, n);
            assert(in_subtree(t, root, n) && node_at(t, n as int)->0.element_id == Some(k));
        }
        if exists|n: usize| in_subtree(t, root, n) && #[trigger] node_at(t, n as int)->0.element_id == Some(k) {
            let n = choose|n: usize| in_subtree(t, root, n) && #[trigger] node_at(t, n as int)->0.element_id == Some(k);
            lemma_walk_is_subtree(t, rank, root, n);
            let i = choose|i: int| 0 <= i < w.len() && w[i] == n;
            let p = choose|p: Seq<usize>| #[trigger] is_path(t, p) && p[0] == root && p.last() == n;
            assert(node_at(t, p[p.len() - 1] as int) is Some);
            assert(node_at(t, w[i] as int) is Some);
        }
    }
}

/// The text node recorded for an element is its one and only child, and a
/// live text node; and an element whose one and only child is a live text
/// node has that child recorded. So a text edit through the index reaches a
/// text node, never an element.
pub proof fn law_index_text_child_is_text(t: Seq<Option<NodeView>>, root: usize)
    ensures
        forall|k: Seq<char>| #[trigger] document_index(t, root).contains_key(k) ==> {
            let (n, tc) = document_index(t, root)[k];
            let ch = node_at(t, n as int)->0.children;
            &&& node_at(t, n as int) is Some
            &&& tc matches Some(c) ==> ch == seq![c] && node_at(t, c as int) is Some && node_at(
                t,
                c as int,
            )->0.is_text
            &&& tc is None ==> !(ch.len() == 1 && node_at(t, ch[0] as int) is Some && node_at(
                t,
                ch[0] as int,
            )->0.is_text)
        },
{
    let w = walk(t, root, t.len());
    law_index_is_faithful(t, w);
    assert forall|k: Seq<char>| #[trigger] document_index(t, root).contains_key(k) implies {
        let (n, tc) = document_index(t, root)[k];
        let ch = node_at(t, n as int)->0.children;
        &&& node_at(t, n as int) is Some
        &&& tc matches Some(c) ==> ch == seq![c] && node_at(t, c as int) is Some && node_at(t, c as int)->0.is_text
        &&& tc is None ==> !(ch.len() == 1 && node_at(t, ch[0] as int) is Some && node_at(t, ch[0] as int)->0.is_text)
    } by {
        let (n, tc) = document_index(t, root)[k];
        let ch = node_at(t, n as int)->0.children;
        if ch.len() == 1 {
            assert(ch =~= seq![ch[0]]);
        }
    }
}

} // verus!
