//! Arena tree addressed by dense integer ids.
//!
//! The tree owns every node. A node is named by a [`NodeId`]; parent links,
//! ordered child lists and payloads are kept in maps keyed by the id, so a
//! node can be moved or detached without disturbing any other id.

use std::collections::BTreeMap;
use vstd::prelude::*;

verus! {

/// Index of a node in a [`Tree`]. Ids are handed out in increasing order and
/// are never reused while the tree lives.
#[derive(Debug, Clone, Copy, PartialEq, Eq, Structural, PartialOrd, Ord, Default)]
pub struct NodeId(pub u32);

impl NodeId {
    pub fn value(&self) -> (v: u32)
        ensures
            v == self.0,
    {
        self.0
    }
}

/// Parent links, ordered child lists and per-node payloads, all keyed by node id.
pub struct Tree<T> {
    node_id_counter: u32,
    child_map: BTreeMap<u32, Vec<NodeId>>,
    parent_map: BTreeMap<u32, NodeId>,
    contexts: BTreeMap<u32, T>,
}

/// The child lists as sequences.
pub open spec fn lists_of(m: Map<u32, Vec<NodeId>>) -> Map<u32, Seq<NodeId>> {
    m.map_values(|v: Vec<NodeId>| v@)
}

/// `lists` with `id` taken out of the list of its recorded parent, if it has both.
pub open spec fn detach(
    lists: Map<u32, Seq<NodeId>>,
    parents: Map<u32, NodeId>,
    id: NodeId,
) -> Map<u32, Seq<NodeId>> {
    if parents.contains_key(id.0) && lists.contains_key(parents[id.0].0) {
        let p = parents[id.0].0;
        lists.insert(p, lists[p].remove_value(id))
    } else {
        lists
    }
}

/// The list of `p` in `lists`, empty where `p` has none.
pub open spec fn list_or_empty(lists: Map<u32, Seq<NodeId>>, p: u32) -> Seq<NodeId> {
    if lists.contains_key(p) {
        lists[p]
    } else {
        Seq::empty()
    }
}

/// `s` with `id` put in front of the first occurrence of `before`, or at the
/// end where `before` does not occur.
pub open spec fn insert_before(s: Seq<NodeId>, before: NodeId, id: NodeId) -> Seq<NodeId> {
    match s.index_of_first(before) {
        Some(i) => s.insert(i, id),
        None => s.push(id),
    }
}

/// What a tree holds, as plain maps: the mathematical model that the
/// contracts of [`Tree`] speak of.
#[verifier::ext_equal]
pub struct TreeState<T> {
    /// Number of ids handed out so far.
    pub count: nat,
    /// The recorded parent of each node that was ever attached.
    pub parents: Map<u32, NodeId>,
    /// The ordered child list of each node that ever received a child.
    pub lists: Map<u32, Seq<NodeId>>,
    /// The payload of each node that holds one.
    pub payloads: Map<u32, T>,
}

impl<T> TreeState<T> {
    /// The tree without any node.
    pub open spec fn empty() -> Self {
        TreeState { count: 0, parents: Map::empty(), lists: Map::empty(), payloads: Map::empty() }
    }

    /// Whether `id` was handed out.
    pub open spec fn known(self, id: NodeId) -> bool {
        (id.0 as nat) < self.count
    }

    /// See [`Tree::well_formed`].
    pub open spec fn well_formed(self) -> bool {
        shape_ok(self.count, self.parents, self.lists) && forall|k: u32|
            #![trigger self.payloads.contains_key(k)]
            self.payloads.contains_key(k) ==> (k as nat) < self.count
    }

    /// One more id handed out, without payload.
    pub open spec fn grown(self) -> Self {
        TreeState { count: self.count + 1, ..self }
    }

    /// `id` holds `payload`, if `id` was handed out.
    pub open spec fn with_payload(self, id: NodeId, payload: T) -> Self {
        if self.known(id) {
            TreeState { payloads: self.payloads.insert(id.0, payload), ..self }
        } else {
            self
        }
    }

    /// `id` holds no payload.
    pub open spec fn without_payload(self, id: NodeId) -> Self {
        TreeState { payloads: self.payloads.remove(id.0), ..self }
    }

    /// `id` taken out of the list of its recorded parent; the link stays.
    pub open spec fn detached(self, id: NodeId) -> Self {
        TreeState { lists: detach(self.lists, self.parents, id), ..self }
    }

    /// `child` moved to the end of the list of `parent`. Unknown ids change
    /// nothing.
    pub open spec fn attached(self, parent: NodeId, child: NodeId) -> Self {
        if self.known(parent) && self.known(child) {
            let lists = detach(self.lists, self.parents, child);
            TreeState {
                parents: self.parents.insert(child.0, parent),
                lists: lists.insert(parent.0, list_or_empty(lists, parent.0).push(child)),
                ..self
            }
        } else {
            self
        }
    }

    /// `child` moved in front of `sibling` under the sibling's recorded
    /// parent. A sibling without parent, or an unknown child, changes nothing.
    pub open spec fn attached_before(self, sibling: NodeId, child: NodeId) -> Self {
        if self.parents.contains_key(sibling.0) && self.known(child) {
            let parent = self.parents[sibling.0];
            let lists = detach(self.lists, self.parents, child);
            TreeState {
                parents: self.parents.insert(child.0, parent),
                lists: lists.insert(
                    parent.0,
                    insert_before(list_or_empty(lists, parent.0), sibling, child),
                ),
                ..self
            }
        } else {
            self
        }
    }

    /// The last child of `parent`, if it has one.
    pub open spec fn last_child(self, parent: NodeId) -> Option<NodeId> {
        if self.lists.contains_key(parent.0) && self.lists[parent.0].len() > 0 {
            Some(self.lists[parent.0].last())
        } else {
            None
        }
    }

    /// The same tree with every payload seen through `f`.
    pub open spec fn map_payloads<U>(self, f: spec_fn(T) -> U) -> TreeState<U> {
        TreeState {
            count: self.count,
            parents: self.parents,
            lists: self.lists,
            payloads: self.payloads.map_values(f),
        }
    }
}

/// The items of `v` in reverse order.
pub fn reversed<T>(v: Vec<T>) -> (r: Vec<T>)
    ensures
        r@ == v@.reverse(),
{
    let mut v = v;
    let mut r: Vec<T> = Vec::new();
    let ghost all = v@;
    while v.len() > 0
        invariant
            v@.len() + r@.len() == all.len(),
            forall|i: int| 0 <= i < v@.len() ==> v@[i] == all[i],
            forall|i: int| 0 <= i < r@.len() ==> r@[i] == all[all.len() - 1 - i],
        decreases v.len(),
    {
        let x = v.pop().unwrap();
        r.push(x);
    }
    assert(r@ =~= all.reverse());
    r
}

/// First position of `id` in `v`.
pub fn position(v: &Vec<NodeId>, id: NodeId) -> (r: Option<usize>)
    ensures
        r == match v@.index_of_first(id) {
            Some(i) => Some(i as usize),
            None => None,
        },
        r matches Some(i) ==> i < v.len(),
{
    let mut i: usize = 0;
    while i < v.len()
        invariant
            i <= v.len(),
            forall|j: int| 0 <= j < i ==> v@[j] != id,
        decreases v.len() - i,
    {
        if v[i] == id {
            proof {
                v@.index_of_first_ensures(id);
            }
            return Some(i);
        }
        i = i + 1;
    }
    proof {
        v@.index_of_first_ensures(id);
    }
    None
}

impl<T> Tree<T> {
    /// Number of ids handed out so far.
    pub closed spec fn count(&self) -> nat {
        self.node_id_counter as nat
    }

    /// The recorded parent of each node that was ever attached.
    pub closed spec fn parents(&self) -> Map<u32, NodeId> {
        self.parent_map@
    }

    /// The ordered child list of each node that ever received a child.
    pub closed spec fn child_lists(&self) -> Map<u32, Seq<NodeId>> {
        lists_of(self.child_map@)
    }

    /// The payload of each node that holds one.
    pub closed spec fn payloads(&self) -> Map<u32, T> {
        self.contexts@
    }

    /// Everything the tree holds.
    pub open spec fn state(&self) -> TreeState<T> {
        TreeState {
            count: self.count(),
            parents: self.parents(),
            lists: self.child_lists(),
            payloads: self.payloads(),
        }
    }

    /// Whether this tree has handed out `id`.
    pub open spec fn known(&self, id: NodeId) -> bool {
        (id.0 as nat) < self.count()
    }

    /// The maps speak of handed-out ids only, every listed child names the
    /// list's owner as its parent, and no list holds a node twice: a node
    /// hangs under at most one parent, at one place.
    pub open spec fn well_formed(&self) -> bool {
        self.state().well_formed()
    }

    #[verifier::type_invariant]
    spec fn inv(&self) -> bool {
        shape_ok(self.node_id_counter as nat, self.parent_map@, lists_of(self.child_map@))
            && forall|k: u32|
            #![trigger self.contexts@.contains_key(k)]
            self.contexts@.contains_key(k) ==> k < self.node_id_counter
    }

    /// Names the four parts of the tree's state in the caller's context.
    proof fn snapshot(&self)
        ensures
            self.count() == self.node_id_counter,
            self.parents() == self.parent_map@,
            self.child_lists() == lists_of(self.child_map@),
            self.payloads() == self.contexts@,
    {
    }

    pub fn new() -> (tree: Self)
        ensures
            tree.state() == TreeState::<T>::empty(),
    {
        let child_map: BTreeMap<u32, Vec<NodeId>> = BTreeMap::new();
        assert(lists_of(child_map@) =~= Map::<u32, Seq<NodeId>>::empty());
        Self {
            node_id_counter: 0,
            child_map,
            parent_map: BTreeMap::new(),
            contexts: BTreeMap::new(),
        }
    }

    pub fn node_count(&self) -> (n: u32)
        ensures
            n == self.count(),
            self.well_formed(),
    {
        proof {
            use_type_invariant(self);
        }
        self.node_id_counter
    }

    pub fn contains(&self, id: NodeId) -> (b: bool)
        ensures
            b == self.known(id),
    {
        id.0 < self.node_id_counter
    }

    pub fn parent(&self, id: NodeId) -> (r: Option<NodeId>)
        ensures
            r == (if self.parents().contains_key(id.0) {
                Some(self.parents()[id.0])
            } else {
                None
            }),
    {
        match self.parent_map.get(&id.0) {
            Some(p) => Some(*p),
            None => None,
        }
    }

    pub fn children(&self, id: NodeId) -> (r: Option<&Vec<NodeId>>)
        ensures
            match r {
                Some(v) => self.child_lists().contains_key(id.0) && v@ == self.child_lists()[id.0],
                None => !self.child_lists().contains_key(id.0),
            },
    {
        self.child_map.get(&id.0)
    }

    pub fn get_context(&self, id: NodeId) -> (r: Option<&T>)
        ensures
            match r {
                Some(c) => self.payloads().contains_key(id.0) && *c == self.payloads()[id.0],
                None => !self.payloads().contains_key(id.0),
            },
    {
        self.contexts.get(&id.0)
    }

    /// Takes the payload of `id` out of the tree, to be changed and put back
    /// with [`Tree::set_context`].
    pub fn take_context(&mut self, id: NodeId) -> (r: Option<T>)
        ensures
            final(self).state() == old(self).state().without_payload(id),
            match r {
                Some(c) => old(self).payloads().contains_key(id.0) && c == old(self).payloads()[id.0],
                None => !old(self).payloads().contains_key(id.0),
            },
    {
        proof {
            use_type_invariant(&*self);
            self.snapshot();
        }
        let mut contexts = BTreeMap::new();
        std::mem::swap(&mut self.contexts, &mut contexts);
        let r = contexts.remove(&id.0);
        self.contexts = contexts;
        r
    }

    /// Gives `id` the payload `context`, replacing the one it had. An id that
    /// this tree did not hand out names no node, and nothing changes.
    pub fn set_context(&mut self, id: NodeId, context: T)
        ensures
            final(self).state() == old(self).state().with_payload(id, context),
    {
        proof {
            use_type_invariant(&*self);
            self.snapshot();
        }
        if id.0 < self.node_id_counter {
            let mut contexts = BTreeMap::new();
            std::mem::swap(&mut self.contexts, &mut contexts);
            contexts.insert(id.0, context);
            self.contexts = contexts;
        }
    }

    /// Takes `id` out of the child list of its recorded parent. The parent
    /// link itself stays, and no other id is touched.
    pub fn remove_parent(&mut self, id: NodeId)
        ensures
            final(self).state() == old(self).state().detached(id),
    {
        proof {
            use_type_invariant(&*self);
            self.snapshot();
        }
        let mut lists = BTreeMap::new();
        std::mem::swap(&mut self.child_map, &mut lists);
        detach_in(&mut lists, &self.parent_map, id);
        proof {
            lemma_detached_is_absent(
                old(self).count(),
                old(self).parents(),
                old(self).child_lists(),
                id,
            );
        }
        self.child_map = lists;
    }

    /// Hands out the next id without attaching a payload.
    pub fn add_node(&mut self) -> (id: NodeId)
        requires
            old(self).count() < u32::MAX,
        ensures
            id.0 == old(self).count(),
            final(self).state() == old(self).state().grown(),
    {
        proof {
            use_type_invariant(&*self);
            self.snapshot();
        }
        let id = NodeId(self.node_id_counter);
        self.node_id_counter = self.node_id_counter + 1;
        id
    }

    /// Hands out the next id and attaches `context` to it.
    pub fn add_node_with_context(&mut self, context: T) -> (id: NodeId)
        requires
            old(self).count() < u32::MAX,
        ensures
            id.0 == old(self).count(),
            final(self).state() == old(self).state().grown().with_payload(id, context),
    {
        proof {
            use_type_invariant(&*self);
            self.snapshot();
        }
        let id = NodeId(self.node_id_counter);
        self.node_id_counter = self.node_id_counter + 1;
        let mut contexts = BTreeMap::new();
        std::mem::swap(&mut self.contexts, &mut contexts);
        contexts.insert(id.0, context);
        self.contexts = contexts;
        id
    }

    /// Makes `child_id` the last child of `parent_id`, taking it out of the
    /// list it was in. Ids that this tree did not hand out name no node, and
    /// nothing changes.
    pub fn add_child(&mut self, parent_id: NodeId, child_id: NodeId)
        ensures
            final(self).state() == old(self).state().attached(parent_id, child_id),
    {
        proof {
            use_type_invariant(&*self);
            self.snapshot();
        }
        if !(self.contains(parent_id) && self.contains(child_id)) {
            return ;
        }
        let ghost lists0 = self.child_lists();
        let ghost parents0 = self.parents();
        let ghost lists1 = detach(lists0, parents0, child_id);
        let mut lists = BTreeMap::new();
        std::mem::swap(&mut self.child_map, &mut lists);
        let mut parents = BTreeMap::new();
        std::mem::swap(&mut self.parent_map, &mut parents);
        detach_in(&mut lists, &parents, child_id);
        let taken = lists.remove(&parent_id.0);
        assert(lists_of(lists@) =~= lists1.remove(parent_id.0));
        parents.insert(child_id.0, parent_id);
        let mut v = match taken {
            Some(v) => v,
            None => Vec::new(),
        };
        assert(v@ == list_or_empty(lists1, parent_id.0));
        v.push(child_id);
        lists.insert(parent_id.0, v);
        assert(lists_of(lists@) =~= lists1.insert(
            parent_id.0,
            list_or_empty(lists1, parent_id.0).push(child_id),
        ));
        proof {
            let base = list_or_empty(lists1, parent_id.0);
            assert(base.push(child_id) =~= base.insert(base.len() as int, child_id));
            lemma_detached_is_absent(self.count(), parents0, lists0, child_id);
            lemma_attach_keeps_shape(
                self.count(),
                parents0,
                lists1,
                parent_id,
                child_id,
                base.push(child_id),
            );
        }
        self.parent_map = parents;
        self.child_map = lists;
    }

    /// Puts `child_id` in front of `sibling_id` in the list of the sibling's
    /// parent (at its end, where the sibling is no longer listed there),
    /// taking it out of the list it was in. A sibling without a recorded
    /// parent is refused with `false` and nothing changes. A `child_id` that
    /// this tree did not hand out names no node, and nothing changes.
    pub fn add_child_before_sibling(&mut self, sibling_id: NodeId, child_id: NodeId) -> (ok: bool)
        ensures
            ok == old(self).parents().contains_key(sibling_id.0),
            final(self).state() == old(self).state().attached_before(sibling_id, child_id),
    {
        proof {
            use_type_invariant(&*self);
            self.snapshot();
        }
        let parent_id = match self.parent(sibling_id) {
            Some(p) => p,
            None => {
                return false;
            },
        };
        if !self.contains(child_id) {
            return true;
        }
        let ghost lists0 = self.child_lists();
        let ghost parents0 = self.parents();
        let ghost lists1 = detach(lists0, parents0, child_id);
        let mut lists = BTreeMap::new();
        std::mem::swap(&mut self.child_map, &mut lists);
        let mut parents = BTreeMap::new();
        std::mem::swap(&mut self.parent_map, &mut parents);
        detach_in(&mut lists, &parents, child_id);
        let taken = lists.remove(&parent_id.0);
        assert(lists_of(lists@) =~= lists1.remove(parent_id.0));
        parents.insert(child_id.0, parent_id);
        let mut v = match taken {
            Some(v) => v,
            None => Vec::new(),
        };
        let ghost s0 = v@;
        assert(s0 == list_or_empty(lists1, parent_id.0));
        let pos = position(&v, sibling_id);
        proof {
            s0.index_of_first_ensures(sibling_id);
        }
        match pos {
            Some(i) => {
                v.insert(i, child_id);
            },
            None => {
                v.push(child_id);
            },
        }
        assert(v@ == insert_before(s0, sibling_id, child_id));
        lists.insert(parent_id.0, v);
        assert(lists_of(lists@) =~= lists1.insert(
            parent_id.0,
            insert_before(s0, sibling_id, child_id),
        ));
        proof {
            assert(s0.push(child_id) =~= s0.insert(s0.len() as int, child_id));
            lemma_detached_is_absent(self.count(), parents0, lists0, child_id);
            lemma_attach_keeps_shape(
                self.count(),
                parents0,
                lists1,
                parent_id,
                child_id,
                insert_before(s0, sibling_id, child_id),
            );
        }
        self.parent_map = parents;
        self.child_map = lists;
        true
    }

    /// Forgets every node; the next id handed out is 0 again.
    pub fn clear(&mut self)
        ensures
            final(self).state() == TreeState::<T>::empty(),
    {
        proof {
            use_type_invariant(&*self);
            self.snapshot();
        }
        let child_map: BTreeMap<u32, Vec<NodeId>> = BTreeMap::new();
        assert(lists_of(child_map@) =~= Map::<u32, Seq<NodeId>>::empty());
        self.child_map = child_map;
        self.parent_map = BTreeMap::new();
        self.contexts = BTreeMap::new();
        self.node_id_counter = 0;
    }
}

/// The part of [`Tree::well_formed`] that speaks of links and lists.
pub open spec fn shape_ok(
    count: nat,
    parents: Map<u32, NodeId>,
    lists: Map<u32, Seq<NodeId>>,
) -> bool {
    &&& forall|k: u32|
        #![trigger parents.contains_key(k)]
        parents.contains_key(k) ==> (k as nat) < count && (parents[k].0 as nat) < count
    &&& forall|p: u32|
        #![trigger lists.contains_key(p)]
        lists.contains_key(p) ==> (p as nat) < count && lists[p].no_duplicates()
    &&& forall|p: u32, i: int|
        #![trigger lists[p][i]]
        lists.contains_key(p) && 0 <= i < lists[p].len() ==> parents.contains_key(lists[p][i].0)
            && parents[lists[p][i].0] == NodeId(p)
}

/// Taking a value out of a list without repeats leaves a list without repeats
/// that no longer holds the value.
pub proof fn lemma_remove_keeps_distinct(s: Seq<NodeId>, id: NodeId)
    requires
        s.no_duplicates(),
    ensures
        s.remove_value(id).no_duplicates(),
        !s.remove_value(id).contains(id),
        forall|x: NodeId| s.remove_value(id).contains(x) ==> s.contains(x),
{
    s.index_of_first_ensures(id);
    let r = s.remove_value(id);
    match s.index_of_first(id) {
        Some(k) => {
            assert forall|i: int, j: int| 0 <= i < r.len() && 0 <= j < r.len() && i != j implies r[i]
                != r[j] by {
                let a = if i < k { i } else { i + 1 };
                let b = if j < k { j } else { j + 1 };
                assert(r[i] == s[a]);
                assert(r[j] == s[b]);
            }
            assert forall|i: int| 0 <= i < r.len() implies r[i] != id by {
                let a = if i < k { i } else { i + 1 };
                assert(r[i] == s[a]);
            }
            assert forall|x: NodeId| r.contains(x) implies s.contains(x) by {
                let i = choose|i: int| 0 <= i < r.len() && r[i] == x;
                let a = if i < k { i } else { i + 1 };
                assert(r[i] == s[a]);
            }
        },
        None => {},
    }
}

/// In a well-formed tree, a node taken out of its parent's list is in no list.
pub proof fn lemma_detached_is_absent(
    count: nat,
    parents: Map<u32, NodeId>,
    lists: Map<u32, Seq<NodeId>>,
    id: NodeId,
)
    requires
        shape_ok(count, parents, lists),
    ensures
        shape_ok(count, parents, detach(lists, parents, id)),
        forall|p: u32|
            #![trigger detach(lists, parents, id).contains_key(p)]
            detach(lists, parents, id).contains_key(p) ==> !detach(lists, parents, id)[p].contains(
                id,
            ),
{
    let d = detach(lists, parents, id);
    if parents.contains_key(id.0) && lists.contains_key(parents[id.0].0) {
        let q = parents[id.0].0;
        lemma_remove_keeps_distinct(lists[q], id);
        assert forall|p: u32, i: int|
            #![trigger d[p][i]]
            d.contains_key(p) && 0 <= i < d[p].len() implies parents.contains_key(d[p][i].0)
            && parents[d[p][i].0] == NodeId(p) by {
            if p == q {
                assert(d[p].contains(d[p][i]));
                assert(lists[q].contains(d[p][i]));
                let j = choose|j: int| 0 <= j < lists[q].len() && lists[q][j] == d[p][i];
                assert(parents.contains_key(lists[q][j].0));
            } else {
                assert(d[p][i] == lists[p][i]);
            }
        }
    }
    assert forall|p: u32| #![trigger d.contains_key(p)] d.contains_key(p) implies !d[p].contains(
        id,
    ) by {
        if d[p].contains(id) {
            let i = choose|i: int| 0 <= i < d[p].len() && d[p][i] == id;
            assert(parents.contains_key(d[p][i].0) && parents[d[p][i].0] == NodeId(p));
        }
    }
}

/// Takes `id` out of the list of its recorded parent.
fn detach_in(lists: &mut BTreeMap<u32, Vec<NodeId>>, parents: &BTreeMap<u32, NodeId>, id: NodeId)
    ensures
        lists_of(final(lists)@) == detach(lists_of(old(lists)@), parents@, id),
{
    let ghost lists0 = lists_of(lists@);
    let parent_id = match parents.get(&id.0) {
        Some(p) => *p,
        None => {
            return ;
        },
    };
    let taken = lists.remove(&parent_id.0);
    assert(lists_of(lists@) =~= lists0.remove(parent_id.0));
    if let Some(mut v) = taken {
        let ghost s0 = v@;
        assert(s0 == lists0[parent_id.0]);
        let pos = position(&v, id);
        proof {
            s0.index_of_first_ensures(id);
        }
        if let Some(i) = pos {
            v.remove(i);
        }
        assert(v@ == s0.remove_value(id));
        lists.insert(parent_id.0, v);
        assert(lists_of(lists@) =~= lists0.insert(parent_id.0, s0.remove_value(id)));
    } else {
        assert(lists0.remove(parent_id.0) =~= lists0);
    }
}

/// Listing a node that is in no list under a new parent, at any place of that
/// parent's list, keeps the shape.
pub proof fn lemma_attach_keeps_shape(
    count: nat,
    parents: Map<u32, NodeId>,
    lists: Map<u32, Seq<NodeId>>,
    parent_id: NodeId,
    child_id: NodeId,
    grown: Seq<NodeId>,
)
    requires
        shape_ok(count, parents, lists),
        (parent_id.0 as nat) < count,
        (child_id.0 as nat) < count,
        forall|p: u32|
            #![trigger lists.contains_key(p)]
            lists.contains_key(p) ==> !lists[p].contains(child_id),
        exists|i: int|
            0 <= i <= list_or_empty(lists, parent_id.0).len() && grown == list_or_empty(
                lists,
                parent_id.0,
            ).insert(i, child_id),
    ensures
        shape_ok(count, parents.insert(child_id.0, parent_id), lists.insert(parent_id.0, grown)),
{
    let base = list_or_empty(lists, parent_id.0);
    let k = choose|i: int| 0 <= i <= base.len() && grown == base.insert(i, child_id);
    let parents2 = parents.insert(child_id.0, parent_id);
    let lists2 = lists.insert(parent_id.0, grown);
    assert(!base.contains(child_id));
    assert forall|i: int, j: int| 0 <= i < grown.len() && 0 <= j < grown.len() && i != j implies grown[i]
        != grown[j] by {
        if i != k {
            let a = if i < k { i } else { i - 1 };
            assert(grown[i] == base[a]);
            assert(base.contains(base[a]));
        }
        if j != k {
            let b = if j < k { j } else { j - 1 };
            assert(grown[j] == base[b]);
            assert(base.contains(base[b]));
        }
    }
    assert forall|p: u32, i: int|
        #![trigger lists2[p][i]]
        lists2.contains_key(p) && 0 <= i < lists2[p].len() implies parents2.contains_key(
        lists2[p][i].0,
    ) && parents2[lists2[p][i].0] == NodeId(p) by {
        if p == parent_id.0 {
            if i != k {
                let a = if i < k { i } else { i - 1 };
                assert(grown[i] == base[a]);
                assert(base.contains(base[a]));
                assert(lists[p][a] == base[a]);
            }
        } else {
            assert(lists[p].contains(lists[p][i]));
        }
    }
}

} // verus!
