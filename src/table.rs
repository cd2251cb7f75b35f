//! The identity table: a stable inode number for every exposed object.
use vstd::prelude::*;

use crate::attr::FileKind;

verus! {

/// The identity of the mount's root directory.
pub const ROOT_ID: u64 = 1;

/// The identity given to the first entry of the table; entry `i` has
/// identity `FIRST_ID + i`.
pub const FIRST_ID: u64 = 2;

/// An entry of the table as the contracts see it: parent identity, name,
/// and the type of the object last seen under that name.
pub type NodeView = (u64, Seq<u8>, FileKind);

/// One exposed object other than the root.
#[derive(Debug)]
pub struct Node {
    pub parent: u64,
    pub name: Vec<u8>,
    pub kind: FileKind,
}

/// Maps each (parent, name) pair that has been looked up to its identity,
/// and each identity back to its pair.
pub struct InodeTable {
    nodes: Vec<Node>,
}

/// Whether entry `i` of `s` is keyed by `(p, n)`.
pub open spec fn keyed(s: Seq<NodeView>, i: int, p: u64, n: Seq<u8>) -> bool {
    0 <= i < s.len() && s[i].0 == p && s[i].1 == n
}

/// No two entries share a key, and every identity fits in a `u64`.
pub open spec fn table_wf(s: Seq<NodeView>) -> bool {
    &&& s.len() + FIRST_ID <= u64::MAX
    &&& forall|i: int, j: int|
        0 <= i < s.len() && 0 <= j < s.len() && i != j ==> #[trigger] s[i].0 != #[trigger] s[j].0
            || s[i].1 != s[j].1
}

/// The identity of entry `i`.
pub open spec fn id_at(i: int) -> u64 {
    (i + FIRST_ID) as u64
}

/// The identity held by `(p, n)`, if it has one.
pub open spec fn id_of(s: Seq<NodeView>, p: u64, n: Seq<u8>) -> Option<u64> {
    if exists|i: int| keyed(s, i, p, n) {
        Some(id_at(choose|i: int| keyed(s, i, p, n)))
    } else {
        None
    }
}

/// The entry behind identity `id`, if the table holds one.
pub open spec fn node_of(s: Seq<NodeView>, id: u64) -> Option<NodeView> {
    if FIRST_ID <= id && id - FIRST_ID < s.len() {
        Some(s[id - FIRST_ID])
    } else {
        None
    }
}

/// The table after `(p, n)` is looked up as an object of type `k`, and the
/// identity that the lookup returns: the pair's own identity if it has one
/// (its type is refreshed), else the next free one, or `None` when no
/// identity is left.
pub open spec fn assigned(s: Seq<NodeView>, p: u64, n: Seq<u8>, k: FileKind) -> (Seq<NodeView>, Option<u64>) {
    if exists|i: int| keyed(s, i, p, n) {
        let i = choose|i: int| keyed(s, i, p, n);
        (s.update(i, (p, n, k)), Some(id_at(i)))
    } else if s.len() + FIRST_ID < u64::MAX {
        (s.push((p, n, k)), Some(id_at(s.len() as int)))
    } else {
        (s, None)
    }
}

/// Two equal keys are the same entry.
proof fn lemma_key_unique(s: Seq<NodeView>, i: int, j: int, p: u64, n: Seq<u8>)
    requires
        table_wf(s),
        keyed(s, i, p, n),
        keyed(s, j, p, n),
    ensures
        i == j,
{
    if i != j {
        assert(s[i].0 != s[j].0 || s[i].1 != s[j].1);
    }
}

/// A lookup keeps the table well formed, gives every pair that already had an
/// identity the same one, and leaves the looked-up pair holding the returned
/// identity.
pub proof fn lemma_identity_stable(s: Seq<NodeView>, p: u64, n: Seq<u8>, k: FileKind, q: u64, m: Seq<u8>)
    requires
        table_wf(s),
    ensures
        table_wf(assigned(s, p, n, k).0),
        id_of(s, q, m) is Some ==> id_of(assigned(s, p, n, k).0, q, m) == id_of(s, q, m),
        assigned(s, p, n, k).1 is Some ==> id_of(assigned(s, p, n, k).0, p, n) == assigned(s, p, n, k).1,
        id_of(s, p, n) is Some ==> assigned(s, p, n, k).1 == id_of(s, p, n),
{
    let t = assigned(s, p, n, k).0;
    if exists|i: int| keyed(s, i, p, n) {
        let i = choose|i: int| keyed(s, i, p, n);
        assert(keyed(t, i, p, n));
        assert forall|a: int, b: int|
            0 <= a < t.len() && 0 <= b < t.len() && a != b implies #[trigger] t[a].0 != #[trigger] t[b].0
                || t[a].1 != t[b].1 by {
            assert(s[a].0 != s[b].0 || s[a].1 != s[b].1);
        }
        assert forall|j: int| #[trigger] keyed(t, j, p, n) implies j == i by {
            assert(keyed(s, j, p, n));
            lemma_key_unique(s, i, j, p, n);
        }
        if exists|j: int| keyed(s, j, q, m) {
            let j = choose|j: int| keyed(s, j, q, m);
            assert(keyed(t, j, q, m));
            assert forall|a: int| #[trigger] keyed(t, a, q, m) implies a == j by {
                assert(keyed(s, a, q, m));
                lemma_key_unique(s, a, j, q, m);
            }
        }
    } else if s.len() + FIRST_ID < u64::MAX {
        let l = s.len() as int;
        assert(keyed(t, l, p, n));
        assert forall|a: int, b: int|
            0 <= a < t.len() && 0 <= b < t.len() && a != b implies #[trigger] t[a].0 != #[trigger] t[b].0
                || t[a].1 != t[b].1 by {
            if a < l && b < l {
                assert(s[a].0 != s[b].0 || s[a].1 != s[b].1);
            } else if a == l {
                assert(!keyed(s, b, p, n));
            } else {
                assert(!keyed(s, a, p, n));
            }
        }
        assert forall|j: int| #[trigger] keyed(t, j, p, n) implies j == l by {
            if j < l {
                assert(keyed(s, j, p, n));
            }
        }
        if exists|j: int| keyed(s, j, q, m) {
            let j = choose|j: int| keyed(s, j, q, m);
            assert(keyed(t, j, q, m));
            assert forall|a: int| #[trigger] keyed(t, a, q, m) implies a == j by {
                if a < l {
                    assert(keyed(s, a, q, m));
                    lemma_key_unique(s, a, j, q, m);
                } else {
                    assert(keyed(s, j, p, n));
                }
            }
        }
    }
}

/// Two distinct pairs that both hold an identity hold different ones, and
/// neither holds the root's.
pub proof fn lemma_identity_unique(s: Seq<NodeView>, p1: u64, n1: Seq<u8>, p2: u64, n2: Seq<u8>)
    requires
        table_wf(s),
        id_of(s, p1, n1) is Some,
        id_of(s, p2, n2) is Some,
    ensures
        p1 != p2 || n1 != n2 ==> id_of(s, p1, n1) != id_of(s, p2, n2),
        id_of(s, p1, n1) != Some(ROOT_ID),
{
    let i = choose|i: int| keyed(s, i, p1, n1);
    let j = choose|j: int| keyed(s, j, p2, n2);
    if p1 != p2 || n1 != n2 {
        assert(i != j);
    }
}

/// Whether two byte strings are equal.
pub fn bytes_eq(a: &Vec<u8>, b: &Vec<u8>) -> (r: bool)
    ensures
        r == (a@ == b@),
{
    if a.len() != b.len() {
        return false;
    }
    let mut i: usize = 0;
    while i < a.len()
        invariant
            a@.len() == b@.len(),
            0 <= i <= a@.len(),
            forall|j: int| 0 <= j < i ==> a@[j] == b@[j],
        decreases a@.len() - i,
    {
        if a[i] != b[i] {
            return false;
        }
        i = i + 1;
    }
    assert(a@ =~= b@);
    true
}

impl Node {
    pub open spec fn view(&self) -> NodeView {
        (self.parent, self.name@, self.kind)
    }
}

impl View for InodeTable {
    type V = Seq<NodeView>;

    closed spec fn view(&self) -> Seq<NodeView> {
        self.nodes@.map_values(|n: Node| n.view())
    }
}

impl InodeTable {
    pub open spec fn wf(&self) -> bool {
        table_wf(self@)
    }

    /// A table that holds no identity but the root's.
    pub fn new() -> (r: InodeTable)
        ensures
            r@ == Seq::<NodeView>::empty(),
            r.wf(),
    {
        let r = InodeTable { nodes: Vec::new() };
        assert(r@ =~= Seq::<NodeView>::empty());
        r
    }

    /// The index of the entry keyed by `(parent, name)`, if there is one.
    fn find(&self, parent: u64, name: &Vec<u8>) -> (r: Option<usize>)
        requires
            self.wf(),
        ensures
            r is Some ==> keyed(self@, r->0 as int, parent, name@),
            r is None ==> !exists|i: int| keyed(self@, i, parent, name@),
    {
        let mut i: usize = 0;
        while i < self.nodes.len()
            invariant
                0 <= i <= self@.len(),
                self@.len() == self.nodes@.len(),
                forall|j: int| 0 <= j < i ==> !keyed(self@, j, parent, name@),
            decreases self.nodes@.len() - i,
        {
            let node = &self.nodes[i];
            if node.parent == parent && bytes_eq(&node.name, name) {
                return Some(i);
            }
            i = i + 1;
        }
        None
    }

    /// The identity of `(parent, name)`, allocating the next free one on the
    /// pair's first lookup; `kind` is recorded as the object's type. `None`
    /// when every identity is taken.
    pub fn assign_or_get(&mut self, parent: u64, name: &Vec<u8>, kind: FileKind) -> (r: Option<u64>)
        requires
            old(self).wf(),
        ensures
            (final(self)@, r) == assigned(old(self)@, parent, name@, kind),
            final(self).wf(),
    {
        proof {
            lemma_identity_stable(self@, parent, name@, kind, parent, name@);
        }
        match self.find(parent, name) {
            Some(i) => {
                proof {
                    let c = choose|j: int| keyed(self@, j, parent, name@);
                    lemma_key_unique(self@, i as int, c, parent, name@);
                }
                self.nodes.set(i, Node { parent, name: name.clone(), kind });
                assert(self@ =~= old(self)@.update(i as int, (parent, name@, kind)));
                Some(i as u64 + FIRST_ID)
            },
            None => {
                if self.nodes.len() as u64 + FIRST_ID < u64::MAX {
                    let id = self.nodes.len() as u64 + FIRST_ID;
                    self.nodes.push(Node { parent, name: name.clone(), kind });
                    assert(self@ =~= old(self)@.push((parent, name@, kind)));
                    Some(id)
                } else {
                    None
                }
            },
        }
    }

    /// The entry behind `id`, or `None` for the root and for identities this
    /// table never gave out.
    pub fn resolve(&self, id: u64) -> (r: Option<Node>)
        requires
            self.wf(),
        ensures
            r matches Some(n) ==> node_of(self@, id) == Some(n.view()),
            r is None ==> node_of(self@, id) is None,
    {
        if id >= FIRST_ID && id - FIRST_ID < self.nodes.len() as u64 {
            let n = &self.nodes[(id - FIRST_ID) as usize];
            Some(Node { parent: n.parent, name: n.name.clone(), kind: n.kind })
        } else {
            None
        }
    }
}

} // verus!
