//! Membership structure over unordered pairs of node indices: which chords
//! have already been drawn.

use vstd::prelude::*;
use vstd::arithmetic::div_mod::lemma_fundamental_div_mod_converse;

verus! {

/// The normalized form of an unordered pair: larger index first.
pub open spec fn spec_norm(a: u16, b: u16) -> (u16, u16) {
    if b > a {
        (b, a)
    } else {
        (a, b)
    }
}

/// How `add` changes a set: exactly the unordered pair `{a, b}` becomes a
/// member, every other pair keeps its membership.
pub open spec fn spec_add_effect(pre: LineSet, post: LineSet, a: u16, b: u16) -> bool {
    forall|x: u16, y: u16|
        x < pre.spec_nodes() && y < pre.spec_nodes() ==> post.spec_has(x, y) == (pre.spec_has(
            x,
            y,
        ) || #[trigger] spec_norm(x, y) == spec_norm(a, b))
}

/// A set of unordered pairs of node indices, stored as one flag per
/// normalized pair, sized for the node count it is built with.
pub struct LineSet {
    bits: Vec<bool>,
    nodes: u16,
}

impl LineSet {
    /// The node count this set was sized for.
    pub closed spec fn spec_nodes(self) -> u16 {
        self.nodes
    }

    pub closed spec fn wf(self) -> bool {
        self.bits@.len() == self.nodes * self.nodes
    }

    /// Membership of the unordered pair `{a, b}`.
    pub closed spec fn spec_has(self, a: u16, b: u16) -> bool {
        let hi = spec_norm(a, b).0;
        let lo = spec_norm(a, b).1;
        self.bits@[hi * self.nodes + lo] == true
    }

    /// An empty set sized for `nodes` node indices.
    pub fn new(nodes: u16) -> (r: LineSet)
        ensures
            r.wf(),
            r.spec_nodes() == nodes,
            forall|x: u16, y: u16| x < nodes && y < nodes ==> !r.spec_has(x, y),
    {
        proof {
            assert((nodes as int) * (nodes as int) <= 0xffff * 0xffff) by (nonlinear_arith)
                requires
                    nodes <= 0xffff,
            ;
        }
        let total: usize = nodes as usize * nodes as usize;
        let mut bits: Vec<bool> = Vec::new();
        let mut i: usize = 0;
        while i < total
            invariant
                i <= total,
                bits@.len() == i,
                forall|k: int| 0 <= k < i ==> bits@[k] == false,
            decreases total - i,
        {
            bits.push(false);
            i = i + 1;
        }
        let r = LineSet { bits, nodes };
        proof {
            assert forall|x: u16, y: u16| x < nodes && y < nodes implies !r.spec_has(x, y) by {
                let hi = spec_norm(x, y).0;
                let lo = spec_norm(x, y).1;
                assert((hi as int) * (nodes as int) + (lo as int) < (nodes as int) * (
                nodes as int) <= 0xffff * 0xffff) by (nonlinear_arith)
                    requires
                        hi < nodes,
                        lo < nodes,
                        nodes <= 0xffff,
                ;
            }
        }
        r
    }

    /// Inserts the unordered pair `{a, b}`; no other pair's membership
    /// changes.
    pub fn add(&mut self, a: u16, b: u16)
        requires
            old(self).wf(),
            a < old(self).spec_nodes(),
            b < old(self).spec_nodes(),
        ensures
            final(self).wf(),
            final(self).spec_nodes() == old(self).spec_nodes(),
            spec_add_effect(*old(self), *final(self), a, b),
    {
        let (hi, lo) = if b > a {
            (b, a)
        } else {
            (a, b)
        };
        let n = self.nodes;
        proof {
            assert((hi as int) * (n as int) + (lo as int) < (n as int) * (n as int)
                <= 0xffff * 0xffff) by (nonlinear_arith)
                requires
                    hi < n,
                    lo < n,
                    n <= 0xffff,
            ;
        }
        let index: usize = hi as usize * n as usize + lo as usize;
        self.bits[index] = true;
        proof {
            assert forall|x: u16, y: u16|
                x < old(self).spec_nodes() && y < old(self).spec_nodes() implies self.spec_has(
                x,
                y,
            ) == (old(self).spec_has(x, y) || spec_norm(x, y) == spec_norm(a, b)) by {
                let hx = spec_norm(x, y).0;
                let lx = spec_norm(x, y).1;
                assert((hx as int) * (n as int) + (lx as int) < (n as int) * (n as int))
                    by (nonlinear_arith)
                    requires
                        hx < n,
                        lx < n,
                ;
                if hx * n + lx == hi * n + lo {
                    lemma_fundamental_div_mod_converse(
                        (hx as int) * (n as int) + (lx as int),
                        n as int,
                        hx as int,
                        lx as int,
                    );
                    lemma_fundamental_div_mod_converse(
                        (hi as int) * (n as int) + (lo as int),
                        n as int,
                        hi as int,
                        lo as int,
                    );
                    assert(hx == hi && lx == lo);
                }
            }
        }
    }

    /// Whether the unordered pair `{a, b}` is a member.
    pub fn has(&self, a: u16, b: u16) -> (r: bool)
        requires
            self.wf(),
            a < self.spec_nodes(),
            b < self.spec_nodes(),
        ensures
            r == self.spec_has(a, b),
    {
        let (hi, lo) = if b > a {
            (b, a)
        } else {
            (a, b)
        };
        let n = self.nodes;
        proof {
            assert((hi as int) * (n as int) + (lo as int) < (n as int) * (n as int)
                <= 0xffff * 0xffff) by (nonlinear_arith)
                requires
                    hi < n,
                    lo < n,
                    n <= 0xffff,
            ;
        }
        let index: usize = hi as usize * n as usize + lo as usize;
        self.bits[index]
    }
}

/// Marking a chord makes both orientations of it members and leaves every
/// other unordered pair's membership unchanged.
pub proof fn lemma_mark_membership(before: LineSet, after: LineSet, a: u16, b: u16)
    requires
        before.wf(),
        a < before.spec_nodes(),
        b < before.spec_nodes(),
        after.spec_nodes() == before.spec_nodes(),
        spec_add_effect(before, after, a, b),
    ensures
        after.spec_has(a, b),
        after.spec_has(b, a),
        forall|x: u16, y: u16|
            x < before.spec_nodes() && y < before.spec_nodes() && spec_norm(x, y) != spec_norm(
                a,
                b,
            ) ==> after.spec_has(x, y) == before.spec_has(x, y),
{
    assert(spec_norm(b, a) == spec_norm(a, b));
}

} // verus!
