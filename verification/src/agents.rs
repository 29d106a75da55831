//! The agents of a session: their conversations, and the order in which they
//! are listed.

use crate::conversation::{AgentConversation, Conv};
use crate::history::opt_is;
use crate::text;
use vstd::prelude::*;
use vstd::string::*;

verus! {

/// One agent that is not being viewed.
#[derive(Debug)]
pub struct AgentSlot {
    pub address: String,
    pub conversation: AgentConversation,
}

/// Conversations by address.
#[derive(Debug)]
pub struct AgentTable {
    pub slots: Vec<AgentSlot>,
}

/// The conversations of a list of slots; a later slot wins.
pub open spec fn table(slots: Seq<AgentSlot>) -> Map<Seq<char>, Conv>
    decreases slots.len(),
{
    if slots.len() == 0 {
        Map::empty()
    } else {
        table(slots.drop_last()).insert(slots.last().address@, slots.last().conversation@)
    }
}

impl View for AgentTable {
    type V = Map<Seq<char>, Conv>;

    open spec fn view(&self) -> Map<Seq<char>, Conv> {
        table(self.slots@)
    }
}

pub proof fn lemma_table(slots: Seq<AgentSlot>)
    ensures
        forall|k: Seq<char>| #[trigger]
            table(slots).dom().contains(k) <==> exists|i: int|
                0 <= i < slots.len() && (#[trigger] slots[i]).address@ == k,
        table(slots).dom().finite(),
    decreases slots.len(),
{
    if slots.len() > 0 {
        let rest = slots.drop_last();
        lemma_table(rest);
        assert forall|k: Seq<char>| #[trigger] table(slots).dom().contains(k) implies exists|i: int|
            0 <= i < slots.len() && (#[trigger] slots[i]).address@ == k by {
            if k == slots.last().address@ {
                assert(slots[slots.len() - 1].address@ == k);
            } else {
                assert(table(rest).dom().contains(k));
                let i = choose|i: int| 0 <= i < rest.len() && (#[trigger] rest[i]).address@ == k;
                assert(slots[i].address@ == k);
            }
        }
        assert forall|k: Seq<char>|
            (exists|i: int| 0 <= i < slots.len() && (#[trigger] slots[i]).address@ == k) implies #[trigger] table(
            slots,
        ).dom().contains(k) by {
            let i = choose|i: int| 0 <= i < slots.len() && (#[trigger] slots[i]).address@ == k;
            if i < rest.len() {
                assert(rest[i].address@ == k);
            }
        }
    }
}

impl AgentTable {
    /// Addresses are distinct.
    pub open spec fn wf(self) -> bool {
        forall|i: int, j: int|
            0 <= i < j < self.slots@.len() ==> (#[trigger] self.slots@[i]).address@ != (
            #[trigger] self.slots@[j]).address@
    }

    /// A table without agents.
    pub fn new() -> (r: Self)
        ensures
            r@ == Map::<Seq<char>, Conv>::empty(),
            r.wf(),
    {
        AgentTable { slots: Vec::new() }
    }

    /// Index of the slot with the given address.
    pub fn find(&self, address: &str) -> (r: Option<usize>)
        requires
            self.wf(),
        ensures
            r is Some == self@.dom().contains(address@),
            r matches Some(i) ==> i < self.slots@.len() && self.slots@[i as int].address@
                == address@ && self@[address@] == self.slots@[i as int].conversation@,
    {
        let mut i: usize = 0;
        while i < self.slots.len()
            invariant
                self.wf(),
                i <= self.slots@.len(),
                forall|k: int| 0 <= k < i ==> (#[trigger] self.slots@[k]).address@ != address@,
            decreases self.slots@.len() - i,
        {
            if text::same(self.slots[i].address.as_str(), address) {
                proof {
                    lemma_table(self.slots@);
                    lemma_lookup(self.slots@, i as int);
                }
                return Some(i);
            }
            i += 1;
        }
        proof {
            lemma_table(self.slots@);
        }
        None
    }

    /// Adds an agent that is not in the table.
    pub fn insert(&mut self, address: String, conversation: AgentConversation)
        requires
            old(self).wf(),
            !old(self)@.dom().contains(address@),
        ensures
            final(self)@ == old(self)@.insert(address@, conversation@),
            final(self).wf(),
    {
        let ghost before = self.slots@;
        proof {
            lemma_table(before);
        }
        self.slots.push(AgentSlot { address, conversation });
        proof {
            assert(self.slots@.drop_last() =~= before);
            assert forall|i: int, j: int| 0 <= i < j < self.slots@.len() implies (
            #[trigger] self.slots@[i]).address@ != (#[trigger] self.slots@[j]).address@ by {
                assert(self.slots@[i] == before[i]);
                if j < before.len() {
                    assert(self.slots@[j] == before[j]);
                }
            }
        }
    }

    /// Takes an agent out of the table.
    pub fn remove(&mut self, address: &str) -> (r: Option<AgentConversation>)
        requires
            old(self).wf(),
        ensures
            r is Some == old(self)@.dom().contains(address@),
            r matches Some(c) ==> c@ == old(self)@[address@],
            final(self)@ == old(self)@.remove(address@),
            final(self).wf(),
    {
        match self.find(address) {
            Some(i) => {
                let ghost before = self.slots@;
                let slot = self.slots.remove(i);
                proof {
                    lemma_remove(before, i as int);
                    assert forall|a: int, b: int| 0 <= a < b < self.slots@.len() implies (
                    #[trigger] self.slots@[a]).address@ != (#[trigger] self.slots@[b]).address@ by {
                        let a0 = if a < i {
                            a
                        } else {
                            a + 1
                        };
                        let b0 = if b < i {
                            b
                        } else {
                            b + 1
                        };
                        assert(self.slots@[a] == before[a0]);
                        assert(self.slots@[b] == before[b0]);
                    }
                }
                Some(slot.conversation)
            },
            None => {
                proof {
                    assert(self@.remove(address@) =~= self@);
                }
                None
            },
        }
    }
}

pub proof fn lemma_lookup(slots: Seq<AgentSlot>, i: int)
    requires
        0 <= i < slots.len(),
        forall|a: int, b: int|
            0 <= a < b < slots.len() ==> (#[trigger] slots[a]).address@ != (
            #[trigger] slots[b]).address@,
    ensures
        table(slots).dom().contains(slots[i].address@),
        table(slots)[slots[i].address@] == slots[i].conversation@,
    decreases slots.len(),
{
    let rest = slots.drop_last();
    if i < rest.len() {
        assert(rest[i] == slots[i]);
        lemma_lookup(rest, i);
        assert(slots[i].address@ != slots[slots.len() - 1].address@);
    }
}

proof fn lemma_remove(slots: Seq<AgentSlot>, i: int)
    requires
        0 <= i < slots.len(),
        forall|a: int, b: int|
            0 <= a < b < slots.len() ==> (#[trigger] slots[a]).address@ != (
            #[trigger] slots[b]).address@,
    ensures
        table(slots.remove(i)) == table(slots).remove(slots[i].address@),
    decreases slots.len(),
{
    let rest = slots.drop_last();
    let key = slots[i].address@;
    if i == slots.len() - 1 {
        assert(slots.remove(i) =~= rest);
        lemma_table(rest);
        assert(!table(rest).dom().contains(key)) by {
            if table(rest).dom().contains(key) {
                let k = choose|k: int| 0 <= k < rest.len() && (#[trigger] rest[k]).address@ == key;
                assert(slots[k].address@ == slots[i].address@);
            }
        }
        assert(table(rest) =~= table(slots).remove(key));
    } else {
        assert(rest[i] == slots[i]);
        lemma_remove(rest, i);
        assert(slots.remove(i).drop_last() =~= rest.remove(i));
        assert(slots.remove(i).last() == slots.last());
        assert(slots[slots.len() - 1].address@ != key);
        assert(table(slots.remove(i)) =~= table(slots).remove(key));
    }
}

/// Whether `a` precedes `b` in dictionary order of their characters.
pub open spec fn lex_lt(a: Seq<char>, b: Seq<char>) -> bool
    decreases a.len(),
{
    if b.len() == 0 {
        false
    } else if a.len() == 0 {
        true
    } else if a[0] != b[0] {
        a[0] < b[0]
    } else {
        lex_lt(a.skip(1), b.skip(1))
    }
}

pub proof fn lemma_lex_asymmetric(a: Seq<char>, b: Seq<char>)
    ensures
        !(lex_lt(a, b) && lex_lt(b, a)),
    decreases a.len(),
{
    if a.len() > 0 && b.len() > 0 && a[0] == b[0] {
        lemma_lex_asymmetric(a.skip(1), b.skip(1));
    }
}

proof fn lemma_lex_total(a: Seq<char>, b: Seq<char>)
    ensures
        lex_lt(a, b) || lex_lt(b, a) || a == b,
    decreases a.len(),
{
    if a.len() > 0 && b.len() > 0 {
        if a[0] == b[0] {
            lemma_lex_total(a.skip(1), b.skip(1));
            if a.skip(1) == b.skip(1) {
                assert(a =~= seq![a[0]] + a.skip(1));
                assert(b =~= seq![b[0]] + b.skip(1));
            }
        }
    } else {
        assert(a.len() == 0 && b.len() == 0 ==> a =~= b);
    }
}

pub proof fn lemma_lex_transitive(a: Seq<char>, b: Seq<char>, c: Seq<char>)
    requires
        lex_lt(a, b),
        lex_lt(b, c),
    ensures
        lex_lt(a, c),
    decreases a.len(),
{
    if a.len() > 0 && b.len() > 0 && c.len() > 0 && a[0] == b[0] && b[0] == c[0] {
        lemma_lex_transitive(a.skip(1), b.skip(1), c.skip(1));
    }
}

/// One agent as the listing sees it.
#[derive(Debug)]
pub struct Node {
    pub address: String,
    pub parent: Option<String>,
    pub created_ord: u64,
}

/// Whether agent `a` is listed before its sibling `b`: the newer first, then
/// by address.
pub open spec fn before(all: Map<Seq<char>, Conv>, a: Seq<char>, b: Seq<char>) -> bool {
    all[a].created_ord > all[b].created_ord || (all[a].created_ord == all[b].created_ord && lex_lt(
        a,
        b,
    ))
}

/// Whether `s` holds every agent once, in listing order.
pub open spec fn is_order(s: Seq<Seq<char>>, all: Map<Seq<char>, Conv>) -> bool {
    &&& forall|i: int, j: int|
        0 <= i < j < s.len() ==> before(all, #[trigger] s[i], #[trigger] s[j])
    &&& forall|k: Seq<char>| #[trigger] s.contains(k) <==> all.dom().contains(k)
}

/// All agents in listing order.
pub open spec fn order(all: Map<Seq<char>, Conv>) -> Seq<Seq<char>> {
    choose|s: Seq<Seq<char>>| is_order(s, all)
}

proof fn lemma_before_asymmetric(all: Map<Seq<char>, Conv>, a: Seq<char>, b: Seq<char>)
    ensures
        !(before(all, a, b) && before(all, b, a)),
{
    lemma_lex_asymmetric(a, b);
}

/// Strictly ordered lists with the same members are equal.
proof fn lemma_order_unique(s: Seq<Seq<char>>, t: Seq<Seq<char>>, all: Map<Seq<char>, Conv>)
    requires
        forall|i: int, j: int|
            0 <= i < j < s.len() ==> before(all, #[trigger] s[i], #[trigger] s[j]),
        forall|i: int, j: int|
            0 <= i < j < t.len() ==> before(all, #[trigger] t[i], #[trigger] t[j]),
        forall|k: Seq<char>| #[trigger] s.contains(k) <==> t.contains(k),
    ensures
        s == t,
    decreases s.len(),
{
    if s.len() == 0 {
        if t.len() > 0 {
            assert(t.contains(t[0]));
            assert(s.contains(t[0]));
        }
        assert(s =~= t);
    } else {
        assert(s.contains(s[0]));
        assert(t.contains(s[0]));
        let j = choose|j: int| 0 <= j < t.len() && t[j] == s[0];
        assert(t.contains(t[0]));
        assert(s.contains(t[0]));
        let i = choose|i: int| 0 <= i < s.len() && s[i] == t[0];
        if s[0] != t[0] {
            lemma_before_asymmetric(all, s[0], t[0]);
            assert(before(all, s[0], s[i]));
            assert(before(all, t[0], t[j]));
        }
        let s1 = s.skip(1);
        let t1 = t.skip(1);
        assert forall|k: Seq<char>| #[trigger] s1.contains(k) <==> t1.contains(k) by {
            if s1.contains(k) {
                let a = choose|a: int| 0 <= a < s1.len() && s1[a] == k;
                assert(s[a + 1] == k);
                assert(s.contains(k));
                assert(t.contains(k));
                let b = choose|b: int| 0 <= b < t.len() && t[b] == k;
                if b == 0 {
                    lemma_before_asymmetric(all, s[0], s[a + 1]);
                    assert(before(all, s[0], s[a + 1]));
                }
                assert(t1[b - 1] == k);
            }
            if t1.contains(k) {
                let a = choose|a: int| 0 <= a < t1.len() && t1[a] == k;
                assert(t[a + 1] == k);
                assert(t.contains(k));
                assert(s.contains(k));
                let b = choose|b: int| 0 <= b < s.len() && s[b] == k;
                if b == 0 {
                    lemma_before_asymmetric(all, t[0], t[a + 1]);
                    assert(before(all, t[0], t[a + 1]));
                }
                assert(s1[b - 1] == k);
            }
        }
        assert forall|a: int, b: int| 0 <= a < b < s1.len() implies before(
            all,
            #[trigger] s1[a],
            #[trigger] s1[b],
        ) by {
            assert(s1[a] == s[a + 1] && s1[b] == s[b + 1]);
        }
        assert forall|a: int, b: int| 0 <= a < b < t1.len() implies before(
            all,
            #[trigger] t1[a],
            #[trigger] t1[b],
        ) by {
            assert(t1[a] == t[a + 1] && t1[b] == t[b + 1]);
        }
        lemma_order_unique(s1, t1, all);
        assert(s =~= seq![s[0]] + s1);
        assert(t =~= seq![t[0]] + t1);
    }
}

/// The listing below `address`: the agent, then each child with what is below
/// it, to a depth of `depth`.
pub open spec fn visit(
    all: Map<Seq<char>, Conv>,
    listing: Seq<Seq<char>>,
    address: Seq<char>,
    depth: nat,
) -> Seq<Seq<char>>
    decreases depth, 0nat,
{
    if depth == 0 {
        Seq::empty()
    } else {
        seq![address] + visit_children(all, listing, address, 0, (depth - 1) as nat)
    }
}

/// The listings below the children of `parent` among `listing[i..]`.
pub open spec fn visit_children(
    all: Map<Seq<char>, Conv>,
    listing: Seq<Seq<char>>,
    parent: Seq<char>,
    i: nat,
    depth: nat,
) -> Seq<Seq<char>>
    decreases depth, listing.len() - i,
{
    if i >= listing.len() {
        Seq::empty()
    } else if all[listing[i as int]].parent == Some(parent) {
        visit(all, listing, listing[i as int], depth) + visit_children(
            all,
            listing,
            parent,
            i + 1,
            depth,
        )
    } else {
        visit_children(all, listing, parent, i + 1, depth)
    }
}

/// Whether the agent's parent is not known.
pub open spec fn is_top(all: Map<Seq<char>, Conv>, address: Seq<char>) -> bool {
    match all[address].parent {
        Some(parent) => !all.dom().contains(parent),
        None => true,
    }
}

/// The listing `done` continued with the trees of the top agents among
/// `listing[i..]` that are not in it yet.
pub open spec fn visit_tops(
    all: Map<Seq<char>, Conv>,
    listing: Seq<Seq<char>>,
    i: nat,
    done: Seq<Seq<char>>,
) -> Seq<Seq<char>>
    decreases listing.len() - i,
{
    if i >= listing.len() {
        done
    } else {
        let a = listing[i as int];
        if is_top(all, a) && !done.contains(a) {
            visit_tops(all, listing, i + 1, done + visit(all, listing, a, listing.len()))
        } else {
            visit_tops(all, listing, i + 1, done)
        }
    }
}

/// The agents as a tree in depth-first order: the root's tree first, then the
/// trees of agents whose parent is unknown; siblings newest first.
pub open spec fn tree_order(all: Map<Seq<char>, Conv>) -> Seq<Seq<char>> {
    let listing = order(all);
    visit_tops(
        all,
        listing,
        0,
        if all.dom().contains("/root"@) {
            visit(all, listing, "/root"@, listing.len())
        } else {
            Seq::empty()
        },
    )
}

/// Whether the first string precedes the second in dictionary order.
pub fn precedes(a: &str, b: &str) -> (r: bool)
    ensures
        r == lex_lt(a@, b@),
{
    let x = text::chars_of(a);
    let y = text::chars_of(b);
    let mut i: usize = 0;
    proof {
        assert(a@.skip(0) =~= a@);
        assert(b@.skip(0) =~= b@);
    }
    loop
        invariant
            x@ == a@,
            y@ == b@,
            i <= x@.len(),
            i <= y@.len(),
            lex_lt(a@, b@) == lex_lt(a@.skip(i as int), b@.skip(i as int)),
        decreases x@.len() - i,
    {
        if i >= y.len() {
            return false;
        }
        if i >= x.len() {
            return true;
        }
        if x[i] != y[i] {
            return x[i] < y[i];
        }
        proof {
            assert(a@.skip(i as int).skip(1) =~= a@.skip(i + 1));
            assert(b@.skip(i as int).skip(1) =~= b@.skip(i + 1));
        }
        i += 1;
    }
}

/// Whether addresses stand in dictionary order, each once.
pub open spec fn in_order(s: Seq<Seq<char>>) -> bool {
    forall|i: int, j: int| 0 <= i < j < s.len() ==> lex_lt(#[trigger] s[i], #[trigger] s[j])
}

/// Lists in dictionary order with the same members are equal.
pub proof fn lemma_in_order_unique(s: Seq<Seq<char>>, t: Seq<Seq<char>>)
    requires
        in_order(s),
        in_order(t),
        forall|k: Seq<char>| #[trigger] s.contains(k) <==> t.contains(k),
    ensures
        s == t,
{
    let same_age = Map::new(
        |k: Seq<char>| true,
        |k: Seq<char>| Conv::blank(None, Seq::empty(), 0),
    );
    lemma_order_unique(s, t, same_age);
}

/// Puts an address into a list in dictionary order.
pub fn insert_in_order(list: &mut Vec<String>, address: &str)
    requires
        in_order(text::texts(old(list)@)),
        !text::texts(old(list)@).contains(address@),
    ensures
        in_order(text::texts(final(list)@)),
        forall|k: Seq<char>| #[trigger]
            text::texts(final(list)@).contains(k) <==> text::texts(old(list)@).contains(k) || k
                == address@,
{
    let ghost s = text::texts(list@);
    let mut at: usize = 0;
    while at < list.len() && precedes(list[at].as_str(), address)
        invariant
            at <= list@.len(),
            s == text::texts(list@),
            in_order(s),
            forall|i: int| 0 <= i < at ==> lex_lt(#[trigger] s[i], address@),
        decreases list@.len() - at,
    {
        proof {
            assert(s[at as int] == list@[at as int]@);
        }
        at += 1;
    }
    let ghost before = list@;
    list.insert(at, address.to_owned());
    proof {
        let t = text::texts(list@);
        assert(s.len() == before.len());
        assert(t =~= s.insert(at as int, address@));
        if at < s.len() {
            assert(s[at as int] == before[at as int]@);
            assert(s.contains(s[at as int]));
            lemma_lex_total(s[at as int], address@);
        }
        assert forall|i: int, j: int| 0 <= i < j < t.len() implies lex_lt(
            #[trigger] t[i],
            #[trigger] t[j],
        ) by {
            if i == at && j - 1 > at {
                assert(lex_lt(s[at as int], s[j - 1]));
                lemma_lex_transitive(address@, s[at as int], s[j - 1]);
            } else if i > at {
                assert(lex_lt(s[i - 1], s[j - 1]));
            } else if i < at && j > at {
                assert(lex_lt(s[i], s[j - 1]));
            } else if i < at && j < at {
                assert(lex_lt(s[i], s[j]));
            }
        }
        assert forall|k: Seq<char>| #[trigger] t.contains(k) <==> s.contains(k) || k
            == address@ by {
            if t.contains(k) {
                let i = choose|i: int| 0 <= i < t.len() && t[i] == k;
                if i < at {
                    assert(s[i] == k);
                } else if i > at {
                    assert(s[i - 1] == k);
                }
            }
            if s.contains(k) {
                let i = choose|i: int| 0 <= i < s.len() && s[i] == k;
                if i < at {
                    assert(t[i] == k);
                } else {
                    assert(t[i + 1] == k);
                }
            }
            assert(t[at as int] == address@);
        }
    }
}

/// The addresses of a list of nodes.
pub open spec fn node_addresses(nodes: Seq<Node>) -> Seq<Seq<char>> {
    nodes.map_values(|n: Node| n.address@)
}

/// Whether each node tells its agent's parent and create order.
pub open spec fn nodes_match(nodes: Seq<Node>, all: Map<Seq<char>, Conv>) -> bool {
    forall|i: int|
        0 <= i < nodes.len() ==> {
            let n = #[trigger] nodes[i];
            &&& all.dom().contains(n.address@)
            &&& text::opt_text(n.parent) == all[n.address@].parent
            &&& n.created_ord == all[n.address@].created_ord
        }
}

/// Inserts a node into a sorted list at its place.
fn insert_sorted(nodes: &mut Vec<Node>, node: Node, all: Ghost<Map<Seq<char>, Conv>>)
    requires
        nodes_match(old(nodes)@, all@),
        all@.dom().contains(node.address@),
        text::opt_text(node.parent) == all@[node.address@].parent,
        node.created_ord == all@[node.address@].created_ord,
        !node_addresses(old(nodes)@).contains(node.address@),
        forall|i: int, j: int|
            0 <= i < j < old(nodes)@.len() ==> before(
                all@,
                (#[trigger] old(nodes)@[i]).address@,
                (#[trigger] old(nodes)@[j]).address@,
            ),
    ensures
        nodes_match(final(nodes)@, all@),
        forall|i: int, j: int|
            0 <= i < j < final(nodes)@.len() ==> before(
                all@,
                (#[trigger] final(nodes)@[i]).address@,
                (#[trigger] final(nodes)@[j]).address@,
            ),
        final(nodes)@.len() == old(nodes)@.len() + 1,
        forall|k: Seq<char>| #[trigger]
            node_addresses(final(nodes)@).contains(k) <==> k == node.address@ || node_addresses(
                old(nodes)@,
            ).contains(k),
{
    let ghost key = node.address@;
    let mut at: usize = 0;
    while at < nodes.len() && (nodes[at].created_ord > node.created_ord || (nodes[at].created_ord
        == node.created_ord && precedes(nodes[at].address.as_str(), node.address.as_str())))
        invariant
            at <= nodes@.len(),
            *nodes == *old(nodes),
            nodes_match(nodes@, all@),
            node.created_ord == all@[node.address@].created_ord,
            forall|i: int|
                0 <= i < at ==> before(all@, (#[trigger] nodes@[i]).address@, node.address@),
        decreases nodes@.len() - at,
    {
        at += 1;
    }
    let ghost prior = nodes@;
    proof {
        if at < prior.len() {
            let next = prior[at as int].address@;
            lemma_lex_total(next, key);
            assert(node_addresses(prior)[at as int] == next);
            assert(next != key);
            assert(before(all@, key, next));
            assert forall|j: int| at <= j < prior.len() implies before(
                all@,
                key,
                (#[trigger] prior[j]).address@,
            ) by {
                if j > at {
                    assert(before(all@, next, prior[j].address@));
                    if all@[key].created_ord == all@[next].created_ord
                        && all@[next].created_ord == all@[prior[j].address@].created_ord {
                        lemma_lex_transitive(key, next, prior[j].address@);
                    }
                }
            }
        }
    }
    nodes.insert(at, node);
    proof {
        let after = nodes@;
        assert(after =~= prior.insert(at as int, node));
        assert forall|i: int, j: int| 0 <= i < j < after.len() implies before(
            all@,
            (#[trigger] after[i]).address@,
            (#[trigger] after[j]).address@,
        ) by {
            let i0 = if i < at {
                i
            } else {
                i - 1
            };
            let j0 = if j < at {
                j
            } else {
                j - 1
            };
            if i != at && j != at {
                assert(after[i] == prior[i0] && after[j] == prior[j0]);
            } else if i == at {
                assert(after[j] == prior[j0]);
            } else {
                assert(after[i] == prior[i]);
            }
        }
        assert forall|k: Seq<char>| #[trigger]
            node_addresses(after).contains(k) <==> k == key || node_addresses(prior).contains(k) by {
            let xs = node_addresses(after);
            let ys = node_addresses(prior);
            if xs.contains(k) {
                let i = choose|i: int| 0 <= i < xs.len() && xs[i] == k;
                if i < at {
                    assert(ys[i] == k);
                } else if i > at {
                    assert(ys[i - 1] == k);
                }
            }
            if k == key {
                assert(xs[at as int] == k);
            }
            if ys.contains(k) {
                let i = choose|i: int| 0 <= i < ys.len() && ys[i] == k;
                if i < at {
                    assert(xs[i] == k);
                } else {
                    assert(xs[i + 1] == k);
                }
            }
        }
        assert forall|i: int| 0 <= i < after.len() implies ({
            let n = #[trigger] after[i];
            &&& all@.dom().contains(n.address@)
            &&& text::opt_text(n.parent) == all@[n.address@].parent
            &&& n.created_ord == all@[n.address@].created_ord
        }) by {
            if i < at {
                assert(after[i] == prior[i]);
            } else if i > at {
                assert(after[i] == prior[i - 1]);
            }
        }
    }
}

/// A node for an agent.
fn node_of(address: &str, conversation: &AgentConversation) -> (r: Node)
    ensures
        r.address@ == address@,
        text::opt_text(r.parent) == conversation@.parent,
        r.created_ord == conversation@.created_ord,
{
    Node {
        address: address.to_owned(),
        parent: crate::history::copy_opt(&conversation.parent),
        created_ord: conversation.created_ord,
    }
}

/// All agents in listing order.
fn sorted_nodes(table: &AgentTable, current: &str, view: &AgentConversation) -> (r: Vec<Node>)
    requires
        table.wf(),
    ensures
        nodes_match(r@, table@.insert(current@, view@)),
        node_addresses(r@) == order(table@.insert(current@, view@)),
        forall|k: Seq<char>| #[trigger]
            node_addresses(r@).contains(k) <==> table@.insert(current@, view@).dom().contains(k),
{
    let ghost all = table@.insert(current@, view@);
    let mut nodes: Vec<Node> = Vec::new();
    nodes.push(node_of(current, view));
    let mut i: usize = 0;
    proof {
        lemma_table(table.slots@);
        assert(node_addresses(nodes@) =~= seq![current@]);
        assert(node_addresses(nodes@)[0] == current@);
    }
    while i < table.slots.len()
        invariant
            table.wf(),
            all == table@.insert(current@, view@),
            i <= table.slots@.len(),
            nodes_match(nodes@, all),
            forall|a: int, b: int|
                0 <= a < b < nodes@.len() ==> before(
                    all,
                    (#[trigger] nodes@[a]).address@,
                    (#[trigger] nodes@[b]).address@,
                ),
            forall|k: Seq<char>| #[trigger]
                node_addresses(nodes@).contains(k) <==> k == current@ || exists|j: int|
                    0 <= j < i && (#[trigger] table.slots@[j]).address@ == k,
        decreases table.slots@.len() - i,
    {
        let slot = &table.slots[i];
        proof {
            lemma_table(table.slots@);
            lemma_lookup(table.slots@, i as int);
            assert(table.slots@[i as int].address@ == slot.address@);
            assert(table@.dom().contains(slot.address@));
            if exists|j: int| 0 <= j < i && (#[trigger] table.slots@[j]).address@ == slot.address@ {
                let j = choose|j: int|
                    0 <= j < i && (#[trigger] table.slots@[j]).address@ == slot.address@;
                assert(table.slots@[j].address@ != table.slots@[i as int].address@);
            }
        }
        let ghost prior = nodes@;
        if !text::same(slot.address.as_str(), current) {
            insert_sorted(
                &mut nodes,
                node_of(slot.address.as_str(), &slot.conversation),
                Ghost(all),
            );
        }
        proof {
            assert forall|k: Seq<char>| #[trigger]
                node_addresses(nodes@).contains(k) <==> k == current@ || exists|j: int|
                    0 <= j < i + 1 && (#[trigger] table.slots@[j]).address@ == k by {
                if node_addresses(nodes@).contains(k) {
                    if k == slot.address@ {
                        assert(table.slots@[i as int].address@ == k);
                    } else {
                        assert(node_addresses(prior).contains(k));
                    }
                } else if exists|j: int|
                    0 <= j < i + 1 && (#[trigger] table.slots@[j]).address@ == k {
                    let j = choose|j: int|
                        0 <= j < i + 1 && (#[trigger] table.slots@[j]).address@ == k;
                    if j < i {
                        assert(node_addresses(prior).contains(k));
                    }
                }
            }
        }
        i += 1;
    }
    proof {
        lemma_table(table.slots@);
        let s = node_addresses(nodes@);
        assert forall|k: Seq<char>| #[trigger] s.contains(k) <==> all.dom().contains(k) by {
            if all.dom().contains(k) && k != current@ {
                assert(table@.dom().contains(k));
            }
            if s.contains(k) && k != current@ {
                let j = choose|j: int|
                    0 <= j < table.slots@.len() && (#[trigger] table.slots@[j]).address@ == k;
                assert(table@.dom().contains(k));
            }
        }
        assert(is_order(s, all)) by {
            assert forall|a: int, b: int| 0 <= a < b < s.len() implies before(
                all,
                #[trigger] s[a],
                #[trigger] s[b],
            ) by {
                assert(s[a] == nodes@[a].address@ && s[b] == nodes@[b].address@);
            }
        }
        let t = order(all);
        assert(is_order(t, all));
        lemma_order_unique(s, t, all);
    }
    nodes
}

/// Appends the listing below `address` to `out`.
fn visit_node(
    nodes: &Vec<Node>,
    address: &str,
    depth: usize,
    out: &mut Vec<String>,
    all: Ghost<Map<Seq<char>, Conv>>,
)
    requires
        nodes_match(nodes@, all@),
    ensures
        text::texts(final(out)@) == text::texts(old(out)@) + visit(
            all@,
            node_addresses(nodes@),
            address@,
            depth as nat,
        ),
    decreases depth,
{
    let ghost before = text::texts(out@);
    if depth == 0 {
        proof {
            assert(before + Seq::<Seq<char>>::empty() =~= before);
        }
        return;
    }
    out.push(address.to_owned());
    let ghost mut below = Seq::<Seq<char>>::empty();
    let ghost listing = node_addresses(nodes@);
    proof {
        assert(text::texts(out@) =~= before + (seq![address@] + below));
        assert(visit_children(all@, listing, address@, 0, (depth - 1) as nat) =~= below
            + visit_children(all@, listing, address@, 0, (depth - 1) as nat));
    }
    let mut i: usize = 0;
    while i < nodes.len()
        invariant
            depth > 0,
            nodes_match(nodes@, all@),
            listing == node_addresses(nodes@),
            i <= nodes@.len(),
            text::texts(out@) == before + (seq![address@] + below),
            visit_children(all@, listing, address@, 0, (depth - 1) as nat) == below
                + visit_children(all@, listing, address@, i as nat, (depth - 1) as nat),
        decreases nodes@.len() - i,
    {
        proof {
            assert(listing[i as int] == nodes@[i as int].address@);
        }
        if opt_is(&nodes[i].parent, address) {
            visit_node(nodes, nodes[i].address.as_str(), depth - 1, out, all);
            proof {
                let sub = visit(all@, listing, listing[i as int], (depth - 1) as nat);
                let rest = visit_children(
                    all@,
                    listing,
                    address@,
                    (i + 1) as nat,
                    (depth - 1) as nat,
                );
                assert(before + (seq![address@] + below) + sub =~= before + (seq![address@] + (below
                    + sub)));
                assert(below + (sub + rest) =~= (below + sub) + rest);
                below = below + sub;
            }
        }
        i += 1;
    }
    proof {
        assert(below + Seq::<Seq<char>>::empty() =~= below);
    }
}

/// The agents as a tree in depth-first order.
pub fn agent_order(table: &AgentTable, current: &str, view: &AgentConversation) -> (r: Vec<String>)
    requires
        table.wf(),
    ensures
        text::texts(r@) == tree_order(table@.insert(current@, view@)),
{
    let nodes = sorted_nodes(table, current, view);
    let ghost all = table@.insert(current@, view@);
    let ghost listing = node_addresses(nodes@);
    let mut out: Vec<String> = Vec::new();
    proof {
        assert(text::texts(out@) =~= Seq::empty());
    }
    if has_address(&nodes, "/root") {
        visit_node(&nodes, "/root", nodes.len(), &mut out, Ghost(all));
        proof {
            let sub = visit(all, listing, "/root"@, listing.len());
            assert(Seq::<Seq<char>>::empty() + sub =~= sub);
        }
    }
    let mut i: usize = 0;
    while i < nodes.len()
        invariant
            all == table@.insert(current@, view@),
            nodes_match(nodes@, all),
            listing == node_addresses(nodes@),
            listing == order(all),
            forall|k: Seq<char>| #[trigger] listing.contains(k) <==> all.dom().contains(k),
            i <= nodes@.len(),
            tree_order(all) == visit_tops(all, listing, i as nat, text::texts(out@)),
        decreases nodes@.len() - i,
    {
        proof {
            assert(listing[i as int] == nodes@[i as int].address@);
        }
        let top = match &nodes[i].parent {
            Some(parent) => !has_address(&nodes, parent.as_str()),
            None => true,
        };
        if top && !crate::conversation::holds(&out, nodes[i].address.as_str()) {
            visit_node(&nodes, nodes[i].address.as_str(), nodes.len(), &mut out, Ghost(all));
        }
        i += 1;
    }
    out
}

fn has_address(nodes: &Vec<Node>, address: &str) -> (r: bool)
    ensures
        r == node_addresses(nodes@).contains(address@),
{
    let mut i: usize = 0;
    while i < nodes.len()
        invariant
            i <= nodes@.len(),
            forall|k: int| 0 <= k < i ==> node_addresses(nodes@)[k] != address@,
        decreases nodes@.len() - i,
    {
        if text::same(nodes[i].address.as_str(), address) {
            proof {
                assert(node_addresses(nodes@)[i as int] == address@);
            }
            return true;
        }
        i += 1;
    }
    false
}

/// Place of an agent in an ordered list: the first one that it precedes, from
/// `i` on.
spec fn place(all: Map<Seq<char>, Conv>, s: Seq<Seq<char>>, i: int, k: Seq<char>) -> int
    decreases s.len() - i,
{
    if 0 <= i < s.len() && !before(all, k, s[i]) {
        place(all, s, i + 1, k)
    } else {
        i
    }
}

proof fn lemma_place(all: Map<Seq<char>, Conv>, s: Seq<Seq<char>>, i: int, k: Seq<char>)
    requires
        0 <= i <= s.len(),
    ensures
        i <= place(all, s, i, k) <= s.len(),
        forall|j: int| i <= j < place(all, s, i, k) ==> !before(all, k, #[trigger] s[j]),
        place(all, s, i, k) < s.len() ==> before(all, k, s[place(all, s, i, k)]),
    decreases s.len() - i,
{
    if i < s.len() && !before(all, k, s[i]) {
        lemma_place(all, s, i + 1, k);
    }
}

proof fn lemma_before_transitive(
    all: Map<Seq<char>, Conv>,
    a: Seq<char>,
    b: Seq<char>,
    c: Seq<char>,
)
    requires
        before(all, a, b),
        before(all, b, c),
    ensures
        before(all, a, c),
{
    if lex_lt(a, b) && lex_lt(b, c) {
        lemma_lex_transitive(a, b, c);
    }
}

pub proof fn lemma_order_exists(all: Map<Seq<char>, Conv>)
    requires
        all.dom().finite(),
    ensures
        exists|s: Seq<Seq<char>>| is_order(s, all),
    decreases all.dom().len(),
{
    if all.dom().len() == 0 {
        let s = Seq::<Seq<char>>::empty();
        assert forall|k: Seq<char>| #[trigger] s.contains(k) <==> all.dom().contains(k) by {
            if all.dom().contains(k) {
                assert(all.dom().len() > 0) by {
                    vstd::set_lib::lemma_set_empty_equivalency_len(all.dom());
                }
            }
        }
        assert(is_order(s, all));
    } else {
        let k = all.dom().choose();
        let rest = all.remove(k);
        lemma_order_exists(rest);
        let s = choose|s: Seq<Seq<char>>| is_order(s, rest);
        lemma_place(all, s, 0, k);
        let p = place(all, s, 0, k);
        let t = s.insert(p, k);
        assert forall|i: int| 0 <= i < s.len() implies #[trigger] s[i] != k && all.dom().contains(
            s[i],
        ) by {
            assert(s.contains(s[i]));
        }
        assert forall|i: int, j: int| 0 <= i < j < t.len() implies before(
            all,
            #[trigger] t[i],
            #[trigger] t[j],
        ) by {
            if i == p {
                assert(t[j] == s[j - 1]);
                if j - 1 > p {
                    assert(before(rest, s[p], s[j - 1]));
                    lemma_before_transitive(all, k, s[p], s[j - 1]);
                }
            } else if j == p {
                assert(t[i] == s[i]);
                lemma_lex_total(s[i], k);
            } else {
                let a = if i < p {
                    i
                } else {
                    i - 1
                };
                let b = if j < p {
                    j
                } else {
                    j - 1
                };
                assert(t[i] == s[a] && t[j] == s[b]);
                assert(before(rest, s[a], s[b]));
            }
        }
        assert forall|x: Seq<char>| #[trigger] t.contains(x) <==> all.dom().contains(x) by {
            if t.contains(x) {
                let i = choose|i: int| 0 <= i < t.len() && t[i] == x;
                if i < p {
                    assert(s[i] == x);
                } else if i > p {
                    assert(s[i - 1] == x);
                }
            }
            if all.dom().contains(x) {
                if x == k {
                    assert(t[p] == x);
                } else {
                    assert(s.contains(x));
                    let i = choose|i: int| 0 <= i < s.len() && s[i] == x;
                    if i < p {
                        assert(t[i] == x);
                    } else {
                        assert(t[i + 1] == x);
                    }
                }
            }
        }
        assert(is_order(t, all));
    }
}

/// Whether the parent of `s[i]`, when it is known, stands in `s` before it.
pub open spec fn follows_parent(all: Map<Seq<char>, Conv>, s: Seq<Seq<char>>, i: int) -> bool {
    !is_top(all, s[i]) ==> exists|j: int| 0 <= j < i && Some(#[trigger] s[j]) == all[s[i]].parent
}

/// What holds of the listing of a tree: known agents only, and each but the
/// first, at `at`, behind its parent.
spec fn tree_ok(all: Map<Seq<char>, Conv>, s: Seq<Seq<char>>, from: int, at: int) -> bool {
    forall|i: int|
        from <= i < s.len() ==> all.dom().contains(#[trigger] s[i]) && (i == at || follows_parent(
            all,
            s,
            i,
        ))
}

proof fn lemma_longer(all: Map<Seq<char>, Conv>, s: Seq<Seq<char>>, t: Seq<Seq<char>>, at: int)
    requires
        tree_ok(all, s, 0, at),
        t.len() >= s.len(),
        t.take(s.len() as int) == s,
        tree_ok(all, t, s.len() as int, at),
    ensures
        tree_ok(all, t, 0, at),
{
    assert forall|i: int| 0 <= i < t.len() implies all.dom().contains(#[trigger] t[i]) && (i == at
        || follows_parent(all, t, i)) by {
        if i < s.len() {
            assert(t.take(s.len() as int)[i] == s[i]);
            if i != at && !is_top(all, s[i]) {
                assert(follows_parent(all, s, i));
                let j = choose|j: int| 0 <= j < i && Some(#[trigger] s[j]) == all[s[i]].parent;
                assert(t.take(s.len() as int)[j] == s[j]);
                assert(Some(t[j]) == all[t[i]].parent);
            }
        }
    }
}

/// A tree appended to a listing that holds the parent of its first agent, or
/// one whose first agent is at `at`.
proof fn lemma_visit(
    all: Map<Seq<char>, Conv>,
    listing: Seq<Seq<char>>,
    address: Seq<char>,
    depth: nat,
    done: Seq<Seq<char>>,
    at: int,
)
    requires
        tree_ok(all, done, 0, at),
        all.dom().contains(address),
        forall|i: int| 0 <= i < listing.len() ==> all.dom().contains(#[trigger] listing[i]),
        at == done.len() || is_top(all, address) || exists|j: int|
            0 <= j < done.len() && Some(#[trigger] done[j]) == all[address].parent,
    ensures
        tree_ok(all, done + visit(all, listing, address, depth), 0, at),
    decreases depth, 0nat,
{
    if depth == 0 {
        assert(done + Seq::<Seq<char>>::empty() =~= done);
    } else {
        let head = done.push(address);
        assert(head.take(done.len() as int) =~= done);
        assert(tree_ok(all, head, done.len() as int, at)) by {
            assert(head[done.len() as int] == address);
            if at != done.len() && !is_top(all, address) {
                let j = choose|j: int|
                    0 <= j < done.len() && Some(#[trigger] done[j]) == all[address].parent;
                assert(Some(head[j]) == all[head[done.len() as int]].parent);
            }
        }
        lemma_longer(all, done, head, at);
        assert(head[done.len() as int] == address);
        lemma_visit_children(
            all,
            listing,
            address,
            0,
            (depth - 1) as nat,
            head,
            at,
            done.len() as int,
        );
        assert(head + visit_children(all, listing, address, 0, (depth - 1) as nat) =~= done
            + visit(all, listing, address, depth));
    }
}

proof fn lemma_visit_children(
    all: Map<Seq<char>, Conv>,
    listing: Seq<Seq<char>>,
    parent: Seq<char>,
    i: nat,
    depth: nat,
    done: Seq<Seq<char>>,
    at: int,
    place: int,
)
    requires
        tree_ok(all, done, 0, at),
        forall|i: int| 0 <= i < listing.len() ==> all.dom().contains(#[trigger] listing[i]),
        0 <= place < done.len(),
        done[place] == parent,
    ensures
        tree_ok(all, done + visit_children(all, listing, parent, i, depth), 0, at),
    decreases depth, listing.len() - i,
{
    if i >= listing.len() {
        assert(done + Seq::<Seq<char>>::empty() =~= done);
    } else if all[listing[i as int]].parent == Some(parent) {
        let child = listing[i as int];
        assert(Some(done[place]) == all[child].parent);
        lemma_visit(all, listing, child, depth, done, at);
        let more = done + visit(all, listing, child, depth);
        assert(more[place] == parent);
        lemma_visit_children(all, listing, parent, i + 1, depth, more, at, place);
        assert(more + visit_children(all, listing, parent, i + 1, depth) =~= done + (visit(
            all,
            listing,
            child,
            depth,
        ) + visit_children(all, listing, parent, i + 1, depth)));
    } else {
        lemma_visit_children(all, listing, parent, i + 1, depth, done, at, place);
    }
}

proof fn lemma_visit_tops(
    all: Map<Seq<char>, Conv>,
    listing: Seq<Seq<char>>,
    i: nat,
    done: Seq<Seq<char>>,
    at: int,
)
    requires
        tree_ok(all, done, 0, at),
        forall|i: int| 0 <= i < listing.len() ==> all.dom().contains(#[trigger] listing[i]),
    ensures
        tree_ok(all, visit_tops(all, listing, i, done), 0, at),
        visit_tops(all, listing, i, done).len() >= done.len(),
        visit_tops(all, listing, i, done).take(done.len() as int) == done,
    decreases listing.len() - i,
{
    if i >= listing.len() {
        assert(done.take(done.len() as int) =~= done);
    } else {
        let a = listing[i as int];
        if is_top(all, a) && !done.contains(a) {
            lemma_visit(all, listing, a, listing.len(), done, at);
            let more = done + visit(all, listing, a, listing.len());
            lemma_visit_tops(all, listing, i + 1, more, at);
            let r = visit_tops(all, listing, i + 1, more);
            assert(r.take(done.len() as int) =~= r.take(more.len() as int).take(
                done.len() as int,
            ));
            assert(more.take(done.len() as int) =~= done);
        } else {
            lemma_visit_tops(all, listing, i + 1, done, at);
        }
    }
}

/// The agents drawer lists the root first, lists only known agents, and lists
/// an agent behind its parent whenever that is known; only the root may stand
/// before a parent of its own.
pub proof fn the_listing_is_a_tree(all: Map<Seq<char>, Conv>, i: int)
    requires
        all.dom().finite(),
        all.dom().contains("/root"@),
        0 <= i < tree_order(all).len(),
    ensures
        tree_order(all)[0] == "/root"@,
        all.dom().contains(tree_order(all)[i]),
        i > 0 ==> follows_parent(all, tree_order(all), i),
{
    lemma_order_exists(all);
    let listing = order(all);
    assert(is_order(listing, all));
    assert forall|i: int| 0 <= i < listing.len() implies all.dom().contains(
        #[trigger] listing[i],
    ) by {
        assert(listing.contains(listing[i]));
    }
    assert(listing.contains("/root"@));
    let none = Seq::<Seq<char>>::empty();
    let first = visit(all, listing, "/root"@, listing.len());
    lemma_visit(all, listing, "/root"@, listing.len(), none, 0);
    assert(none + first =~= first);
    lemma_visit_tops(all, listing, 0, first, 0);
    assert(tree_order(all).take(first.len() as int)[0] == first[0]);
}

/// Siblings are listed newest first: of two agents with the same parent, the
/// one created later comes earlier in the order in which children are visited.
pub proof fn newer_siblings_come_first(
    all: Map<Seq<char>, Conv>,
    a: Seq<char>,
    b: Seq<char>,
    i: int,
    j: int,
)
    requires
        all.dom().finite(),
        0 <= i < order(all).len(),
        0 <= j < order(all).len(),
        order(all)[i] == a,
        order(all)[j] == b,
        all[a].created_ord > all[b].created_ord,
    ensures
        i < j,
{
    lemma_order_exists(all);
    assert(is_order(order(all), all));
    if j < i {
        assert(before(all, order(all)[j], order(all)[i]));
    }
}

} // verus!
