//! Query conditions and their rendering as the text of a SQL `WHERE` clause.
//!
//! A query `Q` is a chain of nodes linked by `next`. Each node carries a
//! condition and the conjunction that joins it to the next node; a group node
//! carries no condition of its own and holds a nested query in `inner_next`,
//! which renders in parentheses.
use vstd::prelude::*;
use mysql::{Params, Value};


verus! {

/// The operations that a query queue can hold.
#[derive(Hash, PartialEq, Eq)]
pub enum SQLOperation {
    /// `SELECT * FROM` the named table.
    SELECT(String),
    UPDATE,
    WHERE,
    DELETE,
    JOIN,
    ORDERBY,
}

/// One queued operation, with its statement parameters and, for `WHERE`,
/// its condition.
pub struct Operation {
    pub operation: SQLOperation,
    pub params: Params,
    pub query: Option<Q>,
}

/// How a node is joined to the node after it.
#[derive(Clone, Copy)]
pub enum Conjunction {
    AND,
    OR,
    GROUP,
    START,
}

impl Conjunction {
    /// The keyword of the conjunction: `AND`, `OR`, or nothing for `GROUP`
    /// and `START`.
    pub open spec fn spec_str(self) -> Seq<char> {
        match self {
            Conjunction::AND => "AND"@,
            Conjunction::OR => "OR"@,
            Conjunction::GROUP => Seq::empty(),
            Conjunction::START => Seq::empty(),
        }
    }

    /// The keyword of the conjunction as a string.
    pub fn to_str(self) -> (s: String)
        ensures
            s@ == self.spec_str(),
    {
        match self {
            Conjunction::AND => String::from_str("AND"),
            Conjunction::OR => String::from_str("OR"),
            Conjunction::GROUP => String::new(),
            Conjunction::START => String::new(),
        }
    }
}

/// A condition on one field.
#[derive(Clone)]
pub enum Condition {
    /// `field LIKE pattern`
    LIKE(String, String),
    /// `field = value`
    EQUALS(String, String),
    /// greater or equal
    GE(String, Value),
    /// greater
    G(String, Value),
    /// less or equal
    LE(String, Value),
    /// less
    L(String, Value),
    /// no condition; renders as nothing
    NONE,
}

impl Condition {
    /// The conditions that have a SQL rendering; the comparisons against a
    /// `Value` have none yet.
    pub open spec fn renders(&self) -> bool {
        match self {
            Condition::LIKE(_, _) => true,
            Condition::EQUALS(_, _) => true,
            Condition::NONE => true,
            _ => false,
        }
    }

    /// The SQL text of a condition that renders.
    pub open spec fn spec_sql(&self) -> Seq<char> {
        match self {
            Condition::LIKE(f, e) => f@ + " LIKE "@ + e@,
            Condition::EQUALS(f, e) => f@ + " = "@ + e@,
            _ => Seq::empty(),
        }
    }

    /// Renders the condition as SQL text.
    pub fn as_sql(&self) -> (s: String)
        requires
            self.renders(),
        ensures
            s@ == self.spec_sql(),
    {
        match self {
            Condition::LIKE(field_name, expr) => {
                let mut s = field_name.clone();
                s.append(" LIKE ");
                s.append(expr.as_str());
                s
            },
            Condition::EQUALS(field_name, expr) => {
                let mut s = field_name.clone();
                s.append(" = ");
                s.append(expr.as_str());
                s
            },
            _ => String::new(),
        }
    }

    /// A copy of the condition with equal fields.
    fn copy(&self) -> (c: Condition)
        ensures
            c == *self,
    {
        match self {
            Condition::LIKE(a, b) => Condition::LIKE(a.clone(), b.clone()),
            Condition::EQUALS(a, b) => Condition::EQUALS(a.clone(), b.clone()),
            Condition::GE(a, v) => Condition::GE(a.clone(), v.clone()),
            Condition::G(a, v) => Condition::G(a.clone(), v.clone()),
            Condition::LE(a, v) => Condition::LE(a.clone(), v.clone()),
            Condition::L(a, v) => Condition::L(a.clone(), v.clone()),
            Condition::NONE => Condition::NONE,
        }
    }
}

/// A query: a chain of conditions joined by conjunctions, possibly with
/// nested groups.
pub struct Q {
    next: Option<Box<Q>>,
    inner_next: Option<Box<Q>>,
    child_count: u32,
    is_group: bool,
    condition: Condition,
    conjunction: Conjunction,
}

/// The SQL text of an optional query; nothing for `None`.
pub closed spec fn opt_sql(q: Option<Box<Q>>) -> Seq<char>
    decreases q,
{
    match q {
        Some(n) => n.sql(),
        None => Seq::empty(),
    }
}

/// The number of opening minus the number of closing parentheses in `s`.
pub open spec fn paren_depth(s: Seq<char>) -> int
    decreases s.len(),
{
    if s.len() == 0 {
        0
    } else {
        paren_depth(s.drop_last()) + if s.last() == '(' {
            1int
        } else if s.last() == ')' {
            -1int
        } else {
            0int
        }
    }
}

/// Every parenthesis of `s` is matched: no prefix closes more than it
/// opened, and the whole text closes all it opened.
pub open spec fn balanced(s: Seq<char>) -> bool {
    &&& paren_depth(s) == 0
    &&& forall|k: int| 0 <= k <= s.len() ==> paren_depth(#[trigger] s.take(k)) >= 0
}

/// `s` holds no parenthesis.
pub open spec fn paren_free(s: Seq<char>) -> bool {
    forall|i: int| 0 <= i < s.len() ==> #[trigger] s[i] != '(' && s[i] != ')'
}

proof fn lemma_depth_concat(a: Seq<char>, b: Seq<char>)
    ensures
        paren_depth(a + b) == paren_depth(a) + paren_depth(b),
    decreases b.len(),
{
    if b.len() == 0 {
        assert(a + b =~= a);
    } else {
        lemma_depth_concat(a, b.drop_last());
        assert((a + b).drop_last() =~= a + b.drop_last());
        assert((a + b).last() == b.last());
    }
}

/// A text without parentheses is balanced.
pub proof fn lemma_paren_free_balanced(s: Seq<char>)
    requires
        paren_free(s),
    ensures
        balanced(s),
        paren_depth(s) == 0,
    decreases s.len(),
{
    if s.len() > 0 {
        lemma_paren_free_balanced(s.drop_last());
        assert(s.last() == s[s.len() - 1]);
    }
    assert forall|k: int| 0 <= k <= s.len() implies paren_depth(#[trigger] s.take(k)) >= 0 by {
        assert(paren_free(s.take(k)));
        lemma_paren_free_depth(s.take(k));
    }
}

proof fn lemma_paren_free_depth(s: Seq<char>)
    requires
        paren_free(s),
    ensures
        paren_depth(s) == 0,
    decreases s.len(),
{
    if s.len() > 0 {
        assert(paren_free(s.drop_last()));
        lemma_paren_free_depth(s.drop_last());
        assert(s.last() == s[s.len() - 1]);
    }
}

/// Two balanced texts, one after the other, are balanced.
pub proof fn lemma_concat_balanced(a: Seq<char>, b: Seq<char>)
    requires
        balanced(a),
        balanced(b),
    ensures
        balanced(a + b),
{
    lemma_depth_concat(a, b);
    assert forall|k: int| 0 <= k <= (a + b).len() implies paren_depth(#[trigger] (a + b).take(k)) >= 0 by {
        if k <= a.len() {
            assert((a + b).take(k) =~= a.take(k));
        } else {
            assert((a + b).take(k) =~= a + b.take(k - a.len()));
            lemma_depth_concat(a, b.take(k - a.len()));
        }
    }
}

/// A balanced text in parentheses is balanced.
pub proof fn lemma_wrap_balanced(s: Seq<char>)
    requires
        balanced(s),
    ensures
        balanced("("@ + s + ")"@),
{
    reveal_strlit("(");
    reveal_strlit(")");
    let w = "("@ + s + ")"@;
    lemma_depth_concat("("@, s);
    lemma_depth_concat("("@ + s, ")"@);
    assert(paren_depth("("@) == 1) by {
        assert("("@.len() == 1);
        assert("("@[0] == '(');
        assert("("@.drop_last() =~= Seq::<char>::empty());
        assert(paren_depth(Seq::<char>::empty()) == 0);
    }
    assert(paren_depth(")"@) == -1) by {
        assert(")"@.len() == 1);
        assert(")"@[0] == ')');
        assert(")"@.drop_last() =~= Seq::<char>::empty());
        assert(paren_depth(Seq::<char>::empty()) == 0);
    }
    assert forall|k: int| 0 <= k <= w.len() implies paren_depth(#[trigger] w.take(k)) >= 0 by {
        if k == 0 {
            assert(w.take(k) =~= Seq::<char>::empty());
        } else if k <= s.len() + 1 {
            assert(w.take(k) =~= "("@ + s.take(k - 1));
            lemma_depth_concat("("@, s.take(k - 1));
        } else {
            assert(w.take(k) =~= w);
        }
    }
}

/// Two texts without parentheses, one after the other, hold none.
pub proof fn lemma_paren_free_concat(a: Seq<char>, b: Seq<char>)
    requires
        paren_free(a),
        paren_free(b),
    ensures
        paren_free(a + b),
{
    assert forall|i: int| 0 <= i < (a + b).len() implies #[trigger] (a + b)[i] != '(' && (a + b)[i]
        != ')' by {
        if i < a.len() {
            assert((a + b)[i] == a[i]);
        } else {
            assert((a + b)[i] == b[i - a.len()]);
        }
    }
}

/// The keyword of a conjunction holds no parenthesis.
proof fn proof_conj_paren_free(c: Conjunction)
    ensures
        paren_free(c.spec_str()),
{
    reveal_strlit("AND");
    reveal_strlit("OR");
}

impl Q {
    /// The node after this one.
    pub closed spec fn next_node(self) -> Option<Box<Q>> {
        self.next
    }

    /// The nested query of a group node.
    pub closed spec fn inner_node(self) -> Option<Box<Q>> {
        self.inner_next
    }

    /// The number of times a tail was attached to this node.
    pub closed spec fn children(self) -> u32 {
        self.child_count
    }

    /// Whether this node is a group.
    pub closed spec fn group(self) -> bool {
        self.is_group
    }

    /// The condition of this node.
    pub closed spec fn cond(self) -> Condition {
        self.condition
    }

    /// The conjunction that joins this node to the next one.
    pub closed spec fn conj(self) -> Conjunction {
        self.conjunction
    }

    /// Every condition in the query, nested ones included, has a rendering.
    pub closed spec fn wf(self) -> bool
        decreases self,
    {
        &&& self.condition.renders()
        &&& match self.next {
            Some(n) => n.wf(),
            None => true,
        }
        &&& match self.inner_next {
            Some(n) => n.wf(),
            None => true,
        }
    }

    /// The SQL text of the query: the node's condition; for a group node,
    /// the nested query in parentheses; then, when there is a next node, a
    /// space, the conjunction keyword, a space and the text of the rest.
    pub closed spec fn sql(self) -> Seq<char>
        decreases self,
    {
        let head = if self.is_group && self.inner_next is Some {
            self.condition.spec_sql() + "("@ + opt_sql(self.inner_next) + ")"@
        } else {
            self.condition.spec_sql()
        };
        if self.next is Some {
            head + " "@ + self.conjunction.spec_str() + " "@ + opt_sql(self.next)
        } else {
            head
        }
    }

    /// The number of nodes in the chain that starts at this node.
    pub closed spec fn chain_len(self) -> nat
        decreases self,
    {
        match self.next {
            Some(n) => 1 + n.chain_len(),
            None => 1,
        }
    }

    /// The query with `t` attached after the last node of its chain.
    pub closed spec fn appended(self, t: Q) -> Q
        decreases self,
    {
        match self.next {
            None => Q { next: Some(Box::new(t)), ..self },
            Some(n) => Q { next: Some(Box::new(n.appended(t))), ..self },
        }
    }

    /// The query with the conjunction of the last node of its chain set to `c`.
    pub closed spec fn with_last_conj(self, c: Conjunction) -> Q
        decreases self,
    {
        match self.next {
            None => Q { conjunction: c, ..self },
            Some(n) => Q { next: Some(Box::new(n.with_last_conj(c))), ..self },
        }
    }

    /// The conjunction of the last node of the chain.
    pub closed spec fn last_conj(self) -> Conjunction
        decreases self,
    {
        match self.next {
            None => self.conjunction,
            Some(n) => n.last_conj(),
        }
    }

    /// A single node with the group flag, condition and conjunction of `self`,
    /// without next node, nested query or children.
    pub closed spec fn shallow(self) -> Q {
        Q {
            next: None,
            inner_next: None,
            child_count: 0,
            is_group: self.is_group,
            condition: self.condition,
            conjunction: self.conjunction,
        }
    }

    /// A single node: no next node, no nested query, no children, not a
    /// group, joined by `START`.
    pub open spec fn is_leaf(self) -> bool {
        &&& self.next_node() is None
        &&& self.inner_node() is None
        &&& self.children() == 0
        &&& !self.group()
        &&& self.conj() == Conjunction::START
    }

    /// Each attached tail added one node to the chain: the chain holds one
    /// node more than the head has children.
    pub open spec fn counted(self) -> bool {
        self.children() + 1 == self.chain_len()
    }

    /// A group node that holds `t` as its nested query.
    pub closed spec fn group_of(t: Q) -> Q {
        Q {
            next: None,
            inner_next: Some(Box::new(t)),
            child_count: 1,
            is_group: true,
            condition: Condition::NONE,
            conjunction: Conjunction::GROUP,
        }
    }

    /// `self` after `set_tail(q)`: one more child, and `q` attached whole
    /// after the last node of the chain.
    pub closed spec fn with_tail(self, q: Q) -> Q {
        Q { child_count: (self.child_count + 1) as u32, ..self.appended(q) }
    }

    /// What `and` and `or` attach: a tail that has children of its own is
    /// wrapped in a group node, any other tail is attached as it is.
    pub closed spec fn joinable(tail: Q) -> Q {
        if tail.child_count != 0 {
            Q::group_of(tail)
        } else {
            tail
        }
    }

    /// `self` joined with `tail` by the conjunction `c`: the last node of
    /// the chain is joined by `c` to what `joinable(tail)` gives.
    pub closed spec fn joined(self, tail: Q, c: Conjunction) -> Q {
        self.with_last_conj(c).with_tail(Q::joinable(tail))
    }

    /// The text of the query that `joinable(tail)` attaches.
    pub open spec fn tail_sql(tail: Q) -> Seq<char> {
        if tail.children() == 0 {
            tail.sql()
        } else {
            "("@ + tail.sql() + ")"@
        }
    }

    proof fn lemma_appended_wf(q: Q, t: Q)
        requires
            q.wf(),
            t.wf(),
        ensures
            q.appended(t).wf(),
        decreases q,
    {
        match q.next {
            Some(n) => Q::lemma_appended_wf(*n, t),
            None => {},
        }
    }

    proof fn lemma_last_conj_wf(q: Q, c: Conjunction)
        requires
            q.wf(),
        ensures
            q.with_last_conj(c).wf(),
        decreases q,
    {
        match q.next {
            Some(n) => Q::lemma_last_conj_wf(*n, c),
            None => {},
        }
    }

    /// Joining keeps every condition renderable.
    pub proof fn lemma_joined_wf(q: Q, t: Q, c: Conjunction)
        requires
            q.wf(),
            t.wf(),
        ensures
            q.joined(t, c).wf(),
    {
        Q::lemma_last_conj_wf(q, c);
        let j = Q::joinable(t);
        assert(j.wf());
        Q::lemma_appended_wf(q.with_last_conj(c), j);
    }

    /// The text of a node: its condition; for a group node with a nested
    /// query, that query in parentheses; then, when there is a next node, a
    /// space, the conjunction keyword, a space and the text of the rest.
    pub proof fn lemma_sql_unfold(q: Q)
        ensures
            q.sql() == (if q.group() && q.inner_node() is Some {
                q.cond().spec_sql() + "("@ + q.inner_node().unwrap().sql() + ")"@
            } else {
                q.cond().spec_sql()
            }) + (if q.next_node() is Some {
                " "@ + q.conj().spec_str() + " "@ + q.next_node().unwrap().sql()
            } else {
                Seq::empty()
            }),
    {
        let head = if q.is_group && q.inner_next is Some {
            q.condition.spec_sql() + "("@ + opt_sql(q.inner_next) + ")"@
        } else {
            q.condition.spec_sql()
        };
        if q.next is Some {
            assert(head + " "@ + q.conjunction.spec_str() + " "@ + opt_sql(q.next) =~= head + (" "@
                + q.conjunction.spec_str() + " "@ + opt_sql(q.next)));
        } else {
            assert(head + Seq::<char>::empty() =~= head);
        }
    }

    /// The text of a single node is the text of its condition.
    pub proof fn lemma_leaf_sql(q: Q)
        requires
            q.is_leaf(),
        ensures
            q.sql() == q.cond().spec_sql(),
    {
    }

    proof fn lemma_appended_last_conj_sql(q: Q, t: Q, c: Conjunction)
        ensures
            q.with_last_conj(c).appended(t).sql() == q.sql() + " "@ + c.spec_str() + " "@ + t.sql(),
        decreases q,
    {
        match q.next {
            None => {
                assert(opt_sql(Some(Box::new(t))) == t.sql());
            },
            Some(n) => {
                Q::lemma_appended_last_conj_sql(*n, t, c);
                let r = n.with_last_conj(c).appended(t);
                assert(opt_sql(Some(Box::new(r))) == r.sql());
                let head = if q.is_group && q.inner_next is Some {
                    q.condition.spec_sql() + "("@ + opt_sql(q.inner_next) + ")"@
                } else {
                    q.condition.spec_sql()
                };
                let k = q.conjunction.spec_str();
                assert(head + " "@ + k + " "@ + (n.sql() + " "@ + c.spec_str() + " "@ + t.sql())
                    =~= head + " "@ + k + " "@ + n.sql() + " "@ + c.spec_str() + " "@ + t.sql());
            },
        }
    }

    /// Joining `tail` to any query with a conjunction renders as the query,
    /// the keyword between single spaces, and the tail; a tail that was
    /// itself built by joining renders in parentheses.
    pub proof fn lemma_join_renders(q: Q, tail: Q, c: Conjunction)
        ensures
            q.joined(tail, c).sql() == q.sql() + " "@ + c.spec_str() + " "@ + Q::tail_sql(tail),
    {
        let j = Q::joinable(tail);
        if tail.child_count != 0 {
            let g = Q::group_of(tail);
            assert(g.sql() =~= "("@ + tail.sql() + ")"@);
        }
        Q::lemma_appended_last_conj_sql(q, j, c);
        let a = q.with_last_conj(c).appended(j);
        assert(Q { child_count: (q.with_last_conj(c).child_count + 1) as u32, ..a }.sql() == a.sql());
    }

    proof fn lemma_appended_len(q: Q, t: Q)
        ensures
            q.appended(t).chain_len() == q.chain_len() + t.chain_len(),
            q.appended(t).child_count == q.child_count,
        decreases q,
    {
        match q.next {
            Some(n) => Q::lemma_appended_len(*n, t),
            None => {},
        }
    }

    proof fn lemma_last_conj_len(q: Q, c: Conjunction)
        ensures
            q.with_last_conj(c).chain_len() == q.chain_len(),
            q.with_last_conj(c).child_count == q.child_count,
        decreases q,
    {
        match q.next {
            Some(n) => Q::lemma_last_conj_len(*n, c),
            None => {},
        }
    }

    /// The last conjunction of a chain is that of its head when the head
    /// has no next node, and that of the rest of the chain otherwise.
    pub proof fn lemma_last_conj_unfold(q: Q)
        ensures
            q.next_node() is None ==> q.last_conj() == q.conj(),
            q.next_node() matches Some(n) ==> q.last_conj() == n.last_conj(),
    {
    }

    proof fn lemma_last_conj_same(q: Q)
        ensures
            q.with_last_conj(q.last_conj()) == q,
        decreases q,
    {
        match q.next {
            Some(n) => {
                Q::lemma_last_conj_same(*n);
            },
            None => {},
        }
    }

    /// Attaching `t` whole after the last node of the chain, as `set_tail`
    /// does: one more child at the head, the nodes of `t` added to the chain,
    /// and the text of `t` after the query's text, joined by the last node's
    /// conjunction between single spaces.
    pub proof fn lemma_with_tail(q: Q, t: Q)
        requires
            q.children() < u32::MAX,
        ensures
            q.with_tail(t).children() == q.children() + 1,
            q.with_tail(t).chain_len() == q.chain_len() + t.chain_len(),
            q.with_tail(t).sql() == q.sql() + " "@ + q.last_conj().spec_str() + " "@ + t.sql(),
            q.with_tail(t).cond() == q.cond(),
            q.with_tail(t).group() == q.group(),
    {
        Q::lemma_last_conj_same(q);
        Q::lemma_appended_last_conj_sql(q, t, q.last_conj());
        Q::lemma_appended_len(q, t);
        let a = q.appended(t);
        assert(Q { child_count: (q.child_count + 1) as u32, ..a }.sql() == a.sql());
        assert(Q { child_count: (q.child_count + 1) as u32, ..a }.chain_len() == a.chain_len());
    }

    /// In a query whose chain holds one node more than its head has
    /// children, the head has children exactly when it has a next node.
    pub proof fn lemma_counted_children(q: Q)
        requires
            q.counted(),
        ensures
            q.children() == 0 <==> q.next_node() is None,
    {
        match q.next {
            Some(n) => {
                assert(n.chain_len() >= 1) by {
                    match n.next {
                        Some(m) => {},
                        None => {},
                    }
                }
            },
            None => {},
        }
    }

    /// A join counts one more child at the head of the query.
    pub proof fn lemma_join_children(q: Q, tail: Q, c: Conjunction)
        requires
            q.children() < u32::MAX,
        ensures
            q.joined(tail, c).children() == q.children() + 1,
    {
        Q::lemma_last_conj_len(q, c);
        Q::lemma_appended_len(q.with_last_conj(c), Q::joinable(tail));
    }

    /// A join adds one child and one node to the chain, so a query whose
    /// chain holds one node more than its head has children keeps that
    /// count when another counted query is joined to it.
    pub proof fn lemma_join_counts(q: Q, tail: Q, c: Conjunction)
        requires
            q.counted(),
            tail.counted(),
            q.children() < u32::MAX,
        ensures
            q.joined(tail, c).children() == q.children() + 1,
            q.joined(tail, c).chain_len() == q.chain_len() + 1,
            q.joined(tail, c).counted(),
    {
        Q::lemma_last_conj_len(q, c);
        let j = Q::joinable(tail);
        assert(j.chain_len() == 1);
        Q::lemma_appended_len(q.with_last_conj(c), j);
    }

    /// Every condition in the query, nested ones included, renders as text
    /// with balanced parentheses.
    pub closed spec fn conds_balanced(self) -> bool
        decreases self,
    {
        &&& balanced(self.condition.spec_sql())
        &&& match self.next {
            Some(n) => n.conds_balanced(),
            None => true,
        }
        &&& match self.inner_next {
            Some(n) => n.conds_balanced(),
            None => true,
        }
    }

    proof fn lemma_appended_cb(q: Q, t: Q)
        requires
            q.conds_balanced(),
            t.conds_balanced(),
        ensures
            q.appended(t).conds_balanced(),
        decreases q,
    {
        match q.next {
            Some(n) => Q::lemma_appended_cb(*n, t),
            None => {},
        }
    }

    proof fn lemma_last_conj_cb(q: Q, c: Conjunction)
        requires
            q.conds_balanced(),
        ensures
            q.with_last_conj(c).conds_balanced(),
        decreases q,
    {
        match q.next {
            Some(n) => Q::lemma_last_conj_cb(*n, c),
            None => {},
        }
    }

    /// Joining keeps the text of every condition balanced.
    pub proof fn lemma_joined_conds_balanced(q: Q, t: Q, c: Conjunction)
        requires
            q.conds_balanced(),
            t.conds_balanced(),
        ensures
            q.joined(t, c).conds_balanced(),
    {
        Q::lemma_last_conj_cb(q, c);
        lemma_paren_free_balanced(Seq::<char>::empty());
        let j = Q::joinable(t);
        assert(j.conds_balanced());
        Q::lemma_appended_cb(q.with_last_conj(c), j);
    }

    /// The parentheses that the rendering adds around nested queries are
    /// balanced: where the text of every condition is balanced, so is the
    /// text of the whole query.
    pub proof fn lemma_sql_balanced(q: Q)
        requires
            q.conds_balanced(),
        ensures
            balanced(q.sql()),
        decreases q,
    {
        let c = q.condition.spec_sql();
        let head = if q.is_group && q.inner_next is Some {
            c + "("@ + opt_sql(q.inner_next) + ")"@
        } else {
            c
        };
        if q.is_group && q.inner_next is Some {
            let inner = q.inner_next.unwrap();
            Q::lemma_sql_balanced(*inner);
            lemma_wrap_balanced(inner.sql());
            lemma_concat_balanced(c, "("@ + inner.sql() + ")"@);
            assert(head =~= c + ("("@ + inner.sql() + ")"@));
        }
        assert(balanced(head));
        if q.next is Some {
            let n = q.next.unwrap();
            Q::lemma_sql_balanced(*n);
            let k = q.conjunction.spec_str();
            proof_conj_paren_free(q.conjunction);
            reveal_strlit(" ");
            lemma_paren_free_balanced(" "@ + k + " "@);
            lemma_concat_balanced(head, " "@ + k + " "@);
            lemma_concat_balanced(head + (" "@ + k + " "@), n.sql());
            assert(head + " "@ + k + " "@ + opt_sql(q.next) =~= head + (" "@ + k + " "@) + n.sql());
        }
    }

    /// Whether every condition in the query has a rendering.
    pub fn renderable(&self) -> (r: bool)
        ensures
            r == self.wf(),
        decreases self,
    {
        let own = match &self.condition {
            Condition::LIKE(_, _) => true,
            Condition::EQUALS(_, _) => true,
            Condition::NONE => true,
            _ => false,
        };
        if !own {
            return false;
        }
        let next_ok = match &self.next {
            Some(n) => n.renderable(),
            None => true,
        };
        let inner_ok = match &self.inner_next {
            Some(n) => n.renderable(),
            None => true,
        };
        next_ok && inner_ok
    }

    /// Renders the query as the text of a SQL `WHERE` clause.
    pub fn to_sql(&self) -> (s: String)
        requires
            self.wf(),
        ensures
            s@ == self.sql(),
        decreases self,
    {
        let mut sql_raw = self.condition.as_sql();
        let con = self.conjunction.to_str();
        if self.is_group {
            match &self.inner_next {
                Some(next) => {
                    let inner = next.to_sql();
                    sql_raw.append("(");
                    sql_raw.append(inner.as_str());
                    sql_raw.append(")");
                },
                None => {},
            }
        }
        match &self.next {
            Some(next) => {
                let rest = next.to_sql();
                sql_raw.append(" ");
                sql_raw.append(con.as_str());
                sql_raw.append(" ");
                sql_raw.append(rest.as_str());
            },
            None => {},
        }
        sql_raw
    }

    /// Attaches `t` after the last node of the chain that starts at `node`.
    fn append_last(node: &mut Option<Box<Q>>, t: Q)
        requires
            old(node).is_some(),
        ensures
            *final(node) == Some(Box::new(old(node).unwrap().appended(t))),
        decreases *old(node),
    {
        let mut tmp = None;
        std::mem::swap(&mut tmp, node);
        let mut boxed = tmp.unwrap();
        if boxed.next.is_none() {
            boxed.next = Some(Box::new(t));
        } else {
            Q::append_last(&mut boxed.next, t);
        }
        *node = Some(boxed);
    }

    /// Sets the conjunction of the last node of the chain to `c`.
    fn set_last_conjunction(&mut self, c: Conjunction)
        ensures
            *final(self) == old(self).with_last_conj(c),
        decreases *old(self),
    {
        if self.next.is_none() {
            self.conjunction = c;
        } else {
            let mut tmp = None;
            std::mem::swap(&mut tmp, &mut self.next);
            let mut boxed = tmp.unwrap();
            boxed.set_last_conjunction(c);
            self.next = Some(boxed);
        }
    }

    /// Counts one more child and attaches `q` whole after the last node of
    /// the chain.
    pub fn set_tail(&mut self, q: Q)
        requires
            old(self).children() < u32::MAX,
        ensures
            *final(self) == old(self).with_tail(q),
            final(self).children() == old(self).children() + 1,
            final(self).chain_len() == old(self).chain_len() + q.chain_len(),
            final(self).sql() == old(self).sql() + " "@ + old(self).last_conj().spec_str() + " "@
                + q.sql(),
    {
        proof {
            Q::lemma_with_tail(*old(self), q);
        }
        self.child_count = self.child_count + 1;
        if self.next.is_none() {
            self.next = Some(Box::new(q));
        } else {
            Q::append_last(&mut self.next, q);
        }
    }

    /// A single node with the group flag, condition and conjunction of `q`.
    pub fn shallow_copy(q: &Q) -> (r: Q)
        ensures
            r == q.shallow(),
            r.next_node() is None,
            r.inner_node() is None,
            r.children() == 0,
            r.group() == q.group(),
            r.cond() == q.cond(),
            r.conj() == q.conj(),
            r.sql() == q.cond().spec_sql(),
            r.chain_len() == 1,
    {
        Q {
            next: None,
            inner_next: None,
            child_count: 0,
            is_group: q.is_group,
            condition: q.condition.copy(),
            conjunction: q.conjunction,
        }
    }

    /// A new query with the single condition `id LIKE 1`.
    pub fn n() -> (r: Q)
        ensures
            r.is_leaf(),
            r.counted(),
            r.wf(),
            r.cond() matches Condition::LIKE(f, e) && f@ == "id"@ && e@ == "1"@,
            r.sql() == "id"@ + " LIKE "@ + "1"@,
            r.conds_balanced(),
    {
        proof {
            reveal_strlit("id");
            reveal_strlit(" LIKE ");
            reveal_strlit("1");
            assert(paren_free("id"@));
            assert(paren_free(" LIKE "@));
            assert(paren_free("1"@));
            lemma_paren_free_concat("id"@, " LIKE "@);
            lemma_paren_free_concat("id"@ + " LIKE "@, "1"@);
            lemma_paren_free_balanced("id"@ + " LIKE "@ + "1"@);
        }
        Q {
            is_group: false,
            inner_next: None,
            next: None,
            child_count: 0,
            conjunction: Conjunction::START,
            condition: Condition::LIKE(String::from_str("id"), String::from_str("1")),
        }
    }

    /// Joins `tail` to this query with `AND`.
    pub fn and(self, tail: Q) -> (r: Q)
        requires
            self.children() < u32::MAX,
        ensures
            r == self.joined(tail, Conjunction::AND),
            r.children() == self.children() + 1,
            self.wf() && tail.wf() ==> r.wf(),
            self.counted() && tail.counted() ==> r.counted(),
            self.conds_balanced() && tail.conds_balanced() ==> r.conds_balanced(),
            r.sql() == self.sql() + " "@ + Conjunction::AND.spec_str() + " "@ + Q::tail_sql(tail),
    {
        proof {
            if self.wf() && tail.wf() {
                Q::lemma_joined_wf(self, tail, Conjunction::AND);
            }
            if self.counted() && tail.counted() {
                Q::lemma_join_counts(self, tail, Conjunction::AND);
            }
            if self.conds_balanced() && tail.conds_balanced() {
                Q::lemma_joined_conds_balanced(self, tail, Conjunction::AND);
            }
            Q::lemma_join_renders(self, tail, Conjunction::AND);
            Q::lemma_join_children(self, tail, Conjunction::AND);
        }
        let mut this = self;
        this.set_last_conjunction(Conjunction::AND);
        if tail.child_count != 0 {
            this.set_tail(Q {
                is_group: true,
                inner_next: Some(Box::new(tail)),
                next: None,
                condition: Condition::NONE,
                child_count: 1,
                conjunction: Conjunction::GROUP,
            })
        } else {
            this.set_tail(tail);
        }
        this
    }

    /// Joins `tail` to this query with `OR`.
    pub fn or(self, tail: Q) -> (r: Q)
        requires
            self.children() < u32::MAX,
        ensures
            r == self.joined(tail, Conjunction::OR),
            r.children() == self.children() + 1,
            self.wf() && tail.wf() ==> r.wf(),
            self.counted() && tail.counted() ==> r.counted(),
            self.conds_balanced() && tail.conds_balanced() ==> r.conds_balanced(),
            r.sql() == self.sql() + " "@ + Conjunction::OR.spec_str() + " "@ + Q::tail_sql(tail),
    {
        proof {
            if self.wf() && tail.wf() {
                Q::lemma_joined_wf(self, tail, Conjunction::OR);
            }
            if self.counted() && tail.counted() {
                Q::lemma_join_counts(self, tail, Conjunction::OR);
            }
            if self.conds_balanced() && tail.conds_balanced() {
                Q::lemma_joined_conds_balanced(self, tail, Conjunction::OR);
            }
            Q::lemma_join_renders(self, tail, Conjunction::OR);
            Q::lemma_join_children(self, tail, Conjunction::OR);
        }
        let mut this = self;
        this.set_last_conjunction(Conjunction::OR);
        if tail.child_count != 0 {
            this.set_tail(Q {
                is_group: true,
                inner_next: Some(Box::new(tail)),
                next: None,
                condition: Condition::NONE,
                child_count: 1,
                conjunction: Conjunction::GROUP,
            })
        } else {
            this.set_tail(tail);
        }
        this
    }
}

/// A query with the single condition `field_name LIKE like_str`.
pub fn like(field_name: String, like_str: String) -> (r: Q)
    ensures
        r.is_leaf(),
        r.counted(),
        r.cond() == Condition::LIKE(field_name, like_str),
        r.wf(),
        r.sql() == field_name@ + " LIKE "@ + like_str@,
        paren_free(field_name@) && paren_free(like_str@) ==> r.conds_balanced(),
{
    proof {
        if paren_free(field_name@) && paren_free(like_str@) {
            reveal_strlit(" LIKE ");
            assert(paren_free(" LIKE "@));
            lemma_paren_free_concat(field_name@, " LIKE "@);
            lemma_paren_free_concat(field_name@ + " LIKE "@, like_str@);
            lemma_paren_free_balanced(field_name@ + " LIKE "@ + like_str@);
        }
    }
    Q {
        is_group: false,
        inner_next: None,
        next: None,
        child_count: 0,
        conjunction: Conjunction::START,
        condition: Condition::LIKE(field_name, like_str),
    }
}

/// A query with the single condition `field_name = val`. A string value
/// must carry its own quotes.
pub fn eq(field_name: &str, val: &str) -> (r: Q)
    ensures
        r.is_leaf(),
        r.counted(),
        r.wf(),
        r.cond() matches Condition::EQUALS(f, v) && f@ == field_name@ && v@ == val@,
        r.sql() == field_name@ + " = "@ + val@,
        paren_free(field_name@) && paren_free(val@) ==> r.conds_balanced(),
{
    proof {
        if paren_free(field_name@) && paren_free(val@) {
            reveal_strlit(" = ");
            let t = field_name@ + " = "@ + val@;
            assert(paren_free(t)) by {
                assert forall|i: int| 0 <= i < t.len() implies #[trigger] t[i] != '(' && t[i] != ')' by {
                    if i < field_name@.len() {
                        assert(t[i] == field_name@[i]);
                    } else if i < field_name@.len() + 3 {
                        assert(t[i] == " = "@[i - field_name@.len()]);
                    } else {
                        assert(t[i] == val@[i - field_name@.len() - 3]);
                    }
                }
            }
            lemma_paren_free_balanced(t);
        }
    }
    Q {
        is_group: false,
        next: None,
        inner_next: None,
        child_count: 0,
        conjunction: Conjunction::START,
        condition: Condition::EQUALS(String::from_str(field_name), String::from_str(val)),
    }
}

/// Builds a statement by queueing operations on a client.
pub trait SQLZygote {
    fn get(&mut self, table_name: &str) -> &mut Self;

    fn update(&mut self, table_name: &str) -> &mut Self;

    fn delete(&mut self, table_name: &str) -> &Self;

    fn _where(&mut self, conditions: Q) -> &mut Self;
}

} // verus!
