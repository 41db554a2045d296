//! Dimension chains: a linked sequence of nodes describing the nested
//! structure of a multidimensional array, outermost level first.  Every
//! node carries a row count; only the terminal node of a well-formed
//! chain carries a nonzero column count, which gives the width of the
//! innermost rows.

use vstd::prelude::*;
use vstd::string::StringExecFns;

verus! {

/// One node of a dimension chain.  The chain reachable through `next`
/// describes the nesting levels from this node inwards; `prev` is a
/// convenience back-reference kept for lookup only and never followed
/// by any of the traversals.
#[derive(Debug)]
pub struct Dimensions {
    columns: usize,
    rows: usize,
    next: Option<Box<Dimensions>>,
    prev: Option<Box<Dimensions>>,
}

impl Dimensions {
    /// The mathematical content of the chain that starts at this node:
    /// the sequence of `(row_count, column_count)` pairs met when
    /// following `next` links, outermost first.
    pub closed spec fn chain(&self) -> Seq<(nat, nat)>
        decreases self,
    {
        match self.next {
            Option::None => seq![(self.rows as nat, self.columns as nat)],
            Option::Some(rest) => seq![(self.rows as nat, self.columns as nat)] + rest.chain(),
        }
    }

    /// The back-reference, as an abstract value.
    pub closed spec fn back(&self) -> Option<Dimensions> {
        match self.prev {
            Option::None => Option::None,
            Option::Some(b) => Option::Some(*b),
        }
    }

    /// Constructs a single, unlinked node.
    pub fn new(columns: usize, rows: usize) -> (d: Dimensions)
        ensures
            d.chain() == seq![(rows as nat, columns as nat)],
            d.back() is None,
    {
        Dimensions { columns, rows, next: None, prev: None }
    }

    /// Replaces the column count of this node, leaving the rest of the
    /// chain untouched.
    pub fn with_columns(self, columns: usize) -> (d: Dimensions)
        ensures
            d.chain() == self.chain().update(0, (self.chain()[0].0, columns as nat)),
            d.back() == self.back(),
    {
        let d = Dimensions { columns, rows: self.rows, next: self.next, prev: self.prev };
        proof {
            assert(d.chain() =~= self.chain().update(0, (self.chain()[0].0, columns as nat)));
        }
        d
    }

    /// Replaces the row count of this node, leaving the rest of the
    /// chain untouched.
    pub fn with_rows(self, rows: usize) -> (d: Dimensions)
        ensures
            d.chain() == self.chain().update(0, (rows as nat, self.chain()[0].1)),
            d.back() == self.back(),
    {
        let d = Dimensions { columns: self.columns, rows, next: self.next, prev: self.prev };
        proof {
            assert(d.chain() =~= self.chain().update(0, (rows as nat, self.chain()[0].1)));
        }
        d
    }

    /// Links `next` as the remainder of the chain after this node,
    /// replacing whatever followed before.
    pub fn with_next(self, next: Box<Dimensions>) -> (d: Dimensions)
        ensures
            d.chain() == seq![self.chain()[0]] + next.chain(),
            d.back() == self.back(),
    {
        let d = Dimensions {
            columns: self.columns,
            rows: self.rows,
            next: Some(next),
            prev: self.prev,
        };
        proof {
            assert(d.chain() =~= seq![self.chain()[0]] + d.next->Some_0.chain());
        }
        d
    }

    /// Records `prev` as the back-reference of this node; the chain
    /// itself is unchanged.
    pub fn with_prev(self, prev: Box<Dimensions>) -> (d: Dimensions)
        ensures
            d.chain() == self.chain(),
            d.back() == Option::Some(*prev),
    {
        Dimensions { columns: self.columns, rows: self.rows, next: self.next, prev: Some(prev) }
    }

    /// In-place variant of [`Self::with_columns`].
    pub fn set_columns(&mut self, columns: usize)
        ensures
            final(self).chain() == old(self).chain().update(
                0,
                (old(self).chain()[0].0, columns as nat),
            ),
            final(self).back() == old(self).back(),
    {
        self.columns = columns;
        proof {
            assert(self.chain() =~= old(self).chain().update(
                0,
                (old(self).chain()[0].0, columns as nat),
            ));
        }
    }

    /// In-place variant of [`Self::with_rows`].
    pub fn set_rows(&mut self, rows: usize)
        ensures
            final(self).chain() == old(self).chain().update(
                0,
                (rows as nat, old(self).chain()[0].1),
            ),
            final(self).back() == old(self).back(),
    {
        self.rows = rows;
        proof {
            assert(self.chain() =~= old(self).chain().update(
                0,
                (rows as nat, old(self).chain()[0].1),
            ));
        }
    }

    /// Replaces (or removes) the remainder of the chain after this node.
    pub fn set_next(&mut self, next: Option<Box<Dimensions>>)
        ensures
            final(self).chain() == (match next {
                Option::None => seq![old(self).chain()[0]],
                Option::Some(rest) => seq![old(self).chain()[0]] + rest.chain(),
            }),
            final(self).back() == old(self).back(),
    {
        self.next = next;
        proof {
            assert(self.chain() =~= (match next {
                Option::None => seq![old(self).chain()[0]],
                Option::Some(rest) => seq![old(self).chain()[0]] + rest.chain(),
            }));
        }
    }

    /// Replaces (or removes) the back-reference of this node.
    pub fn set_prev(&mut self, prev: Option<Box<Dimensions>>)
        ensures
            final(self).chain() == old(self).chain(),
            final(self).back() == (match prev {
                Option::None => Option::None::<Dimensions>,
                Option::Some(b) => Option::Some(*b),
            }),
    {
        self.prev = prev;
    }

    /// Borrows the node that follows this one, if any.
    pub fn next(&self) -> (n: Option<&Dimensions>)
        ensures
            match n {
                Option::Some(d) => self.chain().len() > 1 && d.chain() == self.chain().skip(1),
                Option::None => self.chain().len() == 1,
            },
    {
        match &self.next {
            Option::Some(b) => {
                proof {
                    assert(b.chain() =~= self.chain().skip(1));
                }
                Option::Some(&**b)
            },
            Option::None => Option::None,
        }
    }

    /// Borrows the node recorded as this node's back-reference, if any.
    pub fn prev(&self) -> (p: Option<&Dimensions>)
        ensures
            match p {
                Option::Some(d) => self.back() == Option::Some(*d),
                Option::None => self.back() is None,
            },
    {
        match &self.prev {
            Option::Some(b) => Option::Some(&**b),
            Option::None => Option::None,
        }
    }
}

impl Clone for Dimensions {
    /// A clone carries exactly the same chain, back-reference and
    /// node contents as the original.
    fn clone(&self) -> (d: Self)
        ensures
            d == *self,
        decreases *self,
    {
        Dimensions {
            columns: self.columns,
            rows: self.rows,
            next: match &self.next {
                Option::Some(node) => Option::Some(Box::new((&**node).clone())),
                Option::None => Option::None,
            },
            prev: match &self.prev {
                Option::Some(node) => Option::Some(Box::new((&**node).clone())),
                Option::None => Option::None,
            },
        }
    }
}

impl View for Dimensions {
    type V = Seq<(nat, nat)>;

    open spec fn view(&self) -> Seq<(nat, nat)> {
        self.chain()
    }
}

/// The product of the row counts of the first `i` nodes of `s`.
pub open spec fn rows_product_to(s: Seq<(nat, nat)>, i: int) -> nat
    decreases i,
{
    if i <= 0 {
        1
    } else {
        rows_product_to(s, i - 1) * s[i - 1].0
    }
}

/// The product of the row counts of every node of `s`.
pub open spec fn rows_product(s: Seq<(nat, nat)>) -> nat {
    rows_product_to(s, s.len() as int)
}

/// The product of the row counts of every node but the terminal one;
/// 1 for a single-node chain.
pub open spec fn inner_group_product(s: Seq<(nat, nat)>) -> nat {
    rows_product_to(s, s.len() - 1)
}

/// The column count of the terminal node; 0 for an empty sequence.
pub open spec fn last_columns(s: Seq<(nat, nat)>) -> nat {
    if s.len() == 0 {
        0
    } else {
        s.last().1
    }
}

/// The row count of the terminal node, provided that node carries a
/// nonzero column count; 0 otherwise.
pub open spec fn innermost_rows(s: Seq<(nat, nat)>) -> nat {
    if s.len() > 0 && s.last().1 != 0 {
        s.last().0
    } else {
        0
    }
}

/// The number of elements a chain describes: the product of all row
/// counts times the terminal column count.
pub open spec fn total_count(s: Seq<(nat, nat)>) -> nat {
    rows_product(s) * last_columns(s)
}

/// Every partial product of the first `k` row counts stays within
/// `usize` — the machine-level condition under which the traversals
/// below can run their multiplications.
pub open spec fn products_fit_to(s: Seq<(nat, nat)>, k: int) -> bool {
    forall|i: int| 0 <= i <= k ==> #[trigger] rows_product_to(s, i) <= usize::MAX
}

/// What a single node must satisfy for the chain to be valid, depending
/// on whether it is the terminal node.
pub open spec fn valid_node(node: (nat, nat), is_terminal: bool) -> bool {
    node.0 != 0 && (if is_terminal {
        node.1 != 0
    } else {
        node.1 == 0
    })
}

/// Chain-wide validity: every node has a nonzero row count, only the
/// terminal node carries columns, and it carries at least one.
pub open spec fn valid_chain(s: Seq<(nat, nat)>) -> bool {
    forall|i: int| 0 <= i < s.len() ==> valid_node(#[trigger] s[i], i == s.len() - 1)
}

impl Dimensions {
    /// Returns the column count of the terminal node of the chain.
    #[verifier::loop_isolation(false)]
    pub fn columns(&self) -> (c: usize)
        ensures
            c as nat == last_columns(self.chain()),
    {
        let ghost s = self.chain();
        let ghost mut k: int = 0;
        let mut cur: &Dimensions = self;
        proof {
            assert(s.skip(0) =~= s);
        }
        loop
            invariant
                0 <= k < s.len(),
                cur.chain() == s.skip(k),
            decreases s.len() - k,
        {
            match &cur.next {
                Option::Some(b) => {
                    proof {
                        lemma_chain_nonempty(b);
                        assert(b.chain() =~= cur.chain().skip(1));
                        assert(cur.chain().skip(1) =~= s.skip(k + 1));
                        k = k + 1;
                    }
                    cur = b;
                },
                Option::None => {
                    proof {
                        assert(cur.chain().len() == 1);
                        assert(k == s.len() - 1);
                        assert(cur.chain()[0] == s[k]);
                    }
                    return cur.columns;
                },
            }
        }
    }

    /// Returns the total number of elements the chain describes: the
    /// product of the row counts of every node, times the terminal
    /// node's column count.  A zero row count anywhere, or a zero
    /// terminal column count, collapses the result to 0.
    #[verifier::loop_isolation(false)]
    pub fn get_n(&self) -> (n: usize)
        requires
            products_fit_to(self.chain(), self.chain().len() as int),
            total_count(self.chain()) <= usize::MAX,
        ensures
            n as nat == total_count(self.chain()),
    {
        let ghost s = self.chain();
        let ghost mut k: int = 0;
        let mut n: usize = 1;
        let mut cur: &Dimensions = self;
        proof {
            assert(s.skip(0) =~= s);
        }
        loop
            invariant
                0 <= k < s.len(),
                cur.chain() == s.skip(k),
                n as nat == rows_product_to(s, k),
                products_fit_to(s, s.len() as int),
                total_count(s) <= usize::MAX,
            decreases s.len() - k,
        {
            proof {
                assert(cur.chain()[0] == s[k]);
                assert(rows_product_to(s, k + 1) == rows_product_to(s, k) * s[k].0);
                assert(rows_product_to(s, k + 1) <= usize::MAX);
            }
            n = n * cur.rows;
            match &cur.next {
                Option::Some(b) => {
                    proof {
                        lemma_chain_nonempty(b);
                        assert(b.chain() =~= cur.chain().skip(1));
                        assert(cur.chain().skip(1) =~= s.skip(k + 1));
                        k = k + 1;
                    }
                    cur = b;
                },
                Option::None => {
                    proof {
                        assert(cur.chain().len() == 1);
                        assert(k == s.len() - 1);
                        assert(n as nat == rows_product(s));
                        assert(cur.chain()[0] == s[k]);
                        assert(s[k].1 == last_columns(s));
                    }
                    return n * cur.columns;
                },
            }
        }
    }

    /// Returns the product of the row counts of every non-terminal
    /// node — the number of groups of innermost arrays; 1 for a
    /// single-node chain.
    #[verifier::loop_isolation(false)]
    pub fn get_number_of_inner_arrays(&self) -> (n: usize)
        requires
            products_fit_to(self.chain(), self.chain().len() - 1),
        ensures
            n as nat == inner_group_product(self.chain()),
    {
        let ghost s = self.chain();
        let ghost mut k: int = 0;
        let mut n: usize = 1;
        let mut cur: &Dimensions = self;
        proof {
            assert(s.skip(0) =~= s);
        }
        loop
            invariant
                0 <= k < s.len(),
                cur.chain() == s.skip(k),
                n as nat == rows_product_to(s, k),
                products_fit_to(s, s.len() - 1),
            decreases s.len() - k,
        {
            match &cur.next {
                Option::Some(b) => {
                    proof {
                        lemma_chain_nonempty(b);
                        assert(cur.chain()[0] == s[k]);
                        assert(cur.chain().len() > 1);
                        assert(rows_product_to(s, k + 1) == rows_product_to(s, k) * s[k].0);
                        assert(rows_product_to(s, k + 1) <= usize::MAX);
                    }
                    n = n * cur.rows;
                    proof {
                        assert(b.chain() =~= cur.chain().skip(1));
                        assert(cur.chain().skip(1) =~= s.skip(k + 1));
                        k = k + 1;
                    }
                    cur = b;
                },
                Option::None => {
                    proof {
                        assert(cur.chain().len() == 1);
                        assert(k == s.len() - 1);
                    }
                    return n;
                },
            }
        }
    }

    /// Returns the row count of the terminal node, provided that node
    /// carries a nonzero column count; 0 otherwise.
    #[verifier::loop_isolation(false)]
    pub fn get_number_of_innermost_arrays(&self) -> (n: usize)
        ensures
            n as nat == innermost_rows(self.chain()),
    {
        let ghost s = self.chain();
        let ghost mut k: int = 0;
        let mut cur: &Dimensions = self;
        proof {
            assert(s.skip(0) =~= s);
        }
        loop
            invariant
                0 <= k < s.len(),
                cur.chain() == s.skip(k),
            decreases s.len() - k,
        {
            match &cur.next {
                Option::Some(b) => {
                    proof {
                        lemma_chain_nonempty(b);
                        assert(b.chain() =~= cur.chain().skip(1));
                        assert(cur.chain().skip(1) =~= s.skip(k + 1));
                        k = k + 1;
                    }
                    cur = b;
                },
                Option::None => {
                    proof {
                        assert(cur.chain().len() == 1);
                        assert(k == s.len() - 1);
                        assert(cur.chain()[0] == s[k]);
                    }
                    if cur.columns != 0 {
                        return cur.rows;
                    } else {
                        return 0;
                    }
                },
            }
        }
    }

    /// Returns the total number of leaf-level rows: the inner-group
    /// product times the innermost row count.
    pub fn rows(&self) -> (n: usize)
        requires
            products_fit_to(self.chain(), self.chain().len() - 1),
            inner_group_product(self.chain()) * innermost_rows(self.chain()) <= usize::MAX,
        ensures
            n as nat == inner_group_product(self.chain()) * innermost_rows(self.chain()),
    {
        let groups = self.get_number_of_inner_arrays();
        let innermost = self.get_number_of_innermost_arrays();
        groups * innermost
    }

    /// Checks the chain against the validity rules: no node may have a
    /// zero row count, non-terminal nodes must carry no columns, and
    /// the terminal node must carry at least one column.
    #[verifier::loop_isolation(false)]
    pub fn is_valid(&self) -> (ok: bool)
        ensures
            ok == valid_chain(self.chain()),
    {
        let ghost s = self.chain();
        let ghost mut k: int = 0;
        let mut cur: &Dimensions = self;
        proof {
            assert(s.skip(0) =~= s);
        }
        loop
            invariant
                0 <= k < s.len(),
                cur.chain() == s.skip(k),
                forall|i: int| 0 <= i < k ==> valid_node(#[trigger] s[i], false),
            decreases s.len() - k,
        {
            proof {
                assert(cur.chain()[0] == s[k]);
            }
            if cur.rows == 0 {
                proof {
                    assert(!valid_node(s[k], k == s.len() - 1));
                }
                return false;
            }
            match &cur.next {
                Option::Some(b) => {
                    proof {
                        lemma_chain_nonempty(b);
                        assert(cur.chain().len() > 1);
                    }
                    if cur.columns != 0 {
                        proof {
                            assert(!valid_node(s[k], k == s.len() - 1));
                        }
                        return false;
                    }
                    proof {
                        assert(b.chain() =~= cur.chain().skip(1));
                        assert(cur.chain().skip(1) =~= s.skip(k + 1));
                        k = k + 1;
                    }
                    cur = b;
                },
                Option::None => {
                    proof {
                        assert(cur.chain().len() == 1);
                        assert(k == s.len() - 1);
                    }
                    if cur.columns == 0 {
                        proof {
                            assert(!valid_node(s[k], k == s.len() - 1));
                        }
                        return false;
                    }
                    proof {
                        assert forall|i: int| 0 <= i < s.len() implies valid_node(
                            #[trigger] s[i],
                            i == s.len() - 1,
                        ) by {
                            if i < k {
                                assert(valid_node(s[i], false));
                            }
                        }
                    }
                    return true;
                },
            }
        }
    }
}

proof fn lemma_chain_nonempty(d: &Dimensions)
    ensures
        d.chain().len() >= 1,
    decreases d,
{
    match d.next {
        Option::None => {},
        Option::Some(rest) => {
            lemma_chain_nonempty(&rest);
        },
    }
}

/// A single node with row count `rows` and column count `columns`
/// describes `rows * columns` elements; its terminal column count is
/// `columns`, its inner-group product is 1, and — when `columns` is
/// nonzero — its innermost row count is `rows` itself.
pub proof fn lemma_single_node_counts(rows: nat, columns: nat)
    ensures
        total_count(seq![(rows, columns)]) == rows * columns,
        last_columns(seq![(rows, columns)]) == columns,
        inner_group_product(seq![(rows, columns)]) == 1,
        columns != 0 ==> innermost_rows(seq![(rows, columns)]) == rows,
{
    let s = seq![(rows, columns)];
    assert(s[0] == (rows, columns));
    assert(rows_product_to(s, 0) == 1);
    assert(rows_product_to(s, 1) == rows_product_to(s, 0) * s[0].0);
    assert(rows_product(s) == rows);
}

/// For any nonempty chain the total element count factors as the
/// product of the outer row counts, times the terminal row count,
/// times the terminal column count; when the terminal column count is
/// nonzero, the innermost row count is the terminal row count.
pub proof fn lemma_chain_counts(s: Seq<(nat, nat)>)
    requires
        s.len() >= 1,
    ensures
        total_count(s) == inner_group_product(s) * s.last().0 * s.last().1,
        s.last().1 != 0 ==> innermost_rows(s) == s.last().0,
{
    assert(rows_product_to(s, s.len() as int) == rows_product_to(s, s.len() - 1) * s[s.len()
        - 1].0);
}

/// Prepending an outer nesting level of `head.0` groups to a nonempty
/// chain multiplies the total element count and the inner-group
/// product by `head.0`, and leaves the terminal quantities unchanged.
pub proof fn lemma_prepend_level(head: (nat, nat), s: Seq<(nat, nat)>)
    requires
        s.len() >= 1,
    ensures
        total_count(seq![head] + s) == head.0 * total_count(s),
        inner_group_product(seq![head] + s) == head.0 * inner_group_product(s),
        last_columns(seq![head] + s) == last_columns(s),
        innermost_rows(seq![head] + s) == innermost_rows(s),
{
    let t = seq![head] + s;
    lemma_rows_product_to_prepend(head, s, s.len() as int);
    lemma_rows_product_to_prepend(head, s, s.len() - 1);
    assert(t.last() == s.last());
    assert((head.0 * rows_product(s)) * last_columns(s) == head.0 * (rows_product(s)
        * last_columns(s))) by (nonlinear_arith);
}

proof fn lemma_rows_product_to_prepend(head: (nat, nat), s: Seq<(nat, nat)>, i: int)
    requires
        0 <= i <= s.len(),
    ensures
        rows_product_to(seq![head] + s, i + 1) == head.0 * rows_product_to(s, i),
    decreases i,
{
    let t = seq![head] + s;
    if i == 0 {
        assert(rows_product_to(t, 0) == 1);
        assert(rows_product_to(t, 1) == rows_product_to(t, 0) * t[0].0);
        assert(t[0] == head);
        assert(rows_product_to(s, 0) == 1);
    } else {
        lemma_rows_product_to_prepend(head, s, i - 1);
        assert(t[i] == s[i - 1]);
        assert(rows_product_to(t, i + 1) == rows_product_to(t, i) * t[i].0);
        assert(rows_product_to(s, i) == rows_product_to(s, i - 1) * s[i - 1].0);
        assert((head.0 * rows_product_to(s, i - 1)) * s[i - 1].0 == head.0 * (rows_product_to(
            s,
            i - 1,
        ) * s[i - 1].0)) by (nonlinear_arith);
        assert(rows_product_to(t, i + 1) == (head.0 * rows_product_to(s, i - 1)) * s[i - 1].0);
    }
}

/// A chain fails validation exactly when some node has a zero row
/// count, a non-terminal node carries a nonzero column count, or the
/// terminal node carries a zero column count.
pub proof fn lemma_validity_characterisation(s: Seq<(nat, nat)>)
    ensures
        !valid_chain(s) <==> exists|i: int|
            0 <= i < s.len() && ((#[trigger] s[i]).0 == 0 || (i != s.len() - 1 && s[i].1 != 0) || (
            i == s.len() - 1 && s[i].1 == 0)),
{
}

/// The character standing for the decimal digit `d`.
pub open spec fn dec_digit(d: nat) -> char {
    if d == 0 {
        '0'
    } else if d == 1 {
        '1'
    } else if d == 2 {
        '2'
    } else if d == 3 {
        '3'
    } else if d == 4 {
        '4'
    } else if d == 5 {
        '5'
    } else if d == 6 {
        '6'
    } else if d == 7 {
        '7'
    } else if d == 8 {
        '8'
    } else {
        '9'
    }
}

/// The decimal rendering of `n`, most significant digit first.
pub open spec fn dec_str(n: nat) -> Seq<char>
    decreases n,
{
    if n < 10 {
        seq![dec_digit(n)]
    } else {
        dec_str(n / 10).push(dec_digit(n % 10))
    }
}

/// What one node contributes to the rendering: a non-terminal node
/// with a nonzero row count contributes that count; the terminal node
/// with a nonzero column count contributes `rows × columns`; any other
/// node contributes nothing.
pub open spec fn node_part(node: (nat, nat), is_terminal: bool) -> Seq<Seq<char>> {
    if is_terminal {
        if node.1 > 0 {
            seq![dec_str(node.0) + " × "@ + dec_str(node.1)]
        } else {
            seq![]
        }
    } else {
        if node.0 > 0 {
            seq![dec_str(node.0)]
        } else {
            seq![]
        }
    }
}

/// The contributions of the first `k` nodes of `s`, in order.
pub open spec fn parts_to(s: Seq<(nat, nat)>, k: int) -> Seq<Seq<char>>
    decreases k,
{
    if k <= 0 {
        seq![]
    } else {
        parts_to(s, k - 1) + node_part(s[k - 1], k == s.len())
    }
}

/// The given parts joined by arrows, outermost level first.
pub open spec fn join_parts(parts: Seq<Seq<char>>) -> Seq<char>
    decreases parts.len(),
{
    if parts.len() == 0 {
        Seq::empty()
    } else if parts.len() == 1 {
        parts[0]
    } else {
        parts[0] + " → "@ + join_parts(parts.skip(1))
    }
}

/// The full rendering of a chain: the joined node contributions, or a
/// fixed sentinel when no node contributes anything.
pub open spec fn rendered(s: Seq<(nat, nat)>) -> Seq<char> {
    if parts_to(s, s.len() as int).len() == 0 {
        "Empty dimensions"@
    } else {
        join_parts(parts_to(s, s.len() as int))
    }
}

proof fn lemma_join_append_part(parts: Seq<Seq<char>>, p: Seq<char>)
    ensures
        join_parts(parts.push(p)) == if parts.len() == 0 {
            p
        } else {
            join_parts(parts) + " → "@ + p
        },
    decreases parts.len(),
{
    if parts.len() == 0 {
        assert(parts.push(p) =~= seq![p]);
        assert(join_parts(seq![p]) == seq![p][0]);
        assert(seq![p][0] == p);
    } else if parts.len() == 1 {
        assert((parts.push(p))[0] == parts[0]);
        assert(parts.push(p).skip(1) =~= seq![p]);
        assert(join_parts(parts.push(p)) == (parts.push(p))[0] + " → "@ + join_parts(
            parts.push(p).skip(1),
        ));
        assert(join_parts(seq![p]) == p);
        assert(join_parts(parts) == parts[0]);
    } else {
        lemma_join_append_part(parts.skip(1), p);
        assert((parts.push(p))[0] == parts[0]);
        assert(parts.push(p).skip(1) =~= parts.skip(1).push(p));
        assert(join_parts(parts.push(p)) == (parts.push(p))[0] + " → "@ + join_parts(
            parts.push(p).skip(1),
        ));
        assert(join_parts(parts.skip(1).push(p)) == join_parts(parts.skip(1)) + " → "@ + p);
        assert(join_parts(parts) == parts[0] + " → "@ + join_parts(parts.skip(1)));
        assert(parts[0] + " → "@ + (join_parts(parts.skip(1)) + " → "@ + p) =~= (parts[0]
            + " → "@ + join_parts(parts.skip(1))) + " → "@ + p);
    }
}

fn digit_str(d: usize) -> (s: &'static str)
    requires
        d < 10,
    ensures
        s@ == seq![dec_digit(d as nat)],
{
    if d == 0 {
        proof {
            reveal_strlit("0");
            assert("0"@ =~= seq![dec_digit(0)]);
        }
        "0"
    } else if d == 1 {
        proof {
            reveal_strlit("1");
            assert("1"@ =~= seq![dec_digit(1)]);
        }
        "1"
    } else if d == 2 {
        proof {
            reveal_strlit("2");
            assert("2"@ =~= seq![dec_digit(2)]);
        }
        "2"
    } else if d == 3 {
        proof {
            reveal_strlit("3");
            assert("3"@ =~= seq![dec_digit(3)]);
        }
        "3"
    } else if d == 4 {
        proof {
            reveal_strlit("4");
            assert("4"@ =~= seq![dec_digit(4)]);
        }
        "4"
    } else if d == 5 {
        proof {
            reveal_strlit("5");
            assert("5"@ =~= seq![dec_digit(5)]);
        }
        "5"
    } else if d == 6 {
        proof {
            reveal_strlit("6");
            assert("6"@ =~= seq![dec_digit(6)]);
        }
        "6"
    } else if d == 7 {
        proof {
            reveal_strlit("7");
            assert("7"@ =~= seq![dec_digit(7)]);
        }
        "7"
    } else if d == 8 {
        proof {
            reveal_strlit("8");
            assert("8"@ =~= seq![dec_digit(8)]);
        }
        "8"
    } else {
        proof {
            reveal_strlit("9");
            assert("9"@ =~= seq![dec_digit(9)]);
        }
        "9"
    }
}

/// Appends the decimal rendering of `n` to `out`.
fn push_decimal(out: &mut String, n: usize)
    ensures
        final(out)@ == old(out)@ + dec_str(n as nat),
    decreases n,
{
    if n < 10 {
        out.append(digit_str(n));
        proof {
            assert(out@ =~= old(out)@ + dec_str(n as nat));
        }
    } else {
        push_decimal(out, n / 10);
        out.append(digit_str(n % 10));
        proof {
            assert(out@ =~= old(out)@ + dec_str(n as nat));
        }
    }
}

impl Dimensions {
    /// Renders the chain left to right: each non-terminal node with a
    /// nonzero row count contributes its row count, the terminal node
    /// with a nonzero column count contributes `rows × columns`, and
    /// the contributions are joined by arrows.  A chain in which no
    /// node contributes renders as the sentinel text.
    #[verifier::loop_isolation(false)]
    pub fn render(&self) -> (out: String)
        ensures
            out@ == rendered(self.chain()),
    {
        let ghost s = self.chain();
        let ghost mut k: int = 0;
        let mut cur: &Dimensions = self;
        let mut out = String::new();
        let mut has_parts = false;
        proof {
            assert(s.skip(0) =~= s);
        }
        loop
            invariant
                0 <= k < s.len(),
                cur.chain() == s.skip(k),
                has_parts == (parts_to(s, k).len() > 0),
                has_parts ==> out@ == join_parts(parts_to(s, k)),
                !has_parts ==> out@ == Seq::<char>::empty(),
            decreases s.len() - k,
        {
            proof {
                assert(cur.chain()[0] == s[k]);
            }
            match &cur.next {
                Option::Some(b) => {
                    proof {
                        lemma_chain_nonempty(b);
                        assert(cur.chain().len() > 1);
                        assert(k + 1 != s.len());
                    }
                    if cur.rows > 0 {
                        let ghost parts = parts_to(s, k);
                        let ghost p = dec_str(cur.rows as nat);
                        if has_parts {
                            out.append(" → ");
                        }
                        push_decimal(&mut out, cur.rows);
                        proof {
                            lemma_join_append_part(parts, p);
                            assert(parts_to(s, k + 1) =~= parts.push(p));
                            if parts.len() == 0 {
                                assert(out@ =~= p);
                            } else {
                                assert(out@ =~= join_parts(parts) + " → "@ + p);
                            }
                        }
                        has_parts = true;
                    } else {
                        proof {
                            assert(parts_to(s, k + 1) =~= parts_to(s, k));
                        }
                    }
                    proof {
                        assert(b.chain() =~= cur.chain().skip(1));
                        assert(cur.chain().skip(1) =~= s.skip(k + 1));
                        k = k + 1;
                    }
                    cur = b;
                },
                Option::None => {
                    proof {
                        assert(cur.chain().len() == 1);
                        assert(k == s.len() - 1);
                    }
                    if cur.columns > 0 {
                        let ghost parts = parts_to(s, k);
                        let ghost p = dec_str(cur.rows as nat) + " × "@ + dec_str(
                            cur.columns as nat,
                        );
                        if has_parts {
                            out.append(" → ");
                        }
                        push_decimal(&mut out, cur.rows);
                        out.append(" × ");
                        push_decimal(&mut out, cur.columns);
                        proof {
                            lemma_join_append_part(parts, p);
                            assert(parts_to(s, k + 1) =~= parts.push(p));
                            if parts.len() == 0 {
                                assert(out@ =~= p);
                            } else {
                                assert(out@ =~= join_parts(parts) + " → "@ + p);
                            }
                        }
                        return out;
                    } else {
                        proof {
                            assert(parts_to(s, k + 1) =~= parts_to(s, k));
                        }
                        if has_parts {
                            return out;
                        }
                        return String::from_str("Empty dimensions");
                    }
                },
            }
        }
    }
}

} // verus!
