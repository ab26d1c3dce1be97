//! The order in which a passed poll sends its messages: by their `order`
//! field, ties kept in the order they were given (a stable sort).

use vstd::prelude::*;
use crate::state::ExecuteData;

verus! {

/// An execute message as the contracts see it.
pub struct ExecuteDataView {
    pub order: u64,
    pub contract: Seq<char>,
    pub msg: Seq<u8>,
}

impl View for ExecuteData {
    type V = ExecuteDataView;

    open spec fn view(&self) -> ExecuteDataView {
        ExecuteDataView { order: self.order, contract: self.contract@, msg: self.msg@ }
    }
}

/// The views of a list of execute messages.
pub open spec fn data_views(s: Seq<ExecuteData>) -> Seq<ExecuteDataView> {
    s.map_values(|d: ExecuteData| d@)
}

/// Inserts `x` after every element whose order is not greater than its own,
/// scanning from the back.
pub open spec fn insert_by_order(s: Seq<ExecuteDataView>, x: ExecuteDataView) -> Seq<ExecuteDataView>
    decreases s.len(),
{
    if s.len() == 0 {
        seq![x]
    } else if s.last().order <= x.order {
        s.push(x)
    } else {
        insert_by_order(s.drop_last(), x).push(s.last())
    }
}

/// The stable sort of messages by order.
pub open spec fn sort_by_order(s: Seq<ExecuteDataView>) -> Seq<ExecuteDataView>
    decreases s.len(),
{
    if s.len() == 0 {
        seq![]
    } else {
        insert_by_order(sort_by_order(s.drop_last()), s.last())
    }
}

pub open spec fn sorted_by_order(s: Seq<ExecuteDataView>) -> bool {
    forall|i: int, j: int| 0 <= i < j < s.len() ==> (#[trigger] s[i]).order <= (#[trigger] s[j]).order
}

proof fn lemma_insert_by_order_props(s: Seq<ExecuteDataView>, x: ExecuteDataView)
    requires
        sorted_by_order(s),
    ensures
        sorted_by_order(insert_by_order(s, x)),
        insert_by_order(s, x).to_multiset() == s.to_multiset().insert(x),
        insert_by_order(s, x).len() == s.len() + 1,
    decreases s.len(),
{
    broadcast use vstd::multiset::group_multiset_axioms;
    broadcast use vstd::seq_lib::group_seq_properties;
    if s.len() == 0 {
        assert(seq![x].to_multiset() =~= s.to_multiset().insert(x)) by {
            vstd::seq_lib::lemma_multiset_commutative(s, seq![x]);
            assert(s + seq![x] =~= seq![x]);
        }
    } else if s.last().order <= x.order {
        vstd::seq_lib::lemma_multiset_commutative(s, seq![x]);
        assert(s + seq![x] =~= s.push(x));
    } else {
        let t = s.drop_last();
        assert(sorted_by_order(t));
        lemma_insert_by_order_props(t, x);
        let u = insert_by_order(t, x);
        assert forall|i: int, j: int| 0 <= i < j < u.push(s.last()).len() implies
            (#[trigger] u.push(s.last())[i]).order <= (#[trigger] u.push(s.last())[j]).order by {
            if j == u.len() {
                let e = u[i];
                assert(u.to_multiset().count(e) > 0);
                assert(t.to_multiset().insert(x).count(e) > 0);
                if e != x {
                    assert(t.to_multiset().count(e) > 0);
                    assert(t.contains(e));
                    let k = choose|k: int| 0 <= k < t.len() && t[k] == e;
                    assert(s[k] == e);
                }
            }
        }
        vstd::seq_lib::lemma_multiset_commutative(u, seq![s.last()]);
        vstd::seq_lib::lemma_multiset_commutative(t, seq![s.last()]);
        assert(u + seq![s.last()] =~= u.push(s.last()));
        assert(t + seq![s.last()] =~= s);
    }
}

/// `sort_by_order` sorts: its result is ordered and holds the same messages.
pub proof fn lemma_sort_by_order(s: Seq<ExecuteDataView>)
    ensures
        sorted_by_order(sort_by_order(s)),
        sort_by_order(s).to_multiset() == s.to_multiset(),
        sort_by_order(s).len() == s.len(),
    decreases s.len(),
{
    broadcast use vstd::multiset::group_multiset_axioms;
    if s.len() == 0 {
        broadcast use vstd::seq_lib::group_seq_properties;
    } else {
        lemma_sort_by_order(s.drop_last());
        lemma_insert_by_order_props(sort_by_order(s.drop_last()), s.last());
        vstd::seq_lib::lemma_multiset_commutative(s.drop_last(), seq![s.last()]);
        assert(s.drop_last() + seq![s.last()] =~= s);
        broadcast use vstd::seq_lib::group_seq_properties;
    }
}

/// `insert_by_order` places `x` at the first position, counting from the
/// back, past which every element orders after `x`.
proof fn lemma_insert_at(s: Seq<ExecuteDataView>, x: ExecuteDataView, pos: int)
    requires
        0 <= pos <= s.len(),
        pos == 0 || s[pos - 1].order <= x.order,
        forall|i: int| pos <= i < s.len() ==> (#[trigger] s[i]).order > x.order,
    ensures
        insert_by_order(s, x) == s.insert(pos, x),
    decreases s.len(),
{
    if s.len() == 0 {
        assert(s.insert(pos, x) =~= seq![x]);
    } else if s.last().order <= x.order {
        assert(pos == s.len());
        assert(s.insert(pos, x) =~= s.push(x));
    } else {
        lemma_insert_at(s.drop_last(), x, pos);
        assert(s.insert(pos, x) =~= s.drop_last().insert(pos, x).push(s.last()));
    }
}

/// A copy of an execute message.
pub fn copy_data(d: &ExecuteData) -> (r: ExecuteData)
    ensures
        r@ == d@,
{
    ExecuteData { order: d.order, contract: d.contract.clone(), msg: d.msg.clone() }
}

/// Sorts the messages by order, keeping ties in their given order.
pub fn sort_execute_data(v: &Vec<ExecuteData>) -> (r: Vec<ExecuteData>)
    ensures
        data_views(r@) == sort_by_order(data_views(v@)),
{
    let mut out: Vec<ExecuteData> = Vec::new();
    let mut i: usize = 0;
    while i < v.len()
        invariant
            i <= v@.len(),
            data_views(out@) == sort_by_order(data_views(v@.subrange(0, i as int))),
        decreases v@.len() - i,
    {
        let x = copy_data(&v[i]);
        let mut pos = out.len();
        while pos > 0 && out[pos - 1].order > x.order
            invariant
                pos <= out@.len(),
                forall|k: int| pos <= k < out@.len() ==> (#[trigger] out@[k]).order > x.order,
            decreases pos,
        {
            pos = pos - 1;
        }
        let ghost before = data_views(out@);
        proof {
            lemma_insert_at(before, x@, pos as int);
            assert(data_views(v@.subrange(0, i + 1)).drop_last() =~= data_views(v@.subrange(0, i as int)));
            assert(data_views(v@.subrange(0, i + 1)).last() == x@);
        }
        out.insert(pos, x);
        proof {
            assert(data_views(out@) =~= before.insert(pos as int, x@));
        }
        i = i + 1;
    }
    assert(v@.subrange(0, v@.len() as int) =~= v@);
    out
}

} // verus!
