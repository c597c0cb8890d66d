//! Row-major n-dimensional arrays of recordings, and their concatenation
//! along the first axis.
use vstd::prelude::*;

use ndarray::{ArrayView, Axis, IxDyn};

verus! {

/// Number of elements of an array of shape `s`.
pub open spec fn shape_product(s: Seq<usize>) -> int
    decreases s.len(),
{
    if s.len() == 0 {
        1
    } else {
        shape_product(s.drop_last()) * s.last()
    }
}

/// An element count is never negative.
pub proof fn lemma_shape_product_nonneg(s: Seq<usize>)
    ensures
        shape_product(s) >= 0,
    decreases s.len(),
{
    if s.len() > 0 {
        lemma_shape_product_nonneg(s.drop_last());
        assert(shape_product(s.drop_last()) * s.last() >= 0) by (nonlinear_arith)
            requires shape_product(s.drop_last()) >= 0;
    }
}

/// Product of the non-zero axis lengths of `s`.
pub open spec fn nonzero_product(s: Seq<usize>) -> int
    decreases s.len(),
{
    if s.len() == 0 {
        1
    } else if s.last() == 0 {
        nonzero_product(s.drop_last())
    } else {
        nonzero_product(s.drop_last()) * s.last()
    }
}

/// The product of the non-zero lengths is at least one.
pub proof fn lemma_nonzero_product_pos(s: Seq<usize>)
    ensures
        nonzero_product(s) >= 1,
    decreases s.len(),
{
    if s.len() > 0 {
        lemma_nonzero_product_pos(s.drop_last());
        if s.last() != 0 {
            assert(nonzero_product(s.drop_last()) * s.last() >= 1) by (nonlinear_arith)
                requires
                    nonzero_product(s.drop_last()) >= 1,
                    s.last() >= 1,
            ;
        }
    }
}

/// The element count of a shape is at most the product of its non-zero
/// lengths.
pub proof fn lemma_product_bounded(s: Seq<usize>)
    ensures
        0 <= shape_product(s) <= nonzero_product(s),
    decreases s.len(),
{
    if s.len() > 0 {
        lemma_product_bounded(s.drop_last());
        lemma_nonzero_product_pos(s.drop_last());
        let p = shape_product(s.drop_last());
        let q = nonzero_product(s.drop_last());
        let x = s.last() as int;
        assert(0 <= p * x) by (nonlinear_arith)
            requires
                0 <= p,
                0 <= x,
        ;
        if x != 0 {
            assert(p * x <= q * x) by (nonlinear_arith)
                requires
                    0 <= p <= q,
                    0 <= x,
            ;
        } else {
            assert(p * x == 0) by (nonlinear_arith)
                requires
                    x == 0,
            ;
        }
    }
}

/// Taking a prefix does not raise the product of the non-zero lengths.
pub proof fn lemma_nonzero_product_take(s: Seq<usize>, i: int)
    requires
        0 <= i <= s.len(),
    ensures
        nonzero_product(s.take(i)) <= nonzero_product(s),
    decreases s.len() - i,
{
    if i < s.len() {
        lemma_nonzero_product_take(s, i + 1);
        let t = s.take(i + 1);
        assert(t.drop_last() =~= s.take(i));
        lemma_nonzero_product_pos(s.take(i));
        let q = nonzero_product(s.take(i));
        let x = t.last() as int;
        if x != 0 {
            assert(q <= q * x) by (nonlinear_arith)
                requires
                    q >= 1,
                    x >= 1,
            ;
        }
    } else {
        assert(s.take(i) =~= s);
    }
}

/// Every running product of `s`, taken from the front, fits in a `usize`.
pub open spec fn prefix_products_fit(s: Seq<usize>) -> bool {
    forall|i: int| 0 <= i <= s.len() ==> #[trigger] shape_product(s.take(i)) <= usize::MAX
}

/// A shape whose non-zero lengths multiply to at most `usize::MAX` has all
/// its running products within a `usize`.
pub proof fn lemma_products_fit(s: Seq<usize>)
    requires
        nonzero_product(s) <= usize::MAX,
    ensures
        prefix_products_fit(s),
{
    assert forall|i: int| 0 <= i <= s.len() implies #[trigger] shape_product(s.take(i)) <= usize::MAX by {
        lemma_nonzero_product_take(s, i);
        lemma_product_bounded(s.take(i));
    }
}

/// With no zero length, the element count is the product of the non-zero
/// lengths.
pub proof fn lemma_product_no_zero(s: Seq<usize>)
    requires
        forall|i: int| 0 <= i < s.len() ==> #[trigger] s[i] != 0,
    ensures
        shape_product(s) == nonzero_product(s),
    decreases s.len(),
{
    if s.len() > 0 {
        lemma_product_no_zero(s.drop_last());
        assert(s.last() == s[s.len() - 1]);
    }
}

/// A zero length makes the element count zero.
pub proof fn lemma_product_with_zero(s: Seq<usize>, i: int)
    requires
        0 <= i < s.len(),
        s[i] == 0,
    ensures
        shape_product(s) == 0,
    decreases s.len(),
{
    if i < s.len() - 1 {
        lemma_product_with_zero(s.drop_last(), i);
        assert(shape_product(s.drop_last()) * s.last() == 0) by (nonlinear_arith)
            requires
                shape_product(s.drop_last()) == 0,
        ;
    } else {
        assert(shape_product(s.drop_last()) * s.last() == 0) by (nonlinear_arith)
            requires
                s.last() == 0,
        ;
    }
}

/// Whether the product of the non-zero lengths of `shape` is at most
/// `bound`.
pub fn nonzero_product_at_most(shape: &Vec<usize>, bound: usize) -> (res: bool)
    ensures
        res == (nonzero_product(shape@) <= bound),
{
    proof {
        lemma_nonzero_product_pos(shape@);
    }
    if bound == 0 {
        return false;
    }
    let mut acc: usize = 1;
    let mut i: usize = 0;
    assert(shape@.take(0) =~= Seq::<usize>::empty());
    while i < shape.len()
        invariant
            0 <= i <= shape@.len(),
            acc == nonzero_product(shape@.take(i as int)),
            acc <= bound,
        decreases shape@.len() - i,
    {
        assert(shape@.take(i + 1).drop_last() =~= shape@.take(i as int));
        let x = shape[i];
        if x != 0 {
            match acc.checked_mul(x) {
                Some(p) => {
                    if p > bound {
                        proof {
                            lemma_nonzero_product_take(shape@, i + 1);
                        }
                        return false;
                    }
                    acc = p;
                },
                None => {
                    proof {
                        lemma_nonzero_product_take(shape@, i + 1);
                    }
                    return false;
                },
            }
        }
        i += 1;
    }
    assert(shape@.take(shape@.len() as int) =~= shape@);
    true
}

/// Whether the element count of `shape` is `n`.
pub fn product_is(shape: &Vec<usize>, n: usize) -> (res: bool)
    ensures
        res == (shape_product(shape@) == n),
{
    let mut i: usize = 0;
    while i < shape.len()
        invariant
            0 <= i <= shape@.len(),
            forall|j: int| 0 <= j < i ==> #[trigger] shape@[j] != 0,
        decreases shape@.len() - i,
    {
        if shape[i] == 0 {
            proof {
                lemma_product_with_zero(shape@, i as int);
            }
            return n == 0;
        }
        i += 1;
    }
    proof {
        lemma_product_no_zero(shape@);
    }
    if !nonzero_product_at_most(shape, n) {
        return false;
    }
    proof {
        lemma_products_fit(shape@);
    }
    shape_to_length(shape.as_slice()) == n
}

proof fn lemma_first_axis_total_prefix<T>(arrays: Seq<DynArray<T>>, i: int)
    requires
        0 <= i <= arrays.len(),
    ensures
        first_axis_total(arrays.take(i)) <= first_axis_total(arrays),
    decreases arrays.len() - i,
{
    if i < arrays.len() {
        lemma_first_axis_total_prefix(arrays, i + 1);
        assert(arrays.take(i + 1).drop_last() =~= arrays.take(i));
    } else {
        assert(arrays.take(i) =~= arrays);
    }
}

/// The products of a shape, taken from its first length on.
pub proof fn lemma_products_front(s: Seq<usize>)
    requires
        s.len() > 0,
    ensures
        shape_product(s) == s[0] * shape_product(s.drop_first()),
        nonzero_product(s) == (if s[0] == 0 { 1int } else { s[0] as int }) * nonzero_product(s.drop_first()),
    decreases s.len(),
{
    if s.len() == 1 {
        assert(s.drop_last() =~= Seq::<usize>::empty());
        assert(s.drop_first() =~= Seq::<usize>::empty());
    } else {
        let d = s.drop_last();
        lemma_products_front(d);
        assert(d.drop_first() =~= s.drop_first().drop_last());
        assert(s.drop_first().last() == s.last());
        let a = s[0] as int;
        let f = if s[0] == 0 { 1int } else { s[0] as int };
        let x = s.last() as int;
        let p = shape_product(d.drop_first());
        let q = nonzero_product(d.drop_first());
        assert((a * p) * x == a * (p * x)) by (nonlinear_arith);
        assert((f * q) * x == f * (q * x)) by (nonlinear_arith);
    }
}

/// The first-axis lengths are never negative, nor their sum.
pub proof fn lemma_first_axis_total_nonneg<T>(arrays: Seq<DynArray<T>>)
    ensures
        first_axis_total(arrays) >= 0,
    decreases arrays.len(),
{
    if arrays.len() > 0 {
        lemma_first_axis_total_nonneg(arrays.drop_last());
    }
}

/// Sums and concatenations split along a split of the list.
pub proof fn lemma_stack_split<T>(s: Seq<DynArray<T>>, t: Seq<DynArray<T>>)
    ensures
        first_axis_total(s + t) == first_axis_total(s) + first_axis_total(t),
        concat_data(s + t) == concat_data(s) + concat_data(t),
    decreases t.len(),
{
    if t.len() == 0 {
        assert(s + t =~= s);
        assert(concat_data(s) + concat_data(t) =~= concat_data(s));
    } else {
        lemma_stack_split(s, t.drop_last());
        assert((s + t).drop_last() =~= s + t.drop_last());
        assert((s + t).last() == t.last());
        assert(concat_data(s) + concat_data(t.drop_last()) + t.last().data@ =~= concat_data(s) + (concat_data(
            t.drop_last(),
        ) + t.last().data@));
    }
}

/// Arrays of one rank and one shape past the first axis hold, one after the
/// other, as many elements as the stacked shape counts.
pub proof fn lemma_stacked_len<T>(arrays: Seq<DynArray<T>>, tail: Seq<usize>)
    requires
        forall|i: int|
            0 <= i < arrays.len() ==> (#[trigger] arrays[i]).wf() && arrays[i].shape@.len() >= 1
                && arrays[i].shape@.subrange(1, arrays[i].shape@.len() as int) == tail,
    ensures
        concat_data(arrays).len() == first_axis_total(arrays) * shape_product(tail),
    decreases arrays.len(),
{
    if arrays.len() > 0 {
        let d = arrays.drop_last();
        assert forall|i: int| 0 <= i < d.len() implies (#[trigger] d[i]).wf() && d[i].shape@.len() >= 1
            && d[i].shape@.subrange(1, d[i].shape@.len() as int) == tail by {
            assert(d[i] == arrays[i]);
        }
        lemma_stacked_len(d, tail);
        let x = arrays.last();
        assert(x == arrays[arrays.len() - 1]);
        lemma_products_front(x.shape@);
        assert(x.shape@.drop_first() =~= x.shape@.subrange(1, x.shape@.len() as int));
        let f = first_axis_total(d);
        let p = shape_product(tail);
        let y = x.shape@[0] as int;
        assert(f * p + y * p == (f + y) * p) by (nonlinear_arith);
    }
}

/// Stacking a part of a list first and then the list with that part
/// replaced by the stacked array gives what stacking the whole list at once
/// gives; where the whole list can be merged, so can the part and the
/// regrouped list.
pub proof fn law_stack_regroup<T>(l: Seq<DynArray<T>>, a: Seq<DynArray<T>>, r: Seq<DynArray<T>>, m: DynArray<T>)
    requires
        arrays_mergeable(l + a + r),
        a.len() > 0,
        m.shape@ == stacked_shape(a),
        m.data@ == concat_data(a),
    ensures
        arrays_mergeable(a),
        arrays_mergeable(l + seq![m] + r),
        stacked_shape(l + seq![m] + r) == stacked_shape(l + a + r),
        concat_data(l + seq![m] + r) == concat_data(l + a + r),
{
    let x = l + a + r;
    let y = l + seq![m] + r;
    let x0 = x[0];
    let rank = x0.shape@.len();
    let tail = x0.shape@.subrange(1, rank as int);
    lemma_stack_split(l + a, r);
    lemma_stack_split(l, a);
    lemma_stack_split(l + seq![m], r);
    lemma_stack_split(l, seq![m]);
    lemma_first_axis_total_nonneg(l);
    lemma_first_axis_total_nonneg(a);
    lemma_first_axis_total_nonneg(r);
    assert(seq![m].drop_last() =~= Seq::<DynArray<T>>::empty());
    assert(seq![m].last() == m);
    assert(concat_data(Seq::<DynArray<T>>::empty()) =~= Seq::<T>::empty());
    assert(concat_data(seq![m]) =~= m.data@);
    assert forall|i: int| 0 <= i < a.len() implies (#[trigger] a[i]) == x[l.len() + i] by {}
    assert(a[0] == x[l.len() as int]);
    // `a` on its own
    assert forall|i: int| 0 <= i < a.len() implies (#[trigger] a[i]).shape@.len() == a[0].shape@.len()
        && a[i].shape@.subrange(1, a[i].shape@.len() as int) == a[0].shape@.subrange(
        1,
        a[0].shape@.len() as int,
    ) by {
        assert(x[l.len() + i].shape@.len() == rank);
    }
    assert(stackable(a));
    let fa = first_axis_total(a);
    let fx = first_axis_total(x);
    assert(fa <= fx);
    let sa = stacked_shape(a);
    let sx = stacked_shape(x);
    assert(a[0].shape@.subrange(1, a[0].shape@.len() as int) == tail);
    lemma_products_front(sa);
    lemma_products_front(sx);
    assert(sa.drop_first() =~= tail);
    assert(sx.drop_first() =~= tail);
    lemma_nonzero_product_pos(tail);
    let q = nonzero_product(tail);
    let na = if fa == 0 { 1int } else { fa };
    let nx = if fx == 0 { 1int } else { fx };
    assert(na <= nx);
    assert(na * q <= nx * q) by (nonlinear_arith)
        requires
            na <= nx,
            q >= 1,
    ;
    assert(arrays_mergeable(a));
    // the stacked array
    assert forall|i: int| 0 <= i < a.len() implies (#[trigger] a[i]).wf() && a[i].shape@.len() >= 1
        && a[i].shape@.subrange(1, a[i].shape@.len() as int) == tail by {}
    lemma_stacked_len(a, tail);
    assert(m.shape@.len() == rank);
    assert(m.shape@.subrange(1, rank as int) =~= tail);
    assert(m.wf());
    // the regrouped list
    assert forall|i: int| 0 <= i < y.len() implies (#[trigger] y[i]).wf() && y[i].shape@.len() == rank
        && y[i].shape@.subrange(1, y[i].shape@.len() as int) == tail by {
        if i < l.len() {
            assert(y[i] == x[i]);
        } else if i == l.len() {
            assert(y[i] == m);
        } else {
            assert(y[i] == x[i + a.len() - 1]);
        }
    }
    assert(y[0].shape@.len() == rank);
    assert(stackable(y));
    assert(m.shape@[0] == fa);
    assert(first_axis_total(Seq::<DynArray<T>>::empty()) == 0);
    assert(first_axis_total(seq![m]) == first_axis_total(seq![m].drop_last()) + seq![m].last().shape@[0]);
    assert(first_axis_total(seq![m]) == fa);
    assert(first_axis_total(y) == fx);
    assert(stacked_shape(y) =~= sx);
    assert(concat_data(y) =~= concat_data(x));
}

/// The arrays can be stacked along the first axis into an array that
/// ndarray can hold.
pub open spec fn arrays_mergeable<T>(arrays: Seq<DynArray<T>>) -> bool {
    &&& forall|i: int| 0 <= i < arrays.len() ==> (#[trigger] arrays[i]).wf()
    &&& stackable(arrays)
    &&& first_axis_total(arrays) <= usize::MAX
    &&& nonzero_product(stacked_shape(arrays)) <= isize::MAX
}

/// Whether the arrays can be stacked (see `arrays_mergeable`).
pub fn is_arrays_mergeable<T>(arrays: &Vec<DynArray<T>>) -> (res: bool)
    ensures
        res == arrays_mergeable(arrays@),
{
    let n = arrays.len();
    if n == 0 {
        return false;
    }
    let r0 = arrays[0].shape.len();
    if r0 < 1 {
        return false;
    }
    let mut total: usize = 0;
    let mut i: usize = 0;
    assert(arrays@.take(0) =~= Seq::<DynArray<T>>::empty());
    while i < n
        invariant
            n == arrays@.len(),
            n > 0,
            r0 == arrays@[0].shape@.len(),
            r0 >= 1,
            0 <= i <= n,
            total == first_axis_total(arrays@.take(i as int)),
            forall|j: int| 0 <= j < i ==> (#[trigger] arrays@[j]).wf(),
            forall|j: int|
                0 <= j < i ==> (#[trigger] arrays@[j]).shape@.len() == r0 && arrays@[j].shape@.subrange(
                    1,
                    r0 as int,
                ) == arrays@[0].shape@.subrange(1, r0 as int),
        decreases n - i,
    {
        let a = &arrays[i];
        assert(arrays@.take(i + 1).drop_last() =~= arrays@.take(i as int));
        if !product_is(&a.shape, a.data.len()) || !nonzero_product_at_most(&a.shape, isize::MAX as usize) {
            assert(!arrays@[i as int].wf());
            return false;
        }
        if a.shape.len() != r0 {
            assert(!stackable(arrays@));
            return false;
        }
        let mut k: usize = 1;
        while k < r0
            invariant
                1 <= k <= r0,
                n == arrays@.len(),
                n > 0,
                i < n,
                r0 == a.shape@.len(),
                r0 == arrays@[0].shape@.len(),
                *a == arrays@[i as int],
                forall|m: int| 1 <= m < k ==> #[trigger] a.shape@[m] == arrays@[0].shape@[m],
            decreases r0 - k,
        {
            if a.shape[k] != arrays[0].shape[k] {
                proof {
                    if stackable(arrays@) {
                        assert(arrays@[i as int].shape@.subrange(1, r0 as int) == arrays@[0].shape@.subrange(
                            1,
                            r0 as int,
                        ));
                        assert(arrays@[i as int].shape@.subrange(1, r0 as int)[k - 1] == a.shape@[k as int]);
                    }
                }
                assert(!stackable(arrays@));
                return false;
            }
            k += 1;
        }
        assert(a.shape@.subrange(1, r0 as int) =~= arrays@[0].shape@.subrange(1, r0 as int));
        match total.checked_add(a.shape[0]) {
            Some(t) => {
                total = t;
            },
            None => {
                proof {
                    lemma_first_axis_total_prefix(arrays@, i + 1);
                }
                return false;
            },
        }
        i += 1;
    }
    assert(arrays@.take(n as int) =~= arrays@);
    assert(stackable(arrays@));
    let mut st: Vec<usize> = Vec::new();
    st.push(total);
    let mut k: usize = 1;
    while k < r0
        invariant
            1 <= k <= r0,
            n == arrays@.len(),
            n > 0,
            r0 == arrays@[0].shape@.len(),
            st@ == seq![total] + arrays@[0].shape@.subrange(1, k as int),
        decreases r0 - k,
    {
        st.push(arrays[0].shape[k]);
        assert(arrays@[0].shape@.subrange(1, k + 1) =~= arrays@[0].shape@.subrange(1, k as int).push(
            arrays@[0].shape@[k as int],
        ));
        k += 1;
    }
    assert(st@ =~= stacked_shape(arrays@));
    nonzero_product_at_most(&st, isize::MAX as usize)
}

/// The number of elements of an array of the given shape.
pub fn shape_to_length(shape: &[usize]) -> (res: usize)
    requires
        prefix_products_fit(shape@),
    ensures
        res == shape_product(shape@),
{
    let mut acc: usize = 1;
    let mut i: usize = 0;
    assert(shape@.take(0) =~= Seq::<usize>::empty());
    while i < shape.len()
        invariant
            0 <= i <= shape@.len(),
            prefix_products_fit(shape@),
            acc == shape_product(shape@.take(i as int)),
        decreases shape@.len() - i,
    {
        assert(shape@.take(i + 1).drop_last() =~= shape@.take(i as int));
        assert(shape_product(shape@.take(i + 1)) <= usize::MAX);
        acc = acc * shape[i];
        i += 1;
    }
    assert(shape@.take(shape@.len() as int) =~= shape@);
    acc
}

/// An array in row-major order: `data[i]` is the element whose multi-index
/// is the `i`-th in lexicographic order.
#[derive(Clone, Debug, PartialEq)]
pub struct DynArray<T> {
    pub shape: Vec<usize>,
    pub data: Vec<T>,
}

impl<T> DynArray<T> {
    pub open spec fn wf(&self) -> bool {
        &&& self.data@.len() == shape_product(self.shape@)
        &&& nonzero_product(self.shape@) <= isize::MAX
    }
}

impl<T: Copy> DynArray<T> {
    /// A copy of the array.
    pub fn copy(&self) -> (res: Self)
        ensures
            res.shape@ == self.shape@,
            res.data@ == self.data@,
    {
        let mut shape: Vec<usize> = Vec::new();
        let mut i: usize = 0;
        while i < self.shape.len()
            invariant
                0 <= i <= self.shape@.len(),
                shape@ == self.shape@.subrange(0, i as int),
            decreases self.shape@.len() - i,
        {
            shape.push(self.shape[i]);
            assert(self.shape@.subrange(0, i + 1) =~= self.shape@.subrange(0, i as int).push(self.shape@[i as int]));
            i += 1;
        }
        let mut data: Vec<T> = Vec::new();
        let mut j: usize = 0;
        while j < self.data.len()
            invariant
                0 <= j <= self.data@.len(),
                data@ == self.data@.subrange(0, j as int),
            decreases self.data@.len() - j,
        {
            data.push(self.data[j]);
            assert(self.data@.subrange(0, j + 1) =~= self.data@.subrange(0, j as int).push(self.data@[j as int]));
            j += 1;
        }
        assert(shape@ =~= self.shape@);
        assert(data@ =~= self.data@);
        DynArray { shape, data }
    }
}

/// The arrays stacked along the first axis.
pub fn stack_arrays<T: Copy>(arrays: &Vec<DynArray<T>>) -> (res: DynArray<T>)
    requires
        arrays_mergeable(arrays@),
    ensures
        res.shape@ == stacked_shape(arrays@),
        res.data@ == concat_data(arrays@),
{
    match concatenate_first_axis(arrays) {
        Some(r) => r,
        None => {
            assert(false);
            DynArray { shape: Vec::new(), data: Vec::new() }
        },
    }
}

impl DynArray<u8> {
    /// A copy of the array.
    pub fn duplicate(&self) -> (res: Self)
        ensures
            res.shape@ == self.shape@,
            res.data@ == self.data@,
    {
        let shape = self.shape.clone();
        let data = self.data.clone();
        assert(shape@ =~= self.shape@);
        assert(data@ =~= self.data@);
        DynArray { shape, data }
    }
}

/// The arrays can be stacked along the first axis: there is at least one,
/// each has at least one axis, and all agree on every axis but the first.
pub open spec fn stackable<T>(arrays: Seq<DynArray<T>>) -> bool {
    &&& arrays.len() > 0
    &&& arrays[0].shape@.len() >= 1
    &&& forall|i: int|
        0 <= i < arrays.len() ==> (#[trigger] arrays[i]).shape@.len() == arrays[0].shape@.len()
            && arrays[i].shape@.subrange(1, arrays[i].shape@.len() as int) == arrays[0].shape@.subrange(
            1,
            arrays[0].shape@.len() as int,
        )
}

/// Sum of the first-axis lengths of the arrays.
pub open spec fn first_axis_total<T>(arrays: Seq<DynArray<T>>) -> int
    decreases arrays.len(),
{
    if arrays.len() == 0 {
        0
    } else {
        first_axis_total(arrays.drop_last()) + arrays.last().shape@[0]
    }
}

/// Shape of the arrays stacked along the first axis.
pub open spec fn stacked_shape<T>(arrays: Seq<DynArray<T>>) -> Seq<usize> {
    seq![first_axis_total(arrays) as usize] + arrays[0].shape@.subrange(
        1,
        arrays[0].shape@.len() as int,
    )
}

/// The elements of the arrays, one array after the other.
pub open spec fn concat_data<T>(arrays: Seq<DynArray<T>>) -> Seq<T>
    decreases arrays.len(),
{
    if arrays.len() == 0 {
        Seq::empty()
    } else {
        concat_data(arrays.drop_last()) + arrays.last().data@
    }
}

/// The two lists hold arrays with the same shapes and elements.
pub open spec fn same_views<T>(a: Seq<DynArray<T>>, b: Seq<DynArray<T>>) -> bool {
    &&& a.len() == b.len()
    &&& forall|i: int|
        0 <= i < a.len() ==> (#[trigger] a[i]).shape@ == b[i].shape@ && a[i].data@ == b[i].data@
}

/// Stacking depends only on the shapes and elements of the arrays.
pub proof fn lemma_same_views_stack<T>(a: Seq<DynArray<T>>, b: Seq<DynArray<T>>)
    requires
        same_views(a, b),
    ensures
        stackable(a) == stackable(b),
        first_axis_total(a) == first_axis_total(b),
        a.len() > 0 ==> stacked_shape(a) == stacked_shape(b),
        concat_data(a) == concat_data(b),
        forall|i: int| 0 <= i < a.len() ==> (#[trigger] a[i]).wf() == b[i].wf(),
    decreases a.len(),
{
    if a.len() > 0 {
        lemma_same_views_stack(a.drop_last(), b.drop_last());
        assert(a[0].shape@ == b[0].shape@);
        if stackable(a) {
            assert forall|i: int| 0 <= i < b.len() implies (#[trigger] b[i]).shape@.len() == b[0].shape@.len()
                && b[i].shape@.subrange(1, b[i].shape@.len() as int) == b[0].shape@.subrange(
                1, b[0].shape@.len() as int) by {
                assert(a[i].shape@ == b[i].shape@);
            }
        }
        if stackable(b) {
            assert forall|i: int| 0 <= i < a.len() implies (#[trigger] a[i]).shape@.len() == a[0].shape@.len()
                && a[i].shape@.subrange(1, a[i].shape@.len() as int) == a[0].shape@.subrange(
                1, a[0].shape@.len() as int) by {
                assert(a[i].shape@ == b[i].shape@);
            }
        }
        assert(a.last().shape@ == b.last().shape@);
        assert(a.last().data@ == b.last().data@);
    }
}

/// Calls `ndarray::concatenate(Axis(0), ..)` on views of the arrays and reads
/// the result back in logical (row-major) order, copying the elements. The
/// arrays must all have the rank of the first, at least one (on arrays of
/// different ranks ndarray can index an axis that one of them lacks). Per
/// ndarray's documentation and source it then fails when there is no array,
/// when the shapes disagree off the first axis, or when the product of the
/// result's non-zero axis lengths exceeds `isize::MAX`; otherwise the result
/// stacks the arrays along the first axis, which in row-major order puts
/// their elements one array after the other.
#[verifier::external_body]
pub(crate) fn concatenate_first_axis<T: Copy>(arrays: &Vec<DynArray<T>>) -> (res: Option<DynArray<T>>)
    requires
        forall|i: int| 0 <= i < arrays@.len() ==> (#[trigger] arrays@[i]).wf(),
        forall|i: int|
            0 <= i < arrays@.len() ==> (#[trigger] arrays@[i]).shape@.len() == arrays@[0].shape@.len()
                && arrays@[i].shape@.len() >= 1,
        stackable(arrays@) ==> first_axis_total(arrays@) <= usize::MAX,
    ensures
        res is Some <==> (stackable(arrays@) && nonzero_product(stacked_shape(arrays@)) <= isize::MAX),
        res matches Some(r) ==> (r.shape@ == stacked_shape(arrays@) && r.data@ == concat_data(arrays@)),
{
    let mut views = Vec::new();
    for a in arrays.iter() {
        views.push(ArrayView::from_shape(IxDyn(&a.shape), &a.data[..]).unwrap());
    }
    match ndarray::concatenate(Axis(0), &views) {
        Ok(r) => Some(DynArray { shape: r.shape().to_vec(), data: r.iter().copied().collect() }),
        Err(_) => None,
    }
}

} // verus!
