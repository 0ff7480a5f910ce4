//! Sets of cells, each given by its absolute row and its column.

use vstd::prelude::*;

verus! {

/// A set of cells, kept in reading order.
#[derive(Debug)]
pub struct CellSet {
    pub items: Vec<(usize, usize)>,
}

/// One cell comes before another in reading order.
pub open spec fn before(a: (usize, usize), b: (usize, usize)) -> bool {
    a.0 < b.0 || (a.0 == b.0 && a.1 < b.1)
}

/// The cells stand in reading order, each once.
pub open spec fn in_order(s: Seq<(usize, usize)>) -> bool {
    forall|i: int, j: int| 0 <= i < j < s.len() ==> before(#[trigger] s[i], #[trigger] s[j])
}

impl View for CellSet {
    type V = Set<(usize, usize)>;

    open spec fn view(&self) -> Set<(usize, usize)> {
        self.items@.to_set()
    }
}

fn is_before(a: (usize, usize), b: (usize, usize)) -> (r: bool)
    ensures
        r == before(a, b),
{
    a.0 < b.0 || (a.0 == b.0 && a.1 < b.1)
}

/// Two lists in order with the same cells are the same list.
pub proof fn law_one_order(a: Seq<(usize, usize)>, b: Seq<(usize, usize)>)
    requires
        in_order(a),
        in_order(b),
        a.to_set() == b.to_set(),
    ensures
        a == b,
    decreases a.len(),
{
    assert(forall|x: (usize, usize)| a.to_set().contains(x) <==> a.contains(x));
    assert(forall|x: (usize, usize)| b.to_set().contains(x) <==> b.contains(x));
    if a.len() == 0 {
        if b.len() > 0 {
            assert(b.contains(b[0]));
            assert(a.to_set().contains(b[0]));
        }
        assert(a =~= b);
    } else {
        assert(a.contains(a.last()));
        assert(b.to_set().contains(a.last()));
        let p = choose|p: int| 0 <= p < b.len() && b[p] == a.last();
        assert(b.contains(b.last()));
        assert(a.to_set().contains(b.last()));
        let q = choose|q: int| 0 <= q < a.len() && a[q] == b.last();
        assert(a.last() == b.last()) by {
            if a.last() != b.last() {
                assert(before(a[q], a[a.len() - 1]));
                assert(before(b[p], b[b.len() - 1]));
            }
        }
        let a1 = a.drop_last();
        let b1 = b.drop_last();
        assert forall|x: (usize, usize)| #[trigger] a1.to_set().contains(x) implies b1.to_set().contains(
            x,
        ) by {
            let i = choose|i: int| 0 <= i < a1.len() && a1[i] == x;
            assert(a[i] == x);
            assert(a.contains(x));
            assert(b.to_set().contains(x));
            let j = choose|j: int| 0 <= j < b.len() && b[j] == x;
            assert(before(a[i], a[a.len() - 1]));
            assert(j < b.len() - 1);
            assert(b1[j] == x);
        }
        assert forall|x: (usize, usize)| #[trigger] b1.to_set().contains(x) implies a1.to_set().contains(
            x,
        ) by {
            let i = choose|i: int| 0 <= i < b1.len() && b1[i] == x;
            assert(b[i] == x);
            assert(b.contains(x));
            assert(a.to_set().contains(x));
            let j = choose|j: int| 0 <= j < a.len() && a[j] == x;
            assert(before(b[i], b[b.len() - 1]));
            assert(j < a.len() - 1);
            assert(a1[j] == x);
        }
        assert(a1.to_set() =~= b1.to_set());
        law_one_order(a1, b1);
        assert(a =~= a1.push(a.last()));
        assert(b =~= b1.push(b.last()));
    }
}

impl CellSet {
    pub open spec fn wf(self) -> bool {
        in_order(self.items@)
    }

    /// The set with nothing in it.
    pub fn new() -> (r: CellSet)
        ensures
            r.wf(),
            r@ == Set::<(usize, usize)>::empty(),
    {
        let s = CellSet { items: Vec::new() };
        assert(s@ =~= Set::<(usize, usize)>::empty());
        s
    }

    /// Adds a cell.
    pub fn insert(&mut self, row: usize, col: usize)
        requires
            old(self).wf(),
        ensures
            final(self).wf(),
            final(self)@ == old(self)@.insert((row, col)),
    {
        let ghost old_items = self.items@;
        let x: (usize, usize) = (row, col);
        let mut at: usize = self.items.len();
        while at > 0 && is_before(x, self.items[at - 1])
            invariant
                at <= self.items@.len(),
                self.items@ == old_items,
                in_order(old_items),
                x == (row, col),
                forall|i: int| at <= i < old_items.len() ==> before(x, #[trigger] old_items[i]),
            decreases at,
        {
            at = at - 1;
        }
        if at > 0 && self.items[at - 1].0 == row && self.items[at - 1].1 == col {
            assert(old_items.contains(x)) by {
                assert(old_items[at - 1] == x);
            }
            assert(self@ =~= old(self)@.insert(x));
            return;
        }
        self.items.insert(at, x);
        proof {
            let items = self.items@;
            assert(items == old_items.insert(at as int, x));
            assert forall|i: int, j: int| 0 <= i < j < items.len() implies before(
                #[trigger] items[i],
                #[trigger] items[j],
            ) by {
                let oi = if i < at {
                    i
                } else {
                    i - 1
                };
                let oj = if j < at {
                    j
                } else {
                    j - 1
                };
                if i != at {
                    assert(items[i] == old_items[oi]);
                }
                if j != at {
                    assert(items[j] == old_items[oj]);
                }
                if j == at && i < at - 1 {
                    assert(before(old_items[i], old_items[at - 1]));
                }
            }
            assert forall|y: (usize, usize)| self@.contains(y) <==> old(self)@.insert(x).contains(
                y,
            ) by {
                if self@.contains(y) {
                    let k = choose|k: int| 0 <= k < items.len() && items[k] == y;
                    if k < at {
                        assert(old_items[k] == y);
                    } else if k > at {
                        assert(old_items[k - 1] == y);
                    }
                }
                if old_items.contains(y) {
                    let k = choose|k: int| 0 <= k < old_items.len() && old_items[k] == y;
                    if k < at {
                        assert(items[k] == y);
                    } else {
                        assert(items[k + 1] == y);
                    }
                }
                if y == x {
                    assert(items[at as int] == y);
                }
            }
            assert(self@ =~= old(self)@.insert(x));
        }
    }

    /// The set of the cells in a list.
    pub fn of(cells: &Vec<(usize, usize)>) -> (r: CellSet)
        ensures
            r.wf(),
            r@ == cells@.to_set(),
    {
        let mut s: CellSet = CellSet::new();
        let mut i: usize = 0;
        assert(cells@.take(0).to_set() =~= Set::<(usize, usize)>::empty());
        while i < cells.len()
            invariant
                i <= cells@.len(),
                s.wf(),
                s@ == cells@.take(i as int).to_set(),
            decreases cells@.len() - i,
        {
            let c: (usize, usize) = cells[i];
            s.insert(c.0, c.1);
            proof {
                let less = cells@.take(i as int);
                let more = cells@.take(i + 1);
                assert(more =~= less.push(c));
                assert forall|y: (usize, usize)| #[trigger] more.to_set().contains(y)
                    <==> less.to_set().insert(c).contains(y) by {
                    if more.contains(y) {
                        let k = choose|k: int| 0 <= k < more.len() && more[k] == y;
                        if k < i {
                            assert(less[k] == y);
                        }
                    }
                    if less.contains(y) {
                        let k = choose|k: int| 0 <= k < less.len() && less[k] == y;
                        assert(more[k] == y);
                    }
                    if y == c {
                        assert(more[i as int] == y);
                    }
                }
                assert(more.to_set() =~= less.to_set().insert(c));
            }
            i = i + 1;
        }
        assert(cells@.take(cells@.len() as int) =~= cells@);
        s
    }

    /// The set once more.
    pub fn copy(&self) -> (r: CellSet)
        ensures
            r.items@ == self.items@,
    {
        let mut items: Vec<(usize, usize)> = Vec::new();
        let mut i: usize = 0;
        while i < self.items.len()
            invariant
                i <= self.items@.len(),
                items@ == self.items@.take(i as int),
            decreases self.items@.len() - i,
        {
            items.push(self.items[i]);
            i = i + 1;
            assert(items@ =~= self.items@.take(i as int));
        }
        assert(self.items@.take(i as int) =~= self.items@);
        CellSet { items }
    }

    /// Whether a cell is in the set.
    pub fn contains(&self, row: usize, col: usize) -> (r: bool)
        requires
            self.wf(),
        ensures
            r == self@.contains((row, col)),
    {
        let x: (usize, usize) = (row, col);
        let mut lo: usize = 0;
        let mut hi: usize = self.items.len();
        while lo < hi
            invariant
                lo <= hi <= self.items@.len(),
                self.wf(),
                x == (row, col),
                forall|i: int| 0 <= i < lo ==> before(#[trigger] self.items@[i], x),
                forall|i: int| hi <= i < self.items@.len() ==> before(x, #[trigger] self.items@[i]),
            decreases hi - lo,
        {
            let mid: usize = lo + (hi - lo) / 2;
            let m: (usize, usize) = self.items[mid];
            if is_before(m, x) {
                assert forall|i: int| 0 <= i < mid + 1 implies before(#[trigger] self.items@[i], x) by {
                    if i < mid {
                        assert(before(self.items@[i], self.items@[mid as int]));
                    }
                }
                lo = mid + 1;
            } else if is_before(x, m) {
                assert forall|i: int| mid <= i < self.items@.len() implies before(
                    x,
                    #[trigger] self.items@[i],
                ) by {
                    if i > mid {
                        assert(before(self.items@[mid as int], self.items@[i]));
                    }
                }
                hi = mid;
            } else {
                assert(self.items@[mid as int] == x);
                return true;
            }
        }
        assert(!self.items@.contains(x));
        false
    }

    /// Whether two sets hold the same cells.
    pub fn same(&self, other: &CellSet) -> (r: bool)
        requires
            self.wf(),
            other.wf(),
        ensures
            r == (self@ == other@),
    {
        proof {
            if self@ == other@ {
                law_one_order(self.items@, other.items@);
            }
        }
        if self.items.len() != other.items.len() {
            return false;
        }
        let mut i: usize = 0;
        while i < self.items.len()
            invariant
                i <= self.items@.len() == other.items@.len(),
                forall|j: int| 0 <= j < i ==> self.items@[j] == other.items@[j],
                self@ == other@ ==> self.items@ == other.items@,
            decreases self.items@.len() - i,
        {
            if self.items[i].0 != other.items[i].0 || self.items[i].1 != other.items[i].1 {
                return false;
            }
            i = i + 1;
        }
        assert(self.items@ =~= other.items@);
        true
    }
}

} // verus!
