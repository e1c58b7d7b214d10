use vstd::prelude::*;
use crate::error::DecodeError;
use crate::layout::{record_size, record_size_of};

verus! {

/// One list of a table: its label and the items pushed so far.
struct List<L, I> {
    label: L,
    items: Vec<I>,
}

/// A fixed set of `list_cnt` labelled lists, each holding at most `list_cap` items.
///
/// Once built, a table can only be read.
pub struct Table<L, I> {
    list_cnt: u16,
    list_cap: u16,
    list_size: u32,
    lists: Vec<List<L, I>>,
}

impl<L, I> View for Table<L, I> {
    /// Each list as its label and its items, by index.
    type V = Seq<(L, Seq<I>)>;

    closed spec fn view(&self) -> Seq<(L, Seq<I>)> {
        self.lists@.map_values(|r: List<L, I>| (r.label, r.items@))
    }
}

impl<L: Copy + Default, I: Copy> Table<L, I> {
    pub closed spec fn spec_list_cnt(&self) -> u16 {
        self.list_cnt
    }

    pub closed spec fn spec_list_cap(&self) -> u16 {
        self.list_cap
    }

    pub closed spec fn spec_list_size(&self) -> u32 {
        self.list_size
    }

    /// One list per declared index, none longer than the capacity, and the record
    /// size derived from the label type, the item type and the capacity.
    pub closed spec fn wf(&self) -> bool {
        &&& self.lists.len() == self.list_cnt
        &&& forall|i: int| 0 <= i < self.lists.len() ==> #[trigger] self.lists[i].items.len() <= self.list_cap
        &&& self.list_size == record_size_of::<L, I>(self.list_cap as int)
    }

    /// Model facts that follow from well-formedness.
    pub proof fn lemma_wf_view(&self)
        requires
            self.wf(),
        ensures
            self@.len() == self.spec_list_cnt(),
            forall|i: int| 0 <= i < self@.len() ==> #[trigger] self@[i].1.len() <= self.spec_list_cap(),
            self.spec_list_size() == record_size_of::<L, I>(self.spec_list_cap() as int),
    {
        assert forall|i: int| 0 <= i < self@.len() implies #[trigger] self@[i].1.len() <= self.spec_list_cap() by {
            assert(self.lists[i].items.len() <= self.list_cap);
        }
    }

    /// A table of `list_cnt` empty lists with the default label, each with room for
    /// `list_cap` items.
    pub fn new(list_cnt: u16, list_cap: u16) -> (t: Table<L, I>)
        requires
            record_size_of::<L, I>(list_cap as int) <= u32::MAX,
        ensures
            t.wf(),
            t.spec_list_cnt() == list_cnt,
            t.spec_list_cap() == list_cap,
            t@.len() == list_cnt,
            forall|i: int| 0 <= i < list_cnt ==> #[trigger] t@[i].1.len() == 0,
    {
        let size = match record_size::<L, I>(list_cap) {
            Some(v) => v,
            None => 0,
        };
        let mut lists: Vec<List<L, I>> = Vec::new();
        let mut k: u16 = 0;
        while k < list_cnt
            invariant
                k <= list_cnt,
                lists.len() == k,
                forall|i: int| 0 <= i < k ==> (#[trigger] lists[i]).items.len() == 0,
            decreases list_cnt - k,
        {
            lists.push(List { label: L::default(), items: Vec::with_capacity(list_cap as usize) });
            k = k + 1;
        }
        let t = Table { list_cnt, list_cap, list_size: size as u32, lists };
        assert forall|i: int| 0 <= i < list_cnt implies #[trigger] t@[i].1.len() == 0 by {
            assert(t.lists[i].items.len() == 0);
        }
        t
    }

    pub fn list_cnt(&self) -> (r: u16)
        ensures
            r == self.spec_list_cnt(),
    {
        self.list_cnt
    }

    pub fn list_cap(&self) -> (r: u16)
        ensures
            r == self.spec_list_cap(),
    {
        self.list_cap
    }

    /// Byte size that one list's record takes: room for the label, the length and
    /// `list_cap` items, at the alignment that all three need.
    pub fn list_size(&self) -> (r: u32)
        ensures
            r == self.spec_list_size(),
    {
        self.list_size
    }

    /// Label of the list at `idx`; `None` for an index past the declared count.
    pub fn label(&self, idx: u16) -> (r: Option<&L>)
        requires
            self.wf(),
        ensures
            r is Some <==> idx < self.spec_list_cnt(),
            r matches Some(l) ==> *l == self@[idx as int].0,
    {
        if idx >= self.list_cnt {
            return None;
        }
        Some(&self.lists[idx as usize].label)
    }

    /// Items of the list at `idx`, exactly as many as were pushed; `None` for an
    /// index past the declared count.
    pub fn items(&self, idx: u16) -> (r: Option<&[I]>)
        requires
            self.wf(),
        ensures
            r is Some <==> idx < self.spec_list_cnt(),
            r matches Some(s) ==> s@ == self@[idx as int].1,
    {
        if idx >= self.list_cnt {
            return None;
        }
        Some(self.lists[idx as usize].items.as_slice())
    }

    /// Label and items of the list at `idx`; `None` for an index past the declared count.
    pub fn pair(&self, idx: u16) -> (r: Option<(&L, &[I])>)
        requires
            self.wf(),
        ensures
            r is Some <==> idx < self.spec_list_cnt(),
            r matches Some(p) ==> *p.0 == self@[idx as int].0 && p.1@ == self@[idx as int].1,
    {
        if idx >= self.list_cnt {
            return None;
        }
        let list = &self.lists[idx as usize];
        Some((&list.label, list.items.as_slice()))
    }
}

/// A push onto a list holding `items` with capacity `cap`: whether it is taken, and
/// the items after it.
pub open spec fn push_outcome<I>(items: Seq<I>, cap: u16, item: I) -> (bool, Seq<I>) {
    if items.len() < cap {
        (true, items.push(item))
    } else {
        (false, items)
    }
}

/// Pushes `xs` one by one onto a list holding `items`: the outcome of each push, and
/// the items after all of them.
pub open spec fn push_all<I>(items: Seq<I>, cap: u16, xs: Seq<I>) -> (Seq<bool>, Seq<I>)
    decreases xs.len(),
{
    if xs.len() == 0 {
        (Seq::empty(), items)
    } else {
        let prev = push_all(items, cap, xs.drop_last());
        let step = push_outcome(prev.1, cap, xs.last());
        (prev.0.push(step.0), step.1)
    }
}

/// Onto an empty list, `cap` pushes are all taken and keep their order; the push after
/// them is refused and leaves the list at `cap` items.
pub proof fn lemma_capacity_enforced<I>(cap: u16, xs: Seq<I>, extra: I)
    requires
        xs.len() == cap,
    ensures
        forall|k: int| 0 <= k < cap ==> #[trigger] push_all(Seq::<I>::empty(), cap, xs).0[k],
        push_all(Seq::<I>::empty(), cap, xs).0.len() == cap,
        push_all(Seq::<I>::empty(), cap, xs).1 == xs,
        push_outcome(xs, cap, extra) == (false, xs),
{
    lemma_push_all_fits(cap, xs, xs.len());
    assert(xs.subrange(0, xs.len() as int) =~= xs);
}

proof fn lemma_push_all_fits<I>(cap: u16, xs: Seq<I>, n: nat)
    requires
        n <= xs.len() <= cap,
    ensures
        push_all(Seq::<I>::empty(), cap, xs.subrange(0, n as int)).0.len() == n,
        forall|k: int| 0 <= k < n ==> #[trigger] push_all(Seq::<I>::empty(), cap, xs.subrange(0, n as int)).0[k],
        push_all(Seq::<I>::empty(), cap, xs.subrange(0, n as int)).1 == xs.subrange(0, n as int),
    decreases n,
{
    let pre = xs.subrange(0, n as int);
    if n > 0 {
        lemma_push_all_fits(cap, xs, (n - 1) as nat);
        assert(pre.drop_last() =~= xs.subrange(0, n - 1));
        assert(xs.subrange(0, n - 1).push(pre.last()) =~= pre);
    } else {
        assert(pre =~= Seq::<I>::empty());
    }
}

/// Every index below the count has a list to read, and no index at or past it has one.
pub proof fn lemma_index_bounds<L: Copy + Default, I: Copy>(t: &Table<L, I>, idx: u16)
    requires
        t.wf(),
    ensures
        idx < t.spec_list_cnt() <==> 0 <= idx < t@.len(),
{
    t.lemma_wf_view();
}

/// Write access to a table while it is being built; `finish` hands out the table,
/// after which it can only be read.
pub struct TableBuilder<L, I> {
    table: Table<L, I>,
    opened: u16,
}

impl<L: Copy + Default, I: Copy> TableBuilder<L, I> {
    /// The table being built.
    pub closed spec fn spec_table(&self) -> Table<L, I> {
        self.table
    }

    /// How many lists `open_list` has handed out so far.
    pub closed spec fn spec_opened(&self) -> u16 {
        self.opened
    }

    pub closed spec fn wf(&self) -> bool {
        &&& self.table.wf()
        &&& self.opened <= self.table.list_cnt
    }

    pub proof fn lemma_wf(&self)
        requires
            self.wf(),
        ensures
            self.spec_table().wf(),
            self.spec_opened() <= self.spec_table().spec_list_cnt(),
    {
    }

    /// A builder over a new table of `list_cnt` empty lists of capacity `list_cap`.
    pub fn new(list_cnt: u16, list_cap: u16) -> (b: TableBuilder<L, I>)
        requires
            record_size_of::<L, I>(list_cap as int) <= u32::MAX,
        ensures
            b.wf(),
            b.spec_opened() == 0,
            b.spec_table().spec_list_cnt() == list_cnt,
            b.spec_table().spec_list_cap() == list_cap,
            b.spec_table()@.len() == list_cnt,
            forall|i: int| 0 <= i < list_cnt ==> #[trigger] b.spec_table()@[i].1.len() == 0,
    {
        TableBuilder { table: Table::new(list_cnt, list_cap), opened: 0 }
    }

    pub fn list_cnt(&self) -> (r: u16)
        ensures
            r == self.spec_table().spec_list_cnt(),
    {
        self.table.list_cnt
    }

    pub fn list_cap(&self) -> (r: u16)
        ensures
            r == self.spec_table().spec_list_cap(),
    {
        self.table.list_cap
    }

    /// Number of items in the list at `idx`; `None` past the declared count.
    pub fn list_len(&self, idx: u16) -> (r: Option<u16>)
        requires
            self.wf(),
        ensures
            r is Some <==> idx < self.spec_table().spec_list_cnt(),
            r matches Some(n) ==> n == self.spec_table()@[idx as int].1.len(),
    {
        if idx >= self.table.list_cnt {
            return None;
        }
        let n = self.table.lists[idx as usize].items.len();
        assert(self.table.lists[idx as int].items.len() <= self.table.list_cap);
        Some(n as u16)
    }

    /// Overwrites the label of the list at `idx`; `false`, and no change, past the
    /// declared count.
    pub fn set_label(&mut self, idx: u16, label: L) -> (r: bool)
        requires
            old(self).wf(),
        ensures
            final(self).wf(),
            r == (idx < old(self).spec_table().spec_list_cnt()),
            final(self).spec_opened() == old(self).spec_opened(),
            final(self).spec_table().spec_list_cnt() == old(self).spec_table().spec_list_cnt(),
            final(self).spec_table().spec_list_cap() == old(self).spec_table().spec_list_cap(),
            r ==> final(self).spec_table()@ == old(self).spec_table()@.update(
                idx as int,
                (label, old(self).spec_table()@[idx as int].1),
            ),
            !r ==> final(self).spec_table()@ == old(self).spec_table()@,
    {
        if idx >= self.table.list_cnt {
            return false;
        }
        self.table.lists[idx as usize].label = label;
        assert(self.table@ =~= old(self).table@.update(
            idx as int,
            (label, old(self).table@[idx as int].1),
        ));
        assert forall|i: int| 0 <= i < self.table.lists.len() implies #[trigger] self.table.lists[i].items.len() <= self.table.list_cap by {
            assert(old(self).table.lists[i].items.len() <= self.table.list_cap);
        }
        true
    }

    /// Appends `item` to the list at `idx` if that list is below the capacity, and
    /// says whether it did; a failed push changes nothing.
    pub fn push_item(&mut self, idx: u16, item: I) -> (r: bool)
        requires
            old(self).wf(),
        ensures
            final(self).wf(),
            r == (idx < old(self).spec_table().spec_list_cnt()
                && old(self).spec_table()@[idx as int].1.len() < old(self).spec_table().spec_list_cap()),
            idx < old(self).spec_table().spec_list_cnt() ==> (r, final(self).spec_table()@[idx as int].1)
                == push_outcome(old(self).spec_table()@[idx as int].1, old(self).spec_table().spec_list_cap(), item),
            final(self).spec_opened() == old(self).spec_opened(),
            final(self).spec_table().spec_list_cnt() == old(self).spec_table().spec_list_cnt(),
            final(self).spec_table().spec_list_cap() == old(self).spec_table().spec_list_cap(),
            r ==> final(self).spec_table()@ == old(self).spec_table()@.update(
                idx as int,
                (old(self).spec_table()@[idx as int].0, old(self).spec_table()@[idx as int].1.push(item)),
            ),
            !r ==> final(self).spec_table()@ == old(self).spec_table()@,
    {
        if idx >= self.table.list_cnt {
            return false;
        }
        if self.table.lists[idx as usize].items.len() >= self.table.list_cap as usize {
            return false;
        }
        self.table.lists[idx as usize].items.push(item);
        assert(self.table@ =~= old(self).table@.update(
            idx as int,
            (old(self).table@[idx as int].0, old(self).table@[idx as int].1.push(item)),
        ));
        assert forall|i: int| 0 <= i < self.table.lists.len() implies #[trigger] self.table.lists[i].items.len() <= self.table.list_cap by {
            assert(old(self).table.lists[i].items.len() <= self.table.list_cap);
        }
        true
    }

    /// Takes the next list in order and gives it `label`; `CountOverflow` once all
    /// declared lists have been taken.
    pub fn open_list(&mut self, label: L) -> (r: Result<u16, DecodeError>)
        requires
            old(self).wf(),
        ensures
            final(self).wf(),
            final(self).spec_table().spec_list_cnt() == old(self).spec_table().spec_list_cnt(),
            final(self).spec_table().spec_list_cap() == old(self).spec_table().spec_list_cap(),
            old(self).spec_opened() < old(self).spec_table().spec_list_cnt() ==> {
                &&& r == Ok::<u16, DecodeError>(old(self).spec_opened())
                &&& final(self).spec_opened() == old(self).spec_opened() + 1
                &&& final(self).spec_table()@ == old(self).spec_table()@.update(
                    old(self).spec_opened() as int,
                    (label, old(self).spec_table()@[old(self).spec_opened() as int].1),
                )
            },
            old(self).spec_opened() >= old(self).spec_table().spec_list_cnt() ==> {
                &&& r == Err::<u16, DecodeError>(DecodeError::CountOverflow)
                &&& *final(self) == *old(self)
            },
    {
        if self.opened >= self.table.list_cnt {
            return Err(DecodeError::CountOverflow);
        }
        let idx = self.opened;
        self.set_label(idx, label);
        self.opened = idx + 1;
        Ok(idx)
    }

    /// Appends `item` to the list opened last; `CapacityOverflow` with that list's
    /// index, and no change, when the list is full.
    pub fn push(&mut self, item: I) -> (r: Result<(), DecodeError>)
        requires
            old(self).wf(),
            old(self).spec_opened() > 0,
        ensures
            final(self).wf(),
            final(self).spec_opened() == old(self).spec_opened(),
            final(self).spec_table().spec_list_cnt() == old(self).spec_table().spec_list_cnt(),
            final(self).spec_table().spec_list_cap() == old(self).spec_table().spec_list_cap(),
            ({
                let idx = old(self).spec_opened() - 1;
                let list = old(self).spec_table()@[idx];
                if list.1.len() < old(self).spec_table().spec_list_cap() {
                    &&& r is Ok
                    &&& final(self).spec_table()@ == old(self).spec_table()@.update(idx, (list.0, list.1.push(item)))
                } else {
                    &&& r == Err::<(), DecodeError>(DecodeError::CapacityOverflow(idx as u16))
                    &&& final(self).spec_table()@ == old(self).spec_table()@
                }
            }),
    {
        let idx = self.opened - 1;
        if self.push_item(idx, item) {
            Ok(())
        } else {
            Err(DecodeError::CapacityOverflow(idx))
        }
    }

    /// Ends the build and hands out the table.
    pub fn finish(self) -> (t: Table<L, I>)
        requires
            self.wf(),
        ensures
            t == self.spec_table(),
            t.wf(),
    {
        self.table
    }
}

} // verus!
