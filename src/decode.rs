use vstd::prelude::*;
use crate::error::{DecodeError, FieldName};
use crate::layout::{record_size_of, lemma_record_size_monotone};
use crate::table::{Table, TableBuilder};

verus! {

/// One top-level field of an envelope, in the order the input presents it.
pub enum Field<L, I> {
    /// The declared number of lists.
    ListCnt(u16),
    /// The declared capacity of each list.
    ListCap(u16),
    /// The table payload: each list as its label and its items, in input order.
    Table(Vec<(L, Vec<I>)>),
    /// A field the decoder skips.
    Other,
}

/// What a decode has gathered after some prefix of the fields.
pub struct DecodeState<L, I> {
    pub list_cnt: u16,
    pub list_cap: u16,
    /// The declared count and capacity at the point the table came, and its lists.
    pub table: Option<(u16, u16, Seq<(L, Seq<I>)>)>,
}

pub open spec fn lists_model<L, I>(v: Seq<(L, Vec<I>)>) -> Seq<(L, Seq<I>)> {
    v.map_values(|p: (L, Vec<I>)| (p.0, p.1@))
}

/// The fault, if any, that the list at index `j` causes.
pub open spec fn list_fault<L, I>(cnt: u16, cap: u16, lists: Seq<(L, Seq<I>)>, j: int) -> Option<DecodeError> {
    if j >= cnt {
        Some(DecodeError::CountOverflow)
    } else if lists[j].1.len() > cap {
        Some(DecodeError::CapacityOverflow(j as u16))
    } else {
        None
    }
}

/// The first fault among the first `k` lists, in input order.
pub open spec fn first_fault<L, I>(cnt: u16, cap: u16, lists: Seq<(L, Seq<I>)>, k: nat) -> Option<DecodeError>
    decreases k,
{
    if k == 0 {
        None
    } else {
        match first_fault(cnt, cap, lists, (k - 1) as nat) {
            Some(e) => Some(e),
            None => list_fault(cnt, cap, lists, k - 1),
        }
    }
}

pub open spec fn initial_state<L, I>() -> DecodeState<L, I> {
    DecodeState { list_cnt: 0, list_cap: 0, table: None }
}

/// The effect of one field on the decode so far.
pub open spec fn step<L, I>(s: Result<DecodeState<L, I>, DecodeError>, f: Field<L, I>) -> Result<DecodeState<L, I>, DecodeError> {
    match s {
        Err(e) => Err(e),
        Ok(st) => match f {
            Field::ListCnt(n) => Ok(DecodeState { list_cnt: n, ..st }),
            Field::ListCap(n) => Ok(DecodeState { list_cap: n, ..st }),
            Field::Table(v) => {
                let ls = lists_model(v@);
                if st.list_cnt == 0 {
                    Err(DecodeError::MissingField(FieldName::ListCnt))
                } else if st.list_cap == 0 {
                    Err(DecodeError::MissingField(FieldName::ListCap))
                } else {
                    match first_fault(st.list_cnt, st.list_cap, ls, ls.len()) {
                        Some(e) => Err(e),
                        None => Ok(DecodeState { table: Some((st.list_cnt, st.list_cap, ls)), ..st }),
                    }
                }
            },
            Field::Other => Ok(st),
        },
    }
}

/// The decode after the first `k` fields.
pub open spec fn run<L, I>(fields: Seq<Field<L, I>>, k: nat) -> Result<DecodeState<L, I>, DecodeError>
    decreases k,
{
    if k == 0 {
        Ok(initial_state())
    } else {
        step(run(fields, (k - 1) as nat), fields[k - 1])
    }
}

/// The outcome of decoding a whole envelope: the declared count, the declared
/// capacity and the lists of its table, or the first error.
pub open spec fn decode_spec<L, I>(fields: Seq<Field<L, I>>) -> Result<(u16, u16, Seq<(L, Seq<I>)>), DecodeError> {
    match run(fields, fields.len()) {
        Err(e) => Err(e),
        Ok(st) => match st.table {
            None => Err(DecodeError::MissingField(FieldName::Table)),
            Some(t) => Ok(t),
        },
    }
}

/// `t` has the declared count and capacity of `m`, its first lists are those of `m`
/// in order, and the remaining ones are empty.
pub open spec fn table_holds<L: Copy + Default, I: Copy>(t: Table<L, I>, m: (u16, u16, Seq<(L, Seq<I>)>)) -> bool {
    &&& t.wf()
    &&& t.spec_list_cnt() == m.0
    &&& t.spec_list_cap() == m.1
    &&& t@.len() == m.0
    &&& m.2.len() <= m.0
    &&& forall|i: int| 0 <= i < m.2.len() ==> #[trigger] t@[i] == m.2[i]
    &&& forall|i: int| m.2.len() <= i < m.0 ==> #[trigger] t@[i].1.len() == 0
}

proof fn lemma_fault_sticks<L, I>(cnt: u16, cap: u16, lists: Seq<(L, Seq<I>)>, k: nat, n: nat)
    requires
        k <= n,
        first_fault(cnt, cap, lists, k) is Some,
    ensures
        first_fault(cnt, cap, lists, n) == first_fault(cnt, cap, lists, k),
    decreases n - k,
{
    if n > k {
        lemma_fault_sticks(cnt, cap, lists, k, (n - 1) as nat);
    }
}

proof fn lemma_run_err_sticks<L, I>(fields: Seq<Field<L, I>>, k: nat, n: nat)
    requires
        k <= n,
        run(fields, k) is Err,
    ensures
        run(fields, n) == run(fields, k),
    decreases n - k,
{
    if n > k {
        lemma_run_err_sticks(fields, k, (n - 1) as nat);
    }
}

proof fn lemma_no_fault<L, I>(cnt: u16, cap: u16, lists: Seq<(L, Seq<I>)>, k: nat)
    requires
        k <= lists.len(),
        forall|j: int| 0 <= j < k ==> j < cnt && (#[trigger] lists[j]).1.len() <= cap,
    ensures
        first_fault(cnt, cap, lists, k) is None,
    decreases k,
{
    if k > 0 {
        assert forall|j: int| 0 <= j < k - 1 implies j < cnt && (#[trigger] lists[j]).1.len() <= cap by {
            assert(0 <= j < k);
        }
        lemma_no_fault(cnt, cap, lists, (k - 1) as nat);
        assert(0 <= k - 1 < k);
        assert(lists[k - 1].1.len() <= cap);
    }
}

/// An envelope that declares its count and capacity and then gives lists that fit
/// them decodes to a table whose lists are those lists, in input order, each with its
/// items in input order.
pub proof fn lemma_decode_keeps_order<L, I>(list_cnt: u16, list_cap: u16, lists: Vec<(L, Vec<I>)>)
    requires
        list_cnt > 0,
        list_cap > 0,
        lists@.len() <= list_cnt,
        forall|j: int| 0 <= j < lists@.len() ==> (#[trigger] lists@[j]).1@.len() <= list_cap,
    ensures
        decode_spec(seq![Field::ListCnt(list_cnt), Field::ListCap(list_cap), Field::Table(lists)])
            == Ok::<(u16, u16, Seq<(L, Seq<I>)>), DecodeError>((list_cnt, list_cap, lists_model(lists@))),
{
    let fields = seq![Field::ListCnt(list_cnt), Field::ListCap(list_cap), Field::Table(lists)];
    let ls = lists_model(lists@);
    assert forall|j: int| 0 <= j < ls.len() implies j < list_cnt && (#[trigger] ls[j]).1.len() <= list_cap by {
        assert(lists@[j].1@.len() <= list_cap);
    }
    lemma_no_fault(list_cnt, list_cap, ls, ls.len());
    assert(fields[0] == Field::<L, I>::ListCnt(list_cnt));
    assert(fields[1] == Field::<L, I>::ListCap(list_cap));
    assert(run(fields, 0) == Ok::<DecodeState<L, I>, DecodeError>(initial_state()));
    assert(run(fields, 1) == Ok::<DecodeState<L, I>, DecodeError>(
        DecodeState { list_cnt, list_cap: 0, table: None },
    ));
    assert(run(fields, 2) == Ok::<DecodeState<L, I>, DecodeError>(
        DecodeState { list_cnt, list_cap, table: None },
    ));
    assert(fields[2] == Field::<L, I>::Table(lists));
    assert(run(fields, 3) == Ok::<DecodeState<L, I>, DecodeError>(
        DecodeState { list_cnt, list_cap, table: Some((list_cnt, list_cap, ls)) },
    ));
}

proof fn lemma_header_unseen<L, I>(fields: Seq<Field<L, I>>, k: nat, no_cap: bool)
    requires
        k <= fields.len(),
        no_cap ==> forall|j: int| 0 <= j < k ==> (#[trigger] fields[j] is Other) || fields[j] is ListCnt,
        !no_cap ==> forall|j: int| 0 <= j < k ==> (#[trigger] fields[j] is Other) || fields[j] is ListCap,
    ensures
        run(fields, k) is Ok,
        run(fields, k)->Ok_0.table is None,
        no_cap ==> run(fields, k)->Ok_0.list_cap == 0,
        !no_cap ==> run(fields, k)->Ok_0.list_cnt == 0,
    decreases k,
{
    if k > 0 {
        lemma_header_unseen(fields, (k - 1) as nat, no_cap);
        let _ = fields[k - 1] is Other;
    }
}

/// A table field that comes before the count or before the capacity has been given
/// fails the whole decode with that field missing, whatever follows it.
pub proof fn lemma_table_before_header<L, I>(fields: Seq<Field<L, I>>, k: int)
    requires
        0 <= k < fields.len(),
        fields[k] is Table,
        (forall|j: int| 0 <= j < k ==> (#[trigger] fields[j] is Other) || fields[j] is ListCnt)
            || (forall|j: int| 0 <= j < k ==> (#[trigger] fields[j] is Other) || fields[j] is ListCap),
    ensures
        decode_spec(fields) == Err::<(u16, u16, Seq<(L, Seq<I>)>), DecodeError>(DecodeError::MissingField(FieldName::ListCnt))
            || decode_spec(fields) == Err::<(u16, u16, Seq<(L, Seq<I>)>), DecodeError>(DecodeError::MissingField(FieldName::ListCap)),
{
    let no_cap = forall|j: int| 0 <= j < k ==> (#[trigger] fields[j] is Other) || fields[j] is ListCnt;
    lemma_header_unseen(fields, k as nat, no_cap);
    assert(run(fields, (k + 1) as nat) is Err);
    lemma_run_err_sticks(fields, (k + 1) as nat, fields.len());
}

/// Starts a table once the declared count and capacity are known; a zero count or
/// capacity is reported as that field missing.
pub fn begin_table<L: Copy + Default, I: Copy>(list_cnt: u16, list_cap: u16) -> (r: Result<TableBuilder<L, I>, DecodeError>)
    requires
        record_size_of::<L, I>(list_cap as int) <= u32::MAX,
    ensures
        list_cnt == 0 ==> r == Err::<TableBuilder<L, I>, DecodeError>(DecodeError::MissingField(FieldName::ListCnt)),
        list_cnt != 0 && list_cap == 0 ==> r == Err::<TableBuilder<L, I>, DecodeError>(
            DecodeError::MissingField(FieldName::ListCap),
        ),
        list_cnt != 0 && list_cap != 0 ==> (r matches Ok(b) && {
            &&& b.wf()
            &&& b.spec_opened() == 0
            &&& b.spec_table().spec_list_cnt() == list_cnt
            &&& b.spec_table().spec_list_cap() == list_cap
            &&& b.spec_table()@.len() == list_cnt
            &&& forall|i: int| 0 <= i < list_cnt ==> #[trigger] b.spec_table()@[i].1.len() == 0
        }),
{
    if list_cnt == 0 {
        return Err(DecodeError::MissingField(FieldName::ListCnt));
    }
    if list_cap == 0 {
        return Err(DecodeError::MissingField(FieldName::ListCap));
    }
    Ok(TableBuilder::new(list_cnt, list_cap))
}

/// Fills a fresh table with `lists` in order: list `j` gets the `j`-th label and its
/// items. Stops at the first list past the declared count, or the first list longer
/// than the capacity.
pub fn build_table<L: Copy + Default, I: Copy>(list_cnt: u16, list_cap: u16, lists: &Vec<(L, Vec<I>)>) -> (r: Result<Table<L, I>, DecodeError>)
    requires
        record_size_of::<L, I>(list_cap as int) <= u32::MAX,
        list_cnt > 0,
        list_cap > 0,
    ensures
        ({
            let ls = lists_model(lists@);
            match first_fault(list_cnt, list_cap, ls, ls.len()) {
                Some(e) => r == Err::<Table<L, I>, DecodeError>(e),
                None => (r matches Ok(t) && table_holds(t, (list_cnt, list_cap, ls))),
            }
        }),
{
    let ghost ls = lists_model(lists@);
    let mut b = match begin_table::<L, I>(list_cnt, list_cap) {
        Ok(b) => b,
        Err(e) => return Err(e),
    };
    let mut j: usize = 0;
    while j < lists.len()
        invariant
            ls == lists_model(lists@),
            j <= lists.len(),
            b.wf(),
            b.spec_opened() == j,
            b.spec_table().spec_list_cnt() == list_cnt,
            b.spec_table().spec_list_cap() == list_cap,
            b.spec_table()@.len() == list_cnt,
            first_fault(list_cnt, list_cap, ls, j as nat) is None,
            forall|i: int| 0 <= i < j ==> #[trigger] b.spec_table()@[i] == ls[i],
            forall|i: int| j <= i < list_cnt ==> #[trigger] b.spec_table()@[i].1.len() == 0,
        decreases lists.len() - j,
    {
        let label = lists[j].0;
        match b.open_list(label) {
            Ok(_) => {},
            Err(e) => {
                proof {
                    assert(list_fault(list_cnt, list_cap, ls, j as int) == Some(DecodeError::CountOverflow));
                    assert(first_fault(list_cnt, list_cap, ls, (j + 1) as nat) == Some(DecodeError::CountOverflow));
                    lemma_fault_sticks(list_cnt, list_cap, ls, (j + 1) as nat, ls.len());
                }
                return Err(e);
            },
        }
        let items = &lists[j].1;
        let mut m: usize = 0;
        while m < items.len()
            invariant
                ls == lists_model(lists@),
                j < lists.len(),
                j < list_cnt,
                items == lists@[j as int].1,
                m <= items.len(),
                b.wf(),
                b.spec_opened() == j + 1,
                b.spec_table().spec_list_cnt() == list_cnt,
                b.spec_table().spec_list_cap() == list_cap,
                b.spec_table()@.len() == list_cnt,
                first_fault(list_cnt, list_cap, ls, j as nat) is None,
                forall|i: int| 0 <= i < j ==> #[trigger] b.spec_table()@[i] == ls[i],
                forall|i: int| j < i < list_cnt ==> #[trigger] b.spec_table()@[i].1.len() == 0,
                b.spec_table()@[j as int] == (label, items@.subrange(0, m as int)),
                label == lists@[j as int].0,
            decreases items.len() - m,
        {
            let item = items[m];
            match b.push(item) {
                Ok(_) => {},
                Err(e) => {
                    proof {
                        assert(ls[j as int].1 == items@);
                        assert(list_fault(list_cnt, list_cap, ls, j as int) == Some(DecodeError::CapacityOverflow(j as u16)));
                        assert(first_fault(list_cnt, list_cap, ls, (j + 1) as nat) == Some(DecodeError::CapacityOverflow(j as u16)));
                        lemma_fault_sticks(list_cnt, list_cap, ls, (j + 1) as nat, ls.len());
                    }
                    return Err(e);
                },
            }
            assert(items@.subrange(0, m as int).push(item) =~= items@.subrange(0, (m + 1) as int));
            m = m + 1;
        }
        proof {
            assert(items@.subrange(0, items@.len() as int) =~= items@);
            assert(ls[j as int] == (label, items@));
            b.lemma_wf();
            b.spec_table().lemma_wf_view();
            assert(list_fault(list_cnt, list_cap, ls, j as int) is None);
        }
        j = j + 1;
    }
    let t = b.finish();
    Ok(t)
}

/// Decodes an envelope in one pass over its fields. The table is built when its field
/// comes, with the count and capacity declared before it; a later table field
/// replaces an earlier one.
pub fn decode<L: Copy + Default, I: Copy>(fields: &Vec<Field<L, I>>) -> (r: Result<Table<L, I>, DecodeError>)
    requires
        record_size_of::<L, I>(u16::MAX as int) <= u32::MAX,
    ensures
        match decode_spec(fields@) {
            Ok(m) => (r matches Ok(t) && table_holds(t, m)),
            Err(e) => r == Err::<Table<L, I>, DecodeError>(e),
        },
{
    let mut list_cnt: u16 = 0;
    let mut list_cap: u16 = 0;
    let mut table: Option<Table<L, I>> = None;
    let mut k: usize = 0;
    while k < fields.len()
        invariant
            record_size_of::<L, I>(u16::MAX as int) <= u32::MAX,
            k <= fields.len(),
            (run(fields@, k as nat) matches Ok(st) && {
                &&& st.list_cnt == list_cnt
                &&& st.list_cap == list_cap
                &&& match st.table {
                    None => table is None,
                    Some(m) => (table matches Some(t) && table_holds(t, m)),
                }
            }),
        decreases fields.len() - k,
    {
        match &fields[k] {
            Field::ListCnt(n) => {
                list_cnt = *n;
            },
            Field::ListCap(n) => {
                list_cap = *n;
            },
            Field::Table(lists) => {
                vstd::layout::layout_for_type_is_valid::<L>();
                vstd::layout::layout_for_type_is_valid::<I>();
                if list_cnt == 0 {
                    proof {
                        lemma_run_err_sticks(fields@, (k + 1) as nat, fields@.len());
                    }
                    return Err(DecodeError::MissingField(FieldName::ListCnt));
                }
                if list_cap == 0 {
                    proof {
                        lemma_run_err_sticks(fields@, (k + 1) as nat, fields@.len());
                    }
                    return Err(DecodeError::MissingField(FieldName::ListCap));
                }
                proof {
                    lemma_record_size_monotone(
                        vstd::layout::size_of::<L>() as int,
                        vstd::layout::align_of::<L>() as int,
                        vstd::layout::size_of::<I>() as int,
                        vstd::layout::align_of::<I>() as int,
                        list_cap as int,
                        u16::MAX as int,
                    );
                }
                match build_table(list_cnt, list_cap, lists) {
                    Ok(t) => {
                        table = Some(t);
                    },
                    Err(e) => {
                        proof {
                            lemma_run_err_sticks(fields@, (k + 1) as nat, fields@.len());
                        }
                        return Err(e);
                    },
                }
            },
            Field::Other => {},
        }
        k = k + 1;
    }
    match table {
        Some(t) => Ok(t),
        None => Err(DecodeError::MissingField(FieldName::Table)),
    }
}

} // verus!
