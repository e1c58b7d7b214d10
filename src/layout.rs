use vstd::prelude::*;
use vstd::arithmetic::div_mod::{lemma_fundamental_div_mod, lemma_mod_multiples_basic, lemma_mod_pos_bound};
use vstd::layout::{size_of, align_of};

verus! {

/// Alignment of the `u16` length field that follows the label in a record.
pub const LEN_ALIGN: usize = 2;

/// Size of the `u16` length field.
pub const LEN_SIZE: usize = 2;

/// Rounds `n` up to the next multiple of `unit`; a zero unit leaves `n` as it is.
pub open spec fn round_up(n: int, unit: int) -> int {
    if unit <= 0 {
        n
    } else if n % unit == 0 {
        n
    } else {
        n + (unit - n % unit)
    }
}

pub open spec fn max3(a: int, b: int, c: int) -> int {
    if a >= b && a >= c {
        a
    } else if b >= c {
        b
    } else {
        c
    }
}

/// Offset of the inline item array in a record laid out as
/// label, then a `u16` length, then the items, each at its natural alignment.
pub open spec fn item_offset_spec(label_size: int, item_align: int) -> int {
    round_up(round_up(label_size, LEN_ALIGN as int) + LEN_SIZE as int, item_align)
}

/// Alignment that every record start must respect.
pub open spec fn record_align_spec(label_align: int, item_align: int) -> int {
    max3(LEN_ALIGN as int, label_align, item_align)
}

/// Byte size of the inline storage needed before rounding.
pub open spec fn unaligned_size_spec(
    label_size: int,
    item_size: int,
    item_align: int,
    cap: int,
) -> int {
    item_offset_spec(label_size, item_align) + item_size * cap
}

/// Byte size of one record that holds a label and up to `cap` items.
pub open spec fn record_size_spec(
    label_size: int,
    label_align: int,
    item_size: int,
    item_align: int,
    cap: int,
) -> int {
    round_up(
        unaligned_size_spec(label_size, item_size, item_align, cap),
        record_align_spec(label_align, item_align),
    )
}

/// Record size for label type `L` and item type `I`, by their sizes and alignments.
pub open spec fn record_size_of<L, I>(cap: int) -> int {
    record_size_spec(
        size_of::<L>() as int,
        align_of::<L>() as int,
        size_of::<I>() as int,
        align_of::<I>() as int,
        cap,
    )
}

/// `round_up(n, unit)` is the least multiple of `unit` that is not below `n`.
pub proof fn lemma_round_up(n: int, unit: int)
    requires
        n >= 0,
        unit > 0,
    ensures
        round_up(n, unit) % unit == 0,
        n <= round_up(n, unit) < n + unit,
        forall|m: int| m >= n && #[trigger] (m % unit) == 0 ==> m >= round_up(n, unit),
{
    lemma_fundamental_div_mod(n, unit);
    lemma_mod_pos_bound(n, unit);
    let q = n / unit;
    let r = round_up(n, unit);
    if n % unit != 0 {
        assert(r == (q + 1) * unit) by (nonlinear_arith)
            requires
                n == unit * q + n % unit,
                r == n + (unit - n % unit),
        ;
        lemma_mod_multiples_basic(q + 1, unit);
    }
    assert forall|m: int| m >= n && #[trigger] (m % unit) == 0 implies m >= r by {
        lemma_fundamental_div_mod(m, unit);
        let k = m / unit;
        if n % unit != 0 {
            assert(k >= q + 1) by (nonlinear_arith)
                requires
                    m == unit * k,
                    m >= n,
                    n == unit * q + n % unit,
                    n % unit > 0,
                    unit > 0,
            ;
            assert(m >= r) by (nonlinear_arith)
                requires
                    m == unit * k,
                    k >= q + 1,
                    r == (q + 1) * unit,
                    unit > 0,
            ;
        }
    }
}

/// The record size is the least multiple of the record alignment that holds the
/// label, the length field and `cap` items.
pub proof fn lemma_record_size_least_multiple(
    label_size: int,
    label_align: int,
    item_size: int,
    item_align: int,
    cap: int,
)
    requires
        label_size >= 0,
        label_align >= 1,
        item_size >= 0,
        item_align >= 1,
        cap >= 0,
    ensures
        ({
            let need = unaligned_size_spec(label_size, item_size, item_align, cap);
            let unit = record_align_spec(label_align, item_align);
            let size = record_size_spec(label_size, label_align, item_size, item_align, cap);
            &&& size % unit == 0
            &&& need <= size < need + unit
            &&& forall|m: int| m >= need && #[trigger] (m % unit) == 0 ==> m >= size
        }),
{
    let off = item_offset_spec(label_size, item_align);
    lemma_round_up(label_size, 2);
    lemma_round_up(round_up(label_size, 2) + 2, item_align);
    assert(item_size * cap >= 0) by (nonlinear_arith)
        requires
            item_size >= 0,
            cap >= 0,
    ;
    lemma_round_up(
        unaligned_size_spec(label_size, item_size, item_align, cap),
        record_align_spec(label_align, item_align),
    );
}

/// A larger capacity never gives a smaller record, and the growth stays within one
/// alignment unit of `item_size` times the added capacity.
pub proof fn lemma_record_size_monotone(
    label_size: int,
    label_align: int,
    item_size: int,
    item_align: int,
    cap1: int,
    cap2: int,
)
    requires
        label_size >= 0,
        label_align >= 1,
        item_size >= 0,
        item_align >= 1,
        0 <= cap1 <= cap2,
    ensures
        ({
            let s1 = record_size_spec(label_size, label_align, item_size, item_align, cap1);
            let s2 = record_size_spec(label_size, label_align, item_size, item_align, cap2);
            let unit = record_align_spec(label_align, item_align);
            &&& s1 <= s2
            &&& (s2 - s1) % unit == 0
            &&& item_size * (cap2 - cap1) - unit < s2 - s1 < item_size * (cap2 - cap1) + unit
        }),
{
    lemma_record_size_least_multiple(label_size, label_align, item_size, item_align, cap1);
    lemma_record_size_least_multiple(label_size, label_align, item_size, item_align, cap2);
    let n1 = unaligned_size_spec(label_size, item_size, item_align, cap1);
    let n2 = unaligned_size_spec(label_size, item_size, item_align, cap2);
    let s1 = record_size_spec(label_size, label_align, item_size, item_align, cap1);
    let s2 = record_size_spec(label_size, label_align, item_size, item_align, cap2);
    let unit = record_align_spec(label_align, item_align);
    assert(item_size * cap2 - item_size * cap1 == item_size * (cap2 - cap1)) by (nonlinear_arith);
    assert(item_size * (cap2 - cap1) >= 0) by (nonlinear_arith)
        requires
            item_size >= 0,
            cap2 >= cap1,
    ;
    assert(n2 >= n1);
    assert(s2 % unit == 0);
    assert(s2 >= s1);
    lemma_fundamental_div_mod(s1, unit);
    lemma_fundamental_div_mod(s2, unit);
    let k1 = s1 / unit;
    let k2 = s2 / unit;
    assert(s2 - s1 == unit * (k2 - k1)) by (nonlinear_arith)
        requires
            s1 == unit * k1 + s1 % unit,
            s2 == unit * k2 + s2 % unit,
            s1 % unit == 0,
            s2 % unit == 0,
    ;
    lemma_mod_multiples_basic(k2 - k1, unit);
    assert(unit * (k2 - k1) == (k2 - k1) * unit) by (nonlinear_arith);
}

/// Rounds up with a check that the result fits a `usize`.
fn round_up_checked(n: usize, unit: usize) -> (r: Option<usize>)
    requires
        unit > 0,
    ensures
        r matches Some(v) ==> v == round_up(n as int, unit as int),
        r is None ==> round_up(n as int, unit as int) > usize::MAX,
{
    let rem = n % unit;
    if rem == 0 {
        Some(n)
    } else {
        n.checked_add(unit - rem)
    }
}

/// Item-array offset and byte size of one record, from the label's and the item's size
/// and alignment and the list capacity; `None` where the size does not fit a `usize`.
pub fn record_layout(
    label_size: usize,
    label_align: usize,
    item_size: usize,
    item_align: usize,
    cap: u16,
) -> (r: Option<(usize, usize)>)
    requires
        label_align >= 1,
        item_align >= 1,
    ensures
        r matches Some(p) ==> {
            &&& p.0 == item_offset_spec(label_size as int, item_align as int)
            &&& p.1 == record_size_spec(
                label_size as int,
                label_align as int,
                item_size as int,
                item_align as int,
                cap as int,
            )
        },
        r is None ==> record_size_spec(
            label_size as int,
            label_align as int,
            item_size as int,
            item_align as int,
            cap as int,
        ) > usize::MAX,
{
    proof {
        lemma_record_size_least_multiple(
            label_size as int,
            label_align as int,
            item_size as int,
            item_align as int,
            cap as int,
        );
        lemma_round_up(label_size as int, 2);
    }
    let len_at = match round_up_checked(label_size, LEN_ALIGN) {
        Some(v) => v,
        None => return None,
    };
    let len_end = match len_at.checked_add(LEN_SIZE) {
        Some(v) => v,
        None => return None,
    };
    proof {
        lemma_round_up(len_end as int, item_align as int);
    }
    let offset = match round_up_checked(len_end, item_align) {
        Some(v) => v,
        None => return None,
    };
    let items = match item_size.checked_mul(cap as usize) {
        Some(v) => v,
        None => {
            proof {
                assert(item_size as int * cap as int >= 0) by (nonlinear_arith)
                    requires
                        cap >= 0,
                        item_size >= 0,
                ;
            }
            return None;
        },
    };
    let unaligned = match offset.checked_add(items) {
        Some(v) => v,
        None => return None,
    };
    let mut unit = LEN_ALIGN;
    if label_align > unit {
        unit = label_align;
    }
    if item_align > unit {
        unit = item_align;
    }
    match round_up_checked(unaligned, unit) {
        Some(size) => Some((offset, size)),
        None => None,
    }
}

/// Byte size of one record for label type `L`, item type `I` and capacity `cap`;
/// `None` where it does not fit a `usize`.
pub fn record_size<L, I>(cap: u16) -> (r: Option<usize>)
    ensures
        r matches Some(v) ==> v == record_size_of::<L, I>(cap as int),
        r is None ==> record_size_of::<L, I>(cap as int) > usize::MAX,
{
    vstd::layout::layout_for_type_is_valid::<L>();
    vstd::layout::layout_for_type_is_valid::<I>();
    let label_size = core::mem::size_of::<L>();
    let label_align = core::mem::align_of::<L>();
    let item_size = core::mem::size_of::<I>();
    let item_align = core::mem::align_of::<I>();
    match record_layout(label_size, label_align, item_size, item_align, cap) {
        Some(p) => Some(p.1),
        None => None,
    }
}

} // verus!
