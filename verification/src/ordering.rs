//! Sort keys and the stable ordering used by ORDER BY.

use crate::column_info::ColumnInfoV;
use crate::error::ErrV;
use crate::sql::Expr;
use crate::value::Value;
use crate::value::ValueOrd;
use crate::value::ValueV;
use crate::value::spec_cp;
use crate::value::spec_str_cmp;
use crate::value::spec_value_cmp;
use crate::table::RowSlotV;
use crate::table::spec_row_view;
use vstd::prelude::*;
use vstd::seq_lib::to_multiset_insert;

verus! {

/// Lexicographic string comparison composes transitively.
proof fn lemma_str_cmp_trans(a: Seq<char>, b: Seq<char>, c: Seq<char>)
    ensures
        spec_str_cmp(a, b) == ValueOrd::Less && spec_str_cmp(b, c) == ValueOrd::Less
            ==> spec_str_cmp(a, c) == ValueOrd::Less,
        spec_str_cmp(a, b) == ValueOrd::Less && spec_str_cmp(b, c) == ValueOrd::Equal
            ==> spec_str_cmp(a, c) == ValueOrd::Less,
        spec_str_cmp(a, b) == ValueOrd::Equal && spec_str_cmp(b, c) == ValueOrd::Less
            ==> spec_str_cmp(a, c) == ValueOrd::Less,
        spec_str_cmp(a, b) == ValueOrd::Equal && spec_str_cmp(b, c) == ValueOrd::Equal
            ==> spec_str_cmp(a, c) == ValueOrd::Equal,
        spec_str_cmp(a, b) == ValueOrd::Greater && spec_str_cmp(b, c) == ValueOrd::Greater
            ==> spec_str_cmp(a, c) == ValueOrd::Greater,
        spec_str_cmp(a, b) == ValueOrd::Greater && spec_str_cmp(b, c) == ValueOrd::Equal
            ==> spec_str_cmp(a, c) == ValueOrd::Greater,
        spec_str_cmp(a, b) == ValueOrd::Equal && spec_str_cmp(b, c) == ValueOrd::Greater
            ==> spec_str_cmp(a, c) == ValueOrd::Greater,
    decreases a.len() + b.len() + c.len(),
{
    if a.len() != 0 && b.len() != 0 && c.len() != 0 {
        if spec_cp(a[0]) == spec_cp(b[0]) && spec_cp(b[0]) == spec_cp(c[0]) {
            lemma_str_cmp_trans(a.drop_first(), b.drop_first(), c.drop_first());
        }
    }
}

/// Value comparison composes transitively on comparable values.
proof fn lemma_value_cmp_trans(a: ValueV, b: ValueV, c: ValueV)
    requires
        spec_value_cmp(a, b) is Some,
        spec_value_cmp(b, c) is Some,
    ensures
        spec_value_cmp(a, c) is Some,
        ({
            let ab = spec_value_cmp(a, b)->Some_0;
            let bc = spec_value_cmp(b, c)->Some_0;
            let ac = spec_value_cmp(a, c)->Some_0;
            &&& (ab == ValueOrd::Less && bc == ValueOrd::Less ==> ac == ValueOrd::Less)
            &&& (ab == ValueOrd::Less && bc == ValueOrd::Equal ==> ac == ValueOrd::Less)
            &&& (ab == ValueOrd::Equal && bc == ValueOrd::Less ==> ac == ValueOrd::Less)
            &&& (ab == ValueOrd::Equal && bc == ValueOrd::Equal ==> ac == ValueOrd::Equal)
            &&& (ab == ValueOrd::Greater && bc == ValueOrd::Greater ==> ac == ValueOrd::Greater)
            &&& (ab == ValueOrd::Greater && bc == ValueOrd::Equal ==> ac == ValueOrd::Greater)
            &&& (ab == ValueOrd::Equal && bc == ValueOrd::Greater ==> ac == ValueOrd::Greater)
        }),
{
    match (a, b, c) {
        (ValueV::Varchar(x), ValueV::Varchar(y), ValueV::Varchar(z)) => {
            lemma_str_cmp_trans(x, y, z);
        },
        _ => {},
    }
}

/// One row tagged for sorting: its key vector, its position in the
/// source order, and the row itself.
pub struct SortItem {
    pub keys: Vec<Value>,
    pub pos: usize,
    pub row: Vec<Value>,
}

/// Mathematical model of a tagged row.
#[verifier::ext_equal]
pub ghost struct SortItemV {
    pub keys: Seq<ValueV>,
    pub pos: int,
    pub row: Seq<ValueV>,
}

impl View for SortItem {
    type V = SortItemV;

    open spec fn view(&self) -> SortItemV {
        SortItemV {
            keys: spec_row_view(self.keys@),
            pos: self.pos as int,
            row: spec_row_view(self.row@),
        }
    }
}

/// The models of a vector of tagged rows.
pub open spec fn spec_items_view(s: Seq<SortItem>) -> Seq<SortItemV> {
    Seq::new(s.len(), |i: int| s[i]@)
}

/// Lexicographic comparison of two key vectors from key `j` on, each
/// key ascending or descending per `dirs`; incomparable pairs count as
/// ties.
pub open spec fn spec_keys_cmp(ka: Seq<ValueV>, kb: Seq<ValueV>, dirs: Seq<bool>, j: int) -> ValueOrd
    decreases dirs.len() - j,
{
    if j < 0 || j >= dirs.len() {
        ValueOrd::Equal
    } else {
        let o = match spec_value_cmp(ka[j], kb[j]) {
            None => ValueOrd::Equal,
            Some(o) => o,
        };
        let od = if dirs[j] {
            o
        } else {
            match o {
                ValueOrd::Less => ValueOrd::Greater,
                ValueOrd::Equal => ValueOrd::Equal,
                ValueOrd::Greater => ValueOrd::Less,
            }
        };
        match od {
            ValueOrd::Equal => spec_keys_cmp(ka, kb, dirs, j + 1),
            o2 => o2,
        }
    }
}

/// The strict total order of the sort: by keys, ties by source position.
pub open spec fn spec_item_lt(a: SortItemV, b: SortItemV, dirs: Seq<bool>) -> bool {
    match spec_keys_cmp(a.keys, b.keys, dirs, 0) {
        ValueOrd::Less => true,
        ValueOrd::Greater => false,
        ValueOrd::Equal => a.pos < b.pos,
    }
}

/// Whether two tagged rows are comparable on every key.
pub open spec fn spec_item_comp(a: SortItemV, b: SortItemV, dirs: Seq<bool>) -> bool {
    &&& a.keys.len() == dirs.len()
    &&& b.keys.len() == dirs.len()
    &&& forall|j: int| 0 <= j < dirs.len() ==> spec_value_cmp(a.keys[j], b.keys[j]) is Some
}

/// Key comparison composes transitively on comparable key vectors.
proof fn lemma_keys_cmp_trans(
    ka: Seq<ValueV>,
    kb: Seq<ValueV>,
    kc: Seq<ValueV>,
    dirs: Seq<bool>,
    j: int,
)
    requires
        forall|j2: int| 0 <= j2 < dirs.len() ==> spec_value_cmp(ka[j2], kb[j2]) is Some,
        forall|j2: int| 0 <= j2 < dirs.len() ==> spec_value_cmp(kb[j2], kc[j2]) is Some,
        0 <= j <= dirs.len(),
    ensures
        ({
            let ab = spec_keys_cmp(ka, kb, dirs, j);
            let bc = spec_keys_cmp(kb, kc, dirs, j);
            let ac = spec_keys_cmp(ka, kc, dirs, j);
            &&& (ab == ValueOrd::Less && bc == ValueOrd::Less ==> ac == ValueOrd::Less)
            &&& (ab == ValueOrd::Less && bc == ValueOrd::Equal ==> ac == ValueOrd::Less)
            &&& (ab == ValueOrd::Equal && bc == ValueOrd::Less ==> ac == ValueOrd::Less)
            &&& (ab == ValueOrd::Equal && bc == ValueOrd::Equal ==> ac == ValueOrd::Equal)
        }),
    decreases dirs.len() - j,
{
    if j < dirs.len() {
        lemma_value_cmp_trans(ka[j], kb[j], kc[j]);
        lemma_keys_cmp_trans(ka, kb, kc, dirs, j + 1);
    }
}

/// Every value compares equal to itself when comparable.
proof fn lemma_value_cmp_refl(a: ValueV)
    ensures
        spec_value_cmp(a, a) is Some ==> spec_value_cmp(a, a) == Some(ValueOrd::Equal),
{
    match a {
        ValueV::Varchar(x) => {
            crate::value::lemma_str_cmp_eq(x, x);
        },
        _ => {},
    }
}

/// Key comparison is reflexive.
proof fn lemma_keys_cmp_refl(ka: Seq<ValueV>, dirs: Seq<bool>, j: int)
    requires
        0 <= j <= dirs.len(),
    ensures
        spec_keys_cmp(ka, ka, dirs, j) == ValueOrd::Equal,
    decreases dirs.len() - j,
{
    if j < dirs.len() {
        lemma_value_cmp_refl(ka[j]);
        lemma_keys_cmp_refl(ka, dirs, j + 1);
    }
}

/// No tagged row sorts strictly before itself.
pub proof fn lemma_item_lt_irrefl(a: SortItemV, dirs: Seq<bool>)
    ensures
        !spec_item_lt(a, a, dirs),
{
    lemma_keys_cmp_refl(a.keys, dirs, 0);
}

/// The sort order is transitive on pairwise comparable tagged rows.
pub proof fn lemma_item_lt_trans(a: SortItemV, b: SortItemV, c: SortItemV, dirs: Seq<bool>)
    requires
        spec_item_comp(a, b, dirs),
        spec_item_comp(b, c, dirs),
        spec_item_lt(a, b, dirs),
        spec_item_lt(b, c, dirs),
    ensures
        spec_item_lt(a, c, dirs),
{
    lemma_keys_cmp_trans(a.keys, b.keys, c.keys, dirs, 0);
}

/// Compares two key vectors under the sort directions.
pub fn keys_cmp(ka: &Vec<Value>, kb: &Vec<Value>, dirs: &Vec<bool>) -> (r: ValueOrd)
    requires
        ka@.len() == dirs@.len(),
        kb@.len() == dirs@.len(),
    ensures
        r == spec_keys_cmp(spec_row_view(ka@), spec_row_view(kb@), dirs@, 0),
{
    let ghost kav = spec_row_view(ka@);
    let ghost kbv = spec_row_view(kb@);
    let n = dirs.len();
    let mut j: usize = 0;
    while j < n
        invariant
            j <= n,
            n == dirs@.len(),
            ka@.len() == n,
            kb@.len() == n,
            kav == spec_row_view(ka@),
            kbv == spec_row_view(kb@),
            spec_keys_cmp(kav, kbv, dirs@, 0) == spec_keys_cmp(kav, kbv, dirs@, j as int),
        decreases n - j,
    {
        let o = match ka[j].try_cmp(&kb[j]) {
            None => ValueOrd::Equal,
            Some(o) => o,
        };
        let od = if dirs[j] {
            o
        } else {
            match o {
                ValueOrd::Less => ValueOrd::Greater,
                ValueOrd::Equal => ValueOrd::Equal,
                ValueOrd::Greater => ValueOrd::Less,
            }
        };
        match od {
            ValueOrd::Equal => {},
            ValueOrd::Less => {
                return ValueOrd::Less;
            },
            ValueOrd::Greater => {
                return ValueOrd::Greater;
            },
        }
        j = j + 1;
    }
    ValueOrd::Equal
}

/// Whether `a` sorts strictly before `b`.
pub fn item_lt(a: &SortItem, b: &SortItem, dirs: &Vec<bool>) -> (r: bool)
    requires
        a@.keys.len() == dirs@.len(),
        b@.keys.len() == dirs@.len(),
    ensures
        r == spec_item_lt(a@, b@, dirs@),
{
    match keys_cmp(&a.keys, &b.keys, dirs) {
        ValueOrd::Less => true,
        ValueOrd::Greater => false,
        ValueOrd::Equal => a.pos < b.pos,
    }
}

/// Every element of `outv` equals some element of `itemsv`.
pub open spec fn spec_all_from(outv: Seq<SortItemV>, itemsv: Seq<SortItemV>) -> bool {
    forall|p: int|
        0 <= p < outv.len() ==> exists|q: int|
            0 <= q < itemsv.len() && (#[trigger] outv[p]) == itemsv[q]
}

/// A sorted sequence: no element sorts strictly before an earlier one.
pub open spec fn spec_items_sorted(s: Seq<SortItemV>, dirs: Seq<bool>) -> bool {
    forall|p: int, q: int| 0 <= p < q < s.len() ==> !spec_item_lt(s[q], s[p], dirs)
}

/// Stable sort of the tagged rows: the result is the unique ordering of
/// the input multiset under the strict total order of keys and source
/// position.
#[verifier::rlimit(80)]
pub fn sort_items(items: &Vec<SortItem>, dirs: &Vec<bool>) -> (out: Vec<SortItem>)
    requires
        forall|p: int|
            0 <= p < items@.len() ==> (#[trigger] items@[p]@).keys.len() == dirs@.len(),
        forall|p: int, q: int|
            0 <= p < items@.len() && 0 <= q < items@.len() ==> (spec_item_comp(
                #[trigger] items@[p]@,
                #[trigger] items@[q]@,
                dirs@,
            ) || items@[p]@ == items@[q]@),
    ensures
        spec_items_view(out@).to_multiset() == spec_items_view(items@).to_multiset(),
        spec_items_sorted(spec_items_view(out@), dirs@),
        out@.len() == items@.len(),
        spec_all_from(spec_items_view(out@), spec_items_view(items@)),
{
    broadcast use vstd::seq_lib::group_seq_properties;

    let ghost itemsv = spec_items_view(items@);
    let mut out: Vec<SortItem> = Vec::new();
    let n = items.len();
    let mut k: usize = 0;
    proof {
        assert(spec_items_view(out@).to_multiset() =~= spec_items_view(
            items@.take(0),
        ).to_multiset()) by {
            assert(spec_items_view(out@) =~= Seq::<SortItemV>::empty());
            assert(spec_items_view(items@.take(0)) =~= Seq::<SortItemV>::empty());
        }
    }
    while k < n
        invariant
            k <= n,
            n == items@.len(),
            itemsv == spec_items_view(items@),
            out@.len() == k,
            forall|p: int|
                0 <= p < items@.len() ==> (#[trigger] items@[p]@).keys.len() == dirs@.len(),
            forall|p: int, q: int|
                0 <= p < items@.len() && 0 <= q < items@.len() ==> (spec_item_comp(
                    #[trigger] items@[p]@,
                    #[trigger] items@[q]@,
                    dirs@,
                ) || items@[p]@ == items@[q]@),
            spec_items_view(out@).to_multiset() == spec_items_view(items@.take(k as int)).to_multiset(),
            spec_items_sorted(spec_items_view(out@), dirs@),
            forall|p: int|
                0 <= p < out@.len() ==> (#[trigger] out@[p]@).keys.len() == dirs@.len(),
            forall|p: int, q: int|
                0 <= p < out@.len() && 0 <= q < items@.len() ==> (spec_item_comp(
                    #[trigger] out@[p]@,
                    #[trigger] items@[q]@,
                    dirs@,
                ) || out@[p]@ == items@[q]@),
            forall|p: int, q: int|
                0 <= p < items@.len() && 0 <= q < out@.len() ==> (spec_item_comp(
                    #[trigger] items@[p]@,
                    #[trigger] out@[q]@,
                    dirs@,
                ) || items@[p]@ == out@[q]@),
            spec_all_from(spec_items_view(out@), spec_items_view(items@)),
        decreases n - k,
    {
        let item = clone_item(&items[k]);
        proof {
            assert(item@ == items@[k as int]@);
        }
        // find the first position that the new item sorts before
        let m = out.len();
        let mut p: usize = 0;
        let mut stop = false;
        while p < m && !stop
            invariant
                p <= m,
                m == out@.len(),
                item@ == items@[k as int]@,
                0 <= k < items@.len(),
                stop ==> p < m && spec_item_lt(item@, out@[p as int]@, dirs@),
                item@.keys.len() == dirs@.len(),
                forall|q2: int| 0 <= q2 < m ==> (#[trigger] out@[q2]@).keys.len() == dirs@.len(),
                forall|q2: int| 0 <= q2 < p ==> !spec_item_lt(item@, #[trigger] out@[q2]@, dirs@),
            decreases m - p, (if stop { 0int } else { 1int }),
        {
            if item_lt(&item, &out[p], dirs) {
                stop = true;
            } else {
                p = p + 1;
            }
        }
        proof {
            assert(p < m ==> spec_item_lt(item@, out@[p as int]@, dirs@));
        }
        let ghost outv_before = spec_items_view(out@);
        out.insert(p, item);
        proof {
            assert(spec_items_view(out@) =~= outv_before.insert(
                p as int,
                items@[k as int]@,
            ));
            to_multiset_insert(outv_before, p as int, items@[k as int]@);
            outv_before.insert_ensures(p as int, items@[k as int]@);
            assert(spec_items_view(items@.take(k as int + 1)) =~= spec_items_view(
                items@.take(k as int),
            ).push(items@[k as int]@));
            vstd::seq_lib::to_multiset_build::<SortItemV>(
                spec_items_view(items@.take(k as int)),
                items@[k as int]@,
            );
            let it = items@[k as int]@;
            let outv = spec_items_view(out@);
            assert(spec_all_from(outv, itemsv)) by {
                assert forall|p2: int|
                    0 <= p2 < outv.len() implies exists|q: int|
                    0 <= q < itemsv.len() && (#[trigger] outv[p2]) == itemsv[q] by {
                    if p2 < p {
                        assert(outv[p2] == outv_before[p2]);
                        assert(spec_all_from(outv_before, itemsv));
                    } else if p2 == p {
                        assert(outv[p2] == itemsv[k as int]);
                    } else {
                        assert(outv[p2] == outv_before[p2 - 1]);
                        assert(spec_all_from(outv_before, itemsv));
                    }
                }
            }
            assert forall|p2: int, q2: int|
                0 <= p2 < q2 < outv.len() implies !spec_item_lt(outv[q2], outv[p2], dirs@) by {
                let a = outv_before;
                if q2 < p {
                    assert(outv[p2] == a[p2] && outv[q2] == a[q2]);
                } else if p2 > p {
                    assert(outv[p2] == a[p2 - 1] && outv[q2] == a[q2 - 1]);
                } else if p2 < p && q2 == p {
                    assert(outv[q2] == it);
                    assert(outv[p2] == a[p2]);
                    assert(!spec_item_lt(it, a[p2], dirs@));
                } else if p2 == p && q2 > p {
                    assert(outv[p2] == it);
                    assert(outv[q2] == a[q2 - 1]);
                    if p < a.len() {
                        assert(spec_item_lt(it, a[p as int], dirs@));
                        if spec_item_lt(a[q2 - 1], it, dirs@) {
                            if a[q2 - 1] == it {
                                lemma_item_lt_irrefl(it, dirs@);
                            } else if it == a[p as int] {
                                lemma_item_lt_irrefl(it, dirs@);
                            } else {
                                lemma_item_lt_trans(
                                    a[q2 - 1],
                                    it,
                                    a[p as int],
                                    dirs@,
                                );
                                assert(spec_item_lt(a[q2 - 1], a[p as int], dirs@));
                                if q2 - 1 == p {
                                    lemma_item_lt_irrefl(a[p as int], dirs@);
                                }
                            }
                        }
                    }
                } else if p2 < p && q2 > p {
                    assert(outv[p2] == a[p2] && outv[q2] == a[q2 - 1]);
                }
            }
        }
        k = k + 1;
    }
    proof {
        assert(items@.take(n as int) =~= items@);

    }
    out
}

/// Copies a tagged row.
fn clone_item(it: &SortItem) -> (r: SortItem)
    ensures
        r@ == it@,
{
    let r = SortItem {
        keys: crate::table::clone_row(&it.keys),
        pos: it.pos,
        row: crate::table::clone_row(&it.row),
    };
    proof {
        assert(r@ =~= it@);
    }
    r
}

/// Whether two values can be ordered against each other.
pub open spec fn spec_comparable(a: ValueV, b: ValueV) -> bool {
    spec_value_cmp(a, b) is Some
}

/// Comparability is symmetric and carries over chains.
pub proof fn lemma_comparable_props(a: ValueV, b: ValueV, c: ValueV)
    ensures
        spec_comparable(a, b) ==> spec_comparable(b, a),
        spec_comparable(a, b) ==> spec_comparable(a, a),
        spec_comparable(a, b) && spec_comparable(b, c) ==> spec_comparable(a, c),
{
}

/// The values of one ORDER BY key over the live rows from index `r`
/// on; a value that cannot be ordered against its predecessor stops the
/// scan before any sorting starts.
pub open spec fn spec_key_col_from(
    cols: Seq<ColumnInfoV>,
    rowseq: Seq<Seq<ValueV>>,
    e: &Expr,
    r: int,
    acc: Seq<ValueV>,
) -> Result<Seq<ValueV>, ErrV>
    decreases rowseq.len() - r,
{
    if r < 0 || r >= rowseq.len() {
        Ok(acc)
    } else {
        match crate::expr::spec_eval(cols, rowseq[r], *e) {
            Err(er) => Err(er),
            Ok(v) => if acc.len() > 0 && !spec_comparable(acc.last(), v) {
                Err(ErrV::OtherError("invalid value type for order by"@))
            } else {
                spec_key_col_from(cols, rowseq, e, r + 1, acc.push(v))
            },
        }
    }
}

/// The value columns of every ORDER BY key, in key order.
pub open spec fn spec_key_columns<'a>(
    cols: Seq<ColumnInfoV>,
    rowseq: Seq<Seq<ValueV>>,
    keys: Seq<(&'a Expr, bool)>,
    j: int,
    acc: Seq<Seq<ValueV>>,
) -> Result<Seq<Seq<ValueV>>, ErrV>
    decreases keys.len() - j,
{
    if j < 0 || j >= keys.len() {
        Ok(acc)
    } else {
        match spec_key_col_from(cols, rowseq, keys[j].0, 0, Seq::empty()) {
            Err(er) => Err(er),
            Ok(kc) => spec_key_columns(cols, rowseq, keys, j + 1, acc.push(kc)),
        }
    }
}

/// A computed key column covers every row and is adjacently comparable.
pub proof fn lemma_key_col_props(
    cols: Seq<ColumnInfoV>,
    rowseq: Seq<Seq<ValueV>>,
    e: &Expr,
    r: int,
    acc: Seq<ValueV>,
)
    requires
        0 <= r <= rowseq.len(),
        spec_key_col_from(cols, rowseq, e, r, acc) is Ok,
        forall|p: int| 0 < p < acc.len() ==> spec_comparable(acc[p - 1], #[trigger] acc[p]),
    ensures
        ({
            let kc = spec_key_col_from(cols, rowseq, e, r, acc)->Ok_0;
            &&& kc.len() == acc.len() + rowseq.len() - r
            &&& forall|p: int| 0 < p < kc.len() ==> spec_comparable(kc[p - 1], #[trigger] kc[p])
        }),
    decreases rowseq.len() - r,
{
    if r < rowseq.len() {
        let v = crate::expr::spec_eval(cols, rowseq[r], *e)->Ok_0;
        let acc2 = acc.push(v);
        assert(forall|p: int| 0 <= p < acc.len() ==> acc2[p] == acc[p]);
        assert(acc2[acc.len() as int] == v);
        lemma_key_col_props(cols, rowseq, e, r + 1, acc2);
    }
}

/// Adjacent comparability gives comparability of every distinct pair.
pub proof fn lemma_adjacent_pairwise(kc: Seq<ValueV>, p: int, q: int)
    requires
        forall|p2: int| 0 < p2 < kc.len() ==> spec_comparable(kc[p2 - 1], #[trigger] kc[p2]),
        0 <= p < kc.len(),
        0 <= q < kc.len(),
        p != q,
    ensures
        spec_comparable(kc[p], kc[q]),
{
    if p < q {
        lemma_adjacent_pairwise_up(kc, p, q);
    } else {
        lemma_adjacent_pairwise_up(kc, q, p);
        lemma_comparable_props(kc[q], kc[p], kc[p]);
    }
}

proof fn lemma_adjacent_pairwise_up(kc: Seq<ValueV>, p: int, q: int)
    requires
        forall|p2: int| 0 < p2 < kc.len() ==> spec_comparable(kc[p2 - 1], #[trigger] kc[p2]),
        0 <= p < q < kc.len(),
    ensures
        spec_comparable(kc[p], kc[q]),
    decreases q - p,
{
    if q == p + 1 {
        assert(spec_comparable(kc[q - 1], kc[q]));
    } else {
        lemma_adjacent_pairwise_up(kc, p, q - 1);
        lemma_comparable_props(kc[p], kc[q - 1], kc[q]);
    }
}

/// The sort directions of an ORDER BY key list.
pub open spec fn spec_dirs<'a>(keys: Seq<(&'a Expr, bool)>) -> Seq<bool> {
    Seq::new(keys.len(), |j: int| keys[j].1)
}

/// The tagged rows an ORDER BY sorts: one item per live row, holding
/// its key values, its source position and the row.
pub open spec fn spec_order_items(keycols: Seq<Seq<ValueV>>, lives: Seq<Seq<ValueV>>) -> Seq<
    SortItemV,
> {
    Seq::new(
        lives.len(),
        |r: int|
            SortItemV {
                keys: Seq::new(keycols.len(), |j: int| keycols[j][r]),
                pos: r,
                row: lives[r],
            },
    )
}

/// The slots of a sorted result: densely renumbered ids over the
/// sorted rows of some ordering of the tagged input.
pub open spec fn spec_sorted_result(
    rows2: Seq<RowSlotV>,
    kcols: Seq<Seq<ValueV>>,
    lives: Seq<Seq<ValueV>>,
    dirs: Seq<bool>,
) -> bool {
    exists|sorted: Seq<SortItemV>|
        {
            &&& (#[trigger] sorted.len()) == lives.len()
            &&& sorted.to_multiset() == spec_order_items(kcols, lives).to_multiset()
            &&& spec_items_sorted(sorted, dirs)
            &&& rows2.len() == lives.len()
            &&& forall|i: int|
                0 <= i < lives.len() ==> (#[trigger] rows2[i]) == RowSlotV {
                    id: i,
                    cells: Some(sorted[i].row),
                }
        }
}

/// Swapping operands flips a string comparison.
proof fn lemma_str_cmp_flip(a: Seq<char>, b: Seq<char>)
    ensures
        (spec_str_cmp(a, b) == ValueOrd::Less) <==> (spec_str_cmp(b, a) == ValueOrd::Greater),
        (spec_str_cmp(a, b) == ValueOrd::Equal) <==> (spec_str_cmp(b, a) == ValueOrd::Equal),
    decreases a.len() + b.len(),
{
    if a.len() != 0 && b.len() != 0 && spec_cp(a[0]) == spec_cp(b[0]) {
        lemma_str_cmp_flip(a.drop_first(), b.drop_first());
    }
}

/// Swapping operands flips a value comparison.
proof fn lemma_value_cmp_flip(a: ValueV, b: ValueV)
    ensures
        (spec_value_cmp(a, b) is Some) <==> (spec_value_cmp(b, a) is Some),
        (spec_value_cmp(a, b) == Some(ValueOrd::Less)) <==> (spec_value_cmp(b, a) == Some(
            ValueOrd::Greater,
        )),
        (spec_value_cmp(a, b) == Some(ValueOrd::Equal)) <==> (spec_value_cmp(b, a) == Some(
            ValueOrd::Equal,
        )),
{
    match (a, b) {
        (ValueV::Varchar(x), ValueV::Varchar(y)) => {
            lemma_str_cmp_flip(x, y);
        },
        _ => {},
    }
}

/// Swapping operands flips a key comparison.
proof fn lemma_keys_cmp_flip(ka: Seq<ValueV>, kb: Seq<ValueV>, dirs: Seq<bool>, j: int)
    requires
        0 <= j <= dirs.len(),
    ensures
        (spec_keys_cmp(ka, kb, dirs, j) == ValueOrd::Less) <==> (spec_keys_cmp(kb, ka, dirs, j)
            == ValueOrd::Greater),
        (spec_keys_cmp(ka, kb, dirs, j) == ValueOrd::Equal) <==> (spec_keys_cmp(kb, ka, dirs, j)
            == ValueOrd::Equal),
    decreases dirs.len() - j,
{
    if j < dirs.len() {
        lemma_value_cmp_flip(ka[j], kb[j]);
        lemma_keys_cmp_flip(ka, kb, dirs, j + 1);
    }
}

/// Two distinct, comparable tagged rows with distinct positions are
/// strictly ordered one way or the other.
pub proof fn lemma_item_lt_total(a: SortItemV, b: SortItemV, dirs: Seq<bool>)
    requires
        spec_item_comp(a, b, dirs) || a == b,
        a.pos != b.pos,
    ensures
        spec_item_lt(a, b, dirs) || spec_item_lt(b, a, dirs),
{
    lemma_keys_cmp_flip(a.keys, b.keys, dirs, 0);
    if a == b {
        lemma_keys_cmp_refl(a.keys, dirs, 0);
    }
}

/// The canonical ordering of a tagged-row multiset.
pub open spec fn spec_sorted_items(itemsv: Seq<SortItemV>, dirs: Seq<bool>) -> Seq<SortItemV> {
    choose|s: Seq<SortItemV>|
        s.to_multiset() == itemsv.to_multiset() && #[trigger] spec_items_sorted(s, dirs)
}

/// A sorted arrangement of a multiset whose distinct elements are
/// always strictly ordered is unique.
pub proof fn lemma_sorted_unique(s1: Seq<SortItemV>, s2: Seq<SortItemV>, dirs: Seq<bool>)
    requires
        spec_items_sorted(s1, dirs),
        spec_items_sorted(s2, dirs),
        s1.to_multiset() == s2.to_multiset(),
        forall|x: SortItemV, y: SortItemV|
            s1.to_multiset().contains(x) && s1.to_multiset().contains(y) && x != y ==> (
            #[trigger] spec_item_lt(x, y, dirs) || #[trigger] spec_item_lt(y, x, dirs)),
    ensures
        s1 == s2,
    decreases s1.len(),
{
    broadcast use vstd::seq_lib::group_to_multiset_ensures;

    s1.to_multiset_ensures();
    s2.to_multiset_ensures();
    if s1.len() == 0 {
        assert(s1.to_multiset().len() == 0);
        assert(s2.to_multiset().len() == 0);
        assert(s2.len() == 0);
        assert(s1 =~= s2);
    } else {
        assert(s1.to_multiset().len() == s2.to_multiset().len());
        assert(s2.len() == s1.len());
        let x1 = s1[0];
        let x2 = s2[0];
        assert(s1.contains(x1));
        assert(s1.to_multiset().contains(x1));
        assert(s2.contains(x2));
        assert(s2.to_multiset().contains(x2));
        assert(s1.to_multiset().contains(x2));
        if x1 != x2 {
            // each head is minimal in its own sequence, and both
            // sequences hold both heads
            assert(s1.contains(x2));
            let i2 = choose|i: int| 0 <= i < s1.len() && s1[i] == x2;
            assert(i2 != 0);
            assert(!spec_item_lt(s1[i2], s1[0], dirs));
            assert(s2.contains(x1));
            let i1 = choose|i: int| 0 <= i < s2.len() && s2[i] == x1;
            assert(i1 != 0);
            assert(!spec_item_lt(s2[i1], s2[0], dirs));
            assert(spec_item_lt(x1, x2, dirs) || spec_item_lt(x2, x1, dirs));
            assert(false);
        }
        let r1 = s1.remove(0);
        let r2 = s2.remove(0);
        assert(r1.to_multiset() =~= s1.to_multiset().remove(x1));
        assert(r2.to_multiset() =~= s2.to_multiset().remove(x2));
        assert(r1.to_multiset() == r2.to_multiset());
        assert(spec_items_sorted(r1, dirs)) by {
            assert forall|p: int, q: int| 0 <= p < q < r1.len() implies !spec_item_lt(
                r1[q],
                r1[p],
                dirs,
            ) by {
                assert(r1[p] == s1[p + 1] && r1[q] == s1[q + 1]);
            }
        }
        assert(spec_items_sorted(r2, dirs)) by {
            assert forall|p: int, q: int| 0 <= p < q < r2.len() implies !spec_item_lt(
                r2[q],
                r2[p],
                dirs,
            ) by {
                assert(r2[p] == s2[p + 1] && r2[q] == s2[q + 1]);
            }
        }
        assert forall|x: SortItemV, y: SortItemV|
            r1.to_multiset().contains(x) && r1.to_multiset().contains(y) && x != y implies (
        #[trigger] spec_item_lt(x, y, dirs) || #[trigger] spec_item_lt(y, x, dirs)) by {
            assert(s1.to_multiset().contains(x));
            assert(s1.to_multiset().contains(y));
        }
        lemma_sorted_unique(r1, r2, dirs);
        assert(s1 =~= s2) by {
            assert(forall|i: int| 1 <= i < s1.len() ==> s1[i] == r1[i - 1] && s2[i] == r2[i - 1]);
        }
    }
}

} // verus!
