use vstd::prelude::*;

use crate::abi::{AbiType, Sign};
use crate::acir::{
    max_num_bits, acir_bool_gate, acir_quotient_split, acir_range_opcode, acir_split_link, field_bits,
};
use crate::name_map::{
    assoc_map, keys_sorted, lemma_key_index, lemma_representable_insert, lemma_sorted_entries_of,
    pair_view, representable, sorted_entries, NameMap,
};
use crate::names::{field_path, make_field_path};
use crate::witness::Witness;

verus! {

/// Where witness allocation stands: the highest witness index in use, the witnesses
/// recorded so far by name, the opcodes emitted so far, and whether a range constraint was
/// refused (allocation stops there).
pub struct Layout {
    pub next: int,
    pub map: Map<Seq<char>, Seq<Witness>>,
    pub ops: Seq<acvm::acir::circuit::Opcode>,
    pub failed: bool,
}

/// A range as wide as the field is refused: every witness already holds such a value, so the
/// constraint would constrain nothing.
pub open spec fn range_refused(bits: u32) -> bool {
    bits == field_bits()
}

/// An odd width other than 1 is split into an even-width remainder and a top bit.
pub open spec fn range_split(bits: u32) -> bool {
    bits != 1 && !range_refused(bits) && bits % 2 == 1
}

/// The witnesses that a range constraint of `bits` bits adds: the remainder and the top bit
/// of a split width.
pub open spec fn range_extra(bits: u32) -> nat {
    if range_split(bits) {
        2
    } else {
        0
    }
}

/// The opcodes of a range constraint of `bits` bits on witness `w`, where `next` is the
/// highest witness index in use before it:
/// - 1 bit: the boolean gate `w * (w - 1) = 0`;
/// - as wide as the field: none (the constraint is refused);
/// - another odd width: the split of `w` by `2^(bits - 1)` into the remainder `next + 1`
///   and the top bit `next + 2`, a range constraint of `bits - 1` bits on the remainder
///   (none where that width is refused), the boolean gate on the top bit, and the
///   constraint that puts `w` back together;
/// - an even width: acvm's `RANGE` opcode.
pub open spec fn range_ops(w: u32, bits: u32, next: int) -> Seq<acvm::acir::circuit::Opcode> {
    if bits == 1 {
        seq![acir_bool_gate(w)]
    } else if range_refused(bits) {
        Seq::empty()
    } else if bits % 2 == 1 {
        let r = (next + 1) as u32;
        let b = (next + 2) as u32;
        let low = (bits - 1) as u32;
        seq![acir_quotient_split(w, r, b, low)] + (if range_refused(low) {
            Seq::empty()
        } else {
            seq![acir_range_opcode(r, low)]
        }) + seq![acir_bool_gate(b), acir_split_link(w, r, b, low)]
    } else {
        seq![acir_range_opcode(w, bits)]
    }
}

/// A range constraint of `bits` bits on witness `w`.
pub open spec fn constrain(st: Layout, w: u32, bits: u32) -> Layout {
    if range_refused(bits) {
        Layout { failed: true, ..st }
    } else {
        Layout { next: st.next + range_extra(bits), ops: st.ops + range_ops(w, bits, st.next), ..st }
    }
}

/// The width of the range constraint on each element of an array of `elem`: that of an
/// integer element type; elements of other types are not constrained.
pub open spec fn element_bits(elem: AbiType) -> Option<u32> {
    match elem {
        AbiType::Integer { width, .. } => Some(width),
        _ => None,
    }
}

/// Whether the range constraint on the elements of an array of `elem` is refused.
pub open spec fn element_refused(elem: AbiType) -> bool {
    match element_bits(elem) {
        Some(bits) => range_refused(bits),
        None => false,
    }
}

/// The witnesses that one element of an array of `elem` takes.
pub open spec fn element_cost(elem: AbiType) -> nat {
    match element_bits(elem) {
        Some(bits) => 1 + range_extra(bits),
        None => 1,
    }
}

/// The first `k` elements of an array of `elem`: each a new witness, range-constrained right
/// after it is created when the elements are integers, until a constraint is refused. Gives
/// the layout and the witnesses of the elements.
pub open spec fn fill(st: Layout, k: nat, elem: AbiType) -> (Layout, Seq<Witness>)
    decreases k,
{
    if k == 0 {
        (st, Seq::empty())
    } else {
        let (s1, ws) = fill(st, (k - 1) as nat, elem);
        if s1.failed {
            (s1, ws)
        } else {
            let w = Witness((s1.next + 1) as u32);
            let s2 = Layout { next: s1.next + 1, ..s1 };
            let s3 = match element_bits(elem) {
                Some(bits) => constrain(s2, w.0, bits),
                None => s2,
            };
            (s3, ws.push(w))
        }
    }
}

/// An array of `length` elements of type `elem` recorded under `name`: recorded only where no
/// constraint was refused.
pub open spec fn place_array(name: Seq<char>, length: u64, elem: AbiType, st: Layout) -> Layout {
    let (s1, ws) = fill(st, length as nat, elem);
    if s1.failed {
        s1
    } else {
        Layout { map: s1.map.insert(name, ws), ..s1 }
    }
}

/// The type of the characters of a string: unsigned 8-bit integers.
pub open spec fn string_element() -> AbiType {
    AbiType::Integer { sign: Sign::Unsigned, width: 8 }
}

/// The fields of a struct keyed by their full names `{prefix}.{field}`, with the position of
/// the field that each name stands for (the last one where a name occurs twice).
pub open spec fn field_positions(prefix: Seq<char>, fs: Seq<(String, AbiType)>) -> Map<
    Seq<char>,
    usize,
>
    decreases fs.len(),
{
    if fs.len() == 0 {
        Map::empty()
    } else {
        field_positions(prefix, fs.drop_last()).insert(
            field_path(prefix, fs.last().0@),
            (fs.len() - 1) as usize,
        )
    }
}

/// The order in which the fields of a struct get their witnesses: increasing order of full name.
pub open spec fn field_order(prefix: Seq<char>, fs: Seq<(String, AbiType)>) -> Seq<(Seq<char>, usize)> {
    sorted_entries(field_positions(prefix, fs))
}

/// Allocation of the witnesses of a value of type `t` recorded under `name`. A single
/// witness is recorded before its range constraint.
pub open spec fn place(name: Seq<char>, t: AbiType, st: Layout) -> Layout
    decreases t, 0int,
{
    if st.failed {
        st
    } else {
        match t {
            AbiType::Field => {
                let w = Witness((st.next + 1) as u32);
                Layout { next: st.next + 1, map: st.map.insert(name, seq![w]), ..st }
            },
            AbiType::Integer { width, .. } => {
                let w = Witness((st.next + 1) as u32);
                constrain(
                    Layout { next: st.next + 1, map: st.map.insert(name, seq![w]), ..st },
                    w.0,
                    width,
                )
            },
            AbiType::Boolean => {
                let w = Witness((st.next + 1) as u32);
                constrain(
                    Layout { next: st.next + 1, map: st.map.insert(name, seq![w]), ..st },
                    w.0,
                    1,
                )
            },
            AbiType::Array { length, typ } => place_array(name, length, *typ, st),
            AbiType::Struct { fields } => place_fields(fields@, field_order(name, fields@), 0, st),
            AbiType::String { length } => place_array(name, length, string_element(), st),
        }
    }
}

/// Allocation of the witnesses of the fields of a struct, from the `i`-th name of `order` on.
pub open spec fn place_fields(
    fs: Seq<(String, AbiType)>,
    order: Seq<(Seq<char>, usize)>,
    i: int,
    st: Layout,
) -> Layout
    decreases fs, order.len() - i,
{
    if i < 0 || i >= order.len() {
        st
    } else {
        let idx = order[i].1 as int;
        let st2 = if idx < fs.len() {
            place(order[i].0, fs[idx].1, st)
        } else {
            st
        };
        place_fields(fs, order, i + 1, st2)
    }
}

/// The number of witnesses that a value of type `t` recorded under `name` takes.
pub open spec fn witness_count(name: Seq<char>, t: AbiType) -> nat
    decreases t, 0int,
{
    match t {
        AbiType::Field | AbiType::Boolean => 1,
        AbiType::Integer { width, .. } => 1 + range_extra(width),
        AbiType::Array { length, typ } => length as nat * element_cost(*typ),
        AbiType::Struct { fields } => fields_count(fields@, field_order(name, fields@), 0),
        AbiType::String { length } => length as nat,
    }
}

pub open spec fn fields_count(fs: Seq<(String, AbiType)>, order: Seq<(Seq<char>, usize)>, i: int) -> nat
    decreases fs, order.len() - i,
{
    if i < 0 || i >= order.len() {
        0
    } else {
        let idx = order[i].1 as int;
        let here = if idx < fs.len() {
            witness_count(order[i].0, fs[idx].1)
        } else {
            0
        };
        here + fields_count(fs, order, i + 1)
    }
}

/// Whether taking in a value of type `t` recorded under `name` meets a refused range
/// constraint: an integer as wide as the field, alone, as a struct field or as the element
/// of a non-empty array.
pub open spec fn refused(name: Seq<char>, t: AbiType) -> bool
    decreases t, 0int,
{
    match t {
        AbiType::Integer { width, .. } => range_refused(width),
        AbiType::Array { length, typ } => length > 0 && element_refused(*typ),
        AbiType::Struct { fields } => fields_refused(fields@, field_order(name, fields@), 0),
        _ => false,
    }
}

pub open spec fn fields_refused(fs: Seq<(String, AbiType)>, order: Seq<(Seq<char>, usize)>, i: int) -> bool
    decreases fs, order.len() - i,
{
    if i < 0 || i >= order.len() {
        false
    } else {
        let idx = order[i].1 as int;
        (idx < fs.len() && refused(order[i].0, fs[idx].1)) || fields_refused(fs, order, i + 1)
    }
}

/// A range constraint adds `range_extra` witnesses, unless it is refused.
pub proof fn lemma_constrain(st: Layout, w: u32, bits: u32)
    ensures
        constrain(st, w, bits).map == st.map,
        constrain(st, w, bits).failed == (st.failed || range_refused(bits)),
        range_refused(bits) ==> constrain(st, w, bits).next == st.next,
        !range_refused(bits) ==> constrain(st, w, bits).next == st.next + range_extra(bits),
{
}

/// Filling an array: the elements get increasing witnesses above the highest index in use
/// before; it stops at the first element whose constraint is refused, and otherwise takes
/// `element_cost` witnesses per element.
pub proof fn lemma_fill(st: Layout, k: nat, elem: AbiType)
    requires
        !st.failed,
    ensures
        fill(st, k, elem).0.map == st.map,
        st.next <= fill(st, k, elem).0.next <= st.next + k * element_cost(elem),
        fill(st, k, elem).0.failed == (k > 0 && element_refused(elem)),
        !fill(st, k, elem).0.failed ==> fill(st, k, elem).0.next == st.next + k * element_cost(
            elem,
        ) && fill(st, k, elem).1.len() == k,
        0 <= st.next && fill(st, k, elem).0.next <= u32::MAX ==> (forall|i: int|
            0 <= i < fill(st, k, elem).1.len() ==> st.next < (#[trigger] fill(
                st,
                k,
                elem,
            ).1[i]).0 <= fill(st, k, elem).0.next),
        0 <= st.next && fill(st, k, elem).0.next <= u32::MAX ==> (forall|i: int, j: int|
            0 <= i < j < fill(st, k, elem).1.len() ==> (#[trigger] fill(st, k, elem).1[i]).0
                < (#[trigger] fill(st, k, elem).1[j]).0),
    decreases k,
{
    if k > 0 {
        let k1 = (k - 1) as nat;
        lemma_fill(st, k1, elem);
        let s1 = fill(st, k1, elem).0;
        let ws1 = fill(st, k1, elem).1;
        let c = element_cost(elem);
        assert(k1 * c + c == k * c) by (nonlinear_arith)
            requires
                k1 + 1 == k,
        ;
        assert(k1 * c <= k * c) by (nonlinear_arith)
            requires
                k1 + 1 == k,
        ;
        if !s1.failed {
            let w = Witness((s1.next + 1) as u32);
            let s2 = Layout { next: s1.next + 1, ..s1 };
            match element_bits(elem) {
                Some(bits) => lemma_constrain(s2, w.0, bits),
                None => {},
            }
            let r = fill(st, k, elem);
            assert(r.1 == ws1.push(w));
            if 0 <= st.next && r.0.next <= u32::MAX {
                assert forall|i: int| 0 <= i < r.1.len() implies st.next < (#[trigger] r.1[i]).0
                    <= r.0.next by {
                    if i < ws1.len() {
                        assert(r.1[i] == ws1[i]);
                    }
                }
                assert forall|i: int, j: int| 0 <= i < j < r.1.len() implies (#[trigger] r.1[i]).0
                    < (#[trigger] r.1[j]).0 by {
                    assert(r.1[i] == ws1[i]);
                    if j < ws1.len() {
                        assert(r.1[j] == ws1[j]);
                    }
                }
            }
        }
    }
}

/// Filling an array does not depend on the witnesses recorded so far, nor change them.
pub proof fn lemma_fill_map(st: Layout, map: Map<Seq<char>, Seq<Witness>>, k: nat, elem: AbiType)
    ensures
        fill(Layout { map, ..st }, k, elem).0 == (Layout { map, ..fill(st, k, elem).0 }),
        fill(Layout { map, ..st }, k, elem).1 == fill(st, k, elem).1,
    decreases k,
{
    if k > 0 {
        lemma_fill_map(st, map, (k - 1) as nat, elem);
    }
}

/// A longer fill goes on from a shorter one: its highest index is not lower, and once a
/// constraint is refused nothing more happens.
pub proof fn lemma_fill_prefix(st: Layout, i: nat, k: nat, elem: AbiType)
    requires
        !st.failed,
        i <= k,
    ensures
        fill(st, i, elem).0.next <= fill(st, k, elem).0.next,
        fill(st, i, elem).0.failed ==> fill(st, k, elem) == fill(st, i, elem),
    decreases k - i,
{
    if i < k {
        let k1 = (k - 1) as nat;
        lemma_fill_prefix(st, i, k1, elem);
        let (s1, ws) = fill(st, k1, elem);
        if !s1.failed {
            let w = Witness((s1.next + 1) as u32);
            let s2 = Layout { next: s1.next + 1, ..s1 };
            match element_bits(elem) {
                Some(bits) => lemma_constrain(s2, w.0, bits),
                None => {},
            }
        }
    }
}

/// Allocation: a refused range constraint stops it; otherwise it takes exactly `witness_count`
/// witnesses. It never takes more, and an allocation that has stopped does nothing.
pub proof fn lemma_place_next(name: Seq<char>, t: AbiType, st: Layout)
    ensures
        st.failed ==> place(name, t, st) == st,
        !st.failed ==> st.next <= place(name, t, st).next <= st.next + witness_count(name, t),
        !st.failed ==> place(name, t, st).failed == refused(name, t),
        !st.failed && !refused(name, t) ==> place(name, t, st).next == st.next + witness_count(
            name,
            t,
        ),
    decreases t, 0int,
{
    if !st.failed {
        match t {
            AbiType::Integer { width, .. } => {
                let w = Witness((st.next + 1) as u32);
                lemma_constrain(
                    Layout { next: st.next + 1, map: st.map.insert(name, seq![w]), ..st },
                    w.0,
                    width,
                );
            },
            AbiType::Boolean => {
                let w = Witness((st.next + 1) as u32);
                lemma_constrain(
                    Layout { next: st.next + 1, map: st.map.insert(name, seq![w]), ..st },
                    w.0,
                    1,
                );
            },
            AbiType::Array { length, typ } => {
                lemma_fill(st, length as nat, *typ);
            },
            AbiType::String { length } => {
                lemma_fill(st, length as nat, string_element());
                assert(element_cost(string_element()) == 1);
                assert(length as nat * 1 == length as nat);
            },
            AbiType::Struct { fields } => {
                lemma_place_fields_next(fields@, field_order(name, fields@), 0, st);
            },
            _ => {},
        }
    }
}

pub proof fn lemma_place_fields_next(
    fs: Seq<(String, AbiType)>,
    order: Seq<(Seq<char>, usize)>,
    i: int,
    st: Layout,
)
    ensures
        st.failed ==> place_fields(fs, order, i, st) == st,
        !st.failed ==> st.next <= place_fields(fs, order, i, st).next <= st.next + fields_count(
            fs,
            order,
            i,
        ),
        !st.failed ==> place_fields(fs, order, i, st).failed == fields_refused(fs, order, i),
        !st.failed && !fields_refused(fs, order, i) ==> place_fields(fs, order, i, st).next
            == st.next + fields_count(fs, order, i),
    decreases fs, order.len() - i,
{
    if 0 <= i < order.len() {
        let idx = order[i].1 as int;
        let st2 = if idx < fs.len() {
            lemma_place_next(order[i].0, fs[idx].1, st);
            place(order[i].0, fs[idx].1, st)
        } else {
            st
        };
        lemma_place_fields_next(fs, order, i + 1, st2);
    }
}

/// Every witness recorded in `map` has an index in `lo + 1 ..= hi`.
pub open spec fn values_within(map: Map<Seq<char>, Seq<Witness>>, lo: int, hi: int) -> bool {
    forall|k: Seq<char>, i: int|
        map.dom().contains(k) && 0 <= i < map[k].len() ==> lo < (#[trigger] map[k][i]).0 <= hi
}

/// Recording witnesses above `hi` and not above `hi2` keeps every recorded witness within
/// `lo + 1 ..= hi2`.
proof fn lemma_within_insert(
    map: Map<Seq<char>, Seq<Witness>>,
    lo: int,
    hi: int,
    hi2: int,
    k: Seq<char>,
    ws: Seq<Witness>,
)
    requires
        values_within(map, lo, hi),
        lo <= hi <= hi2,
        forall|i: int| 0 <= i < ws.len() ==> hi < (#[trigger] ws[i]).0 <= hi2,
    ensures
        values_within(map.insert(k, ws), lo, hi2),
{
    let m2 = map.insert(k, ws);
    assert forall|q: Seq<char>, i: int|
        m2.dom().contains(q) && 0 <= i < m2[q].len() implies lo < (#[trigger] m2[q][i]).0 <= hi2 by {
        if q != k {
            assert(m2[q][i] == map[q][i]);
        }
    }
}

/// Allocation records only witnesses it creates: all above the highest index in use before.
pub proof fn lemma_place_within(name: Seq<char>, t: AbiType, st: Layout, lo: int)
    requires
        0 <= lo <= st.next,
        values_within(st.map, lo, st.next),
        place(name, t, st).next <= u32::MAX,
    ensures
        values_within(place(name, t, st).map, lo, place(name, t, st).next),
    decreases t, 0int,
{
    lemma_place_next(name, t, st);
    let r = place(name, t, st);
    if !st.failed {
        match t {
            AbiType::Struct { fields } => {
                lemma_place_fields_within(fields@, field_order(name, fields@), 0, st, lo);
            },
            AbiType::Array { length, typ } => {
                lemma_fill(st, length as nat, *typ);
                let (s1, ws) = fill(st, length as nat, *typ);
                if !s1.failed {
                    lemma_within_insert(st.map, lo, st.next, r.next, name, ws);
                }
            },
            AbiType::String { length } => {
                lemma_fill(st, length as nat, string_element());
                let (s1, ws) = fill(st, length as nat, string_element());
                if !s1.failed {
                    lemma_within_insert(st.map, lo, st.next, r.next, name, ws);
                }
            },
            _ => {
                let w = Witness((st.next + 1) as u32);
                lemma_within_insert(st.map, lo, st.next, r.next, name, seq![w]);
            },
        }
    }
}

pub proof fn lemma_place_fields_within(
    fs: Seq<(String, AbiType)>,
    order: Seq<(Seq<char>, usize)>,
    i: int,
    st: Layout,
    lo: int,
)
    requires
        0 <= lo <= st.next,
        values_within(st.map, lo, st.next),
        place_fields(fs, order, i, st).next <= u32::MAX,
    ensures
        values_within(place_fields(fs, order, i, st).map, lo, place_fields(fs, order, i, st).next),
    decreases fs, order.len() - i,
{
    if 0 <= i < order.len() {
        let idx = order[i].1 as int;
        let st2 = if idx < fs.len() {
            place(order[i].0, fs[idx].1, st)
        } else {
            st
        };
        lemma_place_fields_next(fs, order, i + 1, st2);
        if idx < fs.len() {
            lemma_place_next(order[i].0, fs[idx].1, st);
            lemma_place_within(order[i].0, fs[idx].1, st, lo);
        }
        lemma_place_fields_within(fs, order, i + 1, st2, lo);
    }
}

/// Allocation keeps the recorded witnesses a map whose entries can be listed in name order.
pub proof fn lemma_place_representable(name: Seq<char>, t: AbiType, st: Layout)
    requires
        representable(st.map),
    ensures
        representable(place(name, t, st).map),
    decreases t, 0int,
{
    lemma_place_next(name, t, st);
    let r = place(name, t, st);
    if !st.failed {
        match t {
            AbiType::Struct { fields } => {
                lemma_place_fields_representable(fields@, field_order(name, fields@), 0, st);
            },
            AbiType::Array { length, typ } => {
                lemma_fill(st, length as nat, *typ);
                if !fill(st, length as nat, *typ).0.failed {
                    lemma_representable_insert(st.map, name, r.map[name]);
                    assert(r.map == st.map.insert(name, r.map[name]));
                }
            },
            AbiType::String { length } => {
                lemma_fill(st, length as nat, string_element());
                if !fill(st, length as nat, string_element()).0.failed {
                    lemma_representable_insert(st.map, name, r.map[name]);
                    assert(r.map == st.map.insert(name, r.map[name]));
                }
            },
            _ => {
                lemma_representable_insert(st.map, name, r.map[name]);
                assert(r.map == st.map.insert(name, r.map[name]));
            },
        }
    }
}

pub proof fn lemma_place_fields_representable(
    fs: Seq<(String, AbiType)>,
    order: Seq<(Seq<char>, usize)>,
    i: int,
    st: Layout,
)
    requires
        representable(st.map),
    ensures
        representable(place_fields(fs, order, i, st).map),
    decreases fs, order.len() - i,
{
    if 0 <= i < order.len() {
        let idx = order[i].1 as int;
        let st2 = if idx < fs.len() {
            lemma_place_representable(order[i].0, fs[idx].1, st);
            place(order[i].0, fs[idx].1, st)
        } else {
            st
        };
        lemma_place_fields_representable(fs, order, i + 1, st2);
    }
}

/// No witness is recorded twice in `map`: not under two names, not twice under one name.
pub open spec fn distinct_values(map: Map<Seq<char>, Seq<Witness>>) -> bool {
    forall|k1: Seq<char>, k2: Seq<char>, i: int, j: int|
        map.dom().contains(k1) && map.dom().contains(k2) && 0 <= i < map[k1].len() && 0 <= j
            < map[k2].len() && (k1 != k2 || i != j) ==> #[trigger] map[k1][i] != #[trigger] map[k2][j]
}

/// Recording new witnesses, each once, above all those recorded keeps every witness recorded once.
pub proof fn lemma_insert_fresh(
    map: Map<Seq<char>, Seq<Witness>>,
    lo: int,
    hi: int,
    k: Seq<char>,
    ws: Seq<Witness>,
    hi2: int,
)
    requires
        values_within(map, lo, hi),
        distinct_values(map),
        ws.no_duplicates(),
        forall|i: int| 0 <= i < ws.len() ==> hi < (#[trigger] ws[i]).0 <= hi2,
        lo <= hi <= hi2,
    ensures
        values_within(map.insert(k, ws), lo, hi2),
        distinct_values(map.insert(k, ws)),
{
    let m2 = map.insert(k, ws);
    assert forall|q: Seq<char>, i: int|
        m2.dom().contains(q) && 0 <= i < m2[q].len() implies lo < (#[trigger] m2[q][i]).0 <= hi2 by {
        if q != k {
            assert(m2[q][i] == map[q][i]);
        }
    }
    assert forall|k1: Seq<char>, k2: Seq<char>, i: int, j: int|
        m2.dom().contains(k1) && m2.dom().contains(k2) && 0 <= i < m2[k1].len() && 0 <= j
            < m2[k2].len() && (k1 != k2 || i != j) implies #[trigger] m2[k1][i] != #[trigger] m2[k2][j] by {
        if k1 == k && k2 == k {
            assert(ws[i] != ws[j]);
        } else if k1 == k {
            assert(map[k2][j].0 <= hi);
        } else if k2 == k {
            assert(map[k1][i].0 <= hi);
        } else {
            assert(map[k1][i] != map[k2][j]);
        }
    }
}

/// Allocation records every witness once.
pub proof fn lemma_place_distinct(name: Seq<char>, t: AbiType, st: Layout, lo: int)
    requires
        0 <= lo <= st.next,
        values_within(st.map, lo, st.next),
        distinct_values(st.map),
        place(name, t, st).next <= u32::MAX,
    ensures
        distinct_values(place(name, t, st).map),
    decreases t, 0int,
{
    lemma_place_next(name, t, st);
    let r = place(name, t, st);
    if !st.failed {
        match t {
            AbiType::Struct { fields } => {
                lemma_place_fields_distinct(fields@, field_order(name, fields@), 0, st, lo);
            },
            AbiType::Array { length, typ } => {
                lemma_fill(st, length as nat, *typ);
                let (s1, ws) = fill(st, length as nat, *typ);
                if !s1.failed {
                    lemma_increasing_distinct(ws);
                    lemma_insert_fresh(st.map, lo, st.next, name, ws, r.next);
                }
            },
            AbiType::String { length } => {
                lemma_fill(st, length as nat, string_element());
                let (s1, ws) = fill(st, length as nat, string_element());
                if !s1.failed {
                    lemma_increasing_distinct(ws);
                    lemma_insert_fresh(st.map, lo, st.next, name, ws, r.next);
                }
            },
            _ => {
                let ws = seq![Witness((st.next + 1) as u32)];
                lemma_insert_fresh(st.map, lo, st.next, name, ws, r.next);
            },
        }
    }
}

/// Witnesses with increasing indices are all different.
proof fn lemma_increasing_distinct(ws: Seq<Witness>)
    requires
        forall|i: int, j: int| 0 <= i < j < ws.len() ==> (#[trigger] ws[i]).0 < (#[trigger] ws[j]).0,
    ensures
        ws.no_duplicates(),
{
    assert forall|i: int, j: int| 0 <= i < ws.len() && 0 <= j < ws.len() && i != j implies ws[i]
        != ws[j] by {
        if i < j {
            assert(ws[i].0 < ws[j].0);
        } else {
            assert(ws[j].0 < ws[i].0);
        }
    }
}

pub proof fn lemma_place_fields_distinct(
    fs: Seq<(String, AbiType)>,
    order: Seq<(Seq<char>, usize)>,
    i: int,
    st: Layout,
    lo: int,
)
    requires
        0 <= lo <= st.next,
        values_within(st.map, lo, st.next),
        distinct_values(st.map),
        place_fields(fs, order, i, st).next <= u32::MAX,
    ensures
        distinct_values(place_fields(fs, order, i, st).map),
    decreases fs, order.len() - i,
{
    if 0 <= i < order.len() {
        let idx = order[i].1 as int;
        let st2 = if idx < fs.len() {
            place(order[i].0, fs[idx].1, st)
        } else {
            st
        };
        lemma_place_fields_next(fs, order, i + 1, st2);
        if idx < fs.len() {
            lemma_place_next(order[i].0, fs[idx].1, st);
            lemma_place_within(order[i].0, fs[idx].1, st, lo);
            lemma_place_distinct(order[i].0, fs[idx].1, st, lo);
        }
        lemma_place_fields_distinct(fs, order, i + 1, st2, lo);
    }
}

/// A name recorded for a field stands for one of the struct's fields.
pub proof fn lemma_field_positions_bound(prefix: Seq<char>, fs: Seq<(String, AbiType)>, k: Seq<char>)
    requires
        field_positions(prefix, fs).dom().contains(k),
    ensures
        field_positions(prefix, fs)[k] < fs.len(),
    decreases fs.len(),
{
    if fs.len() > 0 {
        if k != field_path(prefix, fs.last().0@) {
            lemma_field_positions_bound(prefix, fs.drop_last(), k);
        }
    }
}

/// The fields of a struct recorded under `prefix`, keyed by their full names, each with the
/// position of the field that it stands for; listed in increasing order of name.
pub(crate) fn field_order_map(prefix: &String, fields: &Vec<(String, AbiType)>) -> (order: NameMap<
    usize,
>)
    ensures
        order.well_formed(),
        order@ == field_positions(prefix@, fields@),
        order.pairs() == field_order(prefix@, fields@),
{
    let ghost fs = fields@;
    let mut order: NameMap<usize> = NameMap::new();
    let mut i: usize = 0;
    assert(fs.take(0) =~= Seq::<(String, AbiType)>::empty());
    while i < fields.len()
        invariant
            fs == fields@,
            i <= fs.len(),
            order.well_formed(),
            order@ == field_positions(prefix@, fs.take(i as int)),
        decreases fs.len() - i,
    {
        let full_name = make_field_path(prefix, &fields[i].0);
        order.insert(full_name, i);
        assert(fs.take(i + 1).drop_last() =~= fs.take(i as int));
        i = i + 1;
    }
    assert(fs.take(fs.len() as int) =~= fs);
    proof {
        lemma_sorted_entries_of(order.pairs());
    }
    order
}

/// The number of witnesses that a value of type `typ` recorded under `name` takes, where
/// it is at most `limit`; `limit + 1` where it is more.
pub fn witness_count_upto(name: &String, typ: &AbiType, limit: u64) -> (r: u64)
    requires
        limit < u64::MAX,
    ensures
        witness_count(name@, *typ) <= limit ==> r == witness_count(name@, *typ),
        witness_count(name@, *typ) > limit ==> r == limit + 1,
    decreases typ, 0int,
{
    match typ {
        AbiType::Field | AbiType::Boolean => 1,
        AbiType::Integer { width, .. } => {
            let c = 1 + range_extra_of(*width);
            if c > limit {
                limit + 1
            } else {
                c
            }
        },
        AbiType::Array { length, typ } => times_upto(*length, element_cost_of(typ), limit),
        AbiType::String { length } => times_upto(*length, 1, limit),
        AbiType::Struct { fields } => fields_count_upto(name, fields, limit),
    }
}

/// The witnesses that a range constraint of `bits` bits adds.
fn range_extra_of(bits: u32) -> (r: u64)
    ensures
        r == range_extra(bits),
{
    let max_bits = max_num_bits();
    if bits != 1 && bits != max_bits && bits % 2 == 1 {
        2
    } else {
        0
    }
}

/// The witnesses that one element of an array of `elem` takes.
fn element_cost_of(elem: &AbiType) -> (r: u64)
    ensures
        r == element_cost(*elem),
        1 <= r <= 3,
{
    match elem {
        AbiType::Integer { width, .. } => 1 + range_extra_of(*width),
        _ => 1,
    }
}

/// `length * per` where it is at most `limit`; `limit + 1` where it is more.
fn times_upto(length: u64, per: u64, limit: u64) -> (r: u64)
    requires
        1 <= per,
        limit < u64::MAX,
    ensures
        length * per <= limit ==> r == length * per,
        length * per > limit ==> r == limit + 1,
{
    let q = limit / per;
    proof {
        vstd::arithmetic::div_mod::lemma_fundamental_div_mod(limit as int, per as int);
        let qi = q as int;
        if length > q {
            assert(length * per >= (qi + 1) * per) by (nonlinear_arith)
                requires
                    length >= qi + 1,
                    per >= 1,
            ;
            assert((qi + 1) * per == qi * per + per) by (nonlinear_arith);
            assert(qi * per == per * qi) by (nonlinear_arith);
        } else {
            assert(length * per <= qi * per) by (nonlinear_arith)
                requires
                    length <= qi,
                    per >= 1,
            ;
            assert(qi * per == per * qi) by (nonlinear_arith);
        }
    }
    if length > q {
        limit + 1
    } else {
        length * per
    }
}

/// Whether taking in a value of type `typ` recorded under `name` meets a refused range
/// constraint.
pub fn type_refused(name: &String, typ: &AbiType) -> (r: bool)
    ensures
        r == refused(name@, *typ),
    decreases typ, 0int,
{
    let max_bits = max_num_bits();
    match typ {
        AbiType::Integer { width, .. } => *width == max_bits,
        AbiType::Array { length, typ } => {
            let elem_refused = match &**typ {
                AbiType::Integer { width, .. } => *width == max_bits,
                _ => false,
            };
            *length > 0 && elem_refused
        },
        AbiType::Struct { fields } => fields_refused_in(name, fields),
        _ => false,
    }
}

/// Whether taking in the fields of a struct recorded under `prefix` meets a refused range
/// constraint.
fn fields_refused_in(prefix: &String, fields: &Vec<(String, AbiType)>) -> (r: bool)
    ensures
        r == fields_refused(fields@, field_order(prefix@, fields@), 0),
    decreases fields@, 1int,
{
    let ghost fs = fields@;
    let ghost ord = field_order(prefix@, fs);
    let order = field_order_map(prefix, fields);
    let entries = order.as_vec();
    let mut k: usize = 0;
    while k < entries.len()
        invariant
            fs == fields@,
            ord == field_order(prefix@, fs),
            entries@.map_values(|e: (String, usize)| pair_view(e)) == ord,
            keys_sorted(ord),
            assoc_map(ord) == field_positions(prefix@, fs),
            k <= entries@.len(),
            fields_refused(fs, ord, 0) == fields_refused(fs, ord, k as int),
        decreases entries@.len() - k,
    {
        let idx = entries[k].1;
        proof {
            assert(ord[k as int] == pair_view(entries@[k as int]));
            lemma_key_index(ord, k as int);
            lemma_field_positions_bound(prefix@, fs, ord[k as int].0);
        }
        if type_refused(&entries[k].0, &fields[idx].1) {
            return true;
        }
        k = k + 1;
    }
    false
}

/// The number of witnesses that the fields of a struct recorded under `prefix` take, where
/// it is at most `limit`; `limit + 1` where it is more.
fn fields_count_upto(prefix: &String, fields: &Vec<(String, AbiType)>, limit: u64) -> (r: u64)
    requires
        limit < u64::MAX,
    ensures
        fields_count(fields@, field_order(prefix@, fields@), 0) <= limit ==> r == fields_count(
            fields@,
            field_order(prefix@, fields@),
            0,
        ),
        fields_count(fields@, field_order(prefix@, fields@), 0) > limit ==> r == limit + 1,
    decreases fields@, 1int,
{
    let ghost fs = fields@;
    let ghost ord = field_order(prefix@, fs);
    let order = field_order_map(prefix, fields);
    let entries = order.as_vec();
    let mut acc: u64 = 0;
    let mut k: usize = 0;
    while k < entries.len()
        invariant
            fs == fields@,
            ord == field_order(prefix@, fs),
            entries@.map_values(|e: (String, usize)| pair_view(e)) == ord,
            keys_sorted(ord),
            assoc_map(ord) == field_positions(prefix@, fs),
            k <= entries@.len(),
            acc <= limit < u64::MAX,
            fields_count(fs, ord, 0) == acc + fields_count(fs, ord, k as int),
        decreases entries@.len() - k,
    {
        let idx = entries[k].1;
        proof {
            assert(ord[k as int] == pair_view(entries@[k as int]));
            lemma_key_index(ord, k as int);
            lemma_field_positions_bound(prefix@, fs, ord[k as int].0);
        }
        let c = witness_count_upto(&entries[k].0, &fields[idx].1, limit - acc);
        if c > limit - acc {
            return limit + 1;
        }
        acc = acc + c;
        k = k + 1;
    }
    acc
}

} // verus!
