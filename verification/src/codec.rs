//! The persistence codec: a deterministic, self-delimiting binary
//! encoding of the catalog. Every number is a little-endian 64-bit
//! unit; decoding accepts exactly the encodings this module produces,
//! so the two directions are inverse to each other.

use crate::column_info::ColumnInfoV;
use crate::column_info::ColumnTypeV;
use crate::database::DbEntryV;
use crate::table::RowSlot;
use crate::table::RowSlotV;
use crate::table::spec_live_col_has;
use crate::table::spec_no_dup;
use crate::table::spec_set_has;
use crate::table::spec_set_view;
use crate::table::TableV;
use crate::value::ValueV;
use vstd::bytes::spec_u64_from_le_bytes;
use vstd::bytes::spec_u64_to_le_bytes;
use vstd::bytes::u64_from_le_bytes;
use vstd::bytes::u64_to_le_bytes;
use vstd::prelude::*;

verus! {

/// Relies on char::from_u32: a scalar comes back as the character with
/// that code point; surrogates and values beyond the last code point
/// yield nothing.
pub assume_specification[ char::from_u32 ](i: u32) -> (r: Option<char>)
    ensures
        match r {
            Some(c) => c as u32 == i,
            None => (0xD800 <= i <= 0xDFFF) || i > 0x10FFFF,
        },
;

/// The encoding of one 64-bit unit.
pub open spec fn spec_enc_u64(v: u64) -> Seq<u8> {
    spec_u64_to_le_bytes(v)
}

/// The unit decoded at position `i`, and the position after it.
pub open spec fn spec_dec_u64(s: Seq<u8>, i: int) -> Option<(u64, int)> {
    if 0 <= i && i + 8 <= s.len() {
        Some((spec_u64_from_le_bytes(s.subrange(i, i + 8)), i + 8))
    } else {
        None
    }
}

/// Decoding after an encoded unit reads that unit back.
pub proof fn lemma_u64_round(s: Seq<u8>, i: int, v: u64, rest: Seq<u8>)
    requires
        0 <= i <= s.len(),
        s.subrange(i, s.len() as int) =~= spec_enc_u64(v) + rest,
    ensures
        spec_dec_u64(s, i) == Some((v, i + 8)),
        s.subrange(i + 8, s.len() as int) =~= rest,
{
    vstd::bytes::lemma_auto_spec_u64_to_from_le_bytes();
    assert(spec_enc_u64(v).len() == 8);
    assert(s.subrange(i, s.len() as int) == spec_enc_u64(v) + rest);
    assert(s.subrange(i, s.len() as int).len() == s.len() - i);
    assert((spec_enc_u64(v) + rest).len() == 8 + rest.len());
    assert(s.len() - i == 8 + rest.len());
    assert forall|k: int| 0 <= k < 8 implies s.subrange(i, i + 8)[k] == spec_enc_u64(v)[k] by {
        assert(s.subrange(i, i + 8)[k] == s[i + k]);
        assert(s.subrange(i, s.len() as int)[k] == s[i + k]);
        assert((spec_enc_u64(v) + rest)[k] == spec_enc_u64(v)[k]);
    }
    assert(s.subrange(i, i + 8) =~= spec_enc_u64(v));
    assert forall|k: int| 0 <= k < rest.len() implies s.subrange(i + 8, s.len() as int)[k]
        == rest[k] by {
        assert(s.subrange(i + 8, s.len() as int)[k] == s[i + 8 + k]);
        assert(s.subrange(i, s.len() as int)[8 + k] == s[i + 8 + k]);
        assert((spec_enc_u64(v) + rest)[8 + k] == rest[k]);
    }
    assert(s.subrange(i + 8, s.len() as int) =~= rest);
}

/// A decoded unit re-encodes to the very bytes it was read from.
pub proof fn lemma_u64_canon(s: Seq<u8>, i: int)
    requires
        spec_dec_u64(s, i) is Some,
    ensures
        ({
            let (v, j) = spec_dec_u64(s, i)->Some_0;
            spec_enc_u64(v) =~= s.subrange(i, j)
        }),
{
    vstd::bytes::lemma_auto_spec_u64_to_from_le_bytes();
    let (v, j) = spec_dec_u64(s, i)->Some_0;
    assert(s.subrange(i, i + 8).len() == 8);
}

/// Appends one unit.
pub fn emit_u64(out: &mut Vec<u8>, v: u64)
    ensures
        final(out)@ =~= old(out)@ + spec_enc_u64(v),
{
    let mut bytes = u64_to_le_bytes(v);
    out.append(&mut bytes);
}

/// Reads one unit.
pub fn read_u64(s: &Vec<u8>, i: usize) -> (r: Option<(u64, usize)>)
    ensures
        match spec_dec_u64(s@, i as int) {
            Some(p) => r matches Some(x) && x.0 == p.0 && x.1 as int == p.1,
            None => r matches None,
        },
{
    if i < s.len() && s.len() - i >= 8 {
        let sl = vstd::slice::slice_subrange(s.as_slice(), i, i + 8);
        let v = u64_from_le_bytes(sl);
        Some((v, i + 8))
    } else {
        None
    }
}

/// The encoding of a 32-bit integer: its value offset into the
/// unsigned range, as one unit.
pub open spec fn spec_enc_i32(x: i32) -> Seq<u8> {
    spec_enc_u64(((x as int) + 0x8000_0000) as u64)
}

/// The integer decoded at position `i`.
pub open spec fn spec_dec_i32(s: Seq<u8>, i: int) -> Option<(i32, int)> {
    match spec_dec_u64(s, i) {
        None => None,
        Some((v, j)) => if v <= 0xffff_ffffu64 {
            Some((((v as int) - 0x8000_0000) as i32, j))
        } else {
            None
        },
    }
}

pub proof fn lemma_i32_round(s: Seq<u8>, i: int, x: i32, rest: Seq<u8>)
    requires
        0 <= i <= s.len(),
        s.subrange(i, s.len() as int) =~= spec_enc_i32(x) + rest,
    ensures
        spec_dec_i32(s, i) == Some((x, i + 8)),
        s.subrange(i + 8, s.len() as int) =~= rest,
{
    lemma_u64_round(s, i, ((x as int) + 0x8000_0000) as u64, rest);
}

pub proof fn lemma_i32_canon(s: Seq<u8>, i: int)
    requires
        spec_dec_i32(s, i) is Some,
    ensures
        ({
            let (x, j) = spec_dec_i32(s, i)->Some_0;
            spec_enc_i32(x) =~= s.subrange(i, j) && i < j <= s.len()
        }),
{
    lemma_u64_canon(s, i);
}

/// The encoding of one character: its code point as one unit.
pub open spec fn spec_enc_char(c: char) -> Seq<u8> {
    spec_enc_u64(c as u64)
}

/// The character decoded at position `i`; only scalar values decode.
pub open spec fn spec_dec_char(s: Seq<u8>, i: int) -> Option<(char, int)> {
    match spec_dec_u64(s, i) {
        None => None,
        Some((v, j)) => if v <= 0xffff_ffffu64 && !(0xD800 <= v <= 0xDFFF) && v <= 0x10FFFF {
            Some(((v as u32) as char, j))
        } else {
            None
        },
    }
}

pub proof fn lemma_char_round(s: Seq<u8>, i: int, c: char, rest: Seq<u8>)
    requires
        0 <= i <= s.len(),
        s.subrange(i, s.len() as int) =~= spec_enc_char(c) + rest,
    ensures
        spec_dec_char(s, i) == Some((c, i + 8)),
        s.subrange(i + 8, s.len() as int) =~= rest,
{
    lemma_u64_round(s, i, c as u64, rest);
    vstd::utf8::char_is_scalar(c);
    vstd::utf8::char_u32_cast(c, c as u32);
}

pub proof fn lemma_char_canon(s: Seq<u8>, i: int)
    requires
        spec_dec_char(s, i) is Some,
    ensures
        ({
            let (c, j) = spec_dec_char(s, i)->Some_0;
            spec_enc_char(c) =~= s.subrange(i, j) && i < j <= s.len()
        }),
{
    lemma_u64_canon(s, i);
}

/// The encoding of a string: its character count, then each character.
pub open spec fn spec_enc_chars(cs: Seq<char>) -> Seq<u8>
    decreases cs.len(),
{
    if cs.len() == 0 {
        Seq::empty()
    } else {
        spec_enc_char(cs[0]) + spec_enc_chars(cs.drop_first())
    }
}

pub open spec fn spec_enc_str(cs: Seq<char>) -> Seq<u8> {
    spec_enc_u64(cs.len() as u64) + spec_enc_chars(cs)
}

/// `count` characters decoded from position `i`.
pub open spec fn spec_dec_chars(s: Seq<u8>, i: int, count: int) -> Option<(Seq<char>, int)>
    decreases count,
{
    if count <= 0 {
        Some((Seq::empty(), i))
    } else {
        match spec_dec_char(s, i) {
            None => None,
            Some((c, j)) => match spec_dec_chars(s, j, count - 1) {
                None => None,
                Some((cs, j2)) => Some((seq![c] + cs, j2)),
            },
        }
    }
}

pub open spec fn spec_dec_str(s: Seq<u8>, i: int) -> Option<(Seq<char>, int)> {
    match spec_dec_u64(s, i) {
        None => None,
        Some((n, j)) => spec_dec_chars(s, j, n as int),
    }
}

pub proof fn lemma_chars_round(s: Seq<u8>, i: int, cs: Seq<char>, rest: Seq<u8>)
    requires
        0 <= i <= s.len(),
        s.subrange(i, s.len() as int) =~= spec_enc_chars(cs) + rest,
    ensures
        ({
            let r = spec_dec_chars(s, i, cs.len() as int);
            r == Some((cs, i + spec_enc_chars(cs).len())) && i + spec_enc_chars(cs).len()
                <= s.len() && s.subrange(i + spec_enc_chars(cs).len() as int, s.len() as int)
                =~= rest
        }),
    decreases cs.len(),
{
    if cs.len() == 0 {
        assert(spec_enc_chars(cs) =~= Seq::<u8>::empty());
        assert(s.subrange(i, s.len() as int) =~= rest);
        assert(spec_dec_chars(s, i, 0) == Some((Seq::<char>::empty(), i)));
        assert(Seq::<char>::empty() =~= cs);
    } else {
        let tail = cs.drop_first();
        assert(s.subrange(i, s.len() as int) =~= spec_enc_char(cs[0]) + (spec_enc_chars(tail)
            + rest));
        lemma_char_round(s, i, cs[0], spec_enc_chars(tail) + rest);
        lemma_chars_round(s, i + 8, tail, rest);
        assert(seq![cs[0]] + tail =~= cs);
    }
}

pub proof fn lemma_str_round(s: Seq<u8>, i: int, cs: Seq<char>, rest: Seq<u8>)
    requires
        0 <= i <= s.len(),
        cs.len() <= 0xffff_ffff,
        s.subrange(i, s.len() as int) =~= spec_enc_str(cs) + rest,
    ensures
        ({
            let r = spec_dec_str(s, i);
            r == Some((cs, i + spec_enc_str(cs).len())) && i + spec_enc_str(cs).len() <= s.len()
                && s.subrange(i + spec_enc_str(cs).len() as int, s.len() as int) =~= rest
        }),
{
    assert(s.subrange(i, s.len() as int) =~= spec_enc_u64(cs.len() as u64) + (spec_enc_chars(cs)
        + rest));
    lemma_u64_round(s, i, cs.len() as u64, spec_enc_chars(cs) + rest);
    lemma_chars_round(s, i + 8, cs, rest);
}

pub proof fn lemma_chars_canon(s: Seq<u8>, i: int, count: int)
    requires
        spec_dec_chars(s, i, count) is Some,
        0 <= i <= s.len(),
    ensures
        ({
            let (cs, j) = spec_dec_chars(s, i, count)->Some_0;
            spec_enc_chars(cs) =~= s.subrange(i, j) && i <= j <= s.len() && cs.len() == (if count
                >= 0 {
                count
            } else {
                0
            })
        }),
    decreases count,
{
    if count > 0 {
        lemma_char_canon(s, i);
        let (c, j) = spec_dec_char(s, i)->Some_0;
        lemma_chars_canon(s, j, count - 1);
        let (cs2, j2) = spec_dec_chars(s, j, count - 1)->Some_0;
        assert((seq![c] + cs2).drop_first() =~= cs2);
        assert(spec_enc_chars(seq![c] + cs2) =~= spec_enc_char(c) + spec_enc_chars(cs2));
        assert(spec_enc_char(c) + spec_enc_chars(cs2) =~= s.subrange(i, j) + s.subrange(j, j2));
        assert(s.subrange(i, j) + s.subrange(j, j2) =~= s.subrange(i, j2));
    }
}

pub proof fn lemma_str_canon(s: Seq<u8>, i: int)
    requires
        spec_dec_str(s, i) is Some,
        0 <= i <= s.len(),
    ensures
        ({
            let (cs, j) = spec_dec_str(s, i)->Some_0;
            spec_enc_str(cs) =~= s.subrange(i, j) && i <= j <= s.len() && cs.len()
                <= 0xffff_ffff_ffff_ffff
        }),
{
    lemma_u64_canon(s, i);
    let (n, j) = spec_dec_u64(s, i)->Some_0;
    lemma_chars_canon(s, j, n as int);
    let (cs, j2) = spec_dec_chars(s, j, n as int)->Some_0;
    assert(spec_enc_str(cs) =~= spec_enc_u64(cs.len() as u64) + spec_enc_chars(cs));
    assert(cs.len() == n as int);
    assert(spec_enc_u64(cs.len() as u64) =~= s.subrange(i, i + 8));
    assert(spec_enc_u64(cs.len() as u64) + spec_enc_chars(cs) =~= s.subrange(i, i + 8)
        + s.subrange(j, j2));
    assert(s.subrange(i, i + 8) + s.subrange(j, j2) =~= s.subrange(i, j2));
}

/// Appends the encoding of a string.
pub fn emit_str(out: &mut Vec<u8>, t: &str)
    requires
        t@.len() <= 0xffff_ffff,
    ensures
        final(out)@ =~= old(out)@ + spec_enc_str(t@),
{
    let n = t.unicode_len();
    emit_u64(out, n as u64);
    let ghost base = out@;
    let mut k: usize = 0;
    proof {
        assert(t@.skip(0) =~= t@);
    }
    while k < n
        invariant
            k <= n,
            n == t@.len(),
            base + spec_enc_chars(t@) =~= out@ + spec_enc_chars(t@.skip(k as int)),
        decreases n - k,
    {
        let ghost pre = out@;
        let c = t.get_char(k);
        emit_u64(out, c as u64);
        proof {
            let restk = t@.skip(k as int);
            assert(restk[0] == t@[k as int]);
            assert(restk.drop_first() =~= t@.skip(k as int + 1));
            assert(spec_enc_chars(restk) =~= spec_enc_char(t@[k as int]) + spec_enc_chars(
                t@.skip(k as int + 1),
            ));
            assert(base + spec_enc_chars(t@) =~= out@ + spec_enc_chars(t@.skip(k as int + 1)));
        }
        k = k + 1;
    }
    proof {
        assert(spec_enc_chars(t@.skip(n as int)) =~= Seq::<u8>::empty());
        assert(final(out)@ =~= base + spec_enc_chars(t@));
    }
}

/// Reads a string.
pub fn read_str(s: &Vec<u8>, i: usize) -> (r: Option<(String, usize)>)
    ensures
        match spec_dec_str(s@, i as int) {
            Some(p) => r matches Some(x) && x.0@ == p.0 && x.1 as int == p.1,
            None => r matches None,
        },
{
    let (n, mut pos) = match read_u64(s, i) {
        None => {
            return None;
        },
        Some(p) => p,
    };
    let mut outs = String::new();
    let mut left = n;
    proof {
        assert(outs@ =~= Seq::<char>::empty());
        assert forall|cs: Seq<char>| true implies outs@ + cs =~= cs by {}
    }
    while left > 0
        invariant
            pos <= s@.len(),
            spec_dec_str(s@, i as int) == spec_dec_chars_from_state(
                s@,
                pos as int,
                left as int,
                outs@,
            ),
        decreases left,
    {
        let r1 = read_u64(s, pos);
        if r1.is_none() {
            proof {
                assert(spec_dec_chars(s@, pos as int, left as int) is None);
            }
            return None;
        }
        let (v, pos2) = r1.unwrap();
        if v > 0xffff_ffff {
            proof {
                assert(spec_dec_char(s@, pos as int) is None);
                assert(spec_dec_chars(s@, pos as int, left as int) is None);
            }
            return None;
        }
        let copt = char::from_u32(v as u32);
        let c = match copt {
            None => {
                proof {
                    assert(spec_dec_char(s@, pos as int) is None);
                    assert(spec_dec_chars(s@, pos as int, left as int) is None);
                }
                return None;
            },
            Some(c) => c,
        };
        proof {
            vstd::utf8::char_is_scalar(c);
            vstd::utf8::char_u32_cast(c, c as u32);
            assert(c as u32 == v as u32);
            assert(!(0xD800 <= v <= 0xDFFF) && v <= 0x10FFFF);
            assert(((v as u32) as char) == c);
            assert(spec_dec_char(s@, pos as int) == Some((c, pos as int + 8)));
        }
        let ghost pre = outs@;
        push_char(&mut outs, c);
        proof {
            let tailr = spec_dec_chars(s@, pos2 as int, left as int - 1);
            match tailr {
                None => {
                    assert(spec_dec_chars(s@, pos as int, left as int) is None);
                },
                Some((cs, j)) => {
                    assert(spec_dec_chars(s@, pos as int, left as int) == Some((
                        seq![c] + cs,
                        j,
                    )));
                    assert(pre + (seq![c] + cs) =~= outs@ + cs);
                },
            }
        }
        pos = pos2;
        left = left - 1;
    }
    proof {
        assert(spec_dec_chars(s@, pos as int, 0) == Some((Seq::<char>::empty(), pos as int)));
        assert(outs@ + Seq::<char>::empty() =~= outs@);
    }
    Some((outs, pos))
}

/// The characters decoded from `i` with `count` still to read, after
/// `acc` were already read.
pub open spec fn spec_dec_chars_from_state(s: Seq<u8>, i: int, count: int, acc: Seq<char>) -> Option<
    (Seq<char>, int),
> {
    match spec_dec_chars(s, i, count) {
        None => None,
        Some((cs, j)) => Some((acc + cs, j)),
    }
}

/// Relies on String::push: the character joins the end of the string.
#[verifier::external_body]
pub fn push_char(s: &mut String, c: char)
    ensures
        final(s)@ == old(s)@.push(c),
{
    s.push(c);
}

/// The encoding of one value: a kind tag, then its payload.
pub open spec fn spec_enc_value(v: ValueV) -> Seq<u8> {
    match v {
        ValueV::Null => spec_enc_u64(0),
        ValueV::Int(x) => spec_enc_u64(1) + spec_enc_i32(x),
        ValueV::Varchar(cs) => spec_enc_u64(2) + spec_enc_str(cs),
    }
}

pub open spec fn spec_dec_value(s: Seq<u8>, i: int) -> Option<(ValueV, int)> {
    match spec_dec_u64(s, i) {
        None => None,
        Some((tag, j)) => if tag == 0 {
            Some((ValueV::Null, j))
        } else if tag == 1 {
            match spec_dec_i32(s, j) {
                None => None,
                Some((x, j2)) => Some((ValueV::Int(x), j2)),
            }
        } else if tag == 2 {
            match spec_dec_str(s, j) {
                None => None,
                Some((cs, j2)) => Some((ValueV::Varchar(cs), j2)),
            }
        } else {
            None
        },
    }
}

/// A list of values, length-prefixed.
pub open spec fn spec_enc_values(row: Seq<ValueV>) -> Seq<u8>
    decreases row.len(),
{
    if row.len() == 0 {
        Seq::empty()
    } else {
        spec_enc_value(row[0]) + spec_enc_values(row.drop_first())
    }
}

pub open spec fn spec_enc_row(row: Seq<ValueV>) -> Seq<u8> {
    spec_enc_u64(row.len() as u64) + spec_enc_values(row)
}

pub open spec fn spec_dec_values(s: Seq<u8>, i: int, count: int) -> Option<(Seq<ValueV>, int)>
    decreases count,
{
    if count <= 0 {
        Some((Seq::empty(), i))
    } else {
        match spec_dec_value(s, i) {
            None => None,
            Some((v, j)) => match spec_dec_values(s, j, count - 1) {
                None => None,
                Some((vs, j2)) => Some((seq![v] + vs, j2)),
            },
        }
    }
}

pub open spec fn spec_dec_row(s: Seq<u8>, i: int) -> Option<(Seq<ValueV>, int)> {
    match spec_dec_u64(s, i) {
        None => None,
        Some((n, j)) => spec_dec_values(s, j, n as int),
    }
}

/// A row slot: its id, a liveness tag, and the tuple when live.
pub open spec fn spec_enc_slot(r: RowSlotV) -> Seq<u8> {
    spec_enc_u64(r.id as u64) + (match r.cells {
        None => spec_enc_u64(0),
        Some(row) => spec_enc_u64(1) + spec_enc_row(row),
    })
}

pub open spec fn spec_dec_slot(s: Seq<u8>, i: int) -> Option<(RowSlotV, int)> {
    match spec_dec_u64(s, i) {
        None => None,
        Some((id, j)) => if id > usize::MAX as u64 {
            None
        } else {
            match spec_dec_u64(s, j) {
            None => None,
            Some((tag, j2)) => if tag == 0 {
                Some((RowSlotV { id: id as int, cells: None }, j2))
            } else if tag == 1 {
                match spec_dec_row(s, j2) {
                    None => None,
                    Some((row, j3)) => Some((RowSlotV { id: id as int, cells: Some(row) }, j3)),
                }
            } else {
                None
            },
            }
        },
    }
}

pub open spec fn spec_enc_slots(rows: Seq<RowSlotV>) -> Seq<u8>
    decreases rows.len(),
{
    if rows.len() == 0 {
        Seq::empty()
    } else {
        spec_enc_slot(rows[0]) + spec_enc_slots(rows.drop_first())
    }
}

pub open spec fn spec_dec_slots(s: Seq<u8>, i: int, count: int) -> Option<(Seq<RowSlotV>, int)>
    decreases count,
{
    if count <= 0 {
        Some((Seq::empty(), i))
    } else {
        match spec_dec_slot(s, i) {
            None => None,
            Some((r, j)) => match spec_dec_slots(s, j, count - 1) {
                None => None,
                Some((rs, j2)) => Some((seq![r] + rs, j2)),
            },
        }
    }
}

/// One bool as a strict 0/1 unit.
pub open spec fn spec_enc_bool(b: bool) -> Seq<u8> {
    spec_enc_u64(
        if b {
            1
        } else {
            0
        },
    )
}

pub open spec fn spec_dec_bool(s: Seq<u8>, i: int) -> Option<(bool, int)> {
    match spec_dec_u64(s, i) {
        None => None,
        Some((tag, j)) => if tag == 0 {
            Some((false, j))
        } else if tag == 1 {
            Some((true, j))
        } else {
            None
        },
    }
}

/// A column type: a kind tag, then its parameters.
pub open spec fn spec_enc_coltype(t: ColumnTypeV) -> Seq<u8> {
    match t {
        ColumnTypeV::Int { display_width } => spec_enc_u64(0) + (match display_width {
            None => spec_enc_u64(0),
            Some(w) => spec_enc_u64(1) + spec_enc_u64(w),
        }),
        ColumnTypeV::Varchar { max_length } => spec_enc_u64(1) + spec_enc_u64(max_length),
        ColumnTypeV::Any => spec_enc_u64(2),
    }
}

pub open spec fn spec_dec_coltype(s: Seq<u8>, i: int) -> Option<(ColumnTypeV, int)> {
    match spec_dec_u64(s, i) {
        None => None,
        Some((tag, j)) => if tag == 0 {
            match spec_dec_u64(s, j) {
                None => None,
                Some((wtag, j2)) => if wtag == 0 {
                    Some((ColumnTypeV::Int { display_width: None }, j2))
                } else if wtag == 1 {
                    match spec_dec_u64(s, j2) {
                        None => None,
                        Some((w, j3)) => Some((ColumnTypeV::Int { display_width: Some(w) }, j3)),
                    }
                } else {
                    None
                },
            }
        } else if tag == 1 {
            match spec_dec_u64(s, j) {
                None => None,
                Some((m, j2)) => Some((ColumnTypeV::Varchar { max_length: m }, j2)),
            }
        } else if tag == 2 {
            Some((ColumnTypeV::Any, j))
        } else {
            None
        },
    }
}

/// One column: name, nullability, uniqueness, type.
pub open spec fn spec_enc_col(c: ColumnInfoV) -> Seq<u8> {
    spec_enc_str(c.name) + spec_enc_bool(c.nullable) + spec_enc_bool(c.unique) + spec_enc_coltype(
        c.type_specific,
    )
}

pub open spec fn spec_dec_col(s: Seq<u8>, i: int) -> Option<(ColumnInfoV, int)> {
    match spec_dec_str(s, i) {
        None => None,
        Some((name, j)) => match spec_dec_bool(s, j) {
            None => None,
            Some((nullable, j2)) => match spec_dec_bool(s, j2) {
                None => None,
                Some((unique, j3)) => match spec_dec_coltype(s, j3) {
                    None => None,
                    Some((ty, j4)) => Some(
                        (ColumnInfoV { name, nullable, unique, type_specific: ty }, j4),
                    ),
                },
            },
        },
    }
}

pub open spec fn spec_enc_cols(cols: Seq<ColumnInfoV>) -> Seq<u8>
    decreases cols.len(),
{
    if cols.len() == 0 {
        Seq::empty()
    } else {
        spec_enc_col(cols[0]) + spec_enc_cols(cols.drop_first())
    }
}

pub open spec fn spec_dec_cols(s: Seq<u8>, i: int, count: int) -> Option<(Seq<ColumnInfoV>, int)>
    decreases count,
{
    if count <= 0 {
        Some((Seq::empty(), i))
    } else {
        match spec_dec_col(s, i) {
            None => None,
            Some((col, j)) => match spec_dec_cols(s, j, count - 1) {
                None => None,
                Some((cols, j2)) => Some((seq![col] + cols, j2)),
            },
        }
    }
}

/// The values of column `c` over the live rows, in row order; the
/// uniqueness sets are rebuilt from this at load.
pub open spec fn spec_rebuild_col(rows: Seq<RowSlotV>, c: int) -> Seq<ValueV>
    decreases rows.len(),
{
    if rows.len() == 0 {
        Seq::empty()
    } else {
        spec_rebuild_col(rows.drop_last(), c) + (match rows.last().cells {
            None => Seq::<ValueV>::empty(),
            Some(row) => if 0 <= c < row.len() && row[c] != ValueV::Null {
                seq![row[c]]
            } else {
                Seq::<ValueV>::empty()
            },
        })
    }
}

/// The rebuilt uniqueness sets: exact for unique columns, empty
/// elsewhere.
pub open spec fn spec_rebuild_sets(cols: Seq<ColumnInfoV>, rows: Seq<RowSlotV>) -> Seq<
    Seq<ValueV>,
> {
    Seq::new(
        cols.len() as nat,
        |c: int|
            if cols[c].unique {
                spec_rebuild_col(rows, c)
            } else {
                Seq::empty()
            },
    )
}

/// A table: schema, slots, and the two counters; the uniqueness sets
/// are not stored.
pub open spec fn spec_enc_table(t: TableV) -> Seq<u8> {
    spec_enc_u64(t.columns_info.len() as u64) + spec_enc_cols(t.columns_info) + spec_enc_u64(
        t.rows.len() as u64,
    ) + spec_enc_slots(t.rows) + spec_enc_u64(t.row_idx_acc as u64) + spec_enc_u64(
        t.row_num as u64,
    )
}

/// A decoded table, before the well-formedness gate.
pub open spec fn spec_dec_table_raw(s: Seq<u8>, i: int) -> Option<(TableV, int)> {
    match spec_dec_u64(s, i) {
        None => None,
        Some((nc, j)) => match spec_dec_cols(s, j, nc as int) {
            None => None,
            Some((cols, j2)) => match spec_dec_u64(s, j2) {
                None => None,
                Some((nr, j3)) => match spec_dec_slots(s, j3, nr as int) {
                    None => None,
                    Some((rows, j4)) => match spec_dec_u64(s, j4) {
                        None => None,
                        Some((acc, j5)) => match spec_dec_u64(s, j5) {
                            None => None,
                            Some((num, j6)) => Some(
                                (
                                    TableV {
                                        rows,
                                        row_idx_acc: acc as int,
                                        row_num: num as int,
                                        columns_values: spec_rebuild_sets(cols, rows),
                                        columns_info: cols,
                                    },
                                    j6,
                                ),
                            ),
                        },
                    },
                },
            },
        },
    }
}

/// A decoded table: the stored shape with its uniqueness sets rebuilt,
/// accepted only when the whole is well-formed.
pub open spec fn spec_dec_table(s: Seq<u8>, i: int) -> Option<(TableV, int)> {
    match spec_dec_table_raw(s, i) {
        None => None,
        Some((t, j)) => if t.wf() && t.row_idx_acc <= usize::MAX && t.row_num <= usize::MAX
            && t.rows.len() <= usize::MAX && t.columns_info.len() <= usize::MAX && (forall|x: int|
            0 <= x < t.rows.len() ==> 0 <= (#[trigger] t.rows[x]).id <= usize::MAX) {
            Some((t, j))
        } else {
            None
        },
    }
}

/// One catalog entry: the table name, then the table.
pub open spec fn spec_enc_entry(e: DbEntryV) -> Seq<u8> {
    spec_enc_str(e.name) + spec_enc_table(e.table)
}

pub open spec fn spec_dec_entry(s: Seq<u8>, i: int) -> Option<(DbEntryV, int)> {
    match spec_dec_str(s, i) {
        None => None,
        Some((name, j)) => match spec_dec_table(s, j) {
            None => None,
            Some((t, j2)) => Some((DbEntryV { name, table: t }, j2)),
        },
    }
}

pub open spec fn spec_enc_entries(db: Seq<DbEntryV>) -> Seq<u8>
    decreases db.len(),
{
    if db.len() == 0 {
        Seq::empty()
    } else {
        spec_enc_entry(db[0]) + spec_enc_entries(db.drop_first())
    }
}

pub open spec fn spec_dec_entries(s: Seq<u8>, i: int, count: int) -> Option<(Seq<DbEntryV>, int)>
    decreases count,
{
    if count <= 0 {
        Some((Seq::empty(), i))
    } else {
        match spec_dec_entry(s, i) {
            None => None,
            Some((e, j)) => match spec_dec_entries(s, j, count - 1) {
                None => None,
                Some((es, j2)) => Some((seq![e] + es, j2)),
            },
        }
    }
}

/// The whole catalog: the table count, then each entry; accepted only
/// when every byte is consumed and the table names are unique.
pub open spec fn spec_enc_db(db: Seq<DbEntryV>) -> Seq<u8> {
    spec_enc_u64(db.len() as u64) + spec_enc_entries(db)
}

pub open spec fn spec_dec_db(s: Seq<u8>) -> Option<Seq<DbEntryV>> {
    match spec_dec_u64(s, 0) {
        None => None,
        Some((n, j)) => match spec_dec_entries(s, j, n as int) {
            None => None,
            Some((es, j2)) => if j2 == s.len() && (forall|p: int, q: int|
                0 <= p < q < es.len() ==> (#[trigger] es[p].name) != (#[trigger] es[q].name)) {
                Some(es)
            } else {
                None
            },
        },
    }
}

/// Appends one value.
fn emit_value(out: &mut Vec<u8>, v: &crate::value::Value)
    requires
        (v@ matches ValueV::Varchar(cs) ==> cs.len() <= 0xffff_ffff),
    ensures
        final(out)@ =~= old(out)@ + spec_enc_value(v@),
{
    match &v.0 {
        None => {
            emit_u64(out, 0);
        },
        Some(crate::value::ValueNotNull::Int(x)) => {
            emit_u64(out, 1);
            let off: i64 = (*x as i64) + 0x8000_0000i64;
            emit_u64(out, off as u64);
        },
        Some(crate::value::ValueNotNull::Varchar(t)) => {
            emit_u64(out, 2);
            emit_str(out, t.as_str());
        },
    }
}

/// Whether every string in a value is small enough to encode.
pub open spec fn spec_value_enc_ok(v: ValueV) -> bool {
    v matches ValueV::Varchar(cs) ==> cs.len() <= 0xffff_ffff
}

/// Whether every part of a table is small enough to encode.
pub open spec fn spec_table_enc_ok(t: TableV) -> bool {
    &&& t.columns_info.len() <= 0xffff_ffff
    &&& t.rows.len() <= 0xffff_ffff
    &&& 0 <= t.row_idx_acc <= usize::MAX
    &&& 0 <= t.row_num <= usize::MAX
    &&& forall|c: int|
        0 <= c < t.columns_info.len() ==> (#[trigger] t.columns_info[c].name).len() <= 0xffff_ffff
    &&& forall|i: int|
        0 <= i < t.rows.len() ==> ((#[trigger] t.rows[i].cells) matches Some(row) ==> row.len()
            <= 0xffff_ffff && (forall|c: int|
            0 <= c < row.len() ==> spec_value_enc_ok(#[trigger] row[c])))
    &&& forall|i: int| 0 <= i < t.rows.len() ==> 0 <= (#[trigger] t.rows[i]).id <= usize::MAX
}

/// Appends one tuple.
fn emit_row(out: &mut Vec<u8>, row: &Vec<crate::value::Value>)
    requires
        row@.len() <= 0xffff_ffff,
        forall|c: int|
            0 <= c < row@.len() ==> spec_value_enc_ok((#[trigger] row@[c])@),
    ensures
        final(out)@ =~= old(out)@ + spec_enc_row(crate::table::spec_row_view(row@)),
{
    let ghost rowv = crate::table::spec_row_view(row@);
    let n = row.len();
    emit_u64(out, n as u64);
    let ghost base = out@;
    let mut k: usize = 0;
    proof {
        assert(rowv.skip(0) =~= rowv);
    }
    while k < n
        invariant
            k <= n,
            n == row@.len(),
            rowv == crate::table::spec_row_view(row@),
            forall|c: int|
                0 <= c < row@.len() ==> spec_value_enc_ok((#[trigger] row@[c])@),
            base + spec_enc_values(rowv) =~= out@ + spec_enc_values(rowv.skip(k as int)),
        decreases n - k,
    {
        proof {
            let restk = rowv.skip(k as int);
            assert(restk[0] == rowv[k as int]);
            assert(restk.drop_first() =~= rowv.skip(k as int + 1));
            assert(rowv[k as int] == row@[k as int]@);
        }
        emit_value(out, &row[k]);
        k = k + 1;
    }
    proof {
        assert(spec_enc_values(rowv.skip(n as int)) =~= Seq::<u8>::empty());
        assert(final(out)@ =~= base + spec_enc_values(rowv));
    }
}

/// Appends one column.
#[verifier::rlimit(60)]
fn emit_col(out: &mut Vec<u8>, col: &crate::column_info::ColumnInfo)
    requires
        col@.name.len() <= 0xffff_ffff,
    ensures
        final(out)@ =~= old(out)@ + spec_enc_col(col@),
{
    emit_str(out, col.name.as_str());
    emit_u64(
        out,
        if col.nullable {
            1
        } else {
            0
        },
    );
    emit_u64(
        out,
        if col.unique {
            1
        } else {
            0
        },
    );
    match &col.type_specific {
        crate::column_info::ColumnTypeSpecific::Int { display_width } => {
            emit_u64(out, 0);
            match display_width {
                None => {
                    emit_u64(out, 0);
                },
                Some(w) => {
                    emit_u64(out, 1);
                    emit_u64(out, *w);
                },
            }
        },
        crate::column_info::ColumnTypeSpecific::Varchar { max_length } => {
            emit_u64(out, 1);
            emit_u64(out, *max_length);
        },
        crate::column_info::ColumnTypeSpecific::Any => {
            emit_u64(out, 2);
        },
    }
}

/// Appends one slot.
fn emit_slot(out: &mut Vec<u8>, slot: &crate::table::RowSlot)
    requires
        slot@.id <= usize::MAX,
        (slot@.cells matches Some(row) ==> row.len() <= 0xffff_ffff && (forall|c: int|
            0 <= c < row.len() ==> spec_value_enc_ok(#[trigger] row[c]))),
    ensures
        final(out)@ =~= old(out)@ + spec_enc_slot(slot@),
{
    emit_u64(out, slot.id as u64);
    match &slot.cells {
        None => {
            emit_u64(out, 0);
        },
        Some(row) => {
            proof {
                assert(slot@.cells == Some(crate::table::spec_row_view(row@)));
                assert forall|c: int| 0 <= c < row@.len() implies spec_value_enc_ok(
                    (#[trigger] row@[c])@,
                ) by {
                    assert(crate::table::spec_row_view(row@)[c] == row@[c]@);
                }
            }
            emit_u64(out, 1);
            emit_row(out, row);
        },
    }
}

/// Appends one table.
fn emit_table(out: &mut Vec<u8>, t: &crate::table::Table)
    requires
        spec_table_enc_ok(t@),
    ensures
        final(out)@ =~= old(out)@ + spec_enc_table(t@),
{
    let tv = t;
    let ghost v = t@;
    let nc = t.columns_info.len();
    emit_u64(out, nc as u64);
    let ghost base1 = out@;
    let mut k: usize = 0;
    proof {
        assert(v.columns_info.skip(0) =~= v.columns_info);
    }
    while k < nc
        invariant
            k <= nc,
            nc == v.columns_info.len(),
            v == t@,
            spec_table_enc_ok(v),
            base1 + spec_enc_cols(v.columns_info) =~= out@ + spec_enc_cols(
                v.columns_info.skip(k as int),
            ),
        decreases nc - k,
    {
        proof {
            let restk = v.columns_info.skip(k as int);
            assert(restk[0] == v.columns_info[k as int]);
            assert(restk.drop_first() =~= v.columns_info.skip(k as int + 1));
            assert(v.columns_info[k as int] == t.columns_info@[k as int]@);
        }
        emit_col(out, &t.columns_info[k]);
        k = k + 1;
    }
    proof {
        assert(spec_enc_cols(v.columns_info.skip(nc as int)) =~= Seq::<u8>::empty());
        assert(out@ =~= base1 + spec_enc_cols(v.columns_info));
    }
    let nr = t.rows.len();
    emit_u64(out, nr as u64);
    let ghost base2 = out@;
    let mut k2: usize = 0;
    proof {
        assert(v.rows.skip(0) =~= v.rows);
    }
    while k2 < nr
        invariant
            k2 <= nr,
            nr == v.rows.len(),
            v == t@,
            spec_table_enc_ok(v),
            base2 + spec_enc_slots(v.rows) =~= out@ + spec_enc_slots(v.rows.skip(k2 as int)),
        decreases nr - k2,
    {
        proof {
            let restk = v.rows.skip(k2 as int);
            assert(restk[0] == v.rows[k2 as int]);
            assert(restk.drop_first() =~= v.rows.skip(k2 as int + 1));
            assert(v.rows[k2 as int] == t.rows@[k2 as int]@);
        }
        emit_slot(out, &t.rows[k2]);
        k2 = k2 + 1;
    }
    proof {
        assert(spec_enc_slots(v.rows.skip(nr as int)) =~= Seq::<u8>::empty());
        assert(out@ =~= base2 + spec_enc_slots(v.rows));
    }
    emit_u64(out, t.row_idx_acc as u64);
    emit_u64(out, t.row_num as u64);
    proof {
        assert(final(out)@ =~= old(out)@ + spec_enc_table(v));
    }
}

/// Whether every part of the catalog is small enough to encode.
pub open spec fn spec_db_enc_ok(db: Seq<DbEntryV>) -> bool {
    &&& db.len() <= 0xffff_ffff
    &&& forall|i: int| 0 <= i < db.len() ==> (#[trigger] db[i].name).len() <= 0xffff_ffff
    &&& forall|i: int| 0 <= i < db.len() ==> spec_table_enc_ok((#[trigger] db[i]).table)
}

/// Encodes the whole catalog.
pub fn encode_database(db: &crate::database::Database) -> (out: Vec<u8>)
    requires
        spec_db_enc_ok(db@),
    ensures
        out@ =~= spec_enc_db(db@),
{
    let ghost v = db@;
    let mut out: Vec<u8> = Vec::new();
    let n = db.tables.len();
    emit_u64(&mut out, n as u64);
    let ghost base = out@;
    let mut k: usize = 0;
    proof {
        assert(v.skip(0) =~= v);
    }
    while k < n
        invariant
            k <= n,
            n == v.len(),
            v == db@,
            spec_db_enc_ok(v),
            base + spec_enc_entries(v) =~= out@ + spec_enc_entries(v.skip(k as int)),
        decreases n - k,
    {
        proof {
            let restk = v.skip(k as int);
            assert(restk[0] == v[k as int]);
            assert(restk.drop_first() =~= v.skip(k as int + 1));
            assert(v[k as int] == db.tables@[k as int]@);
        }
        let entry = &db.tables[k];
        emit_str(&mut out, entry.name.as_str());
        emit_table(&mut out, &entry.table);
        k = k + 1;
    }
    proof {
        assert(spec_enc_entries(v.skip(n as int)) =~= Seq::<u8>::empty());
        assert(out@ =~= base + spec_enc_entries(v));
    }
    out
}

/// Reads one value.
fn read_value(s: &Vec<u8>, i: usize) -> (r: Option<(crate::value::Value, usize)>)
    ensures
        match spec_dec_value(s@, i as int) {
            Some(p) => r matches Some(x) && x.0@ == p.0 && x.1 as int == p.1,
            None => r matches None,
        },
{
    let (tag, j) = match read_u64(s, i) {
        None => {
            return None;
        },
        Some(p) => p,
    };
    if tag == 0 {
        Some((crate::value::Value::from_null(), j))
    } else if tag == 1 {
        let (v, j2) = match read_u64(s, j) {
            None => {
                return None;
            },
            Some(p) => p,
        };
        if v > 0xffff_ffff {
            return None;
        }
        let x: i64 = (v as i64) - 0x8000_0000i64;
        Some((crate::value::Value::from_int(x as i32), j2))
    } else if tag == 2 {
        let (t, j2) = match read_str(s, j) {
            None => {
                return None;
            },
            Some(p) => p,
        };
        Some((crate::value::Value::from_varchar(t), j2))
    } else {
        None
    }
}

/// Reads one tuple.
fn read_row(s: &Vec<u8>, i: usize) -> (r: Option<(Vec<crate::value::Value>, usize)>)
    ensures
        match spec_dec_row(s@, i as int) {
            Some(p) => r matches Some(x) && crate::table::spec_row_view(x.0@) == p.0 && x.1 as int
                == p.1,
            None => r matches None,
        },
{
    let (n, start) = match read_u64(s, i) {
        None => {
            return None;
        },
        Some(p) => p,
    };
    let mut row: Vec<crate::value::Value> = Vec::new();
    let mut pos = start;
    let mut left = n;
    proof {
        assert(crate::table::spec_row_view(row@) =~= Seq::<ValueV>::empty());
        assert forall|vs: Seq<ValueV>| true implies crate::table::spec_row_view(row@) + vs =~= vs
            by {}
    }
    while left > 0
        invariant
            spec_dec_row(s@, i as int) == (match spec_dec_values(s@, pos as int, left as int) {
                None => None::<(Seq<ValueV>, int)>,
                Some((vs, j)) => Some((crate::table::spec_row_view(row@) + vs, j)),
            }),
        decreases left,
    {
        let ghost pre = crate::table::spec_row_view(row@);
        let rv = read_value(s, pos);
        let (v, pos2) = match rv {
            None => {
                return None;
            },
            Some(p) => p,
        };
        row.push(v);
        proof {
            assert(crate::table::spec_row_view(row@) =~= pre.push(row@.last()@));
            let tailr = spec_dec_values(s@, pos2 as int, left as int - 1);
            match tailr {
                None => {},
                Some((vs, j)) => {
                    assert(pre + (seq![row@.last()@] + vs) =~= crate::table::spec_row_view(row@)
                        + vs);
                },
            }
        }
        pos = pos2;
        left = left - 1;
    }
    proof {
        assert(spec_dec_values(s@, pos as int, 0) == Some((Seq::<ValueV>::empty(), pos as int)));
        assert(crate::table::spec_row_view(row@) + Seq::<ValueV>::empty()
            =~= crate::table::spec_row_view(row@));
    }
    Some((row, pos))
}

/// Reads one slot.
fn read_slot(s: &Vec<u8>, i: usize) -> (r: Option<(crate::table::RowSlot, usize)>)
    ensures
        match spec_dec_slot(s@, i as int) {
            Some(p) => r matches Some(x) && x.0@ == p.0 && x.1 as int == p.1,
            None => r matches None,
        },
{
    let (id, j) = match read_u64(s, i) {
        None => {
            return None;
        },
        Some(p) => p,
    };
    if id > usize::MAX as u64 {
        return None;
    }
    let (tag, j2) = match read_u64(s, j) {
        None => {
            return None;
        },
        Some(p) => p,
    };
    if tag == 0 {
        let slot = crate::table::RowSlot { id: id as usize, cells: None };
        proof {
            assert(slot@ =~= spec_dec_slot(s@, i as int)->Some_0.0);
        }
        Some((slot, j2))
    } else if tag == 1 {
        let (row, j3) = match read_row(s, j2) {
            None => {
                return None;
            },
            Some(p) => p,
        };
        let slot = crate::table::RowSlot { id: id as usize, cells: Some(row) };
        proof {
            assert(slot@ =~= spec_dec_slot(s@, i as int)->Some_0.0);
        }
        Some((slot, j3))
    } else {
        None
    }
}

/// Reads one column.
fn read_col(s: &Vec<u8>, i: usize) -> (r: Option<(crate::column_info::ColumnInfo, usize)>)
    ensures
        match spec_dec_col(s@, i as int) {
            Some(p) => r matches Some(x) && x.0@ == p.0 && x.1 as int == p.1,
            None => r matches None,
        },
{
    let (name, j) = match read_str(s, i) {
        None => {
            return None;
        },
        Some(p) => p,
    };
    let (ntag, j2) = match read_u64(s, j) {
        None => {
            return None;
        },
        Some(p) => p,
    };
    if ntag > 1 {
        return None;
    }
    let nullable = ntag == 1;
    let (utag, j3) = match read_u64(s, j2) {
        None => {
            return None;
        },
        Some(p) => p,
    };
    if utag > 1 {
        return None;
    }
    let unique = utag == 1;
    let (ttag, j4) = match read_u64(s, j3) {
        None => {
            return None;
        },
        Some(p) => p,
    };
    let (type_specific, j5) = if ttag == 0 {
        let (wtag, j5) = match read_u64(s, j4) {
            None => {
                return None;
            },
            Some(p) => p,
        };
        if wtag == 0 {
            (crate::column_info::ColumnTypeSpecific::Int { display_width: None }, j5)
        } else if wtag == 1 {
            let (w, j6) = match read_u64(s, j5) {
                None => {
                    return None;
                },
                Some(p) => p,
            };
            (crate::column_info::ColumnTypeSpecific::Int { display_width: Some(w) }, j6)
        } else {
            return None;
        }
    } else if ttag == 1 {
        let (m, j5) = match read_u64(s, j4) {
            None => {
                return None;
            },
            Some(p) => p,
        };
        (crate::column_info::ColumnTypeSpecific::Varchar { max_length: m }, j5)
    } else if ttag == 2 {
        (crate::column_info::ColumnTypeSpecific::Any, j4)
    } else {
        return None;
    };
    let col = crate::column_info::ColumnInfo { name, nullable, unique, type_specific };
    proof {
        assert(col@ =~= spec_dec_col(s@, i as int)->Some_0.0);
    }
    Some((col, j5))
}

/// The rebuilt column list holds no nulls and exactly the live values.
pub proof fn lemma_rebuild_col_props(rows: Seq<RowSlotV>, c: int)
    ensures
        !spec_set_has(spec_rebuild_col(rows, c), ValueV::Null),
        forall|v: ValueV|
            v != ValueV::Null ==> (#[trigger] spec_set_has(spec_rebuild_col(rows, c), v)
                <==> spec_live_col_has(rows, c, v)),
    decreases rows.len(),
{
    let rb = spec_rebuild_col(rows, c);
    if rows.len() == 0 {
        assert forall|v: ValueV| v != ValueV::Null implies (#[trigger] spec_set_has(rb, v)
            <==> spec_live_col_has(rows, c, v)) by {
            assert(!spec_set_has(rb, v));
            assert(!spec_live_col_has(rows, c, v));
        }
    } else {
        let pre = rows.drop_last();
        lemma_rebuild_col_props(pre, c);
        let prb = spec_rebuild_col(pre, c);
        let tailpart = (match rows.last().cells {
            None => Seq::<ValueV>::empty(),
            Some(row) => if 0 <= c < row.len() && row[c] != ValueV::Null {
                seq![row[c]]
            } else {
                Seq::<ValueV>::empty()
            },
        });
        assert(rb == prb + tailpart);
        assert(!spec_set_has(rb, ValueV::Null)) by {
            if spec_set_has(rb, ValueV::Null) {
                let k = choose|k: int| 0 <= k < rb.len() && rb[k] == ValueV::Null;
                if k < prb.len() {
                    assert(prb[k] == ValueV::Null);
                    assert(spec_set_has(prb, ValueV::Null));
                } else {
                    assert(tailpart[k - prb.len()] == ValueV::Null);
                }
            }
        }
        assert forall|v: ValueV| v != ValueV::Null implies (#[trigger] spec_set_has(rb, v)
            <==> spec_live_col_has(rows, c, v)) by {
            assert(forall|p: int| 0 <= p < pre.len() ==> pre[p] == rows[p]);
            if spec_set_has(rb, v) {
                let k = choose|k: int| 0 <= k < rb.len() && rb[k] == v;
                if k < prb.len() {
                    assert(spec_set_has(prb, v));
                    assert(spec_live_col_has(pre, c, v));
                    let p = choose|p: int|
                        {
                            &&& 0 <= p < pre.len()
                            &&& (#[trigger] pre[p].cells) matches Some(cells)
                            &&& 0 <= c < cells.len()
                            &&& cells[c] == v
                        };
                    assert(rows[p] == pre[p]);
                    assert(spec_live_col_has(rows, c, v));
                } else {
                    assert(tailpart.len() > 0);
                    assert(rows[rows.len() - 1].cells matches Some(row) && 0 <= c < row.len()
                        && row[c] == v);
                    assert(spec_live_col_has(rows, c, v));
                }
            }
            if spec_live_col_has(rows, c, v) {
                let p = choose|p: int|
                    {
                        &&& 0 <= p < rows.len()
                        &&& (#[trigger] rows[p].cells) matches Some(cells)
                        &&& 0 <= c < cells.len()
                        &&& cells[c] == v
                    };
                if p < rows.len() - 1 {
                    assert(pre[p] == rows[p]);
                    assert(spec_live_col_has(pre, c, v));
                    assert(spec_set_has(prb, v));
                    let k = choose|k: int| 0 <= k < prb.len() && prb[k] == v;
                    assert(rb[k] == v);
                } else {
                    assert(tailpart == seq![v]);
                    assert(rb[prb.len() as int] == v);
                }
            }
        }
    }
}

/// A duplicate-free rebuilt column means no two live rows share a
/// non-null value there.
pub proof fn lemma_rebuild_no_dup_live(rows: Seq<RowSlotV>, c: int, p: int, q: int)
    requires
        spec_no_dup(spec_rebuild_col(rows, c)),
        0 <= p < q < rows.len(),
        rows[p].cells is Some,
        rows[q].cells is Some,
        0 <= c < rows[p].cells->Some_0.len(),
        0 <= c < rows[q].cells->Some_0.len(),
        rows[p].cells->Some_0[c] == rows[q].cells->Some_0[c],
    ensures
        rows[p].cells->Some_0[c] == ValueV::Null,
    decreases rows.len(),
{
    let v = rows[p].cells->Some_0[c];
    if v != ValueV::Null {
        let pre = rows.drop_last();
        let prb = spec_rebuild_col(pre, c);
        let rb = spec_rebuild_col(rows, c);
        assert(forall|x: int| 0 <= x < pre.len() ==> pre[x] == rows[x]);
        if q == rows.len() - 1 {
            assert(rb == prb + seq![v]);
            lemma_rebuild_col_props(pre, c);
            assert(spec_live_col_has(pre, c, v)) by {
                assert(pre[p].cells is Some);
            }
            assert(spec_set_has(prb, v));
            let k = choose|k: int| 0 <= k < prb.len() && prb[k] == v;
            assert(rb[k] == v);
            assert(rb[prb.len() as int] == v);
        } else {
            assert(spec_no_dup(prb)) by {
                let tailpart = (match rows.last().cells {
                    None => Seq::<ValueV>::empty(),
                    Some(row) => if 0 <= c < row.len() && row[c] != ValueV::Null {
                        seq![row[c]]
                    } else {
                        Seq::<ValueV>::empty()
                    },
                });
                assert(rb == prb + tailpart);
                assert forall|x: int, y: int| 0 <= x < y < prb.len() implies prb[x] != prb[y] by {
                    assert(rb[x] == prb[x] && rb[y] == prb[y]);
                }
            }
            lemma_rebuild_no_dup_live(pre, c, p, q);
        }
    }
}

/// Rebuilding distributes over splitting the slots.
pub proof fn lemma_rebuild_append(a: Seq<RowSlotV>, b: Seq<RowSlotV>, c: int)
    ensures
        spec_rebuild_col(a + b, c) == spec_rebuild_col(a, c) + spec_rebuild_col(b, c),
    decreases b.len(),
{
    if b.len() == 0 {
        assert(a + b =~= a);
        assert(spec_rebuild_col(b, c) =~= Seq::<ValueV>::empty());
        assert(spec_rebuild_col(a, c) + spec_rebuild_col(b, c) =~= spec_rebuild_col(a, c));
    } else {
        lemma_rebuild_append(a, b.drop_last(), c);
        assert((a + b).drop_last() =~= a + b.drop_last());
        assert((a + b).last() == b.last());
        assert(spec_rebuild_col(a, c) + (spec_rebuild_col(b.drop_last(), c) + (
        match b.last().cells {
            None => Seq::<ValueV>::empty(),
            Some(row) => if 0 <= c < row.len() && row[c] != ValueV::Null {
                seq![row[c]]
            } else {
                Seq::<ValueV>::empty()
            },
        })) =~= (spec_rebuild_col(a, c) + spec_rebuild_col(b.drop_last(), c)) + (
        match b.last().cells {
            None => Seq::<ValueV>::empty(),
            Some(row) => if 0 <= c < row.len() && row[c] != ValueV::Null {
                seq![row[c]]
            } else {
                Seq::<ValueV>::empty()
            },
        }));
    }
}

/// A duplicate among the first slots stays a duplicate overall.
pub proof fn lemma_rebuild_prefix_dup(rows: Seq<RowSlotV>, i: int, c: int)
    requires
        0 <= i <= rows.len(),
        !spec_no_dup(spec_rebuild_col(rows.take(i), c)),
    ensures
        !spec_no_dup(spec_rebuild_col(rows, c)),
{
    lemma_rebuild_append(rows.take(i), rows.skip(i), c);
    assert(rows.take(i) + rows.skip(i) =~= rows);
    let pre = spec_rebuild_col(rows.take(i), c);
    let full = spec_rebuild_col(rows, c);
    let (p, q) = choose|p: int, q: int| 0 <= p < q < pre.len() && pre[p] == pre[q];
    assert(full[p] == pre[p] && full[q] == pre[q]);
}

/// Reads and validates one table: the stored shape with its uniqueness
/// sets rebuilt, accepted only when well-formed.
#[verifier::rlimit(100)]
pub fn decode_table(s: &Vec<u8>, i: usize) -> (r: Option<(crate::table::Table, usize)>)
    ensures
        match spec_dec_table(s@, i as int) {
            Some(p) => r matches Some(x) && x.0@ == p.0 && x.1 as int == p.1 && x.0@.wf(),
            None => r matches None,
        },
{
    let raw = decode_table_raw(s, i);
    let (mut t, j) = match raw {
        None => {
            return None;
        },
        Some(p) => p,
    };
    let ghost rawv = spec_dec_table_raw(s@, i as int)->Some_0.0;
    proof {
        assert(t@.rows == rawv.rows && t@.columns_info == rawv.columns_info && t@.row_idx_acc
            == rawv.row_idx_acc && t@.row_num == rawv.row_num);
        assert(rawv.columns_values == spec_rebuild_sets(rawv.columns_info, rawv.rows));
    }
    // rebuild the uniqueness sets, rejecting duplicates
    let width = t.columns_info.len();
    let mut columns_values: Vec<Vec<crate::value::Value>> = Vec::new();
    let mut c: usize = 0;
    while c < width
        invariant
            c <= width,
            width == rawv.columns_info.len(),
            spec_dec_table_raw(s@, i as int) is Some,
            rawv == spec_dec_table_raw(s@, i as int)->Some_0.0,
            t@.rows == rawv.rows,
            t@.columns_info == rawv.columns_info,
            rawv.columns_values == spec_rebuild_sets(rawv.columns_info, rawv.rows),
            columns_values@.len() == c,
            forall|x: int|
                0 <= x < c ==> spec_set_view((#[trigger] columns_values@[x])@)
                    == rawv.columns_values[x],
            forall|x: int|
                0 <= x < c && rawv.columns_info[x].unique ==> spec_no_dup(
                    #[trigger] rawv.columns_values[x],
                ),
        decreases width - c,
    {
        if t.columns_info[c].unique {
            let nrows = t.rows.len();
            let mut cv: Vec<crate::value::Value> = Vec::new();
            let mut x: usize = 0;
            proof {
                assert(spec_set_view(cv@) =~= spec_rebuild_col(rawv.rows.take(0), c as int));
            }
            while x < nrows
                invariant
                    x <= nrows,
                    nrows == rawv.rows.len(),
                    spec_dec_table_raw(s@, i as int) is Some,
                    rawv == spec_dec_table_raw(s@, i as int)->Some_0.0,
                    t@.rows == rawv.rows,
                    t@.columns_info == rawv.columns_info,
                    0 <= c < width,
                    width == rawv.columns_info.len(),
                    rawv.columns_values == spec_rebuild_sets(rawv.columns_info, rawv.rows),
                    rawv.columns_info[c as int].unique,
                    spec_set_view(cv@) == spec_rebuild_col(rawv.rows.take(x as int), c as int),
                    spec_no_dup(spec_set_view(cv@)),
                decreases nrows - x,
            {
                let ghost pre = spec_set_view(cv@);
                proof {
                    assert(rawv.rows.take(x as int + 1).drop_last() =~= rawv.rows.take(x as int));
                    assert(rawv.rows.take(x as int + 1).last() == rawv.rows[x as int]);
                }
                match &t.rows[x].cells {
                    None => {
                        proof {
                            assert(rawv.rows[x as int].cells is None);
                            assert(spec_set_view(cv@) =~= spec_rebuild_col(
                                rawv.rows.take(x as int + 1),
                                c as int,
                            ));
                        }
                    },
                    Some(row) => {
                        if c < row.len() && !row[c].is_null() {
                            if crate::transitions::set_contains(&cv, &row[c]) {
                                proof {
                                    let newrb = spec_rebuild_col(
                                        rawv.rows.take(x as int + 1),
                                        c as int,
                                    );
                                    assert(rawv.rows[x as int].cells == Some(
                                        crate::table::spec_row_view(row@),
                                    ));
                                    assert(newrb =~= pre.push(row@[c as int]@));
                                    let k = choose|k: int|
                                        0 <= k < pre.len() && pre[k] == row@[c as int]@;
                                    assert(newrb[k] == newrb[pre.len() as int]);
                                    assert(!spec_no_dup(newrb));
                                    lemma_rebuild_prefix_dup(rawv.rows, x as int + 1, c as int);
                                    assert(!rawv.unique_set_correct(c as int));
                                    assert(!rawv.wf());
                                }
                                return None;
                            }
                            let v2 = row[c].duplicate();
                            cv.push(v2);
                            proof {
                                assert(rawv.rows[x as int].cells == Some(
                                    crate::table::spec_row_view(row@),
                                ));
                                assert(spec_set_view(cv@) =~= pre.push(row@[c as int]@));
                                assert(spec_set_view(cv@) =~= spec_rebuild_col(
                                    rawv.rows.take(x as int + 1),
                                    c as int,
                                ));
                            }
                        } else {
                            proof {
                                assert(rawv.rows[x as int].cells == Some(
                                    crate::table::spec_row_view(row@),
                                ));
                                assert(spec_set_view(cv@) =~= spec_rebuild_col(
                                    rawv.rows.take(x as int + 1),
                                    c as int,
                                ));
                            }
                        }
                    },
                }
                x = x + 1;
            }
            proof {
                assert(rawv.rows.take(nrows as int) =~= rawv.rows);
            }
            columns_values.push(cv);
        } else {
            let cv: Vec<crate::value::Value> = Vec::new();
            proof {
                assert(spec_set_view(cv@) =~= Seq::<ValueV>::empty());
            }
            columns_values.push(cv);
        }
        c = c + 1;
    }
    t.columns_values = columns_values;
    proof {
        assert(t@.columns_values =~= rawv.columns_values);
        assert(t@ =~= rawv);
    }
    // the remaining well-formedness checks
    if !check_table_shape(&t) {
        return None;
    }
    proof {
        assert(t@.sets_correct()) by {
            assert forall|c2: int|
                0 <= c2 < rawv.col_count() && rawv.columns_info[c2].unique implies #[trigger] rawv.unique_set_correct(
                c2,
            ) by {
                lemma_rebuild_col_props(rawv.rows, c2);
                assert(rawv.columns_values[c2] == spec_rebuild_col(rawv.rows, c2));
                assert(spec_no_dup(rawv.columns_values[c2]));
                assert(rawv.no_live_dup(c2)) by {
                    assert forall|p: int, q: int|
                        0 <= p < q < rawv.rows.len() implies ((#[trigger] rawv.rows[p].cells)
                        matches Some(a) ==> ((#[trigger] rawv.rows[q].cells) matches Some(b) ==> (0
                        <= c2 < a.len() && 0 <= c2 < b.len() && a[c2] == b[c2] ==> a[c2]
                        == ValueV::Null))) by {
                        if rawv.rows[p].cells is Some && rawv.rows[q].cells is Some {
                            let a = rawv.rows[p].cells->Some_0;
                            let b = rawv.rows[q].cells->Some_0;
                            if 0 <= c2 < a.len() && 0 <= c2 < b.len() && a[c2] == b[c2] {
                                lemma_rebuild_no_dup_live(rawv.rows, c2, p, q);
                            }
                        }
                    }
                }
            }
        }
        assert(t@.wf());
    }
    Some((t, j))
}

/// Reads a column list.
fn read_cols(s: &Vec<u8>, j0: usize, nc: u64) -> (r: Option<(
    Vec<crate::column_info::ColumnInfo>,
    usize,
)>)
    ensures
        match spec_dec_cols(s@, j0 as int, nc as int) {
            Some(p) => r matches Some(x) && crate::table::spec_cols_view(x.0@) == p.0 && x.1 as int
                == p.1 && x.0@.len() == nc,
            None => r matches None,
        },
{
    let mut columns_info: Vec<crate::column_info::ColumnInfo> = Vec::new();
    let mut pos = j0;
    let mut left = nc;
    proof {
        assert(crate::table::spec_cols_view(columns_info@) =~= Seq::<ColumnInfoV>::empty());
        assert forall|cs: Seq<ColumnInfoV>|
            true implies crate::table::spec_cols_view(columns_info@) + cs =~= cs by {}
    }
    while left > 0
        invariant
            left <= nc,
            columns_info@.len() == nc - left,
            spec_dec_cols(s@, j0 as int, nc as int) == (match spec_dec_cols(
                s@,
                pos as int,
                left as int,
            ) {
                None => None::<(Seq<ColumnInfoV>, int)>,
                Some((cs, j)) => Some((crate::table::spec_cols_view(columns_info@) + cs, j)),
            }),
        decreases left,
    {
        let ghost pre = crate::table::spec_cols_view(columns_info@);
        let rc = read_col(s, pos);
        let (col, pos2) = match rc {
            None => {
                return None;
            },
            Some(p) => p,
        };
        columns_info.push(col);
        proof {
            assert(crate::table::spec_cols_view(columns_info@) =~= pre.push(
                columns_info@.last()@,
            ));
            match spec_dec_cols(s@, pos2 as int, left as int - 1) {
                None => {},
                Some((cs, j)) => {
                    assert(pre + (seq![columns_info@.last()@] + cs)
                        =~= crate::table::spec_cols_view(columns_info@) + cs);
                },
            }
        }
        pos = pos2;
        left = left - 1;
    }
    proof {
        assert(spec_dec_cols(s@, pos as int, 0) == Some((
            Seq::<ColumnInfoV>::empty(),
            pos as int,
        )));
        assert(crate::table::spec_cols_view(columns_info@) + Seq::<ColumnInfoV>::empty()
            =~= crate::table::spec_cols_view(columns_info@));
    }
    Some((columns_info, pos))
}

/// Reads a slot list.
fn read_slots(s: &Vec<u8>, j0: usize, nr: u64) -> (r: Option<(Vec<RowSlot>, usize)>)
    ensures
        match spec_dec_slots(s@, j0 as int, nr as int) {
            Some(p) => r matches Some(x) && crate::table::spec_rows_view(x.0@) == p.0 && x.1 as int
                == p.1 && x.0@.len() == nr,
            None => r matches None,
        },
{
    let mut rows: Vec<RowSlot> = Vec::new();
    let mut pos = j0;
    let mut left = nr;
    proof {
        assert(crate::table::spec_rows_view(rows@) =~= Seq::<RowSlotV>::empty());
        assert forall|rs: Seq<RowSlotV>|
            true implies crate::table::spec_rows_view(rows@) + rs =~= rs by {}
    }
    while left > 0
        invariant
            left <= nr,
            rows@.len() == nr - left,
            spec_dec_slots(s@, j0 as int, nr as int) == (match spec_dec_slots(
                s@,
                pos as int,
                left as int,
            ) {
                None => None::<(Seq<RowSlotV>, int)>,
                Some((rs, j)) => Some((crate::table::spec_rows_view(rows@) + rs, j)),
            }),
        decreases left,
    {
        let ghost pre = crate::table::spec_rows_view(rows@);
        let rs1 = read_slot(s, pos);
        let (slot, pos2) = match rs1 {
            None => {
                return None;
            },
            Some(p) => p,
        };
        rows.push(slot);
        proof {
            assert(crate::table::spec_rows_view(rows@) =~= pre.push(rows@.last()@));
            match spec_dec_slots(s@, pos2 as int, left as int - 1) {
                None => {},
                Some((rs, j)) => {
                    assert(pre + (seq![rows@.last()@] + rs) =~= crate::table::spec_rows_view(
                        rows@,
                    ) + rs);
                },
            }
        }
        pos = pos2;
        left = left - 1;
    }
    proof {
        assert(spec_dec_slots(s@, pos as int, 0) == Some((
            Seq::<RowSlotV>::empty(),
            pos as int,
        )));
        assert(crate::table::spec_rows_view(rows@) + Seq::<RowSlotV>::empty()
            =~= crate::table::spec_rows_view(rows@));
    }
    Some((rows, pos))
}

/// Reads the stored shape of one table, with empty uniqueness sets.
fn decode_table_raw(s: &Vec<u8>, i: usize) -> (r: Option<(crate::table::Table, usize)>)
    ensures
        match spec_dec_table_raw(s@, i as int) {
            Some(p) => if p.0.row_idx_acc <= usize::MAX && p.0.row_num <= usize::MAX
                && p.0.rows.len() <= usize::MAX && p.0.columns_info.len() <= usize::MAX {
                r matches Some(x) && x.0@.rows == p.0.rows && x.0@.columns_info == p.0.columns_info
                    && x.0@.row_idx_acc == p.0.row_idx_acc && x.0@.row_num == p.0.row_num && x.1 as int
                    == p.1 && x.0@.columns_values.len() == p.0.columns_info.len() && (forall|c: int|
                    0 <= c < p.0.columns_info.len() ==> (#[trigger] x.0@.columns_values[c]).len()
                        == 0)
            } else {
                r matches None
            },
            None => r matches None,
        },
{
    let (nc, j0) = match read_u64(s, i) {
        None => {
            return None;
        },
        Some(p) => p,
    };
    if nc > usize::MAX as u64 {
        proof {
            lemma_dec_cols_len(s@, j0 as int, nc as int);
        }
        return None;
    }
    let (columns_info, pos) = match read_cols(s, j0, nc) {
        None => {
            return None;
        },
        Some(p) => p,
    };
    let (nr, j1) = match read_u64(s, pos) {
        None => {
            return None;
        },
        Some(p) => p,
    };
    if nr > usize::MAX as u64 {
        proof {
            lemma_dec_slots_len(s@, j1 as int, nr as int);
        }
        return None;
    }
    let (rows, pos2) = match read_slots(s, j1, nr) {
        None => {
            return None;
        },
        Some(p) => p,
    };
    let (acc, j2) = match read_u64(s, pos2) {
        None => {
            return None;
        },
        Some(p) => p,
    };
    if acc > usize::MAX as u64 {
        return None;
    }
    let (num, j3) = match read_u64(s, j2) {
        None => {
            return None;
        },
        Some(p) => p,
    };
    if num > usize::MAX as u64 {
        return None;
    }
    let width2 = columns_info.len();
    let mut cvs: Vec<Vec<crate::value::Value>> = Vec::new();
    let mut c2: usize = 0;
    while c2 < width2
        invariant
            c2 <= width2,
            cvs@.len() == c2,
            forall|x: int| 0 <= x < c2 ==> (#[trigger] cvs@[x])@.len() == 0,
        decreases width2 - c2,
    {
        cvs.push(Vec::new());
        c2 = c2 + 1;
    }
    let t = crate::table::Table {
        rows,
        row_idx_acc: acc as usize,
        row_num: num as usize,
        columns_values: cvs,
        columns_info,
    };
    Some((t, j3))
}

/// Checks the stored shape of a table: id discipline, row sizing,
/// counters, unique column names and nullability.
fn check_table_shape(t: &crate::table::Table) -> (r: bool)
    ensures
        r == (t@.ids_increasing() && t@.rows_sized() && t@.acc_above_ids() && t@.row_num_correct()
            && t@.names_unique() && t@.nullability_correct()),
{
    let v = t;
    let ghost tv = t@;
    let n = t.rows.len();
    let width = t.columns_info.len();
    // ids strictly increase, stay below the allocator; rows are sized;
    // non-nullable columns hold no nulls; live slots are counted
    let mut live: usize = 0;
    let mut i: usize = 0;
    while i < n
        invariant
            i <= n,
            n == tv.rows.len(),
            tv == t@,
            width == tv.col_count(),
            live as int == crate::table::spec_live_count(tv.rows.take(i as int)),
            live <= i,
            forall|p: int, q: int|
                0 <= p < q < i ==> #[trigger] tv.rows[p].id < #[trigger] tv.rows[q].id,
            forall|p: int| 0 <= p < i ==> #[trigger] tv.rows[p].id < tv.row_idx_acc,
            forall|p: int|
                0 <= p < i ==> ((#[trigger] tv.rows[p].cells) matches Some(cells) ==> cells.len()
                    == tv.col_count()),
            forall|p: int, q: int|
                0 <= p < i && 0 <= q < width && !(#[trigger] tv.columns_info[q]).nullable ==> ((
                #[trigger] tv.rows[p].cells) matches Some(cells) ==> cells[q] != ValueV::Null),
        decreases n - i,
    {
        proof {
            assert(tv.rows.take(i as int + 1).drop_last() =~= tv.rows.take(i as int));
            assert(tv.rows.take(i as int + 1).last() == tv.rows[i as int]);
        }
        if i > 0 {
            if t.rows[i - 1].id >= t.rows[i].id {
                proof {
                    assert(!tv.ids_increasing()) by {
                        assert(tv.rows[i as int - 1].id >= tv.rows[i as int].id);
                    }
                }
                return false;
            }
        }
        if t.rows[i].id >= t.row_idx_acc {
            proof {
                assert(!tv.acc_above_ids()) by {
                    assert(tv.rows[i as int].id >= tv.row_idx_acc);
                }
            }
            return false;
        }
        match &t.rows[i].cells {
            None => {},
            Some(row) => {
                if row.len() != width {
                    proof {
                        assert(!tv.rows_sized()) by {
                            assert(tv.rows[i as int].cells == Some(
                                crate::table::spec_row_view(row@),
                            ));
                        }
                    }
                    return false;
                }
                let mut q: usize = 0;
                while q < width
                    invariant
                        q <= width,
                        width == tv.col_count(),
                        tv == t@,
                        0 <= i < tv.rows.len(),
                        tv.rows[i as int].cells == Some(crate::table::spec_row_view(row@)),
                        row@.len() == width,
                        forall|q2: int|
                            0 <= q2 < q && !(#[trigger] tv.columns_info[q2]).nullable
                                ==> crate::table::spec_row_view(row@)[q2] != ValueV::Null,
                    decreases width - q,
                {
                    if !t.columns_info[q].nullable && row[q].is_null() {
                        proof {
                            assert(!tv.nullability_correct()) by {
                                assert(tv.rows[i as int].cells == Some(
                                    crate::table::spec_row_view(row@),
                                ));
                                assert(crate::table::spec_row_view(row@)[q as int]
                                    == ValueV::Null);
                                assert(!tv.columns_info[q as int].nullable);
                            }
                        }
                        return false;
                    }
                    proof {
                        assert(crate::table::spec_row_view(row@)[q as int] == row@[q as int]@);
                    }
                    q = q + 1;
                }
                if live == usize::MAX {
                    proof {
                        crate::transitions::lemma_live_count_bound(tv.rows.take(i as int));
                        assert(false);
                    }
                    return false;
                }
                live = live + 1;
            },
        }
        i = i + 1;
    }
    proof {
        assert(tv.rows.take(n as int) =~= tv.rows);
        assert(tv.ids_increasing());
        assert(tv.acc_above_ids());
        assert(tv.rows_sized());
        assert(tv.nullability_correct());
    }
    if t.row_num != live {
        proof {
            assert(!tv.row_num_correct());
        }
        return false;
    }
    // unique column names
    let mut a: usize = 0;
    while a < width
        invariant
            a <= width,
            width == tv.col_count(),
            tv == t@,
            forall|p: int, q: int|
                0 <= p < q < a ==> (#[trigger] tv.columns_info[p].name) != (
                #[trigger] tv.columns_info[q].name),
        decreases width - a,
    {
        let mut b: usize = 0;
        while b < a
            invariant
                b <= a < width,
                width == tv.col_count(),
                tv == t@,
                forall|p: int|
                    0 <= p < b ==> (#[trigger] tv.columns_info[p].name) != tv.columns_info[a as int].name,
            decreases a - b,
        {
            if crate::value::str_eq(
                t.columns_info[b].name.as_str(),
                t.columns_info[a].name.as_str(),
            ) {
                proof {
                    assert(!tv.names_unique()) by {
                        assert(tv.columns_info[b as int].name == tv.columns_info[a as int].name);
                    }
                }
                return false;
            }
            b = b + 1;
        }
        a = a + 1;
    }
    true
}

/// A decoded list has as many items as its count asked for.
pub proof fn lemma_dec_cols_len(s: Seq<u8>, i: int, count: int)
    ensures
        spec_dec_cols(s, i, count) matches Some(p) ==> p.0.len() == (if count >= 0 {
            count
        } else {
            0
        }),
    decreases count,
{
    if count > 0 {
        if spec_dec_col(s, i) is Some {
            lemma_dec_cols_len(s, spec_dec_col(s, i)->Some_0.1, count - 1);
        }
    }
}

/// A decoded slot list has as many items as its count asked for.
pub proof fn lemma_dec_slots_len(s: Seq<u8>, i: int, count: int)
    ensures
        spec_dec_slots(s, i, count) matches Some(p) ==> p.0.len() == (if count >= 0 {
            count
        } else {
            0
        }),
    decreases count,
{
    if count > 0 {
        if spec_dec_slot(s, i) is Some {
            lemma_dec_slots_len(s, spec_dec_slot(s, i)->Some_0.1, count - 1);
        }
    }
}

/// Reads and validates the whole catalog: every byte must be consumed,
/// every table well-formed, every table name unique.
pub fn decode_database(s: &Vec<u8>) -> (r: Option<crate::database::Database>)
    ensures
        match spec_dec_db(s@) {
            Some(dbv) => r matches Some(db) && db@ == dbv && db.wf(),
            None => r matches None,
        },
{
    let (n, j0) = match read_u64(s, 0) {
        None => {
            return None;
        },
        Some(p) => p,
    };
    let mut tables: Vec<crate::database::DbEntry> = Vec::new();
    let mut pos = j0;
    let mut left = n;
    proof {
        assert(crate::database::spec_db_view(tables@) =~= Seq::<DbEntryV>::empty());
        assert forall|es: Seq<DbEntryV>|
            true implies crate::database::spec_db_view(tables@) + es =~= es by {}
    }
    while left > 0
        invariant
            spec_dec_u64(s@, 0) == Some((n, j0 as int)),
            spec_dec_entries(s@, j0 as int, n as int) == (match spec_dec_entries(
                s@,
                pos as int,
                left as int,
            ) {
                None => None::<(Seq<DbEntryV>, int)>,
                Some((es, j)) => Some((crate::database::spec_db_view(tables@) + es, j)),
            }),
            forall|x: int|
                0 <= x < tables@.len() ==> (#[trigger] tables@[x]@).table.wf(),
        decreases left,
    {
        let ghost pre = crate::database::spec_db_view(tables@);
        let rn = read_str(s, pos);
        let (name, pos2) = match rn {
            None => {
                return None;
            },
            Some(p) => p,
        };
        let rt = decode_table(s, pos2);
        let (table, pos3) = match rt {
            None => {
                return None;
            },
            Some(p) => p,
        };
        tables.push(crate::database::DbEntry { name, table });
        proof {
            assert(crate::database::spec_db_view(tables@) =~= pre.push(tables@.last()@));
            match spec_dec_entries(s@, pos3 as int, left as int - 1) {
                None => {},
                Some((es, j)) => {
                    assert(pre + (seq![tables@.last()@] + es) =~= crate::database::spec_db_view(
                        tables@,
                    ) + es);
                },
            }
        }
        pos = pos3;
        left = left - 1;
    }
    proof {
        assert(spec_dec_entries(s@, pos as int, 0) == Some((
            Seq::<DbEntryV>::empty(),
            pos as int,
        )));
        assert(crate::database::spec_db_view(tables@) + Seq::<DbEntryV>::empty()
            =~= crate::database::spec_db_view(tables@));
    }
    if pos != s.len() {
        return None;
    }
    // table names must be unique
    let m = tables.len();
    let ghost dbv = crate::database::spec_db_view(tables@);
    let mut a: usize = 0;
    while a < m
        invariant
            a <= m,
            m == tables@.len(),
            dbv == crate::database::spec_db_view(tables@),
            spec_dec_u64(s@, 0) == Some((n, j0 as int)),
            spec_dec_entries(s@, j0 as int, n as int) == Some((dbv, s@.len() as int)),
            forall|p: int, q: int|
                0 <= p < q < a ==> (#[trigger] dbv[p].name) != (#[trigger] dbv[q].name),
        decreases m - a,
    {
        let mut b: usize = 0;
        while b < a
            invariant
                b <= a < m,
                m == tables@.len(),
                dbv == crate::database::spec_db_view(tables@),
                spec_dec_u64(s@, 0) == Some((n, j0 as int)),
                spec_dec_entries(s@, j0 as int, n as int) == Some((dbv, s@.len() as int)),
                forall|p: int| 0 <= p < b ==> (#[trigger] dbv[p].name) != dbv[a as int].name,
            decreases a - b,
        {
            if crate::value::str_eq(tables[b].name.as_str(), tables[a].name.as_str()) {
                proof {
                    assert(dbv[b as int].name == dbv[a as int].name);
                    assert(spec_dec_db(s@) is None);
                }
                return None;
            }
            b = b + 1;
        }
        a = a + 1;
    }
    let db = crate::database::Database { tables };
    proof {
        assert(db@ == dbv);
        assert(crate::database::spec_db_wf(db@)) by {
            assert forall|x: int| 0 <= x < db@.len() implies (#[trigger] db@[x].table).wf() by {
                assert(db@[x] == db.tables@[x]@);
            }
        }
    }
    Some(db)
}

/// Decoding what was encoded gives the catalog back, with each table's
/// uniqueness sets rebuilt from its live rows.
pub proof fn lemma_db_round_trip(db: Seq<DbEntryV>)
    requires
        crate::database::spec_db_wf(db),
        spec_db_enc_ok(db),
    ensures
        ({
            let rebuilt = Seq::new(
                db.len(),
                |i: int|
                    DbEntryV {
                        name: db[i].name,
                        table: TableV {
                            columns_values: spec_rebuild_sets(
                                db[i].table.columns_info,
                                db[i].table.rows,
                            ),
                            ..db[i].table
                        },
                    },
            );
            spec_dec_db(spec_enc_db(db)) == Some(rebuilt) && (forall|i: int|
                0 <= i < db.len() ==> (#[trigger] rebuilt[i].table).wf()) && crate::database::spec_db_wf(rebuilt)
        }),
{
    vstd::bytes::lemma_auto_spec_u64_to_from_le_bytes();
    let s = spec_enc_db(db);
    let rebuilt = Seq::new(
        db.len(),
        |i: int|
            DbEntryV {
                name: db[i].name,
                table: TableV {
                    columns_values: spec_rebuild_sets(db[i].table.columns_info, db[i].table.rows),
                    ..db[i].table
                },
            },
    );
    assert(s.subrange(0, s.len() as int) =~= spec_enc_u64(db.len() as u64) + spec_enc_entries(db)
        + Seq::<u8>::empty()) by {
        assert(s.subrange(0, s.len() as int) =~= s);
        assert(spec_enc_entries(db) + Seq::<u8>::empty() =~= spec_enc_entries(db));
    }
    assert(s.subrange(0, s.len() as int) =~= spec_enc_u64(db.len() as u64) + (spec_enc_entries(db)
        + Seq::<u8>::empty()));
    lemma_u64_round(s, 0, db.len() as u64, spec_enc_entries(db) + Seq::<u8>::empty());
    assert(spec_enc_entries(db) + Seq::<u8>::empty() =~= spec_enc_entries(db));
    lemma_entries_round(s, 8, db, Seq::empty());
    let der = spec_dec_entries(s, 8, db.len() as int)->Some_0;
    assert(der.0 =~= rebuilt);
    assert(der.1 == s.len());
    assert forall|p: int, q: int| 0 <= p < q < rebuilt.len() implies (#[trigger] rebuilt[p].name)
        != (#[trigger] rebuilt[q].name) by {
        assert(db[p].name != db[q].name);
    }
    assert forall|i: int| 0 <= i < db.len() implies (#[trigger] rebuilt[i].table).wf() by {
        lemma_rebuilt_table_wf(db[i].table);
    }
    assert(spec_dec_db(s) == Some(der.0));
    assert(crate::database::spec_db_wf(rebuilt));
}

/// A well-formed table stays well-formed when its uniqueness sets are
/// rebuilt from its rows.
pub proof fn lemma_rebuilt_table_wf(t: TableV)
    requires
        t.wf(),
    ensures
        (TableV { columns_values: spec_rebuild_sets(t.columns_info, t.rows), ..t }.wf()),
{
    let t2 = TableV { columns_values: spec_rebuild_sets(t.columns_info, t.rows), ..t };
    assert(t2.ids_increasing());
    assert(t2.rows_sized());
    assert(t2.acc_above_ids());
    assert(t2.row_num_correct());
    assert(t2.names_unique());
    assert(t2.nullability_correct());
    assert forall|c: int|
        0 <= c < t2.col_count() && t2.columns_info[c].unique implies #[trigger] t2.unique_set_correct(
        c,
    ) by {
        assert(t.unique_set_correct(c));
        lemma_rebuild_col_props(t.rows, c);
        let rb = spec_rebuild_col(t.rows, c);
        assert(t2.columns_values[c] == rb);
        assert(spec_no_dup(rb)) by {
            lemma_rebuild_no_dup(t.rows, c);
        }
        assert(t2.no_live_dup(c));
    }
    assert(t2.sets_correct());
}

/// Distinct live rows never sharing a non-null value makes the rebuilt
/// column duplicate-free.
proof fn lemma_rebuild_no_dup(rows: Seq<RowSlotV>, c: int)
    requires
        forall|i: int, j: int|
            0 <= i < j < rows.len() ==> ((#[trigger] rows[i].cells) matches Some(a) ==> ((
            #[trigger] rows[j].cells) matches Some(b) ==> (0 <= c < a.len() && 0 <= c < b.len()
                && a[c] == b[c] ==> a[c] == ValueV::Null))),
    ensures
        spec_no_dup(spec_rebuild_col(rows, c)),
    decreases rows.len(),
{
    if rows.len() != 0 {
        let pre = rows.drop_last();
        let prb = spec_rebuild_col(pre, c);
        let rb = spec_rebuild_col(rows, c);
        assert(forall|x: int| 0 <= x < pre.len() ==> pre[x] == rows[x]);
        lemma_rebuild_no_dup(pre, c);
        assert forall|p: int, q: int| 0 <= p < q < rb.len() implies rb[p] != rb[q] by {
            if q < prb.len() {
                assert(rb[p] == prb[p] && rb[q] == prb[q]);
            } else {
                assert(rows.last().cells is Some);
                let row = rows.last().cells->Some_0;
                let v = row[c];
                assert(rb[q] == v && v != ValueV::Null);
                assert(rb[p] == prb[p]);
                if prb[p] == v {
                    lemma_rebuild_col_props(pre, c);
                    assert(crate::table::spec_set_has(prb, v));
                    assert(spec_live_col_has(pre, c, v));
                    let w = choose|w: int|
                        {
                            &&& 0 <= w < pre.len()
                            &&& (#[trigger] pre[w].cells) matches Some(cells)
                            &&& 0 <= c < cells.len()
                            &&& cells[c] == v
                        };
                    assert(rows[w].cells is Some);
                    assert(rows[rows.len() - 1].cells is Some);
                }
            }
        }
    }
}

pub proof fn lemma_value_round(s: Seq<u8>, i: int, v: ValueV, rest: Seq<u8>)
    requires
        0 <= i <= s.len(),
        spec_value_enc_ok(v),
        s.subrange(i, s.len() as int) =~= spec_enc_value(v) + rest,
    ensures
        spec_dec_value(s, i) == Some((v, i + spec_enc_value(v).len())),
        i + spec_enc_value(v).len() <= s.len(),
        s.subrange(i + spec_enc_value(v).len() as int, s.len() as int) =~= rest,
{
    vstd::bytes::lemma_auto_spec_u64_to_from_le_bytes();
    match v {
        ValueV::Null => {
            lemma_u64_round(s, i, 0, rest);
        },
        ValueV::Int(x) => {
            assert(s.subrange(i, s.len() as int) =~= spec_enc_u64(1) + (spec_enc_i32(x) + rest));
            lemma_u64_round(s, i, 1, spec_enc_i32(x) + rest);
            lemma_i32_round(s, i + 8, x, rest);
        },
        ValueV::Varchar(cs) => {
            assert(s.subrange(i, s.len() as int) =~= spec_enc_u64(2) + (spec_enc_str(cs) + rest));
            lemma_u64_round(s, i, 2, spec_enc_str(cs) + rest);
            lemma_str_round(s, i + 8, cs, rest);
        },
    }
}

pub proof fn lemma_values_round(s: Seq<u8>, i: int, row: Seq<ValueV>, rest: Seq<u8>)
    requires
        0 <= i <= s.len(),
        forall|c: int| 0 <= c < row.len() ==> spec_value_enc_ok(#[trigger] row[c]),
        s.subrange(i, s.len() as int) =~= spec_enc_values(row) + rest,
    ensures
        spec_dec_values(s, i, row.len() as int) == Some((row, i + spec_enc_values(row).len())),
        i + spec_enc_values(row).len() <= s.len(),
        s.subrange(i + spec_enc_values(row).len() as int, s.len() as int) =~= rest,
    decreases row.len(),
{
    vstd::bytes::lemma_auto_spec_u64_to_from_le_bytes();
    if row.len() == 0 {
        assert(spec_enc_values(row) =~= Seq::<u8>::empty());
        assert(s.subrange(i, s.len() as int) =~= rest);
        assert(Seq::<ValueV>::empty() =~= row);
    } else {
        let tail = row.drop_first();
        assert(s.subrange(i, s.len() as int) =~= spec_enc_value(row[0]) + (spec_enc_values(tail)
            + rest));
        lemma_value_round(s, i, row[0], spec_enc_values(tail) + rest);
        assert(forall|c: int| 0 <= c < tail.len() ==> tail[c] == row[c + 1]);
        lemma_values_round(s, i + spec_enc_value(row[0]).len() as int, tail, rest);
        assert(seq![row[0]] + tail =~= row);
    }
}

pub proof fn lemma_row_round(s: Seq<u8>, i: int, row: Seq<ValueV>, rest: Seq<u8>)
    requires
        0 <= i <= s.len(),
        row.len() <= 0xffff_ffff,
        forall|c: int| 0 <= c < row.len() ==> spec_value_enc_ok(#[trigger] row[c]),
        s.subrange(i, s.len() as int) =~= spec_enc_row(row) + rest,
    ensures
        spec_dec_row(s, i) == Some((row, i + spec_enc_row(row).len())),
        i + spec_enc_row(row).len() <= s.len(),
        s.subrange(i + spec_enc_row(row).len() as int, s.len() as int) =~= rest,
{
    vstd::bytes::lemma_auto_spec_u64_to_from_le_bytes();
    assert(s.subrange(i, s.len() as int) =~= spec_enc_u64(row.len() as u64) + (spec_enc_values(row)
        + rest));
    lemma_u64_round(s, i, row.len() as u64, spec_enc_values(row) + rest);
    lemma_values_round(s, i + 8, row, rest);
}

pub proof fn lemma_slot_round(s: Seq<u8>, i: int, r: RowSlotV, rest: Seq<u8>)
    requires
        0 <= i <= s.len(),
        0 <= r.id <= usize::MAX,
        (r.cells matches Some(row) ==> row.len() <= 0xffff_ffff && (forall|c: int|
            0 <= c < row.len() ==> spec_value_enc_ok(#[trigger] row[c]))),
        s.subrange(i, s.len() as int) =~= spec_enc_slot(r) + rest,
    ensures
        spec_dec_slot(s, i) == Some((r, i + spec_enc_slot(r).len())),
        i + spec_enc_slot(r).len() <= s.len(),
        s.subrange(i + spec_enc_slot(r).len() as int, s.len() as int) =~= rest,
{
    vstd::bytes::lemma_auto_spec_u64_to_from_le_bytes();
    match r.cells {
        None => {
            assert(s.subrange(i, s.len() as int) =~= spec_enc_u64(r.id as u64) + (spec_enc_u64(0)
                + rest));
            lemma_u64_round(s, i, r.id as u64, spec_enc_u64(0) + rest);
            lemma_u64_round(s, i + 8, 0, rest);
        },
        Some(row) => {
            assert(s.subrange(i, s.len() as int) =~= spec_enc_u64(r.id as u64) + (spec_enc_u64(1)
                + (spec_enc_row(row) + rest)));
            lemma_u64_round(s, i, r.id as u64, spec_enc_u64(1) + (spec_enc_row(row) + rest));
            lemma_u64_round(s, i + 8, 1, spec_enc_row(row) + rest);
            lemma_row_round(s, i + 16, row, rest);
        },
    }
}

pub proof fn lemma_slots_round(s: Seq<u8>, i: int, rows: Seq<RowSlotV>, rest: Seq<u8>)
    requires
        0 <= i <= s.len(),
        forall|x: int| 0 <= x < rows.len() ==> 0 <= (#[trigger] rows[x]).id <= usize::MAX,
        forall|x: int|
            0 <= x < rows.len() ==> ((#[trigger] rows[x].cells) matches Some(row) ==> row.len()
                <= 0xffff_ffff && (forall|c: int|
                0 <= c < row.len() ==> spec_value_enc_ok(#[trigger] row[c]))),
        s.subrange(i, s.len() as int) =~= spec_enc_slots(rows) + rest,
    ensures
        spec_dec_slots(s, i, rows.len() as int) == Some((rows, i + spec_enc_slots(rows).len())),
        i + spec_enc_slots(rows).len() <= s.len(),
        s.subrange(i + spec_enc_slots(rows).len() as int, s.len() as int) =~= rest,
    decreases rows.len(),
{
    vstd::bytes::lemma_auto_spec_u64_to_from_le_bytes();
    if rows.len() == 0 {
        assert(spec_enc_slots(rows) =~= Seq::<u8>::empty());
        assert(s.subrange(i, s.len() as int) =~= rest);
        assert(Seq::<RowSlotV>::empty() =~= rows);
    } else {
        let tail = rows.drop_first();
        assert(s.subrange(i, s.len() as int) =~= spec_enc_slot(rows[0]) + (spec_enc_slots(tail)
            + rest));
        lemma_slot_round(s, i, rows[0], spec_enc_slots(tail) + rest);
        assert(forall|x: int| 0 <= x < tail.len() ==> tail[x] == rows[x + 1]);
        lemma_slots_round(s, i + spec_enc_slot(rows[0]).len() as int, tail, rest);
        assert(seq![rows[0]] + tail =~= rows);
    }
}

pub proof fn lemma_col_round(s: Seq<u8>, i: int, col: ColumnInfoV, rest: Seq<u8>)
    requires
        0 <= i <= s.len(),
        col.name.len() <= 0xffff_ffff,
        s.subrange(i, s.len() as int) =~= spec_enc_col(col) + rest,
    ensures
        spec_dec_col(s, i) == Some((col, i + spec_enc_col(col).len())),
        i + spec_enc_col(col).len() <= s.len(),
        s.subrange(i + spec_enc_col(col).len() as int, s.len() as int) =~= rest,
{
    vstd::bytes::lemma_auto_spec_u64_to_from_le_bytes();
    let bn = spec_enc_bool(col.nullable);
    let bu = spec_enc_bool(col.unique);
    let ty = spec_enc_coltype(col.type_specific);
    assert(s.subrange(i, s.len() as int) =~= spec_enc_str(col.name) + (bn + (bu + (ty + rest))));
    lemma_str_round(s, i, col.name, bn + (bu + (ty + rest)));
    let i1 = i + spec_enc_str(col.name).len() as int;
    lemma_u64_round(
        s,
        i1,
        if col.nullable {
            1
        } else {
            0
        },
        bu + (ty + rest),
    );
    let i2 = i1 + 8;
    lemma_u64_round(
        s,
        i2,
        if col.unique {
            1
        } else {
            0
        },
        ty + rest,
    );
    let i3 = i2 + 8;
    match col.type_specific {
        ColumnTypeV::Int { display_width } => {
            match display_width {
                None => {
                    assert(s.subrange(i3, s.len() as int) =~= spec_enc_u64(0) + (spec_enc_u64(0)
                        + rest));
                    lemma_u64_round(s, i3, 0, spec_enc_u64(0) + rest);
                    lemma_u64_round(s, i3 + 8, 0, rest);
                },
                Some(w) => {
                    assert(s.subrange(i3, s.len() as int) =~= spec_enc_u64(0) + (spec_enc_u64(1)
                        + (spec_enc_u64(w) + rest)));
                    lemma_u64_round(s, i3, 0, spec_enc_u64(1) + (spec_enc_u64(w) + rest));
                    lemma_u64_round(s, i3 + 8, 1, spec_enc_u64(w) + rest);
                    lemma_u64_round(s, i3 + 16, w, rest);
                },
            }
        },
        ColumnTypeV::Varchar { max_length } => {
            assert(s.subrange(i3, s.len() as int) =~= spec_enc_u64(1) + (spec_enc_u64(max_length)
                + rest));
            lemma_u64_round(s, i3, 1, spec_enc_u64(max_length) + rest);
            lemma_u64_round(s, i3 + 8, max_length, rest);
        },
        ColumnTypeV::Any => {
            assert(s.subrange(i3, s.len() as int) =~= spec_enc_u64(2) + rest);
            lemma_u64_round(s, i3, 2, rest);
        },
    }
}

pub proof fn lemma_cols_round(s: Seq<u8>, i: int, cols: Seq<ColumnInfoV>, rest: Seq<u8>)
    requires
        0 <= i <= s.len(),
        forall|x: int| 0 <= x < cols.len() ==> (#[trigger] cols[x].name).len() <= 0xffff_ffff,
        s.subrange(i, s.len() as int) =~= spec_enc_cols(cols) + rest,
    ensures
        spec_dec_cols(s, i, cols.len() as int) == Some((cols, i + spec_enc_cols(cols).len())),
        i + spec_enc_cols(cols).len() <= s.len(),
        s.subrange(i + spec_enc_cols(cols).len() as int, s.len() as int) =~= rest,
    decreases cols.len(),
{
    vstd::bytes::lemma_auto_spec_u64_to_from_le_bytes();
    if cols.len() == 0 {
        assert(spec_enc_cols(cols) =~= Seq::<u8>::empty());
        assert(s.subrange(i, s.len() as int) =~= rest);
        assert(Seq::<ColumnInfoV>::empty() =~= cols);
    } else {
        let tail = cols.drop_first();
        assert(s.subrange(i, s.len() as int) =~= spec_enc_col(cols[0]) + (spec_enc_cols(tail)
            + rest));
        lemma_col_round(s, i, cols[0], spec_enc_cols(tail) + rest);
        assert(forall|x: int| 0 <= x < tail.len() ==> tail[x] == cols[x + 1]);
        lemma_cols_round(s, i + spec_enc_col(cols[0]).len() as int, tail, rest);
        assert(seq![cols[0]] + tail =~= cols);
    }
}

pub proof fn lemma_table_round(s: Seq<u8>, i: int, t: TableV, rest: Seq<u8>)
    requires
        0 <= i <= s.len(),
        spec_table_enc_ok(t),
        s.subrange(i, s.len() as int) =~= spec_enc_table(t) + rest,
    ensures
        spec_dec_table_raw(s, i) == Some(
            (
                TableV { columns_values: spec_rebuild_sets(t.columns_info, t.rows), ..t },
                i + spec_enc_table(t).len(),
            ),
        ),
        i + spec_enc_table(t).len() <= s.len(),
        s.subrange(i + spec_enc_table(t).len() as int, s.len() as int) =~= rest,
{
    vstd::bytes::lemma_auto_spec_u64_to_from_le_bytes();
    let ec = spec_enc_cols(t.columns_info);
    let es = spec_enc_slots(t.rows);
    assert(s.subrange(i, s.len() as int) =~= spec_enc_u64(t.columns_info.len() as u64) + (ec + (
    spec_enc_u64(t.rows.len() as u64) + (es + (spec_enc_u64(t.row_idx_acc as u64) + (spec_enc_u64(
        t.row_num as u64,
    ) + rest))))));
    lemma_u64_round(
        s,
        i,
        t.columns_info.len() as u64,
        ec + (spec_enc_u64(t.rows.len() as u64) + (es + (spec_enc_u64(t.row_idx_acc as u64) + (
        spec_enc_u64(t.row_num as u64) + rest)))),
    );
    let i1 = i + 8;
    lemma_cols_round(
        s,
        i1,
        t.columns_info,
        spec_enc_u64(t.rows.len() as u64) + (es + (spec_enc_u64(t.row_idx_acc as u64) + (
        spec_enc_u64(t.row_num as u64) + rest))),
    );
    let i2 = i1 + ec.len() as int;
    lemma_u64_round(
        s,
        i2,
        t.rows.len() as u64,
        es + (spec_enc_u64(t.row_idx_acc as u64) + (spec_enc_u64(t.row_num as u64) + rest)),
    );
    let i3 = i2 + 8;
    lemma_slots_round(
        s,
        i3,
        t.rows,
        spec_enc_u64(t.row_idx_acc as u64) + (spec_enc_u64(t.row_num as u64) + rest),
    );
    let i4 = i3 + es.len() as int;
    lemma_u64_round(s, i4, t.row_idx_acc as u64, spec_enc_u64(t.row_num as u64) + rest);
    lemma_u64_round(s, i4 + 8, t.row_num as u64, rest);
}

pub proof fn lemma_entry_round(s: Seq<u8>, i: int, e: DbEntryV, rest: Seq<u8>)
    requires
        0 <= i <= s.len(),
        e.name.len() <= 0xffff_ffff,
        spec_table_enc_ok(e.table),
        e.table.wf(),
        s.subrange(i, s.len() as int) =~= spec_enc_entry(e) + rest,
    ensures
        spec_dec_entry(s, i) == Some(
            (
                DbEntryV {
                    name: e.name,
                    table: TableV {
                        columns_values: spec_rebuild_sets(e.table.columns_info, e.table.rows),
                        ..e.table
                    },
                },
                i + spec_enc_entry(e).len(),
            ),
        ),
        i + spec_enc_entry(e).len() <= s.len(),
        s.subrange(i + spec_enc_entry(e).len() as int, s.len() as int) =~= rest,
{
    vstd::bytes::lemma_auto_spec_u64_to_from_le_bytes();
    assert(s.subrange(i, s.len() as int) =~= spec_enc_str(e.name) + (spec_enc_table(e.table)
        + rest));
    lemma_str_round(s, i, e.name, spec_enc_table(e.table) + rest);
    let i1 = i + spec_enc_str(e.name).len() as int;
    lemma_table_round(s, i1, e.table, rest);
    let rb = TableV {
        columns_values: spec_rebuild_sets(e.table.columns_info, e.table.rows),
        ..e.table
    };
    lemma_rebuilt_table_wf(e.table);
    assert(rb.wf());
}

pub proof fn lemma_entries_round(s: Seq<u8>, i: int, db: Seq<DbEntryV>, rest: Seq<u8>)
    requires
        0 <= i <= s.len(),
        spec_db_enc_ok(db),
        forall|x: int| 0 <= x < db.len() ==> (#[trigger] db[x].table).wf(),
        s.subrange(i, s.len() as int) =~= spec_enc_entries(db) + rest,
    ensures
        ({
            let rebuilt = Seq::new(
                db.len(),
                |x: int|
                    DbEntryV {
                        name: db[x].name,
                        table: TableV {
                            columns_values: spec_rebuild_sets(
                                db[x].table.columns_info,
                                db[x].table.rows,
                            ),
                            ..db[x].table
                        },
                    },
            );
            spec_dec_entries(s, i, db.len() as int) == Some(
                (rebuilt, i + spec_enc_entries(db).len()),
            )
        }),
        i + spec_enc_entries(db).len() <= s.len(),
        s.subrange(i + spec_enc_entries(db).len() as int, s.len() as int) =~= rest,
    decreases db.len(),
{
    vstd::bytes::lemma_auto_spec_u64_to_from_le_bytes();
    let rebuilt = Seq::new(
        db.len(),
        |x: int|
            DbEntryV {
                name: db[x].name,
                table: TableV {
                    columns_values: spec_rebuild_sets(db[x].table.columns_info, db[x].table.rows),
                    ..db[x].table
                },
            },
    );
    if db.len() == 0 {
        assert(spec_enc_entries(db) =~= Seq::<u8>::empty());
        assert(s.subrange(i, s.len() as int) =~= rest);
        assert(Seq::<DbEntryV>::empty() =~= rebuilt);
    } else {
        let tail = db.drop_first();
        assert(s.subrange(i, s.len() as int) =~= spec_enc_entry(db[0]) + (spec_enc_entries(tail)
            + rest));
        lemma_entry_round(s, i, db[0], spec_enc_entries(tail) + rest);
        assert(forall|x: int| 0 <= x < tail.len() ==> tail[x] == db[x + 1]);
        lemma_entries_round(s, i + spec_enc_entry(db[0]).len() as int, tail, rest);
        let tail_rebuilt = Seq::new(
            tail.len(),
            |x: int|
                DbEntryV {
                    name: tail[x].name,
                    table: TableV {
                        columns_values: spec_rebuild_sets(
                            tail[x].table.columns_info,
                            tail[x].table.rows,
                        ),
                        ..tail[x].table
                    },
                },
        );
        assert(seq![
            DbEntryV {
                name: db[0].name,
                table: TableV {
                    columns_values: spec_rebuild_sets(db[0].table.columns_info, db[0].table.rows),
                    ..db[0].table
                },
            },
        ] + tail_rebuilt =~= rebuilt);
    }
}

pub proof fn lemma_value_canon(s: Seq<u8>, i: int)
    requires
        0 <= i <= s.len(),
        spec_dec_value(s, i) is Some,
    ensures
        ({
            let (v, j) = spec_dec_value(s, i)->Some_0;
            spec_enc_value(v) =~= s.subrange(i, j) && i <= j <= s.len()
        }),
{
    vstd::bytes::lemma_auto_spec_u64_to_from_le_bytes();
    lemma_u64_canon(s, i);
    let (tag, j0) = spec_dec_u64(s, i)->Some_0;
    if tag == 0 {
    } else if tag == 1 {
        lemma_i32_canon(s, j0);
        let (x, j1) = spec_dec_i32(s, j0)->Some_0;
        assert(spec_enc_u64(1) + spec_enc_i32(x) =~= s.subrange(i, j0) + s.subrange(j0, j1));
        assert(s.subrange(i, j0) + s.subrange(j0, j1) =~= s.subrange(i, j1));
    } else {
        lemma_str_canon(s, j0);
        let (cs, j1) = spec_dec_str(s, j0)->Some_0;
        assert(spec_enc_u64(2) + spec_enc_str(cs) =~= s.subrange(i, j0) + s.subrange(j0, j1));
        assert(s.subrange(i, j0) + s.subrange(j0, j1) =~= s.subrange(i, j1));
    }
}

pub proof fn lemma_values_canon(s: Seq<u8>, i: int, count: int)
    requires
        0 <= i <= s.len(),
        spec_dec_values(s, i, count) is Some,
    ensures
        ({
            let (vs, j) = spec_dec_values(s, i, count)->Some_0;
            spec_enc_values(vs) =~= s.subrange(i, j) && i <= j <= s.len() && vs.len() == (if count
                >= 0 {
                count
            } else {
                0
            })
        }),
    decreases count,
{
    if count > 0 {
        lemma_value_canon(s, i);
        let (v, j0) = spec_dec_value(s, i)->Some_0;
        lemma_values_canon(s, j0, count - 1);
        let (vs, j1) = spec_dec_values(s, j0, count - 1)->Some_0;
        assert((seq![v] + vs).drop_first() =~= vs);
        assert((seq![v] + vs)[0] == v);
        assert(spec_enc_values(seq![v] + vs) =~= spec_enc_value(v) + spec_enc_values(vs));
        assert(spec_enc_value(v) + spec_enc_values(vs) =~= s.subrange(i, j0) + s.subrange(j0, j1));
        assert(s.subrange(i, j0) + s.subrange(j0, j1) =~= s.subrange(i, j1));
    }
}

pub proof fn lemma_row_canon(s: Seq<u8>, i: int)
    requires
        0 <= i <= s.len(),
        spec_dec_row(s, i) is Some,
    ensures
        ({
            let (row, j) = spec_dec_row(s, i)->Some_0;
            spec_enc_row(row) =~= s.subrange(i, j) && i <= j <= s.len()
        }),
{
    vstd::bytes::lemma_auto_spec_u64_to_from_le_bytes();
    lemma_u64_canon(s, i);
    let (n, j0) = spec_dec_u64(s, i)->Some_0;
    lemma_values_canon(s, j0, n as int);
    let (vs, j1) = spec_dec_values(s, j0, n as int)->Some_0;
    assert(vs.len() as u64 == n);
    assert(spec_enc_row(vs) =~= spec_enc_u64(n) + spec_enc_values(vs));
    assert(spec_enc_u64(n) + spec_enc_values(vs) =~= s.subrange(i, j0) + s.subrange(j0, j1));
    assert(s.subrange(i, j0) + s.subrange(j0, j1) =~= s.subrange(i, j1));
}

pub proof fn lemma_slot_canon(s: Seq<u8>, i: int)
    requires
        0 <= i <= s.len(),
        spec_dec_slot(s, i) is Some,
    ensures
        ({
            let (r, j) = spec_dec_slot(s, i)->Some_0;
            spec_enc_slot(r) =~= s.subrange(i, j) && i <= j <= s.len()
        }),
{
    vstd::bytes::lemma_auto_spec_u64_to_from_le_bytes();
    lemma_u64_canon(s, i);
    let (id, j0) = spec_dec_u64(s, i)->Some_0;
    lemma_u64_canon(s, j0);
    let (tag, j1) = spec_dec_u64(s, j0)->Some_0;
    let (r, j) = spec_dec_slot(s, i)->Some_0;
    assert(r.id as u64 == id);
    if tag == 0 {
        assert(spec_enc_slot(r) =~= spec_enc_u64(id) + spec_enc_u64(0));
        assert(spec_enc_u64(id) + spec_enc_u64(0) =~= s.subrange(i, j0) + s.subrange(j0, j1));
        assert(s.subrange(i, j0) + s.subrange(j0, j1) =~= s.subrange(i, j1));
    } else {
        lemma_row_canon(s, j1);
        let (row, j2) = spec_dec_row(s, j1)->Some_0;
        assert(spec_enc_slot(r) =~= spec_enc_u64(id) + (spec_enc_u64(1) + spec_enc_row(row)));
        assert(spec_enc_u64(id) + (spec_enc_u64(1) + spec_enc_row(row)) =~= s.subrange(i, j0) + (
        s.subrange(j0, j1) + s.subrange(j1, j2)));
        assert(s.subrange(i, j0) + (s.subrange(j0, j1) + s.subrange(j1, j2)) =~= s.subrange(
            i,
            j2,
        ));
    }
}

pub proof fn lemma_slots_canon(s: Seq<u8>, i: int, count: int)
    requires
        0 <= i <= s.len(),
        spec_dec_slots(s, i, count) is Some,
    ensures
        ({
            let (rs, j) = spec_dec_slots(s, i, count)->Some_0;
            spec_enc_slots(rs) =~= s.subrange(i, j) && i <= j <= s.len() && rs.len() == (if count
                >= 0 {
                count
            } else {
                0
            })
        }),
    decreases count,
{
    if count > 0 {
        lemma_slot_canon(s, i);
        let (r, j0) = spec_dec_slot(s, i)->Some_0;
        lemma_slots_canon(s, j0, count - 1);
        let (rs, j1) = spec_dec_slots(s, j0, count - 1)->Some_0;
        assert((seq![r] + rs).drop_first() =~= rs);
        assert((seq![r] + rs)[0] == r);
        assert(spec_enc_slots(seq![r] + rs) =~= spec_enc_slot(r) + spec_enc_slots(rs));
        assert(spec_enc_slot(r) + spec_enc_slots(rs) =~= s.subrange(i, j0) + s.subrange(j0, j1));
        assert(s.subrange(i, j0) + s.subrange(j0, j1) =~= s.subrange(i, j1));
    }
}

pub proof fn lemma_coltype_canon(s: Seq<u8>, i: int)
    requires
        0 <= i <= s.len(),
        spec_dec_coltype(s, i) is Some,
    ensures
        ({
            let (t, j) = spec_dec_coltype(s, i)->Some_0;
            spec_enc_coltype(t) =~= s.subrange(i, j) && i <= j <= s.len()
        }),
{
    vstd::bytes::lemma_auto_spec_u64_to_from_le_bytes();
    lemma_u64_canon(s, i);
    let (tag, j0) = spec_dec_u64(s, i)->Some_0;
    if tag == 0 {
        lemma_u64_canon(s, j0);
        let (wtag, j1) = spec_dec_u64(s, j0)->Some_0;
        if wtag == 0 {
            assert(spec_enc_u64(0) + spec_enc_u64(0) =~= s.subrange(i, j0) + s.subrange(j0, j1));
            assert(s.subrange(i, j0) + s.subrange(j0, j1) =~= s.subrange(i, j1));
        } else {
            lemma_u64_canon(s, j1);
            let (w, j2) = spec_dec_u64(s, j1)->Some_0;
            assert(spec_enc_u64(0) + (spec_enc_u64(1) + spec_enc_u64(w)) =~= s.subrange(i, j0) + (
            s.subrange(j0, j1) + s.subrange(j1, j2)));
            assert(s.subrange(i, j0) + (s.subrange(j0, j1) + s.subrange(j1, j2)) =~= s.subrange(
                i,
                j2,
            ));
        }
    } else if tag == 1 {
        lemma_u64_canon(s, j0);
        let (m, j1) = spec_dec_u64(s, j0)->Some_0;
        assert(spec_enc_u64(1) + spec_enc_u64(m) =~= s.subrange(i, j0) + s.subrange(j0, j1));
        assert(s.subrange(i, j0) + s.subrange(j0, j1) =~= s.subrange(i, j1));
    } else {
        assert(spec_enc_u64(2) =~= s.subrange(i, j0));
    }
}

pub proof fn lemma_bool_canon(s: Seq<u8>, i: int)
    requires
        0 <= i <= s.len(),
        spec_dec_bool(s, i) is Some,
    ensures
        ({
            let (b, j) = spec_dec_bool(s, i)->Some_0;
            spec_enc_bool(b) =~= s.subrange(i, j) && i <= j <= s.len()
        }),
{
    lemma_u64_canon(s, i);
}

pub proof fn lemma_col_canon(s: Seq<u8>, i: int)
    requires
        0 <= i <= s.len(),
        spec_dec_col(s, i) is Some,
    ensures
        ({
            let (col, j) = spec_dec_col(s, i)->Some_0;
            spec_enc_col(col) =~= s.subrange(i, j) && i <= j <= s.len()
        }),
{
    lemma_str_canon(s, i);
    let (name, j0) = spec_dec_str(s, i)->Some_0;
    lemma_bool_canon(s, j0);
    let (nullable, j1) = spec_dec_bool(s, j0)->Some_0;
    lemma_bool_canon(s, j1);
    let (unique, j2) = spec_dec_bool(s, j1)->Some_0;
    lemma_coltype_canon(s, j2);
    let (ty, j3) = spec_dec_coltype(s, j2)->Some_0;
    assert(spec_enc_str(name) + (spec_enc_bool(nullable) + (spec_enc_bool(unique)
        + spec_enc_coltype(ty))) =~= s.subrange(i, j0) + (s.subrange(j0, j1) + (s.subrange(j1, j2)
        + s.subrange(j2, j3))));
    assert(s.subrange(i, j0) + (s.subrange(j0, j1) + (s.subrange(j1, j2) + s.subrange(j2, j3)))
        =~= s.subrange(i, j3));
}

pub proof fn lemma_cols_canon(s: Seq<u8>, i: int, count: int)
    requires
        0 <= i <= s.len(),
        spec_dec_cols(s, i, count) is Some,
    ensures
        ({
            let (cols, j) = spec_dec_cols(s, i, count)->Some_0;
            spec_enc_cols(cols) =~= s.subrange(i, j) && i <= j <= s.len() && cols.len() == (
            if count >= 0 {
                count
            } else {
                0
            })
        }),
    decreases count,
{
    if count > 0 {
        lemma_col_canon(s, i);
        let (col, j0) = spec_dec_col(s, i)->Some_0;
        lemma_cols_canon(s, j0, count - 1);
        let (cols, j1) = spec_dec_cols(s, j0, count - 1)->Some_0;
        assert((seq![col] + cols).drop_first() =~= cols);
        assert((seq![col] + cols)[0] == col);
        assert(spec_enc_cols(seq![col] + cols) =~= spec_enc_col(col) + spec_enc_cols(cols));
        assert(spec_enc_col(col) + spec_enc_cols(cols) =~= s.subrange(i, j0) + s.subrange(j0, j1));
        assert(s.subrange(i, j0) + s.subrange(j0, j1) =~= s.subrange(i, j1));
    }
}

pub proof fn lemma_table_canon(s: Seq<u8>, i: int)
    requires
        0 <= i <= s.len(),
        spec_dec_table_raw(s, i) is Some,
    ensures
        ({
            let (t, j) = spec_dec_table_raw(s, i)->Some_0;
            spec_enc_table(t) =~= s.subrange(i, j) && i <= j <= s.len()
        }),
{
    vstd::bytes::lemma_auto_spec_u64_to_from_le_bytes();
    lemma_u64_canon(s, i);
    let (nc, j0) = spec_dec_u64(s, i)->Some_0;
    lemma_cols_canon(s, j0, nc as int);
    let (cols, j1) = spec_dec_cols(s, j0, nc as int)->Some_0;
    lemma_u64_canon(s, j1);
    let (nr, j2) = spec_dec_u64(s, j1)->Some_0;
    lemma_slots_canon(s, j2, nr as int);
    let (rows, j3) = spec_dec_slots(s, j2, nr as int)->Some_0;
    lemma_u64_canon(s, j3);
    let (acc, j4) = spec_dec_u64(s, j3)->Some_0;
    lemma_u64_canon(s, j4);
    let (num, j5) = spec_dec_u64(s, j4)->Some_0;
    let (t, j) = spec_dec_table_raw(s, i)->Some_0;
    assert(t.columns_info == cols && t.rows == rows);
    assert(cols.len() as u64 == nc && rows.len() as u64 == nr);
    assert(t.row_idx_acc as u64 == acc && t.row_num as u64 == num);
    assert(spec_enc_table(t) =~= spec_enc_u64(nc) + (spec_enc_cols(cols) + (spec_enc_u64(nr) + (
    spec_enc_slots(rows) + (spec_enc_u64(acc) + spec_enc_u64(num))))));
    assert(spec_enc_u64(nc) + (spec_enc_cols(cols) + (spec_enc_u64(nr) + (spec_enc_slots(rows) + (
    spec_enc_u64(acc) + spec_enc_u64(num))))) =~= s.subrange(i, j0) + (s.subrange(j0, j1) + (
    s.subrange(j1, j2) + (s.subrange(j2, j3) + (s.subrange(j3, j4) + s.subrange(j4, j5))))));
    assert(s.subrange(i, j0) + (s.subrange(j0, j1) + (s.subrange(j1, j2) + (s.subrange(j2, j3) + (
    s.subrange(j3, j4) + s.subrange(j4, j5))))) =~= s.subrange(i, j5));
}

pub proof fn lemma_entries_canon(s: Seq<u8>, i: int, count: int)
    requires
        0 <= i <= s.len(),
        spec_dec_entries(s, i, count) is Some,
    ensures
        ({
            let (es, j) = spec_dec_entries(s, i, count)->Some_0;
            spec_enc_entries(es) =~= s.subrange(i, j) && i <= j <= s.len()
        }),
    decreases count,
{
    if count > 0 {
        let (e, j0) = spec_dec_entry(s, i)->Some_0;
        lemma_str_canon(s, i);
        let (name, jn) = spec_dec_str(s, i)->Some_0;
        lemma_table_canon(s, jn);
        let (t, j1) = spec_dec_table(s, jn)->Some_0;
        assert(spec_enc_entry(e) =~= spec_enc_str(name) + spec_enc_table(t));
        assert(spec_enc_str(name) + spec_enc_table(t) =~= s.subrange(i, jn) + s.subrange(jn, j0));
        assert(s.subrange(i, jn) + s.subrange(jn, j0) =~= s.subrange(i, j0));
        lemma_entries_canon(s, j0, count - 1);
        let (es2, j2) = spec_dec_entries(s, j0, count - 1)->Some_0;
        assert((seq![e] + es2).drop_first() =~= es2);
        assert((seq![e] + es2)[0] == e);
        assert(spec_enc_entries(seq![e] + es2) =~= spec_enc_entry(e) + spec_enc_entries(es2));
        assert(spec_enc_entry(e) + spec_enc_entries(es2) =~= s.subrange(i, j0) + s.subrange(
            j0,
            j2,
        ));
        assert(s.subrange(i, j0) + s.subrange(j0, j2) =~= s.subrange(i, j2));
    }
}

/// A byte string that decodes re-encodes to itself: the encoding is
/// canonical.
pub proof fn lemma_db_canon(s: Seq<u8>)
    requires
        spec_dec_db(s) is Some,
    ensures
        spec_enc_db(spec_dec_db(s)->Some_0) =~= s,
{
    vstd::bytes::lemma_auto_spec_u64_to_from_le_bytes();
    lemma_u64_canon(s, 0);
    let (n, j0) = spec_dec_u64(s, 0)->Some_0;
    lemma_entries_canon(s, j0, n as int);
    let (es, j1) = spec_dec_entries(s, j0, n as int)->Some_0;
    assert(es.len() as u64 == n) by {
        lemma_entries_len(s, j0, n as int);
    }
    assert(spec_enc_db(es) =~= spec_enc_u64(n) + spec_enc_entries(es));
    assert(spec_enc_u64(n) + spec_enc_entries(es) =~= s.subrange(0, j0) + s.subrange(j0, j1));
    assert(s.subrange(0, j0) + s.subrange(j0, j1) =~= s.subrange(0, j1));
    assert(s.subrange(0, s.len() as int) =~= s);
}

/// A decoded entry list has as many entries as its count asked for.
pub proof fn lemma_entries_len(s: Seq<u8>, i: int, count: int)
    ensures
        spec_dec_entries(s, i, count) matches Some(p) ==> p.0.len() == (if count >= 0 {
            count
        } else {
            0
        }),
    decreases count,
{
    if count > 0 {
        if spec_dec_entry(s, i) is Some {
            lemma_entries_len(s, spec_dec_entry(s, i)->Some_0.1, count - 1);
        }
    }
}

} // verus!
