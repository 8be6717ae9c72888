use vstd::prelude::*;
use crate::excel::Field;
use crate::schema::spec_bytes_lt;
use crate::schema::bytes_lt;
use crate::value::GField;
use crate::value::GReference;
use crate::value::GValue;
use crate::value::Reference;
use crate::value::Value;
use crate::value::ValueString;
use crate::value::field_view;
use crate::value::value_view;
use crate::value::entries_view;
use crate::value::values_view;
use crate::value::lemma_values_view_len;
use crate::value::lemma_values_view_index;
use crate::value::lemma_entries_view_len;
use crate::value::lemma_entries_view_index;

verus! {

broadcast use vstd::std_specs::vec::group_vec_axioms;

/// Decimal digits of `n`, most significant first, no leading zero.
pub open spec fn dec_nat(n: nat) -> Seq<u8>
    decreases n,
{
    if n < 10 {
        seq![(48u8 + n) as u8]
    } else {
        dec_nat(n / 10) + seq![(48u8 + n % 10) as u8]
    }
}

/// Decimal rendering of a possibly negative number.
pub open spec fn dec_int(v: int) -> Seq<u8> {
    if v < 0 {
        seq![45u8] + dec_nat((-v) as nat)
    } else {
        dec_nat(v as nat)
    }
}

/// `k` zero digits.
pub open spec fn zeros(k: nat) -> Seq<u8>
    decreases k,
{
    if k == 0 {
        Seq::empty()
    } else {
        zeros((k - 1) as nat).push(48u8)
    }
}

/// How many zeros bring the decimal form of `n` up to six digits.
pub open spec fn pad_of(n: nat) -> nat {
    if n < 10 {
        5
    } else if n < 100 {
        4
    } else if n < 1000 {
        3
    } else if n < 10000 {
        2
    } else if n < 100000 {
        1
    } else {
        0
    }
}

/// The decimal form of `n`, zero-padded to at least six digits.
pub open spec fn pad6(n: nat) -> Seq<u8> {
    zeros(pad_of(n)) + dec_nat(n)
}

/// JSON escape of one byte: quote and backslash get a backslash, control
/// bytes a `\u00XX` form, everything else passes through.
pub open spec fn spec_hex(n: u8) -> u8 {
    if n < 10 {
        (48u8 + n) as u8
    } else {
        (97u8 + n - 10) as u8
    }
}

pub open spec fn esc_byte(c: u8) -> Seq<u8> {
    if c == 34u8 {
        seq![92u8, 34u8]
    } else if c == 92u8 {
        seq![92u8, 92u8]
    } else if c < 0x20 {
        seq![92u8, 117u8, 48u8, 48u8, spec_hex(c / 16), spec_hex(c % 16)]
    } else {
        seq![c]
    }
}

/// JSON escape of a whole byte string.
pub open spec fn esc(s: Seq<u8>) -> Seq<u8>
    decreases s.len(),
{
    if s.len() == 0 {
        Seq::empty()
    } else {
        esc(s.drop_last()) + esc_byte(s.last())
    }
}

/// A quoted, escaped JSON string.
pub open spec fn jstr(s: Seq<u8>) -> Seq<u8> {
    seq![34u8] + esc(s) + seq![34u8]
}

pub fn push_dec_u64(out: &mut Vec<u8>, n: u64)
    ensures
        final(out)@ == old(out)@ + dec_nat(n as nat),
    decreases n,
{
    if n < 10 {
        out.push(48u8 + (n as u8));
        proof {
            assert(out@ =~= old(out)@ + dec_nat(n as nat));
        }
    } else {
        push_dec_u64(out, n / 10);
        out.push(48u8 + ((n % 10) as u8));
        proof {
            assert(out@ =~= old(out)@ + dec_nat(n as nat));
        }
    }
}

pub fn push_dec_i64(out: &mut Vec<u8>, v: i64)
    ensures
        final(out)@ == old(out)@ + dec_int(v as int),
{
    if v >= 0 {
        push_dec_u64(out, v as u64);
    } else {
        out.push(45u8);
        if v == i64::MIN {
            push_dec_u64(out, 9223372036854775808u64);
        } else {
            push_dec_u64(out, (-v) as u64);
        }
        proof {
            assert(out@ =~= old(out)@ + dec_int(v as int));
        }
    }
}

pub fn push_pad6(out: &mut Vec<u8>, n: u32)
    ensures
        final(out)@ == old(out)@ + pad6(n as nat),
{
    let k: usize = if n < 10 {
        5
    } else if n < 100 {
        4
    } else if n < 1000 {
        3
    } else if n < 10000 {
        2
    } else if n < 100000 {
        1
    } else {
        0
    };
    let mut i: usize = 0;
    #[verifier::loop_isolation(false)]
    while i < k
        invariant
            0 <= i <= k,
            out@ == old(out)@ + zeros(i as nat),
        decreases k - i,
    {
        out.push(48u8);
        i = i + 1;
    }
    push_dec_u64(out, n as u64);
    proof {
        assert(out@ =~= old(out)@ + pad6(n as nat));
    }
}

pub fn hex_digit(n: u8) -> (r: u8)
    requires
        n < 16,
    ensures
        r == spec_hex(n),
{
    if n < 10 {
        48u8 + n
    } else {
        97u8 + n - 10
    }
}

/// Appends the escaped (not quoted) form of `s`.
pub fn push_esc(out: &mut Vec<u8>, s: &Vec<u8>)
    ensures
        final(out)@ == old(out)@ + esc(s@),
{
    let n: usize = s.len();
    let mut i: usize = 0;
    proof {
        assert(esc(s@.take(0)) =~= Seq::<u8>::empty());
    }
    #[verifier::loop_isolation(false)]
    while i < n
        invariant
            0 <= i <= n,
            out@ == old(out)@ + esc(s@.take(i as int)),
        decreases n - i,
    {
        let c: u8 = s[i];
        if c == 34u8 {
            out.push(92u8);
            out.push(34u8);
        } else if c == 92u8 {
            out.push(92u8);
            out.push(92u8);
        } else if c < 0x20 {
            out.push(92u8);
            out.push(117u8);
            out.push(48u8);
            out.push(48u8);
            out.push(hex_digit(c / 16));
            out.push(hex_digit(c % 16));
        } else {
            out.push(c);
        }
        proof {
            assert(s@.take(i + 1).drop_last() =~= s@.take(i as int));
            assert(s@.take(i + 1).last() == s@[i as int]);
            assert(out@ =~= old(out)@ + esc(s@.take(i + 1)));
        }
        i = i + 1;
    }
    proof {
        assert(s@.take(n as int) =~= s@);
    }
}

/// Appends the quoted, escaped form of `s`.
pub fn push_jstr(out: &mut Vec<u8>, s: &Vec<u8>)
    ensures
        final(out)@ == old(out)@ + jstr(s@),
{
    out.push(34u8);
    push_esc(out, s);
    out.push(34u8);
    proof {
        assert(out@ =~= old(out)@ + jstr(s@));
    }
}

/// `true` / `false` as JSON bytes.
pub open spec fn lit_bool(b: bool) -> Seq<u8> {
    if b {
        seq![116u8, 114u8, 117u8, 101u8]
    } else {
        seq![102u8, 97u8, 108u8, 115u8, 101u8]
    }
}

/// JSON rendering of a scalar field.
pub open spec fn gjson_field(f: GField) -> Seq<u8> {
    match f {
        GField::String(s) => jstr(s),
        GField::Bool(b) => lit_bool(b),
        GField::I8(v) => dec_int(v as int),
        GField::I16(v) => dec_int(v as int),
        GField::I32(v) => dec_int(v as int),
        GField::I64(v) => dec_int(v as int),
        GField::U8(v) => dec_nat(v as nat),
        GField::U16(v) => dec_nat(v as nat),
        GField::U32(v) => dec_nat(v as nat),
        GField::U64(v) => dec_nat(v as nat),
    }
}

/// `"ui/icon/<group>/<id>"`, both segments zero-padded to six digits,
/// where `<group>` is `id` rounded down to a multiple of 1000.
pub open spec fn icon_stem(id: int) -> Seq<u8> {
    seq![117u8, 105u8, 47u8, 105u8, 99u8, 111u8, 110u8, 47u8] + pad6((id / 1000 * 1000) as nat)
        + seq![47u8] + pad6(id as nat)
}

/// An icon value: a bare id when `id <= 0`, otherwise the id with its two
/// derived texture paths.
pub open spec fn gjson_icon(id: i32) -> Seq<u8> {
    if id <= 0 {
        seq![123u8, 34u8, 105u8, 100u8, 34u8, 58u8] + dec_int(id as int) + seq![125u8]
    } else {
        seq![123u8, 34u8, 105u8, 100u8, 34u8, 58u8] + dec_int(id as int) + icon_path_field(
            id as int,
        ) + icon_path_hr1_field(id as int) + seq![125u8]
    }
}

/// `,"path":"<stem>.tex"`.
pub open spec fn icon_path_field(id: int) -> Seq<u8> {
    seq![44u8, 34u8, 112u8, 97u8, 116u8, 104u8, 34u8, 58u8, 34u8] + icon_stem(id) + seq![
        46u8,
        116u8,
        101u8,
        120u8,
        34u8,
    ]
}

/// `,"path_hr1":"<stem>_hr1.tex"`.
pub open spec fn icon_path_hr1_field(id: int) -> Seq<u8> {
    seq![44u8, 34u8, 112u8, 97u8, 116u8, 104u8, 95u8, 104u8, 114u8, 49u8, 34u8, 58u8, 34u8]
        + icon_stem(id) + seq![95u8, 104u8, 114u8, 49u8, 46u8, 116u8, 101u8, 120u8, 34u8]
}

/// One struct entry, keyed for sorting: the member name, and the rendered
/// `"name":value` bytes.
pub open spec fn blob_of(e: (Seq<u8>, GValue)) -> (Seq<u8>, Seq<u8>)
    decreases e,
{
    (e.0, jstr(e.0) + seq![58u8] + gjson(e.1))
}

/// All struct entries rendered, still in source order.
pub open spec fn blobs(s: Seq<(Seq<u8>, GValue)>) -> Seq<(Seq<u8>, Seq<u8>)>
    decreases s,
{
    if s.len() == 0 {
        Seq::empty()
    } else {
        blobs(s.drop_last()).push(blob_of(s.last()))
    }
}

/// Stable insertion into a key-sorted sequence: the new entry goes after
/// existing entries with an equal key.
pub open spec fn binsert(e: (Seq<u8>, Seq<u8>), t: Seq<(Seq<u8>, Seq<u8>)>) -> Seq<
    (Seq<u8>, Seq<u8>),
>
    decreases t.len(),
{
    if t.len() == 0 {
        seq![e]
    } else if spec_bytes_lt(e.0, t[0].0) {
        seq![e] + t
    } else {
        seq![t[0]] + binsert(e, t.drop_first())
    }
}

/// Stable insertion sort of rendered entries by member name.
pub open spec fn bsort(s: Seq<(Seq<u8>, Seq<u8>)>) -> Seq<(Seq<u8>, Seq<u8>)>
    decreases s.len(),
{
    if s.len() == 0 {
        Seq::empty()
    } else {
        binsert(s.last(), bsort(s.drop_last()))
    }
}

/// Comma-joined rendered entries.
pub open spec fn join_blobs(s: Seq<(Seq<u8>, Seq<u8>)>) -> Seq<u8>
    decreases s.len(),
{
    if s.len() == 0 {
        Seq::empty()
    } else if s.len() == 1 {
        s[0].1
    } else {
        join_blobs(s.drop_last()) + seq![44u8] + s.last().1
    }
}

/// A struct body: entries sorted by name, joined, braced.
pub open spec fn gjson_struct(entries: Seq<(Seq<u8>, GValue)>) -> Seq<u8> {
    seq![123u8] + join_blobs(bsort(blobs(entries))) + seq![125u8]
}

/// Comma-joined rendered array elements.
pub open spec fn join_list(s: Seq<GValue>) -> Seq<u8>
    decreases s,
{
    if s.len() == 0 {
        Seq::empty()
    } else if s.len() == 1 {
        gjson(s[0])
    } else {
        join_list(s.drop_last()) + seq![44u8] + gjson(s.last())
    }
}

/// The external JSON shape of a value tree, down to the byte.
pub open spec fn gjson(v: GValue) -> Seq<u8>
    decreases v,
{
    match v {
        GValue::Scalar(f) => gjson_field(f),
        GValue::Html(s) => jstr(s),
        GValue::Icon(id) => gjson_icon(id),
        GValue::Array(elems) => seq![91u8] + join_list(elems) + seq![93u8],
        GValue::Struct(entries) => seq![123u8] + join_blobs(bsort(blobs(entries))) + seq![125u8],
        GValue::Reference(r) => match r {
            GReference::Scalar(f) => seq![123u8, 34u8, 118u8, 97u8, 108u8, 117u8, 101u8, 34u8, 58u8]
                + gjson_field(f) + seq![125u8],
            GReference::Populated { value, sheet, row_id, fields } => seq![
                123u8, 34u8, 118u8, 97u8, 108u8, 117u8, 101u8, 34u8, 58u8,
            ] + gjson_field(value)
                // ,"sheet":
                + seq![44u8, 34u8, 115u8, 104u8, 101u8, 101u8, 116u8, 34u8, 58u8] + jstr(sheet)
                // ,"row_id":
                + seq![44u8, 34u8, 114u8, 111u8, 119u8, 95u8, 105u8, 100u8, 34u8, 58u8]
                + dec_nat(row_id as nat)
                // ,"fields":
                + seq![44u8, 34u8, 102u8, 105u8, 101u8, 108u8, 100u8, 115u8, 34u8, 58u8]
                + seq![123u8] + join_blobs(bsort(blobs(fields))) + seq![125u8] + seq![125u8],
        },
    }
}

/// Structural size of a value tree; the measure the renderer recurses on.
pub open spec fn vsize(v: Value) -> nat
    decreases v,
{
    match v {
        Value::Array(elems) => 1 + lsize(elems@),
        Value::Html(_) => 1,
        Value::Icon(_) => 1,
        Value::Scalar(_) => 1,
        Value::Struct(entries) => 1 + entsize(entries@),
        Value::Reference(r) => match r {
            Reference::Scalar(_) => 1,
            Reference::Populated { fields, .. } => 2 + entsize(fields@),
        },
    }
}

pub open spec fn lsize(s: Seq<Value>) -> nat
    decreases s,
{
    if s.len() == 0 {
        0
    } else {
        lsize(s.drop_last()) + vsize(s.last()) + 1
    }
}

pub open spec fn entsize(s: Seq<(Vec<u8>, Value)>) -> nat
    decreases s,
{
    if s.len() == 0 {
        0
    } else {
        entsize(s.drop_last()) + vsize(s.last().1) + 1
    }
}

pub proof fn lemma_lsize_index(s: Seq<Value>, i: int)
    requires
        0 <= i < s.len(),
    ensures
        vsize(s[i]) < lsize(s),
    decreases s.len(),
{
    if i == s.len() - 1 {
    } else {
        lemma_lsize_index(s.drop_last(), i);
    }
}

pub proof fn lemma_entsize_index(s: Seq<(Vec<u8>, Value)>, i: int)
    requires
        0 <= i < s.len(),
    ensures
        vsize(s[i].1) < entsize(s),
    decreases s.len(),
{
    if i == s.len() - 1 {
    } else {
        lemma_entsize_index(s.drop_last(), i);
    }
}

/// View of rendered entry pairs.
pub open spec fn pv(s: Seq<(Vec<u8>, Vec<u8>)>) -> Seq<(Seq<u8>, Seq<u8>)>
    decreases s,
{
    if s.len() == 0 {
        Seq::empty()
    } else {
        pv(s.drop_last()).push((s.last().0@, s.last().1@))
    }
}

pub proof fn lemma_pv_index(s: Seq<(Vec<u8>, Vec<u8>)>, i: int)
    requires
        0 <= i < s.len(),
    ensures
        pv(s).len() == s.len(),
        pv(s)[i] == (s[i].0@, s[i].1@),
    decreases s.len(),
{
    lemma_pv_len(s.drop_last());
    if i < s.len() - 1 {
        lemma_pv_index(s.drop_last(), i);
    }
}

pub proof fn lemma_pv_len(s: Seq<(Vec<u8>, Vec<u8>)>)
    ensures
        pv(s).len() == s.len(),
    decreases s.len(),
{
    if s.len() > 0 {
        lemma_pv_len(s.drop_last());
    }
}

pub proof fn lemma_blobs_index(s: Seq<(Seq<u8>, GValue)>, i: int)
    requires
        0 <= i < s.len(),
    ensures
        blobs(s).len() == s.len(),
        blobs(s)[i] == blob_of(s[i]),
    decreases s.len(),
{
    lemma_blobs_len(s.drop_last());
    if i < s.len() - 1 {
        lemma_blobs_index(s.drop_last(), i);
    }
}

pub proof fn lemma_blobs_len(s: Seq<(Seq<u8>, GValue)>)
    ensures
        blobs(s).len() == s.len(),
    decreases s.len(),
{
    if s.len() > 0 {
        lemma_blobs_len(s.drop_last());
    }
}

/// A fresh copy of a byte string.
pub fn copy_bytes(src: &Vec<u8>) -> (r: Vec<u8>)
    ensures
        r@ == src@,
{
    let mut r: Vec<u8> = Vec::new();
    let n: usize = src.len();
    let mut i: usize = 0;
    #[verifier::loop_isolation(false)]
    while i < n
        invariant
            0 <= i <= n,
            r@ == src@.take(i as int),
        decreases n - i,
    {
        r.push(src[i]);
        proof {
            assert(r@ =~= src@.take(i + 1));
        }
        i = i + 1;
    }
    proof {
        assert(src@.take(n as int) =~= src@);
    }
    r
}

/// Appends a copy of `src` to `out`.
pub fn push_copy(out: &mut Vec<u8>, src: &Vec<u8>)
    ensures
        final(out)@ == old(out)@ + src@,
{
    let n: usize = src.len();
    let mut i: usize = 0;
    #[verifier::loop_isolation(false)]
    while i < n
        invariant
            0 <= i <= n,
            out@ == old(out)@ + src@.take(i as int),
        decreases n - i,
    {
        out.push(src[i]);
        proof {
            assert(out@ =~= old(out)@ + src@.take(i + 1));
        }
        i = i + 1;
    }
    proof {
        assert(src@.take(n as int) =~= src@);
    }
}

/// Splitting view of a stable insertion: the element lands right before
/// the first entry whose key is greater.
pub proof fn lemma_binsert_split(e: (Seq<u8>, Seq<u8>), t: Seq<(Seq<u8>, Seq<u8>)>, pos: int)
    requires
        0 <= pos <= t.len(),
        forall|j: int| 0 <= j < pos ==> !spec_bytes_lt(e.0, #[trigger] t[j].0),
        pos < t.len() ==> spec_bytes_lt(e.0, t[pos].0),
    ensures
        binsert(e, t) == t.take(pos) + seq![e] + t.skip(pos),
    decreases pos,
{
    if pos == 0 {
        assert(binsert(e, t) =~= t.take(0) + seq![e] + t.skip(0));
    } else {
        lemma_binsert_split(e, t.drop_first(), pos - 1);
        assert(t.drop_first().take(pos - 1) =~= t.take(pos).drop_first());
        assert(t.drop_first().skip(pos - 1) =~= t.skip(pos));
        assert(binsert(e, t) =~= t.take(pos) + seq![e] + t.skip(pos));
    }
}

/// Sorts rendered entries by member name; a stable insertion sort.
pub fn sort_pairs(v: &Vec<(Vec<u8>, Vec<u8>)>) -> (r: Vec<(Vec<u8>, Vec<u8>)>)
    ensures
        pv(r@) == bsort(pv(v@)),
{
    let n: usize = v.len();
    let mut out: Vec<(Vec<u8>, Vec<u8>)> = Vec::new();
    let mut i: usize = 0;
    proof {
        assert(pv(v@.take(0)) =~= Seq::<(Seq<u8>, Seq<u8>)>::empty());
    }
    #[verifier::loop_isolation(false)]
    while i < n
        invariant
            0 <= i <= n,
            pv(out@) == bsort(pv(v@.take(i as int))),
        decreases n - i,
    {
        let e: (Vec<u8>, Vec<u8>) = (copy_bytes(&v[i].0), copy_bytes(&v[i].1));
        let m: usize = out.len();
        let mut pos: usize = 0;
        proof {
            lemma_pv_len(out@);
        }
        #[verifier::loop_isolation(false)]
        while pos < m && !bytes_lt(&e.0, &out[pos].0)
            invariant
                0 <= pos <= m,
                m == out.len(),
                forall|j: int|
                    0 <= j < pos ==> !spec_bytes_lt(e.0@, #[trigger] pv(out@)[j].0),
            decreases m - pos,
        {
            proof {
                lemma_pv_index(out@, pos as int);
            }
            pos = pos + 1;
        }
        proof {
            lemma_pv_len(out@);
            if pos < m {
                lemma_pv_index(out@, pos as int);
            }
            lemma_binsert_split((e.0@, e.1@), pv(out@), pos as int);
        }
        let ghost old_out = out@;
        out.insert(pos, e);
        proof {
            // pv distributes over the insertion
            lemma_pv_insert(old_out, pos as int, (e.0@, e.1@));
            assert(v@.take(i + 1).drop_last() =~= v@.take(i as int));
            assert(v@.take(i + 1).last() == v@[i as int]);
            assert(pv(v@.take(i + 1)) =~= pv(v@.take(i as int)).push((v@[i as int].0@, v@[
                i as int].1@)));
            assert(pv(v@.take(i + 1)).drop_last() =~= pv(v@.take(i as int)));
            assert(pv(out@) == bsort(pv(v@.take(i + 1))));
        }
        i = i + 1;
    }
    proof {
        assert(v@.take(n as int) =~= v@);
    }
    out
}

/// `pv` of a sequence with one pair inserted.
pub proof fn lemma_pv_insert(s: Seq<(Vec<u8>, Vec<u8>)>, pos: int, gp: (Seq<u8>, Seq<u8>))
    requires
        0 <= pos <= s.len(),
    ensures
        forall|e: (Vec<u8>, Vec<u8>)|
            (e.0@, e.1@) == gp ==> pv(s.insert(pos, e)) =~= pv(s).take(pos) + seq![gp] + pv(
                s,
            ).skip(pos),
{
    assert forall|e: (Vec<u8>, Vec<u8>)| (e.0@, e.1@) == gp implies pv(s.insert(pos, e)) =~= pv(
        s,
    ).take(pos) + seq![gp] + pv(s).skip(pos) by {
        let t = s.insert(pos, e);
        lemma_pv_len(t);
        lemma_pv_len(s);
        assert forall|k: int| 0 <= k < t.len() implies pv(t)[k] == (pv(s).take(pos) + seq![gp]
            + pv(s).skip(pos))[k] by {
            lemma_pv_index(t, k);
            if k < pos {
                lemma_pv_index(s, k);
            } else if k > pos {
                lemma_pv_index(s, k - 1);
            }
        }
    }
}

pub fn push_field(out: &mut Vec<u8>, f: &Field)
    ensures
        final(out)@ == old(out)@ + gjson_field(field_view(*f)),
{
    match f {
        Field::String(s) => {
            push_jstr(out, s);
        },
        Field::Bool(b) => {
            if *b {
                out.push(116u8);
                out.push(114u8);
                out.push(117u8);
                out.push(101u8);
            } else {
                out.push(102u8);
                out.push(97u8);
                out.push(108u8);
                out.push(115u8);
                out.push(101u8);
            }
            proof {
                assert(out@ =~= old(out)@ + gjson_field(field_view(*f)));
            }
        },
        Field::I8(v) => {
            push_dec_i64(out, *v as i64);
        },
        Field::I16(v) => {
            push_dec_i64(out, *v as i64);
        },
        Field::I32(v) => {
            push_dec_i64(out, *v as i64);
        },
        Field::I64(v) => {
            push_dec_i64(out, *v);
        },
        Field::U8(v) => {
            push_dec_u64(out, *v as u64);
        },
        Field::U16(v) => {
            push_dec_u64(out, *v as u64);
        },
        Field::U32(v) => {
            push_dec_u64(out, *v as u64);
        },
        Field::U64(v) => {
            push_dec_u64(out, *v);
        },
    }
}

/// Emits `"ui/icon/<group>/<id>"` without the quotes, `id > 0`.
pub fn push_icon_stem(out: &mut Vec<u8>, id: i32)
    requires
        id > 0,
    ensures
        final(out)@ == old(out)@ + icon_stem(id as int),
{
    let u: u32 = id as u32;
    let group: u32 = u / 1000 * 1000;
    out.push(117u8);
    out.push(105u8);
    out.push(47u8);
    out.push(105u8);
    out.push(99u8);
    out.push(111u8);
    out.push(110u8);
    out.push(47u8);
    push_pad6(out, group);
    out.push(47u8);
    push_pad6(out, u);
    proof {
        assert(group as nat == ((id as int) / 1000 * 1000) as nat);
        assert(out@ =~= old(out)@ + icon_stem(id as int));
    }
}

pub fn push_icon_path_field(out: &mut Vec<u8>, id: i32)
    requires
        id > 0,
    ensures
        final(out)@ == old(out)@ + icon_path_field(id as int),
{
    out.push(44u8);
    out.push(34u8);
    out.push(112u8);
    out.push(97u8);
    out.push(116u8);
    out.push(104u8);
    out.push(34u8);
    out.push(58u8);
    out.push(34u8);
    proof {
        assert(out@ =~= old(out)@ + seq![44u8, 34u8, 112u8, 97u8, 116u8, 104u8, 34u8, 58u8, 34u8]);
    }
    push_icon_stem(out, id);
    out.push(46u8);
    out.push(116u8);
    out.push(101u8);
    out.push(120u8);
    out.push(34u8);
    proof {
        assert(out@ =~= old(out)@ + icon_path_field(id as int));
    }
}

pub fn push_icon_path_hr1_field(out: &mut Vec<u8>, id: i32)
    requires
        id > 0,
    ensures
        final(out)@ == old(out)@ + icon_path_hr1_field(id as int),
{
    out.push(44u8);
    out.push(34u8);
    out.push(112u8);
    out.push(97u8);
    out.push(116u8);
    out.push(104u8);
    out.push(95u8);
    out.push(104u8);
    out.push(114u8);
    out.push(49u8);
    out.push(34u8);
    out.push(58u8);
    out.push(34u8);
    proof {
        assert(out@ =~= old(out)@ + seq![
            44u8,
            34u8,
            112u8,
            97u8,
            116u8,
            104u8,
            95u8,
            104u8,
            114u8,
            49u8,
            34u8,
            58u8,
            34u8,
        ]);
    }
    push_icon_stem(out, id);
    out.push(95u8);
    out.push(104u8);
    out.push(114u8);
    out.push(49u8);
    out.push(46u8);
    out.push(116u8);
    out.push(101u8);
    out.push(120u8);
    out.push(34u8);
    proof {
        assert(out@ =~= old(out)@ + icon_path_hr1_field(id as int));
    }
}

pub fn push_icon(out: &mut Vec<u8>, id: i32)
    ensures
        final(out)@ == old(out)@ + gjson_icon(id),
{
    out.push(123u8);
    out.push(34u8);
    out.push(105u8);
    out.push(100u8);
    out.push(34u8);
    out.push(58u8);
    proof {
        assert(out@ =~= old(out)@ + seq![123u8, 34u8, 105u8, 100u8, 34u8, 58u8]);
    }
    push_dec_i64(out, id as i64);
    if id > 0 {
        push_icon_path_field(out, id);
        push_icon_path_hr1_field(out, id);
        out.push(125u8);
        proof {
            assert(out@ =~= old(out)@ + gjson_icon(id));
        }
    } else {
        out.push(125u8);
        proof {
            assert(out@ =~= old(out)@ + gjson_icon(id));
        }
    }
}

/// Appends the JSON array form of a list of values.
pub fn push_array(out: &mut Vec<u8>, elems: &Vec<Value>)
    ensures
        final(out)@ == old(out)@ + seq![91u8] + join_list(values_view(elems@)) + seq![93u8],
    decreases lsize(elems@),
{
    out.push(91u8);
    let n: usize = elems.len();
    let mut i: usize = 0;
    proof {
        lemma_values_view_len(elems@);
    }
    #[verifier::loop_isolation(false)]
    while i < n
        invariant
            0 <= i <= n,
            out@ == old(out)@ + seq![91u8] + join_list(values_view(elems@).take(i as int)),
        decreases n - i,
    {
        if i > 0 {
            out.push(44u8);
        }
        proof {
            lemma_lsize_index(elems@, i as int);
        }
        push_value(out, &elems[i]);
        proof {
            lemma_values_view_index(elems@, i as int);
            assert(values_view(elems@).take(i + 1).drop_last() =~= values_view(elems@).take(
                i as int,
            ));
            assert(values_view(elems@).take(i + 1).last() == value_view(elems@[i as int]));
            assert(out@ =~= old(out)@ + seq![91u8] + join_list(values_view(elems@).take(i + 1)));
        }
        i = i + 1;
    }
    out.push(93u8);
    proof {
        assert(values_view(elems@).take(n as int) =~= values_view(elems@));
        assert(out@ =~= old(out)@ + seq![91u8] + join_list(values_view(elems@)) + seq![93u8]);
    }
}

/// Appends `{"value":<key>` — the shared head of a reference.
pub fn push_reference_head(out: &mut Vec<u8>, value: &Field)
    ensures
        final(out)@ == old(out)@ + seq![
            123u8,
            34u8,
            118u8,
            97u8,
            108u8,
            117u8,
            101u8,
            34u8,
            58u8,
        ] + gjson_field(field_view(*value)),
{
    out.push(123u8);
    out.push(34u8);
    out.push(118u8);
    out.push(97u8);
    out.push(108u8);
    out.push(117u8);
    out.push(101u8);
    out.push(34u8);
    out.push(58u8);
    proof {
        assert(out@ =~= old(out)@ + seq![
            123u8,
            34u8,
            118u8,
            97u8,
            108u8,
            117u8,
            101u8,
            34u8,
            58u8,
        ]);
    }
    push_field(out, value);
}

/// Appends a populated reference: key, target sheet, row id and the
/// target's filtered fields.
#[verifier::rlimit(100)]
pub fn push_populated(
    out: &mut Vec<u8>,
    value: &Field,
    sheet: &Vec<u8>,
    row_id: u32,
    fields: &Vec<(Vec<u8>, Value)>,
)
    ensures
        final(out)@ == old(out)@ + gjson(
            GValue::Reference(
                GReference::Populated {
                    value: field_view(*value),
                    sheet: sheet@,
                    row_id: row_id,
                    fields: entries_view(fields@),
                },
            ),
        ),
    decreases entsize(fields@) + 1nat,
{
    let ghost head = seq![123u8, 34u8, 118u8, 97u8, 108u8, 117u8, 101u8, 34u8, 58u8]
        + gjson_field(field_view(*value));
    push_reference_head(out, value);
    // ,"sheet":
    out.push(44u8);
    out.push(34u8);
    out.push(115u8);
    out.push(104u8);
    out.push(101u8);
    out.push(101u8);
    out.push(116u8);
    out.push(34u8);
    out.push(58u8);
    push_jstr(out, sheet);
    proof {
        assert(out@ =~= old(out)@ + head + seq![
            44u8,
            34u8,
            115u8,
            104u8,
            101u8,
            101u8,
            116u8,
            34u8,
            58u8,
        ] + jstr(sheet@));
    }
    // ,"row_id":
    out.push(44u8);
    out.push(34u8);
    out.push(114u8);
    out.push(111u8);
    out.push(119u8);
    out.push(95u8);
    out.push(105u8);
    out.push(100u8);
    out.push(34u8);
    out.push(58u8);
    push_dec_u64(out, row_id as u64);
    proof {
        assert(out@ =~= old(out)@ + head + seq![
            44u8,
            34u8,
            115u8,
            104u8,
            101u8,
            101u8,
            116u8,
            34u8,
            58u8,
        ] + jstr(sheet@) + seq![
            44u8,
            34u8,
            114u8,
            111u8,
            119u8,
            95u8,
            105u8,
            100u8,
            34u8,
            58u8,
        ] + dec_nat(row_id as nat));
    }
    // ,"fields":
    out.push(44u8);
    out.push(34u8);
    out.push(102u8);
    out.push(105u8);
    out.push(101u8);
    out.push(108u8);
    out.push(100u8);
    out.push(115u8);
    out.push(34u8);
    out.push(58u8);
    push_struct_body(out, fields);
    out.push(125u8);
    proof {
        assert(out@ =~= old(out)@ + gjson(
            GValue::Reference(
                GReference::Populated {
                    value: field_view(*value),
                    sheet: sheet@,
                    row_id: row_id,
                    fields: entries_view(fields@),
                },
            ),
        ));
    }
}

/// Appends the JSON form of a value tree.
pub fn push_value(out: &mut Vec<u8>, v: &Value)
    ensures
        final(out)@ == old(out)@ + gjson(value_view(*v)),
    decreases vsize(*v),
{
    match v {
        Value::Scalar(f) => {
            push_field(out, f);
        },
        Value::Html(s) => {
            push_jstr(out, s);
        },
        Value::Icon(id) => {
            push_icon(out, *id);
        },
        Value::Array(elems) => {
            push_array(out, elems);
            proof {
                assert(out@ =~= old(out)@ + gjson(value_view(*v)));
            }
        },
        Value::Struct(entries) => {
            proof {
                lemma_entries_view_len(entries@);
            }
            push_struct_body(out, entries);
            proof {
                assert(out@ =~= old(out)@ + gjson(value_view(*v)));
            }
        },
        Value::Reference(r) => match r {
            Reference::Scalar(f) => {
                push_reference_head(out, f);
                out.push(125u8);
                proof {
                    assert(out@ =~= old(out)@ + gjson(value_view(*v)));
                }
            },
            Reference::Populated { value, sheet, row_id, fields } => {
                push_populated(out, value, sheet, *row_id, fields);
                proof {
                    assert(out@ =~= old(out)@ + gjson(value_view(*v)));
                }
            },
        },
    }
}

/// Emits a struct body: entries rendered, sorted by member name, joined
/// and braced.
pub fn push_struct_body(out: &mut Vec<u8>, entries: &Vec<(Vec<u8>, Value)>)
    ensures
        final(out)@ == old(out)@ + seq![123u8] + join_blobs(
            bsort(blobs(entries_view(entries@))),
        ) + seq![125u8],
    decreases entsize(entries@),
{
    let n: usize = entries.len();
    let mut pairs: Vec<(Vec<u8>, Vec<u8>)> = Vec::new();
    let mut i: usize = 0;
    #[verifier::loop_isolation(false)]
    while i < n
        invariant
            0 <= i <= n,
            pairs@.len() == i,
            forall|j: int|
                0 <= j < i ==> (pairs@[j].0@, pairs@[j].1@) == blob_of(
                    #[trigger] entries_view(entries@)[j],
                ),
        decreases n - i,
    {
        let key: Vec<u8> = copy_bytes(&entries[i].0);
        let mut blob: Vec<u8> = Vec::new();
        push_jstr(&mut blob, &entries[i].0);
        blob.push(58u8);
        proof {
            lemma_entsize_index(entries@, i as int);
        }
        push_value(&mut blob, &entries[i].1);
        proof {
            lemma_entries_view_index(entries@, i as int);
            assert(blob@ =~= jstr(entries@[i as int].0@) + seq![58u8] + gjson(
                value_view(entries@[i as int].1),
            ));
        }
        pairs.push((key, blob));
        i = i + 1;
    }
    proof {
        lemma_entries_view_len(entries@);
        assert forall|j: int| 0 <= j < n implies pv(pairs@)[j] == blobs(
            entries_view(entries@),
        )[j] by {
            lemma_pv_index(pairs@, j);
            lemma_blobs_index(entries_view(entries@), j);
        }
        lemma_pv_len(pairs@);
        lemma_blobs_len(entries_view(entries@));
        assert(pv(pairs@) =~= blobs(entries_view(entries@)));
    }
    let sorted: Vec<(Vec<u8>, Vec<u8>)> = sort_pairs(&pairs);
    out.push(123u8);
    let m: usize = sorted.len();
    let mut k: usize = 0;
    proof {
        lemma_pv_len(sorted@);
        assert(pv(sorted@).take(0) =~= Seq::<(Seq<u8>, Seq<u8>)>::empty());
    }
    #[verifier::loop_isolation(false)]
    while k < m
        invariant
            0 <= k <= m,
            m == sorted@.len(),
            pv(sorted@).len() == m,
            out@ == old(out)@ + seq![123u8] + join_blobs(pv(sorted@).take(k as int)),
        decreases m - k,
    {
        if k > 0 {
            out.push(44u8);
        }
        push_copy(out, &sorted[k].1);
        proof {
            lemma_pv_index(sorted@, k as int);
            assert(pv(sorted@).take(k + 1).drop_last() =~= pv(sorted@).take(k as int));
            assert(pv(sorted@).take(k + 1).last() == pv(sorted@)[k as int]);
            assert(out@ =~= old(out)@ + seq![123u8] + join_blobs(pv(sorted@).take(k + 1)));
        }
        k = k + 1;
    }
    out.push(125u8);
    proof {
        assert(pv(sorted@).take(m as int) =~= pv(sorted@));
        assert(out@ =~= old(out)@ + seq![123u8] + join_blobs(bsort(blobs(entries_view(entries@))))
            + seq![125u8]);
    }
}

impl ValueString {
    /// Renders the value tree to its external JSON byte form.
    pub fn render(&self) -> (r: Vec<u8>)
        ensures
            r@ == gjson(value_view(self.0)),
    {
        let mut out: Vec<u8> = Vec::new();
        push_value(&mut out, &self.0);
        out
    }
}

/// Renders one value tree to its external JSON byte form.
pub fn render_value(v: &Value) -> (r: Vec<u8>)
    ensures
        r@ == gjson(value_view(*v)),
{
    let mut out: Vec<u8> = Vec::new();
    push_value(&mut out, v);
    out
}

/// Strict byte order is irreflexive.
pub proof fn lemma_bytes_lt_irrefl(a: Seq<u8>)
    ensures
        !spec_bytes_lt(a, a),
    decreases a.len(),
{
    if a.len() > 0 {
        lemma_bytes_lt_irrefl(a.drop_first());
    }
}

/// Strict byte order is transitive.
pub proof fn lemma_bytes_lt_trans(a: Seq<u8>, b: Seq<u8>, c: Seq<u8>)
    requires
        spec_bytes_lt(a, b),
        spec_bytes_lt(b, c),
    ensures
        spec_bytes_lt(a, c),
    decreases a.len(),
{
    if c.len() > 0 && a.len() > 0 && b.len() > 0 {
        if a[0] == b[0] && b[0] == c[0] {
            lemma_bytes_lt_trans(a.drop_first(), b.drop_first(), c.drop_first());
        }
    }
}

/// Struct keys come out in non-descending byte order.
pub open spec fn keys_sorted(t: Seq<(Seq<u8>, Seq<u8>)>) -> bool {
    forall|i: int, j: int|
        0 <= i < j < t.len() ==> !spec_bytes_lt(#[trigger] t[j].0, #[trigger] t[i].0)
}

/// Inserting into a key-sorted sequence keeps it sorted; every key of
/// the result is the inserted key or one already present.
pub proof fn lemma_binsert_sorted(e: (Seq<u8>, Seq<u8>), t: Seq<(Seq<u8>, Seq<u8>)>)
    requires
        keys_sorted(t),
    ensures
        keys_sorted(binsert(e, t)),
        binsert(e, t).len() == t.len() + 1,
        forall|k: int|
            0 <= k < binsert(e, t).len() ==> ((#[trigger] binsert(e, t)[k]) == e || exists|j: int|
                0 <= j < t.len() && binsert(e, t)[k] == t[j]),
    decreases t.len(),
{
    let r = binsert(e, t);
    if t.len() == 0 {
    } else if spec_bytes_lt(e.0, t[0].0) {
        assert(r =~= seq![e] + t);
        assert forall|i: int, j: int| 0 <= i < j < r.len() implies !spec_bytes_lt(
            #[trigger] r[j].0,
            #[trigger] r[i].0,
        ) by {
            if i == 0 {
                if spec_bytes_lt(r[j].0, e.0) {
                    lemma_bytes_lt_trans(t[j - 1].0, e.0, t[0].0);
                    if j == 1 {
                        lemma_bytes_lt_irrefl(t[0].0);
                    }
                }
            }
        }
        assert forall|k: int| 0 <= k < r.len() implies ((#[trigger] r[k]) == e || exists|j: int|
            0 <= j < t.len() && r[k] == t[j]) by {
            if k > 0 {
                assert(r[k] == t[k - 1]);
            }
        }
    } else {
        assert(keys_sorted(t.drop_first())) by {
            assert(forall|i: int, j: int|
                0 <= i < j < t.drop_first().len() ==> !spec_bytes_lt(
                    #[trigger] t.drop_first()[j].0,
                    #[trigger] t.drop_first()[i].0,
                ));
        }
        lemma_binsert_sorted(e, t.drop_first());
        let rr = binsert(e, t.drop_first());
        assert(r =~= seq![t[0]] + rr);
        assert forall|i: int, j: int| 0 <= i < j < r.len() implies !spec_bytes_lt(
            #[trigger] r[j].0,
            #[trigger] r[i].0,
        ) by {
            if i == 0 {
                assert(r[j] == rr[j - 1]);
                if rr[j - 1] == e {
                    // e is not below the head: the branch condition
                } else {
                    let jj = choose|jj: int|
                        0 <= jj < t.drop_first().len() && rr[j - 1] == t.drop_first()[jj];
                    assert(rr[j - 1] == t[jj + 1]);
                }
            } else {
                assert(r[i] == rr[i - 1] && r[j] == rr[j - 1]);
            }
        }
        assert forall|k: int| 0 <= k < r.len() implies ((#[trigger] r[k]) == e || exists|j: int|
            0 <= j < t.len() && r[k] == t[j]) by {
            if k == 0 {
                assert(r[0] == t[0]);
            } else {
                assert(r[k] == rr[k - 1]);
                if rr[k - 1] != e {
                    let jj = choose|jj: int|
                        0 <= jj < t.drop_first().len() && rr[k - 1] == t.drop_first()[jj];
                    assert(r[k] == t[jj + 1]);
                }
            }
        }
    }
}

/// The renderer's struct ordering law: sorting rendered entries leaves
/// their keys in non-descending byte order, so struct output is
/// deterministic whatever the storage order was.
pub proof fn lemma_bsort_sorted(s: Seq<(Seq<u8>, Seq<u8>)>)
    ensures
        keys_sorted(bsort(s)),
        bsort(s).len() == s.len(),
    decreases s.len(),
{
    if s.len() > 0 {
        lemma_bsort_sorted(s.drop_last());
        lemma_binsert_sorted(s.last(), bsort(s.drop_last()));
    }
}

} // verus!
