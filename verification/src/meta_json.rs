//! Canonical byte encoding of the meta record, and its strict parser.
//!
//! The meta is stored at `meta.json` as one line of UTF-8 JSON,
//! `{"segments":[..],"schema":[..],"docstamp":N}` followed by a newline.
//! Segment identifiers and schema bytes are rendered as decimal numbers
//! without spaces or leading zeros. The encoding is canonical and the
//! parser accepts exactly the canonical form, which is the only form this
//! library ever writes; so a parse of what was saved returns the saved
//! meta, and a successful parse pins the bytes down completely.

use vstd::prelude::*;

use crate::meta::{IndexMeta, MetaView, Schema};
use crate::segment::SegmentId;

verus! {

/// Whether `c` is an ASCII decimal digit.
pub open spec fn is_digit(c: u8) -> bool {
    48 <= c <= 57
}

/// Decimal rendering of `n`, most significant digit first, no leading
/// zeros.
pub open spec fn dec_nat(n: nat) -> Seq<u8>
    decreases n,
{
    if n < 10 {
        seq![(48 + n) as u8]
    } else {
        dec_nat(n / 10) + seq![(48 + n % 10) as u8]
    }
}

/// Value of a digit string, most significant digit first.
pub open spec fn digits_val(s: Seq<u8>) -> nat
    decreases s.len(),
{
    if s.len() == 0 {
        0
    } else {
        (digits_val(s.drop_last()) * 10 + (s.last() - 48)) as nat
    }
}

/// A nonempty digit string without a leading zero.
pub open spec fn canonical_digits(s: Seq<u8>) -> bool {
    &&& s.len() >= 1
    &&& forall|k: int| 0 <= k < s.len() ==> is_digit(s[k])
    &&& s.len() > 1 ==> s[0] != 48
}

/// Body of a rendered number list: the values separated by commas.
pub open spec fn enc_list_body(vals: Seq<u128>) -> Seq<u8>
    decreases vals.len(),
{
    if vals.len() == 0 {
        Seq::empty()
    } else if vals.len() == 1 {
        dec_nat(vals[0] as nat)
    } else {
        dec_nat(vals[0] as nat) + seq![44u8] + enc_list_body(vals.drop_first())
    }
}

/// A rendered number list: `[` body `]`.
pub open spec fn enc_list(vals: Seq<u128>) -> Seq<u8> {
    seq![91u8] + enc_list_body(vals) + seq![93u8]
}

/// The raw identifier values of a segment sequence.
pub open spec fn ids_of(segments: Seq<SegmentId>) -> Seq<u128> {
    segments.map_values(|s: SegmentId| s.value)
}

/// Schema bytes widened to list values.
pub open spec fn bytes_as_u128(schema: Seq<u8>) -> Seq<u128> {
    schema.map_values(|b: u8| b as u128)
}

/// The bytes of `{"segments":`.
pub open spec fn lit_segments() -> Seq<u8> {
    seq![123u8, 34u8, 115u8, 101u8, 103u8, 109u8, 101u8, 110u8, 116u8, 115u8, 34u8, 58u8]
}

/// The bytes of `,"schema":`.
pub open spec fn lit_schema() -> Seq<u8> {
    seq![44u8, 34u8, 115u8, 99u8, 104u8, 101u8, 109u8, 97u8, 34u8, 58u8]
}

/// The bytes of `,"docstamp":`.
pub open spec fn lit_docstamp() -> Seq<u8> {
    seq![44u8, 34u8, 100u8, 111u8, 99u8, 115u8, 116u8, 97u8, 109u8, 112u8, 34u8, 58u8]
}

/// The bytes of `}` and the trailing newline.
pub open spec fn lit_end() -> Seq<u8> {
    seq![125u8, 10u8]
}

/// The canonical byte encoding of a meta record.
pub open spec fn spec_encode_meta(m: MetaView) -> Seq<u8> {
    lit_segments() + enc_list(ids_of(m.segments)) + lit_schema() + enc_list(
        bytes_as_u128(m.schema),
    ) + lit_docstamp() + dec_nat(m.docstamp as nat) + lit_end()
}

/// The decimal rendering of any `n` is canonical and renders back to `n`;
/// a positive `n` never starts with a zero digit.
pub proof fn lemma_dec_props(n: nat)
    ensures
        canonical_digits(dec_nat(n)),
        digits_val(dec_nat(n)) == n,
        n >= 1 ==> dec_nat(n)[0] != 48,
        n < 10 ==> dec_nat(n).len() == 1,
    decreases n,
{
    if n < 10 {
        assert(dec_nat(n) == seq![(48 + n) as u8]);
        assert(dec_nat(n).drop_last() =~= Seq::<u8>::empty());
        assert(digits_val(Seq::<u8>::empty()) == 0);
        assert(digits_val(dec_nat(n)) == n);
    } else {
        lemma_dec_props(n / 10);
        assert(dec_nat(n) == dec_nat(n / 10) + seq![(48 + n % 10) as u8]);
        assert(dec_nat(n).drop_last() =~= dec_nat(n / 10));
        assert(dec_nat(n).last() == (48 + n % 10) as u8);
        assert(n / 10 >= 1);
        assert(dec_nat(n)[0] == dec_nat(n / 10)[0]);
        assert(digits_val(dec_nat(n)) == (n / 10) * 10 + n % 10);
        assert((n / 10) * 10 + n % 10 == n) by {
            vstd::arithmetic::div_mod::lemma_fundamental_div_mod(n as int, 10);
        };
    }
}

/// The value of a digit string dominates the value of each of its
/// prefixes.
pub proof fn lemma_digits_val_prefix_le(s: Seq<u8>, k: int)
    requires
        0 <= k <= s.len(),
        forall|t: int| 0 <= t < s.len() ==> is_digit(s[t]),
    ensures
        digits_val(s.subrange(0, k)) <= digits_val(s),
    decreases s.len(),
{
    if k < s.len() {
        assert(forall|t: int| 0 <= t < s.drop_last().len() ==> is_digit(s.drop_last()[t]));
        lemma_digits_val_prefix_le(s.drop_last(), k);
        assert(s.subrange(0, k) =~= s.drop_last().subrange(0, k));
        assert(is_digit(s.last()));
        assert(digits_val(s) == (digits_val(s.drop_last()) * 10 + (s.last() - 48)) as nat);
        assert(digits_val(s.drop_last()) * 10 >= digits_val(s.drop_last()));
    } else {
        assert(s.subrange(0, k) =~= s);
    }
}

/// A digit string that does not start with a zero digit has a positive
/// value.
pub proof fn lemma_first_digit_pos(s: Seq<u8>)
    requires
        s.len() >= 1,
        forall|k: int| 0 <= k < s.len() ==> is_digit(s[k]),
        s[0] != 48,
    ensures
        digits_val(s) >= 1,
    decreases s.len(),
{
    if s.len() == 1 {
    } else {
        lemma_first_digit_pos(s.drop_last());
    }
}

/// A canonical digit string is the decimal rendering of its value.
pub proof fn lemma_canonical_digits_unique(s: Seq<u8>)
    requires
        canonical_digits(s),
    ensures
        dec_nat(digits_val(s)) == s,
    decreases s.len(),
{
    let v = digits_val(s);
    if s.len() == 1 {
        assert(s.drop_last() =~= Seq::<u8>::empty());
        assert(digits_val(Seq::<u8>::empty()) == 0);
        assert(v == s[0] - 48);
        assert(dec_nat(v) =~= s);
    } else {
        let s0 = s.drop_last();
        let d = (s.last() - 48) as nat;
        assert(s0[0] == s[0]);
        lemma_first_digit_pos(s0);
        let v0 = digits_val(s0);
        assert(v == v0 * 10 + d);
        assert(v0 >= 1);
        assert(d < 10);
        assert(v >= 10) by (nonlinear_arith)
            requires
                v == v0 * 10 + d,
                v0 >= 1,
        ;
        assert(v / 10 == v0 && v % 10 == d) by (nonlinear_arith)
            requires
                v == v0 * 10 + d,
                d < 10,
        ;
        lemma_canonical_digits_unique(s0);
        assert(dec_nat(v) == dec_nat(v0) + seq![(48 + d) as u8]);
        assert(dec_nat(v) =~= s);
    }
}

/// Appending one value to a list body appends a separator (when the list
/// was nonempty) and the value's rendering.
pub proof fn lemma_body_push(a: Seq<u128>, x: u128)
    ensures
        a.len() == 0 ==> enc_list_body(a.push(x)) == dec_nat(x as nat),
        a.len() >= 1 ==> enc_list_body(a.push(x)) == enc_list_body(a) + seq![44u8] + dec_nat(
            x as nat,
        ),
    decreases a.len(),
{
    if a.len() == 0 {
        assert(a.push(x) =~= seq![x]);
        assert(enc_list_body(seq![x]) == dec_nat(x as nat));
    } else if a.len() == 1 {
        assert(a.push(x).drop_first() =~= seq![x]);
        assert(a.push(x)[0] == a[0]);
        assert(enc_list_body(a.push(x)) == dec_nat(a.push(x)[0] as nat) + seq![44u8]
            + enc_list_body(a.push(x).drop_first()));
        assert(enc_list_body(a.push(x)) =~= dec_nat(a[0] as nat) + seq![44u8] + dec_nat(x as nat));
        assert(enc_list_body(a) == dec_nat(a[0] as nat));
        assert(enc_list_body(a.push(x)) =~= enc_list_body(a) + seq![44u8] + dec_nat(x as nat));
    } else {
        lemma_body_push(a.drop_first(), x);
        assert(a.push(x).drop_first() =~= a.drop_first().push(x));
        assert(enc_list_body(a.push(x)) == dec_nat(a[0] as nat) + seq![44u8] + enc_list_body(
            a.drop_first().push(x),
        ));
        assert(enc_list_body(a.push(x)) =~= enc_list_body(a) + seq![44u8] + dec_nat(x as nat));
    }
}

/// Reversal turns a push at the back into an element at the front.
pub proof fn lemma_reverse_push(s: Seq<u8>, d: u8)
    ensures
        s.push(d).reverse() == seq![d] + s.reverse(),
{
    assert(s.push(d).reverse() =~= seq![d] + s.reverse());
}

/// Appends `data` to `out`.
pub fn append_bytes(out: &mut Vec<u8>, data: &[u8])
    ensures
        final(out)@ == old(out)@ + data@,
{
    let mut k: usize = 0;
    while k < data.len()
        invariant
            0 <= k <= data@.len(),
            out@ == old(out)@ + data@.take(k as int),
        decreases data@.len() - k,
    {
        out.push(data[k]);
        proof {
            assert(old(out)@ + data@.take(k as int + 1) =~= (old(out)@ + data@.take(
                k as int,
            )).push(data@[k as int]));
        }
        k += 1;
    }
    proof {
        assert(old(out)@ + data@.take(data@.len() as int) =~= old(out)@ + data@);
    }
}

/// The bytes of `{"segments":` as a vector.
pub fn lit_segments_vec() -> (r: Vec<u8>)
    ensures
        r@ == lit_segments(),
{
    let mut v: Vec<u8> = Vec::new();
    v.push(123);
    v.push(34);
    v.push(115);
    v.push(101);
    v.push(103);
    v.push(109);
    v.push(101);
    v.push(110);
    v.push(116);
    v.push(115);
    v.push(34);
    v.push(58);
    proof {
        assert(v@ =~= lit_segments());
    }
    v
}

/// The bytes of `,"schema":` as a vector.
pub fn lit_schema_vec() -> (r: Vec<u8>)
    ensures
        r@ == lit_schema(),
{
    let mut v: Vec<u8> = Vec::new();
    v.push(44);
    v.push(34);
    v.push(115);
    v.push(99);
    v.push(104);
    v.push(101);
    v.push(109);
    v.push(97);
    v.push(34);
    v.push(58);
    proof {
        assert(v@ =~= lit_schema());
    }
    v
}

/// The bytes of `,"docstamp":` as a vector.
pub fn lit_docstamp_vec() -> (r: Vec<u8>)
    ensures
        r@ == lit_docstamp(),
{
    let mut v: Vec<u8> = Vec::new();
    v.push(44);
    v.push(34);
    v.push(100);
    v.push(111);
    v.push(99);
    v.push(115);
    v.push(116);
    v.push(97);
    v.push(109);
    v.push(112);
    v.push(34);
    v.push(58);
    proof {
        assert(v@ =~= lit_docstamp());
    }
    v
}

/// The bytes of `}` and the newline as a vector.
pub fn lit_end_vec() -> (r: Vec<u8>)
    ensures
        r@ == lit_end(),
{
    let mut v: Vec<u8> = Vec::new();
    v.push(125);
    v.push(10);
    proof {
        assert(v@ =~= lit_end());
    }
    v
}

/// Appends the decimal rendering of `n` to `out`.
pub fn encode_u128(n: u128, out: &mut Vec<u8>)
    ensures
        final(out)@ == old(out)@ + dec_nat(n as nat),
{
    let mut digits: Vec<u8> = Vec::new();
    let mut x: u128 = n;
    proof {
        assert(Seq::<u8>::empty().reverse() =~= Seq::<u8>::empty());
        assert(dec_nat(n as nat) =~= dec_nat(x as nat) + digits@.reverse());
    }
    loop
        invariant_except_break
            dec_nat(n as nat) == dec_nat(x as nat) + digits@.reverse(),
        ensures
            dec_nat(n as nat) == digits@.reverse(),
        decreases x,
    {
        let d: u8 = (x % 10) as u8 + 48;
        proof {
            lemma_reverse_push(digits@, d);
        }
        digits.push(d);
        if x < 10 {
            proof {
                assert(dec_nat(x as nat) == seq![d]);
                assert(dec_nat(n as nat) =~= digits@.reverse());
            }
            break ;
        }
        proof {
            assert(dec_nat(x as nat) == dec_nat(x as nat / 10) + seq![d]);
            assert(dec_nat(n as nat) =~= dec_nat((x / 10) as nat) + digits@.reverse());
        }
        x = x / 10;
    }
    let total: usize = digits.len();
    let mut k: usize = 0;
    while k < total
        invariant
            0 <= k <= total,
            total == digits@.len(),
            out@ == old(out)@ + digits@.reverse().take(k as int),
            dec_nat(n as nat) == digits@.reverse(),
        decreases total - k,
    {
        out.push(digits[total - 1 - k]);
        proof {
            assert(digits@.reverse()[k as int] == digits@[total - 1 - k]);
            assert(old(out)@ + digits@.reverse().take(k as int + 1) =~= (old(out)@
                + digits@.reverse().take(k as int)).push(digits@[total - 1 - k]));
        }
        k += 1;
    }
    proof {
        assert(digits@.reverse().take(total as int) =~= digits@.reverse());
    }
}

/// Appends the rendering of a number list to `out`.
pub fn encode_u128_list(vals: &Vec<u128>, out: &mut Vec<u8>)
    ensures
        final(out)@ == old(out)@ + enc_list(vals@),
{
    out.push(91);
    proof {
        assert(enc_list_body(vals@.take(0)) =~= Seq::<u8>::empty());
        assert(out@ =~= old(out)@ + seq![91u8] + enc_list_body(vals@.take(0)));
    }
    let mut i: usize = 0;
    while i < vals.len()
        invariant
            0 <= i <= vals@.len(),
            out@ == old(out)@ + seq![91u8] + enc_list_body(vals@.take(i as int)),
        decreases vals@.len() - i,
    {
        if i > 0 {
            out.push(44);
        }
        encode_u128(vals[i], out);
        proof {
            lemma_body_push(vals@.take(i as int), vals@[i as int]);
            assert(vals@.take(i as int).push(vals@[i as int]) =~= vals@.take(i as int + 1));
            if i == 0 {
                assert(out@ =~= old(out)@ + seq![91u8] + enc_list_body(vals@.take(i as int + 1)));
            } else {
                assert(out@ =~= old(out)@ + seq![91u8] + enc_list_body(vals@.take(i as int + 1)));
            }
        }
        i += 1;
    }
    out.push(93);
    proof {
        assert(vals@.take(vals@.len() as int) =~= vals@);
        assert(out@ =~= old(out)@ + enc_list(vals@));
    }
}

/// The raw identifier values of `segments` as a vector.
pub fn ids_vec(segments: &Vec<SegmentId>) -> (r: Vec<u128>)
    ensures
        r@ == ids_of(segments@),
{
    let mut r: Vec<u128> = Vec::new();
    let mut i: usize = 0;
    while i < segments.len()
        invariant
            0 <= i <= segments@.len(),
            r@ =~= ids_of(segments@.take(i as int)),
        decreases segments@.len() - i,
    {
        r.push(segments[i].value);
        proof {
            assert(ids_of(segments@.take(i as int + 1)) =~= ids_of(segments@.take(i as int)).push(
                segments@[i as int].value,
            ));
        }
        i += 1;
    }
    proof {
        assert(segments@.take(segments@.len() as int) =~= segments@);
    }
    r
}

/// The schema bytes widened to list values, as a vector.
pub fn schema_vals_vec(schema: &Vec<u8>) -> (r: Vec<u128>)
    ensures
        r@ == bytes_as_u128(schema@),
{
    let mut r: Vec<u128> = Vec::new();
    let mut i: usize = 0;
    while i < schema.len()
        invariant
            0 <= i <= schema@.len(),
            r@ =~= bytes_as_u128(schema@.take(i as int)),
        decreases schema@.len() - i,
    {
        r.push(schema[i] as u128);
        proof {
            assert(bytes_as_u128(schema@.take(i as int + 1)) =~= bytes_as_u128(
                schema@.take(i as int),
            ).push(schema@[i as int] as u128));
        }
        i += 1;
    }
    proof {
        assert(schema@.take(schema@.len() as int) =~= schema@);
    }
    r
}

/// Serializes `m` into its canonical `meta.json` bytes.
pub fn encode_meta(m: &IndexMeta) -> (r: Vec<u8>)
    ensures
        r@ == spec_encode_meta(m@),
{
    let mut out: Vec<u8> = Vec::new();
    let l1 = lit_segments_vec();
    append_bytes(&mut out, l1.as_slice());
    let ids = ids_vec(&m.segments);
    encode_u128_list(&ids, &mut out);
    let l2 = lit_schema_vec();
    append_bytes(&mut out, l2.as_slice());
    let sch = schema_vals_vec(m.schema.as_bytes());
    encode_u128_list(&sch, &mut out);
    let l3 = lit_docstamp_vec();
    append_bytes(&mut out, l3.as_slice());
    encode_u128(m.docstamp as u128, &mut out);
    let l4 = lit_end_vec();
    append_bytes(&mut out, l4.as_slice());
    proof {
        assert(out@ =~= spec_encode_meta(m@));
    }
    out
}

/// End of the rendered identifier list within an encoded meta.
pub open spec fn off_ids_end(mv: MetaView) -> int {
    12 + enc_list(ids_of(mv.segments)).len() as int
}

/// Start of the rendered schema list within an encoded meta.
pub open spec fn off_sch_start(mv: MetaView) -> int {
    off_ids_end(mv) + 10
}

/// End of the rendered schema list within an encoded meta.
pub open spec fn off_sch_end(mv: MetaView) -> int {
    off_sch_start(mv) + enc_list(bytes_as_u128(mv.schema)).len() as int
}

/// Start of the rendered docstamp within an encoded meta.
pub open spec fn off_doc_start(mv: MetaView) -> int {
    off_sch_end(mv) + 12
}

/// End of the rendered docstamp within an encoded meta.
pub open spec fn off_doc_end(mv: MetaView) -> int {
    off_doc_start(mv) + dec_nat(mv.docstamp as nat).len() as int
}

/// Where each component of an encoded meta stands inside the bytes.
pub proof fn lemma_encode_decompose(b: Seq<u8>, mv: MetaView)
    requires
        b == spec_encode_meta(mv),
    ensures
        b.len() == off_doc_end(mv) + 2,
        b.subrange(0, 12) == lit_segments(),
        b.subrange(12, off_ids_end(mv)) == enc_list(ids_of(mv.segments)),
        b.subrange(off_ids_end(mv), off_sch_start(mv)) == lit_schema(),
        b.subrange(off_sch_start(mv), off_sch_end(mv)) == enc_list(bytes_as_u128(mv.schema)),
        b.subrange(off_sch_end(mv), off_doc_start(mv)) == lit_docstamp(),
        b.subrange(off_doc_start(mv), off_doc_end(mv)) == dec_nat(mv.docstamp as nat),
        b.subrange(off_doc_end(mv), off_doc_end(mv) + 2) == lit_end(),
        b[off_doc_end(mv)] == 125u8,
        !is_digit(b[off_doc_end(mv)]),
{
    assert(b.len() == off_doc_end(mv) + 2);
    assert(b.subrange(0, 12) =~= lit_segments());
    assert(b.subrange(12, off_ids_end(mv)) =~= enc_list(ids_of(mv.segments)));
    assert(b.subrange(off_ids_end(mv), off_sch_start(mv)) =~= lit_schema());
    assert(b.subrange(off_sch_start(mv), off_sch_end(mv)) =~= enc_list(bytes_as_u128(mv.schema)));
    assert(b.subrange(off_sch_end(mv), off_doc_start(mv)) =~= lit_docstamp());
    assert(b.subrange(off_doc_start(mv), off_doc_end(mv)) =~= dec_nat(mv.docstamp as nat));
    assert(b.subrange(off_doc_end(mv), off_doc_end(mv) + 2) =~= lit_end());
    assert(b[off_doc_end(mv)] == b.subrange(off_doc_end(mv), off_doc_end(mv) + 2)[0]);
}

/// Where the first value and the rest stand inside a rendered list body
/// followed by the closing bracket.
pub proof fn lemma_body_decompose(b: Seq<u8>, i: int, j0: int, vals: Seq<u128>)
    requires
        vals.len() >= 1,
        0 <= i <= j0 <= b.len(),
        b.subrange(i, j0) == enc_list_body(vals) + seq![93u8],
    ensures
        ({
            let dl = dec_nat(vals[0] as nat).len() as int;
            &&& i + dl < j0
            &&& b.subrange(i, i + dl) == dec_nat(vals[0] as nat)
            &&& (vals.len() == 1 ==> b[i + dl] == 93u8 && j0 == i + dl + 1)
            &&& (vals.len() >= 2 ==> b[i + dl] == 44u8 && i + dl + 1 <= j0 && b.subrange(
                i + dl + 1,
                j0,
            ) == enc_list_body(vals.drop_first()) + seq![93u8])
        }),
{
    lemma_dec_props(vals[0] as nat);
    let dl = dec_nat(vals[0] as nat).len() as int;
    let s = enc_list_body(vals) + seq![93u8];
    assert(j0 - i == s.len());
    if vals.len() == 1 {
        assert(s =~= dec_nat(vals[0] as nat) + seq![93u8]);
        assert(b.subrange(i, i + dl) =~= dec_nat(vals[0] as nat));
        assert(b[i + dl] == b.subrange(i, j0)[dl]);
    } else {
        assert(enc_list_body(vals) == dec_nat(vals[0] as nat) + seq![44u8] + enc_list_body(
            vals.drop_first(),
        ));
        assert(b.subrange(i, i + dl) =~= dec_nat(vals[0] as nat));
        assert(b[i + dl] == b.subrange(i, j0)[dl]);
        assert(s =~= dec_nat(vals[0] as nat) + seq![44u8] + (enc_list_body(vals.drop_first())
            + seq![93u8]));
        assert(i + dl + 1 <= j0);
        assert forall|t: int| 0 <= t < j0 - (i + dl + 1) implies b.subrange(i + dl + 1, j0)[t]
            == (enc_list_body(vals.drop_first()) + seq![93u8])[t] by {
            assert(b.subrange(i + dl + 1, j0)[t] == b.subrange(i, j0)[dl + 1 + t]);
            assert(s[dl + 1 + t] == (dec_nat(vals[0] as nat) + seq![44u8] + (enc_list_body(
                vals.drop_first(),
            ) + seq![93u8]))[dl + 1 + t]);
        };
        assert(b.subrange(i + dl + 1, j0) =~= enc_list_body(vals.drop_first()) + seq![93u8]);
    }
}

/// Reads a canonically rendered number at position `i`: a maximal digit
/// run without a leading zero, valued within `u128`.
pub fn parse_u128_at(b: &[u8], i: usize) -> (r: Option<(u128, usize)>)
    requires
        i <= b@.len(),
    ensures
        (r matches Some(p) ==> i < p.1 <= b@.len() && b@.subrange(i as int, p.1 as int) == dec_nat(
            p.0 as nat,
        ) && (p.1 == b@.len() || !is_digit(b@[p.1 as int]))),
        forall|n: u128, j: int|
            i <= j <= b@.len() && b@.subrange(i as int, j) == dec_nat(n as nat) && (j == b@.len()
                || !is_digit(b@[j])) ==> r == Some((n, j as usize)),
{
    if i == b.len() || b[i] < 48 || b[i] > 57 {
        proof {
            assert forall|n: u128, j: int|
                i <= j <= b@.len() && b@.subrange(i as int, j) == dec_nat(n as nat) && (j
                    == b@.len() || !is_digit(b@[j])) implies false by {
                lemma_dec_props(n as nat);
                assert(j > i);
                assert(b@[i as int] == b@.subrange(i as int, j)[0]);
                assert(is_digit(b@[i as int]));
            };
        }
        return None;
    }
    if b[i] == 48 && i + 1 < b.len() && b[i + 1] >= 48 && b[i + 1] <= 57 {
        proof {
            assert forall|n: u128, j: int|
                i <= j <= b@.len() && b@.subrange(i as int, j) == dec_nat(n as nat) && (j
                    == b@.len() || !is_digit(b@[j])) implies false by {
                lemma_dec_props(n as nat);
                assert(b@[i as int] == b@.subrange(i as int, j)[0]);
                assert(n as nat >= 1 ==> dec_nat(n as nat)[0] != 48);
                assert(n == 0);
                assert(dec_nat(n as nat).len() == 1);
                assert(j == i + 1);
                assert(is_digit(b@[j]));
            };
        }
        return None;
    }
    let mut j: usize = i;
    let mut val: u128 = 0;
    proof {
        assert(b@.subrange(i as int, i as int) =~= Seq::<u8>::empty());
        assert(digits_val(Seq::<u8>::empty()) == 0);
    }
    while j < b.len() && b[j] >= 48 && b[j] <= 57
        invariant
            i <= j <= b@.len(),
            forall|k: int| i <= k < j ==> is_digit(b@[k]),
            val as nat == digits_val(b@.subrange(i as int, j as int)),
        decreases b@.len() - j,
    {
        let d: u8 = b[j] - 48;
        let next: Option<u128> = match val.checked_mul(10) {
            Some(v10) => v10.checked_add(d as u128),
            None => None,
        };
        match next {
            Some(v2) => {
                proof {
                    assert(b@.subrange(i as int, j as int + 1).drop_last() =~= b@.subrange(
                        i as int,
                        j as int,
                    ));
                    assert(b@.subrange(i as int, j as int + 1).last() == b@[j as int]);
                }
                val = v2;
                j += 1;
            },
            None => {
                proof {
                    assert(val * 10 + d > u128::MAX);
                    assert forall|n: u128, j0: int|
                        i <= j0 <= b@.len() && b@.subrange(i as int, j0) == dec_nat(n as nat) && (
                        j0 == b@.len() || !is_digit(b@[j0])) implies false by {
                        lemma_dec_props(n as nat);
                        assert forall|k: int| i <= k < j0 implies is_digit(b@[k]) by {
                            assert(b@[k] == b@.subrange(i as int, j0)[k - i]);
                        };
                        assert(j0 > j);
                        assert(b@.subrange(i as int, j as int + 1) =~= dec_nat(n as nat).subrange(
                            0,
                            j + 1 - i,
                        ));
                        lemma_digits_val_prefix_le(dec_nat(n as nat), j + 1 - i);
                        assert(b@.subrange(i as int, j as int + 1).drop_last() =~= b@.subrange(
                            i as int,
                            j as int,
                        ));
                        assert(b@.subrange(i as int, j as int + 1).last() == b@[j as int]);
                        assert(digits_val(b@.subrange(i as int, j as int + 1)) == (val * 10 + (
                        b@[j as int] - 48)) as nat);
                        assert(val * 10 + d <= u128::MAX);
                    };
                }
                return None;
            },
        }
    }
    proof {
        assert(is_digit(b@[i as int]));
        assert(j > i);
        let s = b@.subrange(i as int, j as int);
        assert(s[0] == b@[i as int]);
        if s.len() > 1 {
            assert(b@[i as int + 1] == s[1]);
            assert(is_digit(b@[i as int + 1]));
            assert(s[0] != 48);
        }
        assert(canonical_digits(s));
        lemma_canonical_digits_unique(s);
        assert(s == dec_nat(val as nat));
        assert forall|n: u128, j0: int|
            i <= j0 <= b@.len() && b@.subrange(i as int, j0) == dec_nat(n as nat) && (j0
                == b@.len() || !is_digit(b@[j0])) implies n == val && j0 == j by {
            lemma_dec_props(n as nat);
            assert forall|k: int| i <= k < j0 implies is_digit(b@[k]) by {
                assert(b@[k] == b@.subrange(i as int, j0)[k - i]);
            };
            assert(j0 <= j);
            assert(j0 == j);
            assert(dec_nat(n as nat) == s);
            assert(n as nat == digits_val(s));
        };
    }
    Some((val, j))
}

/// Appends `data` to `out`.
pub fn append_u128s(out: &mut Vec<u128>, data: &[u128])
    ensures
        final(out)@ == old(out)@ + data@,
{
    let mut k: usize = 0;
    while k < data.len()
        invariant
            0 <= k <= data@.len(),
            out@ == old(out)@ + data@.take(k as int),
        decreases data@.len() - k,
    {
        out.push(data[k]);
        proof {
            assert(old(out)@ + data@.take(k as int + 1) =~= (old(out)@ + data@.take(
                k as int,
            )).push(data@[k as int]));
        }
        k += 1;
    }
    proof {
        assert(old(out)@ + data@.take(data@.len() as int) =~= old(out)@ + data@);
    }
}

/// Reads the items of a nonempty rendered list together with the closing
/// bracket, starting just after the opening bracket.
pub fn parse_items(b: &[u8], i: usize) -> (r: Option<(Vec<u128>, usize)>)
    requires
        i <= b@.len(),
    ensures
        (r matches Some(p) ==> p.0@.len() >= 1 && i < p.1 <= b@.len() && b@.subrange(
            i as int,
            p.1 as int,
        ) == enc_list_body(p.0@) + seq![93u8]),
        forall|vals: Seq<u128>, j: int|
            vals.len() >= 1 && i <= j <= b@.len() && b@.subrange(i as int, j) == enc_list_body(vals)
                + seq![93u8] ==> (r matches Some(p) && p.0@ == vals && p.1 == j),
    decreases b@.len() - i,
{
    let first = parse_u128_at(b, i);
    let (v, j) = match first {
        Some(p) => p,
        None => {
            proof {
                assert forall|vals: Seq<u128>, j0: int|
                    vals.len() >= 1 && i <= j0 <= b@.len() && b@.subrange(i as int, j0)
                        == enc_list_body(vals) + seq![93u8] implies false by {
                    lemma_body_decompose(b@, i as int, j0, vals);
                };
            }
            return None;
        },
    };
    if j == b.len() {
        proof {
            assert forall|vals: Seq<u128>, j0: int|
                vals.len() >= 1 && i <= j0 <= b@.len() && b@.subrange(i as int, j0)
                    == enc_list_body(vals) + seq![93u8] implies false by {
                lemma_body_decompose(b@, i as int, j0, vals);
                lemma_dec_props(vals[0] as nat);
            };
        }
        return None;
    }
    if b[j] == 93 {
        let mut out: Vec<u128> = Vec::new();
        out.push(v);
        proof {
            assert(out@ =~= seq![v]);
            assert(enc_list_body(seq![v]) == dec_nat(v as nat));
            assert(b@.subrange(i as int, j as int + 1) =~= enc_list_body(seq![v]) + seq![93u8]);
            assert forall|vals: Seq<u128>, j0: int|
                vals.len() >= 1 && i <= j0 <= b@.len() && b@.subrange(i as int, j0)
                    == enc_list_body(vals) + seq![93u8] implies (vals =~= seq![v] && j0 == j + 1)
                by {
                lemma_body_decompose(b@, i as int, j0, vals);
                lemma_dec_props(vals[0] as nat);
                assert(v == vals[0] && j == i + dec_nat(vals[0] as nat).len());
                assert(vals.len() == 1);
            };
        }
        return Some((out, j + 1));
    }
    if b[j] == 44 {
        let rec = parse_items(b, j + 1);
        match rec {
            Some(p) => {
                let (rest, j2) = p;
                let mut out: Vec<u128> = Vec::new();
                out.push(v);
                append_u128s(&mut out, rest.as_slice());
                proof {
                    assert(out@ =~= seq![v] + rest@);
                    assert(out@[0] == v);
                    assert(out@.drop_first() =~= rest@);
                    assert(enc_list_body(out@) == dec_nat(v as nat) + seq![44u8] + enc_list_body(
                        rest@,
                    ));
                    assert(b@.subrange(i as int, j2 as int) =~= b@.subrange(i as int, j as int)
                        + seq![44u8] + b@.subrange(j as int + 1, j2 as int));
                    assert(enc_list_body(out@) + seq![93u8] =~= dec_nat(v as nat) + seq![44u8] + (
                    enc_list_body(rest@) + seq![93u8]));
                    assert(b@.subrange(i as int, j2 as int) =~= enc_list_body(out@) + seq![93u8]);
                    assert forall|vals: Seq<u128>, j0: int|
                        vals.len() >= 1 && i <= j0 <= b@.len() && b@.subrange(i as int, j0)
                            == enc_list_body(vals) + seq![93u8] implies (vals =~= out@ && j0 == j2)
                        by {
                        lemma_body_decompose(b@, i as int, j0, vals);
                        lemma_dec_props(vals[0] as nat);
                        assert(v == vals[0] && j == i + dec_nat(vals[0] as nat).len());
                        assert(vals.len() >= 2);
                        assert(rest@ == vals.drop_first() && j2 == j0);
                    };
                }
                Some((out, j2))
            },
            None => {
                proof {
                    assert forall|vals: Seq<u128>, j0: int|
                        vals.len() >= 1 && i <= j0 <= b@.len() && b@.subrange(i as int, j0)
                            == enc_list_body(vals) + seq![93u8] implies false by {
                        lemma_body_decompose(b@, i as int, j0, vals);
                        lemma_dec_props(vals[0] as nat);
                        assert(v == vals[0] && j == i + dec_nat(vals[0] as nat).len());
                        assert(vals.len() >= 2);
                    };
                }
                None
            },
        }
    } else {
        proof {
            assert forall|vals: Seq<u128>, j0: int|
                vals.len() >= 1 && i <= j0 <= b@.len() && b@.subrange(i as int, j0)
                    == enc_list_body(vals) + seq![93u8] implies false by {
                lemma_body_decompose(b@, i as int, j0, vals);
                lemma_dec_props(vals[0] as nat);
                assert(v == vals[0] && j == i + dec_nat(vals[0] as nat).len());
            };
        }
        None
    }
}

/// Reads a rendered number list at position `i`.
pub fn parse_u128_list_at(b: &[u8], i: usize) -> (r: Option<(Vec<u128>, usize)>)
    requires
        i <= b@.len(),
    ensures
        (r matches Some(p) ==> i < p.1 <= b@.len() && b@.subrange(i as int, p.1 as int) == enc_list(
            p.0@,
        )),
        forall|vals: Seq<u128>, j: int|
            i <= j <= b@.len() && b@.subrange(i as int, j) == enc_list(vals) ==> (r matches Some(p)
                && p.0@ == vals && p.1 == j),
{
    if i == b.len() || b[i] != 91 {
        proof {
            assert forall|vals: Seq<u128>, j0: int|
                i <= j0 <= b@.len() && b@.subrange(i as int, j0) == enc_list(vals) implies false by {
                assert(j0 - i == enc_list(vals).len());
                assert(enc_list(vals).len() >= 2);
                assert(b@[i as int] == b@.subrange(i as int, j0)[0]);
                assert(enc_list(vals)[0] == 91u8);
            };
        }
        return None;
    }
    if i + 1 == b.len() {
        proof {
            assert forall|vals: Seq<u128>, j0: int|
                i <= j0 <= b@.len() && b@.subrange(i as int, j0) == enc_list(vals) implies false by {
                assert(j0 - i == enc_list(vals).len());
            };
        }
        return None;
    }
    if b[i + 1] == 93 {
        proof {
            assert(enc_list_body(Seq::<u128>::empty()) == Seq::<u8>::empty());
            assert(b@.subrange(i as int, i as int + 2) =~= enc_list(Seq::<u128>::empty()));
            assert forall|vals: Seq<u128>, j0: int|
                i <= j0 <= b@.len() && b@.subrange(i as int, j0) == enc_list(vals) implies (vals
                =~= Seq::<u128>::empty() && j0 == i + 2) by {
                assert(j0 - i == enc_list(vals).len());
                assert(enc_list(vals).len() >= 2);
                if vals.len() >= 1 {
                    lemma_dec_props(vals[0] as nat);
                    assert(enc_list_body(vals).len() >= 1);
                    assert(enc_list(vals)[1] == enc_list_body(vals)[0]);
                    assert(enc_list_body(vals)[0] == dec_nat(vals[0] as nat)[0]);
                    assert(b@[i as int + 1] == b@.subrange(i as int, j0)[1]);
                    assert(is_digit(b@[i as int + 1]));
                }
            };
        }
        return Some((Vec::new(), i + 2));
    }
    let rec = parse_items(b, i + 1);
    match rec {
        Some(p) => {
            let (vals, j) = p;
            proof {
                assert(b@.subrange(i as int, j as int) =~= seq![91u8] + (enc_list_body(vals@)
                    + seq![93u8]));
                assert(b@.subrange(i as int, j as int) =~= enc_list(vals@));
                assert forall|vals0: Seq<u128>, j0: int|
                    i <= j0 <= b@.len() && b@.subrange(i as int, j0) == enc_list(vals0) implies (
                vals0 =~= vals@ && j0 == j) by {
                    assert(j0 - i == enc_list(vals0).len());
                    assert(enc_list(vals0).len() >= 2);
                    if vals0.len() == 0 {
                        assert(enc_list(vals0)[1] == 93u8);
                        assert(b@[i as int + 1] == b@.subrange(i as int, j0)[1]);
                    } else {
                        assert(enc_list(vals0) =~= seq![91u8] + (enc_list_body(vals0)
                            + seq![93u8]));
                        assert forall|t: int| 0 <= t < j0 - (i + 1) implies b@.subrange(
                            i as int + 1,
                            j0,
                        )[t] == (enc_list_body(vals0) + seq![93u8])[t] by {
                            assert(b@.subrange(i as int + 1, j0)[t] == b@.subrange(i as int, j0)[1
                                + t]);
                            assert((seq![91u8] + (enc_list_body(vals0) + seq![93u8]))[1 + t] == (
                            enc_list_body(vals0) + seq![93u8])[t]);
                        };
                        assert(b@.subrange(i as int + 1, j0) =~= enc_list_body(vals0)
                            + seq![93u8]);
                    }
                };
            }
            Some((vals, j))
        },
        None => {
            proof {
                assert forall|vals0: Seq<u128>, j0: int|
                    i <= j0 <= b@.len() && b@.subrange(i as int, j0) == enc_list(vals0) implies false by {
                    assert(j0 - i == enc_list(vals0).len());
                    assert(enc_list(vals0).len() >= 2);
                    if vals0.len() == 0 {
                        assert(enc_list(vals0)[1] == 93u8);
                        assert(b@[i as int + 1] == b@.subrange(i as int, j0)[1]);
                    } else {
                        assert(enc_list(vals0) =~= seq![91u8] + (enc_list_body(vals0)
                            + seq![93u8]));
                        assert forall|t: int| 0 <= t < j0 - (i + 1) implies b@.subrange(
                            i as int + 1,
                            j0,
                        )[t] == (enc_list_body(vals0) + seq![93u8])[t] by {
                            assert(b@.subrange(i as int + 1, j0)[t] == b@.subrange(i as int, j0)[1
                                + t]);
                            assert((seq![91u8] + (enc_list_body(vals0) + seq![93u8]))[1 + t] == (
                            enc_list_body(vals0) + seq![93u8])[t]);
                        };
                        assert(b@.subrange(i as int + 1, j0) =~= enc_list_body(vals0)
                            + seq![93u8]);
                    }
                };
            }
            None
        },
    }
}

/// Checks that `lit` stands at position `i` of `b`.
pub fn expect_lit(b: &[u8], i: usize, lit: &[u8]) -> (r: Option<usize>)
    requires
        i <= b@.len(),
    ensures
        (r matches Some(j) ==> j == i + lit@.len() && j <= b@.len() && b@.subrange(
            i as int,
            j as int,
        ) == lit@),
        (r is None ==> !(i + lit@.len() <= b@.len() && b@.subrange(i as int, i + lit@.len())
            == lit@)),
{
    if b.len() - i < lit.len() {
        return None;
    }
    let mut k: usize = 0;
    while k < lit.len()
        invariant
            0 <= k <= lit@.len(),
            i + lit@.len() <= b@.len(),
            b@.len() <= usize::MAX,
            forall|t: int| 0 <= t < k ==> b@[i + t] == lit@[t],
        decreases lit@.len() - k,
    {
        if b[i + k] != lit[k] {
            proof {
                assert(b@.subrange(i as int, i + lit@.len())[k as int] == b@[i + k]);
            }
            return None;
        }
        k += 1;
    }
    proof {
        assert(b@.subrange(i as int, (i + lit@.len()) as int) =~= lit@);
    }
    Some(i + lit.len())
}

/// Parses canonical `meta.json` bytes back into the meta record.
///
/// The parse succeeds exactly on the canonical encoding of some meta, and
/// then returns that meta: together with [`encode_meta`] this is the
/// round trip that makes the on-disk record authoritative.
#[verifier::rlimit(100)]
#[verifier::loop_isolation(false)]
pub fn parse_meta(b: &[u8]) -> (r: Option<IndexMeta>)
    ensures
        (r matches Some(m) ==> b@ == spec_encode_meta(m@)),
        forall|mv: MetaView|
            b@ == spec_encode_meta(mv) ==> (r matches Some(m) && m@ == mv),
{
    let l1 = lit_segments_vec();
    let j1 = match expect_lit(b, 0, l1.as_slice()) {
        Some(j) => j,
        None => {
            proof {
                assert forall|mv: MetaView| b@ == spec_encode_meta(mv) implies false by {
                    lemma_encode_decompose(b@, mv);
                };
            }
            return None;
        },
    };
    let ids_parsed = parse_u128_list_at(b, j1);
    let (ids_vals, j2) = match ids_parsed {
        Some(p) => p,
        None => {
            proof {
                assert forall|mv: MetaView| b@ == spec_encode_meta(mv) implies false by {
                    lemma_encode_decompose(b@, mv);
                };
            }
            return None;
        },
    };
    let l2 = lit_schema_vec();
    let j3 = match expect_lit(b, j2, l2.as_slice()) {
        Some(j) => j,
        None => {
            proof {
                assert forall|mv: MetaView| b@ == spec_encode_meta(mv) implies false by {
                    lemma_encode_decompose(b@, mv);
                    assert(ids_vals@ == ids_of(mv.segments) && j2 == off_ids_end(mv));
                };
            }
            return None;
        },
    };
    let sch_parsed = parse_u128_list_at(b, j3);
    let (sch_vals, j4) = match sch_parsed {
        Some(p) => p,
        None => {
            proof {
                assert forall|mv: MetaView| b@ == spec_encode_meta(mv) implies false by {
                    lemma_encode_decompose(b@, mv);
                    assert(ids_vals@ == ids_of(mv.segments) && j2 == off_ids_end(mv));
                    assert(j3 == off_sch_start(mv));
                };
            }
            return None;
        },
    };
    let l3 = lit_docstamp_vec();
    let j5 = match expect_lit(b, j4, l3.as_slice()) {
        Some(j) => j,
        None => {
            proof {
                assert forall|mv: MetaView| b@ == spec_encode_meta(mv) implies false by {
                    lemma_encode_decompose(b@, mv);
                    assert(ids_vals@ == ids_of(mv.segments) && j2 == off_ids_end(mv));
                    assert(j3 == off_sch_start(mv));
                    assert(sch_vals@ == bytes_as_u128(mv.schema) && j4 == off_sch_end(mv));
                };
            }
            return None;
        },
    };
    let doc_parsed = parse_u128_at(b, j5);
    let (doc, j6) = match doc_parsed {
        Some(p) => p,
        None => {
            proof {
                assert forall|mv: MetaView| b@ == spec_encode_meta(mv) implies false by {
                    lemma_encode_decompose(b@, mv);
                    assert(ids_vals@ == ids_of(mv.segments) && j2 == off_ids_end(mv));
                    assert(j3 == off_sch_start(mv));
                    assert(sch_vals@ == bytes_as_u128(mv.schema) && j4 == off_sch_end(mv));
                    assert(j5 == off_doc_start(mv));
                    assert(dec_nat((mv.docstamp as u128) as nat) == dec_nat(mv.docstamp as nat));
                };
            }
            return None;
        },
    };
    let l4 = lit_end_vec();
    let j7 = match expect_lit(b, j6, l4.as_slice()) {
        Some(j) => j,
        None => {
            proof {
                assert forall|mv: MetaView| b@ == spec_encode_meta(mv) implies false by {
                    lemma_encode_decompose(b@, mv);
                    assert(ids_vals@ == ids_of(mv.segments) && j2 == off_ids_end(mv));
                    assert(j3 == off_sch_start(mv));
                    assert(sch_vals@ == bytes_as_u128(mv.schema) && j4 == off_sch_end(mv));
                    assert(j5 == off_doc_start(mv));
                    assert(dec_nat((mv.docstamp as u128) as nat) == dec_nat(mv.docstamp as nat));
                    assert(doc == mv.docstamp as u128 && j6 == off_doc_end(mv));
                };
            }
            return None;
        },
    };
    if j7 != b.len() {
        proof {
            assert forall|mv: MetaView| b@ == spec_encode_meta(mv) implies false by {
                lemma_encode_decompose(b@, mv);
                assert(ids_vals@ == ids_of(mv.segments) && j2 == off_ids_end(mv));
                assert(j3 == off_sch_start(mv));
                assert(sch_vals@ == bytes_as_u128(mv.schema) && j4 == off_sch_end(mv));
                assert(j5 == off_doc_start(mv));
                assert(dec_nat((mv.docstamp as u128) as nat) == dec_nat(mv.docstamp as nat));
                assert(doc == mv.docstamp as u128 && j6 == off_doc_end(mv));
            };
        }
        return None;
    }
    if doc > u64::MAX as u128 {
        proof {
            assert forall|mv: MetaView| b@ == spec_encode_meta(mv) implies false by {
                lemma_encode_decompose(b@, mv);
                assert(ids_vals@ == ids_of(mv.segments) && j2 == off_ids_end(mv));
                assert(j3 == off_sch_start(mv));
                assert(sch_vals@ == bytes_as_u128(mv.schema) && j4 == off_sch_end(mv));
                assert(j5 == off_doc_start(mv));
                assert(dec_nat((mv.docstamp as u128) as nat) == dec_nat(mv.docstamp as nat));
                assert(doc == mv.docstamp as u128);
            };
        }
        return None;
    }
    let mut schema_bytes: Vec<u8> = Vec::new();
    let mut k: usize = 0;
    while k < sch_vals.len()
        invariant
            0 <= k <= sch_vals@.len(),
            schema_bytes@.len() == k,
            forall|t: int| 0 <= t < k ==> sch_vals@[t] <= 255,
            forall|t: int| 0 <= t < k ==> schema_bytes@[t] as u128 == sch_vals@[t],
        decreases sch_vals@.len() - k,
    {
        let x = sch_vals[k];
        if x > 255 {
            proof {
                assert forall|mv: MetaView| b@ == spec_encode_meta(mv) implies false by {
                    lemma_encode_decompose(b@, mv);
                    assert(ids_vals@ == ids_of(mv.segments) && j2 == off_ids_end(mv));
                    assert(j3 == off_sch_start(mv));
                    assert(sch_vals@ == bytes_as_u128(mv.schema) && j4 == off_sch_end(mv));
                    assert(sch_vals@[k as int] == mv.schema[k as int] as u128);
                };
            }
            return None;
        }
        schema_bytes.push(x as u8);
        k += 1;
    }
    let mut segments: Vec<SegmentId> = Vec::new();
    let mut t: usize = 0;
    while t < ids_vals.len()
        invariant
            0 <= t <= ids_vals@.len(),
            segments@.len() == t,
            forall|u: int| 0 <= u < t ==> segments@[u] == (SegmentId { value: ids_vals@[u] }),
        decreases ids_vals@.len() - t,
    {
        segments.push(SegmentId { value: ids_vals[t] });
        t += 1;
    }
    let m = IndexMeta { segments, schema: Schema::new(schema_bytes), docstamp: doc as u64 };
    proof {
        assert(ids_of(m@.segments) =~= ids_vals@);
        assert(bytes_as_u128(m@.schema) =~= sch_vals@);
        assert(dec_nat(m@.docstamp as nat) == dec_nat(doc as nat));
        assert(b@ =~= spec_encode_meta(m@));
        assert forall|mv: MetaView| b@ == spec_encode_meta(mv) implies m@ == mv by {
            lemma_encode_decompose(b@, mv);
            assert(ids_vals@ == ids_of(mv.segments) && j2 == off_ids_end(mv));
            assert(j3 == off_sch_start(mv));
            assert(sch_vals@ == bytes_as_u128(mv.schema) && j4 == off_sch_end(mv));
            assert(j5 == off_doc_start(mv));
            assert(dec_nat((mv.docstamp as u128) as nat) == dec_nat(mv.docstamp as nat));
            assert(doc == mv.docstamp as u128);
            assert(m@.docstamp == mv.docstamp);
            assert forall|u: int| 0 <= u < m@.segments.len() implies m@.segments[u]
                == mv.segments[u] by {
                assert(ids_of(mv.segments)[u] == mv.segments[u].value);
            };
            assert(m@.segments =~= mv.segments);
            assert forall|u: int| 0 <= u < m@.schema.len() implies m@.schema[u] == mv.schema[u] by {
                assert(bytes_as_u128(mv.schema)[u] == mv.schema[u] as u128);
            };
            assert(m@.schema =~= mv.schema);
        };
    }
    Some(m)
}

} // verus!
