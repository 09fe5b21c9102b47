//! A typed JSON-like value and its canonical byte encoding.
//!
//! A structured value is canonicalized by recursively sorting every object's
//! keys in strict lexicographic order, then serialized to a compact byte
//! encoding with no insignificant whitespace.  Two well-formed values with
//! the same logical content (same keys bound to equivalent values, in any
//! order) have exactly one canonical form, so their canonical bytes are
//! identical.

use vstd::prelude::*;
use vstd::string::*;

verus! {

broadcast use vstd::std_specs::vec::group_vec_axioms;

/// An executable JSON-like structured value.  Objects are kept as ordered
/// key/value pair lists; canonicalization sorts them.
pub enum JsonValue {
    Null,
    Bool(bool),
    Int(i64),
    Text(String),
    Array(Vec<JsonValue>),
    Object(Vec<(String, JsonValue)>),
}

/// The mathematical content of a `JsonValue`: strings become character
/// sequences, integers become unbounded integers.
#[verifier::ext_equal]
pub enum JsonRep {
    Null,
    Bool(bool),
    Int(int),
    Text(Seq<char>),
    Arr(Seq<JsonRep>),
    Obj(Seq<(Seq<char>, JsonRep)>),
}

/// The representation of an executable value.
pub open spec fn rep(v: JsonValue) -> JsonRep
    decreases v,
{
    match v {
        JsonValue::Null => JsonRep::Null,
        JsonValue::Bool(b) => JsonRep::Bool(b),
        JsonValue::Int(i) => JsonRep::Int(i as int),
        JsonValue::Text(s) => JsonRep::Text(s@),
        JsonValue::Array(items) => JsonRep::Arr(rep_list(items@)),
        JsonValue::Object(pairs) => JsonRep::Obj(rep_pairs(pairs@)),
    }
}

/// The representations of a sequence of values.
pub open spec fn rep_list(items: Seq<JsonValue>) -> Seq<JsonRep>
    decreases items,
{
    if items.len() == 0 {
        Seq::empty()
    } else {
        rep_list(items.drop_last()).push(rep(items.last()))
    }
}

/// The representations of a sequence of key/value pairs.
pub open spec fn rep_pairs(pairs: Seq<(String, JsonValue)>) -> Seq<(Seq<char>, JsonRep)>
    decreases pairs,
{
    if pairs.len() == 0 {
        Seq::empty()
    } else {
        rep_pairs(pairs.drop_last()).push((pairs.last().0@, rep(pairs.last().1)))
    }
}

pub proof fn lemma_rep_list(items: Seq<JsonValue>)
    ensures
        rep_list(items).len() == items.len(),
        forall|i: int| 0 <= i < items.len() ==> rep_list(items)[i] == rep(items[i]),
    decreases items.len(),
{
    if items.len() > 0 {
        lemma_rep_list(items.drop_last());
    }
}

pub proof fn lemma_rep_pairs(pairs: Seq<(String, JsonValue)>)
    ensures
        rep_pairs(pairs).len() == pairs.len(),
        forall|i: int|
            0 <= i < pairs.len() ==> #[trigger] rep_pairs(pairs)[i] == (
            pairs[i].0@,
            rep(pairs[i].1),
            ),
    decreases pairs.len(),
{
    if pairs.len() > 0 {
        lemma_rep_pairs(pairs.drop_last());
    }
}

/// Strict lexicographic order on character sequences, by code point.
/// For keys this coincides with byte order of their UTF-8 encodings,
/// since UTF-8 preserves code point order.
pub open spec fn lex_lt(a: Seq<char>, b: Seq<char>) -> bool
    decreases a.len(),
{
    if b.len() == 0 {
        false
    } else if a.len() == 0 {
        true
    } else if (a[0] as u32) < (b[0] as u32) {
        true
    } else if (b[0] as u32) < (a[0] as u32) {
        false
    } else {
        lex_lt(a.drop_first(), b.drop_first())
    }
}

pub proof fn lemma_lex_lt_asym(a: Seq<char>, b: Seq<char>)
    ensures
        !(lex_lt(a, b) && lex_lt(b, a)),
    decreases a.len(),
{
    if a.len() != 0 && b.len() != 0 && (a[0] as u32) == (b[0] as u32) {
        lemma_lex_lt_asym(a.drop_first(), b.drop_first());
    }
}

pub proof fn lemma_lex_lt_total(a: Seq<char>, b: Seq<char>)
    ensures
        lex_lt(a, b) || lex_lt(b, a) || a == b,
    decreases a.len(),
{
    if a.len() != 0 && b.len() != 0 && (a[0] as u32) == (b[0] as u32) {
        lemma_lex_lt_total(a.drop_first(), b.drop_first());
        vstd::utf8::char_u32_cast(a[0], a[0] as u32);
        vstd::utf8::char_u32_cast(b[0], b[0] as u32);
        assert(a[0] == b[0]);
        if a.drop_first() == b.drop_first() {
            assert forall|i: int| 0 <= i < a.len() implies a[i] == b[i] by {
                if i > 0 {
                    assert(a.drop_first()[i - 1] == b.drop_first()[i - 1]);
                }
            }
            assert(a =~= b);
        }
    } else if a.len() == 0 && b.len() == 0 {
        assert(a =~= b);
    }
}

pub proof fn lemma_lex_lt_trans(a: Seq<char>, b: Seq<char>, c: Seq<char>)
    requires
        lex_lt(a, b),
        lex_lt(b, c),
    ensures
        lex_lt(a, c),
    decreases a.len(),
{
    if a.len() != 0 && b.len() != 0 && c.len() != 0 && (a[0] as u32) == (b[0] as u32) && (b[0]
        as u32) == (c[0] as u32) {
        lemma_lex_lt_trans(a.drop_first(), b.drop_first(), c.drop_first());
    }
}

/// No key occurs twice in a pair list.
pub open spec fn distinct_keys(ps: Seq<(Seq<char>, JsonRep)>) -> bool {
    forall|i: int, j: int| 0 <= i < j < ps.len() ==> ps[i].0 != ps[j].0
}

/// Some pair binds key `k`.
pub open spec fn has_key(ps: Seq<(Seq<char>, JsonRep)>, k: Seq<char>) -> bool {
    exists|i: int| 0 <= i < ps.len() && ps[i].0 == k
}

/// An index at which key `k` is bound (unique when keys are distinct).
pub open spec fn key_at(ps: Seq<(Seq<char>, JsonRep)>, k: Seq<char>) -> int {
    choose|i: int| 0 <= i < ps.len() && ps[i].0 == k
}

/// The value bound to key `k`.
pub open spec fn lookup(ps: Seq<(Seq<char>, JsonRep)>, k: Seq<char>) -> JsonRep {
    ps[key_at(ps, k)].1
}

pub proof fn lemma_lookup_at_index(ps: Seq<(Seq<char>, JsonRep)>, i: int)
    requires
        distinct_keys(ps),
        0 <= i < ps.len(),
    ensures
        lookup(ps, ps[i].0) == ps[i].1,
        has_key(ps, ps[i].0),
{
    assert(has_key(ps, ps[i].0));
    let j = key_at(ps, ps[i].0);
    assert(0 <= j < ps.len() && ps[j].0 == ps[i].0);
    if i < j {
        assert(ps[i].0 != ps[j].0);
    } else if j < i {
        assert(ps[j].0 != ps[i].0);
    }
}

/// Well-formed: every object, at every depth, has distinct keys.
pub open spec fn wf(a: JsonRep) -> bool
    decreases a,
{
    match a {
        JsonRep::Arr(xs) => forall|i: int|
            0 <= i < xs.len() ==> wf(#[trigger] xs[i]),
        JsonRep::Obj(ps) => distinct_keys(ps) && forall|i: int|
            0 <= i < ps.len() ==> wf(#[trigger] ps[i].1),
        _ => true,
    }
}

/// Logical equivalence: equal leaves, pointwise equivalent arrays, and
/// objects that bind the same keys to equivalent values in any order.
pub open spec fn equiv(a: JsonRep, b: JsonRep) -> bool
    decreases a,
{
    match (a, b) {
        (JsonRep::Arr(xs), JsonRep::Arr(ys)) => xs.len() == ys.len() && forall|i: int|
            0 <= i < xs.len() ==> equiv(#[trigger] xs[i], ys[i]),
        (JsonRep::Obj(ps), JsonRep::Obj(qs)) => {
            &&& distinct_keys(ps)
            &&& distinct_keys(qs)
            &&& (forall|k: Seq<char>| has_key(ps, k) <==> has_key(qs, k))
            &&& (forall|i: int|
                0 <= i < ps.len() ==> equiv(#[trigger] ps[i].1, lookup(qs, ps[i].0)))
        },
        (JsonRep::Obj(ps), _) => false,
        (JsonRep::Arr(xs), _) => false,
        _ => a == b,
    }
}

/// Object keys strictly ascending in lexicographic order.
pub open spec fn strictly_sorted(ps: Seq<(Seq<char>, JsonRep)>) -> bool {
    forall|i: int, j: int| 0 <= i < j < ps.len() ==> lex_lt(ps[i].0, ps[j].0)
}

pub proof fn lemma_strictly_sorted_distinct(ps: Seq<(Seq<char>, JsonRep)>)
    requires
        strictly_sorted(ps),
    ensures
        distinct_keys(ps),
{
    assert forall|i: int, j: int| 0 <= i < j < ps.len() implies ps[i].0 != ps[j].0 by {
        lemma_lex_lt_asym(ps[i].0, ps[j].0);
    }
}

/// Canonical form: every object, at every depth, is strictly sorted by key.
pub open spec fn is_canon(a: JsonRep) -> bool
    decreases a,
{
    match a {
        JsonRep::Arr(xs) => forall|i: int|
            0 <= i < xs.len() ==> is_canon(#[trigger] xs[i]),
        JsonRep::Obj(ps) => strictly_sorted(ps) && forall|i: int|
            0 <= i < ps.len() ==> is_canon(#[trigger] ps[i].1),
        _ => true,
    }
}

/// A canonical value is well formed, so it can be canonicalized again
/// (idempotence is then `lemma_canonicalization_idempotent`).
pub proof fn lemma_canon_wf(a: JsonRep)
    requires
        is_canon(a),
    ensures
        wf(a),
    decreases a,
{
    match a {
        JsonRep::Arr(xs) => {
            assert forall|i: int| 0 <= i < xs.len() implies wf(#[trigger] xs[i]) by {
                lemma_canon_wf(xs[i]);
            }
        },
        JsonRep::Obj(ps) => {
            lemma_strictly_sorted_distinct(ps);
            assert forall|i: int| 0 <= i < ps.len() implies wf(#[trigger] ps[i].1) by {
                lemma_canon_wf(ps[i].1);
            }
        },
        _ => {},
    }
}

pub proof fn lemma_wf_arr_child(xs: Seq<JsonRep>, i: int)
    requires
        wf(JsonRep::Arr(xs)),
        0 <= i < xs.len(),
    ensures
        wf(xs[i]),
{
    let a = JsonRep::Arr(xs);
    match a {
        JsonRep::Arr(ys) => {
            assert(forall|j: int| 0 <= j < ys.len() ==> wf(#[trigger] ys[j]));
        },
        _ => {},
    }
}

pub proof fn lemma_wf_obj_child(ps: Seq<(Seq<char>, JsonRep)>, i: int)
    requires
        wf(JsonRep::Obj(ps)),
        0 <= i < ps.len(),
    ensures
        wf(ps[i].1),
        distinct_keys(ps),
{
    let a = JsonRep::Obj(ps);
    match a {
        JsonRep::Obj(qs) => {
            assert(forall|j: int| 0 <= j < qs.len() ==> wf(#[trigger] qs[j].1));
            assert(distinct_keys(qs));
        },
        _ => {},
    }
}

pub proof fn lemma_wf_arr_intro(xs: Seq<JsonRep>)
    requires
        forall|i: int| 0 <= i < xs.len() ==> wf(#[trigger] xs[i]),
    ensures
        wf(JsonRep::Arr(xs)),
{
    let a = JsonRep::Arr(xs);
    match a {
        JsonRep::Arr(ys) => {
            assert(forall|j: int| 0 <= j < ys.len() ==> wf(#[trigger] ys[j]));
            assert(wf(a));
        },
        _ => {},
    }
}

pub proof fn lemma_wf_obj_intro(ps: Seq<(Seq<char>, JsonRep)>)
    requires
        distinct_keys(ps),
        forall|i: int| 0 <= i < ps.len() ==> wf(#[trigger] ps[i].1),
    ensures
        wf(JsonRep::Obj(ps)),
{
    let a = JsonRep::Obj(ps);
    match a {
        JsonRep::Obj(qs) => {
            assert(forall|j: int| 0 <= j < qs.len() ==> wf(#[trigger] qs[j].1));
            assert(wf(a));
        },
        _ => {},
    }
}

pub proof fn lemma_wf_leaf(a: JsonRep)
    requires
        !(a is Arr),
        !(a is Obj),
    ensures
        wf(a),
{
    match a {
        JsonRep::Arr(xs) => {},
        JsonRep::Obj(ps) => {},
        _ => {
            assert(wf(a));
        },
    }
}

/// Equivalence is transitive.
pub proof fn lemma_equiv_trans(a: JsonRep, b: JsonRep, c: JsonRep)
    requires
        equiv(a, b),
        equiv(b, c),
    ensures
        equiv(a, c),
    decreases a,
{
    match (a, b, c) {
        (JsonRep::Arr(xs), JsonRep::Arr(ys), JsonRep::Arr(zs)) => {
            assert forall|i: int| 0 <= i < xs.len() implies equiv(#[trigger] xs[i], zs[i]) by {
                lemma_equiv_trans(xs[i], ys[i], zs[i]);
            }
        },
        (JsonRep::Obj(ps), JsonRep::Obj(qs), JsonRep::Obj(rs)) => {
            assert forall|i: int|
                0 <= i < ps.len() implies equiv(#[trigger] ps[i].1, lookup(rs, ps[i].0)) by {
                let k = ps[i].0;
                assert(has_key(ps, k));
                assert(has_key(qs, k));
                let j = key_at(qs, k);
                assert(0 <= j < qs.len() && qs[j].0 == k);
                assert(equiv(qs[j].1, lookup(rs, qs[j].0)));
                assert(lookup(qs, k) == qs[j].1);
                lemma_equiv_trans(ps[i].1, qs[j].1, lookup(rs, k));
            }
        },
        _ => {},
    }
}

/// Two strictly sorted pair lists binding the same key set list their keys
/// identically.
proof fn lemma_sorted_key_seqs_equal(ps: Seq<(Seq<char>, JsonRep)>, qs: Seq<(Seq<char>, JsonRep)>)
    requires
        strictly_sorted(ps),
        strictly_sorted(qs),
        forall|k: Seq<char>| has_key(ps, k) <==> has_key(qs, k),
    ensures
        ps.len() == qs.len(),
        forall|i: int| 0 <= i < ps.len() ==> ps[i].0 == qs[i].0,
    decreases ps.len(),
{
    if ps.len() == 0 {
        if qs.len() > 0 {
            assert(has_key(qs, qs[0].0));
            assert(has_key(ps, qs[0].0));
        }
    } else {
        assert(has_key(ps, ps[0].0));
        assert(has_key(qs, qs[0].0));
        // The heads are both the minimum of the same key set, so they agree.
        let ka = ps[0].0;
        let kb = qs[0].0;
        if ka != kb {
            assert(has_key(qs, ka));
            let j = key_at(qs, ka);
            assert(0 < j < qs.len());
            assert(lex_lt(kb, ka));
            assert(has_key(ps, kb));
            let i = key_at(ps, kb);
            assert(0 < i < ps.len());
            assert(lex_lt(ka, kb));
            lemma_lex_lt_asym(ka, kb);
            assert(false);
        }
        let pt = ps.drop_first();
        let qt = qs.drop_first();
        lemma_strictly_sorted_distinct(ps);
        lemma_strictly_sorted_distinct(qs);
        assert forall|k: Seq<char>| has_key(pt, k) implies has_key(qt, k) by {
            let i = key_at(pt, k);
            assert(pt[i] == ps[i + 1]);
            assert(has_key(ps, k));
            assert(k != ka);
            assert(has_key(qs, k));
            let j = key_at(qs, k);
            assert(j != 0);
            assert(qt[j - 1] == qs[j]);
            assert(has_key(qt, k));
        }
        assert forall|k: Seq<char>| has_key(qt, k) implies has_key(pt, k) by {
            let i = key_at(qt, k);
            assert(qt[i] == qs[i + 1]);
            assert(has_key(qs, k));
            assert(k != kb);
            assert(has_key(ps, k));
            let j = key_at(ps, k);
            assert(j != 0);
            assert(pt[j - 1] == ps[j]);
            assert(has_key(pt, k));
        }
        lemma_sorted_key_seqs_equal(pt, qt);
        assert forall|i: int| 0 <= i < ps.len() implies ps[i].0 == qs[i].0 by {
            if i > 0 {
                assert(pt[i - 1] == ps[i]);
                assert(qt[i - 1] == qs[i]);
            }
        }
    }
}

/// Canonical forms are unique: equivalent canonical values are equal.
pub proof fn lemma_canon_unique(a: JsonRep, b: JsonRep)
    requires
        is_canon(a),
        is_canon(b),
        equiv(a, b),
    ensures
        a == b,
    decreases a,
{
    match (a, b) {
        (JsonRep::Arr(xs), JsonRep::Arr(ys)) => {
            assert forall|i: int| 0 <= i < xs.len() implies xs[i] == ys[i] by {
                assert(equiv(xs[i], ys[i]));
                lemma_canon_unique(xs[i], ys[i]);
            }
            assert(xs =~= ys);
        },
        (JsonRep::Obj(ps), JsonRep::Obj(qs)) => {
            lemma_sorted_key_seqs_equal(ps, qs);
            lemma_strictly_sorted_distinct(qs);
            assert forall|i: int| 0 <= i < ps.len() implies ps[i] == qs[i] by {
                assert(equiv(ps[i].1, lookup(qs, ps[i].0)));
                lemma_lookup_at_index(qs, i);
                assert(lookup(qs, qs[i].0) == qs[i].1);
                assert(ps[i].0 == qs[i].0);
                lemma_canon_unique(ps[i].1, qs[i].1);
            }
            assert(ps =~= qs);
        },
        _ => {},
    }
}

/// Decimal digits of a nonnegative integer, most significant first.
pub open spec fn dec_digits(n: int) -> Seq<u8>
    decreases n,
{
    if n < 10 {
        seq![(0x30 + n) as u8]
    } else {
        dec_digits(n / 10).push((0x30 + n % 10) as u8)
    }
}

/// Lowercase hexadecimal digit for a value below 16.
pub open spec fn hex_digit(n: int) -> u8 {
    if n < 10 {
        (0x30 + n) as u8
    } else {
        (0x57 + n) as u8
    }
}

/// Canonical encoding of one byte inside a JSON string: quote and backslash
/// are escaped, control bytes become a `\u00XX` escape, and every other byte
/// is emitted as itself.
pub open spec fn esc_byte(b: u8) -> Seq<u8> {
    if b == 0x22 {
        seq![0x5cu8, 0x22u8]
    } else if b == 0x5c {
        seq![0x5cu8, 0x5cu8]
    } else if b < 0x20 {
        seq![0x5cu8, 0x75u8, 0x30u8, 0x30u8, hex_digit(b as int / 16), hex_digit(b as int % 16)]
    } else {
        seq![b]
    }
}

/// Canonical encoding of a string body, byte by byte.
pub open spec fn esc_bytes(s: Seq<u8>) -> Seq<u8>
    decreases s.len(),
{
    if s.len() == 0 {
        Seq::empty()
    } else {
        esc_bytes(s.drop_last()) + esc_byte(s.last())
    }
}

/// Canonical encoding of a string, quotes included.  The body is the
/// escaped UTF-8 encoding of the characters.
pub open spec fn ser_text(t: Seq<char>) -> Seq<u8> {
    seq![0x22u8] + esc_bytes(vstd::utf8::encode_utf8(t)) + seq![0x22u8]
}

/// Canonical encoding of an integer: an optional minus sign and decimal
/// digits with no leading zero.
pub open spec fn ser_int(i: int) -> Seq<u8> {
    if i < 0 {
        seq![0x2du8] + dec_digits(-i)
    } else {
        dec_digits(i)
    }
}

/// Compact serialization of a value.  Applied to a canonical value this is
/// the canonical byte encoding.
pub open spec fn ser(a: JsonRep) -> Seq<u8>
    decreases a,
{
    match a {
        JsonRep::Null => seq![0x6eu8, 0x75u8, 0x6cu8, 0x6cu8],
        JsonRep::Bool(b) => if b {
            seq![0x74u8, 0x72u8, 0x75u8, 0x65u8]
        } else {
            seq![0x66u8, 0x61u8, 0x6cu8, 0x73u8, 0x65u8]
        },
        JsonRep::Int(i) => ser_int(i),
        JsonRep::Text(t) => ser_text(t),
        JsonRep::Arr(xs) => seq![0x5bu8] + ser_list(xs) + seq![0x5du8],
        JsonRep::Obj(ps) => seq![0x7bu8] + ser_pairs(ps) + seq![0x7du8],
    }
}

/// Comma-separated serialization of array elements.
pub open spec fn ser_list(xs: Seq<JsonRep>) -> Seq<u8>
    decreases xs,
{
    if xs.len() == 0 {
        Seq::empty()
    } else if xs.len() == 1 {
        ser(xs.last())
    } else {
        ser_list(xs.drop_last()) + seq![0x2cu8] + ser(xs.last())
    }
}

/// Comma-separated serialization of object members (`"key":value`).
pub open spec fn ser_pairs(ps: Seq<(Seq<char>, JsonRep)>) -> Seq<u8>
    decreases ps,
{
    if ps.len() == 0 {
        Seq::empty()
    } else if ps.len() == 1 {
        ser_text(ps.last().0) + seq![0x3au8] + ser(ps.last().1)
    } else {
        ser_pairs(ps.drop_last()) + seq![0x2cu8] + ser_text(ps.last().0) + seq![0x3au8] + ser(
            ps.last().1,
        )
    }
}

/// Serialization of one object member.
pub open spec fn ser_pair(p: (Seq<char>, JsonRep)) -> Seq<u8> {
    ser_text(p.0) + seq![0x3au8] + ser(p.1)
}

/// `c` is the canonical form of `v`: canonical, and equivalent to `v`.
pub open spec fn canonical_for(c: JsonRep, v: JsonRep) -> bool {
    is_canon(c) && equiv(v, c) && equiv(c, v)
}

/// The canonical form of a value (unique when one exists).
pub open spec fn canon_of(v: JsonRep) -> JsonRep {
    choose|c: JsonRep| canonical_for(c, v)
}

/// The canonical byte encoding of a value.
pub open spec fn canon_bytes(v: JsonRep) -> Seq<u8> {
    ser(canon_of(v))
}

/// Any canonical form of `v` is the canonical form of `v`.
pub proof fn lemma_canon_of_is(v: JsonRep, c: JsonRep)
    requires
        canonical_for(c, v),
    ensures
        canon_of(v) == c,
        canon_bytes(v) == ser(c),
{
    let c2 = canon_of(v);
    assert(canonical_for(c2, v));
    lemma_equiv_trans(c2, v, c);
    lemma_canon_unique(c2, c);
}

/// Canonicalization is order-independent: two equivalent well-formed values
/// (in particular, objects whose keys were reordered at any depth) have the
/// same canonical form and byte-identical canonical output.
pub proof fn lemma_canonicalization_order_independent(
    v1: JsonRep,
    v2: JsonRep,
    c1: JsonRep,
    c2: JsonRep,
)
    requires
        equiv(v1, v2),
        canonical_for(c1, v1),
        canonical_for(c2, v2),
    ensures
        c1 == c2,
        canon_bytes(v1) == canon_bytes(v2),
{
    lemma_equiv_trans(c1, v1, v2);
    lemma_equiv_trans(c1, v2, c2);
    lemma_canon_unique(c1, c2);
    lemma_canon_of_is(v1, c1);
    lemma_canon_of_is(v2, c2);
}

/// Canonicalization is idempotent: canonicalizing a canonical form gives it
/// back unchanged, with the same canonical bytes.
pub proof fn lemma_canonicalization_idempotent(v: JsonRep, c: JsonRep, c2: JsonRep)
    requires
        canonical_for(c, v),
        canonical_for(c2, c),
    ensures
        c2 == c,
        canon_bytes(c) == canon_bytes(v),
{
    lemma_canon_unique(c2, c);
    lemma_canon_of_is(c, c2);
    lemma_canon_of_is(v, c);
}

proof fn lemma_rep_pairs_insert(s: Seq<(String, JsonValue)>, m: int, p: (String, JsonValue))
    requires
        0 <= m <= s.len(),
    ensures
        rep_pairs(s.insert(m, p)) == rep_pairs(s).insert(m, (p.0@, rep(p.1))),
{
    let s2 = s.insert(m, p);
    s.insert_ensures(m, p);
    lemma_rep_pairs(s);
    lemma_rep_pairs(s2);
    rep_pairs(s).insert_ensures(m, (p.0@, rep(p.1)));
    assert forall|i: int| 0 <= i < s2.len() implies rep_pairs(s2)[i] == rep_pairs(s).insert(
        m,
        (p.0@, rep(p.1)),
    )[i] by {
        if m <= i < s.len() {
            assert(s2[i + 1] == s[i]);
            assert(rep_pairs(s2)[i + 1] == (s[i].0@, rep(s[i].1)));
        }
    }
    assert(rep_pairs(s2) =~= rep_pairs(s).insert(m, (p.0@, rep(p.1))));
}

proof fn lemma_has_key_insert(ps: Seq<(Seq<char>, JsonRep)>, m: int, q: (Seq<char>, JsonRep))
    requires
        0 <= m <= ps.len(),
    ensures
        forall|k: Seq<char>| has_key(ps.insert(m, q), k) <==> (k == q.0 || has_key(ps, k)),
{
    let ps2 = ps.insert(m, q);
    ps.insert_ensures(m, q);
    assert forall|k: Seq<char>| has_key(ps2, k) <==> (k == q.0 || has_key(ps, k)) by {
        if has_key(ps2, k) {
            let i = key_at(ps2, k);
            if i < m {
                assert(ps2[i] == ps[i]);
                assert(has_key(ps, k));
            } else if i > m {
                assert(ps2[i] == ps[i - 1]);
                assert(has_key(ps, k));
            }
        }
        if k == q.0 {
            assert(ps2[m].0 == k);
            assert(has_key(ps2, k));
        } else if has_key(ps, k) {
            let i = key_at(ps, k);
            if i < m {
                assert(ps2[i] == ps[i]);
            } else {
                assert(ps2[i + 1] == ps[i]);
            }
            assert(has_key(ps2, k));
        }
    }
}

proof fn lemma_lookup_insert(ps: Seq<(Seq<char>, JsonRep)>, m: int, q: (Seq<char>, JsonRep))
    requires
        0 <= m <= ps.len(),
        distinct_keys(ps),
        !has_key(ps, q.0),
    ensures
        distinct_keys(ps.insert(m, q)),
        lookup(ps.insert(m, q), q.0) == q.1,
        forall|k: Seq<char>|
            k != q.0 && has_key(ps, k) ==> lookup(ps.insert(m, q), k) == lookup(ps, k),
{
    let ps2 = ps.insert(m, q);
    ps.insert_ensures(m, q);
    lemma_has_key_insert(ps, m, q);
    assert forall|i: int, j: int| 0 <= i < j < ps2.len() implies ps2[i].0 != ps2[j].0 by {
        let io = if i < m { i } else { i - 1 };
        let jo = if j < m { j } else { j - 1 };
        if i == m {
            assert(ps2[j] == ps[jo]);
        } else if j == m {
            assert(ps2[i] == ps[io]);
        } else {
            assert(ps2[i] == ps[io]);
            assert(ps2[j] == ps[jo]);
        }
    }
    assert(ps2[m].0 == q.0);
    let im = key_at(ps2, q.0);
    assert(0 <= im < ps2.len() && ps2[im].0 == q.0);
    assert(im == m);
    assert forall|k: Seq<char>| k != q.0 && has_key(ps, k) implies lookup(ps2, k) == lookup(
        ps,
        k,
    ) by {
        let j = key_at(ps2, k);
        assert(0 <= j < ps2.len() && ps2[j].0 == k);
        assert(j != m);
        let jo = if j < m { j } else { j - 1 };
        assert(ps2[j] == ps[jo]);
        lemma_lookup_at_index(ps, jo);
    }
}

proof fn lemma_sorted_insert(ps: Seq<(Seq<char>, JsonRep)>, m: int, q: (Seq<char>, JsonRep))
    requires
        0 <= m <= ps.len(),
        strictly_sorted(ps),
        !has_key(ps, q.0),
        forall|j: int| 0 <= j < m ==> lex_lt(ps[j].0, q.0),
        m < ps.len() ==> !lex_lt(ps[m].0, q.0),
    ensures
        strictly_sorted(ps.insert(m, q)),
{
    let ps2 = ps.insert(m, q);
    ps.insert_ensures(m, q);
    if m < ps.len() {
        assert(ps[m].0 != q.0);
        lemma_lex_lt_total(ps[m].0, q.0);
        assert(lex_lt(q.0, ps[m].0));
    }
    assert forall|i: int, j: int| 0 <= i < j < ps2.len() implies lex_lt(ps2[i].0, ps2[j].0) by {
        let io = if i < m { i } else { i - 1 };
        let jo = if j < m { j } else { j - 1 };
        if i == m {
            // q before a key at old index jo >= m
            assert(ps2[j] == ps[jo]);
            if jo > m {
                lemma_lex_lt_trans(q.0, ps[m].0, ps[jo].0);
            }
        } else if j == m {
            assert(ps2[i] == ps[io]);
        } else {
            assert(ps2[i] == ps[io]);
            assert(ps2[j] == ps[jo]);
        }
    }
}

/// Strict lexicographic comparison of the character sequences of two
/// strings, starting at index `i` (all earlier characters are equal).
fn lex_lt_from(a: &str, b: &str, i: usize) -> (r: bool)
    requires
        i <= a@.len(),
        i <= b@.len(),
    ensures
        r == lex_lt(a@.skip(i as int), b@.skip(i as int)),
    decreases a@.len() - i,
{
    let alen = a.unicode_len();
    let blen = b.unicode_len();
    if i >= blen {
        false
    } else if i >= alen {
        true
    } else {
        let ca = a.get_char(i);
        let cb = b.get_char(i);
        if (ca as u32) < (cb as u32) {
            true
        } else if (cb as u32) < (ca as u32) {
            false
        } else {
            let r = lex_lt_from(a, b, i + 1);
            proof {
                assert(a@.skip(i as int).drop_first() =~= a@.skip(i as int + 1));
                assert(b@.skip(i as int).drop_first() =~= b@.skip(i as int + 1));
            }
            r
        }
    }
}

/// Strict lexicographic comparison of two strings by code point.
pub fn str_lex_lt(a: &str, b: &str) -> (r: bool)
    ensures
        r == lex_lt(a@, b@),
{
    let r = lex_lt_from(a, b, 0);
    proof {
        assert(a@.skip(0) =~= a@);
        assert(b@.skip(0) =~= b@);
    }
    r
}

/// The position at which a key must be inserted to keep the pair list
/// sorted: the first position whose key is not below `key`.
fn find_insert_pos(out: &Vec<(String, JsonValue)>, key: &String) -> (m: usize)
    ensures
        m <= out.len(),
        forall|j: int| 0 <= j < m ==> lex_lt(out@[j].0@, key@),
        m < out.len() ==> !lex_lt(out@[m as int].0@, key@),
{
    let mut m: usize = 0;
    while m < out.len()
        invariant
            m <= out.len(),
            forall|j: int| 0 <= j < m ==> lex_lt(out@[j].0@, key@),
        decreases out.len() - m,
    {
        let below = str_lex_lt(out[m].0.as_str(), key.as_str());
        if !below {
            return m;
        }
        m += 1;
    }
    m
}

/// Insert a canonicalized member into a sorted pair list, keeping it sorted
/// and keeping the correspondence with the original members.
#[verifier::rlimit(100)]
fn insert_sorted(
    out: &mut Vec<(String, JsonValue)>,
    key: String,
    cval: JsonValue,
    Ghost(pr): Ghost<Seq<(Seq<char>, JsonRep)>>,
    Ghost(idx): Ghost<int>,
)
    requires
        strictly_sorted(rep_pairs(old(out)@)),
        distinct_keys(pr),
        0 <= idx < pr.len(),
        pr[idx].0 == key@,
        canonical_for(rep(cval), pr[idx].1),
        forall|k: Seq<char>|
            has_key(rep_pairs(old(out)@), k) <==> exists|j: int| 0 <= j < idx && pr[j].0 == k,
        forall|j: int|
            0 <= j < idx ==> equiv(#[trigger] pr[j].1, lookup(rep_pairs(old(out)@), pr[j].0)),
        forall|j: int|
            0 <= j < rep_pairs(old(out)@).len() ==> equiv(
                #[trigger] rep_pairs(old(out)@)[j].1,
                lookup(pr, rep_pairs(old(out)@)[j].0),
            ),
        forall|j: int|
            0 <= j < rep_pairs(old(out)@).len() ==> is_canon(
                #[trigger] rep_pairs(old(out)@)[j].1,
            ),
    ensures
        strictly_sorted(rep_pairs(final(out)@)),
        distinct_keys(rep_pairs(final(out)@)),
        forall|k: Seq<char>|
            has_key(rep_pairs(final(out)@), k) <==> exists|j: int| 0 <= j < idx + 1 && pr[j].0
                == k,
        forall|j: int|
            0 <= j < idx + 1 ==> equiv(#[trigger] pr[j].1, lookup(rep_pairs(final(out)@), pr[j].0)),
        forall|j: int|
            0 <= j < rep_pairs(final(out)@).len() ==> equiv(
                #[trigger] rep_pairs(final(out)@)[j].1,
                lookup(pr, rep_pairs(final(out)@)[j].0),
            ),
        forall|j: int|
            0 <= j < rep_pairs(final(out)@).len() ==> is_canon(
                #[trigger] rep_pairs(final(out)@)[j].1,
            ),
{
    let m = find_insert_pos(out, &key);
    let ghost or = rep_pairs(out@);
    let ghost q = (key@, rep(cval));
    proof {
        lemma_rep_pairs(out@);
        assert forall|j: int| 0 <= j < m implies lex_lt(or[j].0, q.0) by {
            assert(or[j] == (out@[j].0@, rep(out@[j].1)));
        }
        assert(m < or.len() ==> !lex_lt(or[m as int].0, q.0)) by {
            if (m as int) < or.len() {
                assert(or[m as int] == (out@[m as int].0@, rep(out@[m as int].1)));
            }
        }
        lemma_insert_step(or, pr, idx, m as int, q);
        lemma_rep_pairs_insert(out@, m as int, (key, cval));
    }
    out.insert(m, (key, cval));
    proof {
        assert(rep_pairs(out@) == or.insert(m as int, q));
    }
}

/// The heart of the sorting step: inserting the canonicalized member for
/// `pr[idx]` at its sorted position preserves every relation between the
/// output built so far and the original members.
#[verifier::rlimit(100)]
proof fn lemma_insert_step(
    or: Seq<(Seq<char>, JsonRep)>,
    pr: Seq<(Seq<char>, JsonRep)>,
    idx: int,
    m: int,
    q: (Seq<char>, JsonRep),
)
    requires
        strictly_sorted(or),
        distinct_keys(pr),
        0 <= idx < pr.len(),
        0 <= m <= or.len(),
        pr[idx].0 == q.0,
        equiv(pr[idx].1, q.1),
        equiv(q.1, pr[idx].1),
        is_canon(q.1),
        forall|j: int| 0 <= j < m ==> lex_lt(or[j].0, q.0),
        m < or.len() ==> !lex_lt(or[m].0, q.0),
        forall|k: Seq<char>| has_key(or, k) <==> exists|j: int| 0 <= j < idx && pr[j].0 == k,
        forall|j: int| 0 <= j < idx ==> equiv(#[trigger] pr[j].1, lookup(or, pr[j].0)),
        forall|j: int|
            0 <= j < or.len() ==> equiv(#[trigger] or[j].1, lookup(pr, or[j].0)),
        forall|j: int| 0 <= j < or.len() ==> is_canon(#[trigger] or[j].1),
    ensures
        strictly_sorted(or.insert(m, q)),
        distinct_keys(or.insert(m, q)),
        forall|k: Seq<char>|
            has_key(or.insert(m, q), k) <==> exists|j: int| 0 <= j < idx + 1 && pr[j].0 == k,
        forall|j: int|
            0 <= j < idx + 1 ==> equiv(#[trigger] pr[j].1, lookup(or.insert(m, q), pr[j].0)),
        forall|j: int|
            0 <= j < or.insert(m, q).len() ==> equiv(
                #[trigger] or.insert(m, q)[j].1,
                lookup(pr, or.insert(m, q)[j].0),
            ),
        forall|j: int|
            0 <= j < or.insert(m, q).len() ==> is_canon(#[trigger] or.insert(m, q)[j].1),
{
    lemma_strictly_sorted_distinct(or);
    // the key is new to `or`: the original keys are distinct
    if has_key(or, q.0) {
        let j = choose|j: int| 0 <= j < idx && pr[j].0 == q.0;
        assert(pr[j].0 == pr[idx].0);
        assert(false);
    }
    lemma_sorted_insert(or, m, q);
    lemma_lookup_insert(or, m, q);
    lemma_has_key_insert(or, m, q);
    let or2 = or.insert(m, q);
    or.insert_ensures(m, q);
    lemma_lookup_at_index(pr, idx);
    assert(lookup(or2, pr[idx].0) == q.1);
    assert forall|k: Seq<char>|
        has_key(or2, k) <==> exists|j: int| 0 <= j < idx + 1 && pr[j].0 == k by {
        if has_key(or2, k) {
            if k != q.0 {
                assert(has_key(or, k));
                assert(exists|j: int| 0 <= j < idx && pr[j].0 == k);
                let j = choose|j: int| 0 <= j < idx && pr[j].0 == k;
                assert(0 <= j < idx + 1 && pr[j].0 == k);
            } else {
                assert(pr[idx].0 == k);
            }
        }
        if exists|j: int| 0 <= j < idx + 1 && pr[j].0 == k {
            let j = choose|j: int| 0 <= j < idx + 1 && pr[j].0 == k;
            if j < idx {
                assert(has_key(or, k));
            }
        }
    }
    assert forall|j: int| 0 <= j < idx + 1 implies equiv(
        #[trigger] pr[j].1,
        lookup(or2, pr[j].0),
    ) by {
        if j < idx {
            assert(has_key(or, pr[j].0));
            assert(pr[j].0 != q.0);
            assert(lookup(or2, pr[j].0) == lookup(or, pr[j].0));
        }
    }
    assert forall|j: int| 0 <= j < or2.len() implies equiv(
        #[trigger] or2[j].1,
        lookup(pr, or2[j].0),
    ) by {
        if j < m {
            assert(or2[j] == or[j]);
        } else if j > m {
            assert(or2[j] == or[j - 1]);
        } else {
            assert(or2[j] == q);
            assert(lookup(pr, pr[idx].0) == pr[idx].1);
        }
    }
    assert forall|j: int| 0 <= j < or2.len() implies is_canon(#[trigger] or2[j].1) by {
        if j < m {
            assert(or2[j] == or[j]);
        } else if j > m {
            assert(or2[j] == or[j - 1]);
        }
    }
}

/// Canonicalize a well-formed value: recursively sort every object's keys
/// in strict lexicographic order.  The result is the unique canonical value
/// equivalent to the input.
#[verifier::rlimit(100)]
pub fn canonicalize(v: &JsonValue) -> (r: JsonValue)
    requires
        wf(rep(*v)),
    ensures
        canonical_for(rep(r), rep(*v)),
    decreases *v,
{
    match v {
        JsonValue::Null => JsonValue::Null,
        JsonValue::Bool(b) => JsonValue::Bool(*b),
        JsonValue::Int(i) => JsonValue::Int(*i),
        JsonValue::Text(s) => JsonValue::Text(s.clone()),
        JsonValue::Array(items) => {
            let mut out: Vec<JsonValue> = Vec::new();
            let mut idx: usize = 0;
            proof {
                lemma_rep_list(items@);
            }
            while idx < items.len()
                invariant
                    idx <= items.len(),
                    out@.len() == idx,
                    *v == JsonValue::Array(*items),
                    wf(rep(JsonValue::Array(*items))),
                    forall|j: int|
                        0 <= j < idx ==> canonical_for(rep(#[trigger] out@[j]), rep(items@[j])),
                decreases items.len() - idx,
            {
                proof {
                    lemma_rep_list(items@);
                    assert(rep(JsonValue::Array(*items)) == JsonRep::Arr(rep_list(items@)));
                    lemma_wf_arr_child(rep_list(items@), idx as int);
                    assert(rep_list(items@)[idx as int] == rep(items@[idx as int]));
                    assert(wf(rep(items@[idx as int])));
                    assert(decreases_to!(JsonValue::Array(*items) => *items));
                    assert(decreases_to!(*items => items@[idx as int]));
                }
                let c = canonicalize(&items[idx]);
                out.push(c);
                idx += 1;
            }
            proof {
                lemma_rep_list(items@);
                lemma_rep_list(out@);
                let xs = rep_list(items@);
                let ys = rep_list(out@);
                assert forall|i: int| 0 <= i < ys.len() implies is_canon(#[trigger] ys[i]) by {
                    assert(canonical_for(rep(out@[i]), rep(items@[i])));
                }
                assert forall|i: int| 0 <= i < xs.len() implies equiv(#[trigger] xs[i], ys[i]) by {
                    assert(canonical_for(rep(out@[i]), rep(items@[i])));
                }
                assert forall|i: int| 0 <= i < ys.len() implies equiv(#[trigger] ys[i], xs[i]) by {
                    assert(canonical_for(rep(out@[i]), rep(items@[i])));
                }
            }
            JsonValue::Array(out)
        },
        JsonValue::Object(pairs) => {
            let mut out: Vec<(String, JsonValue)> = Vec::new();
            let mut idx: usize = 0;
            proof {
                lemma_rep_pairs(pairs@);
            }
            let ghost pr = rep_pairs(pairs@);
            while idx < pairs.len()
                invariant
                    idx <= pairs.len(),
                    pr == rep_pairs(pairs@),
                    *v == JsonValue::Object(*pairs),
                    wf(rep(JsonValue::Object(*pairs))),
                    strictly_sorted(rep_pairs(out@)),
                    distinct_keys(rep_pairs(out@)),
                    forall|k: Seq<char>|
                        has_key(rep_pairs(out@), k) <==> exists|j: int|
                            0 <= j < idx && pr[j].0 == k,
                    forall|j: int|
                        0 <= j < idx ==> equiv(
                            #[trigger] pr[j].1,
                            lookup(rep_pairs(out@), pr[j].0),
                        ),
                    forall|j: int|
                        0 <= j < rep_pairs(out@).len() ==> equiv(
                            #[trigger] rep_pairs(out@)[j].1,
                            lookup(pr, rep_pairs(out@)[j].0),
                        ),
                    forall|j: int|
                        0 <= j < rep_pairs(out@).len() ==> is_canon(
                            #[trigger] rep_pairs(out@)[j].1,
                        ),
                decreases pairs.len() - idx,
            {
                proof {
                    lemma_rep_pairs(pairs@);
                    assert(rep(JsonValue::Object(*pairs)) == JsonRep::Obj(rep_pairs(pairs@)));
                    lemma_wf_obj_child(rep_pairs(pairs@), idx as int);
                    assert(rep_pairs(pairs@)[idx as int] == (
                        pairs@[idx as int].0@,
                        rep(pairs@[idx as int].1),
                    ));
                    assert(wf(rep(pairs@[idx as int].1)));
                    assert(decreases_to!(JsonValue::Object(*pairs) => *pairs));
                    assert(decreases_to!(*pairs => pairs@[idx as int]));
                }
                let p = &pairs[idx];
                let key = p.0.clone();
                let cval = canonicalize(&p.1);
                proof {
                    assert(distinct_keys(pr));
                    assert(pr[idx as int] == (pairs@[idx as int].0@, rep(pairs@[idx as int].1)));
                    assert(canonical_for(rep(cval), pr[idx as int].1));
                }
                insert_sorted(&mut out, key, cval, Ghost(pr), Ghost(idx as int));
                idx += 1;
            }
            proof {
                let or = rep_pairs(out@);
                lemma_rep_pairs(pairs@);
                assert forall|k: Seq<char>| has_key(pr, k) implies has_key(or, k) by {
                    let i = key_at(pr, k);
                    assert(0 <= i < idx && pr[i].0 == k);
                }
                assert forall|i: int|
                    0 <= i < pr.len() implies equiv(#[trigger] pr[i].1, lookup(or, pr[i].0)) by {}
                assert(equiv(rep(JsonValue::Object(*pairs)), JsonRep::Obj(or)));
                assert(equiv(JsonRep::Obj(or), rep(JsonValue::Object(*pairs))));
                assert(is_canon(JsonRep::Obj(or)));
            }
            JsonValue::Object(out)
        },
    }
}

/// Append the decimal digits of `n`.
fn append_udec(n: u64, out: &mut Vec<u8>)
    ensures
        final(out)@ == old(out)@ + dec_digits(n as int),
    decreases n,
{
    if n < 10 {
        out.push(0x30 + (n as u8));
        assert(final(out)@ =~= old(out)@ + dec_digits(n as int));
    } else {
        append_udec(n / 10, out);
        out.push(0x30 + ((n % 10) as u8));
        assert(final(out)@ =~= old(out)@ + dec_digits(n as int));
    }
}

/// Append the canonical encoding of an integer.
fn append_int(i: i64, out: &mut Vec<u8>)
    ensures
        final(out)@ == old(out)@ + ser_int(i as int),
{
    if i >= 0 {
        append_udec(i as u64, out);
    } else {
        out.push(0x2d);
        let mag: u64 = (-(i as i128)) as u64;
        proof {
            assert(mag as int == -(i as int));
        }
        append_udec(mag, out);
        assert(final(out)@ =~= old(out)@ + ser_int(i as int));
    }
}

/// Append the canonical encoding of a string, quotes included.
fn append_text(s: &String, out: &mut Vec<u8>)
    ensures
        final(out)@ == old(out)@ + ser_text(s@),
{
    let bytes = s.as_str().as_bytes_vec();
    proof {
        assert(bytes@ == vstd::utf8::encode_utf8(s@));
    }
    out.push(0x22);
    let mut i: usize = 0;
    while i < bytes.len()
        invariant
            i <= bytes.len(),
            bytes@ == vstd::utf8::encode_utf8(s@),
            out@ == old(out)@ + seq![0x22u8] + esc_bytes(bytes@.take(i as int)),
        decreases bytes.len() - i,
    {
        let ghost pre = out@;
        let b = bytes[i];
        proof {
            assert(bytes@.take(i as int + 1).drop_last() =~= bytes@.take(i as int));
            assert(bytes@.take(i as int + 1).last() == b);
        }
        if b == 0x22 {
            out.push(0x5c);
            out.push(0x22);
        } else if b == 0x5c {
            out.push(0x5c);
            out.push(0x5c);
        } else if b < 0x20 {
            out.push(0x5c);
            out.push(0x75);
            out.push(0x30);
            out.push(0x30);
            let hi = b / 16;
            let lo = b % 16;
            out.push(if hi < 10 { 0x30 + hi } else { 0x57 + hi });
            out.push(if lo < 10 { 0x30 + lo } else { 0x57 + lo });
        } else {
            out.push(b);
        }
        proof {
            assert(out@ =~= pre + esc_byte(b));
            assert(out@ =~= old(out)@ + seq![0x22u8] + esc_bytes(bytes@.take(i as int + 1)));
        }
        i += 1;
    }
    out.push(0x22);
    proof {
        assert(bytes@.take(bytes@.len() as int) =~= bytes@);
        assert(final(out)@ =~= old(out)@ + ser_text(s@));
    }
}

/// Append the compact serialization of a value.
#[verifier::rlimit(100)]
pub fn append_json_bytes(v: &JsonValue, out: &mut Vec<u8>)
    ensures
        final(out)@ == old(out)@ + ser(rep(*v)),
    decreases *v,
{
    match v {
        JsonValue::Null => {
            out.push(0x6e);
            out.push(0x75);
            out.push(0x6c);
            out.push(0x6c);
            assert(final(out)@ =~= old(out)@ + ser(rep(*v)));
        },
        JsonValue::Bool(b) => {
            if *b {
                out.push(0x74);
                out.push(0x72);
                out.push(0x75);
                out.push(0x65);
            } else {
                out.push(0x66);
                out.push(0x61);
                out.push(0x6c);
                out.push(0x73);
                out.push(0x65);
            }
            assert(final(out)@ =~= old(out)@ + ser(rep(*v)));
        },
        JsonValue::Int(i) => {
            append_int(*i, out);
        },
        JsonValue::Text(s) => {
            append_text(s, out);
        },
        JsonValue::Array(items) => {
            out.push(0x5b);
            let mut idx: usize = 0;
            proof {
                lemma_rep_list(items@);
            }
            while idx < items.len()
                invariant
                    idx <= items.len(),
                    *v == JsonValue::Array(*items),
                    out@ == old(out)@ + seq![0x5bu8] + ser_list(
                        rep_list(items@).take(idx as int),
                    ),
                decreases items.len() - idx,
            {
                let ghost xs = rep_list(items@);
                let ghost pre = out@;
                proof {
                    lemma_rep_list(items@);
                    assert(xs.take(idx as int + 1).drop_last() =~= xs.take(idx as int));
                    assert(xs.take(idx as int + 1).last() == xs[idx as int]);
                    assert(xs[idx as int] == rep(items@[idx as int]));
                    assert(rep(JsonValue::Array(*items)) == JsonRep::Arr(rep_list(items@)));
                    assert(decreases_to!(JsonValue::Array(*items) => *items));
                    assert(decreases_to!(*items => items@[idx as int]));
                }
                if idx > 0 {
                    out.push(0x2c);
                }
                append_json_bytes(&items[idx], out);
                proof {
                    if idx == 0 {
                        assert(out@ =~= pre + ser(xs[0]));
                        assert(out@ =~= old(out)@ + seq![0x5bu8] + ser_list(
                            xs.take(idx as int + 1),
                        ));
                    } else {
                        assert(out@ =~= pre + seq![0x2cu8] + ser(xs[idx as int]));
                        assert(out@ =~= old(out)@ + seq![0x5bu8] + ser_list(
                            xs.take(idx as int + 1),
                        ));
                    }
                }
                idx += 1;
            }
            out.push(0x5d);
            proof {
                lemma_rep_list(items@);
                assert(rep_list(items@).take(items@.len() as int) =~= rep_list(items@));
                assert(final(out)@ =~= old(out)@ + ser(rep(*v)));
            }
        },
        JsonValue::Object(pairs) => {
            out.push(0x7b);
            let mut idx: usize = 0;
            proof {
                lemma_rep_pairs(pairs@);
            }
            while idx < pairs.len()
                invariant
                    idx <= pairs.len(),
                    *v == JsonValue::Object(*pairs),
                    out@ == old(out)@ + seq![0x7bu8] + ser_pairs(
                        rep_pairs(pairs@).take(idx as int),
                    ),
                decreases pairs.len() - idx,
            {
                let ghost ps = rep_pairs(pairs@);
                let ghost pre = out@;
                proof {
                    lemma_rep_pairs(pairs@);
                    assert(ps.take(idx as int + 1).drop_last() =~= ps.take(idx as int));
                    assert(ps.take(idx as int + 1).last() == ps[idx as int]);
                    assert(ps[idx as int] == (pairs@[idx as int].0@, rep(pairs@[idx as int].1)));
                    assert(rep(JsonValue::Object(*pairs)) == JsonRep::Obj(rep_pairs(pairs@)));
                    assert(decreases_to!(JsonValue::Object(*pairs) => *pairs));
                    assert(decreases_to!(*pairs => pairs@[idx as int]));
                }
                if idx > 0 {
                    out.push(0x2c);
                }
                let p = &pairs[idx];
                append_text(&p.0, out);
                out.push(0x3a);
                append_json_bytes(&p.1, out);
                proof {
                    if idx == 0 {
                        assert(out@ =~= pre + ser_text(ps[0].0) + seq![0x3au8] + ser(ps[0].1));
                        assert(out@ =~= old(out)@ + seq![0x7bu8] + ser_pairs(
                            ps.take(idx as int + 1),
                        ));
                    } else {
                        assert(out@ =~= pre + seq![0x2cu8] + ser_text(ps[idx as int].0) + seq![
                            0x3au8,
                        ] + ser(ps[idx as int].1));
                        assert(out@ =~= old(out)@ + seq![0x7bu8] + ser_pairs(
                            ps.take(idx as int + 1),
                        ));
                    }
                }
                idx += 1;
            }
            out.push(0x7d);
            proof {
                lemma_rep_pairs(pairs@);
                assert(rep_pairs(pairs@).take(pairs@.len() as int) =~= rep_pairs(pairs@));
                assert(final(out)@ =~= old(out)@ + ser(rep(*v)));
            }
        },
    }
}

/// Canonical bytes of a well-formed value: canonicalize, then serialize.
/// This is a pure function of the value's logical content.
pub fn canonical_json_bytes(v: &JsonValue) -> (r: Vec<u8>)
    requires
        wf(rep(*v)),
    ensures
        r@ == canon_bytes(rep(*v)),
        canonical_for(canon_of(rep(*v)), rep(*v)),
{
    let c = canonicalize(v);
    let mut out: Vec<u8> = Vec::new();
    append_json_bytes(&c, &mut out);
    proof {
        lemma_canon_of_is(rep(*v), rep(c));
        assert(out@ =~= ser(rep(c)));
    }
    out
}

} // verus!
