use vstd::prelude::*;

verus! {

broadcast use vstd::std_specs::vec::group_vec_axioms, vstd::seq::group_seq_axioms;

/// A structured document value, the shape of an OCI runtime specification:
/// an open-ended tree of scalars, sequences and key/value mappings.
///
/// Text is carried as UTF-8 bytes. A `Str` holds the bytes between the
/// quotes of a JSON string exactly as written, escape sequences included, so
/// untouched fields round-trip verbatim. A `Num` holds the literal number
/// token. An `Obj` keeps its entries in document order; duplicate keys are
/// kept as they appear, and lookups find the first.
#[derive(Debug, PartialEq, Eq)]
pub enum Json {
    Null,
    Bool(bool),
    Num(Vec<u8>),
    Str(Vec<u8>),
    Arr(Vec<Json>),
    Obj(Vec<(Vec<u8>, Json)>),
}

/// The mathematical model of a `Json` value: the same tree over `Seq<u8>`.
pub enum JsonV {
    Null,
    Bool(bool),
    Num(Seq<u8>),
    Str(Seq<u8>),
    Arr(Seq<JsonV>),
    Obj(Seq<(Seq<u8>, JsonV)>),
}

/// The model of a `Json` value.
pub open spec fn jv(v: Json) -> JsonV
    decreases v,
{
    match v {
        Json::Null => JsonV::Null,
        Json::Bool(b) => JsonV::Bool(b),
        Json::Num(t) => JsonV::Num(t@),
        Json::Str(t) => JsonV::Str(t@),
        Json::Arr(items) => JsonV::Arr(jv_seq(items@)),
        Json::Obj(entries) => JsonV::Obj(jv_entries(entries@)),
    }
}

/// The models of a sequence of values.
pub open spec fn jv_seq(s: Seq<Json>) -> Seq<JsonV>
    decreases s,
{
    if s.len() == 0 {
        Seq::empty()
    } else {
        seq![jv(s[0])] + jv_seq(s.drop_first())
    }
}

/// The models of a sequence of key/value entries.
pub open spec fn jv_entries(s: Seq<(Vec<u8>, Json)>) -> Seq<(Seq<u8>, JsonV)>
    decreases s,
{
    if s.len() == 0 {
        Seq::empty()
    } else {
        seq![(s[0].0@, jv(s[0].1))] + jv_entries(s.drop_first())
    }
}

impl View for Json {
    type V = JsonV;

    open spec fn view(&self) -> JsonV {
        jv(*self)
    }
}

/// A modelled sequence has one model per value.
pub broadcast proof fn lemma_jv_seq_len(s: Seq<Json>)
    ensures
        (#[trigger] jv_seq(s)).len() == s.len(),
    decreases s,
{
    if s.len() > 0 {
        lemma_jv_seq_len(s.drop_first());
    }
}

/// The model of element `i` stands at position `i`.
pub broadcast proof fn lemma_jv_seq_index(s: Seq<Json>, i: int)
    requires
        0 <= i < s.len(),
    ensures
        #[trigger] jv_seq(s)[i] == jv(s[i]),
    decreases s,
{
    lemma_jv_seq_len(s);
    if i > 0 {
        lemma_jv_seq_index(s.drop_first(), i - 1);
    }
}

/// A modelled entry sequence has one model per entry.
pub broadcast proof fn lemma_jv_entries_len(s: Seq<(Vec<u8>, Json)>)
    ensures
        (#[trigger] jv_entries(s)).len() == s.len(),
    decreases s,
{
    if s.len() > 0 {
        lemma_jv_entries_len(s.drop_first());
    }
}

/// The model of entry `i` stands at position `i`.
pub broadcast proof fn lemma_jv_entries_index(s: Seq<(Vec<u8>, Json)>, i: int)
    requires
        0 <= i < s.len(),
    ensures
        #[trigger] jv_entries(s)[i] == (s[i].0@, jv(s[i].1)),
    decreases s,
{
    lemma_jv_entries_len(s);
    if i > 0 {
        lemma_jv_entries_index(s.drop_first(), i - 1);
    }
}

/// The value under the first entry with key `k`, if any.
pub open spec fn obj_get(es: Seq<(Seq<u8>, JsonV)>, k: Seq<u8>) -> Option<JsonV>
    decreases es.len(),
{
    if es.len() == 0 {
        None
    } else if es[0].0 == k {
        Some(es[0].1)
    } else {
        obj_get(es.drop_first(), k)
    }
}

/// The entries with the first `k` entry's value replaced by `v`; the entry
/// order, every other entry, and a missing key are left as they are.
pub open spec fn obj_set(es: Seq<(Seq<u8>, JsonV)>, k: Seq<u8>, v: JsonV) -> Seq<(Seq<u8>, JsonV)>
    decreases es.len(),
{
    if es.len() == 0 {
        es
    } else if es[0].0 == k {
        seq![(k, v)] + es.drop_first()
    } else {
        seq![es[0]] + obj_set(es.drop_first(), k, v)
    }
}

/// Replacing one key's value touches nothing else: the entry count is kept,
/// the replaced key now holds the new value (when it was present at all),
/// and every lookup under any other key is unchanged.
pub broadcast proof fn lemma_obj_set_preserves(es: Seq<(Seq<u8>, JsonV)>, k: Seq<u8>, v: JsonV)
    ensures
        #[trigger] obj_set(es, k, v).len() == es.len(),
        obj_get(obj_set(es, k, v), k) == (if obj_get(es, k) is Some {
            Some(v)
        } else {
            None::<JsonV>
        }),
        forall|k2: Seq<u8>| k2 != k ==> #[trigger] obj_get(obj_set(es, k, v), k2) == obj_get(
            es,
            k2,
        ),
    decreases es.len(),
{
    if es.len() == 0 {
    } else if es[0].0 == k {
        assert forall|k2: Seq<u8>| k2 != k implies #[trigger] obj_get(obj_set(es, k, v), k2)
            == obj_get(es, k2) by {
            assert(obj_set(es, k, v).drop_first() =~= es.drop_first());
        }
    } else {
        lemma_obj_set_preserves(es.drop_first(), k, v);
        assert(obj_set(es, k, v).drop_first() =~= obj_set(es.drop_first(), k, v));
        assert(obj_set(es, k, v)[0] == es[0]);
        assert forall|k2: Seq<u8>| k2 != k implies #[trigger] obj_get(obj_set(es, k, v), k2)
            == obj_get(es, k2) by {
            if es[0].0 == k2 {
                assert(obj_get(obj_set(es, k, v), k2) == Some(es[0].1));
                assert(obj_get(es, k2) == Some(es[0].1));
            } else {
                assert(obj_get(obj_set(es, k, v), k2) == obj_get(obj_set(es.drop_first(), k, v), k2));
                assert(obj_get(es, k2) == obj_get(es.drop_first(), k2));
            }
        }
    }
}

/// When entry `i` is the first with key `k`, a lookup finds it and a
/// replacement is exactly an update at `i`.
pub proof fn lemma_obj_first_match(es: Seq<(Seq<u8>, JsonV)>, k: Seq<u8>, v: JsonV, i: int)
    requires
        0 <= i < es.len(),
        es[i].0 == k,
        forall|j: int| 0 <= j < i ==> es[j].0 != k,
    ensures
        obj_get(es, k) == Some(es[i].1),
        obj_set(es, k, v) =~= es.update(i, (k, v)),
    decreases i,
{
    if i == 0 {
        assert(obj_set(es, k, v) =~= es.update(0, (k, v)));
    } else {
        lemma_obj_first_match(es.drop_first(), k, v, i - 1);
        assert(es.drop_first()[i - 1] == es[i]);
        assert(obj_set(es, k, v) =~= es.update(i, (k, v)));
    }
}

/// When no entry has key `k`, a lookup finds nothing.
pub proof fn lemma_obj_no_match(es: Seq<(Seq<u8>, JsonV)>, k: Seq<u8>)
    requires
        forall|j: int| 0 <= j < es.len() ==> es[j].0 != k,
    ensures
        obj_get(es, k) is None,
    decreases es.len(),
{
    if es.len() > 0 {
        lemma_obj_no_match(es.drop_first(), k);
    }
}

/// Finds the first entry whose key equals `key`.
pub fn obj_find(es: &Vec<(Vec<u8>, Json)>, key: &Vec<u8>) -> (r: Option<usize>)
    ensures
        match r {
            Some(i) => i < es@.len() && es@[i as int].0@ == key@ && (forall|j: int|
                0 <= j < i ==> es@[j].0@ != key@),
            None => forall|j: int| 0 <= j < es@.len() ==> es@[j].0@ != key@,
        },
{
    let n = es.len();
    let mut i: usize = 0;
    while i < n
        invariant
            n == es@.len(),
            i <= n,
            forall|j: int| 0 <= j < i ==> es@[j].0@ != key@,
        decreases n - i,
    {
        if crate::util::bytes_eq(&es[i].0, key) {
            return Some(i);
        }
        i = i + 1;
    }
    None
}

// --- escaping -------------------------------------------------------------

/// A lower-case hexadecimal digit.
pub open spec fn hex_digit(n: u8) -> u8 {
    if n < 10 {
        (0x30 + n) as u8
    } else {
        (0x57 + n) as u8
    }
}

/// The JSON escape of one raw byte: quote and backslash are escaped, the
/// common control characters take their short escapes, any other control
/// byte takes a `\u00XX` escape, and every other byte stands as itself.
pub open spec fn esc_byte(b: u8) -> Seq<u8> {
    if b == 0x22 {
        seq![0x5cu8, 0x22u8]
    } else if b == 0x5c {
        seq![0x5cu8, 0x5cu8]
    } else if b == 0x08 {
        seq![0x5cu8, 0x62u8]
    } else if b == 0x0c {
        seq![0x5cu8, 0x66u8]
    } else if b == 0x0a {
        seq![0x5cu8, 0x6eu8]
    } else if b == 0x0d {
        seq![0x5cu8, 0x72u8]
    } else if b == 0x09 {
        seq![0x5cu8, 0x74u8]
    } else if b < 0x20 {
        seq![0x5cu8, 0x75u8, 0x30u8, 0x30u8, hex_digit(b / 16), hex_digit(b % 16)]
    } else {
        seq![b]
    }
}

/// The JSON escape of the suffix of `s` from `i` on.
pub open spec fn esc_from(s: Seq<u8>, i: int) -> Seq<u8>
    decreases s.len() - i,
{
    if i < 0 || i >= s.len() {
        Seq::empty()
    } else {
        esc_byte(s[i]) + esc_from(s, i + 1)
    }
}

/// The JSON escape of a whole raw byte string.
pub open spec fn esc_of(s: Seq<u8>) -> Seq<u8> {
    esc_from(s, 0)
}

fn escape_into(out: &mut Vec<u8>, s: &Vec<u8>, i: usize)
    requires
        i <= s@.len(),
    ensures
        final(out)@ == old(out)@ + esc_from(s@, i as int),
    decreases s@.len() - i,
{
    if i == s.len() {
        proof {
            assert(final(out)@ =~= old(out)@ + esc_from(s@, i as int));
        }
        return ;
    }
    let b = s[i];
    if b == 0x22 {
        out.push(0x5c);
        out.push(0x22);
    } else if b == 0x5c {
        out.push(0x5c);
        out.push(0x5c);
    } else if b == 0x08 {
        out.push(0x5c);
        out.push(0x62);
    } else if b == 0x0c {
        out.push(0x5c);
        out.push(0x66);
    } else if b == 0x0a {
        out.push(0x5c);
        out.push(0x6e);
    } else if b == 0x0d {
        out.push(0x5c);
        out.push(0x72);
    } else if b == 0x09 {
        out.push(0x5c);
        out.push(0x74);
    } else if b < 0x20 {
        out.push(0x5c);
        out.push(0x75);
        out.push(0x30);
        out.push(0x30);
        out.push(if b / 16 < 10 {
            0x30 + b / 16
        } else {
            0x57 + b / 16
        });
        out.push(if b % 16 < 10 {
            0x30 + b % 16
        } else {
            0x57 + b % 16
        });
    } else {
        out.push(b);
    }
    proof {
        assert(out@ =~= old(out)@ + esc_byte(s@[i as int]));
    }
    escape_into(out, s, i + 1);
    proof {
        assert(final(out)@ =~= old(out)@ + esc_from(s@, i as int));
    }
}

/// Escapes raw bytes for storage in a `Json::Str`.
pub fn escape_bytes(s: &Vec<u8>) -> (r: Vec<u8>)
    ensures
        r@ == esc_of(s@),
{
    let mut out: Vec<u8> = Vec::new();
    escape_into(&mut out, s, 0);
    out
}

// --- pretty printing ------------------------------------------------------

/// `n` spaces.
pub open spec fn spaces(n: nat) -> Seq<u8> {
    Seq::new(n, |i: int| 0x20u8)
}

/// The pretty-printed form of a value at the indentation carried by `pad`:
/// scalars print as their tokens, strings re-quote their stored bytes, and
/// non-empty sequences and mappings open a line per element, indented two
/// more spaces than `pad`, and close on a line indented by `pad`.
pub open spec fn ser_of(v: JsonV, pad: Seq<u8>) -> Seq<u8>
    decreases v, 0int,
{
    match v {
        JsonV::Null => seq![0x6eu8, 0x75u8, 0x6cu8, 0x6cu8],
        JsonV::Bool(b) => if b {
            seq![0x74u8, 0x72u8, 0x75u8, 0x65u8]
        } else {
            seq![0x66u8, 0x61u8, 0x6cu8, 0x73u8, 0x65u8]
        },
        JsonV::Num(t) => t,
        JsonV::Str(t) => seq![0x22u8] + t + seq![0x22u8],
        JsonV::Arr(items) => if items.len() == 0 {
            seq![0x5bu8, 0x5du8]
        } else {
            seq![0x5bu8] + ser_items(items, 0, pad + spaces(2)) + seq![0x0au8] + pad + seq![0x5du8]
        },
        JsonV::Obj(es) => if es.len() == 0 {
            seq![0x7bu8, 0x7du8]
        } else {
            seq![0x7bu8] + ser_members(es, 0, pad + spaces(2)) + seq![0x0au8] + pad + seq![0x7du8]
        },
    }
}

/// The element lines of a pretty-printed sequence, from element `i` on: each
/// element on its own line at indentation `pad`, a comma after every element
/// but the last.
pub open spec fn ser_items(items: Seq<JsonV>, i: int, pad: Seq<u8>) -> Seq<u8>
    decreases items, items.len() - i,
{
    if i < 0 || i >= items.len() {
        Seq::empty()
    } else {
        let line = seq![0x0au8] + pad + ser_of(items[i], pad);
        if i + 1 < items.len() {
            line + seq![0x2cu8] + ser_items(items, i + 1, pad)
        } else {
            line
        }
    }
}

/// The entry lines of a pretty-printed mapping, from entry `i` on: each
/// entry as `"key": value` on its own line at indentation `pad`, a comma
/// after every entry but the last.
pub open spec fn ser_members(es: Seq<(Seq<u8>, JsonV)>, i: int, pad: Seq<u8>) -> Seq<u8>
    decreases es, es.len() - i,
{
    if i < 0 || i >= es.len() {
        Seq::empty()
    } else {
        let line = seq![0x0au8] + pad + seq![0x22u8] + es[i].0 + seq![0x22u8, 0x3au8, 0x20u8]
            + ser_of(es[i].1, pad);
        if i + 1 < es.len() {
            line + seq![0x2cu8] + ser_members(es, i + 1, pad)
        } else {
            line
        }
    }
}

fn append_bytes(out: &mut Vec<u8>, t: &Vec<u8>)
    ensures
        final(out)@ == old(out)@ + t@,
{
    let n = t.len();
    let mut i: usize = 0;
    while i < n
        invariant
            n == t@.len(),
            i <= n,
            out@ =~= old(out)@ + t@.subrange(0, i as int),
        decreases n - i,
    {
        out.push(t[i]);
        i = i + 1;
    }
    proof {
        assert(old(out)@ + t@.subrange(0, n as int) =~= old(out)@ + t@);
    }
}

fn extend_pad(pad: &Vec<u8>) -> (r: Vec<u8>)
    ensures
        r@ == pad@ + spaces(2),
{
    let mut r = crate::util::copy_bytes(pad);
    r.push(0x20);
    r.push(0x20);
    proof {
        assert(r@ =~= pad@ + spaces(2));
    }
    r
}

fn write_value(out: &mut Vec<u8>, v: &Json, pad: &Vec<u8>)
    ensures
        final(out)@ == old(out)@ + ser_of(jv(*v), pad@),
    decreases v, 0int,
{
    match v {
        Json::Null => {
            out.push(0x6e);
            out.push(0x75);
            out.push(0x6c);
            out.push(0x6c);
            proof {
                assert(final(out)@ =~= old(out)@ + ser_of(jv(*v), pad@));
            }
        },
        Json::Bool(b) => {
            if *b {
                out.push(0x74);
                out.push(0x72);
                out.push(0x75);
                out.push(0x65);
            } else {
                out.push(0x66);
                out.push(0x61);
                out.push(0x6c);
                out.push(0x73);
                out.push(0x65);
            }
            proof {
                assert(final(out)@ =~= old(out)@ + ser_of(jv(*v), pad@));
            }
        },
        Json::Num(t) => {
            append_bytes(out, t);
        },
        Json::Str(t) => {
            out.push(0x22);
            append_bytes(out, t);
            out.push(0x22);
            proof {
                assert(final(out)@ =~= old(out)@ + ser_of(jv(*v), pad@));
            }
        },
        Json::Arr(items) => {
            if items.len() == 0 {
                out.push(0x5b);
                out.push(0x5d);
                proof {
                    lemma_jv_seq_len(items@);
                    assert(final(out)@ =~= old(out)@ + ser_of(jv(*v), pad@));
                }
            } else {
                out.push(0x5b);
                let pad2 = extend_pad(pad);
                write_items(out, items, 0, &pad2);
                out.push(0x0a);
                append_bytes(out, pad);
                out.push(0x5d);
                proof {
                    lemma_jv_seq_len(items@);
                    assert(final(out)@ =~= old(out)@ + ser_of(jv(*v), pad@));
                }
            }
        },
        Json::Obj(es) => {
            if es.len() == 0 {
                out.push(0x7b);
                out.push(0x7d);
                proof {
                    lemma_jv_entries_len(es@);
                    assert(final(out)@ =~= old(out)@ + ser_of(jv(*v), pad@));
                }
            } else {
                out.push(0x7b);
                let pad2 = extend_pad(pad);
                write_members(out, es, 0, &pad2);
                out.push(0x0a);
                append_bytes(out, pad);
                out.push(0x7d);
                proof {
                    lemma_jv_entries_len(es@);
                    assert(final(out)@ =~= old(out)@ + ser_of(jv(*v), pad@));
                }
            }
        },
    }
}

fn write_items(out: &mut Vec<u8>, items: &Vec<Json>, i: usize, pad: &Vec<u8>)
    requires
        i < items@.len(),
    ensures
        final(out)@ == old(out)@ + ser_items(jv_seq(items@), i as int, pad@),
    decreases items, items@.len() - i,
{
    out.push(0x0a);
    append_bytes(out, pad);
    write_value(out, &items[i], pad);
    let n = items.len();
    if i + 1 < n {
        out.push(0x2c);
        write_items(out, items, i + 1, pad);
    }
    proof {
        lemma_jv_seq_len(items@);
        lemma_jv_seq_index(items@, i as int);
        assert(jv_seq(items@)[i as int] == jv(items@[i as int]));
        assert(final(out)@ =~= old(out)@ + ser_items(jv_seq(items@), i as int, pad@));
    }
}

fn write_members(out: &mut Vec<u8>, es: &Vec<(Vec<u8>, Json)>, i: usize, pad: &Vec<u8>)
    requires
        i < es@.len(),
    ensures
        final(out)@ == old(out)@ + ser_members(jv_entries(es@), i as int, pad@),
    decreases es, es@.len() - i,
{
    out.push(0x0a);
    append_bytes(out, pad);
    out.push(0x22);
    append_bytes(out, &es[i].0);
    out.push(0x22);
    out.push(0x3a);
    out.push(0x20);
    write_value(out, &es[i].1, pad);
    let n = es.len();
    if i + 1 < n {
        out.push(0x2c);
        write_members(out, es, i + 1, pad);
    }
    proof {
        lemma_jv_entries_len(es@);
        lemma_jv_entries_index(es@, i as int);
        assert(jv_entries(es@)[i as int] == (es@[i as int].0@, jv(es@[i as int].1)));
        assert(final(out)@ =~= old(out)@ + ser_members(jv_entries(es@), i as int, pad@));
    }
}

/// Pretty-prints a document: the serialized bytes of the value at top level.
pub fn to_pretty_bytes(v: &Json) -> (r: Vec<u8>)
    ensures
        r@ == ser_of(v@, Seq::empty()),
{
    let mut out: Vec<u8> = Vec::new();
    let pad: Vec<u8> = Vec::new();
    write_value(&mut out, v, &pad);
    proof {
        assert(out@ =~= ser_of(jv(*v), Seq::empty()));
    }
    out
}

} // verus!
