use vstd::prelude::*;
use crate::err::CmdErr;
use crate::json::{Json, JsonV, jv, jv_seq, jv_entries, esc_of, esc_from, esc_byte, hex_digit};

verus! {

broadcast use vstd::std_specs::vec::group_vec_axioms, vstd::seq::group_seq_axioms;

/// JSON insignificant whitespace: space, tab, line feed, carriage return.
pub open spec fn is_ws(b: u8) -> bool {
    b == 0x20 || b == 0x09 || b == 0x0a || b == 0x0d
}

/// An ASCII decimal digit.
pub open spec fn is_digit(b: u8) -> bool {
    0x30 <= b <= 0x39
}

/// An ASCII hexadecimal digit, either case.
pub open spec fn is_hex(b: u8) -> bool {
    is_digit(b) || (0x41 <= b <= 0x46) || (0x61 <= b <= 0x66)
}

/// A character that may follow a backslash as a one-letter escape.
pub open spec fn is_simple_escape(b: u8) -> bool {
    b == 0x22 || b == 0x5c || b == 0x2f || b == 0x62 || b == 0x66 || b == 0x6e || b == 0x72
        || b == 0x74
}

/// The first position at or after `i` holding no whitespace.
pub open spec fn skip_ws(s: Seq<u8>, i: int) -> int
    decreases s.len() - i,
{
    if 0 <= i < s.len() && is_ws(s[i]) {
        skip_ws(s, i + 1)
    } else {
        i
    }
}

/// The first position at or after `i` holding no digit.
pub open spec fn digits_end(s: Seq<u8>, i: int) -> int
    decreases s.len() - i,
{
    if 0 <= i < s.len() && is_digit(s[i]) {
        digits_end(s, i + 1)
    } else {
        i
    }
}

/// Parses a string body starting just after the opening quote: the stored
/// bytes are the input bytes up to the closing quote, escapes kept as
/// written; the returned position is just after the closing quote. An
/// unterminated string, a bad escape, or an unescaped control byte fails.
pub open spec fn spec_parse_strbody(s: Seq<u8>, i: int) -> Option<(Seq<u8>, int)>
    decreases s.len() - i, 0int,
{
    if i < 0 || i >= s.len() {
        None
    } else if s[i] == 0x22 {
        Some((Seq::empty(), i + 1))
    } else if s[i] == 0x5c {
        if i + 1 < s.len() && is_simple_escape(s[i + 1]) {
            match spec_parse_strbody(s, i + 2) {
                Some((rest, j)) => Some((seq![s[i], s[i + 1]] + rest, j)),
                None => None,
            }
        } else if i + 5 < s.len() && s[i + 1] == 0x75 && is_hex(s[i + 2]) && is_hex(s[i + 3])
            && is_hex(s[i + 4]) && is_hex(s[i + 5]) {
            match spec_parse_strbody(s, i + 6) {
                Some((rest, j)) => Some((s.subrange(i, i + 6) + rest, j)),
                None => None,
            }
        } else {
            None
        }
    } else if s[i] >= 0x20 {
        match spec_parse_strbody(s, i + 1) {
            Some((rest, j)) => Some((seq![s[i]] + rest, j)),
            None => None,
        }
    } else {
        None
    }
}

/// Parses the optional exponent part at `i` and closes the number token that
/// began at `start`.
pub open spec fn spec_parse_exp(s: Seq<u8>, start: int, i: int) -> Option<(Seq<u8>, int)> {
    if 0 <= i < s.len() && (s[i] == 0x65 || s[i] == 0x45) {
        let i1 = if i + 1 < s.len() && (s[i + 1] == 0x2b || s[i + 1] == 0x2d) {
            i + 2
        } else {
            i + 1
        };
        if i1 < s.len() && is_digit(s[i1]) {
            let i2 = digits_end(s, i1);
            Some((s.subrange(start, i2), i2))
        } else {
            None
        }
    } else {
        Some((s.subrange(start, i), i))
    }
}

/// Parses a number token at `i`: an optional minus, an integer part with no
/// leading zero, an optional fraction, an optional exponent.
pub open spec fn spec_parse_number(s: Seq<u8>, i: int) -> Option<(Seq<u8>, int)> {
    let i1 = if 0 <= i < s.len() && s[i] == 0x2d {
        i + 1
    } else {
        i
    };
    if !(0 <= i1 < s.len() && is_digit(s[i1])) {
        None
    } else {
        let i2 = if s[i1] == 0x30 {
            i1 + 1
        } else {
            digits_end(s, i1)
        };
        if i2 < s.len() && s[i2] == 0x2e {
            if i2 + 1 < s.len() && is_digit(s[i2 + 1]) {
                spec_parse_exp(s, i, digits_end(s, i2 + 1))
            } else {
                None
            }
        } else {
            spec_parse_exp(s, i, i2)
        }
    }
}

/// Parses one value at `i`, leading whitespace allowed: a mapping, a
/// sequence, a string, `true`, `false`, `null`, or a number. The returned
/// position is just after the value.
pub open spec fn spec_parse_value(s: Seq<u8>, i: int) -> Option<(JsonV, int)>
    decreases s.len() - i, 0int,
{
    let j = skip_ws(s, i);
    if j < i || j >= s.len() {
        None
    } else if s[j] == 0x7b {
        match spec_parse_members(s, j + 1, true) {
            Some((es, k)) => Some((JsonV::Obj(es), k)),
            None => None,
        }
    } else if s[j] == 0x5b {
        match spec_parse_elements(s, j + 1, true) {
            Some((items, k)) => Some((JsonV::Arr(items), k)),
            None => None,
        }
    } else if s[j] == 0x22 {
        match spec_parse_strbody(s, j + 1) {
            Some((content, k)) => Some((JsonV::Str(content), k)),
            None => None,
        }
    } else if s[j] == 0x74 {
        if j + 3 < s.len() && s[j + 1] == 0x72 && s[j + 2] == 0x75 && s[j + 3] == 0x65 {
            Some((JsonV::Bool(true), j + 4))
        } else {
            None
        }
    } else if s[j] == 0x66 {
        if j + 4 < s.len() && s[j + 1] == 0x61 && s[j + 2] == 0x6c && s[j + 3] == 0x73 && s[j + 4]
            == 0x65 {
            Some((JsonV::Bool(false), j + 5))
        } else {
            None
        }
    } else if s[j] == 0x6e {
        if j + 3 < s.len() && s[j + 1] == 0x75 && s[j + 2] == 0x6c && s[j + 3] == 0x6c {
            Some((JsonV::Null, j + 4))
        } else {
            None
        }
    } else if s[j] == 0x2d || is_digit(s[j]) {
        match spec_parse_number(s, j) {
            Some((t, k)) => Some((JsonV::Num(t), k)),
            None => None,
        }
    } else {
        None
    }
}

/// Parses the remainder of a mapping: `i` stands just after the opening
/// brace when `first` holds, and just after a comma otherwise.
pub open spec fn spec_parse_members(s: Seq<u8>, i: int, first: bool) -> Option<
    (Seq<(Seq<u8>, JsonV)>, int),
>
    decreases s.len() - i, 1int,
{
    let j = skip_ws(s, i);
    if j < i || j >= s.len() {
        None
    } else if first && s[j] == 0x7d {
        Some((Seq::empty(), j + 1))
    } else if s[j] != 0x22 {
        None
    } else {
        match spec_parse_strbody(s, j + 1) {
            None => None,
            Some((key, k)) => if k < j + 2 {
                None
            } else {
                let c = skip_ws(s, k);
                if c < k || c >= s.len() || s[c] != 0x3a {
                    None
                } else {
                    match spec_parse_value(s, c + 1) {
                        None => None,
                        Some((v, m)) => if m <= c {
                            None
                        } else {
                            let w = skip_ws(s, m);
                            if w < m || w >= s.len() {
                                None
                            } else if s[w] == 0x2c {
                                match spec_parse_members(s, w + 1, false) {
                                    Some((rest, end)) => Some((seq![(key, v)] + rest, end)),
                                    None => None,
                                }
                            } else if s[w] == 0x7d {
                                Some((seq![(key, v)], w + 1))
                            } else {
                                None
                            }
                        },
                    }
                }
            },
        }
    }
}

/// Parses the remainder of a sequence: `i` stands just after the opening
/// bracket when `first` holds, and just after a comma otherwise.
pub open spec fn spec_parse_elements(s: Seq<u8>, i: int, first: bool) -> Option<(Seq<JsonV>, int)>
    decreases s.len() - i, 1int,
{
    let j = skip_ws(s, i);
    if j < i || j >= s.len() {
        None
    } else if first && s[j] == 0x5d {
        Some((Seq::empty(), j + 1))
    } else {
        match spec_parse_value(s, i) {
            None => None,
            Some((v, m)) => if m <= i {
                None
            } else {
                let w = skip_ws(s, m);
                if w < m || w >= s.len() {
                    None
                } else if s[w] == 0x2c {
                    match spec_parse_elements(s, w + 1, false) {
                        Some((rest, end)) => Some((seq![v] + rest, end)),
                        None => None,
                    }
                } else if s[w] == 0x5d {
                    Some((seq![v], w + 1))
                } else {
                    None
                }
            },
        }
    }
}

/// Parses a whole document: one value with nothing but whitespace after it.
pub open spec fn spec_parse_doc(s: Seq<u8>) -> Option<JsonV> {
    match spec_parse_value(s, 0) {
        Some((v, j)) => if skip_ws(s, j) == s.len() {
            Some(v)
        } else {
            None
        },
        None => None,
    }
}

// --- executable parser ----------------------------------------------------

/// `skip_ws` stays within bounds.
proof fn lemma_skip_ws_bounds(s: Seq<u8>, i: int)
    requires
        0 <= i <= s.len(),
    ensures
        i <= skip_ws(s, i) <= s.len(),
    decreases s.len() - i,
{
    if i < s.len() && is_ws(s[i]) {
        lemma_skip_ws_bounds(s, i + 1);
    }
}

/// `digits_end` stays within bounds.
proof fn lemma_digits_end_bounds(s: Seq<u8>, i: int)
    requires
        0 <= i <= s.len(),
    ensures
        i <= digits_end(s, i) <= s.len(),
    decreases s.len() - i,
{
    if i < s.len() && is_digit(s[i]) {
        lemma_digits_end_bounds(s, i + 1);
    }
}

/// A parsed string body is the raw input up to its closing quote.
proof fn lemma_strbody_is_subrange(s: Seq<u8>, i: int)
    requires
        spec_parse_strbody(s, i) is Some,
    ensures
        ({
            let (c, j) = spec_parse_strbody(s, i)->Some_0;
            i + 1 <= j <= s.len() && c == s.subrange(i, j - 1)
        }),
    decreases s.len() - i,
{
    let (c, j) = spec_parse_strbody(s, i)->Some_0;
    if s[i] == 0x22 {
        assert(c =~= s.subrange(i, j - 1));
    } else if s[i] == 0x5c {
        if i + 1 < s.len() && is_simple_escape(s[i + 1]) {
            lemma_strbody_is_subrange(s, i + 2);
            assert(c =~= s.subrange(i, j - 1));
        } else {
            lemma_strbody_is_subrange(s, i + 6);
            assert(c =~= s.subrange(i, j - 1));
        }
    } else {
        lemma_strbody_is_subrange(s, i + 1);
        assert(c =~= s.subrange(i, j - 1));
    }
}

fn skip_ws_at(s: &Vec<u8>, i: usize) -> (r: usize)
    requires
        i <= s@.len(),
    ensures
        r as int == skip_ws(s@, i as int),
        i <= r <= s@.len(),
    decreases s@.len() - i,
{
    let n = s.len();
    if i < n {
        let b = s[i];
        if b == 0x20 || b == 0x09 || b == 0x0a || b == 0x0d {
            return skip_ws_at(s, i + 1);
        }
    }
    i
}

fn digits_end_at(s: &Vec<u8>, i: usize) -> (r: usize)
    requires
        i <= s@.len(),
    ensures
        r as int == digits_end(s@, i as int),
        i <= r <= s@.len(),
    decreases s@.len() - i,
{
    let n = s.len();
    if i < n {
        let b = s[i];
        if 0x30 <= b && b <= 0x39 {
            return digits_end_at(s, i + 1);
        }
    }
    i
}

fn strbody_end(s: &Vec<u8>, i: usize) -> (r: Option<usize>)
    requires
        i <= s@.len(),
    ensures
        match r {
            Some(j) => i < j <= s@.len() && (spec_parse_strbody(s@, i as int) matches Some(p)
                && p.1 == j as int),
            None => spec_parse_strbody(s@, i as int) is None,
        },
    decreases s@.len() - i,
{
    let n = s.len();
    if i >= n {
        return None;
    }
    let b = s[i];
    if b == 0x22 {
        Some(i + 1)
    } else if b == 0x5c {
        if n - i >= 2 {
            let e = s[i + 1];
            if e == 0x22 || e == 0x5c || e == 0x2f || e == 0x62 || e == 0x66 || e == 0x6e
                || e == 0x72 || e == 0x74 {
                return strbody_end(s, i + 2);
            }
            if e == 0x75 && n - i >= 6 && is_hex_b(s[i + 2]) && is_hex_b(s[i + 3]) && is_hex_b(
                s[i + 4],
            ) && is_hex_b(s[i + 5]) {
                return strbody_end(s, i + 6);
            }
            None
        } else {
            None
        }
    } else if b >= 0x20 {
        strbody_end(s, i + 1)
    } else {
        None
    }
}

fn is_hex_b(b: u8) -> (r: bool)
    ensures
        r == is_hex(b),
{
    (0x30 <= b && b <= 0x39) || (0x41 <= b && b <= 0x46) || (0x61 <= b && b <= 0x66)
}

fn parse_string_at(s: &Vec<u8>, i: usize) -> (r: Option<(Vec<u8>, usize)>)
    requires
        i <= s@.len(),
    ensures
        match r {
            Some((c, j)) => i < j <= s@.len() && spec_parse_strbody(s@, i as int) == Some(
                (c@, j as int),
            ),
            None => spec_parse_strbody(s@, i as int) is None,
        },
{
    match strbody_end(s, i) {
        Some(j) => {
            proof {
                lemma_strbody_is_subrange(s@, i as int);
            }
            let c = crate::util::subvec(s, i, j - 1);
            Some((c, j))
        },
        None => None,
    }
}

fn parse_number_at(s: &Vec<u8>, i: usize) -> (r: Option<(Vec<u8>, usize)>)
    requires
        i < s@.len(),
        s@[i as int] == 0x2d || is_digit(s@[i as int]),
    ensures
        match r {
            Some((t, j)) => i < j <= s@.len() && spec_parse_number(s@, i as int) == Some(
                (t@, j as int),
            ),
            None => spec_parse_number(s@, i as int) is None,
        },
{
    let n = s.len();
    let i1 = if s[i] == 0x2d {
        i + 1
    } else {
        i
    };
    if !(i1 < n && 0x30 <= s[i1] && s[i1] <= 0x39) {
        return None;
    }
    let i2 = if s[i1] == 0x30 {
        i1 + 1
    } else {
        let d = digits_end_at(s, i1);
        proof {
            assert(digits_end(s@, i1 as int) == digits_end(s@, i1 as int + 1));
            lemma_digits_end_bounds(s@, i1 as int + 1);
        }
        d
    };
    let i3 = if i2 < n && s[i2] == 0x2e {
        if i2 + 1 < n && 0x30 <= s[i2 + 1] && s[i2 + 1] <= 0x39 {
            digits_end_at(s, i2 + 1)
        } else {
            return None;
        }
    } else {
        i2
    };
    // exponent
    if i3 < n && (s[i3] == 0x65 || s[i3] == 0x45) {
        let i4 = if i3 + 1 < n && (s[i3 + 1] == 0x2b || s[i3 + 1] == 0x2d) {
            i3 + 2
        } else {
            i3 + 1
        };
        if i4 < n && 0x30 <= s[i4] && s[i4] <= 0x39 {
            let i5 = digits_end_at(s, i4);
            let t = crate::util::subvec(s, i, i5);
            Some((t, i5))
        } else {
            None
        }
    } else {
        let t = crate::util::subvec(s, i, i3);
        Some((t, i3))
    }
}

/// The model of a one-entry extension at the front.
proof fn lemma_jv_entries_cons(e: (Vec<u8>, Json), t: Seq<(Vec<u8>, Json)>)
    ensures
        jv_entries(seq![e] + t) == seq![(e.0@, jv(e.1))] + jv_entries(t),
{
    let s = seq![e] + t;
    assert(s[0] == e);
    assert(s.drop_first() =~= t);
}

/// The model of a one-element extension at the front.
proof fn lemma_jv_seq_cons(e: Json, t: Seq<Json>)
    ensures
        jv_seq(seq![e] + t) == seq![jv(e)] + jv_seq(t),
{
    let s = seq![e] + t;
    assert(s[0] == e);
    assert(s.drop_first() =~= t);
}

#[verifier::rlimit(50)]
fn parse_value_at(s: &Vec<u8>, i: usize) -> (r: Option<(Json, usize)>)
    requires
        i <= s@.len(),
    ensures
        match r {
            Some((v, j)) => i < j <= s@.len() && spec_parse_value(s@, i as int) == Some(
                (jv(v), j as int),
            ),
            None => spec_parse_value(s@, i as int) is None,
        },
    decreases s@.len() - i, 0int,
{
    let n = s.len();
    let j = skip_ws_at(s, i);
    if j >= n {
        return None;
    }
    let b = s[j];
    if b == 0x7b {
        match parse_members_at(s, j + 1, true) {
            Some((es, k)) => Some((Json::Obj(es), k)),
            None => None,
        }
    } else if b == 0x5b {
        match parse_elements_at(s, j + 1, true) {
            Some((items, k)) => Some((Json::Arr(items), k)),
            None => None,
        }
    } else if b == 0x22 {
        match parse_string_at(s, j + 1) {
            Some((content, k)) => Some((Json::Str(content), k)),
            None => None,
        }
    } else if b == 0x74 {
        if n - j >= 4 && s[j + 1] == 0x72 && s[j + 2] == 0x75 && s[j + 3] == 0x65 {
            Some((Json::Bool(true), j + 4))
        } else {
            None
        }
    } else if b == 0x66 {
        if n - j >= 5 && s[j + 1] == 0x61 && s[j + 2] == 0x6c && s[j + 3] == 0x73 && s[j + 4]
            == 0x65 {
            Some((Json::Bool(false), j + 5))
        } else {
            None
        }
    } else if b == 0x6e {
        if n - j >= 4 && s[j + 1] == 0x75 && s[j + 2] == 0x6c && s[j + 3] == 0x6c {
            Some((Json::Null, j + 4))
        } else {
            None
        }
    } else if b == 0x2d || (0x30 <= b && b <= 0x39) {
        match parse_number_at(s, j) {
            Some((t, k)) => Some((Json::Num(t), k)),
            None => None,
        }
    } else {
        None
    }
}

#[verifier::rlimit(50)]
fn parse_members_at(s: &Vec<u8>, i: usize, first: bool) -> (r: Option<
    (Vec<(Vec<u8>, Json)>, usize),
>)
    requires
        i <= s@.len(),
    ensures
        match r {
            Some((es, j)) => i < j <= s@.len() && spec_parse_members(s@, i as int, first) == Some(
                (jv_entries(es@), j as int),
            ),
            None => spec_parse_members(s@, i as int, first) is None,
        },
    decreases s@.len() - i, 1int,
{
    let n = s.len();
    let j = skip_ws_at(s, i);
    if j >= n {
        return None;
    }
    if first && s[j] == 0x7d {
        let es: Vec<(Vec<u8>, Json)> = Vec::new();
        proof {
            assert(jv_entries(es@) =~= Seq::<(Seq<u8>, JsonV)>::empty());
        }
        return Some((es, j + 1));
    }
    if s[j] != 0x22 {
        return None;
    }
    match parse_string_at(s, j + 1) {
        None => None,
        Some((key, k)) => {
            if k < j + 2 {
                return None;
            }
            let c = skip_ws_at(s, k);
            if c >= n || s[c] != 0x3a {
                return None;
            }
            match parse_value_at(s, c + 1) {
                None => None,
                Some((v, m)) => {
                    let w = skip_ws_at(s, m);
                    if w >= n {
                        return None;
                    }
                    if s[w] == 0x2c {
                        match parse_members_at(s, w + 1, false) {
                            Some((mut rest, end)) => {
                                let ghost e = (key, v);
                                let ghost rest0 = rest@;
                                rest.insert(0, (key, v));
                                proof {
                                    lemma_jv_entries_cons(e, rest0);
                                    assert(rest@ =~= seq![e] + rest0);
                                }
                                Some((rest, end))
                            },
                            None => None,
                        }
                    } else if s[w] == 0x7d {
                        let ghost e = (key, v);
                        let mut es: Vec<(Vec<u8>, Json)> = Vec::new();
                        es.push((key, v));
                        proof {
                            assert(es@ =~= seq![e] + Seq::<(Vec<u8>, Json)>::empty());
                            lemma_jv_entries_cons(e, Seq::empty());
                            assert(jv_entries(Seq::<(Vec<u8>, Json)>::empty()) =~= Seq::<
                                (Seq<u8>, JsonV),
                            >::empty());
                            assert(jv_entries(es@) =~= seq![(e.0@, jv(e.1))]);
                        }
                        Some((es, w + 1))
                    } else {
                        None
                    }
                },
            }
        },
    }
}

#[verifier::rlimit(50)]
fn parse_elements_at(s: &Vec<u8>, i: usize, first: bool) -> (r: Option<(Vec<Json>, usize)>)
    requires
        i <= s@.len(),
    ensures
        match r {
            Some((items, j)) => i < j <= s@.len() && spec_parse_elements(s@, i as int, first)
                == Some((jv_seq(items@), j as int)),
            None => spec_parse_elements(s@, i as int, first) is None,
        },
    decreases s@.len() - i, 1int,
{
    let n = s.len();
    let j = skip_ws_at(s, i);
    if j >= n {
        return None;
    }
    if first && s[j] == 0x5d {
        let items: Vec<Json> = Vec::new();
        proof {
            assert(jv_seq(items@) =~= Seq::<JsonV>::empty());
        }
        return Some((items, j + 1));
    }
    match parse_value_at(s, i) {
        None => None,
        Some((v, m)) => {
            let w = skip_ws_at(s, m);
            if w >= n {
                return None;
            }
            if s[w] == 0x2c {
                match parse_elements_at(s, w + 1, false) {
                    Some((mut rest, end)) => {
                        let ghost e = v;
                        let ghost rest0 = rest@;
                        rest.insert(0, v);
                        proof {
                            lemma_jv_seq_cons(e, rest0);
                            assert(rest@ =~= seq![e] + rest0);
                        }
                        Some((rest, end))
                    },
                    None => None,
                }
            } else if s[w] == 0x5d {
                let ghost e = v;
                let mut items: Vec<Json> = Vec::new();
                items.push(v);
                proof {
                    assert(items@ =~= seq![e] + Seq::<Json>::empty());
                    lemma_jv_seq_cons(e, Seq::empty());
                    assert(jv_seq(Seq::<Json>::empty()) =~= Seq::<JsonV>::empty());
                    assert(jv_seq(items@) =~= seq![jv(e)]);
                }
                Some((items, w + 1))
            } else {
                None
            }
        },
    }
}

/// Parses a whole specification document. A document the grammar refuses is
/// an internal error: the bundle's spec comes from a trusted unpack step.
pub fn parse_json(text: &Vec<u8>) -> (r: Result<Json, CmdErr>)
    ensures
        match spec_parse_doc(text@) {
            Some(d) => r matches Ok(v) && v@ == d,
            None => (r matches Err(e) && e.kind is Internal && e.message@
                == "Internal error: invalid bundle spec"@ && e.secondary is None),
        },
{
    match parse_value_at(text, 0) {
        Some((v, j)) => {
            let e = skip_ws_at(text, j);
            if e == text.len() {
                Ok(v)
            } else {
                Err(CmdErr::internal("Internal error: invalid bundle spec"))
            }
        },
        None => Err(CmdErr::internal("Internal error: invalid bundle spec")),
    }
}



// --- the string rule and the escaper are inverses -------------------------

/// Parsing a string body is invariant under a shift past any text prefix.
proof fn lemma_strbody_shift(a: Seq<u8>, b: Seq<u8>, i: int)
    requires
        0 <= i <= b.len(),
    ensures
        spec_parse_strbody(a + b, a.len() + i) == (match spec_parse_strbody(b, i) {
            Some((c, j)) => Some((c, a.len() + j)),
            None => None,
        }),
    decreases b.len() - i,
{
    let s = a + b;
    let n = a.len() as int;
    if i < b.len() {
        assert(s[n + i] == b[i]);
        if b[i] == 0x22 {
        } else if b[i] == 0x5c {
            if i + 1 < b.len() && is_simple_escape(b[i + 1]) {
                assert(s[n + i + 1] == b[i + 1]);
                lemma_strbody_shift(a, b, i + 2);
                assert(seq![s[n + i], s[n + i + 1]] =~= seq![b[i], b[i + 1]]);
            } else if i + 5 < b.len() && b[i + 1] == 0x75 && is_hex(b[i + 2]) && is_hex(b[i + 3])
                && is_hex(b[i + 4]) && is_hex(b[i + 5]) {
                assert(s[n + i + 1] == b[i + 1]);
                assert(s[n + i + 2] == b[i + 2]);
                assert(s[n + i + 3] == b[i + 3]);
                assert(s[n + i + 4] == b[i + 4]);
                assert(s[n + i + 5] == b[i + 5]);
                lemma_strbody_shift(a, b, i + 6);
                assert(s.subrange(n + i, n + i + 6) =~= b.subrange(i, i + 6));
            } else {
                if i + 1 < b.len() {
                    assert(s[n + i + 1] == b[i + 1]);
                }
                if i + 5 < b.len() {
                    assert(s[n + i + 1] == b[i + 1]);
                    assert(s[n + i + 2] == b[i + 2]);
                    assert(s[n + i + 3] == b[i + 3]);
                    assert(s[n + i + 4] == b[i + 4]);
                    assert(s[n + i + 5] == b[i + 5]);
                }
            }
        } else if b[i] >= 0x20 {
            lemma_strbody_shift(a, b, i + 1);
            assert(seq![s[n + i]] =~= seq![b[i]]);
        }
    }
}

proof fn lemma_escape_parses_back_from(raw: Seq<u8>, k: int, rest: Seq<u8>)
    requires
        0 <= k <= raw.len(),
    ensures
        spec_parse_strbody(esc_from(raw, k) + (seq![0x22u8] + rest), 0) == Some(
            (esc_from(raw, k), esc_from(raw, k).len() as int + 1),
        ),
    decreases raw.len() - k,
{
    let e = esc_from(raw, k);
    let tail = seq![0x22u8] + rest;
    if k >= raw.len() {
        assert(e =~= Seq::<u8>::empty());
        assert(e + tail =~= tail);
        assert((e + tail)[0] == 0x22);
    } else {
        let b = raw[k];
        let eb = esc_byte(b);
        let e2 = esc_from(raw, k + 1);
        assert(e == eb + e2);
        lemma_escape_parses_back_from(raw, k + 1, rest);
        let s = e + tail;
        assert(s =~= eb + (e2 + tail));
        let inner = spec_parse_strbody(e2 + tail, 0);
        assert(inner == Some((e2, e2.len() as int + 1)));
        if b == 0x22 || b == 0x5c || b == 0x08 || b == 0x0c || b == 0x0a || b == 0x0d
            || b == 0x09 {
            assert(eb.len() == 2 && eb[0] == 0x5c && is_simple_escape(eb[1]));
            lemma_strbody_shift(eb, e2 + tail, 0);
            assert(s[0] == 0x5c);
            assert(s[1] == eb[1]);
            assert(spec_parse_strbody(s, 2) == Some((e2, 2 + e2.len() as int + 1)));
            assert(seq![s[0], s[1]] =~= eb);
            assert(eb + e2 =~= e);
        } else if b < 0x20 {
            assert(eb =~= seq![
                0x5cu8,
                0x75u8,
                0x30u8,
                0x30u8,
                hex_digit(b / 16),
                hex_digit(b % 16),
            ]);
            assert(is_hex(0x30));
            assert(is_hex(hex_digit(b / 16)));
            assert(is_hex(hex_digit(b % 16)));
            lemma_strbody_shift(eb, e2 + tail, 0);
            assert(s[0] == 0x5c && s[1] == 0x75);
            assert(!is_simple_escape(s[1]));
            assert(is_hex(s[2]) && is_hex(s[3]) && is_hex(s[4]) && is_hex(s[5]));
            assert(spec_parse_strbody(s, 6) == Some((e2, 6 + e2.len() as int + 1)));
            assert(s.subrange(0, 6) =~= eb);
            assert(eb + e2 =~= e);
        } else {
            assert(eb =~= seq![b]);
            lemma_strbody_shift(eb, e2 + tail, 0);
            assert(s[0] == b && b >= 0x20 && b != 0x22 && b != 0x5c);
            assert(spec_parse_strbody(s, 1) == Some((e2, 1 + e2.len() as int + 1)));
            assert(seq![s[0]] =~= eb);
            assert(eb + e2 =~= e);
        }
    }
}

/// The string rule undoes the escaper: for any raw bytes, the escaped form
/// followed by a closing quote (and any further text) parses as a string
/// body whose stored bytes are exactly the escaped form, ending just past
/// the quote. Strings written by the serializer therefore read back with the
/// very bytes that were stored.
pub proof fn lemma_escape_parses_back(raw: Seq<u8>, rest: Seq<u8>)
    ensures
        spec_parse_strbody(esc_of(raw) + (seq![0x22u8] + rest), 0) == Some(
            (esc_of(raw), esc_of(raw).len() as int + 1),
        ),
{
    lemma_escape_parses_back_from(raw, 0, rest);
}

} // verus!
