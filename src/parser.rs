//! The property language: its grammar as spec functions over characters,
//! and a parser proved to read as the grammar says.

use vstd::prelude::*;
use crate::datamodel::{
    div255_rounded, prop_insert, prop_insert_all, translation_components, CFrameWrapper,
    Color3Wrapper, PropView, PropertyMap, PropertyValue, PropsView, UDim2Wrapper, Vec3Wrapper,
};
use crate::text::{
    chars_of, digits_value, find_char, find_char_from, is_digit, lemma_digits_prefix_le,
    matches_at, matches_at_exec, string_from, sub_chars,
};

verus! {

// ---------------------------------------------------------------------------
// The grammar, as spec functions over the characters of a file. Each parser
// takes a position and gives what it read and the position after it.
// ---------------------------------------------------------------------------

/// Space, tab, carriage return or line feed.
pub open spec fn is_ms(c: char) -> bool {
    c == ' ' || c == '\t' || c == '\r' || c == '\n'
}

pub open spec fn is_alpha(c: char) -> bool {
    ('a' <= c && c <= 'z') || ('A' <= c && c <= 'Z')
}

pub open spec fn is_word(c: char) -> bool {
    is_alpha(c) || is_digit(c) || c == '_'
}

/// The end of the run of white space at `i`.
pub open spec fn ws_end(s: Seq<char>, i: int) -> int
    decreases s.len() - i,
{
    if 0 <= i < s.len() && is_ms(s[i]) {
        ws_end(s, i + 1)
    } else {
        i
    }
}

/// The end of the run of identifier characters at `i`.
pub open spec fn word_end(s: Seq<char>, i: int) -> int
    decreases s.len() - i,
{
    if 0 <= i < s.len() && is_word(s[i]) {
        word_end(s, i + 1)
    } else {
        i
    }
}

/// The end of the run of digits at `i`.
pub open spec fn digits_end(s: Seq<char>, i: int) -> int
    decreases s.len() - i,
{
    if 0 <= i < s.len() && is_digit(s[i]) {
        digits_end(s, i + 1)
    } else {
        i
    }
}

/// `[A-Za-z_][A-Za-z0-9_]*` at `i`.
pub open spec fn ident_end(s: Seq<char>, i: int) -> Option<int> {
    if 0 <= i < s.len() && (is_alpha(s[i]) || s[i] == '_') {
        Some(word_end(s, i + 1))
    } else {
        None
    }
}

/// The fraction digits `d` in millionths: the first six, padded with zeros.
pub open spec fn frac_micro(d: Seq<char>) -> nat {
    digits_value((d + seq!['0', '0', '0', '0', '0', '0']).subrange(0, 6))
}

/// `-? digits ('.' digits)?` at `i`, in millionths; `None` also where the
/// value does not fit an `i64`.
pub open spec fn number_at(s: Seq<char>, i: int) -> Option<(i64, int)> {
    if i < 0 || i > s.len() {
        None
    } else {
        let neg = i < s.len() && s[i] == '-';
        let a = if neg {
            i + 1
        } else {
            i
        };
        let b = digits_end(s, a);
        if b == a {
            None
        } else {
            let frac = b < s.len() && b + 1 < s.len() && s[b] == '.' && is_digit(s[b + 1]);
            let c = if frac {
                digits_end(s, b + 1)
            } else {
                b
            };
            let mag: int = digits_value(s.subrange(a, b)) * 1_000_000 + (if frac {
                frac_micro(s.subrange(b + 1, c)) as int
            } else {
                0
            });
            if mag > i64::MAX {
                None
            } else {
                Some(((if neg {
                    -mag
                } else {
                    mag
                }) as i64, c))
            }
        }
    }
}

/// `n` numbers separated by commas, white space around each.
pub open spec fn number_list(s: Seq<char>, i: int, n: nat) -> Option<(Seq<i64>, int)>
    decreases n,
{
    if n == 0 {
        None
    } else {
        match number_at(s, ws_end(s, i)) {
            None => None,
            Some((v, k)) => {
                let k2 = ws_end(s, k);
                if n == 1 {
                    Some((seq![v], k2))
                } else if 0 <= k2 < s.len() && s[k2] == ',' {
                    match number_list(s, k2 + 1, (n - 1) as nat) {
                        Some((vs, e)) => Some((seq![v] + vs, e)),
                        None => None,
                    }
                } else {
                    None
                }
            },
        }
    }
}

/// `name ( n numbers )` at `i`, with the white space after it.
pub open spec fn ctor_args(s: Seq<char>, i: int, name: Seq<char>, n: nat) -> Option<
    (Seq<i64>, int),
> {
    if matches_at(s, name, i) {
        let j = ws_end(s, i + name.len());
        if 0 <= j < s.len() && s[j] == '(' {
            match number_list(s, j + 1, n) {
                Some((vs, e)) => if 0 <= e < s.len() && s[e] == ')' {
                    Some((vs, ws_end(s, e + 1)))
                } else {
                    None
                },
                None => None,
            }
        } else {
            None
        }
    } else {
        None
    }
}

/// A number of millionths as a whole pixel offset: truncated toward zero,
/// then held to the range of an `i32`.
pub open spec fn offset_of(v: i64) -> i32 {
    let t = if v >= 0 {
        v / 1_000_000
    } else {
        -((-v) / 1_000_000)
    };
    if t > i32::MAX {
        i32::MAX
    } else if t < i32::MIN {
        i32::MIN
    } else {
        t as i32
    }
}

pub open spec fn or_else<T>(a: Option<T>, b: Option<T>) -> Option<T> {
    if a is Some {
        a
    } else {
        b
    }
}

pub open spec fn alt_bool(s: Seq<char>, i: int) -> Option<(PropView, int)> {
    if matches_at(s, "true"@, i) {
        Some((PropView::Bool(true), i + 4))
    } else if matches_at(s, "false"@, i) {
        Some((PropView::Bool(false), i + 5))
    } else {
        None
    }
}

pub open spec fn alt_vector3(s: Seq<char>, i: int) -> Option<(PropView, int)> {
    match ctor_args(s, i, "Vector3.new"@, 3) {
        Some((v, e)) => Some((PropView::Vector3(Vec3Wrapper { x: v[0], y: v[1], z: v[2] }), e)),
        None => None,
    }
}

pub open spec fn alt_cframe(s: Seq<char>, i: int) -> Option<(PropView, int)> {
    match ctor_args(s, i, "CFrame.new"@, 3) {
        Some((v, e)) => Some(
            (
                PropView::CFrame(
                    Vec3Wrapper { x: v[0], y: v[1], z: v[2] },
                    translation_components(v[0], v[1], v[2]),
                ),
                e,
            ),
        ),
        None => None,
    }
}

pub open spec fn alt_color_rgb(s: Seq<char>, i: int) -> Option<(PropView, int)> {
    match ctor_args(s, i, "Color3.fromRGB"@, 3) {
        Some((v, e)) => Some(
            (
                PropView::Color3(
                    Color3Wrapper {
                        r: div255_rounded(v[0] as int) as i64,
                        g: div255_rounded(v[1] as int) as i64,
                        b: div255_rounded(v[2] as int) as i64,
                    },
                ),
                e,
            ),
        ),
        None => None,
    }
}

pub open spec fn alt_color_new(s: Seq<char>, i: int) -> Option<(PropView, int)> {
    match ctor_args(s, i, "Color3.new"@, 3) {
        Some((v, e)) => Some((PropView::Color3(Color3Wrapper { r: v[0], g: v[1], b: v[2] }), e)),
        None => None,
    }
}

pub open spec fn alt_udim2(s: Seq<char>, i: int) -> Option<(PropView, int)> {
    match ctor_args(s, i, "UDim2.new"@, 4) {
        Some((v, e)) => Some(
            (
                PropView::UDim2(
                    UDim2Wrapper { xs: v[0], xo: offset_of(v[1]), ys: v[2], yo: offset_of(v[3]) },
                ),
                e,
            ),
        ),
        None => None,
    }
}

/// `Enum.` identifier `.` identifier; the value is the text read.
pub open spec fn alt_enum(s: Seq<char>, i: int) -> Option<(PropView, int)> {
    if matches_at(s, "Enum."@, i) {
        match ident_end(s, i + 5) {
            Some(e1) => if 0 <= e1 < s.len() && s[e1] == '.' {
                match ident_end(s, e1 + 1) {
                    Some(e2) => Some((PropView::Enum(s.subrange(i, e2)), e2)),
                    None => None,
                }
            } else {
                None
            },
            None => None,
        }
    } else {
        None
    }
}

pub open spec fn alt_number(s: Seq<char>, i: int) -> Option<(PropView, int)> {
    match number_at(s, i) {
        Some((v, e)) => Some((PropView::Number(v), e)),
        None => None,
    }
}

/// A double-quoted string without escapes.
pub open spec fn alt_string(s: Seq<char>, i: int) -> Option<(PropView, int)> {
    if 0 <= i < s.len() && s[i] == '"' {
        match find_char(s, '"', i + 1) {
            Some(q) => Some((PropView::String(s.subrange(i + 1, q)), q + 1)),
            None => None,
        }
    } else {
        None
    }
}

/// A bare identifier, read as a string.
pub open spec fn alt_ident(s: Seq<char>, i: int) -> Option<(PropView, int)> {
    match ident_end(s, i) {
        Some(e) => Some((PropView::String(s.subrange(i, e)), e)),
        None => None,
    }
}

/// A value at `i`: the first alternative that matches, in this order.
pub open spec fn value_at(s: Seq<char>, i: int) -> Option<(PropView, int)> {
    or_else(
        alt_bool(s, i),
        or_else(
            alt_vector3(s, i),
            or_else(
                alt_cframe(s, i),
                or_else(
                    alt_color_rgb(s, i),
                    or_else(
                        alt_color_new(s, i),
                        or_else(
                            alt_udim2(s, i),
                            or_else(
                                alt_enum(s, i),
                                or_else(
                                    alt_number(s, i),
                                    or_else(alt_string(s, i), alt_ident(s, i)),
                                ),
                            ),
                        ),
                    ),
                ),
            ),
        ),
    )
}

/// `name = value` at `i`, with white space around each part.
pub open spec fn assignment_at(s: Seq<char>, i: int) -> Option<(Seq<char>, PropView, int)> {
    let a = ws_end(s, i);
    match ident_end(s, a) {
        None => None,
        Some(b) => {
            let c = ws_end(s, b);
            if 0 <= c < s.len() && s[c] == '=' {
                match value_at(s, ws_end(s, c + 1)) {
                    Some((v, e)) => Some((s.subrange(a, b), v, ws_end(s, e))),
                    None => None,
                }
            } else {
                None
            }
        },
    }
}

/// The assignments from `i` on, up to the first that does not parse, and
/// where reading stopped.
pub open spec fn assignments_from(s: Seq<char>, i: int) -> (PropsView, int)
    decreases s.len() - i,
{
    match assignment_at(s, i) {
        Some((k, v, e)) => if i < e <= s.len() {
            let (rest, end) = assignments_from(s, e);
            (seq![(k, v)] + rest, end)
        } else {
            (Seq::empty(), i)
        },
        None => (Seq::empty(), i),
    }
}

/// The properties that a file sets: later assignments of a name override
/// earlier ones.
pub open spec fn dsl_properties(s: Seq<char>) -> PropsView {
    prop_insert_all(Seq::empty(), assignments_from(s, 0).0)
}


// ---------------------------------------------------------------------------
// The parser, proved to read as the grammar above says.
// ---------------------------------------------------------------------------

pub open spec fn pow10(k: nat) -> nat
    decreases k,
{
    if k == 0 {
        1
    } else {
        10 * pow10((k - 1) as nat)
    }
}

proof fn lemma_pow10_small(j: nat)
    requires
        j <= 6,
    ensures
        pow10(j) <= 1_000_000,
{
    reveal_with_fuel(pow10, 7);
}

fn ws_end_exec(s: &Vec<char>, i: usize) -> (r: usize)
    requires
        i <= s.len(),
    ensures
        r == ws_end(s@, i as int),
        i <= r <= s.len(),
{
    let mut j = i;
    while j < s.len() && (s[j] == ' ' || s[j] == '\t' || s[j] == '\r' || s[j] == '\n')
        invariant
            i <= j <= s.len(),
            ws_end(s@, i as int) == ws_end(s@, j as int),
        decreases s.len() - j,
    {
        j = j + 1;
    }
    j
}

fn is_alpha_exec(c: char) -> (r: bool)
    ensures
        r == is_alpha(c),
{
    ('a' <= c && c <= 'z') || ('A' <= c && c <= 'Z')
}

fn is_digit_exec(c: char) -> (r: bool)
    ensures
        r == is_digit(c),
{
    '0' <= c && c <= '9'
}

fn word_end_exec(s: &Vec<char>, i: usize) -> (r: usize)
    requires
        i <= s.len(),
    ensures
        r == word_end(s@, i as int),
        i <= r <= s.len(),
{
    let mut j = i;
    while j < s.len() && (is_alpha_exec(s[j]) || is_digit_exec(s[j]) || s[j] == '_')
        invariant
            i <= j <= s.len(),
            word_end(s@, i as int) == word_end(s@, j as int),
        decreases s.len() - j,
    {
        j = j + 1;
    }
    j
}

fn digits_end_exec(s: &Vec<char>, i: usize) -> (r: usize)
    requires
        i <= s.len(),
    ensures
        r == digits_end(s@, i as int),
        i <= r <= s.len(),
        forall|k: int| i <= k < r ==> is_digit(#[trigger] s@[k]),
{
    let mut j = i;
    while j < s.len() && is_digit_exec(s[j])
        invariant
            i <= j <= s.len(),
            digits_end(s@, i as int) == digits_end(s@, j as int),
            forall|k: int| i <= k < j ==> is_digit(#[trigger] s@[k]),
        decreases s.len() - j,
    {
        j = j + 1;
    }
    j
}

fn ident_end_exec(s: &Vec<char>, i: usize) -> (r: Option<usize>)
    requires
        i <= s.len(),
    ensures
        match r {
            Some(e) => ident_end(s@, i as int) == Some(e as int) && i < e <= s.len(),
            None => ident_end(s@, i as int) is None,
        },
{
    if i < s.len() && (is_alpha_exec(s[i]) || s[i] == '_') {
        Some(word_end_exec(s, i + 1))
    } else {
        None
    }
}

/// The value of the digits `a..b`, where it is at most `limit`.
fn digits_value_upto(s: &Vec<char>, a: usize, b: usize, limit: u64) -> (r: Option<u64>)
    requires
        a <= b <= s.len(),
        forall|k: int| a <= k < b ==> is_digit(#[trigger] s@[k]),
        limit <= 1_000_000_000_000_000_000,
    ensures
        r == (if digits_value(s@.subrange(a as int, b as int)) <= limit {
            Some(digits_value(s@.subrange(a as int, b as int)) as u64)
        } else {
            None
        }),
{
    let ghost t = s@.subrange(a as int, b as int);
    let mut v: u64 = 0;
    let mut j = a;
    while j < b
        invariant
            a <= j <= b <= s.len(),
            t == s@.subrange(a as int, b as int),
            forall|k: int| a <= k < b ==> is_digit(#[trigger] s@[k]),
            limit <= 1_000_000_000_000_000_000,
            v == digits_value(s@.subrange(a as int, j as int)),
            v <= limit,
        decreases b - j,
    {
        assert(is_digit(s@[j as int]));
        let d = (s[j] as u32 - '0' as u32) as u64;
        assert(s@.subrange(a as int, j + 1).drop_last() =~= s@.subrange(a as int, j as int));
        let w = v * 10 + d;
        if w > limit {
            proof {
                assert forall|k: int| 0 <= k < t.len() implies is_digit(#[trigger] t[k]) by {
                    assert(t[k] == s@[a + k]);
                }
                lemma_digits_prefix_le(t, j + 1 - a);
                assert(t.subrange(0, j + 1 - a) =~= s@.subrange(a as int, j + 1));
            }
            return None;
        }
        v = w;
        j = j + 1;
    }
    Some(v)
}

/// The fraction digits `b..c` in millionths.
fn frac_exec(s: &Vec<char>, b: usize, c: usize) -> (r: u64)
    requires
        b <= c <= s.len(),
        forall|k: int| b <= k < c ==> is_digit(#[trigger] s@[k]),
    ensures
        r == frac_micro(s@.subrange(b as int, c as int)),
        r < 1_000_000,
{
    let ghost d = s@.subrange(b as int, c as int);
    let ghost t = (d + seq!['0', '0', '0', '0', '0', '0']).subrange(0, 6);
    let mut acc: u64 = 0;
    let mut j: usize = 0;
    while j < 6
        invariant
            b <= c <= s.len(),
            j <= 6,
            d == s@.subrange(b as int, c as int),
            t == (d + seq!['0', '0', '0', '0', '0', '0']).subrange(0, 6),
            forall|k: int| b <= k < c ==> is_digit(#[trigger] s@[k]),
            acc == digits_value(t.subrange(0, j as int)),
            acc < pow10(j as nat),
        decreases 6 - j,
    {
        let ch = if j < c - b {
            s[b + j]
        } else {
            '0'
        };
        assert(t[j as int] == ch);
        assert(is_digit(ch));
        proof {
            lemma_pow10_small((j + 1) as nat);
        }
        let dg = (ch as u32 - '0' as u32) as u64;
        assert(t.subrange(0, j + 1).drop_last() =~= t.subrange(0, j as int));
        acc = acc * 10 + dg;
        j = j + 1;
    }
    assert(t.subrange(0, 6) =~= t);
    proof {
        lemma_pow10_small(6);
    }
    acc
}

fn parse_number_exec(s: &Vec<char>, i: usize) -> (r: Option<(i64, usize)>)
    requires
        i <= s.len(),
    ensures
        match r {
            Some((v, e)) => number_at(s@, i as int) == Some((v, e as int)) && i < e <= s.len(),
            None => number_at(s@, i as int) is None,
        },
{
    let neg = i < s.len() && s[i] == '-';
    let a = if neg {
        i + 1
    } else {
        i
    };
    let b = digits_end_exec(s, a);
    if b == a {
        return None;
    }
    let frac = b < s.len() && b + 1 < s.len() && s[b] == '.' && is_digit_exec(s[b + 1]);
    let c = if frac {
        digits_end_exec(s, b + 1)
    } else {
        b
    };
    let ip = match digits_value_upto(s, a, b, 9_223_372_036_854) {
        Some(v) => v,
        None => {
            assert(digits_value(s@.subrange(a as int, b as int)) * 1_000_000 > i64::MAX)
                by (nonlinear_arith)
                requires
                    digits_value(s@.subrange(a as int, b as int)) > 9_223_372_036_854int,
            ;
            return None;
        },
    };
    let fr: u64 = if frac {
        frac_exec(s, b + 1, c)
    } else {
        0
    };
    let base: u64 = ip * 1_000_000;
    if fr > 9_223_372_036_854_775_807u64 - base {
        return None;
    }
    let mag = base + fr;
    let v: i64 = if neg {
        -(mag as i64)
    } else {
        mag as i64
    };
    Some((v, c))
}

fn number_list_exec(s: &Vec<char>, i: usize, n: usize) -> (r: Option<(Vec<i64>, usize)>)
    requires
        i <= s.len(),
    ensures
        match r {
            Some((vs, e)) => number_list(s@, i as int, n as nat) == Some((vs@, e as int)) && i < e
                <= s.len(),
            None => number_list(s@, i as int, n as nat) is None,
        },
    decreases n,
{
    if n == 0 {
        return None;
    }
    let j = ws_end_exec(s, i);
    match parse_number_exec(s, j) {
        None => None,
        Some((v, k)) => {
            let k2 = ws_end_exec(s, k);
            if n == 1 {
                let mut vs: Vec<i64> = Vec::new();
                vs.push(v);
                assert(vs@ =~= seq![v]);
                Some((vs, k2))
            } else if k2 < s.len() && s[k2] == ',' {
                match number_list_exec(s, k2 + 1, n - 1) {
                    Some((rest, e)) => {
                        let mut vs: Vec<i64> = Vec::new();
                        vs.push(v);
                        let mut t: usize = 0;
                        while t < rest.len()
                            invariant
                                t <= rest.len(),
                                vs@ == seq![v] + rest@.subrange(0, t as int),
                            decreases rest.len() - t,
                        {
                            vs.push(rest[t]);
                            assert(rest@.subrange(0, t + 1) =~= rest@.subrange(0, t as int).push(
                                rest@[t as int],
                            ));
                            t = t + 1;
                        }
                        assert(rest@.subrange(0, t as int) =~= rest@);
                        Some((vs, e))
                    },
                    None => None,
                }
            } else {
                None
            }
        },
    }
}

fn ctor_args_exec(s: &Vec<char>, i: usize, name: &str, n: usize) -> (r: Option<(Vec<i64>, usize)>)
    requires
        i <= s.len(),
    ensures
        match r {
            Some((vs, e)) => ctor_args(s@, i as int, name@, n as nat) == Some((vs@, e as int)) && i
                < e <= s.len() && vs@.len() == n,
            None => ctor_args(s@, i as int, name@, n as nat) is None,
        },
{
    let p = chars_of(name);
    if !matches_at_exec(s, &p, i) {
        return None;
    }
    let j = ws_end_exec(s, i + p.len());
    if j < s.len() && s[j] == '(' {
        match number_list_exec(s, j + 1, n) {
            Some((vs, e)) => if e < s.len() && s[e] == ')' {
                proof {
                    lemma_number_list_len(s@, j + 1, n as nat);
                }
                Some((vs, ws_end_exec(s, e + 1)))
            } else {
                None
            },
            None => None,
        }
    } else {
        None
    }
}

proof fn lemma_number_list_len(s: Seq<char>, i: int, n: nat)
    ensures
        number_list(s, i, n) matches Some((vs, _)) ==> vs.len() == n,
    decreases n,
{
    if n > 1 {
        if let Some((_, k)) = number_at(s, ws_end(s, i)) {
            lemma_number_list_len(s, ws_end(s, k) + 1, (n - 1) as nat);
        }
    }
}


pub(crate) fn offset_exec(v: i64) -> (r: i32)
    ensures
        r == offset_of(v),
{
    let w = v as i128;
    let t: i128 = if w >= 0 {
        w / 1_000_000
    } else {
        -((-w) / 1_000_000)
    };
    if t > i32::MAX as i128 {
        i32::MAX
    } else if t < i32::MIN as i128 {
        i32::MIN
    } else {
        t as i32
    }
}

fn alt_bool_exec(s: &Vec<char>, i: usize) -> (r: Option<(PropertyValue, usize)>)
    requires
        i <= s.len(),
    ensures
        match r {
            Some((v, e)) => alt_bool(s@, i as int) == Some((v@, e as int)) && i < e <= s.len(),
            None => alt_bool(s@, i as int) is None,
        },
{
    proof {
        reveal_strlit("true");
        reveal_strlit("false");
    }
    if matches_at_exec(s, &chars_of("true"), i) {
        Some((PropertyValue::Bool(true), i + 4))
    } else if matches_at_exec(s, &chars_of("false"), i) {
        Some((PropertyValue::Bool(false), i + 5))
    } else {
        None
    }
}

fn alt_ctor_exec(s: &Vec<char>, i: usize, k: usize) -> (r: Option<(PropertyValue, usize)>)
    requires
        i <= s.len(),
        k < 5,
    ensures
        match r {
            Some((v, e)) => (match k {
                0 => alt_vector3(s@, i as int),
                1 => alt_cframe(s@, i as int),
                2 => alt_color_rgb(s@, i as int),
                3 => alt_color_new(s@, i as int),
                _ => alt_udim2(s@, i as int),
            }) == Some((v@, e as int)) && i < e <= s.len(),
            None => (match k {
                0 => alt_vector3(s@, i as int),
                1 => alt_cframe(s@, i as int),
                2 => alt_color_rgb(s@, i as int),
                3 => alt_color_new(s@, i as int),
                _ => alt_udim2(s@, i as int),
            }) is None,
        },
{
    if k == 0 {
        match ctor_args_exec(s, i, "Vector3.new", 3) {
            Some((v, e)) => Some(
                (PropertyValue::Vector3(Vec3Wrapper { x: v[0], y: v[1], z: v[2] }), e),
            ),
            None => None,
        }
    } else if k == 1 {
        match ctor_args_exec(s, i, "CFrame.new", 3) {
            Some((v, e)) => Some((PropertyValue::CFrame(CFrameWrapper::new(v[0], v[1], v[2])), e)),
            None => None,
        }
    } else if k == 2 {
        match ctor_args_exec(s, i, "Color3.fromRGB", 3) {
            Some((v, e)) => Some(
                (PropertyValue::Color3(Color3Wrapper::from_rgb(v[0], v[1], v[2])), e),
            ),
            None => None,
        }
    } else if k == 3 {
        match ctor_args_exec(s, i, "Color3.new", 3) {
            Some((v, e)) => Some((PropertyValue::Color3(Color3Wrapper::new(v[0], v[1], v[2])), e)),
            None => None,
        }
    } else {
        match ctor_args_exec(s, i, "UDim2.new", 4) {
            Some((v, e)) => Some(
                (
                    PropertyValue::UDim2(
                        UDim2Wrapper {
                            xs: v[0],
                            xo: offset_exec(v[1]),
                            ys: v[2],
                            yo: offset_exec(v[3]),
                        },
                    ),
                    e,
                ),
            ),
            None => None,
        }
    }
}

fn alt_enum_exec(s: &Vec<char>, i: usize) -> (r: Option<(PropertyValue, usize)>)
    requires
        i <= s.len(),
    ensures
        match r {
            Some((v, e)) => alt_enum(s@, i as int) == Some((v@, e as int)) && i < e <= s.len(),
            None => alt_enum(s@, i as int) is None,
        },
{
    proof {
        reveal_strlit("Enum.");
    }
    if !matches_at_exec(s, &chars_of("Enum."), i) {
        return None;
    }
    match ident_end_exec(s, i + 5) {
        Some(e1) => if e1 < s.len() && s[e1] == '.' {
            match ident_end_exec(s, e1 + 1) {
                Some(e2) => Some((PropertyValue::Enum(string_from(&sub_chars(s, i, e2))), e2)),
                None => None,
            }
        } else {
            None
        },
        None => None,
    }
}

fn alt_string_exec(s: &Vec<char>, i: usize) -> (r: Option<(PropertyValue, usize)>)
    requires
        i <= s.len(),
    ensures
        match r {
            Some((v, e)) => alt_string(s@, i as int) == Some((v@, e as int)) && i < e <= s.len(),
            None => alt_string(s@, i as int) is None,
        },
{
    if i < s.len() && s[i] == '"' {
        match find_char_from(s, '"', i + 1) {
            Some(q) => Some((PropertyValue::String(string_from(&sub_chars(s, i + 1, q))), q + 1)),
            None => None,
        }
    } else {
        None
    }
}

/// Reads a value at position `i` of `s`.
pub fn parse_value_exec(s: &Vec<char>, i: usize) -> (r: Option<(PropertyValue, usize)>)
    requires
        i <= s.len(),
    ensures
        match r {
            Some((v, e)) => value_at(s@, i as int) == Some((v@, e as int)) && i < e <= s.len(),
            None => value_at(s@, i as int) is None,
        },
{
    if let Some(r) = alt_bool_exec(s, i) {
        return Some(r);
    }
    let mut k: usize = 0;
    while k < 5
        invariant
            i <= s.len(),
            k <= 5,
            alt_bool(s@, i as int) is None,
            k > 0 ==> alt_vector3(s@, i as int) is None,
            k > 1 ==> alt_cframe(s@, i as int) is None,
            k > 2 ==> alt_color_rgb(s@, i as int) is None,
            k > 3 ==> alt_color_new(s@, i as int) is None,
            k > 4 ==> alt_udim2(s@, i as int) is None,
        decreases 5 - k,
    {
        if let Some(r) = alt_ctor_exec(s, i, k) {
            return Some(r);
        }
        k = k + 1;
    }
    if let Some(r) = alt_enum_exec(s, i) {
        return Some(r);
    }
    if let Some((v, e)) = parse_number_exec(s, i) {
        return Some((PropertyValue::Number(v), e));
    }
    if let Some(r) = alt_string_exec(s, i) {
        return Some(r);
    }
    match ident_end_exec(s, i) {
        Some(e) => Some((PropertyValue::String(string_from(&sub_chars(s, i, e))), e)),
        None => None,
    }
}

/// Reads `name = value` at position `i` of `s`.
pub fn parse_assignment_exec(s: &Vec<char>, i: usize) -> (r: Option<(String, PropertyValue, usize)>)
    requires
        i <= s.len(),
    ensures
        match r {
            Some((k, v, e)) => assignment_at(s@, i as int) == Some((k@, v@, e as int)) && i < e
                <= s.len(),
            None => assignment_at(s@, i as int) is None,
        },
{
    let a = ws_end_exec(s, i);
    match ident_end_exec(s, a) {
        None => None,
        Some(b) => {
            let c = ws_end_exec(s, b);
            if c < s.len() && s[c] == '=' {
                match parse_value_exec(s, ws_end_exec(s, c + 1)) {
                    Some((v, e)) => Some((string_from(&sub_chars(s, a, b)), v, ws_end_exec(s, e))),
                    None => None,
                }
            } else {
                None
            }
        },
    }
}

/// Parses the text of an instance file into its properties. Reading stops
/// at the first assignment that does not parse; the text from there on
/// (white space before it skipped) is returned beside the properties read
/// before it, so it is empty exactly when the whole file parsed.
pub fn parse_instance_dsl(input: &str) -> (r: (String, PropertyMap))
    ensures
        r.1@ == dsl_properties(input@),
        r.1.wf(),
        r.0@ == input@.subrange(ws_end(input@, assignments_from(input@, 0).1), input@.len() as int),
{
    let s = chars_of(input);
    let mut map = PropertyMap::new();
    let ghost pairs: PropsView = Seq::empty();
    let mut pos: usize = 0;
    assert(pairs + assignments_from(s@, 0).0 =~= assignments_from(s@, 0).0);
    loop
        invariant
            s@ == input@,
            pos <= s.len(),
            map.wf(),
            map@ == prop_insert_all(Seq::empty(), pairs),
            assignments_from(s@, 0).0 == pairs + assignments_from(s@, pos as int).0,
            assignments_from(s@, 0).1 == assignments_from(s@, pos as int).1,
        ensures
            pos <= s.len(),
            map.wf(),
            map@ == prop_insert_all(Seq::empty(), pairs),
            assignments_from(s@, 0).0 == pairs,
            assignments_from(s@, 0).1 == pos,
        decreases s.len() - pos,
    {
        match parse_assignment_exec(&s, pos) {
            Some((k, v, e)) => {
                proof {
                    let rest = assignments_from(s@, e as int);
                    assert(assignments_from(s@, pos as int).0 == seq![(k@, v@)] + rest.0);
                    assert(pairs + (seq![(k@, v@)] + rest.0) =~= pairs.push((k@, v@)) + rest.0);
                    assert(pairs.push((k@, v@)).drop_last() =~= pairs);
                    pairs = pairs.push((k@, v@));
                }
                map.insert(k, v);
                pos = e;
            },
            None => {
                assert(pairs + assignments_from(s@, pos as int).0 =~= pairs);
                assert(s@ == input@);
                break ;
            },
        }
    }
    assert(s@ == input@);
    let end = ws_end_exec(&s, pos);
    (string_from(&sub_chars(&s, end, s.len())), map)
}


/// Reads a `Vector3.new(x, y, z)` at the start of `input`; gives the text
/// after it and the value.
pub fn parse_vector3(input: &str) -> (r: Option<(String, PropertyValue)>)
    ensures
        match r {
            Some((rest, v)) => alt_vector3(input@, 0) matches Some((w, e)) && v@ == w
                && rest@ == input@.subrange(e, input@.len() as int),
            None => alt_vector3(input@, 0) is None,
        },
{
    let s = chars_of(input);
    match alt_ctor_exec(&s, 0, 0) {
        Some((v, e)) => Some((string_from(&sub_chars(&s, e, s.len())), v)),
        None => None,
    }
}

/// Reads one `name = value` at the start of `input`; gives the text after
/// it, the name and the value.
pub fn parse_assignment(input: &str) -> (r: Option<(String, (String, PropertyValue))>)
    ensures
        match r {
            Some((rest, (k, v))) => assignment_at(input@, 0) matches Some((n, w, e)) && k@ == n
                && v@ == w && rest@ == input@.subrange(e, input@.len() as int),
            None => assignment_at(input@, 0) is None,
        },
{
    let s = chars_of(input);
    match parse_assignment_exec(&s, 0) {
        Some((k, v, e)) => Some((string_from(&sub_chars(&s, e, s.len())), (k, v))),
        None => None,
    }
}

} // verus!
