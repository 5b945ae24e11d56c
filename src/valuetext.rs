//! The canonical text of a property value, as the diff records it.

use vstd::prelude::*;
use crate::datamodel::{PropView, PropertyValue};
use crate::text::chars_of;

verus! {

pub open spec fn digit_char(d: int) -> char {
    if d == 0 {
        '0'
    } else if d == 1 {
        '1'
    } else if d == 2 {
        '2'
    } else if d == 3 {
        '3'
    } else if d == 4 {
        '4'
    } else if d == 5 {
        '5'
    } else if d == 6 {
        '6'
    } else if d == 7 {
        '7'
    } else if d == 8 {
        '8'
    } else {
        '9'
    }
}

/// The decimal digits of `n`.
pub open spec fn nat_text(n: nat) -> Seq<char>
    decreases n,
{
    if n < 10 {
        seq![digit_char(n as int)]
    } else {
        nat_text(n / 10).push(digit_char((n % 10) as int))
    }
}

/// The last `k` decimal digits of `f`, zero-padded.
pub open spec fn padded_digits(f: nat, k: nat) -> Seq<char>
    decreases k,
{
    if k == 0 {
        Seq::empty()
    } else {
        padded_digits(f / 10, (k - 1) as nat).push(digit_char((f % 10) as int))
    }
}

/// `s` without zeros at its end.
pub open spec fn strip_zeros(s: Seq<char>) -> Seq<char>
    decreases s.len(),
{
    if s.len() > 0 && s.last() == '0' {
        strip_zeros(s.drop_last())
    } else {
        s
    }
}

pub open spec fn abs_nat(v: int) -> nat {
    if v < 0 {
        (-v) as nat
    } else {
        v as nat
    }
}

/// A whole number in decimal.
pub open spec fn int_text(v: int) -> Seq<char> {
    (if v < 0 {
        "-"@
    } else {
        ""@
    }) + nat_text(abs_nat(v))
}

/// A number of millionths in decimal, without trailing zeros after the
/// point and without a point where there is no fraction.
pub open spec fn number_text(v: int) -> Seq<char> {
    let a = abs_nat(v);
    let f = a % 1_000_000;
    (if v < 0 {
        "-"@
    } else {
        ""@
    }) + nat_text(a / 1_000_000) + (if f == 0 {
        ""@
    } else {
        "."@ + strip_zeros(padded_digits(f, 6))
    })
}

/// Numbers of millionths, separated by `", "`.
pub open spec fn numbers_text(vs: Seq<i64>) -> Seq<char>
    decreases vs.len(),
{
    if vs.len() == 0 {
        Seq::empty()
    } else if vs.len() == 1 {
        number_text(vs[0] as int)
    } else {
        numbers_text(vs.drop_last()) + ", "@ + number_text(vs.last() as int)
    }
}

/// The canonical text of a value that a diff records. It follows the
/// property language's notation, but is not always readable by it: a
/// `CFrame` is written with all twelve components, and a color as
/// `Color3.new` with its normalized channels.
pub open spec fn value_text(v: PropView) -> Seq<char> {
    match v {
        PropView::String(s) => "\""@ + s + "\""@,
        PropView::Bool(b) => if b {
            "true"@
        } else {
            "false"@
        },
        PropView::Number(n) => number_text(n as int),
        PropView::Vector3(p) => "Vector3.new("@ + numbers_text(seq![p.x, p.y, p.z]) + ")"@,
        PropView::CFrame(_, c) => "CFrame.new("@ + numbers_text(c) + ")"@,
        PropView::Color3(c) => "Color3.new("@ + numbers_text(seq![c.r, c.g, c.b]) + ")"@,
        PropView::UDim2(u) => "UDim2.new("@ + number_text(u.xs as int) + ", "@ + int_text(
            u.xo as int,
        ) + ", "@ + number_text(u.ys as int) + ", "@ + int_text(u.yo as int) + ")"@,
        PropView::Enum(s) => s,
    }
}

fn digit_exec(d: u64) -> (c: char)
    requires
        d < 10,
    ensures
        c == digit_char(d as int),
{
    if d == 0 {
        '0'
    } else if d == 1 {
        '1'
    } else if d == 2 {
        '2'
    } else if d == 3 {
        '3'
    } else if d == 4 {
        '4'
    } else if d == 5 {
        '5'
    } else if d == 6 {
        '6'
    } else if d == 7 {
        '7'
    } else if d == 8 {
        '8'
    } else {
        '9'
    }
}

/// Appends the characters of `s` to `v`.
pub fn push_str(v: &mut Vec<char>, s: &str)
    ensures
        final(v)@ == old(v)@ + s@,
{
    let w = chars_of(s);
    let mut i: usize = 0;
    while i < w.len()
        invariant
            i <= w.len(),
            v@ == old(v)@ + w@.subrange(0, i as int),
        decreases w.len() - i,
    {
        v.push(w[i]);
        assert(w@.subrange(0, i + 1) =~= w@.subrange(0, i as int).push(w@[i as int]));
        i = i + 1;
    }
    assert(w@.subrange(0, i as int) =~= w@);
}

fn push_nat(v: &mut Vec<char>, n: u64)
    ensures
        final(v)@ == old(v)@ + nat_text(n as nat),
    decreases n,
{
    if n < 10 {
        v.push(digit_exec(n));
        assert(final(v)@ =~= old(v)@ + nat_text(n as nat));
    } else {
        push_nat(v, n / 10);
        v.push(digit_exec(n % 10));
        assert(final(v)@ =~= old(v)@ + nat_text(n as nat));
    }
}

fn padded_exec(f: u64, k: u64) -> (r: Vec<char>)
    ensures
        r@ == padded_digits(f as nat, k as nat),
    decreases k,
{
    if k == 0 {
        Vec::new()
    } else {
        let mut r = padded_exec(f / 10, k - 1);
        r.push(digit_exec(f % 10));
        r
    }
}

fn strip_zeros_exec(v: &mut Vec<char>)
    ensures
        final(v)@ == strip_zeros(old(v)@),
{
    while v.len() > 0 && v[v.len() - 1] == '0'
        invariant
            strip_zeros(v@) == strip_zeros(old(v)@),
        decreases v.len(),
    {
        v.pop();
    }
}

fn abs_u64(v: i64) -> (r: u64)
    ensures
        r == abs_nat(v as int),
{
    if v < 0 {
        (-(v as i128)) as u64
    } else {
        v as u64
    }
}

fn push_int(v: &mut Vec<char>, n: i64)
    ensures
        final(v)@ == old(v)@ + int_text(n as int),
{
    let ghost v0 = v@;
    if n < 0 {
        push_str(v, "-");
    } else {
        push_str(v, "");
    }
    push_nat(v, abs_u64(n));
    assert(v@ =~= v0 + int_text(n as int));
}

fn push_number(v: &mut Vec<char>, n: i64)
    ensures
        final(v)@ == old(v)@ + number_text(n as int),
{
    let ghost v0 = v@;
    let a = abs_u64(n);
    let f = a % 1_000_000;
    if n < 0 {
        push_str(v, "-");
    } else {
        push_str(v, "");
    }
    push_nat(v, a / 1_000_000);
    let ghost v1 = v@;
    if f == 0 {
        push_str(v, "");
    } else {
        push_str(v, ".");
        let mut d = padded_exec(f, 6);
        strip_zeros_exec(&mut d);
        let ghost v2 = v@;
        let mut t: usize = 0;
        while t < d.len()
            invariant
                t <= d.len(),
                v@ == v2 + d@.subrange(0, t as int),
            decreases d.len() - t,
        {
            v.push(d[t]);
            assert(d@.subrange(0, t + 1) =~= d@.subrange(0, t as int).push(d@[t as int]));
            t = t + 1;
        }
        assert(d@.subrange(0, t as int) =~= d@);
    }
    assert(v@ =~= v0 + number_text(n as int));
}

fn push_numbers(v: &mut Vec<char>, vs: &[i64], n: usize)
    requires
        n <= vs@.len(),
    ensures
        final(v)@ == old(v)@ + numbers_text(vs@.subrange(0, n as int)),
    decreases n,
{
    let ghost s = vs@.subrange(0, n as int);
    if n == 0 {
        assert(final(v)@ =~= old(v)@ + numbers_text(s));
    } else if n == 1 {
        push_number(v, vs[0]);
    } else {
        push_numbers(v, vs, n - 1);
        push_str(v, ", ");
        push_number(v, vs[n - 1]);
        assert(s.drop_last() =~= vs@.subrange(0, n - 1));
        assert(final(v)@ =~= old(v)@ + numbers_text(s));
    }
}

/// The canonical text of a value.
pub fn value_text_exec(p: &PropertyValue) -> (r: Vec<char>)
    ensures
        r@ == value_text(p@),
{
    let mut v: Vec<char> = Vec::new();
    match p {
        PropertyValue::String(s) => {
            push_str(&mut v, "\"");
            push_str(&mut v, s.as_str());
            push_str(&mut v, "\"");
        },
        PropertyValue::Bool(b) => {
            if *b {
                push_str(&mut v, "true");
            } else {
                push_str(&mut v, "false");
            }
        },
        PropertyValue::Number(n) => {
            push_number(&mut v, *n);
        },
        PropertyValue::Vector3(q) => {
            let a = [q.x, q.y, q.z];
            push_str(&mut v, "Vector3.new(");
            push_numbers(&mut v, &a, 3);
            push_str(&mut v, ")");
            assert(a@.subrange(0, 3) =~= seq![q.x, q.y, q.z]);
        },
        PropertyValue::CFrame(c) => {
            push_str(&mut v, "CFrame.new(");
            push_numbers(&mut v, &c.components, 12);
            push_str(&mut v, ")");
            assert(c.components@.subrange(0, 12) =~= c.components@);
        },
        PropertyValue::Color3(c) => {
            let a = [c.r, c.g, c.b];
            push_str(&mut v, "Color3.new(");
            push_numbers(&mut v, &a, 3);
            push_str(&mut v, ")");
            assert(a@.subrange(0, 3) =~= seq![c.r, c.g, c.b]);
        },
        PropertyValue::UDim2(u) => {
            push_str(&mut v, "UDim2.new(");
            push_number(&mut v, u.xs);
            push_str(&mut v, ", ");
            push_int(&mut v, u.xo as i64);
            push_str(&mut v, ", ");
            push_number(&mut v, u.ys);
            push_str(&mut v, ", ");
            push_int(&mut v, u.yo as i64);
            push_str(&mut v, ")");
        },
        PropertyValue::Enum(s) => {
            push_str(&mut v, s.as_str());
        },
    }
    assert(v@ =~= value_text(p@));
    v
}

} // verus!
