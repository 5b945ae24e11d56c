//! Reading the script analyzer's textual output into diagnostics.

use vstd::prelude::*;
use crate::text::{
    chars_of, contains, find_char, find_char_from, find_sub, find_sub_from, parse_usize_chars,
    parse_usize_spec, string_from, sub_chars, trim, trim_by, trim_chars, TrimSet,
};

verus! {

/// One finding of the script analyzer.
#[derive(Debug)]
pub struct Diagnostic {
    pub file: String,
    pub line: usize,
    pub message: String,
    /// `"error"` or `"warning"`.
    pub severity: String,
    /// A classification such as `UnknownProperty`.
    pub code: Option<String>,
    /// A suggestion such as `Did you mean Size`.
    pub hint: Option<String>,
}

/// All findings of one analysis run.
#[derive(Debug)]
pub struct DiagnosticsReport {
    pub errors: Vec<Diagnostic>,
    pub schema_version: String,
}

pub open spec fn opt_view(o: Option<String>) -> Option<Seq<char>> {
    match o {
        Some(s) => Some(s@),
        None => None,
    }
}

/// The schema version that every report carries.
pub fn default_schema_version() -> (r: String)
    ensures
        r@ == "1.0"@,
{
    String::from_str("1.0")
}

impl DiagnosticsReport {
    /// A report with no findings.
    pub fn empty() -> (r: DiagnosticsReport)
        ensures
            r.errors@.len() == 0,
            r.schema_version@ == "1.0"@,
    {
        DiagnosticsReport { errors: Vec::new(), schema_version: default_schema_version() }
    }
}

/// The line number and message of an analyzer output line of the shape
/// `<file>:<line>:<col>:<message>` or `<file>:<line>:<message>`; `None` for
/// any other line.
pub open spec fn luau_line_fields(l: Seq<char>) -> Option<(usize, Seq<char>)> {
    match find_char(l, ':', 0) {
        None => None,
        Some(p1) => match find_char(l, ':', p1 + 1) {
            None => None,
            Some(p2) => {
                let p3 = find_char(l, ':', p2 + 1);
                let third_end = match p3 {
                    Some(k) => k,
                    None => l.len() as int,
                };
                match parse_usize_spec(trim(l.subrange(p1 + 1, p2))) {
                    None => None,
                    Some(n) => if parse_usize_spec(trim(l.subrange(p2 + 1, third_end))) is Some {
                        match p3 {
                            Some(k) => Some((n, trim(l.subrange(k + 1, l.len() as int)))),
                            None => None,
                        }
                    } else {
                        Some((n, trim(l.subrange(p2 + 1, l.len() as int))))
                    },
                }
            },
        },
    }
}

/// The classification that a message gets.
pub open spec fn code_for(m: Seq<char>) -> Option<Seq<char>> {
    if contains(m, "not found in class"@) {
        Some("UnknownProperty"@)
    } else if contains(m, "Type mismatch"@) {
        Some("TypeMismatch"@)
    } else {
        None
    }
}

/// The hint that a message carries: from `Did you mean` to its end, without
/// quotes and punctuation at either end.
pub open spec fn hint_for(m: Seq<char>) -> Option<Seq<char>> {
    match find_sub(m, "Did you mean"@, 0) {
        Some(i) => Some(trim_by(m.subrange(i, m.len() as int), TrimSet::HintPunct)),
        None => None,
    }
}

/// Reads one line of analyzer output as a diagnostic of `filepath`.
pub fn parse_luau_line(line: &str, filepath: &str) -> (r: Option<Diagnostic>)
    ensures
        r is Some <==> luau_line_fields(line@) is Some,
        r matches Some(d) ==> {
            let (n, m) = luau_line_fields(line@)->0;
            &&& d.file@ == filepath@
            &&& d.line == n
            &&& d.message@ == m
            &&& d.severity@ == "error"@
            &&& opt_view(d.code) == code_for(m)
            &&& opt_view(d.hint) == hint_for(m)
        },
{
    let l = chars_of(line);
    let p1 = match find_char_from(&l, ':', 0) {
        Some(k) => k,
        None => return None,
    };
    let p2 = match find_char_from(&l, ':', p1 + 1) {
        Some(k) => k,
        None => return None,
    };
    let p3 = find_char_from(&l, ':', p2 + 1);
    let third_end = match p3 {
        Some(k) => k,
        None => l.len(),
    };
    let n = match parse_usize_chars(&trim_chars(&sub_chars(&l, p1 + 1, p2), TrimSet::Whitespace)) {
        Some(n) => n,
        None => return None,
    };
    let column = parse_usize_chars(
        &trim_chars(&sub_chars(&l, p2 + 1, third_end), TrimSet::Whitespace),
    );
    let start = if column.is_some() {
        match p3 {
            Some(k) => k + 1,
            None => return None,
        }
    } else {
        p2 + 1
    };
    let m = trim_chars(&sub_chars(&l, start, l.len()), TrimSet::Whitespace);
    let code = if find_sub_from(&m, &chars_of("not found in class"), 0).is_some() {
        Some(String::from_str("UnknownProperty"))
    } else if find_sub_from(&m, &chars_of("Type mismatch"), 0).is_some() {
        Some(String::from_str("TypeMismatch"))
    } else {
        None
    };
    let hint = match find_sub_from(&m, &chars_of("Did you mean"), 0) {
        Some(i) => Some(string_from(&trim_chars(&sub_chars(&m, i, m.len()), TrimSet::HintPunct))),
        None => None,
    };
    Some(
        Diagnostic {
            file: String::from_str(filepath),
            line: n,
            message: string_from(&m),
            severity: String::from_str("error"),
            code,
            hint,
        },
    )
}


/// A line without one carriage return at its end.
pub open spec fn strip_cr(l: Seq<char>) -> Seq<char> {
    if l.len() > 0 && l.last() == '\r' {
        l.drop_last()
    } else {
        l
    }
}

/// The lines of a text, as `str::lines` splits it: at each line feed, a
/// carriage return right before the feed dropped, no empty line after a
/// final feed; a carriage return at the very end, with no feed after it,
/// stays.
pub open spec fn lines_of(s: Seq<char>) -> Seq<Seq<char>>
    decreases s.len(),
{
    if s.len() == 0 {
        Seq::empty()
    } else {
        match find_char(s, '\n', 0) {
            Some(i) => if 0 <= i < s.len() {
                seq![strip_cr(s.subrange(0, i))] + lines_of(s.subrange(i + 1, s.len() as int))
            } else {
                Seq::empty()
            },
            None => seq![s],
        }
    }
}

/// A diagnostic as the contracts see it: file, line, message, severity,
/// code and hint.
pub type DiagView = (Seq<char>, usize, Seq<char>, Seq<char>, Option<Seq<char>>, Option<Seq<char>>);

pub open spec fn diag_view(d: Diagnostic) -> DiagView {
    (d.file@, d.line, d.message@, d.severity@, opt_view(d.code), opt_view(d.hint))
}

/// The diagnostics that the lines `ls` of the analyzer's output on file `f`
/// give, in order; lines of other shapes give none.
pub open spec fn diags_of(ls: Seq<Seq<char>>, f: Seq<char>) -> Seq<DiagView>
    decreases ls.len(),
{
    if ls.len() == 0 {
        Seq::empty()
    } else {
        diags_of(ls.drop_last(), f) + match luau_line_fields(ls.last()) {
            Some((n, m)) => seq![(f, n, m, "error"@, code_for(m), hint_for(m))],
            None => Seq::empty(),
        }
    }
}

fn lines_exec(s: &Vec<char>) -> (r: Vec<String>)
    ensures
        r@.map_values(|l: String| l@) == lines_of(s@),
{
    let mut out: Vec<String> = Vec::new();
    let mut pos: usize = 0;
    assert(s@.subrange(0, s@.len() as int) =~= s@);
    while pos < s.len()
        invariant
            pos <= s.len(),
            lines_of(s@) == out@.map_values(|l: String| l@) + lines_of(
                s@.subrange(pos as int, s@.len() as int),
            ),
        decreases s.len() - pos,
    {
        let ghost rest = s@.subrange(pos as int, s@.len() as int);
        let ghost before = out@.map_values(|l: String| l@);
        let (end, next, found) = match find_char_from(s, '\n', pos) {
            Some(i) => (i, i + 1, true),
            None => (s.len(), s.len(), false),
        };
        proof {
            lemma_find_char_shift(s@, '\n', pos as int);
        }
        let mut l = sub_chars(s, pos, end);
        if found && l.len() > 0 && l[l.len() - 1] == '\r' {
            l.pop();
        }
        out.push(string_from(&l));
        assert(rest.subrange(0, end - pos) =~= s@.subrange(pos as int, end as int));
        assert(rest.subrange(next - pos, rest.len() as int) =~= s@.subrange(
            next as int,
            s@.len() as int,
        ));
        assert(out@.map_values(|l: String| l@) =~= before.push(
            if found {
                strip_cr(s@.subrange(pos as int, end as int))
            } else {
                s@.subrange(pos as int, end as int)
            },
        ));
        pos = next;
    }
    assert(lines_of(s@.subrange(pos as int, s@.len() as int)) =~= Seq::<Seq<char>>::empty());
    assert(out@.map_values(|l: String| l@) =~= lines_of(s@));
    out
}

proof fn lemma_find_char_shift(s: Seq<char>, c: char, p: int)
    requires
        0 <= p <= s.len(),
    ensures
        match find_char(s, c, p) {
            Some(i) => find_char(s.subrange(p, s.len() as int), c, 0) == Some(i - p),
            None => find_char(s.subrange(p, s.len() as int), c, 0) is None,
        },
    decreases s.len() - p,
{
    let t = s.subrange(p, s.len() as int);
    if p < s.len() && s[p] != c {
        lemma_find_char_shift(s, c, p + 1);
        lemma_find_char_from_shift(t, c, 1);
        assert(t.subrange(1, t.len() as int) =~= s.subrange(p + 1, s.len() as int));
    }
}

proof fn lemma_find_char_from_shift(t: Seq<char>, c: char, q: int)
    requires
        0 <= q <= t.len(),
        forall|j: int| 0 <= j < q ==> t[j] != c,
    ensures
        match find_char(t, c, q) {
            Some(i) => find_char(t.subrange(q, t.len() as int), c, 0) == Some(i - q),
            None => find_char(t.subrange(q, t.len() as int), c, 0) is None,
        },
        find_char(t, c, 0) == find_char(t, c, q),
    decreases q,
{
    if q > 0 {
        lemma_find_char_from_shift(t, c, q - 1);
        assert(t.subrange(q - 1, t.len() as int).subrange(1, t.len() - q + 1) =~= t.subrange(
            q,
            t.len() as int,
        ));
        lemma_find_char_skip1(t.subrange(q - 1, t.len() as int), c);
    } else {
        assert(t.subrange(0, t.len() as int) =~= t);
    }
}

proof fn lemma_find_char_skip1(u: Seq<char>, c: char)
    requires
        u.len() > 0,
        u[0] != c,
    ensures
        match find_char(u, c, 1) {
            Some(i) => find_char(u.subrange(1, u.len() as int), c, 0) == Some(i - 1),
            None => find_char(u.subrange(1, u.len() as int), c, 0) is None,
        },
{
    lemma_find_char_offset(u, c, 1, 1);
}

proof fn lemma_find_char_offset(u: Seq<char>, c: char, d: int, i: int)
    requires
        0 <= d <= i <= u.len(),
    ensures
        match find_char(u, c, i) {
            Some(k) => find_char(u.subrange(d, u.len() as int), c, i - d) == Some(k - d),
            None => find_char(u.subrange(d, u.len() as int), c, i - d) is None,
        },
    decreases u.len() - i,
{
    if i < u.len() && u[i] != c {
        lemma_find_char_offset(u, c, d, i + 1);
    }
}

/// The diagnostics in the combined output of one analyzer run on file
/// `filepath`, one for each line of the recognized shape.
pub fn diagnostics_from_output(output: &str, filepath: &str) -> (r: Vec<Diagnostic>)
    ensures
        r@.map_values(|d: Diagnostic| diag_view(d)) == diags_of(lines_of(output@), filepath@),
{
    let s = chars_of(output);
    let ls = lines_exec(&s);
    let ghost lv = ls@.map_values(|l: String| l@);
    let mut out: Vec<Diagnostic> = Vec::new();
    let mut i: usize = 0;
    while i < ls.len()
        invariant
            i <= ls.len(),
            lv == ls@.map_values(|l: String| l@),
            out@.map_values(|d: Diagnostic| diag_view(d)) == diags_of(
                lv.subrange(0, i as int),
                filepath@,
            ),
        decreases ls.len() - i,
    {
        let ghost before = out@.map_values(|d: Diagnostic| diag_view(d));
        assert(lv.subrange(0, i + 1).drop_last() =~= lv.subrange(0, i as int));
        match parse_luau_line(ls[i].as_str(), filepath) {
            Some(d) => {
                out.push(d);
            },
            None => {},
        }
        assert(out@.map_values(|d: Diagnostic| diag_view(d)) =~= diags_of(
            lv.subrange(0, i + 1),
            filepath@,
        ));
        i = i + 1;
    }
    assert(lv.subrange(0, i as int) =~= lv);
    out
}

} // verus!
