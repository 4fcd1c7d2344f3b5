use vstd::prelude::*;

use crate::cargo::{
    all_lines, compile_view, of_type, parse_blocks, parse_text, render_all, scan_blocks, scan_text,
    strip_cr, text_lines, CompileView,
};
use crate::rust::{
    arrow, arrow_space, code_text, colon_space, details_text, header_text, is_code,
    is_location_line, location_text, number_text, parse_block, parse_header, parse_location,
    render, starts_block, type_prefix, type_word, word_error, word_warning, DiagnosticView, Type,
};
use crate::text::{
    decimal, digit_run, digits_value, has_at, is_digit, lemma_decimal, path_run, space_run,
};

verus! {

pub open spec fn no_char(s: Seq<char>, c: char) -> bool {
    forall|i: int| 0 <= i < s.len() ==> s[i] != c
}

/// One line that the scanner gives back as written: no newline, and no
/// carriage return at its end.
pub open spec fn line_text(s: Seq<char>) -> bool {
    no_char(s, '\n') && (s.len() == 0 || s.last() != '\r')
}

/// No carriage return stands right before a newline.
pub open spec fn no_cr_before_newline(s: Seq<char>) -> bool {
    forall|i: int| 0 <= i < s.len() - 1 && #[trigger] s[i + 1] == '\n' ==> s[i] != '\r'
}

/// Details that read back as written: not empty, no empty line (no newline
/// at either end, no two newlines in a row), and no line ending in a
/// carriage return.
pub open spec fn details_ok(t: Seq<char>) -> bool {
    &&& t.len() > 0
    &&& t[0] != '\n'
    &&& t.last() != '\n'
    &&& t.last() != '\r'
    &&& no_cr_before_newline(t)
    &&& forall|i: int| 0 <= i < t.len() - 1 && #[trigger] t[i] == '\n' ==> t[i + 1] != '\n'
}

/// A diagnostic that its text form describes exactly: the message is one
/// line, not ending in a carriage return; a code is `E` and digits; a location
/// has a file name (no newline, no `:`) with both line and column, and there is no line or column without a
/// file; details have no empty line, and where there is no location they do
/// not begin like a location line.
pub open spec fn well_formed(d: DiagnosticView) -> bool {
    &&& line_text(d.message)
    &&& (d.code matches Some(c) ==> is_code(c))
    &&& match d.file {
        Some(f) => f.len() > 0 && no_char(f, '\n') && no_char(f, ':') && d.line is Some
            && d.column is Some,
        None => d.line is None && d.column is None,
    }
    &&& (d.details matches Some(t) ==> details_ok(t) && (d.file is None ==> !is_location_line(t)))
}

/// Each line followed by a newline.
pub open spec fn flatten(ls: Seq<Seq<char>>) -> Seq<char>
    decreases ls.len(),
{
    if ls.len() == 0 {
        Seq::empty()
    } else {
        flatten(ls.drop_last()) + ls.last() + seq!['\n']
    }
}

proof fn lemma_digit_run_is(s: Seq<char>, i: int, k: int)
    requires
        0 <= i,
        0 <= k,
        i + k <= s.len(),
        forall|j: int| i <= j < i + k ==> is_digit(#[trigger] s[j]),
        i + k == s.len() || !is_digit(s[i + k]),
    ensures
        digit_run(s, i) == k,
    decreases k,
{
    if k > 0 {
        lemma_digit_run_is(s, i + 1, k - 1);
    }
}

proof fn lemma_space_run_is(s: Seq<char>, i: int, k: int)
    requires
        0 <= i,
        0 <= k,
        i + k <= s.len(),
        forall|j: int| i <= j < i + k ==> #[trigger] s[j] == ' ',
        i + k == s.len() || s[i + k] != ' ',
    ensures
        space_run(s, i) == k,
    decreases k,
{
    if k > 0 {
        lemma_space_run_is(s, i + 1, k - 1);
    }
}

proof fn lemma_space_run_facts(s: Seq<char>, i: int)
    requires
        0 <= i <= s.len(),
    ensures
        i + space_run(s, i) <= s.len(),
        forall|j: int| i <= j < i + space_run(s, i) ==> #[trigger] s[j] == ' ',
        i + space_run(s, i) == s.len() || s[i + space_run(s, i)] != ' ',
    decreases s.len() - i,
{
    if i < s.len() && s[i] == ' ' {
        lemma_space_run_facts(s, i + 1);
    }
}

proof fn lemma_path_run_is(s: Seq<char>, i: int, k: int)
    requires
        0 <= i,
        0 <= k,
        i + k <= s.len(),
        forall|j: int| i <= j < i + k ==> #[trigger] s[j] != ':',
        i + k == s.len() || s[i + k] == ':',
    ensures
        path_run(s, i) == k,
    decreases k,
{
    if k > 0 {
        lemma_path_run_is(s, i + 1, k - 1);
    }
}

/// A line that begins like a location line makes any text it begins do so too.
proof fn lemma_location_prefix(p: Seq<char>, t: Seq<char>)
    requires
        p.len() <= t.len(),
        t.subrange(0, p.len() as int) == p,
        is_location_line(p),
    ensures
        is_location_line(t),
{
    lemma_space_run_facts(p, 0);
    let sp = space_run(p, 0) as int;
    assert forall|j: int| 0 <= j < sp implies #[trigger] t[j] == ' ' by {
        assert(t.subrange(0, p.len() as int)[j] == p[j]);
    }
    assert(p.subrange(sp, sp + 3)[0] == '-');
    assert(t.subrange(0, p.len() as int)[sp] == p[sp]);
    lemma_space_run_is(t, 0, sp);
    assert(t.subrange(sp, sp + 3) =~= p.subrange(sp, sp + 3)) by {
        assert forall|j: int| 0 <= j < 3 implies #[trigger] t.subrange(sp, sp + 3)[j] == p.subrange(
            sp,
            sp + 3,
        )[j] by {
            assert(t.subrange(0, p.len() as int)[sp + j] == p[sp + j]);
        }
    }
}

/// No empty line: the text does not begin with a newline and has no two
/// newlines in a row.
pub open spec fn no_empty_line(s: Seq<char>) -> bool {
    s.len() == 0 || (s[0] != '\n' && forall|i: int|
        0 <= i < s.len() - 1 && #[trigger] s[i] == '\n' ==> s[i + 1] != '\n')
}

/// Scanning a text without carriage returns splits it exactly: the ended
/// lines, each followed by its newline, then the unfinished line, give the text back.
proof fn lemma_scan_structure(s: Seq<char>)
    requires
        no_cr_before_newline(s),
    ensures
        flatten(scan_text(s).0) + scan_text(s).1 == s,
        scan_text(s).1.len() == 0 ==> s.len() == 0 || s.last() == '\n',
        no_empty_line(s) ==> forall|i: int|
            0 <= i < scan_text(s).0.len() ==> (#[trigger] scan_text(s).0[i]).len() > 0,
    decreases s.len(),
{
    if s.len() > 0 {
        let s1 = s.drop_last();
        let c = s.last();
        assert(no_cr_before_newline(s1)) by {
            assert forall|i: int| 0 <= i < s1.len() - 1 && #[trigger] s1[i + 1] == '\n' implies s1[i]
                != '\r' by {
                assert(s[i + 1] == '\n');
            }
        }
        assert(no_empty_line(s) ==> no_empty_line(s1)) by {
            if no_empty_line(s) && s1.len() > 0 {
                assert forall|i: int| 0 <= i < s1.len() - 1 && #[trigger] s1[i] == '\n' implies s1[i
                    + 1] != '\n' by {
                    assert(s[i] == '\n');
                }
            }
        }
        lemma_scan_structure(s1);
        let (ls1, cur1) = scan_text(s1);
        if c == '\n' {
            if cur1.len() > 0 {
                assert((flatten(ls1) + cur1)[s1.len() - 1] == cur1.last());
                let j = s1.len() - 1;
                assert(s[j + 1] == '\n');
                assert(s[j] != '\r');
            }
            assert(strip_cr(cur1) == cur1);
            let ls = ls1.push(cur1);
            assert(ls.drop_last() =~= ls1);
            assert(flatten(ls) =~= flatten(ls1) + cur1 + seq!['\n']);
            assert(flatten(ls) + Seq::<char>::empty() =~= s);
            if no_empty_line(s) {
                if cur1.len() == 0 {
                    if s1.len() == 0 {
                        assert(s[0] == '\n');
                    } else {
                        assert(s[s1.len() - 1] == '\n');
                    }
                }
                assert forall|i: int| 0 <= i < ls.len() implies (#[trigger] ls[i]).len() > 0 by {
                    if i < ls1.len() {
                        assert(ls[i] == ls1[i]);
                    }
                }
            }
        } else {
            assert(s =~= s1.push(c));
            assert((flatten(ls1) + cur1).push(c) =~= flatten(ls1) + cur1.push(c));
        }
    }
}

/// A text without newlines is one unfinished line.
proof fn lemma_scan_one_line(s: Seq<char>)
    requires
        no_char(s, '\n'),
    ensures
        scan_text(s) == (Seq::<Seq<char>>::empty(), s),
    decreases s.len(),
{
    if s.len() > 0 {
        assert(no_char(s.drop_last(), '\n'));
        lemma_scan_one_line(s.drop_last());
        assert(s.drop_last().push(s.last()) =~= s);
    } else {
        assert(s =~= Seq::<char>::empty());
    }
}

/// A line and its newline scan to that one line.
proof fn lemma_line(l: Seq<char>)
    requires
        line_text(l),
    ensures
        scan_text(l + seq!['\n']) == (seq![l], Seq::<char>::empty()),
{
    lemma_scan_one_line(l);
    assert((l + seq!['\n']).drop_last() =~= l);
    assert(Seq::<Seq<char>>::empty().push(l) =~= seq![l]);
}

/// After a text that ends its last line, scanning goes on afresh.
proof fn lemma_scan_concat(a: Seq<char>, b: Seq<char>)
    requires
        scan_text(a).1.len() == 0,
    ensures
        text_lines(a + b) == text_lines(a) + text_lines(b),
        scan_text(a + b).1 == scan_text(b).1,
    decreases b.len(),
{
    if b.len() == 0 {
        assert(a + b =~= a);
        assert(text_lines(a) + text_lines(b) =~= text_lines(a));
        assert(scan_text(a).1 =~= scan_text(b).1);
    } else {
        lemma_scan_concat(a, b.drop_last());
        assert((a + b).drop_last() =~= a + b.drop_last());
        assert((a + b).last() == b.last());
        let (lb, cb) = scan_text(b.drop_last());
        if b.last() == '\n' {
            assert(text_lines(a) + lb.push(strip_cr(cb)) =~= (text_lines(a) + lb).push(
                strip_cr(cb),
            ));
        }
    }
}

/// The lines joined by newlines, with a final newline.
proof fn lemma_flatten_join(ls: Seq<Seq<char>>)
    requires
        ls.len() > 0,
    ensures
        flatten(ls) == crate::rust::join_lines(ls) + seq!['\n'],
    decreases ls.len(),
{
    if ls.len() == 1 {
        assert(ls.drop_last() =~= Seq::<Seq<char>>::empty());
        assert(flatten(ls.drop_last()) == Seq::<char>::empty());
        assert(flatten(ls) =~= ls[0] + seq!['\n']);
    } else {
        lemma_flatten_join(ls.drop_last());
        assert(flatten(ls) =~= crate::rust::join_lines(ls) + seq!['\n']);
    }
}

/// The first line begins the flattened text.
proof fn lemma_flatten_first(ls: Seq<Seq<char>>)
    requires
        ls.len() > 0,
    ensures
        ls[0].len() < flatten(ls).len(),
        flatten(ls).subrange(0, ls[0].len() as int) == ls[0],
    decreases ls.len(),
{
    if ls.len() == 1 {
        assert(ls.drop_last() =~= Seq::<Seq<char>>::empty());
        assert(flatten(ls.drop_last()) == Seq::<char>::empty());
        assert(flatten(ls) =~= ls[0] + seq!['\n']);
        assert(flatten(ls).subrange(0, ls[0].len() as int) =~= ls[0]);
    } else {
        lemma_flatten_first(ls.drop_last());
        let f1 = flatten(ls.drop_last());
        assert(flatten(ls).subrange(0, ls[0].len() as int) =~= f1.subrange(0, ls[0].len() as int));
    }
}

/// The lines of well-formed details: they join back to the details, none is
/// empty, and the first begins the details.
proof fn lemma_details_lines(t: Seq<char>)
    requires
        details_ok(t),
    ensures
        scan_text(t + seq!['\n']).1.len() == 0,
        text_lines(t + seq!['\n']).len() > 0,
        crate::rust::join_lines(text_lines(t + seq!['\n'])) == t,
        forall|i: int|
            0 <= i < text_lines(t + seq!['\n']).len() ==> (#[trigger] text_lines(
                t + seq!['\n'],
            )[i]).len() > 0,
        text_lines(t + seq!['\n'])[0].len() <= t.len(),
        t.subrange(0, text_lines(t + seq!['\n'])[0].len() as int) == text_lines(
            t + seq!['\n'],
        )[0],
{
    let s = t + seq!['\n'];
    assert(s.drop_last() =~= t);
    assert(no_cr_before_newline(s)) by {
        assert forall|i: int| 0 <= i < s.len() - 1 && #[trigger] s[i + 1] == '\n' implies s[i]
            != '\r' by {
            if i < t.len() - 1 {
                assert(t[i + 1] == '\n');
            }
        }
    }
    assert(no_empty_line(s)) by {
        assert forall|i: int| 0 <= i < s.len() - 1 && #[trigger] s[i] == '\n' implies s[i + 1]
            != '\n' by {
            if i < t.len() - 1 {
                assert(t[i] == '\n');
            }
        }
    }
    lemma_scan_structure(s);
    let ls = text_lines(s);
    assert(flatten(ls) =~= s);
    if ls.len() == 0 {
        assert(flatten(ls).len() == 0);
    }
    lemma_flatten_join(ls);
    assert(crate::rust::join_lines(ls) =~= (crate::rust::join_lines(ls) + seq!['\n']).drop_last());
    lemma_flatten_first(ls);
    assert(t.subrange(0, ls[0].len() as int) =~= s.subrange(0, ls[0].len() as int));
}

/// Once no block is open, scanning the following lines goes on afresh.
proof fn lemma_blocks_concat(a: Seq<Seq<char>>, b: Seq<Seq<char>>)
    requires
        scan_blocks(a).1 is None,
    ensures
        scan_blocks(a + b) == (scan_blocks(a).0 + scan_blocks(b).0, scan_blocks(b).1),
    decreases b.len(),
{
    if b.len() == 0 {
        assert(a + b =~= a);
        assert(scan_blocks(a).0 + scan_blocks(b).0 =~= scan_blocks(a).0);
    } else {
        lemma_blocks_concat(a, b.drop_last());
        assert((a + b).drop_last() =~= a + b.drop_last());
        assert((a + b).last() == b.last());
        let (bs, open) = scan_blocks(b.drop_last());
        if open is Some && b.last().len() == 0 {
            assert(scan_blocks(a).0 + bs.push(open->0) =~= (scan_blocks(a).0 + bs).push(open->0));
        }
    }
}

/// A block opened by its first line and continued by non-empty lines is
/// still open.
proof fn lemma_block_open(h: Seq<char>, mids: Seq<Seq<char>>)
    requires
        starts_block(h),
        forall|i: int| 0 <= i < mids.len() ==> (#[trigger] mids[i]).len() > 0,
    ensures
        scan_blocks(seq![h] + mids) == (Seq::<Seq<Seq<char>>>::empty(), Some(seq![h] + mids)),
    decreases mids.len(),
{
    if mids.len() == 0 {
        assert(seq![h] + mids =~= seq![h]);
        assert(seq![h].drop_last() =~= Seq::<Seq<char>>::empty());
        assert(seq![h].last() == h);
        assert(scan_blocks(Seq::<Seq<char>>::empty()) == (
            Seq::<Seq<Seq<char>>>::empty(),
            None::<Seq<Seq<char>>>,
        ));
        assert(scan_blocks(seq![h]) == (Seq::<Seq<Seq<char>>>::empty(), Some(seq![h])));
    } else {
        lemma_block_open(h, mids.drop_last());
        let x = seq![h] + mids;
        assert(x.drop_last() =~= seq![h] + mids.drop_last());
        assert(x.last() == mids.last());
        assert(mids.last().len() > 0);
        assert((seq![h] + mids.drop_last()).push(mids.last()) =~= x);
    }
}

/// An opened block followed by an empty line is one closed block.
proof fn lemma_one_block(h: Seq<char>, mids: Seq<Seq<char>>)
    requires
        starts_block(h),
        forall|i: int| 0 <= i < mids.len() ==> (#[trigger] mids[i]).len() > 0,
    ensures
        scan_blocks(seq![h] + mids + seq![Seq::<char>::empty()]) == (
        seq![seq![h] + mids],
        None::<Seq<Seq<char>>>,
        ),
{
    lemma_block_open(h, mids);
    let ls = seq![h] + mids + seq![Seq::<char>::empty()];
    assert(ls.drop_last() =~= seq![h] + mids);
    assert(Seq::<Seq<Seq<char>>>::empty().push(seq![h] + mids) =~= seq![seq![h] + mids]);
}

pub open spec fn header_line(d: DiagnosticView) -> Seq<char> {
    type_word(d.kind) + code_text(d.code) + colon_space() + d.message
}

pub open spec fn location_line(f: Seq<char>, line: u32, column: u32) -> Seq<char> {
    seq![' ', ' '] + arrow_space() + f + seq![':'] + decimal(line as nat) + seq![':'] + decimal(
        column as nat,
    )
}

pub open spec fn detail_lines(d: DiagnosticView) -> Seq<Seq<char>> {
    match d.details {
        Some(t) => text_lines(t + seq!['\n']),
        None => Seq::empty(),
    }
}

pub open spec fn location_lines(d: DiagnosticView) -> Seq<Seq<char>> {
    match d.file {
        Some(f) => seq![location_line(f, d.line->0, d.column->0)],
        None => Seq::empty(),
    }
}

#[verifier::rlimit(40)]
proof fn lemma_header(d: DiagnosticView)
    requires
        well_formed(d),
    ensures
        line_text(header_line(d)),
        starts_block(header_line(d)),
        parse_header(header_line(d)) == Some((d.kind, d.code, d.message)),
{
    let w = type_word(d.kind);
    let ct = code_text(d.code);
    let hl = header_line(d);
    let n = w.len() as int;
    assert(hl =~= w + (ct + (colon_space() + d.message)));
    if d.message.len() > 0 {
        assert(hl.last() == d.message.last());
    } else {
        assert(hl.last() == ' ');
    }
    assert forall|i: int| 0 <= i < hl.len() implies #[trigger] hl[i] != '\n' by {
        if i < n {
            assert(hl[i] == w[i]);
        } else if i < n + ct.len() {
            assert(hl[i] == ct[i - n]);
            if let Some(c) = d.code {
                if 1 <= i - n - 1 < c.len() {
                    assert(is_digit(c[i - n - 1]));
                }
            }
        } else if i < n + ct.len() + 2 {
            assert(hl[i] == colon_space()[i - n - ct.len()]);
        } else {
            assert(hl[i] == d.message[i - n - ct.len() - 2]);
        }
    }
    if d.kind == Type::Error {
        assert(hl.subrange(0, 5) =~= word_error());
    } else {
        assert(hl.subrange(0, 5)[0] == 'w');
        assert(hl.subrange(0, 7) =~= word_warning());
    }
    assert(type_prefix(hl) == Some(d.kind));
    match d.code {
        Some(c) => {
            let close = n + 1 + c.len();
            assert(hl[n] == '[');
            assert(hl[n + 1] == c[0]);
            assert forall|j: int| n + 2 <= j < n + 2 + (c.len() - 1) implies is_digit(
                #[trigger] hl[j],
            ) by {
                assert(hl[j] == c[j - n - 1]);
            }
            assert(hl[close] == ']');
            lemma_digit_run_is(hl, n + 2, c.len() - 1);
            assert(hl.subrange(close + 1, close + 3) =~= colon_space());
            assert(hl.subrange(n + 1, close) =~= c);
            assert(hl.subrange(close + 3, hl.len() as int) =~= d.message);
        },
        None => {
            assert(hl[n] == ':');
            assert(hl.subrange(n, n + 2) =~= colon_space());
            assert(hl.subrange(n + 2, hl.len() as int) =~= d.message);
        },
    }
}

proof fn lemma_location(f: Seq<char>, ln: u32, col: u32)
    requires
        f.len() > 0,
        no_char(f, '\n'),
        no_char(f, ':'),
    ensures
        line_text(location_line(f, ln, col)),
        location_line(f, ln, col).len() > 0,
        is_location_line(location_line(f, ln, col)),
        parse_location(location_line(f, ln, col)) == Ok::<(Seq<char>, u32, u32), crate::rust::ParseError>((f, ln, col)),
{
    let l = location_line(f, ln, col);
    let d1 = decimal(ln as nat);
    let d2 = decimal(col as nat);
    lemma_decimal(ln as nat);
    lemma_decimal(col as nat);
    let p = 6int;
    let a = p + f.len() + 1;
    let b = a + d1.len() + 1;
    assert(l =~= seq![' ', ' ', '-', '-', '>', ' '] + (f + (seq![':'] + (d1 + (seq![':'] + d2)))));
    assert(l.len() == b + d2.len());
    assert(l.last() == d2.last());
    assert(is_digit(d2[d2.len() - 1]));
    assert forall|i: int| 0 <= i < l.len() implies #[trigger] l[i] != '\n' by {
        if i < p {
        } else if i < p + f.len() {
            assert(l[i] == f[i - p]);
        } else if i < a {
        } else if i < a + d1.len() {
            assert(l[i] == d1[i - a]);
            assert(is_digit(d1[i - a]));
        } else if i < b {
        } else {
            assert(l[i] == d2[i - b]);
            assert(is_digit(d2[i - b]));
        }
    }
    lemma_space_run_is(l, 0, 2);
    assert(l.subrange(2, 5) =~= arrow());
    assert(l.subrange(2, 6) =~= arrow_space());
    assert forall|j: int| p <= j < p + f.len() implies #[trigger] l[j] != ':' by {
        assert(l[j] == f[j - p]);
    }
    lemma_path_run_is(l, p, f.len() as int);
    assert forall|j: int| a <= j < a + d1.len() implies is_digit(#[trigger] l[j]) by {
        assert(l[j] == d1[j - a]);
    }
    lemma_digit_run_is(l, a, d1.len() as int);
    assert forall|j: int| b <= j < b + d2.len() implies is_digit(#[trigger] l[j]) by {
        assert(l[j] == d2[j - b]);
    }
    lemma_digit_run_is(l, b, d2.len() as int);
    assert(l.subrange(a, a + d1.len()) =~= d1);
    assert(l.subrange(b, b + d2.len()) =~= d2);
    assert(l.subrange(p, p + f.len()) =~= f);
}

/// The lines of a rendered diagnostic followed by an empty line.
proof fn lemma_render_lines(d: DiagnosticView)
    requires
        well_formed(d),
    ensures
        text_lines(render(d) + seq!['\n']) == seq![header_line(d)] + (location_lines(d)
            + detail_lines(d)) + seq![Seq::<char>::empty()],
        forall|i: int|
            0 <= i < (location_lines(d) + detail_lines(d)).len() ==> (#[trigger] (location_lines(d)
                + detail_lines(d))[i]).len() > 0,
        starts_block(header_line(d)),
{
    lemma_render_text(d);
    lemma_header(d);
    lemma_line(Seq::<char>::empty());
    assert(Seq::<char>::empty() + seq!['\n'] =~= seq!['\n']);
    lemma_scan_concat(render(d), seq!['\n']);
    let mids = location_lines(d) + detail_lines(d);
    assert forall|i: int| 0 <= i < mids.len() implies (#[trigger] mids[i]).len() > 0 by {
        if i < location_lines(d).len() {
            assert(mids[i] == location_lines(d)[i]);
        } else {
            assert(mids[i] == detail_lines(d)[i - location_lines(d).len()]);
            if let Some(t) = d.details {
                lemma_details_lines(t);
            }
        }
    }
}

/// The block of a rendered diagnostic reads back as that diagnostic.
proof fn lemma_block(d: DiagnosticView)
    requires
        well_formed(d),
    ensures
        parse_block(seq![header_line(d)] + (location_lines(d) + detail_lines(d))) == Ok::<
            DiagnosticView,
            crate::rust::ParseError,
        >(d),
{
    let hl = header_line(d);
    let ll = location_lines(d);
    let dl = detail_lines(d);
    let b = seq![hl] + (ll + dl);
    lemma_header(d);
    assert(b[0] == hl);
    if let Some(t) = d.details {
        lemma_details_lines(t);
        assert(crate::rust::details_of(dl) == Some(t));
    } else {
        assert(crate::rust::details_of(dl) == d.details);
    }
    match d.file {
        Some(f) => {
            lemma_location(f, d.line->0, d.column->0);
            assert(b[1] == location_line(f, d.line->0, d.column->0));
            assert(b.subrange(2, b.len() as int) =~= dl);
        },
        None => {
            assert(b.subrange(1, b.len() as int) =~= dl);
            if b.len() > 1 {
                assert(b[1] == dl[0]);
                let t = d.details->0;
                lemma_details_lines(t);
                if is_location_line(dl[0]) {
                    lemma_location_prefix(dl[0], t);
                }
            }
        },
    }
}

/// Rendering a well-formed diagnostic, ending its block with an empty line,
/// and parsing the text gives back exactly that diagnostic.
pub proof fn law_round_trip(d: DiagnosticView)
    requires
        well_formed(d),
    ensures
        parse_text(render(d) + seq!['\n']) == Ok::<Seq<DiagnosticView>, crate::rust::ParseError>(
            seq![d],
        ),
{
    lemma_render_lines(d);
    let mids = location_lines(d) + detail_lines(d);
    let hl = header_line(d);
    lemma_one_block(hl, mids);
    lemma_block(d);
    let bs = seq![seq![hl] + mids];
    assert(bs.drop_last() =~= Seq::<Seq<Seq<char>>>::empty());
    assert(parse_blocks(bs.drop_last()) == Ok::<Seq<DiagnosticView>, crate::rust::ParseError>(
        Seq::empty(),
    ));
    assert(Seq::<DiagnosticView>::empty().push(d) =~= seq![d]);
}

/// Lines that the scanner skips: one line of text each, none starting a block.
pub open spec fn other_lines(ls: Seq<Seq<char>>) -> bool {
    forall|i: int| 0 <= i < ls.len() ==> line_text(#[trigger] ls[i]) && !starts_block(ls[i])
}

proof fn lemma_flatten_scan(ls: Seq<Seq<char>>)
    requires
        forall|i: int| 0 <= i < ls.len() ==> line_text(#[trigger] ls[i]),
    ensures
        scan_text(flatten(ls)) == (ls, Seq::<char>::empty()),
    decreases ls.len(),
{
    if ls.len() == 0 {
        assert(flatten(ls) =~= Seq::<char>::empty());
        assert(ls =~= Seq::<Seq<char>>::empty());
    } else {
        let init = ls.drop_last();
        assert forall|i: int| 0 <= i < init.len() implies line_text(#[trigger] init[i]) by {
            assert(init[i] == ls[i]);
        }
        lemma_flatten_scan(init);
        assert(line_text(ls[ls.len() - 1]));
        lemma_line(ls.last());
        lemma_scan_concat(flatten(init), ls.last() + seq!['\n']);
        assert(flatten(ls) =~= flatten(init) + (ls.last() + seq!['\n']));
        assert(init + seq![ls.last()] =~= ls);
    }
}

proof fn lemma_skipped_blocks(ls: Seq<Seq<char>>)
    requires
        other_lines(ls),
    ensures
        scan_blocks(ls) == (Seq::<Seq<Seq<char>>>::empty(), None::<Seq<Seq<char>>>),
    decreases ls.len(),
{
    if ls.len() > 0 {
        let init = ls.drop_last();
        assert(other_lines(init)) by {
            assert forall|i: int| 0 <= i < init.len() implies line_text(#[trigger] init[i])
                && !starts_block(init[i]) by {
                assert(init[i] == ls[i]);
            }
        }
        lemma_skipped_blocks(init);
        assert(!starts_block(ls[ls.len() - 1]));
    }
}

/// The lines and block of one rendered diagnostic followed by an empty line.
proof fn lemma_rendered_piece(d: DiagnosticView)
    requires
        well_formed(d),
    ensures
        scan_text(render(d) + seq!['\n']).1.len() == 0,
        scan_blocks(text_lines(render(d) + seq!['\n'])) == (
        seq![seq![header_line(d)] + (location_lines(d) + detail_lines(d))],
        None::<Seq<Seq<char>>>,
        ),
        parse_block(seq![header_line(d)] + (location_lines(d) + detail_lines(d))) == Ok::<
            DiagnosticView,
            crate::rust::ParseError,
        >(d),
{
    let r = render(d) + seq!['\n'];
    assert(r.last() == '\n');
    lemma_render_lines(d);
    lemma_one_block(header_line(d), location_lines(d) + detail_lines(d));
    lemma_block(d);
}

/// In a text where skipped lines surround two well-formed diagnostic blocks,
/// parsing finds exactly those two diagnostics, in their order.
#[verifier::rlimit(40)]
pub proof fn law_skips_other_lines(
    j1: Seq<Seq<char>>,
    d1: DiagnosticView,
    j2: Seq<Seq<char>>,
    d2: DiagnosticView,
    j3: Seq<Seq<char>>,
)
    requires
        well_formed(d1),
        well_formed(d2),
        other_lines(j1),
        other_lines(j2),
        other_lines(j3),
    ensures
        parse_text(
            flatten(j1) + render(d1) + seq!['\n'] + flatten(j2) + render(d2) + seq!['\n']
                + flatten(j3),
        ) == Ok::<Seq<DiagnosticView>, crate::rust::ParseError>(seq![d1, d2]),
{
    let f1 = flatten(j1);
    let f2 = flatten(j2);
    let f3 = flatten(j3);
    let r1 = render(d1) + seq!['\n'];
    let r2 = render(d2) + seq!['\n'];
    lemma_flatten_scan(j1);
    lemma_flatten_scan(j2);
    lemma_flatten_scan(j3);
    lemma_rendered_piece(d1);
    lemma_rendered_piece(d2);
    lemma_scan_concat(f1, r1);
    lemma_scan_concat(f1 + r1, f2);
    lemma_scan_concat(f1 + r1 + f2, r2);
    lemma_scan_concat(f1 + r1 + f2 + r2, f3);
    let text = f1 + r1 + f2 + r2 + f3;
    assert(flatten(j1) + render(d1) + seq!['\n'] + flatten(j2) + render(d2) + seq!['\n']
        + flatten(j3) =~= text);
    let l1 = text_lines(r1);
    let l2 = text_lines(r2);
    assert(text_lines(text) == j1 + l1 + j2 + l2 + j3);
    let b1 = seq![header_line(d1)] + (location_lines(d1) + detail_lines(d1));
    let b2 = seq![header_line(d2)] + (location_lines(d2) + detail_lines(d2));
    lemma_skipped_blocks(j1);
    lemma_skipped_blocks(j2);
    lemma_skipped_blocks(j3);
    lemma_blocks_concat(j1, l1);
    lemma_blocks_concat(j1 + l1, j2);
    lemma_blocks_concat(j1 + l1 + j2, l2);
    lemma_blocks_concat(j1 + l1 + j2 + l2, j3);
    let bs = scan_blocks(j1 + l1 + j2 + l2 + j3).0;
    assert(bs =~= seq![b1, b2]);
    assert(bs.drop_last() =~= seq![b1]);
    assert(seq![b1].drop_last() =~= Seq::<Seq<Seq<char>>>::empty());
    assert(parse_blocks(Seq::<Seq<Seq<char>>>::empty()) == Ok::<
        Seq<DiagnosticView>,
        crate::rust::ParseError,
    >(Seq::empty()));
    assert(parse_blocks(seq![b1]) == Ok::<Seq<DiagnosticView>, crate::rust::ParseError>(
        Seq::<DiagnosticView>::empty().push(d1),
    ));
    assert(Seq::<DiagnosticView>::empty().push(d1).push(d2) =~= seq![d1, d2]);
}

proof fn lemma_render_all(ds: Seq<DiagnosticView>)
    requires
        forall|i: int| 0 <= i < ds.len() ==> well_formed(#[trigger] ds[i]),
    ensures
        scan_text(render_all(ds)).1.len() == 0,
        scan_blocks(text_lines(render_all(ds))).1 is None,
        parse_blocks(scan_blocks(text_lines(render_all(ds))).0) == Ok::<
            Seq<DiagnosticView>,
            crate::rust::ParseError,
        >(ds),
    decreases ds.len(),
{
    if ds.len() == 0 {
        assert(render_all(ds) =~= Seq::<char>::empty());
        assert(text_lines(Seq::<char>::empty()) =~= Seq::<Seq<char>>::empty());
        assert(ds =~= Seq::<DiagnosticView>::empty());
    } else {
        let init = ds.drop_last();
        let d = ds.last();
        assert forall|i: int| 0 <= i < init.len() implies well_formed(#[trigger] init[i]) by {
            assert(init[i] == ds[i]);
        }
        assert(well_formed(ds[ds.len() - 1]));
        lemma_render_all(init);
        lemma_rendered_piece(d);
        let a = render_all(init);
        let r = render(d) + seq!['\n'];
        assert(render_all(ds) =~= a + r);
        lemma_scan_concat(a, r);
        lemma_blocks_concat(text_lines(a), text_lines(r));
        let bs = scan_blocks(text_lines(a)).0;
        let b = seq![header_line(d)] + (location_lines(d) + detail_lines(d));
        assert(bs + seq![b] =~= bs.push(b));
        assert(bs.push(b).drop_last() =~= bs);
        assert(init.push(d) =~= ds);
    }
}

/// Rendering well-formed diagnostics, each block followed by an empty line,
/// and parsing the text gives back the same diagnostics in the same order.
pub proof fn law_round_trip_all(ds: Seq<DiagnosticView>)
    requires
        forall|i: int| 0 <= i < ds.len() ==> well_formed(#[trigger] ds[i]),
    ensures
        parse_text(render_all(ds)) == Ok::<Seq<DiagnosticView>, crate::rust::ParseError>(ds),
{
    lemma_render_all(ds);
}

/// The lines of a rendered diagnostic: header, location if any, details.
proof fn lemma_render_text(d: DiagnosticView)
    requires
        well_formed(d),
    ensures
        scan_text(render(d)).1.len() == 0,
        text_lines(render(d)) == seq![header_line(d)] + (location_lines(d) + detail_lines(d)),
{
    let hl = header_line(d);
    lemma_header(d);
    lemma_line(hl);
    assert(header_text(d) =~= hl + seq!['\n']);
    let lt = location_text(d);
    let dt = details_text(d);
    let a1 = hl + seq!['\n'];
    match d.file {
        Some(f) => {
            lemma_location(f, d.line->0, d.column->0);
            lemma_line(location_line(f, d.line->0, d.column->0));
            assert(lt =~= location_line(f, d.line->0, d.column->0) + seq!['\n']);
        },
        None => {
            assert(lt =~= Seq::<char>::empty());
        },
    }
    assert(scan_text(lt).1.len() == 0 && text_lines(lt) == location_lines(d));
    match d.details {
        Some(t) => {
            lemma_details_lines(t);
            assert(dt =~= t + seq!['\n']);
        },
        None => {
            assert(dt =~= Seq::<char>::empty());
        },
    }
    assert(scan_text(dt).1.len() == 0 && text_lines(dt) == detail_lines(d));
    lemma_scan_concat(a1, lt);
    lemma_scan_concat(a1 + lt, dt);
    assert(render(d) =~= a1 + lt + dt);
    assert(seq![hl] + location_lines(d) + detail_lines(d) =~= seq![hl] + (location_lines(d)
        + detail_lines(d)));
}

/// Reading back the text of a well-formed diagnostic, as `to_string` writes
/// it, with `RustDiagnostic::from_str` gives that diagnostic.
pub proof fn law_from_str_round_trip(d: DiagnosticView)
    requires
        well_formed(d),
    ensures
        parse_block(all_lines(render(d))) == Ok::<DiagnosticView, crate::rust::ParseError>(d),
{
    lemma_render_text(d);
    lemma_block(d);
}

/// A run whose error output is one rendered diagnostic and its empty line
/// reports the run's status and that diagnostic, as an error or a warning.
pub proof fn law_run_reports_diagnostic(success: bool, d: DiagnosticView)
    requires
        well_formed(d),
    ensures
        compile_view(success, render(d) + seq!['\n']) == Ok::<CompileView, crate::rust::ParseError>(
            CompileView {
                success: success,
                errors: if d.kind == Type::Error {
                    seq![d]
                } else {
                    Seq::empty()
                },
                warnings: if d.kind == Type::Warning {
                    seq![d]
                } else {
                    Seq::empty()
                },
            },
        ),
{
    law_round_trip(d);
    let ds = seq![d];
    assert(ds.drop_last() =~= Seq::<DiagnosticView>::empty());
    assert(ds.last() == d);
    assert(of_type(Seq::<DiagnosticView>::empty(), Type::Error) == Seq::<DiagnosticView>::empty());
    assert(of_type(Seq::<DiagnosticView>::empty(), Type::Warning) == Seq::<
        DiagnosticView,
    >::empty());
    assert(Seq::<DiagnosticView>::empty().push(d) =~= seq![d]);
    if d.kind == Type::Error {
        assert(of_type(ds, Type::Error) == seq![d]);
        assert(of_type(ds, Type::Warning) == Seq::<DiagnosticView>::empty());
    } else {
        assert(of_type(ds, Type::Warning) == seq![d]);
        assert(of_type(ds, Type::Error) == Seq::<DiagnosticView>::empty());
    }
}

/// Inserting skipped lines at a point outside every block (after an ended
/// line, with no block open) changes neither the diagnostics nor the result
/// of a run.
pub proof fn law_other_lines_change_nothing(
    a: Seq<char>,
    j: Seq<Seq<char>>,
    b: Seq<char>,
    success: bool,
)
    requires
        scan_text(a).1.len() == 0,
        scan_blocks(text_lines(a)).1 is None,
        other_lines(j),
    ensures
        parse_text(a + flatten(j) + b) == parse_text(a + b),
        compile_view(success, a + flatten(j) + b) == compile_view(success, a + b),
{
    let fj = flatten(j);
    assert forall|i: int| 0 <= i < j.len() implies line_text(#[trigger] j[i]) by {
        assert(line_text(j[i]) && !starts_block(j[i]));
    }
    lemma_flatten_scan(j);
    lemma_scan_concat(a, fj);
    lemma_scan_concat(a + fj, b);
    lemma_scan_concat(a, b);
    let la = text_lines(a);
    let lb = text_lines(b);
    lemma_skipped_blocks(j);
    lemma_blocks_concat(la, j);
    lemma_blocks_concat(la + j, lb);
    lemma_blocks_concat(la, lb);
    let ba = scan_blocks(la).0;
    assert(ba + Seq::<Seq<Seq<char>>>::empty() =~= ba);
}

} // verus!
