use vstd::prelude::*;

use crate::rust::{
    lines_view, parse_block, render, starts_block, DiagnosticView, ParseError, RustDiagnostic, Type,
};
use crate::text::{chars_of, matches_at, push_char, push_str};
use vstd::utf8::{decode_utf8, valid_utf8};

verus! {

/// The outcome of one run of the build command.
#[derive(Clone, Debug, PartialEq, Eq)]
pub struct CompileResult {
    pub success: bool,
    pub errors: Vec<RustDiagnostic>,
    pub warnings: Vec<RustDiagnostic>,
}

pub struct CompileView {
    pub success: bool,
    pub errors: Seq<DiagnosticView>,
    pub warnings: Seq<DiagnosticView>,
}

pub open spec fn diags_view(v: Seq<RustDiagnostic>) -> Seq<DiagnosticView> {
    v.map_values(|d: RustDiagnostic| d@)
}

impl View for CompileResult {
    type V = CompileView;

    open spec fn view(&self) -> CompileView {
        CompileView {
            success: self.success,
            errors: diags_view(self.errors@),
            warnings: diags_view(self.warnings@),
        }
    }
}

/// A line without the `\r` of a `\r\n` ending.
pub open spec fn strip_cr(l: Seq<char>) -> Seq<char> {
    if l.len() > 0 && l.last() == '\r' {
        l.drop_last()
    } else {
        l
    }
}

/// The lines of `s` that a newline has ended, and the unfinished line after them.
pub open spec fn scan_text(s: Seq<char>) -> (Seq<Seq<char>>, Seq<char>)
    decreases s.len(),
{
    if s.len() == 0 {
        (Seq::empty(), Seq::empty())
    } else {
        let (ls, cur) = scan_text(s.drop_last());
        if s.last() == '\n' {
            (ls.push(strip_cr(cur)), Seq::empty())
        } else {
            (ls, cur.push(s.last()))
        }
    }
}

/// The ended lines of a text. Text after the last newline cannot close a
/// block, so it never contributes a diagnostic.
pub open spec fn text_lines(s: Seq<char>) -> Seq<Seq<char>> {
    scan_text(s).0
}

/// All lines of a text: the ended lines, then the unfinished last line if
/// it is not empty (without a final `\r`).
pub open spec fn all_lines(s: Seq<char>) -> Seq<Seq<char>> {
    if scan_text(s).1.len() > 0 {
        text_lines(s).push(strip_cr(scan_text(s).1))
    } else {
        text_lines(s)
    }
}

/// The two-state scanner over lines: the blocks closed so far, and the block
/// being collected, if any. A line starting with `error` or `warning` opens a
/// block; an empty line closes it; other lines outside a block are skipped.
pub open spec fn scan_blocks(ls: Seq<Seq<char>>) -> (Seq<Seq<Seq<char>>>, Option<Seq<Seq<char>>>)
    decreases ls.len(),
{
    if ls.len() == 0 {
        (Seq::empty(), None)
    } else {
        let (bs, open) = scan_blocks(ls.drop_last());
        let l = ls.last();
        match open {
            None => if starts_block(l) {
                (bs, Some(seq![l]))
            } else {
                (bs, None)
            },
            Some(b) => if l.len() == 0 {
                (bs.push(b), None)
            } else {
                (bs, Some(b.push(l)))
            },
        }
    }
}

pub open spec fn blocks_of(text: Seq<char>) -> Seq<Seq<Seq<char>>> {
    scan_blocks(text_lines(text)).0
}

/// Each block read as a diagnostic, in order; the first block that cannot be
/// read decides the error.
pub open spec fn parse_blocks(bs: Seq<Seq<Seq<char>>>) -> Result<Seq<DiagnosticView>, ParseError>
    decreases bs.len(),
{
    if bs.len() == 0 {
        Ok(Seq::empty())
    } else {
        match parse_blocks(bs.drop_last()) {
            Err(e) => Err(e),
            Ok(ds) => match parse_block(bs.last()) {
                Err(e) => Err(e),
                Ok(d) => Ok(ds.push(d)),
            },
        }
    }
}

/// The diagnostics of a compiler's error output.
pub open spec fn parse_text(text: Seq<char>) -> Result<Seq<DiagnosticView>, ParseError> {
    parse_blocks(blocks_of(text))
}

/// The diagnostics of type `t`, in order.
pub open spec fn of_type(ds: Seq<DiagnosticView>, t: Type) -> Seq<DiagnosticView>
    decreases ds.len(),
{
    if ds.len() == 0 {
        Seq::empty()
    } else if ds.last().kind == t {
        of_type(ds.drop_last(), t).push(ds.last())
    } else {
        of_type(ds.drop_last(), t)
    }
}

/// The result of a run whose exit status gave `success` and whose error output is `text`.
pub open spec fn compile_view(success: bool, text: Seq<char>) -> Result<CompileView, ParseError> {
    match parse_text(text) {
        Err(e) => Err(e),
        Ok(ds) => Ok(
            CompileView {
                success: success,
                errors: of_type(ds, Type::Error),
                warnings: of_type(ds, Type::Warning),
            },
        ),
    }
}

pub open spec fn blocks_view(bs: Seq<Vec<Vec<char>>>) -> Seq<Seq<Seq<char>>> {
    bs.map_values(|b: Vec<Vec<char>>| lines_view(b@))
}

pub open spec fn open_view(open: bool, buf: Seq<Vec<char>>) -> Option<Seq<Seq<char>>> {
    if open {
        Some(lines_view(buf))
    } else {
        None
    }
}

fn opens_block(l: &Vec<char>) -> (r: bool)
    ensures
        r == starts_block(l@),
{
    let we = vec!['e', 'r', 'r', 'o', 'r'];
    let ww = vec!['w', 'a', 'r', 'n', 'i', 'n', 'g'];
    matches_at(l, 0, &we) || matches_at(l, 0, &ww)
}

/// The ended lines of a text.
fn split_lines(text: &str) -> (r: Vec<Vec<char>>)
    ensures
        lines_view(r@) == all_lines(text@),
{
    let mut lines: Vec<Vec<char>> = Vec::new();
    let mut cur: Vec<char> = Vec::new();
    let cs = chars_of(text);
    for k in 0..cs.len()
        invariant
            cs@ == text@,
            scan_text(cs@.take(k as int)) == (lines_view(lines@), cur@),
    {
        let c = cs[k];
        let ghost prefix = cs@.take(k as int);
        assert(cs@.take(k + 1).drop_last() =~= prefix);
        if c == '\n' {
            if cur.len() > 0 && cur[cur.len() - 1] == '\r' {
                cur.pop();
            }
            let ghost lv = lines@;
            lines.push(cur);
            cur = Vec::new();
            assert(lines_view(lines@) =~= lines_view(lv).push(lines@.last()@));
            assert(cur@ =~= Seq::<char>::empty());
        } else {
            cur.push(c);
        }
    }
    assert(cs@.take(cs.len() as int) =~= text@);
    if cur.len() > 0 {
        if cur[cur.len() - 1] == '\r' {
            cur.pop();
        }
        let ghost lv = lines@;
        lines.push(cur);
        assert(lines_view(lines@) =~= lines_view(lv).push(lines@.last()@));
    }
    lines
}

impl RustDiagnostic {
    /// Reads one diagnostic from the text of its block; the last line needs
    /// no newline.
    pub fn from_str(inp: &str) -> (r: Result<RustDiagnostic, ParseError>)
        ensures
            match r {
                Ok(d) => parse_block(all_lines(inp@)) == Ok::<DiagnosticView, ParseError>(d@),
                Err(e) => parse_block(all_lines(inp@)) == Err::<DiagnosticView, ParseError>(e),
            },
    {
        let lines = split_lines(inp);
        RustDiagnostic::from_lines(&lines)
    }
}

/// Cuts a text into its diagnostic blocks, each a sequence of lines.
fn split_blocks(text: &str) -> (r: Vec<Vec<Vec<char>>>)
    ensures
        blocks_view(r@) == blocks_of(text@),
{
    let mut blocks: Vec<Vec<Vec<char>>> = Vec::new();
    let mut open = false;
    let mut buf: Vec<Vec<char>> = Vec::new();
    let mut cur: Vec<char> = Vec::new();
    let cs = chars_of(text);
    for k in 0..cs.len()
        invariant
            cs@ == text@,
            scan_text(cs@.take(k as int)).1 == cur@,
            scan_blocks(text_lines(cs@.take(k as int))) == (
            blocks_view(blocks@),
            open_view(open, buf@),
            ),
    {
        let c = cs[k];
        let ghost prefix = cs@.take(k as int);
        let ghost next = cs@.take(k + 1);
        assert(next.drop_last() =~= prefix);
        if c == '\n' {
            if cur.len() > 0 && cur[cur.len() - 1] == '\r' {
                cur.pop();
            }
            let line = cur;
            cur = Vec::new();
            assert(text_lines(next) == text_lines(prefix).push(line@));
            assert(text_lines(next).drop_last() =~= text_lines(prefix));
            if open {
                if line.len() == 0 {
                    let ghost bv = blocks@;
                    let ghost fv = buf@;
                    blocks.push(buf);
                    buf = Vec::new();
                    open = false;
                    assert(blocks_view(blocks@) =~= blocks_view(bv).push(lines_view(fv)));
                } else {
                    let ghost fv = buf@;
                    buf.push(line);
                    assert(lines_view(buf@) =~= lines_view(fv).push(line@));
                }
            } else if opens_block(&line) {
                buf = Vec::new();
                buf.push(line);
                open = true;
                assert(lines_view(buf@) =~= seq![line@]);
            }
        } else {
            cur.push(c);
        }
    }
    assert(cs@.take(cs.len() as int) =~= text@);
    blocks
}

/// Once a prefix of the blocks fails, the whole sequence fails with the same error.
proof fn lemma_parse_blocks_err(bs: Seq<Seq<Seq<char>>>, k: int)
    requires
        0 <= k <= bs.len(),
        parse_blocks(bs.take(k)) is Err,
    ensures
        parse_blocks(bs) == parse_blocks(bs.take(k)),
    decreases bs.len(),
{
    if k < bs.len() {
        assert(bs.drop_last().take(k) =~= bs.take(k));
        lemma_parse_blocks_err(bs.drop_last(), k);
    } else {
        assert(bs.take(k) =~= bs);
    }
}

/// Reads the diagnostics of a compiler's error output, in order.
pub fn parse(text: &str) -> (r: Result<Vec<RustDiagnostic>, ParseError>)
    ensures
        match r {
            Ok(v) => parse_text(text@) == Ok::<Seq<DiagnosticView>, ParseError>(diags_view(v@)),
            Err(e) => parse_text(text@) == Err::<Seq<DiagnosticView>, ParseError>(e),
        },
{
    let blocks = split_blocks(text);
    let ghost bv = blocks_view(blocks@);
    let mut out: Vec<RustDiagnostic> = Vec::new();
    assert(bv.take(0) =~= Seq::<Seq<Seq<char>>>::empty());
    assert(diags_view(out@) =~= Seq::<DiagnosticView>::empty());
    for i in 0..blocks.len()
        invariant
            bv == blocks_view(blocks@),
            bv == blocks_of(text@),
            parse_blocks(bv.take(i as int)) == Ok::<Seq<DiagnosticView>, ParseError>(
                diags_view(out@),
            ),
    {
        assert(bv.take(i + 1).drop_last() =~= bv.take(i as int));
        match RustDiagnostic::from_lines(&blocks[i]) {
            Err(e) => {
                proof {
                    lemma_parse_blocks_err(bv, i + 1);
                }
                return Err(e);
            },
            Ok(d) => {
                let ghost ov = out@;
                out.push(d);
                assert(diags_view(out@) =~= diags_view(ov).push(d@));
            },
        }
    }
    assert(bv.take(blocks.len() as int) =~= bv);
    Ok(out)
}

/// Turns the error output of a run into its result: the diagnostics split
/// into errors and warnings, each in the order of the output.
pub fn compile_result(success: bool, text: &str) -> (r: Result<CompileResult, ParseError>)
    ensures
        match r {
            Ok(c) => compile_view(success, text@) == Ok::<CompileView, ParseError>(c@),
            Err(e) => compile_view(success, text@) == Err::<CompileView, ParseError>(e),
        },
{
    let blocks = split_blocks(text);
    let ghost bv = blocks_view(blocks@);
    let mut errors: Vec<RustDiagnostic> = Vec::new();
    let mut warnings: Vec<RustDiagnostic> = Vec::new();
    let ghost mut ds: Seq<DiagnosticView> = Seq::empty();
    assert(bv.take(0) =~= Seq::<Seq<Seq<char>>>::empty());
    assert(diags_view(errors@) =~= Seq::<DiagnosticView>::empty());
    assert(diags_view(warnings@) =~= Seq::<DiagnosticView>::empty());
    for i in 0..blocks.len()
        invariant
            bv == blocks_view(blocks@),
            bv == blocks_of(text@),
            parse_blocks(bv.take(i as int)) == Ok::<Seq<DiagnosticView>, ParseError>(ds),
            diags_view(errors@) == of_type(ds, Type::Error),
            diags_view(warnings@) == of_type(ds, Type::Warning),
    {
        assert(bv.take(i + 1).drop_last() =~= bv.take(i as int));
        match RustDiagnostic::from_lines(&blocks[i]) {
            Err(e) => {
                proof {
                    lemma_parse_blocks_err(bv, i + 1);
                }
                return Err(e);
            },
            Ok(d) => {
                let ghost prev = ds;
                proof {
                    ds = ds.push(d@);
                    assert(ds.drop_last() =~= prev);
                }
                let ghost ev = errors@;
                let ghost wv = warnings@;
                match d.type_ {
                    Type::Error => {
                        errors.push(d);
                        assert(diags_view(errors@) =~= diags_view(ev).push(d@));
                    },
                    Type::Warning => {
                        warnings.push(d);
                        assert(diags_view(warnings@) =~= diags_view(wv).push(d@));
                    },
                }
            },
        }
    }
    assert(bv.take(blocks.len() as int) =~= bv);
    Ok(CompileResult { success, errors, warnings })
}

/// Diagnostics as text, each block followed by an empty line.
pub open spec fn render_all(ds: Seq<DiagnosticView>) -> Seq<char>
    decreases ds.len(),
{
    if ds.len() == 0 {
        Seq::empty()
    } else {
        render_all(ds.drop_last()) + render(ds.last()) + seq!['\n']
    }
}

/// Writes diagnostics in the form that `parse` reads.
pub fn render_diagnostics(ds: &Vec<RustDiagnostic>) -> (r: String)
    ensures
        r@ == render_all(diags_view(ds@)),
{
    let mut out = String::new();
    for i in 0..ds.len()
        invariant
            out@ == render_all(diags_view(ds@.take(i as int))),
    {
        let ghost before = out@;
        let text = ds[i].to_string();
        push_str(&mut out, text.as_str());
        push_char(&mut out, '\n');
        assert(diags_view(ds@.take(i + 1)).drop_last() =~= diags_view(ds@.take(i as int)));
        assert(out@ =~= before + render(ds@[i as int]@) + seq!['\n']);
    }
    assert(ds@.take(ds.len() as int) =~= ds@);
    out
}

/// Why the output of a run could not be turned into a result.
#[derive(Clone, Copy, Debug, PartialEq, Eq, Structural)]
pub enum OutputError {
    /// The error output is not valid UTF-8.
    NotText,
    /// A diagnostic block could not be read.
    Parse(ParseError),
}

/// Relies on `String::from_utf8`: it fails exactly when the bytes are not
/// valid UTF-8, and otherwise yields the characters they encode.
#[verifier::external_body]
fn decode_text(b: Vec<u8>) -> (r: Option<String>)
    ensures
        match r {
            Some(s) => valid_utf8(b@) && s@ == decode_utf8(b@),
            None => !valid_utf8(b@),
        },
{
    String::from_utf8(b).ok()
}

/// The result of a run from its exit status and the raw bytes of its error output.
pub fn compile_output(success: bool, stderr: Vec<u8>) -> (r: Result<CompileResult, OutputError>)
    ensures
        !valid_utf8(stderr@) ==> r == Err::<CompileResult, OutputError>(OutputError::NotText),
        valid_utf8(stderr@) ==> match r {
            Ok(c) => compile_view(success, decode_utf8(stderr@)) == Ok::<CompileView, ParseError>(
                c@,
            ),
            Err(OutputError::Parse(e)) => compile_view(success, decode_utf8(stderr@)) == Err::<
                CompileView,
                ParseError,
            >(e),
            Err(OutputError::NotText) => false,
        },
{
    match decode_text(stderr) {
        None => Err(OutputError::NotText),
        Some(text) => match compile_result(success, text.as_str()) {
            Ok(c) => Ok(c),
            Err(e) => Err(OutputError::Parse(e)),
        },
    }
}

} // verus!
