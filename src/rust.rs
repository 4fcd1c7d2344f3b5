use vstd::prelude::*;

use crate::text::{
    digit_run, digits_to_u32, digits_value, has_at, is_digit, matches_at, path_run, push_char,
    push_chars, push_decimal, push_str, chars_of, scan_digits, scan_path, scan_spaces, space_run, string_of,
    decimal,
};

verus! {

/// Whether a diagnostic is an error or a warning.
#[derive(Clone, Copy, Debug, PartialEq, Eq, Structural)]
pub enum Type {
    Error,
    Warning,
}

/// Why a diagnostic block could not be read.
#[derive(Clone, Copy, Debug, PartialEq, Eq, Structural)]
pub enum ParseError {
    /// The word is neither `error` nor `warning`.
    UnknownType,
    /// The first line is not `<type>[<code>]: <message>`.
    BadHeader,
    /// The second line starts like `  -->` but is not `  --> <file>:<line>:<column>`.
    BadLocation,
    /// A line or column number does not fit in a `u32`.
    NumberTooLarge,
}

/// One error or warning reported by the compiler.
#[derive(Clone, Debug, PartialEq, Eq)]
pub struct RustDiagnostic {
    pub type_: Type,
    pub num: Option<String>,
    pub message: String,
    pub file: Option<String>,
    pub line: Option<u32>,
    pub column: Option<u32>,
    pub details: Option<String>,
}

/// The content of a diagnostic, with text as sequences of characters.
pub struct DiagnosticView {
    pub kind: Type,
    pub code: Option<Seq<char>>,
    pub message: Seq<char>,
    pub file: Option<Seq<char>>,
    pub line: Option<u32>,
    pub column: Option<u32>,
    pub details: Option<Seq<char>>,
}

pub open spec fn opt_view(o: Option<String>) -> Option<Seq<char>> {
    match o {
        Some(s) => Some(s@),
        None => None,
    }
}

impl View for RustDiagnostic {
    type V = DiagnosticView;

    open spec fn view(&self) -> DiagnosticView {
        DiagnosticView {
            kind: self.type_,
            code: opt_view(self.num),
            message: self.message@,
            file: opt_view(self.file),
            line: self.line,
            column: self.column,
            details: opt_view(self.details),
        }
    }
}

pub open spec fn word_error() -> Seq<char> {
    seq!['e', 'r', 'r', 'o', 'r']
}

pub open spec fn word_warning() -> Seq<char> {
    seq!['w', 'a', 'r', 'n', 'i', 'n', 'g']
}

pub open spec fn type_word(t: Type) -> Seq<char> {
    match t {
        Type::Error => word_error(),
        Type::Warning => word_warning(),
    }
}

pub open spec fn colon_space() -> Seq<char> {
    seq![':', ' ']
}

pub open spec fn arrow() -> Seq<char> {
    seq!['-', '-', '>']
}

pub open spec fn arrow_space() -> Seq<char> {
    seq!['-', '-', '>', ' ']
}

/// The type whose word starts the line, if any.
pub open spec fn type_prefix(l: Seq<char>) -> Option<Type> {
    if has_at(l, 0, word_error()) {
        Some(Type::Error)
    } else if has_at(l, 0, word_warning()) {
        Some(Type::Warning)
    } else {
        None
    }
}

/// A line that opens a diagnostic block: it starts with `error` or `warning`.
pub open spec fn starts_block(l: Seq<char>) -> bool {
    type_prefix(l) is Some
}

/// An error code: `E` and one or more digits.
pub open spec fn is_code(c: Seq<char>) -> bool {
    &&& c.len() >= 2
    &&& c[0] == 'E'
    &&& forall|i: int| 1 <= i < c.len() ==> is_digit(#[trigger] c[i])
}

/// The header line `<type>[<code>]: <message>` read as type, code and message.
pub open spec fn parse_header(l: Seq<char>) -> Option<(Type, Option<Seq<char>>, Seq<char>)> {
    match type_prefix(l) {
        None => None,
        Some(t) => {
            let n = type_word(t).len() as int;
            if n < l.len() && l[n] == '[' {
                let d = digit_run(l, n + 2) as int;
                let close = n + 2 + d;
                if n + 1 < l.len() && l[n + 1] == 'E' && d > 0 && close < l.len() && l[close]
                    == ']' && has_at(l, close + 1, colon_space()) {
                    Some((t, Some(l.subrange(n + 1, close)), l.subrange(close + 3, l.len() as int)))
                } else {
                    None
                }
            } else if has_at(l, n, colon_space()) {
                Some((t, None, l.subrange(n + 2, l.len() as int)))
            } else {
                None
            }
        },
    }
}

/// A line that is meant as a location: spaces, then `-->`.
pub open spec fn is_location_line(l: Seq<char>) -> bool {
    let sp = space_run(l, 0) as int;
    sp > 0 && has_at(l, sp, arrow())
}

/// The location line `  --> <file>:<line>:<column>` read as file, line and column.
pub open spec fn parse_location(l: Seq<char>) -> Result<(Seq<char>, u32, u32), ParseError> {
    let sp = space_run(l, 0) as int;
    let p = sp + 4;
    let f = path_run(l, p) as int;
    let a = p + f + 1;
    let d1 = digit_run(l, a) as int;
    let b = a + d1 + 1;
    let d2 = digit_run(l, b) as int;
    if sp > 0 && has_at(l, sp, arrow_space()) && f > 0 && p + f < l.len() && d1 > 0 && a + d1
        < l.len() && l[a + d1] == ':' && d2 > 0 && b + d2 == l.len() {
        let ln = digits_value(l.subrange(a, a + d1));
        let col = digits_value(l.subrange(b, b + d2));
        if ln <= u32::MAX && col <= u32::MAX {
            Ok((l.subrange(p, p + f), ln as u32, col as u32))
        } else {
            Err(ParseError::NumberTooLarge)
        }
    } else {
        Err(ParseError::BadLocation)
    }
}

/// Lines joined with a newline between each two.
pub open spec fn join_lines(ls: Seq<Seq<char>>) -> Seq<char>
    decreases ls.len(),
{
    if ls.len() == 0 {
        Seq::empty()
    } else if ls.len() == 1 {
        ls[0]
    } else {
        join_lines(ls.drop_last()) + seq!['\n'] + ls.last()
    }
}

pub open spec fn details_of(ls: Seq<Seq<char>>) -> Option<Seq<char>> {
    if ls.len() == 0 {
        None
    } else {
        Some(join_lines(ls))
    }
}

/// A block of lines read as one diagnostic: the header, an optional location,
/// and the remaining lines as details.
pub open spec fn parse_block(b: Seq<Seq<char>>) -> Result<DiagnosticView, ParseError> {
    if b.len() == 0 {
        Err(ParseError::BadHeader)
    } else {
        match parse_header(b[0]) {
            None => Err(ParseError::BadHeader),
            Some((t, code, msg)) => {
                if b.len() > 1 && is_location_line(b[1]) {
                    match parse_location(b[1]) {
                        Err(e) => Err(e),
                        Ok((f, ln, col)) => Ok(
                            DiagnosticView {
                                kind: t,
                                code: code,
                                message: msg,
                                file: Some(f),
                                line: Some(ln),
                                column: Some(col),
                                details: details_of(b.subrange(2, b.len() as int)),
                            },
                        ),
                    }
                } else {
                    Ok(
                        DiagnosticView {
                            kind: t,
                            code: code,
                            message: msg,
                            file: None,
                            line: None,
                            column: None,
                            details: details_of(b.subrange(1, b.len() as int)),
                        },
                    )
                }
            },
        }
    }
}

pub open spec fn lines_view(b: Seq<Vec<char>>) -> Seq<Seq<char>> {
    b.map_values(|l: Vec<char>| l@)
}

pub open spec fn code_text(code: Option<Seq<char>>) -> Seq<char> {
    match code {
        Some(c) => seq!['['] + c + seq![']'],
        None => Seq::empty(),
    }
}

pub open spec fn number_text(n: Option<u32>) -> Seq<char> {
    match n {
        Some(v) => decimal(v as nat),
        None => seq!['-'],
    }
}

pub open spec fn header_text(d: DiagnosticView) -> Seq<char> {
    type_word(d.kind) + code_text(d.code) + colon_space() + d.message + seq!['\n']
}

pub open spec fn location_text(d: DiagnosticView) -> Seq<char> {
    match d.file {
        Some(f) => seq![' ', ' '] + arrow_space() + f + seq![':'] + number_text(d.line) + seq![':']
            + number_text(d.column) + seq!['\n'],
        None => Seq::empty(),
    }
}

pub open spec fn details_text(d: DiagnosticView) -> Seq<char> {
    match d.details {
        Some(t) => t + seq!['\n'],
        None => Seq::empty(),
    }
}

/// A diagnostic as text: the header line, the location line if there is a
/// file, and the details if any, each ended by a newline.
pub open spec fn render(d: DiagnosticView) -> Seq<char> {
    header_text(d) + location_text(d) + details_text(d)
}

pub open spec fn opt_str_view(o: Option<&str>) -> Option<Seq<char>> {
    match o {
        Some(s) => Some(s@),
        None => None,
    }
}

fn opt_string(o: Option<&str>) -> (r: Option<String>)
    ensures
        opt_view(r) == opt_str_view(o),
{
    match o {
        Some(s) => Some(String::from_str(s)),
        None => None,
    }
}

impl Type {
    /// Reads a type from its word, `error` or `warning`.
    pub fn from_str(inp: &str) -> (r: Result<Type, ParseError>)
        ensures
            r == (if inp@ == word_error() {
                Ok(Type::Error)
            } else if inp@ == word_warning() {
                Ok(Type::Warning)
            } else {
                Err(ParseError::UnknownType)
            }),
    {
        let cs = chars_of(inp);
        let we = vec!['e', 'r', 'r', 'o', 'r'];
        let ww = vec!['w', 'a', 'r', 'n', 'i', 'n', 'g'];
        if cs.len() == 5 && matches_at(&cs, 0, &we) {
            assert(cs@ =~= cs@.subrange(0, 5));
            Ok(Type::Error)
        } else if cs.len() == 7 && matches_at(&cs, 0, &ww) {
            assert(cs@ =~= cs@.subrange(0, 7));
            Ok(Type::Warning)
        } else {
            assert(inp@ != word_error()) by {
                if inp@ == word_error() {
                    assert(cs@.subrange(0, 5) =~= cs@);
                }
            }
            assert(inp@ != word_warning()) by {
                if inp@ == word_warning() {
                    assert(cs@.subrange(0, 7) =~= cs@);
                }
            }
            Err(ParseError::UnknownType)
        }
    }

    /// The type's word.
    pub fn to_string(&self) -> (r: String)
        ensures
            r@ == type_word(*self),
    {
        let mut r = String::new();
        match self {
            Type::Error => {
                push_char(&mut r, 'e');
                push_char(&mut r, 'r');
                push_char(&mut r, 'r');
                push_char(&mut r, 'o');
                push_char(&mut r, 'r');
            },
            Type::Warning => {
                push_char(&mut r, 'w');
                push_char(&mut r, 'a');
                push_char(&mut r, 'r');
                push_char(&mut r, 'n');
                push_char(&mut r, 'i');
                push_char(&mut r, 'n');
                push_char(&mut r, 'g');
            },
        }
        assert(r@ =~= type_word(*self));
        r
    }
}

fn read_header(l: &Vec<char>) -> (r: Option<(Type, Option<String>, String)>)
    ensures
        match r {
            None => parse_header(l@) is None,
            Some((t, c, m)) => parse_header(l@) == Some((t, opt_view(c), m@)),
        },
{
    let we = vec!['e', 'r', 'r', 'o', 'r'];
    let ww = vec!['w', 'a', 'r', 'n', 'i', 'n', 'g'];
    let cs = vec![':', ' '];
    let t: Type;
    let n: usize;
    if matches_at(l, 0, &we) {
        t = Type::Error;
        n = 5;
    } else if matches_at(l, 0, &ww) {
        t = Type::Warning;
        n = 7;
    } else {
        return None;
    }
    assert(type_word(t).len() == n);
    if n < l.len() && l[n] == '[' {
        if n + 1 < l.len() && l[n + 1] == 'E' {
            let d = scan_digits(l, n + 2);
            let close = n + 2 + d;
            if d > 0 && close < l.len() && l[close] == ']' && matches_at(l, close + 1, &cs) {
                let code = string_of(l, n + 1, close);
                let msg = string_of(l, close + 3, l.len());
                return Some((t, Some(code), msg));
            }
        }
        None
    } else if matches_at(l, n, &cs) {
        let msg = string_of(l, n + 2, l.len());
        Some((t, None, msg))
    } else {
        None
    }
}

fn read_location(l: &Vec<char>) -> (r: Result<(String, u32, u32), ParseError>)
    ensures
        match r {
            Ok((f, a, b)) => parse_location(l@) == Ok::<(Seq<char>, u32, u32), ParseError>((f@, a, b)),
            Err(e) => parse_location(l@) == Err::<(Seq<char>, u32, u32), ParseError>(e),
        },
{
    let sp = scan_spaces(l, 0);
    let arr = vec!['-', '-', '>', ' '];
    if sp == 0 || !matches_at(l, sp, &arr) {
        return Err(ParseError::BadLocation);
    }
    let p = sp + 4;
    let f = scan_path(l, p);
    if f == 0 || p + f >= l.len() {
        return Err(ParseError::BadLocation);
    }
    let a = p + f + 1;
    let d1 = scan_digits(l, a);
    if d1 == 0 || a + d1 >= l.len() || l[a + d1] != ':' {
        return Err(ParseError::BadLocation);
    }
    let b = a + d1 + 1;
    let d2 = scan_digits(l, b);
    if d2 == 0 || b + d2 != l.len() {
        return Err(ParseError::BadLocation);
    }
    let ln = digits_to_u32(l, a, a + d1);
    let col = digits_to_u32(l, b, b + d2);
    match (ln, col) {
        (Some(x), Some(y)) => Ok((string_of(l, p, p + f), x, y)),
        _ => Err(ParseError::NumberTooLarge),
    }
}

/// Lines `b[start..]` joined by newlines, or `None` where there are none.
fn read_details(b: &Vec<Vec<char>>, start: usize) -> (r: Option<String>)
    requires
        start <= b.len(),
    ensures
        opt_view(r) == details_of(lines_view(b@).subrange(start as int, b.len() as int)),
{
    let ghost ls = lines_view(b@);
    if start == b.len() {
        return None;
    }
    let mut out = String::new();
    push_chars(&mut out, &b[start]);
    assert(ls.subrange(start as int, start + 1) =~= seq![ls[start as int]]);
    let mut i: usize = start + 1;
    while i < b.len()
        invariant
            start < i <= b.len(),
            ls == lines_view(b@),
            out@ == join_lines(ls.subrange(start as int, i as int)),
        decreases b.len() - i,
    {
        push_char(&mut out, '\n');
        push_chars(&mut out, &b[i]);
        assert(ls.subrange(start as int, i + 1).drop_last() =~= ls.subrange(start as int, i as int));
        i = i + 1;
    }
    Some(out)
}

impl RustDiagnostic {
    pub fn new(
        type_: Type,
        num: Option<&str>,
        message: &str,
        file: Option<&str>,
        line: Option<u32>,
        column: Option<u32>,
        details: Option<&str>,
    ) -> (r: Self)
        ensures
            r@ == (DiagnosticView {
                kind: type_,
                code: opt_str_view(num),
                message: message@,
                file: opt_str_view(file),
                line: line,
                column: column,
                details: opt_str_view(details),
            }),
    {
        RustDiagnostic {
            type_,
            num: opt_string(num),
            message: String::from_str(message),
            file: opt_string(file),
            line,
            column,
            details: opt_string(details),
        }
    }

    /// Reads one diagnostic from the lines of its block.
    pub fn from_lines(b: &Vec<Vec<char>>) -> (r: Result<RustDiagnostic, ParseError>)
        ensures
            match r {
                Ok(d) => parse_block(lines_view(b@)) == Ok::<DiagnosticView, ParseError>(d@),
                Err(e) => parse_block(lines_view(b@)) == Err::<DiagnosticView, ParseError>(e),
            },
    {
        let ghost ls = lines_view(b@);
        if b.len() == 0 {
            return Err(ParseError::BadHeader);
        }
        let header = read_header(&b[0]);
        match header {
            None => Err(ParseError::BadHeader),
            Some((t, code, msg)) => {
                let mut located = false;
                if b.len() > 1 {
                    let sp = scan_spaces(&b[1], 0);
                    let arr = vec!['-', '-', '>'];
                    located = sp > 0 && matches_at(&b[1], sp, &arr);
                }
                if located {
                    match read_location(&b[1]) {
                        Err(e) => Err(e),
                        Ok((f, ln, col)) => {
                            let details = read_details(b, 2);
                            Ok(
                                RustDiagnostic {
                                    type_: t,
                                    num: code,
                                    message: msg,
                                    file: Some(f),
                                    line: Some(ln),
                                    column: Some(col),
                                    details,
                                },
                            )
                        },
                    }
                } else {
                    let details = read_details(b, 1);
                    Ok(
                        RustDiagnostic {
                            type_: t,
                            num: code,
                            message: msg,
                            file: None,
                            line: None,
                            column: None,
                            details,
                        },
                    )
                }
            },
        }
    }

    /// The diagnostic as text, in the form that the compiler prints it.
    pub fn to_string(&self) -> (r: String)
        ensures
            r@ == render(self@),
    {
        let mut out = self.type_.to_string();
        self.push_header_rest(&mut out);
        self.push_location(&mut out);
        self.push_details(&mut out);
        assert(out@ =~= render(self@));
        out
    }

    fn push_header_rest(&self, out: &mut String)
        requires
            old(out)@ == type_word(self.type_),
        ensures
            final(out)@ == header_text(self@),
    {
        match &self.num {
            Some(n) => {
                push_char(out, '[');
                push_str(out, n.as_str());
                push_char(out, ']');
            },
            None => {},
        }
        push_char(out, ':');
        push_char(out, ' ');
        push_str(out, self.message.as_str());
        push_char(out, '\n');
        assert(out@ =~= header_text(self@));
    }

    fn push_location(&self, out: &mut String)
        ensures
            final(out)@ == old(out)@ + location_text(self@),
    {
        match &self.file {
            Some(f) => {
                push_char(out, ' ');
                push_char(out, ' ');
                push_char(out, '-');
                push_char(out, '-');
                push_char(out, '>');
                push_char(out, ' ');
                push_str(out, f.as_str());
                push_char(out, ':');
                let ghost a = out@;
                match self.line {
                    Some(v) => push_decimal(out, v),
                    None => push_char(out, '-'),
                }
                assert(out@ =~= a + number_text(self.line));
                push_char(out, ':');
                let ghost b = out@;
                match self.column {
                    Some(v) => push_decimal(out, v),
                    None => push_char(out, '-'),
                }
                assert(out@ =~= b + number_text(self.column));
                push_char(out, '\n');
            },
            None => {},
        }
        assert(out@ =~= old(out)@ + location_text(self@));
    }

    fn push_details(&self, out: &mut String)
        ensures
            final(out)@ == old(out)@ + details_text(self@),
    {
        match &self.details {
            Some(t) => {
                push_str(out, t.as_str());
                push_char(out, '\n');
            },
            None => {},
        }
        assert(out@ =~= old(out)@ + details_text(self@));
    }
}

} // verus!
