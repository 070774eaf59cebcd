//! The pressure files and the parsing of their lines.

use vstd::prelude::*;

use crate::error::{view_result, ParseError, ParseErrorView, PsiError};
use crate::text::{
    all_digits, decimal_of, decimal_render, decimal_text, digits_value, find_char, is_ascii_ws,
    is_canonical_decimal, is_decimal_u64, lemma_decimal_no_ws, lemma_decimal_round_trip,
    lemma_decimal_text, lemma_integer_round_trip, lemma_numeral_first, lemma_position_of,
    lemma_render_reads_back, lemma_words_cons, lemma_words_single, lines, no_ws,
    parse_digits, position_of, push_decimal, same_text, split_lines, split_words, views_of, words,
    Decimal,
};

verus! {

pub const CPU_PRESSURE_FILEPATH: &'static str = "/proc/pressure/cpu";

pub const IO_PRESSURE_FILEPATH: &'static str = "/proc/pressure/io";

pub const MEMORY_PRESSURE_FILEPATH: &'static str = "/proc/pressure/memory";

/// The resource that a pressure file describes.
#[derive(Debug, Clone, Copy, PartialEq, Eq, Structural)]
pub enum PsiKind {
    Memory,
    IO,
    CPU,
}

pub open spec fn pressure_path(kind: PsiKind) -> Seq<char> {
    match kind {
        PsiKind::Memory => MEMORY_PRESSURE_FILEPATH@,
        PsiKind::IO => IO_PRESSURE_FILEPATH@,
        PsiKind::CPU => CPU_PRESSURE_FILEPATH@,
    }
}

pub open spec fn kind_name(kind: PsiKind) -> Seq<char> {
    match kind {
        PsiKind::Memory => "memory"@,
        PsiKind::IO => "io"@,
        PsiKind::CPU => "cpu"@,
    }
}

impl PsiKind {
    /// The pressure file of this resource.
    pub fn file_path(&self) -> (r: &'static str)
        ensures
            r@ == pressure_path(*self),
    {
        match self {
            PsiKind::Memory => MEMORY_PRESSURE_FILEPATH,
            PsiKind::IO => IO_PRESSURE_FILEPATH,
            PsiKind::CPU => CPU_PRESSURE_FILEPATH,
        }
    }

    /// The resource's name: `memory`, `io` or `cpu`.
    pub fn as_str(&self) -> (r: &'static str)
        ensures
            r@ == kind_name(*self),
    {
        match self {
            PsiKind::Memory => "memory",
            PsiKind::IO => "io",
            PsiKind::CPU => "cpu",
        }
    }
}

/// Which line of a pressure file.
#[derive(Debug, Clone, Copy, PartialEq, Eq, Structural)]
pub enum PsiLine {
    /// The `some` line: at least one task stalled.
    Partial,
    /// The `full` line: all tasks stalled at once.
    Full,
}

pub open spec fn line_word(line: PsiLine) -> Seq<char> {
    match line {
        PsiLine::Partial => "some"@,
        PsiLine::Full => "full"@,
    }
}

pub open spec fn line_of(w: Seq<char>) -> Option<PsiLine> {
    if w == "some"@ {
        Option::Some(PsiLine::Partial)
    } else if w == "full"@ {
        Option::Some(PsiLine::Full)
    } else {
        Option::None
    }
}

impl PsiLine {
    /// The line's leading word: `some` or `full`.
    pub fn as_str(&self) -> (r: &'static str)
        ensures
            r@ == line_word(*self),
    {
        match self {
            PsiLine::Partial => "some",
            PsiLine::Full => "full",
        }
    }

    /// Reads a line's leading word.
    pub fn parse(w: &str) -> (r: Result<PsiLine, ParseError>)
        ensures
            view_result(r) == match line_of(w@) {
                Option::Some(l) => Ok(l),
                Option::None => Err(ParseErrorView::UnexpectedTerm(w@)),
            },
    {
        if same_text(w, "some") {
            Ok(PsiLine::Partial)
        } else if same_text(w, "full") {
            Ok(PsiLine::Full)
        } else {
            Err(ParseError::UnexpectedTerm(String::from_str(w)))
        }
    }
}

/// One line of a pressure file: the stall percentages over the last 10, 60
/// and 300 seconds, and the total stall time in microseconds.
#[derive(Debug, Clone, Copy, PartialEq, Eq, Structural)]
pub struct Psi {
    pub line: PsiLine,
    pub avg10: Decimal,
    pub avg60: Decimal,
    pub avg300: Decimal,
    pub total: u64,
}

/// Whether a `key=value` word has the key `key`.
pub open spec fn has_key(term: Seq<char>, key: Seq<char>) -> bool {
    let k = position_of(term, '=') as int;
    k < term.len() && term.subrange(0, k) == key
}

/// The value of a `key=value` word: what follows the first `=`.
pub open spec fn field_value(term: Seq<char>) -> Seq<char> {
    term.subrange(position_of(term, '=') as int + 1, term.len() as int)
}

/// The average that word `j` of the words `w` of line `s` gives under `key`.
pub open spec fn avg_field(s: Seq<char>, w: Seq<Seq<char>>, j: int, key: Seq<char>) -> Result<
    Decimal,
    ParseErrorView,
> {
    if j >= w.len() {
        Err(ParseErrorView::UnexpectedTerm(s))
    } else if !has_key(w[j], key) {
        Err(ParseErrorView::UnexpectedTerm(w[j]))
    } else if !is_decimal_u64(field_value(w[j])) {
        Err(ParseErrorView::AvgParseError(field_value(w[j])))
    } else {
        Ok(decimal_of(field_value(w[j])))
    }
}

/// Unsigned integer text that fits in a `u64`.
pub open spec fn is_u64_text(t: Seq<char>) -> bool {
    t.len() > 0 && all_digits(t) && digits_value(t) <= u64::MAX
}

/// The total stall time that word `j` of the words `w` of line `s` gives.
pub open spec fn total_field(s: Seq<char>, w: Seq<Seq<char>>, j: int) -> Result<u64, ParseErrorView> {
    if j >= w.len() {
        Err(ParseErrorView::UnexpectedTerm(s))
    } else if !has_key(w[j], "total"@) {
        Err(ParseErrorView::UnexpectedTerm(w[j]))
    } else if !is_u64_text(field_value(w[j])) {
        Err(ParseErrorView::TotalParseError(field_value(w[j])))
    } else {
        Ok(digits_value(field_value(w[j])) as u64)
    }
}

/// What a line `{some|full} avg10=X avg60=Y avg300=Z total=W` reads as; the
/// first word out of place decides the error.
pub open spec fn parse_line_spec(s: Seq<char>) -> Result<Psi, ParseErrorView> {
    let w = words(s);
    if w.len() == 0 {
        Err(ParseErrorView::UnexpectedTerm(s))
    } else {
        match line_of(w[0]) {
            Option::None => Err(ParseErrorView::UnexpectedTerm(w[0])),
            Option::Some(line) => match avg_field(s, w, 1, "avg10"@) {
                Err(e) => Err(e),
                Ok(avg10) => match avg_field(s, w, 2, "avg60"@) {
                    Err(e) => Err(e),
                    Ok(avg60) => match avg_field(s, w, 3, "avg300"@) {
                        Err(e) => Err(e),
                        Ok(avg300) => match total_field(s, w, 4) {
                            Err(e) => Err(e),
                            Ok(total) => if w.len() > 5 {
                                Err(ParseErrorView::UnexpectedTerm(s))
                            } else {
                                Ok(Psi { line, avg10, avg60, avg300, total })
                            },
                        },
                    },
                },
            },
        }
    }
}

/// The text of a line, as the kernel writes it.
pub open spec fn line_text(p: Psi) -> Seq<char> {
    line_word(p.line) + " avg10="@ + decimal_render(p.avg10.mantissa as nat, p.avg10.scale as nat)
        + " avg60="@ + decimal_render(p.avg60.mantissa as nat, p.avg60.scale as nat)
        + " avg300="@ + decimal_render(p.avg300.mantissa as nat, p.avg300.scale as nat)
        + " total="@ + decimal_text(p.total as nat)
}

/// Splits word `term` at its first `=` and checks its key.
fn field_text<'a>(s: &str, w: &Vec<&'a str>, j: usize, key: &str) -> (r: Result<&'a str, ParseError>)
    ensures
        match r {
            Ok(v) => j < w@.len() && has_key(w@[j as int]@, key@) && v@ == field_value(w@[j as int]@),
            Err(e) => e@ == if j >= w@.len() {
                ParseErrorView::UnexpectedTerm(s@)
            } else {
                ParseErrorView::UnexpectedTerm(w@[j as int]@)
            } && (j < w@.len() ==> !has_key(w@[j as int]@, key@)),
        },
{
    if j >= w.len() {
        return Err(ParseError::UnexpectedTerm(String::from_str(s)));
    }
    let term = w[j];
    let n = term.unicode_len();
    let k = find_char(term, '=');
    if k == n || !same_text(term.substring_char(0, k), key) {
        return Err(ParseError::UnexpectedTerm(String::from_str(term)));
    }
    Ok(term.substring_char(k + 1, n))
}

fn parse_avg(s: &str, w: &Vec<&str>, j: usize, key: &str) -> (r: Result<Decimal, ParseError>)
    ensures
        view_result(r) == avg_field(s@, views_of(w@), j as int, key@),
{
    let v = field_text(s, w, j, key)?;
    match Decimal::parse(v) {
        Option::Some(d) => Ok(d),
        Option::None => Err(ParseError::AvgParseError(String::from_str(v))),
    }
}

fn parse_total(s: &str, w: &Vec<&str>, j: usize) -> (r: Result<u64, ParseError>)
    ensures
        view_result(r) == total_field(s@, views_of(w@), j as int),
{
    let v = field_text(s, w, j, "total")?;
    match parse_digits(v) {
        Option::Some(t) => Ok(t),
        Option::None => Err(ParseError::TotalParseError(String::from_str(v))),
    }
}

impl Psi {
    /// Parses one line of a pressure file.
    pub fn parse(s: &str) -> (r: Result<Psi, ParseError>)
        ensures
            view_result(r) == parse_line_spec(s@),
    {
        let w = split_words(s);
        if w.len() == 0 {
            return Err(ParseError::UnexpectedTerm(String::from_str(s)));
        }
        let line = PsiLine::parse(w[0])?;
        let avg10 = parse_avg(s, &w, 1, "avg10")?;
        let avg60 = parse_avg(s, &w, 2, "avg60")?;
        let avg300 = parse_avg(s, &w, 3, "avg300")?;
        let total = parse_total(s, &w, 4)?;
        if w.len() > 5 {
            return Err(ParseError::UnexpectedTerm(String::from_str(s)));
        }
        Ok(Psi { line, avg10, avg60, avg300, total })
    }

    /// Writes the line as the kernel does.
    pub fn to_line(&self) -> (r: String)
        ensures
            r@ == line_text(*self),
    {
        let mut out = String::from_str(self.line.as_str());
        out.append(" avg10=");
        out.append(self.avg10.render().as_str());
        out.append(" avg60=");
        out.append(self.avg60.render().as_str());
        out.append(" avg300=");
        out.append(self.avg300.render().as_str());
        out.append(" total=");
        push_decimal(&mut out, self.total);
        out
    }
}

/// The `some` and the `full` line of one reading of a pressure file.
#[derive(Debug, Clone, Copy, PartialEq, Eq, Structural)]
pub struct AllPsiStats {
    pub some: Psi,
    pub full: Psi,
}

/// The lines `ls` parsed in order; the first that fails decides the error.
pub open spec fn parse_lines(ls: Seq<Seq<char>>) -> Result<Seq<Psi>, ParseErrorView>
    decreases ls.len(),
{
    if ls.len() == 0 {
        Ok(Seq::empty())
    } else {
        match parse_line_spec(ls[0]) {
            Err(e) => Err(e),
            Ok(p) => match parse_lines(ls.drop_first()) {
                Err(e) => Err(e),
                Ok(ps) => Ok(seq![p] + ps),
            },
        }
    }
}

/// The last of `ps` that is a `line` line.
pub open spec fn last_of_line(ps: Seq<Psi>, line: PsiLine) -> Option<Psi>
    decreases ps.len(),
{
    if ps.len() == 0 {
        Option::None
    } else if ps.last().line == line {
        Option::Some(ps.last())
    } else {
        last_of_line(ps.drop_last(), line)
    }
}

/// What the text of a pressure file reads as: every line must parse, and
/// of each kind the last line counts.
pub open spec fn parse_all_spec(s: Seq<char>) -> Result<AllPsiStats, ParseErrorView> {
    match parse_lines(lines(s)) {
        Err(e) => Err(e),
        Ok(ps) => match last_of_line(ps, PsiLine::Partial) {
            Option::None => Err(ParseErrorView::MissingLine(PsiLine::Partial)),
            Option::Some(some) => match last_of_line(ps, PsiLine::Full) {
                Option::None => Err(ParseErrorView::MissingLine(PsiLine::Full)),
                Option::Some(full) => Ok(AllPsiStats { some, full }),
            },
        },
    }
}

spec fn after(acc: Seq<Psi>, r: Result<Seq<Psi>, ParseErrorView>) -> Result<Seq<Psi>, ParseErrorView> {
    match r {
        Ok(ps) => Ok(acc + ps),
        Err(e) => Err(e),
    }
}

impl AllPsiStats {
    /// Parses the whole text of a pressure file.
    pub fn parse_all(s: &str) -> (r: Result<AllPsiStats, ParseError>)
        ensures
            view_result(r) == parse_all_spec(s@),
    {
        let ls = split_lines(s);
        let ghost lv = views_of(ls@);
        let n = ls.len();
        let mut some: Option<Psi> = Option::None;
        let mut full: Option<Psi> = Option::None;
        let ghost mut acc: Seq<Psi> = Seq::empty();
        let mut i: usize = 0;
        assert(lv.subrange(0, n as int) =~= lv);
        while i < n
            invariant
                n == ls@.len(),
                lv == views_of(ls@),
                lv == lines(s@),
                i <= n,
                parse_lines(lv) == after(acc, parse_lines(lv.subrange(i as int, n as int))),
                some == last_of_line(acc, PsiLine::Partial),
                full == last_of_line(acc, PsiLine::Full),
            decreases n - i,
        {
            let ghost rest = lv.subrange(i as int, n as int);
            assert(rest[0] == ls@[i as int]@);
            assert(rest.drop_first() =~= lv.subrange(i + 1, n as int));
            let p = Psi::parse(ls[i])?;
            proof {
                let next = parse_lines(lv.subrange(i + 1, n as int));
                match next {
                    Ok(ps) => {
                        assert(acc + (seq![p] + ps) =~= acc.push(p) + ps);
                    },
                    Err(e) => {},
                }
                assert(acc.push(p).drop_last() =~= acc);
                acc = acc.push(p);
            }
            if p.line == PsiLine::Partial {
                some = Option::Some(p);
            } else {
                full = Option::Some(p);
            }
            i = i + 1;
        }
        assert(acc + Seq::<Psi>::empty() =~= acc);
        match some {
            Option::None => Err(ParseError::MissingLine(PsiLine::Partial)),
            Option::Some(some) => match full {
                Option::None => Err(ParseError::MissingLine(PsiLine::Full)),
                Option::Some(full) => Ok(AllPsiStats { some, full }),
            },
        }
    }

    /// The reading's line of the given kind.
    pub fn line(&self, line: PsiLine) -> (r: Psi)
        ensures
            r == match line {
                PsiLine::Partial => self.some,
                PsiLine::Full => self.full,
            },
    {
        match line {
            PsiLine::Partial => self.some,
            PsiLine::Full => self.full,
        }
    }

    /// Writes the reading as the kernel does: the `some` line, then the `full` line.
    pub fn to_text(&self) -> (r: String)
        ensures
            r@ == line_text(self.some) + "\n"@ + line_text(self.full),
    {
        let mut out = self.some.to_line();
        out.append("\n");
        out.append(self.full.to_line().as_str());
        out
    }
}

/// A line whose words after the first do not begin with `avg10=` fails on
/// its second word, whatever follows: keys out of order are refused.
pub proof fn lemma_key_out_of_order(s: Seq<char>)
    requires
        words(s).len() >= 2,
        line_of(words(s)[0]) is Some,
        !has_key(words(s)[1], "avg10"@),
    ensures
        parse_line_spec(s) == Err::<Psi, ParseErrorView>(ParseErrorView::UnexpectedTerm(words(s)[1])),
{
}

impl std::str::FromStr for PsiLine {
    type Err = PsiError;

    fn from_str(s: &str) -> (r: Result<PsiLine, PsiError>)
        ensures
            match r {
                Ok(l) => line_of(s@) == Option::Some(l),
                Err(PsiError::PsiParseError(e)) => line_of(s@) is None && e@
                    == ParseErrorView::UnexpectedTerm(s@),
                Err(_) => false,
            },
    {
        match PsiLine::parse(s) {
            Ok(l) => Ok(l),
            Err(e) => Err(PsiError::PsiParseError(e)),
        }
    }
}

impl std::str::FromStr for Psi {
    type Err = PsiError;

    fn from_str(s: &str) -> (r: Result<Psi, PsiError>)
        ensures
            match r {
                Ok(p) => parse_line_spec(s@) == Ok::<Psi, ParseErrorView>(p),
                Err(PsiError::PsiParseError(e)) => parse_line_spec(s@) == Err::<Psi, ParseErrorView>(
                    e@,
                ),
                Err(_) => false,
            },
    {
        match Psi::parse(s) {
            Ok(p) => Ok(p),
            Err(e) => Err(PsiError::PsiParseError(e)),
        }
    }
}

/// Unsigned integer text without a leading zero that fits in a `u64`.
pub open spec fn is_canonical_integer(w: Seq<char>) -> bool {
    is_u64_text(w) && (w[0] != '0' || w.len() == 1)
}

/// The line `<some|full> avg10=X avg60=Y avg300=Z total=W`.
pub open spec fn compose_line(
    line: PsiLine,
    x: Seq<char>,
    y: Seq<char>,
    z: Seq<char>,
    w: Seq<char>,
) -> Seq<char> {
    line_word(line) + " avg10="@ + x + " avg60="@ + y + " avg300="@ + z + " total="@ + w
}

proof fn lemma_field(key: Seq<char>, v: Seq<char>)
    requires
        forall|i: int| 0 <= i < key.len() ==> key[i] != '=',
    ensures
        has_key(key + seq!['='] + v, key),
        field_value(key + seq!['='] + v) == v,
{
    let term = key + seq!['='] + v;
    lemma_position_of(term, '=', key.len() as int);
    assert(term.subrange(0, key.len() as int) =~= key);
    assert(term.subrange(key.len() as int + 1, term.len() as int) =~= v);
}

proof fn lemma_field_no_ws(key: Seq<char>, v: Seq<char>)
    requires
        no_ws(key),
        no_ws(v),
    ensures
        no_ws(key + seq!['='] + v),
{
    let term = key + seq!['='] + v;
    assert forall|i: int| 0 <= i < term.len() implies !is_ascii_ws(#[trigger] term[i]) by {
        if i < key.len() {
            assert(term[i] == key[i]);
        } else if i > key.len() {
            assert(term[i] == v[i - key.len() - 1]);
        }
    }
}

/// A well-formed line whose numbers are written canonically (no leading
/// zeros but the one before a point) parses to the numbers that it writes,
/// and writing the parsed line gives the text back exactly.
pub proof fn lemma_line_round_trip(
    line: PsiLine,
    x: Seq<char>,
    y: Seq<char>,
    z: Seq<char>,
    w: Seq<char>,
)
    requires
        is_canonical_decimal(x),
        is_canonical_decimal(y),
        is_canonical_decimal(z),
        x.len() <= usize::MAX,
        y.len() <= usize::MAX,
        z.len() <= usize::MAX,
        is_canonical_integer(w),
    ensures
        parse_line_spec(compose_line(line, x, y, z, w)) matches Ok(p) && {
            &&& p.line == line
            &&& p.avg10 == decimal_of(x)
            &&& p.avg60 == decimal_of(y)
            &&& p.avg300 == decimal_of(z)
            &&& p.total == digits_value(w) as u64
            &&& decimal_render(p.avg10.mantissa as nat, p.avg10.scale as nat) == x
            &&& decimal_render(p.avg60.mantissa as nat, p.avg60.scale as nat) == y
            &&& decimal_render(p.avg300.mantissa as nat, p.avg300.scale as nat) == z
            &&& decimal_text(p.total as nat) == w
            &&& line_text(p) == compose_line(line, x, y, z, w)
        },
{
    reveal_strlit("some");
    reveal_strlit("full");
    reveal_strlit("avg10");
    reveal_strlit("avg60");
    reveal_strlit("avg300");
    reveal_strlit("total");
    reveal_strlit(" avg10=");
    reveal_strlit(" avg60=");
    reveal_strlit(" avg300=");
    reveal_strlit(" total=");
    let lw = line_word(line);
    let sp = seq![' '];
    let eq = seq!['='];
    let t1 = "avg10"@ + eq + x;
    let t2 = "avg60"@ + eq + y;
    let t3 = "avg300"@ + eq + z;
    let t4 = "total"@ + eq + w;
    let s = compose_line(line, x, y, z, w);
    let r4 = t4;
    let r3 = t3 + sp + r4;
    let r2 = t2 + sp + r3;
    let r1 = t1 + sp + r2;
    assert(s =~= lw + sp + r1);
    lemma_decimal_no_ws(x);
    lemma_decimal_no_ws(y);
    lemma_decimal_no_ws(z);
    assert(no_ws(w));
    lemma_field_no_ws("avg10"@, x);
    lemma_field_no_ws("avg60"@, y);
    lemma_field_no_ws("avg300"@, z);
    lemma_field_no_ws("total"@, w);
    lemma_words_single(r4);
    lemma_words_cons(t3, r4);
    lemma_words_cons(t2, r3);
    lemma_words_cons(t1, r2);
    lemma_words_cons(lw, r1);
    let ws = words(s);
    assert(ws =~= seq![lw, t1, t2, t3, t4]);
    assert(line_of(lw) == Option::Some(line));
    lemma_field("avg10"@, x);
    lemma_field("avg60"@, y);
    lemma_field("avg300"@, z);
    lemma_field("total"@, w);
    lemma_decimal_round_trip(x);
    lemma_decimal_round_trip(y);
    lemma_decimal_round_trip(z);
    lemma_integer_round_trip(w);
}

/// Writing a line as the kernel does and parsing the text gives the line
/// back, for every line whose text fits in memory.
pub proof fn lemma_line_reads_back(p: Psi)
    requires
        line_text(p).len() <= usize::MAX,
    ensures
        parse_line_spec(line_text(p)) == Ok::<Psi, ParseErrorView>(p),
{
    let x = decimal_render(p.avg10.mantissa as nat, p.avg10.scale as nat);
    let y = decimal_render(p.avg60.mantissa as nat, p.avg60.scale as nat);
    let z = decimal_render(p.avg300.mantissa as nat, p.avg300.scale as nat);
    let w = decimal_text(p.total as nat);
    lemma_render_reads_back(p.avg10.mantissa, p.avg10.scale);
    lemma_render_reads_back(p.avg60.mantissa, p.avg60.scale);
    lemma_render_reads_back(p.avg300.mantissa, p.avg300.scale);
    lemma_decimal_text(p.total as nat);
    lemma_numeral_first(p.total as nat);
    assert(line_text(p) == compose_line(p.line, x, y, z, w));
    lemma_line_round_trip(p.line, x, y, z, w);
}

/// A line's leading word reads back as that line.
pub proof fn lemma_line_word_reads_back(line: PsiLine)
    ensures
        line_of(line_word(line)) == Option::Some(line),
{
    reveal_strlit("some");
    reveal_strlit("full");
    assert("some"@[0] != "full"@[0]);
}

} // verus!
