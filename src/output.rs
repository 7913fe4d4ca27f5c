//! A column-oriented log-line formatter: a format string with `%X` column
//! escapes and `%%` for a literal percent sign; each column is padded to the
//! widest value it has shown so far.

use vstd::prelude::*;

use crate::common::push_char;

verus! {

/// Where a column's text sits within its width.
#[derive(Debug, Eq, PartialEq, Copy, Clone, Structural)]
pub enum Alignment {
    Left,
    Right,
}

/// Why a format string was refused.
#[derive(Debug, Copy, Clone, PartialEq, Eq, Structural)]
pub enum ParseError {
    /// `%` followed by a character that names no column.
    InvalidPart(char),
    /// `%` at the end of the string.
    Eof,
}

/// A kind of column that a format string can name, and how it shows a row.
pub trait Column: Sized + Copy {
    type Data;

    /// The column that `%ch` names.
    spec fn spec_by_char(ch: char) -> Option<Self>;

    /// The text of the column for one row.
    spec fn spec_to_string(&self, data: &Self::Data) -> Seq<char>;

    /// Whether the column is shown without padding.
    spec fn spec_constant_size(&self) -> bool;

    spec fn spec_alignment(&self) -> Alignment;

    fn by_char(ch: char) -> (r: Option<Self>)
        ensures
            r == Self::spec_by_char(ch),
    ;

    fn to_string(&self, data: &Self::Data) -> (r: String)
        ensures
            r@ == self.spec_to_string(data),
    ;

    fn constant_size(&self) -> (r: bool)
        ensures
            r == self.spec_constant_size(),
    ;

    fn alignment(&self) -> (r: Alignment)
        ensures
            r == self.spec_alignment(),
    ;
}

/// A piece of a parsed format as the contracts see it.
pub enum PartView<T> {
    Literal(Seq<char>),
    Column(T),
}

enum FormatPart<T> {
    Literal(String),
    Column(T),
}

impl<T> FormatPart<T> {
    spec fn view(&self) -> PartView<T> {
        match self {
            FormatPart::Literal(l) => PartView::Literal(l@),
            FormatPart::Column(c) => PartView::Column(*c),
        }
    }
}

/// `p` in front of a parse result.
pub open spec fn prepend<T>(p: Seq<PartView<T>>, r: Result<Seq<PartView<T>>, ParseError>) -> Result<
    Seq<PartView<T>>,
    ParseError,
> {
    match r {
        Ok(q) => Ok(p + q),
        Err(e) => Err(e),
    }
}

/// The parts of `s` from position `i` on, with `partial` the literal text
/// read so far: literal runs and columns alternate, starting and ending with
/// a (possibly empty) literal.
pub open spec fn parse_from<T: Column>(s: Seq<char>, i: int, partial: Seq<char>) -> Result<
    Seq<PartView<T>>,
    ParseError,
>
    decreases s.len() - i,
{
    if i >= s.len() || i < 0 {
        Ok(seq![PartView::Literal(partial)])
    } else if s[i] != '%' {
        parse_from::<T>(s, i + 1, partial.push(s[i]))
    } else if i + 1 >= s.len() {
        Err(ParseError::Eof)
    } else if s[i + 1] == '%' {
        parse_from::<T>(s, i + 2, partial.push('%'))
    } else {
        match T::spec_by_char(s[i + 1]) {
            None => Err(ParseError::InvalidPart(s[i + 1])),
            Some(c) => prepend(
                seq![PartView::Literal(partial), PartView::Column(c)],
                parse_from::<T>(s, i + 2, Seq::empty()),
            ),
        }
    }
}

/// The parts of the format string `s`.
pub open spec fn parse_format<T: Column>(s: Seq<char>) -> Result<Seq<PartView<T>>, ParseError> {
    parse_from::<T>(s, 0, Seq::empty())
}

/// `text` padded with spaces to `width`, on the side that `align` leaves free.
pub open spec fn padded(text: Seq<char>, width: int, align: Alignment) -> Seq<char> {
    let fill = Seq::new((width - text.len()) as nat, |i: int| ' ');
    match align {
        Alignment::Left => text + fill,
        Alignment::Right => fill + text,
    }
}

/// The width of a part once it has shown `data`: a padded column grows to
/// its widest text so far; other parts keep theirs.
pub open spec fn part_width<T: Column>(p: PartView<T>, w: int, data: &T::Data) -> int {
    match p {
        PartView::Literal(_) => w,
        PartView::Column(c) => if c.spec_constant_size() {
            w
        } else if c.spec_to_string(data).len() > w {
            c.spec_to_string(data).len() as int
        } else {
            w
        },
    }
}

/// How a part shows `data`, given the width it had before.
pub open spec fn render_part<T: Column>(p: PartView<T>, w: int, data: &T::Data) -> Seq<char> {
    match p {
        PartView::Literal(l) => l,
        PartView::Column(c) => if c.spec_constant_size() {
            c.spec_to_string(data)
        } else {
            padded(c.spec_to_string(data), part_width(p, w, data), c.spec_alignment())
        },
    }
}

/// The line that `parts` with widths `widths` show for `data`.
pub open spec fn render<T: Column>(parts: Seq<PartView<T>>, widths: Seq<int>, data: &T::Data) -> Seq<char>
    decreases parts.len(),
{
    if parts.len() == 0 {
        Seq::empty()
    } else {
        render(parts.drop_last(), widths, data) + render_part(
            parts.last(),
            widths[parts.len() - 1],
            data,
        )
    }
}

/// Appends `k` spaces.
fn push_spaces(out: &mut String, k: usize)
    ensures
        final(out)@ == old(out)@ + Seq::new(k as nat, |i: int| ' '),
{
    let mut i: usize = 0;
    while i < k
        invariant
            i <= k,
            out@ == old(out)@ + Seq::new(i as nat, |j: int| ' '),
        decreases k - i,
    {
        push_char(out, ' ');
        i += 1;
        assert(out@ =~= old(out)@ + Seq::new(i as nat, |j: int| ' '));
    }
}

/// A format bound to one row; turning it into a string records the row's
/// widths in the format.
pub struct BoundTable<'a, T: Column> {
    table: &'a mut TableFormat<T>,
    data: &'a T::Data,
}

impl<'a, T: Column> BoundTable<'a, T> {
    pub closed spec fn table(&self) -> TableFormat<T> {
        *self.table
    }

    pub closed spec fn data(&self) -> T::Data {
        *self.data
    }

    /// The row formatted as `TableFormat::format_row` does it.
    pub fn to_string(self) -> (r: String)
        requires
            self.table().wf(),
        ensures
            r@ == render(self.table().parts(), self.table().widths(), &self.data()),
    {
        self.table.format_row(self.data)
    }
}

/// The decimal digit `d`, for `d < 10`.
pub open spec fn digit_char(d: nat) -> char {
    ((d + 48) as u8) as char
}

/// `n` in decimal, without leading zeros.
pub open spec fn decimal_spec(n: nat) -> Seq<char>
    decreases n,
{
    if n < 10 {
        seq![digit_char(n)]
    } else {
        decimal_spec(n / 10).push(digit_char(n % 10))
    }
}

/// Appends `n` in decimal.
pub fn push_decimal(out: &mut String, n: u64)
    ensures
        final(out)@ == old(out)@ + decimal_spec(n as nat),
    decreases n,
{
    if n >= 10 {
        push_decimal(out, n / 10);
    }
    let d: u8 = (n % 10) as u8;
    push_char(out, (48u8 + d) as char);
    proof {
        if n >= 10 {
            assert(old(out)@ + decimal_spec((n / 10) as nat) + seq![digit_char((n % 10) as nat)] =~= old(
                out,
            )@ + decimal_spec(n as nat));
        } else {
            assert(old(out)@ + seq![digit_char(n as nat)] =~= old(out)@ + decimal_spec(n as nat));
        }
    }
}

/// Appends the characters of `s`.
pub fn push_str(out: &mut String, s: &str)
    ensures
        final(out)@ == old(out)@ + s@,
{
    out.append(s);
}

/// `=>` when the datagram goes into the tunnel, `<=` otherwise.
pub open spec fn arrow(into: bool) -> Seq<char> {
    if into {
        seq!['=', '>']
    } else {
        seq!['<', '=']
    }
}

/// An address, or `???` when it is not known.
pub open spec fn maybe_text(a: Option<String>) -> Seq<char> {
    match a {
        Some(t) => t@,
        None => seq!['?', '?', '?'],
    }
}

pub fn push_arrow(out: &mut String, into: bool)
    ensures
        final(out)@ == old(out)@ + arrow(into),
{
    if into {
        push_char(out, '=');
        push_char(out, '>');
    } else {
        push_char(out, '<');
        push_char(out, '=');
    }
    assert(out@ =~= old(out)@ + arrow(into));
}

pub fn push_maybe(out: &mut String, a: &Option<String>)
    ensures
        final(out)@ == old(out)@ + maybe_text(*a),
{
    match a {
        Some(t) => {
            push_str(out, t.as_str());
        },
        None => {
            push_char(out, '?');
            push_char(out, '?');
            push_char(out, '?');
            assert(out@ =~= old(out)@ + maybe_text(*a));
        },
    }
}

/// A parsed format, with the width each column has reached.
pub struct TableFormat<T> {
    /// One width per part; only those of padded columns change.
    sizes: Vec<usize>,
    format: Vec<FormatPart<T>>,
}

impl<T: Column> TableFormat<T> {
    pub closed spec fn parts(&self) -> Seq<PartView<T>> {
        self.format@.map_values(|p: FormatPart<T>| p.view())
    }

    pub closed spec fn widths(&self) -> Seq<int> {
        self.sizes@.map_values(|w: usize| w as int)
    }

    pub closed spec fn wf(&self) -> bool {
        self.sizes@.len() == self.format@.len()
    }

    fn new(format: Vec<FormatPart<T>>) -> (r: Self)
        ensures
            r.wf(),
            r.parts() == format@.map_values(|p: FormatPart<T>| p.view()),
            r.widths() == Seq::new(format@.len(), |i: int| 0int),
    {
        let mut sizes: Vec<usize> = Vec::new();
        let mut i: usize = 0;
        while i < format.len()
            invariant
                i <= format@.len(),
                sizes@.len() == i,
                forall|j: int| 0 <= j < i ==> sizes@[j] == 0,
            decreases format@.len() - i,
        {
            sizes.push(0);
            i += 1;
        }
        let r = TableFormat { sizes, format };
        assert(r.widths() =~= Seq::new(r.format@.len(), |i: int| 0int));
        r
    }

    /// Parses a format string: `%%` stands for `%`, `%X` for the column
    /// that `X` names.
    pub fn parse_spec(s: &str) -> (r: Result<Self, ParseError>)
        ensures
            match r {
                Ok(t) => t.wf() && parse_format::<T>(s@) == Ok::<Seq<PartView<T>>, ParseError>(t.parts())
                    && t.widths() == Seq::new(t.parts().len(), |i: int| 0int),
                Err(e) => parse_format::<T>(s@) == Err::<Seq<PartView<T>>, ParseError>(e),
            },
    {
        let n = s.unicode_len();
        let mut parts: Vec<FormatPart<T>> = Vec::new();
        let mut partial = String::new();
        let mut i: usize = 0;
        while i < n
            invariant
                n == s@.len(),
                i <= n + 1,
                parse_format::<T>(s@) == prepend(
                    parts@.map_values(|p: FormatPart<T>| p.view()),
                    parse_from::<T>(s@, i as int, partial@),
                ),
            decreases n + 1 - i,
        {
            let ghost before = parts@.map_values(|p: FormatPart<T>| p.view());
            let ch = s.get_char(i);
            if ch != '%' {
                push_char(&mut partial, ch);
                i += 1;
            } else if i + 1 >= n {
                return Err(ParseError::Eof);
            } else {
                let next = s.get_char(i + 1);
                if next == '%' {
                    push_char(&mut partial, '%');
                    i += 2;
                } else {
                    match T::by_char(next) {
                        None => {
                            return Err(ParseError::InvalidPart(next));
                        },
                        Some(c) => {
                            let lit = partial;
                            partial = String::new();
                            parts.push(FormatPart::Literal(lit));
                            parts.push(FormatPart::Column(c));
                            proof {
                                let now = parts@.map_values(|p: FormatPart<T>| p.view());
                                assert(now =~= before + seq![PartView::Literal(lit@), PartView::Column(c)]);
                                let rest = parse_from::<T>(s@, i + 2, Seq::empty());
                                match rest {
                                    Ok(q) => {
                                        assert(before + (seq![PartView::Literal(lit@), PartView::Column(c)] + q)
                                            =~= now + q);
                                    },
                                    Err(_) => {},
                                }
                                assert(partial@ =~= Seq::<char>::empty());
                            }
                            i += 2;
                        },
                    }
                }
            }
        }
        let ghost before = parts@.map_values(|p: FormatPart<T>| p.view());
        parts.push(FormatPart::Literal(partial));
        assert(parts@.map_values(|p: FormatPart<T>| p.view()) =~= before + seq![
            PartView::Literal(partial@),
        ]);
        Ok(TableFormat::new(parts))
    }

    /// Formats one row. Each padded column grows to the widest text it has
    /// shown, this row's included, and the row is padded to those widths.
    pub fn format_row(&mut self, row: &T::Data) -> (r: String)
        requires
            old(self).wf(),
        ensures
            final(self).wf(),
            final(self).parts() == old(self).parts(),
            final(self).widths() == Seq::new(
                old(self).parts().len(),
                |i: int| part_width(old(self).parts()[i], old(self).widths()[i], row),
            ),
            r@ == render(old(self).parts(), old(self).widths(), row),
    {
        let ghost parts = self.parts();
        let ghost widths0 = self.widths();
        let mut out = String::new();
        let mut i: usize = 0;
        while i < self.format.len()
            invariant
                self.wf(),
                self.parts() == parts,
                parts.len() == widths0.len(),
                i <= parts.len(),
                forall|j: int| i <= j < parts.len() ==> self.widths()[j] == widths0[j],
                forall|j: int|
                    0 <= j < i ==> self.widths()[j] == part_width(parts[j], widths0[j], row),
                out@ == render(parts.subrange(0, i as int), widths0, row),
            decreases parts.len() - i,
        {
            let ghost out0 = out@;
            let ghost widths1 = self.widths();
            proof {
                assert(parts.subrange(0, i + 1).drop_last() =~= parts.subrange(0, i as int));
                assert(parts[i as int] == self.format@[i as int].view());
            }
            match &self.format[i] {
                FormatPart::Literal(l) => {
                    out.append(l.as_str());
                },
                FormatPart::Column(c) => {
                    let text = c.to_string(row);
                    if c.constant_size() {
                        out.append(text.as_str());
                    } else {
                        let len = text.as_str().unicode_len();
                        let w = if self.sizes[i] > len {
                            self.sizes[i]
                        } else {
                            len
                        };
                        self.sizes.set(i, w);
                        proof {
                            assert(self.widths() =~= widths1.update(i as int, w as int));
                        }
                        match c.alignment() {
                            Alignment::Left => {
                                out.append(text.as_str());
                                push_spaces(&mut out, w - len);
                            },
                            Alignment::Right => {
                                push_spaces(&mut out, w - len);
                                out.append(text.as_str());
                            },
                        }
                        proof {
                            assert(self.parts() =~= parts);
                        }
                    }
                },
            }
            proof {
                assert(out@ =~= render(parts.subrange(0, i + 1), widths0, row));
                assert(self.widths()[i as int] == part_width(parts[i as int], widths0[i as int], row));
                assert forall|j: int| 0 <= j < parts.len() && j != i implies self.widths()[j] == widths1[j] by {}
            }
            i += 1;
        }
        proof {
            assert(parts.subrange(0, parts.len() as int) =~= parts);
            assert(self.widths() =~= Seq::new(
                parts.len(),
                |j: int| part_width(parts[j], widths0[j], row),
            ));
        }
        out
    }

    /// Binds the format to one row.
    pub fn bind<'a>(&'a mut self, row: &'a T::Data) -> (r: BoundTable<'a, T>)
        requires
            old(self).wf(),
        ensures
            r.table() == *old(self),
            r.data() == *row,
    {
        BoundTable { table: self, data: row }
    }
}

} // verus!
