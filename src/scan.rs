use vstd::prelude::*;

use crate::text::{
    digits_u64, digits_value, i32_fields, is_digit, is_space, is_space_char, read_count,
    read_i32_fields, tokens, usize_value,
};

verus! {

/// The character classes of the header line's grammar.
#[derive(Debug, Clone, Copy, PartialEq, Eq, Structural)]
pub enum CharClass {
    Space,
    Digit,
    Number,
}

pub open spec fn in_class(c: char, cls: CharClass) -> bool {
    match cls {
        CharClass::Space => is_space(c),
        CharClass::Digit => is_digit(c),
        CharClass::Number => is_digit(c) || c == '.',
    }
}

/// The first position at or after `i` whose character is not in `cls`.
pub open spec fn skip(s: Seq<char>, i: int, cls: CharClass) -> int
    decreases s.len() - i,
{
    if 0 <= i < s.len() && in_class(s[i], cls) {
        skip(s, i + 1, cls)
    } else {
        i
    }
}

pub open spec fn is_f(c: char) -> bool {
    c == 'f' || c == 'F'
}

/// The header line that opens the displacements, such as `(3F12.8,f20.12)`:
/// optional space, `(`, a count of displacement fields, `f` or `F`, digits
/// and dots, `,`, `f` or `F`, digits and dots, `)`, optional space. Its value
/// is the count.
pub open spec fn header_fields(s: Seq<char>) -> Option<nat> {
    let a = skip(s, 0, CharClass::Space);
    let b = skip(s, a + 1, CharClass::Digit);
    let c = skip(s, b + 1, CharClass::Number);
    let d = skip(s, c + 2, CharClass::Number);
    if a < s.len() && s[a] == '(' && b > a + 1 && b < s.len() && is_f(s[b]) && c > b + 1 && c
        + 1 < s.len() && s[c] == ',' && is_f(s[c + 1]) && d > c + 2 && d < s.len() && s[d] == ')'
        && skip(s, d + 1, CharClass::Space) == s.len() {
        Some(digits_value(s.subrange(a + 1, b)))
    } else {
        None
    }
}

/// `pat` occurs in `s`.
pub open spec fn contains(s: Seq<char>, pat: Seq<char>) -> bool {
    exists|i: int| 0 <= i && i + pat.len() <= s.len() && #[trigger] s.subrange(i, i + pat.len()) == pat
}

pub open spec fn unknowns_marker() -> Seq<char> {
    seq!['U', 'N', 'K', 'N', 'O', 'W', 'N', 'S']
}

pub open spec fn stationary_marker() -> Seq<char> {
    seq!['S', 'T', 'A', 'T', 'I', 'O', 'N', 'A', 'R', 'Y', ' ', 'P', 'O', 'I', 'N', 'T']
}

/// What the reader expects of the next line.
#[derive(Debug, Clone, Copy, PartialEq, Eq, Structural)]
pub enum Section {
    Idle,
    Displacements,
    UnknownCount,
    Exponents,
    StationaryPoint,
}

/// What a line of the input is.
#[derive(Debug, Clone, Copy, PartialEq, Eq, Structural)]
pub enum LineKind {
    /// The header that opens the displacements.
    Header,
    /// A line holding `UNKNOWNS`: the count of unknowns follows.
    UnknownsMarker,
    /// A line holding `STATIONARY POINT`, not a `!` comment: the bias follows.
    StationaryMarker,
    /// One displacement row, with or without its energy.
    DisplacementRow,
    /// The number of unknowns.
    UnknownCount,
    /// A row of exponents.
    ExponentRow,
    /// The bias: displacements, then the energy.
    StationaryRow,
    /// A line outside any section.
    Ignored,
}

/// Why a line could not be read.
#[derive(Debug, Clone, Copy, PartialEq, Eq, Structural)]
pub enum LoadError {
    /// The header's count of displacement fields does not fit in a `usize`.
    HeaderTooLarge,
    /// The line after `UNKNOWNS` is not a single unsigned integer.
    BadCount,
}

pub open spec fn line_kind(section: Section, s: Seq<char>) -> LineKind {
    if header_fields(s) is Some {
        LineKind::Header
    } else if contains(s, unknowns_marker()) {
        LineKind::UnknownsMarker
    } else if contains(s, stationary_marker()) && !(s.len() > 0 && s[0] == '!') {
        LineKind::StationaryMarker
    } else {
        match section {
            Section::Idle => LineKind::Ignored,
            Section::Displacements => LineKind::DisplacementRow,
            Section::UnknownCount => LineKind::UnknownCount,
            Section::Exponents => LineKind::ExponentRow,
            Section::StationaryPoint => LineKind::StationaryRow,
        }
    }
}

pub open spec fn next_section(kind: LineKind) -> Section {
    match kind {
        LineKind::Header => Section::Displacements,
        LineKind::UnknownsMarker => Section::UnknownCount,
        LineKind::StationaryMarker => Section::StationaryPoint,
        LineKind::DisplacementRow => Section::Displacements,
        LineKind::UnknownCount => Section::Exponents,
        LineKind::ExponentRow => Section::Exponents,
        LineKind::StationaryRow => Section::Idle,
        LineKind::Ignored => Section::Idle,
    }
}

fn in_class_char(c: char, cls: CharClass) -> (r: bool)
    ensures
        r == in_class(c, cls),
{
    match cls {
        CharClass::Space => is_space_char(c),
        CharClass::Digit => (c as u32) >= 0x30 && (c as u32) <= 0x39,
        CharClass::Number => ((c as u32) >= 0x30 && (c as u32) <= 0x39) || c == '.',
    }
}

fn skip_class(s: &Vec<char>, i: usize, cls: CharClass) -> (r: usize)
    requires
        i <= s@.len(),
    ensures
        r == skip(s@, i as int, cls),
        i <= r <= s@.len(),
{
    let mut j = i;
    while j < s.len() && in_class_char(s[j], cls)
        invariant
            i <= j <= s@.len(),
            skip(s@, i as int, cls) == skip(s@, j as int, cls),
        decreases s@.len() - j,
    {
        j = j + 1;
    }
    j
}

fn sub_vec(s: &Vec<char>, lo: usize, hi: usize) -> (r: Vec<char>)
    requires
        lo <= hi <= s@.len(),
    ensures
        r@ == s@.subrange(lo as int, hi as int),
{
    let mut r: Vec<char> = Vec::new();
    let mut i = lo;
    while i < hi
        invariant
            lo <= i <= hi <= s@.len(),
            r@ == s@.subrange(lo as int, i as int),
        decreases hi - i,
    {
        r.push(s[i]);
        assert(r@ =~= s@.subrange(lo as int, i as int + 1));
        i = i + 1;
    }
    r
}

/// Recognizes the header line: `Ok(None)` for any other line, `Ok(Some(n))`
/// for a header declaring `n` displacement fields.
pub fn read_header(s: &Vec<char>) -> (r: Result<Option<usize>, LoadError>)
    ensures
        match header_fields(s@) {
            None => r == Ok::<Option<usize>, LoadError>(None),
            Some(n) => if n <= usize::MAX {
                r == Ok::<Option<usize>, LoadError>(Some(n as usize))
            } else {
                r == Err::<Option<usize>, LoadError>(LoadError::HeaderTooLarge)
            },
        },
{
    let n = s.len();
    let a = skip_class(s, 0, CharClass::Space);
    if !(a < n && s[a] == '(') {
        return Ok(None);
    }
    let b = skip_class(s, a + 1, CharClass::Digit);
    if !(b > a + 1 && b < n && (s[b] == 'f' || s[b] == 'F')) {
        return Ok(None);
    }
    let c = skip_class(s, b + 1, CharClass::Number);
    if !(c > b + 1 && c < n - 1 && s[c] == ',' && (s[c + 1] == 'f' || s[c + 1] == 'F')) {
        return Ok(None);
    }
    let d = skip_class(s, c + 2, CharClass::Number);
    if !(d > c + 2 && d < n && s[d] == ')') {
        return Ok(None);
    }
    let e = skip_class(s, d + 1, CharClass::Space);
    if e != n {
        return Ok(None);
    }
    let digits = sub_vec(s, a + 1, b);
    proof {
        assert forall|i: int| 0 <= i < digits@.len() implies is_digit(#[trigger] digits@[i]) by {
            lemma_skip_class(s@, a as int + 1, CharClass::Digit, a as int + 1 + i);
        }
        assert(digits@.subrange(0, digits@.len() as int) =~= digits@);
    }
    match digits_u64(&digits, 0) {
        Some(v) => {
            if v <= usize::MAX as u64 {
                Ok(Some(v as usize))
            } else {
                Err(LoadError::HeaderTooLarge)
            }
        },
        None => Err(LoadError::HeaderTooLarge),
    }
}

/// Every character from `i` up to `skip(s, i, cls)` is in `cls`.
proof fn lemma_skip_class(s: Seq<char>, i: int, cls: CharClass, j: int)
    requires
        0 <= i <= j < skip(s, i, cls),
    ensures
        in_class(s[j], cls),
    decreases j - i,
{
    if j > i {
        lemma_skip_class(s, i + 1, cls, j);
    }
}

/// Whether `pat` occurs in `s`.
pub fn contains_at(s: &Vec<char>, pat: &Vec<char>) -> (r: bool)
    ensures
        r == contains(s@, pat@),
{
    let n = s.len();
    let m = pat.len();
    if m > n {
        return false;
    }
    let mut i: usize = 0;
    while i <= n - m
        invariant
            n == s@.len(),
            m == pat@.len(),
            m <= n,
            i <= n - m + 1,
            forall|p: int| 0 <= p < i ==> #[trigger] s@.subrange(p, p + m) != pat@,
        decreases n + 1 - i,
    {
        let mut j: usize = 0;
        while j < m && s[i + j] == pat[j]
            invariant
                n == s@.len(),
                m == pat@.len(),
                i + m <= n,
                j <= m,
                forall|q: int| 0 <= q < j ==> s@[i + q] == pat@[q],
            decreases m - j,
        {
            j = j + 1;
        }
        if j == m {
            assert(s@.subrange(i as int, i + m) =~= pat@);
            return true;
        }
        assert(s@.subrange(i as int, i + m)[j as int] != pat@[j as int]);
        i = i + 1;
    }
    assert forall|p: int| 0 <= p && p + m <= n implies #[trigger] s@.subrange(p, p + m) != pat@ by {
        assert(p < i);
    }
    false
}

/// Reads the input line by line. It keeps what the integer sections hold;
/// the caller reads the real numbers of the rows that `scan` reports.
#[derive(Debug)]
pub struct Scanner {
    pub section: Section,
    /// The count of displacement fields from the last header.
    pub fields: usize,
    /// The count of unknowns, once read.
    pub nunk: usize,
    /// Every exponent read so far, row after row.
    pub exponents: Vec<i32>,
}

impl Scanner {
    pub fn new() -> (r: Scanner)
        ensures
            r.section == Section::Idle,
            r.fields == 0,
            r.nunk == 0,
            r.exponents@.len() == 0,
    {
        Scanner { section: Section::Idle, fields: 0, nunk: 0, exponents: Vec::new() }
    }

    /// Reads one line: says what it is and moves to the next section.
    pub fn scan(&mut self, line: &Vec<char>) -> (r: Result<LineKind, LoadError>)
        ensures
            line_kind(old(self).section, line@) == LineKind::Header ==> match header_fields(line@) {
                Some(n) => if n <= usize::MAX {
                    &&& r == Ok::<LineKind, LoadError>(LineKind::Header)
                    &&& final(self).fields == n
                } else {
                    r == Err::<LineKind, LoadError>(LoadError::HeaderTooLarge)
                },
                None => false,
            },
            line_kind(old(self).section, line@) == LineKind::UnknownCount ==> {
                let ts = tokens(line@);
                if ts.len() == 1 && usize_value(ts[0]) is Some {
                    &&& r == Ok::<LineKind, LoadError>(LineKind::UnknownCount)
                    &&& final(self).nunk == usize_value(ts[0])->0
                } else {
                    r == Err::<LineKind, LoadError>(LoadError::BadCount)
                }
            },
            line_kind(old(self).section, line@) != LineKind::Header && line_kind(old(self).section, line@)
                != LineKind::UnknownCount ==> r == Ok::<LineKind, LoadError>(
                line_kind(old(self).section, line@),
            ),
            line_kind(old(self).section, line@) != LineKind::Header ==> final(self).fields
                == old(self).fields,
            line_kind(old(self).section, line@) != LineKind::UnknownCount ==> final(self).nunk
                == old(self).nunk,
            line_kind(old(self).section, line@) == LineKind::ExponentRow ==> final(self).exponents@.map_values(|v: i32| v as int)
                == old(self).exponents@.map_values(|v: i32| v as int) + i32_fields(tokens(line@)),
            line_kind(old(self).section, line@) != LineKind::ExponentRow ==> final(self).exponents@
                == old(self).exponents@,
            r matches Ok(kind) ==> final(self).section == next_section(kind),
    {
        let header = read_header(line);
        match header {
            Err(e) => {
                return Err(e);
            },
            Ok(Some(n)) => {
                self.fields = n;
                self.section = Section::Displacements;
                return Ok(LineKind::Header);
            },
            Ok(None) => {},
        }
        let unknowns: Vec<char> = vec!['U', 'N', 'K', 'N', 'O', 'W', 'N', 'S'];
        let stationary: Vec<char> = vec![
            'S', 'T', 'A', 'T', 'I', 'O', 'N', 'A', 'R', 'Y', ' ', 'P', 'O', 'I', 'N', 'T',
        ];
        assert(unknowns@ =~= unknowns_marker());
        assert(stationary@ =~= stationary_marker());
        let kind = if contains_at(line, &unknowns) {
            LineKind::UnknownsMarker
        } else if contains_at(line, &stationary) && !(line.len() > 0 && line[0] == '!') {
            LineKind::StationaryMarker
        } else {
            match self.section {
                Section::Idle => LineKind::Ignored,
                Section::Displacements => LineKind::DisplacementRow,
                Section::UnknownCount => LineKind::UnknownCount,
                Section::Exponents => LineKind::ExponentRow,
                Section::StationaryPoint => LineKind::StationaryRow,
            }
        };
        match kind {
            LineKind::UnknownCount => {
                match read_count(line) {
                    Some(n) => {
                        self.nunk = n;
                    },
                    None => {
                        return Err(LoadError::BadCount);
                    },
                }
            },
            LineKind::ExponentRow => {
                let row = read_i32_fields(line);
                let ghost before = self.exponents@;
                let ghost fields0 = self.fields;
                let ghost nunk0 = self.nunk;
                let mut i: usize = 0;
                while i < row.len()
                    invariant
                        i <= row@.len(),
                        self.exponents@ == before + row@.take(i as int),
                        self.fields == fields0,
                        self.nunk == nunk0,
                    decreases row@.len() - i,
                {
                    self.exponents.push(row[i]);
                    assert(self.exponents@ =~= before + row@.take(i as int + 1));
                    i = i + 1;
                }
                assert(row@.take(row@.len() as int) =~= row@);
                assert((before + row@).map_values(|v: i32| v as int) =~= before.map_values(
                    |v: i32| v as int,
                ) + row@.map_values(|v: i32| v as int));
            },
            _ => {},
        }
        self.section = match kind {
            LineKind::Header => Section::Displacements,
            LineKind::UnknownsMarker => Section::UnknownCount,
            LineKind::StationaryMarker => Section::StationaryPoint,
            LineKind::DisplacementRow => Section::Displacements,
            LineKind::UnknownCount => Section::Exponents,
            LineKind::ExponentRow => Section::Exponents,
            LineKind::StationaryRow => Section::Idle,
            LineKind::Ignored => Section::Idle,
        };
        Ok(kind)
    }
}

} // verus!
