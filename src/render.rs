use vstd::prelude::*;

use crate::text::{
    all_digits, digit_value, digits_value, i32_fields, int_value, is_digit, is_space,
    tokens, usize_value,
};

verus! {

/// Width of one exponent field in a written table.
pub const EXPONENT_WIDTH: usize = 5;

/// Width of the count of unknowns in a written table.
pub const COUNT_WIDTH: usize = 4;

pub open spec fn digit_char(d: nat) -> char {
    if d == 0 {
        '0'
    } else if d == 1 {
        '1'
    } else if d == 2 {
        '2'
    } else if d == 3 {
        '3'
    } else if d == 4 {
        '4'
    } else if d == 5 {
        '5'
    } else if d == 6 {
        '6'
    } else if d == 7 {
        '7'
    } else if d == 8 {
        '8'
    } else {
        '9'
    }
}

/// The decimal digits of `n`, without leading zeros.
pub open spec fn decimal(n: nat) -> Seq<char>
    decreases n,
{
    if n < 10 {
        seq![digit_char(n)]
    } else {
        decimal(n / 10).push(digit_char(n % 10))
    }
}

pub open spec fn spaces(k: nat) -> Seq<char> {
    Seq::new(k, |i: int| ' ')
}

/// `n` right-aligned in a field of `width` characters; a wider number takes
/// the room it needs.
pub open spec fn field(n: nat, width: nat) -> Seq<char> {
    let d = decimal(n);
    if d.len() < width {
        spaces((width - d.len()) as nat) + d
    } else {
        d
    }
}

/// A row of exponents as written: one field of `EXPONENT_WIDTH` each.
pub open spec fn row_text(es: Seq<u32>) -> Seq<char>
    decreases es.len(),
{
    if es.len() == 0 {
        seq![]
    } else {
        row_text(es.drop_last()) + field(es.last() as nat, EXPONENT_WIDTH as nat)
    }
}

pub open spec fn no_space(w: Seq<char>) -> bool {
    forall|i: int| 0 <= i < w.len() ==> !is_space(#[trigger] w[i])
}

proof fn lemma_digit_char(d: nat)
    requires
        d < 10,
    ensures
        is_digit(digit_char(d)),
        digit_value(digit_char(d)) == d,
        !is_space(digit_char(d)),
{
}

proof fn lemma_decimal(n: nat)
    ensures
        decimal(n).len() > 0,
        all_digits(decimal(n)),
        no_space(decimal(n)),
        digits_value(decimal(n)) == n,
        n < 10 ==> decimal(n).len() == 1,
        n < 100 ==> decimal(n).len() <= 2,
        n < 1000 ==> decimal(n).len() <= 3,
        n < 10000 ==> decimal(n).len() <= 4,
    decreases n,
{
    if n < 10 {
        lemma_digit_char(n);
        let t = decimal(n);
        assert(t.drop_last() =~= Seq::<char>::empty());
        assert(digits_value(t) == digits_value(t.drop_last()) * 10 + digit_value(t.last()));
    } else {
        lemma_decimal(n / 10);
        lemma_digit_char(n % 10);
        let s = decimal(n / 10);
        let t = decimal(n);
        assert(t.drop_last() =~= s);
        assert(t.last() == digit_char(n % 10));
        assert(digits_value(t) == digits_value(s) * 10 + digit_value(t.last()));
        assert(n == (n / 10) * 10 + n % 10);
        assert forall|i: int| 0 <= i < t.len() implies is_digit(#[trigger] t[i]) && !is_space(t[i]) by {
            if i < s.len() {
                assert(t[i] == s[i]);
            }
        }
    }
}

proof fn lemma_tokens_spaces(k: nat)
    ensures
        tokens(spaces(k)) == Seq::<Seq<char>>::empty(),
    decreases k,
{
    if k > 0 {
        lemma_tokens_spaces((k - 1) as nat);
        assert(spaces(k).drop_last() =~= spaces((k - 1) as nat));
    }
}

/// A nonempty word without spaces after nothing or after a space is one
/// more field.
proof fn lemma_tokens_word(a: Seq<char>, w: Seq<char>)
    requires
        w.len() > 0,
        no_space(w),
        a.len() == 0 || is_space(a.last()),
    ensures
        tokens(a + w) == tokens(a).push(w),
    decreases w.len(),
{
    let s = a + w;
    let p = w.drop_last();
    assert(s.drop_last() =~= a + p);
    assert(s.last() == w.last());
    if p.len() == 0 {
        assert(a + p =~= a);
        assert(seq![w.last()] =~= w);
    } else {
        lemma_tokens_word(a, p);
        assert((a + p).last() == p.last());
        let t = tokens(a).push(p);
        assert(t.update(t.len() - 1, t.last().push(w.last())) =~= tokens(a).push(w)) by {
            assert(p.push(w.last()) =~= w);
        }
    }
}

/// Once a part starts with a space, the fields of a concatenation are
/// those of its parts.
proof fn lemma_tokens_concat(a: Seq<char>, b: Seq<char>)
    requires
        b.len() > 0,
        is_space(b[0]),
    ensures
        tokens(a + b) == tokens(a) + tokens(b),
    decreases b.len(),
{
    let s = a + b;
    let p = b.drop_last();
    let c = b.last();
    assert(s.drop_last() =~= a + p);
    assert(s.last() == c);
    if p.len() == 0 {
        assert(a + p =~= a);
        assert(tokens(p) =~= Seq::<Seq<char>>::empty());
        assert(tokens(a) + tokens(b) =~= tokens(a));
    } else {
        lemma_tokens_concat(a, p);
        assert((a + p).last() == p.last());
        let x = tokens(a);
        let y = tokens(p);
        if is_space(c) {
        } else if !is_space(p.last()) {
            lemma_tokens_nonempty(p);
            assert((x + y).update(x.len() + y.len() - 1, (x + y).last().push(c)) =~= x + y.update(
                y.len() - 1,
                y.last().push(c),
            ));
        } else {
            assert((x + y).push(seq![c]) =~= x + y.push(seq![c]));
        }
    }
}

proof fn lemma_tokens_nonempty(s: Seq<char>)
    requires
        s.len() > 0,
        !is_space(s.last()),
    ensures
        tokens(s).len() > 0,
    decreases s.len(),
{
    let p = s.drop_last();
    if p.len() > 0 && !is_space(p.last()) {
        lemma_tokens_nonempty(p);
    }
}

/// The single field of a written number is its digits.
proof fn lemma_tokens_field(n: nat, width: nat)
    ensures
        tokens(field(n, width)) == seq![decimal(n)],
{
    lemma_decimal(n);
    let d = decimal(n);
    if d.len() < width {
        let k = (width - d.len()) as nat;
        lemma_tokens_spaces(k);
        lemma_tokens_word(spaces(k), d);
    } else {
        lemma_tokens_word(Seq::<char>::empty(), d);
        assert(Seq::<char>::empty() + d =~= d);
        lemma_tokens_spaces(0);
    }
    assert(Seq::<Seq<char>>::empty().push(d) =~= seq![d]);
}

proof fn lemma_tokens_row(es: Seq<u32>)
    requires
        forall|i: int| 0 <= i < es.len() ==> es[i] < 10000,
    ensures
        tokens(row_text(es)) == es.map_values(|e: u32| decimal(e as nat)),
    decreases es.len(),
{
    if es.len() > 0 {
        let p = es.drop_last();
        let e = es.last() as nat;
        lemma_tokens_row(p);
        lemma_decimal(e);
        let f = field(e, EXPONENT_WIDTH as nat);
        assert(f[0] == ' ');
        lemma_tokens_concat(row_text(p), f);
        lemma_tokens_field(e, EXPONENT_WIDTH as nat);
        assert(p.map_values(|e: u32| decimal(e as nat)) + seq![decimal(e)] =~= es.map_values(
            |e: u32| decimal(e as nat),
        ));
    } else {
        assert(es.map_values(|e: u32| decimal(e as nat)) =~= Seq::<Seq<char>>::empty());
    }
}

proof fn lemma_read_decimal(n: nat)
    ensures
        int_value(decimal(n)) == Some(n as int),
{
    lemma_decimal(n);
    let d = decimal(n);
    assert(d[0] != '-' && d[0] != '+');
}

proof fn lemma_fields_of_decimals(es: Seq<u32>)
    requires
        forall|i: int| 0 <= i < es.len() ==> es[i] < 10000,
    ensures
        i32_fields(es.map_values(|e: u32| decimal(e as nat))) == es.map_values(|e: u32| e as int),
    decreases es.len(),
{
    if es.len() > 0 {
        let p = es.drop_last();
        lemma_fields_of_decimals(p);
        assert(es.map_values(|e: u32| decimal(e as nat)).drop_last() =~= p.map_values(
            |e: u32| decimal(e as nat),
        ));
        lemma_read_decimal(es.last() as nat);
        assert(p.map_values(|e: u32| e as int).push(es.last() as int) =~= es.map_values(
            |e: u32| e as int,
        ));
    } else {
        assert(es.map_values(|e: u32| e as int) =~= Seq::<int>::empty());
        assert(es.map_values(|e: u32| decimal(e as nat)) =~= Seq::<Seq<char>>::empty());
    }
}

/// A row of exponents written by `exponent_row` reads back, field by field,
/// as the same exponents. Exponents of five digits or more fill their whole
/// field and would run into their neighbours, so they are left out.
pub proof fn lemma_exponent_row_round_trip(es: Seq<u32>)
    requires
        forall|i: int| 0 <= i < es.len() ==> es[i] < 10000,
    ensures
        i32_fields(tokens(row_text(es))) == es.map_values(|e: u32| e as int),
{
    lemma_tokens_row(es);
    lemma_fields_of_decimals(es);
}

/// The count of unknowns written by `count_line` reads back as itself.
pub proof fn lemma_count_round_trip(n: usize)
    ensures
        tokens(field(n as nat, COUNT_WIDTH as nat)).len() == 1,
        usize_value(tokens(field(n as nat, COUNT_WIDTH as nat))[0]) == Some(n as nat),
{
    lemma_tokens_field(n as nat, COUNT_WIDTH as nat);
    lemma_read_decimal(n as nat);
    lemma_decimal(n as nat);
}

fn digit_of(d: u64) -> (r: char)
    requires
        d < 10,
    ensures
        r == digit_char(d as nat),
{
    if d == 0 {
        '0'
    } else if d == 1 {
        '1'
    } else if d == 2 {
        '2'
    } else if d == 3 {
        '3'
    } else if d == 4 {
        '4'
    } else if d == 5 {
        '5'
    } else if d == 6 {
        '6'
    } else if d == 7 {
        '7'
    } else if d == 8 {
        '8'
    } else {
        '9'
    }
}

/// The decimal digits of `n`.
pub fn decimal_chars(n: u64) -> (r: Vec<char>)
    ensures
        r@ == decimal(n as nat),
    decreases n,
{
    if n < 10 {
        vec![digit_of(n)]
    } else {
        let mut r = decimal_chars(n / 10);
        r.push(digit_of(n % 10));
        r
    }
}

/// `n` right-aligned in `width` characters.
pub fn field_chars(n: u64, width: usize) -> (r: Vec<char>)
    ensures
        r@ == field(n as nat, width as nat),
{
    let d = decimal_chars(n);
    if d.len() < width {
        let mut r: Vec<char> = Vec::new();
        let k = width - d.len();
        let mut i: usize = 0;
        while i < k
            invariant
                i <= k,
                r@ == spaces(i as nat),
            decreases k - i,
        {
            r.push(' ');
            assert(r@ =~= spaces(i as nat + 1));
            i = i + 1;
        }
        let mut j: usize = 0;
        while j < d.len()
            invariant
                j <= d@.len(),
                r@ == spaces(k as nat) + d@.take(j as int),
            decreases d@.len() - j,
        {
            r.push(d[j]);
            assert(r@ =~= spaces(k as nat) + d@.take(j as int + 1));
            j = j + 1;
        }
        assert(d@.take(d@.len() as int) =~= d@);
        r
    } else {
        d
    }
}

/// A row of exponents as written in an input file.
pub fn exponent_row(es: &Vec<u32>) -> (r: Vec<char>)
    ensures
        r@ == row_text(es@),
{
    let mut r: Vec<char> = Vec::new();
    let mut i: usize = 0;
    while i < es.len()
        invariant
            i <= es@.len(),
            r@ == row_text(es@.take(i as int)),
        decreases es@.len() - i,
    {
        let f = field_chars(es[i] as u64, EXPONENT_WIDTH);
        let ghost before = r@;
        let mut j: usize = 0;
        while j < f.len()
            invariant
                j <= f@.len(),
                r@ == before + f@.take(j as int),
            decreases f@.len() - j,
        {
            r.push(f[j]);
            assert(r@ =~= before + f@.take(j as int + 1));
            j = j + 1;
        }
        proof {
            assert(f@.take(f@.len() as int) =~= f@);
            assert(es@.take(i as int + 1).drop_last() =~= es@.take(i as int));
        }
        i = i + 1;
    }
    assert(es@.take(es@.len() as int) =~= es@);
    r
}

/// The line that gives the count of unknowns in an input file.
pub fn count_line(n: usize) -> (r: Vec<char>)
    ensures
        r@ == field(n as nat, COUNT_WIDTH as nat),
{
    field_chars(n as u64, COUNT_WIDTH)
}

} // verus!
