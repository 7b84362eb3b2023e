use vstd::prelude::*;

verus! {

/// Unicode white space: the characters that separate fields of a line.
pub open spec fn is_space(c: char) -> bool {
    let u = c as u32;
    ||| 0x09 <= u <= 0x0D
    ||| u == 0x20
    ||| u == 0x85
    ||| u == 0xA0
    ||| u == 0x1680
    ||| 0x2000 <= u <= 0x200A
    ||| u == 0x2028
    ||| u == 0x2029
    ||| u == 0x202F
    ||| u == 0x205F
    ||| u == 0x3000
}

pub open spec fn is_digit(c: char) -> bool {
    0x30 <= c as u32 <= 0x39
}

pub open spec fn digit_value(c: char) -> nat {
    (c as u32 - 0x30) as nat
}

/// The decimal value of a string of digits.
pub open spec fn digits_value(s: Seq<char>) -> nat
    decreases s.len(),
{
    if s.len() == 0 {
        0
    } else {
        digits_value(s.drop_last()) * 10 + digit_value(s.last())
    }
}

pub open spec fn all_digits(s: Seq<char>) -> bool {
    forall|i: int| 0 <= i < s.len() ==> is_digit(s[i])
}

/// The whitespace-separated fields of `s`, in order.
pub open spec fn tokens(s: Seq<char>) -> Seq<Seq<char>>
    decreases s.len(),
{
    if s.len() == 0 {
        seq![]
    } else {
        let p = s.drop_last();
        let c = s.last();
        let t = tokens(p);
        if is_space(c) {
            t
        } else if p.len() > 0 && !is_space(p.last()) {
            t.update(t.len() - 1, t.last().push(c))
        } else {
            t.push(seq![c])
        }
    }
}

/// The value of a decimal integer with an optional sign.
pub open spec fn int_value(t: Seq<char>) -> Option<int> {
    if t.len() > 0 && (t[0] == '-' || t[0] == '+') {
        let d = t.subrange(1, t.len() as int);
        if d.len() > 0 && all_digits(d) {
            Some(if t[0] == '-' { -digits_value(d) } else { digits_value(d) as int })
        } else {
            None
        }
    } else if t.len() > 0 && all_digits(t) {
        Some(digits_value(t) as int)
    } else {
        None
    }
}

/// A field read as an `i32`: a signed decimal integer in range.
pub open spec fn i32_value(t: Seq<char>) -> Option<int> {
    match int_value(t) {
        Some(v) => if i32::MIN <= v <= i32::MAX {
            Some(v)
        } else {
            None
        },
        None => None,
    }
}

/// A field read as a `usize`: a decimal integer, `+` allowed, in range.
pub open spec fn usize_value(t: Seq<char>) -> Option<nat> {
    match int_value(t) {
        Some(v) => if 0 <= v <= usize::MAX && !(t.len() > 0 && t[0] == '-') {
            Some(v as nat)
        } else {
            None
        },
        None => None,
    }
}

/// The fields of `ts` that read as `i32`, in order; the others are skipped.
pub open spec fn i32_fields(ts: Seq<Seq<char>>) -> Seq<int>
    decreases ts.len(),
{
    if ts.len() == 0 {
        seq![]
    } else {
        let rest = i32_fields(ts.drop_last());
        match i32_value(ts.last()) {
            Some(v) => rest.push(v),
            None => rest,
        }
    }
}

pub open spec fn views(v: Seq<Vec<char>>) -> Seq<Seq<char>> {
    v.map_values(|t: Vec<char>| t@)
}

pub fn is_space_char(c: char) -> (r: bool)
    ensures
        r == is_space(c),
{
    let u = c as u32;
    (0x09 <= u && u <= 0x0D) || u == 0x20 || u == 0x85 || u == 0xA0 || u == 0x1680 || (0x2000
        <= u && u <= 0x200A) || u == 0x2028 || u == 0x2029 || u == 0x202F || u == 0x205F || u
        == 0x3000
}

/// Splits `s` at white space.
pub fn split_fields(s: &Vec<char>) -> (r: Vec<Vec<char>>)
    ensures
        views(r@) == tokens(s@),
{
    let n = s.len();
    let mut done: Vec<Vec<char>> = Vec::new();
    let mut cur: Vec<char> = Vec::new();
    let mut i: usize = 0;
    while i < n
        invariant
            n == s@.len(),
            i <= n,
            i > 0 && !is_space(s@[i - 1]) ==> cur@.len() > 0 && views(done@).push(cur@) == tokens(s@.take(i as int)),
            !(i > 0 && !is_space(s@[i - 1])) ==> cur@.len() == 0 && views(done@) == tokens(s@.take(i as int)),
        decreases n - i,
    {
        let c = s[i];
        let ghost t = s@.take(i as int + 1);
        proof {
            assert(t.drop_last() =~= s@.take(i as int));
            assert(t.last() == c);
        }
        if is_space_char(c) {
            if cur.len() > 0 {
                let ghost before = views(done@);
                done.push(cur);
                cur = Vec::new();
                assert(views(done@) =~= before.push(done@.last()@));
            }
        } else {
            let ghost cb = cur@;
            cur.push(c);
            proof {
                if i > 0 && !is_space(s@[i - 1]) {
                    let tp = tokens(s@.take(i as int));
                    assert(views(done@).push(cur@) =~= tp.update(tp.len() - 1, tp.last().push(c)));
                } else {
                    assert(cb.push(c) =~= seq![c]);
                    assert(views(done@).push(cur@) =~= tokens(s@.take(i as int)).push(seq![c]));
                }
            }
        }
        i = i + 1;
    }
    proof {
        assert(s@.take(n as int) =~= s@);
    }
    if cur.len() > 0 {
        let ghost before = views(done@);
        done.push(cur);
        assert(views(done@) =~= before.push(done@.last()@));
    }
    done
}

proof fn lemma_digits_prefix(s: Seq<char>, j: int)
    requires
        0 <= j <= s.len(),
    ensures
        digits_value(s.take(j)) <= digits_value(s),
    decreases s.len() - j,
{
    if j < s.len() {
        lemma_digits_prefix(s, j + 1);
        let t = s.take(j + 1);
        assert(t.drop_last() =~= s.take(j));
    } else {
        assert(s.take(j) =~= s);
    }
}

/// The value of the digits `t[start..]`, when they are all digits, there is
/// at least one, and the value fits in a `u64`.
pub fn digits_u64(t: &Vec<char>, start: usize) -> (r: Option<u64>)
    requires
        start <= t@.len(),
    ensures
        ({
            let d = t@.subrange(start as int, t@.len() as int);
            r == (if d.len() > 0 && all_digits(d) && digits_value(d) <= u64::MAX {
                Some(digits_value(d) as u64)
            } else {
                None
            })
        }),
{
    let n = t.len();
    let ghost d = t@.subrange(start as int, n as int);
    if start == n {
        return None;
    }
    let mut acc: u64 = 0;
    let mut i: usize = start;
    while i < n
        invariant
            n == t@.len(),
            start <= i <= n,
            d == t@.subrange(start as int, n as int),
            all_digits(d.take(i - start)),
            acc == digits_value(d.take(i - start)),
        decreases n - i,
    {
        let c = t[i];
        let ghost k = i - start;
        proof {
            assert(d.take(k + 1).drop_last() =~= d.take(k));
            assert(d.take(k + 1).last() == c);
        }
        if !((c as u32) >= 0x30 && (c as u32) <= 0x39) {
            assert(!all_digits(d)) by {
                assert(d[k] == c);
            }
            return None;
        }
        let dv = (c as u32 - 0x30) as u64;
        if acc > (u64::MAX - dv) / 10 {
            proof {
                lemma_digits_prefix(d, k + 1);
                assert(acc * 10 + dv > u64::MAX) by (nonlinear_arith)
                    requires
                        acc > (u64::MAX - dv) / 10,
                        dv <= 9,
                ;
            }
            return None;
        }
        acc = acc * 10 + dv;
        proof {
            assert forall|j: int| 0 <= j < k + 1 implies is_digit(#[trigger] d.take(k + 1)[j]) by {
                if j < k {
                    assert(d.take(k + 1)[j] == d.take(k)[j]);
                }
            }
        }
        i = i + 1;
    }
    assert(d.take(n - start) =~= d);
    Some(acc)
}

/// Reads a field as a signed decimal integer.
pub fn read_i32(t: &Vec<char>) -> (r: Option<i32>)
    ensures
        match r {
            Some(v) => i32_value(t@) == Some(v as int),
            None => i32_value(t@) is None,
        },
{
    let n = t.len();
    if n == 0 {
        return None;
    }
    let first = t[0];
    if first == '-' || first == '+' {
        let ghost d = t@.subrange(1, n as int);
        match digits_u64(t, 1) {
            None => {
                assert(i32_value(t@) is None);
                None
            },
            Some(v) => {
                if first == '-' {
                    if v <= 0x8000_0000 {
                        Some((0 - (v as i64)) as i32)
                    } else {
                        None
                    }
                } else {
                    if v <= 0x7fff_ffff {
                        Some(v as i32)
                    } else {
                        None
                    }
                }
            },
        }
    } else {
        assert(t@.subrange(0, n as int) =~= t@);
        match digits_u64(t, 0) {
            None => None,
            Some(v) => {
                if v <= 0x7fff_ffff {
                    Some(v as i32)
                } else {
                    None
                }
            },
        }
    }
}

/// Reads a field as an unsigned decimal integer (`+` allowed).
pub fn read_usize(t: &Vec<char>) -> (r: Option<usize>)
    ensures
        match r {
            Some(v) => usize_value(t@) == Some(v as nat),
            None => usize_value(t@) is None,
        },
{
    let n = t.len();
    if n == 0 {
        return None;
    }
    let first = t[0];
    if first == '-' {
        return None;
    }
    let start: usize = if first == '+' { 1 } else { 0 };
    assert(t@.subrange(0, n as int) =~= t@);
    match digits_u64(t, start) {
        None => None,
        Some(v) => {
            if v <= usize::MAX as u64 {
                Some(v as usize)
            } else {
                None
            }
        },
    }
}

/// The fields of a line that read as `i32`, in order; the others are skipped.
pub fn read_i32_fields(line: &Vec<char>) -> (r: Vec<i32>)
    ensures
        r@.map_values(|v: i32| v as int) == i32_fields(tokens(line@)),
{
    let ts = split_fields(line);
    let ghost tv = views(ts@);
    let n = ts.len();
    let mut r: Vec<i32> = Vec::new();
    let mut i: usize = 0;
    while i < n
        invariant
            n == ts@.len(),
            tv == views(ts@),
            i <= n,
            r@.map_values(|v: i32| v as int) == i32_fields(tv.take(i as int)),
        decreases n - i,
    {
        proof {
            assert(tv.take(i as int + 1).drop_last() =~= tv.take(i as int));
            assert(tv.take(i as int + 1).last() == ts@[i as int]@);
        }
        let ghost before = r@;
        match read_i32(&ts[i]) {
            Some(v) => {
                r.push(v);
                assert(r@.map_values(|v: i32| v as int) =~= before.map_values(|v: i32| v as int).push(v as int));
            },
            None => {},
        }
        i = i + 1;
    }
    assert(tv.take(n as int) =~= tv);
    r
}

/// A line holding exactly one field that reads as an unsigned integer.
pub fn read_count(line: &Vec<char>) -> (r: Option<usize>)
    ensures
        match r {
            Some(v) => tokens(line@).len() == 1 && usize_value(tokens(line@)[0]) == Some(v as nat),
            None => tokens(line@).len() != 1 || usize_value(tokens(line@)[0]) is None,
        },
{
    let ts = split_fields(line);
    if ts.len() != 1 {
        return None;
    }
    read_usize(&ts[0])
}

} // verus!
