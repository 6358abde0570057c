use crate::error::XcapeError;
use vstd::prelude::*;
use vstd::string::StrSliceExecFns;

verus! {

/// Whether `c` has the Unicode `White_Space` property, as `char::is_whitespace` decides.
pub open spec fn is_white_space(c: char) -> bool {
    let u = c as u32;
    (0x09 <= u <= 0x0d) || u == 0x20 || u == 0x85 || u == 0xa0 || u == 0x1680 || (0x2000 <= u
        <= 0x200a) || u == 0x2028 || u == 0x2029 || u == 0x202f || u == 0x205f || u == 0x3000
}

/// `s` without its leading white space.
pub open spec fn trim_start(s: Seq<char>) -> Seq<char>
    decreases s.len(),
{
    if s.len() > 0 && is_white_space(s[0]) {
        trim_start(s.drop_first())
    } else {
        s
    }
}

/// `s` without its trailing white space.
pub open spec fn trim_end(s: Seq<char>) -> Seq<char>
    decreases s.len(),
{
    if s.len() > 0 && is_white_space(s.last()) {
        trim_end(s.drop_last())
    } else {
        s
    }
}

/// `s` without white space at either end.
pub open spec fn trimmed(s: Seq<char>) -> Seq<char> {
    trim_end(trim_start(s))
}

pub open spec fn is_digit(c: char) -> bool {
    48 <= c as u32 <= 57
}

/// The number that a string of decimal digits denotes.
pub open spec fn digits_value(d: Seq<char>) -> int
    decreases d.len(),
{
    if d.len() == 0 {
        0
    } else {
        10 * digits_value(d.drop_last()) + (d.last() as u32 - 48)
    }
}

/// `s` without a leading `+`.
pub open spec fn unsigned_part(s: Seq<char>) -> Seq<char> {
    if s.len() > 0 && s[0] == '+' {
        s.drop_first()
    } else {
        s
    }
}

/// What `u8::from_str` gives: an optional `+`, then one or more decimal
/// digits whose value is at most 255.
pub open spec fn parse_u8_spec(s: Seq<char>) -> Option<u8> {
    let d = unsigned_part(s);
    if d.len() > 0 && (forall|i: int| 0 <= i < d.len() ==> is_digit(#[trigger] d[i]))
        && digits_value(d) <= 255 {
        Some(digits_value(d) as u8)
    } else {
        None
    }
}

/// The pieces of `s` between occurrences of `sep`, as `str::split` gives them.
pub open spec fn split_on(s: Seq<char>, sep: char) -> Seq<Seq<char>>
    decreases s.len(),
{
    if s.len() == 0 {
        seq![Seq::empty()]
    } else {
        let prev = split_on(s.drop_last(), sep);
        if s.last() == sep {
            prev.push(Seq::empty())
        } else {
            prev.update(prev.len() - 1, prev.last().push(s.last()))
        }
    }
}

/// The two sides of an expression `key=values`.
pub open spec fn map_sides(s: Seq<char>) -> Seq<Seq<char>> {
    split_on(s, '=')
}

/// The replacement fields on the right of `=`.
pub open spec fn value_fields(s: Seq<char>) -> Seq<Seq<char>> {
    split_on(map_sides(s)[1], '|')
}

pub open spec fn key_of(s: Seq<char>) -> Option<u8> {
    parse_u8_spec(trimmed(map_sides(s)[0]))
}

pub open spec fn values_ok(s: Seq<char>) -> bool {
    forall|i: int|
        0 <= i < value_fields(s).len() ==> (#[trigger] parse_u8_spec(
            trimmed(value_fields(s)[i]),
        )) is Some
}

pub open spec fn values_of(s: Seq<char>) -> Seq<u8> {
    value_fields(s).map_values(|f: Seq<char>| parse_u8_spec(trimmed(f))->0)
}

/// Whether `s` is a well-formed expression `key=code|code|...`.
pub open spec fn map_ok(s: Seq<char>) -> bool {
    map_sides(s).len() == 2 && key_of(s) is Some && values_ok(s)
}

/// Why `s` is rejected, as the message of the error.
pub open spec fn map_fault(s: Seq<char>) -> Seq<char> {
    if map_sides(s).len() != 2 {
        "use `=`."@
    } else if key_of(s) is None {
        "parserInt key error"@
    } else {
        "parseInt value error"@
    }
}

proof fn lemma_split_nonempty(s: Seq<char>, sep: char)
    ensures
        split_on(s, sep).len() >= 1,
    decreases s.len(),
{
    if s.len() > 0 {
        lemma_split_nonempty(s.drop_last(), sep);
    }
}

proof fn lemma_digits_prefix_le(d: Seq<char>, j: int)
    requires
        0 <= j <= d.len(),
        forall|i: int| 0 <= i < d.len() ==> is_digit(#[trigger] d[i]),
    ensures
        digits_value(d.take(j)) <= digits_value(d),
        digits_value(d.take(j)) >= 0,
    decreases d.len(),
{
    if d.len() > 0 {
        let p = d.drop_last();
        if j == d.len() {
            assert(d.take(j) =~= d);
            if j > 0 {
                lemma_digits_prefix_le(p, 0);
            }
        } else {
            lemma_digits_prefix_le(p, j);
            assert(p.take(j) =~= d.take(j));
            lemma_digits_prefix_le(p, p.len() as int);
            assert(p.take(p.len() as int) =~= p);
        }
    } else {
        assert(d.take(j) =~= d);
    }
}

fn is_space(c: char) -> (r: bool)
    ensures
        r == is_white_space(c),
{
    let u = c as u32;
    (0x09 <= u && u <= 0x0d) || u == 0x20 || u == 0x85 || u == 0xa0 || u == 0x1680 || (0x2000 <= u
        && u <= 0x200a) || u == 0x2028 || u == 0x2029 || u == 0x202f || u == 0x205f || u == 0x3000
}

/// The bounds of `chars[lo..hi]` once white space is cut from both ends.
fn trim_range(chars: &Vec<char>, lo: usize, hi: usize) -> (r: (usize, usize))
    requires
        lo <= hi <= chars@.len(),
    ensures
        lo <= r.0 <= r.1 <= hi,
        chars@.subrange(r.0 as int, r.1 as int) == trimmed(chars@.subrange(lo as int, hi as int)),
{
    let ghost s = chars@.subrange(lo as int, hi as int);
    let mut a: usize = lo;
    while a < hi && is_space(chars[a])
        invariant
            lo <= a <= hi <= chars@.len(),
            trim_start(s) == trim_start(chars@.subrange(a as int, hi as int)),
        decreases hi - a,
    {
        assert(chars@.subrange(a as int, hi as int).drop_first() =~= chars@.subrange(
            a + 1,
            hi as int,
        ));
        a = a + 1;
    }
    assert(trim_start(s) == chars@.subrange(a as int, hi as int));
    let mut b: usize = hi;
    while b > a && is_space(chars[b - 1])
        invariant
            lo <= a <= b <= hi <= chars@.len(),
            trimmed(s) == trim_end(chars@.subrange(a as int, b as int)),
        decreases b - a,
    {
        assert(chars@.subrange(a as int, b as int).drop_last() =~= chars@.subrange(
            a as int,
            b - 1,
        ));
        b = b - 1;
    }
    (a, b)
}

/// Reads `chars[lo..hi]` as `u8::from_str` does.
fn parse_u8_range(chars: &Vec<char>, lo: usize, hi: usize) -> (r: Option<u8>)
    requires
        lo <= hi <= chars@.len(),
    ensures
        r == parse_u8_spec(chars@.subrange(lo as int, hi as int)),
{
    let ghost s = chars@.subrange(lo as int, hi as int);
    let start: usize = if lo < hi && chars[lo] == '+' {
        lo + 1
    } else {
        lo
    };
    let ghost d = chars@.subrange(start as int, hi as int);
    assert(d =~= unsigned_part(s));
    if start == hi {
        return None;
    }
    let mut val: u32 = 0;
    let mut i: usize = start;
    while i < hi
        invariant
            lo <= start <= i <= hi <= chars@.len(),
            s == chars@.subrange(lo as int, hi as int),
            d == chars@.subrange(start as int, hi as int),
            d == unsigned_part(s),
            forall|j: int| 0 <= j < i - start ==> is_digit(#[trigger] d[j]),
            val as int == digits_value(d.take(i - start)),
            val <= 255,
        decreases hi - i,
    {
        let c = chars[i] as u32;
        if !(48 <= c && c <= 57) {
            assert(!is_digit(d[i - start]));
            assert(parse_u8_spec(s) is None);
            return None;
        }
        assert(d.take(i - start + 1).drop_last() =~= d.take(i - start));
        val = val * 10 + (c - 48);
        i = i + 1;
        if val > 255 {
            proof {
                if forall|j: int| 0 <= j < d.len() ==> is_digit(#[trigger] d[j]) {
                    lemma_digits_prefix_le(d, i - start);
                }
            }
            return None;
        }
    }
    assert(d.take(d.len() as int) =~= d);
    Some(val as u8)
}

/// The bounds in `chars` of each piece of `chars[lo..hi]` between occurrences of `sep`.
fn split_ranges(chars: &Vec<char>, lo: usize, hi: usize, sep: char) -> (r: Vec<(usize, usize)>)
    requires
        lo <= hi <= chars@.len(),
    ensures
        r@.len() == split_on(chars@.subrange(lo as int, hi as int), sep).len(),
        forall|j: int|
            0 <= j < r@.len() ==> lo <= (#[trigger] r@[j]).0 <= r@[j].1 <= hi
                && chars@.subrange(r@[j].0 as int, r@[j].1 as int) == split_on(
                chars@.subrange(lo as int, hi as int),
                sep,
            )[j],
{
    let mut r: Vec<(usize, usize)> = Vec::new();
    let mut start: usize = lo;
    let mut i: usize = lo;
    while i < hi
        invariant
            lo <= start <= i <= hi <= chars@.len(),
            split_on(chars@.subrange(lo as int, i as int), sep).len() == r@.len() + 1,
            forall|j: int|
                0 <= j < r@.len() ==> lo <= (#[trigger] r@[j]).0 <= r@[j].1 <= start
                    && chars@.subrange(r@[j].0 as int, r@[j].1 as int) == split_on(
                    chars@.subrange(lo as int, i as int),
                    sep,
                )[j],
            chars@.subrange(start as int, i as int) == split_on(
                chars@.subrange(lo as int, i as int),
                sep,
            ).last(),
        decreases hi - i,
    {
        let ghost prev = split_on(chars@.subrange(lo as int, i as int), sep);
        let ghost next_s = chars@.subrange(lo as int, i + 1);
        assert(next_s.drop_last() =~= chars@.subrange(lo as int, i as int));
        assert(next_s.last() == chars@[i as int]);
        proof {
            lemma_split_nonempty(chars@.subrange(lo as int, i as int), sep);
        }
        if chars[i] == sep {
            r.push((start, i));
            start = i + 1;
            assert(chars@.subrange(start as int, i + 1) =~= Seq::<char>::empty());
        } else {
            assert(chars@.subrange(start as int, i + 1) =~= chars@.subrange(
                start as int,
                i as int,
            ).push(chars@[i as int]));
        }
        i = i + 1;
    }
    proof {
        lemma_split_nonempty(chars@.subrange(lo as int, hi as int), sep);
    }
    r.push((start, hi));
    r
}

/// Reads one `-e` expression, `key=code|code|...`, each code a decimal
/// keycode in 0..=255, white space allowed around each one.
pub fn parse_map(map: &str) -> (r: Result<(u8, Vec<u8>), XcapeError>)
    ensures
        r is Ok <==> map_ok(map@),
        r is Ok ==> r->Ok_0.0 == key_of(map@)->0 && r->Ok_0.1@ == values_of(map@),
        r is Err ==> match r->Err_0 {
            XcapeError::InvalidExpressionArg { map: m, reason } => m@ == map@ && reason@
                == map_fault(map@),
            _ => false,
        },
{
    let n = map.unicode_len();
    let mut chars: Vec<char> = Vec::new();
    let mut i: usize = 0;
    while i < n
        invariant
            i <= n == map@.len(),
            chars@ == map@.take(i as int),
        decreases n - i,
    {
        let c = map.get_char(i);
        chars.push(c);
        i = i + 1;
        assert(chars@ =~= map@.take(i as int));
    }
    assert(chars@ =~= map@);
    assert(chars@.subrange(0, n as int) =~= map@);
    let sides = split_ranges(&chars, 0, n, '=');
    if sides.len() != 2 {
        return Err(
            XcapeError::InvalidExpressionArg {
                map: map.to_string(),
                reason: "use `=`.".to_string(),
            },
        );
    }
    let (k_lo, k_hi) = trim_range(&chars, sides[0].0, sides[0].1);
    let key = match parse_u8_range(&chars, k_lo, k_hi) {
        Some(k) => k,
        None => {
            return Err(
                XcapeError::InvalidExpressionArg {
                    map: map.to_string(),
                    reason: "parserInt key error".to_string(),
                },
            );
        },
    };
    let fields = split_ranges(&chars, sides[1].0, sides[1].1, '|');
    let ghost fs = value_fields(map@);
    assert(chars@.subrange(sides@[1].0 as int, sides@[1].1 as int) == map_sides(map@)[1]);
    let mut vals: Vec<u8> = Vec::new();
    let mut j: usize = 0;
    while j < fields.len()
        invariant
            j <= fields@.len() == fs.len(),
            fs == value_fields(map@),
            map_sides(map@).len() == 2,
            key_of(map@) == Some(key),
            fs == split_on(chars@.subrange(sides@[1].0 as int, sides@[1].1 as int), '|'),
            forall|t: int|
                0 <= t < fields@.len() ==> sides@[1].0 <= (#[trigger] fields@[t]).0
                    <= fields@[t].1 <= sides@[1].1 && chars@.subrange(
                    fields@[t].0 as int,
                    fields@[t].1 as int,
                ) == fs[t],
            sides@[1].1 <= chars@.len(),
            vals@.len() == j,
            forall|t: int| 0 <= t < j ==> parse_u8_spec(trimmed(fs[t])) == Some(#[trigger] vals@[t]),
        decreases fields@.len() - j,
    {
        let (f_lo, f_hi) = trim_range(&chars, fields[j].0, fields[j].1);
        match parse_u8_range(&chars, f_lo, f_hi) {
            Some(v) => vals.push(v),
            None => {
                assert(chars@.subrange(fields@[j as int].0 as int, fields@[j as int].1 as int)
                    == fs[j as int]);
                assert(parse_u8_spec(trimmed(value_fields(map@)[j as int])) is None);
                return Err(
                    XcapeError::InvalidExpressionArg {
                        map: map.to_string(),
                        reason: "parseInt value error".to_string(),
                    },
                );
            },
        }
        j = j + 1;
    }
    assert(values_ok(map@)) by {
        assert forall|t: int| 0 <= t < value_fields(map@).len() implies (#[trigger] parse_u8_spec(
            trimmed(value_fields(map@)[t]),
        )) is Some by {
            assert(parse_u8_spec(trimmed(fs[t])) == Some(vals@[t]));
        }
    }
    assert(vals@ =~= values_of(map@));
    Ok((key, vals))
}

} // verus!
