//! The triangle index buffer shared by every patch, read from its text form:
//! decimal numbers separated by commas, each possibly surrounded by
//! whitespace.
use vstd::prelude::*;

verus! {

pub open spec fn is_space(b: u8) -> bool {
    b == 32 || b == 9 || b == 10 || b == 13
}

pub open spec fn is_digit(b: u8) -> bool {
    48 <= b <= 57
}

/// The index of the first comma of `s` at or after `i`, or the length of `s`.
pub open spec fn next_comma(s: Seq<u8>, i: int) -> int
    decreases s.len() - i,
{
    if i >= s.len() || s[i] == 44 {
        i
    } else {
        next_comma(s, i + 1)
    }
}

/// `f` without its leading whitespace.
pub open spec fn trim_start(f: Seq<u8>) -> Seq<u8>
    decreases f.len(),
{
    if f.len() > 0 && is_space(f[0]) {
        trim_start(f.drop_first())
    } else {
        f
    }
}

/// `f` without its trailing whitespace.
pub open spec fn trim_end(f: Seq<u8>) -> Seq<u8>
    decreases f.len(),
{
    if f.len() > 0 && is_space(f.last()) {
        trim_end(f.drop_last())
    } else {
        f
    }
}

/// The number that the decimal digits `d` spell.
pub open spec fn digits_value(d: Seq<u8>) -> nat
    decreases d.len(),
{
    if d.len() == 0 {
        0
    } else {
        digits_value(d.drop_last()) * 10 + (d.last() - 48) as nat
    }
}

/// The number in field `f`: after trimming whitespace, one or more digits
/// whose value fits in a `u32`.
pub open spec fn field_value(f: Seq<u8>) -> Option<u32> {
    let t = trim_end(trim_start(f));
    if t.len() > 0 && (forall|k: int| 0 <= k < t.len() ==> is_digit(#[trigger] t[k])) && digits_value(t)
        <= u32::MAX {
        Some(digits_value(t) as u32)
    } else {
        None
    }
}

/// The numbers of the fields of `s` from position `start` on, or `None`
/// where one of them is not a number.
pub open spec fn values_from(s: Seq<u8>, start: int) -> Option<Seq<u32>>
    decreases s.len() - start, 0int,
{
    if start > s.len() || start < 0 {
        None
    } else {
        let e = next_comma(s, start);
        match field_value(s.subrange(start, e)) {
            None => None,
            Some(v) => if e >= s.len() || e < start {
                Some(seq![v])
            } else {
                match values_from(s, e + 1) {
                    None => None,
                    Some(rest) => Some(seq![v] + rest),
                }
            },
        }
    }
}

/// `prefix` put in front of the numbers of `rest`, where there are any.
pub open spec fn prepend(prefix: Seq<u32>, rest: Option<Seq<u32>>) -> Option<Seq<u32>> {
    match rest {
        None => None,
        Some(r) => Some(prefix + r),
    }
}

proof fn lemma_digits_monotone(t: Seq<u8>, k: int)
    requires
        0 <= k <= t.len(),
        forall|j: int| 0 <= j < t.len() ==> is_digit(#[trigger] t[j]),
    ensures
        digits_value(t.take(k)) <= digits_value(t),
    decreases t.len(),
{
    if k < t.len() {
        let u = t.drop_last();
        assert(forall|j: int| 0 <= j < u.len() ==> is_digit(#[trigger] u[j]) && u[j] == t[j]);
        lemma_digits_monotone(u, k);
        assert(u.take(k) =~= t.take(k));
    } else {
        assert(t.take(k) =~= t);
    }
}

fn is_space_byte(b: u8) -> (r: bool)
    ensures
        r == is_space(b),
{
    b == 32 || b == 9 || b == 10 || b == 13
}

/// The index of the first comma of `text` at or after `start`, or its length.
fn find_comma(text: &[u8], start: usize) -> (r: usize)
    requires
        start <= text@.len(),
    ensures
        r == next_comma(text@, start as int),
        start <= r <= text@.len(),
{
    let mut i = start;
    while i < text.len() && text[i] != 44
        invariant
            start <= i <= text@.len(),
            next_comma(text@, i as int) == next_comma(text@, start as int),
        decreases text@.len() - i,
    {
        i = i + 1;
    }
    i
}

/// The number in the field `text[a..e]`; see `field_value`.
fn parse_field(text: &[u8], a: usize, e: usize) -> (r: Option<u32>)
    requires
        a <= e <= text@.len(),
    ensures
        r == field_value(text@.subrange(a as int, e as int)),
{
    let ghost s = text@;
    let mut lo = a;
    while lo < e && is_space_byte(text[lo])
        invariant
            a <= lo <= e <= s.len(),
            s == text@,
            trim_start(s.subrange(a as int, e as int)) == trim_start(s.subrange(lo as int, e as int)),
        decreases e - lo,
    {
        assert(s.subrange(lo as int, e as int).drop_first() =~= s.subrange(lo + 1, e as int));
        lo = lo + 1;
    }
    let mut hi = e;
    while hi > lo && is_space_byte(text[hi - 1])
        invariant
            a <= lo <= hi <= e <= s.len(),
            s == text@,
            trim_end(s.subrange(lo as int, e as int)) == trim_end(s.subrange(lo as int, hi as int)),
        decreases hi - lo,
    {
        assert(s.subrange(lo as int, hi as int).drop_last() =~= s.subrange(lo as int, hi - 1));
        hi = hi - 1;
    }
    let ghost t = s.subrange(lo as int, hi as int);
    assert(trim_end(trim_start(s.subrange(a as int, e as int))) == t);
    if lo == hi {
        return None;
    }
    let mut value: u64 = 0;
    let mut k = lo;
    while k < hi
        invariant
            lo <= k <= hi <= s.len(),
            s == text@,
            t == s.subrange(lo as int, hi as int),
            a <= e <= s.len(),
            trim_end(trim_start(s.subrange(a as int, e as int))) == t,
            t.len() > 0,
            forall|j: int| lo <= j < k ==> is_digit(#[trigger] s[j]),
            value == digits_value(s.subrange(lo as int, k as int)),
            value <= u32::MAX,
        decreases hi - k,
    {
        let b = text[k];
        if b < 48 || b > 57 {
            assert(!is_digit(t[k - lo]));
            return None;
        }
        proof {
            let p = s.subrange(lo as int, k + 1);
            assert(p.drop_last() =~= s.subrange(lo as int, k as int));
            assert(p.last() == b);
        }
        value = value * 10 + (b - 48) as u64;
        if value > 4294967295 {
            proof {
                if forall|j: int| 0 <= j < t.len() ==> is_digit(#[trigger] t[j]) {
                    lemma_digits_monotone(t, k + 1 - lo);
                    assert(t.take(k + 1 - lo) =~= s.subrange(lo as int, k + 1));
                }
            }
            return None;
        }
        k = k + 1;
    }
    assert(forall|j: int| 0 <= j < t.len() ==> is_digit(#[trigger] t[j])) by {
        assert forall|j: int| 0 <= j < t.len() implies is_digit(#[trigger] t[j]) by {
            assert(t[j] == s[lo + j]);
        }
    }
    Some(value as u32)
}

/// Reads a triangle index buffer from its text form: the numbers of the
/// comma-separated fields of `text`, in order, or `None` where a field is not
/// a number that fits in a `u32`.
pub fn parse_indices(text: &[u8]) -> (r: Option<Vec<u32>>)
    ensures
        r is None <==> values_from(text@, 0) is None,
        r matches Some(v) ==> values_from(text@, 0) == Some(v@),
{
    let mut out: Vec<u32> = Vec::new();
    let mut start: usize = 0;
    assert(prepend(out@, values_from(text@, 0)) =~= values_from(text@, 0)) by {
        match values_from(text@, 0) {
            None => {},
            Some(r) => {
                assert(Seq::<u32>::empty() + r =~= r);
            },
        }
    }
    loop
        invariant
            start <= text@.len(),
            values_from(text@, 0) == prepend(out@, values_from(text@, start as int)),
        decreases text@.len() - start,
    {
        let e = find_comma(text, start);
        match parse_field(text, start, e) {
            None => {
                return None;
            },
            Some(v) => {
                let ghost before = out@;
                out.push(v);
                if e >= text.len() {
                    assert(before + seq![v] =~= out@);
                    return Some(out);
                }
                proof {
                    match values_from(text@, e + 1) {
                        None => {},
                        Some(rest) => {
                            assert(before + (seq![v] + rest) =~= out@ + rest);
                        },
                    }
                }
                start = e + 1;
            },
        }
    }
}

} // verus!
