use vstd::prelude::*;
use vstd::utf8::encode_utf8;

verus! {

/// The separator of the `VALUExCOUNT` form.
pub const REPEAT_MARK: u8 = 120;

pub open spec fn is_digit(c: u8) -> bool {
    48 <= c <= 57
}

pub open spec fn all_digits(s: Seq<u8>) -> bool {
    forall|i: int| 0 <= i < s.len() ==> is_digit(#[trigger] s[i])
}

/// The value of a string of decimal digits, most significant first.
pub open spec fn digits_value(s: Seq<u8>) -> int
    decreases s.len(),
{
    if s.len() == 0 {
        0
    } else {
        digits_value(s.drop_last()) * 10 + (s.last() - 48)
    }
}

/// Decimal text as `i32` reads it: an optional `+` or `-`, then one or more
/// digits, with the value in range.
pub open spec fn parse_i32_text(s: Seq<u8>) -> Option<int> {
    let signed = s.len() > 0 && (s[0] == 45u8 || s[0] == 43u8);
    let d = if signed { s.drop_first() } else { s };
    let v = if s.len() > 0 && s[0] == 45u8 { -digits_value(d) } else { digits_value(d) };
    if d.len() == 0 || !all_digits(d) || v < i32::MIN || v > i32::MAX {
        None
    } else {
        Some(v)
    }
}

/// Decimal text as `usize` reads it: an optional `+`, then one or more
/// digits, with the value in range.
pub open spec fn parse_usize_text(s: Seq<u8>) -> Option<int> {
    let d = if s.len() > 0 && s[0] == 43u8 { s.drop_first() } else { s };
    if d.len() == 0 || !all_digits(d) || digits_value(d) > usize::MAX {
        None
    } else {
        Some(digits_value(d))
    }
}

/// Index of the first `c` in `s` at or after `k`, or -1.
pub open spec fn find_from(s: Seq<u8>, c: u8, k: int) -> int
    decreases s.len() - k,
{
    if k < 0 || k >= s.len() {
        -1
    } else if s[k] == c {
        k
    } else {
        find_from(s, c, k + 1)
    }
}

/// One argument: `VALUE` stands for itself, `VALUExCOUNT` for `COUNT`
/// copies of `VALUE` (split at the first `x`).
pub open spec fn expand_arg(s: Seq<u8>) -> Option<Seq<i32>> {
    let pos = find_from(s, REPEAT_MARK, 0);
    if pos >= 0 {
        match (parse_i32_text(s.take(pos)), parse_usize_text(s.skip(pos + 1))) {
            (Some(v), Some(c)) => Some(Seq::new(c as nat, |k: int| v as i32)),
            _ => None,
        }
    } else {
        match parse_i32_text(s) {
            Some(v) => Some(seq![v as i32]),
            None => None,
        }
    }
}

/// All arguments expanded and joined in order; `None` if any is malformed.
pub open spec fn expand_args(args: Seq<Seq<u8>>) -> Option<Seq<i32>>
    decreases args.len(),
{
    if args.len() == 0 {
        Some(Seq::empty())
    } else {
        match (expand_args(args.drop_last()), expand_arg(args.last())) {
            (Some(a), Some(b)) => Some(a + b),
            _ => None,
        }
    }
}

pub open spec fn args_bytes(args: Seq<String>) -> Seq<Seq<u8>> {
    args.map_values(|s: String| encode_utf8(s@))
}

proof fn lemma_digits_nonneg(s: Seq<u8>)
    requires
        all_digits(s),
    ensures
        digits_value(s) >= 0,
    decreases s.len(),
{
    if s.len() > 0 {
        lemma_digits_nonneg(s.drop_last());
    }
}

proof fn lemma_digits_prefix(s: Seq<u8>, k: int)
    requires
        all_digits(s),
        0 <= k <= s.len(),
    ensures
        digits_value(s.take(k)) <= digits_value(s),
    decreases s.len(),
{
    if k == s.len() {
        assert(s.take(k) =~= s);
    } else {
        lemma_digits_prefix(s.drop_last(), k);
        assert(s.drop_last().take(k) =~= s.take(k));
        lemma_digits_nonneg(s.drop_last());
    }
}

/// Reads `b[lo..hi]` as decimal digits, giving up past `limit`.
fn digits_in(b: &[u8], lo: usize, hi: usize, limit: u128) -> (r: Option<u128>)
    requires
        lo <= hi <= b@.len(),
        limit <= u64::MAX,
    ensures
        r is Some <==> all_digits(b@.subrange(lo as int, hi as int))
            && digits_value(b@.subrange(lo as int, hi as int)) <= limit,
        r matches Some(m) ==> m as int == digits_value(b@.subrange(lo as int, hi as int)),
{
    let ghost sub = b@.subrange(lo as int, hi as int);
    let mut v: u128 = 0;
    let mut k: usize = lo;
    while k < hi
        invariant
            lo <= k <= hi <= b@.len(),
            limit <= u64::MAX,
            sub == b@.subrange(lo as int, hi as int),
            all_digits(b@.subrange(lo as int, k as int)),
            v as int == digits_value(b@.subrange(lo as int, k as int)),
            v <= limit,
        decreases hi - k,
    {
        let c = b[k];
        assert(b@.subrange(lo as int, k + 1).drop_last() =~= b@.subrange(lo as int, k as int));
        assert(sub[k - lo] == c);
        if c < 48 || c > 57 {
            return None;
        }
        let nv = v * 10 + (c - 48) as u128;
        assert(nv as int == digits_value(b@.subrange(lo as int, k + 1)));
        if nv > limit {
            proof {
                if all_digits(sub) {
                    lemma_digits_prefix(sub, k + 1 - lo);
                    assert(sub.take(k + 1 - lo) =~= b@.subrange(lo as int, k + 1));
                }
            }
            return None;
        }
        v = nv;
        k = k + 1;
    }
    assert(b@.subrange(lo as int, k as int) =~= sub);
    Some(v)
}

fn parse_i32_in(b: &[u8], lo: usize, hi: usize) -> (r: Option<i32>)
    requires
        lo <= hi <= b@.len(),
    ensures
        r matches Some(v) ==> parse_i32_text(b@.subrange(lo as int, hi as int)) == Some(v as int),
        r is None ==> parse_i32_text(b@.subrange(lo as int, hi as int)) is None,
{
    let ghost s = b@.subrange(lo as int, hi as int);
    assert(lo < hi ==> s[0] == b@[lo as int]);
    let neg = lo < hi && b[lo] == 45;
    let signed = lo < hi && (b[lo] == 45 || b[lo] == 43);
    let start = if signed { lo + 1 } else { lo };
    let ghost d = b@.subrange(start as int, hi as int);
    assert(d =~= if signed { s.drop_first() } else { s });
    if start == hi {
        return None;
    }
    match digits_in(b, start, hi, 2147483648) {
        None => {
            None
        },
        Some(m) => {
            assert(m as int == digits_value(d));
            if neg {
                Some((0 - m as i64) as i32)
            } else if m > 2147483647 {
                None
            } else {
                Some(m as i32)
            }
        },
    }
}

fn parse_usize_in(b: &[u8], lo: usize, hi: usize) -> (r: Option<usize>)
    requires
        lo <= hi <= b@.len(),
    ensures
        r matches Some(v) ==> parse_usize_text(b@.subrange(lo as int, hi as int)) == Some(v as int),
        r is None ==> parse_usize_text(b@.subrange(lo as int, hi as int)) is None,
{
    let ghost s = b@.subrange(lo as int, hi as int);
    assert(lo < hi ==> s[0] == b@[lo as int]);
    let start = if lo < hi && b[lo] == 43 { lo + 1 } else { lo };
    assert(b@.subrange(start as int, hi as int) =~= if lo < hi && b@[lo as int] == 43 { s.drop_first() } else { s });
    if start == hi {
        return None;
    }
    match digits_in(b, start, hi, usize::MAX as u128) {
        None => None,
        Some(m) => Some(m as usize),
    }
}

fn find_mark(b: &[u8]) -> (r: Option<usize>)
    ensures
        r matches Some(p) ==> find_from(b@, REPEAT_MARK, 0) == p as int && p < b@.len(),
        r is None ==> find_from(b@, REPEAT_MARK, 0) == -1,
{
    let mut k: usize = 0;
    while k < b.len()
        invariant
            k <= b@.len(),
            find_from(b@, REPEAT_MARK, 0) == find_from(b@, REPEAT_MARK, k as int),
        decreases b@.len() - k,
    {
        if b[k] == REPEAT_MARK {
            return Some(k);
        }
        assert(find_from(b@, REPEAT_MARK, k as int) == find_from(b@, REPEAT_MARK, k + 1));
        k = k + 1;
    }
    None
}

/// Expands shorthand arguments into one request vector: `"3"` stands for
/// `[3]`, `"3x4"` for `[3, 3, 3, 3]`, and the arguments are joined in order.
/// Returns `None` exactly when an argument is malformed.
pub fn parse_shorthand_args(args: &[String]) -> (r: Option<Vec<i32>>)
    ensures
        r is None <==> expand_args(args_bytes(args@)) is None,
        r matches Some(v) ==> expand_args(args_bytes(args@)) == Some(v@),
{
    let ghost all = args_bytes(args@);
    let mut result: Vec<i32> = Vec::new();
    let mut i: usize = 0;
    while i < args.len()
        invariant
            i <= args@.len(),
            all == args_bytes(args@),
            expand_args(all.take(i as int)) == Some(result@),
        decreases args@.len() - i,
    {
        let b = args[i].as_str().as_bytes();
        assert(b@ == all[i as int]);
        assert(all.take(i + 1).drop_last() =~= all.take(i as int));
        assert(all.take(i + 1).last() == all[i as int]);
        match find_mark(b) {
            Some(pos) => {
                assert(b@.subrange(0, pos as int) =~= b@.take(pos as int));
                assert(b@.subrange(pos + 1, b@.len() as int) =~= b@.skip(pos + 1));
                let num = match parse_i32_in(b, 0, pos) {
                    Some(v) => v,
                    None => {
                        proof {
                            lemma_expand_fails(all, i as int);
                        }
                        return None;
                    },
                };
                let end = b.len();
                assert(pos < end);
                let count = match parse_usize_in(b, pos + 1, end) {
                    Some(c) => c,
                    None => {
                        proof {
                            lemma_expand_fails(all, i as int);
                        }
                        return None;
                    },
                };
                let ghost before = result@;
                let mut c: usize = 0;
                while c < count
                    invariant
                        c <= count,
                        result@ =~= before + Seq::new(c as nat, |k: int| num),
                    decreases count - c,
                {
                    result.push(num);
                    c = c + 1;
                }
                assert(Seq::new(count as nat, |k: int| num) =~= Seq::new(count as nat, |k: int| (num as int) as i32));
            },
            None => {
                match parse_i32_in(b, 0, b.len()) {
                    Some(v) => {
                        assert(b@.subrange(0, b@.len() as int) =~= b@);
                        result.push(v);
                        assert(seq![v] =~= seq![(v as int) as i32]);
                    },
                    None => {
                        assert(b@.subrange(0, b@.len() as int) =~= b@);
                        proof {
                            lemma_expand_fails(all, i as int);
                        }
                        return None;
                    },
                }
            },
        }
        i = i + 1;
    }
    assert(all.take(i as int) =~= all);
    Some(result)
}

/// Once one argument is malformed, so is every longer run of arguments.
proof fn lemma_expand_fails(all: Seq<Seq<u8>>, i: int)
    requires
        0 <= i < all.len(),
        expand_arg(all[i]) is None,
    ensures
        expand_args(all) is None,
{
    lemma_expand_fails_from(all, i, all.len() as int);
    assert(all.take(all.len() as int) =~= all);
}

proof fn lemma_expand_fails_from(all: Seq<Seq<u8>>, i: int, k: int)
    requires
        0 <= i < k <= all.len(),
        expand_arg(all[i]) is None,
    ensures
        expand_args(all.take(k)) is None,
    decreases k,
{
    assert(all.take(k).drop_last() =~= all.take(k - 1));
    assert(all.take(k).last() == all[k - 1]);
    if k - 1 > i {
        lemma_expand_fails_from(all, i, k - 1);
    }
}

} // verus!
