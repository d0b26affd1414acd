use vstd::prelude::*;
use vstd::string::StrSliceExecFns;

verus! {

/// Whether `c` separates tokens: the characters Unicode lists as White_Space.
pub open spec fn whitespace(c: char) -> bool {
    let u = c as u32;
    (0x9 <= u && u <= 0xd) || u == 0x20 || u == 0x85 || u == 0xa0 || u == 0x1680 || (0x2000 <= u
        && u <= 0x200a) || u == 0x2028 || u == 0x2029 || u == 0x202f || u == 0x205f || u == 0x3000
}

/// `c` with an ASCII capital letter turned into its small letter.
pub open spec fn fold_char(c: char) -> char {
    let u = c as u32;
    if 0x41 <= u && u <= 0x5a {
        (u + 32) as char
    } else {
        c
    }
}

/// `s` with every ASCII capital letter turned into its small letter.
pub open spec fn fold(s: Seq<char>) -> Seq<char> {
    s.map_values(|c: char| fold_char(c))
}

/// Reading `s` from the left: the tokens completed so far, and the token
/// being read at the end (empty when `s` ends in whitespace).
pub open spec fn scan(s: Seq<char>) -> (Seq<Seq<char>>, Seq<char>)
    decreases s.len(),
{
    if s.len() == 0 {
        (Seq::empty(), Seq::empty())
    } else {
        let (done, cur) = scan(s.drop_last());
        if whitespace(s.last()) {
            if cur.len() > 0 {
                (done.push(cur), Seq::empty())
            } else {
                (done, cur)
            }
        } else {
            (done, cur.push(s.last()))
        }
    }
}

/// The maximal runs of non-whitespace characters of `s`, left to right.
pub open spec fn tokens(s: Seq<char>) -> Seq<Seq<char>> {
    let (done, cur) = scan(s);
    if cur.len() > 0 {
        done.push(cur)
    } else {
        done
    }
}

/// The contents of each vector.
pub open spec fn views(v: Seq<Vec<char>>) -> Seq<Seq<char>> {
    v.map_values(|t: Vec<char>| t@)
}

/// Whether `c` is one of the ASCII digits `0` to `9`.
pub open spec fn is_digit(c: char) -> bool {
    0x30 <= (c as u32) && (c as u32) <= 0x39
}

/// The value of the decimal digits `d`, most significant first.
pub open spec fn digits_value(d: Seq<char>) -> int
    decreases d.len(),
{
    if d.len() == 0 {
        0
    } else {
        digits_value(d.drop_last()) * 10 + ((d.last() as u32) - 0x30)
    }
}

/// Whether `d` is a non-empty run of decimal digits.
pub open spec fn all_digits(d: Seq<char>) -> bool {
    d.len() > 0 && forall|i: int| 0 <= i < d.len() ==> is_digit(d[i])
}

/// The integer that `t` writes in decimal: an optional `+` or `-` followed
/// by one or more digits, and nothing else.
pub open spec fn numeral(t: Seq<char>) -> Option<int> {
    if t.len() > 0 && (t[0] == '-' || t[0] == '+') {
        let rest = t.drop_first();
        if all_digits(rest) {
            Some(if t[0] == '-' { -digits_value(rest) } else { digits_value(rest) })
        } else {
            None
        }
    } else if all_digits(t) {
        Some(digits_value(t))
    } else {
        None
    }
}

/// The operand that `t` writes, when it is a numeral in the range of `i32`.
pub open spec fn datum_of(t: Seq<char>) -> Option<i32> {
    match numeral(t) {
        Some(v) => if i32::MIN <= v && v <= i32::MAX {
            Some(v as i32)
        } else {
            None
        },
        None => None,
    }
}

proof fn lemma_digits_value_nonneg(d: Seq<char>)
    requires
        forall|i: int| 0 <= i < d.len() ==> is_digit(d[i]),
    ensures
        digits_value(d) >= 0,
    decreases d.len(),
{
    if d.len() > 0 {
        lemma_digits_value_nonneg(d.drop_last());
    }
}

/// Whether `c` separates tokens.
pub fn is_whitespace(c: char) -> (r: bool)
    ensures
        r == whitespace(c),
{
    let u = c as u32;
    (0x9 <= u && u <= 0xd) || u == 0x20 || u == 0x85 || u == 0xa0 || u == 0x1680 || (0x2000 <= u
        && u <= 0x200a) || u == 0x2028 || u == 0x2029 || u == 0x202f || u == 0x205f || u == 0x3000
}

/// Turns an ASCII capital letter into its small letter.
pub fn fold_ascii(c: char) -> (r: char)
    ensures
        r == fold_char(c),
{
    let u = c as u32;
    if 0x41 <= u && u <= 0x5a {
        ((c as u8) + 32) as char
    } else {
        c
    }
}

/// `t` with every ASCII capital letter turned into its small letter.
pub fn fold_token(t: &[char]) -> (r: Vec<char>)
    ensures
        r@ == fold(t@),
{
    let mut r: Vec<char> = Vec::new();
    let mut i: usize = 0;
    while i < t.len()
        invariant
            0 <= i <= t@.len(),
            r@ == fold(t@.take(i as int)),
        decreases t@.len() - i,
    {
        r.push(fold_ascii(t[i]));
        assert(t@.take(i as int + 1) =~= t@.take(i as int).push(t@[i as int]));
        assert(fold(t@.take(i as int + 1)) =~= fold(t@.take(i as int)).push(fold_char(t@[i as int])));
        i = i + 1;
    }
    assert(t@.take(t@.len() as int) =~= t@);
    r
}

/// Splits `line` into its whitespace-delimited tokens, left to right.
pub fn split_tokens(line: &str) -> (r: Vec<Vec<char>>)
    ensures
        views(r@) == tokens(line@),
{
    let n = line.unicode_len();
    let mut done: Vec<Vec<char>> = Vec::new();
    let mut cur: Vec<char> = Vec::new();
    let mut i: usize = 0;
    while i < n
        invariant
            n == line@.len(),
            0 <= i <= n,
            (views(done@), cur@) == scan(line@.take(i as int)),
        decreases n - i,
    {
        let c = line.get_char(i);
        let ghost s = line@.take(i as int + 1);
        assert(s.drop_last() =~= line@.take(i as int));
        assert(s.last() == c);
        if is_whitespace(c) {
            if cur.len() > 0 {
                let ghost before = done@;
                let finished = cur;
                cur = Vec::new();
                done.push(finished);
                assert(views(done@) =~= views(before).push(finished@));
            }
            assert(cur@ =~= Seq::<char>::empty());
        } else {
            cur.push(c);
        }
        i = i + 1;
    }
    assert(line@.take(n as int) =~= line@);
    if cur.len() > 0 {
        let ghost before = done@;
        let ghost last = cur@;
        done.push(cur);
        assert(views(done@) =~= views(before).push(last));
    }
    done
}

/// Reads the operand that `t` writes in decimal, if it is one.
pub fn parse_datum(t: &[char]) -> (r: Option<i32>)
    ensures
        r == datum_of(t@),
{
    let n = t.len();
    if n == 0 {
        return None;
    }
    let negative = t[0] == '-';
    let start: usize = if t[0] == '-' || t[0] == '+' { 1 } else { 0 };
    if start == n {
        return None;
    }
    let ghost rest = t@.subrange(start as int, n as int);
    assert(start == 1 ==> rest =~= t@.drop_first());
    assert(start == 0 ==> rest =~= t@);
    let mut acc: i64 = 0;
    let mut big = false;
    let mut i: usize = start;
    while i < n
        invariant
            n == t@.len(),
            start <= i <= n,
            rest == t@.subrange(start as int, n as int),
            start <= 1,
            start < n,
            negative == (t@[0] == '-'),
            start == 1 ==> (t@[0] == '-' || t@[0] == '+') && rest == t@.drop_first(),
            start == 0 ==> !(t@[0] == '-' || t@[0] == '+') && rest == t@,
            forall|j: int| start <= j < i ==> is_digit(t@[j]),
            !big ==> acc == digits_value(t@.subrange(start as int, i as int)),
            !big ==> 0 <= acc <= 2147483648,
            big ==> digits_value(t@.subrange(start as int, i as int)) > 2147483648,
        decreases n - i,
    {
        let c = t[i];
        let u = c as u32;
        if u < 0x30 || u > 0x39 {
            assert(rest[i - start as int] == t@[i as int]);
            assert(!is_digit(t@[i as int]));
            assert(!all_digits(rest));
            return None;
        }
        let ghost prefix = t@.subrange(start as int, i as int);
        let ghost next_prefix = t@.subrange(start as int, i as int + 1);
        assert(next_prefix.drop_last() =~= prefix);
        assert(next_prefix.last() == c);
        proof {
            lemma_digits_value_nonneg(prefix);
        }
        let d = (u - 0x30) as i64;
        if !big {
            assert(acc * 10 <= 21474836480) by (nonlinear_arith)
                requires
                    0 <= acc <= 2147483648,
            ;
            let next = acc * 10 + d;
            if next > 2147483648 {
                big = true;
            } else {
                acc = next;
            }
        } else {
            assert(digits_value(prefix) * 10 >= digits_value(prefix)) by (nonlinear_arith)
                requires
                    digits_value(prefix) >= 0,
            ;
        }
        i = i + 1;
    }
    assert(t@.subrange(start as int, n as int) =~= rest);
    assert(all_digits(rest));
    if big {
        return None;
    }
    if negative {
        Some((-acc) as i32)
    } else if acc <= 2147483647 {
        Some(acc as i32)
    } else {
        None
    }
}

} // verus!
