//! Character-level utilities shared by both permission grammars: input
//! normalization, token splitting, decimal parsing and decimal rendering.

use vstd::prelude::*;
use vstd::string::StrSliceExecFns;

verus! {

/// Uppercases an ASCII lowercase letter and leaves every other character as it is.
pub open spec fn to_upper(c: char) -> char {
    if 'a' <= c && c <= 'z' {
        ((c as u32) - 32) as char
    } else {
        c
    }
}

/// A character survives normalization unless it is a space or a closing parenthesis.
pub open spec fn kept(c: char) -> bool {
    c != ' ' && c != ')'
}

/// The normal form of a permission string: spaces and `)` removed, the rest
/// uppercased.
pub open spec fn normalize(s: Seq<char>) -> Seq<char>
    decreases s.len(),
{
    if s.len() == 0 {
        Seq::empty()
    } else if kept(s.last()) {
        normalize(s.drop_last()).push(to_upper(s.last()))
    } else {
        normalize(s.drop_last())
    }
}

fn upper_char(c: char) -> (r: char)
    ensures
        r == to_upper(c),
{
    match c {
        'a' => 'A',
        'b' => 'B',
        'c' => 'C',
        'd' => 'D',
        'e' => 'E',
        'f' => 'F',
        'g' => 'G',
        'h' => 'H',
        'i' => 'I',
        'j' => 'J',
        'k' => 'K',
        'l' => 'L',
        'm' => 'M',
        'n' => 'N',
        'o' => 'O',
        'p' => 'P',
        'q' => 'Q',
        'r' => 'R',
        's' => 'S',
        't' => 'T',
        'u' => 'U',
        'v' => 'V',
        'w' => 'W',
        'x' => 'X',
        'y' => 'Y',
        'z' => 'Z',
        _ => c,
    }
}

/// Normalizes a permission string into its character sequence.
pub fn normalize_chars(s: &str) -> (r: Vec<char>)
    ensures
        r@ == normalize(s@),
{
    let n: usize = s.unicode_len();
    let mut out: Vec<char> = Vec::new();
    for i in 0..n
        invariant
            n == s@.len(),
            out@ == normalize(s@.take(i as int)),
    {
        let c = s.get_char(i);
        proof {
            assert(s@.take(i + 1).drop_last() =~= s@.take(i as int));
            assert(s@.take(i + 1).last() == s@[i as int]);
        }
        if c != ' ' && c != ')' {
            out.push(upper_char(c));
        }
    }
    proof {
        assert(s@.take(n as int) =~= s@);
    }
    out
}

/// Compares a character-range of `v` with a string slice.
pub fn range_eq_str(v: &Vec<char>, from: usize, to: usize, s: &str) -> (r: bool)
    requires
        from <= to <= v@.len(),
    ensures
        r == (v@.subrange(from as int, to as int) == s@),
{
    let n: usize = s.unicode_len();
    if to - from != n {
        proof {
            assert(v@.subrange(from as int, to as int).len() == to - from);
        }
        return false;
    }
    for i in 0..n
        invariant
            n == s@.len(),
            from <= to <= v@.len(),
            to - from == n,
            forall|j: int| 0 <= j < i ==> v@[from + j] == s@[j],
    {
        if v[from + i] != s.get_char(i) {
            proof {
                assert(v@.subrange(from as int, to as int)[i as int] != s@[i as int]);
            }
            return false;
        }
    }
    proof {
        assert(v@.subrange(from as int, to as int) =~= s@);
    }
    true
}

/// Compares a whole character vector with a string slice.
pub fn chars_eq_str(v: &Vec<char>, s: &str) -> (r: bool)
    ensures
        r == (v@ == s@),
{
    let r = range_eq_str(v, 0, v.len(), s);
    proof {
        assert(v@.subrange(0, v@.len() as int) =~= v@);
    }
    r
}

/// Compares two string slices character by character.
pub fn str_eq(a: &str, b: &str) -> (r: bool)
    ensures
        r == (a@ == b@),
{
    let na: usize = a.unicode_len();
    let nb: usize = b.unicode_len();
    if na != nb {
        return false;
    }
    for i in 0..na
        invariant
            na == a@.len(),
            nb == b@.len(),
            na == nb,
            forall|j: int| 0 <= j < i ==> a@[j] == b@[j],
    {
        if a.get_char(i) != b.get_char(i) {
            return false;
        }
    }
    proof {
        assert(a@ =~= b@);
    }
    true
}

/// The position of the first occurrence of `c` in `s` at or after `from`.
pub open spec fn find_from(s: Seq<char>, c: char, from: int) -> Option<int>
    decreases s.len() - from,
{
    if from < 0 || from >= s.len() {
        None
    } else if s[from] == c {
        Some(from)
    } else {
        find_from(s, c, from + 1)
    }
}

proof fn lemma_find_from_some(s: Seq<char>, c: char, from: int, i: int)
    requires
        0 <= from <= i < s.len(),
        s[i] == c,
        forall|j: int| from <= j < i ==> s[j] != c,
    ensures
        find_from(s, c, from) == Some(i),
    decreases i - from,
{
    if from < i {
        lemma_find_from_some(s, c, from + 1, i);
    }
}

proof fn lemma_find_from_none(s: Seq<char>, c: char, from: int)
    requires
        0 <= from <= s.len(),
        forall|j: int| from <= j < s.len() ==> s[j] != c,
    ensures
        find_from(s, c, from) is None,
    decreases s.len() - from,
{
    if from < s.len() {
        lemma_find_from_none(s, c, from + 1);
    }
}

/// Finds the first occurrence of `c` in `v` at or after position `from`.
#[verifier::loop_isolation(false)]
pub fn find_char(v: &Vec<char>, c: char, from: usize) -> (r: Option<usize>)
    requires
        from <= v@.len(),
    ensures
        match r {
            Some(i) => from <= i < v@.len() && v@[i as int] == c && find_from(
                v@,
                c,
                from as int,
            ) == Some(i as int),
            None => find_from(v@, c, from as int) is None,
        },
{
    let n: usize = v.len();
    for i in from..n
        invariant
            n == v@.len(),
            forall|j: int| from <= j < i ==> v@[j] != c,
    {
        if v[i] == c {
            proof {
                lemma_find_from_some(v@, c, from as int, i as int);
            }
            return Some(i);
        }
    }
    proof {
        lemma_find_from_none(v@, c, from as int);
    }
    None
}

/// Copies the character-range `[from, to)` of `v` out into its own vector.
pub fn subvec(v: &Vec<char>, from: usize, to: usize) -> (r: Vec<char>)
    requires
        from <= to <= v@.len(),
    ensures
        r@ == v@.subrange(from as int, to as int),
{
    let mut out: Vec<char> = Vec::new();
    for i in from..to
        invariant
            from <= to <= v@.len(),
            out@ == v@.subrange(from as int, i as int),
    {
        out.push(v[i]);
        proof {
            assert(v@.subrange(from as int, i + 1) =~= v@.subrange(from as int, i as int).push(
                v@[i as int],
            ));
        }
    }
    out
}

/// Splitting a character sequence on a separator.  Consecutive separators
/// yield empty tokens and the result always holds at least one token, the way
/// `str::split` behaves on a one-character pattern.
pub open spec fn split_on(s: Seq<char>, sep: char) -> Seq<Seq<char>>
    decreases s.len(),
{
    if s.len() == 0 {
        seq![s]
    } else if s[0] == sep {
        seq![Seq::<char>::empty()] + split_on(s.drop_first(), sep)
    } else {
        let rest = split_on(s.drop_first(), sep);
        seq![seq![s[0]] + rest[0]] + rest.drop_first()
    }
}

pub proof fn lemma_split_on_nonempty(s: Seq<char>, sep: char)
    ensures
        split_on(s, sep).len() >= 1,
    decreases s.len(),
{
    if s.len() > 0 {
        lemma_split_on_nonempty(s.drop_first(), sep);
    }
}

/// The still-growing first token `p`, put back in front of the tokens of the
/// unprocessed tail: the bridge between a splitting loop and [`split_on`].
spec fn prepend_first(p: Seq<char>, ts: Seq<Seq<char>>) -> Seq<Seq<char>> {
    seq![p + ts[0]] + ts.drop_first()
}

/// Splits a character vector on a separator character.
pub fn split_chars(v: &Vec<char>, sep: char) -> (r: Vec<Vec<char>>)
    ensures
        r.deep_view() == split_on(v@, sep),
{
    let n: usize = v.len();
    let mut out: Vec<Vec<char>> = Vec::new();
    let mut cur: Vec<char> = Vec::new();
    proof {
        lemma_split_on_nonempty(v@, sep);
        assert(v@.skip(0) =~= v@);
        assert(out.deep_view() + prepend_first(cur@, split_on(v@, sep)) =~~= split_on(v@, sep));
    }
    for i in 0..n
        invariant
            n == v@.len(),
            split_on(v@, sep) == out.deep_view() + prepend_first(
                cur@,
                split_on(v@.skip(i as int), sep),
            ),
    {
        let ghost si = v@.skip(i as int);
        let ghost si1 = v@.skip(i + 1);
        proof {
            lemma_split_on_nonempty(si1, sep);
            assert(si.len() > 0);
            assert(si[0] == v@[i as int]);
            assert(si.drop_first() =~= si1);
        }
        if v[i] == sep {
            proof {
                assert(split_on(si, sep) == seq![Seq::<char>::empty()] + split_on(si1, sep));
                assert(prepend_first(cur@, split_on(si, sep)) =~~= seq![cur@] + split_on(
                    si1,
                    sep,
                ));
                assert(seq![cur@] + split_on(si1, sep) =~~= seq![cur@] + prepend_first(
                    Seq::<char>::empty(),
                    split_on(si1, sep),
                ));
            }
            let ghost prev = out.deep_view();
            let ghost cur_snap = cur@;
            out.push(cur);
            cur = Vec::new();
            proof {
                assert(out.deep_view() =~~= prev.push(cur_snap));
                assert(out.deep_view() + prepend_first(cur@, split_on(si1, sep)) =~~= prev + (
                seq![cur_snap] + prepend_first(Seq::<char>::empty(), split_on(si1, sep))));
            }
        } else {
            let c = v[i];
            proof {
                let rest = split_on(si1, sep);
                assert(split_on(si, sep) == seq![seq![v@[i as int]] + rest[0]]
                    + rest.drop_first());
                assert(prepend_first(cur@, split_on(si, sep)) =~~= prepend_first(
                    cur@.push(v@[i as int]),
                    rest,
                ));
            }
            cur.push(c);
        }
    }
    proof {
        assert(v@.skip(n as int) =~= Seq::<char>::empty());
        assert(split_on(v@, sep) =~~= out.deep_view() + seq![cur@]);
    }
    let ghost prev = out.deep_view();
    let ghost cur_snap = cur@;
    out.push(cur);
    proof {
        assert(out.deep_view() =~~= prev.push(cur_snap));
        assert(out.deep_view() =~~= split_on(v@, sep));
    }
    out
}

/// For character vectors the deep view and the plain view coincide.
pub proof fn lemma_vec_char_deep_view(v: &Vec<char>)
    ensures
        v.deep_view() == v@,
{
    assert(v.deep_view() =~= v@);
}

pub open spec fn is_digit(c: char) -> bool {
    '0' <= c && c <= '9'
}

/// The numeric value of a decimal digit character.
pub open spec fn digit_val(c: char) -> int {
    (c as int) - 48
}

pub open spec fn all_digits(s: Seq<char>) -> bool {
    forall|i: int| 0 <= i < s.len() ==> is_digit(s[i])
}

/// The value of a sequence of decimal digit characters.
pub open spec fn digits_val(s: Seq<char>) -> int
    decreases s.len(),
{
    if s.len() == 0 {
        0
    } else {
        digits_val(s.drop_last()) * 10 + digit_val(s.last())
    }
}

pub proof fn lemma_digits_val_nonneg(s: Seq<char>)
    requires
        all_digits(s),
    ensures
        digits_val(s) >= 0,
    decreases s.len(),
{
    if s.len() > 0 {
        assert(all_digits(s.drop_last()));
        lemma_digits_val_nonneg(s.drop_last());
    }
}

/// What `str::parse::<i32>` yields on a character sequence: an optional
/// leading sign, then one or more decimal digits, the value within `i32`
/// bounds; anything else is rejected.
pub open spec fn parse_i32_spec(s: Seq<char>) -> Option<i32> {
    let signed = s.len() > 0 && (s[0] == '+' || s[0] == '-');
    let neg = s.len() > 0 && s[0] == '-';
    let ds = if signed {
        s.drop_first()
    } else {
        s
    };
    if ds.len() == 0 || !all_digits(ds) {
        None
    } else if neg {
        if digits_val(ds) <= 2147483648 {
            Some((-digits_val(ds)) as i32)
        } else {
            None
        }
    } else {
        if digits_val(ds) <= 2147483647 {
            Some(digits_val(ds) as i32)
        } else {
            None
        }
    }
}

fn digit_of(c: char) -> (r: Option<u8>)
    ensures
        match r {
            Some(d) => is_digit(c) && d == digit_val(c),
            None => !is_digit(c),
        },
{
    match c {
        '0' => Some(0),
        '1' => Some(1),
        '2' => Some(2),
        '3' => Some(3),
        '4' => Some(4),
        '5' => Some(5),
        '6' => Some(6),
        '7' => Some(7),
        '8' => Some(8),
        '9' => Some(9),
        _ => None,
    }
}

/// Parses the character-range `[from, to)` of `v` as a signed 32-bit decimal
/// integer, exactly as `str::parse::<i32>` would.
#[verifier::loop_isolation(false)]
pub fn parse_i32_range(v: &Vec<char>, from: usize, to: usize) -> (r: Option<i32>)
    requires
        from <= to <= v@.len(),
    ensures
        r == parse_i32_spec(v@.subrange(from as int, to as int)),
{
    let ghost s = v@.subrange(from as int, to as int);
    let mut pos = from;
    let mut neg = false;
    if pos < to && (v[pos] == '+' || v[pos] == '-') {
        neg = v[pos] == '-';
        pos = pos + 1;
    }
    let ghost ds = v@.subrange(pos as int, to as int);
    proof {
        if pos > from {
            assert(s.drop_first() =~= ds);
        } else {
            assert(s =~= ds);
        }
    }
    if pos == to {
        return None;
    }
    let mut val: u64 = 0;
    for i in pos..to
        invariant
            from <= pos <= i <= to <= v@.len(),
            ds == v@.subrange(pos as int, to as int),
            forall|j: int| 0 <= j < i - pos ==> is_digit(ds[j]),
            digits_val(ds.take(i - pos)) <= 2147483648 ==> val == digits_val(ds.take(i - pos)),
            digits_val(ds.take(i - pos)) > 2147483648 ==> val > 2147483648,
            val <= 21474836489,
    {
        let ghost k = i - pos;
        let c = v[i];
        proof {
            assert(ds[k] == v@[i as int]);
            assert(ds.take(k + 1).drop_last() =~= ds.take(k));
            assert(ds.take(k + 1).last() == ds[k]);
        }
        let d: u64 = match digit_of(c) {
            Some(d) => d as u64,
            None => {
                proof {
                    assert(!all_digits(ds));
                }
                return None;
            },
        };
        proof {
            assert(is_digit(ds[k]));
            assert(all_digits(ds.take(k)));
            lemma_digits_val_nonneg(ds.take(k));
            assert(digits_val(ds.take(k + 1)) == digits_val(ds.take(k)) * 10 + digit_val(ds[k]));
        }
        if val <= 2147483648 {
            val = val * 10 + d;
        }
    }
    proof {
        assert(ds.take(to - pos) =~= ds);
        assert(all_digits(ds));
        lemma_digits_val_nonneg(ds);
    }
    if neg {
        if val <= 2147483648 {
            Some((-(val as i64)) as i32)
        } else {
            None
        }
    } else {
        if val <= 2147483647 {
            Some(val as i32)
        } else {
            None
        }
    }
}

/// The decimal digit character for a value below ten.
pub open spec fn dec_digit_char(d: int) -> char {
    (48 + d) as char
}

/// The decimal rendering of a nonnegative integer.
pub open spec fn u_dec(n: int) -> Seq<char>
    decreases n,
{
    if n < 10 {
        seq![dec_digit_char(n)]
    } else {
        u_dec(n / 10).push(dec_digit_char(n % 10))
    }
}

/// The decimal rendering of a signed integer, as `i32` formatting produces it.
pub open spec fn i32_dec(n: int) -> Seq<char> {
    if n < 0 {
        seq!['-'] + u_dec(-n)
    } else {
        u_dec(n)
    }
}

fn push_digit(out: &mut String, d: u32)
    requires
        d < 10,
    ensures
        final (out)@ == old(out)@ + seq![dec_digit_char(d as int)],
{
    proof {
        reveal_strlit("0");
        reveal_strlit("1");
        reveal_strlit("2");
        reveal_strlit("3");
        reveal_strlit("4");
        reveal_strlit("5");
        reveal_strlit("6");
        reveal_strlit("7");
        reveal_strlit("8");
        reveal_strlit("9");
        assert("0"@ =~= seq![dec_digit_char(0)]);
        assert("1"@ =~= seq![dec_digit_char(1)]);
        assert("2"@ =~= seq![dec_digit_char(2)]);
        assert("3"@ =~= seq![dec_digit_char(3)]);
        assert("4"@ =~= seq![dec_digit_char(4)]);
        assert("5"@ =~= seq![dec_digit_char(5)]);
        assert("6"@ =~= seq![dec_digit_char(6)]);
        assert("7"@ =~= seq![dec_digit_char(7)]);
        assert("8"@ =~= seq![dec_digit_char(8)]);
        assert("9"@ =~= seq![dec_digit_char(9)]);
    }
    match d {
        0 => out.append("0"),
        1 => out.append("1"),
        2 => out.append("2"),
        3 => out.append("3"),
        4 => out.append("4"),
        5 => out.append("5"),
        6 => out.append("6"),
        7 => out.append("7"),
        8 => out.append("8"),
        _ => out.append("9"),
    }
}

/// Appends the decimal rendering of an unsigned value.
pub fn push_u32_dec(out: &mut String, n: u32)
    ensures
        final (out)@ == old(out)@ + u_dec(n as int),
    decreases n,
{
    if n < 10 {
        push_digit(out, n);
    } else {
        let ghost before = out@;
        push_u32_dec(out, n / 10);
        push_digit(out, n % 10);
        proof {
            assert(before + u_dec(n as int / 10) + seq![dec_digit_char(n as int % 10)] =~= before
                + u_dec(n as int));
        }
    }
}

/// Appends the decimal rendering of a signed value.
pub fn push_i32_dec(out: &mut String, n: i32)
    ensures
        final (out)@ == old(out)@ + i32_dec(n as int),
{
    if n < 0 {
        let ghost before = out@;
        out.append("-");
        proof {
            reveal_strlit("-");
            assert("-"@ =~= seq!['-']);
        }
        let m: u32 = (-(n as i64)) as u32;
        push_u32_dec(out, m);
        proof {
            assert(before + seq!['-'] + u_dec(m as int) =~= before + i32_dec(n as int));
        }
    } else {
        push_u32_dec(out, n as u32);
    }
}

} // verus!
