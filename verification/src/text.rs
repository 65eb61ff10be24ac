//! Verified text utilities: string equality, prefix tests, whitespace
//! tokenization and unsigned-integer parsing. Command text arrives from the
//! transport as plain strings; everything the dispatcher decides about that
//! text goes through these functions.
use vstd::prelude::*;
use vstd::string::*;

verus! {

/// `p` is a prefix of `s`.
pub open spec fn spec_starts_with(s: Seq<char>, p: Seq<char>) -> bool {
    p.len() <= s.len() && s.take(p.len() as int) == p
}

/// Character-exact string equality.
pub fn str_eq(a: &str, b: &str) -> (r: bool)
    ensures
        r == (a@ == b@),
{
    let an = a.unicode_len();
    let bn = b.unicode_len();
    if an != bn {
        return false;
    }
    let mut i: usize = 0;
    while i < an
        invariant
            an == a@.len(),
            an == b@.len(),
            0 <= i <= an,
            forall|j: int| 0 <= j < i ==> a@[j] == b@[j],
        decreases an - i,
    {
        if a.get_char(i) != b.get_char(i) {
            return false;
        }
        i = i + 1;
    }
    proof {
        assert(a@ =~= b@);
    }
    true
}

/// Prefix test: does `s` start with `p`?
pub fn starts_with_str(s: &str, p: &str) -> (r: bool)
    ensures
        r == spec_starts_with(s@, p@),
{
    let sn = s.unicode_len();
    let pn = p.unicode_len();
    if pn > sn {
        return false;
    }
    let mut i: usize = 0;
    while i < pn
        invariant
            sn == s@.len(),
            pn == p@.len(),
            pn <= sn,
            0 <= i <= pn,
            forall|j: int| 0 <= j < i ==> s@[j] == p@[j],
        decreases pn - i,
    {
        if s.get_char(i) != p.get_char(i) {
            proof {
                assert(s@.take(p@.len() as int)[i as int] == s@[i as int]);
            }
            return false;
        }
        i = i + 1;
    }
    proof {
        assert(s@.take(p@.len() as int) =~= p@);
    }
    true
}

/// `s` without its leading spaces.
pub open spec fn spec_trim_start(s: Seq<char>) -> Seq<char>
    decreases s.len(),
{
    if s.len() > 0 && s[0] == ' ' {
        spec_trim_start(s.skip(1))
    } else {
        s
    }
}

/// Index of the first space in `s`, or `s.len()` when there is none.
pub open spec fn spec_first_space(s: Seq<char>) -> int
    decreases s.len(),
{
    if s.len() == 0 {
        0
    } else if s[0] == ' ' {
        0
    } else {
        1 + spec_first_space(s.skip(1))
    }
}

/// The first whitespace-separated token of `s` (empty when `s` is all spaces).
pub open spec fn spec_token(s: Seq<char>) -> Seq<char> {
    let t = spec_trim_start(s);
    t.take(spec_first_space(t))
}

/// What remains of `s` after its first token, leading spaces kept.
pub open spec fn spec_rest(s: Seq<char>) -> Seq<char> {
    let t = spec_trim_start(s);
    t.skip(spec_first_space(t))
}

/// An index `i` below which all characters are spaces, and which is either the
/// end or a non-space, marks where the trimmed sequence starts.
proof fn lemma_trim_start_at(s: Seq<char>, i: int)
    requires
        0 <= i <= s.len(),
        forall|j: int| 0 <= j < i ==> s[j] == ' ',
        i < s.len() ==> s[i] != ' ',
    ensures
        spec_trim_start(s) == s.skip(i),
    decreases i,
{
    if i == 0 {
        assert(s.skip(0) =~= s);
    } else {
        lemma_trim_start_at(s.skip(1), i - 1);
        assert(s.skip(1).skip(i - 1) =~= s.skip(i));
    }
}

/// An index `k` below which no character is a space, and which is either the
/// end or a space, is the first space.
proof fn lemma_first_space_at(s: Seq<char>, k: int)
    requires
        0 <= k <= s.len(),
        forall|j: int| 0 <= j < k ==> s[j] != ' ',
        k < s.len() ==> s[k] == ' ',
    ensures
        spec_first_space(s) == k,
    decreases k,
{
    if k == 0 {
    } else {
        lemma_first_space_at(s.skip(1), k - 1);
    }
}

/// The first space index stays within the sequence.
pub proof fn lemma_first_space_le_len(s: Seq<char>)
    ensures
        0 <= spec_first_space(s) <= s.len(),
    decreases s.len(),
{
    if s.len() > 0 && s[0] != ' ' {
        lemma_first_space_le_len(s.skip(1));
    }
}

/// Splits `s` into its first whitespace-separated token and the remainder.
/// The token is empty exactly when `s` holds no token.
pub fn next_token(s: &str) -> (r: (String, String))
    ensures
        r.0@ == spec_token(s@),
        r.1@ == spec_rest(s@),
{
    let n = s.unicode_len();
    let mut i: usize = 0;
    while i < n && s.get_char(i) == ' '
        invariant
            n == s@.len(),
            0 <= i <= n,
            forall|j: int| 0 <= j < i ==> s@[j] == ' ',
        decreases n - i,
    {
        i = i + 1;
    }
    proof {
        lemma_trim_start_at(s@, i as int);
    }
    let mut k: usize = i;
    while k < n && s.get_char(k) != ' '
        invariant
            n == s@.len(),
            0 <= i <= k <= n,
            forall|j: int| i <= j < k ==> s@[j] != ' ',
        decreases n - k,
    {
        k = k + 1;
    }
    proof {
        lemma_first_space_at(s@.skip(i as int), k - i as int);
        assert(s@.skip(i as int).take(k - i as int) =~= s@.subrange(i as int, k as int));
        assert(s@.skip(i as int).skip(k - i as int) =~= s@.subrange(k as int, n as int));
    }
    let token = s.substring_char(i, k);
    let rest = s.substring_char(k, n);
    (String::from_str(token), String::from_str(rest))
}

/// `s` with its leading spaces removed.
pub fn trim_start(s: &str) -> (r: String)
    ensures
        r@ == spec_trim_start(s@),
{
    let n = s.unicode_len();
    let mut i: usize = 0;
    while i < n && s.get_char(i) == ' '
        invariant
            n == s@.len(),
            0 <= i <= n,
            forall|j: int| 0 <= j < i ==> s@[j] == ' ',
        decreases n - i,
    {
        i = i + 1;
    }
    proof {
        lemma_trim_start_at(s@, i as int);
        assert(s@.skip(i as int) =~= s@.subrange(i as int, n as int));
    }
    String::from_str(s.substring_char(i, n))
}

/// Decimal digit test.
pub open spec fn is_digit(c: char) -> bool {
    '0' <= c && c <= '9'
}

/// Numeric value of a digit character.
pub open spec fn digit_val(c: char) -> int {
    c as int - '0' as int
}

/// Value of a digit string read most-significant first.
pub open spec fn spec_digits_val(s: Seq<char>) -> int
    decreases s.len(),
{
    if s.len() == 0 {
        0
    } else {
        spec_digits_val(s.drop_last()) * 10 + digit_val(s.last())
    }
}

/// A non-empty all-digit string whose value fits in a `u64`.
pub open spec fn spec_is_u64_digits(s: Seq<char>) -> bool {
    &&& s.len() > 0
    &&& forall|i: int| 0 <= i < s.len() ==> is_digit(#[trigger] s[i])
    &&& spec_digits_val(s) <= u64::MAX
}

/// What a decimal `u64` parse returns: the value of the digits, or nothing on
/// an empty string, a non-digit, or overflow.
pub open spec fn spec_parse_u64(s: Seq<char>) -> Option<u64> {
    if spec_is_u64_digits(s) {
        Some(spec_digits_val(s) as u64)
    } else {
        None
    }
}

/// The value of an all-digit string is non-negative.
proof fn lemma_digits_val_nonneg(s: Seq<char>)
    requires
        forall|i: int| 0 <= i < s.len() ==> is_digit(#[trigger] s[i]),
    ensures
        spec_digits_val(s) >= 0,
    decreases s.len(),
{
    if s.len() > 0 {
        lemma_digits_val_nonneg(s.drop_last());
    }
}

/// Extending an all-digit prefix by one digit multiplies its value by ten and
/// adds the digit.
proof fn lemma_digits_val_extend(s: Seq<char>, i: int)
    requires
        0 <= i < s.len(),
    ensures
        spec_digits_val(s.take(i + 1)) == spec_digits_val(s.take(i)) * 10 + digit_val(s[i]),
{
    assert(s.take(i + 1).drop_last() =~= s.take(i));
    assert(s.take(i + 1).last() == s[i]);
}

/// Reading further digits never decreases the value of an all-digit string.
proof fn lemma_digits_val_prefix_le(s: Seq<char>, i: int)
    requires
        0 <= i <= s.len(),
        forall|j: int| 0 <= j < s.len() ==> is_digit(#[trigger] s[j]),
    ensures
        spec_digits_val(s.take(i)) <= spec_digits_val(s),
    decreases s.len() - i,
{
    if i == s.len() {
        assert(s.take(i) =~= s);
    } else {
        lemma_digits_val_extend(s, i);
        lemma_digits_val_nonneg(s.take(i));
        lemma_digits_val_prefix_le(s, i + 1);
    }
}

/// Parses a decimal `u64`: the digits' value, or nothing on an empty string,
/// a non-digit character, or overflow.
pub fn parse_u64(s: &str) -> (r: Option<u64>)
    ensures
        r == spec_parse_u64(s@),
{
    let n = s.unicode_len();
    if n == 0 {
        return None;
    }
    let mut acc: u64 = 0;
    let mut i: usize = 0;
    while i < n
        invariant
            n == s@.len(),
            0 < n,
            0 <= i <= n,
            forall|j: int| 0 <= j < i ==> is_digit(#[trigger] s@[j]),
            acc == spec_digits_val(s@.take(i as int)),
        decreases n - i,
    {
        let c = s.get_char(i);
        if c < '0' || c > '9' {
            return None;
        }
        let d: u64 = (c as u32 - '0' as u32) as u64;
        if acc > (u64::MAX - d) / 10 {
            proof {
                lemma_digits_val_extend(s@, i as int);
                assert(acc * 10 + d > u64::MAX) by (nonlinear_arith)
                    requires
                        acc > (u64::MAX - d) / 10,
                        d <= 9,
                        acc >= 0,
                {}
                if spec_is_u64_digits(s@) {
                    lemma_digits_val_prefix_le(s@, i + 1 as int);
                }
            }
            return None;
        }
        proof {
            lemma_digits_val_extend(s@, i as int);
            lemma_digits_val_nonneg(s@.take(i as int));
            assert(acc * 10 + d <= u64::MAX) by (nonlinear_arith)
                requires
                    acc <= (u64::MAX - d) / 10,
                    d <= 9,
                    acc >= 0,
            {}
        }
        acc = acc * 10 + d;
        i = i + 1;
    }
    proof {
        assert(s@.take(n as int) =~= s@);
    }
    Some(acc)
}

} // verus!
