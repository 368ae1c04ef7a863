//! Small text utilities shared by the stat-token parsers: digit scanning,
//! decimal values of digit runs, string equality and lexicographic order.

use vstd::prelude::*;

verus! {

/// Whether `c` is an ASCII decimal digit.
pub open spec fn is_digit(c: char) -> bool {
    '0' as u32 <= c as u32 && c as u32 <= '9' as u32
}

/// The numeric value of one decimal digit.
pub open spec fn digit_val(c: char) -> nat {
    (c as u32 - '0' as u32) as nat
}

/// Whether every character of `s` is a decimal digit.
pub open spec fn all_digits(s: Seq<char>) -> bool {
    forall|i: int| 0 <= i < s.len() ==> is_digit(#[trigger] s[i])
}

/// The decimal value of a run of digits, most significant first.
pub open spec fn digits_val(s: Seq<char>) -> nat
    decreases s.len(),
{
    if s.len() == 0 {
        0
    } else {
        digits_val(s.drop_last()) * 10 + digit_val(s.last())
    }
}

/// The length of the longest digit-only prefix of `s`.
pub open spec fn digits_prefix_len(s: Seq<char>) -> nat
    decreases s.len(),
{
    if s.len() == 0 || !is_digit(s[0]) {
        0
    } else {
        1 + digits_prefix_len(s.skip(1))
    }
}

/// `digits_prefix_len` is the unique cut characterized by "digits up to it,
/// a non-digit (or the end) at it".
pub proof fn lemma_digits_prefix_len_characterization(s: Seq<char>, n: int)
    requires
        0 <= n <= s.len(),
        forall|i: int| 0 <= i < n ==> is_digit(#[trigger] s[i]),
        n < s.len() ==> !is_digit(s[n]),
    ensures
        digits_prefix_len(s) == n,
    decreases s.len(),
{
    if s.len() == 0 {
    } else if n == 0 {
    } else {
        assert(forall|i: int| 0 <= i < n - 1 ==> is_digit(#[trigger] s.skip(1)[i]));
        lemma_digits_prefix_len_characterization(s.skip(1), n - 1);
    }
}

/// Appending a digit to a run multiplies its value by ten and adds the digit,
/// so the value of a prefix never exceeds the value of the whole run.
pub proof fn lemma_digits_val_prefix_le(s: Seq<char>, n: int)
    requires
        0 <= n <= s.len(),
    ensures
        digits_val(s.take(n)) <= digits_val(s),
    decreases s.len() - n,
{
    if n < s.len() {
        lemma_digits_val_prefix_le(s, n + 1);
        assert(s.take(n + 1).drop_last() =~= s.take(n));
        assert(digits_val(s.take(n + 1)) == digits_val(s.take(n)) * 10 + digit_val(
            s.take(n + 1).last(),
        ));
    } else {
        assert(s.take(n) =~= s);
    }
}

/// First index at or after `from` holding a non-digit, or the length of `s`.
pub fn scan_digits(s: &str, from: usize) -> (end: usize)
    requires
        from <= s@.len(),
    ensures
        from <= end <= s@.len(),
        forall|i: int| from <= i < end ==> is_digit(#[trigger] s@[i]),
        end < s@.len() ==> !is_digit(s@[end as int]),
{
    let n = s.unicode_len();
    let mut end = from;
    while end < n
        invariant
            from <= end <= n,
            n == s@.len(),
            forall|i: int| from <= i < end ==> is_digit(#[trigger] s@[i]),
        decreases n - end,
    {
        let c = s.get_char(end);
        if !('0' <= c && c <= '9') {
            assert(!is_digit(s@[end as int]));
            return end;
        }
        end = end + 1;
    }
    end
}

/// The decimal value of the digit run `s[from..to]`, or `None` if that value
/// exceeds `cap`.
pub fn parse_digits_capped(s: &str, from: usize, to: usize, cap: u16) -> (r: Option<u16>)
    requires
        from <= to <= s@.len(),
        forall|i: int| from <= i < to ==> is_digit(#[trigger] s@[i]),
    ensures
        match r {
            Some(v) => digits_val(s@.subrange(from as int, to as int)) == v && v <= cap,
            None => digits_val(s@.subrange(from as int, to as int)) > cap,
        },
{
    let ghost run = s@.subrange(from as int, to as int);
    let mut i = from;
    let mut acc: u16 = 0;
    let mut over = false;
    while i < to
        invariant
            from <= i <= to <= s@.len(),
            forall|j: int| from <= j < to ==> is_digit(#[trigger] s@[j]),
            run == s@.subrange(from as int, to as int),
            !over ==> acc == digits_val(run.take(i - from)) && acc <= cap,
            over ==> digits_val(run.take(i - from)) > cap,
        decreases to - i,
    {
        let c = s.get_char(i);
        assert(is_digit(s@[i as int]));
        let d: u32 = c as u32 - 48;
        proof {
            assert(run.take(i + 1 - from).drop_last() =~= run.take(i - from));
            assert(run.take(i + 1 - from).last() == s@[i as int]);
        }
        if !over {
            let next: u32 = acc as u32 * 10 + d;
            if next > cap as u32 {
                // The digits that follow can only grow the value further.
                over = true;
            } else {
                acc = next as u16;
            }
        } else {
            proof {
                lemma_digits_val_prefix_le(run.take(i + 1 - from), i - from);
                assert(run.take(i + 1 - from).take(i - from) =~= run.take(i - from));
            }
        }
        i = i + 1;
    }
    proof {
        assert(run.take(to - from) =~= run);
    }
    if over {
        None
    } else {
        Some(acc)
    }
}

/// The length of the longest prefix of `s` free of spaces: the first
/// space-separated token of a type string.
pub open spec fn nonspace_prefix_len(s: Seq<char>) -> nat
    decreases s.len(),
{
    if s.len() == 0 || s[0] == ' ' {
        0
    } else {
        1 + nonspace_prefix_len(s.skip(1))
    }
}

/// `nonspace_prefix_len` is the unique cut characterized by "no space up to
/// it, a space (or the end) at it".
pub proof fn lemma_nonspace_prefix_len_characterization(s: Seq<char>, n: int)
    requires
        0 <= n <= s.len(),
        forall|i: int| 0 <= i < n ==> #[trigger] s[i] != ' ',
        n < s.len() ==> s[n] == ' ',
    ensures
        nonspace_prefix_len(s) == n,
    decreases s.len(),
{
    if s.len() == 0 {
    } else if n == 0 {
    } else {
        assert(forall|i: int| 0 <= i < n - 1 ==> #[trigger] s.skip(1)[i] != ' ');
        lemma_nonspace_prefix_len_characterization(s.skip(1), n - 1);
    }
}

/// First index at or after `from` holding a space, or the length of `s`.
pub fn scan_nonspace(s: &str, from: usize) -> (end: usize)
    requires
        from <= s@.len(),
    ensures
        from <= end <= s@.len(),
        forall|i: int| from <= i < end ==> #[trigger] s@[i] != ' ',
        end < s@.len() ==> s@[end as int] == ' ',
{
    let n = s.unicode_len();
    let mut end = from;
    while end < n
        invariant
            from <= end <= n,
            n == s@.len(),
            forall|i: int| from <= i < end ==> #[trigger] s@[i] != ' ',
        decreases n - end,
    {
        let c = s.get_char(end);
        if c == ' ' {
            return end;
        }
        end = end + 1;
    }
    end
}

/// What a strict decimal parse of `s` yields: the value when `s` is one or
/// more digits and fits in a byte, nothing otherwise.
pub open spec fn spec_parse_u8(s: Seq<char>) -> Option<u8> {
    if s.len() >= 1 && all_digits(s) && digits_val(s) <= 255 {
        Some(digits_val(s) as u8)
    } else {
        None
    }
}

/// Parse a whole token as an unsigned byte.
pub fn parse_plain_u8(s: &str) -> (r: Option<u8>)
    ensures
        r == spec_parse_u8(s@),
{
    let n = s.unicode_len();
    if n == 0 {
        return None;
    }
    let e = scan_digits(s, 0);
    if e != n {
        assert(!is_digit(s@[e as int]));
        return None;
    }
    proof {
        assert(s@.subrange(0, n as int) =~= s@);
    }
    match parse_digits_capped(s, 0, n, 255) {
        Some(v) => Some(v as u8),
        None => None,
    }
}

/// What a signed decimal parse of `s` yields: an optional leading minus
/// followed by digits, in the range of `i8`.
pub open spec fn spec_parse_i8(s: Seq<char>) -> Option<i8> {
    if s.len() >= 2 && s[0] == '-' && all_digits(s.skip(1)) && digits_val(s.skip(1)) <= 128 {
        Some((0 - digits_val(s.skip(1))) as i8)
    } else if s.len() >= 1 && all_digits(s) && digits_val(s) <= 127 {
        Some(digits_val(s) as i8)
    } else {
        None
    }
}

/// Parse a whole token as a signed byte.
pub fn parse_plain_i8(s: &str) -> (r: Option<i8>)
    ensures
        r == spec_parse_i8(s@),
{
    let n = s.unicode_len();
    if n == 0 {
        return None;
    }
    if s.get_char(0) == '-' {
        if n == 1 {
            return None;
        }
        let e = scan_digits(s, 1);
        proof {
            assert(s@.skip(1) =~= s@.subrange(1, n as int));
        }
        if e != n {
            assert(!is_digit(s@.skip(1)[e - 1]));
            return None;
        }
        match parse_digits_capped(s, 1, n, 128) {
            Some(v) => {
                if v == 128 {
                    Some(-128)
                } else {
                    Some(-(v as i8))
                }
            },
            None => None,
        }
    } else {
        assert(s@.len() >= 1 && s@[0] != '-');
        let e = scan_digits(s, 0);
        if e != n {
            assert(!is_digit(s@[e as int]));
            return None;
        }
        proof {
            assert(s@.subrange(0, n as int) =~= s@);
        }
        match parse_digits_capped(s, 0, n, 127) {
            Some(v) => Some(v as i8),
            None => None,
        }
    }
}

/// What parsing a leading digit run yields: the value of the longest digit
/// prefix, when it is non-empty and fits in a byte. Characters after the
/// run are ignored, so both `12` and `12"` parse to 12.
pub open spec fn spec_parse_leading_u8(s: Seq<char>) -> Option<u8> {
    let k = digits_prefix_len(s) as int;
    if k >= 1 && digits_val(s.take(k)) <= 255 {
        Some(digits_val(s.take(k)) as u8)
    } else {
        None
    }
}

/// Parse the leading digit run of a token as an unsigned byte.
pub fn parse_leading_u8(s: &str) -> (r: Option<u8>)
    ensures
        r == spec_parse_leading_u8(s@),
{
    let n = s.unicode_len();
    let k = scan_digits(s, 0);
    proof {
        lemma_digits_prefix_len_characterization(s@, k as int);
    }
    if k == 0 {
        return None;
    }
    proof {
        assert(s@.subrange(0, k as int) =~= s@.take(k as int));
    }
    match parse_digits_capped(s, 0, k, 255) {
        Some(v) => Some(v as u8),
        None => None,
    }
}

/// The sum of two bytes, clamped to the largest byte value.
pub open spec fn clamped_add_u8(a: u8, b: u8) -> u8 {
    if a + b > 255 {
        255u8
    } else {
        (a + b) as u8
    }
}

/// Add two bytes, clamping at the top of the byte range.
pub fn add_u8_clamped(a: u8, b: u8) -> (r: u8)
    ensures
        r == clamped_add_u8(a, b),
{
    let s: u16 = a as u16 + b as u16;
    if s > 255 {
        255
    } else {
        s as u8
    }
}

/// An integer clamped into the range of `i64`.
pub open spec fn clamp_i64(x: int) -> i64 {
    if x > i64::MAX {
        i64::MAX
    } else if x < i64::MIN {
        i64::MIN
    } else {
        x as i64
    }
}

/// Add two machine integers, clamping at the ends of the `i64` range.
pub fn add_i64_clamped(a: i64, b: i64) -> (r: i64)
    ensures
        r == clamp_i64(a + b),
{
    let s: i128 = a as i128 + b as i128;
    if s > i64::MAX as i128 {
        i64::MAX
    } else if s < i64::MIN as i128 {
        i64::MIN
    } else {
        s as i64
    }
}

/// Whether two string slices hold the same characters.
pub fn str_eq(a: &str, b: &str) -> (r: bool)
    ensures
        r == (a@ == b@),
{
    let la = a.unicode_len();
    let lb = b.unicode_len();
    if la != lb {
        return false;
    }
    let mut i: usize = 0;
    while i < la
        invariant
            0 <= i <= la,
            la == a@.len(),
            la == b@.len(),
            forall|j: int| 0 <= j < i ==> a@[j] == b@[j],
        decreases la - i,
    {
        if a.get_char(i) != b.get_char(i) {
            return false;
        }
        i = i + 1;
    }
    assert(a@ =~= b@);
    true
}

/// Lexicographic order on character sequences, by code point.
pub open spec fn lex_le(a: Seq<char>, b: Seq<char>) -> bool
    decreases a.len(),
{
    if a.len() == 0 {
        true
    } else if b.len() == 0 {
        false
    } else if (a[0] as u32) < (b[0] as u32) {
        true
    } else if a[0] != b[0] {
        false
    } else {
        lex_le(a.skip(1), b.skip(1))
    }
}

/// Strict lexicographic order.
pub open spec fn lex_lt(a: Seq<char>, b: Seq<char>) -> bool {
    lex_le(a, b) && a != b
}

/// `lex_le` is reflexive.
pub proof fn lemma_lex_le_refl(a: Seq<char>)
    ensures
        lex_le(a, a),
    decreases a.len(),
{
    if a.len() > 0 {
        lemma_lex_le_refl(a.skip(1));
    }
}

/// `lex_le` is total: one of the two directions always holds.
pub proof fn lemma_lex_le_total(a: Seq<char>, b: Seq<char>)
    ensures
        lex_le(a, b) || lex_le(b, a),
    decreases a.len(),
{
    if a.len() > 0 && b.len() > 0 {
        if a[0] == b[0] {
            lemma_lex_le_total(a.skip(1), b.skip(1));
        } else {
            // Distinct characters have distinct code points.
            vstd::utf8::char_u32_cast(a[0], a[0] as u32);
            vstd::utf8::char_u32_cast(b[0], b[0] as u32);
            assert(a[0] as u32 != b[0] as u32);
        }
    }
}

/// `lex_le` is antisymmetric: mutual order means equality.
pub proof fn lemma_lex_le_antisym(a: Seq<char>, b: Seq<char>)
    requires
        lex_le(a, b),
        lex_le(b, a),
    ensures
        a == b,
    decreases a.len(),
{
    if a.len() == 0 {
        assert(b.len() == 0);
        assert(a =~= b);
    } else {
        assert(a[0] == b[0]);
        lemma_lex_le_antisym(a.skip(1), b.skip(1));
        assert(a =~= b) by {
            assert(forall|i: int|
                1 <= i < a.len() ==> a[i] == a.skip(1)[i - 1] && b[i] == b.skip(1)[i - 1]);
        }
    }
}

/// `lex_le` is transitive.
pub proof fn lemma_lex_le_trans(a: Seq<char>, b: Seq<char>, c: Seq<char>)
    requires
        lex_le(a, b),
        lex_le(b, c),
    ensures
        lex_le(a, c),
    decreases a.len(),
{
    if a.len() > 0 {
        assert(b.len() > 0);
        assert(c.len() > 0);
        if a[0] == b[0] && b[0] == c[0] {
            lemma_lex_le_trans(a.skip(1), b.skip(1), c.skip(1));
        }
    }
}

/// Compare two string slices in lexicographic order.
pub fn str_lex_le(a: &str, b: &str) -> (r: bool)
    ensures
        r == lex_le(a@, b@),
{
    let la = a.unicode_len();
    let lb = b.unicode_len();
    let mut i: usize = 0;
    proof {
        assert(a@.skip(0) =~= a@);
        assert(b@.skip(0) =~= b@);
    }
    while i < la && i < lb
        invariant
            0 <= i <= la,
            0 <= i <= lb,
            la == a@.len(),
            lb == b@.len(),
            lex_le(a@, b@) == lex_le(a@.skip(i as int), b@.skip(i as int)),
        decreases la - i,
    {
        let ca = a.get_char(i);
        let cb = b.get_char(i);
        assert(a@.skip(i as int)[0] == ca && b@.skip(i as int)[0] == cb);
        if (ca as u32) < (cb as u32) {
            return true;
        }
        if ca != cb {
            return false;
        }
        proof {
            assert(a@.skip(i as int).skip(1) =~= a@.skip(i + 1));
            assert(b@.skip(i as int).skip(1) =~= b@.skip(i + 1));
        }
        i = i + 1;
    }
    if i == la {
        assert(a@.skip(i as int).len() == 0);
        true
    } else {
        assert(b@.skip(i as int).len() == 0 && a@.skip(i as int).len() > 0);
        false
    }
}

/// Whether a sequence of names is strictly ascending in lexicographic
/// order; such a sequence holds no duplicates.
pub open spec fn strictly_sorted_strings(q: Seq<Seq<char>>) -> bool {
    forall|i: int, j: int| 0 <= i < j < q.len() ==> lex_lt(#[trigger] q[i], #[trigger] q[j])
}

/// Inserting an element into a sequence inserts its value into the set of
/// elements.
proof fn lemma_insert_to_set(q: Seq<Seq<char>>, j: int, x: Seq<char>)
    requires
        0 <= j <= q.len(),
    ensures
        q.insert(j, x).to_set() =~= q.to_set().insert(x),
{
    let q2 = q.insert(j, x);
    assert forall|y: Seq<char>| q2.to_set().contains(y) implies q.to_set().insert(x).contains(
        y,
    ) by {
        let i = choose|i: int| 0 <= i < q2.len() && #[trigger] q2[i] == y;
        if i < j {
            assert(q[i] == y);
        } else if i == j {
        } else {
            assert(q[i - 1] == y);
        }
    }
    assert forall|y: Seq<char>| q.to_set().insert(x).contains(y) implies q2.to_set().contains(
        y,
    ) by {
        if y == x {
            assert(q2[j] == y);
        } else {
            let i = choose|i: int| 0 <= i < q.len() && #[trigger] q[i] == y;
            if i < j {
                assert(q2[i] == y);
            } else {
                assert(q2[i + 1] == y);
            }
        }
    }
}

/// Taking one more element of a sequence adds its value to the set of
/// elements taken.
proof fn lemma_take_one_more_to_set(q: Seq<Seq<char>>, n: int)
    requires
        0 <= n < q.len(),
    ensures
        q.take(n + 1).to_set() =~= q.take(n).to_set().insert(q[n]),
{
    assert forall|y: Seq<char>| q.take(n + 1).to_set().contains(y) implies q.take(
        n,
    ).to_set().insert(q[n]).contains(y) by {
        let i = choose|i: int| 0 <= i < n + 1 && #[trigger] q.take(n + 1)[i] == y;
        if i < n {
            assert(q.take(n)[i] == y);
        }
    }
    assert forall|y: Seq<char>| q.take(n).to_set().insert(q[n]).contains(y) implies q.take(
        n + 1,
    ).to_set().contains(y) by {
        if y == q[n] {
            assert(q.take(n + 1)[n] == y);
        } else {
            let i = choose|i: int| 0 <= i < n && #[trigger] q.take(n)[i] == y;
            assert(q.take(n + 1)[i] == y);
        }
    }
}

/// Insert a name into a strictly sorted list, keeping it sorted and
/// dropping the name if it is already there.
pub open spec fn sorted_insert(q: Seq<Seq<char>>, x: Seq<char>) -> Seq<Seq<char>>
    decreases q.len(),
{
    if q.len() == 0 {
        seq![x]
    } else if x == q[0] {
        q
    } else if lex_le(x, q[0]) {
        q.insert(0, x)
    } else {
        seq![q[0]] + sorted_insert(q.skip(1), x)
    }
}

/// What sorting a list of names and dropping duplicates yields.
pub open spec fn spec_sort_dedup(q: Seq<Seq<char>>) -> Seq<Seq<char>>
    decreases q.len(),
{
    if q.len() == 0 {
        Seq::empty()
    } else {
        sorted_insert(spec_sort_dedup(q.drop_last()), q.last())
    }
}

/// `sorted_insert` is determined by the cut `j`: names before it order
/// strictly below `x`, the name at it (if any) orders at or above.
pub proof fn lemma_sorted_insert_characterization(q: Seq<Seq<char>>, x: Seq<char>, j: int)
    requires
        0 <= j <= q.len(),
        forall|k: int| 0 <= k < j ==> !lex_le(x, #[trigger] q[k]),
        j < q.len() ==> lex_le(x, q[j]),
    ensures
        sorted_insert(q, x) == if j < q.len() && q[j] == x {
            q
        } else {
            q.insert(j, x)
        },
    decreases q.len(),
{
    if q.len() == 0 {
        assert(sorted_insert(q, x) =~= q.insert(0, x));
    } else if j == 0 {
        if q[0] == x {
        } else {
            assert(sorted_insert(q, x) == q.insert(0, x));
        }
    } else {
        lemma_lex_le_refl(x);
        assert(x != q[0]);
        assert(forall|k: int| 0 <= k < j - 1 ==> !lex_le(x, #[trigger] q.skip(1)[k]));
        lemma_sorted_insert_characterization(q.skip(1), x, j - 1);
        if j < q.len() && q[j] == x {
            assert(q.skip(1)[j - 1] == x);
            assert(sorted_insert(q, x) =~= q);
        } else {
            assert(seq![q[0]] + q.skip(1).insert(j - 1, x) =~= q.insert(j, x));
        }
    }
}

/// Sort a list of names and drop duplicates: the result is strictly
/// ascending and holds exactly the set of input names.
pub fn sort_dedup_strings(v: &Vec<String>) -> (r: Vec<String>)
    ensures
        r.deep_view() == spec_sort_dedup(v.deep_view()),
        strictly_sorted_strings(r.deep_view()),
        r.deep_view().to_set() == v.deep_view().to_set(),
{
    let mut r: Vec<String> = Vec::new();
    let mut idx: usize = 0;
    proof {
        assert(v.deep_view().take(0).to_set() =~= Set::empty());
        assert(r.deep_view().to_set() =~= Set::empty());
    }
    proof {
        assert(v.deep_view().take(0) =~= Seq::<Seq<char>>::empty());
    }
    while idx < v.len()
        invariant
            0 <= idx <= v.len(),
            v.deep_view().len() == v.len(),
            strictly_sorted_strings(r.deep_view()),
            r.deep_view() == spec_sort_dedup(v.deep_view().take(idx as int)),
            r.deep_view().to_set() == v.deep_view().take(idx as int).to_set(),
        decreases v.len() - idx,
    {
        proof {
            assert(v.deep_view().take(idx + 1).drop_last() =~= v.deep_view().take(idx as int));
            assert(v.deep_view().take(idx + 1).last() == v.deep_view()[idx as int]);
        }
        let x = v[idx].clone();
        assert(x@ == v.deep_view()[idx as int]);
        let mut j: usize = 0;
        let mut stop = false;
        while !stop
            invariant
                0 <= j <= r.len(),
                r.deep_view().len() == r.len(),
                forall|i: int| 0 <= i < j ==> !lex_le(x@, #[trigger] r.deep_view()[i]),
                stop ==> j == r.len() || lex_le(x@, r.deep_view()[j as int]),
            decreases r.len() - j + (if stop { 0int } else { 1int }),
        {
            if j == r.len() {
                stop = true;
            } else if str_lex_le(x.as_str(), r[j].as_str()) {
                stop = true;
            } else {
                j = j + 1;
            }
        }
        // Every entry before `j` is strictly below `x`; if `j` is in range,
        // `x` orders at or before the entry there.
        proof {
            assert forall|i: int| 0 <= i < j implies lex_lt(#[trigger] r.deep_view()[i], x@) by {
                lemma_lex_le_total(x@, r.deep_view()[i]);
                lemma_lex_le_refl(x@);
            }
        }
        proof {
            lemma_sorted_insert_characterization(r.deep_view(), x@, j as int);
        }
        if j < r.len() && str_eq(x.as_str(), r[j].as_str()) {
            // Already present: the set is unchanged.
            proof {
                assert(r.deep_view().to_set().contains(x@));
                lemma_take_one_more_to_set(v.deep_view(), idx as int);
                assert(r.deep_view().to_set() =~= v.deep_view().take(idx + 1).to_set());
            }
        } else {
            let ghost old_dv = r.deep_view();
            r.insert(j, x);
            proof {
                assert(r.deep_view() =~= old_dv.insert(j as int, x@));
                lemma_insert_to_set(old_dv, j as int, x@);
                lemma_take_one_more_to_set(v.deep_view(), idx as int);
                assert(r.deep_view().to_set() =~= v.deep_view().take(idx + 1).to_set());
                let dv = r.deep_view();
                assert forall|p: int, q: int| 0 <= p < q < dv.len() implies lex_lt(
                    #[trigger] dv[p],
                    #[trigger] dv[q],
                ) by {
                    if q < j {
                        assert(dv[p] == old_dv[p] && dv[q] == old_dv[q]);
                    } else if p > j {
                        assert(dv[p] == old_dv[p - 1] && dv[q] == old_dv[q - 1]);
                    } else if p < j && q == j {
                        assert(dv[p] == old_dv[p] && dv[q] == x@);
                    } else if p == j {
                        assert(dv[p] == x@ && dv[q] == old_dv[q - 1]);
                        if j < old_dv.len() {
                            if q - 1 == j {
                            } else {
                                lemma_lex_le_trans(x@, old_dv[j as int], old_dv[q - 1]);
                                if x@ == old_dv[q - 1] {
                                    lemma_lex_le_antisym(old_dv[j as int], old_dv[q - 1]);
                                }
                            }
                        }
                    } else {
                        assert(dv[p] == old_dv[p] && dv[q] == old_dv[q - 1]);
                        if q - 1 == p {
                            assert(dv[q] == old_dv[p]);
                            assert(p < j);
                            assert(lex_lt(old_dv[p], x@));
                            assert(false);
                        }
                    }
                }
            }
        }
        idx = idx + 1;
    }
    proof {
        assert(v.deep_view().take(idx as int) =~= v.deep_view());
    }
    r
}

} // verus!
