use vstd::prelude::*;
use vstd::string::*;

verus! {

/// ASCII lowercasing of a single character: `'A'..='Z'` map to
/// `'a'..='z'`, every other character is left unchanged.
pub open spec fn lower_char(c: char) -> char {
    if 'A' <= c && c <= 'Z' {
        (((c as u32) + 32) as char)
    } else {
        c
    }
}

/// Character-wise ASCII lowercasing of a character sequence.
pub open spec fn lower(s: Seq<char>) -> Seq<char> {
    s.map_values(|c: char| lower_char(c))
}

/// `n` occurs in `h` starting at position `i`.
pub open spec fn contains_at(h: Seq<char>, i: int, n: Seq<char>) -> bool {
    0 <= i && i + n.len() <= h.len() && h.subrange(i, i + n.len() as int) == n
}

/// `n` occurs somewhere in `h` as a contiguous substring.
pub open spec fn has_substring(h: Seq<char>, n: Seq<char>) -> bool {
    exists|i: int| contains_at(h, i, n)
}

/// Index of the first occurrence of `c` in `s`, or `s.len()` if `c`
/// does not occur (see `lemma_find_char`).
pub open spec fn find_char(s: Seq<char>, c: char) -> int
    decreases s.len(),
{
    if s.len() == 0 {
        0
    } else if s[0] == c {
        0
    } else {
        1 + find_char(s.subrange(1, s.len() as int), c)
    }
}

pub proof fn lemma_find_char(s: Seq<char>, c: char)
    ensures
        0 <= find_char(s, c) <= s.len(),
        find_char(s, c) < s.len() ==> s[find_char(s, c)] == c,
        forall|j: int| 0 <= j < find_char(s, c) ==> s[j] != c,
    decreases s.len(),
{
    if s.len() == 0 {
    } else if s[0] == c {
    } else {
        let t = s.subrange(1, s.len() as int);
        lemma_find_char(t, c);
        assert forall|j: int| 0 <= j < find_char(s, c) implies s[j] != c by {
            if j > 0 {
                assert(s[j] == t[j - 1]);
            }
        }
    }
}

/// The free-text query split on single space characters; the
/// separators are dropped and empty fragments are kept.
pub open spec fn split_spaces(s: Seq<char>) -> Seq<Seq<char>>
    decreases s.len(),
{
    let f = find_char(s, ' ');
    if 0 <= f < s.len() {
        seq![s.subrange(0, f)] + split_spaces(s.subrange(f + 1, s.len() as int))
    } else {
        seq![s]
    }
}

pub open spec fn is_digit_char(c: char) -> bool {
    48 <= c as u32 && c as u32 <= 57
}

pub open spec fn digit_val(c: char) -> int {
    c as u32 - 48
}

pub open spec fn all_digits(s: Seq<char>) -> bool {
    forall|i: int| 0 <= i < s.len() ==> is_digit_char(#[trigger] s[i])
}

/// Value of a non-empty run of decimal digits, most significant first.
pub open spec fn digits_val(s: Seq<char>) -> int
    decreases s.len(),
{
    if s.len() == 0 {
        0
    } else {
        digits_val(s.subrange(0, s.len() - 1)) * 10 + digit_val(s[s.len() - 1])
    }
}

/// Base-10 signed integer parsing with the grammar of `i32::from_str`:
/// an optional `+` or `-` sign, then one or more ASCII digits, and the
/// value must fit in an `i32`; anything else fails.
pub open spec fn parse_int(s: Seq<char>) -> Option<i32> {
    let neg = s.len() > 0 && s[0] == '-';
    let body = if s.len() > 0 && (s[0] == '-' || s[0] == '+') {
        s.subrange(1, s.len() as int)
    } else {
        s
    };
    if body.len() == 0 || !all_digits(body) {
        None
    } else if neg {
        if digits_val(body) <= 0x8000_0000 {
            Some((-digits_val(body)) as i32)
        } else {
            None
        }
    } else {
        if digits_val(body) <= 0x7fff_ffff {
            Some(digits_val(body) as i32)
        } else {
            None
        }
    }
}

pub fn to_lower_char(c: char) -> (r: char)
    ensures
        r == lower_char(c),
{
    match c {
        'A' => 'a',
        'B' => 'b',
        'C' => 'c',
        'D' => 'd',
        'E' => 'e',
        'F' => 'f',
        'G' => 'g',
        'H' => 'h',
        'I' => 'i',
        'J' => 'j',
        'K' => 'k',
        'L' => 'l',
        'M' => 'm',
        'N' => 'n',
        'O' => 'o',
        'P' => 'p',
        'Q' => 'q',
        'R' => 'r',
        'S' => 's',
        'T' => 't',
        'U' => 'u',
        'V' => 'v',
        'W' => 'w',
        'X' => 'x',
        'Y' => 'y',
        'Z' => 'z',
        _ => c,
    }
}

/// The characters of a string slice, in order, as a vector.
pub fn chars_of(s: &str) -> (r: Vec<char>)
    ensures
        r@ == s@,
{
    let n = s.unicode_len();
    let mut r: Vec<char> = Vec::new();
    let mut i: usize = 0;
    while i < n
        invariant
            n == s@.len(),
            i <= n,
            r@ == s@.subrange(0, i as int),
        decreases n - i,
    {
        r.push(s.get_char(i));
        i = i + 1;
        proof {
            assert(r@ =~= s@.subrange(0, i as int));
        }
    }
    proof {
        assert(r@ =~= s@);
    }
    r
}

pub fn to_lower_vec(s: &Vec<char>) -> (r: Vec<char>)
    ensures
        r@ == lower(s@),
{
    let mut r: Vec<char> = Vec::new();
    let mut i: usize = 0;
    while i < s.len()
        invariant
            i <= s@.len(),
            r@ == lower(s@.subrange(0, i as int)),
        decreases s@.len() - i,
    {
        r.push(to_lower_char(s[i]));
        i = i + 1;
        proof {
            assert(r@ =~= lower(s@.subrange(0, i as int)));
        }
    }
    proof {
        assert(s@.subrange(0, s@.len() as int) =~= s@);
    }
    r
}

/// A copy of `s[a..b]`.
pub fn subvec(s: &Vec<char>, a: usize, b: usize) -> (r: Vec<char>)
    requires
        a <= b <= s@.len(),
    ensures
        r@ == s@.subrange(a as int, b as int),
{
    let mut r: Vec<char> = Vec::new();
    let mut i: usize = a;
    while i < b
        invariant
            a <= i <= b <= s@.len(),
            r@ == s@.subrange(a as int, i as int),
        decreases b - i,
    {
        r.push(s[i]);
        i = i + 1;
        proof {
            assert(r@ =~= s@.subrange(a as int, i as int));
        }
    }
    r
}

fn match_at(h: &Vec<char>, n: &Vec<char>, i: usize) -> (r: bool)
    requires
        i + n@.len() <= h@.len(),
    ensures
        r == contains_at(h@, i as int, n@),
{
    let hl = h.len();
    let mut j: usize = 0;
    while j < n.len()
        invariant
            hl == h@.len(),
            i + n@.len() <= h@.len(),
            j <= n@.len(),
            forall|k: int| 0 <= k < j ==> h@[i + k] == n@[k],
        decreases n@.len() - j,
    {
        proof {
            assert(i + j < h@.len());
        }
        if h[i + j] != n[j] {
            proof {
                assert(h@.subrange(i as int, i + n@.len() as int)[j as int] != n@[j as int]);
            }
            return false;
        }
        j = j + 1;
    }
    proof {
        assert(h@.subrange(i as int, i + n@.len() as int) =~= n@);
    }
    true
}

/// Substring search: does `n` occur contiguously in `h`?
pub fn contains_sub(h: &Vec<char>, n: &Vec<char>) -> (r: bool)
    ensures
        r == has_substring(h@, n@),
{
    if n.len() == 0 {
        proof {
            assert(h@.subrange(0, 0) =~= n@);
            assert(contains_at(h@, 0, n@));
        }
        return true;
    }
    if n.len() > h.len() {
        proof {
            assert forall|k: int| !contains_at(h@, k, n@) by {}
        }
        return false;
    }
    let hl = h.len();
    let bound = hl - n.len();
    let mut i: usize = 0;
    while i <= bound
        invariant
            hl == h@.len(),
            1 <= n@.len() <= h@.len(),
            bound == h@.len() - n@.len(),
            i <= bound + 1,
            forall|k: int| 0 <= k < i ==> !contains_at(h@, k, n@),
        decreases bound + 1 - i,
    {
        if match_at(h, n, i) {
            return true;
        }
        i = i + 1;
    }
    proof {
        assert forall|k: int| !contains_at(h@, k, n@) by {
            if 0 <= k < i {
            } else if k > bound {
                assert(k + n@.len() > h@.len());
            }
        }
    }
    false
}

/// Index of the first occurrence of `c` in `s`, or `s.len()` if absent.
pub fn find_char_vec(s: &Vec<char>, c: char) -> (r: usize)
    ensures
        r as int == find_char(s@, c),
{
    proof {
        lemma_find_char(s@, c);
    }
    let mut i: usize = 0;
    while i < s.len()
        invariant
            i <= s@.len(),
            forall|j: int| 0 <= j < i ==> s@[j] != c,
            0 <= find_char(s@, c) <= s@.len(),
            find_char(s@, c) < s@.len() ==> s@[find_char(s@, c)] == c,
            forall|j: int| 0 <= j < find_char(s@, c) ==> s@[j] != c,
        decreases s@.len() - i,
    {
        if s[i] == c {
            return i;
        }
        i = i + 1;
    }
    i
}

/// Splits on single spaces, keeping empty fragments, as the spec
/// `split_spaces` describes.
pub fn split_spaces_vec(s: &Vec<char>) -> (r: Vec<Vec<char>>)
    ensures
        r.deep_view() == split_spaces(s@),
    decreases s@.len(),
{
    proof {
        lemma_find_char(s@, ' ');
    }
    let f = find_char_vec(s, ' ');
    let n = s.len();
    if f == n {
        let mut r: Vec<Vec<char>> = Vec::new();
        r.push(subvec(s, 0, n));
        proof {
            assert(s@.subrange(0, s@.len() as int) =~= s@);
            assert(r.deep_view() =~~= split_spaces(s@));
        }
        r
    } else {
        proof {
            assert(f < n);
        }
        let head = subvec(s, 0, f);
        let tail = subvec(s, f + 1, n);
        let mut r = split_spaces_vec(&tail);
        r.insert(0, head);
        proof {
            assert(r.deep_view() =~~= split_spaces(s@));
        }
        r
    }
}

proof fn lemma_digits_val_bounds(s: Seq<char>)
    requires
        all_digits(s),
    ensures
        digits_val(s) >= 0,
    decreases s.len(),
{
    if s.len() > 0 {
        let p = s.subrange(0, s.len() - 1);
        assert(all_digits(p));
        lemma_digits_val_bounds(p);
    }
}

proof fn lemma_digits_val_monotone(s: Seq<char>, k: int)
    requires
        all_digits(s),
        0 <= k <= s.len(),
    ensures
        digits_val(s.subrange(0, k)) <= digits_val(s),
    decreases s.len() - k,
{
    if k < s.len() {
        let p = s.subrange(0, s.len() - 1);
        assert(all_digits(p));
        assert(p.subrange(0, k) =~= s.subrange(0, k));
        lemma_digits_val_monotone(p, k);
        lemma_digits_val_bounds(p);
    } else {
        assert(s.subrange(0, k) =~= s);
    }
}

/// Parses a base-10 signed integer, as the spec `parse_int` describes.
pub fn parse_int_vec(s: &Vec<char>) -> (r: Option<i32>)
    ensures
        r == parse_int(s@),
{
    let mut start: usize = 0;
    let mut neg = false;
    if s.len() > 0 && (s[0] == '-' || s[0] == '+') {
        neg = s[0] == '-';
        start = 1;
    }
    let ghost body = if start == 1 {
        s@.subrange(1, s@.len() as int)
    } else {
        s@
    };
    if start == s.len() {
        return None;
    }
    proof {
        assert(s@.subrange(start as int, start as int) =~= Seq::<char>::empty());
        assert(digits_val(Seq::<char>::empty()) == 0);
    }
    let mut val: u64 = 0;
    let mut i: usize = start;
    while i < s.len()
        invariant
            start <= i <= s@.len(),
            start <= 1,
            start == 1 <==> (s@.len() > 0 && (s@[0] == '-' || s@[0] == '+')),
            neg <==> (s@.len() > 0 && s@[0] == '-'),
            body == if start == 1 {
                s@.subrange(1, s@.len() as int)
            } else {
                s@
            },
            forall|j: int| start <= j < i ==> is_digit_char(#[trigger] s@[j]),
            val as int == digits_val(s@.subrange(start as int, i as int)),
            val <= 0x8000_0000,
        decreases s@.len() - i,
    {
        let c = s[i];
        let cu = c as u32;
        if !(48 <= cu && cu <= 57) {
            proof {
                assert(!is_digit_char(s@[i as int]));
                assert(body[i - start] == s@[i as int]);
                assert(!all_digits(body));
            }
            return None;
        }
        let new_val: u64 = val * 10 + ((cu - 48) as u64);
        proof {
            let prev = s@.subrange(start as int, i as int);
            let cur = s@.subrange(start as int, i + 1);
            assert(cur.subrange(0, cur.len() - 1) =~= prev);
            assert(cur[cur.len() - 1] == s@[i as int]);
        }
        if new_val > 0x8000_0000 {
            proof {
                if all_digits(body) {
                    let cur = s@.subrange(start as int, i + 1);
                    assert(cur =~= body.subrange(0, i + 1 - start));
                    lemma_digits_val_monotone(body, i + 1 - start);
                    assert(digits_val(body) > 0x8000_0000);
                }
            }
            return None;
        }
        val = new_val;
        i = i + 1;
    }
    proof {
        assert(s@.subrange(start as int, s@.len() as int) =~= body);
        assert(all_digits(body));
        assert(val as int == digits_val(body));
    }
    if neg {
        let out: i32 = (-(val as i64)) as i32;
        Some(out)
    } else {
        if val <= 0x7fff_ffff {
            Some(val as i32)
        } else {
            None
        }
    }
}

} // verus!
