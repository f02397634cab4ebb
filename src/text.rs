//! Character classes of the length grammar and scanners for maximal runs of
//! each class.
use vstd::prelude::*;

verus! {

/// Unicode `White_Space`: the characters that may surround and separate the
/// parts of a length.
pub open spec fn is_space(c: char) -> bool {
    let x = c as u32;
    (9 <= x <= 13) || x == 32 || x == 0x85 || x == 0xA0 || x == 0x1680 || (0x2000 <= x <= 0x200A)
        || x == 0x2028 || x == 0x2029 || x == 0x202F || x == 0x205F || x == 0x3000
}

/// An ASCII decimal digit.
pub open spec fn is_digit(c: char) -> bool {
    '0' <= c <= '9'
}

/// An ASCII letter, upper or lower case.
pub open spec fn is_letter(c: char) -> bool {
    ('a' <= c <= 'z') || ('A' <= c <= 'Z')
}

/// The end of the maximal run of whitespace in `s` that starts at `i`.
pub open spec fn space_end(s: Seq<char>, i: int) -> int
    decreases s.len() - i,
{
    if 0 <= i < s.len() && is_space(s[i]) {
        space_end(s, i + 1)
    } else {
        i
    }
}

/// The end of the maximal run of digits in `s` that starts at `i`.
pub open spec fn digit_end(s: Seq<char>, i: int) -> int
    decreases s.len() - i,
{
    if 0 <= i < s.len() && is_digit(s[i]) {
        digit_end(s, i + 1)
    } else {
        i
    }
}

/// The end of the maximal run of letters in `s` that starts at `i`.
pub open spec fn letter_end(s: Seq<char>, i: int) -> int
    decreases s.len() - i,
{
    if 0 <= i < s.len() && is_letter(s[i]) {
        letter_end(s, i + 1)
    } else {
        i
    }
}

/// A run of digits from `i` up to `j` that nothing extends ends at `j`.
pub proof fn lemma_digit_run(s: Seq<char>, i: int, j: int)
    requires
        0 <= i <= j <= s.len(),
        forall|k: int| i <= k < j ==> is_digit(#[trigger] s[k]),
        j == s.len() || !is_digit(s[j]),
    ensures
        digit_end(s, i) == j,
    decreases j - i,
{
    if i < j {
        lemma_digit_run(s, i + 1, j);
    }
}

/// A run of letters from `i` up to `j` that nothing extends ends at `j`.
pub proof fn lemma_letter_run(s: Seq<char>, i: int, j: int)
    requires
        0 <= i <= j <= s.len(),
        forall|k: int| i <= k < j ==> is_letter(#[trigger] s[k]),
        j == s.len() || !is_letter(s[j]),
    ensures
        letter_end(s, i) == j,
    decreases j - i,
{
    if i < j {
        lemma_letter_run(s, i + 1, j);
    }
}

/// A run of whitespace from `i` up to `j` continues from `j` on.
pub proof fn lemma_space_skip(s: Seq<char>, i: int, j: int)
    requires
        0 <= i <= j <= s.len(),
        forall|k: int| i <= k < j ==> is_space(#[trigger] s[k]),
    ensures
        space_end(s, i) == space_end(s, j),
    decreases j - i,
{
    if i < j {
        lemma_space_skip(s, i + 1, j);
    }
}

/// A run that starts inside `s` ends inside `s`, no earlier than it starts.
pub proof fn lemma_run_bounds(s: Seq<char>, i: int)
    requires
        0 <= i <= s.len(),
    ensures
        i <= space_end(s, i) <= s.len(),
        i <= digit_end(s, i) <= s.len(),
        i <= letter_end(s, i) <= s.len(),
    decreases s.len() - i,
{
    if i < s.len() {
        lemma_run_bounds(s, i + 1);
    }
}

/// Runs in `w + s` that start inside `s` end where they end in `s`, moved
/// along by the length of `w`.
pub proof fn lemma_runs_shift(w: Seq<char>, s: Seq<char>, i: int)
    requires
        0 <= i <= s.len(),
    ensures
        space_end(w + s, w.len() + i) == w.len() + space_end(s, i),
        digit_end(w + s, w.len() + i) == w.len() + digit_end(s, i),
        letter_end(w + s, w.len() + i) == w.len() + letter_end(s, i),
    decreases s.len() - i,
{
    if i < s.len() {
        assert((w + s)[w.len() + i] == s[i]);
        lemma_runs_shift(w, s, i + 1);
    }
}

/// Runs in `s + w`, where `w` is whitespace, end where they end in `s`,
/// except that a run of whitespace that reaches the end of `s` goes on to the
/// end of `w`.
pub proof fn lemma_runs_extend(s: Seq<char>, w: Seq<char>, i: int)
    requires
        0 <= i <= s.len(),
        forall|k: int| 0 <= k < w.len() ==> is_space(#[trigger] w[k]),
    ensures
        digit_end(s + w, i) == digit_end(s, i),
        letter_end(s + w, i) == letter_end(s, i),
        space_end(s + w, i) == if space_end(s, i) == s.len() {
            (s.len() + w.len()) as int
        } else {
            space_end(s, i)
        },
    decreases s.len() - i,
{
    let t = s + w;
    if i < s.len() {
        assert(t[i] == s[i]);
        lemma_runs_extend(s, w, i + 1);
    } else {
        assert(forall|k: int| s.len() <= k < t.len() ==> t[k] == w[k - s.len()]);
        if w.len() > 0 {
            assert(t[i] == w[0]);
            assert(!is_digit(w[0]) && !is_letter(w[0]));
        }
        lemma_space_skip(t, i, t.len() as int);
    }
}

pub fn is_space_char(c: char) -> (r: bool)
    ensures
        r == is_space(c),
{
    let x = c as u32;
    (9 <= x && x <= 13) || x == 32 || x == 0x85 || x == 0xA0 || x == 0x1680 || (0x2000 <= x && x
        <= 0x200A) || x == 0x2028 || x == 0x2029 || x == 0x202F || x == 0x205F || x == 0x3000
}

pub fn is_digit_char(c: char) -> (r: bool)
    ensures
        r == is_digit(c),
{
    '0' <= c && c <= '9'
}

pub fn is_letter_char(c: char) -> (r: bool)
    ensures
        r == is_letter(c),
{
    ('a' <= c && c <= 'z') || ('A' <= c && c <= 'Z')
}

/// The characters of `s`, one by one.
pub fn chars_of(s: &str) -> (v: Vec<char>)
    ensures
        v@ == s@,
{
    let n = s.unicode_len();
    let mut v: Vec<char> = Vec::new();
    let mut i: usize = 0;
    while i < n
        invariant
            n == s@.len(),
            i <= n,
            v@ == s@.subrange(0, i as int),
        decreases n - i,
    {
        v.push(s.get_char(i));
        i = i + 1;
    }
    assert(v@ =~= s@);
    v
}

pub fn skip_spaces(v: &Vec<char>, i: usize) -> (j: usize)
    requires
        i <= v@.len(),
    ensures
        j == space_end(v@, i as int),
        i <= j <= v@.len(),
{
    let mut j = i;
    while j < v.len() && is_space_char(v[j])
        invariant
            i <= j <= v@.len(),
            space_end(v@, i as int) == space_end(v@, j as int),
        decreases v@.len() - j,
    {
        j = j + 1;
    }
    j
}

pub fn skip_digits(v: &Vec<char>, i: usize) -> (j: usize)
    requires
        i <= v@.len(),
    ensures
        j == digit_end(v@, i as int),
        i <= j <= v@.len(),
        forall|k: int| i <= k < j ==> is_digit(#[trigger] v@[k]),
{
    let mut j = i;
    while j < v.len() && is_digit_char(v[j])
        invariant
            i <= j <= v@.len(),
            digit_end(v@, i as int) == digit_end(v@, j as int),
            forall|k: int| i <= k < j ==> is_digit(#[trigger] v@[k]),
        decreases v@.len() - j,
    {
        j = j + 1;
    }
    j
}

pub fn skip_letters(v: &Vec<char>, i: usize) -> (j: usize)
    requires
        i <= v@.len(),
    ensures
        j == letter_end(v@, i as int),
        i <= j <= v@.len(),
{
    let mut j = i;
    while j < v.len() && is_letter_char(v[j])
        invariant
            i <= j <= v@.len(),
            letter_end(v@, i as int) == letter_end(v@, j as int),
        decreases v@.len() - j,
    {
        j = j + 1;
    }
    j
}

} // verus!
