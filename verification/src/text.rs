use vstd::prelude::*;
use vstd::std_specs::iter::IteratorSpec;

verus! {

/// Turns a string slice into the vector of its characters, so that the
/// parsing routines can work on an indexable sequence.
pub fn str_to_chars(s: &str) -> (r: Vec<char>)
    ensures
        r@ == s@,
{
    broadcast use vstd::string::next_postcondition;
    broadcast use vstd::string::axiom_spec_iter;

    let mut it = s.chars();
    let mut out: Vec<char> = Vec::new();
    loop
        invariant
            out@ + it.remaining() == s@,
            it.decrease() is Some,
        ensures
            out@ == s@,
        decreases it.decrease()->0,
    {
        match it.next() {
            Some(c) => {
                out.push(c);
            },
            None => {
                assert(out@ =~= s@);
                break ;
            },
        }
    }
    out
}

/// Relies on `String`'s `FromIterator<char>` implementation: collecting
/// characters yields the string made of exactly those characters.
#[verifier::external_body]
pub fn chars_to_string(v: &Vec<char>) -> (r: String)
    ensures
        r@ == v@,
{
    v.iter().collect()
}

/// Character-for-character comparison of a slice against a string literal.
pub fn chars_eq_str(v: &[char], s: &str) -> (r: bool)
    ensures
        r == (v@ == s@),
{
    let w = str_to_chars(s);
    chars_eq(v, w.as_slice())
}

pub fn chars_eq(v: &[char], w: &[char]) -> (r: bool)
    ensures
        r == (v@ == w@),
{
    if v.len() != w.len() {
        assert(v@.len() != w@.len());
        return false;
    }
    let n = v.len();
    let mut i: usize = 0;
    while i < n
        invariant
            n == v@.len() == w@.len(),
            0 <= i <= n,
            forall|j: int| 0 <= j < i ==> v@[j] == w@[j],
        decreases n - i,
    {
        if v[i] != w[i] {
            return false;
        }
        i += 1;
    }
    assert(v@ =~= w@);
    true
}

/// There is a copy of `sep` inside `s` starting at position `i`.
pub open spec fn occurs_at(s: Seq<char>, sep: Seq<char>, i: int) -> bool {
    &&& 0 <= i
    &&& i + sep.len() <= s.len()
    &&& s.subrange(i, i + sep.len() as int) == sep
}

/// Position of the first occurrence of `sep` inside `s`, if any.
pub open spec fn spec_find(s: Seq<char>, sep: Seq<char>) -> Option<int>
    decreases s.len(),
{
    if sep.len() == 0 {
        Some(0int)
    } else if s.len() < sep.len() {
        None
    } else if s.subrange(0, sep.len() as int) == sep {
        Some(0int)
    } else {
        match spec_find(s.subrange(1, s.len() as int), sep) {
            Some(i) => Some(i + 1),
            None => None,
        }
    }
}

proof fn lemma_occurs_shift(s: Seq<char>, sep: Seq<char>, j: int)
    requires
        1 <= j,
        s.len() >= 1,
    ensures
        occurs_at(s, sep, j) <==> occurs_at(s.subrange(1, s.len() as int), sep, j - 1),
{
    let t = s.subrange(1, s.len() as int);
    if j + sep.len() <= s.len() {
        assert(t.subrange(j - 1, j - 1 + sep.len() as int) =~= s.subrange(
            j,
            j + sep.len() as int,
        ));
    }
}

pub proof fn lemma_spec_find(s: Seq<char>, sep: Seq<char>)
    ensures
        match spec_find(s, sep) {
            Some(i) => occurs_at(s, sep, i) && (forall|j: int|
                0 <= j < i ==> !occurs_at(s, sep, j)),
            None => forall|j: int| !occurs_at(s, sep, j),
        },
    decreases s.len(),
{
    if sep.len() == 0 {
        assert(s.subrange(0, 0) =~= sep);
        assert(occurs_at(s, sep, 0));
    } else if s.len() < sep.len() {
        assert(forall|j: int| !occurs_at(s, sep, j));
    } else if s.subrange(0, sep.len() as int) == sep {
        assert(occurs_at(s, sep, 0));
    } else {
        let t = s.subrange(1, s.len() as int);
        lemma_spec_find(t, sep);
        match spec_find(t, sep) {
            Some(i) => {
                lemma_occurs_shift(s, sep, i + 1);
                assert(occurs_at(s, sep, i + 1));
                assert forall|j: int| 0 <= j < i + 1 implies !occurs_at(s, sep, j) by {
                    if j == 0 {
                        assert(s.subrange(0, sep.len() as int) != sep);
                    } else {
                        lemma_occurs_shift(s, sep, j);
                        assert(!occurs_at(t, sep, j - 1));
                    }
                }
            },
            None => {
                assert forall|j: int| true implies !occurs_at(s, sep, j) by {
                    if j == 0 {
                        assert(s.subrange(0, sep.len() as int) != sep);
                    } else if 1 <= j {
                        lemma_occurs_shift(s, sep, j);
                        assert(!occurs_at(t, sep, j - 1));
                    }
                }
            },
        }
    }
}

/// First occurrence of `sep` inside `v`, scanning from the left.
pub fn find_sub(v: &[char], sep: &[char]) -> (r: Option<usize>)
    ensures
        match r {
            Some(i) => spec_find(v@, sep@) == Some(i as int),
            None => spec_find(v@, sep@) is None,
        },
{
    proof {
        lemma_spec_find(v@, sep@);
    }
    let m = sep.len();
    let n = v.len();
    if m == 0 {
        return Some(0);
    }
    if n < m {
        return None;
    }
    let mut i: usize = 0;
    while i <= n - m
        invariant
            m == sep@.len(),
            n == v@.len(),
            1 <= m <= n,
            0 <= i <= n - m + 1,
            forall|j: int| 0 <= j < i ==> !occurs_at(v@, sep@, j),
        decreases n - i,
    {
        let window = vstd::slice::slice_subrange(v, i, i + m);
        if chars_eq(window, sep) {
            assert(occurs_at(v@, sep@, i as int));
            proof {
                lemma_spec_find(v@, sep@);
            }
            return Some(i);
        }
        assert(!occurs_at(v@, sep@, i as int));
        i += 1;
    }
    assert(forall|j: int| !occurs_at(v@, sep@, j));
    None
}

/// The pieces of `s` between the occurrences of `sep`, in order; a string
/// with no separator is a single piece, and separators at the ends produce
/// empty pieces, as splitting does in ordinary Rust.
pub open spec fn spec_split(s: Seq<char>, sep: Seq<char>) -> Seq<Seq<char>>
    decreases s.len(),
    when sep.len() > 0
{
    match spec_find(s, sep) {
        None => seq![s],
        Some(i) => {
            if 0 <= i && i + sep.len() <= s.len() {
                seq![s.subrange(0, i)] + spec_split(
                    s.subrange(i + sep.len() as int, s.len() as int),
                    sep,
                )
            } else {
                seq![s]
            }
        },
    }
}

pub fn split_sub(v: &[char], sep: &[char]) -> (r: Vec<Vec<char>>)
    requires
        sep@.len() > 0,
    ensures
        r.deep_view() == spec_split(v@, sep@),
        r@.len() >= 1,
{
    let mut pieces: Vec<Vec<char>> = Vec::new();
    let mut rest: &[char] = v;
    loop
        invariant_except_break
            pieces.deep_view() + spec_split(rest@, sep@) == spec_split(v@, sep@),
        invariant
            sep@.len() > 0,
        ensures
            pieces.deep_view() == spec_split(v@, sep@),
            pieces@.len() >= 1,
        decreases rest@.len(),
    {
        match find_sub(rest, sep) {
            Some(i) => {
                proof {
                    lemma_spec_find(rest@, sep@);
                    assert(occurs_at(rest@, sep@, i as int));
                }
                let piece = vstd::slice::slice_to_vec(vstd::slice::slice_subrange(rest, 0, i));
                let ghost old_pieces = pieces.deep_view();
                let ghost old_rest = rest@;
                pieces.push(piece);
                let rlen = rest.len();
                rest = vstd::slice::slice_subrange(rest, i + sep.len(), rlen);
                proof {
                    assert(pieces.deep_view() =~~= old_pieces + seq![
                        old_rest.subrange(0, i as int),
                    ]);
                    assert(old_pieces + spec_split(old_rest, sep@) == spec_split(v@, sep@));
                    assert(spec_split(old_rest, sep@) == seq![old_rest.subrange(0, i as int)]
                        + spec_split(rest@, sep@));
                    assert(pieces.deep_view() + spec_split(rest@, sep@) =~~= spec_split(v@, sep@));
                }
            },
            None => {
                let ghost old_pieces = pieces.deep_view();
                pieces.push(vstd::slice::slice_to_vec(rest));
                proof {
                    assert(pieces.deep_view() =~~= old_pieces + seq![rest@]);
                    assert(spec_split(rest@, sep@) == seq![rest@]);
                    assert(pieces.deep_view() =~~= spec_split(v@, sep@));
                }
                break ;
            },
        }
    }
    pieces
}

/// Characters removed by trimming: the common ASCII whitespace.
pub open spec fn is_ws_char(c: char) -> bool {
    c == ' ' || c == '\t' || c == '\r' || c == '\n'
}

pub open spec fn spec_drop_start(s: Seq<char>, p: spec_fn(char) -> bool) -> Seq<char>
    decreases s.len(),
{
    if s.len() > 0 && p(s[0]) {
        spec_drop_start(s.subrange(1, s.len() as int), p)
    } else {
        s
    }
}

pub open spec fn spec_drop_end(s: Seq<char>, p: spec_fn(char) -> bool) -> Seq<char>
    decreases s.len(),
{
    if s.len() > 0 && p(s[s.len() - 1]) {
        spec_drop_end(s.subrange(0, s.len() - 1), p)
    } else {
        s
    }
}

/// `s` with the characters satisfying `p` removed from both ends.
pub open spec fn spec_trim(s: Seq<char>, p: spec_fn(char) -> bool) -> Seq<char> {
    spec_drop_end(spec_drop_start(s, p), p)
}

proof fn lemma_drop_start_at(s: Seq<char>, p: spec_fn(char) -> bool, a: int)
    requires
        0 <= a <= s.len(),
        forall|k: int| 0 <= k < a ==> p(s[k]),
        a < s.len() ==> !p(s[a]),
    ensures
        spec_drop_start(s, p) == s.subrange(a, s.len() as int),
    decreases a,
{
    if a == 0 {
        assert(s.subrange(0, s.len() as int) =~= s);
    } else {
        let t = s.subrange(1, s.len() as int);
        lemma_drop_start_at(t, p, a - 1);
        assert(t.subrange(a - 1, t.len() as int) =~= s.subrange(a, s.len() as int));
    }
}

proof fn lemma_drop_end_at(s: Seq<char>, p: spec_fn(char) -> bool, b: int)
    requires
        0 <= b <= s.len(),
        forall|k: int| b <= k < s.len() ==> p(s[k]),
        b > 0 ==> !p(s[b - 1]),
    ensures
        spec_drop_end(s, p) == s.subrange(0, b),
    decreases s.len() - b,
{
    if b == s.len() {
        if s.len() > 0 && p(s[s.len() - 1]) {
            let t = s.subrange(0, s.len() - 1);
            lemma_drop_end_at(t, p, b - 1);
            assert(t.subrange(0, b - 1) =~= s.subrange(0, b - 1));
            assert(s.subrange(0, b) =~= s.subrange(0, b - 1));
        } else {
            assert(s.subrange(0, b) =~= s);
        }
    } else {
        let t = s.subrange(0, s.len() - 1);
        if s.len() > 0 && p(s[s.len() - 1]) {
            lemma_drop_end_at(t, p, b);
            assert(t.subrange(0, b) =~= s.subrange(0, b));
        }
    }
}

fn trimmed_char(c: char, ws: bool) -> (r: bool)
    ensures
        r == if ws {
            is_ws_char(c)
        } else {
            c == '\0'
        },
{
    if ws {
        c == ' ' || c == '\t' || c == '\r' || c == '\n'
    } else {
        c == '\0'
    }
}

/// Removes matching characters from both ends of `v`; `ws` picks between the
/// whitespace predicate and the NUL predicate.
fn trim_by(v: &[char], ws: bool) -> (r: Vec<char>)
    ensures
        r@ == spec_trim(v@, if ws { |c: char| is_ws_char(c) } else { |c: char| c == '\0' }),
{
    let ghost p = if ws {
        |c: char| is_ws_char(c)
    } else {
        |c: char| c == '\0'
    };
    let n = v.len();
    let mut a: usize = 0;
    while a < n && trimmed_char(v[a], ws)
        invariant
            n == v@.len(),
            0 <= a <= n,
            p == (if ws {
                |c: char| is_ws_char(c)
            } else {
                |c: char| c == '\0'
            }),
            forall|k: int| 0 <= k < a ==> p(v@[k]),
        decreases n - a,
    {
        a += 1;
    }
    let mut b: usize = n;
    while b > a && trimmed_char(v[b - 1], ws)
        invariant
            n == v@.len(),
            0 <= a <= b <= n,
            p == (if ws {
                |c: char| is_ws_char(c)
            } else {
                |c: char| c == '\0'
            }),
            forall|k: int| 0 <= k < a ==> p(v@[k]),
            a < n ==> !p(v@[a as int]),
            forall|k: int| b <= k < n ==> p(v@[k]),
        decreases b,
    {
        b -= 1;
    }
    proof {
        lemma_drop_start_at(v@, p, a as int);
        let t = v@.subrange(a as int, n as int);
        lemma_drop_end_at(t, p, b - a);
        assert(t.subrange(0, b - a) =~= v@.subrange(a as int, b as int));
    }
    vstd::slice::slice_to_vec(vstd::slice::slice_subrange(v, a, b))
}

/// `s` with leading and trailing NUL bytes removed, the state a fixed-size
/// read buffer leaves behind.
pub fn trim_nuls(v: &[char]) -> (r: Vec<char>)
    ensures
        r@ == spec_trim_nuls(v@),
{
    trim_by(v, false)
}

/// `s` with leading and trailing ASCII whitespace removed.
pub fn trim_ws(v: &[char]) -> (r: Vec<char>)
    ensures
        r@ == spec_trim_ws(v@),
{
    trim_by(v, true)
}

/// `s` with the NUL padding of a fixed-size read buffer removed.
pub open spec fn spec_trim_nuls(s: Seq<char>) -> Seq<char> {
    spec_trim(s, |c: char| c == '\0')
}

/// `s` with ASCII whitespace removed from both ends.
pub open spec fn spec_trim_ws(s: Seq<char>) -> Seq<char> {
    spec_trim(s, |c: char| is_ws_char(c))
}

/// A line is blank when trimming leaves nothing of it.
pub open spec fn spec_is_blank(s: Seq<char>) -> bool {
    spec_trim_ws(s).len() == 0
}

pub fn is_blank(v: &[char]) -> (r: bool)
    ensures
        r == spec_is_blank(v@),
{
    let t = trim_ws(v);
    t.len() == 0
}

/// ASCII lowering of a single character; other characters are unchanged.
pub open spec fn lower_char(c: char) -> char {
    if c == 'A' {
        'a'
    } else if c == 'B' {
        'b'
    } else if c == 'C' {
        'c'
    } else if c == 'D' {
        'd'
    } else if c == 'E' {
        'e'
    } else if c == 'F' {
        'f'
    } else if c == 'G' {
        'g'
    } else if c == 'H' {
        'h'
    } else if c == 'I' {
        'i'
    } else if c == 'J' {
        'j'
    } else if c == 'K' {
        'k'
    } else if c == 'L' {
        'l'
    } else if c == 'M' {
        'm'
    } else if c == 'N' {
        'n'
    } else if c == 'O' {
        'o'
    } else if c == 'P' {
        'p'
    } else if c == 'Q' {
        'q'
    } else if c == 'R' {
        'r'
    } else if c == 'S' {
        's'
    } else if c == 'T' {
        't'
    } else if c == 'U' {
        'u'
    } else if c == 'V' {
        'v'
    } else if c == 'W' {
        'w'
    } else if c == 'X' {
        'x'
    } else if c == 'Y' {
        'y'
    } else if c == 'Z' {
        'z'
    } else {
        c
    }
}

pub open spec fn spec_lower(s: Seq<char>) -> Seq<char> {
    s.map_values(|c: char| lower_char(c))
}

pub fn to_lower(v: &[char]) -> (r: Vec<char>)
    ensures
        r@ == spec_lower(v@),
{
    let n = v.len();
    let mut out: Vec<char> = Vec::new();
    let mut i: usize = 0;
    while i < n
        invariant
            n == v@.len(),
            0 <= i <= n,
            out@.len() == i,
            forall|k: int| 0 <= k < i ==> out@[k] == lower_char(v@[k]),
        decreases n - i,
    {
        let c = v[i];
        let lc: char = match c {
            'A' => 'a',
            'B' => 'b',
            'C' => 'c',
            'D' => 'd',
            'E' => 'e',
            'F' => 'f',
            'G' => 'g',
            'H' => 'h',
            'I' => 'i',
            'J' => 'j',
            'K' => 'k',
            'L' => 'l',
            'M' => 'm',
            'N' => 'n',
            'O' => 'o',
            'P' => 'p',
            'Q' => 'q',
            'R' => 'r',
            'S' => 's',
            'T' => 't',
            'U' => 'u',
            'V' => 'v',
            'W' => 'w',
            'X' => 'x',
            'Y' => 'y',
            'Z' => 'z',
            _ => c,
        };
        out.push(lc);
        i += 1;
    }
    assert(out@ =~= spec_lower(v@));
    out
}

pub open spec fn is_digit(c: char) -> bool {
    '0' <= c && c <= '9'
}

pub open spec fn digit_val(c: char) -> int {
    c as int - '0' as int
}

pub open spec fn all_digits(s: Seq<char>) -> bool {
    forall|k: int| 0 <= k < s.len() ==> is_digit(#[trigger] s[k])
}

/// The number a sequence of decimal digits denotes.
pub open spec fn digits_val(s: Seq<char>) -> int
    decreases s.len(),
{
    if s.len() == 0 {
        0
    } else {
        digits_val(s.subrange(0, s.len() - 1)) * 10 + digit_val(s[s.len() - 1])
    }
}

proof fn lemma_digits_val_bounds(s: Seq<char>)
    requires
        all_digits(s),
    ensures
        digits_val(s) >= 0,
        s.len() > 0 ==> digits_val(s) >= digits_val(s.subrange(0, s.len() - 1)),
    decreases s.len(),
{
    if s.len() > 0 {
        let t = s.subrange(0, s.len() - 1);
        assert(all_digits(t));
        lemma_digits_val_bounds(t);
        assert(0 <= digit_val(s[s.len() - 1]) <= 9);
    }
}

proof fn lemma_digits_prefix_monotone(s: Seq<char>, i: int)
    requires
        all_digits(s),
        0 <= i <= s.len(),
    ensures
        digits_val(s.subrange(0, i)) <= digits_val(s),
    decreases s.len() - i,
{
    if i < s.len() {
        let t = s.subrange(0, s.len() - 1);
        assert(all_digits(t));
        if i < s.len() - 1 {
            assert(t.subrange(0, i) =~= s.subrange(0, i));
            lemma_digits_prefix_monotone(t, i);
        }
        lemma_digits_val_bounds(s);
    } else {
        assert(s.subrange(0, i) =~= s);
    }
}

/// Reads a non-negative decimal number; `None` when the text is empty, holds
/// a non-digit, or denotes a value too large for `usize`.
pub fn parse_usize(v: &[char]) -> (r: Option<usize>)
    ensures
        match r {
            Some(n) => v@.len() > 0 && all_digits(v@) && n == digits_val(v@),
            None => v@.len() == 0 || !all_digits(v@) || digits_val(v@) > usize::MAX,
        },
{
    let n = v.len();
    if n == 0 {
        return None;
    }
    let mut acc: usize = 0;
    let mut i: usize = 0;
    while i < n
        invariant
            n == v@.len(),
            0 <= i <= n,
            all_digits(v@.subrange(0, i as int)),
            acc == digits_val(v@.subrange(0, i as int)),
        decreases n - i,
    {
        let c = v[i];
        if c < '0' || c > '9' {
            assert(!is_digit(v@[i as int]));
            return None;
        }
        let d: usize = char_digit(c);
        proof {
            assert(v@.subrange(0, i + 1).subrange(0, i as int) =~= v@.subrange(0, i as int));
        }
        if acc > (usize::MAX - d) / 10 {
            proof {
                assert(digits_val(v@.subrange(0, i + 1)) == acc * 10 + d);
                assert(acc * 10 + d > usize::MAX) by (nonlinear_arith)
                    requires
                        acc > (usize::MAX - d) / 10,
                        0 <= d <= 9,
                ;
                if all_digits(v@) {
                    lemma_digits_prefix_monotone(v@, i + 1);
                }
            }
            return None;
        }
        proof {
            assert(acc * 10 + d <= usize::MAX) by (nonlinear_arith)
                requires
                    acc <= (usize::MAX - d) / 10,
                    0 <= d <= 9,
            ;
        }
        acc = acc * 10 + d;
        i += 1;
    }
    proof {
        assert(v@.subrange(0, n as int) =~= v@);
    }
    Some(acc)
}

fn char_digit(c: char) -> (d: usize)
    requires
        is_digit(c),
    ensures
        d == digit_val(c),
        0 <= d <= 9,
{
    match c {
        '0' => 0,
        '1' => 1,
        '2' => 2,
        '3' => 3,
        '4' => 4,
        '5' => 5,
        '6' => 6,
        '7' => 7,
        '8' => 8,
        _ => 9,
    }
}

pub open spec fn digit_char(d: int) -> char {
    if d == 0 {
        '0'
    } else if d == 1 {
        '1'
    } else if d == 2 {
        '2'
    } else if d == 3 {
        '3'
    } else if d == 4 {
        '4'
    } else if d == 5 {
        '5'
    } else if d == 6 {
        '6'
    } else if d == 7 {
        '7'
    } else if d == 8 {
        '8'
    } else {
        '9'
    }
}

/// Decimal writing of a non-negative number, most significant digit first.
pub open spec fn spec_dec(n: int) -> Seq<char>
    decreases n,
    when n >= 0
{
    if n < 10 {
        seq![digit_char(n)]
    } else {
        spec_dec(n / 10).push(digit_char(n % 10))
    }
}

/// Decimal writing of a signed number.
pub open spec fn spec_dec_signed(n: int) -> Seq<char> {
    if n < 0 {
        seq!['-'] + spec_dec(-n)
    } else {
        spec_dec(n)
    }
}

fn digit_to_char(d: u64) -> (c: char)
    requires
        0 <= d <= 9,
    ensures
        c == digit_char(d as int),
{
    match d {
        0 => '0',
        1 => '1',
        2 => '2',
        3 => '3',
        4 => '4',
        5 => '5',
        6 => '6',
        7 => '7',
        8 => '8',
        _ => '9',
    }
}

pub fn push_dec(out: &mut Vec<char>, x: u64)
    ensures
        final(out)@ == old(out)@ + spec_dec(x as int),
    decreases x,
{
    if x < 10 {
        out.push(digit_to_char(x));
        assert(out@ =~= old(out)@ + spec_dec(x as int));
    } else {
        push_dec(out, x / 10);
        out.push(digit_to_char(x % 10));
        assert(out@ =~= old(out)@ + spec_dec(x as int));
    }
}

pub fn push_dec_signed(out: &mut Vec<char>, x: i32)
    ensures
        final(out)@ == old(out)@ + spec_dec_signed(x as int),
{
    if x < 0 {
        out.push('-');
        let mag: u64 = (-(x as i64)) as u64;
        push_dec(out, mag);
        assert(out@ =~= old(out)@ + spec_dec_signed(x as int));
    } else {
        push_dec(out, x as u64);
    }
}

/// Appends the characters of a string slice to a character vector.
pub fn push_str_chars(out: &mut Vec<char>, s: &str)
    ensures
        final(out)@ == old(out)@ + s@,
{
    let mut w = str_to_chars(s);
    out.append(&mut w);
}

} // verus!
