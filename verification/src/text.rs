//! Character-level helpers: line splitting, UTF-8 byte counts and decimal
//! number parsing, each stated over `Seq<char>`.
use vstd::prelude::*;

verus! {

/// The characters of each line, as mathematical sequences.
pub open spec fn rows_view(v: Seq<Vec<char>>) -> Seq<Seq<char>> {
    Seq::new(v.len(), |i: int| v[i]@)
}

/// Index of the first `'\n'` in `s`, or `s.len()` when there is none.
pub open spec fn newline_pos(s: Seq<char>) -> nat
    decreases s.len(),
{
    if s.len() == 0 {
        0
    } else if s[0] == '\n' {
        0
    } else {
        1 + newline_pos(s.drop_first())
    }
}

/// A line without the `'\r'` that may precede its `'\n'`.
pub open spec fn strip_cr(line: Seq<char>) -> Seq<char> {
    if line.len() > 0 && line.last() == '\r' {
        line.drop_last()
    } else {
        line
    }
}

/// The lines of a text, as `str::lines` yields them: split at `'\n'`, a
/// `'\r'` right before a `'\n'` dropped, and no empty line after a final
/// line ending.
pub open spec fn lines_of(s: Seq<char>) -> Seq<Seq<char>>
    decreases s.len(),
{
    if s.len() == 0 {
        Seq::empty()
    } else {
        let k = newline_pos(s);
        if k >= s.len() {
            seq![s]
        } else {
            seq![strip_cr(s.take(k as int))] + lines_of(s.skip(k + 1 as int))
        }
    }
}

/// `newline_pos` is the first line ending, characterised by its prefix.
pub proof fn lemma_newline_pos(s: Seq<char>, m: int)
    requires
        0 <= m <= s.len(),
        forall|j: int| 0 <= j < m ==> s[j] != '\n',
        m == s.len() || s[m] == '\n',
    ensures
        newline_pos(s) == m,
    decreases m,
{
    if m > 0 {
        assert(s[0] != '\n');
        let t = s.drop_first();
        assert forall|j: int| 0 <= j < m - 1 implies t[j] != '\n' by {
            assert(t[j] == s[j + 1]);
        }
        if m < s.len() {
            assert(t[m - 1] == s[m]);
        }
        lemma_newline_pos(t, m - 1);
    }
}

/// How many of the first `i` characters are line endings (`'\n'`).
pub open spec fn newlines_before(s: Seq<char>, i: int) -> nat
    decreases i,
{
    if i <= 0 {
        0
    } else {
        newlines_before(s, i - 1) + if s[i - 1] == '\n' {
            1nat
        } else {
            0nat
        }
    }
}

/// The number of line endings in a text.
pub open spec fn newline_count(s: Seq<char>) -> nat {
    newlines_before(s, s.len() as int)
}

proof fn lemma_newlines_ext(s: Seq<char>, t: Seq<char>, i: int)
    requires
        0 <= i <= s.len(),
        i <= t.len(),
        forall|j: int| 0 <= j < i ==> s[j] == t[j],
    ensures
        newlines_before(s, i) == newlines_before(t, i),
    decreases i,
{
    if i > 0 {
        lemma_newlines_ext(s, t, i - 1);
    }
}

/// The line endings of two texts put together are those of each.
pub proof fn lemma_newline_count_concat(a: Seq<char>, b: Seq<char>)
    ensures
        newline_count(a + b) == newline_count(a) + newline_count(b),
    decreases b.len(),
{
    if b.len() == 0 {
        assert(a + b =~= a);
    } else {
        let b1 = b.drop_last();
        lemma_newline_count_concat(a, b1);
        let n = (a + b).len() as int;
        lemma_newlines_ext(a + b, a + b1, n - 1);
        lemma_newlines_ext(b, b1, b.len() - 1);
    }
}

/// A text with no line ending among its first `i` characters has none there.
pub proof fn lemma_no_newlines(s: Seq<char>, i: int)
    requires
        0 <= i <= s.len(),
        forall|j: int| 0 <= j < i ==> s[j] != '\n',
    ensures
        newlines_before(s, i) == 0,
    decreases i,
{
    if i > 0 {
        lemma_no_newlines(s, i - 1);
    }
}

proof fn lemma_newline_pos_facts(s: Seq<char>)
    ensures
        newline_pos(s) <= s.len(),
        forall|j: int| 0 <= j < newline_pos(s) ==> s[j] != '\n',
        newline_pos(s) < s.len() ==> s[newline_pos(s) as int] == '\n',
    decreases s.len(),
{
    if s.len() > 0 && s[0] != '\n' {
        let t = s.drop_first();
        lemma_newline_pos_facts(t);
        assert forall|j: int| 0 <= j < newline_pos(s) implies s[j] != '\n' by {
            if j > 0 {
                assert(s[j] == t[j - 1]);
            }
        }
    }
}

/// A text that is empty or ends with a line ending has as many lines as
/// line endings.
pub proof fn lemma_lines_count(s: Seq<char>)
    requires
        s.len() == 0 || s.last() == '\n',
    ensures
        lines_of(s).len() == newline_count(s),
    decreases s.len(),
{
    if s.len() > 0 {
        lemma_newline_pos_facts(s);
        let k = newline_pos(s) as int;
        if k >= s.len() {
            assert(s[s.len() - 1] != '\n');
        }
        let head = s.take(k + 1);
        let t = s.skip(k + 1);
        assert(s =~= head + t);
        if t.len() > 0 {
            assert(t.last() == s.last());
        }
        lemma_lines_count(t);
        lemma_newline_count_concat(head, t);
        assert forall|j: int| 0 <= j < k implies head[j] != '\n' by {
            assert(head[j] == s[j]);
        }
        lemma_no_newlines(head, k);
        assert(head[k] == '\n');
    }
}

/// A line without line endings that does not end with `'\r'`.
pub open spec fn plain_line(l: Seq<char>) -> bool {
    &&& forall|j: int| 0 <= j < l.len() ==> l[j] != '\n'
    &&& !(l.len() > 0 && l.last() == '\r')
}

/// A plain line followed by a line ending is the first line of a text.
pub proof fn lemma_lines_step(l: Seq<char>, rest: Seq<char>)
    requires
        plain_line(l),
    ensures
        lines_of(l + seq!['\n'] + rest) == seq![l] + lines_of(rest),
{
    let s = l + seq!['\n'] + rest;
    assert forall|j: int| 0 <= j < l.len() implies s[j] != '\n' by {
        assert(s[j] == l[j]);
    }
    assert(s[l.len() as int] == '\n');
    lemma_newline_pos(s, l.len() as int);
    assert(s.take(l.len() as int) =~= l);
    assert(s.skip(l.len() + 1 as int) =~= rest);
}

/// A non-empty text without line endings is one line.
pub proof fn lemma_lines_single(l: Seq<char>)
    requires
        l.len() > 0,
        forall|j: int| 0 <= j < l.len() ==> l[j] != '\n',
    ensures
        lines_of(l) == seq![l],
{
    lemma_newline_pos(l, l.len() as int);
}

/// The characters of a string slice, in order.
pub fn chars_of(s: &str) -> (v: Vec<char>)
    ensures
        v@ == s@,
{
    let mut v: Vec<char> = Vec::new();
    for c in it: s.chars()
        invariant
            v@ == it.seq().take(it.index() as int),
    {
        v.push(c);
    }
    v
}

/// Splits a text into its lines, with the rules of `str::lines`.
pub fn split_lines(s: &Vec<char>) -> (lines: Vec<Vec<char>>)
    ensures
        rows_view(lines@) == lines_of(s@),
{
    let n = s.len();
    let mut lines: Vec<Vec<char>> = Vec::new();
    let mut cur: Vec<char> = Vec::new();
    let mut start: usize = 0;
    let mut i: usize = 0;
    assert(s@.skip(0) == s@);
    assert(rows_view(lines@) + lines_of(s@) == lines_of(s@));
    while i < n
        invariant
            n == s.len(),
            start <= i <= n,
            cur@ == s@.subrange(start as int, i as int),
            forall|j: int| start <= j < i ==> s@[j] != '\n',
            rows_view(lines@) + lines_of(s@.skip(start as int)) == lines_of(s@),
        decreases n - i,
    {
        if s[i] == '\n' {
            let ghost t = s@.skip(start as int);
            let m = i - start;
            assert forall|j: int| 0 <= j < m implies t[j] != '\n' by {
                assert(t[j] == s@[start + j]);
            }
            assert(t[m as int] == s@[i as int]);
            proof {
                lemma_newline_pos(t, m as int);
            }
            assert(t.take(m as int) == cur@);
            assert(t.skip(m + 1) == s@.skip(i + 1));
            let mut line = cur;
            let len = line.len();
            if len > 0 && line[len - 1] == '\r' {
                line.pop();
            }
            assert(line@ == strip_cr(t.take(m as int)));
            let ghost before = rows_view(lines@);
            lines.push(line);
            assert(rows_view(lines@) == before.push(strip_cr(t.take(m as int))));
            assert(lines_of(t) == seq![strip_cr(t.take(m as int))] + lines_of(s@.skip(i + 1)));
            assert(rows_view(lines@) + lines_of(s@.skip(i + 1)) == before + lines_of(t));
            cur = Vec::new();
            start = i + 1;
        } else {
            cur.push(s[i]);
        }
        i = i + 1;
    }
    let ghost t = s@.skip(start as int);
    assert(t == cur@);
    if cur.len() > 0 {
        assert forall|j: int| 0 <= j < t.len() implies t[j] != '\n' by {
            assert(t[j] == s@[start + j]);
        }
        proof {
            lemma_newline_pos(t, t.len() as int);
        }
        let ghost before = rows_view(lines@);
        lines.push(cur);
        assert(rows_view(lines@) == before.push(t));
        assert(lines_of(t) == seq![t]);
    } else {
        assert(lines_of(t) == Seq::<Seq<char>>::empty());
        assert(rows_view(lines@) + lines_of(t) == rows_view(lines@));
    }
    lines
}

/// Whether two character vectors hold the same characters.
pub fn same_chars(a: &Vec<char>, b: &Vec<char>) -> (r: bool)
    ensures
        r == (a@ == b@),
{
    if a.len() != b.len() {
        return false;
    }
    let mut i: usize = 0;
    while i < a.len()
        invariant
            a@.len() == b@.len(),
            i <= a@.len(),
            forall|j: int| 0 <= j < i ==> a@[j] == b@[j],
        decreases a.len() - i,
    {
        if a[i] != b[i] {
            return false;
        }
        i = i + 1;
    }
    assert(a@ =~= b@);
    true
}

/// Number of bytes in the UTF-8 encoding of one character.
pub open spec fn char_utf8_len(c: char) -> nat {
    if (c as u32) < 0x80 {
        1
    } else if (c as u32) < 0x800 {
        2
    } else if (c as u32) < 0x10000 {
        3
    } else {
        4
    }
}

/// Number of bytes in the UTF-8 encoding of a text (what `str::len` returns).
pub open spec fn utf8_len(s: Seq<char>) -> nat
    decreases s.len(),
{
    if s.len() == 0 {
        0
    } else {
        utf8_len(s.drop_last()) + char_utf8_len(s.last())
    }
}

/// The UTF-8 byte count of a text as a `usize` holds it. The byte count
/// of any string slice fits in a `usize`, so for those this is the count.
pub open spec fn byte_width(s: Seq<char>) -> nat {
    if utf8_len(s) < usize::MAX {
        utf8_len(s)
    } else {
        usize::MAX as nat
    }
}

/// The UTF-8 byte count of a line of characters.
pub fn utf8_len_of(s: &Vec<char>) -> (n: usize)
    ensures
        n == byte_width(s@),
{
    let mut n: usize = 0;
    let mut i: usize = 0;
    while i < s.len()
        invariant
            i <= s.len(),
            n == byte_width(s@.take(i as int)),
        decreases s.len() - i,
    {
        assert(s@.take(i + 1).drop_last() == s@.take(i as int));
        let c = s[i];
        let w: usize = if (c as u32) < 0x80 {
            1
        } else if (c as u32) < 0x800 {
            2
        } else if (c as u32) < 0x10000 {
            3
        } else {
            4
        };
        if n > usize::MAX - w {
            n = usize::MAX;
        } else {
            n = n + w;
        }
        i = i + 1;
    }
    assert(s@.take(s.len() as int) == s@);
    n
}

/// std's `String::push`: afterwards the string holds the characters it held
/// before, followed by `c`.
#[verifier::external_body]
fn string_push(s: &mut String, c: char)
    ensures
        final(s)@ == old(s)@.push(c),
{
    s.push(c);
}

/// A `String` holding the given characters.
pub fn string_from_chars(v: &Vec<char>) -> (s: String)
    ensures
        s@ == v@,
{
    let mut s = String::new();
    let mut i: usize = 0;
    while i < v.len()
        invariant
            i <= v.len(),
            s@ == v@.take(i as int),
        decreases v.len() - i,
    {
        string_push(&mut s, v[i]);
        assert(v@.take(i + 1) == v@.take(i as int).push(v@[i as int]));
        i = i + 1;
    }
    assert(v@.take(v.len() as int) == v@);
    s
}

/// Index of the first occurrence of `ch` in `s`, or `s.len()` when there is none.
pub open spec fn char_pos(s: Seq<char>, ch: char) -> nat
    decreases s.len(),
{
    if s.len() == 0 {
        0
    } else if s[0] == ch {
        0
    } else {
        1 + char_pos(s.drop_first(), ch)
    }
}

/// `char_pos` is the first occurrence, characterised by its prefix.
pub proof fn lemma_char_pos(s: Seq<char>, ch: char, m: int)
    requires
        0 <= m <= s.len(),
        forall|j: int| 0 <= j < m ==> s[j] != ch,
        m == s.len() || s[m] == ch,
    ensures
        char_pos(s, ch) == m,
    decreases m,
{
    if m > 0 {
        let t = s.drop_first();
        assert forall|j: int| 0 <= j < m - 1 implies t[j] != ch by {
            assert(t[j] == s[j + 1]);
        }
        if m < s.len() {
            assert(t[m - 1] == s[m]);
        }
        lemma_char_pos(t, ch, m - 1);
    }
}

/// Finds the first occurrence of `ch` in `s`, or `s.len()`.
pub fn find_char(s: &[char], ch: char) -> (k: usize)
    ensures
        k == char_pos(s@, ch),
        k <= s@.len(),
{
    let mut k: usize = 0;
    while k < s.len() && s[k] != ch
        invariant
            k <= s@.len(),
            forall|j: int| 0 <= j < k ==> s@[j] != ch,
        decreases s.len() - k,
    {
        k = k + 1;
    }
    proof {
        lemma_char_pos(s@, ch, k as int);
    }
    k
}

/// A copy of the characters `s[from..to]`.
pub fn copy_range(s: &[char], from: usize, to: usize) -> (v: Vec<char>)
    requires
        from <= to <= s@.len(),
    ensures
        v@ == s@.subrange(from as int, to as int),
{
    let mut v: Vec<char> = Vec::new();
    let mut i = from;
    while i < to
        invariant
            from <= i <= to,
            to <= s@.len(),
            v@ == s@.subrange(from as int, i as int),
        decreases to - i,
    {
        v.push(s[i]);
        i = i + 1;
    }
    v
}

/// Whether a character is one of the ASCII digits `'0'..='9'`.
pub open spec fn is_digit(c: char) -> bool {
    '0' <= c && c <= '9'
}

/// The value of a character that is an ASCII digit.
pub open spec fn digit_value(c: char) -> nat {
    (c as u32 - '0' as u32) as nat
}

/// The value of a run of decimal digits.
pub open spec fn digits_value(s: Seq<char>) -> nat
    decreases s.len(),
{
    if s.len() == 0 {
        0
    } else {
        digits_value(s.drop_last()) * 10 + digit_value(s.last())
    }
}

/// The digits of an unsigned number: the text without one leading `'+'`.
pub open spec fn unsigned_digits(s: Seq<char>) -> Seq<char> {
    if s.len() > 0 && s[0] == '+' {
        s.drop_first()
    } else {
        s
    }
}

/// What parsing an unsigned integer no larger than `max` gives, as
/// `u8::from_str` and `u16::from_str` do: an optional `'+'`, then at least
/// one ASCII digit and nothing else, with a value that fits.
pub open spec fn parse_unsigned(s: Seq<char>, max: nat) -> Option<nat> {
    let d = unsigned_digits(s);
    if d.len() == 0 {
        None
    } else if exists|j: int| 0 <= j < d.len() && !is_digit(#[trigger] d[j]) {
        None
    } else if digits_value(d) > max {
        None
    } else {
        Some(digits_value(d))
    }
}

proof fn lemma_digits_value_grows(s: Seq<char>)
    requires
        s.len() > 0,
    ensures
        digits_value(s) >= digits_value(s.drop_last()),
{
}

/// Parses an unsigned decimal number bounded by `max`.
pub fn parse_unsigned_chars(s: &[char], max: u32) -> (r: Option<u32>)
    ensures
        match parse_unsigned(s@, max as nat) {
            Some(v) => r == Some(v as u32),
            None => r is None,
        },
{
    let n = s.len();
    let mut i: usize = 0;
    if n > 0 && s[0] == '+' {
        i = 1;
    }
    let first = i;
    let ghost d = unsigned_digits(s@);
    assert(d == s@.skip(first as int));
    if first == n {
        assert(d.len() == 0);
        return None;
    }
    let mut acc: u64 = 0;
    let mut over = false;
    while i < n
        invariant
            first <= i <= n,
            n == s.len(),
            d == s@.skip(first as int),
            d == unsigned_digits(s@),
            first < n,
            forall|j: int| first <= j < i ==> is_digit(s@[j]),
            !over ==> acc == digits_value(d.take(i - first)) && acc <= max,
            over ==> digits_value(d.take(i - first)) > max,
        decreases n - i,
    {
        let c = s[i];
        if !('0' <= c && c <= '9') {
            assert(d[i - first] == c);
            assert(!is_digit(d[i - first]));
            return None;
        }
        let ghost pre = d.take(i - first);
        let ghost nxt = d.take(i - first + 1);
        assert(nxt.drop_last() == pre);
        assert(nxt.last() == c);
        if !over {
            let dv = (c as u32 - '0' as u32) as u64;
            let v = acc * 10 + dv;
            if v > max as u64 {
                over = true;
            } else {
                acc = v;
            }
        } else {
            proof {
                lemma_digits_value_grows(nxt);
                assert(digits_value(nxt) >= digits_value(pre)) by (nonlinear_arith)
                    requires
                        digits_value(nxt) == digits_value(pre) * 10 + digit_value(c),
                ;
            }
        }
        i = i + 1;
    }
    assert(d.take(n - first) == d);
    assert forall|j: int| 0 <= j < d.len() implies is_digit(#[trigger] d[j]) by {
        assert(d[j] == s@[first + j]);
    }
    if over {
        None
    } else {
        Some(acc as u32)
    }
}

} // verus!
