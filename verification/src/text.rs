//! Character-level string helpers shared by the settings, path and
//! file-format parsers.
//!
//! Every helper works on `Seq<char>` models: the exec functions take
//! character slices and their contracts state the result over the spec
//! functions defined here.

use vstd::prelude::*;

verus! {

/// The Unicode `White_Space` property, which `char::is_whitespace` tests.
pub open spec fn is_ws(c: char) -> bool {
    let u = c as u32;
    ||| 0x9 <= u <= 0xd
    ||| u == 0x20
    ||| u == 0x85
    ||| u == 0xa0
    ||| u == 0x1680
    ||| 0x2000 <= u <= 0x200a
    ||| u == 0x2028
    ||| u == 0x2029
    ||| u == 0x202f
    ||| u == 0x205f
    ||| u == 0x3000
}

/// Executable whitespace test.
pub fn char_is_ws(c: char) -> (r: bool)
    ensures
        r == is_ws(c),
{
    let u = c as u32;
    (0x9 <= u && u <= 0xd) || u == 0x20 || u == 0x85 || u == 0xa0 || u == 0x1680 || (0x2000
        <= u && u <= 0x200a) || u == 0x2028 || u == 0x2029 || u == 0x202f || u == 0x205f || u
        == 0x3000
}

/// The views of a sequence of character vectors.
pub open spec fn seqs_view(v: Seq<Vec<char>>) -> Seq<Seq<char>> {
    v.map_values(|x: Vec<char>| x@)
}

/// Collects the characters of a string slice.
pub fn chars_of(s: &str) -> (out: Vec<char>)
    ensures
        out@ == s@,
{
    let mut out: Vec<char> = Vec::new();
    for c in it: s.chars()
        invariant
            it.seq() == s@,
            out@ == it.seq().take(it.index() as int),
    {
        out.push(c);
    }
    out
}

/// Builds an owned string from a character slice.
#[verifier::external_body]
pub(crate) fn string_from_chars(chars: &[char]) -> (s: String)
    ensures
        s@ == chars@,
{
    chars.iter().collect()
}

/// Exact character-wise equality of two string slices.
pub fn str_eq(a: &str, b: &str) -> (r: bool)
    ensures
        r == (a@ == b@),
{
    let ac = chars_of(a);
    let bc = chars_of(b);
    chars_eq(&ac, &bc)
}

/// Exact equality of two character slices.
pub fn chars_eq(a: &[char], b: &[char]) -> (r: bool)
    ensures
        r == (a@ == b@),
{
    if a.len() != b.len() {
        return false;
    }
    let mut i: usize = 0;
    while i < a.len()
        invariant
            a.len() == b.len(),
            i <= a.len(),
            forall|j: int| 0 <= j < i ==> a@[j] == b@[j],
        decreases a.len() - i,
    {
        if a[i] != b[i] {
            return false;
        }
        i = i + 1;
    }
    assert(a@ =~= b@);
    true
}

/// Copies `s[from..to]`.
pub fn sub_chars(s: &[char], from: usize, to: usize) -> (out: Vec<char>)
    requires
        from <= to <= s.len(),
    ensures
        out@ == s@.subrange(from as int, to as int),
{
    let mut out: Vec<char> = Vec::new();
    let mut i = from;
    while i < to
        invariant
            from <= i <= to <= s.len(),
            out@ == s@.subrange(from as int, i as int),
        decreases to - i,
    {
        out.push(s[i]);
        i = i + 1;
        assert(out@ =~= s@.subrange(from as int, i as int));
    }
    out
}

/// Appends every character of `extra` to `out`.
pub fn push_all(out: &mut Vec<char>, extra: &[char])
    ensures
        final(out)@ == old(out)@ + extra@,
{
    let ghost start = out@;
    let mut i: usize = 0;
    while i < extra.len()
        invariant
            i <= extra.len(),
            out@ == start + extra@.take(i as int),
        decreases extra.len() - i,
    {
        out.push(extra[i]);
        i = i + 1;
        assert(out@ =~= start + extra@.take(i as int));
    }
    assert(extra@.take(extra.len() as int) =~= extra@);
}

/// Appends the characters of a string slice to `out`.
pub fn push_str(out: &mut Vec<char>, extra: &str)
    ensures
        final(out)@ == old(out)@ + extra@,
{
    let cs = chars_of(extra);
    push_all(out, &cs);
}

/// `s` with its leading whitespace removed.
pub open spec fn trim_start(s: Seq<char>) -> Seq<char>
    decreases s.len(),
{
    if s.len() > 0 && is_ws(s[0]) {
        trim_start(s.drop_first())
    } else {
        s
    }
}

/// `s` with its trailing whitespace removed.
pub open spec fn trim_end(s: Seq<char>) -> Seq<char>
    decreases s.len(),
{
    if s.len() > 0 && is_ws(s.last()) {
        trim_end(s.drop_last())
    } else {
        s
    }
}

/// `s` with leading and trailing whitespace removed, as `str::trim` does.
pub open spec fn trim(s: Seq<char>) -> Seq<char> {
    trim_end(trim_start(s))
}

proof fn lemma_trim_start_at(s: Seq<char>, i: int)
    requires
        0 <= i <= s.len(),
        forall|j: int| 0 <= j < i ==> is_ws(#[trigger] s[j]),
        i == s.len() || !is_ws(s[i]),
    ensures
        trim_start(s) == s.subrange(i, s.len() as int),
    decreases i,
{
    if i == 0 {
        assert(s.subrange(0, s.len() as int) =~= s);
    } else {
        let t = s.drop_first();
        assert forall|j: int| 0 <= j < i - 1 implies is_ws(#[trigger] t[j]) by {
            assert(t[j] == s[j + 1]);
        }
        lemma_trim_start_at(t, i - 1);
        assert(t.subrange(i - 1, t.len() as int) =~= s.subrange(i, s.len() as int));
    }
}

proof fn lemma_trim_end_at(s: Seq<char>, j: int)
    requires
        0 <= j <= s.len(),
        forall|k: int| j <= k < s.len() ==> is_ws(#[trigger] s[k]),
        j == 0 || !is_ws(s[j - 1]),
    ensures
        trim_end(s) == s.subrange(0, j),
    decreases s.len() - j,
{
    if j == s.len() {
        assert(s.subrange(0, j) =~= s);
    } else {
        let t = s.drop_last();
        lemma_trim_end_at(t, j);
        assert(t.subrange(0, j) =~= s.subrange(0, j));
    }
}

/// Index of the first non-whitespace character, or `s.len()`.
fn first_non_ws(s: &[char]) -> (i: usize)
    ensures
        i <= s.len(),
        forall|j: int| 0 <= j < i ==> is_ws(#[trigger] s@[j]),
        i == s.len() || !is_ws(s@[i as int]),
{
    let mut i: usize = 0;
    while i < s.len() && char_is_ws(s[i])
        invariant
            i <= s.len(),
            forall|j: int| 0 <= j < i ==> is_ws(#[trigger] s@[j]),
        decreases s.len() - i,
    {
        i = i + 1;
    }
    i
}

/// `str::trim_start` on characters.
pub fn trim_start_chars(s: &[char]) -> (out: Vec<char>)
    ensures
        out@ == trim_start(s@),
{
    let i = first_non_ws(s);
    proof {
        lemma_trim_start_at(s@, i as int);
    }
    sub_chars(s, i, s.len())
}

/// `str::trim_end` on characters.
pub fn trim_end_chars(s: &[char]) -> (out: Vec<char>)
    ensures
        out@ == trim_end(s@),
{
    let mut j = s.len();
    while j > 0 && char_is_ws(s[j - 1])
        invariant
            j <= s.len(),
            forall|k: int| j <= k < s.len() ==> is_ws(#[trigger] s@[k]),
        decreases j,
    {
        j = j - 1;
    }
    proof {
        lemma_trim_end_at(s@, j as int);
    }
    sub_chars(s, 0, j)
}

/// `str::trim` on characters.
pub fn trim_chars(s: &[char]) -> (out: Vec<char>)
    ensures
        out@ == trim(s@),
{
    let a = trim_start_chars(s);
    trim_end_chars(&a)
}

/// Drops one trailing carriage return.
pub open spec fn strip_cr(s: Seq<char>) -> Seq<char> {
    if s.len() > 0 && s.last() == '\r' {
        s.drop_last()
    } else {
        s
    }
}

/// The line split of `str::lines`, scanning `rest` with the current
/// unfinished line `cur`: lines end at `\n`, a `\r` right before the `\n`
/// is dropped, and a final line ending adds no empty line.
pub open spec fn lines_scan(rest: Seq<char>, cur: Seq<char>) -> Seq<Seq<char>>
    decreases rest.len(),
{
    if rest.len() == 0 {
        if cur.len() == 0 {
            seq![]
        } else {
            seq![cur]
        }
    } else if rest[0] == '\n' {
        seq![strip_cr(cur)] + lines_scan(rest.drop_first(), seq![])
    } else {
        lines_scan(rest.drop_first(), cur.push(rest[0]))
    }
}

/// The lines of `s`, as `str::lines` yields them.
pub open spec fn lines(s: Seq<char>) -> Seq<Seq<char>> {
    lines_scan(s, seq![])
}

/// `str::lines` on characters.
pub fn lines_of(s: &[char]) -> (out: Vec<Vec<char>>)
    ensures
        seqs_view(out@) == lines(s@),
{
    let mut out: Vec<Vec<char>> = Vec::new();
    let mut cur: Vec<char> = Vec::new();
    let mut i: usize = 0;
    assert(s@.skip(0) =~= s@);
    while i < s.len()
        invariant
            i <= s.len(),
            lines(s@) == seqs_view(out@) + lines_scan(s@.skip(i as int), cur@),
        decreases s.len() - i,
    {
        let ghost rest = s@.skip(i as int);
        assert(rest.drop_first() =~= s@.skip(i + 1));
        if s[i] == '\n' {
            let ghost oldcur = cur@;
            let mut line = cur;
            if line.len() > 0 && line[line.len() - 1] == '\r' {
                line.pop();
            }
            assert(line@ =~= strip_cr(oldcur));
            let ghost before = seqs_view(out@);
            out.push(line);
            assert(seqs_view(out@) =~= before.push(strip_cr(oldcur)));
            cur = Vec::new();
            assert(cur@ =~= seq![]);
            assert(seqs_view(out@) + lines_scan(s@.skip(i + 1), cur@) =~= before + (seq![
                strip_cr(oldcur),
            ] + lines_scan(s@.skip(i + 1), seq![])));
        } else {
            cur.push(s[i]);
        }
        i = i + 1;
    }
    if cur.len() > 0 {
        let ghost before = seqs_view(out@);
        out.push(cur);
        assert(seqs_view(out@) =~= before + seq![cur@]);
    } else {
        assert(seqs_view(out@) =~= seqs_view(out@) + seq![]);
    }
    out
}


/// The whitespace-separated tokens of `str::split_whitespace`, scanning
/// `rest` with the current unfinished token `cur`.
pub open spec fn ws_scan(rest: Seq<char>, cur: Seq<char>) -> Seq<Seq<char>>
    decreases rest.len(),
{
    if rest.len() == 0 {
        if cur.len() == 0 {
            seq![]
        } else {
            seq![cur]
        }
    } else if is_ws(rest[0]) {
        (if cur.len() == 0 {
            seq![]
        } else {
            seq![cur]
        }) + ws_scan(rest.drop_first(), seq![])
    } else {
        ws_scan(rest.drop_first(), cur.push(rest[0]))
    }
}

/// The tokens of `s`, as `str::split_whitespace` yields them.
pub open spec fn split_ws(s: Seq<char>) -> Seq<Seq<char>> {
    ws_scan(s, seq![])
}

/// `str::split_whitespace` on characters.
pub fn split_ws_of(s: &[char]) -> (out: Vec<Vec<char>>)
    ensures
        seqs_view(out@) == split_ws(s@),
{
    let mut out: Vec<Vec<char>> = Vec::new();
    let mut cur: Vec<char> = Vec::new();
    let mut i: usize = 0;
    assert(s@.skip(0) =~= s@);
    while i < s.len()
        invariant
            i <= s.len(),
            split_ws(s@) == seqs_view(out@) + ws_scan(s@.skip(i as int), cur@),
        decreases s.len() - i,
    {
        let ghost rest = s@.skip(i as int);
        assert(rest.drop_first() =~= s@.skip(i + 1));
        if char_is_ws(s[i]) {
            let ghost oldcur = cur@;
            let ghost before = seqs_view(out@);
            if cur.len() > 0 {
                out.push(cur);
                assert(seqs_view(out@) =~= before + seq![oldcur]);
            } else {
                assert(seqs_view(out@) =~= before + seq![]);
            }
            cur = Vec::new();
            assert(cur@ =~= seq![]);
            assert(seqs_view(out@) + ws_scan(s@.skip(i + 1), cur@) =~= before + ((if oldcur.len()
                == 0 {
                seq![]
            } else {
                seq![oldcur]
            }) + ws_scan(s@.skip(i + 1), seq![])));
        } else {
            cur.push(s[i]);
        }
        i = i + 1;
    }
    if cur.len() > 0 {
        let ghost before = seqs_view(out@);
        out.push(cur);
        assert(seqs_view(out@) =~= before + seq![cur@]);
    } else {
        assert(seqs_view(out@) =~= seqs_view(out@) + seq![]);
    }
    out
}

/// The pieces of `str::split` on the character `sep`, scanning `rest` with
/// the current unfinished piece `cur`: every separator ends a piece, and the
/// text after the last separator is a piece, empty or not.
pub open spec fn split_scan(rest: Seq<char>, sep: char, cur: Seq<char>) -> Seq<Seq<char>>
    decreases rest.len(),
{
    if rest.len() == 0 {
        seq![cur]
    } else if rest[0] == sep {
        seq![cur] + split_scan(rest.drop_first(), sep, seq![])
    } else {
        split_scan(rest.drop_first(), sep, cur.push(rest[0]))
    }
}

/// The pieces of `s` between occurrences of `sep`, as `str::split` yields them.
pub open spec fn split_on(s: Seq<char>, sep: char) -> Seq<Seq<char>> {
    split_scan(s, sep, seq![])
}

/// `str::split` on a character, on characters.
pub fn split_on_chars(s: &[char], sep: char) -> (out: Vec<Vec<char>>)
    ensures
        seqs_view(out@) == split_on(s@, sep),
{
    let mut out: Vec<Vec<char>> = Vec::new();
    let mut cur: Vec<char> = Vec::new();
    let mut i: usize = 0;
    assert(s@.skip(0) =~= s@);
    while i < s.len()
        invariant
            i <= s.len(),
            split_on(s@, sep) == seqs_view(out@) + split_scan(s@.skip(i as int), sep, cur@),
        decreases s.len() - i,
    {
        let ghost rest = s@.skip(i as int);
        assert(rest.drop_first() =~= s@.skip(i + 1));
        if s[i] == sep {
            let ghost oldcur = cur@;
            let ghost before = seqs_view(out@);
            out.push(cur);
            assert(seqs_view(out@) =~= before + seq![oldcur]);
            cur = Vec::new();
            assert(cur@ =~= seq![]);
            assert(seqs_view(out@) + split_scan(s@.skip(i + 1), sep, cur@) =~= before + (seq![
                oldcur,
            ] + split_scan(s@.skip(i + 1), sep, seq![])));
        } else {
            cur.push(s[i]);
        }
        i = i + 1;
    }
    let ghost before = seqs_view(out@);
    assert(s@.skip(i as int) =~= seq![]);
    out.push(cur);
    assert(seqs_view(out@) =~= before + seq![cur@]);
    out
}

/// An ASCII decimal digit.
pub open spec fn is_digit(c: char) -> bool {
    48 <= c as u32 <= 57
}

/// The value of an ASCII decimal digit.
pub open spec fn digit_value(c: char) -> int {
    c as u32 - 48
}

/// Every character is an ASCII decimal digit.
pub open spec fn all_digits(s: Seq<char>) -> bool {
    forall|i: int| 0 <= i < s.len() ==> is_digit(#[trigger] s[i])
}

/// The value of a string of decimal digits.
pub open spec fn digits_value(s: Seq<char>) -> int
    decreases s.len(),
{
    if s.len() == 0 {
        0
    } else {
        digits_value(s.drop_last()) * 10 + digit_value(s.last())
    }
}

/// `s` without one leading `+`.
pub open spec fn drop_plus(s: Seq<char>) -> Seq<char> {
    if s.len() > 0 && s[0] == '+' {
        s.drop_first()
    } else {
        s
    }
}

/// What `str::parse::<u32>` accepts: an optional `+`, then one or more
/// decimal digits whose value fits in a `u32`.
pub open spec fn parse_u32(s: Seq<char>) -> Option<u32> {
    let d = drop_plus(s);
    if d.len() > 0 && all_digits(d) && digits_value(d) <= u32::MAX {
        Some(digits_value(d) as u32)
    } else {
        None
    }
}

proof fn lemma_digits_value_nonneg(s: Seq<char>)
    requires
        all_digits(s),
    ensures
        digits_value(s) >= 0,
    decreases s.len(),
{
    if s.len() > 0 {
        lemma_digits_value_nonneg(s.drop_last());
    }
}

proof fn lemma_digits_value_mono(s: Seq<char>, j: int, k: int)
    requires
        all_digits(s),
        0 <= j <= k <= s.len(),
    ensures
        digits_value(s.take(j)) <= digits_value(s.take(k)),
    decreases k - j,
{
    if j < k {
        lemma_digits_value_mono(s, j, k - 1);
        let t = s.take(k);
        assert(t.drop_last() =~= s.take(k - 1));
        assert(all_digits(s.take(k - 1)));
        lemma_digits_value_nonneg(s.take(k - 1));
        assert(is_digit(s[k - 1]));
    }
}

/// `str::parse::<u32>` on characters.
pub fn parse_u32_chars(s: &[char]) -> (r: Option<u32>)
    ensures
        r == parse_u32(s@),
{
    let start: usize = if s.len() > 0 && s[0] == '+' {
        1
    } else {
        0
    };
    let ghost d = drop_plus(s@);
    assert(d =~= s@.skip(start as int));
    if start >= s.len() {
        return None;
    }
    let mut acc: u64 = 0;
    let mut i = start;
    while i < s.len()
        invariant
            start <= i <= s.len(),
            d == s@.skip(start as int),
            d == drop_plus(s@),
            d.len() > 0,
            all_digits(d.take(i - start)),
            acc == digits_value(d.take(i - start)),
            acc <= u32::MAX,
        decreases s.len() - i,
    {
        let c = s[i];
        let u = c as u32;
        assert(d[i - start] == c);
        if u < 48 || u > 57 {
            assert(!is_digit(d[i - start]));
            assert(!all_digits(d));
            return None;
        }
        let ghost t = d.take(i + 1 - start);
        assert(t.drop_last() =~= d.take(i - start));
        assert(t.last() == c);
        acc = acc * 10 + (u - 48) as u64;
        i = i + 1;
        assert(acc == digits_value(t));
        assert(all_digits(d.take(i - start)));
        if acc > 0xffff_ffff {
            proof {
                if all_digits(d) {
                    lemma_digits_value_mono(d, i - start, d.len() as int);
                    assert(d.take(d.len() as int) =~= d);
                }
            }
            return None;
        }
    }
    assert(d.take(d.len() as int) =~= d);
    Some(acc as u32)
}

/// `s` without one leading sign character.
pub open spec fn drop_sign(s: Seq<char>) -> Seq<char> {
    if s.len() > 0 && (s[0] == '+' || s[0] == '-') {
        s.drop_first()
    } else {
        s
    }
}

/// What `str::parse::<i32>` accepts: an optional `+` or `-`, then one or
/// more decimal digits whose signed value fits in an `i32`.
pub open spec fn parse_i32(s: Seq<char>) -> Option<i32> {
    let d = drop_sign(s);
    let v = if s.len() > 0 && s[0] == '-' {
        -digits_value(d)
    } else {
        digits_value(d)
    };
    if d.len() > 0 && all_digits(d) && i32::MIN <= v <= i32::MAX {
        Some(v as i32)
    } else {
        None
    }
}

/// `str::parse::<i32>` on characters.
pub fn parse_i32_chars(s: &[char]) -> (r: Option<i32>)
    ensures
        r == parse_i32(s@),
{
    let neg = s.len() > 0 && s[0] == '-';
    let start: usize = if s.len() > 0 && (s[0] == '+' || s[0] == '-') {
        1
    } else {
        0
    };
    let ghost d = drop_sign(s@);
    assert(d =~= s@.skip(start as int));
    if start >= s.len() {
        return None;
    }
    let mut acc: u64 = 0;
    let mut i = start;
    while i < s.len()
        invariant
            start <= i <= s.len(),
            d == s@.skip(start as int),
            d == drop_sign(s@),
            d.len() > 0,
            all_digits(d.take(i - start)),
            acc == digits_value(d.take(i - start)),
            acc <= 0x8000_0000,
        decreases s.len() - i,
    {
        let c = s[i];
        let u = c as u32;
        assert(d[i - start] == c);
        if u < 48 || u > 57 {
            assert(!is_digit(d[i - start]));
            assert(!all_digits(d));
            return None;
        }
        let ghost t = d.take(i + 1 - start);
        assert(t.drop_last() =~= d.take(i - start));
        assert(t.last() == c);
        acc = acc * 10 + (u - 48) as u64;
        i = i + 1;
        assert(acc == digits_value(t));
        assert(all_digits(d.take(i - start)));
        if acc > 0x8000_0000 {
            proof {
                if all_digits(d) {
                    lemma_digits_value_mono(d, i - start, d.len() as int);
                    assert(d.take(d.len() as int) =~= d);
                }
            }
            return None;
        }
    }
    assert(d.take(d.len() as int) =~= d);
    if neg {
        let v: i64 = -(acc as i64);
        Some(v as i32)
    } else if acc <= 0x7fff_ffff {
        Some(acc as i32)
    } else {
        None
    }
}

/// A character is an ASCII uppercase letter.
pub open spec fn is_ascii_upper(c: char) -> bool {
    65 <= c as u32 <= 90
}

/// `char::to_ascii_lowercase`.
pub open spec fn ascii_lower(c: char) -> char {
    if is_ascii_upper(c) {
        ((c as u32) + 32) as char
    } else {
        c
    }
}

/// `str::to_ascii_lowercase`.
pub open spec fn lower(s: Seq<char>) -> Seq<char> {
    s.map_values(|c: char| ascii_lower(c))
}

/// `char::to_ascii_lowercase`.
pub fn char_to_ascii_lower(c: char) -> (r: char)
    ensures
        r == ascii_lower(c),
{
    let u = c as u32;
    if 65 <= u && u <= 90 {
        let b: u8 = (u + 32) as u8;
        b as char
    } else {
        c
    }
}

/// `str::to_ascii_lowercase` on characters.
pub fn lower_chars(s: &[char]) -> (out: Vec<char>)
    ensures
        out@ == lower(s@),
{
    let mut out: Vec<char> = Vec::new();
    let mut i: usize = 0;
    while i < s.len()
        invariant
            i <= s.len(),
            out@ == lower(s@.take(i as int)),
        decreases s.len() - i,
    {
        out.push(char_to_ascii_lower(s[i]));
        i = i + 1;
        assert(out@ =~= lower(s@.take(i as int)));
    }
    assert(s@.take(s.len() as int) =~= s@);
    out
}

/// `str::eq_ignore_ascii_case`.
pub open spec fn eq_ignore_case(a: Seq<char>, b: Seq<char>) -> bool {
    lower(a) == lower(b)
}

/// `str::eq_ignore_ascii_case` on characters.
pub fn chars_eq_ignore_case(a: &[char], b: &[char]) -> (r: bool)
    ensures
        r == eq_ignore_case(a@, b@),
{
    let la = lower_chars(a);
    let lb = lower_chars(b);
    chars_eq(&la, &lb)
}

/// `s[i..i + pat.len()] == pat`.
pub open spec fn matches_at(s: Seq<char>, pat: Seq<char>, i: int) -> bool {
    0 <= i && i + pat.len() <= s.len() && s.subrange(i, i + pat.len()) == pat
}

/// The first index at or after `i` where `pat` occurs in `s`.
pub open spec fn find_from(s: Seq<char>, pat: Seq<char>, i: int) -> Option<int>
    decreases s.len() + 1 - i,
{
    if i < 0 || i + pat.len() > s.len() {
        None
    } else if matches_at(s, pat, i) {
        Some(i)
    } else {
        find_from(s, pat, i + 1)
    }
}

/// `str::find` with a string pattern, as a character index.
pub open spec fn find(s: Seq<char>, pat: Seq<char>) -> Option<int> {
    find_from(s, pat, 0)
}

fn matches_at_exec(s: &[char], pat: &[char], i: usize) -> (r: bool)
    requires
        i + pat.len() <= s.len(),
    ensures
        r == matches_at(s@, pat@, i as int),
{
    let mut k: usize = 0;
    while k < pat.len()
        invariant
            i + pat.len() <= s.len(),
            k <= pat.len(),
            forall|m: int| 0 <= m < k ==> s@[i + m] == pat@[m],
        decreases pat.len() - k,
    {
        if s[i + k] != pat[k] {
            assert(s@.subrange(i as int, i + pat.len())[k as int] != pat@[k as int]);
            return false;
        }
        k = k + 1;
    }
    assert(s@.subrange(i as int, i + pat.len()) =~= pat@);
    true
}

/// `str::find` on characters.
pub fn find_chars(s: &[char], pat: &[char]) -> (r: Option<usize>)
    ensures
        match r {
            Some(i) => find(s@, pat@) == Some(i as int),
            None => find(s@, pat@) is None,
        },
{
    if pat.len() > s.len() {
        return None;
    }
    if pat.len() == 0 {
        assert(s@.subrange(0, 0) =~= pat@);
        return Some(0);
    }
    let mut i: usize = 0;
    while i <= s.len() - pat.len()
        invariant
            1 <= pat.len() <= s.len(),
            i <= s.len(),
            find(s@, pat@) == find_from(s@, pat@, i as int),
        decreases s.len() - i,
    {
        if matches_at_exec(s, pat, i) {
            return Some(i);
        }
        i = i + 1;
    }
    None
}

/// The ASCII digit for a value below ten.
pub open spec fn digit_char(d: int) -> char {
    (48 + d) as char
}

/// The decimal digits of `n`, without leading zeros.
pub open spec fn decimal(n: nat) -> Seq<char>
    decreases n,
{
    if n < 10 {
        seq![digit_char(n as int)]
    } else {
        decimal(n / 10).push(digit_char((n % 10) as int))
    }
}

/// `s` padded on the left with `fill` up to `width` characters.
pub open spec fn pad_left(s: Seq<char>, width: nat, fill: char) -> Seq<char> {
    if s.len() >= width {
        s
    } else {
        Seq::new((width - s.len()) as nat, |i: int| fill) + s
    }
}

/// `n` spaces.
pub open spec fn spaces(n: nat) -> Seq<char> {
    Seq::new(n, |i: int| ' ')
}

/// `s` padded on the right with spaces up to `width` characters.
pub open spec fn pad_right(s: Seq<char>, width: nat) -> Seq<char> {
    if s.len() >= width {
        s
    } else {
        s + spaces((width - s.len()) as nat)
    }
}

/// Appends the decimal digits of `n`.
pub fn push_decimal(out: &mut Vec<char>, n: u64)
    ensures
        final(out)@ == old(out)@ + decimal(n as nat),
    decreases n,
{
    if n < 10 {
        let b: u8 = (48 + n) as u8;
        out.push(b as char);
        assert(decimal(n as nat) =~= seq![digit_char(n as int)]);
    } else {
        push_decimal(out, n / 10);
        let b: u8 = (48 + n % 10) as u8;
        out.push(b as char);
    }
}

/// Appends `fill` until `out` has grown by `count` characters.
pub fn push_repeat(out: &mut Vec<char>, fill: char, count: usize)
    ensures
        final(out)@ == old(out)@ + Seq::new(count as nat, |i: int| fill),
{
    let ghost start = out@;
    let mut k: usize = 0;
    while k < count
        invariant
            k <= count,
            out@ == start + Seq::new(k as nat, |i: int| fill),
        decreases count - k,
    {
        out.push(fill);
        k = k + 1;
        assert(out@ =~= start + Seq::new(k as nat, |i: int| fill));
    }
}

/// Appends `s` padded on the right with spaces to `width` characters.
pub fn push_padded_right(out: &mut Vec<char>, s: &[char], width: usize)
    ensures
        final(out)@ == old(out)@ + pad_right(s@, width as nat),
{
    let ghost start = out@;
    push_all(out, s);
    if s.len() < width {
        push_repeat(out, ' ', width - s.len());
        assert(out@ =~= start + pad_right(s@, width as nat));
    }
}

/// Appends `s` padded on the left with `fill` to `width` characters.
pub fn push_padded_left(out: &mut Vec<char>, s: &[char], width: usize, fill: char)
    ensures
        final(out)@ == old(out)@ + pad_left(s@, width as nat, fill),
{
    let ghost start = out@;
    if s.len() < width {
        push_repeat(out, fill, width - s.len());
    }
    push_all(out, s);
    assert(out@ =~= start + pad_left(s@, width as nat, fill));
}

/// `s` with every `from` replaced by `to`.
pub open spec fn replace_char(s: Seq<char>, from: char, to: char) -> Seq<char> {
    s.map_values(|c: char| if c == from { to } else { c })
}

/// `str::replace` of one character by another, on characters.
pub fn replace_char_chars(s: &[char], from: char, to: char) -> (out: Vec<char>)
    ensures
        out@ == replace_char(s@, from, to),
{
    let mut out: Vec<char> = Vec::new();
    let mut i: usize = 0;
    while i < s.len()
        invariant
            i <= s.len(),
            out@ == replace_char(s@.take(i as int), from, to),
        decreases s.len() - i,
    {
        out.push(if s[i] == from { to } else { s[i] });
        i = i + 1;
        assert(out@ =~= replace_char(s@.take(i as int), from, to));
    }
    assert(s@.take(s.len() as int) =~= s@);
    out
}


/// The index of the first element satisfying `p`.
pub open spec fn first_where<A>(s: Seq<A>, p: spec_fn(A) -> bool) -> Option<int>
    decreases s.len(),
{
    if s.len() == 0 {
        None
    } else {
        match first_where(s.drop_last(), p) {
            Some(i) => Some(i),
            None => if p(s.last()) {
                Some(s.len() - 1)
            } else {
                None
            },
        }
    }
}

/// No element satisfies `p`, so there is no first one.
pub proof fn lemma_first_where_none<A>(s: Seq<A>, p: spec_fn(A) -> bool)
    requires
        forall|j: int| 0 <= j < s.len() ==> !p(#[trigger] s[j]),
    ensures
        first_where(s, p) is None,
    decreases s.len(),
{
    if s.len() > 0 {
        let t = s.drop_last();
        assert forall|j: int| 0 <= j < t.len() implies !p(#[trigger] t[j]) by {
            assert(t[j] == s[j]);
        }
        lemma_first_where_none(t, p);
    }
}

/// The first element satisfying `p` is at `i`.
pub proof fn lemma_first_where_at<A>(s: Seq<A>, p: spec_fn(A) -> bool, i: int)
    requires
        0 <= i < s.len(),
        p(s[i]),
        forall|j: int| 0 <= j < i ==> !p(#[trigger] s[j]),
    ensures
        first_where(s, p) == Some(i),
    decreases s.len(),
{
    let t = s.drop_last();
    if i == s.len() - 1 {
        assert forall|j: int| 0 <= j < t.len() implies !p(#[trigger] t[j]) by {
            assert(t[j] == s[j]);
        }
        lemma_first_where_none(t, p);
    } else {
        assert(t[i] == s[i]);
        assert forall|j: int| 0 <= j < i implies !p(#[trigger] t[j]) by {
            assert(t[j] == s[j]);
        }
        lemma_first_where_at(t, p, i);
    }
}


/// A found occurrence lies inside the string.
pub proof fn lemma_find_bounds(s: Seq<char>, pat: Seq<char>)
    ensures
        find(s, pat) matches Some(i) ==> matches_at(s, pat, i),
{
    lemma_find_from_bounds(s, pat, 0);
}

proof fn lemma_find_from_bounds(s: Seq<char>, pat: Seq<char>, i: int)
    ensures
        find_from(s, pat, i) matches Some(k) ==> matches_at(s, pat, k),
    decreases s.len() + 1 - i,
{
    if !(i < 0 || i + pat.len() > s.len()) && !matches_at(s, pat, i) {
        lemma_find_from_bounds(s, pat, i + 1);
    }
}


/// The first index lies inside the sequence.
pub proof fn lemma_first_where_bounds<A>(s: Seq<A>, p: spec_fn(A) -> bool)
    ensures
        first_where(s, p) matches Some(i) ==> 0 <= i < s.len() && p(s[i]),
    decreases s.len(),
{
    if s.len() > 0 {
        lemma_first_where_bounds(s.drop_last(), p);
    }
}


/// A Unicode scalar value: at most `0x10FFFF` and not a surrogate.
pub open spec fn is_scalar(code: u32) -> bool {
    code <= 0x10ffff && !(0xd800 <= code <= 0xdfff)
}

/// `char::from_u32`: the character with that code, if the code is a
/// Unicode scalar value.
#[verifier::external_body]
pub(crate) fn char_from_u32(code: u32) -> (r: Option<char>)
    ensures
        match r {
            Some(c) => is_scalar(code) && c as u32 == code,
            None => !is_scalar(code),
        },
{
    char::from_u32(code)
}


/// An element satisfying `p` means there is a first one.
pub proof fn lemma_first_where_some<A>(s: Seq<A>, p: spec_fn(A) -> bool, i: int)
    requires
        0 <= i < s.len(),
        p(s[i]),
    ensures
        first_where(s, p) is Some,
    decreases s.len(),
{
    if i < s.len() - 1 {
        let t = s.drop_last();
        assert(t[i] == s[i]);
        lemma_first_where_some(t, p, i);
    }
}


/// A character converts to its code and back unchanged.
pub proof fn lemma_char_code_roundtrip(c: char)
    ensures
        (c as u32) as char == c,
{
}


/// A digit character is a digit worth its value.
pub proof fn lemma_digit_char(d: int)
    requires
        0 <= d < 10,
    ensures
        is_digit(digit_char(d)),
        digit_value(digit_char(d)) == d,
{
    assert(((48 + d) as char) as u32 == 48 + d);
}

/// The decimal digits of `n` are a nonempty digit string worth `n`.
pub proof fn lemma_decimal(n: nat)
    ensures
        decimal(n).len() >= 1,
        all_digits(decimal(n)),
        digits_value(decimal(n)) == n,
    decreases n,
{
    if n < 10 {
        lemma_digit_char(n as int);
        let d = decimal(n);
        assert(d.drop_last() =~= seq![]);
        assert(digits_value(d) == digits_value(d.drop_last()) * 10 + digit_value(d.last()));
    } else {
        lemma_decimal(n / 10);
        lemma_digit_char((n % 10) as int);
        let d = decimal(n);
        assert(d.drop_last() =~= decimal(n / 10));
        assert(digits_value(d) == digits_value(d.drop_last()) * 10 + digit_value(d.last()));
        assert(n == (n / 10) * 10 + n % 10);
        assert(d.drop_last() =~= decimal(n / 10));
        assert forall|i: int| 0 <= i < d.len() implies is_digit(#[trigger] d[i]) by {
            if i < d.len() - 1 {
                assert(d[i] == decimal(n / 10)[i]);
            }
        }
    }
}

/// Leading zeros do not change the value of a digit string.
pub proof fn lemma_zeros_value(k: nat, s: Seq<char>)
    requires
        all_digits(s),
    ensures
        all_digits(Seq::new(k, |i: int| '0') + s),
        digits_value(Seq::new(k, |i: int| '0') + s) == digits_value(s),
    decreases s.len() + k,
{
    let z = Seq::new(k, |i: int| '0');
    assert forall|i: int| 0 <= i < (z + s).len() implies is_digit(#[trigger] (z + s)[i]) by {
        if i >= k {
            assert((z + s)[i] == s[i - k]);
        }
    }
    if s.len() > 0 {
        lemma_zeros_value(k, s.drop_last());
        assert((z + s).drop_last() =~= z + s.drop_last());
    } else if k > 0 {
        lemma_zeros_value((k - 1) as nat, s);
        assert((z + s).drop_last() =~= Seq::new((k - 1) as nat, |i: int| '0') + s);
    } else {
        assert(z + s =~= s);
    }
}

/// A token without whitespace is absorbed into the current token.
pub proof fn lemma_ws_scan_word(a: Seq<char>, r: Seq<char>, cur: Seq<char>)
    requires
        forall|i: int| 0 <= i < a.len() ==> !is_ws(#[trigger] a[i]),
    ensures
        ws_scan(a + r, cur) == ws_scan(r, cur + a),
    decreases a.len(),
{
    if a.len() == 0 {
        assert(a + r =~= r);
        assert(cur + a =~= cur);
    } else {
        let t = a.drop_first();
        assert forall|i: int| 0 <= i < t.len() implies !is_ws(#[trigger] t[i]) by {
            assert(t[i] == a[i + 1]);
        }
        assert((a + r)[0] == a[0]);
        assert((a + r).drop_first() =~= t + r);
        lemma_ws_scan_word(t, r, cur.push(a[0]));
        assert(cur.push(a[0]) + t =~= cur + a);
    }
}


/// `trim_start` leaves a string that starts with a non-whitespace alone.
pub proof fn lemma_trim_start_noop(x: Seq<char>)
    requires
        x.len() == 0 || !is_ws(x[0]),
    ensures
        trim_start(x) == x,
{
}

/// Leading whitespace is dropped by `trim_start`.
pub proof fn lemma_trim_start_ws_prefix(w: Seq<char>, x: Seq<char>)
    requires
        forall|i: int| 0 <= i < w.len() ==> is_ws(#[trigger] w[i]),
    ensures
        trim_start(w + x) == trim_start(x),
    decreases w.len(),
{
    if w.len() == 0 {
        assert(w + x =~= x);
    } else {
        let t = w.drop_first();
        assert forall|i: int| 0 <= i < t.len() implies is_ws(#[trigger] t[i]) by {
            assert(t[i] == w[i + 1]);
        }
        assert((w + x)[0] == w[0]);
        assert((w + x).drop_first() =~= t + x);
        lemma_trim_start_ws_prefix(t, x);
    }
}

/// `trim_end` leaves a string that ends with a non-whitespace alone.
pub proof fn lemma_trim_end_noop(x: Seq<char>)
    requires
        x.len() == 0 || !is_ws(x.last()),
    ensures
        trim_end(x) == x,
{
}

/// Trailing whitespace is dropped by `trim_end`.
pub proof fn lemma_trim_end_ws_suffix(x: Seq<char>, w: Seq<char>)
    requires
        forall|i: int| 0 <= i < w.len() ==> is_ws(#[trigger] w[i]),
    ensures
        trim_end(x + w) == trim_end(x),
    decreases w.len(),
{
    if w.len() == 0 {
        assert(x + w =~= x);
    } else {
        let t = w.drop_last();
        assert forall|i: int| 0 <= i < t.len() implies is_ws(#[trigger] t[i]) by {
            assert(t[i] == w[i]);
        }
        assert((x + w).last() == w.last());
        assert(is_ws(w[w.len() - 1]));
        assert((x + w).drop_last() =~= x + t);
        lemma_trim_end_ws_suffix(x, t);
    }
}

/// A line without a newline is absorbed into the current line.
pub proof fn lemma_lines_scan_text(a: Seq<char>, r: Seq<char>, cur: Seq<char>)
    requires
        forall|i: int| 0 <= i < a.len() ==> #[trigger] a[i] != '\n',
    ensures
        lines_scan(a + r, cur) == lines_scan(r, cur + a),
    decreases a.len(),
{
    if a.len() == 0 {
        assert(a + r =~= r);
        assert(cur + a =~= cur);
    } else {
        let t = a.drop_first();
        assert forall|i: int| 0 <= i < t.len() implies #[trigger] t[i] != '\n' by {
            assert(t[i] == a[i + 1]);
        }
        assert((a + r)[0] == a[0]);
        assert((a + r).drop_first() =~= t + r);
        lemma_lines_scan_text(t, r, cur.push(a[0]));
        assert(cur.push(a[0]) + t =~= cur + a);
    }
}


/// `trim_start` never lengthens and keeps a non-whitespace last character.
pub proof fn lemma_trim_start_len(x: Seq<char>)
    ensures
        trim_start(x).len() <= x.len(),
        x.len() >= 1 && !is_ws(x.last()) ==> trim_start(x).len() >= 1 && trim_start(x).last()
            == x.last() && !is_ws(trim_start(x).last()),
    decreases x.len(),
{
    if x.len() > 0 && is_ws(x[0]) {
        lemma_trim_start_len(x.drop_first());
        if x.len() >= 1 && !is_ws(x.last()) {
            assert(x.len() >= 2);
            assert(x.drop_first().last() == x.last());
        }
    }
}

/// A string equal to its trim starts with a non-whitespace, if nonempty.
pub proof fn lemma_trim_first_not_ws(v: Seq<char>)
    requires
        trim(v) == v,
        v.len() >= 1,
    ensures
        !is_ws(v[0]),
{
    lemma_trim_start_len(v);
    if is_ws(v[0]) {
        lemma_trim_start_len(v.drop_first());
        lemma_trim_end_len(trim_start(v));
    }
}

/// `trim_end` never lengthens and keeps the prefix.
pub proof fn lemma_trim_end_len(x: Seq<char>)
    ensures
        trim_end(x).len() <= x.len(),
    decreases x.len(),
{
    if x.len() > 0 && is_ws(x.last()) {
        lemma_trim_end_len(x.drop_last());
    }
}

/// A string equal to its trim ends with a non-whitespace, if nonempty.
pub proof fn lemma_trim_last_not_ws(v: Seq<char>)
    requires
        trim(v) == v,
        v.len() >= 1,
    ensures
        !is_ws(v.last()),
{
    lemma_trim_start_len(v);
    lemma_trim_end_len(trim_start(v));
    if is_ws(v.last()) {
        let s = trim_start(v);
        if s.len() == v.len() {
            assert(s == v) by {
                lemma_trim_start_prefix_drop(v);
            }
            lemma_trim_end_len(v.drop_last());
        }
    }
}

/// `trim_start` returns a suffix of its argument.
pub proof fn lemma_trim_start_prefix_drop(x: Seq<char>)
    ensures
        trim_start(x) == x.skip(x.len() - trim_start(x).len()),
    decreases x.len(),
{
    lemma_trim_start_len(x);
    if x.len() > 0 && is_ws(x[0]) {
        lemma_trim_start_prefix_drop(x.drop_first());
        lemma_trim_start_len(x.drop_first());
        assert(x.drop_first().skip(x.len() - 1 - trim_start(x).len()) =~= x.skip(
            x.len() - trim_start(x).len(),
        ));
    } else {
        assert(x.skip(0) =~= x);
    }
}

} // verus!
